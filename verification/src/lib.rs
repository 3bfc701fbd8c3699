//! Core logic of a hand-tracked VR manipulation layer.
//!
//! Tracked controller poses drive physically simulated hand proxies which can
//! search for, attach to, and release dynamic objects in a rigid-body
//! simulation.  The crate contains the three pieces that must stay in lock
//! step every simulation substep:
//!
//! * a velocity-based pose-tracking controller (plus a PID variant) that
//!   turns a target pose into velocity or force commands,
//! * a grab state machine that searches for nearby grabbable bodies,
//!   resolves them through the object hierarchy and forms or breaks
//!   attachments, and
//! * a fixed joint with rotation offset, solved incrementally inside an
//!   XPBD-style substep loop with its own Lagrange-multiplier bookkeeping.
//!
//! All geometry uses fixed-point arithmetic over `i64` (see [`fx`]): the
//! host engine converts its floating-point state at the boundary.  Every
//! public operation carries a contract describing its exact result.
//!
//! Layout: [`fx`], [`vec3`], [`quat`] and [`pose`] hold the arithmetic
//! and geometry; [`body`] the per-body state excerpt; [`tracking`] and
//! [`pid`] the two pose followers; [`grab`] the state machine; [`joint`]
//! the constraint and its solver.

pub mod body;
pub mod fx;
pub mod grab;
pub mod joint;
pub mod pid;
pub mod pose;
pub mod quat;
pub mod tracking;
pub mod vec3;
