//! The slice of rigid-body state this crate reads and writes.
//!
//! The host simulation owns its bodies; the tracking controller and the
//! joint solver work on this plain-value excerpt of one body: pose,
//! velocities and scalar inverse mass terms.

use vstd::prelude::*;

use crate::pose::{pose_wf, Pose, PoseV};
use crate::vec3::{V3, Vec3};

verus! {

/// Largest inverse mass or inverse inertia the solver accepts
/// (one hundred whole units, i.e. a lightest body of ten grams when masses
/// are kilograms).
pub const INV_LIM: i64 = 1_000_000;

/// Pose, velocity and mass state of one simulated body.
#[derive(Clone, Copy, Debug, PartialEq, Eq, Structural)]
pub struct Body {
    /// World pose at the current substep.
    pub pose: Pose,
    /// Linear velocity command state.
    pub linear_velocity: Vec3,
    /// Angular velocity command state.
    pub angular_velocity: Vec3,
    /// Inverse mass; `0` marks a static or kinematic body.
    pub inv_mass: i64,
    /// Scalar inverse moment of inertia; `0` marks a body the angular
    /// correction cannot turn.
    pub inv_inertia: i64,
}

/// Ghost model of a body.
pub ghost struct BodyV {
    pub pose: PoseV,
    pub linear_velocity: V3,
    pub angular_velocity: V3,
    pub inv_mass: int,
    pub inv_inertia: int,
}

impl View for Body {
    type V = BodyV;

    open spec fn view(&self) -> BodyV {
        BodyV {
            pose: self.pose@,
            linear_velocity: self.linear_velocity@,
            angular_velocity: self.angular_velocity@,
            inv_mass: self.inv_mass as int,
            inv_inertia: self.inv_inertia as int,
        }
    }
}

/// A well-formed body: pose within limits, nonnegative inverse mass terms.
pub open spec fn body_wf(b: BodyV) -> bool {
    &&& pose_wf(b.pose)
    &&& 0 <= b.inv_mass <= INV_LIM as int
    &&& 0 <= b.inv_inertia <= INV_LIM as int
}

} // verus!
