//! Velocity-based pose tracking.
//!
//! Each tick the controller reads a tracked body's pose and its target's
//! pose and emits velocity commands: a proportional spring toward the
//! target position, and an angular velocity along the shortest-arc
//! rotation delta.  When the target has moved beyond the configured
//! maximum distance the body is snapped to the target pose instead, so
//! the proxy can never drift unboundedly far from the real controller.

use vstd::prelude::*;

use crate::body::Body;
use crate::fx;
use crate::fx::{div_trunc, fx_wf};
use crate::pose::{pose_wf, Pose};
use crate::quat::{shortest_rotation_spec, Q4};
use crate::vec3::{v3_norm_sq, v3_scale, v3_sub, V3, Vec3};

verus! {

/// Binds a moving body to a target pose source, with tuning scalars.
#[derive(Clone, Copy, Debug, PartialEq, Eq, Structural)]
pub struct VelocityTracked {
    /// Handle of the entity whose pose is followed.
    pub follow_target: usize,
    /// Proportional gain of the positional spring, per second.
    pub follow_strength: i64,
    /// Distance beyond which the body is snapped instead of pulled.
    pub max_distance: i64,
    /// Proportional gain of the angular follow term, per second.
    pub rotation_follow_strength: i64,
}

/// Tuning scalars within range.
pub open spec fn tracked_wf(t: VelocityTracked) -> bool {
    &&& 0 <= t.follow_strength && fx_wf(t.follow_strength as int)
    &&& 0 <= t.max_distance && fx_wf(t.max_distance as int)
    &&& 0 <= t.rotation_follow_strength && fx_wf(t.rotation_follow_strength as int)
}

/// The rotation error from `from` to `to` as a scaled-axis-style vector:
/// twice the vector part of the shortest-arc delta, brought back to
/// component scale.
pub open spec fn rot_error_vec(from: Q4, to: Q4) -> V3 {
    let d = shortest_rotation_spec(from, to);
    V3 {
        x: div_trunc(2 * d.x, fx::SCALE as int),
        y: div_trunc(2 * d.y, fx::SCALE as int),
        z: div_trunc(2 * d.z, fx::SCALE as int),
    }
}

/// The target is farther from the body than the configured maximum
/// distance — the desync case of the tracking contract.
pub open spec fn track_desynced(t: VelocityTracked, current: V3, target: V3) -> bool {
    v3_norm_sq(v3_sub(target, current)) > (t.max_distance as int) * (t.max_distance as int)
}

/// One tracking tick.
///
/// In range, the body gets a linear velocity proportional to the position
/// delta and keeps its pose.  Out of range the pose is snapped exactly to
/// the target and the spring term contributes no residual linear
/// velocity.  Either way the angular velocity follows the shortest-arc
/// rotation delta, computed from the orientation the body had on entry.
pub fn velocity_track(t: &VelocityTracked, body: &mut Body, target: &Pose)
    requires
        tracked_wf(*t),
        pose_wf(old(body)@.pose),
        pose_wf(target@),
    ensures
        track_desynced(*t, old(body)@.pose.position, target@.position) ==> {
            &&& final(body)@.pose == target@
            &&& final(body)@.linear_velocity == (V3 { x: 0, y: 0, z: 0 })
        },
        !track_desynced(*t, old(body)@.pose.position, target@.position) ==> {
            &&& final(body)@.pose == old(body)@.pose
            &&& final(body)@.linear_velocity == v3_scale(
                v3_sub(target@.position, old(body)@.pose.position),
                t.follow_strength as int,
            )
        },
        final(body)@.angular_velocity == v3_scale(
            rot_error_vec(old(body)@.pose.orientation, target@.orientation),
            t.rotation_follow_strength as int,
        ),
        final(body)@.inv_mass == old(body)@.inv_mass,
        final(body)@.inv_inertia == old(body)@.inv_inertia,
{
    // Rotation tracking, from the orientation the body holds on entry.
    let delta = body.pose.orientation.shortest_rotation_to(&target.orientation);
    proof {
        fx::lemma_div_trunc_le(2 * delta@.x, fx::SCALE as int, 80_000);
        fx::lemma_div_trunc_le(2 * delta@.y, fx::SCALE as int, 80_000);
        fx::lemma_div_trunc_le(2 * delta@.z, fx::SCALE as int, 80_000);
    }
    let err = Vec3 {
        x: fx::div_trunc_i128(2 * (delta.x as i128), fx::SCALE as i128) as i64,
        y: fx::div_trunc_i128(2 * (delta.y as i128), fx::SCALE as i128) as i64,
        z: fx::div_trunc_i128(2 * (delta.z as i128), fx::SCALE as i128) as i64,
    };
    body.angular_velocity = err.scale(t.rotation_follow_strength);

    // Position tracking.
    let delta_position = target.position.sub(&body.pose.position);
    let dsq = delta_position.norm_sq();
    proof {
        fx::lemma_mul_abs_bound(
            t.max_distance as int,
            t.max_distance as int,
            fx::LIM as int,
            fx::LIM as int,
        );
    }
    let max_sq = t.max_distance * t.max_distance;
    if dsq <= max_sq {
        body.linear_velocity = delta_position.scale(t.follow_strength);
    } else {
        body.pose = *target;
        body.linear_velocity = Vec3::zero();
    }
}

} // verus!
