//! Velocity tracking and the PID follower.

use vr_hands::body::Body;
use vr_hands::fx::SCALE;
use vr_hands::pid::{move_hand, PIDController};
use vr_hands::pose::Pose;
use vr_hands::quat::Quat;
use vr_hands::tracking::{velocity_track, VelocityTracked};
use vr_hands::vec3::Vec3;

fn body_at(x: i64, y: i64, z: i64) -> Body {
    Body {
        pose: Pose { position: Vec3 { x, y, z }, orientation: Quat::identity() },
        linear_velocity: Vec3 { x: 0, y: 0, z: 0 },
        angular_velocity: Vec3 { x: 0, y: 0, z: 0 },
        inv_mass: SCALE,
        inv_inertia: SCALE,
    }
}

fn cfg() -> VelocityTracked {
    VelocityTracked {
        follow_target: 0,
        follow_strength: 30 * SCALE,
        max_distance: 7_500,
        rotation_follow_strength: SCALE,
    }
}

#[test]
fn spring_velocity_in_range() {
    let mut body = body_at(0, 0, 0);
    // Target 0.1 units away: within the 0.75 maximum distance.
    let target = Pose {
        position: Vec3 { x: 1_000, y: 0, z: 0 },
        orientation: Quat::identity(),
    };
    velocity_track(&cfg(), &mut body, &target);
    assert_eq!(body.linear_velocity, Vec3 { x: 30_000, y: 0, z: 0 });
    // Pose untouched in range.
    assert_eq!(body.pose.position, Vec3 { x: 0, y: 0, z: 0 });
    assert_eq!(body.angular_velocity, Vec3 { x: 0, y: 0, z: 0 });
}

#[test]
fn desync_snaps_pose_and_zeroes_the_spring() {
    // The target moved 2.0 units away, past max_distance 0.75: the body
    // must be snapped exactly to the target pose with no residual spring
    // velocity.
    let mut body = body_at(0, 0, 0);
    let target = Pose {
        position: Vec3 { x: 20_000, y: 0, z: 0 },
        orientation: Quat { x: 0, y: 0, z: 6_000, w: 8_000 },
    };
    velocity_track(&cfg(), &mut body, &target);
    assert_eq!(body.pose, target);
    assert_eq!(body.linear_velocity, Vec3 { x: 0, y: 0, z: 0 });
}

#[test]
fn angular_velocity_follows_the_rotation_delta() {
    let mut body = body_at(0, 0, 0);
    let target = Pose {
        position: Vec3 { x: 0, y: 0, z: 0 },
        orientation: Quat { x: 0, y: 0, z: 6_000, w: 8_000 },
    };
    velocity_track(&cfg(), &mut body, &target);
    // Twice the vector part of the shortest-arc delta, times a unit gain.
    assert_eq!(body.angular_velocity, Vec3 { x: 0, y: 0, z: 12_000 });
}

fn pid() -> PIDController {
    PIDController::new(100 * SCALE, 10 * SCALE, 20 * SCALE, 20 * SCALE, 2 * SCALE, 2_500)
}

#[test]
fn pid_update_computes_the_three_terms() {
    let mut c = pid();
    let error = Vec3 { x: 100, y: 0, z: 0 };
    let force = c.update(&error, 100);
    // p: 100 * 100.0 = 10_000; i: (100 * 0.01) * 10.0 = 10;
    // d: (100 - 0) * 20.0 / 0.01 = 200_000; the sum is clamped to the
    // maximum force of 20.0.
    assert_eq!(force, Vec3 { x: 200_000, y: 0, z: 0 });
    assert_eq!(c.integral_error, Vec3 { x: 1, y: 0, z: 0 });
    assert_eq!(c.last_error, error);
}

#[test]
fn pid_second_tick_has_no_derivative_kick() {
    let mut c = pid();
    let error = Vec3 { x: 100, y: 0, z: 0 };
    c.update(&error, 100);
    let force = c.update(&error, 100);
    // p: 10_000; i: integral is now 0.0002, times 10.0 = 20; d: 0.
    assert_eq!(force, Vec3 { x: 10_020, y: 0, z: 0 });
}

#[test]
fn pid_vanishing_timestep_is_a_no_op() {
    let mut c = pid();
    let before = c;
    let force = c.update(&Vec3 { x: 500, y: 0, z: 0 }, 0);
    assert_eq!(force, Vec3 { x: 0, y: 0, z: 0 });
    assert_eq!(c, before);
}

#[test]
fn pid_reset_zeroes_the_accumulators() {
    let mut c = pid();
    c.update(&Vec3 { x: 100, y: 0, z: 0 }, 100);
    c.reset();
    assert_eq!(c.integral_error, Vec3 { x: 0, y: 0, z: 0 });
    assert_eq!(c.last_error, Vec3 { x: 0, y: 0, z: 0 });
}

#[test]
fn move_hand_applies_pid_force_when_close() {
    let mut c = pid();
    let mut body = body_at(0, 0, 0);
    let controller = Vec3 { x: 100, y: 0, z: 0 };
    let force = move_hand(&mut c, &mut body, &controller, 100);
    assert_eq!(force, Vec3 { x: 200_000, y: 0, z: 0 });
    assert_eq!(body.pose.position, Vec3 { x: 0, y: 0, z: 0 });
}

#[test]
fn move_hand_resets_on_excessive_error() {
    // The hand proxy lags 0.3 units behind, past the 0.25 ceiling: hard
    // reset — pose snapped, velocities zeroed, accumulators cleared.
    let mut c = pid();
    c.update(&Vec3 { x: 100, y: 0, z: 0 }, 100);
    let mut body = body_at(0, 0, 0);
    body.linear_velocity = Vec3 { x: 5, y: 5, z: 5 };
    let controller = Vec3 { x: 3_000, y: 0, z: 0 };
    let force = move_hand(&mut c, &mut body, &controller, 100);
    assert_eq!(force, Vec3 { x: 0, y: 0, z: 0 });
    assert_eq!(body.pose.position, controller);
    assert_eq!(body.linear_velocity, Vec3 { x: 0, y: 0, z: 0 });
    assert_eq!(body.angular_velocity, Vec3 { x: 0, y: 0, z: 0 });
    assert_eq!(c.integral_error, Vec3 { x: 0, y: 0, z: 0 });
    assert_eq!(c.last_error, Vec3 { x: 0, y: 0, z: 0 });
}

#[test]
fn snap_computes_the_angular_delta_from_the_entry_orientation() {
    // Even on the snap branch the angular command follows the delta
    // measured from the orientation the body had on entry.
    let mut body = body_at(0, 0, 0);
    let target = Pose {
        position: Vec3 { x: 20_000, y: 0, z: 0 },
        orientation: Quat { x: 0, y: 0, z: 6_000, w: 8_000 },
    };
    velocity_track(&cfg(), &mut body, &target);
    assert_eq!(body.angular_velocity, Vec3 { x: 0, y: 0, z: 12_000 });
}
