//! The fixed joint with rotation offset and its substep solver.

use vr_hands::body::Body;
use vr_hands::fx::SCALE;
use vr_hands::joint::{joint_damping, FixedJoint2};
use vr_hands::pose::Pose;
use vr_hands::quat::Quat;
use vr_hands::vec3::Vec3;

fn dynamic_body(x: i64, y: i64, z: i64) -> Body {
    Body {
        pose: Pose { position: Vec3 { x, y, z }, orientation: Quat::identity() },
        linear_velocity: Vec3 { x: 0, y: 0, z: 0 },
        angular_velocity: Vec3 { x: 0, y: 0, z: 0 },
        inv_mass: SCALE,
        inv_inertia: SCALE,
    }
}

fn static_body() -> Body {
    Body {
        pose: Pose { position: Vec3 { x: 0, y: 0, z: 0 }, orientation: Quat::identity() },
        linear_velocity: Vec3 { x: 0, y: 0, z: 0 },
        angular_velocity: Vec3 { x: 0, y: 0, z: 0 },
        inv_mass: 0,
        inv_inertia: 0,
    }
}

#[test]
fn new_joint_has_rigid_defaults() {
    let j = FixedJoint2::new(3, 7);
    assert_eq!(j.entities(), (3, 7));
    assert_eq!(j.local_anchor_1(), Vec3 { x: 0, y: 0, z: 0 });
    assert_eq!(j.local_anchor_2(), Vec3 { x: 0, y: 0, z: 0 });
    assert_eq!(j.rotation_offset, Quat::identity());
    assert_eq!(j.damping_linear(), SCALE);
    assert_eq!(j.damping_angular(), SCALE);
    assert_eq!(j.compliance, 0);
    assert_eq!(j.position_lagrange, 0);
    assert_eq!(j.align_lagrange, 0);
}

#[test]
fn builders_replace_one_field_each() {
    let j = FixedJoint2::new(0, 1)
        .with_local_anchor_1(Vec3 { x: 10, y: 20, z: 30 })
        .with_local_anchor_2(Vec3 { x: -1, y: -2, z: -3 })
        .with_compliance(5)
        .with_linear_velocity_damping(2 * SCALE)
        .with_angular_velocity_damping(3 * SCALE);
    assert_eq!(j.local_anchor_1(), Vec3 { x: 10, y: 20, z: 30 });
    assert_eq!(j.local_anchor_2(), Vec3 { x: -1, y: -2, z: -3 });
    assert_eq!(j.compliance, 5);
    assert_eq!(j.damping_linear(), 2 * SCALE);
    assert_eq!(j.damping_angular(), 3 * SCALE);
}

#[test]
fn rotation_offset_is_normalized_on_the_way_in() {
    let j = FixedJoint2::new(0, 1).with_rotation_offset(Quat { x: 0, y: 0, z: 3_000, w: 4_000 });
    assert_eq!(j.rotation_offset, Quat { x: 0, y: 0, z: 6_000, w: 8_000 });
    // The all-zero degenerate offset falls back to the identity.
    let z = FixedJoint2::new(0, 1).with_rotation_offset(Quat { x: 0, y: 0, z: 0, w: 0 });
    assert_eq!(z.rotation_offset, Quat::identity());
}

#[test]
fn clear_lagrange_multipliers_resets_only_the_accumulators() {
    let mut j = FixedJoint2::new(0, 1);
    j.position_lagrange = 55;
    j.align_lagrange = -7;
    j.clear_lagrange_multipliers();
    assert_eq!(j.position_lagrange, 0);
    assert_eq!(j.align_lagrange, 0);
    assert_eq!(j.entities(), (0, 1));
}

#[test]
fn delta_q_measures_the_orientation_error() {
    let j = FixedJoint2::new(0, 1);
    let id = Quat::identity();
    // Aligned bodies: zero error.
    assert_eq!(j.get_delta_q(&id, &id), Vec3 { x: 0, y: 0, z: 0 });
    // Body 2 turned about +z: the error vector points along +z.
    let turned = Quat { x: 0, y: 0, z: 6_000, w: 8_000 };
    assert_eq!(j.get_delta_q(&id, &turned), Vec3 { x: 0, y: 0, z: 12_000 });
}

#[test]
fn rigid_joint_converges_position_and_rotation() {
    // A rigid (zero compliance) joint under zero external disturbance:
    // body 1 starts 0.05 units away (3-4-5 layout) and turned relative
    // to the static anchor body.  Both errors must fall within one
    // fixed-point unit (1e-4) in a handful of substeps.
    let mut j = FixedJoint2::new(0, 1);
    let mut b1 = dynamic_body(300, 400, 0);
    let mut b2 = static_body();
    b2.pose.orientation = Quat { x: 0, y: 0, z: 6_000, w: 8_000 };
    let dt = 100;  // 10 ms substep

    j.clear_lagrange_multipliers();
    for _ in 0..6 {
        j.solve(&mut b1, &mut b2, dt);
    }

    // Positional error: exactly closed.
    assert_eq!(b1.pose.position, Vec3 { x: 0, y: 0, z: 0 });
    // The static body never moved.
    assert_eq!(b2.pose.position, Vec3 { x: 0, y: 0, z: 0 });
    assert_eq!(b2.pose.orientation, Quat { x: 0, y: 0, z: 6_000, w: 8_000 });
    // Rotational error: within one unit.
    let dq = j.get_delta_q(&b1.pose.orientation, &b2.pose.orientation);
    assert!(dq.norm_sq() <= 1);
}

#[test]
fn solve_accumulates_the_positional_lagrange_multiplier() {
    let mut j = FixedJoint2::new(0, 1);
    let mut b1 = dynamic_body(300, 400, 0);
    let mut b2 = static_body();
    j.solve(&mut b1, &mut b2, 100);
    // One substep closes the 0.05 gap: the multiplier carries the whole
    // correction, and the recorded impulse points along the separation.
    assert_eq!(j.position_lagrange, -500);
    assert_eq!(j.force, Vec3 { x: -300, y: -400, z: 0 });
    assert_eq!(b1.pose.position, Vec3 { x: 0, y: 0, z: 0 });
    // Zero separation afterwards: the next substep records zero force
    // and leaves the multiplier alone.
    j.solve(&mut b1, &mut b2, 100);
    assert_eq!(j.force, Vec3 { x: 0, y: 0, z: 0 });
    assert_eq!(j.position_lagrange, -500);
}

#[test]
fn damping_pulls_velocities_together() {
    // Unit damping over a 0.05-unit step blends 5% of the difference.
    let j = FixedJoint2::new(0, 1);
    let mut b1 = dynamic_body(0, 0, 0);
    let mut b2 = dynamic_body(0, 0, 0);
    b2.linear_velocity = Vec3 { x: 20_000, y: 0, z: 0 };
    b2.angular_velocity = Vec3 { x: 0, y: 20_000, z: 0 };
    joint_damping(&j, &mut b1, &mut b2, 500);
    // Angular: the 5% delta moves both, unweighted.
    assert_eq!(b1.angular_velocity, Vec3 { x: 0, y: 1_000, z: 0 });
    assert_eq!(b2.angular_velocity, Vec3 { x: 0, y: 19_000, z: 0 });
    // Linear: the delta is split by inverse mass (equal here).
    assert_eq!(b1.linear_velocity, Vec3 { x: 500, y: 0, z: 0 });
    assert_eq!(b2.linear_velocity, Vec3 { x: 19_500, y: 0, z: 0 });
}

#[test]
fn full_damping_factor_saturates() {
    // damping 10.0 over 0.2 units of time saturates the factor at one:
    // the velocities meet in the middle for equal masses.
    let j = FixedJoint2::new(0, 1)
        .with_linear_velocity_damping(10 * SCALE)
        .with_angular_velocity_damping(10 * SCALE);
    let mut b1 = dynamic_body(0, 0, 0);
    let mut b2 = dynamic_body(0, 0, 0);
    b2.linear_velocity = Vec3 { x: 20_000, y: 0, z: 0 };
    joint_damping(&j, &mut b1, &mut b2, 2_000);
    assert_eq!(b1.linear_velocity, Vec3 { x: 10_000, y: 0, z: 0 });
    assert_eq!(b2.linear_velocity, Vec3 { x: 10_000, y: 0, z: 0 });
}

#[test]
fn heavy_pair_splits_the_correction_by_mass() {
    // Two five-kilogram bodies: each contributes inverse mass 0.2, far
    // below one — the solver accepts the pair and meets them exactly in
    // the middle of the 3-4-5 separation in a single substep.
    let mut j = FixedJoint2::new(0, 1);
    let heavy = |x: i64, y: i64| Body {
        pose: Pose { position: Vec3 { x, y, z: 0 }, orientation: Quat::identity() },
        linear_velocity: Vec3 { x: 0, y: 0, z: 0 },
        angular_velocity: Vec3 { x: 0, y: 0, z: 0 },
        inv_mass: 2_000,
        inv_inertia: 2_000,
    };
    let mut b1 = heavy(300, 400);
    let mut b2 = heavy(0, 0);
    j.solve(&mut b1, &mut b2, 100);
    assert_eq!(j.position_lagrange, -1_250);
    assert_eq!(j.force, Vec3 { x: -750, y: -1_000, z: 0 });
    assert_eq!(b1.pose.position, Vec3 { x: 150, y: 200, z: 0 });
    assert_eq!(b2.pose.position, Vec3 { x: 150, y: 200, z: 0 });
    // Coincident anchors afterwards: the next substep is a no-op.
    j.solve(&mut b1, &mut b2, 100);
    assert_eq!(j.force, Vec3 { x: 0, y: 0, z: 0 });
    assert_eq!(j.position_lagrange, -1_250);
}

#[test]
fn compliant_joint_accepts_millisecond_substeps() {
    // Compliance 0.0001 over a two-millisecond substep: the effective
    // compliance dominates the denominator, so the soft spring closes
    // only a sliver of the gap.
    let mut j = FixedJoint2::new(0, 1).with_compliance(1);
    let mut b1 = dynamic_body(300, 400, 0);
    let mut b2 = static_body();
    j.solve(&mut b1, &mut b2, 20);
    assert_eq!(j.position_lagrange, -19);
    assert_eq!(j.force, Vec3 { x: -11, y: -15, z: 0 });
    assert_eq!(b1.pose.position, Vec3 { x: 289, y: 385, z: 0 });
}

#[test]
fn damping_accepts_a_light_inverse_mass_pair() {
    // Combined inverse mass 0.01 (a hundred-kilogram pair), far below
    // one: the blended difference still splits by inverse mass.
    let j = FixedJoint2::new(0, 1);
    let mut b1 = dynamic_body(0, 0, 0);
    b1.inv_mass = 100;
    let mut b2 = static_body();
    b2.linear_velocity = Vec3 { x: 20_000, y: 0, z: 0 };
    joint_damping(&j, &mut b1, &mut b2, 500);
    assert_eq!(b1.linear_velocity, Vec3 { x: 1_000, y: 0, z: 0 });
    assert_eq!(b2.linear_velocity, Vec3 { x: 20_000, y: 0, z: 0 });
}
