//! Quaternion arithmetic and the shortest-path rotation behavior.

use vr_hands::fx::SCALE;
use vr_hands::quat::Quat;
use vr_hands::vec3::Vec3;

// A unit quaternion with exact fixed-point components: rotation about +z
// (3-4-5 triangle, squared norm exactly SCALE * SCALE).
fn tilted() -> Quat {
    Quat { x: 0, y: 0, z: 6_000, w: 8_000 }
}

#[test]
fn identity_and_conjugate() {
    let id = Quat::identity();
    assert_eq!(id, Quat { x: 0, y: 0, z: 0, w: SCALE });
    let q = tilted();
    assert_eq!(q.conj(), Quat { x: 0, y: 0, z: -6_000, w: 8_000 });
    assert_eq!(q.neg(), Quat { x: 0, y: 0, z: -6_000, w: -8_000 });
    assert_eq!(q.norm_sq(), SCALE * SCALE);
}

#[test]
fn dot_product_tells_hemispheres_apart() {
    let id = Quat::identity();
    assert_eq!(id.dot_raw(&tilted()), SCALE * 8_000);
    assert_eq!(id.dot_raw(&tilted().neg()), -SCALE * 8_000);
}

#[test]
fn rotating_by_the_identity_is_exact() {
    let id = Quat::identity();
    let v = Vec3 { x: 150, y: -2_000, z: 777 };
    assert_eq!(id.rotate(&v), v);
}

#[test]
fn rotating_by_a_half_turn_flips_the_plane() {
    // Half turn about z: (0, 0, SCALE, 0).
    let half = Quat { x: 0, y: 0, z: SCALE, w: 0 };
    let v = Vec3 { x: 1_000, y: 2_000, z: 300 };
    assert_eq!(half.rotate(&v), Vec3 { x: -1_000, y: -2_000, z: 300 });
}

#[test]
fn normalize_scales_back_to_unit_length() {
    let q = Quat { x: 0, y: 0, z: 3_000, w: 4_000 };
    assert_eq!(q.normalize(), tilted());
    let already = tilted();
    assert_eq!(already.normalize(), already);
}

#[test]
fn shortest_rotation_from_identity() {
    let id = Quat::identity();
    let d = id.shortest_rotation_to(&tilted());
    // Same hemisphere: the delta is tilted * conj(identity), in raw
    // square units.
    assert_eq!(d, Quat { x: 0, y: 0, z: 6_000 * SCALE, w: 8_000 * SCALE });
}

#[test]
fn hemisphere_correction_is_exact() {
    // dot(from, to) < 0: the delta computed from to and from -to must
    // coincide, and its scalar part stays nonnegative (angle at most a
    // half turn).
    let from = Quat::identity();
    let to = tilted().neg();
    assert!(from.dot_raw(&to) < 0);
    let d1 = from.shortest_rotation_to(&to);
    let d2 = from.shortest_rotation_to(&to.neg());
    assert_eq!(d1, d2);
    assert!(d1.w >= 0);
}

#[test]
fn shortest_rotation_scalar_part_is_never_negative() {
    let samples = [
        Quat::identity(),
        tilted(),
        tilted().neg(),
        Quat { x: 6_000, y: 0, z: 0, w: -8_000 },
        Quat { x: 0, y: -8_000, z: 0, w: 6_000 },
    ];
    for a in samples.iter() {
        for b in samples.iter() {
            assert!(a.shortest_rotation_to(b).w >= 0);
        }
    }
}
