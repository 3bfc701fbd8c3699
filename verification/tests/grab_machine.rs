//! The grab state machine: search, selection, attachment, release.

use vr_hands::grab::{
    grab_point, grab_when_close_enough, handle_grab_end, handle_grab_start,
    update_grabbing_grabbers, world_well_formed, CandidateHit, ClosestPoints, EndGrabEvent,
    EntityNode, GrabError, GrabWorld, Grabbable, Grabber, GrabberState, Hand, Layer,
    StartGrabEvent,
};
use vr_hands::pose::Pose;
use vr_hands::quat::Quat;
use vr_hands::vec3::Vec3;

fn node_at(x: i64, y: i64, z: i64) -> EntityNode {
    EntityNode {
        parent: None,
        is_rigid_body: true,
        pose: Pose { position: Vec3 { x, y, z }, orientation: Quat::identity() },
        grabbable: None,
    }
}

fn grabbable_node(x: i64, y: i64, z: i64) -> EntityNode {
    EntityNode { grabbable: Some(Grabbable { grabbed_by: Vec::new() }), ..node_at(x, y, z) }
}

/// A world with the grabber at the origin (entity 0) and one grabbable
/// rigid cube at 0.3 units along x (entity 1); search radius 0.1, grab
/// tolerance 0.02.
fn small_world() -> GrabWorld {
    GrabWorld {
        entities: vec![node_at(0, 0, 0), grabbable_node(3_000, 0, 0)],
        grabbers: vec![Grabber {
            hand: Hand::Left,
            entity: 0,
            search_radius: 1_000,
            grab_tolerance: 200,
            grabbable_layer_mask: Layer::Grabbable.mask(),
            state: GrabberState::Idle,
        }],
        joints: Vec::new(),
    }
}

fn hit(entity: usize, px: i64, py: i64, pz: i64) -> CandidateHit {
    CandidateHit {
        entity,
        closest: ClosestPoints::WithinMargin(Vec3 { x: 0, y: 0, z: 0 }, Vec3 {
            x: px,
            y: py,
            z: pz,
        }),
    }
}

fn refs(w: &GrabWorld, e: usize) -> Vec<usize> {
    w.entities[e].grabbable.as_ref().unwrap().grabbed_by.clone()
}

#[test]
fn start_grab_moves_an_idle_grabber_to_searching() {
    let mut w = small_world();
    handle_grab_start(&mut w, &StartGrabEvent { hand: Hand::Left });
    assert!(matches!(w.grabbers[0].state, GrabberState::Searching(None)));
    assert!(refs(&w, 1).is_empty());
    assert!(w.joints.is_empty());
}

#[test]
fn candidate_in_search_range_but_outside_tolerance_is_selected_not_held() {
    // Squared distance 0.0009 (distance 0.03) from the grabber origin:
    // the candidate must be selected, but 0.03 > 0.02 forbids the grab.
    let mut w = small_world();
    handle_grab_start(&mut w, &StartGrabEvent { hand: Hand::Left });
    let cands = vec![hit(1, 300, 0, 0)];
    assert!(update_grabbing_grabbers(&mut w, 0, &cands).is_ok());
    match w.grabbers[0].state {
        GrabberState::Searching(Some((target, point))) => {
            assert_eq!(target, 1);
            assert_eq!(point, Vec3 { x: 300, y: 0, z: 0 });
        }
        _ => panic!("expected a chosen candidate"),
    }
    assert_eq!(refs(&w, 1), vec![0]);
    assert!(grab_when_close_enough(&mut w, 0).is_ok());
    assert!(matches!(w.grabbers[0].state, GrabberState::Searching(Some(_))));
    assert!(w.joints.is_empty());
}

#[test]
fn candidate_within_tolerance_forms_the_joint() {
    // The same candidate now at distance 0.015 < 0.02: the next frame
    // must transition to held, creating exactly one joint with local
    // anchors computed from each body's pose at that instant.
    let mut w = small_world();
    handle_grab_start(&mut w, &StartGrabEvent { hand: Hand::Left });
    let cands = vec![hit(1, 150, 0, 0)];
    assert!(update_grabbing_grabbers(&mut w, 0, &cands).is_ok());
    assert!(grab_when_close_enough(&mut w, 0).is_ok());
    match w.grabbers[0].state {
        GrabberState::Held { target, body, joint } => {
            assert_eq!(target, 1);
            assert_eq!(body, 1);
            assert_eq!(joint, 0);
        }
        _ => panic!("expected a held grabber"),
    }
    assert_eq!(w.joints.len(), 1);
    let j = w.joints[0].as_ref().unwrap();
    assert_eq!(j.entities(), (0, 1));
    // Grab point in each body's local frame (identity orientations).
    assert_eq!(j.local_anchor_1(), Vec3 { x: 150, y: 0, z: 0 });
    assert_eq!(j.local_anchor_2(), Vec3 { x: -2_850, y: 0, z: 0 });
    assert_eq!(j.rotation_offset, Quat::identity());
    assert_eq!(j.compliance, 0);
    assert_eq!(refs(&w, 1), vec![0]);
}

#[test]
fn nearer_of_two_candidates_wins() {
    // Two grabbables in range at squared distances 4.0 and 1.0: the one
    // at squared distance 1.0 must be selected.
    let mut w = small_world();
    w.entities.push(grabbable_node(0, 10_000, 0));
    handle_grab_start(&mut w, &StartGrabEvent { hand: Hand::Left });
    let cands = vec![hit(1, 20_000, 0, 0), hit(2, 0, 10_000, 0)];
    assert!(update_grabbing_grabbers(&mut w, 0, &cands).is_ok());
    match w.grabbers[0].state {
        GrabberState::Searching(Some((target, _))) => assert_eq!(target, 2),
        _ => panic!("expected a chosen candidate"),
    }
    assert_eq!(refs(&w, 1), Vec::<usize>::new());
    assert_eq!(refs(&w, 2), vec![0]);
}

#[test]
fn equal_distances_keep_provider_order() {
    let mut w = small_world();
    w.entities.push(grabbable_node(0, 300, 0));
    handle_grab_start(&mut w, &StartGrabEvent { hand: Hand::Left });
    let cands = vec![hit(1, 300, 0, 0), hit(2, 0, 300, 0)];
    assert!(update_grabbing_grabbers(&mut w, 0, &cands).is_ok());
    match w.grabbers[0].state {
        GrabberState::Searching(Some((target, _))) => assert_eq!(target, 1),
        _ => panic!("expected a chosen candidate"),
    }
}

#[test]
fn end_grab_while_held_destroys_the_joint_and_clears_the_back_reference() {
    let mut w = small_world();
    handle_grab_start(&mut w, &StartGrabEvent { hand: Hand::Left });
    let cands = vec![hit(1, 150, 0, 0)];
    assert!(update_grabbing_grabbers(&mut w, 0, &cands).is_ok());
    assert!(grab_when_close_enough(&mut w, 0).is_ok());
    assert!(matches!(w.grabbers[0].state, GrabberState::Held { .. }));

    handle_grab_end(&mut w, &EndGrabEvent { hand: Hand::Left });
    assert!(matches!(w.grabbers[0].state, GrabberState::Idle));
    assert_eq!(w.joints.len(), 1);
    assert!(w.joints[0].is_none());
    assert!(refs(&w, 1).is_empty());
}

#[test]
fn start_then_end_with_no_candidates_returns_to_the_original_state() {
    // Idempotence: a start-grab with nothing in range followed by an
    // immediate release leaves no joint and no back-reference behind.
    let mut w = small_world();
    handle_grab_start(&mut w, &StartGrabEvent { hand: Hand::Left });
    let empty: Vec<CandidateHit> = Vec::new();
    assert!(update_grabbing_grabbers(&mut w, 0, &empty).is_ok());
    assert!(matches!(w.grabbers[0].state, GrabberState::Searching(None)));
    handle_grab_end(&mut w, &EndGrabEvent { hand: Hand::Left });
    assert!(matches!(w.grabbers[0].state, GrabberState::Idle));
    assert!(w.joints.is_empty());
    assert!(refs(&w, 1).is_empty());
    assert_eq!(w.entities.len(), 2);
    assert_eq!(w.grabbers.len(), 1);
}

#[test]
fn search_resolves_colliders_to_their_grabbable_root() {
    // The collider that the spatial query reports (entity 2) is a
    // hierarchy descendant of the actual grab target (entity 1).
    let mut w = small_world();
    w.entities.push(EntityNode {
        parent: Some(1),
        is_rigid_body: false,
        pose: Pose {
            position: Vec3 { x: 3_000, y: 100, z: 0 },
            orientation: Quat::identity(),
        },
        grabbable: None,
    });
    handle_grab_start(&mut w, &StartGrabEvent { hand: Hand::Left });
    let cands = vec![hit(2, 300, 0, 0)];
    assert!(update_grabbing_grabbers(&mut w, 0, &cands).is_ok());
    match w.grabbers[0].state {
        GrabberState::Searching(Some((target, _))) => assert_eq!(target, 1),
        _ => panic!("expected a chosen candidate"),
    }
    assert_eq!(refs(&w, 1), vec![0]);
}

#[test]
fn intersecting_candidate_uses_the_grabber_position() {
    let mut w = small_world();
    handle_grab_start(&mut w, &StartGrabEvent { hand: Hand::Left });
    let cands = vec![CandidateHit { entity: 1, closest: ClosestPoints::Intersecting }];
    assert!(update_grabbing_grabbers(&mut w, 0, &cands).is_ok());
    match w.grabbers[0].state {
        GrabberState::Searching(Some((target, point))) => {
            assert_eq!(target, 1);
            assert_eq!(point, Vec3 { x: 0, y: 0, z: 0 });
        }
        _ => panic!("expected a chosen candidate"),
    }
}

#[test]
fn outside_margin_answer_is_a_provider_contract_violation() {
    let mut w = small_world();
    handle_grab_start(&mut w, &StartGrabEvent { hand: Hand::Left });
    let cands = vec![CandidateHit { entity: 1, closest: ClosestPoints::OutsideMargin }];
    assert_eq!(
        update_grabbing_grabbers(&mut w, 0, &cands),
        Err(GrabError::ProviderContractViolation)
    );
    // The world is untouched on the fatal path.
    assert!(matches!(w.grabbers[0].state, GrabberState::Searching(None)));
    assert!(refs(&w, 1).is_empty());
}

#[test]
fn candidate_without_grabbable_ancestor_fails_resolution() {
    let mut w = small_world();
    w.entities.push(node_at(0, 300, 0));
    handle_grab_start(&mut w, &StartGrabEvent { hand: Hand::Left });
    let cands = vec![hit(2, 0, 300, 0)];
    assert_eq!(update_grabbing_grabbers(&mut w, 0, &cands), Err(GrabError::ResolutionFailed));
    assert!(matches!(w.grabbers[0].state, GrabberState::Searching(None)));
}

#[test]
fn target_without_rigid_body_ancestor_fails_attachment() {
    let mut w = small_world();
    // Entity 2: grabbable but with no rigid body anywhere above it.
    w.entities.push(EntityNode {
        parent: None,
        is_rigid_body: false,
        pose: Pose { position: Vec3 { x: 100, y: 0, z: 0 }, orientation: Quat::identity() },
        grabbable: Some(Grabbable { grabbed_by: Vec::new() }),
    });
    handle_grab_start(&mut w, &StartGrabEvent { hand: Hand::Left });
    let cands = vec![hit(2, 100, 0, 0)];
    assert!(update_grabbing_grabbers(&mut w, 0, &cands).is_ok());
    assert_eq!(grab_when_close_enough(&mut w, 0), Err(GrabError::ResolutionFailed));
}

#[test]
fn attachment_captures_the_relative_orientation() {
    // The target body is turned about +z at grab time; the joint must
    // capture orientation1^-1 * orientation2 as its offset.
    let mut w = small_world();
    w.entities[1].pose.orientation = Quat { x: 0, y: 0, z: 6_000, w: 8_000 };
    handle_grab_start(&mut w, &StartGrabEvent { hand: Hand::Left });
    let cands = vec![hit(1, 150, 0, 0)];
    assert!(update_grabbing_grabbers(&mut w, 0, &cands).is_ok());
    assert!(grab_when_close_enough(&mut w, 0).is_ok());
    let j = w.joints[0].as_ref().unwrap();
    assert_eq!(j.rotation_offset, Quat { x: 0, y: 0, z: 6_000, w: 8_000 });
}

#[test]
fn grab_point_marks_only_a_chosen_candidate() {
    let mut w = small_world();
    assert!(grab_point(&w.grabbers[0]).is_none());
    handle_grab_start(&mut w, &StartGrabEvent { hand: Hand::Left });
    assert!(grab_point(&w.grabbers[0]).is_none());
    let cands = vec![hit(1, 300, 0, 0)];
    assert!(update_grabbing_grabbers(&mut w, 0, &cands).is_ok());
    assert_eq!(grab_point(&w.grabbers[0]), Some(Vec3 { x: 300, y: 0, z: 0 }));
}

#[test]
fn layer_masks_are_distinct_bits() {
    assert_eq!(Layer::Default.mask(), 1);
    assert_eq!(Layer::Grabbable.mask(), 2);
    assert_eq!(Layer::Hand.mask(), 4);
}

#[test]
fn release_while_searching_with_a_candidate_clears_its_reference() {
    let mut w = small_world();
    handle_grab_start(&mut w, &StartGrabEvent { hand: Hand::Left });
    let cands = vec![hit(1, 300, 0, 0)];
    assert!(update_grabbing_grabbers(&mut w, 0, &cands).is_ok());
    assert_eq!(refs(&w, 1), vec![0]);
    handle_grab_end(&mut w, &EndGrabEvent { hand: Hand::Left });
    assert!(matches!(w.grabbers[0].state, GrabberState::Idle));
    assert!(refs(&w, 1).is_empty());
    assert!(w.joints.is_empty());
}

#[test]
fn update_is_a_no_op_for_idle_and_held_grabbers() {
    let mut w = small_world();
    let cands = vec![hit(1, 300, 0, 0)];
    // Idle: untouched.
    assert!(update_grabbing_grabbers(&mut w, 0, &cands).is_ok());
    assert!(matches!(w.grabbers[0].state, GrabberState::Idle));
    assert!(refs(&w, 1).is_empty());
    // Held: untouched as well.
    handle_grab_start(&mut w, &StartGrabEvent { hand: Hand::Left });
    let close = vec![hit(1, 150, 0, 0)];
    assert!(update_grabbing_grabbers(&mut w, 0, &close).is_ok());
    assert!(grab_when_close_enough(&mut w, 0).is_ok());
    assert!(update_grabbing_grabbers(&mut w, 0, &cands).is_ok());
    assert!(matches!(w.grabbers[0].state, GrabberState::Held { .. }));
}

#[test]
fn two_hands_can_reference_the_same_grabbable() {
    // During contention both grabbers reference the cube, though only
    // one ultimately forms a joint.
    let mut w = small_world();
    w.entities.push(node_at(3_300, 0, 0));
    w.grabbers.push(Grabber {
        hand: Hand::Right,
        entity: 2,
        search_radius: 1_000,
        grab_tolerance: 200,
        grabbable_layer_mask: Layer::Grabbable.mask(),
        state: GrabberState::Idle,
    });
    handle_grab_start(&mut w, &StartGrabEvent { hand: Hand::Left });
    handle_grab_start(&mut w, &StartGrabEvent { hand: Hand::Right });
    let left_hits = vec![hit(1, 150, 0, 0)];
    let right_hits = vec![hit(1, 3_150, 0, 0)];
    assert!(update_grabbing_grabbers(&mut w, 0, &left_hits).is_ok());
    assert!(update_grabbing_grabbers(&mut w, 1, &right_hits).is_ok());
    assert_eq!(refs(&w, 1), vec![0, 1]);
    // The left hand attaches; the right keeps searching the same cube.
    assert!(grab_when_close_enough(&mut w, 0).is_ok());
    assert!(matches!(w.grabbers[0].state, GrabberState::Held { .. }));
    assert!(matches!(w.grabbers[1].state, GrabberState::Searching(Some(_))));
    assert_eq!(refs(&w, 1), vec![0, 1]);
    // The right hand releases: only the holder stays referenced.
    handle_grab_end(&mut w, &EndGrabEvent { hand: Hand::Right });
    assert_eq!(refs(&w, 1), vec![0]);
    assert_eq!(w.joints.len(), 1);
    assert!(w.joints[0].is_some());
}

#[test]
fn validator_accepts_well_formed_worlds_through_a_session() {
    let mut w = small_world();
    assert!(world_well_formed(&w));
    handle_grab_start(&mut w, &StartGrabEvent { hand: Hand::Left });
    assert!(world_well_formed(&w));
    let cands = vec![hit(1, 150, 0, 0)];
    assert!(update_grabbing_grabbers(&mut w, 0, &cands).is_ok());
    assert!(world_well_formed(&w));
    assert!(grab_when_close_enough(&mut w, 0).is_ok());
    assert!(world_well_formed(&w));
    handle_grab_end(&mut w, &EndGrabEvent { hand: Hand::Left });
    assert!(world_well_formed(&w));
}

#[test]
fn validator_rejects_misbuilt_worlds() {
    // Two grabbers bound to the same hand.
    let mut two_left = small_world();
    let mut second = two_left.grabbers[0];
    second.entity = 1;
    two_left.grabbers.push(second);
    assert!(!world_well_formed(&two_left));

    // A stale back-reference that no grabber state explains.
    let mut stale = small_world();
    stale.entities[1].grabbable.as_mut().unwrap().grabbed_by.push(0);
    assert!(!world_well_formed(&stale));

    // A held grabber whose joint slot is empty.
    let mut dangling = small_world();
    dangling.joints.push(None);
    dangling.grabbers[0].state = GrabberState::Held { target: 1, body: 1, joint: 0 };
    assert!(!world_well_formed(&dangling));

    // A live joint no grabber owns.
    let mut orphan = small_world();
    orphan.joints.push(Some(vr_hands::joint::FixedJoint2::new(0, 1)));
    assert!(!world_well_formed(&orphan));

    // A parent link pointing outside the hierarchy.
    let mut bad_parent = small_world();
    bad_parent.entities[0].parent = Some(9);
    assert!(!world_well_formed(&bad_parent));
}
