//! The grab state machine.
//!
//! One grabber per hand tracks an `Idle` / `Searching` / `Held` state.
//! While searching it is fed the spatial query provider's candidate hits
//! each frame, selects the nearest one, resolves it to its grabbable root
//! through the object hierarchy and keeps the back-references of every
//! grabbable in step.  Once the chosen candidate's closest point comes
//! within the grab tolerance, a fixed joint with rotation offset is
//! formed between the two governing rigid bodies; a release destroys it.
//!
//! Two invariants hold at every step (see [`grab_inv`]): a held grabber
//! owns exactly one live joint, and every grabbable's back-reference set
//! equals the set of grabbers whose state designates it.

use vstd::prelude::*;

use crate::fx;
use crate::fx::fx_wf;
use crate::joint::FixedJoint2;
use crate::pose::{pose_wf, Pose, PoseV};
use crate::quat::Quat;
use crate::vec3::{v3_norm_sq, v3_sub, v3_wf, V3, Vec3};

verus! {

/// Collision layers of the interaction scene; a layer's mask bit feeds
/// the spatial query provider's filter.
#[derive(Clone, Copy, Debug, PartialEq, Eq, Structural)]
pub enum Layer {
    Default,
    Grabbable,
    Hand,
}

impl Layer {
    /// The single mask bit of this layer.
    pub fn mask(self) -> (r: u32)
        ensures
            self is Default ==> r == 1u32,
            self is Grabbable ==> r == 2u32,
            self is Hand ==> r == 4u32,
    {
        match self {
            Layer::Default => 1,
            Layer::Grabbable => 2,
            Layer::Hand => 4,
        }
    }
}

/// Which hand a grabber belongs to.
#[derive(Clone, Copy, Debug, PartialEq, Eq, Structural)]
pub enum Hand {
    Left,
    Right,
}

/// The closed set of states a grabber can be in.
#[derive(Clone, Copy, Debug)]
pub enum GrabberState {
    /// No grab in progress.
    Idle,
    /// Trigger held; the payload is the current best candidate — its
    /// grabbable root and the closest point on it — or `None` while
    /// nothing is in range.
    Searching(Option<(usize, Vec3)>),
    /// An attachment has been formed.
    Held {
        /// The grabbable root being held (owner of the back-reference).
        target: usize,
        /// The rigid body the joint acts on.
        body: usize,
        /// Handle of the live joint instance.
        joint: usize,
    },
}

/// One grabber, created at scene setup and alive for the session.
#[derive(Clone, Copy, Debug)]
pub struct Grabber {
    /// The hand this grabber is bound to; unique per world.
    pub hand: Hand,
    /// The grabber's own entity in the hierarchy.
    pub entity: usize,
    /// Radius of the spatial search sphere.
    pub search_radius: i64,
    /// Distance at which a reach becomes a physical attachment.
    pub grab_tolerance: i64,
    /// Collision layers eligible as targets, handed to the provider.
    pub grabbable_layer_mask: u32,
    /// Current state.
    pub state: GrabberState,
}

/// Marks an entity as eligible to be grabbed and holds the set of
/// grabbers currently referencing it.
#[derive(Clone, Debug)]
pub struct Grabbable {
    /// Indices of the grabbers whose state designates this entity.
    pub grabbed_by: Vec<usize>,
}

/// One entity of the object hierarchy, as the grab logic sees it.
#[derive(Clone, Debug)]
pub struct EntityNode {
    /// Parent link, `None` at a hierarchy root.
    pub parent: Option<usize>,
    /// Whether a rigid body governs this entity directly.
    pub is_rigid_body: bool,
    /// Current world pose.
    pub pose: Pose,
    /// Present when the entity is a grabbable root.
    pub grabbable: Option<Grabbable>,
}

/// Grab-intent event: the trigger of `hand` was pulled.
#[derive(Clone, Copy, Debug)]
pub struct StartGrabEvent {
    pub hand: Hand,
}

/// Release event: the trigger of `hand` was let go.
#[derive(Clone, Copy, Debug)]
pub struct EndGrabEvent {
    pub hand: Hand,
}

/// One answer of the spatial query provider's closest-point query.
#[derive(Clone, Copy, Debug)]
pub enum ClosestPoints {
    /// The probe already intersects the candidate.
    Intersecting,
    /// Closest points on probe and candidate, within the query margin.
    WithinMargin(Vec3, Vec3),
    /// Outside the margin — a contract violation for a candidate the
    /// provider itself reported as overlapping.
    OutsideMargin,
}

/// One candidate body reported by the spatial query, with the
/// closest-point answer for it.
#[derive(Clone, Copy, Debug)]
pub struct CandidateHit {
    /// The candidate entity (often a collider deep in the hierarchy).
    pub entity: usize,
    /// The provider's closest-point answer for this candidate.
    pub closest: ClosestPoints,
}

/// Fatal faults of the grab logic.
#[derive(Clone, Copy, Debug, PartialEq, Eq, Structural)]
pub enum GrabError {
    /// The hierarchy walk reached a root or exhausted the entity count
    /// without finding the required component: the scene is misbuilt.
    ResolutionFailed,
    /// The provider answered `OutsideMargin` for a candidate it reported
    /// as overlapping.
    ProviderContractViolation,
}

/// The world state the grab machine works on.
#[derive(Clone, Debug)]
pub struct GrabWorld {
    /// The object hierarchy.
    pub entities: Vec<EntityNode>,
    /// All grabbers, at most one per hand.
    pub grabbers: Vec<Grabber>,
    /// Joint slots; a destroyed joint leaves `None` behind so handles
    /// stay stable.
    pub joints: Vec<Option<FixedJoint2>>,
}

/// Ghost model of an entity node.
pub ghost struct EntityV {
    pub parent: Option<usize>,
    pub is_rigid_body: bool,
    pub pose: PoseV,
    pub grabbed_by: Option<Seq<usize>>,
}

/// Ghost model of the world.
#[verifier::ext_equal]
pub ghost struct WorldV {
    pub entities: Seq<EntityV>,
    pub grabbers: Seq<Grabber>,
    pub joints: Seq<Option<FixedJoint2>>,
}

impl View for EntityNode {
    type V = EntityV;

    open spec fn view(&self) -> EntityV {
        EntityV {
            parent: self.parent,
            is_rigid_body: self.is_rigid_body,
            pose: self.pose@,
            grabbed_by: match self.grabbable {
                Some(g) => Some(g.grabbed_by@),
                None => None,
            },
        }
    }
}

impl View for GrabWorld {
    type V = WorldV;

    open spec fn view(&self) -> WorldV {
        WorldV {
            entities: self.entities@.map_values(|e: EntityNode| e@),
            grabbers: self.grabbers@,
            joints: self.joints@,
        }
    }
}

/// Grabber `g`'s state designates entity `e` as its target or held
/// object.
pub open spec fn targets(g: Grabber, e: int) -> bool {
    match g.state {
        GrabberState::Searching(opt) => match opt {
            Some(tp) => tp.0 == e,
            None => false,
        },
        GrabberState::Held { target, .. } => target == e,
        GrabberState::Idle => false,
    }
}

/// Entity `e` exists and is a grabbable root.
pub open spec fn grabbable_at(v: WorldV, e: int) -> bool {
    0 <= e < v.entities.len() && v.entities[e].grabbed_by is Some
}

/// Grabber `i` is held with joint handle `j`.
pub open spec fn held_with(v: WorldV, i: int, j: int) -> bool {
    &&& 0 <= i < v.grabbers.len()
    &&& match v.grabbers[i].state {
        GrabberState::Held { joint, .. } => joint == j,
        _ => false,
    }
}

/// Well-formedness of one grabber's configuration and state.
pub open spec fn grabber_ok(v: WorldV, i: int) -> bool {
    let g = v.grabbers[i];
    &&& 0 <= g.search_radius && fx_wf(g.search_radius as int)
    &&& 0 <= g.grab_tolerance && fx_wf(g.grab_tolerance as int)
    &&& g.entity < v.entities.len()
    &&& match g.state {
        GrabberState::Idle => true,
        GrabberState::Searching(opt) => match opt {
            None => true,
            Some(tp) => grabbable_at(v, tp.0 as int) && v3_wf(tp.1@),
        },
        GrabberState::Held { target, body, joint } => {
            &&& grabbable_at(v, target as int)
            &&& body < v.entities.len()
            &&& v.entities[body as int].is_rigid_body
            &&& joint < v.joints.len()
            &&& v.joints[joint as int] is Some
            &&& v.joints[joint as int]->0.entity2 == body
        },
    }
}

/// The standing invariant of the grab machine.
///
/// It packages the two laws the design promises — a held grabber owns
/// exactly one live joint, and back-reference sets equal the sets of
/// designating grabbers — together with the structural facts (valid
/// handles, unique hands, well-formed poses) every operation preserves.
pub open spec fn grab_inv(v: WorldV) -> bool {
    // Every grabber is well formed.
    &&& forall|i: int| 0 <= i < v.grabbers.len() ==> #[trigger] grabber_ok(v, i)
    // At most one grabber per hand.
    &&& forall|i1: int, i2: int|
        0 <= i1 < v.grabbers.len() && 0 <= i2 < v.grabbers.len() && i1 != i2
            ==> (#[trigger] v.grabbers[i1].hand) != (#[trigger] v.grabbers[i2].hand)
    // Joint handles of held grabbers never alias.
    &&& forall|i1: int, i2: int, j: int|
        #![trigger held_with(v, i1, j), held_with(v, i2, j)]
        held_with(v, i1, j) && held_with(v, i2, j) ==> i1 == i2
    // Every live joint is owned by a held grabber.
    &&& forall|j: int|
        0 <= j < v.joints.len() && (#[trigger] v.joints[j]) is Some
            ==> exists|i: int| held_with(v, i, j)
    // Back-references are exactly the designating grabbers, without
    // duplicates.
    &&& forall|e: int| #![trigger v.entities[e].grabbed_by]
        0 <= e < v.entities.len() && v.entities[e].grabbed_by is Some ==> {
            let s = v.entities[e].grabbed_by->0;
            &&& forall|k: int|
                0 <= k < s.len() ==> (#[trigger] s[k]) < v.grabbers.len()
                    && targets(v.grabbers[s[k] as int], e)
            &&& forall|i: usize|
                (i as int) < v.grabbers.len() && targets(#[trigger] v.grabbers[i as int], e)
                    ==> s.contains(i)
            &&& forall|k1: int, k2: int|
                0 <= k1 < s.len() && 0 <= k2 < s.len() && k1 != k2
                    ==> (#[trigger] s[k1]) != (#[trigger] s[k2])
        }
    // Entity nodes are well formed.
    &&& forall|e: int| #![trigger v.entities[e]]
        0 <= e < v.entities.len() ==> {
            &&& pose_wf(v.entities[e].pose)
            &&& (v.entities[e].parent is Some ==> v.entities[e].parent->0 < v.entities.len())
        }
}

/// Some grabber is bound to `hand`.
pub open spec fn has_grabber(v: WorldV, hand: Hand) -> bool {
    exists|i: int| 0 <= i < v.grabbers.len() && (#[trigger] v.grabbers[i]).hand == hand
}

/// The index of the grabber bound to `hand` (unique under [`grab_inv`]).
pub open spec fn grabber_for(v: WorldV, hand: Hand) -> int {
    choose|i: int| 0 <= i < v.grabbers.len() && (#[trigger] v.grabbers[i]).hand == hand
}

/// The world after a start-grab for grabber `i`: its state becomes
/// `Searching(None)`, nothing else moves.
pub open spec fn start_grab_model(v: WorldV, i: int) -> WorldV {
    WorldV {
        grabbers: v.grabbers.update(
            i,
            Grabber { state: GrabberState::Searching(None), ..v.grabbers[i] },
        ),
        ..v
    }
}

/// The sequence with every occurrence of `v` removed, keeping order.
pub open spec fn seq_remove(s: Seq<usize>, v: usize) -> Seq<usize>
    decreases s.len(),
{
    if s.len() == 0 {
        Seq::empty()
    } else {
        let rest = seq_remove(s.drop_last(), v);
        if s.last() == v {
            rest
        } else {
            rest.push(s.last())
        }
    }
}

/// Membership in the removal result: everything but `v` survives.
pub proof fn lemma_seq_remove_membership(s: Seq<usize>, v: usize)
    ensures
        forall|x: usize| #![trigger seq_remove(s, v).contains(x)]
            seq_remove(s, v).contains(x) <==> (s.contains(x) && x != v),
    decreases s.len(),
{
    if s.len() > 0 {
        lemma_seq_remove_membership(s.drop_last(), v);
        let rest = seq_remove(s.drop_last(), v);
        assert forall|x: usize| #![trigger seq_remove(s, v).contains(x)]
            seq_remove(s, v).contains(x) <==> (s.contains(x) && x != v) by {
            if seq_remove(s, v).contains(x) {
                if s.last() != v && x == s.last() {
                    assert(s.contains(x)) by {
                        assert(s[s.len() - 1] == x);
                    }
                } else {
                    if rest.contains(x) {
                        assert(s.drop_last().contains(x));
                        let k = choose|k: int| 0 <= k < s.drop_last().len() && s.drop_last()[k]
                            == x;
                        assert(s[k] == x);
                    } else {
                        let k = choose|k: int| 0 <= k < seq_remove(s, v).len() && seq_remove(
                            s,
                            v,
                        )[k] == x;
                        assert(rest.contains(x)) by {
                            assert(seq_remove(s, v)[k] == rest[k]);
                        }
                    }
                }
            }
            if s.contains(x) && x != v {
                let k = choose|k: int| 0 <= k < s.len() && s[k] == x;
                if k < s.len() - 1 {
                    assert(s.drop_last()[k] == x);
                    assert(rest.contains(x));
                    let k2 = choose|k2: int| 0 <= k2 < rest.len() && rest[k2] == x;
                    if s.last() == v {
                        assert(seq_remove(s, v).contains(x));
                    } else {
                        assert(seq_remove(s, v)[k2] == x);
                        assert(seq_remove(s, v).contains(x));
                    }
                } else {
                    assert(s.last() == x);
                    assert(seq_remove(s, v).last() == x);
                    assert(seq_remove(s, v).contains(x));
                }
            }
        }
    }
}

/// Removal keeps distinctness.
pub proof fn lemma_seq_remove_nodup(s: Seq<usize>, v: usize)
    requires
        forall|k1: int, k2: int|
            0 <= k1 < s.len() && 0 <= k2 < s.len() && k1 != k2 ==> (#[trigger] s[k1])
                != (#[trigger] s[k2]),
    ensures
        forall|k1: int, k2: int|
            0 <= k1 < seq_remove(s, v).len() && 0 <= k2 < seq_remove(s, v).len() && k1 != k2
                ==> (#[trigger] seq_remove(s, v)[k1]) != (#[trigger] seq_remove(s, v)[k2]),
    decreases s.len(),
{
    if s.len() > 0 {
        assert forall|k1: int, k2: int|
            0 <= k1 < s.drop_last().len() && 0 <= k2 < s.drop_last().len() && k1 != k2 implies (
        #[trigger] s.drop_last()[k1]) != (#[trigger] s.drop_last()[k2]) by {
            assert(s[k1] == s.drop_last()[k1]);
            assert(s[k2] == s.drop_last()[k2]);
        }
        lemma_seq_remove_nodup(s.drop_last(), v);
        let rest = seq_remove(s.drop_last(), v);
        if s.last() != v {
            lemma_seq_remove_membership(s.drop_last(), v);
            assert(!rest.contains(s.last())) by {
                if s.drop_last().contains(s.last()) {
                    let k = choose|k: int| 0 <= k < s.drop_last().len() && s.drop_last()[k]
                        == s.last();
                    assert(s[k] == s[s.len() - 1]);
                    assert(false);
                }
            }
            assert forall|k1: int, k2: int|
                0 <= k1 < seq_remove(s, v).len() && 0 <= k2 < seq_remove(s, v).len() && k1 != k2
                implies (#[trigger] seq_remove(s, v)[k1]) != (#[trigger] seq_remove(s, v)[k2]) by {
                if k1 < rest.len() && k2 < rest.len() {
                } else if k1 < rest.len() {
                    assert(seq_remove(s, v)[k2] == s.last());
                    if seq_remove(s, v)[k1] == s.last() {
                        assert(rest[k1] == s.last());
                        assert(rest.contains(s.last()));
                    }
                } else {
                    assert(seq_remove(s, v)[k1] == s.last());
                    if seq_remove(s, v)[k2] == s.last() {
                        assert(rest[k2] == s.last());
                        assert(rest.contains(s.last()));
                    }
                }
            }
        }
    }
}

/// Removing an absent value changes nothing.
pub proof fn lemma_seq_remove_absent(s: Seq<usize>, v: usize)
    requires
        !s.contains(v),
    ensures
        seq_remove(s, v) == s,
    decreases s.len(),
{
    if s.len() > 0 {
        assert(!s.drop_last().contains(v)) by {
            if s.drop_last().contains(v) {
                let k = choose|k: int| 0 <= k < s.drop_last().len() && s.drop_last()[k] == v;
                assert(s[k] == v);
            }
        }
        lemma_seq_remove_absent(s.drop_last(), v);
        assert(s.last() != v) by {
            assert(s[s.len() - 1] == s.last());
        }
        assert(seq_remove(s, v) =~= s);
    }
}

/// Remove every occurrence of `val` from the vector, keeping order.
fn remove_all(v: &mut Vec<usize>, val: usize)
    ensures
        final(v)@ == seq_remove(old(v)@, val),
{
    let n = v.len();
    let mut out: Vec<usize> = Vec::new();
    let mut i: usize = 0;
    proof {
        assert(old(v)@.take(0) =~= Seq::<usize>::empty());
    }
    while i < n
        invariant
            n == v@.len(),
            v@ == old(v)@,
            i <= n,
            out@ == seq_remove(v@.take(i as int), val),
        decreases n - i,
    {
        proof {
            assert(v@.take(i + 1).drop_last() =~= v@.take(i as int));
            assert(v@.take(i + 1).last() == v@[i as int]);
        }
        let x = v[i];
        if x != val {
            out.push(x);
        }
        i += 1;
    }
    proof {
        assert(v@.take(n as int) =~= v@);
    }
    *v = out;
}

/// Remove grabber `i` from entity `e`'s back-reference set.
fn remove_ref(w: &mut GrabWorld, e: usize, i: usize)
    requires
        (e as int) < old(w)@.entities.len(),
        old(w)@.entities[e as int].grabbed_by is Some,
    ensures
        final(w)@.entities == old(w)@.entities.update(
            e as int,
            EntityV {
                grabbed_by: Some(seq_remove(old(w)@.entities[e as int].grabbed_by->0, i)),
                ..old(w)@.entities[e as int]
            },
        ),
        final(w)@.grabbers == old(w)@.grabbers,
        final(w)@.joints == old(w)@.joints,
{
    let ghost v0 = w@;
    match &mut w.entities[e].grabbable {
        Some(g) => {
            remove_all(&mut g.grabbed_by, i);
        },
        None => {
            proof {
                assert(false);
            }
        },
    }
    proof {
        assert(w@.entities =~= v0.entities.update(
            e as int,
            EntityV {
                grabbed_by: Some(seq_remove(v0.entities[e as int].grabbed_by->0, i)),
                ..v0.entities[e as int]
            },
        ));
    }
}

/// Locate the grabber bound to `hand`, which must exist.
fn find_grabber(w: &GrabWorld, hand: Hand) -> (i: usize)
    requires
        grab_inv(w@),
        has_grabber(w@, hand),
    ensures
        i == grabber_for(w@, hand),
        i < w@.grabbers.len(),
        w@.grabbers[i as int].hand == hand,
{
    let n = w.grabbers.len();
    let mut i: usize = 0;
    while i < n
        invariant
            n == w@.grabbers.len(),
            has_grabber(w@, hand),
            grab_inv(w@),
            forall|k: int| 0 <= k < i ==> (#[trigger] w@.grabbers[k]).hand != hand,
        decreases n - i,
    {
        if w.grabbers[i].hand == hand {
            proof {
                let c = grabber_for(w@, hand);
                assert(0 <= c < w@.grabbers.len() && w@.grabbers[c].hand == hand);
            }
            return i;
        }
        i += 1;
    }
    proof {
        let c = grabber_for(w@, hand);
        assert(0 <= c < w@.grabbers.len() && w@.grabbers[c].hand == hand);
    }
    unreached()
}

/// The closest point on a candidate, as the provider reported it: an
/// already intersecting probe keeps the grabber's own position.
pub open spec fn closest_point_view(c: CandidateHit, gpos: V3) -> V3 {
    match c.closest {
        ClosestPoints::Intersecting => gpos,
        ClosestPoints::WithinMargin(p1, p2) => p2@,
        ClosestPoints::OutsideMargin => gpos,
    }
}

/// Squared distance from the grabber's position to a candidate's closest
/// point.
pub open spec fn cand_dist_sq(c: CandidateHit, gpos: V3) -> int {
    v3_norm_sq(v3_sub(gpos, closest_point_view(c, gpos)))
}

/// Candidate `k` has minimal squared distance, and is the first with it:
/// ties break by provider iteration order.
pub open spec fn is_first_min(cands: Seq<CandidateHit>, gpos: V3, k: int) -> bool {
    &&& 0 <= k < cands.len()
    &&& forall|j: int|
        0 <= j < cands.len() ==> cand_dist_sq(#[trigger] cands[j], gpos) >= cand_dist_sq(
            cands[k],
            gpos,
        )
    &&& forall|j: int|
        0 <= j < k ==> cand_dist_sq(#[trigger] cands[j], gpos) > cand_dist_sq(cands[k], gpos)
}

/// The selected candidate index (unique when it exists).
pub open spec fn best_idx(cands: Seq<CandidateHit>, gpos: V3) -> int {
    choose|k: int| is_first_min(cands, gpos, k)
}

/// The first minimum is unique.
pub proof fn lemma_first_min_unique(cands: Seq<CandidateHit>, gpos: V3, k: int)
    requires
        is_first_min(cands, gpos, k),
    ensures
        k == best_idx(cands, gpos),
{
    let k2 = best_idx(cands, gpos);
    assert(is_first_min(cands, gpos, k2));
    if k < k2 {
        assert(cand_dist_sq(cands[k], gpos) > cand_dist_sq(cands[k2], gpos));
        assert(cand_dist_sq(cands[k], gpos) >= cand_dist_sq(cands[k2], gpos));
        assert(cand_dist_sq(cands[k2], gpos) >= cand_dist_sq(cands[k], gpos));
        assert(false);
    }
    if k2 < k {
        assert(cand_dist_sq(cands[k2], gpos) > cand_dist_sq(cands[k], gpos));
        assert(cand_dist_sq(cands[k], gpos) >= cand_dist_sq(cands[k2], gpos));
        assert(false);
    }
}

/// Some candidate got the `OutsideMargin` answer — a provider contract
/// violation.
pub open spec fn any_outside(cands: Seq<CandidateHit>) -> bool {
    exists|k: int| 0 <= k < cands.len() && (#[trigger] cands[k]).closest is OutsideMargin
}

/// Candidate hits reference existing entities and carry in-range points.
pub open spec fn candidates_wf(cands: Seq<CandidateHit>, n_entities: int) -> bool {
    forall|k: int|
        0 <= k < cands.len() ==> {
            &&& (#[trigger] cands[k]).entity < n_entities
            &&& match cands[k].closest {
                ClosestPoints::WithinMargin(p1, p2) => v3_wf(p1@) && v3_wf(p2@),
                _ => true,
            }
        }
}

/// Walk up the hierarchy from `e` until an entity with a grabbable root
/// is found; `fuel` bounds the walk by the hierarchy size, so a cyclic
/// or rootless scene yields `None` instead of diverging.
pub open spec fn resolve_to_grabbable(entities: Seq<EntityV>, e: usize, fuel: nat) -> Option<
    usize,
>
    decreases fuel,
{
    if !((e as int) < entities.len()) {
        None
    } else if entities[e as int].grabbed_by is Some {
        Some(e)
    } else if fuel == 0 {
        None
    } else {
        match entities[e as int].parent {
            Some(p) => resolve_to_grabbable(entities, p, (fuel - 1) as nat),
            None => None,
        }
    }
}

/// A successful walk lands on an existing grabbable root.
pub proof fn lemma_resolve_grabbable_ok(entities: Seq<EntityV>, e: usize, fuel: nat)
    requires
        resolve_to_grabbable(entities, e, fuel) is Some,
    ensures
        ({
            let root = resolve_to_grabbable(entities, e, fuel)->0;
            &&& (root as int) < entities.len()
            &&& entities[root as int].grabbed_by is Some
        }),
    decreases fuel,
{
    if (e as int) < entities.len() && !(entities[e as int].grabbed_by is Some) && fuel > 0 {
        match entities[e as int].parent {
            Some(p) => {
                lemma_resolve_grabbable_ok(entities, p, (fuel - 1) as nat);
            },
            None => {},
        }
    }
}

/// Every entity's back-reference set with grabber `i` removed.
pub open spec fn clear_node(en: EntityV, i: usize) -> EntityV {
    match en.grabbed_by {
        Some(s) => EntityV { grabbed_by: Some(seq_remove(s, i)), ..en },
        None => en,
    }
}

/// All entities with grabber `i` removed from every back-reference set.
pub open spec fn clear_refs(entities: Seq<EntityV>, i: usize) -> Seq<EntityV> {
    entities.map_values(|en: EntityV| clear_node(en, i))
}

/// Entity `e`'s back-reference set extended by grabber `i`.
pub open spec fn add_ref(entities: Seq<EntityV>, e: int, i: usize) -> Seq<EntityV> {
    entities.update(
        e,
        EntityV { grabbed_by: Some(entities[e].grabbed_by->0.push(i)), ..entities[e] },
    )
}

/// The world after a search step that found nothing: the grabber keeps
/// searching with no candidate and leaves no back-references behind.
pub open spec fn search_none_model(v: WorldV, i: int) -> WorldV {
    WorldV {
        grabbers: v.grabbers.update(
            i,
            Grabber {
                state: GrabberState::Searching(None),
                ..v.grabbers[i]
            },
        ),
        entities: clear_refs(v.entities, i as usize),
        ..v
    }
}

/// Remove grabber `i` from every entity's back-reference set.
fn clear_all_refs(w: &mut GrabWorld, i: usize)
    ensures
        final(w)@.entities == clear_refs(old(w)@.entities, i),
        final(w)@.grabbers == old(w)@.grabbers,
        final(w)@.joints == old(w)@.joints,
{
    let n = w.entities.len();
    let mut e: usize = 0;
    while e < n
        invariant
            n == w@.entities.len(),
            w@.entities.len() == old(w)@.entities.len(),
            w@.grabbers == old(w)@.grabbers,
            w@.joints == old(w)@.joints,
            forall|j: int|
                0 <= j < e ==> w@.entities[j] == clear_node(#[trigger] old(w)@.entities[j], i),
            forall|j: int| e <= j < n ==> w@.entities[j] == #[trigger] old(w)@.entities[j],
        decreases n - e,
    {
        match &mut w.entities[e].grabbable {
            Some(g) => {
                remove_all(&mut g.grabbed_by, i);
            },
            None => {},
        }
        e += 1;
    }
    proof {
        assert(w@.entities =~= clear_refs(old(w)@.entities, i));
    }
}

/// Walk up the hierarchy from `e` to the nearest grabbable root, with
/// `fuel` bounding the number of parent steps.
fn resolve_step(w: &GrabWorld, e: usize, fuel: usize) -> (r: Option<usize>)
    ensures
        r == resolve_to_grabbable(w@.entities, e, fuel as nat),
    decreases fuel,
{
    let n = w.entities.len();
    if e >= n {
        None
    } else {
        match &w.entities[e].grabbable {
            Some(_) => Some(e),
            None => {
                if fuel == 0 {
                    None
                } else {
                    match w.entities[e].parent {
                        Some(p) => resolve_step(w, p, fuel - 1),
                        None => None,
                    }
                }
            },
        }
    }
}

/// Candidate search, run every frame while a grabber is searching.
///
/// The provider's candidate hits for this grabber are mapped to closest
/// points, the nearest candidate is selected (ties break by provider
/// iteration order, which is implementation-defined), and its grabbable
/// root is resolved through the hierarchy.  Back-references are then
/// rewritten: the grabber leaves every set and enters the chosen root's.
/// A grabber in any other state is left untouched.
///
/// Errors, both fatal per the design: `ProviderContractViolation` when
/// any candidate got the `OutsideMargin` answer, and `ResolutionFailed`
/// when the hierarchy walk finds no grabbable root.  The world is
/// unchanged on either.
pub fn update_grabbing_grabbers(w: &mut GrabWorld, idx: usize, candidates: &Vec<CandidateHit>)
    -> (r: Result<(), GrabError>)
    requires
        grab_inv(old(w)@),
        (idx as int) < old(w)@.grabbers.len(),
        candidates_wf(candidates@, old(w)@.entities.len() as int),
    ensures
        grab_inv(final(w)@),
        !(old(w)@.grabbers[idx as int].state is Searching) ==> r is Ok && final(w)@ == old(w)@,
        old(w)@.grabbers[idx as int].state is Searching ==> ({
            let v0 = old(w)@;
            let gpos = v0.entities[v0.grabbers[idx as int].entity as int].pose.position;
            if any_outside(candidates@) {
                &&& r == Result::<(), GrabError>::Err(GrabError::ProviderContractViolation)
                &&& final(w)@ == v0
            } else if candidates@.len() == 0 {
                &&& r is Ok
                &&& final(w)@ == search_none_model(v0, idx as int)
            } else {
                let bk = best_idx(candidates@, gpos);
                match resolve_to_grabbable(
                    v0.entities,
                    candidates@[bk].entity,
                    v0.entities.len() as nat,
                ) {
                    None => {
                        &&& r == Result::<(), GrabError>::Err(GrabError::ResolutionFailed)
                        &&& final(w)@ == v0
                    },
                    Some(root) => {
                        &&& r is Ok
                        &&& final(w)@.entities == add_ref(
                            clear_refs(v0.entities, idx),
                            root as int,
                            idx,
                        )
                        &&& final(w)@.joints == v0.joints
                        &&& final(w)@.grabbers.len() == v0.grabbers.len()
                        &&& forall|k2: int|
                            0 <= k2 < v0.grabbers.len() && k2 != idx as int
                                ==> final(w)@.grabbers[k2] == v0.grabbers[k2]
                        &&& ({
                            let g1 = final(w)@.grabbers[idx as int];
                            let g0 = v0.grabbers[idx as int];
                            &&& g1.hand == g0.hand
                            &&& g1.entity == g0.entity
                            &&& g1.search_radius == g0.search_radius
                            &&& g1.grab_tolerance == g0.grab_tolerance
                            &&& g1.grabbable_layer_mask == g0.grabbable_layer_mask
                            &&& g1.state matches GrabberState::Searching(Some(tp)) && tp.0 == root
                                && tp.1@ == closest_point_view(candidates@[bk], gpos)
                        })
                    },
                }
            }
        }),
{
    let ghost v0 = w@;
    let g = w.grabbers[idx];
    match g.state {
        GrabberState::Searching(_) => {},
        _ => {
            return Ok(());
        },
    }
    proof {
        assert(grabber_ok(v0, idx as int));
    }
    let gpos = w.entities[g.entity].pose.position;
    let n = candidates.len();

    if n == 0 {
        clear_all_refs(w, idx);
        w.grabbers[idx].state = GrabberState::Searching(None);
        proof {
            assert(w@.grabbers =~= search_none_model(v0, idx as int).grabbers);
            assert(w@ =~= search_none_model(v0, idx as int));
            lemma_search_inv(v0, w@, idx as int, None);
        }
        return Ok(());
    }

    let mut best_k: usize = 0;
    let mut best_d: i64 = 0;
    let mut best_p: Vec3 = gpos;
    let mut k: usize = 0;
    while k < n
        invariant
            grab_inv(w@),
            v0 == old(w)@,
            w@ == v0,
            n == candidates@.len(),
            k <= n,
            candidates_wf(candidates@, v0.entities.len() as int),
            (idx as int) < v0.grabbers.len(),
            v0.grabbers[idx as int].state is Searching,
            gpos@ == v0.entities[v0.grabbers[idx as int].entity as int].pose.position,
            v3_wf(gpos@),
            forall|j: int| 0 <= j < k ==> !((#[trigger] candidates@[j]).closest is OutsideMargin),
            k > 0 ==> {
                &&& (best_k as int) < k
                &&& best_d == cand_dist_sq(candidates@[best_k as int], gpos@)
                &&& best_p@ == closest_point_view(candidates@[best_k as int], gpos@)
                &&& v3_wf(best_p@)
                &&& forall|j: int|
                    0 <= j < k ==> cand_dist_sq(#[trigger] candidates@[j], gpos@) >= best_d
                &&& forall|j: int|
                    0 <= j < best_k ==> cand_dist_sq(#[trigger] candidates@[j], gpos@) > best_d
            },
        decreases n - k,
    {
        let c = candidates[k];
        let cp: Vec3;
        match c.closest {
            ClosestPoints::Intersecting => {
                cp = gpos;
            },
            ClosestPoints::WithinMargin(_, p2) => {
                cp = p2;
            },
            ClosestPoints::OutsideMargin => {
                proof {
                    assert(candidates@[k as int].closest is OutsideMargin);
                }
                return Err(GrabError::ProviderContractViolation);
            },
        }
        let d = gpos.dist_sq(&cp);
        if k == 0 || d < best_d {
            best_k = k;
            best_d = d;
            best_p = cp;
        }
        k += 1;
    }
    proof {
        assert(is_first_min(candidates@, gpos@, best_k as int));
        lemma_first_min_unique(candidates@, gpos@, best_k as int);
        assert(!any_outside(candidates@));
    }

    let ce = candidates[best_k].entity;
    let n_entities = w.entities.len();
    let root_opt = resolve_step(w, ce, n_entities);
    let root: usize;
    match root_opt {
        None => {
            return Err(GrabError::ResolutionFailed);
        },
        Some(rt) => {
            root = rt;
        },
    }
    proof {
        lemma_resolve_grabbable_ok(v0.entities, ce, v0.entities.len() as nat);
    }
    clear_all_refs(w, idx);
    proof {
        assert(w@.entities.len() == v0.entities.len());
        assert(clear_refs(v0.entities, idx)[root as int] == clear_node(
            v0.entities[root as int],
            idx,
        ));
        assert(w@.entities[root as int].grabbed_by is Some);
    }
    match &mut w.entities[root].grabbable {
        Some(gb) => {
            gb.grabbed_by.push(idx);
        },
        None => {
            proof {
                assert(false);
            }
        },
    }
    w.grabbers[idx].state = GrabberState::Searching(Some((root, best_p)));
    proof {
        assert(w@.entities =~= add_ref(clear_refs(v0.entities, idx), root as int, idx));
        lemma_search_inv(v0, w@, idx as int, Some((root, best_p)));
    }
    Ok(())
}

/// A search step preserves the invariant: the grabber leaves every
/// back-reference set and, when a candidate was chosen, enters exactly
/// the chosen root's.
proof fn lemma_search_inv(v0: WorldV, v1: WorldV, i: int, res: Option<(usize, Vec3)>)
    requires
        grab_inv(v0),
        0 <= i < v0.grabbers.len(),
        i as usize as int == i,
        v0.grabbers[i].state is Searching,
        v1.grabbers.len() == v0.grabbers.len(),
        forall|k: int|
            0 <= k < v0.grabbers.len() && k != i ==> #[trigger] v1.grabbers[k] == v0.grabbers[k],
        v1.grabbers[i] == (Grabber { state: GrabberState::Searching(res), ..v0.grabbers[i] }),
        v1.joints == v0.joints,
        match res {
            None => v1.entities == clear_refs(v0.entities, i as usize),
            Some(tp) => {
                &&& (tp.0 as int) < v0.entities.len()
                &&& v0.entities[tp.0 as int].grabbed_by is Some
                &&& v3_wf(tp.1@)
                &&& v1.entities == add_ref(
                    clear_refs(v0.entities, i as usize),
                    tp.0 as int,
                    i as usize,
                )
            },
        },
    ensures
        grab_inv(v1),
{
    let iu = i as usize;
    // Pointwise shape of the new entity sequence.
    assert(v1.entities.len() == v0.entities.len());
    assert forall|e: int| 0 <= e < v1.entities.len() implies {
        &&& (#[trigger] v1.entities[e]).pose == v0.entities[e].pose
        &&& v1.entities[e].parent == v0.entities[e].parent
        &&& v1.entities[e].is_rigid_body == v0.entities[e].is_rigid_body
        &&& (v1.entities[e].grabbed_by is Some <==> v0.entities[e].grabbed_by is Some)
    } by {
        assert(clear_refs(v0.entities, iu)[e] == clear_node(v0.entities[e], iu));
    }

    assert forall|k: int| 0 <= k < v1.grabbers.len() implies #[trigger] grabber_ok(v1, k) by {
        assert(grabber_ok(v0, k));
        if k != i {
            assert(v1.grabbers[k] == v0.grabbers[k]);
        }
    }
    assert forall|i1: int, i2: int, j: int|
        #![trigger held_with(v1, i1, j), held_with(v1, i2, j)]
        held_with(v1, i1, j) && held_with(v1, i2, j) implies i1 == i2 by {
        assert(i1 != i);
        assert(i2 != i);
        assert(held_with(v0, i1, j));
        assert(held_with(v0, i2, j));
    }
    assert forall|j: int|
        0 <= j < v1.joints.len() && (#[trigger] v1.joints[j]) is Some implies exists|k: int|
        held_with(v1, k, j) by {
        assert(v0.joints[j] is Some);
        let k = choose|k: int| held_with(v0, k, j);
        assert(held_with(v0, k, j));
        assert(k != i);
        assert(held_with(v1, k, j));
    }
    assert forall|e: int| #![trigger v1.entities[e]]
        0 <= e < v1.entities.len() && v1.entities[e].grabbed_by is Some implies {
        let s = v1.entities[e].grabbed_by->0;
        &&& forall|k: int|
            0 <= k < s.len() ==> (#[trigger] s[k]) < v1.grabbers.len()
                && targets(v1.grabbers[s[k] as int], e)
        &&& forall|k: usize|
            (k as int) < v1.grabbers.len() && targets(#[trigger] v1.grabbers[k as int], e)
                ==> s.contains(k)
        &&& forall|k1: int, k2: int|
            0 <= k1 < s.len() && 0 <= k2 < s.len() && k1 != k2
                ==> (#[trigger] s[k1]) != (#[trigger] s[k2])
    } by {
        let s = v1.entities[e].grabbed_by->0;
        assert(clear_refs(v0.entities, iu)[e] == clear_node(v0.entities[e], iu));
        assert(v0.entities[e].grabbed_by is Some);
        let s0 = v0.entities[e].grabbed_by->0;
        let sr = seq_remove(s0, iu);
        lemma_seq_remove_membership(s0, iu);
        lemma_seq_remove_nodup(s0, iu);
        let chosen = match res {
            Some(tp) => e == tp.0 as int,
            None => false,
        };
        if chosen {
            assert(s == sr.push(iu));
        } else {
            assert(s == sr);
        }
        assert forall|k: int|
            0 <= k < s.len() implies (#[trigger] s[k]) < v1.grabbers.len()
            && targets(v1.grabbers[s[k] as int], e) by {
            if chosen && k == s.len() - 1 {
                assert(s[k] == iu);
                assert(targets(v1.grabbers[i], e));
            } else {
                assert(s[k] == sr[k]);
                assert(sr.contains(sr[k]));
                assert(s0.contains(sr[k]) && sr[k] != iu);
                let k0 = choose|k0: int| 0 <= k0 < s0.len() && s0[k0] == sr[k];
                assert(targets(v0.grabbers[s0[k0] as int], e));
                assert(v1.grabbers[s[k] as int] == v0.grabbers[s[k] as int]);
            }
        }
        assert forall|k: usize|
            (k as int) < v1.grabbers.len() && targets(#[trigger] v1.grabbers[k as int], e)
            implies s.contains(k) by {
            if k as int == i {
                assert(chosen);
                assert(s[s.len() - 1] == iu);
                assert(s.contains(k));
            } else {
                assert(v1.grabbers[k as int] == v0.grabbers[k as int]);
                assert(targets(v0.grabbers[k as int], e));
                assert(s0.contains(k));
                assert(sr.contains(k));
                let k0 = choose|k0: int| 0 <= k0 < sr.len() && sr[k0] == k;
                assert(s[k0] == k);
                assert(s.contains(k));
            }
        }
        assert forall|k1: int, k2: int|
            0 <= k1 < s.len() && 0 <= k2 < s.len() && k1 != k2 implies (#[trigger] s[k1])
            != (#[trigger] s[k2]) by {
            if chosen {
                if k1 == s.len() - 1 {
                    assert(s[k1] == iu);
                    assert(s[k2] == sr[k2]);
                    assert(sr.contains(sr[k2]));
                } else if k2 == s.len() - 1 {
                    assert(s[k2] == iu);
                    assert(s[k1] == sr[k1]);
                    assert(sr.contains(sr[k1]));
                } else {
                    assert(s[k1] == sr[k1] && s[k2] == sr[k2]);
                }
            }
        }
    }
    assert forall|e: int| #![trigger v1.entities[e]]
        0 <= e < v1.entities.len() implies {
        &&& pose_wf(v1.entities[e].pose)
        &&& (v1.entities[e].parent is Some ==> v1.entities[e].parent->0 < v1.entities.len())
    } by {
        assert(v1.entities[e].pose == v0.entities[e].pose);
        assert(v1.entities[e].parent == v0.entities[e].parent);
    }
}


/// Walk up the hierarchy from `e` until an entity governed directly by a
/// rigid body is found; `fuel` bounds the walk.
pub open spec fn resolve_to_rigid_body(entities: Seq<EntityV>, e: usize, fuel: nat) -> Option<
    usize,
>
    decreases fuel,
{
    if !((e as int) < entities.len()) {
        None
    } else if entities[e as int].is_rigid_body {
        Some(e)
    } else if fuel == 0 {
        None
    } else {
        match entities[e as int].parent {
            Some(p) => resolve_to_rigid_body(entities, p, (fuel - 1) as nat),
            None => None,
        }
    }
}

/// A successful walk lands on an existing rigid body.
pub proof fn lemma_resolve_body_ok(entities: Seq<EntityV>, e: usize, fuel: nat)
    requires
        resolve_to_rigid_body(entities, e, fuel) is Some,
    ensures
        ({
            let b = resolve_to_rigid_body(entities, e, fuel)->0;
            &&& (b as int) < entities.len()
            &&& entities[b as int].is_rigid_body
        }),
    decreases fuel,
{
    if (e as int) < entities.len() && !entities[e as int].is_rigid_body && fuel > 0 {
        match entities[e as int].parent {
            Some(p) => {
                lemma_resolve_body_ok(entities, p, (fuel - 1) as nat);
            },
            None => {},
        }
    }
}

/// Walk up the hierarchy from `e` to the nearest rigid body.
fn resolve_body_step(w: &GrabWorld, e: usize, fuel: usize) -> (r: Option<usize>)
    ensures
        r == resolve_to_rigid_body(w@.entities, e, fuel as nat),
    decreases fuel,
{
    let n = w.entities.len();
    if e >= n {
        None
    } else if w.entities[e].is_rigid_body {
        Some(e)
    } else if fuel == 0 {
        None
    } else {
        match w.entities[e].parent {
            Some(p) => resolve_body_step(w, p, fuel - 1),
            None => None,
        }
    }
}

/// The grabber is searching with a chosen candidate whose stored closest
/// point lies strictly within the grab tolerance.
pub open spec fn should_attach(v: WorldV, i: int) -> bool {
    let g = v.grabbers[i];
    match g.state {
        GrabberState::Searching(opt) => match opt {
            Some(tp) => {
                let gpos = v.entities[g.entity as int].pose.position;
                v3_norm_sq(v3_sub(gpos, tp.1@)) < (g.grab_tolerance as int) * (
                g.grab_tolerance as int)
            },
            None => false,
        },
        _ => false,
    }
}

/// The raw rotation offset captured at attachment:
/// `orientation1^-1 * orientation2`, brought to component scale.
pub open spec fn grab_offset_spec(q1: crate::quat::Q4, q2: crate::quat::Q4) -> crate::quat::Q4 {
    let m = crate::quat::q_mul(crate::quat::q_conj(q1), q2);
    let s = fx::SCALE as int;
    crate::quat::Q4 {
        x: crate::fx::div_trunc(m.x, s),
        y: crate::fx::div_trunc(m.y, s),
        z: crate::fx::div_trunc(m.z, s),
        w: crate::fx::div_trunc(m.w, s),
    }
}

/// Attachment formation, run every frame while a grabber is searching
/// with a chosen candidate.
///
/// Once the grabber stands strictly within its grab tolerance of the
/// stored closest point, both the grabber's and the target's governing
/// rigid bodies are resolved through the hierarchy, the grab point is
/// carried into each body's local frame as an anchor, the relative
/// orientation at this instant becomes the joint's rotation offset, and
/// a rigid (zero compliance) joint is created; the grabber transitions
/// to `Held`.  In any other situation nothing changes.
///
/// `ResolutionFailed` is fatal and reports a scene whose grabber or
/// target has no rigid-body ancestor; the world is unchanged.
pub fn grab_when_close_enough(w: &mut GrabWorld, idx: usize) -> (r: Result<(), GrabError>)
    requires
        grab_inv(old(w)@),
        (idx as int) < old(w)@.grabbers.len(),
    ensures
        grab_inv(final(w)@),
        !should_attach(old(w)@, idx as int) ==> r is Ok && final(w)@ == old(w)@,
        should_attach(old(w)@, idx as int) ==> ({
            let v0 = old(w)@;
            let g0 = v0.grabbers[idx as int];
            let tp = g0.state->Searching_0->0;
            let fuel = v0.entities.len() as nat;
            let b1 = resolve_to_rigid_body(v0.entities, g0.entity, fuel);
            let b2 = resolve_to_rigid_body(v0.entities, tp.0, fuel);
            if b1 is None || b2 is None {
                &&& r == Result::<(), GrabError>::Err(GrabError::ResolutionFailed)
                &&& final(w)@ == v0
            } else {
                let body1 = b1->0;
                let body2 = b2->0;
                &&& r is Ok
                &&& final(w)@.entities == v0.entities
                &&& final(w)@.joints.len() == v0.joints.len() + 1
                &&& forall|j: int|
                    0 <= j < v0.joints.len() ==> #[trigger] final(w)@.joints[j] == v0.joints[j]
                &&& ({
                    let jv = final(w)@.joints[v0.joints.len() as int];
                    &&& jv is Some
                    &&& jv->0.entity1 == body1
                    &&& jv->0.entity2 == body2
                    &&& jv->0.local_anchor1@ == crate::pose::local_point_spec(
                        v0.entities[body1 as int].pose,
                        tp.1@,
                    )
                    &&& jv->0.local_anchor2@ == crate::pose::local_point_spec(
                        v0.entities[body2 as int].pose,
                        tp.1@,
                    )
                    &&& jv->0.rotation_offset@ == crate::joint::rotation_offset_spec(
                        grab_offset_spec(
                            v0.entities[body1 as int].pose.orientation,
                            v0.entities[body2 as int].pose.orientation,
                        ),
                    )
                    &&& jv->0.compliance == 0
                    &&& jv->0.position_lagrange == 0
                    &&& jv->0.align_lagrange == 0
                    &&& jv->0.damping_linear == fx::SCALE as int
                    &&& jv->0.damping_angular == fx::SCALE as int
                })
                &&& final(w)@.grabbers.len() == v0.grabbers.len()
                &&& forall|k2: int|
                    0 <= k2 < v0.grabbers.len() && k2 != idx as int
                        ==> final(w)@.grabbers[k2] == v0.grabbers[k2]
                &&& final(w)@.grabbers[idx as int] == (Grabber {
                    state: GrabberState::Held {
                        target: tp.0,
                        body: body2,
                        joint: (v0.joints.len() as usize),
                    },
                    ..g0
                })
            }
        }),
{
    let ghost v0 = w@;
    let g = w.grabbers[idx];
    let tp = match g.state {
        GrabberState::Searching(opt) => match opt {
            Some(tp) => tp,
            None => {
                return Ok(());
            },
        },
        _ => {
            return Ok(());
        },
    };
    let (target, cpoint) = tp;
    proof {
        assert(grabber_ok(v0, idx as int));
        fx::lemma_mul_abs_bound(
            g.grab_tolerance as int,
            g.grab_tolerance as int,
            fx::LIM as int,
            fx::LIM as int,
        );
    }
    let gpos = w.entities[g.entity].pose.position;
    let dsq = gpos.dist_sq(&cpoint);
    if !(dsq < g.grab_tolerance * g.grab_tolerance) {
        return Ok(());
    }
    let n_entities = w.entities.len();
    let body1 = match resolve_body_step(w, g.entity, n_entities) {
        Some(b) => b,
        None => {
            return Err(GrabError::ResolutionFailed);
        },
    };
    let body2 = match resolve_body_step(w, target, n_entities) {
        Some(b) => b,
        None => {
            return Err(GrabError::ResolutionFailed);
        },
    };
    proof {
        lemma_resolve_body_ok(v0.entities, g.entity, v0.entities.len() as nat);
        lemma_resolve_body_ok(v0.entities, target, v0.entities.len() as nat);
    }
    let pose1 = w.entities[body1].pose;
    let pose2 = w.entities[body2].pose;
    proof {
        crate::quat::lemma_rotate_bound(
            crate::quat::q_conj(pose1@.orientation),
            v3_sub(cpoint@, pose1@.position),
            2 * fx::LIM as int,
        );
        crate::quat::lemma_rotate_bound(
            crate::quat::q_conj(pose2@.orientation),
            v3_sub(cpoint@, pose2@.position),
            2 * fx::LIM as int,
        );
    }
    let anchor1 = pose1.local_point(&cpoint);
    let anchor2 = pose2.local_point(&cpoint);
    let q1c = pose1.orientation.conj();
    let offm = q1c.mul_raw(
        &pose2.orientation,
        Ghost(fx::SCALE as int),
        Ghost(fx::SCALE as int),
    );
    proof {
        fx::lemma_div_trunc_le(offm@.x, fx::SCALE as int, 40_000);
        fx::lemma_div_trunc_le(offm@.y, fx::SCALE as int, 40_000);
        fx::lemma_div_trunc_le(offm@.z, fx::SCALE as int, 40_000);
        fx::lemma_div_trunc_le(offm@.w, fx::SCALE as int, 40_000);
    }
    let offq = Quat {
        x: fx::div_trunc_i128(offm.x as i128, fx::SCALE as i128) as i64,
        y: fx::div_trunc_i128(offm.y as i128, fx::SCALE as i128) as i64,
        z: fx::div_trunc_i128(offm.z as i128, fx::SCALE as i128) as i64,
        w: fx::div_trunc_i128(offm.w as i128, fx::SCALE as i128) as i64,
    };
    let joint = FixedJoint2::new(body1, body2).with_local_anchor_1(anchor1).with_local_anchor_2(
        anchor2,
    ).with_rotation_offset(offq);
    let handle = w.joints.len();
    w.joints.push(Some(joint));
    w.grabbers[idx].state = GrabberState::Held { target, body: body2, joint: handle };
    proof {
        lemma_attach_inv(v0, w@, idx as int, target, body2, joint);
    }
    Ok(())
}

/// Forming an attachment preserves the invariant: the grabber moves from
/// searching a target to holding it, and the freshly pushed joint slot
/// is owned by it alone.
proof fn lemma_attach_inv(
    v0: WorldV,
    v1: WorldV,
    i: int,
    target: usize,
    body2: usize,
    jnew: FixedJoint2,
)
    requires
        grab_inv(v0),
        0 <= i < v0.grabbers.len(),
        match v0.grabbers[i].state {
            GrabberState::Searching(opt) => opt is Some && (opt->0).0 == target,
            _ => false,
        },
        (body2 as int) < v0.entities.len(),
        v0.entities[body2 as int].is_rigid_body,
        jnew.entity2 == body2,
        v1.entities == v0.entities,
        v1.joints == v0.joints.push(Some(jnew)),
        v1.grabbers.len() == v0.grabbers.len(),
        forall|k: int|
            0 <= k < v0.grabbers.len() && k != i ==> #[trigger] v1.grabbers[k] == v0.grabbers[k],
        v1.grabbers[i] == (Grabber {
            state: GrabberState::Held {
                target,
                body: body2,
                joint: (v0.joints.len() as usize),
            },
            ..v0.grabbers[i]
        }),
        v0.joints.len() <= usize::MAX,
    ensures
        grab_inv(v1),
{
    let jn = v0.joints.len() as int;
    assert forall|k: int| 0 <= k < v1.grabbers.len() implies #[trigger] grabber_ok(v1, k) by {
        assert(grabber_ok(v0, k));
        if k != i {
            match v0.grabbers[k].state {
                GrabberState::Held { joint, .. } => {
                    assert(v1.joints[joint as int] == v0.joints[joint as int]);
                },
                _ => {},
            }
        } else {
            assert(v1.joints[jn] == Some(jnew));
        }
    }
    assert forall|i1: int, i2: int, j: int|
        #![trigger held_with(v1, i1, j), held_with(v1, i2, j)]
        held_with(v1, i1, j) && held_with(v1, i2, j) implies i1 == i2 by {
        if i1 != i2 {
            if i1 != i && i2 != i {
                assert(held_with(v0, i1, j));
                assert(held_with(v0, i2, j));
            } else {
                let other = if i1 == i {
                    i2
                } else {
                    i1
                };
                assert(held_with(v1, other, jn));
                assert(held_with(v0, other, jn));
                assert(grabber_ok(v0, other));
                assert(false);
            }
        }
    }
    assert forall|j: int|
        0 <= j < v1.joints.len() && (#[trigger] v1.joints[j]) is Some implies exists|k: int|
        held_with(v1, k, j) by {
        if j < jn {
            assert(v0.joints[j] is Some);
            let k = choose|k: int| held_with(v0, k, j);
            assert(held_with(v0, k, j));
            assert(k != i);
            assert(held_with(v1, k, j));
        } else {
            assert(held_with(v1, i, j));
        }
    }
    assert forall|e: int| #![trigger v1.entities[e]]
        0 <= e < v1.entities.len() && v1.entities[e].grabbed_by is Some implies {
        let s = v1.entities[e].grabbed_by->0;
        &&& forall|k: int|
            0 <= k < s.len() ==> (#[trigger] s[k]) < v1.grabbers.len()
                && targets(v1.grabbers[s[k] as int], e)
        &&& forall|k: usize|
            (k as int) < v1.grabbers.len() && targets(#[trigger] v1.grabbers[k as int], e)
                ==> s.contains(k)
        &&& forall|k1: int, k2: int|
            0 <= k1 < s.len() && 0 <= k2 < s.len() && k1 != k2
                ==> (#[trigger] s[k1]) != (#[trigger] s[k2])
    } by {
        let s = v1.entities[e].grabbed_by->0;
        assert(v0.entities[e].grabbed_by is Some);
        assert(s == v0.entities[e].grabbed_by->0);
        assert forall|k: int|
            0 <= k < s.len() implies (#[trigger] s[k]) < v1.grabbers.len()
            && targets(v1.grabbers[s[k] as int], e) by {
            assert(targets(v0.grabbers[s[k] as int], e));
            if s[k] as int == i {
                assert(e == target);
                assert(targets(v1.grabbers[i], e));
            } else {
                assert(v1.grabbers[s[k] as int] == v0.grabbers[s[k] as int]);
            }
        }
        assert forall|k: usize|
            (k as int) < v1.grabbers.len() && targets(#[trigger] v1.grabbers[k as int], e)
            implies s.contains(k) by {
            if k as int == i {
                assert(e == target);
                assert(targets(v0.grabbers[i], e));
            } else {
                assert(v1.grabbers[k as int] == v0.grabbers[k as int]);
                assert(targets(v0.grabbers[k as int], e));
            }
        }
    }
    assert forall|e: int| #![trigger v1.entities[e]]
        0 <= e < v1.entities.len() implies {
        &&& pose_wf(v1.entities[e].pose)
        &&& (v1.entities[e].parent is Some ==> v1.entities[e].parent->0 < v1.entities.len())
    } by {
        assert(v1.entities[e] == v0.entities[e]);
    }
}


/// The debug-marker position of the visual pass: the chosen candidate's
/// closest point while searching with a candidate, nothing otherwise.
/// Purely observational; no feedback into state.
pub fn grab_point(g: &Grabber) -> (r: Option<Vec3>)
    ensures
        match g.state {
            GrabberState::Searching(opt) => match opt {
                Some(tp) => r == Some(tp.1),
                None => r is None,
            },
            _ => r is None,
        },
{
    match g.state {
        GrabberState::Searching(opt) => match opt {
            Some(tp) => Some(tp.1),
            _ => None,
        },
        _ => None,
    }
}


/// Whether grabber `g`'s state designates entity `e`.
fn targets_check(g: &Grabber, e: usize) -> (r: bool)
    ensures
        r == targets(*g, e as int),
{
    match g.state {
        GrabberState::Searching(opt) => match opt {
            Some(tp) => tp.0 == e,
            None => false,
        },
        GrabberState::Held { target, .. } => target == e,
        GrabberState::Idle => false,
    }
}

/// Whether grabber `g` holds joint handle `j`.
fn holds_joint(g: &Grabber, j: usize) -> (r: bool)
    ensures
        r == match g.state {
            GrabberState::Held { joint, .. } => joint == j,
            _ => false,
        },
{
    match g.state {
        GrabberState::Held { joint, .. } => joint == j,
        _ => false,
    }
}

/// One grabber's configuration and state against the world.
fn grabber_entry_ok(w: &GrabWorld, i: usize) -> (r: bool)
    requires
        (i as int) < w@.grabbers.len(),
    ensures
        r == grabber_ok(w@, i as int),
{
    let g = w.grabbers[i];
    let n = w.entities.len();
    if g.search_radius < 0 || g.search_radius > fx::LIM {
        return false;
    }
    if g.grab_tolerance < 0 || g.grab_tolerance > fx::LIM {
        return false;
    }
    if !(g.entity < n) {
        return false;
    }
    match g.state {
        GrabberState::Idle => true,
        GrabberState::Searching(opt) => match opt {
            None => true,
            Some(tp) => tp.0 < n && w.entities[tp.0].grabbable.is_some()
                && tp.1.is_well_formed(),
        },
        GrabberState::Held { target, body, joint } => {
            &&& target < n
            &&& w.entities[target].grabbable.is_some()
            &&& body < n
            &&& w.entities[body].is_rigid_body
            &&& joint < w.joints.len()
            &&& match &w.joints[joint] {
                Some(j) => j.entity2 == body,
                None => false,
            }
        },
    }
}

/// Every grabber is well formed.
fn check_grabbers_ok(w: &GrabWorld) -> (r: bool)
    ensures
        r == forall|i: int| 0 <= i < w@.grabbers.len() ==> #[trigger] grabber_ok(w@, i),
{
    let ng = w.grabbers.len();
    let mut i: usize = 0;
    while i < ng
        invariant
            ng == w@.grabbers.len(),
            i <= ng,
            forall|k: int| 0 <= k < i ==> #[trigger] grabber_ok(w@, k),
        decreases ng - i,
    {
        if !grabber_entry_ok(w, i) {
            return false;
        }
        i += 1;
    }
    true
}

/// At most one grabber per hand.
fn check_hands_unique(w: &GrabWorld) -> (r: bool)
    ensures
        r == forall|i1: int, i2: int|
            0 <= i1 < w@.grabbers.len() && 0 <= i2 < w@.grabbers.len() && i1 != i2
                ==> (#[trigger] w@.grabbers[i1].hand) != (#[trigger] w@.grabbers[i2].hand),
{
    let ng = w.grabbers.len();
    let mut a: usize = 0;
    while a < ng
        invariant
            ng == w@.grabbers.len(),
            a <= ng,
            forall|i1: int, i2: int|
                0 <= i1 < a && i1 < i2 < ng ==> (#[trigger] w@.grabbers[i1].hand)
                    != (#[trigger] w@.grabbers[i2].hand),
        decreases ng - a,
    {
        let mut b: usize = a + 1;
        while b < ng
            invariant
                ng == w@.grabbers.len(),
                a < ng,
                a < b <= ng,
                forall|i2: int|
                    a < i2 < b ==> (#[trigger] w@.grabbers[i2].hand) != w@.grabbers[a as int].hand,
            decreases ng - b,
        {
            if w.grabbers[a].hand == w.grabbers[b].hand {
                return false;
            }
            b += 1;
        }
        a += 1;
    }
    proof {
        assert forall|i1: int, i2: int|
            0 <= i1 < w@.grabbers.len() && 0 <= i2 < w@.grabbers.len() && i1 != i2 implies (
        #[trigger] w@.grabbers[i1].hand) != (#[trigger] w@.grabbers[i2].hand) by {
            if i1 < i2 {
            } else {
                assert(w@.grabbers[i2].hand != w@.grabbers[i1].hand);
            }
        }
    }
    true
}


/// Joint handles of held grabbers never alias.
fn check_joint_exclusive(w: &GrabWorld) -> (r: bool)
    ensures
        r == forall|i1: int, i2: int, j: int|
            #![trigger held_with(w@, i1, j), held_with(w@, i2, j)]
            held_with(w@, i1, j) && held_with(w@, i2, j) ==> i1 == i2,
{
    let ng = w.grabbers.len();
    let mut a: usize = 0;
    while a < ng
        invariant
            ng == w@.grabbers.len(),
            a <= ng,
            forall|i1: int, i2: int, j: int|
                #![trigger held_with(w@, i1, j), held_with(w@, i2, j)]
                0 <= i1 < a && i1 < i2 < ng && held_with(w@, i1, j) && held_with(w@, i2, j)
                    ==> i1 == i2,
        decreases ng - a,
    {
        let ja = match w.grabbers[a].state {
            GrabberState::Held { joint, .. } => Some(joint),
            _ => None,
        };
        if let Some(ja) = ja {
            let mut b: usize = a + 1;
            while b < ng
                invariant
                    ng == w@.grabbers.len(),
                    a < b <= ng,
                    held_with(w@, a as int, ja as int),
                    forall|i2: int| a < i2 < b ==> !held_with(w@, i2, ja as int),
                decreases ng - b,
            {
                if holds_joint(&w.grabbers[b], ja) {
                    proof {
                        assert(held_with(w@, b as int, ja as int));
                    }
                    return false;
                }
                b += 1;
            }
        }
        a += 1;
    }
    proof {
        assert forall|i1: int, i2: int, j: int|
            #![trigger held_with(w@, i1, j), held_with(w@, i2, j)]
            held_with(w@, i1, j) && held_with(w@, i2, j) implies i1 == i2 by {
            if i1 < i2 {
            } else if i2 < i1 {
                assert(held_with(w@, i2, j) && held_with(w@, i1, j));
            }
        }
    }
    true
}

/// Every live joint slot is owned by a held grabber.
fn check_joint_owners(w: &GrabWorld) -> (r: bool)
    ensures
        r == forall|j: int|
            0 <= j < w@.joints.len() && (#[trigger] w@.joints[j]) is Some ==> exists|i: int|
                held_with(w@, i, j),
{
    let nj = w.joints.len();
    let ng = w.grabbers.len();
    let mut j: usize = 0;
    while j < nj
        invariant
            nj == w@.joints.len(),
            ng == w@.grabbers.len(),
            j <= nj,
            forall|j0: int|
                0 <= j0 < j && (#[trigger] w@.joints[j0]) is Some ==> exists|i: int|
                    held_with(w@, i, j0),
        decreases nj - j,
    {
        if w.joints[j].is_some() {
            let mut k: usize = 0;
            let mut found = false;
            while k < ng && !found
                invariant
                    ng == w@.grabbers.len(),
                    (j as int) < w@.joints.len(),
                    k <= ng,
                    found ==> exists|i: int| held_with(w@, i, j as int),
                    !found ==> forall|i: int| 0 <= i < k ==> !held_with(w@, i, j as int),
                decreases ng - k,
            {
                if holds_joint(&w.grabbers[k], j) {
                    proof {
                        assert(held_with(w@, k as int, j as int));
                    }
                    found = true;
                }
                k += 1;
            }
            if !found {
                proof {
                    assert(w@.joints[j as int] is Some);
                    assert forall|i: int| !held_with(w@, i, j as int) by {
                        if 0 <= i < ng {
                        }
                    }
                }
                return false;
            }
        }
        j += 1;
    }
    true
}


/// One entity's back-reference set against the whole grabber list.
fn check_backrefs_at(w: &GrabWorld, e: usize) -> (r: bool)
    requires
        (e as int) < w@.entities.len(),
        w@.entities[e as int].grabbed_by is Some,
    ensures
        r == ({
            let s = w@.entities[e as int].grabbed_by->0;
            &&& forall|k: int|
                0 <= k < s.len() ==> (#[trigger] s[k]) < w@.grabbers.len()
                    && targets(w@.grabbers[s[k] as int], e as int)
            &&& forall|i: usize|
                (i as int) < w@.grabbers.len() && targets(
                    #[trigger] w@.grabbers[i as int],
                    e as int,
                ) ==> s.contains(i)
            &&& forall|k1: int, k2: int|
                0 <= k1 < s.len() && 0 <= k2 < s.len() && k1 != k2
                    ==> (#[trigger] s[k1]) != (#[trigger] s[k2])
        }),
{
    let ng = w.grabbers.len();
    let list = match &w.entities[e].grabbable {
        Some(g) => &g.grabbed_by,
        None => {
            proof {
                assert(false);
            }
            return false;
        },
    };
    let ghost s = w@.entities[e as int].grabbed_by->0;
    proof {
        assert(list@ == s);
    }
    let m = list.len();

    // Entries point at grabbers that designate this entity, without
    // duplicates.
    let mut k: usize = 0;
    while k < m
        invariant
            ng == w@.grabbers.len(),
            (e as int) < w@.entities.len(),
            w@.entities[e as int].grabbed_by is Some,
            s == w@.entities[e as int].grabbed_by->0,
            list@ == s,
            m == s.len(),
            k <= m,
            forall|k0: int|
                0 <= k0 < k ==> (#[trigger] s[k0]) < w@.grabbers.len()
                    && targets(w@.grabbers[s[k0] as int], e as int),
            forall|k1: int, k2: int|
                0 <= k1 < k && 0 <= k2 < k && k1 != k2 ==> (#[trigger] s[k1])
                    != (#[trigger] s[k2]),
        decreases m - k,
    {
        let x = list[k];
        if !(x < ng) {
            return false;
        }
        if !targets_check(&w.grabbers[x], e) {
            return false;
        }
        let mut k2: usize = 0;
        while k2 < k
            invariant
                (e as int) < w@.entities.len(),
                w@.entities[e as int].grabbed_by is Some,
                s == w@.entities[e as int].grabbed_by->0,
                list@ == s,
                m == s.len(),
                k < m,
                k2 <= k,
                x == s[k as int],
                forall|k0: int| 0 <= k0 < k2 ==> (#[trigger] s[k0]) != s[k as int],
            decreases k - k2,
        {
            if list[k2] == x {
                proof {
                    assert(s[k2 as int] == s[k as int]);
                }
                return false;
            }
            k2 += 1;
        }
        k += 1;
    }

    // Every grabber that designates this entity appears in the set.
    let mut i: usize = 0;
    while i < ng
        invariant
            ng == w@.grabbers.len(),
            (e as int) < w@.entities.len(),
            w@.entities[e as int].grabbed_by is Some,
            s == w@.entities[e as int].grabbed_by->0,
            list@ == s,
            m == s.len(),
            i <= ng,
            forall|k0: int|
                0 <= k0 < s.len() ==> (#[trigger] s[k0]) < w@.grabbers.len()
                    && targets(w@.grabbers[s[k0] as int], e as int),
            forall|k1: int, k2: int|
                0 <= k1 < s.len() && 0 <= k2 < s.len() && k1 != k2 ==> (#[trigger] s[k1])
                    != (#[trigger] s[k2]),
            forall|i0: usize|
                (i0 as int) < i && targets(#[trigger] w@.grabbers[i0 as int], e as int)
                    ==> s.contains(i0),
        decreases ng - i,
    {
        if targets_check(&w.grabbers[i], e) {
            let mut k3: usize = 0;
            let mut found = false;
            while k3 < m && !found
                invariant
                    list@ == s,
                    m == s.len(),
                    k3 <= m,
                    found ==> s.contains(i),
                    !found ==> forall|k0: int| 0 <= k0 < k3 ==> (#[trigger] s[k0]) != i,
                decreases m - k3,
            {
                if list[k3] == i {
                    proof {
                        assert(s[k3 as int] == i);
                        assert(s.contains(i));
                    }
                    found = true;
                }
                k3 += 1;
            }
            if !found {
                proof {
                    assert(!s.contains(i)) by {
                        if s.contains(i) {
                            let k0 = choose|k0: int| 0 <= k0 < s.len() && s[k0] == i;
                            assert(s[k0] != i);
                        }
                    }
                }
                return false;
            }
        }
        i += 1;
    }
    true
}

/// Back-reference sets hold exactly the designating grabbers, and every
/// entity node is well formed.
fn check_entities(w: &GrabWorld) -> (r: bool)
    ensures
        r == ({
            &&& forall|e: int| #![trigger w@.entities[e].grabbed_by]
                0 <= e < w@.entities.len() && w@.entities[e].grabbed_by is Some ==> {
                    let s = w@.entities[e].grabbed_by->0;
                    &&& forall|k: int|
                        0 <= k < s.len() ==> (#[trigger] s[k]) < w@.grabbers.len()
                            && targets(w@.grabbers[s[k] as int], e)
                    &&& forall|i: usize|
                        (i as int) < w@.grabbers.len() && targets(
                            #[trigger] w@.grabbers[i as int],
                            e,
                        ) ==> s.contains(i)
                    &&& forall|k1: int, k2: int|
                        0 <= k1 < s.len() && 0 <= k2 < s.len() && k1 != k2
                            ==> (#[trigger] s[k1]) != (#[trigger] s[k2])
                }
            &&& forall|e: int| #![trigger w@.entities[e]]
                0 <= e < w@.entities.len() ==> {
                    &&& pose_wf(w@.entities[e].pose)
                    &&& (w@.entities[e].parent is Some ==> w@.entities[e].parent->0
                        < w@.entities.len())
                }
        }),
{
    let ne = w.entities.len();
    let mut e: usize = 0;
    while e < ne
        invariant
            ne == w@.entities.len(),
            e <= ne,
            forall|e0: int| #![trigger w@.entities[e0].grabbed_by]
                0 <= e0 < e && w@.entities[e0].grabbed_by is Some ==> {
                    let s = w@.entities[e0].grabbed_by->0;
                    &&& forall|k: int|
                        0 <= k < s.len() ==> (#[trigger] s[k]) < w@.grabbers.len()
                            && targets(w@.grabbers[s[k] as int], e0)
                    &&& forall|i: usize|
                        (i as int) < w@.grabbers.len() && targets(
                            #[trigger] w@.grabbers[i as int],
                            e0,
                        ) ==> s.contains(i)
                    &&& forall|k1: int, k2: int|
                        0 <= k1 < s.len() && 0 <= k2 < s.len() && k1 != k2
                            ==> (#[trigger] s[k1]) != (#[trigger] s[k2])
                },
            forall|e0: int| #![trigger w@.entities[e0]]
                0 <= e0 < e ==> {
                    &&& pose_wf(w@.entities[e0].pose)
                    &&& (w@.entities[e0].parent is Some ==> w@.entities[e0].parent->0
                        < w@.entities.len())
                },
        decreases ne - e,
    {
        if !w.entities[e].pose.is_well_formed() {
            proof {
                assert(!pose_wf(w@.entities[e as int].pose));
            }
            return false;
        }
        match w.entities[e].parent {
            Some(p) => {
                if !(p < ne) {
                    proof {
                        assert(w@.entities[e as int].parent is Some);
                        assert(w@.entities[e as int].parent->0 == p);
                    }
                    return false;
                }
            },
            None => {},
        }
        let has_refs = w.entities[e].grabbable.is_some();
        if has_refs {
            proof {
                assert(w@.entities[e as int].grabbed_by is Some);
            }
            if !check_backrefs_at(w, e) {
                return false;
            }
        }
        e += 1;
    }
    true
}

/// Whether the world satisfies the standing invariant [`grab_inv`]: the
/// host can validate a freshly built or deserialized scene before
/// handing it to the grab machine.
pub fn world_well_formed(w: &GrabWorld) -> (r: bool)
    ensures
        r == grab_inv(w@),
{
    check_grabbers_ok(w) && check_hands_unique(w) && check_joint_exclusive(w)
        && check_joint_owners(w) && check_entities(w)
}

/// Law: a held grabber owns exactly one live joint, and that joint
/// references the grabber's resolved body.
pub proof fn lemma_held_unique_joint(v: WorldV, i: int, j: int)
    requires
        grab_inv(v),
        held_with(v, i, j),
    ensures
        0 <= j < v.joints.len(),
        v.joints[j] is Some,
        v.grabbers[i].state matches GrabberState::Held { body, joint, .. }
            && joint as int == j && v.joints[j]->0.entity2 == body,
        forall|i2: int| held_with(v, i2, j) ==> i2 == i,
{
    assert(grabber_ok(v, i));
    assert forall|i2: int| held_with(v, i2, j) implies i2 == i by {
        assert(held_with(v, i, j));
    }
}

/// Law: a grabbable's back-reference set holds exactly the grabbers
/// whose state designates it, without duplicates.
pub proof fn lemma_backrefs_exact(v: WorldV, e: int)
    requires
        grab_inv(v),
        grabbable_at(v, e),
    ensures
        forall|k: usize|
            (k as int) < v.grabbers.len()
                ==> (v.entities[e].grabbed_by->0.contains(k) <==> targets(
                #[trigger] v.grabbers[k as int],
                e,
            )),
        forall|k1: int, k2: int|
            0 <= k1 < v.entities[e].grabbed_by->0.len()
                && 0 <= k2 < v.entities[e].grabbed_by->0.len()
                && k1 != k2
                ==> (#[trigger] v.entities[e].grabbed_by->0[k1])
                    != (#[trigger] v.entities[e].grabbed_by->0[k2]),
{
    let s = v.entities[e].grabbed_by->0;
    assert forall|k: usize|
        (k as int) < v.grabbers.len() implies (s.contains(k) <==> targets(
        #[trigger] v.grabbers[k as int],
        e,
    )) by {
        if s.contains(k) {
            let k0 = choose|k0: int| 0 <= k0 < s.len() && s[k0] == k;
            assert(targets(v.grabbers[s[k0] as int], e));
        }
    }
}

/// Law: a start-grab followed by a search that finds nothing and an
/// immediate release returns the world to exactly its original state —
/// no joint is created and no back-reference is left behind.
pub proof fn lemma_start_search_end_roundtrip(v: WorldV, i: usize)
    requires
        grab_inv(v),
        (i as int) < v.grabbers.len(),
        v.grabbers[i as int].state is Idle,
    ensures
        end_grab_model(search_none_model(start_grab_model(v, i as int), i as int), i as int)
            == v,
{
    let ii = i as int;
    let v1 = start_grab_model(v, ii);
    let v2 = search_none_model(v1, ii);
    let v3 = end_grab_model(v2, ii);
    // No back-reference set mentions an idle grabber, so clearing it from
    // every set changes nothing.
    assert forall|e: int| 0 <= e < v.entities.len() implies #[trigger] clear_refs(
        v1.entities,
        i,
    )[e] == v.entities[e] by {
        assert(v1.entities == v.entities);
        assert(clear_refs(v1.entities, i)[e] == clear_node(v.entities[e], i));
        match v.entities[e].grabbed_by {
            Some(s) => {
                assert(!s.contains(i)) by {
                    if s.contains(i) {
                        let k0 = choose|k0: int| 0 <= k0 < s.len() && s[k0] == i;
                        assert(targets(v.grabbers[s[k0] as int], e));
                        assert(s[k0] == i);
                        assert(!targets(v.grabbers[ii], e));
                    }
                }
                lemma_seq_remove_absent(s, i);
                assert(clear_node(v.entities[e], i) == v.entities[e]);
            },
            None => {},
        }
    }
    assert(v2.entities =~= v.entities);
    assert(v3.grabbers =~= v.grabbers) by {
        assert(v.grabbers[ii].state == GrabberState::Idle);
        assert forall|k: int| 0 <= k < v.grabbers.len() implies v3.grabbers[k]
            == #[trigger] v.grabbers[k] by {}
    }
    assert(v3 =~= v);
}

/// The entity sequence with grabber `i` removed from entity `e`'s
/// back-reference set.
pub open spec fn clear_entity_ref(v: WorldV, e: int, i: usize) -> Seq<EntityV> {
    v.entities.update(
        e,
        EntityV {
            grabbed_by: Some(seq_remove(v.entities[e].grabbed_by->0, i)),
            ..v.entities[e]
        },
    )
}

/// The world after a release by grabber `i`: its state returns to
/// `Idle`; a chosen or held target loses the back-reference; a held
/// joint is destroyed.
pub open spec fn end_grab_model(v: WorldV, i: int) -> WorldV {
    let g = v.grabbers[i];
    let idled = v.grabbers.update(i, Grabber { state: GrabberState::Idle, ..g });
    match g.state {
        GrabberState::Idle => v,
        GrabberState::Searching(opt) => match opt {
            None => WorldV { grabbers: idled, ..v },
            Some(tp) => WorldV {
                grabbers: idled,
                entities: clear_entity_ref(v, tp.0 as int, i as usize),
                ..v
            },
        },
        GrabberState::Held { target, joint, .. } => WorldV {
            grabbers: idled,
            entities: clear_entity_ref(v, target as int, i as usize),
            joints: v.joints.update(joint as int, None),
        },
    }
}

/// Handle a release: the grabber bound to the event's hand, which must
/// not be idle, returns to `Idle`; a held joint is destroyed
/// synchronously and the target's back-reference is cleared.  A release
/// while already idle is a protocol violation of the event-producing
/// layer and is excluded by contract.
pub fn handle_grab_end(w: &mut GrabWorld, event: &EndGrabEvent)
    requires
        grab_inv(old(w)@),
        has_grabber(old(w)@, event.hand),
        !(old(w)@.grabbers[grabber_for(old(w)@, event.hand)].state is Idle),
    ensures
        final(w)@ == end_grab_model(old(w)@, grabber_for(old(w)@, event.hand)),
        grab_inv(final(w)@),
{
    let i = find_grabber(w, event.hand);
    let ghost v0 = w@;
    let st = w.grabbers[i].state;
    match st {
        GrabberState::Idle => {
            proof {
                assert(false);
            }
        },
        GrabberState::Searching(opt) => {
            w.grabbers[i].state = GrabberState::Idle;
            match opt {
                None => {
                    proof {
                        assert(w@ =~= end_grab_model(v0, i as int));
                        lemma_state_swap_inv(v0, w@, i as int);
                    }
                },
                Some(tp) => {
                    proof {
                        assert(grabber_ok(v0, i as int));
                        assert(w@.entities == v0.entities);
                    }
                    remove_ref(w, tp.0, i);
                    proof {
                        assert(w@ =~= end_grab_model(v0, i as int));
                        lemma_release_inv(v0, w@, i as int, tp.0 as int);
                    }
                },
            }
        },
        GrabberState::Held { target, body: _, joint } => {
            proof {
                assert(grabber_ok(v0, i as int));
            }
            w.joints[joint] = None;
            w.grabbers[i].state = GrabberState::Idle;
            proof {
                assert(w@.entities == v0.entities);
            }
            remove_ref(w, target, i);
            proof {
                assert(w@ =~= end_grab_model(v0, i as int));
                lemma_release_inv(v0, w@, i as int, target as int);
            }
        },
    }
}

/// Releasing a grabber preserves the invariant: the grabber goes idle,
/// its target's back-reference set loses exactly it, and a held joint
/// slot (if any) is emptied.
proof fn lemma_release_inv(v0: WorldV, v1: WorldV, i: int, t: int)
    requires
        grab_inv(v0),
        0 <= i < v0.grabbers.len(),
        forall|e: int| targets(v0.grabbers[i], e) <==> e == t,
        0 <= t < v0.entities.len(),
        v0.entities[t].grabbed_by is Some,
        v1.grabbers == v0.grabbers.update(
            i,
            Grabber { state: GrabberState::Idle, ..v0.grabbers[i] },
        ),
        v1.entities == clear_entity_ref(v0, t, i as usize),
        i as usize as int == i,
        match v0.grabbers[i].state {
            GrabberState::Held { joint, .. } => v1.joints == v0.joints.update(
                joint as int,
                None::<FixedJoint2>,
            ),
            _ => v1.joints == v0.joints,
        },
    ensures
        grab_inv(v1),
{
    let s0 = v0.entities[t].grabbed_by->0;
    lemma_seq_remove_membership(s0, i as usize);
    lemma_seq_remove_nodup(s0, i as usize);

    assert forall|k: int| 0 <= k < v1.grabbers.len() implies #[trigger] grabber_ok(v1, k) by {
        assert(grabber_ok(v0, k));
        if k != i {
            assert(v1.grabbers[k] == v0.grabbers[k]);
            match v0.grabbers[k].state {
                GrabberState::Held { target: _, body: _, joint } => {
                    match v0.grabbers[i].state {
                        GrabberState::Held { joint: ji, .. } => {
                            assert(grabber_ok(v0, i));
                            assert(held_with(v0, k, joint as int));
                            assert(held_with(v0, i, ji as int));
                            assert(joint != ji);
                            assert(v0.joints.update(ji as int, None::<FixedJoint2>)[joint as int]
                                == v0.joints[joint as int]);
                            assert(v1.joints[joint as int] == v0.joints[joint as int]);
                        },
                        _ => {},
                    }
                },
                _ => {},
            }
        }
    }
    assert forall|i1: int, i2: int, j: int|
        #![trigger held_with(v1, i1, j), held_with(v1, i2, j)]
        held_with(v1, i1, j) && held_with(v1, i2, j) implies i1 == i2 by {
        assert(i1 != i);
        assert(i2 != i);
        assert(held_with(v0, i1, j));
        assert(held_with(v0, i2, j));
    }
    assert forall|j: int|
        0 <= j < v1.joints.len() && (#[trigger] v1.joints[j]) is Some implies exists|k: int|
        held_with(v1, k, j) by {
        match v0.grabbers[i].state {
            GrabberState::Held { joint: ji, .. } => {
                assert(grabber_ok(v0, i));
                assert(v1.joints[j] == v0.joints.update(ji as int, None::<FixedJoint2>)[j]);
                assert(j != ji as int);
                assert(v0.joints[j] is Some);
            },
            _ => {
                assert(v0.joints[j] is Some);
            },
        }
        let k = choose|k: int| held_with(v0, k, j);
        assert(held_with(v0, k, j));
        assert(k != i);
        assert(held_with(v1, k, j));
    }
    assert forall|e: int| #![trigger v1.entities[e]]
        0 <= e < v1.entities.len() && v1.entities[e].grabbed_by is Some implies {
        let s = v1.entities[e].grabbed_by->0;
        &&& forall|k: int|
            0 <= k < s.len() ==> (#[trigger] s[k]) < v1.grabbers.len()
                && targets(v1.grabbers[s[k] as int], e)
        &&& forall|k: usize|
            (k as int) < v1.grabbers.len() && targets(#[trigger] v1.grabbers[k as int], e)
                ==> s.contains(k)
        &&& forall|k1: int, k2: int|
            0 <= k1 < s.len() && 0 <= k2 < s.len() && k1 != k2
                ==> (#[trigger] s[k1]) != (#[trigger] s[k2])
    } by {
        let s = v1.entities[e].grabbed_by->0;
        assert(v0.entities[e].grabbed_by is Some);
        if e == t {
            assert(s == seq_remove(s0, i as usize));
            assert forall|k: int|
                0 <= k < s.len() implies (#[trigger] s[k]) < v1.grabbers.len()
                && targets(v1.grabbers[s[k] as int], e) by {
                assert(s.contains(s[k]));
                assert(s0.contains(s[k]) && s[k] != i as usize);
                let k0 = choose|k0: int| 0 <= k0 < s0.len() && s0[k0] == s[k];
                assert(targets(v0.grabbers[s0[k0] as int], e));
                assert(v1.grabbers[s[k] as int] == v0.grabbers[s[k] as int]);
            }
            assert forall|k: usize|
                (k as int) < v1.grabbers.len() && targets(#[trigger] v1.grabbers[k as int], e)
                implies s.contains(k) by {
                assert(k as int != i);
                assert(v1.grabbers[k as int] == v0.grabbers[k as int]);
                assert(targets(v0.grabbers[k as int], e));
                assert(s0.contains(k));
            }
        } else {
            assert(v1.entities[e] == v0.entities[e]);
            let se = v0.entities[e].grabbed_by->0;
            assert(s == se);
            assert forall|k: int|
                0 <= k < s.len() implies (#[trigger] s[k]) < v1.grabbers.len()
                && targets(v1.grabbers[s[k] as int], e) by {
                assert(targets(v0.grabbers[se[k] as int], e));
                assert(s[k] != i) by {
                    if s[k] == i {
                        assert(targets(v0.grabbers[i], e));
                    }
                }
                assert(v1.grabbers[s[k] as int] == v0.grabbers[s[k] as int]);
            }
            assert forall|k: usize|
                (k as int) < v1.grabbers.len() && targets(#[trigger] v1.grabbers[k as int], e)
                implies s.contains(k) by {
                assert(k as int != i);
                assert(v1.grabbers[k as int] == v0.grabbers[k as int]);
                assert(targets(v0.grabbers[k as int], e));
            }
        }
    }
    assert forall|e: int| #![trigger v1.entities[e]]
        0 <= e < v1.entities.len() implies {
        &&& pose_wf(v1.entities[e].pose)
        &&& (v1.entities[e].parent is Some ==> v1.entities[e].parent->0 < v1.entities.len())
    } by {
        if e == t {
            assert(v1.entities[e].pose == v0.entities[e].pose);
            assert(v1.entities[e].parent == v0.entities[e].parent);
        } else {
            assert(v1.entities[e] == v0.entities[e]);
        }
    }
}

/// Handle a start-grab intent: the grabber bound to the event's hand,
/// which must be idle, starts searching.  Receiving a start while not
/// idle is a protocol violation of the event-producing layer and is
/// excluded by contract.
pub fn handle_grab_start(w: &mut GrabWorld, event: &StartGrabEvent)
    requires
        grab_inv(old(w)@),
        has_grabber(old(w)@, event.hand),
        old(w)@.grabbers[grabber_for(old(w)@, event.hand)].state is Idle,
    ensures
        final(w)@ == start_grab_model(old(w)@, grabber_for(old(w)@, event.hand)),
        grab_inv(final(w)@),
{
    let i = find_grabber(w, event.hand);
    let ghost v0 = w@;
    w.grabbers[i].state = GrabberState::Searching(None);
    proof {
        let vi = grabber_for(v0, event.hand);
        assert(w@.grabbers =~= start_grab_model(v0, vi).grabbers);
        assert(w@ =~= start_grab_model(v0, vi));
        lemma_state_swap_inv(v0, w@, vi);
    }
}

/// Replacing one grabber's state with a state that designates nothing
/// and owns nothing preserves the invariant, provided the old state also
/// designated nothing and owned nothing.
proof fn lemma_state_swap_inv(v0: WorldV, v1: WorldV, i: int)
    requires
        grab_inv(v0),
        0 <= i < v0.grabbers.len(),
        v1.entities == v0.entities,
        v1.joints == v0.joints,
        v1.grabbers == v0.grabbers.update(
            i,
            Grabber { state: v1.grabbers[i].state, ..v0.grabbers[i] },
        ),
        v1.grabbers[i].state is Idle || v1.grabbers[i].state == GrabberState::Searching(
            None::<(usize, Vec3)>,
        ),
        v0.grabbers[i].state is Idle || v0.grabbers[i].state == GrabberState::Searching(
            None::<(usize, Vec3)>,
        ),
    ensures
        grab_inv(v1),
{
    assert forall|k: int| 0 <= k < v1.grabbers.len() implies #[trigger] grabber_ok(v1, k) by {
        assert(grabber_ok(v0, k));
    }
    assert forall|i1: int, i2: int, j: int|
        #![trigger held_with(v1, i1, j), held_with(v1, i2, j)]
        held_with(v1, i1, j) && held_with(v1, i2, j) implies i1 == i2 by {
        assert(i1 != i);
        assert(i2 != i);
        assert(held_with(v0, i1, j));
        assert(held_with(v0, i2, j));
    }
    assert forall|j: int|
        0 <= j < v1.joints.len() && (#[trigger] v1.joints[j]) is Some implies exists|k: int|
        held_with(v1, k, j) by {
        let k = choose|k: int| held_with(v0, k, j);
        assert(held_with(v0, k, j));
        assert(k != i);
        assert(held_with(v1, k, j));
    }
    assert forall|e: int| #![trigger v1.entities[e]]
        0 <= e < v1.entities.len() && v1.entities[e].grabbed_by is Some implies {
        let s = v1.entities[e].grabbed_by->0;
        &&& forall|k: int|
            0 <= k < s.len() ==> (#[trigger] s[k]) < v1.grabbers.len()
                && targets(v1.grabbers[s[k] as int], e)
        &&& forall|k: usize|
            (k as int) < v1.grabbers.len() && targets(#[trigger] v1.grabbers[k as int], e)
                ==> s.contains(k)
        &&& forall|k1: int, k2: int|
            0 <= k1 < s.len() && 0 <= k2 < s.len() && k1 != k2
                ==> (#[trigger] s[k1]) != (#[trigger] s[k2])
    } by {
        let s = v1.entities[e].grabbed_by->0;
        assert(v0.entities[e].grabbed_by is Some);
        assert(v0.entities[e].grabbed_by->0 == s);
        assert forall|k: int|
            0 <= k < s.len() implies (#[trigger] s[k]) < v1.grabbers.len()
            && targets(v1.grabbers[s[k] as int], e) by {
            assert(targets(v0.grabbers[s[k] as int], e));
            assert(s[k] != i);
        }
        assert forall|k: usize|
            (k as int) < v1.grabbers.len() && targets(#[trigger] v1.grabbers[k as int], e)
            implies s.contains(k) by {
            if k as int == i {
                assert(!targets(v1.grabbers[k as int], e));
            } else {
                assert(v1.grabbers[k as int] == v0.grabbers[k as int]);
                assert(targets(v0.grabbers[k as int], e));
            }
        }
    }
}

} // verus!
