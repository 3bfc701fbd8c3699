//! World poses: a position together with an orientation.

use vstd::prelude::*;

use crate::fx;
use crate::quat::{q_conj, q_rotate, q_wf, Q4, Quat};
use crate::vec3::{v3_add, v3_bounded, v3_sub, v3_wf, V3, Vec3};

verus! {

/// Position and orientation of a body or tracker in world space.
#[derive(Clone, Copy, Debug, PartialEq, Eq, Structural)]
pub struct Pose {
    pub position: Vec3,
    pub orientation: Quat,
}

/// Ghost model of a pose.
pub ghost struct PoseV {
    pub position: V3,
    pub orientation: Q4,
}

impl View for Pose {
    type V = PoseV;

    open spec fn view(&self) -> PoseV {
        PoseV { position: self.position@, orientation: self.orientation@ }
    }
}

/// A well-formed pose: position within the coordinate limit, orientation
/// within component scale.
pub open spec fn pose_wf(p: PoseV) -> bool {
    v3_wf(p.position) && q_wf(p.orientation)
}

/// A point in the pose's local frame carried to world space.
pub open spec fn world_point_spec(p: PoseV, local: V3) -> V3 {
    v3_add(p.position, q_rotate(p.orientation, local))
}

/// A world-space point carried into the pose's local frame.
pub open spec fn local_point_spec(p: PoseV, world: V3) -> V3 {
    q_rotate(q_conj(p.orientation), v3_sub(world, p.position))
}

impl Pose {
    /// The identity pose: origin position, identity orientation.
    pub fn identity() -> (r: Pose)
        ensures
            r@.position == (V3 { x: 0, y: 0, z: 0 }),
            r@.orientation == (Q4 { x: 0, y: 0, z: 0, w: fx::SCALE as int }),
    {
        Pose { position: Vec3::zero(), orientation: Quat::identity() }
    }

    /// Whether position and orientation lie within their limits.
    pub fn is_well_formed(&self) -> (r: bool)
        ensures
            r == pose_wf(self@),
    {
        self.position.is_well_formed() && self.orientation.is_well_formed()
    }

    /// Carry a point from the pose's local frame to world space.
    pub fn world_point(&self, local: &Vec3) -> (r: Vec3)
        requires
            pose_wf(self@),
            v3_bounded(local@, 4_000_000_000),
        ensures
            r@ == world_point_spec(self@, local@),
            v3_bounded(r@, 64_100_000_000),
    {
        let rotated = self.orientation.rotate(local);
        self.position.add(&rotated)
    }

    /// Carry a world-space point into the pose's local frame.
    pub fn local_point(&self, world: &Vec3) -> (r: Vec3)
        requires
            pose_wf(self@),
            v3_wf(world@),
        ensures
            r@ == local_point_spec(self@, world@),
            v3_bounded(r@, 64_000_000_000),
    {
        let delta = world.sub(&self.position);
        let inv = self.orientation.conj();
        inv.rotate(&delta)
    }
}

} // verus!
