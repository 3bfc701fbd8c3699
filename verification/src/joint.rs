//! Fixed joint with rotation offset, solved by substep positional
//! corrections.
//!
//! The joint attaches two bodies at local anchor points and additionally
//! pins their relative orientation to a fixed offset captured at
//! attachment time.  Each simulation tick resets its two
//! Lagrange-multiplier accumulators; each substep performs an orientation
//! alignment pass and then a positional alignment pass against the
//! bodies' current state.  The host solver's generic two-body correction
//! is modelled here with scalar inverse mass and inverse inertia, so
//! heavier and more inertial bodies move less per correction; compliance
//! `0` behaves as a rigid constraint, compliance `> 0` as a soft spring
//! with stiffness `1 / compliance`.
//!
//! Scheduling is the host's duty: within every substep the solve step of
//! this joint type runs after the plain fixed joint's and before the
//! revolute joint's, and [`joint_damping`] runs at the same slot of the
//! velocity-correction phase.

use vstd::prelude::*;

use crate::body::{body_wf, Body, INV_LIM};
use crate::fx;
use crate::fx::{div_trunc, fx_div_spec, fx_mul_spec, fx_wf};
use crate::pose::{world_point_spec, PoseV};
use crate::quat::{
    q_bounded, q_conj, q_mul, q_neg, q_norm_sq, q_normalize, q_pure, q_wf, Q4, Quat,
};
use crate::vec3::{
    sqrt_floor, v3_add, v3_bounded, v3_neg, v3_norm_sq, v3_scale, v3_sub, v3_unit, V3, Vec3,
};

verus! {

/// Largest anchor-offset component the joint accepts: covers anything an
/// inverse pose transform of in-range points can produce.
pub const ANCHOR_LIM: i64 = 4_000_000_000;

/// A fixed joint between two bodies, with a rotation offset.
///
/// Prefer a single body where possible; this joint exists so a grabber
/// can be rigidly attached to a grabbed body while both keep simulating.
#[derive(Clone, Copy, Debug, PartialEq, Eq, Structural)]
pub struct FixedJoint2 {
    /// First entity constrained by the joint.
    pub entity1: usize,
    /// Second entity constrained by the joint.
    pub entity2: usize,
    /// Attachment point on the first body, in its local frame.
    pub local_anchor1: Vec3,
    /// Attachment point on the second body, in its local frame.
    pub local_anchor2: Vec3,
    /// Rotation offset from body 1 to body 2, captured at attachment.
    pub rotation_offset: Quat,
    /// Linear damping applied by the joint.
    pub damping_linear: i64,
    /// Angular damping applied by the joint.
    pub damping_angular: i64,
    /// Lagrange multiplier accumulated by the positional correction.
    pub position_lagrange: i64,
    /// Lagrange multiplier accumulated by the orientation alignment.
    pub align_lagrange: i64,
    /// Compliance, the inverse of stiffness.
    pub compliance: i64,
    /// Impulse along the positional axis, recorded for introspection.
    pub force: Vec3,
    /// Impulse along the alignment axis, recorded for introspection.
    pub align_torque: Vec3,
}

/// Ghost model of a joint.
pub ghost struct JointV {
    pub entity1: int,
    pub entity2: int,
    pub local_anchor1: V3,
    pub local_anchor2: V3,
    pub rotation_offset: Q4,
    pub damping_linear: int,
    pub damping_angular: int,
    pub position_lagrange: int,
    pub align_lagrange: int,
    pub compliance: int,
    pub force: V3,
    pub align_torque: V3,
}

impl View for FixedJoint2 {
    type V = JointV;

    open spec fn view(&self) -> JointV {
        JointV {
            entity1: self.entity1 as int,
            entity2: self.entity2 as int,
            local_anchor1: self.local_anchor1@,
            local_anchor2: self.local_anchor2@,
            rotation_offset: self.rotation_offset@,
            damping_linear: self.damping_linear as int,
            damping_angular: self.damping_angular as int,
            position_lagrange: self.position_lagrange as int,
            align_lagrange: self.align_lagrange as int,
            compliance: self.compliance as int,
            force: self.force@,
            align_torque: self.align_torque@,
        }
    }
}

/// A well-formed joint: anchors, offset and scalars within the solver's
/// envelope.
pub open spec fn joint_wf(j: JointV) -> bool {
    &&& v3_bounded(j.local_anchor1, ANCHOR_LIM as int)
    &&& v3_bounded(j.local_anchor2, ANCHOR_LIM as int)
    &&& q_wf(j.rotation_offset)
    &&& 0 <= j.damping_linear && fx_wf(j.damping_linear)
    &&& 0 <= j.damping_angular && fx_wf(j.damping_angular)
    &&& 0 <= j.compliance && fx_wf(j.compliance)
    &&& fx_wf(j.position_lagrange)
    &&& fx_wf(j.align_lagrange)
}

/// The stored rotation offset: the raw offset scaled to unit length; an
/// all-zero offset, which cannot arise from genuine rotations, falls back
/// to the identity as a local degeneracy guard.
pub open spec fn rotation_offset_spec(offset: Q4) -> Q4 {
    if q_norm_sq(offset) == 0 {
        Q4 { x: 0, y: 0, z: 0, w: fx::SCALE as int }
    } else {
        q_normalize(offset)
    }
}

/// The orientation error of the joint: twice the vector part of
/// `rot1 * offset * rot2^-1`, sign-corrected to the hemisphere with a
/// nonpositive scalar part, brought to component scale.
pub open spec fn delta_q_spec(offset: Q4, rot1: Q4, rot2: Q4) -> V3 {
    let d = q_mul(q_mul(rot1, offset), q_conj(rot2));
    let dc = if d.w < 0 {
        d
    } else {
        q_neg(d)
    };
    let s2 = (fx::SCALE as int) * (fx::SCALE as int);
    V3 {
        x: div_trunc(2 * dc.x, s2),
        y: div_trunc(2 * dc.y, s2),
        z: div_trunc(2 * dc.z, s2),
    }
}

/// Effective compliance of one substep, `compliance / dt^2`, computed
/// at raw precision so that millisecond substeps keep their full weight.
pub open spec fn tilde_compliance_spec(compliance: int, dt: int) -> int {
    div_trunc(compliance * (fx::SCALE as int) * (fx::SCALE as int), dt * dt)
}

/// The Lagrange-multiplier increment of one corrective pass, for error
/// magnitude `c` against the combined inverse mass and the effective
/// compliance.
pub open spec fn delta_lagrange_spec(c: int, lagrange: int, tilde: int, w_sum: int) -> int {
    fx_div_spec(-c - fx_mul_spec(tilde, lagrange), w_sum + tilde)
}

/// An orientation advanced by a small rotation vector `th`: the
/// quaternion derivative step `q + (pure(th) * q) / 2`, scaled back to
/// unit length.  A step that would zero the quaternion leaves the
/// orientation unchanged (degeneracy guard).
pub open spec fn apply_angular_spec(q: Q4, th: V3) -> Q4 {
    let h = q_mul(q_pure(th), q);
    let two_s = 2 * (fx::SCALE as int);
    let s = Q4 {
        x: q.x + div_trunc(h.x, two_s),
        y: q.y + div_trunc(h.y, two_s),
        z: q.z + div_trunc(h.z, two_s),
        w: q.w + div_trunc(h.w, two_s),
    };
    if q_norm_sq(s) == 0 {
        q
    } else {
        q_normalize(s)
    }
}

/// Outcome of the orientation alignment pass.
pub ghost struct AngularPass {
    pub lagrange: int,
    pub torque: V3,
    pub rot1: Q4,
    pub rot2: Q4,
}

/// The orientation alignment pass: measure the orientation error, update
/// the Lagrange multiplier by the compliance rule, and turn both bodies
/// about the error axis in proportion to their inverse inertias.  A zero
/// error leaves everything unchanged apart from a zero recorded torque.
pub open spec fn align_orientation_spec(
    offset: Q4,
    rot1: Q4,
    rot2: Q4,
    lagrange: int,
    compliance: int,
    w1: int,
    w2: int,
    dt: int,
) -> AngularPass {
    let dq = delta_q_spec(offset, rot1, rot2);
    let asq = v3_norm_sq(dq);
    if asq == 0 {
        AngularPass { lagrange, torque: V3 { x: 0, y: 0, z: 0 }, rot1, rot2 }
    } else {
        let angle = sqrt_floor(asq);
        let axis = v3_unit(dq);
        let tilde = tilde_compliance_spec(compliance, dt);
        let dl = delta_lagrange_spec(angle, lagrange, tilde, w1 + w2);
        let lag2 = lagrange + dl;
        let p = v3_scale(axis, dl);
        AngularPass {
            lagrange: lag2,
            torque: v3_scale(axis, lag2),
            rot1: apply_angular_spec(rot1, v3_neg(v3_scale(p, w1))),
            rot2: apply_angular_spec(rot2, v3_scale(p, w2)),
        }
    }
}

/// Outcome of the positional alignment pass.
pub ghost struct PositionalPass {
    pub lagrange: int,
    pub force: V3,
    pub pos1: V3,
    pub pos2: V3,
}

/// The positional alignment pass: measure the separation of the two
/// world-space anchors, update the Lagrange multiplier by the compliance
/// rule, and move both bodies along the separation axis in proportion to
/// their inverse masses.  A zero separation leaves everything unchanged
/// apart from a zero recorded force.
pub open spec fn align_position_spec(
    anchor1: V3,
    anchor2: V3,
    pose1: PoseV,
    pose2: PoseV,
    lagrange: int,
    compliance: int,
    m1: int,
    m2: int,
    dt: int,
) -> PositionalPass {
    let r1 = world_point_spec(pose1, anchor1);
    let r2 = world_point_spec(pose2, anchor2);
    let sep = v3_sub(r1, r2);
    let csq = v3_norm_sq(sep);
    if csq == 0 {
        PositionalPass {
            lagrange,
            force: V3 { x: 0, y: 0, z: 0 },
            pos1: pose1.position,
            pos2: pose2.position,
        }
    } else {
        let c = sqrt_floor(csq);
        let axis = v3_unit(sep);
        let tilde = tilde_compliance_spec(compliance, dt);
        let dl = delta_lagrange_spec(c, lagrange, tilde, m1 + m2);
        let lag2 = lagrange + dl;
        let p = v3_scale(axis, dl);
        PositionalPass {
            lagrange: lag2,
            force: v3_scale(axis, lag2),
            pos1: v3_add(pose1.position, v3_scale(p, m1)),
            pos2: v3_sub(pose2.position, v3_scale(p, m2)),
        }
    }
}

/// The convergence target of a rigid joint is stable: with zero
/// orientation error and coincident world anchors, one solver substep
/// changes nothing — both passes leave the poses and both Lagrange
/// multipliers exactly as they are and record zero impulses.  The
/// approach to this state under zero disturbance is demonstrated by the
/// crate's substep tests; truncated arithmetic admits no exact
/// convergence-rate bound to state here.
pub proof fn lemma_solve_zero_error_stable(
    offset: Q4,
    anchor1: V3,
    anchor2: V3,
    pose1: PoseV,
    pose2: PoseV,
    lagrange_a: int,
    lagrange_p: int,
    compliance: int,
    w1: int,
    w2: int,
    m1: int,
    m2: int,
    dt: int,
)
    requires
        v3_norm_sq(delta_q_spec(offset, pose1.orientation, pose2.orientation)) == 0,
        world_point_spec(pose1, anchor1) == world_point_spec(pose2, anchor2),
    ensures
        align_orientation_spec(
            offset,
            pose1.orientation,
            pose2.orientation,
            lagrange_a,
            compliance,
            w1,
            w2,
            dt,
        ) == (AngularPass {
            lagrange: lagrange_a,
            torque: V3 { x: 0, y: 0, z: 0 },
            rot1: pose1.orientation,
            rot2: pose2.orientation,
        }),
        align_position_spec(
            anchor1,
            anchor2,
            pose1,
            pose2,
            lagrange_p,
            compliance,
            m1,
            m2,
            dt,
        ) == (PositionalPass {
            lagrange: lagrange_p,
            force: V3 { x: 0, y: 0, z: 0 },
            pos1: pose1.position,
            pos2: pose2.position,
        }),
{
    let sep = v3_sub(world_point_spec(pose1, anchor1), world_point_spec(pose2, anchor2));
    assert(sep == (V3 { x: 0, y: 0, z: 0 }));
    assert(v3_norm_sq(sep) == 0);
}

impl FixedJoint2 {
    /// A joint between `entity1` and `entity2` with default settings:
    /// anchors at the origins, identity offset, unit damping, zero
    /// compliance (rigid).
    pub fn new(entity1: usize, entity2: usize) -> (r: FixedJoint2)
        ensures
            r == (FixedJoint2 {
                entity1,
                entity2,
                local_anchor1: Vec3 { x: 0, y: 0, z: 0 },
                local_anchor2: Vec3 { x: 0, y: 0, z: 0 },
                rotation_offset: Quat { x: 0, y: 0, z: 0, w: fx::SCALE },
                damping_linear: fx::SCALE,
                damping_angular: fx::SCALE,
                position_lagrange: 0,
                align_lagrange: 0,
                compliance: 0,
                force: Vec3 { x: 0, y: 0, z: 0 },
                align_torque: Vec3 { x: 0, y: 0, z: 0 },
            }),
            joint_wf(r@),
    {
        FixedJoint2 {
            entity1,
            entity2,
            local_anchor1: Vec3::zero(),
            local_anchor2: Vec3::zero(),
            rotation_offset: Quat::identity(),
            damping_linear: fx::SCALE,
            damping_angular: fx::SCALE,
            position_lagrange: 0,
            align_lagrange: 0,
            compliance: 0,
            force: Vec3::zero(),
            align_torque: Vec3::zero(),
        }
    }

    /// The two constrained entities.
    pub fn entities(&self) -> (r: (usize, usize))
        ensures
            r.0 == self.entity1,
            r.1 == self.entity2,
    {
        (self.entity1, self.entity2)
    }

    /// The same joint with the given compliance.
    pub fn with_compliance(self, compliance: i64) -> (r: FixedJoint2)
        requires
            0 <= compliance && fx_wf(compliance as int),
        ensures
            r == (FixedJoint2 { compliance, ..self }),
    {
        FixedJoint2 { compliance, ..self }
    }

    /// The same joint anchored at `anchor` on the first body.
    pub fn with_local_anchor_1(self, anchor: Vec3) -> (r: FixedJoint2)
        requires
            v3_bounded(anchor@, ANCHOR_LIM as int),
        ensures
            r == (FixedJoint2 { local_anchor1: anchor, ..self }),
    {
        FixedJoint2 { local_anchor1: anchor, ..self }
    }

    /// The same joint anchored at `anchor` on the second body.
    pub fn with_local_anchor_2(self, anchor: Vec3) -> (r: FixedJoint2)
        requires
            v3_bounded(anchor@, ANCHOR_LIM as int),
        ensures
            r == (FixedJoint2 { local_anchor2: anchor, ..self }),
    {
        FixedJoint2 { local_anchor2: anchor, ..self }
    }

    /// The same joint with the given linear velocity damping.
    pub fn with_linear_velocity_damping(self, damping: i64) -> (r: FixedJoint2)
        requires
            0 <= damping && fx_wf(damping as int),
        ensures
            r == (FixedJoint2 { damping_linear: damping, ..self }),
    {
        FixedJoint2 { damping_linear: damping, ..self }
    }

    /// The same joint with the given angular velocity damping.
    pub fn with_angular_velocity_damping(self, damping: i64) -> (r: FixedJoint2)
        requires
            0 <= damping && fx_wf(damping as int),
        ensures
            r == (FixedJoint2 { damping_angular: damping, ..self }),
    {
        FixedJoint2 { damping_angular: damping, ..self }
    }

    /// Attachment point on the first body.
    pub fn local_anchor_1(&self) -> (r: Vec3)
        ensures
            r == self.local_anchor1,
    {
        self.local_anchor1
    }

    /// Attachment point on the second body.
    pub fn local_anchor_2(&self) -> (r: Vec3)
        ensures
            r == self.local_anchor2,
    {
        self.local_anchor2
    }

    /// Linear damping applied by the joint.
    pub fn damping_linear(&self) -> (r: i64)
        ensures
            r == self.damping_linear,
    {
        self.damping_linear
    }

    /// Angular damping applied by the joint.
    pub fn damping_angular(&self) -> (r: i64)
        ensures
            r == self.damping_angular,
    {
        self.damping_angular
    }

    /// The same joint with the given rotation offset, scaled to unit
    /// length as [`rotation_offset_spec`] describes.
    pub fn with_rotation_offset(self, offset: Quat) -> (r: FixedJoint2)
        requires
            q_bounded(offset@, 500_000_000_000_000),
        ensures
            r == (FixedJoint2 {
                rotation_offset: r.rotation_offset,
                ..self
            }),
            r.rotation_offset@ == rotation_offset_spec(offset@),
            q_wf(r.rotation_offset@),
    {
        proof {
            assert(0 <= offset@.x * offset@.x) by (nonlinear_arith);
            assert(0 <= offset@.y * offset@.y) by (nonlinear_arith);
            assert(0 <= offset@.z * offset@.z) by (nonlinear_arith);
            assert(0 <= offset@.w * offset@.w) by (nonlinear_arith);
        }
        let nsq = offset.norm_sq_128();
        let stored = if nsq == 0 {
            Quat::identity()
        } else {
            offset.normalize()
        };
        FixedJoint2 { rotation_offset: stored, ..self }
    }

    /// Reset both Lagrange multipliers, at the start of every simulation
    /// tick.
    pub fn clear_lagrange_multipliers(&mut self)
        ensures
            *final(self) == (FixedJoint2 {
                position_lagrange: 0,
                align_lagrange: 0,
                ..*old(self)
            }),
    {
        self.position_lagrange = 0;
        self.align_lagrange = 0;
    }

    /// The joint's current orientation error as a rotation vector.
    pub fn get_delta_q(&self, rot1: &Quat, rot2: &Quat) -> (r: Vec3)
        requires
            q_wf(self.rotation_offset@),
            q_wf(rot1@),
            q_wf(rot2@),
        ensures
            r@ == delta_q_spec(self.rotation_offset@, rot1@, rot2@),
            v3_bounded(r@, 320_000),
    {
        let m1 = rot1.mul_raw(
            &self.rotation_offset,
            Ghost(fx::SCALE as int),
            Ghost(fx::SCALE as int),
        );
        let rc = rot2.conj();
        let m2 = m1.mul_raw(&rc, Ghost(400_000_000), Ghost(fx::SCALE as int));
        let dc = if m2.w < 0 {
            m2
        } else {
            m2.neg()
        };
        proof {
            fx::lemma_div_trunc_le(2 * dc@.x, 100_000_000, 320_000);
            fx::lemma_div_trunc_le(2 * dc@.y, 100_000_000, 320_000);
            fx::lemma_div_trunc_le(2 * dc@.z, 100_000_000, 320_000);
        }
        Vec3 {
            x: fx::div_trunc_i128(2 * (dc.x as i128), 100_000_000) as i64,
            y: fx::div_trunc_i128(2 * (dc.y as i128), 100_000_000) as i64,
            z: fx::div_trunc_i128(2 * (dc.z as i128), 100_000_000) as i64,
        }
    }

    /// One solver substep: the orientation alignment pass, then the
    /// positional alignment pass against the corrected orientations.
    /// Both passes accumulate into their Lagrange multipliers and record
    /// the impulse they applied.  Each pass needs a nonzero denominator
    /// to divide by: some inverse inertia (or inverse mass, for the
    /// positional pass) or some compliance — a rigid joint between two
    /// immovable bodies has no solution to converge to.
    pub fn solve(&mut self, body1: &mut Body, body2: &mut Body, dt: i64)
        requires
            joint_wf(old(self)@),
            body_wf(old(body1)@),
            body_wf(old(body2)@),
            1 <= dt <= fx::SCALE,
            1 <= old(body1)@.inv_inertia + old(body2)@.inv_inertia + old(self)@.compliance,
            1 <= old(body1)@.inv_mass + old(body2)@.inv_mass + old(self)@.compliance,
        ensures
            ({
                let ap = align_orientation_spec(
                    old(self)@.rotation_offset,
                    old(body1)@.pose.orientation,
                    old(body2)@.pose.orientation,
                    old(self)@.align_lagrange,
                    old(self)@.compliance,
                    old(body1)@.inv_inertia,
                    old(body2)@.inv_inertia,
                    dt as int,
                );
                let pose1m = PoseV { position: old(body1)@.pose.position, orientation: ap.rot1 };
                let pose2m = PoseV { position: old(body2)@.pose.position, orientation: ap.rot2 };
                let pp = align_position_spec(
                    old(self)@.local_anchor1,
                    old(self)@.local_anchor2,
                    pose1m,
                    pose2m,
                    old(self)@.position_lagrange,
                    old(self)@.compliance,
                    old(body1)@.inv_mass,
                    old(body2)@.inv_mass,
                    dt as int,
                );
                &&& final(self)@.align_lagrange == ap.lagrange
                &&& final(self)@.align_torque == ap.torque
                &&& final(self)@.position_lagrange == pp.lagrange
                &&& final(self)@.force == pp.force
                &&& final(body1)@.pose.orientation == ap.rot1
                &&& final(body2)@.pose.orientation == ap.rot2
                &&& final(body1)@.pose.position == pp.pos1
                &&& final(body2)@.pose.position == pp.pos2
            }),
            final(self).entity1 == old(self).entity1,
            final(self).entity2 == old(self).entity2,
            final(self).local_anchor1 == old(self).local_anchor1,
            final(self).local_anchor2 == old(self).local_anchor2,
            final(self).rotation_offset == old(self).rotation_offset,
            final(self).damping_linear == old(self).damping_linear,
            final(self).damping_angular == old(self).damping_angular,
            final(self).compliance == old(self).compliance,
            final(body1).linear_velocity == old(body1).linear_velocity,
            final(body1).angular_velocity == old(body1).angular_velocity,
            final(body1).inv_mass == old(body1).inv_mass,
            final(body1).inv_inertia == old(body1).inv_inertia,
            final(body2).linear_velocity == old(body2).linear_velocity,
            final(body2).angular_velocity == old(body2).angular_velocity,
            final(body2).inv_mass == old(body2).inv_mass,
            final(body2).inv_inertia == old(body2).inv_inertia,
    {
        let tilde = tilde_compliance(self.compliance, dt);

        // Orientation alignment.
        let dq = self.get_delta_q(&body1.pose.orientation, &body2.pose.orientation);
        let asq = dq.norm_sq();
        if asq == 0 {
            self.align_torque = Vec3::zero();
        } else {
            let angle64 = fx::isqrt_u128(asq as u128);
            proof {
                crate::vec3::lemma_isqrt_unique(asq as int, angle64 as int);
                fx::lemma_mul_abs_bound(dq@.x, dq@.x, 320_000, 320_000);
                fx::lemma_mul_abs_bound(dq@.y, dq@.y, 320_000, 320_000);
                fx::lemma_mul_abs_bound(dq@.z, dq@.z, 320_000, 320_000);
                crate::vec3::lemma_sq_within(angle64 as int, asq as int, 600_000);
            }
            let angle = angle64 as i64;
            let axis = dq.unit_dir();
            let w_sum = body1.inv_inertia + body2.inv_inertia;
            let dl = delta_lagrange(angle, self.align_lagrange, tilde, w_sum, Ghost(600_000int));
            let lag2 = self.align_lagrange + dl;
            self.align_lagrange = lag2;
            let p = axis.scale_wide(dl, Ghost(fx::SCALE as int), Ghost(6_100_000_000int));
            self.align_torque = axis.scale_wide(
                lag2,
                Ghost(fx::SCALE as int),
                Ghost(6_200_000_000int),
            );
            let th1p = p.scale_wide(
                body1.inv_inertia,
                Ghost(6_100_000_001int),
                Ghost(INV_LIM as int),
            );
            let th1 = th1p.neg();
            body1.pose.orientation = apply_angular(&body1.pose.orientation, &th1);
            let th2 = p.scale_wide(
                body2.inv_inertia,
                Ghost(6_100_000_001int),
                Ghost(INV_LIM as int),
            );
            body2.pose.orientation = apply_angular(&body2.pose.orientation, &th2);
        }

        // Positional alignment of the local attachment points.
        let r1 = body1.pose.world_point(&self.local_anchor1);
        let r2 = body2.pose.world_point(&self.local_anchor2);
        let sep = r1.sub(&r2);
        let csq = sep.norm_sq_128();
        if csq == 0 {
            self.force = Vec3::zero();
        } else {
            let c64 = fx::isqrt_u128(csq);
            proof {
                crate::vec3::lemma_isqrt_unique(csq as int, c64 as int);
                fx::lemma_mul_abs_bound(sep@.x, sep@.x, 130_000_000_000, 130_000_000_000);
                fx::lemma_mul_abs_bound(sep@.y, sep@.y, 130_000_000_000, 130_000_000_000);
                fx::lemma_mul_abs_bound(sep@.z, sep@.z, 130_000_000_000, 130_000_000_000);
                crate::vec3::lemma_sq_within(c64 as int, csq as int, 230_000_000_000);
            }
            let c = c64 as i64;
            let axis = sep.unit_dir();
            let m_sum = body1.inv_mass + body2.inv_mass;
            let dl = delta_lagrange(
                c,
                self.position_lagrange,
                tilde,
                m_sum,
                Ghost(230_000_000_000int),
            );
            let lag2 = self.position_lagrange + dl;
            self.position_lagrange = lag2;
            let p = axis.scale_wide(
                dl,
                Ghost(fx::SCALE as int),
                Ghost(2_300_100_000_000_000int),
            );
            self.force = axis.scale_wide(
                lag2,
                Ghost(fx::SCALE as int),
                Ghost(2_300_200_000_000_000int),
            );
            let dx1 = p.scale_wide(
                body1.inv_mass,
                Ghost(2_300_100_000_000_001int),
                Ghost(INV_LIM as int),
            );
            body1.pose.position = body1.pose.position.add(&dx1);
            let dx2 = p.scale_wide(
                body2.inv_mass,
                Ghost(2_300_100_000_000_001int),
                Ghost(INV_LIM as int),
            );
            body2.pose.position = body2.pose.position.sub(&dx2);
        }
    }
}

/// The damping blend factor of one substep: `damping * dt`, saturated
/// at one (full equalization).
pub open spec fn damping_factor_spec(damping: int, dt: int) -> int {
    let f = fx_mul_spec(damping, dt);
    if f > fx::SCALE as int {
        fx::SCALE as int
    } else {
        f
    }
}

/// The joint's velocity-damping step, run in the velocity-correction
/// phase of every substep: the two bodies' velocity difference is scaled
/// by the damping factor and equalized — directly for the angular
/// velocities, weighted by inverse mass for the linear ones so heavier
/// bodies change less.
pub fn joint_damping(j: &FixedJoint2, body1: &mut Body, body2: &mut Body, dt: i64)
    requires
        joint_wf(j@),
        body_wf(old(body1)@),
        body_wf(old(body2)@),
        crate::vec3::v3_wf(old(body1)@.linear_velocity),
        crate::vec3::v3_wf(old(body2)@.linear_velocity),
        crate::vec3::v3_wf(old(body1)@.angular_velocity),
        crate::vec3::v3_wf(old(body2)@.angular_velocity),
        1 <= dt <= fx::SCALE,
        1 <= old(body1)@.inv_mass + old(body2)@.inv_mass,
    ensures
        final(body1)@.pose == old(body1)@.pose,
        final(body2)@.pose == old(body2)@.pose,
        final(body1)@.inv_mass == old(body1)@.inv_mass,
        final(body2)@.inv_mass == old(body2)@.inv_mass,
        final(body1)@.inv_inertia == old(body1)@.inv_inertia,
        final(body2)@.inv_inertia == old(body2)@.inv_inertia,
        ({
            let fa = damping_factor_spec(j@.damping_angular, dt as int);
            let dw = v3_scale(
                v3_sub(old(body2)@.angular_velocity, old(body1)@.angular_velocity),
                fa,
            );
            &&& final(body1)@.angular_velocity == v3_add(old(body1)@.angular_velocity, dw)
            &&& final(body2)@.angular_velocity == v3_sub(old(body2)@.angular_velocity, dw)
        }),
        ({
            let fl = damping_factor_spec(j@.damping_linear, dt as int);
            let dv = v3_scale(
                v3_sub(old(body2)@.linear_velocity, old(body1)@.linear_velocity),
                fl,
            );
            let p = crate::vec3::v3_fx_div(dv, old(body1)@.inv_mass + old(body2)@.inv_mass);
            &&& final(body1)@.linear_velocity == v3_add(
                old(body1)@.linear_velocity,
                v3_scale(p, old(body1)@.inv_mass),
            )
            &&& final(body2)@.linear_velocity == v3_sub(
                old(body2)@.linear_velocity,
                v3_scale(p, old(body2)@.inv_mass),
            )
        }),
{
    // Angular: pull both angular velocities together.
    let fa = damping_factor(j.damping_angular, dt);
    let wdiff = body2.angular_velocity.sub(&body1.angular_velocity);
    let dw = wdiff.scale(fa);
    proof {
        lemma_damped_diff_bounded(wdiff@, fa as int);
    }
    body1.angular_velocity = body1.angular_velocity.add(&dw);
    body2.angular_velocity = body2.angular_velocity.sub(&dw);

    // Linear: equalize the velocity difference, weighted by inverse mass.
    let fl = damping_factor(j.damping_linear, dt);
    let vdiff = body2.linear_velocity.sub(&body1.linear_velocity);
    let dv = vdiff.scale(fl);
    proof {
        lemma_damped_diff_bounded(vdiff@, fl as int);
    }
    let m_sum = body1.inv_mass + body2.inv_mass;
    let p = dv.div_scalar(m_sum);
    proof {
        lemma_velocity_impulse_bounded(dv@, m_sum as int);
    }
    let dv1 = p.scale_wide(body1.inv_mass, Ghost(2_000_000_000_000int), Ghost(INV_LIM as int));
    let dv2 = p.scale_wide(body2.inv_mass, Ghost(2_000_000_000_000int), Ghost(INV_LIM as int));
    body1.linear_velocity = body1.linear_velocity.add(&dv1);
    body2.linear_velocity = body2.linear_velocity.sub(&dv2);
}

/// A velocity difference scaled by a saturated damping factor stays
/// within twice the coordinate limit.
proof fn lemma_damped_diff_bounded(diff: V3, f: int)
    requires
        v3_bounded(diff, 2 * fx::LIM as int),
        0 <= f <= fx::SCALE as int,
    ensures
        v3_bounded(v3_scale(diff, f), 2 * fx::LIM as int),
{
    let m = 2 * (fx::LIM as int);
    fx::lemma_mul_abs_bound(diff.x, f, m, fx::SCALE as int);
    fx::lemma_mul_abs_bound(diff.y, f, m, fx::SCALE as int);
    fx::lemma_mul_abs_bound(diff.z, f, m, fx::SCALE as int);
    fx::lemma_div_trunc_le(diff.x * f, fx::SCALE as int, m);
    fx::lemma_div_trunc_le(diff.y * f, fx::SCALE as int, m);
    fx::lemma_div_trunc_le(diff.z * f, fx::SCALE as int, m);
}

/// Dividing the damped difference by a nonzero combined inverse mass
/// keeps the impulse within the difference scaled up by one unit.
proof fn lemma_velocity_impulse_bounded(dv: V3, m_sum: int)
    requires
        v3_bounded(dv, 2 * fx::LIM as int),
        1 <= m_sum,
    ensures
        v3_bounded(crate::vec3::v3_fx_div(dv, m_sum), 2_000_000_000_000),
{
    let m = 2_000_000_000_000int;
    fx::lemma_mul_abs_bound(dv.x, fx::SCALE as int, 2 * fx::LIM as int, fx::SCALE as int);
    fx::lemma_mul_abs_bound(dv.y, fx::SCALE as int, 2 * fx::LIM as int, fx::SCALE as int);
    fx::lemma_mul_abs_bound(dv.z, fx::SCALE as int, 2 * fx::LIM as int, fx::SCALE as int);
    assert(m <= m_sum * m) by (nonlinear_arith)
        requires
            1 <= m_sum,
            0 <= m,
    ;
    fx::lemma_div_trunc_le(dv.x * (fx::SCALE as int), m_sum, m);
    fx::lemma_div_trunc_le(dv.y * (fx::SCALE as int), m_sum, m);
    fx::lemma_div_trunc_le(dv.z * (fx::SCALE as int), m_sum, m);
}

/// The saturated damping blend factor.
fn damping_factor(damping: i64, dt: i64) -> (r: i64)
    requires
        0 <= damping && fx_wf(damping as int),
        1 <= dt <= fx::SCALE,
    ensures
        r == damping_factor_spec(damping as int, dt as int),
        0 <= r <= fx::SCALE,
{
    proof {
        fx::lemma_mul_abs_bound(damping as int, dt as int, fx::LIM as int, fx::SCALE as int);
        fx::lemma_div_trunc_bound((damping as int) * (dt as int), fx::SCALE as int);
        fx::lemma_mul_abs_bound(damping as int, dt as int, fx::LIM as int, fx::LIM as int);
    }
    let f = fx::fx_mul(damping, dt);
    if f > fx::SCALE {
        fx::SCALE
    } else {
        f
    }
}

/// Effective compliance of one substep, at raw precision: no
/// intermediate rounding of the squared timestep, so millisecond
/// substeps are served like any other.
fn tilde_compliance(compliance: i64, dt: i64) -> (r: i64)
    requires
        0 <= compliance && fx_wf(compliance as int),
        1 <= dt <= fx::SCALE,
    ensures
        r == tilde_compliance_spec(compliance as int, dt as int),
        0 <= r <= 10_000_000_000_000_000,
        1 <= compliance ==> 1 <= r,
{
    proof {
        fx::lemma_mul_abs_bound(compliance as int, 100_000_000, fx::LIM as int, 100_000_000);
        fx::lemma_mul_abs_bound(dt as int, dt as int, fx::SCALE as int, fx::SCALE as int);
        assert(1 <= (dt as int) * (dt as int)) by (nonlinear_arith)
            requires
                1 <= dt,
        ;
        assert(0 <= (compliance as int) * 100_000_000) by (nonlinear_arith)
            requires
                0 <= compliance,
        ;
    }
    let s2: i128 = (fx::SCALE as i128) * (fx::SCALE as i128);
    let p = (compliance as i128) * s2;
    let d = (dt as i128) * (dt as i128);
    proof {
        assert((d as int) * 10_000_000_000_000_000 >= 10_000_000_000_000_000) by (nonlinear_arith)
            requires
                1 <= d,
        ;
        fx::lemma_div_trunc_le(p as int, d as int, 10_000_000_000_000_000);
        fx::lemma_div_trunc_bound(p as int, d as int);
        if compliance >= 1 {
            assert(100_000_000int <= p) by (nonlinear_arith)
                requires
                    1 <= compliance,
                    p == (compliance as int) * 100_000_000,
            ;
            vstd::arithmetic::div_mod::lemma_div_non_zero(p as int, d as int);
        }
    }
    fx::div_trunc_i128(p, d) as i64
}

/// The Lagrange increment stays within the error magnitude (scaled up)
/// plus the accumulator magnitude, whatever the denominator: each factor
/// of the numerator is matched by the denominator it is divided by.
proof fn lemma_delta_lagrange_bound(
    c: int,
    lagrange: int,
    tilde: int,
    w_sum: int,
    cb: int,
    lb: int,
)
    requires
        0 <= c <= cb,
        -lb <= lagrange <= lb,
        0 <= lb,
        0 <= tilde,
        0 <= w_sum,
        1 <= w_sum + tilde,
    ensures
        -(cb * (fx::SCALE as int) + lb) <= delta_lagrange_spec(c, lagrange, tilde, w_sum) <= cb
            * (fx::SCALE as int) + lb,
{
    let s = fx::SCALE as int;
    let denom = w_sum + tilde;
    let damped = fx_mul_spec(tilde, lagrange);
    fx::lemma_mul_abs_bound(tilde, lagrange, tilde, lb);
    fx::lemma_div_trunc_mul_le(tilde * lagrange, s);
    let num = -c - damped;
    assert(-(cb * s + denom * lb) <= num * s <= cb * s + denom * lb) by (nonlinear_arith)
        requires
            s == 10_000,
            0 <= c <= cb,
            num == -c - damped,
            -(tilde * lb) <= s * damped <= tilde * lb,
            0 <= tilde <= denom,
            0 <= lb,
    ;
    fx::lemma_div_trunc_bound_linear(num * s, denom, cb * s, lb);
}

/// The Lagrange increment of one corrective pass, computed at raw
/// precision.
fn delta_lagrange(c: i64, lagrange: i64, tilde: i64, w_sum: i64, cb: Ghost<int>) -> (r: i64)
    requires
        0 <= c <= cb@,
        cb@ <= 300_000_000_000,
        fx_wf(lagrange as int),
        0 <= tilde <= 10_000_000_000_000_000,
        0 <= w_sum <= 2 * INV_LIM,
        1 <= w_sum + tilde,
    ensures
        r == delta_lagrange_spec(c as int, lagrange as int, tilde as int, w_sum as int),
        -(cb@ * (fx::SCALE as int) + fx::LIM) <= r <= cb@ * (fx::SCALE as int) + fx::LIM,
{
    proof {
        lemma_delta_lagrange_bound(
            c as int,
            lagrange as int,
            tilde as int,
            w_sum as int,
            cb@,
            fx::LIM as int,
        );
        fx::lemma_mul_abs_bound(
            tilde as int,
            lagrange as int,
            10_000_000_000_000_000,
            fx::LIM as int,
        );
        fx::lemma_div_trunc_bound((tilde as int) * (lagrange as int), fx::SCALE as int);
    }
    let tl = (tilde as i128) * (lagrange as i128);
    let damped = fx::div_trunc_i128(tl, fx::SCALE as i128);
    let num = -(c as i128) - damped;
    proof {
        fx::lemma_mul_abs_bound(
            num as int,
            fx::SCALE as int,
            2_000_000_000_000_000_000_000_000int,
            fx::SCALE as int,
        );
    }
    let p = num * (fx::SCALE as i128);
    let denom = (w_sum as i128) + (tilde as i128);
    fx::div_trunc_i128(p, denom) as i64
}

/// An orientation advanced by the small rotation vector `th`.
fn apply_angular(q: &Quat, th: &Vec3) -> (r: Quat)
    requires
        q_wf(q@),
        v3_bounded(th@, 200_000_000_000_000),
    ensures
        r@ == apply_angular_spec(q@, th@),
        q_wf(r@),
{
    let pth = Quat { x: th.x, y: th.y, z: th.z, w: 0 };
    let h = pth.mul_raw(q, Ghost(200_000_000_000_000int), Ghost(fx::SCALE as int));
    proof {
        fx::lemma_div_trunc_le(h@.x, 20_000, 400_000_000_000_000int);
        fx::lemma_div_trunc_le(h@.y, 20_000, 400_000_000_000_000int);
        fx::lemma_div_trunc_le(h@.z, 20_000, 400_000_000_000_000int);
        fx::lemma_div_trunc_le(h@.w, 20_000, 400_000_000_000_000int);
    }
    let s = Quat {
        x: q.x + fx::div_trunc_i128(h.x as i128, 20_000) as i64,
        y: q.y + fx::div_trunc_i128(h.y as i128, 20_000) as i64,
        z: q.z + fx::div_trunc_i128(h.z as i128, 20_000) as i64,
        w: q.w + fx::div_trunc_i128(h.w as i128, 20_000) as i64,
    };
    let nsq = s.norm_sq_128();
    if nsq == 0 {
        *q
    } else {
        s.normalize()
    }
}

} // verus!
