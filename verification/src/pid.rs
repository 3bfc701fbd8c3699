//! Full PID tracking controller, the production-grade variant of the
//! velocity-based follower.
//!
//! Each tick it turns the position error into a force command:
//! proportional, integral (accumulated and clamped) and derivative terms,
//! with the output clamped to a maximum force.  A hard reset — zeroing
//! both accumulators, zeroing the body's velocity and snapping its pose —
//! fires whenever the instantaneous error exceeds the configured ceiling,
//! so a blocked or diverging proxy can never wind up unbounded state
//! (the floating-point blow-up guard of the same reset has no
//! fixed-point counterpart: these integers are always finite).

use vstd::prelude::*;

use crate::body::Body;
use crate::fx;
use crate::fx::fx_wf;
use crate::vec3::{
    v3_add, v3_bounded, v3_clamp_len, v3_fx_div, v3_norm_sq, v3_scale, v3_sub, v3_wf, V3, Vec3,
};

verus! {

/// Gains, limits and accumulators of one PID follower.
#[derive(Clone, Copy, Debug, PartialEq, Eq, Structural)]
pub struct PIDController {
    /// Proportional gain.
    pub p: i64,
    /// Integral gain.
    pub i: i64,
    /// Derivative gain.
    pub d: i64,
    /// Magnitude ceiling on the emitted force.
    pub max_force: i64,
    /// Magnitude ceiling on the integral accumulator.
    pub max_integral_error: i64,
    /// Error magnitude beyond which the controller hard-resets.
    pub max_error: i64,
    /// Integral of the error over time, clamped each tick.
    pub integral_error: Vec3,
    /// Error seen on the previous tick, for the derivative term.
    pub last_error: Vec3,
}

/// Configuration scalars in range, accumulators within their clamp.
pub open spec fn pid_wf(c: PIDController) -> bool {
    &&& 0 <= c.p && fx_wf(c.p as int)
    &&& 0 <= c.i && fx_wf(c.i as int)
    &&& 0 <= c.d && fx_wf(c.d as int)
    &&& 0 <= c.max_force && fx_wf(c.max_force as int)
    &&& 0 <= c.max_integral_error && fx_wf(c.max_integral_error as int)
    &&& 0 <= c.max_error && fx_wf(c.max_error as int)
    &&& v3_bounded(c.integral_error@, c.max_integral_error as int)
    &&& v3_wf(c.last_error@)
}

/// The integral accumulator after one tick: the error, weighted by the
/// timestep, added and clamped.
pub open spec fn pid_integral_next(c: PIDController, error: V3, dt: int) -> V3 {
    v3_clamp_len(v3_add(c.integral_error@, v3_scale(error, dt)), c.max_integral_error as int)
}

/// The force emitted for one tick: proportional, integral and derivative
/// terms summed and clamped to the maximum force.
pub open spec fn pid_output(c: PIDController, error: V3, dt: int) -> V3 {
    let p_term = v3_scale(error, c.p as int);
    let i_term = v3_scale(pid_integral_next(c, error, dt), c.i as int);
    let d_term = v3_fx_div(v3_scale(v3_sub(error, c.last_error@), c.d as int), dt);
    v3_clamp_len(v3_add(v3_add(p_term, i_term), d_term), c.max_force as int)
}

/// The instantaneous error exceeds the reset ceiling.
pub open spec fn pid_error_excessive(c: PIDController, error: V3) -> bool {
    v3_norm_sq(error) > (c.max_error as int) * (c.max_error as int)
}

impl PIDController {
    /// A controller with the given gains and limits and zeroed
    /// accumulators.
    pub fn new(p: i64, i: i64, d: i64, max_force: i64, max_integral_error: i64, max_error: i64)
        -> (r: PIDController)
        requires
            0 <= p && fx_wf(p as int),
            0 <= i && fx_wf(i as int),
            0 <= d && fx_wf(d as int),
            0 <= max_force && fx_wf(max_force as int),
            0 <= max_integral_error && fx_wf(max_integral_error as int),
            0 <= max_error && fx_wf(max_error as int),
        ensures
            r == (PIDController {
                p,
                i,
                d,
                max_force,
                max_integral_error,
                max_error,
                integral_error: Vec3 { x: 0, y: 0, z: 0 },
                last_error: Vec3 { x: 0, y: 0, z: 0 },
            }),
            pid_wf(r),
    {
        PIDController {
            p,
            i,
            d,
            max_force,
            max_integral_error,
            max_error,
            integral_error: Vec3::zero(),
            last_error: Vec3::zero(),
        }
    }

    /// One PID tick: fold the error into the accumulators and emit the
    /// clamped force.  A timestep below one unit is treated as zero —
    /// nothing changes and no force is emitted, guarding the derivative
    /// term against division by a vanishing interval.
    pub fn update(&mut self, error: &Vec3, dt: i64) -> (r: Vec3)
        requires
            pid_wf(*old(self)),
            v3_wf(error@),
            0 <= dt && fx_wf(dt as int),
        ensures
            pid_wf(*final(self)),
            dt < 1 ==> *final(self) == *old(self) && r@ == (V3 { x: 0, y: 0, z: 0 }),
            dt >= 1 ==> {
                &&& r@ == pid_output(*old(self), error@, dt as int)
                &&& final(self).integral_error@ == pid_integral_next(
                    *old(self),
                    error@,
                    dt as int,
                )
                &&& final(self).last_error == *error
                &&& final(self).p == old(self).p
                &&& final(self).i == old(self).i
                &&& final(self).d == old(self).d
                &&& final(self).max_force == old(self).max_force
                &&& final(self).max_integral_error == old(self).max_integral_error
                &&& final(self).max_error == old(self).max_error
            },
    {
        if dt < 1 {
            return Vec3::zero();
        }
        let p_term = error.scale(self.p);
        let weighted = error.scale(dt);
        let next_integral = self.integral_error.add(&weighted).clamp_length_max(
            self.max_integral_error,
        );
        self.integral_error = next_integral;
        let i_term = next_integral.scale(self.i);
        let diff = error.sub(&self.last_error);
        let d_scaled = diff.scale(self.d);
        proof {
            lemma_scaled_diff_bounded(diff@, self.d as int);
        }
        let d_term = d_scaled.div_scalar(dt);
        self.last_error = *error;
        proof {
            lemma_div_term_bounded(d_scaled@, dt as int);
        }
        let total = p_term.add(&i_term).add(&d_term);
        total.clamp_length_max(self.max_force)
    }

    /// Zero both accumulators.
    pub fn reset(&mut self)
        ensures
            final(self).integral_error == (Vec3 { x: 0, y: 0, z: 0 }),
            final(self).last_error == (Vec3 { x: 0, y: 0, z: 0 }),
            final(self).p == old(self).p,
            final(self).i == old(self).i,
            final(self).d == old(self).d,
            final(self).max_force == old(self).max_force,
            final(self).max_integral_error == old(self).max_integral_error,
            final(self).max_error == old(self).max_error,
    {
        self.integral_error = Vec3::zero();
        self.last_error = Vec3::zero();
    }
}

/// A derivative-gain product of well-formed inputs stays within the
/// dividend limit of the fixed-point division.
proof fn lemma_scaled_diff_bounded(diff: V3, d: int)
    requires
        v3_bounded(diff, 2 * fx::LIM as int),
        0 <= d <= fx::LIM as int,
    ensures
        v3_bounded(v3_scale(diff, d), 2_000_000_000_000),
{
    let m = 2 * (fx::LIM as int) * (fx::LIM as int);
    fx::lemma_mul_abs_bound(diff.x, d, 2 * fx::LIM as int, fx::LIM as int);
    fx::lemma_mul_abs_bound(diff.y, d, 2 * fx::LIM as int, fx::LIM as int);
    fx::lemma_mul_abs_bound(diff.z, d, 2 * fx::LIM as int, fx::LIM as int);
    fx::lemma_div_trunc_le(diff.x * d, fx::SCALE as int, m / (fx::SCALE as int));
    fx::lemma_div_trunc_le(diff.y * d, fx::SCALE as int, m / (fx::SCALE as int));
    fx::lemma_div_trunc_le(diff.z * d, fx::SCALE as int, m / (fx::SCALE as int));
}

/// The derivative term stays small enough to add without overflow.
proof fn lemma_div_term_bounded(scaled: V3, dt: int)
    requires
        v3_bounded(scaled, 2_000_000_000_000),
        1 <= dt,
    ensures
        v3_bounded(v3_fx_div(scaled, dt), 20_000_000_000_000_000),
{
    fx::lemma_mul_abs_bound(scaled.x, fx::SCALE as int, 2_000_000_000_000, fx::SCALE as int);
    fx::lemma_mul_abs_bound(scaled.y, fx::SCALE as int, 2_000_000_000_000, fx::SCALE as int);
    fx::lemma_mul_abs_bound(scaled.z, fx::SCALE as int, 2_000_000_000_000, fx::SCALE as int);
    fx::lemma_div_trunc_le(scaled.x * (fx::SCALE as int), dt, 20_000_000_000_000_000);
    fx::lemma_div_trunc_le(scaled.y * (fx::SCALE as int), dt, 20_000_000_000_000_000);
    fx::lemma_div_trunc_le(scaled.z * (fx::SCALE as int), dt, 20_000_000_000_000_000);
}

/// The reset-or-update decision of the hand follower: when the body has
/// drifted (or been blocked) beyond the error ceiling, the controller is
/// reset, the pose snapped to the controller and the velocities zeroed;
/// otherwise one PID tick runs and its force is emitted.
pub fn move_hand(pid: &mut PIDController, body: &mut Body, controller_position: &Vec3, dt: i64)
    -> (force: Vec3)
    requires
        pid_wf(*old(pid)),
        crate::pose::pose_wf(old(body)@.pose),
        v3_wf(controller_position@),
        0 <= dt && fx_wf(dt as int),
    ensures
        pid_wf(*final(pid)),
        ({
            let error = v3_sub(controller_position@, old(body)@.pose.position);
            if pid_error_excessive(*old(pid), error) {
                &&& final(pid).integral_error@ == (V3 { x: 0, y: 0, z: 0 })
                &&& final(pid).last_error@ == (V3 { x: 0, y: 0, z: 0 })
                &&& final(body)@.pose.position == controller_position@
                &&& final(body)@.pose.orientation == old(body)@.pose.orientation
                &&& final(body)@.linear_velocity == (V3 { x: 0, y: 0, z: 0 })
                &&& final(body)@.angular_velocity == (V3 { x: 0, y: 0, z: 0 })
                &&& force@ == (V3 { x: 0, y: 0, z: 0 })
            } else {
                &&& *final(body) == *old(body)
                &&& (dt >= 1 ==> force@ == pid_output(*old(pid), error, dt as int))
                &&& (dt < 1 ==> *final(pid) == *old(pid) && force@ == (V3 { x: 0, y: 0, z: 0 }))
            }
        }),
{
    let error = controller_position.sub(&body.pose.position);
    let err_sq = error.norm_sq();
    proof {
        fx::lemma_mul_abs_bound(
            pid.max_error as int,
            pid.max_error as int,
            fx::LIM as int,
            fx::LIM as int,
        );
    }
    if err_sq > pid.max_error * pid.max_error {
        pid.reset();
        body.pose.position = *controller_position;
        body.linear_velocity = Vec3::zero();
        body.angular_velocity = Vec3::zero();
        Vec3::zero()
    } else {
        proof {
            assert(0 <= error@.x * error@.x) by (nonlinear_arith);
            assert(0 <= error@.y * error@.y) by (nonlinear_arith);
            assert(0 <= error@.z * error@.z) by (nonlinear_arith);
            crate::vec3::lemma_sq_within(error@.x, v3_norm_sq(error@), pid.max_error as int);
            crate::vec3::lemma_sq_within(error@.y, v3_norm_sq(error@), pid.max_error as int);
            crate::vec3::lemma_sq_within(error@.z, v3_norm_sq(error@), pid.max_error as int);
        }
        pid.update(&error, dt)
    }
}

} // verus!
