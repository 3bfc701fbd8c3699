//! Rotation quaternions over fixed-point scalars.
//!
//! A rotation is stored with components at [`fx::SCALE`], so a unit
//! quaternion has squared raw norm close to `SCALE * SCALE`.  Products of
//! components are kept exact (no intermediate rounding), which makes the
//! algebraic laws of the hemisphere correction hold exactly; a result is
//! brought back to component scale by a single truncating division.

use vstd::prelude::*;

use crate::fx;
use crate::fx::{div_trunc, is_isqrt};
use crate::vec3::{sqrt_floor, V3, Vec3};

verus! {

/// A rotation quaternion with components at [`fx::SCALE`].
#[derive(Clone, Copy, Debug, PartialEq, Eq, Structural)]
pub struct Quat {
    pub x: i64,
    pub y: i64,
    pub z: i64,
    pub w: i64,
}

/// Ghost model of a quaternion: unbounded integer components.
pub ghost struct Q4 {
    pub x: int,
    pub y: int,
    pub z: int,
    pub w: int,
}

impl View for Quat {
    type V = Q4;

    open spec fn view(&self) -> Q4 {
        Q4 { x: self.x as int, y: self.y as int, z: self.z as int, w: self.w as int }
    }
}

/// Every component lies within `b` in magnitude.
pub open spec fn q_bounded(a: Q4, b: int) -> bool {
    &&& -b <= a.x <= b
    &&& -b <= a.y <= b
    &&& -b <= a.z <= b
    &&& -b <= a.w <= b
}

/// A well-formed rotation: no component exceeds [`fx::SCALE`], as holds of
/// any unit quaternion brought to fixed point.
pub open spec fn q_wf(a: Q4) -> bool {
    q_bounded(a, fx::SCALE as int)
}

/// Conjugate (the inverse of a unit rotation).
pub open spec fn q_conj(a: Q4) -> Q4 {
    Q4 { x: -a.x, y: -a.y, z: -a.z, w: a.w }
}

/// Componentwise negation: the same rotation on the other hemisphere of the
/// double cover.
pub open spec fn q_neg(a: Q4) -> Q4 {
    Q4 { x: -a.x, y: -a.y, z: -a.z, w: -a.w }
}

/// Four-component dot product, in raw square units.
pub open spec fn q_dot(a: Q4, b: Q4) -> int {
    a.x * b.x + a.y * b.y + a.z * b.z + a.w * b.w
}

/// Squared raw norm.
pub open spec fn q_norm_sq(a: Q4) -> int {
    q_dot(a, a)
}

/// Hamilton product, exact over the integers (result components carry the
/// product of the operand scales).
pub open spec fn q_mul(a: Q4, b: Q4) -> Q4 {
    Q4 {
        x: a.w * b.x + a.x * b.w + a.y * b.z - a.z * b.y,
        y: a.w * b.y - a.x * b.z + a.y * b.w + a.z * b.x,
        z: a.w * b.z + a.x * b.y - a.y * b.x + a.z * b.w,
        w: a.w * b.w - a.x * b.x - a.y * b.y - a.z * b.z,
    }
}

/// The vector `v` as a pure quaternion.
pub open spec fn q_pure(v: V3) -> Q4 {
    Q4 { x: v.x, y: v.y, z: v.z, w: 0 }
}

/// `v` rotated by `q`: the sandwich product brought back to component scale.
pub open spec fn q_rotate(q: Q4, v: V3) -> V3 {
    let s2 = (fx::SCALE as int) * (fx::SCALE as int);
    let p = q_mul(q_mul(q, q_pure(v)), q_conj(q));
    V3 { x: div_trunc(p.x, s2), y: div_trunc(p.y, s2), z: div_trunc(p.z, s2) }
}

/// `q` scaled back to unit length: each component becomes
/// `c * SCALE / len` where `len` is the integer norm.
pub open spec fn q_normalize(a: Q4) -> Q4 {
    let len = sqrt_floor(q_norm_sq(a));
    Q4 {
        x: div_trunc(a.x * (fx::SCALE as int), len),
        y: div_trunc(a.y * (fx::SCALE as int), len),
        z: div_trunc(a.z * (fx::SCALE as int), len),
        w: div_trunc(a.w * (fx::SCALE as int), len),
    }
}

/// The rotation taking `from` to `to` along the shorter arc of the
/// quaternion double cover: when the orientations lie on opposite
/// hemispheres (negative dot product), `from` is negated before composing.
/// Components of the result are in raw square units.
pub open spec fn shortest_rotation_spec(from: Q4, to: Q4) -> Q4 {
    if q_dot(from, to) > 0 {
        q_mul(to, q_conj(from))
    } else {
        q_mul(to, q_neg(q_conj(from)))
    }
}

/// Multiplying by a negated factor negates the product.
proof fn lemma_ring_neg(a: int, b: int)
    by (nonlinear_arith)
    ensures
        (-a) * b == -(a * b),
        a * (-b) == -(a * b),
{
}

/// Multiplication commutes.
proof fn lemma_ring_comm(a: int, b: int)
    by (nonlinear_arith)
    ensures
        a * b == b * a,
{
}

/// Negating either operand of the Hamilton product negates the result.
pub proof fn lemma_q_mul_neg(a: Q4, b: Q4)
    ensures
        q_mul(q_neg(a), b) == q_neg(q_mul(a, b)),
        q_mul(a, q_neg(b)) == q_neg(q_mul(a, b)),
{
    lemma_ring_neg(a.x, b.x);
    lemma_ring_neg(a.x, b.y);
    lemma_ring_neg(a.x, b.z);
    lemma_ring_neg(a.x, b.w);
    lemma_ring_neg(a.y, b.x);
    lemma_ring_neg(a.y, b.y);
    lemma_ring_neg(a.y, b.z);
    lemma_ring_neg(a.y, b.w);
    lemma_ring_neg(a.z, b.x);
    lemma_ring_neg(a.z, b.y);
    lemma_ring_neg(a.z, b.z);
    lemma_ring_neg(a.z, b.w);
    lemma_ring_neg(a.w, b.x);
    lemma_ring_neg(a.w, b.y);
    lemma_ring_neg(a.w, b.z);
    lemma_ring_neg(a.w, b.w);
}

/// The dot product is symmetric, and negating one operand negates it.
pub proof fn lemma_q_dot_basics(a: Q4, b: Q4)
    ensures
        q_dot(a, b) == q_dot(b, a),
        q_dot(a, q_neg(b)) == -q_dot(a, b),
{
    lemma_ring_comm(a.x, b.x);
    lemma_ring_comm(a.y, b.y);
    lemma_ring_comm(a.z, b.z);
    lemma_ring_comm(a.w, b.w);
    lemma_ring_neg(a.x, b.x);
    lemma_ring_neg(a.y, b.y);
    lemma_ring_neg(a.z, b.z);
    lemma_ring_neg(a.w, b.w);
}

/// The scalar part of the composed delta equals the dot product of the two
/// orientations.
pub proof fn lemma_delta_w_is_dot(from: Q4, to: Q4)
    ensures
        q_mul(to, q_conj(from)).w == q_dot(from, to),
{
    lemma_ring_neg(to.x, from.x);
    lemma_ring_neg(to.y, from.y);
    lemma_ring_neg(to.z, from.z);
    lemma_ring_comm(to.x, from.x);
    lemma_ring_comm(to.y, from.y);
    lemma_ring_comm(to.z, from.z);
    lemma_ring_comm(to.w, from.w);
}

/// Shortest-path law, first half: the computed delta never takes the long
/// way around — its scalar part (the cosine of half the rotation angle) is
/// nonnegative, so the rotation angle is at most a half turn.
pub proof fn lemma_shortest_rotation_half_turn(from: Q4, to: Q4)
    ensures
        shortest_rotation_spec(from, to).w >= 0,
        shortest_rotation_spec(from, to).w == if q_dot(from, to) > 0 {
            q_dot(from, to)
        } else {
            -q_dot(from, to)
        },
{
    lemma_delta_w_is_dot(from, to);
    if q_dot(from, to) <= 0 {
        lemma_q_mul_neg(to, q_conj(from));
    }
}

/// Shortest-path law, second half: when the orientations lie on opposite
/// hemispheres of the double cover, the delta equals the delta computed
/// from the negated target — the hemisphere correction is exact.
pub proof fn lemma_shortest_rotation_hemisphere(from: Q4, to: Q4)
    requires
        q_dot(from, to) < 0,
    ensures
        shortest_rotation_spec(from, to) == shortest_rotation_spec(from, q_neg(to)),
{
    lemma_q_dot_basics(from, to);
    lemma_q_dot_basics(to, from);
    assert(q_dot(from, q_neg(to)) == -q_dot(from, to)) by {
        lemma_ring_neg(from.x, to.x);
        lemma_ring_neg(from.y, to.y);
        lemma_ring_neg(from.z, to.z);
        lemma_ring_neg(from.w, to.w);
    }
    lemma_q_mul_neg(to, q_conj(from));
}

/// Rotating a bounded vector keeps it bounded, up to the triangle
/// inequality's slack of the sandwich product.
pub proof fn lemma_rotate_bound(q: Q4, v: V3, vb: int)
    requires
        q_wf(q),
        crate::vec3::v3_bounded(v, vb),
        0 <= vb,
    ensures
        crate::vec3::v3_bounded(q_rotate(q, v), 16 * vb + 1),
{
    let s = fx::SCALE as int;
    lemma_q_mul_bound(q, q_pure(v), s, vb);
    let first = q_mul(q, q_pure(v));
    lemma_q_mul_bound(first, q_conj(q), 4 * s * vb, s);
    let p = q_mul(first, q_conj(q));
    assert(4 * (4 * s * vb) * s == 16 * (s * s) * vb) by (nonlinear_arith);
    assert(16 * (s * s) * vb <= (s * s) * (16 * vb + 1)) by (nonlinear_arith)
        requires
            0 <= vb,
            s == 10_000,
    ;
    fx::lemma_div_trunc_le(p.x, s * s, 16 * vb + 1);
    fx::lemma_div_trunc_le(p.y, s * s, 16 * vb + 1);
    fx::lemma_div_trunc_le(p.z, s * s, 16 * vb + 1);
}

/// Componentwise product bound for the Hamilton product.
pub proof fn lemma_q_mul_bound(a: Q4, b: Q4, ab: int, bb: int)
    requires
        q_bounded(a, ab),
        q_bounded(b, bb),
        0 <= ab,
        0 <= bb,
    ensures
        q_bounded(q_mul(a, b), 4 * ab * bb),
{
    fx::lemma_mul_abs_bound(a.x, b.x, ab, bb);
    fx::lemma_mul_abs_bound(a.x, b.y, ab, bb);
    fx::lemma_mul_abs_bound(a.x, b.z, ab, bb);
    fx::lemma_mul_abs_bound(a.x, b.w, ab, bb);
    fx::lemma_mul_abs_bound(a.y, b.x, ab, bb);
    fx::lemma_mul_abs_bound(a.y, b.y, ab, bb);
    fx::lemma_mul_abs_bound(a.y, b.z, ab, bb);
    fx::lemma_mul_abs_bound(a.y, b.w, ab, bb);
    fx::lemma_mul_abs_bound(a.z, b.x, ab, bb);
    fx::lemma_mul_abs_bound(a.z, b.y, ab, bb);
    fx::lemma_mul_abs_bound(a.z, b.z, ab, bb);
    fx::lemma_mul_abs_bound(a.z, b.w, ab, bb);
    fx::lemma_mul_abs_bound(a.w, b.x, ab, bb);
    fx::lemma_mul_abs_bound(a.w, b.y, ab, bb);
    fx::lemma_mul_abs_bound(a.w, b.z, ab, bb);
    fx::lemma_mul_abs_bound(a.w, b.w, ab, bb);
    assert(4 * ab * bb == ab * bb + ab * bb + ab * bb + ab * bb) by (nonlinear_arith);
}

impl Quat {
    /// The identity rotation.
    pub fn identity() -> (r: Quat)
        ensures
            r@ == (Q4 { x: 0, y: 0, z: 0, w: fx::SCALE as int }),
    {
        Quat { x: 0, y: 0, z: 0, w: fx::SCALE }
    }

    /// Whether every component lies within the component scale.
    pub fn is_well_formed(&self) -> (r: bool)
        ensures
            r == q_wf(self@),
    {
        -fx::SCALE <= self.x && self.x <= fx::SCALE && -fx::SCALE <= self.y && self.y <= fx::SCALE
            && -fx::SCALE <= self.z && self.z <= fx::SCALE && -fx::SCALE <= self.w
            && self.w <= fx::SCALE
    }

    /// Conjugate (the inverse of a unit rotation).
    pub fn conj(&self) -> (r: Quat)
        requires
            q_bounded(self@, 0x2000_0000_0000_0000),
        ensures
            r@ == q_conj(self@),
    {
        Quat { x: -self.x, y: -self.y, z: -self.z, w: self.w }
    }

    /// Componentwise negation.
    pub fn neg(&self) -> (r: Quat)
        requires
            q_bounded(self@, 0x2000_0000_0000_0000),
        ensures
            r@ == q_neg(self@),
    {
        Quat { x: -self.x, y: -self.y, z: -self.z, w: -self.w }
    }

    /// Four-component dot product in raw square units; the sign tells the
    /// hemispheres apart.
    pub fn dot_raw(&self, o: &Quat) -> (r: i64)
        requires
            q_bounded(self@, 1_000_000_000),
            q_bounded(o@, 1_000_000_000),
        ensures
            r == q_dot(self@, o@),
    {
        proof {
            fx::lemma_mul_abs_bound(self@.x, o@.x, 1_000_000_000, 1_000_000_000);
            fx::lemma_mul_abs_bound(self@.y, o@.y, 1_000_000_000, 1_000_000_000);
            fx::lemma_mul_abs_bound(self@.z, o@.z, 1_000_000_000, 1_000_000_000);
            fx::lemma_mul_abs_bound(self@.w, o@.w, 1_000_000_000, 1_000_000_000);
        }
        self.x * o.x + self.y * o.y + self.z * o.z + self.w * o.w
    }

    /// Squared raw norm; a unit rotation at scale has norm close to
    /// `SCALE * SCALE`.
    pub fn norm_sq(&self) -> (r: i64)
        requires
            q_bounded(self@, 1_000_000_000),
        ensures
            r == q_norm_sq(self@),
            0 <= r,
    {
        proof {
            assert(0 <= self@.x * self@.x) by (nonlinear_arith);
            assert(0 <= self@.y * self@.y) by (nonlinear_arith);
            assert(0 <= self@.z * self@.z) by (nonlinear_arith);
            assert(0 <= self@.w * self@.w) by (nonlinear_arith);
        }
        self.dot_raw(self)
    }

    /// Exact Hamilton product; the ghost bounds keep every partial sum in
    /// range.
    pub(crate) fn mul_raw(&self, o: &Quat, ab: Ghost<int>, bb: Ghost<int>) -> (r: Quat)
        requires
            q_bounded(self@, ab@),
            q_bounded(o@, bb@),
            0 <= ab@,
            0 <= bb@,
            4 * ab@ * bb@ <= 0x7fff_ffff_ffff_ffff,
        ensures
            r@ == q_mul(self@, o@),
            q_bounded(r@, 4 * ab@ * bb@),
    {
        proof {
            lemma_q_mul_bound(self@, o@, ab@, bb@);
            fx::lemma_mul_abs_bound(self@.x, o@.x, ab@, bb@);
            fx::lemma_mul_abs_bound(self@.x, o@.y, ab@, bb@);
            fx::lemma_mul_abs_bound(self@.x, o@.z, ab@, bb@);
            fx::lemma_mul_abs_bound(self@.x, o@.w, ab@, bb@);
            fx::lemma_mul_abs_bound(self@.y, o@.x, ab@, bb@);
            fx::lemma_mul_abs_bound(self@.y, o@.y, ab@, bb@);
            fx::lemma_mul_abs_bound(self@.y, o@.z, ab@, bb@);
            fx::lemma_mul_abs_bound(self@.y, o@.w, ab@, bb@);
            fx::lemma_mul_abs_bound(self@.z, o@.x, ab@, bb@);
            fx::lemma_mul_abs_bound(self@.z, o@.y, ab@, bb@);
            fx::lemma_mul_abs_bound(self@.z, o@.z, ab@, bb@);
            fx::lemma_mul_abs_bound(self@.z, o@.w, ab@, bb@);
            fx::lemma_mul_abs_bound(self@.w, o@.x, ab@, bb@);
            fx::lemma_mul_abs_bound(self@.w, o@.y, ab@, bb@);
            fx::lemma_mul_abs_bound(self@.w, o@.z, ab@, bb@);
            fx::lemma_mul_abs_bound(self@.w, o@.w, ab@, bb@);
            assert(4 * ab@ * bb@ == ab@ * bb@ + ab@ * bb@ + ab@ * bb@ + ab@ * bb@)
                by (nonlinear_arith);
        }
        Quat {
            x: self.w * o.x + self.x * o.w + self.y * o.z - self.z * o.y,
            y: self.w * o.y - self.x * o.z + self.y * o.w + self.z * o.x,
            z: self.w * o.z + self.x * o.y - self.y * o.x + self.z * o.w,
            w: self.w * o.w - self.x * o.x - self.y * o.y - self.z * o.z,
        }
    }

    /// Squared raw norm, exact in 128 bits.
    pub fn norm_sq_128(&self) -> (r: u128)
        requires
            q_bounded(self@, 0x7fff_ffff_ffff_ffff),
        ensures
            r == q_norm_sq(self@),
    {
        proof {
            let b = 0x7fff_ffff_ffff_ffffint;
            fx::lemma_mul_abs_bound(self@.x, self@.x, b, b);
            fx::lemma_mul_abs_bound(self@.y, self@.y, b, b);
            fx::lemma_mul_abs_bound(self@.z, self@.z, b, b);
            fx::lemma_mul_abs_bound(self@.w, self@.w, b, b);
            assert(0 <= self@.x * self@.x) by (nonlinear_arith);
            assert(0 <= self@.y * self@.y) by (nonlinear_arith);
            assert(0 <= self@.z * self@.z) by (nonlinear_arith);
            assert(0 <= self@.w * self@.w) by (nonlinear_arith);
        }
        let x = self.x as i128;
        let y = self.y as i128;
        let z = self.z as i128;
        let w = self.w as i128;
        (x * x) as u128 + (y * y) as u128 + (z * z) as u128 + (w * w) as u128
    }

    /// Scale the quaternion back to unit length.  Requires a nonzero raw
    /// norm; the bound leaves room for the values that come out of the
    /// solver's incremental orientation updates.
    pub fn normalize(&self) -> (r: Quat)
        requires
            q_bounded(self@, 500_000_000_000_000),
            1 <= q_norm_sq(self@),
        ensures
            r@ == q_normalize(self@),
            q_wf(r@),
    {
        proof {
            assert(0 <= self@.x * self@.x) by (nonlinear_arith);
            assert(0 <= self@.y * self@.y) by (nonlinear_arith);
            assert(0 <= self@.z * self@.z) by (nonlinear_arith);
            assert(0 <= self@.w * self@.w) by (nonlinear_arith);
        }
        let nsq = self.norm_sq_128();
        let len = fx::isqrt_u128(nsq);
        proof {
            lemma_isqrt_unique_pub(nsq as int, len as int);
            assert(1 <= len) by (nonlinear_arith)
                requires
                    0 <= len,
                    (nsq as int) < (len as int + 1) * (len as int + 1),
                    1 <= nsq,
            ;
        }
        Quat {
            x: Self::unit_comp(self.x, len, Ghost(nsq as int)),
            y: Self::unit_comp(self.y, len, Ghost(nsq as int)),
            z: Self::unit_comp(self.z, len, Ghost(nsq as int)),
            w: Self::unit_comp(self.w, len, Ghost(nsq as int)),
        }
    }

    /// One component of the normalized quaternion: `c * SCALE / len`.
    fn unit_comp(c: i64, len: u64, n: Ghost<int>) -> (r: i64)
        requires
            c * c <= n@,
            is_isqrt(n@, len as int),
            1 <= len,
            -500_000_000_000_000 <= c <= 500_000_000_000_000,
        ensures
            r == div_trunc(c as int * (fx::SCALE as int), len as int),
            -(fx::SCALE as int) <= r <= fx::SCALE as int,
    {
        proof {
            crate::vec3::lemma_component_le_norm(c as int, n@, len as int);
            fx::lemma_mul_abs_bound(c as int, fx::SCALE as int, len as int, fx::SCALE as int);
            fx::lemma_div_trunc_le(c as int * (fx::SCALE as int), len as int, fx::SCALE as int);
            fx::lemma_mul_abs_bound(
                c as int,
                fx::SCALE as int,
                500_000_000_000_000,
                fx::SCALE as int,
            );
        }
        let p = (c as i128) * (fx::SCALE as i128);
        fx::div_trunc_i128(p, len as i128) as i64
    }

    /// Rotate a vector by a well-formed rotation: the exact sandwich
    /// product, brought back to component scale by one truncating division.
    pub fn rotate(&self, v: &Vec3) -> (r: Vec3)
        requires
            q_wf(self@),
            crate::vec3::v3_bounded(v@, 4_000_000_000),
        ensures
            r@ == q_rotate(self@, v@),
            crate::vec3::v3_bounded(r@, 64_000_000_000),
    {
        let p = Quat { x: v.x, y: v.y, z: v.z, w: 0 };
        let s1 = self.mul_raw(&p, Ghost(fx::SCALE as int), Ghost(4_000_000_000));
        let qc = self.conj();
        let s2 = s1.mul_raw(
            &qc,
            Ghost(4 * (fx::SCALE as int) * 4_000_000_000),
            Ghost(fx::SCALE as int),
        );
        proof {
            fx::lemma_div_trunc_le(
                s2@.x,
                (fx::SCALE as int) * (fx::SCALE as int),
                64_000_000_000,
            );
            fx::lemma_div_trunc_le(
                s2@.y,
                (fx::SCALE as int) * (fx::SCALE as int),
                64_000_000_000,
            );
            fx::lemma_div_trunc_le(
                s2@.z,
                (fx::SCALE as int) * (fx::SCALE as int),
                64_000_000_000,
            );
        }
        Vec3 {
            x: fx::div_trunc_i128(s2.x as i128, 100_000_000) as i64,
            y: fx::div_trunc_i128(s2.y as i128, 100_000_000) as i64,
            z: fx::div_trunc_i128(s2.z as i128, 100_000_000) as i64,
        }
    }

    /// The delta from `self` to `to` along the shorter arc, per
    /// [`shortest_rotation_spec`]; result components are in raw square
    /// units.
    pub fn shortest_rotation_to(&self, to: &Quat) -> (r: Quat)
        requires
            q_wf(self@),
            q_wf(to@),
        ensures
            r@ == shortest_rotation_spec(self@, to@),
            q_bounded(r@, 400_000_000),
    {
        let d = self.dot_raw(to);
        let ci = self.conj();
        if d > 0 {
            to.mul_raw(&ci, Ghost(fx::SCALE as int), Ghost(fx::SCALE as int))
        } else {
            let nci = ci.neg();
            to.mul_raw(&nci, Ghost(fx::SCALE as int), Ghost(fx::SCALE as int))
        }
    }
}

/// Re-statement of square-root uniqueness usable from this module.
proof fn lemma_isqrt_unique_pub(n: int, r: int)
    requires
        is_isqrt(n, r),
    ensures
        r == sqrt_floor(n),
        n < (r + 1) * (r + 1),
{
    crate::vec3::lemma_isqrt_unique(n, r);
}

} // verus!
