//! Three-component vectors over fixed-point scalars.
//!
//! The ghost model of a vector is [`V3`], a triple of unbounded integers;
//! every executable operation states its exact result over that model.

use vstd::prelude::*;

use crate::fx;
use crate::fx::{div_trunc, fx_mul_spec, fx_wf, is_isqrt};

verus! {

/// A vector of three fixed-point scalars.
#[derive(Clone, Copy, Debug, PartialEq, Eq, Structural)]
pub struct Vec3 {
    pub x: i64,
    pub y: i64,
    pub z: i64,
}

/// Ghost model of a vector: unbounded integer components.
pub ghost struct V3 {
    pub x: int,
    pub y: int,
    pub z: int,
}

impl View for Vec3 {
    type V = V3;

    open spec fn view(&self) -> V3 {
        V3 { x: self.x as int, y: self.y as int, z: self.z as int }
    }
}

/// Componentwise sum.
pub open spec fn v3_add(a: V3, b: V3) -> V3 {
    V3 { x: a.x + b.x, y: a.y + b.y, z: a.z + b.z }
}

/// Componentwise difference.
pub open spec fn v3_sub(a: V3, b: V3) -> V3 {
    V3 { x: a.x - b.x, y: a.y - b.y, z: a.z - b.z }
}

/// Componentwise negation.
pub open spec fn v3_neg(a: V3) -> V3 {
    V3 { x: -a.x, y: -a.y, z: -a.z }
}

/// Fixed-point scaling of every component by `k`.
pub open spec fn v3_scale(a: V3, k: int) -> V3 {
    V3 { x: fx_mul_spec(a.x, k), y: fx_mul_spec(a.y, k), z: fx_mul_spec(a.z, k) }
}

/// Componentwise fixed-point division by `b`.
pub open spec fn v3_fx_div(a: V3, b: int) -> V3 {
    V3 {
        x: crate::fx::fx_div_spec(a.x, b),
        y: crate::fx::fx_div_spec(a.y, b),
        z: crate::fx::fx_div_spec(a.z, b),
    }
}

/// Squared Euclidean norm, in raw (unscaled) square units.
pub open spec fn v3_norm_sq(a: V3) -> int {
    a.x * a.x + a.y * a.y + a.z * a.z
}

/// Every component lies within `b` in magnitude.
pub open spec fn v3_bounded(a: V3, b: int) -> bool {
    &&& -b <= a.x <= b
    &&& -b <= a.y <= b
    &&& -b <= a.z <= b
}

/// A well-formed vector: all components within [`fx::LIM`].
pub open spec fn v3_wf(a: V3) -> bool {
    fx_wf(a.x) && fx_wf(a.y) && fx_wf(a.z)
}

/// The vector scaled to unit length (at component scale `SCALE`): each
/// component becomes `c * SCALE / len` where `len` is the integer length.
pub open spec fn v3_unit(a: V3) -> V3 {
    let len = sqrt_floor(v3_norm_sq(a));
    V3 {
        x: div_trunc(a.x * (crate::fx::SCALE as int), len),
        y: div_trunc(a.y * (crate::fx::SCALE as int), len),
        z: div_trunc(a.z * (crate::fx::SCALE as int), len),
    }
}

/// The vector shortened to length `max` when it is longer: each component
/// becomes `c * max / len` where `len` is the integer length.
pub open spec fn v3_clamp_len(a: V3, max: int) -> V3 {
    if v3_norm_sq(a) <= max * max {
        a
    } else {
        let len = sqrt_floor(v3_norm_sq(a));
        V3 {
            x: div_trunc(a.x * max, len),
            y: div_trunc(a.y * max, len),
            z: div_trunc(a.z * max, len),
        }
    }
}

/// From `c * c <= m * m` and `0 <= m` follows `|c| <= m`.
pub proof fn lemma_sq_within(c: int, n: int, m: int)
    requires
        c * c <= n,
        n <= m * m,
        0 <= m,
    ensures
        -m <= c <= m,
{
    assert(-m <= c <= m) by (nonlinear_arith)
        requires
            c * c <= m * m,
            0 <= m,
    ;
}

/// The integer square root of `n`, defined for `n >= 0`.
pub open spec fn sqrt_floor(n: int) -> int {
    choose|r: int| #[trigger] is_isqrt(n, r)
}

/// Every nonnegative integer has an integer square root.
pub proof fn lemma_isqrt_exists(n: int)
    requires
        0 <= n,
    ensures
        exists|r: int| #[trigger] is_isqrt(n, r),
    decreases n,
{
    if n == 0 {
        assert(is_isqrt(0, 0)) by (nonlinear_arith);
    } else {
        lemma_isqrt_exists(n - 1);
        let r = choose|r: int| #[trigger] is_isqrt(n - 1, r);
        if n < (r + 1) * (r + 1) {
            assert(is_isqrt(n, r));
        } else {
            assert(is_isqrt(n, r + 1)) by (nonlinear_arith)
                requires
                    0 <= r,
                    (r + 1) * (r + 1) <= n,
                    n - 1 < (r + 1) * (r + 1),
            ;
        }
    }
}

/// [`sqrt_floor`] satisfies the square-root property.
pub proof fn lemma_sqrt_floor(n: int)
    requires
        0 <= n,
    ensures
        is_isqrt(n, sqrt_floor(n)),
{
    lemma_isqrt_exists(n);
}

/// The integer square root is unique.
pub proof fn lemma_isqrt_unique(n: int, r: int)
    requires
        is_isqrt(n, r),
    ensures
        r == sqrt_floor(n),
{
    assert(0 <= n) by (nonlinear_arith)
        requires
            0 <= r && r * r <= n,
    ;
    lemma_sqrt_floor(n);
    let s = sqrt_floor(n);
    assert(r == s) by (nonlinear_arith)
        requires
            0 <= r && r * r <= n < (r + 1) * (r + 1),
            0 <= s && s * s <= n < (s + 1) * (s + 1),
    ;
}

/// No component exceeds the norm: from `c*c <= n < (len+1)*(len+1)` follows
/// `|c| <= len`.
pub proof fn lemma_component_le_norm(c: int, n: int, len: int)
    requires
        c * c <= n,
        is_isqrt(n, len),
    ensures
        -len <= c <= len,
{
    assert(-len <= c <= len) by (nonlinear_arith)
        requires
            c * c <= n,
            0 <= len,
            n < (len + 1) * (len + 1),
    ;
}

impl Vec3 {
    /// The zero vector.
    pub fn zero() -> (r: Vec3)
        ensures
            r@ == (V3 { x: 0, y: 0, z: 0 }),
    {
        Vec3 { x: 0, y: 0, z: 0 }
    }

    /// Whether every component lies within the coordinate limit.
    pub fn is_well_formed(&self) -> (r: bool)
        ensures
            r == v3_wf(self@),
    {
        -fx::LIM <= self.x && self.x <= fx::LIM && -fx::LIM <= self.y && self.y <= fx::LIM
            && -fx::LIM <= self.z && self.z <= fx::LIM
    }

    /// Componentwise sum.
    pub fn add(&self, o: &Vec3) -> (r: Vec3)
        requires
            v3_bounded(self@, 0x2000_0000_0000_0000),
            v3_bounded(o@, 0x2000_0000_0000_0000),
        ensures
            r@ == v3_add(self@, o@),
    {
        Vec3 { x: self.x + o.x, y: self.y + o.y, z: self.z + o.z }
    }

    /// Componentwise difference.
    pub fn sub(&self, o: &Vec3) -> (r: Vec3)
        requires
            v3_bounded(self@, 0x2000_0000_0000_0000),
            v3_bounded(o@, 0x2000_0000_0000_0000),
        ensures
            r@ == v3_sub(self@, o@),
    {
        Vec3 { x: self.x - o.x, y: self.y - o.y, z: self.z - o.z }
    }

    /// Componentwise negation.
    pub fn neg(&self) -> (r: Vec3)
        requires
            v3_bounded(self@, 0x2000_0000_0000_0000),
        ensures
            r@ == v3_neg(self@),
    {
        Vec3 { x: -self.x, y: -self.y, z: -self.z }
    }

    /// Fixed-point scaling by `k`.
    pub fn scale(&self, k: i64) -> (r: Vec3)
        requires
            v3_bounded(self@, fx::MUL_IN_LIM as int),
            -(fx::MUL_IN_LIM as int) <= k <= fx::MUL_IN_LIM as int,
        ensures
            r@ == v3_scale(self@, k as int),
            v3_wf(self@) && fx_wf(k as int) ==> v3_bounded(r@, fx::PROD_LIM as int),
    {
        Vec3 { x: fx::fx_mul(self.x, k), y: fx::fx_mul(self.y, k), z: fx::fx_mul(self.z, k) }
    }

    /// Componentwise fixed-point division by `b > 0`.
    pub fn div_scalar(&self, b: i64) -> (r: Vec3)
        requires
            v3_bounded(self@, fx::DIV_IN_LIM as int),
            1 <= b,
        ensures
            r@ == v3_fx_div(self@, b as int),
    {
        Vec3 { x: fx::fx_div(self.x, b), y: fx::fx_div(self.y, b), z: fx::fx_div(self.z, b) }
    }

    /// Squared norm as an `i64`; the component bound keeps the sum in range.
    pub fn norm_sq(&self) -> (r: i64)
        requires
            v3_bounded(self@, 1_000_000_000),
        ensures
            r == v3_norm_sq(self@),
            0 <= r <= 3_000_000_000_000_000_000,
    {
        proof {
            fx::lemma_mul_abs_bound(self@.x, self@.x, 1_000_000_000, 1_000_000_000);
            fx::lemma_mul_abs_bound(self@.y, self@.y, 1_000_000_000, 1_000_000_000);
            fx::lemma_mul_abs_bound(self@.z, self@.z, 1_000_000_000, 1_000_000_000);
            assert(0 <= self@.x * self@.x) by (nonlinear_arith);
            assert(0 <= self@.y * self@.y) by (nonlinear_arith);
            assert(0 <= self@.z * self@.z) by (nonlinear_arith);
        }
        self.x * self.x + self.y * self.y + self.z * self.z
    }

    /// Squared norm of an arbitrary vector, exact in 128 bits.
    pub fn norm_sq_128(&self) -> (r: u128)
        ensures
            r == v3_norm_sq(self@),
    {
        proof {
            let b = 0x8000_0000_0000_0000int;
            fx::lemma_mul_abs_bound(self@.x, self@.x, b, b);
            fx::lemma_mul_abs_bound(self@.y, self@.y, b, b);
            fx::lemma_mul_abs_bound(self@.z, self@.z, b, b);
            assert(0 <= self@.x * self@.x) by (nonlinear_arith);
            assert(0 <= self@.y * self@.y) by (nonlinear_arith);
            assert(0 <= self@.z * self@.z) by (nonlinear_arith);
        }
        let x = self.x as i128;
        let y = self.y as i128;
        let z = self.z as i128;
        (x * x) as u128 + (y * y) as u128 + (z * z) as u128
    }

    /// Shorten the vector to length `max` when it is longer, keeping its
    /// direction up to rounding; a vector within `max` is returned unchanged.
    pub fn clamp_length_max(&self, max: i64) -> (r: Vec3)
        requires
            0 <= max,
        ensures
            r@ == v3_clamp_len(self@, max as int),
            v3_bounded(r@, max as int),
    {
        proof {
            assert(0 <= self@.x * self@.x) by (nonlinear_arith);
            assert(0 <= self@.y * self@.y) by (nonlinear_arith);
            assert(0 <= self@.z * self@.z) by (nonlinear_arith);
            assert((max as int) * (max as int) < 0x8000_0000_0000_0000_0000_0000_0000_0000int)
                by (nonlinear_arith)
                requires
                    0 <= max <= 0x7fff_ffff_ffff_ffffi64,
            ;
        }
        let nsq = self.norm_sq_128();
        let maxsq = (max as u128) * (max as u128);
        if nsq <= maxsq {
            proof {
                lemma_sq_within(self@.x, v3_norm_sq(self@), max as int);
                lemma_sq_within(self@.y, v3_norm_sq(self@), max as int);
                lemma_sq_within(self@.z, v3_norm_sq(self@), max as int);
            }
            *self
        } else {
            let len = fx::isqrt_u128(nsq);
            proof {
                lemma_isqrt_unique(nsq as int, len as int);
                let li = len as int + 1;
                assert(1 <= len) by (nonlinear_arith)
                    requires
                        0 <= len,
                        li == len as int + 1,
                        (nsq as int) < li * li,
                        (nsq as int) > (max as int) * (max as int),
                        0 <= max,
                ;
            }
            Vec3 {
                x: Self::shorten(self.x, max, len, Ghost(nsq as int)),
                y: Self::shorten(self.y, max, len, Ghost(nsq as int)),
                z: Self::shorten(self.z, max, len, Ghost(nsq as int)),
            }
        }
    }

    /// One component of the clamped vector: `c * max / len`, rounded toward
    /// zero.
    fn shorten(c: i64, max: i64, len: u64, n: Ghost<int>) -> (r: i64)
        requires
            0 <= max,
            c * c <= n@,
            is_isqrt(n@, len as int),
            1 <= len,
        ensures
            r == div_trunc(c as int * max as int, len as int),
            -(max as int) <= r <= max as int,
    {
        proof {
            lemma_component_le_norm(c as int, n@, len as int);
            fx::lemma_mul_abs_bound(c as int, max as int, len as int, max as int);
            fx::lemma_div_trunc_le(c as int * max as int, len as int, max as int);
            fx::lemma_mul_abs_bound(
                c as int,
                max as int,
                0x8000_0000_0000_0000int,
                0x8000_0000_0000_0000int,
            );
        }
        let p = (c as i128) * (max as i128);
        fx::div_trunc_i128(p, len as i128) as i64
    }

    /// Fixed-point scaling by a wide scalar; the ghost bounds keep the
    /// products representable.
    pub(crate) fn scale_wide(&self, k: i64, sb: Ghost<int>, kb: Ghost<int>) -> (r: Vec3)
        requires
            v3_bounded(self@, sb@),
            -kb@ <= k <= kb@,
            0 <= sb@,
            0 <= kb@,
            sb@ * kb@ <= 92_000_000_000_000_000_000_000,
        ensures
            r@ == v3_scale(self@, k as int),
            v3_bounded(r@, sb@ * kb@ / (fx::SCALE as int) + 1),
    {
        Vec3 {
            x: fx::fx_mul_wide(self.x, k, Ghost(sb@), Ghost(kb@)),
            y: fx::fx_mul_wide(self.y, k, Ghost(sb@), Ghost(kb@)),
            z: fx::fx_mul_wide(self.z, k, Ghost(sb@), Ghost(kb@)),
        }
    }

    /// The direction of a nonzero vector, as a unit vector at component
    /// scale.
    pub fn unit_dir(&self) -> (r: Vec3)
        requires
            v3_bounded(self@, 300_000_000_000),
            1 <= v3_norm_sq(self@),
        ensures
            r@ == v3_unit(self@),
            v3_bounded(r@, fx::SCALE as int),
    {
        proof {
            assert(0 <= self@.x * self@.x) by (nonlinear_arith);
            assert(0 <= self@.y * self@.y) by (nonlinear_arith);
            assert(0 <= self@.z * self@.z) by (nonlinear_arith);
        }
        let nsq = self.norm_sq_128();
        let len = fx::isqrt_u128(nsq);
        proof {
            lemma_isqrt_unique(nsq as int, len as int);
            let li = len as int + 1;
            assert(1 <= len) by (nonlinear_arith)
                requires
                    0 <= len,
                    li == len as int + 1,
                    (nsq as int) < li * li,
                    1 <= nsq,
            ;
        }
        Vec3 {
            x: Self::unit_dir_comp(self.x, len, Ghost(nsq as int)),
            y: Self::unit_dir_comp(self.y, len, Ghost(nsq as int)),
            z: Self::unit_dir_comp(self.z, len, Ghost(nsq as int)),
        }
    }

    /// One component of the unit direction: `c * SCALE / len`.
    fn unit_dir_comp(c: i64, len: u64, n: Ghost<int>) -> (r: i64)
        requires
            c * c <= n@,
            is_isqrt(n@, len as int),
            1 <= len,
            -300_000_000_000 <= c <= 300_000_000_000,
        ensures
            r == div_trunc(c as int * (fx::SCALE as int), len as int),
            -(fx::SCALE as int) <= r <= fx::SCALE as int,
    {
        proof {
            lemma_component_le_norm(c as int, n@, len as int);
            fx::lemma_mul_abs_bound(c as int, fx::SCALE as int, len as int, fx::SCALE as int);
            fx::lemma_div_trunc_le(c as int * (fx::SCALE as int), len as int, fx::SCALE as int);
            fx::lemma_mul_abs_bound(c as int, fx::SCALE as int, 300_000_000_000, fx::SCALE as int);
        }
        let p = (c as i128) * (fx::SCALE as i128);
        fx::div_trunc_i128(p, len as i128) as i64
    }

    /// Squared distance between two well-formed points, in raw square units.
    pub fn dist_sq(&self, o: &Vec3) -> (r: i64)
        requires
            v3_wf(self@),
            v3_wf(o@),
        ensures
            r == v3_norm_sq(v3_sub(self@, o@)),
            0 <= r,
    {
        let d = self.sub(o);
        d.norm_sq()
    }
}

} // verus!
