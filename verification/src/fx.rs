//! Fixed-point scalar arithmetic.
//!
//! Geometric quantities are `i64` values counted in units of `1/SCALE`
//! (one unit is 0.0001 when a coordinate stands for metres or seconds).
//! Products and quotients round toward zero, like Rust's native integer
//! division, and every operation states its exact result.

use vstd::prelude::*;

verus! {

/// Number of fixed-point units per whole unit of length or time.
pub const SCALE: i64 = 10_000;

/// Magnitude bound on well-formed scalars (10_000 whole units).
pub const LIM: i64 = 100_000_000;

/// Largest operand magnitude [`fx_mul`] accepts.
pub const MUL_IN_LIM: i64 = 300_000_000_000;

/// Largest dividend magnitude [`fx_div`] accepts.
pub const DIV_IN_LIM: i64 = 900_000_000_000_000;

/// Magnitude bound on a product of two well-formed scalars, `LIM * LIM / SCALE`.
pub const PROD_LIM: i64 = 1_000_000_000_000;

/// A well-formed scalar: small enough that sums and products of a few of
/// them stay representable.
pub open spec fn fx_wf(a: int) -> bool {
    -(LIM as int) <= a <= LIM as int
}

/// Quotient of `p` by `d` rounded toward zero (meaningful for `d > 0`).
pub open spec fn div_trunc(p: int, d: int) -> int {
    if p >= 0 {
        p / d
    } else {
        -((-p) / d)
    }
}

/// Fixed-point product: `a * b / SCALE`, rounded toward zero.
pub open spec fn fx_mul_spec(a: int, b: int) -> int {
    div_trunc(a * b, SCALE as int)
}

/// Fixed-point quotient: `a * SCALE / b`, rounded toward zero.
pub open spec fn fx_div_spec(a: int, b: int) -> int {
    div_trunc(a * (SCALE as int), b)
}

/// `r` is the integer square root of `n`.
pub open spec fn is_isqrt(n: int, r: int) -> bool {
    &&& 0 <= r
    &&& r * r <= n
    &&& n < (r + 1) * (r + 1)
}

/// Rounding toward zero never increases the magnitude of the exact quotient,
/// and keeps the sign of the dividend.
pub proof fn lemma_div_trunc_bound(p: int, d: int)
    requires
        1 <= d,
    ensures
        p >= 0 ==> 0 <= div_trunc(p, d) <= p,
        p <= 0 ==> p <= div_trunc(p, d) <= 0,
{
    if p >= 0 {
        vstd::arithmetic::div_mod::lemma_div_pos_is_pos(p, d);
        vstd::arithmetic::div_mod::lemma_div_nonincreasing(p, d);
    } else {
        vstd::arithmetic::div_mod::lemma_div_pos_is_pos(-p, d);
        vstd::arithmetic::div_mod::lemma_div_nonincreasing(-p, d);
    }
}

/// Rounding toward zero commutes with negation.
pub proof fn lemma_div_trunc_neg(p: int, d: int)
    requires
        1 <= d,
    ensures
        div_trunc(-p, d) == -div_trunc(p, d),
{
    if p == 0 {
        vstd::arithmetic::div_mod::lemma_div_of0(d);
    }
}

/// Magnitude bound on a product, from magnitude bounds on the factors.
pub proof fn lemma_mul_abs_bound(a: int, b: int, ab: int, bb: int)
    by (nonlinear_arith)
    requires
        -ab <= a <= ab,
        -bb <= b <= bb,
    ensures
        -(ab * bb) <= a * b <= ab * bb,
{
}

/// A magnitude bound on the dividend carries over to the quotient.
pub proof fn lemma_div_trunc_le(p: int, d: int, m: int)
    requires
        1 <= d,
        0 <= m,
        -(d * m) <= p <= d * m,
    ensures
        -m <= div_trunc(p, d) <= m,
{
    if p >= 0 {
        vstd::arithmetic::div_mod::lemma_div_pos_is_pos(p, d);
        vstd::arithmetic::div_mod::lemma_multiply_divide_le(p, d, m);
    } else {
        lemma_div_trunc_neg(-p, d);
        vstd::arithmetic::div_mod::lemma_div_pos_is_pos(-p, d);
        vstd::arithmetic::div_mod::lemma_multiply_divide_le(-p, d, m);
    }
}

/// The quotient scaled back by the divisor never exceeds the dividend.
pub proof fn lemma_div_trunc_mul_le(x: int, d: int)
    requires
        1 <= d,
    ensures
        x >= 0 ==> 0 <= d * div_trunc(x, d) <= x,
        x <= 0 ==> x <= d * div_trunc(x, d) <= 0,
{
    if x >= 0 {
        let q = x / d;
        vstd::arithmetic::div_mod::lemma_fundamental_div_mod(x, d);
        vstd::arithmetic::div_mod::lemma_div_pos_is_pos(x, d);
        vstd::arithmetic::div_mod::lemma_remainder_lower(x, d);
        assert(0 <= d * q) by (nonlinear_arith)
            requires
                0 <= q && 1 <= d,
        ;
    } else {
        lemma_div_trunc_neg(-x, d);
        let q = (-x) / d;
        vstd::arithmetic::div_mod::lemma_fundamental_div_mod(-x, d);
        vstd::arithmetic::div_mod::lemma_div_pos_is_pos(-x, d);
        vstd::arithmetic::div_mod::lemma_remainder_lower(-x, d);
        assert(0 <= d * q) by (nonlinear_arith)
            requires
                0 <= q && 1 <= d,
        ;
        assert(d * div_trunc(x, d) == -(d * q)) by (nonlinear_arith)
            requires
                div_trunc(x, d) == -q,
        ;
    }
}

/// A dividend within `a + d * b` yields a quotient within `a + b`.
pub proof fn lemma_div_trunc_bound_linear(x: int, d: int, a: int, b: int)
    requires
        1 <= d,
        0 <= a,
        0 <= b,
        -(a + d * b) <= x <= a + d * b,
    ensures
        -(a + b) <= div_trunc(x, d) <= a + b,
{
    lemma_div_trunc_mul_le(x, d);
    let q = div_trunc(x, d);
    if q > a + b {
        assert(false) by (nonlinear_arith)
            requires
                1 <= d && 0 <= a && 0 <= b,
                q >= a + b + 1,
                d * q <= x,
                x <= a + d * b,
        ;
    }
    if q < -(a + b) {
        assert(false) by (nonlinear_arith)
            requires
                1 <= d && 0 <= a && 0 <= b,
                q <= -(a + b + 1),
                x <= d * q,
                -(a + d * b) <= x,
        ;
    }
}

/// Quotient of `p` by `d`, rounded toward zero.
///
/// The bound on `p` leaves room to negate it.
pub(crate) fn div_trunc_i128(p: i128, d: i128) -> (r: i128)
    requires
        1 <= d,
        i128::MIN < p,
    ensures
        r == div_trunc(p as int, d as int),
{
    proof {
        lemma_div_trunc_bound(p as int, d as int);
    }
    if p >= 0 {
        ((p as u128) / (d as u128)) as i128
    } else {
        let m = (-p) as u128;
        -((m / (d as u128)) as i128)
    }
}

/// Fixed-point product `a * b / SCALE`, rounded toward zero.
pub fn fx_mul(a: i64, b: i64) -> (r: i64)
    requires
        -(MUL_IN_LIM as int) <= a <= MUL_IN_LIM as int,
        -(MUL_IN_LIM as int) <= b <= MUL_IN_LIM as int,
    ensures
        r == fx_mul_spec(a as int, b as int),
        fx_wf(a as int) && fx_wf(b as int) ==> -(PROD_LIM as int) <= r <= PROD_LIM as int,
{
    proof {
        lemma_mul_abs_bound(a as int, b as int, MUL_IN_LIM as int, MUL_IN_LIM as int);
        lemma_div_trunc_bound((a as int) * (b as int), SCALE as int);
        if fx_wf(a as int) && fx_wf(b as int) {
            lemma_mul_abs_bound(a as int, b as int, LIM as int, LIM as int);
        }
    }
    let p = (a as i128) * (b as i128);
    div_trunc_i128(p, SCALE as i128) as i64
}

/// Fixed-point quotient `a * SCALE / b`, rounded toward zero (`b > 0`).
pub fn fx_div(a: i64, b: i64) -> (r: i64)
    requires
        -(DIV_IN_LIM as int) <= a <= DIV_IN_LIM as int,
        1 <= b,
    ensures
        r == fx_div_spec(a as int, b as int),
{
    proof {
        lemma_mul_abs_bound(a as int, SCALE as int, DIV_IN_LIM as int, SCALE as int);
        lemma_div_trunc_bound((a as int) * (SCALE as int), b as int);
    }
    let p = (a as i128) * (SCALE as i128);
    div_trunc_i128(p, b as i128) as i64
}

/// Fixed-point product for wide operands; the ghost bounds keep the
/// result representable.
pub(crate) fn fx_mul_wide(a: i64, b: i64, ab: Ghost<int>, bb: Ghost<int>) -> (r: i64)
    requires
        -ab@ <= a <= ab@,
        -bb@ <= b <= bb@,
        0 <= ab@,
        0 <= bb@,
        ab@ * bb@ <= 92_000_000_000_000_000_000_000,
    ensures
        r == fx_mul_spec(a as int, b as int),
        -(ab@ * bb@ / (SCALE as int) + 1) <= r <= ab@ * bb@ / (SCALE as int) + 1,
{
    proof {
        lemma_mul_abs_bound(a as int, b as int, ab@, bb@);
        let m = ab@ * bb@ / (SCALE as int) + 1;
        vstd::arithmetic::div_mod::lemma_fundamental_div_mod(ab@ * bb@, SCALE as int);
        lemma_div_trunc_le((a as int) * (b as int), SCALE as int, m);
    }
    let p = (a as i128) * (b as i128);
    div_trunc_i128(p, SCALE as i128) as i64
}

/// Integer square root: the largest `r` with `r * r <= n`.
pub fn isqrt_u128(n: u128) -> (r: u64)
    ensures
        is_isqrt(n as int, r as int),
{
    let mut lo: u128 = 0;
    let mut hi: u128 = 0x1_0000_0000_0000_0000;
    proof {
        assert((hi as int) * (hi as int) > n as int) by (nonlinear_arith)
            requires
                hi == 0x1_0000_0000_0000_0000u128,
                n <= 0xffff_ffff_ffff_ffff_ffff_ffff_ffff_ffffu128,
        ;
    }
    while lo + 1 < hi
        invariant
            0 <= lo < hi <= 0x1_0000_0000_0000_0000u128,
            (lo as int) * (lo as int) <= n as int,
            (hi as int) * (hi as int) > n as int,
        decreases hi - lo,
    {
        let mid = lo + (hi - lo) / 2;
        proof {
            assert((mid as int) * (mid as int) < 0x1_0000_0000_0000_0000_0000_0000_0000_0000int)
                by (nonlinear_arith)
                requires
                    0 <= mid < 0x1_0000_0000_0000_0000u128,
            ;
        }
        let sq = mid * mid;
        if sq <= n {
            lo = mid;
        } else {
            hi = mid;
        }
    }
    lo as u64
}

} // verus!
