//! Fixed-point scalar arithmetic.
//!
//! Every geometric quantity in this crate is a binary fixed-point number:
//! an `i64` holding the real value times [`FIX_ONE`]. Multiplication and
//! division therefore rescale their raw integer result; both truncate the
//! magnitude of the exact quotient (rounding toward zero).

use vstd::prelude::*;

verus! {

use vstd::arithmetic::div_mod::lemma_div_is_ordered;
use vstd::arithmetic::div_mod::lemma_div_is_ordered_by_denominator;
use vstd::arithmetic::mul::lemma_mul_upper_bound;

/// The fixed-point representation of one (2^16): sixteen fractional bits.
pub const FIX_ONE: i64 = 65536;

/// Magnitude of an integer.
pub open spec fn fix_abs(a: int) -> int {
    if a >= 0 {
        a
    } else {
        -a
    }
}

/// Fixed-point product: the exact product rescaled by `FIX_ONE`,
/// with the magnitude truncated (rounding toward zero).
pub open spec fn spec_fix_mul(a: int, b: int) -> int {
    let m = fix_abs(a) * fix_abs(b) / 65536;
    if (a >= 0) == (b >= 0) {
        m
    } else {
        -m
    }
}

/// Fixed-point quotient: the exact quotient rescaled by `FIX_ONE`,
/// with the magnitude truncated (rounding toward zero).
pub open spec fn spec_fix_div(a: int, b: int) -> int {
    let q = fix_abs(a) * 65536 / fix_abs(b);
    if (a >= 0) == (b >= 0) {
        q
    } else {
        -q
    }
}

/// The magnitude of a fixed-point product is bounded by the product of the
/// operand bounds, rescaled.
pub proof fn lemma_fix_mul_bound(a: int, b: int, ba: int, bb: int)
    requires
        fix_abs(a) <= ba,
        fix_abs(b) <= bb,
    ensures
        fix_abs(spec_fix_mul(a, b)) <= ba * bb / 65536,
{
    let sa = fix_abs(a);
    let sb = fix_abs(b);
    lemma_mul_upper_bound(sa, ba, sb, bb);
    lemma_div_is_ordered(sa * sb, ba * bb, 65536);
}

/// Quotient with the magnitude truncated (rounding toward zero), for a
/// positive divisor.
pub open spec fn spec_tdiv(a: int, d: int) -> int {
    if a >= 0 {
        a / d
    } else {
        -((-a) / d)
    }
}

/// Truncating division by a positive divisor.
pub fn tdiv(a: i64, d: i64) -> (r: i64)
    requires
        d > 0,
        a > i64::MIN,
    ensures
        r as int == spec_tdiv(a as int, d as int),
        fix_abs(r as int) == fix_abs(a as int) / (d as int),
        fix_abs(r as int) <= fix_abs(a as int),
{
    proof {
        lemma_div_is_ordered_by_denominator(fix_abs(a as int), 1, d as int);
    }
    let neg = a < 0;
    let ua = abs_u64(a);
    let q = ua / (d as u64);
    if neg {
        -(q as i64)
    } else {
        q as i64
    }
}

fn abs_u64(a: i64) -> (r: u64)
    ensures
        r as int == fix_abs(a as int),
{
    if a >= 0 {
        a as u64
    } else {
        (-(a as i128)) as u64
    }
}

/// Fixed-point multiplication.
pub fn fix_mul(a: i64, b: i64) -> (r: i64)
    requires
        -0x7fff_ffff_ffff_ffff <= spec_fix_mul(a as int, b as int) <= 0x7fff_ffff_ffff_ffff,
    ensures
        r as int == spec_fix_mul(a as int, b as int),
        fix_abs(r as int) <= fix_abs(a as int) * fix_abs(b as int) / 65536,
{
    let neg = (a < 0) != (b < 0);
    let ua = abs_u64(a) as u128;
    let ub = abs_u64(b) as u128;
    proof {
        lemma_mul_upper_bound(ua as int, 0x8000_0000_0000_0000, ub as int, 0x8000_0000_0000_0000);
    }
    let m = (ua * ub) / 65536;
    if neg {
        -(m as i64)
    } else {
        m as i64
    }
}

/// Fixed-point division. The divisor must be nonzero.
pub fn fix_div(a: i64, b: i64) -> (r: i64)
    requires
        b != 0,
        -0x7fff_ffff_ffff_ffff <= spec_fix_div(a as int, b as int) <= 0x7fff_ffff_ffff_ffff,
    ensures
        r as int == spec_fix_div(a as int, b as int),
{
    let neg = (a < 0) != (b < 0);
    let ua = abs_u64(a) as u128;
    let ub = abs_u64(b) as u128;
    let q = (ua * 65536) / ub;
    if neg {
        -(q as i64)
    } else {
        q as i64
    }
}

/// Fixed-point division that reports instead of requiring that the
/// quotient fits the scalar. The divisor must still be nonzero.
pub fn fix_div_checked(a: i64, b: i64) -> (r: Option<i64>)
    requires
        b != 0,
    ensures
        r is Some <==> -0x7fff_ffff_ffff_ffff <= spec_fix_div(a as int, b as int)
            <= 0x7fff_ffff_ffff_ffff,
        r matches Some(v) ==> v as int == spec_fix_div(a as int, b as int),
{
    let neg = (a < 0) != (b < 0);
    let ua = abs_u64(a) as u128;
    let ub = abs_u64(b) as u128;
    let q = (ua * 65536) / ub;
    if q > 0x7fff_ffff_ffff_ffff {
        None
    } else if neg {
        Some(-(q as i64))
    } else {
        Some(q as i64)
    }
}

/// The integer square root: the unique `r >= 0` with `r * r <= n < (r+1)*(r+1)`.
pub open spec fn spec_isqrt(n: int) -> int {
    choose|r: int| 0 <= r && #[trigger] (r * r) <= n && (r + 1) * (r + 1) > n
}

/// The square root of a fixed-point value, rescaled by `FIX_ONE`.
pub open spec fn spec_fix_sqrt(a: int) -> int {
    spec_isqrt(a * 65536)
}

/// Any `r` meeting the integer-square-root characterization is `spec_isqrt(n)`.
pub proof fn lemma_isqrt_unique(n: int, r: int)
    requires
        0 <= r,
        r * r <= n,
        (r + 1) * (r + 1) > n,
    ensures
        r == spec_isqrt(n),
{
    assert(0 <= r && r * r <= n && (r + 1) * (r + 1) > n);
    let q = spec_isqrt(n);
    assert(0 <= q && q * q <= n && (q + 1) * (q + 1) > n) by {
        assert(exists|c: int| 0 <= c && #[trigger] (c * c) <= n && (c + 1) * (c + 1) > n);
    }
    if q < r {
        assert((q + 1) * (q + 1) <= r * r) by (nonlinear_arith)
            requires
                0 <= q < r,
        ;
    }
    if r < q {
        assert((r + 1) * (r + 1) <= q * q) by (nonlinear_arith)
            requires
                0 <= r < q,
        ;
    }
}

/// The value of one concrete division, from the witness quotient and
/// remainder.
pub proof fn lemma_div_value(x: int, d: int, q: int, r: int)
    requires
        d > 0,
        0 <= r < d,
        x == q * d + r,
    ensures
        x / d == q,
{
    vstd::arithmetic::div_mod::lemma_fundamental_div_mod_converse(x, d, q, r);
}

/// The magnitude of a fixed-point quotient is bounded by the rescaled
/// numerator whenever the divisor is nonzero.
pub proof fn lemma_fix_div_bound(a: int, b: int)
    requires
        b != 0,
    ensures
        fix_abs(spec_fix_div(a, b)) <= fix_abs(a) * 65536,
{
    lemma_div_is_ordered_by_denominator(fix_abs(a) * 65536, 1, fix_abs(b));
}

/// The square root of a nonnegative fixed-point value: the greatest `r` with
/// `r * r <= a` in fixed arithmetic, that is `r * r <= a * FIX_ONE` over the
/// raw integers.
pub fn fix_sqrt(a: i64) -> (r: i64)
    requires
        a >= 0,
    ensures
        r >= 0,
        (r as int) * (r as int) <= (a as int) * 65536,
        ((r as int) + 1) * ((r as int) + 1) > (a as int) * 65536,
        r as int == spec_fix_sqrt(a as int),
{
    let n: u128 = (a as u128) * 65536;
    // Binary search for the integer square root of `n`.
    let mut lo: u128 = 0;
    let mut hi: u128 = 0x1_0000_0000_0000;
    proof {
        assert((a as int) * 65536 < 0x1_0000_0000_0000 * 0x1_0000_0000_0000) by (nonlinear_arith)
            requires
                0 <= a <= 0x7fff_ffff_ffff_ffff,
        ;
    }
    while lo + 1 < hi
        invariant
            lo < hi <= 0x1_0000_0000_0000,
            lo * lo <= n,
            hi * hi > n,
        decreases hi - lo,
    {
        let mid = lo + (hi - lo) / 2;
        proof {
            assert(mid * mid <= 0x1_0000_0000_0000 * 0x1_0000_0000_0000) by (nonlinear_arith)
                requires
                    0 <= mid <= 0x1_0000_0000_0000,
            ;
        }
        if mid * mid <= n {
            lo = mid;
        } else {
            hi = mid;
        }
    }
    proof {
        lemma_isqrt_unique((a as int) * 65536, lo as int);
    }
    lo as i64
}

/// Square root as a scalar capability, for code generic over scalars.
pub trait Sqrt {
    fn sqrt(self) -> Self;
}

impl Sqrt for i64 {
    fn sqrt(self) -> Self {
        if self >= 0 {
            fix_sqrt(self)
        } else {
            0
        }
    }
}

/// Truncated Taylor approximation of the sine, in fixed arithmetic:
/// `x - x^3/6 + x^5/120`, each step truncating as `spec_fix_mul` does.
pub open spec fn spec_fix_sin(x: int) -> int {
    let x2 = spec_fix_mul(x, x);
    let x3 = spec_fix_mul(x2, x);
    let x5 = spec_fix_mul(x3, x2);
    x - spec_tdiv(x3, 6) + spec_tdiv(x5, 120)
}

/// Truncated Taylor approximation of the cosine, in fixed arithmetic:
/// `1 - x^2/2 + x^4/24`, each step truncating as `spec_fix_mul` does.
pub open spec fn spec_fix_cos(x: int) -> int {
    let x2 = spec_fix_mul(x, x);
    let x4 = spec_fix_mul(x2, x2);
    65536 - spec_tdiv(x2, 2) + spec_tdiv(x4, 24)
}

/// Sine of a fixed-point angle in radians, restricted to magnitudes below
/// eight (enough for any angle after range reduction by the caller).
pub fn fix_sin(x: i64) -> (r: i64)
    requires
        fix_abs(x as int) <= 8 * 65536,
    ensures
        r as int == spec_fix_sin(x as int),
        fix_abs(r as int) <= 0x200_0000,
{
    proof {
        lemma_fix_mul_bound(x as int, x as int, 8int * 65536, 8int * 65536);
        lemma_fix_mul_bound(
            spec_fix_mul(x as int, x as int),
            x as int,
            64int * 65536,
            8int * 65536,
        );
        lemma_fix_mul_bound(
            spec_fix_mul(spec_fix_mul(x as int, x as int), x as int),
            spec_fix_mul(x as int, x as int),
            512int * 65536,
            64int * 65536,
        );
    }
    let x2 = fix_mul(x, x);
    let x3 = fix_mul(x2, x);
    let x5 = fix_mul(x3, x2);
    x - tdiv(x3, 6) + tdiv(x5, 120)
}

/// Cosine of a fixed-point angle in radians, restricted as `fix_sin` is.
pub fn fix_cos(x: i64) -> (r: i64)
    requires
        fix_abs(x as int) <= 8 * 65536,
    ensures
        r as int == spec_fix_cos(x as int),
        fix_abs(r as int) <= 0x100_0000,
{
    proof {
        lemma_fix_mul_bound(x as int, x as int, 8int * 65536, 8int * 65536);
        lemma_fix_mul_bound(
            spec_fix_mul(x as int, x as int),
            spec_fix_mul(x as int, x as int),
            64int * 65536,
            64int * 65536,
        );
    }
    let x2 = fix_mul(x, x);
    let x4 = fix_mul(x2, x2);
    65536 - tdiv(x2, 2) + tdiv(x4, 24)
}

/// Sine and cosine as a scalar capability, for code generic over scalars.
pub trait SinCos {
    fn sin(self) -> Self;

    fn cos(self) -> Self;
}

impl SinCos for i64 {
    fn sin(self) -> Self {
        if -8 * 65536 <= self && self <= 8 * 65536 {
            fix_sin(self)
        } else {
            0
        }
    }

    fn cos(self) -> Self {
        if -8 * 65536 <= self && self <= 8 * 65536 {
            fix_cos(self)
        } else {
            65536
        }
    }
}

} // verus!
