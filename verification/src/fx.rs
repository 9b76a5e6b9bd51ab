//! The fixed-point scalar core: wide exact products, floor division with a
//! single well-defined rounding, and the integer square root, with the small
//! arithmetic lemmas the rest of the crate leans on.

use vstd::prelude::*;
use vstd::arithmetic::div_mod::{
    lemma_div_is_ordered, lemma_fundamental_div_mod, lemma_fundamental_div_mod_converse_div,
};

verus! {

/// Scale of the fixed-point representation: every coordinate, depth and weight
/// in this crate is an integer count of 1/65536 units.
pub const FX_ONE: i64 = 65536;

/// Floor division (quotient rounded toward negative infinity), defined for any
/// non-zero divisor. For a negative divisor both operands are negated, which
/// leaves the exact quotient unchanged and makes the divisor positive, so the
/// built-in Euclidean `/` is exactly the floor.
pub open spec fn div_f(n: int, d: int) -> int {
    if d >= 0 {
        n / d
    } else {
        (-n) / (-d)
    }
}

/// Absolute value.
pub open spec fn iabs(n: int) -> int {
    if n < 0 {
        -n
    } else {
        n
    }
}

/// The product of two values bounded by `m` is bounded by `m * m`.
pub proof fn lemma_mul_bound(a: int, b: int, m: int)
    by (nonlinear_arith)
    requires
        -m <= a <= m,
        -m <= b <= m,
        0 <= m,
    ensures
        -(m * m) <= a * b <= m * m,
{
}

/// The product of values bounded by `ma` and `mb` is bounded by `ma * mb`.
pub proof fn lemma_mul_bound2(a: int, b: int, ma: int, mb: int)
    by (nonlinear_arith)
    requires
        -ma <= a <= ma,
        -mb <= b <= mb,
        0 <= ma,
        0 <= mb,
    ensures
        -(ma * mb) <= a * b <= ma * mb,
{
}

/// A floor quotient never exceeds the dividend in magnitude.
pub proof fn lemma_div_f_le_abs(n: int, d: int)
    requires
        d != 0,
    ensures
        -iabs(n) <= div_f(n, d) <= iabs(n),
{
    let dd: int = if d >= 0 { d } else { -d };
    let nn: int = if d >= 0 { n } else { -n };
    let q = nn / dd;
    let r = nn % dd;
    lemma_fundamental_div_mod(nn, dd);
    assert(-iabs(nn) <= q <= iabs(nn)) by (nonlinear_arith)
        requires
            dd >= 1,
            nn == dd * q + r,
            0 <= r < dd,
    ;
}

/// A dividend within `m` multiples of a positive divisor has a floor quotient
/// within `m`.
pub proof fn lemma_div_f_bound(n: int, d: int, m: int)
    requires
        d > 0,
        0 <= m,
        -(m * d) <= n <= m * d,
    ensures
        -m <= div_f(n, d) <= m,
{
    let q = n / d;
    let r = n % d;
    lemma_fundamental_div_mod(n, d);
    assert(-m <= q <= m) by (nonlinear_arith)
        requires
            d >= 1,
            0 <= m,
            n == d * q + r,
            0 <= r < d,
            -(m * d) <= n <= m * d,
    ;
}

/// Quotients are monotone in the dividend, for the floor quotient and a
/// positive divisor.
pub proof fn lemma_div_f_ordered(a: int, b: int, d: int)
    requires
        d > 0,
        a <= b,
    ensures
        div_f(a, d) <= div_f(b, d),
{
    lemma_div_is_ordered(a, b, d);
}

/// `a * b`, widened so that the product can never overflow.
pub fn wide_mul(a: i64, b: i64) -> (r: i128)
    ensures
        r == a * b,
{
    proof {
        lemma_mul_bound(a as int, b as int, 0x8000_0000_0000_0000);
    }
    (a as i128) * (b as i128)
}

/// Product of two wide values; the caller must show that it fits.
pub fn wide_mul128(a: i128, b: i128) -> (r: i128)
    requires
        -0x8000_0000_0000_0000_0000_0000_0000_0000 <= a * b < 0x8000_0000_0000_0000_0000_0000_0000_0000,
    ensures
        r == a * b,
{
    a * b
}

/// Floor division on wide values. The bounds keep every intermediate step of
/// the magnitude computation inside the machine range.
pub fn div_floor(n: i128, d: i128) -> (q: i128)
    requires
        d != 0,
        -0x4000_0000_0000_0000_0000_0000_0000_0000 < n < 0x4000_0000_0000_0000_0000_0000_0000_0000,
        -0x4000_0000_0000_0000_0000_0000_0000_0000 < d < 0x4000_0000_0000_0000_0000_0000_0000_0000,
    ensures
        q == div_f(n as int, d as int),
{
    let nn: i128 = if d < 0 { -n } else { n };
    let dd: i128 = if d < 0 { -d } else { d };
    if nn >= 0 {
        let q = (nn as u128) / (dd as u128);
        q as i128
    } else {
        let m: u128 = (-nn) as u128;
        let du: u128 = dd as u128;
        let qq: u128 = (m + du - 1) / du;
        proof {
            let a = (m + du - 1) as int / du as int;
            let r0 = (m + du - 1) as int % du as int;
            lemma_fundamental_div_mod((m + du - 1) as int, du as int);
            assert((-(m as int)) == (-a) * (du as int) + (du - 1 - r0)) by (nonlinear_arith)
                requires
                    (m + du - 1) as int == du as int * a + r0,
            ;
            lemma_fundamental_div_mod_converse_div(
                -(m as int),
                du as int,
                -a,
                du as int - 1 - r0,
            );
            // the magnitude of the quotient never exceeds the dividend's
            assert(0 <= a <= (m + du - 1) as int) by (nonlinear_arith)
                requires
                    (m + du - 1) as int == du as int * a + r0,
                    du >= 1,
                    0 <= r0 < du,
            ;
        }
        -(qq as i128)
    }
}

/// Narrow a wide value that is known to fit.
pub fn narrow(n: i128) -> (r: i64)
    requires
        -0x8000_0000_0000_0000 <= n <= 0x7fff_ffff_ffff_ffff,
    ensures
        r == n,
{
    n as i64
}

/// Fixed-point multiplication: the exact product, rescaled by the floor
/// division that drops the extra factor of `FX_ONE`.
pub fn fx_mul(a: i64, b: i64) -> (r: i64)
    requires
        -0x7fff_ffff_ffff_ffff * 65536 <= a * b <= 0x7fff_ffff_ffff_ffff * 65536,
    ensures
        r == div_f(a * b, 65536),
{
    let p = wide_mul(a, b);
    let q = div_floor(p, 65536);
    proof {
        lemma_div_f_bound(p as int, 65536, 0x7fff_ffff_ffff_ffff);
    }
    narrow(q)
}

/// Fixed-point division: `a / b` with the quotient kept in fixed-point form,
/// rounded toward negative infinity.
pub fn fx_div(a: i64, b: i64) -> (r: i64)
    requires
        b != 0,
        -0x7fff_ffff_ffff <= a <= 0x7fff_ffff_ffff,
    ensures
        r == div_f(a * 65536, b as int),
{
    let p = wide_mul(a, 65536);
    let q = div_floor(p, b as i128);
    proof {
        lemma_div_f_le_abs(p as int, b as int);
    }
    narrow(q)
}

/// Round a fixed-point value to the nearest integer count of whole units
/// (halves round up), as a plain integer.
pub fn fx_round(a: i64) -> (r: i64)
    requires
        -0x7fff_ffff_ffff <= a <= 0x7fff_ffff_ffff,
    ensures
        r == div_f(a + 32768, 65536),
{
    let q = div_floor(a as i128 + 32768, 65536);
    proof {
        lemma_div_f_le_abs(a as int + 32768, 65536);
    }
    narrow(q)
}

/// Integer square root: the floor of the square root of `n`.
pub fn isqrt(n: u64) -> (r: u64)
    ensures
        r * r <= n,
        n < (r + 1) * (r + 1),
{
    if n == 0 {
        return 0;
    }
    let mut lo: u64 = 0;
    let mut hi: u64 = 0x1_0000_0000;
    while lo + 1 < hi
        invariant
            lo < hi <= 0x1_0000_0000,
            lo * lo <= n,
            n < hi * hi,
        decreases hi - lo,
    {
        let mid: u64 = lo + (hi - lo) / 2;
        proof {
            lemma_mul_bound(mid as int, mid as int, 0xffff_ffff);
        }
        if mid * mid <= n {
            lo = mid;
        } else {
            hi = mid;
        }
    }
    lo
}

/// Negating the dividend of a floor division negates the quotient, up to the
/// one unit the floor loses when the division is inexact.
pub proof fn lemma_div_f_neg(n: int, d: int)
    requires
        d > 0,
    ensures
        -div_f(n, d) - 1 <= div_f(-n, d) <= -div_f(n, d),
{
    let q = n / d;
    let r = n % d;
    lemma_fundamental_div_mod(n, d);
    if r == 0 {
        assert(-n == (-q) * d + 0) by (nonlinear_arith)
            requires
                n == d * q + 0,
        ;
        lemma_fundamental_div_mod_converse_div(-n, d, -q, 0);
    } else {
        assert(-n == (-q - 1) * d + (d - r)) by (nonlinear_arith)
            requires
                n == d * q + r,
        ;
        lemma_fundamental_div_mod_converse_div(-n, d, -q - 1, d - r);
    }
}

} // verus!
