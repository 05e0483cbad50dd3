//! Fixed-point arithmetic for the renderer.
//!
//! A quantity is stored as an `i64` holding its magnitude times `SCALE`,
//! so one world unit is `SCALE` raw units.  Every executable operation
//! here is specified exactly: products and quotients are rescaled and
//! truncated toward zero, and square roots round down.

use vstd::prelude::*;

verus! {

/// Raw fixed-point value that stands for 1.0: one world unit is `SCALE` raw units.
pub const SCALE: i64 = 65536;

/// Absolute value of a mathematical integer.
pub open spec fn iabs(a: int) -> int {
    if a < 0 {
        -a
    } else {
        a
    }
}

/// Division truncating toward zero, for a positive divisor.  This is the
/// rounding that every executable fixed-point operation of this crate uses.
pub open spec fn sdiv(a: int, b: int) -> int
    recommends
        b > 0,
{
    if a >= 0 {
        a / b
    } else {
        -((-a) / b)
    }
}

/// Fixed-point product: `a * b` rescaled, truncated toward zero.
pub open spec fn fx_mul_s(a: int, b: int) -> int {
    sdiv(a * b, SCALE as int)
}

/// Fixed-point quotient: `a / b` at scale, truncated toward zero.
pub open spec fn fx_div_s(a: int, b: int) -> int
    recommends
        b > 0,
{
    sdiv(a * (SCALE as int), b)
}

/// The product `a * b` stays below `SCALE * i64::MAX`, so the rescaled
/// fixed-point product fits in an `i64`.
pub open spec fn mul_ok(a: int, b: int) -> bool {
    iabs(a) * iabs(b) < 0x8000_0000_0000_0000_0000
}

/// `r` is the integer square root of `n` (the real square root rounded down).
pub open spec fn is_sqrt(n: int, r: int) -> bool {
    0 <= r && r * r <= n && n < (r + 1) * (r + 1)
}

/// The integer square root of a nonnegative integer.
pub open spec fn sqrt_i(n: int) -> int {
    choose|r: int| is_sqrt(n, r)
}

/// Square root of a nonnegative fixed-point value: since
/// sqrt(v / S) == sqrt(v * S) / S, the raw result is `sqrt_i(v * S)`.
pub open spec fn fx_sqrt_s(v: int) -> int
    recommends
        v >= 0,
{
    sqrt_i(v * (SCALE as int))
}

/// Every nonnegative integer has an integer square root.
pub proof fn lemma_sqrt_exists(n: int)
    requires
        n >= 0,
    ensures
        exists|r: int| is_sqrt(n, r),
    decreases n,
{
    if n == 0 {
        assert(is_sqrt(0, 0));
    } else {
        lemma_sqrt_exists(n - 1);
        let r0: int = choose|r: int| #[trigger] is_sqrt(n - 1, r);
        if (r0 + 1) * (r0 + 1) <= n {
            assert(n == (r0 + 1) * (r0 + 1));
            assert(n < (r0 + 2) * (r0 + 2)) by (nonlinear_arith)
                requires
                    n == (r0 + 1) * (r0 + 1),
                    r0 >= 0,
            ;
            assert(is_sqrt(n, r0 + 1));
        } else {
            assert(is_sqrt(n, r0));
        }
    }
}

/// The integer square root is unique.
pub proof fn lemma_sqrt_unique(n: int, r1: int, r2: int)
    requires
        is_sqrt(n, r1),
        is_sqrt(n, r2),
    ensures
        r1 == r2,
{
    if r1 < r2 {
        assert((r1 + 1) * (r1 + 1) <= r2 * r2) by (nonlinear_arith)
            requires
                0 <= r1 + 1 <= r2,
        ;
    }
    if r2 < r1 {
        assert((r2 + 1) * (r2 + 1) <= r1 * r1) by (nonlinear_arith)
            requires
                0 <= r2 + 1 <= r1,
        ;
    }
}

/// `sqrt_i(n)` satisfies the square-root characterization.
pub proof fn lemma_sqrt_i_is(n: int)
    requires
        n >= 0,
    ensures
        is_sqrt(n, sqrt_i(n)),
{
    lemma_sqrt_exists(n);
}

/// Any witness of the characterization equals `sqrt_i(n)`.
pub proof fn lemma_sqrt_eq(n: int, r: int)
    requires
        n >= 0,
        is_sqrt(n, r),
    ensures
        sqrt_i(n) == r,
{
    lemma_sqrt_i_is(n);
    lemma_sqrt_unique(n, sqrt_i(n), r);
}

/// A lower bound on the root gives a lower bound on `sqrt_i`.
pub proof fn lemma_sqrt_at_least(a: int, n: int)
    requires
        0 <= a,
        a * a <= n,
    ensures
        sqrt_i(n) >= a,
{
    lemma_sqrt_i_is(n);
    let s: int = sqrt_i(n);
    if s < a {
        assert((s + 1) * (s + 1) <= a * a) by (nonlinear_arith)
            requires
                0 <= s + 1 <= a,
        ;
    }
}

/// An upper bound on the square gives an upper bound on `sqrt_i`.
pub proof fn lemma_sqrt_below(n: int, m: int)
    requires
        0 <= n,
        0 < m,
        n < m * m,
    ensures
        sqrt_i(n) < m,
{
    lemma_sqrt_i_is(n);
    let s: int = sqrt_i(n);
    if s >= m {
        assert(m * m <= s * s) by (nonlinear_arith)
            requires
                0 < m <= s,
        ;
    }
}

/// Truncating division shrinks the absolute value by exactly the divisor.
pub proof fn lemma_sdiv_abs(a: int, b: int)
    requires
        b > 0,
    ensures
        iabs(sdiv(a, b)) == iabs(a) / b,
        iabs(sdiv(a, b)) <= iabs(a),
{
    vstd::arithmetic::div_mod::lemma_div_pos_is_pos(iabs(a), b);
    vstd::arithmetic::div_mod::lemma_div_nonincreasing(iabs(a), b);
}

/// Truncating division is monotone in its (absolute) numerator.
pub proof fn lemma_sdiv_le(a: int, c: int, b: int)
    requires
        b > 0,
        iabs(a) <= c,
    ensures
        iabs(sdiv(a, b)) <= c / b,
{
    lemma_sdiv_abs(a, b);
    vstd::arithmetic::div_mod::lemma_div_is_ordered(iabs(a), c, b);
}

/// The absolute value of a product is the product of absolute values.
pub proof fn lemma_abs_mul(a: int, b: int)
    ensures
        iabs(a * b) == iabs(a) * iabs(b),
{
    assert(iabs(a * b) == iabs(a) * iabs(b)) by (nonlinear_arith);
}

/// Bounds on the factors give a bound on the fixed-point product.
pub proof fn lemma_fx_mul_bound(a: int, b: int, ma: int, mb: int)
    requires
        0 <= ma,
        0 <= mb,
        iabs(a) <= ma,
        iabs(b) <= mb,
    ensures
        iabs(a) * iabs(b) <= ma * mb,
        iabs(fx_mul_s(a, b)) <= (ma * mb) / (SCALE as int),
{
    assert(iabs(a) * iabs(b) <= ma * mb) by (nonlinear_arith)
        requires
            0 <= iabs(a) <= ma,
            0 <= iabs(b) <= mb,
    ;
    lemma_abs_mul(a, b);
    lemma_sdiv_le(a * b, ma * mb, SCALE as int);
}

/// Exact absolute value of an `i64`, wide enough for `i64::MIN`.
pub fn abs_u128(a: i64) -> (r: u128)
    ensures
        r as int == iabs(a as int),
{
    let w: i128 = a as i128;
    if w < 0 {
        (-w) as u128
    } else {
        w as u128
    }
}

/// Integer square root of a `u128`, rounded down.
pub fn isqrt(n: u128) -> (r: u64)
    ensures
        is_sqrt(n as int, r as int),
        r as int == sqrt_i(n as int),
{
    let mut lo: u128 = 0;
    let mut hi: u128 = 18446744073709551616;
    assert((hi as int) * (hi as int) > n as int) by (nonlinear_arith)
        requires
            hi == 18446744073709551616u128,
            n <= 0xffff_ffff_ffff_ffff_ffff_ffff_ffff_ffffu128,
    ;
    while hi - lo > 1
        invariant
            lo < hi <= 18446744073709551616u128,
            (lo as int) * (lo as int) <= n as int,
            (n as int) < (hi as int) * (hi as int),
        decreases hi - lo,
    {
        let mid: u128 = lo + (hi - lo) / 2;
        assert(lo < mid < hi);
        assert((mid as int) * (mid as int) <= 0xffff_ffff_ffff_ffff_ffff_ffff_ffff_ffff) by (nonlinear_arith)
            requires
                0 <= mid as int <= 18446744073709551615int,
        ;
        if mid * mid <= n {
            lo = mid;
        } else {
            hi = mid;
        }
    }
    proof {
        assert(is_sqrt(n as int, lo as int));
        lemma_sqrt_eq(n as int, lo as int);
    }
    lo as u64
}

/// Division truncating toward zero on `i128`, matching `sdiv`.
pub fn sdiv_i128(a: i128, b: i128) -> (r: i128)
    requires
        b > 0,
        a > i128::MIN,
    ensures
        r as int == sdiv(a as int, b as int),
        iabs(r as int) <= iabs(a as int),
{
    proof {
        lemma_sdiv_abs(a as int, b as int);
    }
    if a >= 0 {
        let q: u128 = (a as u128) / (b as u128);
        assert(q as int == (a as int) / (b as int));
        q as i128
    } else {
        let q: u128 = ((-a) as u128) / (b as u128);
        assert(q as int == (-(a as int)) / (b as int));
        -(q as i128)
    }
}

/// Fixed-point multiplication: the raw product rescaled by `SCALE`,
/// truncated toward zero.
pub fn fx_mul(a: i64, b: i64) -> (r: i64)
    requires
        mul_ok(a as int, b as int),
    ensures
        r as int == fx_mul_s(a as int, b as int),
{
    proof {
        lemma_abs_mul(a as int, b as int);
        lemma_sdiv_abs((a as int) * (b as int), SCALE as int);
        vstd::arithmetic::div_mod::lemma_div_is_ordered(
            iabs((a as int) * (b as int)),
            0x8000_0000_0000_0000_0000 - 1,
            SCALE as int,
        );
        assert((0x8000_0000_0000_0000_0000int - 1) / (SCALE as int) < 0x8000_0000_0000_0000int);
    }
    let neg: bool = (a < 0) != (b < 0);
    let aa: u128 = abs_u128(a);
    let bb: u128 = abs_u128(b);
    assert(aa * bb < 0x8000_0000_0000_0000_0000) by (nonlinear_arith)
        requires
            (aa as int) * (bb as int) < 0x8000_0000_0000_0000_0000,
    ;
    let m: u128 = (aa * bb) / 65536;
    assert(m as int == iabs((a as int) * (b as int)) / (SCALE as int));
    proof {
        let ai: int = a as int;
        let bi: int = b as int;
        assert(((ai < 0) != (bi < 0)) ==> ai * bi <= 0) by (nonlinear_arith);
        assert(!((ai < 0) != (bi < 0)) ==> ai * bi >= 0) by (nonlinear_arith);
    }
    if neg {
        -(m as i64)
    } else {
        m as i64
    }
}

/// Fixed-point division by a positive value, truncated toward zero.
pub fn fx_div(a: i64, b: i64) -> (r: i64)
    requires
        b > 0,
        iabs(a as int) * (SCALE as int) < (b as int) * 0x8000_0000_0000_0000,
    ensures
        r as int == fx_div_s(a as int, b as int),
{
    proof {
        lemma_abs_mul(a as int, SCALE as int);
        lemma_sdiv_abs((a as int) * (SCALE as int), b as int);
        vstd::arithmetic::div_mod::lemma_multiply_divide_lt(
            iabs(a as int) * (SCALE as int),
            b as int,
            0x8000_0000_0000_0000,
        );
    }
    let aa: u128 = abs_u128(a);
    let m: u128 = (aa * 65536) / (b as u128);
    assert(m as int == iabs((a as int) * (SCALE as int)) / (b as int));
    if a < 0 {
        -(m as i64)
    } else {
        m as i64
    }
}

/// Fixed-point square root of a nonnegative value, rounded down.
pub fn fx_sqrt(v: i64) -> (r: i64)
    requires
        v >= 0,
    ensures
        r as int == fx_sqrt_s(v as int),
        r >= 0,
{
    let n: u128 = (v as u128) * 65536;
    let r0: u64 = isqrt(n);
    proof {
        assert((n as int) < 0x8000_0000_0000_0000int * 0x8000_0000_0000_0000int) by (nonlinear_arith)
            requires
                n as int <= 0x7fff_ffff_ffff_ffffint * 65536,
        ;
        lemma_sqrt_below(n as int, 0x8000_0000_0000_0000int);
    }
    r0 as i64
}

} // verus!
