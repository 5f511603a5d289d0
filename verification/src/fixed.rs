//! Fixed-point scalar arithmetic.
//!
//! Geometry in this crate is measured in fixed-point units: one logical pixel
//! is [`FX_ONE`] units, so half-pixel pivots, sub-pixel velocities and the
//! quantized trigonometry below all stay in exact integer arithmetic that the
//! verifier can reason about.
//!
//! Division helpers come in two rounding flavours, each pinned to an explicit
//! spec function: truncation toward zero (the native behaviour of `/` on
//! signed integers) and floor/ceiling to whole pixels.
use vstd::prelude::*;

verus! {

/// Number of fixed-point units per logical pixel.
pub const FX_ONE: i64 = 1024;

/// Magnitude bound on the factors accepted by [`fx_mul`]; products of two
/// such factors stay well inside `i64`.
pub const FX_FACTOR_LIMIT: i64 = 0x4000_0000;

/// Magnitude bound accepted by the pixel-rounding helpers; leaves headroom
/// for the `+ FX_ONE` adjustments they perform internally.
pub const FX_VALUE_LIMIT: i64 = 0x2000_0000_0000_0000;

/// Truncating (toward zero) integer division, the behaviour of `/` on `i64`.
pub open spec fn trunc_div(a: int, b: int) -> int {
    if a >= 0 {
        a / b
    } else {
        -((-a) / b)
    }
}

/// Product of two fixed-point values, scaled back down, truncating toward zero.
pub open spec fn spec_fx_mul(a: int, b: int) -> int {
    trunc_div(a * b, FX_ONE as int)
}

/// Fixed-point quotient `a / b`, scaled up, truncating toward zero.
pub open spec fn spec_fx_div(a: int, b: int) -> int {
    trunc_div(a * FX_ONE, b)
}

/// The whole pixel at or below the fixed-point value `v`.
pub open spec fn spec_fx_floor(v: int) -> int {
    v / (FX_ONE as int)
}

/// The whole pixel at or above the fixed-point value `v`.
pub open spec fn spec_fx_ceil(v: int) -> int {
    -((-v) / (FX_ONE as int))
}

/// The nearest whole pixel to the fixed-point value `v`, halves rounding up.
pub open spec fn spec_fx_round(v: int) -> int {
    (v + FX_ONE / 2) / (FX_ONE as int)
}

/// Multiplies two fixed-point values.
pub fn fx_mul(a: i64, b: i64) -> (r: i64)
    requires
        -FX_FACTOR_LIMIT <= a <= FX_FACTOR_LIMIT,
        -FX_FACTOR_LIMIT <= b <= FX_FACTOR_LIMIT,
    ensures
        r == spec_fx_mul(a as int, b as int),
{
    proof {
        assert(-0x1000_0000_0000_0000 <= a as int * b as int <= 0x1000_0000_0000_0000)
            by (nonlinear_arith)
            requires
                -FX_FACTOR_LIMIT <= a <= FX_FACTOR_LIMIT,
                -FX_FACTOR_LIMIT <= b <= FX_FACTOR_LIMIT,
        ;
    }
    let p: i64 = a * b;
    p / FX_ONE
}

/// Divides two fixed-point values.
pub fn fx_div(a: i64, b: i64) -> (r: i64)
    requires
        b != 0,
        b != i64::MIN,
        -FX_FACTOR_LIMIT <= a <= FX_FACTOR_LIMIT,
    ensures
        r == spec_fx_div(a as int, b as int),
{
    let p: i64 = a * FX_ONE;
    proof {
        assert(-0x4000_0000_0000 <= p as int <= 0x4000_0000_0000) by (nonlinear_arith)
            requires
                p == a as int * 1024 && -FX_FACTOR_LIMIT <= a <= FX_FACTOR_LIMIT,
        ;
    }
    if b > 0 {
        p / b
    } else {
        let q: i64 = p / (-b);
        proof {
            assert(trunc_div(p as int, b as int) == -trunc_div(p as int, -(b as int)))
                by (nonlinear_arith)
                requires
                    b < 0,
            ;
        }
        -q
    }
}

/// Rounds a fixed-point value down to a whole pixel index.
pub fn fx_floor(v: i64) -> (r: i64)
    requires
        -FX_VALUE_LIMIT <= v <= FX_VALUE_LIMIT,
    ensures
        r == spec_fx_floor(v as int),
{
    if v >= 0 {
        v / FX_ONE
    } else {
        let q: i64 = (-v + (FX_ONE - 1)) / FX_ONE;
        proof {
            assert((-v + (FX_ONE - 1) as int) / (FX_ONE as int) == -(v as int
                / (FX_ONE as int))) by (nonlinear_arith)
                requires
                    v < 0,
            ;
        }
        -q
    }
}

/// Rounds a fixed-point value up to a whole pixel index.
pub fn fx_ceil(v: i64) -> (r: i64)
    requires
        -FX_VALUE_LIMIT <= v <= FX_VALUE_LIMIT,
    ensures
        r == spec_fx_ceil(v as int),
{
    if v > 0 {
        let q: i64 = (v + (FX_ONE - 1)) / FX_ONE;
        proof {
            assert((v + (FX_ONE - 1) as int) / (FX_ONE as int) == -((-(v as int))
                / (FX_ONE as int))) by (nonlinear_arith)
                requires
                    v > 0,
            ;
        }
        q
    } else {
        proof {
            assert((-(v as int)) / (FX_ONE as int) >= 0) by (nonlinear_arith)
                requires
                    v <= 0,
            ;
        }
        -((-v) / FX_ONE)
    }
}

/// Rounds a fixed-point value to the nearest whole pixel index, halves up.
pub fn fx_round(v: i64) -> (r: i64)
    requires
        -FX_VALUE_LIMIT <= v <= FX_VALUE_LIMIT,
    ensures
        r == spec_fx_round(v as int),
{
    let shifted: i64 = v + FX_ONE / 2;
    if shifted >= 0 {
        shifted / FX_ONE
    } else {
        let q: i64 = (-shifted + (FX_ONE - 1)) / FX_ONE;
        proof {
            assert((-shifted + (FX_ONE - 1) as int) / (FX_ONE as int) == -(shifted as int
                / (FX_ONE as int))) by (nonlinear_arith)
                requires
                    shifted < 0,
            ;
        }
        -q
    }
}

/// Rounding up to whole pixels is monotone.
pub proof fn lemma_fx_ceil_monotone(a: int, b: int)
    requires
        a <= b,
    ensures
        spec_fx_ceil(a) <= spec_fx_ceil(b),
{
    vstd::arithmetic::div_mod::lemma_div_is_ordered(-b, -a, 1024);
}

/// A product is bounded by the product of the factors' bounds.
pub proof fn lemma_mul_bound(a: int, b: int, ka: int, kb: int)
    requires
        -ka <= a <= ka,
        -kb <= b <= kb,
        0 <= ka,
        0 <= kb,
    ensures
        -(ka * kb) <= a * b <= ka * kb,
{
    assert(-(ka * kb) <= a * b <= ka * kb) by (nonlinear_arith)
        requires
            -ka <= a <= ka,
            -kb <= b <= kb,
            0 <= ka,
            0 <= kb,
    ;
}

/// Integer square root: the largest `r` with `r * r <= n`.
pub open spec fn spec_isqrt(n: nat) -> nat
    decreases n,
{
    if n == 0 {
        0
    } else {
        let r = spec_isqrt((n - 1) as nat);
        if (r + 1) * (r + 1) <= n {
            r + 1
        } else {
            r
        }
    }
}

/// `spec_isqrt(n)` is indeed the integer square root of `n`.
pub proof fn lemma_isqrt_bounds(n: nat)
    ensures
        spec_isqrt(n) * spec_isqrt(n) <= n,
        n < (spec_isqrt(n) + 1) * (spec_isqrt(n) + 1),
    decreases n,
{
    let s = spec_isqrt(n);
    if n == 0 {
        assert(s == 0);
        assert(s * s <= n && n < (s + 1) * (s + 1)) by (nonlinear_arith)
            requires
                n == 0 && s == 0,
        ;
    } else {
        lemma_isqrt_bounds((n - 1) as nat);
        let r = spec_isqrt((n - 1) as nat);
        if (r + 1) * (r + 1) <= n {
            assert(s == r + 1);
            assert(s * s <= n && n < (s + 1) * (s + 1)) by (nonlinear_arith)
                requires
                    n - 1 < (r + 1) * (r + 1),
                    (r + 1) * (r + 1) <= n,
                    s == r + 1,
            ;
        } else {
            assert(s == r);
            assert(s * s <= n && n < (s + 1) * (s + 1)) by (nonlinear_arith)
                requires
                    r * r <= n - 1,
                    n < (r + 1) * (r + 1),
                    s == r,
                    n >= 1,
            ;
        }
    }
}

/// Any `r` within the square-root bounds is `spec_isqrt(n)`.
pub proof fn lemma_isqrt_unique(n: nat, r: nat)
    requires
        r * r <= n,
        n < (r + 1) * (r + 1),
    ensures
        r == spec_isqrt(n),
{
    lemma_isqrt_bounds(n);
    let s = spec_isqrt(n);
    assert(r == s) by (nonlinear_arith)
        requires
            r * r <= n,
            n < (r + 1) * (r + 1),
            s * s <= n,
            n < (s + 1) * (s + 1),
    ;
}

/// Integer square root by bisection.
pub fn isqrt(n: u64) -> (r: u64)
    ensures
        r == spec_isqrt(n as nat),
        r * r <= n,
        n < (r + 1) * (r + 1),
{
    let mut lo: u64 = 0;
    let mut hi: u64 = 0xFFFF_FFFF;
    if n < hi {
        hi = n;
        proof {
            assert(n < (n + 1) * (n + 1)) by (nonlinear_arith);
        }
    }
    while lo < hi
        invariant
            lo <= hi <= 0xFFFF_FFFF,
            lo * lo <= n,
            n < (hi + 1) * (hi + 1),
        decreases hi - lo,
    {
        let mid: u64 = lo + (hi - lo + 1) / 2;
        proof {
            assert(mid * mid <= 0xFFFF_FFFF * 0xFFFF_FFFF) by (nonlinear_arith)
                requires
                    0 <= mid <= 0xFFFF_FFFF,
            ;
        }
        if mid * mid <= n {
            lo = mid;
        } else {
            hi = mid - 1;
        }
    }
    proof {
        lemma_isqrt_unique(n as nat, lo as nat);
    }
    lo
}

/// Quantized sine on whole degrees in `[0, 180]`, scaled by `FX_ONE`:
/// `4 d (180 - d) * FX_ONE / (40500 - d (180 - d))`, a classic rational
/// approximation that is exact at 0, 90 and 180 degrees.
pub open spec fn spec_sin_half(d: int) -> int {
    4 * d * (180 - d) * 1024 / (40500 - d * (180 - d))
}

/// Quantized sine of a whole number of degrees, scaled by `FX_ONE`.
pub open spec fn spec_sin_fx(d: int) -> int {
    let m = d % 360;
    if m <= 180 {
        spec_sin_half(m)
    } else {
        -spec_sin_half(m - 180)
    }
}

/// Quantized cosine of a whole number of degrees, scaled by `FX_ONE`.
pub open spec fn spec_cos_fx(d: int) -> int {
    spec_sin_fx(d + 90)
}

/// The quantized sine stays within one fixed-point unit.
proof fn lemma_sin_half_range(d: int)
    requires
        0 <= d <= 180,
    ensures
        0 <= spec_sin_half(d) <= 1024,
{
    let p = d * (180 - d);
    let num = 4 * d * (180 - d) * 1024;
    let den = 40500 - d * (180 - d);
    assert(0 <= p <= 8100 && num == 4096 * p && den == 40500 - p && num <= den * 1024)
        by (nonlinear_arith)
        requires
            0 <= d <= 180,
            p == d * (180 - d),
            num == 4 * d * (180 - d) * 1024,
            den == 40500 - d * (180 - d),
    ;
    vstd::arithmetic::div_mod::lemma_div_pos_is_pos(num, den);
    vstd::arithmetic::div_mod::lemma_multiply_divide_le(num, den, 1024);
}

/// Degrees normalized into `[0, 360)`.
pub fn norm_deg(d: i64) -> (r: i64)
    requires
        d != i64::MIN,
    ensures
        r == d as int % 360,
{
    let m0: i64 = d % 360;
    if m0 < 0 {
        proof {
            assert(m0 + 360 == d as int % 360) by (nonlinear_arith)
                requires
                    d < 0 && m0 == -((-(d as int)) % 360) && m0 < 0,
            ;
        }
        m0 + 360
    } else {
        proof {
            if d >= 0 {
            } else {
                assert(m0 == d as int % 360) by (nonlinear_arith)
                    requires
                        d < 0 && m0 == -((-(d as int)) % 360) && m0 >= 0,
                ;
            }
        }
        m0
    }
}

/// Quantized sine of a whole number of degrees, scaled by `FX_ONE`.
pub fn sin_fx(d: i64) -> (r: i64)
    requires
        d != i64::MIN,
    ensures
        r == spec_sin_fx(d as int),
        -1024 <= r <= 1024,
{
    let m: i64 = norm_deg(d);
    let dd: i64 = if m <= 180 {
        m
    } else {
        m - 180
    };
    proof {
        assert(0 <= dd * (180 - dd) <= 8100) by (nonlinear_arith)
            requires
                0 <= dd <= 180,
        ;
    }
    let p: i64 = dd * (180 - dd);
    let q: i64 = (4 * p * 1024) / (40500 - p);
    proof {
        lemma_sin_half_range(dd as int);
        assert(4 * (p as int) * 1024 == 4 * (dd as int) * (180 - dd as int) * 1024)
            by (nonlinear_arith)
            requires
                p == dd as int * (180 - dd as int),
        ;
    }
    if m <= 180 {
        q
    } else {
        -q
    }
}

/// Quantized cosine of a whole number of degrees, scaled by `FX_ONE`.
pub fn cos_fx(d: i64) -> (r: i64)
    requires
        i64::MIN + 90 < d < i64::MAX - 90,
    ensures
        r == spec_cos_fx(d as int),
        -1024 <= r <= 1024,
{
    sin_fx(d + 90)
}

} // verus!
