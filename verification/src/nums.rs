//! Integer root and trigonometry helpers for the fixed-point simulation.
use vstd::prelude::*;

verus! {

/// `r` is the integer square root of `n`.
pub open spec fn is_isqrt(n: int, r: int) -> bool {
    r >= 0 && r * r <= n && n < (r + 1) * (r + 1)
}

/// Integer square root by binary search.
pub fn isqrt_u128(n: u128) -> (r: u128)
    ensures
        is_isqrt(n as int, r as int),
        r < 0x1_0000_0000_0000_0000,
{
    let mut lo: u128 = 0;
    let mut hi: u128 = if n < 0xffff_ffff_ffff_ffff {
        n + 1
    } else {
        0x1_0000_0000_0000_0000
    };
    proof {
        assert(n < hi * hi) by (nonlinear_arith)
            requires
                n < 0xffff_ffff_ffff_ffff ==> hi == n + 1,
                n >= 0xffff_ffff_ffff_ffff ==> hi == 0x1_0000_0000_0000_0000,
                n <= u128::MAX,
        {}
    }
    while lo + 1 < hi
        invariant
            0 <= lo < hi,
            hi <= 0x1_0000_0000_0000_0000,
            lo * lo <= n,
            n < hi * hi,
        decreases hi - lo,
    {
        let mid: u128 = lo + (hi - lo) / 2;
        proof {
            assert(mid * mid <= (0x1_0000_0000_0000_0000u128 - 1) * (0x1_0000_0000_0000_0000u128
                - 1)) by (nonlinear_arith)
                requires
                    0 <= mid <= 0x1_0000_0000_0000_0000u128 - 1,
            {}
        }
        if mid * mid <= n {
            lo = mid;
        } else {
            hi = mid;
        }
    }
    lo
}

/// The integer square root is unique.
pub proof fn lemma_isqrt_unique(n: int, a: int, b: int)
    requires
        is_isqrt(n, a),
        is_isqrt(n, b),
    ensures
        a == b,
{
    assert(a == b) by (nonlinear_arith)
        requires
            a >= 0 && a * a <= n && n < (a + 1) * (a + 1),
            b >= 0 && b * b <= n && n < (b + 1) * (b + 1),
    {}
}

/// `r` is the integer cube root of `n`.
pub open spec fn is_icbrt(n: int, r: int) -> bool {
    r >= 0 && r * r * r <= n && n < (r + 1) * (r + 1) * (r + 1)
}

/// Integer cube root by binary search.
pub fn icbrt_u64(n: u64) -> (r: u64)
    ensures
        is_icbrt(n as int, r as int),
{
    let mut lo: u64 = 0;
    let mut hi: u64 = 0x40_0000;
    proof {
        assert((n as int) < 0x40_0000 * 0x40_0000 * 0x40_0000);
    }
    while lo + 1 < hi
        invariant
            0 <= lo < hi,
            hi <= 0x40_0000,
            lo * lo * lo <= n,
            n < hi * hi * hi,
        decreases hi - lo,
    {
        let mid: u64 = lo + (hi - lo) / 2;
        proof {
            assert((mid as u128) * (mid as u128) <= 0x1_0000_0000_0000u128 && (mid as u128) * (
            mid as u128) * (mid as u128) <= 0x4_0000_0000_0000_0000u128) by (nonlinear_arith)
                requires
                    0 <= mid <= 0x40_0000,
            {}
        }
        let cube: u128 = (mid as u128) * (mid as u128) * (mid as u128);
        if cube <= n as u128 {
            lo = mid;
        } else {
            hi = mid;
        }
    }
    lo
}

/// The integer cube root is unique.
pub proof fn lemma_icbrt_unique(n: int, a: int, b: int)
    requires
        is_icbrt(n, a),
        is_icbrt(n, b),
    ensures
        a == b,
{
    assert(a == b) by (nonlinear_arith)
        requires
            a >= 0 && a * a * a <= n && n < (a + 1) * (a + 1) * (a + 1),
            b >= 0 && b * b * b <= n && n < (b + 1) * (b + 1) * (b + 1),
    {}
}

pub open spec fn pow7(s: int) -> int {
    s * s * s * s * s * s * s
}

pub open spec fn pow8(s: int) -> int {
    s * s * s * s * s * s * s * s
}

/// A product of larger non-negative factors is larger.
pub proof fn lemma_mul_mono_nonneg(a: int, b: int, x: int, y: int)
    requires
        0 <= a <= x,
        0 <= b <= y,
    ensures
        0 <= a * b <= x * y,
{
    assert(0 <= a * b <= x * y) by (nonlinear_arith)
        requires
            0 <= a <= x,
            0 <= b <= y,
    {}
}

/// Seventh powers of non-negative numbers are ordered as their bases.
pub proof fn lemma_pow7_mono(a: int, b: int)
    requires
        0 <= a <= b,
    ensures
        0 <= pow7(a) <= pow7(b),
{
    lemma_mul_mono_nonneg(a, a, b, b);
    lemma_mul_mono_nonneg(a * a, a, b * b, b);
    lemma_mul_mono_nonneg(a * a * a, a, b * b * b, b);
    lemma_mul_mono_nonneg(a * a * a * a, a, b * b * b * b, b);
    lemma_mul_mono_nonneg(a * a * a * a * a, a, b * b * b * b * b, b);
    lemma_mul_mono_nonneg(a * a * a * a * a * a, a, b * b * b * b * b * b, b);
}

/// Eighth powers of non-negative numbers are ordered as their bases.
pub proof fn lemma_pow8_mono(a: int, b: int)
    requires
        0 <= a <= b,
    ensures
        0 <= pow8(a) <= pow8(b),
{
    lemma_pow7_mono(a, b);
    lemma_mul_mono_nonneg(pow7(a), a, pow7(b), b);
}

/// A full turn, a half turn and a quarter turn, in milli-degrees: the
/// unit of every direction in the simulation.
pub const FULL_TURN: u64 = 360000;

pub const HALF_TURN: u64 = 180000;

pub const QUARTER_TURN: u64 = 90000;

/// Reduce an angle lying at most one turn outside `[0, FULL_TURN)`
/// back into that range.
pub fn norm_turn(a: i64) -> (r: u64)
    requires
        -360000 <= a < 720000,
    ensures
        r == (a as int) % 360000,
        r < FULL_TURN,
{
    proof {
        vstd::arithmetic::div_mod::lemma_mod_add_multiples_vanish(a as int, 360000);
        vstd::arithmetic::div_mod::lemma_mod_sub_multiples_vanish(a as int, 360000);
        if 0 <= a < 360000 {
            vstd::arithmetic::div_mod::lemma_small_mod(a as nat, 360000nat);
        }
        if a < 0 {
            vstd::arithmetic::div_mod::lemma_small_mod((a + 360000) as nat, 360000nat);
        }
        if a >= 360000 {
            vstd::arithmetic::div_mod::lemma_small_mod((a - 360000) as nat, 360000nat);
        }
    }
    if a < 0 {
        (a + 360000) as u64
    } else if a >= 360000 {
        (a - 360000) as u64
    } else {
        a as u64
    }
}

/// Sine on `[0, HALF_TURN]` milli-degrees, scaled by 1000, by a rational
/// approximation that is exact at 0, a quarter turn and a half turn.
pub open spec fn spec_sin_half(x: int) -> int {
    let t = x * (180000 - x) / 1000000;
    4000 * t / (40500 - t)
}

/// Sine of an angle in `[0, FULL_TURN)` milli-degrees, scaled by 1000.
pub open spec fn spec_sin(a: int) -> int {
    if a < 180000 {
        spec_sin_half(a)
    } else {
        -spec_sin_half(a - 180000)
    }
}

/// Cosine of an angle in `[0, FULL_TURN)` milli-degrees, scaled by 1000.
pub open spec fn spec_cos(a: int) -> int {
    spec_sin(if a + 90000 < 360000 {
        a + 90000
    } else {
        a - 270000
    })
}

proof fn lemma_sin_half_bounds(x: int)
    requires
        0 <= x <= 180000,
    ensures
        0 <= x * (180000 - x) <= 8100000000int,
        0 <= x * (180000 - x) / 1000000 <= 8100,
        0 <= spec_sin_half(x) <= 1000,
{
    assert(0 <= x * (180000 - x) <= 8100000000int) by (nonlinear_arith)
        requires
            0 <= x <= 180000,
    {}
    let p = x * (180000 - x);
    let t = p / 1000000;
    vstd::arithmetic::div_mod::lemma_div_pos_is_pos(p, 1000000);
    vstd::arithmetic::div_mod::lemma_div_is_ordered(p, 8100000000int, 1000000);
    assert(8100000000int / 1000000 == 8100);
    assert(t <= 8100);
    let q = 4000 * t;
    let d = 40500 - t;
    vstd::arithmetic::div_mod::lemma_div_pos_is_pos(q, d);
    vstd::arithmetic::div_mod::lemma_div_is_ordered(q, 32400000int, d);
    vstd::arithmetic::div_mod::lemma_div_is_ordered_by_denominator(32400000int, 32400, d);
    assert(32400000int / 32400 == 1000);
}

/// Sine of an angle in milli-degrees, scaled by 1000.
pub fn sin_milli(a: u64) -> (r: i64)
    requires
        a < FULL_TURN,
    ensures
        r == spec_sin(a as int),
        -1000 <= r <= 1000,
{
    let x: u64 = if a < HALF_TURN {
        a
    } else {
        a - HALF_TURN
    };
    proof {
        lemma_sin_half_bounds(x as int);
    }
    let p: u64 = x * (180000 - x);
    let t: u64 = p / 1000000;
    let q: u64 = 4000 * t;
    let d: u64 = 40500 - t;
    let s: u64 = q / d;
    if a < HALF_TURN {
        s as i64
    } else {
        -(s as i64)
    }
}

/// Cosine of an angle in milli-degrees, scaled by 1000.
pub fn cos_milli(a: u64) -> (r: i64)
    requires
        a < FULL_TURN,
    ensures
        r == spec_cos(a as int),
        -1000 <= r <= 1000,
{
    let b: u64 = if a + QUARTER_TURN < FULL_TURN {
        a + QUARTER_TURN
    } else {
        a + QUARTER_TURN - FULL_TURN
    };
    sin_milli(b)
}

} // verus!
