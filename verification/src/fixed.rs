//! Fixed-point arithmetic: the numeric ground the renderer stands on.
//!
//! A quantity `q` is represented by the integer `q * SCALE` rounded toward
//! zero; one world unit measures `SCALE` ticks.  Angles use the same scale:
//! a full turn is `TURN` angle units.

use vstd::prelude::*;
use vstd::arithmetic::div_mod::{
    lemma_div_is_ordered, lemma_div_by_multiple, lemma_div_pos_is_pos,
};

verus! {

/// Ticks per world unit.
pub const SCALE: i64 = 65536;

/// Angle units in a full turn.
pub const TURN: i64 = 65536;

/// Angle units in half a turn.
pub const HALF_TURN: i64 = 32768;

/// Angle units in a quarter turn.
pub const QUARTER_TURN: i64 = 16384;

/// Truncating division (round toward zero): the meaning of `/` on the
/// machine integers, expressed over mathematical integers.
pub open spec fn tdiv(a: int, d: int) -> int {
    if a >= 0 {
        a / d
    } else {
        -((-a) / d)
    }
}

/// Truncating division for a divisor of either sign.
pub open spec fn tdiv2(a: int, d: int) -> int {
    if d >= 0 {
        tdiv(a, d)
    } else {
        tdiv(-a, -d)
    }
}

/// The magnitude of a truncating quotient never exceeds the numerator's.
pub proof fn lemma_tdiv2_abs(a: int, d: int, m: int)
    requires
        d != 0,
        -m <= a <= m,
        0 <= m,
    ensures
        -m <= tdiv2(a, d) <= m,
{
    if d > 0 {
        assert(m <= m * d) by (nonlinear_arith)
            requires
                d >= 1 && m >= 0;
        lemma_tdiv_abs(a, d, m);
    } else {
        assert(m <= m * (-d)) by (nonlinear_arith)
            requires
                -d >= 1 && m >= 0;
        lemma_tdiv_abs(-a, -d, m);
    }
}

/// Truncating division is odd in its numerator.
pub proof fn lemma_tdiv_neg(a: int, d: int)
    requires
        d > 0,
    ensures
        tdiv(-a, d) == -tdiv(a, d),
{
}

/// Dividing an exact multiple recovers the factor.
pub proof fn lemma_tdiv_exact(k: int, d: int)
    requires
        d > 0,
    ensures
        tdiv(k * d, d) == k,
{
    if k >= 0 {
        assert(k * d >= 0) by (nonlinear_arith)
            requires k >= 0 && d > 0;
        lemma_div_by_multiple(k, d);
    } else {
        assert(k * d < 0) by (nonlinear_arith)
            requires k < 0 && d > 0;
        assert(-(k * d) == (-k) * d) by (nonlinear_arith);
        lemma_div_by_multiple(-k, d);
    }
}

/// A quotient lies between any pair of bounds whose products bracket the
/// numerator.
pub proof fn lemma_tdiv_bounds(a: int, d: int, lo: int, hi: int)
    requires
        d > 0,
        lo * d <= a,
        a <= hi * d,
    ensures
        lo <= tdiv(a, d),
        tdiv(a, d) <= hi,
{
    if a >= 0 {
        // upper bound
        lemma_div_is_ordered(a, hi * d, d);
        lemma_tdiv_exact(hi, d);
        // lower bound
        if lo >= 0 {
            lemma_div_is_ordered(lo * d, a, d);
            lemma_tdiv_exact(lo, d);
        } else {
            lemma_div_pos_is_pos(a, d);
        }
    } else {
        // -a > 0; tdiv(a, d) == -((-a) / d)
        lemma_div_is_ordered(-a, -(lo * d), d);
        assert(-(lo * d) == (-lo) * d) by (nonlinear_arith);
        lemma_tdiv_exact(-lo, d);
        if hi <= 0 {
            lemma_div_is_ordered(-(hi * d), -a, d);
            assert(-(hi * d) == (-hi) * d) by (nonlinear_arith);
            lemma_tdiv_exact(-hi, d);
        } else {
            lemma_div_pos_is_pos(-a, d);
        }
    }
}

/// The magnitude of a quotient never exceeds a bracketing magnitude.
pub proof fn lemma_tdiv_abs(a: int, d: int, m: int)
    requires
        d > 0,
        -(m * d) <= a,
        a <= m * d,
    ensures
        -m <= tdiv(a, d),
        tdiv(a, d) <= m,
{
    assert(-(m * d) == (-m) * d) by (nonlinear_arith);
    lemma_tdiv_bounds(a, d, -m, m);
}

/// Clamps `v` into the closed interval `[lo, hi]`.
pub fn clamp_i64(v: i64, lo: i64, hi: i64) -> (r: i64)
    requires
        lo <= hi,
    ensures
        r == clamp_spec(v as int, lo as int, hi as int),
{
    if v < lo {
        lo
    } else if v > hi {
        hi
    } else {
        v
    }
}

pub open spec fn clamp_spec(v: int, lo: int, hi: int) -> int {
    if v < lo {
        lo
    } else if v > hi {
        hi
    } else {
        v
    }
}

/// Fixed-point power: `base` raised to `e`, at scale `SCALE`, evaluated by
/// repeated fixed-point multiplication.
pub open spec fn powf(base: int, e: nat) -> int
    decreases e,
{
    if e == 0 {
        SCALE as int
    } else {
        tdiv(powf(base, (e - 1) as nat) * base, SCALE as int)
    }
}

/// A fixed-point power of a value within one unit stays within one unit.
pub proof fn lemma_powf_bounded(base: int, e: nat)
    requires
        -(SCALE as int) <= base,
        base <= SCALE as int,
    ensures
        -(SCALE as int) <= powf(base, e),
        powf(base, e) <= SCALE as int,
    decreases e,
{
    if e > 0 {
        lemma_powf_bounded(base, (e - 1) as nat);
        let p = powf(base, (e - 1) as nat);
        let s = SCALE as int;
        assert(-(s * s) <= p * base && p * base <= s * s) by (nonlinear_arith)
            requires -s <= p && p <= s && -s <= base && base <= s && s > 0;
        lemma_tdiv_abs(p * base, s, s);
    }
}

/// Raises a fixed-point value within one unit to a nonnegative power.
pub fn pow_fixed(base: i64, e: u32) -> (r: i64)
    requires
        -SCALE <= base,
        base <= SCALE,
    ensures
        r == powf(base as int, e as nat),
        -SCALE <= r,
        r <= SCALE,
{
    let mut r: i64 = SCALE;
    let mut k: u32 = 0;
    while k < e
        invariant
            k <= e,
            -SCALE <= base,
            base <= SCALE,
            r == powf(base as int, k as nat),
            -SCALE <= r,
            r <= SCALE,
        decreases e - k,
    {
        proof {
            let s = SCALE as int;
            assert(-(s * s) <= r * base && r * base <= s * s) by (nonlinear_arith)
                requires -s <= r && r <= s && -s <= base && base <= s && s > 0;
            lemma_tdiv_abs(r as int * base as int, s, s);
        }
        r = (r * base) / SCALE;
        k = k + 1;
    }
    r
}

/// The scanline under a fixed-point screen coordinate: floor division by
/// `SCALE`.  In specifications `/` on `int` is already floor division for
/// a positive divisor.
pub open spec fn floor_fix(a: int) -> int {
    a / (SCALE as int)
}

/// The first scanline at or past a fixed-point screen coordinate.
pub open spec fn ceil_fix(a: int) -> int {
    floor_fix(a + SCALE as int - 1)
}

/// Floor division of a fixed-point value by `SCALE`.
pub fn floor_fix_e(a: i64) -> (r: i64)
    requires
        -0x4000_0000_0000_0000 <= a <= 0x4000_0000_0000_0000,
    ensures
        r == floor_fix(a as int),
        r * SCALE <= a < (r + 1) * SCALE,
{
    let r: i64 = if a >= 0 {
        a / SCALE
    } else {
        let b: i64 = -a;
        -((b + SCALE - 1) / SCALE)
    };
    proof {
        let s = SCALE as int;
        if a >= 0 {
            vstd::arithmetic::div_mod::lemma_fundamental_div_mod(a as int, s);
            vstd::arithmetic::div_mod::lemma_mod_division_less_than_divisor(a as int, s);
            assert(s * (a as int / s) == (a as int / s) * s) by (nonlinear_arith);
        } else {
            let b = -(a as int);
            let q = (b + s - 1) / s;
            vstd::arithmetic::div_mod::lemma_fundamental_div_mod(b + s - 1, s);
            vstd::arithmetic::div_mod::lemma_mod_division_less_than_divisor(b + s - 1, s);
            assert(s * q == q * s) by (nonlinear_arith);
            assert(q * s <= b + s - 1 && b + s - 1 < q * s + s);
            assert((-q) * s == -(q * s)) by (nonlinear_arith);
            vstd::arithmetic::div_mod::lemma_fundamental_div_mod_converse(
                a as int,
                s,
                -q,
                q * s - b,
            );
            assert((-q + 1) * s == s - q * s) by (nonlinear_arith);
        }
    }
    r
}

/// The first scanline at or past a fixed-point value.
pub fn ceil_fix_e(a: i64) -> (r: i64)
    requires
        -0x3000_0000_0000_0000 <= a <= 0x3000_0000_0000_0000,
    ensures
        r == ceil_fix(a as int),
        (r - 1) * SCALE < a <= r * SCALE,
{
    let r = floor_fix_e(a + (SCALE - 1));
    proof {
        let s = SCALE as int;
        assert((r - 1) * s == r * s - s) by (nonlinear_arith);
        assert((r + 1) * s == r * s + s) by (nonlinear_arith);
    }
    r
}

/// The floor of the square root of `n`.
pub open spec fn sqrt_floor(n: int) -> int
    decreases n,
{
    if n < 1 {
        0
    } else {
        let s = sqrt_floor(n - 1);
        if (s + 1) * (s + 1) <= n {
            s + 1
        } else {
            s
        }
    }
}

/// The floor square root is the greatest integer whose square is within `n`.
pub proof fn lemma_sqrt_floor(n: int)
    requires
        n >= 0,
    ensures
        0 <= sqrt_floor(n),
        sqrt_floor(n) * sqrt_floor(n) <= n,
        n < (sqrt_floor(n) + 1) * (sqrt_floor(n) + 1),
    decreases n,
{
    if n >= 1 {
        lemma_sqrt_floor(n - 1);
        let s = sqrt_floor(n - 1);
        if (s + 1) * (s + 1) <= n {
            assert(n < (s + 2) * (s + 2)) by (nonlinear_arith)
                requires
                    n - 1 < (s + 1) * (s + 1) && (s + 1) * (s + 1) <= n && s >= 0;
        }
    }
}

/// Any integer bracketing `n` between consecutive squares is the floor
/// square root.
pub proof fn lemma_sqrt_floor_unique(n: int, r: int)
    requires
        n >= 0,
        r >= 0,
        r * r <= n,
        n < (r + 1) * (r + 1),
    ensures
        r == sqrt_floor(n),
{
    lemma_sqrt_floor(n);
    let s = sqrt_floor(n);
    assert(r == s) by (nonlinear_arith)
        requires
            r >= 0 && s >= 0 && r * r <= n && n < (r + 1) * (r + 1) && s * s <= n && n < (s + 1)
                * (s + 1);
}

/// Integer square root: the greatest `r` with `r * r <= n`.
pub fn isqrt(n: u64) -> (r: u64)
    ensures
        r * r <= n,
        n < (r + 1) * (r + 1),
        r == sqrt_floor(n as int),
{
    let mut lo: u64 = 0;
    let mut hi: u64 = 4294967296;
    proof {
        assert((4294967296int) * (4294967296int) > u64::MAX);
    }
    while lo + 1 < hi
        invariant
            lo < hi,
            hi <= 4294967296,
            lo * lo <= n,
            n < hi * hi,
        decreases hi - lo,
    {
        let mid: u64 = lo + (hi - lo) / 2;
        proof {
            assert(mid < hi);
            assert(mid * mid < 4294967296int * 4294967296int) by (nonlinear_arith)
                requires mid < 4294967296int;
        }
        if mid * mid <= n {
            lo = mid;
        } else {
            hi = mid;
        }
    }
    proof {
        lemma_sqrt_floor_unique(n as int, lo as int);
    }
    lo
}

} // verus!
