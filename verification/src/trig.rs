//! Fixed-point trigonometry over binary angle units.
//!
//! A full turn is `TURN` angle units; results are at scale `SCALE`.  The
//! half-wave is a rational approximation of the sine arch that is exact at
//! 0, a quarter turn and a half turn, stays within one unit, and is
//! symmetric about the quarter turn — so the symmetries the rotation code
//! depends on hold exactly.

use vstd::prelude::*;
use vstd::arithmetic::div_mod::{
    lemma_fundamental_div_mod, lemma_fundamental_div_mod_converse,
    lemma_mod_division_less_than_divisor, lemma_div_pos_is_pos,
};
use crate::fixed::{
    tdiv, lemma_tdiv_abs, lemma_tdiv_neg,
    SCALE, TURN, HALF_TURN, QUARTER_TURN,
};

verus! {

/// The sine arch on `[0, HALF_TURN]`: `16 p / (5 H^2 - 4 p)` of a unit,
/// where `p = a (H - a)`.
pub open spec fn arch(a: int) -> int {
    let h = HALF_TURN as int;
    let p = a * (h - a);
    tdiv(16 * p * (SCALE as int), 5 * h * h - 4 * p)
}

/// Sine of an angle in angle units, at scale `SCALE`.
pub open spec fn sin_spec(a: int) -> int {
    let m = a % (TURN as int);
    if m <= HALF_TURN as int {
        arch(m)
    } else {
        -arch(m - HALF_TURN as int)
    }
}

/// Cosine of an angle in angle units, at scale `SCALE`.
pub open spec fn cos_spec(a: int) -> int {
    sin_spec(a + QUARTER_TURN as int)
}

/// The arch stays within one unit and is nonnegative on the half wave.
pub proof fn lemma_arch_bounds(a: int)
    requires
        0 <= a,
        a <= HALF_TURN as int,
    ensures
        0 <= arch(a),
        arch(a) <= SCALE as int,
{
    let h = HALF_TURN as int;
    let s = SCALE as int;
    let p = a * (h - a);
    let d = 5 * h * h - 4 * p;
    assert(0 <= p && 4 * p <= h * h) by (nonlinear_arith)
        requires
            0 <= a && a <= h && p == a * (h - a);
    assert(16 * p * s <= s * d && 0 <= 16 * p * s && d > 0) by (nonlinear_arith)
        requires
            0 <= p && 4 * p <= h * h && d == 5 * h * h - 4 * p && s > 0 && h > 0;
    lemma_tdiv_abs(16 * p * s, d, s);
    lemma_div_pos_is_pos(16 * p * s, d);
}

/// The arch is symmetric about the quarter turn.
pub proof fn lemma_arch_symmetric(a: int)
    ensures
        arch(HALF_TURN as int - a) == arch(a),
{
    let h = HALF_TURN as int;
    assert((h - a) * (h - (h - a)) == a * (h - a)) by (nonlinear_arith);
}

/// Sine is within one unit everywhere.
pub proof fn lemma_sin_bounds(a: int)
    ensures
        -(SCALE as int) <= sin_spec(a),
        sin_spec(a) <= SCALE as int,
{
    let t = TURN as int;
    let m = a % t;
    lemma_mod_division_less_than_divisor(a, t);
    if m <= HALF_TURN as int {
        lemma_arch_bounds(m);
    } else {
        lemma_arch_bounds(m - HALF_TURN as int);
    }
}

/// On angles up to a quarter turn either way, sine is odd.
pub proof fn lemma_sin_odd_quarter(a: int)
    requires
        -(QUARTER_TURN as int) <= a,
        a <= QUARTER_TURN as int,
    ensures
        sin_spec(-a) == -sin_spec(a),
{
    let t = TURN as int;
    let h = HALF_TURN as int;
    if a == 0 {
        lemma_fundamental_div_mod_converse(0, t, 0, 0);
    } else if a > 0 {
        lemma_fundamental_div_mod_converse(a, t, 0, a);
        lemma_fundamental_div_mod_converse(-a, t, -1, t - a);
        assert(a % t == a);
        assert((-a) % t == t - a);
        lemma_arch_symmetric(t - a - h);
        assert(h - (t - a - h) == a);
    } else {
        lemma_fundamental_div_mod_converse(-a, t, 0, -a);
        lemma_fundamental_div_mod_converse(a, t, -1, t + a);
        assert((-a) % t == -a);
        assert(a % t == t + a);
        lemma_arch_symmetric(t + a - h);
        assert(h - (t + a - h) == -a);
    }
}

/// On angles up to a quarter turn either way, cosine is even and lies on
/// the nonnegative part of the arch.
pub proof fn lemma_cos_even_quarter(a: int)
    requires
        -(QUARTER_TURN as int) <= a,
        a <= QUARTER_TURN as int,
    ensures
        cos_spec(-a) == cos_spec(a),
        0 <= cos_spec(a),
        cos_spec(a) <= SCALE as int,
{
    let t = TURN as int;
    let h = HALF_TURN as int;
    let q = QUARTER_TURN as int;
    lemma_fundamental_div_mod_converse(q + a, t, 0, q + a);
    lemma_fundamental_div_mod_converse(q - a, t, 0, q - a);
    assert((q + a) % t == q + a);
    assert((q - a) % t == q - a);
    lemma_arch_symmetric(q + a);
    assert(h - (q + a) == q - a);
    lemma_arch_bounds(q + a);
}

/// Reduces an angle to `[0, TURN)`.
fn reduce(a: i64) -> (m: i64)
    requires
        -0x2_0000_0000_0000 <= a,
        a <= 0x2_0000_0000_0000,
    ensures
        m == a as int % (TURN as int),
        0 <= m,
        m < TURN,
{
    proof {
        assert(0x2_0000_0000int * TURN as int == 0x2_0000_0000_0000int);
        lemma_tdiv_abs(a as int, TURN as int, 0x2_0000_0000int);
    }
    let q: i64 = a / TURN;
    let r: i64 = a - q * TURN;
    proof {
        let t = TURN as int;
        if a >= 0 {
            lemma_fundamental_div_mod(a as int, t);
            lemma_mod_division_less_than_divisor(a as int, t);
            assert(t * (a as int / t) == (a as int / t) * t) by (nonlinear_arith);
            assert(0 <= r && r < t);
        } else {
            let b = -(a as int);
            lemma_fundamental_div_mod(b, t);
            lemma_mod_division_less_than_divisor(b, t);
            assert(t * (b / t) == (b / t) * t) by (nonlinear_arith);
            assert(-t < r && r <= 0);
        }
    }
    let m: i64 = if r < 0 { r + TURN } else { r };
    proof {
        let t = TURN as int;
        if r < 0 {
            assert(a as int == (q as int - 1) * t + m as int) by (nonlinear_arith)
                requires
                    a as int == q as int * t + r as int && m as int == r as int + t;
            lemma_fundamental_div_mod_converse(a as int, t, q as int - 1, m as int);
        } else {
            lemma_fundamental_div_mod_converse(a as int, t, q as int, m as int);
        }
    }
    m
}

/// Evaluates the sine arch on `[0, HALF_TURN]`.
fn arch_eval(a: i64) -> (r: i64)
    requires
        0 <= a,
        a <= HALF_TURN,
    ensures
        r == arch(a as int),
        0 <= r,
        r <= SCALE,
{
    let h: i64 = HALF_TURN;
    proof {
        assert(0 <= a as int * (h as int - a as int)
            && a as int * (h as int - a as int) <= (h as int) * (h as int)) by (nonlinear_arith)
            requires
                0 <= a as int && a as int <= h as int;
        lemma_arch_bounds(a as int);
    }
    let p: i64 = a * (h - a);
    let num: i64 = 16 * p * SCALE;
    let den: i64 = 5 * h * h - 4 * p;
    num / den
}

/// Sine of an angle in angle units; the result is at scale `SCALE`.
pub fn sin_bam(a: i64) -> (r: i64)
    requires
        -0x2_0000_0000_0000 <= a,
        a <= 0x2_0000_0000_0000,
    ensures
        r == sin_spec(a as int),
        -SCALE <= r,
        r <= SCALE,
{
    let m = reduce(a);
    if m <= HALF_TURN {
        arch_eval(m)
    } else {
        -arch_eval(m - HALF_TURN)
    }
}

/// Cosine of an angle in angle units; the result is at scale `SCALE`.
pub fn cos_bam(a: i64) -> (r: i64)
    requires
        -0x1_0000_0000_0000 <= a,
        a <= 0x1_0000_0000_0000,
    ensures
        r == cos_spec(a as int),
        -SCALE <= r,
        r <= SCALE,
{
    sin_bam(a + QUARTER_TURN)
}

/// Tangent of the half angle, for rotation by angles up to a quarter turn
/// either way; at scale `SCALE`.
pub open spec fn tan_half_spec(a: int) -> int {
    tdiv(sin_spec(a) * (SCALE as int), SCALE as int + cos_spec(a))
}

/// The half-angle tangent is odd and within one unit on the quarter-turn
/// range.
pub proof fn lemma_tan_half_quarter(a: int)
    requires
        -(QUARTER_TURN as int) <= a,
        a <= QUARTER_TURN as int,
    ensures
        tan_half_spec(-a) == -tan_half_spec(a),
        -(SCALE as int) <= tan_half_spec(a),
        tan_half_spec(a) <= SCALE as int,
{
    let s = SCALE as int;
    let si = sin_spec(a);
    let co = cos_spec(a);
    lemma_sin_odd_quarter(a);
    lemma_cos_even_quarter(a);
    lemma_sin_bounds(a);
    lemma_tdiv_neg(si * s, s + co);
    assert((-si) * s == -(si * s)) by (nonlinear_arith);
    assert(-(s * (s + co)) <= si * s && si * s <= s * (s + co)) by (nonlinear_arith)
        requires
            -s <= si && si <= s && s > 0 && co >= 0;
    lemma_tdiv_abs(si * s, s + co, s);
}

/// Tangent of the half angle for rotation by `a`.
pub fn tan_half_bam(a: i64) -> (r: i64)
    requires
        -QUARTER_TURN <= a,
        a <= QUARTER_TURN,
    ensures
        r == tan_half_spec(a as int),
        -SCALE <= r,
        r <= SCALE,
{
    let s = sin_bam(a);
    let c = cos_bam(a);
    proof {
        lemma_cos_even_quarter(a as int);
        lemma_tan_half_quarter(a as int);
    }
    (s * SCALE) / (SCALE + c)
}

} // verus!
