//! The control-point file: sixteen whitespace-separated x/y/z decimal
//! triples, one per non-blank line (a line of two or fewer bytes counts
//! as blank), read row-major into the 4 by 4 grid.
//!
//! A number is an optional sign, then decimal digits with an optional
//! point: up to twelve integer digits are read, and the first six
//! fraction digits; anything else on a line past the third number is an
//! error, as is a missing or malformed number.  Exponent forms are not
//! part of the grammar: the values they usually name fall under one tick
//! or past the coordinate range, so such a file is rejected as a
//! configuration error rather than silently misread.

use vstd::prelude::*;
use crate::fixed::{tdiv, lemma_tdiv_bounds, SCALE};
use crate::point::Point3;

verus! {

/// What stopped the parse; indices count control points from zero, axes
/// are 0, 1, 2 for x, y, z.
#[derive(Clone, Copy, Debug, PartialEq, Eq, Structural)]
pub enum ParseError {
    /// The text ended before sixteen points were read.
    MissingPoint { index: usize },
    /// A point's line ended before all three coordinates.
    MissingCoordinate { index: usize, axis: u8 },
    /// A coordinate is not a number of the accepted shape.
    InvalidNumber { index: usize, axis: u8 },
    /// A point's line carries more than three coordinates.
    ExtraTokens { index: usize },
    /// A control point lies beyond the range the surface accepts.
    OutOfRange,
}

impl ParseError {
    /// A short account of the error, naming the coordinate it concerns.
    pub fn message(&self) -> (m: &'static str) {
        match self {
            ParseError::MissingPoint { .. } => "expected another control point",
            ParseError::MissingCoordinate { axis: 0, .. } => "expected the x coordinate",
            ParseError::MissingCoordinate { axis: 1, .. } => "expected the y coordinate",
            ParseError::MissingCoordinate { .. } => "expected the z coordinate",
            ParseError::InvalidNumber { axis: 0, .. } => "x should be a decimal number",
            ParseError::InvalidNumber { axis: 1, .. } => "y should be a decimal number",
            ParseError::InvalidNumber { .. } => "z should be a decimal number",
            ParseError::ExtraTokens { .. } => "too many coordinates provided",
            ParseError::OutOfRange => "control point out of range",
        }
    }
}

pub open spec fn is_digit(c: u8) -> bool {
    48 <= c <= 57
}

pub open spec fn is_space(c: u8) -> bool {
    c == 32 || c == 9 || c == 13
}

pub open spec fn all_digits(s: Seq<u8>) -> bool {
    forall|i: int| 0 <= i < s.len() ==> is_digit(#[trigger] s[i])
}

/// The number a digit string names.
pub open spec fn digits_value(s: Seq<u8>) -> int
    decreases s.len(),
{
    if s.len() == 0 {
        0
    } else {
        digits_value(s.drop_last()) * 10 + (s.last() - 48)
    }
}

pub open spec fn pow10(k: nat) -> int
    decreases k,
{
    if k == 0 {
        1
    } else {
        10 * pow10((k - 1) as nat)
    }
}

/// The index of the first decimal point at or after `i`, or the length.
pub open spec fn dot_pos(s: Seq<u8>, i: int) -> int
    decreases s.len() - i,
{
    if i < 0 || i >= s.len() {
        s.len() as int
    } else if s[i] == 46 {
        i
    } else {
        dot_pos(s, i + 1)
    }
}

/// The fixed-point value a token names, or nothing when the token is not
/// a signed decimal number of the accepted shape.
pub open spec fn fixed_of(s: Seq<u8>) -> Option<int> {
    if s.len() == 0 {
        None
    } else {
        let neg = s[0] == 45;
        let body = if s[0] == 45 || s[0] == 43 {
            s.subrange(1, s.len() as int)
        } else {
            s
        };
        let d = dot_pos(body, 0);
        let ip = body.subrange(0, d);
        let fp = if d >= body.len() {
            Seq::<u8>::empty()
        } else {
            body.subrange(d + 1, body.len() as int)
        };
        if all_digits(ip) && all_digits(fp) && ip.len() + fp.len() >= 1 && ip.len() <= 12 {
            let fl: int = if fp.len() <= 6 {
                fp.len() as int
            } else {
                6
            };
            let v = digits_value(ip) * SCALE + tdiv(
                digits_value(fp.subrange(0, fl)) * SCALE,
                pow10(fl as nat),
            );
            Some(
                if neg {
                    -v
                } else {
                    v
                },
            )
        } else {
            None
        }
    }
}

/// The index of the first non-space byte at or after `i`, or the length.
pub open spec fn skip_spaces(s: Seq<u8>, i: int) -> int
    decreases s.len() - i,
{
    if i < 0 || i >= s.len() {
        s.len() as int
    } else if is_space(s[i]) {
        skip_spaces(s, i + 1)
    } else {
        i
    }
}

/// The index just past the token starting at `i`: the first space at or
/// after `i`, or the length.
pub open spec fn token_end(s: Seq<u8>, i: int) -> int
    decreases s.len() - i,
{
    if i < 0 || i >= s.len() {
        s.len() as int
    } else if is_space(s[i]) {
        i
    } else {
        token_end(s, i + 1)
    }
}

/// The coordinate `axis` of point `index`, read from `s` at `i`; on
/// success, the value and the position just past the token.
pub open spec fn coord_of(s: Seq<u8>, i: int, index: int, axis: u8) -> Result<(int, int), ParseError> {
    let b = skip_spaces(s, i);
    if b >= s.len() {
        Err(ParseError::MissingCoordinate { index: index as usize, axis })
    } else {
        let e = token_end(s, b);
        match fixed_of(s.subrange(b, e)) {
            Some(v) => Ok((v, e)),
            None => Err(ParseError::InvalidNumber { index: index as usize, axis }),
        }
    }
}

/// The point a line names: exactly three coordinates and nothing more.
pub open spec fn point_of(s: Seq<u8>, index: int) -> Result<(int, int, int), ParseError> {
    match coord_of(s, 0, index, 0) {
        Err(e) => Err(e),
        Ok((x, i1)) => match coord_of(s, i1, index, 1) {
            Err(e) => Err(e),
            Ok((y, i2)) => match coord_of(s, i2, index, 2) {
                Err(e) => Err(e),
                Ok((z, i3)) => {
                    if skip_spaces(s, i3) < s.len() {
                        Err(ParseError::ExtraTokens { index: index as usize })
                    } else {
                        Ok((x, y, z))
                    }
                },
            },
        },
    }
}

/// The index just past the line starting at `i`: the first newline at or
/// after `i`, or the length.
pub open spec fn line_end(s: Seq<u8>, i: int) -> int
    decreases s.len() - i,
{
    if i < 0 || i >= s.len() {
        s.len() as int
    } else if s[i] == 10 {
        i
    } else {
        line_end(s, i + 1)
    }
}

/// The control points read from `s` at `i`, `index` of them already
/// taken: non-blank lines are parsed as points until sixteen are in
/// hand; a line of two or fewer bytes is skipped as blank.
pub open spec fn points_of(s: Seq<u8>, i: int, index: int) -> Result<Seq<(int, int, int)>, ParseError>
    decreases s.len() - i
        via points_of_dec
{
    if index >= 16 {
        Ok(Seq::empty())
    } else if i >= s.len() {
        Err(ParseError::MissingPoint { index: index as usize })
    } else {
        let e = line_end(s, i);
        let next = if e + 1 <= s.len() {
            e + 1
        } else {
            s.len() as int
        };
        if e - i <= 2 {
            points_of(s, next, index)
        } else {
            match point_of(s.subrange(i, e), index) {
                Err(er) => Err(er),
                Ok(p) => match points_of(s, next, index + 1) {
                    Err(er) => Err(er),
                    Ok(rest) => Ok(seq![p] + rest),
                },
            }
        }
    }
}

#[via_fn]
proof fn points_of_dec(s: Seq<u8>, i: int, index: int) {
    if index < 16 && i < s.len() && i >= 0 {
        lemma_line_end_ge(s, i);
    }
}

/// A successful parse yields exactly the points still owed.
pub proof fn lemma_points_of_len(s: Seq<u8>, i: int, index: int)
    requires
        0 <= i,
        0 <= index <= 16,
        points_of(s, i, index) is Ok,
    ensures
        points_of(s, i, index)->Ok_0.len() == 16 - index,
    decreases s.len() - i,
{
    if index >= 16 {
    } else if i >= s.len() {
    } else {
        let e = line_end(s, i);
        let next = if e + 1 <= s.len() {
            e + 1
        } else {
            s.len() as int
        };
        lemma_line_end_ge(s, i);
        if e - i <= 2 {
            lemma_points_of_len(s, next, index);
        } else {
            if point_of(s.subrange(i, e), index) is Ok {
                lemma_points_of_len(s, next, index + 1);
            }
        }
    }
}

/// A line never ends before it starts.
proof fn lemma_line_end_ge(s: Seq<u8>, i: int)
    requires
        0 <= i <= s.len(),
    ensures
        i <= line_end(s, i) <= s.len(),
    decreases s.len() - i,
{
    if i < s.len() && s[i] != 10 {
        lemma_line_end_ge(s, i + 1);
    }
}

/// A digit string names a number under ten to its length.
proof fn lemma_digits_bound(s: Seq<u8>)
    requires
        all_digits(s),
    ensures
        0 <= digits_value(s),
        digits_value(s) < pow10(s.len()),
    decreases s.len(),
{
    if s.len() > 0 {
        assert(all_digits(s.drop_last())) by {
            assert(forall|i: int| 0 <= i < s.len() - 1 ==> s.drop_last()[i] == s[i]);
        }
        lemma_digits_bound(s.drop_last());
        assert(digits_value(s.drop_last()) * 10 + (s.last() - 48) < pow10(s.len() as nat))
            by (nonlinear_arith)
            requires
                0 <= digits_value(s.drop_last()) < pow10((s.len() - 1) as nat) && 0 <= s.last()
                    - 48 <= 9 && pow10(s.len() as nat) == 10 * pow10((s.len() - 1) as nat);
    }
}

/// Appending one digit multiplies by ten and adds it.
proof fn lemma_digits_step(s: Seq<u8>, a: int, i: int)
    requires
        0 <= a <= i < s.len(),
    ensures
        digits_value(s.subrange(a, i + 1)) == 10 * digits_value(s.subrange(a, i)) + (s[i] - 48),
{
    let t = s.subrange(a, i + 1);
    assert(t.drop_last() =~= s.subrange(a, i));
    assert(t.last() == s[i]);
    assert(digits_value(t) == digits_value(t.drop_last()) * 10 + (t.last() - 48));
}

/// The first non-space byte at or past the given start.
fn skip_spaces_e(s: &[u8], i: usize) -> (r: usize)
    requires
        i <= s@.len(),
    ensures
        r == skip_spaces(s@, i as int),
        i <= r <= s@.len(),
        r < s@.len() ==> !is_space(s@[r as int]),
{
    let n = s.len();
    let mut j = i;
    while j < n && (s[j] == 32 || s[j] == 9 || s[j] == 13)
        invariant
            i <= j <= n,
            n == s@.len(),
            skip_spaces(s@, i as int) == skip_spaces(s@, j as int),
        decreases n - j,
    {
        j = j + 1;
    }
    j
}

/// The first space at or past the given start.
fn token_end_e(s: &[u8], i: usize) -> (r: usize)
    requires
        i <= s@.len(),
    ensures
        r == token_end(s@, i as int),
        i <= r <= s@.len(),
{
    let n = s.len();
    let mut j = i;
    while j < n && !(s[j] == 32 || s[j] == 9 || s[j] == 13)
        invariant
            i <= j <= n,
            n == s@.len(),
            token_end(s@, i as int) == token_end(s@, j as int),
        decreases n - j,
    {
        j = j + 1;
    }
    j
}

/// The first newline at or past the given start.
fn line_end_e(s: &[u8], i: usize) -> (r: usize)
    requires
        i <= s@.len(),
    ensures
        r == line_end(s@, i as int),
        i <= r <= s@.len(),
    decreases s@.len() - i,
{
    let n = s.len();
    let mut j = i;
    while j < n && s[j] != 10
        invariant
            i <= j <= n,
            n == s@.len(),
            line_end(s@, i as int) == line_end(s@, j as int),
        decreases n - j,
    {
        j = j + 1;
    }
    j
}

/// Ten to a small power.
fn pow10_e(k: usize) -> (r: i64)
    requires
        k <= 6,
    ensures
        r == pow10(k as nat),
        1 <= r <= 1000000,
{
    proof {
        reveal_with_fuel(pow10, 8);
    }
    if k == 0 {
        1
    } else if k == 1 {
        10
    } else if k == 2 {
        100
    } else if k == 3 {
        1000
    } else if k == 4 {
        10000
    } else if k == 5 {
        100000
    } else {
        1000000
    }
}

/// Reads one signed decimal token as a fixed-point value.
#[verifier::rlimit(100)]
fn parse_fixed(s: &[u8]) -> (r: Option<i64>)
    ensures
        match fixed_of(s@) {
            Some(v) => r == Some(v as i64) && -0x200_0000_0000_0000 <= v
                <= 0x200_0000_0000_0000,
            None => r is None,
        },
{
    let n = s.len();
    if n == 0 {
        return None;
    }
    let neg: bool = s[0] == 45;
    let b0: usize = if s[0] == 45 || s[0] == 43 {
        1
    } else {
        0
    };
    let ghost body = if b0 == 1 {
        s@.subrange(1, s@.len() as int)
    } else {
        s@
    };
    proof {
        assert(body.len() == n - b0);
        assert(forall|q: int| 0 <= q < body.len() ==> body[q] == s@[b0 + q]);
    }
    // integer digits up to the decimal point
    let mut i = b0;
    let mut ipn: i64 = 0;
    while i < n && s[i] != 46
        invariant
            b0 <= i <= n,
            b0 <= 1,
            n == s@.len(),
            n >= 1,
            b0 == 1 <==> (s@[0] == 45 || s@[0] == 43),
            body == (if b0 == 1 {
                s@.subrange(1, s@.len() as int)
            } else {
                s@
            }),
            body.len() == n - b0,
            forall|q: int| 0 <= q < body.len() ==> body[q] == s@[b0 + q],
            forall|q: int| b0 <= q < i ==> is_digit(#[trigger] s@[q]),
            dot_pos(body, 0) == dot_pos(body, i - b0),
            i - b0 <= 12 ==> ipn == digits_value(s@.subrange(b0 as int, i as int)) && 0 <= ipn
                < pow10((i - b0) as nat),
            ipn <= 999999999999,
        decreases n - i,
    {
        let c = s[i];
        if c < 48 || c > 57 {
            proof {
                assert(0 <= i - b0 < body.len());
                assert(body[i - b0] == s@[i as int]);
                lemma_dot_at_least(body, i - b0);
                lemma_dot_pos_ge(body, 0);
                let d = dot_pos(body, 0);
                assert(i - b0 < d <= body.len());
                assert(body.subrange(0, d)[i - b0] == body[i - b0]);
                assert(!is_digit(body[i - b0]));
                assert(!all_digits(body.subrange(0, d)));
            }
            return None;
        }
        if i - b0 < 12 {
            proof {
                lemma_digits_step(s@, b0 as int, i as int);
                assert(pow10(((i - b0) + 1) as nat) == 10 * pow10((i - b0) as nat));
                lemma_pow10_le((i - b0) as nat, 11);
                reveal_with_fuel(pow10, 13);
            }
            ipn = ipn * 10 + ((c - 48) as i64);
        }
        i = i + 1;
    }
    let ipc: usize = i - b0;
    proof {
        if i == n {
            assert(dot_pos(body, i - b0) == body.len());
        } else {
            assert(body[i - b0] == 46);
            assert(dot_pos(body, i - b0) == i - b0);
        }
    }
    if ipc > 12 {
        return None;
    }
    // fraction digits, if any
    let mut fv: i64 = 0;
    let mut fc: usize = 0;
    let fstart: usize = if i < n {
        i + 1
    } else {
        i
    };
    let mut j = fstart;
    while j < n
        invariant
            fstart <= j <= n,
            n == s@.len(),
            n >= 1,
            b0 <= 1,
            b0 <= i <= n,
            i - b0 <= 12,
            neg == (s@[0] == 45),
            body == (if b0 == 1 {
                s@.subrange(1, s@.len() as int)
            } else {
                s@
            }),
            b0 == 1 <==> (s@[0] == 45 || s@[0] == 43),
            body.len() == n - b0,
            forall|q: int| 0 <= q < body.len() ==> body[q] == s@[b0 + q],
            forall|q: int| b0 <= q < i ==> is_digit(#[trigger] s@[q]),
            i < n ==> dot_pos(body, 0) == i - b0,
            i == n ==> dot_pos(body, 0) == body.len(),
            fstart == (if i < n {
                i + 1
            } else {
                i as int
            }),
            ipn == digits_value(s@.subrange(b0 as int, i as int)),
            0 <= ipn < pow10((i - b0) as nat),
            ipn <= 999999999999,
            forall|q: int| fstart <= q < j ==> is_digit(#[trigger] s@[q]),
            fc == (if j - fstart <= 6 {
                j - fstart
            } else {
                6
            }),
            fv == digits_value(s@.subrange(fstart as int, fstart + fc)),
            0 <= fv < pow10(fc as nat),
            fc <= 6,
        decreases n - j,
    {
        let c = s[j];
        if c < 48 || c > 57 {
            proof {
                assert(!is_digit(s@[j as int]));
                if i < n {
                    let d = dot_pos(body, 0);
                    let fp = body.subrange(d + 1, body.len() as int);
                    assert(fp[j - fstart] == body[d + 1 + (j - fstart)]);
                    assert(fp[j - fstart] == s@[j as int]);
                    assert(!all_digits(fp));
                }
            }
            return None;
        }
        if fc < 6 {
            proof {
                lemma_digits_step(s@, fstart as int, j as int);
                assert(s@.subrange(fstart as int, fstart + fc) =~= s@.subrange(
                    fstart as int,
                    j as int,
                ));
                assert(pow10((fc + 1) as nat) == 10 * pow10(fc as nat));
                reveal_with_fuel(pow10, 8);
            }
            fv = fv * 10 + ((c - 48) as i64);
            fc = fc + 1;
        }
        j = j + 1;
    }
    let flen: usize = n - fstart;
    if ipc == 0 && flen == 0 {
        return None;
    }
    proof {
        let d = dot_pos(body, 0);
        let ip = body.subrange(0, d);
        let fp = if d >= body.len() {
            Seq::<u8>::empty()
        } else {
            body.subrange(d + 1, body.len() as int)
        };
        assert(ip =~= s@.subrange(b0 as int, i as int));
        assert(fp =~= s@.subrange(fstart as int, n as int));
        assert(all_digits(ip));
        assert(all_digits(fp));
        let fl: int = if fp.len() <= 6 {
            fp.len() as int
        } else {
            6
        };
        assert(fl == fc);
        assert(fp.subrange(0, fl) =~= s@.subrange(fstart as int, fstart + fc));
        reveal_with_fuel(pow10, 8);
        assert(0 * pow10(fc as nat) <= fv * SCALE && fv * SCALE <= SCALE * pow10(fc as nat))
            by (nonlinear_arith)
            requires
                0 <= fv < pow10(fc as nat) && SCALE == 65536 && pow10(fc as nat) >= 1;
        lemma_tdiv_bounds(fv as int * SCALE, pow10(fc as nat), 0, SCALE as int);
    }
    let p10 = pow10_e(fc);
    let v: i64 = ipn * SCALE + (fv * SCALE) / p10;
    if neg {
        Some(-v)
    } else {
        Some(v)
    }
}

/// Ten to any power is positive.
proof fn lemma_pow10_pos(k: nat)
    ensures
        pow10(k) >= 1,
    decreases k,
{
    if k > 0 {
        lemma_pow10_pos((k - 1) as nat);
    }
}

/// Ten to a power grows with the power.
proof fn lemma_pow10_le(a: nat, b: nat)
    requires
        a <= b,
    ensures
        pow10(a) <= pow10(b),
        pow10(a) >= 1,
    decreases b,
{
    lemma_pow10_pos(a);
    if a < b {
        lemma_pow10_le(a, (b - 1) as nat);
    }
}

/// Before the first decimal point, every position scans past.
proof fn lemma_dot_at_least(s: Seq<u8>, k: int)
    requires
        0 <= k < s.len(),
        dot_pos(s, 0) == dot_pos(s, k),
        s[k] != 46,
    ensures
        dot_pos(s, 0) > k,
{
    lemma_dot_pos_ge(s, k);
}

/// The first decimal point lies at or past the scan position.
proof fn lemma_dot_pos_ge(s: Seq<u8>, i: int)
    requires
        0 <= i <= s.len(),
    ensures
        dot_pos(s, i) >= i,
        dot_pos(s, i) <= s.len(),
        dot_pos(s, i) < s.len() ==> s[dot_pos(s, i)] == 46,
        i < s.len() && s[i] != 46 ==> dot_pos(s, i) > i,
    decreases s.len() - i,
{
    if i < s.len() && s[i] != 46 {
        lemma_dot_pos_ge(s, i + 1);
    }
}

/// Reads one line as a control point: three coordinates, nothing more.
fn parse_point(line: &[u8], index: usize) -> (r: Result<Point3, ParseError>)
    requires
        index <= 16,
    ensures
        match r {
            Ok(p) => point_of(line@, index as int) == Ok::<(int, int, int), ParseError>(
                (p.x as int, p.y as int, p.z as int),
            ),
            Err(e) => point_of(line@, index as int) == Err::<(int, int, int), ParseError>(e),
        },
{
    let n = line.len();
    let b0 = skip_spaces_e(line, 0);
    if b0 >= n {
        return Err(ParseError::MissingCoordinate { index, axis: 0 });
    }
    let e0 = token_end_e(line, b0);
    let x = match parse_fixed(vstd::slice::slice_subrange(line, b0, e0)) {
        Some(v) => v,
        None => {
            return Err(ParseError::InvalidNumber { index, axis: 0 });
        },
    };
    let b1 = skip_spaces_e(line, e0);
    if b1 >= n {
        return Err(ParseError::MissingCoordinate { index, axis: 1 });
    }
    let e1 = token_end_e(line, b1);
    let y = match parse_fixed(vstd::slice::slice_subrange(line, b1, e1)) {
        Some(v) => v,
        None => {
            return Err(ParseError::InvalidNumber { index, axis: 1 });
        },
    };
    let b2 = skip_spaces_e(line, e1);
    if b2 >= n {
        return Err(ParseError::MissingCoordinate { index, axis: 2 });
    }
    let e2 = token_end_e(line, b2);
    let z = match parse_fixed(vstd::slice::slice_subrange(line, b2, e2)) {
        Some(v) => v,
        None => {
            return Err(ParseError::InvalidNumber { index, axis: 2 });
        },
    };
    let b3 = skip_spaces_e(line, e2);
    if b3 < n {
        return Err(ParseError::ExtraTokens { index });
    }
    Ok(Point3::new(x, y, z))
}

/// Reads the sixteen control points of a surface from `text`.
pub fn parse_points(text: &[u8]) -> (r: Result<Vec<Point3>, ParseError>)
    ensures
        match r {
            Ok(v) => {
                &&& points_of(text@, 0, 0) is Ok
                &&& v@.len() == 16
                &&& forall|k: int|
                    0 <= k < 16 ==> (#[trigger] v@[k]).x == points_of(text@, 0, 0)->Ok_0[k].0
                        && v@[k].y == points_of(text@, 0, 0)->Ok_0[k].1 && v@[k].z == points_of(
                        text@,
                        0,
                        0,
                    )->Ok_0[k].2
            },
            Err(e) => points_of(text@, 0, 0) == Err::<Seq<(int, int, int)>, ParseError>(e),
        },
{
    let r = parse_points_from(text, 0, 0);
    proof {
        if r is Ok {
            lemma_points_of_len(text@, 0, 0);
        }
    }
    r
}

/// Reads control points from position `i` on, `index` already in hand.
fn parse_points_from(text: &[u8], i: usize, index: usize) -> (r: Result<Vec<Point3>, ParseError>)
    requires
        i <= text@.len(),
        index <= 16,
    ensures
        match r {
            Ok(v) => {
                &&& points_of(text@, i as int, index as int) is Ok
                &&& v@.len() == points_of(text@, i as int, index as int)->Ok_0.len()
                &&& forall|k: int|
                    0 <= k < v@.len() ==> (#[trigger] v@[k]).x == points_of(
                        text@,
                        i as int,
                        index as int,
                    )->Ok_0[k].0 && v@[k].y == points_of(text@, i as int, index as int)->Ok_0[k].1
                        && v@[k].z == points_of(text@, i as int, index as int)->Ok_0[k].2
            },
            Err(e) => points_of(text@, i as int, index as int) == Err::<
                Seq<(int, int, int)>,
                ParseError,
            >(e),
        },
    decreases text@.len() - i,
{
    if index >= 16 {
        return Ok(Vec::new());
    }
    if i >= text.len() {
        return Err(ParseError::MissingPoint { index });
    }
    let e = line_end_e(text, i);
    let next: usize = if e < text.len() {
        e + 1
    } else {
        text.len()
    };
    if e - i <= 2 {
        parse_points_from(text, next, index)
    } else {
        let line = vstd::slice::slice_subrange(text, i, e);
        match parse_point(line, index) {
            Err(er) => Err(er),
            Ok(p) => {
                match parse_points_from(text, next, index + 1) {
                    Err(er) => Err(er),
                    Ok(mut rest) => {
                        let mut v: Vec<Point3> = Vec::new();
                        v.push(p);
                        v.append(&mut rest);
                        Ok(v)
                    },
                }
            },
        }
    }
}

} // verus!
