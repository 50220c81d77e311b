//! World-space positions and directions, with rotation about the X and Z
//! axes.
//!
//! A rotation is applied as three integer shears.  Each shear moves one
//! coordinate by a rounded multiple of the other and leaves that other
//! coordinate untouched, so it is inverted exactly by the shear with the
//! opposite parameter — a rotation followed by the opposite rotation
//! restores every coordinate exactly, rounding and all.

use vstd::prelude::*;
use crate::fixed::{
    tdiv, lemma_tdiv_abs, lemma_tdiv_neg, sqrt_floor, lemma_sqrt_floor, isqrt,
    SCALE, QUARTER_TURN,
};
use crate::trig::{
    sin_spec, tan_half_spec, lemma_sin_bounds, lemma_sin_odd_quarter,
    lemma_tan_half_quarter, sin_bam, tan_half_bam,
};

verus! {

/// Largest coordinate magnitude a point may carry into a rotation.
pub const ROT_LIMIT: i64 = 0x100_0000_0000;

/// Largest coordinate magnitude a vector may carry into `dot`, `cross` or
/// `normalized`.
pub const NORM_LIMIT: i64 = 0x4000_0000;

/// A position in world space, in `SCALE` ticks per unit.
#[derive(Clone, Copy, Debug, PartialEq, Eq, Structural)]
pub struct Point3 {
    pub x: i64,
    pub y: i64,
    pub z: i64,
}

/// A direction in world space, in `SCALE` ticks per unit.
#[derive(Clone, Copy, Debug, PartialEq, Eq, Structural)]
pub struct Vector3 {
    pub x: i64,
    pub y: i64,
    pub z: i64,
}

/// First shear of a rotation: moves `u` against `v` by the half-angle
/// tangent `t`.
pub open spec fn shear_a(t: int, u: int, v: int) -> int {
    u + tdiv(-t * v, SCALE as int)
}

/// Second shear of a rotation: moves `v` along `u` by the sine `s`.
pub open spec fn shear_b(s: int, u: int, v: int) -> int {
    v + tdiv(s * u, SCALE as int)
}

/// First coordinate of the pair `(u, v)` rotated by the angle whose sine
/// is `s` and whose half-angle tangent is `t`.
pub open spec fn rot_u(s: int, t: int, u: int, v: int) -> int {
    let u1 = shear_a(t, u, v);
    let v1 = shear_b(s, u1, v);
    shear_a(t, u1, v1)
}

/// Second coordinate of the pair `(u, v)` rotated by the angle whose sine
/// is `s` and whose half-angle tangent is `t`.
pub open spec fn rot_v(s: int, t: int, u: int, v: int) -> int {
    let u1 = shear_a(t, u, v);
    shear_b(s, u1, v)
}

/// Rotating a pair with `(s, t)` and then with `(-s, -t)` restores it
/// exactly: each shear is cancelled by the shear with the opposite
/// parameter, whatever the rounding did.
pub proof fn lemma_rot_roundtrip(s: int, t: int, u: int, v: int)
    ensures
        rot_u(-s, -t, rot_u(s, t, u, v), rot_v(s, t, u, v)) == u,
        rot_v(-s, -t, rot_u(s, t, u, v), rot_v(s, t, u, v)) == v,
{
    let sc = SCALE as int;
    let u1 = shear_a(t, u, v);
    let v1 = shear_b(s, u1, v);
    let u2 = shear_a(t, u1, v1);
    assert(-(-t) * v1 == -(-t * v1)) by (nonlinear_arith);
    lemma_tdiv_neg(-t * v1, sc);
    assert(shear_a(-t, u2, v1) == u1);
    assert(-s * u1 == -(s * u1)) by (nonlinear_arith);
    lemma_tdiv_neg(s * u1, sc);
    assert(shear_b(-s, u1, v1) == v);
    assert(-(-t) * v == -(-t * v)) by (nonlinear_arith);
    lemma_tdiv_neg(-t * v, sc);
    assert(shear_a(-t, u1, v) == u);
}

/// How far one rotation can move a pair: with unit-bounded `s` and `t`,
/// coordinates bounded by `m` stay within `5 m`.
pub proof fn lemma_rot_bounds(s: int, t: int, u: int, v: int, m: int)
    requires
        -(SCALE as int) <= s && s <= SCALE as int,
        -(SCALE as int) <= t && t <= SCALE as int,
        -m <= u && u <= m,
        -m <= v && v <= m,
        0 <= m,
    ensures
        -2 * m <= shear_a(t, u, v) && shear_a(t, u, v) <= 2 * m,
        -3 * m <= rot_v(s, t, u, v) && rot_v(s, t, u, v) <= 3 * m,
        -5 * m <= rot_u(s, t, u, v) && rot_u(s, t, u, v) <= 5 * m,
{
    let sc = SCALE as int;
    assert(-(m * sc) <= -t * v && -t * v <= m * sc) by (nonlinear_arith)
        requires
            -sc <= t && t <= sc && -m <= v && v <= m && 0 <= m && sc > 0;
    lemma_tdiv_abs(-t * v, sc, m);
    let u1 = shear_a(t, u, v);
    assert(-2 * m <= u1 && u1 <= 2 * m);
    assert(-(2 * m * sc) <= s * u1 && s * u1 <= 2 * m * sc) by (nonlinear_arith)
        requires
            -sc <= s && s <= sc && -2 * m <= u1 && u1 <= 2 * m && 0 <= m && sc > 0;
    assert(2 * m * sc == (2 * m) * sc) by (nonlinear_arith);
    lemma_tdiv_abs(s * u1, sc, 2 * m);
    let v1 = shear_b(s, u1, v);
    assert(-3 * m <= v1 && v1 <= 3 * m);
    assert(-(3 * m * sc) <= -t * v1 && -t * v1 <= 3 * m * sc) by (nonlinear_arith)
        requires
            -sc <= t && t <= sc && -3 * m <= v1 && v1 <= 3 * m && 0 <= m && sc > 0;
    assert(3 * m * sc == (3 * m) * sc) by (nonlinear_arith);
    lemma_tdiv_abs(-t * v1, sc, 3 * m);
}

/// Applies the three-shear rotation to the coordinate pair `(u, v)`.
fn rot_apply(s: i64, t: i64, u: i64, v: i64) -> (r: (i64, i64))
    requires
        -SCALE <= s && s <= SCALE,
        -SCALE <= t && t <= SCALE,
        -ROT_LIMIT <= u && u <= ROT_LIMIT,
        -ROT_LIMIT <= v && v <= ROT_LIMIT,
    ensures
        r.0 == rot_u(s as int, t as int, u as int, v as int),
        r.1 == rot_v(s as int, t as int, u as int, v as int),
        -5 * ROT_LIMIT <= r.0 && r.0 <= 5 * ROT_LIMIT,
        -3 * ROT_LIMIT <= r.1 && r.1 <= 3 * ROT_LIMIT,
{
    proof {
        lemma_rot_bounds(s as int, t as int, u as int, v as int, ROT_LIMIT as int);
        let sc = SCALE as int;
        let m = ROT_LIMIT as int;
        assert(-(m * sc) <= -(t as int) * v && -(t as int) * v <= m * sc) by (nonlinear_arith)
            requires
                -sc <= t as int && t as int <= sc && -m <= v as int && v as int <= m && sc > 0
                    && m >= 0;
    }
    let u1: i64 = u + (-t * v) / SCALE;
    proof {
        let sc = SCALE as int;
        let m = ROT_LIMIT as int;
        assert(-(2 * m * sc) <= s as int * u1 && s as int * u1 <= 2 * m * sc) by (nonlinear_arith)
            requires
                -sc <= s as int && s as int <= sc && -2 * m <= u1 as int && u1 as int <= 2 * m
                    && sc > 0 && m >= 0;
    }
    let v1: i64 = v + (s * u1) / SCALE;
    proof {
        let sc = SCALE as int;
        let m = ROT_LIMIT as int;
        assert(-(3 * m * sc) <= -(t as int) * v1 && -(t as int) * v1 <= 3 * m * sc)
            by (nonlinear_arith)
            requires
                -sc <= t as int && t as int <= sc && -3 * m <= v1 as int && v1 as int <= 3 * m
                    && sc > 0 && m >= 0;
    }
    let u2: i64 = u1 + (-t * v1) / SCALE;
    (u2, v1)
}

impl Point3 {
    pub fn new(x: i64, y: i64, z: i64) -> (r: Self)
        ensures
            r.x == x,
            r.y == y,
            r.z == z,
    {
        Self { x, y, z }
    }

    pub fn origin() -> (r: Self)
        ensures
            r.x == 0,
            r.y == 0,
            r.z == 0,
    {
        Self { x: 0, y: 0, z: 0 }
    }

    /// Screen transform: flip Y and translate so the world origin maps to
    /// the centre of a `width` by `height` pixel canvas.
    pub fn to_screen(self, width: usize, height: usize) -> (r: Self)
        requires
            width <= 16384,
            height <= 16384,
            -ROT_LIMIT <= self.x && self.x <= ROT_LIMIT,
            -ROT_LIMIT <= self.y && self.y <= ROT_LIMIT,
        ensures
            r.x == self.x + (width as int) * (SCALE as int) / 2,
            r.y == -self.y + (height as int) * (SCALE as int) / 2,
            r.z == self.z,
    {
        Self {
            x: self.x + (width as i64) * SCALE / 2,
            y: -self.y + (height as i64) * SCALE / 2,
            z: self.z,
        }
    }

    /// Difference of positions, as a direction.
    pub fn sub(self, rhs: Point3) -> (r: Vector3)
        requires
            -ROT_LIMIT <= self.x && self.x <= ROT_LIMIT,
            -ROT_LIMIT <= self.y && self.y <= ROT_LIMIT,
            -ROT_LIMIT <= self.z && self.z <= ROT_LIMIT,
            -ROT_LIMIT <= rhs.x && rhs.x <= ROT_LIMIT,
            -ROT_LIMIT <= rhs.y && rhs.y <= ROT_LIMIT,
            -ROT_LIMIT <= rhs.z && rhs.z <= ROT_LIMIT,
        ensures
            r.x == self.x - rhs.x,
            r.y == self.y - rhs.y,
            r.z == self.z - rhs.z,
    {
        Vector3 { x: self.x - rhs.x, y: self.y - rhs.y, z: self.z - rhs.z }
    }

    /// The position moved by `k` (at scale `SCALE`) of the direction `v`.
    pub fn add_scaled(self, v: Vector3, k: i64) -> (r: Point3)
        requires
            -ROT_LIMIT <= self.x && self.x <= ROT_LIMIT,
            -ROT_LIMIT <= self.y && self.y <= ROT_LIMIT,
            -ROT_LIMIT <= self.z && self.z <= ROT_LIMIT,
            -NORM_LIMIT <= v.x && v.x <= NORM_LIMIT,
            -NORM_LIMIT <= v.y && v.y <= NORM_LIMIT,
            -NORM_LIMIT <= v.z && v.z <= NORM_LIMIT,
            -NORM_LIMIT <= k && k <= NORM_LIMIT,
        ensures
            r.x == self.x + tdiv(v.x * k, SCALE as int),
            r.y == self.y + tdiv(v.y * k, SCALE as int),
            r.z == self.z + tdiv(v.z * k, SCALE as int),
    {
        proof {
            lemma_scaled_term_bound(v.x as int, k as int);
            lemma_scaled_term_bound(v.y as int, k as int);
            lemma_scaled_term_bound(v.z as int, k as int);
        }
        Point3 {
            x: self.x + (v.x * k) / SCALE,
            y: self.y + (v.y * k) / SCALE,
            z: self.z + (v.z * k) / SCALE,
        }
    }

    /// Rotates the position about the world X axis by `a` angle units.
    pub fn rotate_ox(&mut self, a: i64)
        requires
            -QUARTER_TURN <= a && a <= QUARTER_TURN,
            -ROT_LIMIT <= old(self).y && old(self).y <= ROT_LIMIT,
            -ROT_LIMIT <= old(self).z && old(self).z <= ROT_LIMIT,
        ensures
            final(self).x == old(self).x,
            final(self).y == rot_u(
                sin_spec(a as int),
                tan_half_spec(a as int),
                old(self).y as int,
                old(self).z as int,
            ),
            final(self).z == rot_v(
                sin_spec(a as int),
                tan_half_spec(a as int),
                old(self).y as int,
                old(self).z as int,
            ),
            -5 * ROT_LIMIT <= final(self).y && final(self).y <= 5 * ROT_LIMIT,
            -5 * ROT_LIMIT <= final(self).z && final(self).z <= 5 * ROT_LIMIT,
    {
        let s = sin_bam(a);
        let t = tan_half_bam(a);
        let (y, z) = rot_apply(s, t, self.y, self.z);
        self.y = y;
        self.z = z;
    }

    /// Rotates the position about the world Z axis by `a` angle units.
    pub fn rotate_oz(&mut self, a: i64)
        requires
            -QUARTER_TURN <= a && a <= QUARTER_TURN,
            -ROT_LIMIT <= old(self).x && old(self).x <= ROT_LIMIT,
            -ROT_LIMIT <= old(self).y && old(self).y <= ROT_LIMIT,
        ensures
            final(self).z == old(self).z,
            final(self).x == rot_u(
                sin_spec(a as int),
                tan_half_spec(a as int),
                old(self).x as int,
                old(self).y as int,
            ),
            final(self).y == rot_v(
                sin_spec(a as int),
                tan_half_spec(a as int),
                old(self).x as int,
                old(self).y as int,
            ),
            -5 * ROT_LIMIT <= final(self).x && final(self).x <= 5 * ROT_LIMIT,
            -5 * ROT_LIMIT <= final(self).y && final(self).y <= 5 * ROT_LIMIT,
    {
        let s = sin_bam(a);
        let t = tan_half_bam(a);
        let (x, y) = rot_apply(s, t, self.x, self.y);
        self.x = x;
        self.y = y;
    }
}

/// A scaled direction component stays within the rotation range.
proof fn lemma_scaled_term_bound(c: int, k: int)
    requires
        -(NORM_LIMIT as int) <= c && c <= NORM_LIMIT as int,
        -(NORM_LIMIT as int) <= k && k <= NORM_LIMIT as int,
    ensures
        -0x1000_0000_0000 <= tdiv(c * k, SCALE as int),
        tdiv(c * k, SCALE as int) <= 0x1000_0000_0000,
{
    let sc = SCALE as int;
    let m = 0x1000_0000_0000int;
    assert(-(m * sc) <= c * k && c * k <= m * sc) by (nonlinear_arith)
        requires
            -0x4000_0000 <= c && c <= 0x4000_0000 && -0x4000_0000 <= k && k <= 0x4000_0000 && m
                == 0x1000_0000_0000 && sc == 0x1_0000;
    lemma_tdiv_abs(c * k, sc, m);
}

/// The fixed-point dot product of two directions.
pub open spec fn dot_spec(a: Vector3, b: Vector3) -> int {
    tdiv(a.x * b.x + a.y * b.y + a.z * b.z, SCALE as int)
}

/// One component of the fixed-point cross product.
pub open spec fn cross_term(p: int, q: int, r: int, s: int) -> int {
    tdiv(p * q - r * s, SCALE as int)
}

/// The norm of a direction: the floor square root of the summed squared
/// components, itself at scale `SCALE`.
pub open spec fn norm_spec(v: Vector3) -> int {
    sqrt_floor(v.x * v.x + v.y * v.y + v.z * v.z)
}

/// The direction scaled to unit length, or zero when its length rounds
/// to zero.
pub open spec fn normalized_spec(v: Vector3) -> Vector3 {
    let l = norm_spec(v);
    if l == 0 {
        Vector3 { x: 0, y: 0, z: 0 }
    } else {
        Vector3 {
            x: tdiv(v.x * SCALE as int, l) as i64,
            y: tdiv(v.y * SCALE as int, l) as i64,
            z: tdiv(v.z * SCALE as int, l) as i64,
        }
    }
}

impl Vector3 {
    pub fn new(x: i64, y: i64, z: i64) -> (r: Self)
        ensures
            r.x == x,
            r.y == y,
            r.z == z,
    {
        Self { x, y, z }
    }

    pub fn zeros() -> (r: Self)
        ensures
            r.x == 0,
            r.y == 0,
            r.z == 0,
    {
        Self { x: 0, y: 0, z: 0 }
    }

    /// Componentwise sum.
    pub fn add(self, rhs: Vector3) -> (r: Vector3)
        requires
            -ROT_LIMIT <= self.x && self.x <= ROT_LIMIT,
            -ROT_LIMIT <= self.y && self.y <= ROT_LIMIT,
            -ROT_LIMIT <= self.z && self.z <= ROT_LIMIT,
            -ROT_LIMIT <= rhs.x && rhs.x <= ROT_LIMIT,
            -ROT_LIMIT <= rhs.y && rhs.y <= ROT_LIMIT,
            -ROT_LIMIT <= rhs.z && rhs.z <= ROT_LIMIT,
        ensures
            r.x == self.x + rhs.x,
            r.y == self.y + rhs.y,
            r.z == self.z + rhs.z,
    {
        Vector3 { x: self.x + rhs.x, y: self.y + rhs.y, z: self.z + rhs.z }
    }

    /// Componentwise difference.
    pub fn sub(self, rhs: Vector3) -> (r: Vector3)
        requires
            -ROT_LIMIT <= self.x && self.x <= ROT_LIMIT,
            -ROT_LIMIT <= self.y && self.y <= ROT_LIMIT,
            -ROT_LIMIT <= self.z && self.z <= ROT_LIMIT,
            -ROT_LIMIT <= rhs.x && rhs.x <= ROT_LIMIT,
            -ROT_LIMIT <= rhs.y && rhs.y <= ROT_LIMIT,
            -ROT_LIMIT <= rhs.z && rhs.z <= ROT_LIMIT,
        ensures
            r.x == self.x - rhs.x,
            r.y == self.y - rhs.y,
            r.z == self.z - rhs.z,
    {
        Vector3 { x: self.x - rhs.x, y: self.y - rhs.y, z: self.z - rhs.z }
    }

    /// The direction scaled by `k`, at scale `SCALE`.
    pub fn scale(self, k: i64) -> (r: Vector3)
        requires
            -NORM_LIMIT <= self.x && self.x <= NORM_LIMIT,
            -NORM_LIMIT <= self.y && self.y <= NORM_LIMIT,
            -NORM_LIMIT <= self.z && self.z <= NORM_LIMIT,
            -NORM_LIMIT <= k && k <= NORM_LIMIT,
        ensures
            r.x == tdiv(self.x * k, SCALE as int),
            r.y == tdiv(self.y * k, SCALE as int),
            r.z == tdiv(self.z * k, SCALE as int),
    {
        proof {
            lemma_scaled_term_bound(self.x as int, k as int);
            lemma_scaled_term_bound(self.y as int, k as int);
            lemma_scaled_term_bound(self.z as int, k as int);
        }
        Vector3 { x: (self.x * k) / SCALE, y: (self.y * k) / SCALE, z: (self.z * k) / SCALE }
    }

    /// The fixed-point dot product.
    pub fn dot(&self, rhs: Vector3) -> (r: i64)
        requires
            -NORM_LIMIT <= self.x && self.x <= NORM_LIMIT,
            -NORM_LIMIT <= self.y && self.y <= NORM_LIMIT,
            -NORM_LIMIT <= self.z && self.z <= NORM_LIMIT,
            -NORM_LIMIT <= rhs.x && rhs.x <= NORM_LIMIT,
            -NORM_LIMIT <= rhs.y && rhs.y <= NORM_LIMIT,
            -NORM_LIMIT <= rhs.z && rhs.z <= NORM_LIMIT,
        ensures
            r == dot_spec(*self, rhs),
    {
        proof {
            lemma_square_bound(self.x as int, rhs.x as int);
            lemma_square_bound(self.y as int, rhs.y as int);
            lemma_square_bound(self.z as int, rhs.z as int);
        }
        (self.x * rhs.x + self.y * rhs.y + self.z * rhs.z) / SCALE
    }

    /// The fixed-point cross product.
    pub fn cross(&self, rhs: Vector3) -> (r: Vector3)
        requires
            -NORM_LIMIT <= self.x && self.x <= NORM_LIMIT,
            -NORM_LIMIT <= self.y && self.y <= NORM_LIMIT,
            -NORM_LIMIT <= self.z && self.z <= NORM_LIMIT,
            -NORM_LIMIT <= rhs.x && rhs.x <= NORM_LIMIT,
            -NORM_LIMIT <= rhs.y && rhs.y <= NORM_LIMIT,
            -NORM_LIMIT <= rhs.z && rhs.z <= NORM_LIMIT,
        ensures
            r.x == cross_term(self.y as int, rhs.z as int, self.z as int, rhs.y as int),
            r.y == cross_term(self.z as int, rhs.x as int, self.x as int, rhs.z as int),
            r.z == cross_term(self.x as int, rhs.y as int, self.y as int, rhs.x as int),
    {
        proof {
            lemma_square_bound(self.y as int, rhs.z as int);
            lemma_square_bound(self.z as int, rhs.y as int);
            lemma_square_bound(self.z as int, rhs.x as int);
            lemma_square_bound(self.x as int, rhs.z as int);
            lemma_square_bound(self.x as int, rhs.y as int);
            lemma_square_bound(self.y as int, rhs.x as int);
        }
        Vector3 {
            x: (self.y * rhs.z - self.z * rhs.y) / SCALE,
            y: (self.z * rhs.x - self.x * rhs.z) / SCALE,
            z: (self.x * rhs.y - self.y * rhs.x) / SCALE,
        }
    }

    /// Scales the direction to unit length; a direction whose length
    /// rounds to zero becomes the zero direction.
    pub fn normalized(&self) -> (r: Vector3)
        requires
            -NORM_LIMIT <= self.x && self.x <= NORM_LIMIT,
            -NORM_LIMIT <= self.y && self.y <= NORM_LIMIT,
            -NORM_LIMIT <= self.z && self.z <= NORM_LIMIT,
        ensures
            r == normalized_spec(*self),
            -SCALE <= r.x && r.x <= SCALE,
            -SCALE <= r.y && r.y <= SCALE,
            -SCALE <= r.z && r.z <= SCALE,
    {
        proof {
            lemma_square_self_bound(self.x as int);
            lemma_square_self_bound(self.y as int);
            lemma_square_self_bound(self.z as int);
        }
        let n2: i64 = self.x * self.x + self.y * self.y + self.z * self.z;
        let l64: u64 = isqrt(n2 as u64);
        proof {
            lemma_sqrt_floor(n2 as int);
            let sf = sqrt_floor(n2 as int);
            assert(sf <= 0x8000_0000) by (nonlinear_arith)
                requires
                    sf >= 0 && sf * sf <= n2 as int && n2 as int <= 0x3000_0000_0000_0000;
        }
        let l: i64 = l64 as i64;
        if l == 0 {
            Vector3 { x: 0, y: 0, z: 0 }
        } else {
            proof {
                lemma_normalized_component(self.x as int, n2 as int);
                lemma_normalized_component(self.y as int, n2 as int);
                lemma_normalized_component(self.z as int, n2 as int);
            }
            Vector3 {
                x: (self.x * SCALE) / l,
                y: (self.y * SCALE) / l,
                z: (self.z * SCALE) / l,
            }
        }
    }
}

/// The pair `(u1, v1)` is the pair `(u0, v0)` rotated by `a` angle
/// units.
pub open spec fn pair_rotated(a: int, u0: int, v0: int, u1: int, v1: int) -> bool {
    u1 == rot_u(sin_spec(a), tan_half_spec(a), u0, v0) && v1 == rot_v(
        sin_spec(a),
        tan_half_spec(a),
        u0,
        v0,
    )
}

/// Rotating a pair by `a` and then by `-a` restores it exactly.
pub proof fn lemma_pair_roundtrip(a: int, u0: int, v0: int, u1: int, v1: int, u2: int, v2: int)
    requires
        -(QUARTER_TURN as int) <= a <= QUARTER_TURN as int,
        pair_rotated(a, u0, v0, u1, v1),
        pair_rotated(-a, u1, v1, u2, v2),
    ensures
        u2 == u0,
        v2 == v0,
{
    lemma_sin_odd_quarter(a);
    lemma_tan_half_quarter(a);
    lemma_rot_roundtrip(sin_spec(a), tan_half_spec(a), u0, v0);
}

/// The point `n` is the point `o` rotated about the world X axis by `a`
/// angle units.
pub open spec fn point_rotated_ox(a: int, o: Point3, n: Point3) -> bool {
    n.x == o.x && pair_rotated(a, o.y as int, o.z as int, n.y as int, n.z as int)
}

/// The point `n` is the point `o` rotated about the world Z axis by `a`
/// angle units.
pub open spec fn point_rotated_oz(a: int, o: Point3, n: Point3) -> bool {
    n.z == o.z && pair_rotated(a, o.x as int, o.y as int, n.x as int, n.y as int)
}

/// Rotating a point by `a` and then by `-a` about the X axis restores it.
pub proof fn lemma_point_roundtrip_ox(a: int, o: Point3, w: Point3, n: Point3)
    requires
        -(QUARTER_TURN as int) <= a <= QUARTER_TURN as int,
        point_rotated_ox(a, o, w),
        point_rotated_ox(-a, w, n),
    ensures
        n == o,
{
    lemma_pair_roundtrip(
        a,
        o.y as int,
        o.z as int,
        w.y as int,
        w.z as int,
        n.y as int,
        n.z as int,
    );
}

/// Rotating a point by `a` and then by `-a` about the Z axis restores it.
pub proof fn lemma_point_roundtrip_oz(a: int, o: Point3, w: Point3, n: Point3)
    requires
        -(QUARTER_TURN as int) <= a <= QUARTER_TURN as int,
        point_rotated_oz(a, o, w),
        point_rotated_oz(-a, w, n),
    ensures
        n == o,
{
    lemma_pair_roundtrip(
        a,
        o.x as int,
        o.y as int,
        w.x as int,
        w.y as int,
        n.x as int,
        n.y as int,
    );
}

/// The fixed-point cross product, as a value.
pub open spec fn cross_spec(a: Vector3, b: Vector3) -> Vector3 {
    Vector3 {
        x: cross_term(a.y as int, b.z as int, a.z as int, b.y as int) as i64,
        y: cross_term(a.z as int, b.x as int, a.x as int, b.z as int) as i64,
        z: cross_term(a.x as int, b.y as int, a.y as int, b.x as int) as i64,
    }
}

impl Vector3 {
    /// Rotates the direction about the world X axis by `a` angle units.
    pub fn rotate_ox(&mut self, a: i64)
        requires
            -QUARTER_TURN <= a && a <= QUARTER_TURN,
            -ROT_LIMIT <= old(self).y && old(self).y <= ROT_LIMIT,
            -ROT_LIMIT <= old(self).z && old(self).z <= ROT_LIMIT,
        ensures
            final(self).x == old(self).x,
            pair_rotated(
                a as int,
                old(self).y as int,
                old(self).z as int,
                final(self).y as int,
                final(self).z as int,
            ),
            -5 * ROT_LIMIT <= final(self).y && final(self).y <= 5 * ROT_LIMIT,
            -5 * ROT_LIMIT <= final(self).z && final(self).z <= 5 * ROT_LIMIT,
    {
        let s = sin_bam(a);
        let t = tan_half_bam(a);
        let (y, z) = rot_apply(s, t, self.y, self.z);
        self.y = y;
        self.z = z;
    }

    /// Rotates the direction about the world Z axis by `a` angle units.
    pub fn rotate_oz(&mut self, a: i64)
        requires
            -QUARTER_TURN <= a && a <= QUARTER_TURN,
            -ROT_LIMIT <= old(self).x && old(self).x <= ROT_LIMIT,
            -ROT_LIMIT <= old(self).y && old(self).y <= ROT_LIMIT,
        ensures
            final(self).z == old(self).z,
            pair_rotated(
                a as int,
                old(self).x as int,
                old(self).y as int,
                final(self).x as int,
                final(self).y as int,
            ),
            -5 * ROT_LIMIT <= final(self).x && final(self).x <= 5 * ROT_LIMIT,
            -5 * ROT_LIMIT <= final(self).y && final(self).y <= 5 * ROT_LIMIT,
    {
        let s = sin_bam(a);
        let t = tan_half_bam(a);
        let (x, y) = rot_apply(s, t, self.x, self.y);
        self.x = x;
        self.y = y;
    }
}

/// Product of two `NORM_LIMIT`-bounded values stays well inside the
/// machine range.
proof fn lemma_square_bound(a: int, b: int)
    requires
        -(NORM_LIMIT as int) <= a && a <= NORM_LIMIT as int,
        -(NORM_LIMIT as int) <= b && b <= NORM_LIMIT as int,
    ensures
        -0x1000_0000_0000_0000 <= a * b,
        a * b <= 0x1000_0000_0000_0000,
{
    assert(-0x1000_0000_0000_0000 <= a * b && a * b <= 0x1000_0000_0000_0000)
        by (nonlinear_arith)
        requires
            -0x4000_0000 <= a && a <= 0x4000_0000 && -0x4000_0000 <= b && b <= 0x4000_0000;
}

/// The square of a `NORM_LIMIT`-bounded value is nonnegative and well
/// inside the machine range.
proof fn lemma_square_self_bound(a: int)
    requires
        -(NORM_LIMIT as int) <= a && a <= NORM_LIMIT as int,
    ensures
        0 <= a * a,
        a * a <= 0x1000_0000_0000_0000,
{
    assert(0 <= a * a && a * a <= 0x1000_0000_0000_0000) by (nonlinear_arith)
        requires
            -0x4000_0000 <= a && a <= 0x4000_0000;
}

/// A component divided by the norm is a unit-bounded fixed-point value.
proof fn lemma_normalized_component(c: int, n2: int)
    requires
        c * c <= n2,
        n2 >= 0,
        sqrt_floor(n2) >= 1,
        sqrt_floor(n2) <= 0x1_0000_0000,
        -(NORM_LIMIT as int) <= c && c <= NORM_LIMIT as int,
    ensures
        -(SCALE as int) <= tdiv(c * SCALE as int, sqrt_floor(n2)),
        tdiv(c * SCALE as int, sqrt_floor(n2)) <= SCALE as int,
        -0x4000_0000_0000_0000 <= c * SCALE as int,
        c * SCALE as int <= 0x4000_0000_0000_0000,
{
    let l = sqrt_floor(n2);
    lemma_sqrt_floor(n2);
    assert(-l <= c && c <= l) by (nonlinear_arith)
        requires
            c * c <= n2 && n2 < (l + 1) * (l + 1) && l >= 0;
    let sc = SCALE as int;
    assert(-(sc * l) <= c * sc && c * sc <= sc * l) by (nonlinear_arith)
        requires
            -l <= c && c <= l && sc > 0;
    assert(sc * l == l * sc && -(sc * l) == (-sc) * l) by (nonlinear_arith);
    crate::fixed::lemma_tdiv_bounds(c * sc, l, -sc, sc);
    assert(-0x4000_0000_0000_0000 <= c * sc && c * sc <= 0x4000_0000_0000_0000)
        by (nonlinear_arith)
        requires
            -0x4000_0000 <= c && c <= 0x4000_0000 && sc == 0x1_0000;
}

} // verus!
