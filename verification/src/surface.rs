//! The bicubic patch: a fixed 4 by 4 control-point grid, evaluated with
//! cubic Bernstein weights and tessellated into a triangle mesh.
//!
//! The surface parameter runs over `[0, BEZ_ONE]`; the four weight
//! numerators are exact integers whose sum is exactly `BEZ_ONE` cubed,
//! so evaluation at a patch corner returns the corner control point
//! exactly, and every evaluated position stays inside the axis-aligned
//! hull of the sixteen control points.

use vstd::prelude::*;
use crate::fixed::{
    tdiv, lemma_tdiv_abs, lemma_tdiv_bounds, lemma_tdiv_exact, SCALE, QUARTER_TURN,
};
use crate::point::{
    Point3, Vector3, normalized_spec, cross_spec, cross_term, point_rotated_ox, point_rotated_oz,
    lemma_point_roundtrip_ox, lemma_point_roundtrip_oz, ROT_LIMIT, NORM_LIMIT,
};
use crate::triangle::{Triangle, Vertex, vertex_in_range};
use crate::mesh::Mesh;

verus! {

/// One unit of the surface parameter.
pub const BEZ_ONE: i64 = 1024;

/// `BEZ_ONE` squared: the derivative weights' denominator.
pub const BEZ_SQ: i64 = 1048576;

/// `BEZ_ONE` cubed: the weight numerators' denominator.
pub const BEZ_CUBE: i64 = 1073741824;

/// Largest control-point coordinate magnitude evaluation accepts.
pub const EVAL_LIMIT: i64 = 0x400_0000;

/// The four cubic Bernstein weight numerators at `t`.
pub open spec fn bw0(t: int) -> int {
    (BEZ_ONE as int - t) * (BEZ_ONE as int - t) * (BEZ_ONE as int - t)
}

pub open spec fn bw1(t: int) -> int {
    3 * t * ((BEZ_ONE as int - t) * (BEZ_ONE as int - t))
}

pub open spec fn bw2(t: int) -> int {
    3 * (t * t) * (BEZ_ONE as int - t)
}

pub open spec fn bw3(t: int) -> int {
    t * t * t
}

/// The four Bernstein derivative numerators at `t`, at denominator
/// `BEZ_SQ`.
pub open spec fn dw0(t: int) -> int {
    -3 * ((BEZ_ONE as int - t) * (BEZ_ONE as int - t))
}

pub open spec fn dw1(t: int) -> int {
    3 * ((BEZ_ONE as int - t) * (BEZ_ONE as int - t)) - 6 * (t * (BEZ_ONE as int - t))
}

pub open spec fn dw2(t: int) -> int {
    6 * (t * (BEZ_ONE as int - t)) - 3 * (t * t)
}

pub open spec fn dw3(t: int) -> int {
    3 * (t * t)
}

/// Four values blended by the Bernstein weights at `t`.
pub open spec fn mix4(a0: int, a1: int, a2: int, a3: int, t: int) -> int {
    tdiv(a0 * bw0(t) + a1 * bw1(t) + a2 * bw2(t) + a3 * bw3(t), BEZ_CUBE as int)
}

/// Four values blended by the Bernstein derivative weights at `t`.
pub open spec fn dmix4(a0: int, a1: int, a2: int, a3: int, t: int) -> int {
    tdiv(a0 * dw0(t) + a1 * dw1(t) + a2 * dw2(t) + a3 * dw3(t), BEZ_SQ as int)
}

/// Partition of unity: the four Bernstein weight numerators sum to
/// exactly one unit cubed, for every parameter value.
pub proof fn lemma_bernstein_partition(t: int)
    ensures
        bw0(t) + bw1(t) + bw2(t) + bw3(t) == BEZ_CUBE as int,
{
    let b = BEZ_ONE as int;
    assert((b - t) * (b - t) * (b - t) + 3 * t * ((b - t) * (b - t)) + 3 * (t * t) * (b - t) + t
        * t * t == b * b * b) by (nonlinear_arith);
}

/// On the parameter range, every weight numerator is nonnegative, hence
/// each stays within one unit cubed.
pub proof fn lemma_bernstein_nonneg(t: int)
    requires
        0 <= t <= BEZ_ONE as int,
    ensures
        0 <= bw0(t) && 0 <= bw1(t) && 0 <= bw2(t) && 0 <= bw3(t),
        bw0(t) <= BEZ_CUBE as int && bw1(t) <= BEZ_CUBE as int && bw2(t) <= BEZ_CUBE as int && bw3(
            t,
        ) <= BEZ_CUBE as int,
{
    let b = BEZ_ONE as int;
    assert(0 <= (b - t) * (b - t) * (b - t) && 0 <= 3 * t * ((b - t) * (b - t)) && 0 <= 3 * (t * t)
        * (b - t) && 0 <= t * t * t) by (nonlinear_arith)
        requires
            0 <= t <= b;
    lemma_bernstein_partition(t);
}

/// A Bernstein blend of bracketed values stays within the bracket: the
/// convex-hull step of the hull property.
pub proof fn lemma_mix4_range(a0: int, a1: int, a2: int, a3: int, t: int, lo: int, hi: int)
    requires
        0 <= t <= BEZ_ONE as int,
        lo <= a0 <= hi,
        lo <= a1 <= hi,
        lo <= a2 <= hi,
        lo <= a3 <= hi,
    ensures
        lo <= mix4(a0, a1, a2, a3, t) <= hi,
{
    lemma_bernstein_partition(t);
    lemma_bernstein_nonneg(t);
    let w0 = bw0(t);
    let w1 = bw1(t);
    let w2 = bw2(t);
    let w3 = bw3(t);
    let c = BEZ_CUBE as int;
    lemma_convex_term(a0, w0, lo, hi);
    lemma_convex_term(a1, w1, lo, hi);
    lemma_convex_term(a2, w2, lo, hi);
    lemma_convex_term(a3, w3, lo, hi);
    assert(lo * w0 + lo * w1 + lo * w2 + lo * w3 == lo * c && hi * w0 + hi * w1 + hi * w2 + hi * w3
        == hi * c) by (nonlinear_arith)
        requires
            w0 + w1 + w2 + w3 == c;
    lemma_tdiv_bounds(a0 * w0 + a1 * w1 + a2 * w2 + a3 * w3, c, lo, hi);
}

/// A nonnegative weight keeps a bracketed value bracketed.
proof fn lemma_convex_term(a: int, w: int, lo: int, hi: int)
    requires
        lo <= a <= hi,
        0 <= w,
    ensures
        lo * w <= a * w <= hi * w,
{
    assert(lo * w <= a * w <= hi * w) by (nonlinear_arith)
        requires
            lo <= a <= hi && 0 <= w;
}

/// At the ends of the parameter range the blend is exactly the first or
/// the last value: the corner-interpolation property.
pub proof fn lemma_mix4_ends(a0: int, a1: int, a2: int, a3: int)
    ensures
        mix4(a0, a1, a2, a3, 0) == a0,
        mix4(a0, a1, a2, a3, BEZ_ONE as int) == a3,
{
    let b = BEZ_ONE as int;
    assert(bw0(0) == BEZ_CUBE as int && bw1(0) == 0 && bw2(0) == 0 && bw3(0) == 0)
        by (nonlinear_arith);
    assert(bw0(b) == 0 && bw1(b) == 0 && bw2(b) == 0 && bw3(b) == BEZ_CUBE as int)
        by (nonlinear_arith)
        requires
            b == 1024;
    assert(a1 * 0 == 0 && a2 * 0 == 0 && a3 * 0 == 0 && a0 * 0 == 0) by (nonlinear_arith);
    lemma_tdiv_exact(a0, BEZ_CUBE as int);
    lemma_tdiv_exact(a3, BEZ_CUBE as int);
}

/// A derivative blend of bounded values stays within six times the
/// bound: the positive parts of the derivative weights total exactly
/// six units squared.
pub proof fn lemma_dmix4_range(a0: int, a1: int, a2: int, a3: int, t: int, m: int)
    requires
        0 <= t <= BEZ_ONE as int,
        0 <= m,
        -m <= a0 <= m,
        -m <= a1 <= m,
        -m <= a2 <= m,
        -m <= a3 <= m,
    ensures
        -6 * m <= dmix4(a0, a1, a2, a3, t) <= 6 * m,
{
    let b = BEZ_ONE as int;
    let e = (b - t) * (b - t);
    let f = t * (b - t);
    let g = t * t;
    let q = BEZ_SQ as int;
    assert(0 <= e && 0 <= f && 0 <= g && e + 2 * f + g == q) by (nonlinear_arith)
        requires
            0 <= t <= b && e == (b - t) * (b - t) && f == t * (b - t) && g == t * t && q == b * b;
    let num = a0 * dw0(t) + a1 * dw1(t) + a2 * dw2(t) + a3 * dw3(t);
    assert(-(3 * (m * e)) <= a0 * (-3 * e) <= 3 * (m * e)) by (nonlinear_arith)
        requires
            -m <= a0 <= m && 0 <= e;
    assert(-(3 * (m * e) + 6 * (m * f)) <= a1 * (3 * e - 6 * f) <= 3 * (m * e) + 6 * (m * f))
        by (nonlinear_arith)
        requires
            -m <= a1 <= m && 0 <= e && 0 <= f;
    assert(-(6 * (m * f) + 3 * (m * g)) <= a2 * (6 * f - 3 * g) <= 6 * (m * f) + 3 * (m * g))
        by (nonlinear_arith)
        requires
            -m <= a2 <= m && 0 <= f && 0 <= g;
    assert(-(3 * (m * g)) <= a3 * (3 * g) <= 3 * (m * g)) by (nonlinear_arith)
        requires
            -m <= a3 <= m && 0 <= g;
    assert(6 * (m * e) + 12 * (m * f) + 6 * (m * g) == (6 * m) * q) by (nonlinear_arith)
        requires
            e + 2 * f + g == q;
    lemma_tdiv_abs(num, q, 6 * m);
}

/// Evaluates the four Bernstein weight numerators.
fn bez_w(t: i64) -> (w: (i64, i64, i64, i64))
    requires
        0 <= t <= BEZ_ONE,
    ensures
        w.0 == bw0(t as int) && w.1 == bw1(t as int) && w.2 == bw2(t as int) && w.3 == bw3(t as int),
        0 <= w.0 <= BEZ_CUBE && 0 <= w.1 <= BEZ_CUBE && 0 <= w.2 <= BEZ_CUBE && 0 <= w.3
            <= BEZ_CUBE,
{
    proof {
        lemma_bernstein_nonneg(t as int);
        let b = BEZ_ONE as int;
        assert(0 <= (b - t) * (b - t) <= 1048576 && 0 <= t * t <= 1048576 && 0 <= t * (b - t)
            <= 1048576) by (nonlinear_arith)
            requires
                0 <= t <= b && b == 1024;
    }
    let c: i64 = BEZ_ONE - t;
    let w0: i64 = c * c * c;
    let w1: i64 = 3 * t * (c * c);
    let w2: i64 = 3 * (t * t) * c;
    let w3: i64 = t * t * t;
    (w0, w1, w2, w3)
}

/// Evaluates the four Bernstein derivative numerators.
fn bez_dw(t: i64) -> (w: (i64, i64, i64, i64))
    requires
        0 <= t <= BEZ_ONE,
    ensures
        w.0 == dw0(t as int) && w.1 == dw1(t as int) && w.2 == dw2(t as int) && w.3 == dw3(t as int),
        -6 * BEZ_SQ <= w.0 <= 6 * BEZ_SQ && -6 * BEZ_SQ <= w.1 <= 6 * BEZ_SQ && -6 * BEZ_SQ <= w.2
            <= 6 * BEZ_SQ && -6 * BEZ_SQ <= w.3 <= 6 * BEZ_SQ,
{
    proof {
        let b = BEZ_ONE as int;
        assert(0 <= (b - t) * (b - t) <= 1048576 && 0 <= t * t <= 1048576 && 0 <= t * (b - t)
            <= 1048576) by (nonlinear_arith)
            requires
                0 <= t <= b && b == 1024;
    }
    let c: i64 = BEZ_ONE - t;
    let w0: i64 = -3 * (c * c);
    let w1: i64 = 3 * (c * c) - 6 * (t * c);
    let w2: i64 = 6 * (t * c) - 3 * (t * t);
    let w3: i64 = 3 * (t * t);
    (w0, w1, w2, w3)
}

/// Blends four values with the Bernstein weights at `t`.
fn mix4e(a0: i64, a1: i64, a2: i64, a3: i64, t: i64) -> (r: i64)
    requires
        0 <= t <= BEZ_ONE,
        -0x8000_0000 <= a0 <= 0x8000_0000,
        -0x8000_0000 <= a1 <= 0x8000_0000,
        -0x8000_0000 <= a2 <= 0x8000_0000,
        -0x8000_0000 <= a3 <= 0x8000_0000,
    ensures
        r == mix4(a0 as int, a1 as int, a2 as int, a3 as int, t as int),
{
    let (w0, w1, w2, w3) = bez_w(t);
    proof {
        lemma_blend_term(a0 as int, w0 as int, 0x8000_0000, BEZ_CUBE as int);
        lemma_blend_term(a1 as int, w1 as int, 0x8000_0000, BEZ_CUBE as int);
        lemma_blend_term(a2 as int, w2 as int, 0x8000_0000, BEZ_CUBE as int);
        lemma_blend_term(a3 as int, w3 as int, 0x8000_0000, BEZ_CUBE as int);
    }
    let s: i128 = (a0 as i128) * (w0 as i128) + (a1 as i128) * (w1 as i128) + (a2 as i128) * (
    w2 as i128) + (a3 as i128) * (w3 as i128);
    proof {
        assert((0x2_0000_0000int) * (BEZ_CUBE as int) == 4 * (0x8000_0000 * (BEZ_CUBE as int)));
        lemma_tdiv_abs(s as int, BEZ_CUBE as int, 0x2_0000_0000);
    }
    let r: i128 = s / (BEZ_CUBE as i128);
    r as i64
}

/// One blend term of bounded inputs stays within the scaled bound.
proof fn lemma_blend_term(a: int, w: int, m: int, c: int)
    requires
        -m <= a <= m,
        -c <= w <= c,
        0 <= m,
        0 <= c,
    ensures
        -(m * c) <= a * w <= m * c,
{
    assert(-(m * c) <= a * w <= m * c) by (nonlinear_arith)
        requires
            -m <= a <= m && -c <= w <= c && 0 <= m && 0 <= c;
}

/// Blends four values with the Bernstein derivative weights at `t`.
fn dmix4e(a0: i64, a1: i64, a2: i64, a3: i64, t: i64) -> (r: i64)
    requires
        0 <= t <= BEZ_ONE,
        -0x8000_0000 <= a0 <= 0x8000_0000,
        -0x8000_0000 <= a1 <= 0x8000_0000,
        -0x8000_0000 <= a2 <= 0x8000_0000,
        -0x8000_0000 <= a3 <= 0x8000_0000,
    ensures
        r == dmix4(a0 as int, a1 as int, a2 as int, a3 as int, t as int),
{
    let (w0, w1, w2, w3) = bez_dw(t);
    proof {
        lemma_blend_term(a0 as int, w0 as int, 0x8000_0000, 6 * BEZ_SQ as int);
        lemma_blend_term(a1 as int, w1 as int, 0x8000_0000, 6 * BEZ_SQ as int);
        lemma_blend_term(a2 as int, w2 as int, 0x8000_0000, 6 * BEZ_SQ as int);
        lemma_blend_term(a3 as int, w3 as int, 0x8000_0000, 6 * BEZ_SQ as int);
    }
    let s: i128 = (a0 as i128) * (w0 as i128) + (a1 as i128) * (w1 as i128) + (a2 as i128) * (
    w2 as i128) + (a3 as i128) * (w3 as i128);
    proof {
        assert((0xC_0000_0000int) * (BEZ_SQ as int) == 4 * (0x8000_0000 * (6 * BEZ_SQ as int)));
        lemma_tdiv_abs(s as int, BEZ_SQ as int, 0xC_0000_0000);
    }
    let r: i128 = s / (BEZ_SQ as i128);
    r as i64
}

/// One coordinate of a point, selected by axis index.
pub open spec fn coord(p: Point3, axis: int) -> int {
    if axis == 0 {
        p.x as int
    } else if axis == 1 {
        p.y as int
    } else {
        p.z as int
    }
}

/// Row `j` of the grid blended along `u` with the Bernstein weights.
pub open spec fn row_mix(pts: Seq<Point3>, j: int, axis: int, u: int) -> int {
    mix4(
        coord(pts[4 * j + 0], axis),
        coord(pts[4 * j + 1], axis),
        coord(pts[4 * j + 2], axis),
        coord(pts[4 * j + 3], axis),
        u,
    )
}

/// Row `j` of the grid blended along `u` with the derivative weights.
pub open spec fn row_dmix(pts: Seq<Point3>, j: int, axis: int, u: int) -> int {
    dmix4(
        coord(pts[4 * j + 0], axis),
        coord(pts[4 * j + 1], axis),
        coord(pts[4 * j + 2], axis),
        coord(pts[4 * j + 3], axis),
        u,
    )
}

/// One coordinate of the evaluated surface position at `(u, v)`.
pub open spec fn eval_pos(pts: Seq<Point3>, axis: int, u: int, v: int) -> int {
    mix4(
        row_mix(pts, 0, axis, u),
        row_mix(pts, 1, axis, u),
        row_mix(pts, 2, axis, u),
        row_mix(pts, 3, axis, u),
        v,
    )
}

/// One coordinate of the tangent along `u` at `(u, v)`.
pub open spec fn eval_tu(pts: Seq<Point3>, axis: int, u: int, v: int) -> int {
    mix4(
        row_dmix(pts, 0, axis, u),
        row_dmix(pts, 1, axis, u),
        row_dmix(pts, 2, axis, u),
        row_dmix(pts, 3, axis, u),
        v,
    )
}

/// One coordinate of the tangent along `v` at `(u, v)`.
pub open spec fn eval_tv(pts: Seq<Point3>, axis: int, u: int, v: int) -> int {
    dmix4(
        row_mix(pts, 0, axis, u),
        row_mix(pts, 1, axis, u),
        row_mix(pts, 2, axis, u),
        row_mix(pts, 3, axis, u),
        v,
    )
}

/// The full evaluated vertex at `(u, v)`: position, unit tangents, the
/// unit normal of their cross product, and the texture coordinates
/// rescaled to `SCALE`.
///
/// The tangents are stored unit length rather than as the raw derivative
/// sums: their direction is what the shading basis and the cross product
/// read, and the unit bound is what keeps every later interpolation and
/// rotation inside the fixed-point range.  The shading renormalizes the
/// interpolated tangents again before use either way.
pub open spec fn eval_vertex(pts: Seq<Point3>, u: int, v: int) -> Vertex {
    let pos = Point3 {
        x: eval_pos(pts, 0, u, v) as i64,
        y: eval_pos(pts, 1, u, v) as i64,
        z: eval_pos(pts, 2, u, v) as i64,
    };
    let pu = normalized_spec(
        Vector3 {
            x: eval_tu(pts, 0, u, v) as i64,
            y: eval_tu(pts, 1, u, v) as i64,
            z: eval_tu(pts, 2, u, v) as i64,
        },
    );
    let pv = normalized_spec(
        Vector3 {
            x: eval_tv(pts, 0, u, v) as i64,
            y: eval_tv(pts, 1, u, v) as i64,
            z: eval_tv(pts, 2, u, v) as i64,
        },
    );
    let n = normalized_spec(cross_spec(pu, pv));
    Vertex { pos, normal: n, pu, pv, u: (64 * u) as i64, v: (64 * v) as i64 }
}

/// The 4 by 4 control-point grid, row-major.
#[derive(Debug)]
pub struct BezierSurface {
    pub pts: Vec<Point3>,
}

/// All control-point coordinates within `m`.
pub open spec fn points_in_range(pts: Seq<Point3>, m: int) -> bool {
    forall|i: int|
        0 <= i < pts.len() ==> -m <= #[trigger] pts[i].x <= m && -m <= pts[i].y <= m && -m
            <= pts[i].z <= m
}

impl BezierSurface {
    /// Exactly sixteen control points.
    pub open spec fn wf(&self) -> bool {
        self.pts@.len() == 16
    }

    /// Builds the surface from its sixteen control points, row-major;
    /// any other count is rejected.
    pub fn from_points(pts: Vec<Point3>) -> (r: Option<BezierSurface>)
        ensures
            match r {
                Some(s) => s.wf() && s.pts@ == pts@,
                None => pts@.len() != 16,
            },
    {
        if pts.len() == 16 {
            Some(BezierSurface { pts })
        } else {
            None
        }
    }

    /// Whether every control-point coordinate lies within `m`.
    pub fn coords_within(&self, m: i64) -> (r: bool)
        requires
            m >= 0,
        ensures
            r <==> points_in_range(self.pts@, m as int),
    {
        let n = self.pts.len();
        let mut k: usize = 0;
        while k < n
            invariant
                k <= n,
                n == self.pts@.len(),
                m >= 0,
                forall|i: int|
                    0 <= i < k ==> -m <= #[trigger] self.pts@[i].x <= m && -m <= self.pts@[i].y
                        <= m && -m <= self.pts@[i].z <= m,
            decreases n - k,
        {
            let p = &self.pts[k];
            if !(-m <= p.x && p.x <= m && -m <= p.y && p.y <= m && -m <= p.z && p.z <= m) {
                return false;
            }
            k = k + 1;
        }
        true
    }

    /// Rotates every control point about the world X axis.
    pub fn rotate_ox(&mut self, a: i64)
        requires
            -QUARTER_TURN <= a && a <= QUARTER_TURN,
            points_in_range(old(self).pts@, ROT_LIMIT as int),
        ensures
            final(self).pts@.len() == old(self).pts@.len(),
            forall|i: int|
                0 <= i < old(self).pts@.len() ==> point_rotated_ox(
                    a as int,
                    old(self).pts@[i],
                    #[trigger] final(self).pts@[i],
                ),
            points_in_range(final(self).pts@, 5 * ROT_LIMIT as int),
    {
        let n = self.pts.len();
        let mut k: usize = 0;
        while k < n
            invariant
                k <= n,
                n == self.pts@.len(),
                self.pts@.len() == old(self).pts@.len(),
                -QUARTER_TURN <= a && a <= QUARTER_TURN,
                points_in_range(old(self).pts@, ROT_LIMIT as int),
                forall|i: int| k <= i < n ==> self.pts@[i] == old(self).pts@[i],
                forall|i: int|
                    0 <= i < k ==> point_rotated_ox(
                        a as int,
                        old(self).pts@[i],
                        #[trigger] self.pts@[i],
                    ),
                forall|i: int|
                    0 <= i < k ==> -5 * ROT_LIMIT <= #[trigger] self.pts@[i].x <= 5 * ROT_LIMIT
                        && -5 * ROT_LIMIT <= self.pts@[i].y <= 5 * ROT_LIMIT && -5 * ROT_LIMIT
                        <= self.pts@[i].z <= 5 * ROT_LIMIT,
            decreases n - k,
        {
            proof {
                assert(-ROT_LIMIT <= old(self).pts@[k as int].x <= ROT_LIMIT);
            }
            let mut p = self.pts[k];
            p.rotate_ox(a);
            self.pts[k] = p;
            k = k + 1;
        }
    }

    /// Rotates every control point about the world Z axis.
    pub fn rotate_oz(&mut self, a: i64)
        requires
            -QUARTER_TURN <= a && a <= QUARTER_TURN,
            points_in_range(old(self).pts@, ROT_LIMIT as int),
        ensures
            final(self).pts@.len() == old(self).pts@.len(),
            forall|i: int|
                0 <= i < old(self).pts@.len() ==> point_rotated_oz(
                    a as int,
                    old(self).pts@[i],
                    #[trigger] final(self).pts@[i],
                ),
            points_in_range(final(self).pts@, 5 * ROT_LIMIT as int),
    {
        let n = self.pts.len();
        let mut k: usize = 0;
        while k < n
            invariant
                k <= n,
                n == self.pts@.len(),
                self.pts@.len() == old(self).pts@.len(),
                -QUARTER_TURN <= a && a <= QUARTER_TURN,
                points_in_range(old(self).pts@, ROT_LIMIT as int),
                forall|i: int| k <= i < n ==> self.pts@[i] == old(self).pts@[i],
                forall|i: int|
                    0 <= i < k ==> point_rotated_oz(
                        a as int,
                        old(self).pts@[i],
                        #[trigger] self.pts@[i],
                    ),
                forall|i: int|
                    0 <= i < k ==> -5 * ROT_LIMIT <= #[trigger] self.pts@[i].x <= 5 * ROT_LIMIT
                        && -5 * ROT_LIMIT <= self.pts@[i].y <= 5 * ROT_LIMIT && -5 * ROT_LIMIT
                        <= self.pts@[i].z <= 5 * ROT_LIMIT,
            decreases n - k,
        {
            proof {
                assert(-ROT_LIMIT <= old(self).pts@[k as int].x <= ROT_LIMIT);
            }
            let mut p = self.pts[k];
            p.rotate_oz(a);
            self.pts[k] = p;
            k = k + 1;
        }
    }

    /// Evaluates the surface at `(u, v)`, both in `[0, BEZ_ONE]`.
    pub fn evaluate(&self, u: i64, v: i64) -> (r: Vertex)
        requires
            self.wf(),
            points_in_range(self.pts@, EVAL_LIMIT as int),
            0 <= u <= BEZ_ONE,
            0 <= v <= BEZ_ONE,
        ensures
            r == eval_vertex(self.pts@, u as int, v as int),
            vertex_in_range(r, EVAL_LIMIT as int),
            0 <= r.u <= SCALE,
            0 <= r.v <= SCALE,
    {
        let px = self.eval_scalar(0, u, v, false, false);
        let py = self.eval_scalar(1, u, v, false, false);
        let pz = self.eval_scalar(2, u, v, false, false);
        let tux = self.eval_scalar(0, u, v, true, false);
        let tuy = self.eval_scalar(1, u, v, true, false);
        let tuz = self.eval_scalar(2, u, v, true, false);
        let tvx = self.eval_scalar(0, u, v, false, true);
        let tvy = self.eval_scalar(1, u, v, false, true);
        let tvz = self.eval_scalar(2, u, v, false, true);
        let tu = Vector3::new(tux, tuy, tuz);
        let tv = Vector3::new(tvx, tvy, tvz);
        let pun = tu.normalized();
        let pvn = tv.normalized();
        let cr = pun.cross(pvn);
        proof {
            lemma_cross_component_bound(pun, pvn);
        }
        let n = cr.normalized();
        let us: i64 = 64 * u;
        let vs: i64 = 64 * v;
        Vertex::new(Point3::new(px, py, pz), n, pun, pvn, us, vs)
    }

    /// One scalar of the evaluation: a position coordinate, or a
    /// coordinate of the tangent along `u` or along `v`.
    fn eval_scalar(&self, axis: u8, u: i64, v: i64, du: bool, dv: bool) -> (r: i64)
        requires
            self.wf(),
            points_in_range(self.pts@, EVAL_LIMIT as int),
            axis <= 2,
            0 <= u <= BEZ_ONE,
            0 <= v <= BEZ_ONE,
            !(du && dv),
        ensures
            !du && !dv ==> r == eval_pos(self.pts@, axis as int, u as int, v as int) && -EVAL_LIMIT
                <= r <= EVAL_LIMIT,
            du ==> r == eval_tu(self.pts@, axis as int, u as int, v as int) && -6 * EVAL_LIMIT <= r
                <= 6 * EVAL_LIMIT,
            dv ==> r == eval_tv(self.pts@, axis as int, u as int, v as int) && -6 * EVAL_LIMIT <= r
                <= 6 * EVAL_LIMIT,
    {
        let r0 = self.row_scalar(0, axis, u, du);
        let r1 = self.row_scalar(4, axis, u, du);
        let r2 = self.row_scalar(8, axis, u, du);
        let r3 = self.row_scalar(12, axis, u, du);
        proof {
            if dv {
                lemma_dmix4_range(
                    r0 as int,
                    r1 as int,
                    r2 as int,
                    r3 as int,
                    v as int,
                    EVAL_LIMIT as int,
                );
            } else if du {
                lemma_mix4_range(
                    r0 as int,
                    r1 as int,
                    r2 as int,
                    r3 as int,
                    v as int,
                    -6 * EVAL_LIMIT as int,
                    6 * EVAL_LIMIT as int,
                );
            } else {
                lemma_mix4_range(
                    r0 as int,
                    r1 as int,
                    r2 as int,
                    r3 as int,
                    v as int,
                    -(EVAL_LIMIT as int),
                    EVAL_LIMIT as int,
                );
            }
        }
        if dv {
            dmix4e(r0, r1, r2, r3, v)
        } else {
            mix4e(r0, r1, r2, r3, v)
        }
    }

    /// One row of the grid blended along `u`, plainly or by derivative.
    fn row_scalar(&self, base: usize, axis: u8, u: i64, du: bool) -> (r: i64)
        requires
            self.wf(),
            points_in_range(self.pts@, EVAL_LIMIT as int),
            base == 0 || base == 4 || base == 8 || base == 12,
            axis <= 2,
            0 <= u <= BEZ_ONE,
        ensures
            !du ==> r == row_mix(self.pts@, base as int / 4, axis as int, u as int) && -EVAL_LIMIT
                <= r <= EVAL_LIMIT,
            du ==> r == row_dmix(self.pts@, base as int / 4, axis as int, u as int) && -6
                * EVAL_LIMIT <= r <= 6 * EVAL_LIMIT,
    {
        proof {
            assert(-EVAL_LIMIT <= self.pts@[base as int].x <= EVAL_LIMIT);
            assert(-EVAL_LIMIT <= self.pts@[base as int + 1].x <= EVAL_LIMIT);
            assert(-EVAL_LIMIT <= self.pts@[base as int + 2].x <= EVAL_LIMIT);
            assert(-EVAL_LIMIT <= self.pts@[base as int + 3].x <= EVAL_LIMIT);
        }
        let a0 = coord_e(&self.pts[base], axis);
        let a1 = coord_e(&self.pts[base + 1], axis);
        let a2 = coord_e(&self.pts[base + 2], axis);
        let a3 = coord_e(&self.pts[base + 3], axis);
        proof {
            if du {
                lemma_dmix4_range(
                    a0 as int,
                    a1 as int,
                    a2 as int,
                    a3 as int,
                    u as int,
                    EVAL_LIMIT as int,
                );
            } else {
                lemma_mix4_range(
                    a0 as int,
                    a1 as int,
                    a2 as int,
                    a3 as int,
                    u as int,
                    -(EVAL_LIMIT as int),
                    EVAL_LIMIT as int,
                );
            }
        }
        if du {
            dmix4e(a0, a1, a2, a3, u)
        } else {
            mix4e(a0, a1, a2, a3, u)
        }
    }
}

/// The grid parameter of sample `k` out of `n` steps: `k / n` of a
/// parameter unit, exact at both ends.
pub open spec fn grid_t(k: int, n: int) -> int {
    tdiv(k * BEZ_ONE as int, n)
}

/// The triangle a tessellation at `resolution` puts at index `i`: the
/// cell `i / 2` split along its fixed diagonal, the even triangle on one
/// side, the odd one on the other.
pub open spec fn tri_at(pts: Seq<Point3>, resolution: int, i: int) -> Triangle {
    let n = resolution - 1;
    let c = i / 2;
    let y = c / n;
    let x = c % n;
    let p00 = eval_vertex(pts, grid_t(x, n), grid_t(y, n));
    let p10 = eval_vertex(pts, grid_t(x + 1, n), grid_t(y, n));
    let p01 = eval_vertex(pts, grid_t(x, n), grid_t(y + 1, n));
    let p11 = eval_vertex(pts, grid_t(x + 1, n), grid_t(y + 1, n));
    if i % 2 == 0 {
        Triangle { p0: p00, p1: p10, p2: p11 }
    } else {
        Triangle { p0: p00, p1: p11, p2: p01 }
    }
}

impl BezierSurface {
    /// Tessellates the patch on a `resolution` by `resolution` sample
    /// grid: every cell yields two triangles along a fixed diagonal,
    /// `2 (resolution - 1)^2` triangles in all.  Resolutions past 1025
    /// are rejected by precondition: the parameter grid has 1024 ticks,
    /// so a finer sampling could not name distinct parameters.
    pub fn triangulate(&self, resolution: usize) -> (m: Mesh)
        requires
            self.wf(),
            points_in_range(self.pts@, EVAL_LIMIT as int),
            2 <= resolution <= 1025,
        ensures
            m.wf(),
            m.resolution == resolution,
            m.triangles@.len() == 2 * (resolution - 1) * (resolution - 1),
            forall|i: int|
                0 <= i < m.triangles@.len() ==> #[trigger] m.triangles@[i] == tri_at(
                    self.pts@,
                    resolution as int,
                    i,
                ),
    {
        let n: usize = resolution - 1;
        let mut triangles: Vec<Triangle> = Vec::new();
        let mut y: usize = 0;
        proof {
            assert(2 * ((resolution - 1) * (resolution - 1)) == 2 * (resolution - 1) * (resolution
                - 1)) by (nonlinear_arith);
        }
        while y < n
            invariant
                y <= n,
                1 <= n <= 1024,
                n == resolution - 1,
                self.wf(),
                points_in_range(self.pts@, EVAL_LIMIT as int),
                triangles@.len() == 2 * (y * n),
                forall|i: int|
                    0 <= i < triangles@.len() ==> #[trigger] triangles@[i] == tri_at(
                        self.pts@,
                        resolution as int,
                        i,
                    ),
            decreases n - y,
        {
            let mut x: usize = 0;
            proof {
                assert(y * n + n <= n * n && n * n <= 1024 * 1024) by (nonlinear_arith)
                    requires
                        y < n <= 1024;
            }
            while x < n
                invariant
                    x <= n,
                    y < n,
                    1 <= n <= 1024,
                    n == resolution - 1,
                    y * n + n <= 1024 * 1024,
                    self.wf(),
                    points_in_range(self.pts@, EVAL_LIMIT as int),
                    triangles@.len() == 2 * (y * n + x),
                    forall|i: int|
                        0 <= i < triangles@.len() ==> #[trigger] triangles@[i] == tri_at(
                            self.pts@,
                            resolution as int,
                            i,
                        ),
                decreases n - x,
            {
                let u0 = grid_e(x, n);
                let u1 = grid_e(x + 1, n);
                let v0 = grid_e(y, n);
                let v1 = grid_e(y + 1, n);
                let p00 = self.evaluate(u0, v0);
                let p10 = self.evaluate(u1, v0);
                let p01 = self.evaluate(u0, v1);
                let p11 = self.evaluate(u1, v1);
                let c: usize = y * n + x;
                proof {
                    vstd::arithmetic::div_mod::lemma_fundamental_div_mod_converse(
                        c as int,
                        n as int,
                        y as int,
                        x as int,
                    );
                    vstd::arithmetic::div_mod::lemma_fundamental_div_mod_converse(
                        2 * c,
                        2,
                        c as int,
                        0,
                    );
                    vstd::arithmetic::div_mod::lemma_fundamental_div_mod_converse(
                        2 * c + 1,
                        2,
                        c as int,
                        1,
                    );
                }
                triangles.push(Triangle::new(p00, p10, p11));
                triangles.push(Triangle::new(p00, p11, p01));
                x = x + 1;
            }
            proof {
                assert(2 * (y * n + n) == 2 * ((y + 1) * n)) by (nonlinear_arith);
            }
            y = y + 1;
        }
        proof {
            assert(2 * (n * n) == 2 * (resolution - 1) * (resolution - 1)) by (nonlinear_arith)
                requires
                    n == resolution - 1;
        }
        Mesh::new(triangles, resolution)
    }
}

/// The grid parameter of sample `k` out of `n`.
fn grid_e(k: usize, n: usize) -> (t: i64)
    requires
        1 <= n <= 1024,
        k <= n,
    ensures
        t == grid_t(k as int, n as int),
        0 <= t <= BEZ_ONE,
{
    proof {
        assert(0 * (n as int) <= k as int * (BEZ_ONE as int) && k as int * (BEZ_ONE as int)
            <= BEZ_ONE as int * (n as int)) by (nonlinear_arith)
            requires
                0 <= k as int <= n as int && 0 < BEZ_ONE as int;
        lemma_tdiv_bounds(k as int * (BEZ_ONE as int), n as int, 0, BEZ_ONE as int);
    }
    ((k as i64) * BEZ_ONE) / (n as i64)
}

/// Rotating every control point by `a` and then by `-a` about the X
/// axis restores the whole grid exactly.
pub proof fn lemma_surface_roundtrip_ox(a: int, s0: Seq<Point3>, s1: Seq<Point3>, s2: Seq<Point3>)
    requires
        -(QUARTER_TURN as int) <= a <= QUARTER_TURN as int,
        s0.len() == s1.len() == s2.len(),
        forall|i: int| 0 <= i < s0.len() ==> point_rotated_ox(a, s0[i], #[trigger] s1[i]),
        forall|i: int| 0 <= i < s1.len() ==> point_rotated_ox(-a, s1[i], #[trigger] s2[i]),
    ensures
        s2 == s0,
{
    assert forall|i: int| 0 <= i < s0.len() implies s2[i] == #[trigger] s0[i] by {
        lemma_point_roundtrip_ox(a, s0[i], s1[i], s2[i]);
    }
    assert(s2 =~= s0);
}

/// Rotating every control point by `a` and then by `-a` about the Z
/// axis restores the whole grid exactly.
pub proof fn lemma_surface_roundtrip_oz(a: int, s0: Seq<Point3>, s1: Seq<Point3>, s2: Seq<Point3>)
    requires
        -(QUARTER_TURN as int) <= a <= QUARTER_TURN as int,
        s0.len() == s1.len() == s2.len(),
        forall|i: int| 0 <= i < s0.len() ==> point_rotated_oz(a, s0[i], #[trigger] s1[i]),
        forall|i: int| 0 <= i < s1.len() ==> point_rotated_oz(-a, s1[i], #[trigger] s2[i]),
    ensures
        s2 == s0,
{
    assert forall|i: int| 0 <= i < s0.len() implies s2[i] == #[trigger] s0[i] by {
        lemma_point_roundtrip_oz(a, s0[i], s1[i], s2[i]);
    }
    assert(s2 =~= s0);
}

/// Corner interpolation: evaluation at the patch corners returns the
/// corner control points exactly.
pub proof fn lemma_eval_corners(pts: Seq<Point3>)
    requires
        pts.len() == 16,
    ensures
        eval_vertex(pts, 0, 0).pos == pts[0],
        eval_vertex(pts, BEZ_ONE as int, BEZ_ONE as int).pos == pts[15],
{
    lemma_eval_corner_axis(pts, 0);
    lemma_eval_corner_axis(pts, 1);
    lemma_eval_corner_axis(pts, 2);
}

/// One axis of the corner-interpolation property.
proof fn lemma_eval_corner_axis(pts: Seq<Point3>, axis: int)
    requires
        pts.len() == 16,
    ensures
        eval_pos(pts, axis, 0, 0) == coord(pts[0], axis),
        eval_pos(pts, axis, BEZ_ONE as int, BEZ_ONE as int) == coord(pts[15], axis),
{
    let b = BEZ_ONE as int;
    lemma_mix4_ends(
        coord(pts[0], axis),
        coord(pts[1], axis),
        coord(pts[2], axis),
        coord(pts[3], axis),
    );
    lemma_mix4_ends(
        coord(pts[12], axis),
        coord(pts[13], axis),
        coord(pts[14], axis),
        coord(pts[15], axis),
    );
    lemma_mix4_ends(
        row_mix(pts, 0, axis, 0),
        row_mix(pts, 1, axis, 0),
        row_mix(pts, 2, axis, 0),
        row_mix(pts, 3, axis, 0),
    );
    lemma_mix4_ends(
        row_mix(pts, 0, axis, b),
        row_mix(pts, 1, axis, b),
        row_mix(pts, 2, axis, b),
        row_mix(pts, 3, axis, b),
    );
}

/// Convex hull, axis by axis: with every control-point coordinate on
/// `axis` inside `[lo, hi]`, every evaluated position coordinate on that
/// axis stays inside `[lo, hi]`.  Holding all three axes at once bounds
/// evaluation by the points' axis-aligned hull, the box the convex hull
/// inscribes.
pub proof fn lemma_eval_in_hull(pts: Seq<Point3>, axis: int, u: int, v: int, lo: int, hi: int)
    requires
        pts.len() == 16,
        0 <= u <= BEZ_ONE as int,
        0 <= v <= BEZ_ONE as int,
        forall|i: int| 0 <= i < 16 ==> lo <= #[trigger] coord(pts[i], axis) <= hi,
    ensures
        lo <= eval_pos(pts, axis, u, v) <= hi,
{
    lemma_row_in_hull(pts, 0, axis, u, lo, hi);
    lemma_row_in_hull(pts, 1, axis, u, lo, hi);
    lemma_row_in_hull(pts, 2, axis, u, lo, hi);
    lemma_row_in_hull(pts, 3, axis, u, lo, hi);
    lemma_mix4_range(
        row_mix(pts, 0, axis, u),
        row_mix(pts, 1, axis, u),
        row_mix(pts, 2, axis, u),
        row_mix(pts, 3, axis, u),
        v,
        lo,
        hi,
    );
}

/// Convex hull, at the mesh: every vertex position of a tessellation
/// triangle stays inside the axis-aligned bracket of the sixteen
/// control points.
pub proof fn lemma_tessellation_in_hull(
    pts: Seq<Point3>,
    resolution: int,
    i: int,
    axis: int,
    lo: int,
    hi: int,
)
    requires
        pts.len() == 16,
        0 <= axis <= 2,
        2 <= resolution <= 1025,
        0 <= i < 2 * (resolution - 1) * (resolution - 1),
        -0x4000_0000_0000_0000 <= lo,
        hi <= 0x4000_0000_0000_0000,
        forall|k: int| 0 <= k < 16 ==> lo <= #[trigger] coord(pts[k], axis) <= hi,
    ensures
        lo <= coord(tri_at(pts, resolution, i).p0.pos, axis) <= hi,
        lo <= coord(tri_at(pts, resolution, i).p1.pos, axis) <= hi,
        lo <= coord(tri_at(pts, resolution, i).p2.pos, axis) <= hi,
{
    let n = resolution - 1;
    let c = i / 2;
    let y = c / n;
    let x = c % n;
    assert(2 * (resolution - 1) * (resolution - 1) == 2 * (n * n)) by (nonlinear_arith)
        requires
            n == resolution - 1;
    vstd::arithmetic::div_mod::lemma_div_pos_is_pos(i, 2);
    vstd::arithmetic::div_mod::lemma_div_is_ordered(i, 2 * (n * n) - 1, 2);
    assert(2 * (n * n) - 1 == (n * n - 1) * 2 + 1) by (nonlinear_arith);
    vstd::arithmetic::div_mod::lemma_fundamental_div_mod_converse(
        2 * (n * n) - 1,
        2,
        n * n - 1,
        1,
    );
    assert(0 <= c <= n * n - 1);
    vstd::arithmetic::div_mod::lemma_div_pos_is_pos(c, n);
    vstd::arithmetic::div_mod::lemma_div_is_ordered(c, n * n - 1, n);
    assert(n * n - 1 == (n - 1) * n + (n - 1)) by (nonlinear_arith);
    vstd::arithmetic::div_mod::lemma_fundamental_div_mod_converse(
        n * n - 1,
        n,
        n - 1,
        n - 1,
    );
    assert(0 <= y <= n - 1);
    vstd::arithmetic::div_mod::lemma_mod_division_less_than_divisor(c, n);
    assert(0 <= x <= n - 1);
    lemma_grid_range(x, n);
    lemma_grid_range(x + 1, n);
    lemma_grid_range(y, n);
    lemma_grid_range(y + 1, n);
    lemma_eval_in_hull(pts, axis, grid_t(x, n), grid_t(y, n), lo, hi);
    lemma_eval_in_hull(pts, axis, grid_t(x + 1, n), grid_t(y, n), lo, hi);
    lemma_eval_in_hull(pts, axis, grid_t(x, n), grid_t(y + 1, n), lo, hi);
    lemma_eval_in_hull(pts, axis, grid_t(x + 1, n), grid_t(y + 1, n), lo, hi);
}

/// A grid parameter stays on the parameter range.
proof fn lemma_grid_range(k: int, n: int)
    requires
        0 <= k <= n,
        1 <= n,
    ensures
        0 <= grid_t(k, n) <= BEZ_ONE as int,
{
    assert(0 * n <= k * (BEZ_ONE as int) && k * (BEZ_ONE as int) <= BEZ_ONE as int * n)
        by (nonlinear_arith)
        requires
            0 <= k <= n && 0 < BEZ_ONE as int;
    lemma_tdiv_bounds(k * (BEZ_ONE as int), n, 0, BEZ_ONE as int);
}

/// One row's blend stays inside the rows' coordinate bracket.
proof fn lemma_row_in_hull(pts: Seq<Point3>, j: int, axis: int, u: int, lo: int, hi: int)
    requires
        pts.len() == 16,
        0 <= j < 4,
        0 <= u <= BEZ_ONE as int,
        forall|i: int| 0 <= i < 16 ==> lo <= #[trigger] coord(pts[i], axis) <= hi,
    ensures
        lo <= row_mix(pts, j, axis, u) <= hi,
{
    assert(lo <= coord(pts[4 * j + 0], axis) <= hi);
    assert(lo <= coord(pts[4 * j + 1], axis) <= hi);
    assert(lo <= coord(pts[4 * j + 2], axis) <= hi);
    assert(lo <= coord(pts[4 * j + 3], axis) <= hi);
    lemma_mix4_range(
        coord(pts[4 * j + 0], axis),
        coord(pts[4 * j + 1], axis),
        coord(pts[4 * j + 2], axis),
        coord(pts[4 * j + 3], axis),
        u,
        lo,
        hi,
    );
}

/// One coordinate of a point, selected by axis index.
fn coord_e(p: &Point3, axis: u8) -> (r: i64)
    requires
        axis <= 2,
    ensures
        r == coord(*p, axis as int),
{
    if axis == 0 {
        p.x
    } else if axis == 1 {
        p.y
    } else {
        p.z
    }
}

/// Components of the cross product of unit-bounded directions stay
/// within the range `normalized` accepts.
proof fn lemma_cross_component_bound(a: Vector3, b: Vector3)
    requires
        -(SCALE as int) <= a.x <= SCALE as int,
        -(SCALE as int) <= a.y <= SCALE as int,
        -(SCALE as int) <= a.z <= SCALE as int,
        -(SCALE as int) <= b.x <= SCALE as int,
        -(SCALE as int) <= b.y <= SCALE as int,
        -(SCALE as int) <= b.z <= SCALE as int,
    ensures
        -(NORM_LIMIT as int) <= cross_term(a.y as int, b.z as int, a.z as int, b.y as int) <= NORM_LIMIT as int,
        -(NORM_LIMIT as int) <= cross_term(a.z as int, b.x as int, a.x as int, b.z as int) <= NORM_LIMIT as int,
        -(NORM_LIMIT as int) <= cross_term(a.x as int, b.y as int, a.y as int, b.x as int) <= NORM_LIMIT as int,
{
    lemma_cross_term_bound(a.y as int, b.z as int, a.z as int, b.y as int);
    lemma_cross_term_bound(a.z as int, b.x as int, a.x as int, b.z as int);
    lemma_cross_term_bound(a.x as int, b.y as int, a.y as int, b.x as int);
}

proof fn lemma_cross_term_bound(p: int, q: int, r: int, s: int)
    requires
        -(SCALE as int) <= p <= SCALE as int,
        -(SCALE as int) <= q <= SCALE as int,
        -(SCALE as int) <= r <= SCALE as int,
        -(SCALE as int) <= s <= SCALE as int,
    ensures
        -(NORM_LIMIT as int) <= cross_term(p, q, r, s) <= NORM_LIMIT as int,
{
    let sc = SCALE as int;
    assert(-((2 * sc) * sc) <= p * q - r * s && p * q - r * s <= (2 * sc) * sc)
        by (nonlinear_arith)
        requires
            -sc <= p <= sc && -sc <= q <= sc && -sc <= r <= sc && -sc <= s <= sc;
    lemma_tdiv_abs(p * q - r * s, sc, 2 * sc);
}

} // verus!
