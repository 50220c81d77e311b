//! Triangles of the tessellated surface: three vertices by copy, each
//! carrying position, normal, the two tangents and texture coordinates.

use vstd::prelude::*;
use crate::fixed::{
    tdiv, tdiv2, clamp_spec, clamp_i64, powf, pow_fixed, floor_fix, ceil_fix, floor_fix_e,
    ceil_fix_e, lemma_tdiv_abs, lemma_tdiv2_abs, SCALE, QUARTER_TURN,
};
use crate::point::{
    Point3, Vector3, pair_rotated, lemma_pair_roundtrip, dot_spec, normalized_spec, ROT_LIMIT,
};
use crate::canvas::{Canvas, evolves, lemma_evolves_trans, lemma_evolves_refl};
use crate::light::Light;
use crate::material::{Material, color_at_spec, normal_at_spec};

verus! {

/// Largest coordinate magnitude a triangle may carry into the
/// rasterizer.
pub const RENDER_LIMIT: i64 = 0x400_0000;

/// A vertical screen extent under this is treated as a degenerate,
/// near-horizontal triangle.
pub const FLAT_EPS: i64 = 655;

/// An edge rise under this is treated as horizontal and spans no
/// scanline.
pub const EDGE_EPS: i64 = 7;

/// One corner of a triangle, with everything the shading interpolates.
#[derive(Clone, Copy, Debug, PartialEq, Eq, Structural)]
pub struct Vertex {
    pub pos: Point3,
    pub normal: Vector3,
    pub pu: Vector3,
    pub pv: Vector3,
    pub u: i64,
    pub v: i64,
}

/// All coordinates the vertex carries within `m`.
pub open spec fn vertex_in_range(v: Vertex, m: int) -> bool {
    &&& -m <= v.pos.x <= m && -m <= v.pos.y <= m && -m <= v.pos.z <= m
    &&& -m <= v.normal.x <= m && -m <= v.normal.y <= m && -m <= v.normal.z <= m
    &&& -m <= v.pu.x <= m && -m <= v.pu.y <= m && -m <= v.pu.z <= m
    &&& -m <= v.pv.x <= m && -m <= v.pv.y <= m && -m <= v.pv.z <= m
    &&& -m <= v.u <= m && -m <= v.v <= m
}

/// The vertex `n` is the vertex `o` rotated about the world X axis by
/// `a` angle units: position, normal and both tangents rotate in the
/// `(y, z)` plane, texture coordinates stay.
pub open spec fn vertex_rotated_ox(a: int, o: Vertex, n: Vertex) -> bool {
    &&& n.pos.x == o.pos.x && pair_rotated(a, o.pos.y as int, o.pos.z as int, n.pos.y as int, n.pos.z as int)
    &&& n.normal.x == o.normal.x && pair_rotated(
        a,
        o.normal.y as int,
        o.normal.z as int,
        n.normal.y as int,
        n.normal.z as int,
    )
    &&& n.pu.x == o.pu.x && pair_rotated(a, o.pu.y as int, o.pu.z as int, n.pu.y as int, n.pu.z as int)
    &&& n.pv.x == o.pv.x && pair_rotated(a, o.pv.y as int, o.pv.z as int, n.pv.y as int, n.pv.z as int)
    &&& n.u == o.u && n.v == o.v
}

/// The vertex `n` is the vertex `o` rotated about the world Z axis by
/// `a` angle units: everything rotates in the `(x, y)` plane.
pub open spec fn vertex_rotated_oz(a: int, o: Vertex, n: Vertex) -> bool {
    &&& n.pos.z == o.pos.z && pair_rotated(a, o.pos.x as int, o.pos.y as int, n.pos.x as int, n.pos.y as int)
    &&& n.normal.z == o.normal.z && pair_rotated(
        a,
        o.normal.x as int,
        o.normal.y as int,
        n.normal.x as int,
        n.normal.y as int,
    )
    &&& n.pu.z == o.pu.z && pair_rotated(a, o.pu.x as int, o.pu.y as int, n.pu.x as int, n.pu.y as int)
    &&& n.pv.z == o.pv.z && pair_rotated(a, o.pv.x as int, o.pv.y as int, n.pv.x as int, n.pv.y as int)
    &&& n.u == o.u && n.v == o.v
}

/// Rotating a vertex by `a` and then by `-a` about the same axis
/// restores it exactly.
pub proof fn lemma_vertex_roundtrip_ox(a: int, o: Vertex, w: Vertex, n: Vertex)
    requires
        -(QUARTER_TURN as int) <= a <= QUARTER_TURN as int,
        vertex_rotated_ox(a, o, w),
        vertex_rotated_ox(-a, w, n),
    ensures
        n == o,
{
    lemma_pair_roundtrip(
        a,
        o.pos.y as int,
        o.pos.z as int,
        w.pos.y as int,
        w.pos.z as int,
        n.pos.y as int,
        n.pos.z as int,
    );
    lemma_pair_roundtrip(
        a,
        o.normal.y as int,
        o.normal.z as int,
        w.normal.y as int,
        w.normal.z as int,
        n.normal.y as int,
        n.normal.z as int,
    );
    lemma_pair_roundtrip(
        a,
        o.pu.y as int,
        o.pu.z as int,
        w.pu.y as int,
        w.pu.z as int,
        n.pu.y as int,
        n.pu.z as int,
    );
    lemma_pair_roundtrip(
        a,
        o.pv.y as int,
        o.pv.z as int,
        w.pv.y as int,
        w.pv.z as int,
        n.pv.y as int,
        n.pv.z as int,
    );
}

/// Rotating a vertex by `a` and then by `-a` about the Z axis restores
/// it exactly.
pub proof fn lemma_vertex_roundtrip_oz(a: int, o: Vertex, w: Vertex, n: Vertex)
    requires
        -(QUARTER_TURN as int) <= a <= QUARTER_TURN as int,
        vertex_rotated_oz(a, o, w),
        vertex_rotated_oz(-a, w, n),
    ensures
        n == o,
{
    lemma_pair_roundtrip(
        a,
        o.pos.x as int,
        o.pos.y as int,
        w.pos.x as int,
        w.pos.y as int,
        n.pos.x as int,
        n.pos.y as int,
    );
    lemma_pair_roundtrip(
        a,
        o.normal.x as int,
        o.normal.y as int,
        w.normal.x as int,
        w.normal.y as int,
        n.normal.x as int,
        n.normal.y as int,
    );
    lemma_pair_roundtrip(
        a,
        o.pu.x as int,
        o.pu.y as int,
        w.pu.x as int,
        w.pu.y as int,
        n.pu.x as int,
        n.pu.y as int,
    );
    lemma_pair_roundtrip(
        a,
        o.pv.x as int,
        o.pv.y as int,
        w.pv.x as int,
        w.pv.y as int,
        n.pv.x as int,
        n.pv.y as int,
    );
}

impl Vertex {
    pub fn new(pos: Point3, normal: Vector3, pu: Vector3, pv: Vector3, u: i64, v: i64) -> (r: Self)
        ensures
            r.pos == pos,
            r.normal == normal,
            r.pu == pu,
            r.pv == pv,
            r.u == u,
            r.v == v,
    {
        Self { pos, normal, pu, pv, u, v }
    }

    /// Rotates position, normal and tangents about the world X axis.
    pub fn rotate_ox(&mut self, a: i64)
        requires
            -QUARTER_TURN <= a && a <= QUARTER_TURN,
            vertex_in_range(*old(self), ROT_LIMIT as int),
        ensures
            vertex_rotated_ox(a as int, *old(self), *final(self)),
            vertex_in_range(*final(self), 5 * ROT_LIMIT as int),
    {
        self.pos.rotate_ox(a);
        self.normal.rotate_ox(a);
        self.pu.rotate_ox(a);
        self.pv.rotate_ox(a);
    }

    /// Rotates position, normal and tangents about the world Z axis.
    pub fn rotate_oz(&mut self, a: i64)
        requires
            -QUARTER_TURN <= a && a <= QUARTER_TURN,
            vertex_in_range(*old(self), ROT_LIMIT as int),
        ensures
            vertex_rotated_oz(a as int, *old(self), *final(self)),
            vertex_in_range(*final(self), 5 * ROT_LIMIT as int),
    {
        self.pos.rotate_oz(a);
        self.normal.rotate_oz(a);
        self.pu.rotate_oz(a);
        self.pv.rotate_oz(a);
    }
}

/// A triangle of the mesh: three vertices by copy.
#[derive(Clone, Copy, Debug, PartialEq, Eq, Structural)]
pub struct Triangle {
    pub p0: Vertex,
    pub p1: Vertex,
    pub p2: Vertex,
}

/// All three vertices within `m`.
pub open spec fn triangle_in_range(t: Triangle, m: int) -> bool {
    vertex_in_range(t.p0, m) && vertex_in_range(t.p1, m) && vertex_in_range(t.p2, m)
}

/// The triangle `n` is the triangle `o` rotated about the world X axis.
pub open spec fn triangle_rotated_ox(a: int, o: Triangle, n: Triangle) -> bool {
    vertex_rotated_ox(a, o.p0, n.p0) && vertex_rotated_ox(a, o.p1, n.p1) && vertex_rotated_ox(
        a,
        o.p2,
        n.p2,
    )
}

/// The triangle `n` is the triangle `o` rotated about the world Z axis.
pub open spec fn triangle_rotated_oz(a: int, o: Triangle, n: Triangle) -> bool {
    vertex_rotated_oz(a, o.p0, n.p0) && vertex_rotated_oz(a, o.p1, n.p1) && vertex_rotated_oz(
        a,
        o.p2,
        n.p2,
    )
}

/// Rotating a triangle by `a` and then by `-a` about the X axis restores
/// every vertex exactly.
pub proof fn lemma_triangle_roundtrip_ox(a: int, o: Triangle, w: Triangle, n: Triangle)
    requires
        -(QUARTER_TURN as int) <= a <= QUARTER_TURN as int,
        triangle_rotated_ox(a, o, w),
        triangle_rotated_ox(-a, w, n),
    ensures
        n == o,
{
    lemma_vertex_roundtrip_ox(a, o.p0, w.p0, n.p0);
    lemma_vertex_roundtrip_ox(a, o.p1, w.p1, n.p1);
    lemma_vertex_roundtrip_ox(a, o.p2, w.p2, n.p2);
}

/// Rotating a triangle by `a` and then by `-a` about the Z axis restores
/// every vertex exactly.
pub proof fn lemma_triangle_roundtrip_oz(a: int, o: Triangle, w: Triangle, n: Triangle)
    requires
        -(QUARTER_TURN as int) <= a <= QUARTER_TURN as int,
        triangle_rotated_oz(a, o, w),
        triangle_rotated_oz(-a, w, n),
    ensures
        n == o,
{
    lemma_vertex_roundtrip_oz(a, o.p0, w.p0, n.p0);
    lemma_vertex_roundtrip_oz(a, o.p1, w.p1, n.p1);
    lemma_vertex_roundtrip_oz(a, o.p2, w.p2, n.p2);
}

impl Triangle {
    pub fn new(p0: Vertex, p1: Vertex, p2: Vertex) -> (r: Self)
        ensures
            r.p0 == p0,
            r.p1 == p1,
            r.p2 == p2,
    {
        Self { p0, p1, p2 }
    }

    /// Rotates the whole triangle about the world X axis.
    pub fn rotate_ox(&mut self, a: i64)
        requires
            -QUARTER_TURN <= a && a <= QUARTER_TURN,
            triangle_in_range(*old(self), ROT_LIMIT as int),
        ensures
            triangle_rotated_ox(a as int, *old(self), *final(self)),
            triangle_in_range(*final(self), 5 * ROT_LIMIT as int),
    {
        self.p0.rotate_ox(a);
        self.p1.rotate_ox(a);
        self.p2.rotate_ox(a);
    }

    /// Rotates the whole triangle about the world Z axis.
    pub fn rotate_oz(&mut self, a: i64)
        requires
            -QUARTER_TURN <= a && a <= QUARTER_TURN,
            triangle_in_range(*old(self), ROT_LIMIT as int),
        ensures
            triangle_rotated_oz(a as int, *old(self), *final(self)),
            triangle_in_range(*final(self), 5 * ROT_LIMIT as int),
    {
        self.p0.rotate_oz(a);
        self.p1.rotate_oz(a);
        self.p2.rotate_oz(a);
    }
}

/// A world-plane coordinate coarsened for the barycentric ratios: 256
/// ticks per step.
pub open spec fn red(a: int) -> int {
    tdiv(a, 256)
}

/// Twice the signed area of the triangle in the world x-y plane, on
/// coordinates coarsened by 256 ticks: the coarsening keeps the weight
/// ratios inside the machine range.  Exactly colinear vertices on whole
/// coarsening steps give zero; a near-degenerate triangle may instead be
/// caught pixel by pixel by the weight guard.
pub open spec fn det_spec(t: Triangle) -> int {
    (red(t.p1.pos.y as int) - red(t.p2.pos.y as int)) * (red(t.p0.pos.x as int) - red(
        t.p2.pos.x as int,
    )) + (red(t.p2.pos.x as int) - red(t.p1.pos.x as int)) * (red(t.p0.pos.y as int) - red(
        t.p2.pos.y as int,
    ))
}

/// The first barycentric weight of the plane point `(x, y)`, at scale
/// `SCALE`, by the signed-area ratio.
pub open spec fn bary_l0(t: Triangle, x: int, y: int, d: int) -> int {
    tdiv2(
        ((red(t.p1.pos.y as int) - red(t.p2.pos.y as int)) * (red(x) - red(t.p2.pos.x as int)) + (
        red(t.p2.pos.x as int) - red(t.p1.pos.x as int)) * (red(y) - red(t.p2.pos.y as int)))
            * (SCALE as int),
        d,
    )
}

/// The second barycentric weight.
pub open spec fn bary_l1(t: Triangle, x: int, y: int, d: int) -> int {
    tdiv2(
        ((red(t.p2.pos.y as int) - red(t.p0.pos.y as int)) * (red(x) - red(t.p2.pos.x as int)) + (
        red(t.p0.pos.x as int) - red(t.p2.pos.x as int)) * (red(y) - red(t.p2.pos.y as int)))
            * (SCALE as int),
        d,
    )
}

/// A weighted blend of three vertex attributes, at scale `SCALE`.
pub open spec fn interp_spec(l0: int, l1: int, l2: int, a0: int, a1: int, a2: int) -> int {
    tdiv(l0 * a0 + l1 * a1 + l2 * a2, SCALE as int)
}

/// Coarsens a world-plane coordinate.
fn red_e(a: i64) -> (r: i64)
    requires
        -0x1000_0000 <= a <= 0x1000_0000,
    ensures
        r == red(a as int),
        -0x10_0000 <= r <= 0x10_0000,
{
    proof {
        lemma_tdiv_abs(a as int, 256, 0x10_0000);
    }
    a / 256
}

/// Barycentric weights of one plane point against a triangle.
pub struct Baryc {
    pub l0: i64,
    pub l1: i64,
    pub l2: i64,
}

impl Baryc {
    /// The signed-area-ratio weights of `(x, y)` in the triangle's world
    /// x-y plane, against the triangle's area term `det`.
    pub fn new(tri: &Triangle, x: i64, y: i64, det: i64) -> (b: Baryc)
        requires
            triangle_in_range(*tri, RENDER_LIMIT as int),
            -0x1000_0000 <= x <= 0x1000_0000,
            -0x1000_0000 <= y <= 0x1000_0000,
            det != 0,
            -0x1000_0000_0000_0000 <= det <= 0x1000_0000_0000_0000,
        ensures
            b.l0 == bary_l0(*tri, x as int, y as int, det as int),
            b.l1 == bary_l1(*tri, x as int, y as int, det as int),
            b.l2 == SCALE - b.l0 - b.l1,
    {
        let x0 = red_e(tri.p0.pos.x);
        let y0 = red_e(tri.p0.pos.y);
        let x1 = red_e(tri.p1.pos.x);
        let y1 = red_e(tri.p1.pos.y);
        let x2 = red_e(tri.p2.pos.x);
        let y2 = red_e(tri.p2.pos.y);
        let px = red_e(x);
        let py = red_e(y);
        proof {
            lemma_bary_num_bound(
                y1 as int - y2 as int,
                px as int - x2 as int,
                x2 as int - x1 as int,
                py as int - y2 as int,
            );
            lemma_bary_num_bound(
                y2 as int - y0 as int,
                px as int - x2 as int,
                x0 as int - x2 as int,
                py as int - y2 as int,
            );
        }
        let n0: i64 = (y1 - y2) * (px - x2) + (x2 - x1) * (py - y2);
        let n1: i64 = (y2 - y0) * (px - x2) + (x0 - x2) * (py - y2);
        let l0 = bary_div(n0 * SCALE, det);
        let l1 = bary_div(n1 * SCALE, det);
        Baryc { l0, l1, l2: SCALE - l0 - l1 }
    }

    /// Blends three vertex attributes by the weights.
    pub fn interp(&self, a0: i64, a1: i64, a2: i64) -> (r: i64)
        requires
            -2 * SCALE <= self.l0 <= 2 * SCALE,
            -2 * SCALE <= self.l1 <= 2 * SCALE,
            -2 * SCALE <= self.l2 <= 2 * SCALE,
            -0x4000_0000 <= a0 <= 0x4000_0000,
            -0x4000_0000 <= a1 <= 0x4000_0000,
            -0x4000_0000 <= a2 <= 0x4000_0000,
        ensures
            r == interp_spec(
                self.l0 as int,
                self.l1 as int,
                self.l2 as int,
                a0 as int,
                a1 as int,
                a2 as int,
            ),
    {
        proof {
            lemma_interp_term(self.l0 as int, a0 as int);
            lemma_interp_term(self.l1 as int, a1 as int);
            lemma_interp_term(self.l2 as int, a2 as int);
            lemma_tdiv_abs(
                self.l0 as int * a0 + self.l1 as int * a1 + self.l2 as int * a2,
                SCALE as int,
                0x1_8000_0000_0000,
            );
        }
        (self.l0 * a0 + self.l1 * a1 + self.l2 * a2) / SCALE
    }
}

/// One interpolation term of guarded weights stays well inside the
/// machine range.
proof fn lemma_interp_term(l: int, a: int)
    requires
        -2 * SCALE as int <= l <= 2 * SCALE as int,
        -0x4000_0000 <= a <= 0x4000_0000,
    ensures
        -0x8000_0000_0000 <= l * a <= 0x8000_0000_0000,
{
    assert(-(0x2_0000 * 0x4000_0000) <= l * a <= 0x2_0000 * 0x4000_0000) by (nonlinear_arith)
        requires
            -0x2_0000 <= l <= 0x2_0000 && -0x4000_0000 <= a <= 0x4000_0000;
}

/// A guarded blend of bounded attributes stays within six times their
/// bound.
proof fn lemma_interp_bound(l0: int, l1: int, l2: int, a0: int, a1: int, a2: int, m: int)
    requires
        -2 * SCALE as int <= l0 <= 2 * SCALE as int,
        -2 * SCALE as int <= l1 <= 2 * SCALE as int,
        -2 * SCALE as int <= l2 <= 2 * SCALE as int,
        -m <= a0 <= m,
        -m <= a1 <= m,
        -m <= a2 <= m,
        0 <= m,
    ensures
        -6 * m <= interp_spec(l0, l1, l2, a0, a1, a2) <= 6 * m,
{
    let s = SCALE as int;
    assert(-(2 * (m * s)) <= l0 * a0 <= 2 * (m * s) && -(2 * (m * s)) <= l1 * a1 <= 2 * (m * s)
        && -(2 * (m * s)) <= l2 * a2 <= 2 * (m * s)) by (nonlinear_arith)
        requires
            -2 * s <= l0 <= 2 * s && -2 * s <= l1 <= 2 * s && -2 * s <= l2 <= 2 * s && -m <= a0
                <= m && -m <= a1 <= m && -m <= a2 <= m && 0 <= m && 0 < s;
    assert(6 * (m * s) == (6 * m) * s) by (nonlinear_arith);
    lemma_tdiv_abs(l0 * a0 + l1 * a1 + l2 * a2, s, 6 * m);
}

/// A barycentric numerator of coarsened coordinates is bounded.
proof fn lemma_bary_num_bound(a: int, b: int, c: int, d: int)
    requires
        -0x20_0000 <= a <= 0x20_0000,
        -0x20_0000 <= b <= 0x20_0000,
        -0x20_0000 <= c <= 0x20_0000,
        -0x20_0000 <= d <= 0x20_0000,
    ensures
        -0x400_0000_0000 <= a * b <= 0x400_0000_0000,
        -0x400_0000_0000 <= c * d <= 0x400_0000_0000,
        -0x800_0000_0000 <= a * b + c * d <= 0x800_0000_0000,
{
    assert(-(0x20_0000 * 0x20_0000) <= a * b <= 0x20_0000 * 0x20_0000 && -(0x20_0000 * 0x20_0000)
        <= c * d <= 0x20_0000 * 0x20_0000) by (nonlinear_arith)
        requires
            -0x20_0000 <= a <= 0x20_0000 && -0x20_0000 <= b <= 0x20_0000 && -0x20_0000 <= c
                <= 0x20_0000 && -0x20_0000 <= d <= 0x20_0000;
}

/// A weight ratio: a truncating division by the signed area term.
fn bary_div(num: i64, det: i64) -> (r: i64)
    requires
        det != 0,
        -0x1000_0000_0000_0000 <= det <= 0x1000_0000_0000_0000,
        -0x1000_0000_0000_0000 <= num <= 0x1000_0000_0000_0000,
    ensures
        r == tdiv2(num as int, det as int),
        -0x1000_0000_0000_0000 <= r <= 0x1000_0000_0000_0000,
{
    proof {
        lemma_tdiv2_abs(num as int, det as int, 0x1000_0000_0000_0000);
    }
    if det > 0 {
        num / det
    } else {
        (-num) / (-det)
    }
}

/// The scalar brightness of a surface point: reflector attenuation times
/// the diffuse and specular terms, at scale `SCALE`.  The light ray is
/// the unit direction from the point to the light; the reflector points
/// straight down, so its cone follows the ray's vertical component.
///
/// The specular base is the vertical component of the light ray
/// reflected about the normal, clamped at zero before the power: a ray
/// reflected about the light direction itself would fold back onto the
/// diffuse dot, so the view axis stands in for the eye, and the clamp
/// keeps an odd exponent from contributing darkness.
pub open spec fn lum_spec(n: Vector3, p: Point3, light: Light, kd: int, ks: int, m: nat, rr: nat) -> int {
    let s = SCALE as int;
    let ld = normalized_spec(
        Vector3 {
            x: (light.pos.x - p.x) as i64,
            y: (light.pos.y - p.y) as i64,
            z: (light.pos.z - p.z) as i64,
        },
    );
    let d = dot_spec(n, ld);
    let il = if d > 0 {
        d
    } else {
        0
    };
    let rvz = tdiv(n.z as int * (2 * d), s) - ld.z;
    let iz = powf(clamp_spec(rvz, 0, s), m);
    let fac = powf(clamp_spec(ld.z as int, 0, s), rr);
    tdiv(fac * (tdiv(kd * il, s) + tdiv(ks * iz, s)), s)
}

/// One output channel: the light and surface channels attenuated by the
/// brightness, spread over the byte range and clamped to it.
pub open spec fn shade_channel(lc: int, cc: int, lum: int) -> int {
    clamp_spec(
        tdiv(tdiv(lc * cc, SCALE as int) * lum * 255, (SCALE as int) * (SCALE as int)),
        0,
        255,
    )
}

/// The dot product of unit-bounded directions spans at most three units.
proof fn lemma_dot_unit_bound(a: Vector3, b: Vector3)
    requires
        -(SCALE as int) <= a.x <= SCALE as int,
        -(SCALE as int) <= a.y <= SCALE as int,
        -(SCALE as int) <= a.z <= SCALE as int,
        -(SCALE as int) <= b.x <= SCALE as int,
        -(SCALE as int) <= b.y <= SCALE as int,
        -(SCALE as int) <= b.z <= SCALE as int,
    ensures
        -3 * SCALE as int <= dot_spec(a, b) <= 3 * SCALE as int,
{
    let s = SCALE as int;
    assert(-(s * s) <= a.x as int * b.x <= s * s && -(s * s) <= a.y as int * b.y <= s * s && -(s
        * s) <= a.z as int * b.z <= s * s) by (nonlinear_arith)
        requires
            -s <= a.x <= s && -s <= a.y <= s && -s <= a.z <= s && -s <= b.x <= s && -s <= b.y <= s
                && -s <= b.z <= s;
    assert((3 * s) * s == 3 * (s * s)) by (nonlinear_arith);
    lemma_tdiv_abs(a.x as int * b.x + a.y as int * b.y + a.z as int * b.z, s, 3 * s);
}

/// One shaded output channel.
fn shade_channel_e(lc: i64, cc: i64, lum: i64) -> (r: u8)
    requires
        0 <= lc <= SCALE,
        0 <= cc <= SCALE,
        -4 * SCALE <= lum <= 4 * SCALE,
    ensures
        r == shade_channel(lc as int, cc as int, lum as int),
{
    let s = SCALE;
    proof {
        let si = SCALE as int;
        assert(0 * si <= lc as int * cc <= si * si) by (nonlinear_arith)
            requires
                0 <= lc as int <= si && 0 <= cc as int <= si;
        crate::fixed::lemma_tdiv_bounds(lc as int * cc, si, 0, si);
        let base = tdiv(lc as int * cc, si);
        assert(-(4 * (si * si)) <= base * lum <= 4 * (si * si)) by (nonlinear_arith)
            requires
                0 <= base <= si && -4 * si <= lum as int <= 4 * si;
        lemma_tdiv_abs(base * lum * 255, si * si, 1020);
        assert(base * lum * 255 <= 1020 * (si * si) && -(1020 * (si * si)) <= base * lum * 255)
            by (nonlinear_arith)
            requires
                -(4 * (si * si)) <= base * lum <= 4 * (si * si);
    }
    let base: i64 = (lc * cc) / s;
    let val: i64 = (base * lum * 255) / (s * s);
    clamp_i64(val, 0, 255) as u8
}

impl Triangle {
    /// Twice the triangle's signed area in the world x-y plane, on
    /// coarsened coordinates.
    fn determinant(&self) -> (d: i64)
        requires
            triangle_in_range(*self, RENDER_LIMIT as int),
        ensures
            d == det_spec(*self),
            -0x800_0000_0000 <= d <= 0x800_0000_0000,
    {
        let x0 = red_e(self.p0.pos.x);
        let y0 = red_e(self.p0.pos.y);
        let x1 = red_e(self.p1.pos.x);
        let y1 = red_e(self.p1.pos.y);
        let x2 = red_e(self.p2.pos.x);
        let y2 = red_e(self.p2.pos.y);
        proof {
            lemma_bary_num_bound(
                y1 as int - y2 as int,
                x0 as int - x2 as int,
                x2 as int - x1 as int,
                y0 as int - y2 as int,
            );
        }
        (y1 - y2) * (x0 - x2) + (x2 - x1) * (y0 - y2)
    }

    /// Shades one covered point: Lambertian diffuse, a specular term
    /// from the reflected ray, and the reflector cone, applied to the
    /// light and surface colours; the alpha byte is always opaque.
    pub fn color_for(
        &self,
        u: i64,
        v: i64,
        n: Vector3,
        p: Point3,
        light: &Light,
        material: &Material,
    ) -> (c: [u8; 4])
        requires
            light.wf(),
            material.wf(),
            -SCALE <= n.x <= SCALE,
            -SCALE <= n.y <= SCALE,
            -SCALE <= n.z <= SCALE,
            -0x1800_0000 <= p.x <= 0x1800_0000,
            -0x1800_0000 <= p.y <= 0x1800_0000,
            -0x1800_0000 <= p.z <= 0x1800_0000,
        ensures
            ({
                let lum = lum_spec(
                    n,
                    p,
                    *light,
                    material.kd as int,
                    material.ks as int,
                    material.m as nat,
                    light.r as nat,
                );
                let col = color_at_spec(*material, u as int, v as int);
                c[0] == shade_channel(light.color.r as int, col.r as int, lum) && c[1]
                    == shade_channel(light.color.g as int, col.g as int, lum) && c[2]
                    == shade_channel(light.color.b as int, col.b as int, lum) && c[3] == 255
            }),
    {
        let diff = light.pos.sub(p);
        let ld = diff.normalized();
        let dotv = n.dot(ld);
        proof {
            lemma_dot_unit_bound(n, ld);
        }
        let il: i64 = if dotv > 0 {
            dotv
        } else {
            0
        };
        proof {
            let s = SCALE as int;
            assert(-(6 * (s * s)) <= n.z as int * (2 * dotv) <= 6 * (s * s)) by (nonlinear_arith)
                requires
                    -s <= n.z as int <= s && -6 * s <= 2 * dotv as int <= 6 * s && s > 0;
            assert((6 * s) * s == 6 * (s * s)) by (nonlinear_arith);
            lemma_tdiv_abs(n.z as int * (2 * dotv), s, 6 * s);
        }
        let rvz: i64 = (n.z * (2 * dotv)) / SCALE - ld.z;
        let iz = pow_fixed(clamp_i64(rvz, 0, SCALE), material.m);
        let fac = pow_fixed(clamp_i64(ld.z, 0, SCALE), light.r);
        proof {
            let s = SCALE as int;
            assert(-(3 * (s * s)) <= material.kd as int * il <= 3 * (s * s)) by (nonlinear_arith)
                requires
                    0 <= material.kd as int <= s && 0 <= il as int <= 3 * s;
            assert((3 * s) * s == 3 * (s * s)) by (nonlinear_arith);
            lemma_tdiv_abs(material.kd as int * il, s, 3 * s);
            assert(-(s * s) <= material.ks as int * iz <= s * s) by (nonlinear_arith)
                requires
                    0 <= material.ks as int <= s && -s <= iz as int <= s;
            lemma_tdiv_abs(material.ks as int * iz, s, s);
        }
        let kdil: i64 = (material.kd * il) / SCALE;
        let ksiz: i64 = (material.ks * iz) / SCALE;
        proof {
            let s = SCALE as int;
            assert(-(4 * (s * s)) <= fac as int * (kdil + ksiz) <= 4 * (s * s))
                by (nonlinear_arith)
                requires
                    -s <= fac as int <= s && -4 * s <= kdil as int + ksiz as int <= 4 * s && s > 0;
            assert((4 * s) * s == 4 * (s * s)) by (nonlinear_arith);
            lemma_tdiv_abs(fac as int * (kdil + ksiz), s, 4 * s);
        }
        let lum: i64 = (fac * (kdil + ksiz)) / SCALE;
        let col = material.color_at(u, v);
        let cr = shade_channel_e(light.color.r(), col.r(), lum);
        let cg = shade_channel_e(light.color.g(), col.g(), lum);
        let cb = shade_channel_e(light.color.b(), col.b(), lum);
        [cr, cg, cb, 255]
    }
}

/// The smaller of three values.
pub open spec fn min3s(a: int, b: int, c: int) -> int {
    if a <= b && a <= c {
        a
    } else if b <= c {
        b
    } else {
        c
    }
}

/// The larger of three values.
pub open spec fn max3s(a: int, b: int, c: int) -> int {
    if a >= b && a >= c {
        a
    } else if b >= c {
        b
    } else {
        c
    }
}

/// The screen x of a vertex on a canvas `w` pixels wide.
pub open spec fn sxs(v: Vertex, w: int) -> int {
    v.pos.x + w * (SCALE as int) / 2
}

/// The screen y of a vertex on a canvas `h` pixels high.
pub open spec fn sys(v: Vertex, h: int) -> int {
    -v.pos.y + h * (SCALE as int) / 2
}

fn min3e(a: i64, b: i64, c: i64) -> (r: i64)
    ensures
        r == min3s(a as int, b as int, c as int),
{
    if a <= b && a <= c {
        a
    } else if b <= c {
        b
    } else {
        c
    }
}

fn max3e(a: i64, b: i64, c: i64) -> (r: i64)
    ensures
        r == max3s(a as int, b as int, c as int),
{
    if a >= b && a >= c {
        a
    } else if b >= c {
        b
    } else {
        c
    }
}

/// The smaller screen y of a vertex pair.
pub open spec fn e_lo_y(ay: int, by: int) -> int {
    if ay < by {
        ay
    } else {
        by
    }
}

/// The larger screen y of a vertex pair.
pub open spec fn e_hi_y(ay: int, by: int) -> int {
    if ay < by {
        by
    } else {
        ay
    }
}

/// The screen x at the pair's smaller-y end.
pub open spec fn e_lo_x(ax: int, ay: int, bx: int, by: int) -> int {
    if ay < by {
        ax
    } else {
        bx
    }
}

/// The screen x at the pair's larger-y end.
pub open spec fn e_hi_x(ax: int, ay: int, bx: int, by: int) -> int {
    if ay < by {
        bx
    } else {
        ax
    }
}

/// Whether the pair is steep enough to span scanlines.
pub open spec fn edge_kept(ay: int, by: int) -> bool {
    by - ay >= EDGE_EPS as int || by - ay <= -(EDGE_EPS as int)
}

/// Ticks of x per scanline along the pair.
pub open spec fn edge_slope(ax: int, ay: int, bx: int, by: int) -> int {
    tdiv(
        (e_hi_x(ax, ay, bx, by) - e_lo_x(ax, ay, bx, by)) * (SCALE as int),
        e_hi_y(ay, by) - e_lo_y(ay, by),
    )
}

/// Whether the pair's edge crosses scanline `y`: it enters at the first
/// scanline at or past its upper end and leaves where its lower end
/// begins.
pub open spec fn edge_active(ay: int, by: int, y: int) -> bool {
    edge_kept(ay, by) && ceil_fix(e_lo_y(ay, by)) <= y && y * SCALE < e_hi_y(ay, by)
}

/// The edge's x where it crosses scanline `y`.
pub open spec fn edge_x_at(ax: int, ay: int, bx: int, by: int, y: int) -> int {
    e_lo_x(ax, ay, bx, by) + (y - ceil_fix(e_lo_y(ay, by))) * edge_slope(ax, ay, bx, by)
}

/// The median of three values.
pub open spec fn mid3s(a: int, b: int, c: int) -> int {
    if (b <= a && a <= c) || (c <= a && a <= b) {
        a
    } else if (a <= b && b <= c) || (c <= b && b <= a) {
        b
    } else {
        c
    }
}

/// Whether boundary `b` of the triangle (the edge from vertex `b` to the
/// next, in winding order) crosses scanline `y`.
pub open spec fn bnd_active(t: Triangle, h: int, b: int, y: int) -> bool {
    if b == 0 {
        edge_active(sys(t.p0, h), sys(t.p1, h), y)
    } else if b == 1 {
        edge_active(sys(t.p1, h), sys(t.p2, h), y)
    } else {
        edge_active(sys(t.p2, h), sys(t.p0, h), y)
    }
}

/// The x where boundary `b` crosses scanline `y`.
pub open spec fn bnd_x(t: Triangle, w: int, h: int, b: int, y: int) -> int {
    if b == 0 {
        edge_x_at(sxs(t.p0, w), sys(t.p0, h), sxs(t.p1, w), sys(t.p1, h), y)
    } else if b == 1 {
        edge_x_at(sxs(t.p1, w), sys(t.p1, h), sxs(t.p2, w), sys(t.p2, h), y)
    } else {
        edge_x_at(sxs(t.p2, w), sys(t.p2, h), sxs(t.p0, w), sys(t.p0, h), y)
    }
}

/// Boundary `b`'s crossing on scanline `y`, when it crosses.
pub open spec fn crossing(t: Triangle, w: int, h: int, b: int, y: int) -> Option<int> {
    if bnd_active(t, h, b, y) {
        Some(bnd_x(t, w, h, b, y))
    } else {
        None
    }
}

/// The span the scanline fill walks on row `y`: the gap between the two
/// leftmost boundary crossings.  A triangle has at most three boundary
/// crossings per scanline, so pairing consecutive sorted crossings, as a
/// general edge table does, yields at most this one span.
pub open spec fn span_of(t: Triangle, w: int, h: int, y: int) -> Option<(int, int)> {
    match crossing(t, w, h, 0, y) {
        Some(x0) => match crossing(t, w, h, 1, y) {
            Some(x1) => match crossing(t, w, h, 2, y) {
                Some(x2) => Some((min3s(x0, x1, x2), mid3s(x0, x1, x2))),
                None => Some(
                    (
                        (if x0 <= x1 {
                            x0
                        } else {
                            x1
                        }),
                        (if x0 <= x1 {
                            x1
                        } else {
                            x0
                        }),
                    ),
                ),
            },
            None => match crossing(t, w, h, 2, y) {
                Some(x2) => Some(
                    (
                        (if x0 <= x2 {
                            x0
                        } else {
                            x2
                        }),
                        (if x0 <= x2 {
                            x2
                        } else {
                            x0
                        }),
                    ),
                ),
                None => None,
            },
        },
        None => match crossing(t, w, h, 1, y) {
            Some(x1) => match crossing(t, w, h, 2, y) {
                Some(x2) => Some(
                    (
                        (if x1 <= x2 {
                            x1
                        } else {
                            x2
                        }),
                        (if x1 <= x2 {
                            x2
                        } else {
                            x1
                        }),
                    ),
                ),
                None => None,
            },
            None => None,
        },
    }
}

/// The world-plane x the screen transform inverts to at pixel column `x`.
pub open spec fn pix_wx(w: int, x: int) -> int {
    x * SCALE - w * (SCALE as int) / 2
}

/// The world-plane y the screen transform inverts to at pixel row `y`.
pub open spec fn pix_wy(h: int, y: int) -> int {
    h * (SCALE as int) / 2 - y * SCALE
}

/// The first barycentric weight of pixel `(x, y)`.
pub open spec fn pix_l0(t: Triangle, w: int, h: int, x: int, y: int) -> int {
    bary_l0(t, pix_wx(w, x), pix_wy(h, y), det_spec(t))
}

/// The second barycentric weight of pixel `(x, y)`.
pub open spec fn pix_l1(t: Triangle, w: int, h: int, x: int, y: int) -> int {
    bary_l1(t, pix_wx(w, x), pix_wy(h, y), det_spec(t))
}

/// The third barycentric weight: the exact complement of the first two.
pub open spec fn pix_l2(t: Triangle, w: int, h: int, x: int, y: int) -> int {
    SCALE - pix_l0(t, w, h, x, y) - pix_l1(t, w, h, x, y)
}

/// Whether the pixel's weights pass the rasterizer's sanity guard.
pub open spec fn weights_ok(t: Triangle, w: int, h: int, x: int, y: int) -> bool {
    &&& -2 * SCALE <= pix_l0(t, w, h, x, y) <= 2 * SCALE
    &&& -2 * SCALE <= pix_l1(t, w, h, x, y) <= 2 * SCALE
    &&& -2 * SCALE <= pix_l2(t, w, h, x, y) <= 2 * SCALE
}

/// A vertex attribute interpolated at pixel `(x, y)`.
pub open spec fn pix_at(t: Triangle, w: int, h: int, x: int, y: int, a0: int, a1: int, a2: int) -> int {
    interp_spec(
        pix_l0(t, w, h, x, y),
        pix_l1(t, w, h, x, y),
        pix_l2(t, w, h, x, y),
        a0,
        a1,
        a2,
    )
}

/// The depth key written at pixel `(x, y)`: the interpolated world z.
pub open spec fn pix_depth(t: Triangle, w: int, h: int, x: int, y: int) -> int {
    pix_at(t, w, h, x, y, t.p0.pos.z as int, t.p1.pos.z as int, t.p2.pos.z as int)
}

/// The interpolated world position at pixel `(x, y)`.
pub open spec fn pix_pos(t: Triangle, w: int, h: int, x: int, y: int) -> Point3 {
    Point3 {
        x: pix_at(t, w, h, x, y, t.p0.pos.x as int, t.p1.pos.x as int, t.p2.pos.x as int) as i64,
        y: pix_at(t, w, h, x, y, t.p0.pos.y as int, t.p1.pos.y as int, t.p2.pos.y as int) as i64,
        z: pix_at(t, w, h, x, y, t.p0.pos.z as int, t.p1.pos.z as int, t.p2.pos.z as int) as i64,
    }
}

/// The interpolated texture u at pixel `(x, y)`.
pub open spec fn pix_u(t: Triangle, w: int, h: int, x: int, y: int) -> int {
    pix_at(t, w, h, x, y, t.p0.u as int, t.p1.u as int, t.p2.u as int)
}

/// The interpolated texture v at pixel `(x, y)`.
pub open spec fn pix_v(t: Triangle, w: int, h: int, x: int, y: int) -> int {
    pix_at(t, w, h, x, y, t.p0.v as int, t.p1.v as int, t.p2.v as int)
}

/// The shading normal at pixel `(x, y)`: interpolated normal and
/// tangents, renormalized, carried through the material's normal map,
/// and normalized once more.
pub open spec fn pix_shading_normal(t: Triangle, mat: Material, w: int, h: int, x: int, y: int) -> Vector3 {
    let nn = normalized_spec(
        Vector3 {
            x: pix_at(t, w, h, x, y, t.p0.normal.x as int, t.p1.normal.x as int, t.p2.normal.x as int) as i64,
            y: pix_at(t, w, h, x, y, t.p0.normal.y as int, t.p1.normal.y as int, t.p2.normal.y as int) as i64,
            z: pix_at(t, w, h, x, y, t.p0.normal.z as int, t.p1.normal.z as int, t.p2.normal.z as int) as i64,
        },
    );
    let pun = normalized_spec(
        Vector3 {
            x: pix_at(t, w, h, x, y, t.p0.pu.x as int, t.p1.pu.x as int, t.p2.pu.x as int) as i64,
            y: pix_at(t, w, h, x, y, t.p0.pu.y as int, t.p1.pu.y as int, t.p2.pu.y as int) as i64,
            z: pix_at(t, w, h, x, y, t.p0.pu.z as int, t.p1.pu.z as int, t.p2.pu.z as int) as i64,
        },
    );
    let pvn = normalized_spec(
        Vector3 {
            x: pix_at(t, w, h, x, y, t.p0.pv.x as int, t.p1.pv.x as int, t.p2.pv.x as int) as i64,
            y: pix_at(t, w, h, x, y, t.p0.pv.y as int, t.p1.pv.y as int, t.p2.pv.y as int) as i64,
            z: pix_at(t, w, h, x, y, t.p0.pv.z as int, t.p1.pv.z as int, t.p2.pv.z as int) as i64,
        },
    );
    normalized_spec(
        normal_at_spec(mat, pix_u(t, w, h, x, y), pix_v(t, w, h, x, y), pun, pvn, nn),
    )
}

/// The colour channel (0 red, 1 green, 2 blue) the rasterizer shades at
/// pixel `(x, y)`.
pub open spec fn pix_channel(
    t: Triangle,
    light: Light,
    mat: Material,
    w: int,
    h: int,
    x: int,
    y: int,
    k: int,
) -> int {
    let lum = lum_spec(
        pix_shading_normal(t, mat, w, h, x, y),
        pix_pos(t, w, h, x, y),
        light,
        mat.kd as int,
        mat.ks as int,
        mat.m as nat,
        light.r as nat,
    );
    let col = color_at_spec(mat, pix_u(t, w, h, x, y), pix_v(t, w, h, x, y));
    let lc: int = if k == 0 {
        light.color.r as int
    } else if k == 1 {
        light.color.g as int
    } else {
        light.color.b as int
    };
    let cc: int = if k == 0 {
        col.r as int
    } else if k == 1 {
        col.g as int
    } else {
        col.b as int
    };
    shade_channel(lc, cc, lum)
}

/// Whether the scanline fill shades pixel `(x, y)` on a `w` by `h`
/// canvas: the triangle passes the degeneracy guards, the pixel's row
/// lies in the clipped vertical extent, its column lies in the row's
/// clipped span, and the barycentric weights pass the guard.
pub open spec fn covered(t: Triangle, w: int, h: int, x: int, y: int) -> bool {
    let mnx = min3s(sxs(t.p0, w), sxs(t.p1, w), sxs(t.p2, w));
    let mxx = max3s(sxs(t.p0, w), sxs(t.p1, w), sxs(t.p2, w));
    let mny = min3s(sys(t.p0, h), sys(t.p1, h), sys(t.p2, h));
    let mxy = max3s(sys(t.p0, h), sys(t.p1, h), sys(t.p2, h));
    &&& mxy - mny >= FLAT_EPS as int
    &&& !(mxx < 0 || mnx > w * SCALE || mxy < 0 || mny > h * SCALE)
    &&& det_spec(t) != 0
    &&& (if floor_fix(mny) > 0 {
        floor_fix(mny)
    } else {
        0
    }) <= y
    &&& y <= (if ceil_fix(mxy) < h - 1 {
        ceil_fix(mxy)
    } else {
        h - 1
    })
    &&& match span_of(t, w, h, y) {
        Some(sp) => (if ceil_fix(sp.0) > 0 {
            ceil_fix(sp.0)
        } else {
            0
        }) <= x && x <= (if floor_fix(sp.1) < w - 1 {
            floor_fix(sp.1)
        } else {
            w - 1
        }),
        None => false,
    }
    &&& weights_ok(t, w, h, x, y)
}

/// Pixel `(x, y)` of canvas `bc` holds exactly what `a` held there.
pub open spec fn pixel_kept(a: Canvas, bc: Canvas, x: int, y: int) -> bool {
    &&& bc.depth_of(x, y) == a.depth_of(x, y)
    &&& forall|k: int| 0 <= k < 4 ==> bc.byte_of(x, y, k) == a.byte_of(x, y, k)
}

/// Pixel `(x, y)` of canvas `bc` holds triangle `t`'s rasterization
/// verbatim: `t` covers it, and the pixel carries the interpolated depth
/// and the shaded, opaque colour.
pub open spec fn pixel_from(t: Triangle, light: Light, mat: Material, bc: Canvas, x: int, y: int) -> bool {
    let w = bc.spec_width() as int;
    let h = bc.spec_height() as int;
    &&& covered(t, w, h, x, y)
    &&& bc.depth_of(x, y) == pix_depth(t, w, h, x, y)
    &&& bc.byte_of(x, y, 0) == pix_channel(t, light, mat, w, h, x, y, 0)
    &&& bc.byte_of(x, y, 1) == pix_channel(t, light, mat, w, h, x, y, 1)
    &&& bc.byte_of(x, y, 2) == pix_channel(t, light, mat, w, h, x, y, 2)
    &&& bc.byte_of(x, y, 3) == 255
}

/// What rasterizing triangle `t` into canvas `a` leaves at pixel
/// `(x, y)`: when `t` covers the pixel nearer than what `a` held, the
/// pixel holds `t`'s rasterization; otherwise it holds what `a` held.
pub open spec fn pixel_settled(
    t: Triangle,
    light: Light,
    mat: Material,
    a: Canvas,
    bc: Canvas,
    x: int,
    y: int,
) -> bool {
    let w = a.spec_width() as int;
    let h = a.spec_height() as int;
    if covered(t, w, h, x, y) && pix_depth(t, w, h, x, y) < a.depth_of(x, y) {
        pixel_from(t, light, mat, bc, x, y)
    } else {
        pixel_kept(a, bc, x, y)
    }
}

/// Keeping a pixel twice keeps it.
pub proof fn lemma_kept_stable(a: Canvas, b1: Canvas, b2: Canvas, x: int, y: int)
    requires
        pixel_kept(a, b1, x, y),
        pixel_kept(b1, b2, x, y),
    ensures
        pixel_kept(a, b2, x, y),
{
}

/// A settled pixel stays settled while untouched.
proof fn lemma_settled_stable(
    t: Triangle,
    light: Light,
    mat: Material,
    a: Canvas,
    b1: Canvas,
    b2: Canvas,
    x: int,
    y: int,
)
    requires
        pixel_settled(t, light, mat, a, b1, x, y),
        pixel_kept(b1, b2, x, y),
        b1.spec_width() == a.spec_width(),
        b1.spec_height() == a.spec_height(),
        b2.spec_width() == a.spec_width(),
        b2.spec_height() == a.spec_height(),
    ensures
        pixel_settled(t, light, mat, a, b2, x, y),
{
}

/// A pixel rasterized from a triangle keeps that account while
/// untouched.
pub proof fn lemma_from_stable(
    t: Triangle,
    light: Light,
    mat: Material,
    b1: Canvas,
    b2: Canvas,
    x: int,
    y: int,
)
    requires
        pixel_from(t, light, mat, b1, x, y),
        pixel_kept(b1, b2, x, y),
        b2.spec_width() == b1.spec_width(),
        b2.spec_height() == b1.spec_height(),
    ensures
        pixel_from(t, light, mat, b2, x, y),
{
}

/// An untouched pixel the triangle does not cover is settled.
proof fn lemma_kept_settles(
    t: Triangle,
    light: Light,
    mat: Material,
    a: Canvas,
    bc: Canvas,
    x: int,
    y: int,
)
    requires
        !covered(t, a.spec_width() as int, a.spec_height() as int, x, y),
        pixel_kept(a, bc, x, y),
    ensures
        pixel_settled(t, light, mat, a, bc, x, y),
{
}

/// One non-horizontal edge of the triangle, bucketed by the scanline
/// where it begins.
struct Edge {
    /// First scanline the edge spans.
    start: i64,
    /// Screen y where the edge ends, in ticks.
    y_max: i64,
    /// Screen x at the edge's upper end, in ticks.
    x0: i64,
    /// Ticks of x per scanline.
    inv_slope: i64,
}

/// The ranges an edge built from in-range screen points satisfies.
spec fn edge_ok(e: Edge) -> bool {
    &&& -0x3000 <= e.start <= 0x3000
    &&& -0x1000_0000 <= e.y_max <= 0x1000_0000
    &&& -0x1000_0000 <= e.x0 <= 0x1000_0000
    &&& -0x2000_0000_0000 <= e.inv_slope <= 0x2000_0000_0000
}

/// The built edge is the vertex pair's, field for field, and exists
/// exactly when the pair is steep enough.
spec fn edge_matches(eo: Option<Edge>, ax: int, ay: int, bx: int, by: int) -> bool {
    match eo {
        Some(e) => {
            &&& edge_ok(e)
            &&& edge_kept(ay, by)
            &&& e.start == ceil_fix(e_lo_y(ay, by))
            &&& e.y_max == e_hi_y(ay, by)
            &&& e.x0 == e_lo_x(ax, ay, bx, by)
            &&& e.inv_slope == edge_slope(ax, ay, bx, by)
        },
        None => !edge_kept(ay, by),
    }
}

/// Builds the scanline edge for one vertex pair, unless the pair is
/// near-horizontal.
fn make_edge(a: &Point3, b: &Point3) -> (r: Option<Edge>)
    requires
        -0x800_0000 <= a.x <= 0x800_0000,
        -0x800_0000 <= a.y <= 0x800_0000,
        -0x800_0000 <= b.x <= 0x800_0000,
        -0x800_0000 <= b.y <= 0x800_0000,
    ensures
        edge_matches(r, a.x as int, a.y as int, b.x as int, b.y as int),
{
    let dy = b.y - a.y;
    if -EDGE_EPS < dy && dy < EDGE_EPS {
        return None;
    }
    let (lox, loy, hix, hiy) = if a.y < b.y {
        (a.x, a.y, b.x, b.y)
    } else {
        (b.x, b.y, a.x, a.y)
    };
    let rise = hiy - loy;
    proof {
        assert(-(0x2000_0000_0000 * rise) <= (hix as int - lox as int) * (SCALE as int) && (hix
            as int - lox as int) * (SCALE as int) <= 0x2000_0000_0000 * rise) by (nonlinear_arith)
            requires
                -0x1000_0000 <= hix as int - lox as int <= 0x1000_0000 && rise as int >= 7;
        lemma_tdiv_abs((hix as int - lox as int) * (SCALE as int), rise as int, 0x2000_0000_0000);
    }
    let inv: i64 = ((hix - lox) * SCALE) / rise;
    let st = ceil_fix_e(loy);
    Some(Edge { start: st, y_max: hiy, x0: lox, inv_slope: inv })
}

/// The median of three values.
fn mid3e(a: i64, b: i64, c: i64) -> (r: i64)
    ensures
        r == mid3s(a as int, b as int, c as int),
{
    if (b <= a && a <= c) || (c <= a && a <= b) {
        a
    } else if (a <= b && b <= c) || (c <= b && b <= a) {
        b
    } else {
        c
    }
}

impl Triangle {
    /// A short stroke along the shading normal at every tenth pixel in
    /// both directions: a visual diagnostic, depth-tested like any
    /// other write.  A pixel off the ten-by-ten grid triggers no stroke
    /// and the canvas is untouched.
    fn draw_normals(&self, canvas: &mut Canvas, x: usize, y: usize, n: Vector3, p: Point3)
        requires
            old(canvas).wf(),
            -SCALE <= n.x <= SCALE,
            -SCALE <= n.y <= SCALE,
            -SCALE <= n.z <= SCALE,
            -0x1800_0000 <= p.x <= 0x1800_0000,
            -0x1800_0000 <= p.y <= 0x1800_0000,
            -0x1800_0000 <= p.z <= 0x1800_0000,
        ensures
            evolves(*old(canvas), *final(canvas)),
            !(x % 10 == 0 && y % 10 == 0) ==> *final(canvas) == *old(canvas),
    {
        proof {
            lemma_evolves_refl(*old(canvas));
        }
        if x % 10 == 0 && y % 10 == 0 {
            let w = canvas.width();
            let h = canvas.height();
            let mut i: i64 = 0;
            while i <= 10
                invariant
                    0 <= i <= 11,
                    canvas.wf(),
                    evolves(*old(canvas), *canvas),
                    canvas.spec_width() == w,
                    canvas.spec_height() == h,
                    1 <= w <= 2048,
                    1 <= h <= 2048,
                    -SCALE <= n.x <= SCALE && -SCALE <= n.y <= SCALE && -SCALE <= n.z <= SCALE,
                    -0x1800_0000 <= p.x <= 0x1800_0000 && -0x1800_0000 <= p.y <= 0x1800_0000
                        && -0x1800_0000 <= p.z <= 0x1800_0000,
                decreases 11 - i,
            {
                let k: i64 = i * SCALE;
                proof {
                    let s = SCALE as int;
                    assert(-(655360 * s) <= n.x as int * (k as int) && n.x as int * (k as int)
                        <= 655360 * s && -(655360 * s) <= n.y as int * (k as int) && n.y as int * (
                    k as int) <= 655360 * s && -(655360 * s) <= n.z as int * (k as int) && n.z
                        as int * (k as int) <= 655360 * s) by (nonlinear_arith)
                        requires
                            -s <= n.x as int <= s && -s <= n.y as int <= s && -s <= n.z as int <= s
                                && 0 <= k as int <= 655360 && s == 65536;
                    lemma_tdiv_abs(n.x as int * (k as int), s, 655360);
                    lemma_tdiv_abs(n.y as int * (k as int), s, 655360);
                    lemma_tdiv_abs(n.z as int * (k as int), s, 655360);
                }
                let q = p.add_scaled(n, k);
                let sc = q.to_screen(w, h);
                let sx = floor_fix_e(sc.x);
                let sy = floor_fix_e(sc.y);
                if 0 <= sx && sx < w as i64 && 0 <= sy && sy < h as i64 {
                    let col: [u8; 4] = if i == 10 {
                        [0, 0, 255, 255]
                    } else {
                        [255, 0, 0, 255]
                    };
                    let ghost c0: Canvas = *canvas;
                    canvas.put_pixel(sx as usize, sy as usize, sc.z, col);
                    proof {
                        lemma_evolves_trans(*old(canvas), c0, *canvas);
                    }
                }
                i = i + 1;
            }
        }
    }


    /// Rasterizes the triangle into the canvas: scanline fill between
    /// its projected edges, barycentric interpolation of every vertex
    /// attribute, shading, and a depth-tested write per covered pixel.
    ///
    /// Without the diagnostic overlay the contract is total: every
    /// covered pixel whose interpolated depth is nearer than the stored
    /// one ends at that depth with the shaded colour, and every other
    /// pixel is untouched.  A triangle that projects outside the canvas,
    /// spans less than a hundredth of a pixel vertically, or has
    /// colinear coarsened corners covers nothing and writes nothing.
    #[verifier::rlimit(100)]
    pub fn draw_filling(
        &self,
        canvas: &mut Canvas,
        light: &Light,
        material: &Material,
        normals_diag: bool,
    )
        requires
            old(canvas).wf(),
            light.wf(),
            material.wf(),
            triangle_in_range(*self, RENDER_LIMIT as int),
        ensures
            evolves(*old(canvas), *final(canvas)),
            !normals_diag ==> forall|x: int, y: int|
                0 <= x < old(canvas).spec_width() && 0 <= y < old(canvas).spec_height()
                    ==> #[trigger] pixel_settled(
                    *self,
                    *light,
                    *material,
                    *old(canvas),
                    *final(canvas),
                    x,
                    y,
                ),
            ({
                let w = old(canvas).spec_width() as int;
                let h = old(canvas).spec_height() as int;
                let mnx = min3s(sxs(self.p0, w), sxs(self.p1, w), sxs(self.p2, w));
                let mxx = max3s(sxs(self.p0, w), sxs(self.p1, w), sxs(self.p2, w));
                let mny = min3s(sys(self.p0, h), sys(self.p1, h), sys(self.p2, h));
                let mxy = max3s(sys(self.p0, h), sys(self.p1, h), sys(self.p2, h));
                &&& (mxy - mny < FLAT_EPS ==> *final(canvas) == *old(canvas))
                &&& ((mxx < 0 || mnx > w * SCALE || mxy < 0 || mny > h * SCALE) ==> *final(canvas)
                    == *old(canvas))
                &&& (det_spec(*self) == 0 ==> *final(canvas) == *old(canvas))
            }),
    {
        proof {
            lemma_evolves_refl(*old(canvas));
        }
        let w = canvas.width();
        let h = canvas.height();
        let s0 = self.p0.pos.to_screen(w, h);
        let s1 = self.p1.pos.to_screen(w, h);
        let s2 = self.p2.pos.to_screen(w, h);
        let mnx = min3e(s0.x, s1.x, s2.x);
        let mxx = max3e(s0.x, s1.x, s2.x);
        let mny = min3e(s0.y, s1.y, s2.y);
        let mxy = max3e(s0.y, s1.y, s2.y);
        if mxy - mny < FLAT_EPS {
            proof {
                assert forall|x: int, y: int| 0 <= x < w && 0 <= y < h implies #[trigger] pixel_settled(
                    *self,
                    *light,
                    *material,
                    *old(canvas),
                    *canvas,
                    x,
                    y,
                ) by {
                    assert(!covered(*self, w as int, h as int, x, y));
                }
            }
            return ;
        }
        if mxx < 0 || mnx > (w as i64) * SCALE || mxy < 0 || mny > (h as i64) * SCALE {
            proof {
                assert forall|x: int, y: int| 0 <= x < w && 0 <= y < h implies #[trigger] pixel_settled(
                    *self,
                    *light,
                    *material,
                    *old(canvas),
                    *canvas,
                    x,
                    y,
                ) by {
                    assert(!covered(*self, w as int, h as int, x, y));
                }
            }
            return ;
        }
        let det = self.determinant();
        if det == 0 {
            proof {
                assert forall|x: int, y: int| 0 <= x < w && 0 <= y < h implies #[trigger] pixel_settled(
                    *self,
                    *light,
                    *material,
                    *old(canvas),
                    *canvas,
                    x,
                    y,
                ) by {
                    assert(!covered(*self, w as int, h as int, x, y));
                }
            }
            return ;
        }
        let e01 = make_edge(&s0, &s1);
        let e12 = make_edge(&s1, &s2);
        let e20 = make_edge(&s2, &s0);
        let ylo0 = floor_fix_e(mny);
        let yhi0 = ceil_fix_e(mxy);
        let ystart: i64 = if ylo0 < 0 {
            0
        } else {
            ylo0
        };
        let yhi: i64 = if yhi0 > (h as i64) - 1 {
            (h as i64) - 1
        } else {
            yhi0
        };
        let mut ypx: i64 = ystart;
        proof {
            if !normals_diag {
                assert forall|x: int, y: int| 0 <= x < w && 0 <= y < ypx implies #[trigger] pixel_settled(
                    *self,
                    *light,
                    *material,
                    *old(canvas),
                    *canvas,
                    x,
                    y,
                ) by {
                    assert(!covered(*self, w as int, h as int, x, y));
                }
            }
        }
        while ypx <= yhi
            invariant
                canvas.wf(),
                evolves(*old(canvas), *canvas),
                canvas.spec_width() == w,
                canvas.spec_height() == h,
                old(canvas).spec_width() == w,
                old(canvas).spec_height() == h,
                1 <= w <= 2048,
                1 <= h <= 2048,
                triangle_in_range(*self, RENDER_LIMIT as int),
                light.wf(),
                material.wf(),
                det != 0,
                det == det_spec(*self),
                -0x800_0000_0000 <= det <= 0x800_0000_0000,
                s0.x == sxs(self.p0, w as int) && s0.y == sys(self.p0, h as int),
                s1.x == sxs(self.p1, w as int) && s1.y == sys(self.p1, h as int),
                s2.x == sxs(self.p2, w as int) && s2.y == sys(self.p2, h as int),
                mny == min3s(s0.y as int, s1.y as int, s2.y as int),
                mxy == max3s(s0.y as int, s1.y as int, s2.y as int),
                mnx == min3s(s0.x as int, s1.x as int, s2.x as int),
                mxx == max3s(s0.x as int, s1.x as int, s2.x as int),
                mxy - mny >= FLAT_EPS,
                mxx >= 0 && mnx <= (w as int) * SCALE && mxy >= 0 && mny <= (h as int) * SCALE,
                ystart as int == (if floor_fix(mny as int) > 0 {
                    floor_fix(mny as int)
                } else {
                    0
                }),
                yhi as int == (if ceil_fix(mxy as int) < h - 1 {
                    ceil_fix(mxy as int)
                } else {
                    h as int - 1
                }),
                ystart <= ypx,
                0 <= ypx,
                yhi < h as i64,
                edge_matches(e01, s0.x as int, s0.y as int, s1.x as int, s1.y as int),
                edge_matches(e12, s1.x as int, s1.y as int, s2.x as int, s2.y as int),
                edge_matches(e20, s2.x as int, s2.y as int, s0.x as int, s0.y as int),
                ypx <= yhi + 1,
                !normals_diag ==> forall|x: int, y: int|
                    0 <= x < w && 0 <= y < ypx ==> #[trigger] pixel_settled(
                        *self,
                        *light,
                        *material,
                        *old(canvas),
                        *canvas,
                        x,
                        y,
                    ),
                !normals_diag ==> forall|x: int, y: int|
                    0 <= x < w && ypx <= y < h ==> #[trigger] pixel_kept(
                        *old(canvas),
                        *canvas,
                        x,
                        y,
                    ),
            decreases yhi + 1 - ypx,
        {
            let yfix: i64 = ypx * SCALE;
            let xo0: Option<i64> = match &e01 {
                Some(e) => {
                    if e.start <= ypx && yfix < e.y_max {
                        proof {
                            assert(-(0x2000_0000_0000 * 0x4000) <= (ypx - e.start) as int * (
                            e.inv_slope as int) && (ypx - e.start) as int * (e.inv_slope as int)
                                <= 0x2000_0000_0000 * 0x4000) by (nonlinear_arith)
                                requires
                                    0 <= (ypx - e.start) as int <= 0x4000 && -0x2000_0000_0000
                                        <= e.inv_slope as int <= 0x2000_0000_0000;
                        }
                        Some(e.x0 + (ypx - e.start) * e.inv_slope)
                    } else {
                        None
                    }
                },
                None => None,
            };
            proof {
                match xo0 {
                    Some(xv) => {
                        assert(crossing(*self, w as int, h as int, 0, ypx as int) == Some(
                            xv as int,
                        ));
                        assert(-0x900_0000_0000_0000 <= xv <= 0x900_0000_0000_0000);
                    },
                    None => {
                        assert(crossing(*self, w as int, h as int, 0, ypx as int) is None);
                    },
                }
            }
            let xo1: Option<i64> = match &e12 {
                Some(e) => {
                    if e.start <= ypx && yfix < e.y_max {
                        proof {
                            assert(-(0x2000_0000_0000 * 0x4000) <= (ypx - e.start) as int * (
                            e.inv_slope as int) && (ypx - e.start) as int * (e.inv_slope as int)
                                <= 0x2000_0000_0000 * 0x4000) by (nonlinear_arith)
                                requires
                                    0 <= (ypx - e.start) as int <= 0x4000 && -0x2000_0000_0000
                                        <= e.inv_slope as int <= 0x2000_0000_0000;
                        }
                        Some(e.x0 + (ypx - e.start) * e.inv_slope)
                    } else {
                        None
                    }
                },
                None => None,
            };
            proof {
                match xo1 {
                    Some(xv) => {
                        assert(crossing(*self, w as int, h as int, 1, ypx as int) == Some(
                            xv as int,
                        ));
                        assert(-0x900_0000_0000_0000 <= xv <= 0x900_0000_0000_0000);
                    },
                    None => {
                        assert(crossing(*self, w as int, h as int, 1, ypx as int) is None);
                    },
                }
            }
            let xo2: Option<i64> = match &e20 {
                Some(e) => {
                    if e.start <= ypx && yfix < e.y_max {
                        proof {
                            assert(-(0x2000_0000_0000 * 0x4000) <= (ypx - e.start) as int * (
                            e.inv_slope as int) && (ypx - e.start) as int * (e.inv_slope as int)
                                <= 0x2000_0000_0000 * 0x4000) by (nonlinear_arith)
                                requires
                                    0 <= (ypx - e.start) as int <= 0x4000 && -0x2000_0000_0000
                                        <= e.inv_slope as int <= 0x2000_0000_0000;
                        }
                        Some(e.x0 + (ypx - e.start) * e.inv_slope)
                    } else {
                        None
                    }
                },
                None => None,
            };
            proof {
                match xo2 {
                    Some(xv) => {
                        assert(crossing(*self, w as int, h as int, 2, ypx as int) == Some(
                            xv as int,
                        ));
                        assert(-0x900_0000_0000_0000 <= xv <= 0x900_0000_0000_0000);
                    },
                    None => {
                        assert(crossing(*self, w as int, h as int, 2, ypx as int) is None);
                    },
                }
            }
            let span: Option<(i64, i64)> = match xo0 {
                Some(a) => match xo1 {
                    Some(bb) => match xo2 {
                        Some(c) => Some((min3e(a, bb, c), mid3e(a, bb, c))),
                        None => Some(
                            (
                                (if a <= bb {
                                    a
                                } else {
                                    bb
                                }),
                                (if a <= bb {
                                    bb
                                } else {
                                    a
                                }),
                            ),
                        ),
                    },
                    None => match xo2 {
                        Some(c) => Some(
                            (
                                (if a <= c {
                                    a
                                } else {
                                    c
                                }),
                                (if a <= c {
                                    c
                                } else {
                                    a
                                }),
                            ),
                        ),
                        None => None,
                    },
                },
                None => match xo1 {
                    Some(bb) => match xo2 {
                        Some(c) => Some(
                            (
                                (if bb <= c {
                                    bb
                                } else {
                                    c
                                }),
                                (if bb <= c {
                                    c
                                } else {
                                    bb
                                }),
                            ),
                        ),
                        None => None,
                    },
                    None => None,
                },
            };
            match span {
                None => {
                    proof {
                        assert(span_of(*self, w as int, h as int, ypx as int) is None);
                        if !normals_diag {
                            assert forall|x: int| 0 <= x < w implies #[trigger] pixel_settled(
                                *self,
                                *light,
                                *material,
                                *old(canvas),
                                *canvas,
                                x,
                                ypx as int,
                            ) by {
                                assert(!covered(*self, w as int, h as int, x, ypx as int));
                                assert(pixel_kept(*old(canvas), *canvas, x, ypx as int));
                            }
                        }
                    }
                },
                Some((xa, xb)) => {
                    proof {
                        assert(span_of(*self, w as int, h as int, ypx as int) == Some(
                            (xa as int, xb as int),
                        ));
                        assert(-0xA00_0000_0000_0000 <= xa <= 0xA00_0000_0000_0000);
                        assert(-0xA00_0000_0000_0000 <= xb <= 0xA00_0000_0000_0000);
                    }
                    let xlo0 = ceil_fix_e(xa);
                    let xhi0 = floor_fix_e(xb);
                    let xstart: i64 = if xlo0 < 0 {
                        0
                    } else {
                        xlo0
                    };
                    let xhi: i64 = if xhi0 > (w as i64) - 1 {
                        (w as i64) - 1
                    } else {
                        xhi0
                    };
                    let mut xpx: i64 = xstart;
                    proof {
                        if !normals_diag {
                            assert forall|x: int| 0 <= x < xpx && x < w implies #[trigger] pixel_settled(
                                *self,
                                *light,
                                *material,
                                *old(canvas),
                                *canvas,
                                x,
                                ypx as int,
                            ) by {
                                assert(!covered(*self, w as int, h as int, x, ypx as int));
                                assert(pixel_kept(*old(canvas), *canvas, x, ypx as int));
                            }
                        }
                    }
                    while xpx <= xhi
                        invariant
                canvas.wf(),
                evolves(*old(canvas), *canvas),
                canvas.spec_width() == w,
                canvas.spec_height() == h,
                old(canvas).spec_width() == w,
                old(canvas).spec_height() == h,
                1 <= w <= 2048,
                1 <= h <= 2048,
                triangle_in_range(*self, RENDER_LIMIT as int),
                light.wf(),
                material.wf(),
                det != 0,
                det == det_spec(*self),
                -0x800_0000_0000 <= det <= 0x800_0000_0000,
                s0.x == sxs(self.p0, w as int) && s0.y == sys(self.p0, h as int),
                s1.x == sxs(self.p1, w as int) && s1.y == sys(self.p1, h as int),
                s2.x == sxs(self.p2, w as int) && s2.y == sys(self.p2, h as int),
                mny == min3s(s0.y as int, s1.y as int, s2.y as int),
                mxy == max3s(s0.y as int, s1.y as int, s2.y as int),
                mnx == min3s(s0.x as int, s1.x as int, s2.x as int),
                mxx == max3s(s0.x as int, s1.x as int, s2.x as int),
                mxy - mny >= FLAT_EPS,
                mxx >= 0 && mnx <= (w as int) * SCALE && mxy >= 0 && mny <= (h as int) * SCALE,
                ystart as int == (if floor_fix(mny as int) > 0 {
                    floor_fix(mny as int)
                } else {
                    0
                }),
                yhi as int == (if ceil_fix(mxy as int) < h - 1 {
                    ceil_fix(mxy as int)
                } else {
                    h as int - 1
                }),
                ystart <= ypx,
                0 <= ypx,
                yhi < h as i64,
                ypx <= yhi,
                span_of(*self, w as int, h as int, ypx as int) == Some((xa as int, xb as int)),
                xstart as int == (if ceil_fix(xa as int) > 0 {
                    ceil_fix(xa as int)
                } else {
                    0
                }),
                xhi as int == (if floor_fix(xb as int) < w - 1 {
                    floor_fix(xb as int)
                } else {
                    w as int - 1
                }),
                xstart <= xpx,
                0 <= xpx,
                xhi < w as i64,
                !normals_diag ==> forall|x: int, y: int|
                    0 <= x < w && 0 <= y < ypx ==> #[trigger] pixel_settled(
                        *self,
                        *light,
                        *material,
                        *old(canvas),
                        *canvas,
                        x,
                        y,
                    ),
                !normals_diag ==> forall|x: int, y: int|
                    0 <= x < w && ypx < y < h ==> #[trigger] pixel_kept(
                        *old(canvas),
                        *canvas,
                        x,
                        y,
                    ),
                !normals_diag ==> forall|x: int|
                    0 <= x < xpx && x < w ==> #[trigger] pixel_settled(
                        *self,
                        *light,
                        *material,
                        *old(canvas),
                        *canvas,
                        x,
                        ypx as int,
                    ),
                !normals_diag ==> forall|x: int|
                    xpx <= x < w ==> #[trigger] pixel_kept(*old(canvas), *canvas, x, ypx as int),
                        decreases xhi + 1 - xpx,
                    {
                        let (wx, wy) = canvas.from_screen(xpx * SCALE, ypx * SCALE);
                        let b = Baryc::new(self, wx, wy, det);
                        proof {
                            assert(b.l0 == pix_l0(*self, w as int, h as int, xpx as int, ypx as int));
                            assert(b.l1 == pix_l1(*self, w as int, h as int, xpx as int, ypx as int));
                            assert(b.l2 == pix_l2(*self, w as int, h as int, xpx as int, ypx as int));
                        }
                        if -2 * SCALE <= b.l0 && b.l0 <= 2 * SCALE && -2 * SCALE <= b.l1 && b.l1
                            <= 2 * SCALE && -2 * SCALE <= b.l2 && b.l2 <= 2 * SCALE {
                            proof {
                                let l0 = b.l0 as int;
                                let l1 = b.l1 as int;
                                let l2 = b.l2 as int;
                            lemma_interp_bound(
                                l0,
                                l1,
                                l2,
                                self.p0.pos.x as int,
                                self.p1.pos.x as int,
                                self.p2.pos.x as int,
                                RENDER_LIMIT as int,
                            );
                            lemma_interp_bound(
                                l0,
                                l1,
                                l2,
                                self.p0.pos.y as int,
                                self.p1.pos.y as int,
                                self.p2.pos.y as int,
                                RENDER_LIMIT as int,
                            );
                            lemma_interp_bound(
                                l0,
                                l1,
                                l2,
                                self.p0.pos.z as int,
                                self.p1.pos.z as int,
                                self.p2.pos.z as int,
                                RENDER_LIMIT as int,
                            );
                            lemma_interp_bound(
                                l0,
                                l1,
                                l2,
                                self.p0.normal.x as int,
                                self.p1.normal.x as int,
                                self.p2.normal.x as int,
                                RENDER_LIMIT as int,
                            );
                            lemma_interp_bound(
                                l0,
                                l1,
                                l2,
                                self.p0.normal.y as int,
                                self.p1.normal.y as int,
                                self.p2.normal.y as int,
                                RENDER_LIMIT as int,
                            );
                            lemma_interp_bound(
                                l0,
                                l1,
                                l2,
                                self.p0.normal.z as int,
                                self.p1.normal.z as int,
                                self.p2.normal.z as int,
                                RENDER_LIMIT as int,
                            );
                            lemma_interp_bound(
                                l0,
                                l1,
                                l2,
                                self.p0.pu.x as int,
                                self.p1.pu.x as int,
                                self.p2.pu.x as int,
                                RENDER_LIMIT as int,
                            );
                            lemma_interp_bound(
                                l0,
                                l1,
                                l2,
                                self.p0.pu.y as int,
                                self.p1.pu.y as int,
                                self.p2.pu.y as int,
                                RENDER_LIMIT as int,
                            );
                            lemma_interp_bound(
                                l0,
                                l1,
                                l2,
                                self.p0.pu.z as int,
                                self.p1.pu.z as int,
                                self.p2.pu.z as int,
                                RENDER_LIMIT as int,
                            );
                            lemma_interp_bound(
                                l0,
                                l1,
                                l2,
                                self.p0.pv.x as int,
                                self.p1.pv.x as int,
                                self.p2.pv.x as int,
                                RENDER_LIMIT as int,
                            );
                            lemma_interp_bound(
                                l0,
                                l1,
                                l2,
                                self.p0.pv.y as int,
                                self.p1.pv.y as int,
                                self.p2.pv.y as int,
                                RENDER_LIMIT as int,
                            );
                            lemma_interp_bound(
                                l0,
                                l1,
                                l2,
                                self.p0.pv.z as int,
                                self.p1.pv.z as int,
                                self.p2.pv.z as int,
                                RENDER_LIMIT as int,
                            );
                            lemma_interp_bound(
                                l0,
                                l1,
                                l2,
                                self.p0.u as int,
                                self.p1.u as int,
                                self.p2.u as int,
                                RENDER_LIMIT as int,
                            );
                            lemma_interp_bound(
                                l0,
                                l1,
                                l2,
                                self.p0.v as int,
                                self.p1.v as int,
                                self.p2.v as int,
                                RENDER_LIMIT as int,
                            );
                                assert(covered(*self, w as int, h as int, xpx as int, ypx as int));
                            }
                            let p = Point3::new(
                                b.interp(self.p0.pos.x, self.p1.pos.x, self.p2.pos.x),
                                b.interp(self.p0.pos.y, self.p1.pos.y, self.p2.pos.y),
                                b.interp(self.p0.pos.z, self.p1.pos.z, self.p2.pos.z),
                            );
                            let uu = b.interp(self.p0.u, self.p1.u, self.p2.u);
                            let vv = b.interp(self.p0.v, self.p1.v, self.p2.v);
                            let ni = Vector3::new(
                                b.interp(self.p0.normal.x, self.p1.normal.x, self.p2.normal.x),
                                b.interp(self.p0.normal.y, self.p1.normal.y, self.p2.normal.y),
                                b.interp(self.p0.normal.z, self.p1.normal.z, self.p2.normal.z),
                            );
                            let pui = Vector3::new(
                                b.interp(self.p0.pu.x, self.p1.pu.x, self.p2.pu.x),
                                b.interp(self.p0.pu.y, self.p1.pu.y, self.p2.pu.y),
                                b.interp(self.p0.pu.z, self.p1.pu.z, self.p2.pu.z),
                            );
                            let pvi = Vector3::new(
                                b.interp(self.p0.pv.x, self.p1.pv.x, self.p2.pv.x),
                                b.interp(self.p0.pv.y, self.p1.pv.y, self.p2.pv.y),
                                b.interp(self.p0.pv.z, self.p1.pv.z, self.p2.pv.z),
                            );
                            let nn = ni.normalized();
                            let pun = pui.normalized();
                            let pvn = pvi.normalized();
                            let n2 = material.normal_at(uu, vv, pun, pvn, nn);
                            let nf = n2.normalized();
                            proof {
                                assert(p == pix_pos(*self, w as int, h as int, xpx as int, ypx as int));
                                assert(p.z as int == pix_depth(*self, w as int, h as int, xpx as int, ypx as int));
                                assert(uu as int == pix_u(*self, w as int, h as int, xpx as int, ypx as int));
                                assert(vv as int == pix_v(*self, w as int, h as int, xpx as int, ypx as int));
                                assert(nf == pix_shading_normal(*self, *material, w as int, h as int, xpx as int, ypx as int));
                            }
                            if normals_diag {
                                let ghost c0: Canvas = *canvas;
                                self.draw_normals(canvas, xpx as usize, ypx as usize, nf, p);
                                proof {
                                    lemma_evolves_trans(*old(canvas), c0, *canvas);
                                }
                            }
                            let cl = self.color_for(uu, vv, nf, p, light, material);
                            proof {
                                assert(cl[0] as int == pix_channel(*self, *light, *material, w as int, h as int, xpx as int, ypx as int, 0));
                                assert(cl[1] as int == pix_channel(*self, *light, *material, w as int, h as int, xpx as int, ypx as int, 1));
                                assert(cl[2] as int == pix_channel(*self, *light, *material, w as int, h as int, xpx as int, ypx as int, 2));
                            }
                            let ghost c1: Canvas = *canvas;
                            canvas.put_pixel(xpx as usize, ypx as usize, p.z, cl);
                            proof {
                                lemma_evolves_trans(*old(canvas), c1, *canvas);
                                if !normals_diag {
                                    assert(pixel_kept(*old(canvas), c1, xpx as int, ypx as int));
                                    assert(pixel_settled(
                                        *self,
                                        *light,
                                        *material,
                                        *old(canvas),
                                        *canvas,
                                        xpx as int,
                                        ypx as int,
                                    ));
                                    assert forall|x: int, y: int|
                                        0 <= x < w && 0 <= y < h && !(x == xpx as int && y
                                            == ypx as int) implies pixel_kept(c1, *canvas, x, y) by {
                                    }
                                    assert forall|x: int| 0 <= x < xpx + 1 && x < w implies #[trigger] pixel_settled(
                                        *self,
                                        *light,
                                        *material,
                                        *old(canvas),
                                        *canvas,
                                        x,
                                        ypx as int,
                                    ) by {
                                        if x < xpx {
                                            lemma_settled_stable(
                                                *self,
                                                *light,
                                                *material,
                                                *old(canvas),
                                                c1,
                                                *canvas,
                                                x,
                                                ypx as int,
                                            );
                                        }
                                    }
                                    assert forall|x: int|
                                        xpx + 1 <= x < w implies #[trigger] pixel_kept(
                                        *old(canvas),
                                        *canvas,
                                        x,
                                        ypx as int,
                                    ) by {
                                        lemma_kept_stable(*old(canvas), c1, *canvas, x, ypx as int);
                                    }
                                    assert forall|x: int, y: int|
                                        0 <= x < w && 0 <= y < ypx implies #[trigger] pixel_settled(
                                        *self,
                                        *light,
                                        *material,
                                        *old(canvas),
                                        *canvas,
                                        x,
                                        y,
                                    ) by {
                                        lemma_settled_stable(
                                            *self,
                                            *light,
                                            *material,
                                            *old(canvas),
                                            c1,
                                            *canvas,
                                            x,
                                            y,
                                        );
                                    }
                                    assert forall|x: int, y: int|
                                        0 <= x < w && ypx < y < h implies #[trigger] pixel_kept(
                                        *old(canvas),
                                        *canvas,
                                        x,
                                        y,
                                    ) by {
                                        lemma_kept_stable(*old(canvas), c1, *canvas, x, y);
                                    }
                                }
                            }
                        } else {
                            proof {
                                if !normals_diag {
                                    assert(!covered(*self, w as int, h as int, xpx as int, ypx as int));
                                    assert(pixel_kept(*old(canvas), *canvas, xpx as int, ypx as int));
                                    lemma_kept_settles(
                                        *self,
                                        *light,
                                        *material,
                                        *old(canvas),
                                        *canvas,
                                        xpx as int,
                                        ypx as int,
                                    );
                                }
                            }
                        }
                        xpx = xpx + 1;
                    }
                    proof {
                        if !normals_diag {
                            assert forall|x: int| 0 <= x < w implies #[trigger] pixel_settled(
                                *self,
                                *light,
                                *material,
                                *old(canvas),
                                *canvas,
                                x,
                                ypx as int,
                            ) by {
                                if x >= xpx {
                                    assert(!covered(*self, w as int, h as int, x, ypx as int));
                                    assert(pixel_kept(*old(canvas), *canvas, x, ypx as int));
                                }
                            }
                        }
                    }
                },
            }
            ypx = ypx + 1;
        }
        proof {
            if !normals_diag {
                assert forall|x: int, y: int| 0 <= x < w && 0 <= y < h implies #[trigger] pixel_settled(
                    *self,
                    *light,
                    *material,
                    *old(canvas),
                    *canvas,
                    x,
                    y,
                ) by {
                    if y >= ypx {
                        assert(!covered(*self, w as int, h as int, x, y));
                        assert(pixel_kept(*old(canvas), *canvas, x, y));
                    }
                }
            }
        }
    }

}

} // verus!
