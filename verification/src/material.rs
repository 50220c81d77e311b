//! Surface appearance: solid or textured colouring, diffuse and specular
//! fractions, and an optional tangent-space normal map.

use vstd::prelude::*;
use crate::fixed::{tdiv, lemma_tdiv_bounds, lemma_tdiv_abs, SCALE};
use crate::color::Color;
use crate::point::Vector3;
use crate::texture::{Texture, texel_x, texel_y, normal_channel};

verus! {

/// How the surface is coloured.
#[derive(Debug)]
pub enum Coloring {
    Solid(Color),
    Texture(Texture),
}

impl Coloring {
    pub open spec fn wf(&self) -> bool {
        match self {
            Coloring::Solid(c) => c.wf(),
            Coloring::Texture(t) => t.wf(),
        }
    }
}

/// Surface appearance parameters.
#[derive(Debug)]
pub struct Material {
    /// Base surface colour.
    pub coloring: Coloring,
    /// Map altering normal vectors; `None` leaves normals unchanged.
    pub normal_map: Option<Texture>,
    /// Diffuse fraction, in `[0, SCALE]`.
    pub kd: i64,
    /// Specular fraction, in `[0, SCALE]`.
    pub ks: i64,
    /// Specular exponent, at least 1.
    pub m: u32,
}

/// A byte channel scaled into `[0, SCALE]`.
pub open spec fn channel_unit(c: int) -> int {
    tdiv(c * (SCALE as int), 255)
}

/// The base colour a material shows under `(u, v)`.
pub open spec fn color_at_spec(mat: Material, u: int, v: int) -> Color {
    match mat.coloring {
        Coloring::Solid(c) => c,
        Coloring::Texture(t) => {
            let idx = 4 * (texel_y(t.height as int, v) * t.width as int + texel_x(
                t.width as int,
                u,
            ));
            Color {
                r: channel_unit(t.data[idx] as int) as i64,
                g: channel_unit(t.data[idx + 1] as int) as i64,
                b: channel_unit(t.data[idx + 2] as int) as i64,
            }
        },
    }
}

/// The shading normal a material yields under `(u, v)` from the
/// interpolated basis `(pu, pv, n)`.
pub open spec fn normal_at_spec(
    mat: Material,
    u: int,
    v: int,
    pu: Vector3,
    pv: Vector3,
    n: Vector3,
) -> Vector3 {
    match mat.normal_map {
        None => n,
        Some(t) => {
            let idx = 4 * (texel_y(t.height as int, v) * t.width as int + texel_x(
                t.width as int,
                u,
            ));
            let mx = normal_channel(t.data[idx] as int);
            let my = normal_channel(t.data[idx + 1] as int);
            let mz0 = normal_channel(t.data[idx + 2] as int);
            let mz = if mz0 >= 0 {
                mz0
            } else {
                0
            };
            Vector3 {
                x: tdiv(mx * pu.x + my * pv.x + mz * n.x, SCALE as int) as i64,
                y: tdiv(mx * pu.y + my * pv.y + mz * n.y, SCALE as int) as i64,
                z: tdiv(mx * pu.z + my * pv.z + mz * n.z, SCALE as int) as i64,
            }
        },
    }
}

impl Material {
    pub open spec fn wf(&self) -> bool {
        &&& self.coloring.wf()
        &&& match self.normal_map {
            Some(t) => t.wf(),
            None => true,
        }
        &&& 0 <= self.kd <= SCALE
        &&& 0 <= self.ks <= SCALE
        &&& self.m >= 1
    }

    /// The base colour under `(u, v)`: the solid colour, or the sampled
    /// texel scaled into colour units.
    pub fn color_at(&self, u: i64, v: i64) -> (c: Color)
        requires
            self.wf(),
        ensures
            c.wf(),
            c == color_at_spec(*self, u as int, v as int),
    {
        match &self.coloring {
            Coloring::Solid(c) => *c,
            Coloring::Texture(t) => {
                let s = t.sample(u, v);
                Color::new(channel_to_unit(s[0]), channel_to_unit(s[1]), channel_to_unit(s[2]))
            },
        }
    }

    /// The shading normal under `(u, v)`: the interpolated normal, or,
    /// with a normal map, the sampled tangent-space offset carried
    /// through the `(pu, pv, n)` basis.
    pub fn normal_at(&self, u: i64, v: i64, pu: Vector3, pv: Vector3, n: Vector3) -> (r: Vector3)
        requires
            self.wf(),
            -SCALE <= pu.x <= SCALE && -SCALE <= pu.y <= SCALE && -SCALE <= pu.z <= SCALE,
            -SCALE <= pv.x <= SCALE && -SCALE <= pv.y <= SCALE && -SCALE <= pv.z <= SCALE,
            -SCALE <= n.x <= SCALE && -SCALE <= n.y <= SCALE && -SCALE <= n.z <= SCALE,
        ensures
            r == normal_at_spec(*self, u as int, v as int, pu, pv, n),
            -3 * SCALE <= r.x <= 3 * SCALE,
            -3 * SCALE <= r.y <= 3 * SCALE,
            -3 * SCALE <= r.z <= 3 * SCALE,
    {
        match &self.normal_map {
            None => n,
            Some(t) => {
                let m = t.sample_normal(u, v);
                let x = basis_combine(m.x, pu.x, m.y, pv.x, m.z, n.x);
                let y = basis_combine(m.x, pu.y, m.y, pv.y, m.z, n.y);
                let z = basis_combine(m.x, pu.z, m.y, pv.z, m.z, n.z);
                Vector3::new(x, y, z)
            },
        }
    }
}

impl Default for Material {
    /// A matte-and-gloss green surface without maps.
    fn default() -> (m: Self)
        ensures
            m.wf(),
            m.coloring matches Coloring::Solid(c) && c.r == 0 && c.g == SCALE && c.b == 0,
            m.normal_map is None,
            m.kd == SCALE / 2,
            m.ks == SCALE / 2,
            m.m == 4,
    {
        Material {
            coloring: Coloring::Solid(Color::new(0, SCALE, 0)),
            normal_map: None,
            kd: SCALE / 2,
            ks: SCALE / 2,
            m: 4,
        }
    }
}

/// A byte channel scaled into `[0, SCALE]`.
fn channel_to_unit(c: u8) -> (r: i64)
    ensures
        r == channel_unit(c as int),
        0 <= r <= SCALE,
{
    proof {
        assert(0 * 255 <= c as int * (SCALE as int) && c as int * (SCALE as int) <= (SCALE as int)
            * 255) by (nonlinear_arith)
            requires
                0 <= c as int <= 255;
        lemma_tdiv_bounds(c as int * (SCALE as int), 255, 0, SCALE as int);
    }
    ((c as i64) * SCALE) / 255
}

/// One component of a tangent-space offset carried through the basis.
fn basis_combine(a: i64, ba: i64, c: i64, bc: i64, e: i64, be: i64) -> (r: i64)
    requires
        -SCALE <= a <= SCALE,
        -SCALE <= c <= SCALE,
        -SCALE <= e <= SCALE,
        -SCALE <= ba <= SCALE,
        -SCALE <= bc <= SCALE,
        -SCALE <= be <= SCALE,
    ensures
        r == tdiv(a * ba + c * bc + e * be, SCALE as int),
        -3 * SCALE <= r <= 3 * SCALE,
{
    proof {
        let sc = SCALE as int;
        assert(-(sc * sc) <= a * ba && a * ba <= sc * sc && -(sc * sc) <= c * bc && c * bc <= sc
            * sc && -(sc * sc) <= e * be && e * be <= sc * sc) by (nonlinear_arith)
            requires
                -sc <= a <= sc && -sc <= c <= sc && -sc <= e <= sc && -sc <= ba <= sc && -sc <= bc
                    <= sc && -sc <= be <= sc;
        assert((3 * sc) * sc == 3 * (sc * sc)) by (nonlinear_arith);
        lemma_tdiv_abs(a * ba + c * bc + e * be, sc, 3 * sc);
    }
    (a * ba + c * bc + e * be) / SCALE
}

} // verus!
