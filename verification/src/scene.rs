//! The scene: surface, tessellated mesh, light, material and canvas-free
//! rotation bookkeeping, owned as one aggregate and mutated between
//! frames.
//!
//! The cumulative rotation about each axis is held within a quarter turn
//! either way; a step past the boundary flips by half a turn instead of
//! clamping, keeping the stored angle bounded without freezing the
//! motion.

use vstd::prelude::*;
use crate::fixed::{SCALE, QUARTER_TURN, HALF_TURN};
use crate::point::{Point3, point_rotated_ox, point_rotated_oz, ROT_LIMIT};
use crate::surface::points_in_range;
use crate::color::Color;
use crate::canvas::{Canvas, evolves};
use crate::light::{Light, advance_spec, LIGHT_LIMIT};
use crate::material::{Material, Coloring};
use crate::texture::Texture;
use crate::mesh::{Mesh, mesh_in_range};
use crate::surface::{BezierSurface, EVAL_LIMIT, tri_at};
use crate::triangle::{
    triangle_rotated_ox, triangle_rotated_oz, triangle_in_range, covered, pix_depth, pixel_kept,
    pixel_from, RENDER_LIMIT,
};
use crate::parse::{ParseError, parse_points, points_of};

verus! {

/// The renderer's state between frames.
#[derive(Debug)]
pub struct Scene {
    pub material: Material,
    pub light: Light,
    pub surface: BezierSurface,
    pub mesh: Mesh,
    pub resolution: usize,
    pub rot_ox: i64,
    pub rot_oz: i64,
}

/// Every parsed coordinate triple lies within `m` on all three axes.
pub open spec fn triples_in_range(ps: Seq<(int, int, int)>, m: int) -> bool {
    forall|i: int|
        0 <= i < ps.len() ==> -m <= (#[trigger] ps[i]).0 <= m && -m <= ps[i].1 <= m && -m
            <= ps[i].2 <= m
}

/// A cumulative angle stepped past the quarter-turn boundary flips by
/// half a turn.
pub open spec fn flip(r: int) -> int {
    if r < -(QUARTER_TURN as int) {
        r + HALF_TURN as int
    } else if r > QUARTER_TURN as int {
        r - HALF_TURN as int
    } else {
        r
    }
}

impl Scene {
    pub open spec fn wf(&self) -> bool {
        &&& self.material.wf()
        &&& self.light.wf()
        &&& self.surface.wf()
        &&& self.mesh.wf()
        &&& self.mesh.resolution == self.resolution
        &&& 2 <= self.resolution <= 1025
        &&& -QUARTER_TURN <= self.rot_ox <= QUARTER_TURN
        &&& -QUARTER_TURN <= self.rot_oz <= QUARTER_TURN
    }

    /// Builds a scene from control-point text: the sixteen points are
    /// parsed, range-checked, and tessellated at the starting
    /// resolution, under a white light and the default material.
    ///
    /// Success is owed: text whose sixteen points parse and lie within
    /// the evaluation range yields a scene, built from exactly those
    /// points; each error names what went wrong, if and only if it did.
    pub fn from_text(text: &[u8]) -> (r: Result<Scene, ParseError>)
        ensures
            match r {
                Ok(sc) => {
                    &&& points_of(text@, 0, 0) is Ok
                    &&& triples_in_range(points_of(text@, 0, 0)->Ok_0, EVAL_LIMIT as int)
                    &&& sc.wf()
                    &&& sc.surface.pts@.len() == 16
                    &&& forall|i: int|
                        0 <= i < 16 ==> (#[trigger] sc.surface.pts@[i]).x == points_of(
                            text@,
                            0,
                            0,
                        )->Ok_0[i].0 && sc.surface.pts@[i].y == points_of(text@, 0, 0)->Ok_0[i].1
                            && sc.surface.pts@[i].z == points_of(text@, 0, 0)->Ok_0[i].2
                    &&& sc.resolution == 30
                    &&& sc.rot_ox == 0 && sc.rot_oz == 0
                    &&& forall|i: int|
                        0 <= i < sc.mesh.triangles@.len() ==> #[trigger] sc.mesh.triangles@[i]
                            == tri_at(sc.surface.pts@, 30, i)
                    &&& sc.light.pos.x == -600 * SCALE && sc.light.pos.y == 700 * SCALE
                        && sc.light.pos.z == 300 * SCALE
                    &&& sc.light.color.r == SCALE && sc.light.color.g == SCALE
                        && sc.light.color.b == SCALE
                    &&& sc.light.t == 0 && sc.light.is_animating && sc.light.r == 0
                    &&& sc.material.kd == SCALE / 2 && sc.material.ks == SCALE / 2
                        && sc.material.m == 4 && sc.material.normal_map is None
                    &&& sc.material.coloring matches Coloring::Solid(c) && c.r == 0 && c.g == SCALE
                        && c.b == 0
                },
                Err(e) => {
                    ||| points_of(text@, 0, 0) == Err::<Seq<(int, int, int)>, ParseError>(e)
                    ||| (e == ParseError::OutOfRange && points_of(text@, 0, 0) is Ok
                        && !triples_in_range(points_of(text@, 0, 0)->Ok_0, EVAL_LIMIT as int))
                },
            },
    {
        let pts = match parse_points(text) {
            Ok(v) => v,
            Err(e) => {
                return Err(e);
            },
        };
        let surface_opt = BezierSurface::from_points(pts);
        proof {
            assert(surface_opt is Some);
        }
        let surface = surface_opt.unwrap();
        let in_range = surface.coords_within(EVAL_LIMIT);
        proof {
            crate::parse::lemma_points_of_len(text@, 0, 0);
            let ps = points_of(text@, 0, 0)->Ok_0;
            assert(ps.len() == 16);
            if in_range {
                assert forall|i: int|
                    0 <= i < ps.len() implies -EVAL_LIMIT <= (#[trigger] ps[i]).0 <= EVAL_LIMIT
                    && -EVAL_LIMIT <= ps[i].1 <= EVAL_LIMIT && -EVAL_LIMIT <= ps[i].2
                    <= EVAL_LIMIT by {
                    assert(-EVAL_LIMIT <= surface.pts@[i].x <= EVAL_LIMIT);
                }
            } else {
                assert(!triples_in_range(ps, EVAL_LIMIT as int)) by {
                    if triples_in_range(ps, EVAL_LIMIT as int) {
                        assert forall|i: int|
                            0 <= i < surface.pts@.len() implies -EVAL_LIMIT
                            <= (#[trigger] surface.pts@[i]).x <= EVAL_LIMIT && -EVAL_LIMIT
                            <= surface.pts@[i].y <= EVAL_LIMIT && -EVAL_LIMIT <= surface.pts@[i].z
                            <= EVAL_LIMIT by {
                            assert(-EVAL_LIMIT <= (ps[i]).0 <= EVAL_LIMIT);
                        }
                    }
                }
            }
        }
        if !in_range {
            return Err(ParseError::OutOfRange);
        }
        let mesh = surface.triangulate(30);
        let light = Light::new(
            Point3::new(-600 * SCALE, 700 * SCALE, 300 * SCALE),
            Color::new(SCALE, SCALE, SCALE),
        );
        Ok(
            Scene {
                material: Material::default(),
                light,
                surface,
                mesh,
                resolution: 30,
                rot_ox: 0,
                rot_oz: 0,
            },
        )
    }

    pub fn rot_ox(&self) -> (r: i64)
        ensures
            r == self.rot_ox,
    {
        self.rot_ox
    }

    pub fn rot_oz(&self) -> (r: i64)
        ensures
            r == self.rot_oz,
    {
        self.rot_oz
    }

    pub fn mesh_resolution(&self) -> (r: usize)
        ensures
            r == self.resolution,
    {
        self.resolution
    }

    /// Rotates surface and mesh in lockstep about the world X axis and
    /// steps the stored angle, flipping at the boundary.  A scene whose
    /// coordinates have left the rotation range is left unchanged.
    pub fn rotate_ox(&mut self, delta: i64) -> (applied: bool)
        requires
            old(self).wf(),
            -QUARTER_TURN <= delta <= QUARTER_TURN,
        ensures
            final(self).wf(),
            applied <==> points_in_range(old(self).surface.pts@, ROT_LIMIT as int)
                && mesh_in_range(old(self).mesh.triangles@, ROT_LIMIT as int),
            !applied ==> *final(self) == *old(self),
            applied ==> {
                &&& final(self).rot_ox == flip(old(self).rot_ox + delta)
                &&& final(self).rot_oz == old(self).rot_oz
                &&& final(self).resolution == old(self).resolution
                &&& final(self).material == old(self).material
                &&& final(self).light == old(self).light
                &&& forall|i: int|
                    0 <= i < old(self).surface.pts@.len() ==> point_rotated_ox(
                        delta as int,
                        old(self).surface.pts@[i],
                        #[trigger] final(self).surface.pts@[i],
                    )
                &&& forall|i: int|
                    0 <= i < old(self).mesh.triangles@.len() ==> triangle_rotated_ox(
                        delta as int,
                        old(self).mesh.triangles@[i],
                        #[trigger] final(self).mesh.triangles@[i],
                    )
            },
    {
        if self.surface.coords_within(ROT_LIMIT) && self.mesh.coords_within(ROT_LIMIT) {
            let nr = self.rot_ox + delta;
            self.rot_ox = if nr < -QUARTER_TURN {
                nr + HALF_TURN
            } else if nr > QUARTER_TURN {
                nr - HALF_TURN
            } else {
                nr
            };
            self.surface.rotate_ox(delta);
            self.mesh.rotate_ox(delta);
            true
        } else {
            false
        }
    }

    /// Rotates surface and mesh in lockstep about the world Z axis and
    /// steps the stored angle, flipping at the boundary.
    pub fn rotate_oz(&mut self, delta: i64) -> (applied: bool)
        requires
            old(self).wf(),
            -QUARTER_TURN <= delta <= QUARTER_TURN,
        ensures
            final(self).wf(),
            applied <==> points_in_range(old(self).surface.pts@, ROT_LIMIT as int)
                && mesh_in_range(old(self).mesh.triangles@, ROT_LIMIT as int),
            !applied ==> *final(self) == *old(self),
            applied ==> {
                &&& final(self).rot_oz == flip(old(self).rot_oz + delta)
                &&& final(self).rot_ox == old(self).rot_ox
                &&& final(self).resolution == old(self).resolution
                &&& final(self).material == old(self).material
                &&& final(self).light == old(self).light
                &&& forall|i: int|
                    0 <= i < old(self).surface.pts@.len() ==> point_rotated_oz(
                        delta as int,
                        old(self).surface.pts@[i],
                        #[trigger] final(self).surface.pts@[i],
                    )
                &&& forall|i: int|
                    0 <= i < old(self).mesh.triangles@.len() ==> triangle_rotated_oz(
                        delta as int,
                        old(self).mesh.triangles@[i],
                        #[trigger] final(self).mesh.triangles@[i],
                    )
            },
    {
        if self.surface.coords_within(ROT_LIMIT) && self.mesh.coords_within(ROT_LIMIT) {
            let nr = self.rot_oz + delta;
            self.rot_oz = if nr < -QUARTER_TURN {
                nr + HALF_TURN
            } else if nr > QUARTER_TURN {
                nr - HALF_TURN
            } else {
                nr
            };
            self.surface.rotate_oz(delta);
            self.mesh.rotate_oz(delta);
            true
        } else {
            false
        }
    }

    /// Re-tessellates at a new resolution; a resolution under 2 or
    /// beyond the supported range, or a surface outside the evaluation
    /// range, is rejected and nothing changes.
    pub fn set_mesh_resolution(&mut self, res: usize) -> (applied: bool)
        requires
            old(self).wf(),
        ensures
            final(self).wf(),
            applied <==> (2 <= res <= 1025 && points_in_range(
                old(self).surface.pts@,
                EVAL_LIMIT as int,
            )),
            !applied ==> *final(self) == *old(self),
            applied ==> final(self).resolution == res && final(self).mesh.triangles@.len() == 2 * (
            res - 1) * (res - 1) && final(self).surface == old(self).surface && final(self).material
                == old(self).material && final(self).light == old(self).light && final(self).rot_ox
                == old(self).rot_ox && final(self).rot_oz == old(self).rot_oz && (forall|i: int|
                0 <= i < final(self).mesh.triangles@.len()
                    ==> #[trigger] final(self).mesh.triangles@[i] == tri_at(
                    old(self).surface.pts@,
                    res as int,
                    i,
                )),
    {
        if 2 <= res && res <= 1025 && self.surface.coords_within(EVAL_LIMIT) {
            self.mesh = self.surface.triangulate(res);
            self.resolution = res;
            true
        } else {
            false
        }
    }

    /// The solid material colour, or black when a texture is set.
    pub fn material_color(&self) -> (c: [i64; 3])
        ensures
            match self.material.coloring {
                Coloring::Solid(s) => c[0] == s.r && c[1] == s.g && c[2] == s.b,
                Coloring::Texture(_) => c[0] == 0 && c[1] == 0 && c[2] == 0,
            },
    {
        match &self.material.coloring {
            Coloring::Solid(c) => c.as_slice(),
            Coloring::Texture(_) => [0, 0, 0],
        }
    }

    pub fn set_material_color(&mut self, color: [i64; 3])
        requires
            old(self).wf(),
            0 <= color[0] <= SCALE,
            0 <= color[1] <= SCALE,
            0 <= color[2] <= SCALE,
        ensures
            final(self).wf(),
            final(self).material.coloring matches Coloring::Solid(c) && c.r == color[0] && c.g
                == color[1] && c.b == color[2],
            final(self).material.normal_map == old(self).material.normal_map,
            final(self).material.kd == old(self).material.kd,
            final(self).material.ks == old(self).material.ks,
            final(self).material.m == old(self).material.m,
            final(self).light == old(self).light,
            final(self).mesh == old(self).mesh,
            final(self).surface == old(self).surface,
            final(self).resolution == old(self).resolution,
            final(self).rot_ox == old(self).rot_ox,
            final(self).rot_oz == old(self).rot_oz,
    {
        self.material.coloring = Coloring::Solid(Color::from_slice(color));
    }

    pub fn light_color(&self) -> (c: [i64; 3])
        ensures
            c[0] == self.light.color.r,
            c[1] == self.light.color.g,
            c[2] == self.light.color.b,
    {
        self.light.color.as_slice()
    }

    pub fn set_light_color(&mut self, color: [i64; 3])
        requires
            old(self).wf(),
            0 <= color[0] <= SCALE,
            0 <= color[1] <= SCALE,
            0 <= color[2] <= SCALE,
        ensures
            final(self).wf(),
            final(self).light.color.r == color[0],
            final(self).light.color.g == color[1],
            final(self).light.color.b == color[2],
            final(self).light.pos == old(self).light.pos,
            final(self).light.t == old(self).light.t,
            final(self).light.is_animating == old(self).light.is_animating,
            final(self).light.r == old(self).light.r,
    {
        self.light.color = Color::from_slice(color);
    }

    /// Replaces the material's base colouring with a texture.
    pub fn set_texture(&mut self, t: Texture)
        requires
            old(self).wf(),
            t.wf(),
        ensures
            final(self).wf(),
            final(self).material.coloring matches Coloring::Texture(held) && held.width == t.width
                && held.height == t.height && held.data@ == t.data@,
    {
        self.material.coloring = Coloring::Texture(t);
    }

    /// Installs a tangent-space normal map.
    pub fn set_normal_map(&mut self, t: Texture)
        requires
            old(self).wf(),
            t.wf(),
        ensures
            final(self).wf(),
            final(self).material.normal_map matches Some(held) && held.width == t.width
                && held.height == t.height && held.data@ == t.data@,
    {
        self.material.normal_map = Some(t);
    }

    /// Removes the normal map; interpolated normals are used unchanged.
    pub fn clear_normal_map(&mut self)
        requires
            old(self).wf(),
        ensures
            final(self).wf(),
            final(self).material.normal_map is None,
    {
        self.material.normal_map = None;
    }

    /// Sets the diffuse and specular fractions and the specular
    /// exponent.
    pub fn set_material_params(&mut self, kd: i64, ks: i64, m: u32)
        requires
            old(self).wf(),
            0 <= kd <= SCALE,
            0 <= ks <= SCALE,
            m >= 1,
        ensures
            final(self).wf(),
            final(self).material.kd == kd,
            final(self).material.ks == ks,
            final(self).material.m == m,
    {
        self.material.kd = kd;
        self.material.ks = ks;
        self.material.m = m;
    }

    /// Sets the light's height above the surface plane.
    pub fn set_light_z(&mut self, z: i64)
        requires
            old(self).wf(),
            -LIGHT_LIMIT <= z <= LIGHT_LIMIT,
        ensures
            final(self).wf(),
            final(self).light.pos.z == z,
            final(self).light.pos.x == old(self).light.pos.x,
            final(self).light.pos.y == old(self).light.pos.y,
    {
        self.light.pos.z = z;
    }

    /// Starts or stops the light's orbit.
    pub fn set_light_animating(&mut self, on: bool)
        requires
            old(self).wf(),
        ensures
            final(self).wf(),
            final(self).light.is_animating == on,
            final(self).light.t == old(self).light.t,
            final(self).light.pos == old(self).light.pos,
    {
        self.light.is_animating = on;
    }

    /// Sets the orbit phase directly; the next animation step moves the
    /// light onto the orbit point it names.
    pub fn set_light_phase(&mut self, t: i64)
        requires
            old(self).wf(),
            0 <= t <= SCALE,
        ensures
            final(self).wf(),
            final(self).light.t == t,
    {
        self.light.t = t;
    }

    /// Sets the reflector exponent; zero restores the isotropic light.
    pub fn set_reflector(&mut self, r: u32)
        requires
            old(self).wf(),
        ensures
            final(self).wf(),
            final(self).light.r == r,
    {
        self.light.r = r;
    }

    /// One light animation step.
    pub fn advance_light(&mut self, dt: i64)
        requires
            old(self).wf(),
            0 <= dt <= 10 * SCALE,
        ensures
            final(self).wf(),
            final(self).light == advance_spec(old(self).light, dt as int),
            final(self).mesh == old(self).mesh,
            final(self).surface == old(self).surface,
            final(self).material == old(self).material,
    {
        self.light.advance_animation(dt);
    }

    /// Rasterizes the whole mesh into the canvas.
    ///
    /// Without the diagnostic overlay the outcome is pinned both ways:
    /// the depth buffer ends at or below every in-range triangle's
    /// covered candidate depth, and every pixel either keeps its old
    /// state or holds some in-range triangle's rasterization verbatim.
    pub fn draw_fillings(&self, canvas: &mut Canvas, normals_diag: bool)
        requires
            self.wf(),
            old(canvas).wf(),
        ensures
            evolves(*old(canvas), *final(canvas)),
            !normals_diag ==> forall|i: int, x: int, y: int|
                0 <= i < self.mesh.triangles@.len() && triangle_in_range(
                    self.mesh.triangles@[i],
                    RENDER_LIMIT as int,
                ) && 0 <= x < old(canvas).spec_width() && 0 <= y < old(canvas).spec_height()
                    && #[trigger] covered(
                    self.mesh.triangles@[i],
                    old(canvas).spec_width() as int,
                    old(canvas).spec_height() as int,
                    x,
                    y,
                ) ==> final(canvas).depth_of(x, y) <= pix_depth(
                    self.mesh.triangles@[i],
                    old(canvas).spec_width() as int,
                    old(canvas).spec_height() as int,
                    x,
                    y,
                ),
            !normals_diag ==> forall|x: int, y: int|
                0 <= x < old(canvas).spec_width() && 0 <= y < old(canvas).spec_height()
                    ==> #[trigger] pixel_kept(*old(canvas), *final(canvas), x, y) || exists|i: int|
                    0 <= i < self.mesh.triangles@.len() && triangle_in_range(
                        self.mesh.triangles@[i],
                        RENDER_LIMIT as int,
                    ) && #[trigger] pixel_from(
                        self.mesh.triangles@[i],
                        self.light,
                        self.material,
                        *final(canvas),
                        x,
                        y,
                    ),
    {
        self.mesh.draw_fillings(canvas, &self.light, &self.material, normals_diag);
    }
}

} // verus!
