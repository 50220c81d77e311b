//! The tessellated surface: an ordered triangle list with its
//! tessellation resolution.

use vstd::prelude::*;
use crate::fixed::QUARTER_TURN;
use crate::point::ROT_LIMIT;
use crate::canvas::{Canvas, evolves, lemma_evolves_trans, lemma_evolves_refl};
use crate::light::Light;
use crate::material::Material;
use crate::triangle::{
    Triangle, triangle_in_range, triangle_rotated_ox, triangle_rotated_oz,
    lemma_triangle_roundtrip_ox, lemma_triangle_roundtrip_oz, covered, pix_depth, pixel_kept,
    pixel_from, pixel_settled, lemma_kept_stable, lemma_from_stable, RENDER_LIMIT,
};
use crate::canvas::lemma_evolves_pixel;

verus! {

/// An ordered triangle list from one tessellation pass.
#[derive(Debug)]
pub struct Mesh {
    pub triangles: Vec<Triangle>,
    pub resolution: usize,
}

/// All triangles within `m`.
pub open spec fn mesh_in_range(ts: Seq<Triangle>, m: int) -> bool {
    forall|i: int| 0 <= i < ts.len() ==> triangle_in_range(#[trigger] ts[i], m)
}

impl Mesh {
    /// The triangle count a tessellation at this resolution yields.
    pub open spec fn wf(&self) -> bool {
        &&& 2 <= self.resolution
        &&& self.triangles@.len() == 2 * (self.resolution - 1) * (self.resolution - 1)
    }

    pub fn new(triangles: Vec<Triangle>, resolution: usize) -> (m: Mesh)
        requires
            2 <= resolution,
            triangles@.len() == 2 * (resolution - 1) * (resolution - 1),
        ensures
            m.wf(),
            m.triangles == triangles,
            m.resolution == resolution,
    {
        Mesh { triangles, resolution }
    }

    pub fn resolution(&self) -> (r: usize)
        ensures
            r == self.resolution,
    {
        self.resolution
    }

    /// Whether every triangle's coordinates lie within `m`.
    pub fn coords_within(&self, m: i64) -> (r: bool)
        requires
            m >= 0,
        ensures
            r <==> mesh_in_range(self.triangles@, m as int),
    {
        let n = self.triangles.len();
        let mut k: usize = 0;
        while k < n
            invariant
                k <= n,
                n == self.triangles@.len(),
                m >= 0,
                forall|i: int|
                    0 <= i < k ==> triangle_in_range(#[trigger] self.triangles@[i], m as int),
            decreases n - k,
        {
            let t = &self.triangles[k];
            if !(vertex_within(&t.p0, m) && vertex_within(&t.p1, m) && vertex_within(&t.p2, m)) {
                return false;
            }
            k = k + 1;
        }
        true
    }

    /// Rotates every triangle about the world X axis by `a` angle units.
    pub fn rotate_ox(&mut self, a: i64)
        requires
            -QUARTER_TURN <= a && a <= QUARTER_TURN,
            mesh_in_range(old(self).triangles@, ROT_LIMIT as int),
        ensures
            final(self).resolution == old(self).resolution,
            final(self).triangles@.len() == old(self).triangles@.len(),
            forall|i: int|
                0 <= i < old(self).triangles@.len() ==> triangle_rotated_ox(
                    a as int,
                    old(self).triangles@[i],
                    #[trigger] final(self).triangles@[i],
                ),
            mesh_in_range(final(self).triangles@, 5 * ROT_LIMIT as int),
    {
        let n = self.triangles.len();
        let mut k: usize = 0;
        while k < n
            invariant
                k <= n,
                n == self.triangles@.len(),
                self.triangles@.len() == old(self).triangles@.len(),
                self.resolution == old(self).resolution,
                -QUARTER_TURN <= a && a <= QUARTER_TURN,
                mesh_in_range(old(self).triangles@, ROT_LIMIT as int),
                forall|i: int| k <= i < n ==> self.triangles@[i] == old(self).triangles@[i],
                forall|i: int|
                    0 <= i < k ==> triangle_rotated_ox(
                        a as int,
                        old(self).triangles@[i],
                        #[trigger] self.triangles@[i],
                    ),
                forall|i: int|
                    0 <= i < k ==> triangle_in_range(#[trigger] self.triangles@[i], 5 * ROT_LIMIT as int),
            decreases n - k,
        {
            let mut t = self.triangles[k];
            t.rotate_ox(a);
            self.triangles[k] = t;
            k = k + 1;
        }
    }

    /// Rotates every triangle about the world Z axis by `a` angle units.
    pub fn rotate_oz(&mut self, a: i64)
        requires
            -QUARTER_TURN <= a && a <= QUARTER_TURN,
            mesh_in_range(old(self).triangles@, ROT_LIMIT as int),
        ensures
            final(self).resolution == old(self).resolution,
            final(self).triangles@.len() == old(self).triangles@.len(),
            forall|i: int|
                0 <= i < old(self).triangles@.len() ==> triangle_rotated_oz(
                    a as int,
                    old(self).triangles@[i],
                    #[trigger] final(self).triangles@[i],
                ),
            mesh_in_range(final(self).triangles@, 5 * ROT_LIMIT as int),
    {
        let n = self.triangles.len();
        let mut k: usize = 0;
        while k < n
            invariant
                k <= n,
                n == self.triangles@.len(),
                self.triangles@.len() == old(self).triangles@.len(),
                self.resolution == old(self).resolution,
                -QUARTER_TURN <= a && a <= QUARTER_TURN,
                mesh_in_range(old(self).triangles@, ROT_LIMIT as int),
                forall|i: int| k <= i < n ==> self.triangles@[i] == old(self).triangles@[i],
                forall|i: int|
                    0 <= i < k ==> triangle_rotated_oz(
                        a as int,
                        old(self).triangles@[i],
                        #[trigger] self.triangles@[i],
                    ),
                forall|i: int|
                    0 <= i < k ==> triangle_in_range(#[trigger] self.triangles@[i], 5 * ROT_LIMIT as int),
            decreases n - k,
        {
            let mut t = self.triangles[k];
            t.rotate_oz(a);
            self.triangles[k] = t;
            k = k + 1;
        }
    }

    /// The triangles, for callers that stroke or project them.
    pub fn triangles(&self) -> (t: &Vec<Triangle>)
        ensures
            t@ == self.triangles@,
    {
        &self.triangles
    }

    /// Rasterizes every triangle into the canvas, in list order; the
    /// depth test makes the outcome independent of that order.  A
    /// triangle whose coordinates exceed the render range contributes no
    /// pixels.
    ///
    /// Without the diagnostic overlay the contract pins the pass both
    /// ways: the depth buffer ends at or below every in-range triangle's
    /// covered candidate depth, and every pixel either keeps its old
    /// state or holds some in-range triangle's rasterization verbatim.
    pub fn draw_fillings(
        &self,
        canvas: &mut Canvas,
        light: &Light,
        material: &Material,
        normals_diag: bool,
    )
        requires
            old(canvas).wf(),
            light.wf(),
            material.wf(),
        ensures
            evolves(*old(canvas), *final(canvas)),
            !normals_diag ==> forall|i: int, x: int, y: int|
                0 <= i < self.triangles@.len() && triangle_in_range(
                    self.triangles@[i],
                    RENDER_LIMIT as int,
                ) && 0 <= x < old(canvas).spec_width() && 0 <= y < old(canvas).spec_height()
                    && #[trigger] covered(
                    self.triangles@[i],
                    old(canvas).spec_width() as int,
                    old(canvas).spec_height() as int,
                    x,
                    y,
                ) ==> final(canvas).depth_of(x, y) <= pix_depth(
                    self.triangles@[i],
                    old(canvas).spec_width() as int,
                    old(canvas).spec_height() as int,
                    x,
                    y,
                ),
            !normals_diag ==> forall|x: int, y: int|
                0 <= x < old(canvas).spec_width() && 0 <= y < old(canvas).spec_height()
                    ==> #[trigger] pixel_kept(*old(canvas), *final(canvas), x, y) || exists|i: int|
                    0 <= i < self.triangles@.len() && triangle_in_range(
                        self.triangles@[i],
                        RENDER_LIMIT as int,
                    ) && #[trigger] pixel_from(
                        self.triangles@[i],
                        *light,
                        *material,
                        *final(canvas),
                        x,
                        y,
                    ),
    {
        proof {
            lemma_evolves_refl(*old(canvas));
        }
        let ghost w = old(canvas).spec_width() as int;
        let ghost h = old(canvas).spec_height() as int;
        let n = self.triangles.len();
        let mut k: usize = 0;
        while k < n
            invariant
                k <= n,
                n == self.triangles@.len(),
                canvas.wf(),
                evolves(*old(canvas), *canvas),
                canvas.spec_width() == old(canvas).spec_width(),
                canvas.spec_height() == old(canvas).spec_height(),
                w == old(canvas).spec_width() as int,
                h == old(canvas).spec_height() as int,
                light.wf(),
                material.wf(),
                !normals_diag ==> forall|i: int, x: int, y: int|
                    0 <= i < k && triangle_in_range(self.triangles@[i], RENDER_LIMIT as int) && 0
                        <= x < w && 0 <= y < h && #[trigger] covered(self.triangles@[i], w, h, x, y)
                        ==> canvas.depth_of(x, y) <= pix_depth(self.triangles@[i], w, h, x, y),
                !normals_diag ==> forall|x: int, y: int|
                    0 <= x < w && 0 <= y < h ==> #[trigger] pixel_kept(*old(canvas), *canvas, x, y)
                        || exists|i: int|
                        0 <= i < k && triangle_in_range(self.triangles@[i], RENDER_LIMIT as int)
                            && #[trigger] pixel_from(
                            self.triangles@[i],
                            *light,
                            *material,
                            *canvas,
                            x,
                            y,
                        ),
            decreases n - k,
        {
            let t = &self.triangles[k];
            if vertex_within(&t.p0, RENDER_LIMIT) && vertex_within(&t.p1, RENDER_LIMIT)
                && vertex_within(&t.p2, RENDER_LIMIT) {
                let ghost c0: Canvas = *canvas;
                t.draw_filling(canvas, light, material, normals_diag);
                proof {
                    lemma_evolves_trans(*old(canvas), c0, *canvas);
                    if !normals_diag {
                        assert forall|i: int, x: int, y: int|
                            0 <= i < k + 1 && triangle_in_range(
                                self.triangles@[i],
                                RENDER_LIMIT as int,
                            ) && 0 <= x < w && 0 <= y < h && #[trigger] covered(
                                self.triangles@[i],
                                w,
                                h,
                                x,
                                y,
                            ) implies canvas.depth_of(x, y) <= pix_depth(
                            self.triangles@[i],
                            w,
                            h,
                            x,
                            y,
                        ) by {
                            assert(pixel_settled(
                                self.triangles@[k as int],
                                *light,
                                *material,
                                c0,
                                *canvas,
                                x,
                                y,
                            ));
                            if i < k {
                                lemma_evolves_pixel(c0, *canvas, x, y);
                            }
                        }
                        assert forall|x: int, y: int| 0 <= x < w && 0 <= y < h implies #[trigger] pixel_kept(
                            *old(canvas),
                            *canvas,
                            x,
                            y,
                        ) || exists|i: int|
                            0 <= i < k + 1 && triangle_in_range(
                                self.triangles@[i],
                                RENDER_LIMIT as int,
                            ) && #[trigger] pixel_from(
                                self.triangles@[i],
                                *light,
                                *material,
                                *canvas,
                                x,
                                y,
                            ) by {
                            assert(pixel_settled(
                                self.triangles@[k as int],
                                *light,
                                *material,
                                c0,
                                *canvas,
                                x,
                                y,
                            ));
                            if covered(self.triangles@[k as int], w, h, x, y) && pix_depth(
                                self.triangles@[k as int],
                                w,
                                h,
                                x,
                                y,
                            ) < c0.depth_of(x, y) {
                                assert(pixel_from(
                                    self.triangles@[k as int],
                                    *light,
                                    *material,
                                    *canvas,
                                    x,
                                    y,
                                ));
                            } else {
                                assert(pixel_kept(c0, *canvas, x, y));
                                if pixel_kept(*old(canvas), c0, x, y) {
                                    lemma_kept_stable(*old(canvas), c0, *canvas, x, y);
                                } else {
                                    let j = choose|j: int|
                                        0 <= j < k && triangle_in_range(
                                            self.triangles@[j],
                                            RENDER_LIMIT as int,
                                        ) && #[trigger] pixel_from(
                                            self.triangles@[j],
                                            *light,
                                            *material,
                                            c0,
                                            x,
                                            y,
                                        );
                                    lemma_from_stable(
                                        self.triangles@[j],
                                        *light,
                                        *material,
                                        c0,
                                        *canvas,
                                        x,
                                        y,
                                    );
                                }
                            }
                        }
                    }
                }
            }
            k = k + 1;
        }
    }
}

/// Rotating every triangle of a mesh by `a` and then by `-a` about the X
/// axis restores the whole triangle list exactly.
pub proof fn lemma_mesh_roundtrip_ox(a: int, s0: Seq<Triangle>, s1: Seq<Triangle>, s2: Seq<Triangle>)
    requires
        -(QUARTER_TURN as int) <= a <= QUARTER_TURN as int,
        s0.len() == s1.len() == s2.len(),
        forall|i: int| 0 <= i < s0.len() ==> triangle_rotated_ox(a, s0[i], #[trigger] s1[i]),
        forall|i: int| 0 <= i < s1.len() ==> triangle_rotated_ox(-a, s1[i], #[trigger] s2[i]),
    ensures
        s2 == s0,
{
    assert forall|i: int| 0 <= i < s0.len() implies s2[i] == #[trigger] s0[i] by {
        lemma_triangle_roundtrip_ox(a, s0[i], s1[i], s2[i]);
    }
    assert(s2 =~= s0);
}

/// Rotating every triangle of a mesh by `a` and then by `-a` about the Z
/// axis restores the whole triangle list exactly.
pub proof fn lemma_mesh_roundtrip_oz(a: int, s0: Seq<Triangle>, s1: Seq<Triangle>, s2: Seq<Triangle>)
    requires
        -(QUARTER_TURN as int) <= a <= QUARTER_TURN as int,
        s0.len() == s1.len() == s2.len(),
        forall|i: int| 0 <= i < s0.len() ==> triangle_rotated_oz(a, s0[i], #[trigger] s1[i]),
        forall|i: int| 0 <= i < s1.len() ==> triangle_rotated_oz(-a, s1[i], #[trigger] s2[i]),
    ensures
        s2 == s0,
{
    assert forall|i: int| 0 <= i < s0.len() implies s2[i] == #[trigger] s0[i] by {
        lemma_triangle_roundtrip_oz(a, s0[i], s1[i], s2[i]);
    }
    assert(s2 =~= s0);
}

/// Whether every coordinate the vertex carries lies within `m`.
fn vertex_within(v: &crate::triangle::Vertex, m: i64) -> (r: bool)
    requires
        m >= 0,
    ensures
        r <==> crate::triangle::vertex_in_range(*v, m as int),
{
    -m <= v.pos.x && v.pos.x <= m && -m <= v.pos.y && v.pos.y <= m && -m <= v.pos.z && v.pos.z
        <= m && -m <= v.normal.x && v.normal.x <= m && -m <= v.normal.y && v.normal.y <= m && -m
        <= v.normal.z && v.normal.z <= m && -m <= v.pu.x && v.pu.x <= m && -m <= v.pu.y && v.pu.y
        <= m && -m <= v.pu.z && v.pu.z <= m && -m <= v.pv.x && v.pv.x <= m && -m <= v.pv.y
        && v.pv.y <= m && -m <= v.pv.z && v.pv.z <= m && -m <= v.u && v.u <= m && -m <= v.v && v.v
        <= m
}

} // verus!
