//! The light: position, colour, and an animated phase that carries the
//! position around a scalloped orbit.

use vstd::prelude::*;
use crate::fixed::{tdiv, lemma_tdiv_abs, SCALE};
use crate::trig::{sin_spec, cos_spec, lemma_sin_bounds, sin_bam, cos_bam};
use crate::color::Color;
use crate::point::Point3;

verus! {

/// Largest light-coordinate magnitude the shading accepts.
pub const LIGHT_LIMIT: i64 = 0x2000_0000;

/// A point or reflector light.
#[derive(Clone, Debug)]
pub struct Light {
    pub pos: Point3,
    /// Light colour.
    pub color: Color,
    /// Animation phase, in `[0, SCALE]` for `[0, 1]` of the orbit.
    pub t: i64,
    pub is_animating: bool,
    /// Reflector exponent: 0 for an isotropic light, larger values
    /// narrow the cone.
    pub r: u32,
}

/// The orbit radius at phase `t`: a base circle, scalloped by three
/// inner loops.
pub open spec fn path_radius(t: int) -> int {
    300 * SCALE as int + 40 * sin_spec(3 * t)
}

/// The orbit position at phase `t`; a full phase is a full turn.
pub open spec fn path_x(t: int) -> int {
    tdiv(path_radius(t) * cos_spec(t), SCALE as int)
}

pub open spec fn path_y(t: int) -> int {
    tdiv(path_radius(t) * sin_spec(t), SCALE as int)
}

/// The phase after one animation step: a tenth of `dt`, wrapping past
/// one unit back to zero.
pub open spec fn next_phase(l: Light, dt: int) -> int {
    if l.is_animating {
        let t2 = l.t + tdiv(dt, 10);
        if t2 > SCALE as int {
            0
        } else {
            t2
        }
    } else {
        l.t as int
    }
}

/// The whole light after one animation step: the phase advances only
/// while animating; the position is recomputed from the phase either
/// way, so a directly set phase takes effect on the next step.
pub open spec fn advance_spec(l: Light, dt: int) -> Light {
    let t = next_phase(l, dt);
    Light {
        pos: Point3 { x: path_x(t) as i64, y: path_y(t) as i64, z: l.pos.z },
        color: l.color,
        t: t as i64,
        is_animating: l.is_animating,
        r: l.r,
    }
}

/// The orbit stays well within the light range.
pub proof fn lemma_path_bounds(t: int)
    ensures
        0 < path_radius(t) <= 340 * SCALE as int,
        -(LIGHT_LIMIT as int) <= path_x(t) <= LIGHT_LIMIT as int,
        -(LIGHT_LIMIT as int) <= path_y(t) <= LIGHT_LIMIT as int,
{
    lemma_sin_bounds(3 * t);
    lemma_sin_bounds(t);
    lemma_sin_bounds(t + (crate::fixed::QUARTER_TURN as int));
    let rad = path_radius(t);
    let s = SCALE as int;
    assert(-(340 * s * s) <= rad * cos_spec(t) <= 340 * s * s) by (nonlinear_arith)
        requires
            0 < rad <= 340 * s && -s <= cos_spec(t) <= s && s > 0;
    assert(-(340 * s * s) <= rad * sin_spec(t) <= 340 * s * s) by (nonlinear_arith)
        requires
            0 < rad <= 340 * s && -s <= sin_spec(t) <= s && s > 0;
    assert(340 * s * s == (340 * s) * s) by (nonlinear_arith);
    lemma_tdiv_abs(rad * cos_spec(t), s, 340 * s);
    lemma_tdiv_abs(rad * sin_spec(t), s, 340 * s);
}

impl Light {
    /// Colour well formed, phase within one unit, position within the
    /// range the shading accepts.
    pub open spec fn wf(&self) -> bool {
        &&& self.color.wf()
        &&& 0 <= self.t <= SCALE
        &&& -LIGHT_LIMIT <= self.pos.x <= LIGHT_LIMIT
        &&& -LIGHT_LIMIT <= self.pos.y <= LIGHT_LIMIT
        &&& -LIGHT_LIMIT <= self.pos.z <= LIGHT_LIMIT
    }

    pub fn new(pos: Point3, color: Color) -> (l: Light)
        requires
            color.wf(),
            -LIGHT_LIMIT <= pos.x <= LIGHT_LIMIT,
            -LIGHT_LIMIT <= pos.y <= LIGHT_LIMIT,
            -LIGHT_LIMIT <= pos.z <= LIGHT_LIMIT,
        ensures
            l.wf(),
            l.pos == pos,
            l.color == color,
            l.t == 0,
            l.is_animating,
            l.r == 0,
    {
        Light { pos, color, t: 0, is_animating: true, r: 0 }
    }

    /// One animation step: while animating the phase advances by a
    /// tenth of `dt` and wraps past one unit back to zero; the position
    /// is recomputed from the phase either way.
    pub fn advance_animation(&mut self, dt: i64)
        requires
            old(self).wf(),
            0 <= dt <= 10 * SCALE,
        ensures
            *final(self) == advance_spec(*old(self), dt as int),
            final(self).wf(),
            final(self).t == next_phase(*old(self), dt as int),
            0 <= final(self).t <= SCALE,
            !old(self).is_animating ==> final(self).t == old(self).t,
    {
        if self.is_animating {
            self.t = self.t + dt / 10;
            if self.t > SCALE {
                self.t = 0;
            }
        }
        proof {
            lemma_path_bounds(self.t as int);
        }
        let rad: i64 = 300 * SCALE + 40 * sin_bam(3 * self.t);
        let x: i64 = (rad * cos_bam(self.t)) / SCALE;
        let y: i64 = (rad * sin_bam(self.t)) / SCALE;
        proof {
            let s = SCALE as int;
            let t = self.t as int;
            assert(-(340 * s * s) <= rad as int * cos_spec(t) <= 340 * s * s)
                by (nonlinear_arith)
                requires
                    0 < rad as int <= 340 * s && -s <= cos_spec(t) <= s && s > 0;
            assert(-(340 * s * s) <= rad as int * sin_spec(t) <= 340 * s * s)
                by (nonlinear_arith)
                requires
                    0 < rad as int <= 340 * s && -s <= sin_spec(t) <= s && s > 0;
        }
        self.pos.x = x;
        self.pos.y = y;
    }
}

/// Once the phase stands still, one step fixes the light: with the
/// animation off, stepping a stepped light changes nothing, however
/// often it is repeated.
pub proof fn lemma_advance_steady(l: Light, dt1: int, dt2: int)
    requires
        !l.is_animating,
    ensures
        advance_spec(advance_spec(l, dt1), dt2) == advance_spec(l, dt1),
{
}

} // verus!
