//! A light or surface colour with components at scale `SCALE`.

use vstd::prelude::*;
use crate::fixed::SCALE;

verus! {

/// A colour; each component lies in `[0, SCALE]`, for `[0, 1]` of full
/// intensity.
#[derive(Clone, Copy, Debug, PartialEq, Eq, Structural)]
pub struct Color {
    pub r: i64,
    pub g: i64,
    pub b: i64,
}

impl Color {
    /// All components within one unit.
    pub open spec fn wf(&self) -> bool {
        0 <= self.r <= SCALE && 0 <= self.g <= SCALE && 0 <= self.b <= SCALE
    }

    pub fn new(r: i64, g: i64, b: i64) -> (c: Self)
        requires
            0 <= r <= SCALE,
            0 <= g <= SCALE,
            0 <= b <= SCALE,
        ensures
            c.r == r,
            c.g == g,
            c.b == b,
            c.wf(),
    {
        Self { r, g, b }
    }

    pub fn r(&self) -> (v: i64)
        ensures
            v == self.r,
    {
        self.r
    }

    pub fn g(&self) -> (v: i64)
        ensures
            v == self.g,
    {
        self.g
    }

    pub fn b(&self) -> (v: i64)
        ensures
            v == self.b,
    {
        self.b
    }

    pub fn as_slice(&self) -> (s: [i64; 3])
        ensures
            s[0] == self.r,
            s[1] == self.g,
            s[2] == self.b,
    {
        [self.r, self.g, self.b]
    }

    pub fn from_slice(color: [i64; 3]) -> (c: Self)
        requires
            0 <= color[0] <= SCALE,
            0 <= color[1] <= SCALE,
            0 <= color[2] <= SCALE,
        ensures
            c.r == color[0],
            c.g == color[1],
            c.b == color[2],
            c.wf(),
    {
        Self { r: color[0], g: color[1], b: color[2] }
    }
}

} // verus!
