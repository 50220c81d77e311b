//! A software renderer for an animated, rotatable bicubic surface.
//!
//! The surface is a fixed 4 by 4 control-point grid, evaluated with
//! cubic Bernstein weights and tessellated into triangles; each frame
//! the triangles are rasterized scanline by scanline into a depth-tested
//! RGBA framebuffer, shaded by a movable, optionally orbiting light over
//! a solid or textured material with an optional normal map.
//!
//! All quantities are fixed-point: `fixed::SCALE` ticks per world unit,
//! and a full turn of `fixed::TURN` angle units.

use vstd::prelude::*;

pub mod fixed;
pub mod trig;
pub mod point;
pub mod color;
pub mod texture;
pub mod material;
pub mod canvas;
pub mod triangle;
pub mod mesh;
pub mod surface;
pub mod light;
pub mod parse;
pub mod scene;

verus! {

} // verus!
