//! A sampled RGBA image: row-major bytes, origin at the top left,
//! immutable once built.

use vstd::prelude::*;
use crate::fixed::{tdiv, clamp_spec, clamp_i64, lemma_tdiv_bounds, SCALE};
use crate::point::Vector3;

verus! {

/// Widest image edge accepted.
pub const MAX_TEXTURE_DIM: u32 = 16384;

/// A decoded RGBA image.
#[derive(Debug)]
pub struct Texture {
    pub width: u32,
    pub height: u32,
    pub data: Vec<u8>,
}

/// The texel column sampled for the horizontal coordinate `u` (at scale
/// `SCALE`, clamped to one unit).
pub open spec fn texel_x(width: int, u: int) -> int {
    tdiv(clamp_spec(u, 0, SCALE as int) * (width - 1), SCALE as int)
}

/// The texel row sampled for the vertical coordinate `v`; the image
/// origin is the top-left, so `v` is flipped.
pub open spec fn texel_y(height: int, v: int) -> int {
    tdiv((SCALE as int - clamp_spec(v, 0, SCALE as int)) * (height - 1), SCALE as int)
}

/// A tangent-space normal component decoded from a byte channel:
/// `[0, 255]` maps onto `[-1, 1]` of a unit.
pub open spec fn normal_channel(c: int) -> int {
    tdiv(2 * c * (SCALE as int), 255) - SCALE as int
}

impl Texture {
    /// Nonempty, bounded, and exactly four bytes per texel.
    pub open spec fn wf(&self) -> bool {
        1 <= self.width <= MAX_TEXTURE_DIM && 1 <= self.height <= MAX_TEXTURE_DIM
            && self.data.len() == 4 * self.width * self.height
    }

    /// Builds a texture from decoded RGBA bytes; rejects empty or
    /// oversized dimensions and a byte count that does not match them.
    pub fn from_rgba(width: u32, height: u32, data: Vec<u8>) -> (r: Option<Texture>)
        ensures
            match r {
                Some(t) => t.wf() && t.width == width && t.height == height && t.data@ == data@,
                None => !(1 <= width <= MAX_TEXTURE_DIM && 1 <= height <= MAX_TEXTURE_DIM
                    && data.len() == 4 * width * height),
            },
    {
        if width < 1 || width > MAX_TEXTURE_DIM || height < 1 || height > MAX_TEXTURE_DIM {
            return None;
        }
        proof {
            assert(width as int * (height as int) <= 16384 * 16384 && 4 * (width as int) * (
            height as int) <= 0x4000_0000) by (nonlinear_arith)
                requires
                    1 <= width as int <= 16384 && 1 <= height as int <= 16384;
        }
        let need: usize = 4 * (width as usize) * (height as usize);
        if data.len() != need {
            return None;
        }
        Some(Texture { width, height, data })
    }

    /// Samples the texel under `(u, v)`, both at scale `SCALE` and
    /// clamped to one unit.
    pub fn sample(&self, u: i64, v: i64) -> (c: [u8; 4])
        requires
            self.wf(),
        ensures
            ({
                let idx = 4 * (texel_y(self.height as int, v as int) * self.width as int + texel_x(
                    self.width as int,
                    u as int,
                ));
                c[0] == self.data[idx] && c[1] == self.data[idx + 1] && c[2] == self.data[idx + 2]
                    && c[3] == self.data[idx + 3]
            }),
    {
        let uc: i64 = clamp_i64(u, 0, SCALE);
        let vc: i64 = clamp_i64(v, 0, SCALE);
        let w1: i64 = (self.width - 1) as i64;
        let h1: i64 = (self.height - 1) as i64;
        proof {
            lemma_texel_bound(uc as int, w1 as int);
            lemma_texel_bound(SCALE - vc, h1 as int);
        }
        let x: i64 = (uc * w1) / SCALE;
        let y: i64 = ((SCALE - vc) * h1) / SCALE;
        proof {
            let wi = self.width as int;
            let hi = self.height as int;
            assert(y as int * wi + x as int <= wi * hi - 1 && 0 <= y as int * wi + x as int)
                by (nonlinear_arith)
                requires
                    0 <= x as int <= wi - 1 && 0 <= y as int <= hi - 1 && 1 <= wi && 1 <= hi;
            assert(wi * hi <= 16384 * 16384) by (nonlinear_arith)
                requires
                    1 <= wi <= 16384 && 1 <= hi <= 16384;
            assert(4 * (y as int * wi + x as int) + 3 < 4 * wi * hi) by (nonlinear_arith)
                requires
                    y as int * wi + x as int <= wi * hi - 1;
        }
        let idx: usize = 4 * ((y as usize) * (self.width as usize) + (x as usize));
        [self.data[idx], self.data[idx + 1], self.data[idx + 2], self.data[idx + 3]]
    }

    /// Reads the texture as a tangent-space normal map: red and green
    /// map onto `[-1, 1]`, blue onto `[0, 1]`.
    pub fn sample_normal(&self, u: i64, v: i64) -> (n: Vector3)
        requires
            self.wf(),
        ensures
            ({
                let idx = 4 * (texel_y(self.height as int, v as int) * self.width as int + texel_x(
                    self.width as int,
                    u as int,
                ));
                n.x == normal_channel(self.data[idx] as int) && n.y == normal_channel(
                    self.data[idx + 1] as int,
                ) && n.z == if normal_channel(self.data[idx + 2] as int) >= 0 {
                    normal_channel(self.data[idx + 2] as int)
                } else {
                    0
                }
            }),
            -SCALE <= n.x <= SCALE,
            -SCALE <= n.y <= SCALE,
            0 <= n.z <= SCALE,
    {
        let c = self.sample(u, v);
        let x = decode_channel(c[0]);
        let y = decode_channel(c[1]);
        let z = decode_channel(c[2]);
        Vector3::new(x, y, if z >= 0 { z } else { 0 })
    }
}

/// Decodes one byte channel of a normal map.
fn decode_channel(c: u8) -> (r: i64)
    ensures
        r == normal_channel(c as int),
        -SCALE <= r <= SCALE,
{
    proof {
        lemma_tdiv_bounds(2 * (c as int) * (SCALE as int), 255, 0, 2 * SCALE as int);
        assert(2 * (c as int) * (SCALE as int) <= (2 * SCALE as int) * 255) by (nonlinear_arith)
            requires
                0 <= c as int <= 255;
    }
    (2 * (c as i64) * SCALE) / 255 - SCALE
}

/// A clamped coordinate lands on a texel inside the image edge.
proof fn lemma_texel_bound(t: int, d: int)
    requires
        0 <= t <= SCALE as int,
        0 <= d,
    ensures
        0 <= tdiv(t * d, SCALE as int) <= d,
{
    let sc = SCALE as int;
    assert(0 * sc <= t * d && t * d <= d * sc) by (nonlinear_arith)
        requires
            0 <= t <= sc && 0 <= d;
    lemma_tdiv_bounds(t * d, sc, 0, d);
}

} // verus!
