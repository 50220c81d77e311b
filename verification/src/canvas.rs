//! The framebuffer: an RGBA pixel buffer with a per-pixel depth buffer.
//!
//! A write lands only when its depth is strictly nearer than what the
//! pixel already holds, so triangles may be submitted in any order.

use vstd::prelude::*;
use crate::fixed::SCALE;

verus! {

/// The depth every pixel starts at: farther than any real depth.
pub const DEPTH_FAR: i64 = i64::MAX;

/// Widest canvas edge accepted.
pub const MAX_CANVAS_DIM: usize = 2048;

/// An RGBA framebuffer with a depth buffer.
#[derive(Debug)]
pub struct Canvas {
    pub width: usize,
    pub height: usize,
    pub buffer: Vec<u8>,
    pub depths: Vec<i64>,
}

impl Canvas {
    /// Buffers sized exactly to the pixel grid.
    pub open spec fn wf(&self) -> bool {
        &&& 1 <= self.width <= MAX_CANVAS_DIM
        &&& 1 <= self.height <= MAX_CANVAS_DIM
        &&& self.buffer.len() == 4 * self.width * self.height
        &&& self.depths.len() == self.width * self.height
    }

    pub open spec fn spec_width(&self) -> usize {
        self.width
    }

    pub open spec fn spec_height(&self) -> usize {
        self.height
    }

    /// The depth stored at pixel `(x, y)`.
    pub open spec fn depth_of(&self, x: int, y: int) -> int {
        self.depths[y * self.width + x] as int
    }

    /// One colour byte of pixel `(x, y)`; `k` picks the channel.
    pub open spec fn byte_of(&self, x: int, y: int, k: int) -> u8 {
        self.buffer[4 * (y * self.width + x) + k]
    }

    pub fn new(width: usize, height: usize) -> (c: Canvas)
        requires
            1 <= width <= MAX_CANVAS_DIM,
            1 <= height <= MAX_CANVAS_DIM,
        ensures
            c.wf(),
            c.spec_width() == width,
            c.spec_height() == height,
            forall|i: int| 0 <= i < c.depths@.len() ==> c.depths@[i] == DEPTH_FAR,
            forall|i: int| 0 <= i < c.buffer@.len() ==> c.buffer@[i] == 0,
    {
        proof {
            assert(width * height <= 2048 * 2048 && 4 * width * height == 4 * (width * height)
                && width * height >= 0) by (nonlinear_arith)
                requires
                    1 <= width <= 2048 && 1 <= height <= 2048;
        }
        let n: usize = width * height;
        let buffer: Vec<u8> = vec_filled_u8(4 * n, 0);
        let depths: Vec<i64> = vec_filled_i64(n, DEPTH_FAR);
        Canvas { width, height, buffer, depths }
    }

    pub fn width(&self) -> (w: usize)
        ensures
            w == self.spec_width(),
    {
        self.width
    }

    pub fn height(&self) -> (h: usize)
        ensures
            h == self.spec_height(),
    {
        self.height
    }

    /// The stored depth at `(x, y)`.
    pub fn depth_at(&self, x: usize, y: usize) -> (d: i64)
        requires
            self.wf(),
            x < self.spec_width(),
            y < self.spec_height(),
        ensures
            d == self.depth_of(x as int, y as int),
    {
        proof {
            lemma_pixel_index(self.width as int, self.height as int, x as int, y as int);
        }
        self.depths[y * self.width + x]
    }

    /// The stored colour at `(x, y)`.
    pub fn pixel_at(&self, x: usize, y: usize) -> (c: [u8; 4])
        requires
            self.wf(),
            x < self.spec_width(),
            y < self.spec_height(),
        ensures
            c[0] == self.byte_of(x as int, y as int, 0),
            c[1] == self.byte_of(x as int, y as int, 1),
            c[2] == self.byte_of(x as int, y as int, 2),
            c[3] == self.byte_of(x as int, y as int, 3),
    {
        proof {
            lemma_pixel_index(self.width as int, self.height as int, x as int, y as int);
        }
        let i: usize = 4 * (y * self.width + x);
        [self.buffer[i], self.buffer[i + 1], self.buffer[i + 2], self.buffer[i + 3]]
    }

    /// The whole RGBA buffer, row-major, four bytes per pixel.
    pub fn data(&self) -> (d: &Vec<u8>)
        ensures
            d@ == self.buffer@,
    {
        &self.buffer
    }

    /// Writes `rgba` at `(x, y)` when `z` is strictly nearer than the
    /// stored depth; otherwise changes nothing.
    pub fn put_pixel(&mut self, x: usize, y: usize, z: i64, rgba: [u8; 4])
        requires
            old(self).wf(),
            x < old(self).spec_width(),
            y < old(self).spec_height(),
        ensures
            final(self).wf(),
            final(self).spec_width() == old(self).spec_width(),
            final(self).spec_height() == old(self).spec_height(),
            z < old(self).depth_of(x as int, y as int) ==> ({
                &&& final(self).depth_of(x as int, y as int) == z
                &&& forall|k: int|
                    0 <= k < 4 ==> final(self).byte_of(x as int, y as int, k) == rgba[k]
            }),
            z >= old(self).depth_of(x as int, y as int) ==> *final(self) == *old(self),
            // pixels other than (x, y) keep their depth and colour
            forall|i: int|
                0 <= i < old(self).depths@.len() && i != y * old(self).spec_width() + x
                    ==> final(self).depths@[i] == old(self).depths@[i],
            forall|j: int|
                0 <= j < old(self).buffer@.len() && !(4 * (y * old(self).spec_width() + x) <= j
                    < 4 * (y * old(self).spec_width() + x) + 4) ==> final(self).buffer@[j] == old(
                    self,
                ).buffer@[j],
            // depth never grows
            forall|i: int|
                0 <= i < old(self).depths@.len() ==> final(self).depths@[i] <= old(
                    self,
                ).depths@[i],
            evolves(*old(self), *final(self)),
            // every other pixel keeps its depth and colour
            forall|xo: int, yo: int|
                0 <= xo < old(self).spec_width() && 0 <= yo < old(self).spec_height() && !(xo == x
                    && yo == y) ==> #[trigger] final(self).depth_of(xo, yo) == old(self).depth_of(
                    xo,
                    yo,
                ),
            forall|xo: int, yo: int, k: int|
                0 <= xo < old(self).spec_width() && 0 <= yo < old(self).spec_height() && !(xo == x
                    && yo == y) && 0 <= k < 4 ==> #[trigger] final(self).byte_of(xo, yo, k) == old(
                    self,
                ).byte_of(xo, yo, k),
    {
        proof {
            lemma_pixel_index(self.width as int, self.height as int, x as int, y as int);
        }
        let idx: usize = y * self.width + x;
        if z < self.depths[idx] {
            self.depths[idx] = z;
            let b: usize = 4 * idx;
            self.buffer[b] = rgba[0];
            self.buffer[b + 1] = rgba[1];
            self.buffer[b + 2] = rgba[2];
            self.buffer[b + 3] = rgba[3];
        }
        proof {
            let gw = old(self).spec_width();
            let gh = old(self).spec_height();
            assert(4 * (gw * gh) == 4 * gw * gh) by (nonlinear_arith);
            assert forall|i: int, k: int|
                0 <= i < old(self).depths@.len() && 0 <= k < 4 && self.depths@[i] == old(
                    self,
                ).depths@[i] implies #[trigger] self.buffer@[4 * i + k] == old(self).buffer@[4 * i
                + k] by {
                let ip = y * old(self).spec_width() + x;
                if i == ip {
                    assert(self.depths@[i] == old(self).depths@[i]);
                    assert(!(z < old(self).depths@[ip]));
                } else {
                    assert(self.depths@[i] == old(self).depths@[i]);
                    assert(4 * i + k < 4 * ip || 4 * i + k >= 4 * ip + 4);
                    assert(self.buffer@[4 * i + k] == old(self).buffer@[4 * i + k]);
                }
            }
            assert forall|xo: int, yo: int|
                0 <= xo < old(self).spec_width() && 0 <= yo < old(self).spec_height() && !(xo == x
                    && yo == y) implies #[trigger] self.depth_of(xo, yo) == old(self).depth_of(
                xo,
                yo,
            ) by {
                lemma_pixel_injective(
                    old(self).spec_width() as int,
                    xo,
                    yo,
                    x as int,
                    y as int,
                );
                lemma_pixel_index(
                    old(self).spec_width() as int,
                    old(self).spec_height() as int,
                    xo,
                    yo,
                );
                let io = yo * old(self).spec_width() + xo;
                assert(self.depths@[io] == old(self).depths@[io]);
            }
            assert forall|xo: int, yo: int, k: int|
                0 <= xo < old(self).spec_width() && 0 <= yo < old(self).spec_height() && !(xo == x
                    && yo == y) && 0 <= k < 4 implies #[trigger] self.byte_of(xo, yo, k) == old(
                self,
            ).byte_of(xo, yo, k) by {
                lemma_pixel_injective(
                    old(self).spec_width() as int,
                    xo,
                    yo,
                    x as int,
                    y as int,
                );
                lemma_pixel_index(
                    old(self).spec_width() as int,
                    old(self).spec_height() as int,
                    xo,
                    yo,
                );
                let io = yo * old(self).spec_width() + xo;
                let ip = y * old(self).spec_width() + x;
                assert(4 * io + k < 4 * ip || 4 * io + k >= 4 * ip + 4);
                assert(self.buffer@[4 * io + k] == old(self).buffer@[4 * io + k]);
            }
        }
    }

    /// Resets every pixel to `fill` (or transparent black) and every
    /// depth to `DEPTH_FAR`.
    pub fn clear(&mut self, fill: Option<[u8; 4]>)
        requires
            old(self).wf(),
        ensures
            final(self).wf(),
            final(self).spec_width() == old(self).spec_width(),
            final(self).spec_height() == old(self).spec_height(),
            forall|i: int|
                0 <= i < final(self).depths@.len() ==> final(self).depths@[i] == DEPTH_FAR,
            forall|j: int|
                0 <= j < final(self).buffer@.len() ==> final(self).buffer@[j] == match fill {
                    Some(c) => c[j % 4],
                    None => 0,
                },
    {
        let n: usize = self.width * self.height;
        proof {
            assert(self.width * self.height <= 2048 * 2048 && 4 * self.width * self.height == 4 * (
            self.width * self.height)) by (nonlinear_arith)
                requires
                    1 <= self.width <= 2048 && 1 <= self.height <= 2048;
        }
        match fill {
            Some(c) => {
                self.buffer = vec_filled_pattern(n, c);
            },
            None => {
                self.buffer = vec_filled_u8(4 * n, 0);
            },
        }
        self.depths = vec_filled_i64(n, DEPTH_FAR);
    }

    /// Maps a screen position back to world-plane coordinates: the
    /// inverse of the translate-and-flip of the screen transform.
    pub fn from_screen(&self, sx: i64, sy: i64) -> (r: (i64, i64))
        requires
            self.wf(),
            -0x1000_0000_0000 <= sx <= 0x1000_0000_0000,
            -0x1000_0000_0000 <= sy <= 0x1000_0000_0000,
        ensures
            r.0 == sx - (self.spec_width() as int) * (SCALE as int) / 2,
            r.1 == (self.spec_height() as int) * (SCALE as int) / 2 - sy,
    {
        let half_w: i64 = (self.width as i64) * SCALE / 2;
        let half_h: i64 = (self.height as i64) * SCALE / 2;
        (sx - half_w, half_h - sy)
    }
}

/// How a canvas may change under rendering: dimensions fixed, every
/// depth at most what it was, and a pixel whose depth did not move keeps
/// its colour.
pub open spec fn evolves(a: Canvas, b: Canvas) -> bool {
    &&& b.wf()
    &&& b.width == a.width
    &&& b.height == a.height
    &&& b.depths.len() == a.depths.len()
    &&& b.buffer.len() == a.buffer.len()
    &&& forall|i: int| 0 <= i < a.depths.len() ==> #[trigger] b.depths[i] <= a.depths[i]
    &&& forall|i: int, k: int|
        0 <= i < a.depths.len() && 0 <= k < 4 && b.depths[i] == a.depths[i]
            ==> #[trigger] b.buffer[4 * i + k] == a.buffer[4 * i + k]
}

/// A well-formed canvas evolves to itself.
pub proof fn lemma_evolves_refl(a: Canvas)
    requires
        a.wf(),
    ensures
        evolves(a, a),
{
}

/// Evolution composes.
pub proof fn lemma_evolves_trans(a: Canvas, b: Canvas, c: Canvas)
    requires
        evolves(a, b),
        evolves(b, c),
    ensures
        evolves(a, c),
{
    assert forall|i: int, k: int|
        0 <= i < a.depths.len() && 0 <= k < 4 && c.depths[i] == a.depths[i]
            implies #[trigger] c.buffer[4 * i + k] == a.buffer[4 * i + k] by {
        assert(b.depths[i] <= a.depths[i]);
        assert(c.depths[i] <= b.depths[i]);
    }
}

/// Distinct pixels of one row-major grid have distinct indices.
proof fn lemma_pixel_injective(w: int, x1: int, y1: int, x2: int, y2: int)
    requires
        1 <= w,
        0 <= x1 < w,
        0 <= x2 < w,
        0 <= y1,
        0 <= y2,
        !(x1 == x2 && y1 == y2),
    ensures
        y1 * w + x1 != y2 * w + x2,
{
    if y1 < y2 {
        assert(y1 * w + x1 < (y1 + 1) * w && (y1 + 1) * w <= y2 * w) by (nonlinear_arith)
            requires
                0 <= x1 < w && y1 + 1 <= y2 && 1 <= w && 0 <= y1;
    } else if y2 < y1 {
        assert(y2 * w + x2 < (y2 + 1) * w && (y2 + 1) * w <= y1 * w) by (nonlinear_arith)
            requires
                0 <= x2 < w && y2 + 1 <= y1 && 1 <= w && 0 <= y2;
    }
}

/// Evolution at one pixel: the stored depth never grows.
pub proof fn lemma_evolves_pixel(a: Canvas, b: Canvas, x: int, y: int)
    requires
        evolves(a, b),
        a.wf(),
        0 <= x < a.spec_width(),
        0 <= y < a.spec_height(),
    ensures
        b.depth_of(x, y) <= a.depth_of(x, y),
{
    lemma_pixel_index(a.spec_width() as int, a.spec_height() as int, x, y);
    assert(b.depths@[y * a.spec_width() + x] <= a.depths@[y * a.spec_width() + x]);
}

/// A pixel's buffer range lies within a well-formed canvas buffer.
proof fn lemma_pixel_index(w: int, h: int, x: int, y: int)
    requires
        1 <= w <= MAX_CANVAS_DIM,
        1 <= h <= MAX_CANVAS_DIM,
        0 <= x < w,
        0 <= y < h,
    ensures
        0 <= y * w + x < w * h,
        4 * (y * w + x) + 3 < 4 * w * h,
        y * w + x <= 2048 * 2048,
        4 * (y * w + x) + 3 <= 4 * 2048 * 2048,
{
    assert(0 <= y * w + x < w * h && 4 * (y * w + x) + 3 < 4 * w * h && w * h <= 2048 * 2048 && 4
        * w * h <= 4 * 2048 * 2048) by (nonlinear_arith)
        requires
            1 <= w <= 2048 && 1 <= h <= 2048 && 0 <= x < w && 0 <= y < h;
}

/// A vector of `n` equal bytes.
fn vec_filled_u8(n: usize, val: u8) -> (v: Vec<u8>)
    ensures
        v@.len() == n,
        forall|i: int| 0 <= i < n ==> v@[i] == val,
{
    let mut v: Vec<u8> = Vec::new();
    let mut k: usize = 0;
    while k < n
        invariant
            k <= n,
            v@.len() == k,
            forall|i: int| 0 <= i < k ==> v@[i] == val,
        decreases n - k,
    {
        v.push(val);
        k = k + 1;
    }
    v
}

/// A vector of `n` equal words.
fn vec_filled_i64(n: usize, val: i64) -> (v: Vec<i64>)
    ensures
        v@.len() == n,
        forall|i: int| 0 <= i < n ==> v@[i] == val,
{
    let mut v: Vec<i64> = Vec::new();
    let mut k: usize = 0;
    while k < n
        invariant
            k <= n,
            v@.len() == k,
            forall|i: int| 0 <= i < k ==> v@[i] == val,
        decreases n - k,
    {
        v.push(val);
        k = k + 1;
    }
    v
}

/// `n` pixels of the four-byte pattern `c`.
fn vec_filled_pattern(n: usize, c: [u8; 4]) -> (v: Vec<u8>)
    requires
        n <= 0x1000_0000,
    ensures
        v@.len() == 4 * n,
        forall|j: int| 0 <= j < 4 * n ==> v@[j] == c[j % 4],
{
    let mut v: Vec<u8> = Vec::new();
    let mut k: usize = 0;
    while k < n
        invariant
            k <= n,
            n <= 0x1000_0000,
            v@.len() == 4 * k,
            forall|j: int| 0 <= j < 4 * k ==> v@[j] == c[j % 4],
        decreases n - k,
    {
        v.push(c[0]);
        v.push(c[1]);
        v.push(c[2]);
        v.push(c[3]);
        proof {
            assert forall|j: int| 0 <= j < 4 * (k + 1) implies v@[j] == c[j % 4] by {
                if j >= 4 * k {
                    assert(j % 4 == j - 4 * k) by (nonlinear_arith)
                        requires
                            4 * k <= j < 4 * k + 4 && k >= 0;
                }
            }
        }
        k = k + 1;
    }
    v
}

} // verus!
