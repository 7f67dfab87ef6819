//! Pixel buffers for procedural 64x64 textures, and the integer noise
//! hash the texture generators shade with.

use vstd::prelude::*;

verus! {

/// Side of every procedural texture, in pixels.
pub const TS: usize = 64;

/// An RGBA image stored row by row.
#[derive(Clone)]
pub struct Tex {
    pub w: usize,
    pub h: usize,
    pub px: Vec<[u8; 4]>,
}

/// The fully transparent black pixel a fresh texture is filled with.
pub open spec fn clear_pixel() -> [u8; 4] {
    [0u8, 0u8, 0u8, 0u8]
}

impl Tex {
    /// The buffer holds exactly one pixel per position.
    pub open spec fn wf(&self) -> bool {
        self.px@.len() == self.w * self.h
    }

    /// Whether `(x, y)` lies inside the image.
    pub open spec fn in_bounds(&self, x: int, y: int) -> bool {
        0 <= x < self.w && 0 <= y < self.h
    }

    /// The pixel stored for position `(x, y)`.
    pub open spec fn pixel(&self, x: int, y: int) -> [u8; 4] {
        self.px@[y * self.w + x]
    }

    /// A `w` by `h` texture with every pixel transparent black.
    pub fn new(w: usize, h: usize) -> (t: Tex)
        requires
            w * h <= usize::MAX,
        ensures
            t.w == w,
            t.h == h,
            t.wf(),
            forall|i: int| 0 <= i < w * h ==> #[trigger] t.px@[i] == clear_pixel(),
    {
        let n = w * h;
        let mut px: Vec<[u8; 4]> = Vec::new();
        let mut i: usize = 0;
        while i < n
            invariant
                i <= n,
                px@.len() == i,
                forall|k: int| 0 <= k < i ==> #[trigger] px@[k] == clear_pixel(),
            decreases n - i,
        {
            px.push([0u8, 0u8, 0u8, 0u8]);
            i = i + 1;
        }
        Tex { w, h, px }
    }

    /// The pixel at `(x, y)`, with each coordinate clamped to the last
    /// column or row.
    pub fn get(&self, x: usize, y: usize) -> (c: [u8; 4])
        requires
            self.wf(),
            self.w > 0,
            self.h > 0,
        ensures
            c == self.pixel(
                if x < self.w { x as int } else { self.w - 1 },
                if y < self.h { y as int } else { self.h - 1 },
            ),
    {
        let _n = self.px.len();
        let yy = if y < self.h - 1 { y } else { self.h - 1 };
        let xx = if x < self.w - 1 { x } else { self.w - 1 };
        proof {
            lemma_row_major_index(self.w as int, self.h as int, xx as int, yy as int);
        }
        self.px[yy * self.w + xx]
    }

    /// Writes `c` at `(x, y)`; positions outside the image are ignored.
    pub fn set(&mut self, x: usize, y: usize, c: [u8; 4])
        requires
            old(self).wf(),
        ensures
            final(self).w == old(self).w,
            final(self).h == old(self).h,
            final(self).wf(),
            final(self).px@ == (if x < old(self).w && y < old(self).h {
                old(self).px@.update(y * old(self).w + x, c)
            } else {
                old(self).px@
            }),
            forall|qx: int, qy: int|
                old(self).in_bounds(qx, qy) ==> #[trigger] final(self).pixel(qx, qy) == (if qx == x
                    && qy == y {
                    c
                } else {
                    old(self).pixel(qx, qy)
                }),
    {
        let _n = self.px.len();
        if x < self.w && y < self.h {
            proof {
                lemma_row_major_index(self.w as int, self.h as int, x as int, y as int);
            }
            let ghost before = *self;
            let i = y * self.w + x;
            self.px.set(i, c);
            proof {
                assert forall|qx: int, qy: int| before.in_bounds(qx, qy) implies #[trigger] self.pixel(
                    qx,
                    qy,
                ) == (if qx == x && qy == y {
                    c
                } else {
                    before.pixel(qx, qy)
                }) by {
                    lemma_set_then_get(before, *self, x as int, y as int, c, qx, qy);
                }
            }
        }
    }
}

/// A position inside a `w` by `h` grid has a row-major index below `w * h`.
pub proof fn lemma_row_major_index(w: int, h: int, x: int, y: int)
    requires
        0 <= x < w,
        0 <= y < h,
    ensures
        0 <= y * w + x < w * h,
        y * w <= y * w + x,
{
    assert(y * w + x < w * h) by (nonlinear_arith)
        requires
            0 <= x < w,
            0 <= y < h,
    ;
    assert(0 <= y * w) by (nonlinear_arith)
        requires
            0 <= y,
            0 <= w,
    ;
}

/// Two positions of a grid `w` wide share a row-major index only when
/// they are the same position.
pub proof fn lemma_row_major_injective(w: int, x1: int, y1: int, x2: int, y2: int)
    requires
        0 <= x1 < w,
        0 <= x2 < w,
        0 <= y1,
        0 <= y2,
        y1 * w + x1 == y2 * w + x2,
    ensures
        x1 == x2,
        y1 == y2,
{
    if y1 < y2 {
        assert(y1 * w + w <= y2 * w) by (nonlinear_arith)
            requires
                y1 < y2,
                0 <= w,
        ;
    } else if y2 < y1 {
        assert(y2 * w + w <= y1 * w) by (nonlinear_arith)
            requires
                y2 < y1,
                0 <= w,
        ;
    }
}

/// A texture read after a write at an in-bounds position gives back the
/// written pixel; every other position keeps its pixel.
pub proof fn lemma_set_then_get(before: Tex, after: Tex, x: int, y: int, c: [u8; 4], qx: int, qy: int)
    requires
        before.wf(),
        before.in_bounds(x, y),
        before.in_bounds(qx, qy),
        after.w == before.w,
        after.h == before.h,
        after.px@ == before.px@.update(y * before.w + x, c),
    ensures
        after.pixel(qx, qy) == (if qx == x && qy == y { c } else { before.pixel(qx, qy) }),
{
    lemma_row_major_index(before.w as int, before.h as int, x, y);
    lemma_row_major_index(before.w as int, before.h as int, qx, qy);
    if qy * before.w + qx == y * before.w + x {
        lemma_row_major_injective(before.w as int, qx, qy, x, y);
    }
}

/// The deterministic 16-bit noise value of a texel: the low half-word of
/// a multiply-xorshift avalanche of the position and the seed.
pub open spec fn noise_bits(x: u32, y: u32, seed: u32) -> u32 {
    let h = x.wrapping_mul(374761393u32) ^ y.wrapping_mul(668265263u32) ^ seed.wrapping_mul(
        2246822519u32,
    );
    let h2 = (h ^ (h >> 13u32)).wrapping_mul(1274126177u32);
    (h2 ^ (h2 >> 16u32)) & 0xffffu32
}

/// Noise for texel `(x, y)` under `seed`, as an integer in `0..=0xffff`
/// (the texture generators scale it to `[0, 1]`).
pub fn hash_bits(x: u32, y: u32, seed: u32) -> (r: u32)
    ensures
        r == noise_bits(x, y, seed),
        r <= 0xffff,
{
    let h = x.wrapping_mul(374761393u32) ^ y.wrapping_mul(668265263u32) ^ seed.wrapping_mul(
        2246822519u32,
    );
    let h2 = (h ^ (h >> 13u32)).wrapping_mul(1274126177u32);
    let r = (h2 ^ (h2 >> 16u32)) & 0xffffu32;
    assert(r <= 0xffff) by (bit_vector)
        requires
            r == (h2 ^ (h2 >> 16u32)) & 0xffffu32,
    ;
    r
}

} // verus!
