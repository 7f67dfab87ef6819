//! The internal frame buffer the raycaster renders into, and the choice
//! of wall texture for a wall kind.

use vstd::prelude::*;

verus! {

/// Internal render width, in pixels.
pub const RW: usize = 640;

/// Internal render height, in pixels.
pub const RH: usize = 400;

/// An RGBA frame of `RW` by `RH` pixels, row by row, four bytes a pixel.
pub struct Fb {
    pub bytes: Vec<u8>,
}

/// Index of the first byte of pixel `(x, y)`.
pub open spec fn byte_index(x: int, y: int) -> int {
    (y * RW + x) * 4
}

impl Fb {
    /// One RGBA quadruple per pixel.
    pub open spec fn wf(&self) -> bool {
        self.bytes@.len() == RW * RH * 4
    }

    /// A black, opaque frame.
    pub fn new() -> (fb: Fb)
        ensures
            fb.wf(),
            forall|i: int|
                0 <= i < RW * RH * 4 ==> #[trigger] fb.bytes@[i] == (if i % 4 == 3 {
                    255u8
                } else {
                    0u8
                }),
    {
        let n: usize = RW * RH;
        let mut bytes: Vec<u8> = Vec::new();
        let mut k: usize = 0;
        while k < n
            invariant
                k <= n,
                n == RW * RH,
                bytes@.len() == 4 * k,
                forall|i: int|
                    0 <= i < 4 * k ==> #[trigger] bytes@[i] == (if i % 4 == 3 {
                        255u8
                    } else {
                        0u8
                    }),
            decreases n - k,
        {
            bytes.push(0u8);
            bytes.push(0u8);
            bytes.push(0u8);
            bytes.push(255u8);
            k = k + 1;
        }
        Fb { bytes }
    }

    /// Writes colour `c`, fully opaque, at pixel `(x, y)`.
    pub fn put(&mut self, x: usize, y: usize, c: [u8; 3])
        requires
            old(self).wf(),
            y * RW + x < RW * RH,
        ensures
            final(self).wf(),
            final(self).bytes@ == old(self).bytes@.update(byte_index(x as int, y as int), c[0]).update(
                byte_index(x as int, y as int) + 1,
                c[1],
            ).update(byte_index(x as int, y as int) + 2, c[2]).update(
                byte_index(x as int, y as int) + 3,
                255u8,
            ),
    {
        let i = (y * RW + x) * 4;
        self.bytes.set(i, c[0]);
        self.bytes.set(i + 1, c[1]);
        self.bytes.set(i + 2, c[2]);
        self.bytes.set(i + 3, 255u8);
    }

    /// The RGBA bytes of pixel `(x, y)`.
    pub fn get(&self, x: usize, y: usize) -> (c: [u8; 4])
        requires
            self.wf(),
            y * RW + x < RW * RH,
        ensures
            c == [
                self.bytes@[byte_index(x as int, y as int)],
                self.bytes@[byte_index(x as int, y as int) + 1],
                self.bytes@[byte_index(x as int, y as int) + 2],
                self.bytes@[byte_index(x as int, y as int) + 3],
            ],
    {
        let i = (y * RW + x) * 4;
        [self.bytes[i], self.bytes[i + 1], self.bytes[i + 2], self.bytes[i + 3]]
    }

    /// Paints every pixel of row `y` with colour `c`, fully opaque.
    pub fn fill_row(&mut self, y: usize, c: [u8; 3])
        requires
            old(self).wf(),
            y < RH,
        ensures
            final(self).wf(),
            forall|i: int|
                0 <= i < RW * RH * 4 ==> #[trigger] final(self).bytes@[i] == (if y * RW * 4 <= i < (y
                    + 1) * RW * 4 {
                    if i % 4 == 3 {
                        255u8
                    } else {
                        c[i % 4]
                    }
                } else {
                    old(self).bytes@[i]
                }),
    {
        let ghost b0 = self.bytes@;
        let mut x: usize = 0;
        while x < RW
            invariant
                self.wf(),
                y < RH,
                x <= RW,
                forall|i: int|
                    0 <= i < RW * RH * 4 ==> #[trigger] self.bytes@[i] == (if y * RW * 4 <= i < y
                        * RW * 4 + 4 * x {
                        if i % 4 == 3 {
                            255u8
                        } else {
                            c[i % 4]
                        }
                    } else {
                        b0[i]
                    }),
            decreases RW - x,
        {
            self.put(x, y, c);
            x = x + 1;
        }
    }
}

/// Which of `count` wall textures shows wall kind `wall`: kind 1 is the
/// first texture, kind 0 counts as kind 1, and kinds past the last
/// texture use the last one.
pub fn wall_index(wall: u8, count: usize) -> (i: usize)
    requires
        count >= 1,
    ensures
        i == (if wall <= 1 {
            0
        } else if (wall - 1) < count - 1 {
            (wall - 1) as int
        } else {
            count - 1
        }),
{
    let k: usize = if wall < 1 {
        0
    } else {
        wall as usize - 1
    };
    if k < count - 1 {
        k
    } else {
        count - 1
    }
}

/// The rows a wall slice `line_h` pixels tall covers, centred on the
/// horizon and clipped to the frame: `(first row, last row)`.
pub fn wall_span(line_h: i32) -> (span: (i32, i32))
    requires
        line_h >= 0,
    ensures
        span.0 == (if line_h <= RH { (RH - line_h) / 2 } else { 0 }),
        span.1 == (if (RH + line_h) / 2 < RH - 1 { (RH + line_h) / 2 } else { RH - 1 }),
{
    let h: i64 = line_h as i64;
    let rh: i64 = RH as i64;
    let start: i64 = if h <= rh {
        (rh - h) / 2
    } else {
        0
    };
    let e: i64 = (rh + h) / 2;
    let end: i64 = if e < rh - 1 {
        e
    } else {
        rh - 1
    };
    (start as i32, end as i32)
}

/// Wall kind `k` of `1..=count` shows texture `k - 1`, and every kind
/// shows one of the `count` textures.
pub proof fn lemma_wall_index_kinds(wall: u8, count: usize)
    requires
        count >= 1,
    ensures
        1 <= wall <= count ==> (if wall <= 1 {
            0
        } else if (wall - 1) < count - 1 {
            (wall - 1) as int
        } else {
            count - 1
        }) == wall - 1,
        0 <= (if wall <= 1 {
            0
        } else if (wall - 1) < count - 1 {
            (wall - 1) as int
        } else {
            count - 1
        }) < count,
{
}

} // verus!
