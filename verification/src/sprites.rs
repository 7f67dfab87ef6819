//! Billboard sprites: the entity kinds and the integer parts of their
//! animated frames (spirit silhouettes, card faces and portal orbs).

use vstd::prelude::*;
use crate::textures::{Tex, TS, clear_pixel};
use crate::raycast::{RH, RW};

verus! {

/// Frames of every sprite animation.
pub const FRAMES: usize = 4;

/// What a sprite stands for.
#[derive(Clone, Copy, PartialEq, Eq, Structural, Debug)]
pub enum Kind {
    Card,
    Spirit,
    Portal,
}

/// Writes `c` at the signed position `(x, y)`; positions with a negative
/// coordinate, or outside the texture, are ignored.
pub fn set_a(t: &mut Tex, x: i32, y: i32, c: [u8; 4])
    requires
        old(t).wf(),
    ensures
        final(t).w == old(t).w,
        final(t).h == old(t).h,
        final(t).wf(),
        forall|qx: int, qy: int|
            old(t).in_bounds(qx, qy) ==> #[trigger] final(t).pixel(qx, qy) == (if qx == x && qy
                == y {
                c
            } else {
                old(t).pixel(qx, qy)
            }),
{
    if x >= 0 && y >= 0 {
        t.set(x as usize, y as usize, c);
    }
}

/// The largest `r` with `r * r <= v`.
fn isqrt(v: i32) -> (r: i32)
    requires
        v >= 0,
    ensures
        0 <= r,
        r * r <= v < (r + 1) * (r + 1),
{
    let mut r: i64 = 0;
    loop
        invariant
            0 <= r <= v,
            r <= 46341,
            r * r <= v,
        ensures
            0 <= r,
            r * r <= v < (r + 1) * (r + 1),
        decreases v - r,
    {
        assert((r + 1) * (r + 1) <= 46342 * 46342) by (nonlinear_arith)
            requires
                0 <= r <= 46341,
        ;
        if (r + 1) * (r + 1) > v as i64 {
            break;
        }
        proof {
            assert(r + 1 <= (r + 1) * (r + 1)) by (nonlinear_arith)
                requires
                    0 <= r,
            ;
            assert(r + 1 <= 46341) by (nonlinear_arith)
                requires
                    (r + 1) * (r + 1) <= v,
                    v <= 0x7fff_ffff,
                    0 <= r,
            ;
        }
        r = r + 1;
    }
    r as i32
}

/// With `r` the integer square root of `v`, row `y` lies at or below
/// `26 - r` exactly when it is at or below the centre row 26 or its
/// squared distance to that row is at most `v`.
proof fn lemma_head_top(r: int, v: int, y: int)
    requires
        0 <= r,
        r * r <= v < (r + 1) * (r + 1),
    ensures
        (26 - r <= y) <==> (y >= 26 || (26 - y) * (26 - y) <= v),
{
    let k = 26 - y;
    if k > 0 {
        if k <= r {
            assert(k * k <= r * r) by (nonlinear_arith)
                requires
                    0 < k <= r,
            ;
        } else {
            assert(k * k >= (r + 1) * (r + 1)) by (nonlinear_arith)
                requires
                    k >= r + 1,
                    r >= 0,
            ;
        }
    }
}

/// The spirit's body: a disc of radius 20 around `(32, 26)` continued
/// straight down to a wavy hem `44 + wob` (and never below row 60),
/// between columns 12 and 51.
pub open spec fn spirit_body(x: int, y: int, wob: int) -> bool {
    let dx = x - 32;
    &&& 12 <= x < 52
    &&& dx * dx < 400
    &&& (y >= 26 || dx * dx + (26 - y) * (26 - y) <= 400)
    &&& y < 60
    &&& y < 44 + wob
}

/// Opacity of the body at row `y`: solid 215 above row 30, then fading by
/// 5 per row, never below 40.
pub open spec fn spirit_alpha(y: int) -> u8 {
    let a = if y < 30 {
        215
    } else {
        215 - (y - 30) * 5
    };
    (if a < 40 {
        40
    } else if a > 255 {
        255
    } else {
        a
    }) as u8
}

/// The body colour at row `y`.
pub open spec fn spirit_body_color(y: int) -> [u8; 4] {
    [190u8, 220u8, 255u8, spirit_alpha(y)]
}

/// The eye colour.
pub open spec fn eye_color() -> [u8; 4] {
    [20u8, 20u8, 60u8, 255u8]
}

/// Position `(x, y)` lies within squared distance 4 of `(cx, cy)`.
pub open spec fn in_disc4(x: int, y: int, cx: int, cy: int) -> bool {
    (x - cx) * (x - cx) + (y - cy) * (y - cy) <= 4
}

/// The two eyes, centred at `(25, 24)` and `(39, 24)`.
pub open spec fn spirit_eye(x: int, y: int) -> bool {
    in_disc4(x, y, 25, 24) || in_disc4(x, y, 39, 24)
}

/// The pixel of a spirit frame whose hem sits `wob` rows below row 44 in
/// column `x`.
pub open spec fn spirit_pixel(x: int, y: int, wob: int) -> [u8; 4] {
    if spirit_eye(x, y) {
        eye_color()
    } else if spirit_body(x, y, wob) {
        spirit_body_color(y)
    } else {
        clear_pixel()
    }
}

/// The hem offset of column `x` in a row of 40 offsets for columns
/// 12..52 (0 outside them).
pub open spec fn hem_at(wob: Seq<i32>, x: int) -> int {
    if 12 <= x < 52 {
        wob[x - 12] as int
    } else {
        0
    }
}

/// A 64x64 texture in which every pixel is given by `pix`.
pub open spec fn tex_is(t: Tex, pix: spec_fn(int, int) -> [u8; 4]) -> bool {
    &&& t.w == TS
    &&& t.h == TS
    &&& t.wf()
    &&& forall|x: int, y: int| 0 <= x < 64 && 0 <= y < 64 ==> #[trigger] t.pixel(x, y) == pix(x, y)
}

/// Paints a filled disc of squared radius 4 around `(cx, cy)` in `c`.
fn draw_eye(t: &mut Tex, cx: i32, cy: i32, c: [u8; 4])
    requires
        old(t).wf(),
        old(t).w == TS,
        old(t).h == TS,
        2 <= cx < 62,
        2 <= cy < 62,
    ensures
        final(t).w == TS,
        final(t).h == TS,
        final(t).wf(),
        forall|qx: int, qy: int|
            0 <= qx < 64 && 0 <= qy < 64 ==> #[trigger] final(t).pixel(qx, qy) == (if in_disc4(
                qx,
                qy,
                cx as int,
                cy as int,
            ) {
                c
            } else {
                old(t).pixel(qx, qy)
            }),
{
    let ghost t0 = *t;
    let mut dy: i32 = -2;
    while dy < 3
        invariant
            -2 <= dy <= 3,
            2 <= cx < 62,
            2 <= cy < 62,
            t.wf(),
            t.w == TS,
            t.h == TS,
            t0.w == TS,
            t0.h == TS,
            forall|qx: int, qy: int|
                0 <= qx < 64 && 0 <= qy < 64 ==> #[trigger] t.pixel(qx, qy) == (if -2 <= qy - cy
                    < dy && -2 <= qx - cx <= 2 && in_disc4(qx, qy, cx as int, cy as int) {
                    c
                } else {
                    t0.pixel(qx, qy)
                }),
        decreases 3 - dy,
    {
        let mut dx: i32 = -2;
        while dx < 3
            invariant
                -2 <= dy < 3,
                -2 <= dx <= 3,
                2 <= cx < 62,
                2 <= cy < 62,
                t.wf(),
                t.w == TS,
                t.h == TS,
                t0.w == TS,
                t0.h == TS,
                forall|qx: int, qy: int|
                    0 <= qx < 64 && 0 <= qy < 64 ==> #[trigger] t.pixel(qx, qy) == (if ((-2 <= qy
                        - cy < dy && -2 <= qx - cx <= 2) || (qy - cy == dy && -2 <= qx - cx < dx))
                        && in_disc4(qx, qy, cx as int, cy as int) {
                        c
                    } else {
                        t0.pixel(qx, qy)
                    }),
            decreases 3 - dx,
        {
            assert(0 <= dx * dx <= 4 && 0 <= dy * dy <= 4) by (nonlinear_arith)
                requires
                    -2 <= dx <= 2,
                    -2 <= dy <= 2,
            ;
            if dx * dx + dy * dy <= 4 {
                set_a(t, cx + dx, cy + dy, c);
            }
            dx = dx + 1;
        }
        dy = dy + 1;
    }
    proof {
        assert forall|qx: int, qy: int|
            0 <= qx < 64 && 0 <= qy < 64 && in_disc4(qx, qy, cx as int, cy as int) implies -2 <= qy
            - cy <= 2 && -2 <= qx - cx <= 2 by {
            let a = qx - cx;
            let b = qy - cy;
            assert(-2 <= a <= 2 && -2 <= b <= 2) by (nonlinear_arith)
                requires
                    a * a + b * b <= 4,
            ;
        }
    }
}

/// One spirit frame whose hem in column `12 + i` sits `hem[i]` rows below
/// row 44.
fn spirit_frame(hem: &[i32; 40]) -> (t: Tex)
    ensures
        tex_is(t, |x: int, y: int| spirit_pixel(x, y, hem_at(hem@, x))),
{
    let mut t = Tex::new(TS, TS);
    let mut x: i32 = 12;
    while x < 52
        invariant
            12 <= x <= 52,
            t.wf(),
            t.w == TS,
            t.h == TS,
            forall|qx: int, qy: int|
                0 <= qx < 64 && 0 <= qy < 64 ==> #[trigger] t.pixel(qx, qy) == (if qx < x
                    && spirit_body(qx, qy, hem_at(hem@, qx)) {
                    spirit_body_color(qy)
                } else {
                    clear_pixel()
                }),
        decreases 52 - x,
    {
        let dx = x - 32;
        assert(0 <= dx * dx <= 400) by (nonlinear_arith)
            requires
                -20 <= dx < 20,
        ;
        let v = 400 - dx * dx;
        if v > 0 {
            let r = isqrt(v);
            assert(r <= 20) by (nonlinear_arith)
                requires
                    r * r <= v,
                    v <= 400,
                    0 <= r,
            ;
            let top = 26 - r;
            let wob = hem[(x - 12) as usize];
            let bottom: i32 = if wob >= 16 {
                60
            } else {
                44 + wob
            };
            let mut y: i32 = top;
            while y < bottom
                invariant
                    12 <= x < 52,
                    6 <= top <= y,
                    y <= bottom || y == top,
                    bottom <= 60,
                    t.wf(),
                    t.w == TS,
                    t.h == TS,
                    forall|qx: int, qy: int|
                        0 <= qx < 64 && 0 <= qy < 64 ==> #[trigger] t.pixel(qx, qy) == (if (qx < x
                            && spirit_body(qx, qy, hem_at(hem@, qx))) || (qx == x && top <= qy
                            < y) {
                            spirit_body_color(qy)
                        } else {
                            clear_pixel()
                        }),
                decreases bottom - y,
            {
                let a: i32 = if y < 30 {
                    215
                } else {
                    215 - (y - 30) * 5
                };
                let a2: i32 = if a < 40 {
                    40
                } else if a > 255 {
                    255
                } else {
                    a
                };
                set_a(&mut t, x, y, [190u8, 220u8, 255u8, a2 as u8]);
                y = y + 1;
            }
            proof {
                assert forall|qy: int| 0 <= qy < 64 implies (top <= qy < bottom) == spirit_body(
                    x as int,
                    qy,
                    hem_at(hem@, x as int),
                ) by {
                    lemma_head_top(r as int, v as int, qy);
                }
            }
        } else {
            proof {
                assert forall|qy: int| 0 <= qy < 64 implies !spirit_body(
                    x as int,
                    qy,
                    hem_at(hem@, x as int),
                ) by {}
            }
        }
        x = x + 1;
    }
    draw_eye(&mut t, 25, 24, [20u8, 20u8, 60u8, 255u8]);
    draw_eye(&mut t, 39, 24, [20u8, 20u8, 60u8, 255u8]);
    t
}

/// The four frames of the wandering spirit: a pale ghost with two dark
/// eyes whose hem waves; `hems[f][i]` is how far below row 44 the hem of
/// column `12 + i` hangs in frame `f`.
pub fn spirit_frames(hems: &[[i32; 40]; 4]) -> (out: Vec<Tex>)
    ensures
        out@.len() == FRAMES,
        forall|f: int|
            0 <= f < 4 ==> tex_is(
                #[trigger] out@[f],
                |x: int, y: int| spirit_pixel(x, y, hem_at(hems@[f]@, x)),
            ),
{
    let mut out: Vec<Tex> = Vec::new();
    let mut f: usize = 0;
    while f < FRAMES
        invariant
            f <= FRAMES,
            out@.len() == f,
            forall|g: int|
                0 <= g < f ==> tex_is(
                    #[trigger] out@[g],
                    |x: int, y: int| spirit_pixel(x, y, hem_at(hems@[g]@, x)),
                ),
        decreases FRAMES - f,
    {
        let t = spirit_frame(&hems[f]);
        out.push(t);
        f = f + 1;
    }
    out
}

/// The absolute value of `a`.
pub open spec fn abs(a: int) -> int {
    if a < 0 {
        -a
    } else {
        a
    }
}

/// The card's rectangle: columns 18..46, rows 9..53 (before bobbing).
pub open spec fn card_body(x: int, y: int) -> bool {
    18 <= x < 46 && 9 <= y < 53
}

/// The card's two-pixel border.
pub open spec fn card_border(x: int, y: int) -> bool {
    !(20 <= x < 44) || !(11 <= y < 51)
}

/// The colour of the card at `(x, y)` (before bobbing): gold border,
/// violet back.
pub open spec fn card_color(x: int, y: int) -> [u8; 4] {
    if card_border(x, y) {
        [235u8, 200u8, 90u8, 255u8]
    } else {
        [48u8, 28u8, 78u8, 255u8]
    }
}

/// The colour of the card's star.
pub open spec fn star_color() -> [u8; 4] {
    [255u8, 235u8, 150u8, 255u8]
}

/// The four-pointed star centred at `(32, 31 + bob)`.
pub open spec fn card_star(x: int, y: int, bob: int) -> bool {
    let dx = abs(x - 32);
    let dy = abs(y - 31 - bob);
    dx * dy < 14 && dx + dy < 11
}

/// A pixel of a card frame raised by `bob` rows, drawn over `under`.
pub open spec fn card_face_pixel(x: int, y: int, bob: int, under: [u8; 4]) -> [u8; 4] {
    if card_star(x, y, bob) {
        star_color()
    } else if card_body(x, y - bob) {
        card_color(x, y - bob)
    } else {
        under
    }
}

/// Paints the card rectangle shifted down by `bob` rows.
fn draw_card_body(t: &mut Tex, bob: i32)
    requires
        old(t).wf(),
        old(t).w == TS,
        old(t).h == TS,
    ensures
        final(t).wf(),
        final(t).w == TS,
        final(t).h == TS,
        forall|qx: int, qy: int|
            0 <= qx < 64 && 0 <= qy < 64 ==> #[trigger] final(t).pixel(qx, qy) == (if card_body(
                qx,
                qy - bob,
            ) {
                card_color(qx, qy - bob)
            } else {
                old(t).pixel(qx, qy)
            }),
{
    let ghost t0 = *t;
    let mut y: i32 = 9;
    while y < 53
        invariant
            9 <= y <= 53,
            t.wf(),
            t.w == TS,
            t.h == TS,
            forall|qx: int, qy: int|
                0 <= qx < 64 && 0 <= qy < 64 ==> #[trigger] t.pixel(qx, qy) == (if card_body(
                    qx,
                    qy - bob,
                ) && qy - bob < y {
                    card_color(qx, qy - bob)
                } else {
                    t0.pixel(qx, qy)
                }),
        decreases 53 - y,
    {
        let mut x: i32 = 18;
        while x < 46
            invariant
                9 <= y < 53,
                18 <= x <= 46,
                t.wf(),
                t.w == TS,
                t.h == TS,
                forall|qx: int, qy: int|
                    0 <= qx < 64 && 0 <= qy < 64 ==> #[trigger] t.pixel(qx, qy) == (if card_body(
                        qx,
                        qy - bob,
                    ) && (qy - bob < y || (qy - bob == y && qx < x)) {
                        card_color(qx, qy - bob)
                    } else {
                        t0.pixel(qx, qy)
                    }),
            decreases 46 - x,
        {
            let yy: i64 = y as i64 + bob as i64;
            let border = !(20 <= x && x < 44) || !(11 <= y && y < 51);
            let c: [u8; 4] = if border {
                [235u8, 200u8, 90u8, 255u8]
            } else {
                [48u8, 28u8, 78u8, 255u8]
            };
            if 0 <= yy && yy < 64 {
                t.set(x as usize, yy as usize, c);
            }
            x = x + 1;
        }
        y = y + 1;
    }
}

/// Paints the card's star, centred `bob` rows below row 31.
fn draw_card_star(t: &mut Tex, bob: i32)
    requires
        old(t).wf(),
        old(t).w == TS,
        old(t).h == TS,
    ensures
        final(t).wf(),
        final(t).w == TS,
        final(t).h == TS,
        forall|qx: int, qy: int|
            0 <= qx < 64 && 0 <= qy < 64 ==> #[trigger] final(t).pixel(qx, qy) == (if card_star(
                qx,
                qy,
                bob as int,
            ) {
                star_color()
            } else {
                old(t).pixel(qx, qy)
            }),
{
    let ghost t0 = *t;
    let mut y: i64 = 0;
    while y < 64
        invariant
            0 <= y <= 64,
            t.wf(),
            t.w == TS,
            t.h == TS,
            forall|qx: int, qy: int|
                0 <= qx < 64 && 0 <= qy < 64 ==> #[trigger] t.pixel(qx, qy) == (if qy < y
                    && card_star(qx, qy, bob as int) {
                    star_color()
                } else {
                    t0.pixel(qx, qy)
                }),
        decreases 64 - y,
    {
        let mut x: i64 = 0;
        while x < 64
            invariant
                0 <= y < 64,
                0 <= x <= 64,
                t.wf(),
                t.w == TS,
                t.h == TS,
                forall|qx: int, qy: int|
                    0 <= qx < 64 && 0 <= qy < 64 ==> #[trigger] t.pixel(qx, qy) == (if (qy < y || (
                    qy == y && qx < x)) && card_star(qx, qy, bob as int) {
                        star_color()
                    } else {
                        t0.pixel(qx, qy)
                    }),
            decreases 64 - x,
        {
            let dx: i64 = if x < 32 {
                32 - x
            } else {
                x - 32
            };
            let e: i64 = y - 31 - bob as i64;
            let dy: i64 = if e < 0 {
                -e
            } else {
                e
            };
            assert(0 <= dx * dy <= 32 * 0x1_0000_0100) by (nonlinear_arith)
                requires
                    0 <= dx <= 32,
                    0 <= dy <= 0x1_0000_0100,
            ;
            if dx * dy < 14 && dx + dy < 11 {
                t.set(x as usize, y as usize, [255u8, 235u8, 150u8, 255u8]);
            }
            x = x + 1;
        }
        y = y + 1;
    }
}

/// Paints a tarot card onto a halo frame: the gold-bordered violet card
/// and its central star, both lowered by `bob` rows (the frame's bobbing
/// offset).
pub fn draw_card_face(t: &mut Tex, bob: i32)
    requires
        old(t).wf(),
        old(t).w == TS,
        old(t).h == TS,
    ensures
        final(t).wf(),
        final(t).w == TS,
        final(t).h == TS,
        forall|qx: int, qy: int|
            0 <= qx < 64 && 0 <= qy < 64 ==> #[trigger] final(t).pixel(qx, qy) == card_face_pixel(
                qx,
                qy,
                bob as int,
                old(t).pixel(qx, qy),
            ),
{
    let ghost t0 = *t;
    draw_card_body(t, bob);
    let ghost t1 = *t;
    draw_card_star(t, bob);
    proof {
        assert forall|qx: int, qy: int| 0 <= qx < 64 && 0 <= qy < 64 implies #[trigger] t.pixel(
            qx,
            qy,
        ) == card_face_pixel(qx, qy, bob as int, t0.pixel(qx, qy)) by {
            assert(t1.pixel(qx, qy) == (if card_body(qx, qy - bob) {
                card_color(qx, qy - bob)
            } else {
                t0.pixel(qx, qy)
            }));
        }
    }
}

/// Opacity of an orb pixel at squared distance `d2` from its centre.
pub open spec fn orb_alpha(d2: int) -> u8 {
    if d2 <= 4 {
        255u8
    } else {
        140u8
    }
}

/// A pixel after painting an orb of colour `rgb` centred at `(cx, cy)`
/// over `under`: opaque core, translucent rim, squared radius 9.
pub open spec fn orb_pixel(x: int, y: int, cx: int, cy: int, rgb: [u8; 3], under: [u8; 4]) -> [u8; 4] {
    let d2 = (x - cx) * (x - cx) + (y - cy) * (y - cy);
    if d2 <= 9 {
        [rgb[0], rgb[1], rgb[2], orb_alpha(d2)]
    } else {
        under
    }
}

/// Paints one orb of the portal ring centred at `(cx, cy)`.
pub fn draw_orb(t: &mut Tex, cx: i32, cy: i32, rgb: [u8; 3])
    requires
        old(t).wf(),
        old(t).w == TS,
        old(t).h == TS,
    ensures
        final(t).wf(),
        final(t).w == TS,
        final(t).h == TS,
        forall|qx: int, qy: int|
            0 <= qx < 64 && 0 <= qy < 64 ==> #[trigger] final(t).pixel(qx, qy) == orb_pixel(
                qx,
                qy,
                cx as int,
                cy as int,
                rgb,
                old(t).pixel(qx, qy),
            ),
{
    let ghost t0 = *t;
    let mut dy: i64 = -3;
    while dy < 4
        invariant
            -3 <= dy <= 4,
            t.wf(),
            t.w == TS,
            t.h == TS,
            forall|qx: int, qy: int|
                0 <= qx < 64 && 0 <= qy < 64 ==> #[trigger] t.pixel(qx, qy) == (if -3 <= qy - cy
                    < dy && -3 <= qx - cx <= 3 {
                    orb_pixel(qx, qy, cx as int, cy as int, rgb, t0.pixel(qx, qy))
                } else {
                    t0.pixel(qx, qy)
                }),
        decreases 4 - dy,
    {
        let mut dx: i64 = -3;
        while dx < 4
            invariant
                -3 <= dy < 4,
                -3 <= dx <= 4,
                t.wf(),
                t.w == TS,
                t.h == TS,
                forall|qx: int, qy: int|
                    0 <= qx < 64 && 0 <= qy < 64 ==> #[trigger] t.pixel(qx, qy) == (if (-3 <= qy
                        - cy < dy && -3 <= qx - cx <= 3) || (qy - cy == dy && -3 <= qx - cx < dx) {
                        orb_pixel(qx, qy, cx as int, cy as int, rgb, t0.pixel(qx, qy))
                    } else {
                        t0.pixel(qx, qy)
                    }),
            decreases 4 - dx,
        {
            assert(0 <= dx * dx <= 9 && 0 <= dy * dy <= 9) by (nonlinear_arith)
                requires
                    -3 <= dx <= 3,
                    -3 <= dy <= 3,
            ;
            let d2 = dx * dx + dy * dy;
            let px: i64 = cx as i64 + dx;
            let py: i64 = cy as i64 + dy;
            if d2 <= 9 && 0 <= px && px < 64 && 0 <= py && py < 64 {
                let al: u8 = if d2 <= 4 {
                    255
                } else {
                    140
                };
                t.set(px as usize, py as usize, [rgb[0], rgb[1], rgb[2], al]);
            }
            dx = dx + 1;
        }
        dy = dy + 1;
    }
    proof {
        assert forall|qx: int, qy: int|
            #![trigger t.pixel(qx, qy)]
            0 <= qx < 64 && 0 <= qy < 64 && !(-3 <= qy - cy <= 3 && -3 <= qx - cx <= 3) implies (qx
            - cx) * (qx - cx) + (qy - cy) * (qy - cy) > 9 by {
            let a = qx - cx;
            let b = qy - cy;
            assert(a * a + b * b > 9) by (nonlinear_arith)
                requires
                    !(-3 <= b <= 3 && -3 <= a <= 3),
            ;
        }
    }
}

/// The on-screen rectangle of a billboard `size` pixels wide and tall
/// centred on column `screen_x` and on the horizon, clipped to the
/// frame: `(first column, last column, first row, last row)`.
pub fn sprite_rect(screen_x: i32, size: i32) -> (r: (i32, i32, i32, i32))
    requires
        size > 1,
    ensures
        r.0 == (if screen_x - size as int / 2 > 0 {
            screen_x - size as int / 2
        } else {
            0
        }),
        r.1 == (if screen_x + size as int / 2 < RW - 1 {
            screen_x + size as int / 2
        } else {
            RW - 1
        }),
        r.2 == (if size <= RH {
            (RH - size) / 2
        } else {
            0
        }),
        r.3 == (if (RH + size) / 2 < RH - 1 {
            (RH + size) / 2
        } else {
            RH - 1
        }),
{
    let sx: i64 = screen_x as i64;
    let half: i64 = size as i64 / 2;
    let rw: i64 = RW as i64;
    let rh: i64 = RH as i64;
    let x0: i64 = if sx - half > 0 {
        sx - half
    } else {
        0
    };
    let x1: i64 = if sx + half < rw - 1 {
        sx + half
    } else {
        rw - 1
    };
    let y0: i64 = if size as i64 <= rh {
        (rh - size as i64) / 2
    } else {
        0
    };
    let y1: i64 = if (rh + size as i64) / 2 < rh - 1 {
        (rh + size as i64) / 2
    } else {
        rh - 1
    };
    (x0 as i32, x1 as i32, y0 as i32, y1 as i32)
}

/// The texel column (or row) shown `offset` pixels into a billboard
/// `size` pixels across, clamped to the texture.
pub fn texel(offset: i32, size: i32) -> (t: i32)
    requires
        offset >= 0,
        size > 0,
    ensures
        t == (if (offset as int) * 64 / (size as int) < 63 {
            (offset as int) * 64 / (size as int)
        } else {
            63
        }),
{
    let q: i64 = offset as i64 * 64 / size as i64;
    if q < 63 {
        q as i32
    } else {
        63
    }
}

/// The card's gold border is two pixels wide on all four sides: inside the
/// card rectangle a pixel is gold exactly when it lies in the two outer
/// columns or rows of any side, and violet everywhere else.
pub proof fn lemma_card_border_width(x: int, y: int)
    requires
        card_body(x, y),
    ensures
        (card_color(x, y) == [235u8, 200u8, 90u8, 255u8]) == (x < 20 || x >= 44 || y < 11 || y >= 51),
        !(x < 20 || x >= 44 || y < 11 || y >= 51) ==> card_color(x, y) == [48u8, 28u8, 78u8, 255u8],
{
    if !(x < 20 || x >= 44 || y < 11 || y >= 51) {
        assert([48u8, 28u8, 78u8, 255u8] != [235u8, 200u8, 90u8, 255u8]) by {
            assert([48u8, 28u8, 78u8, 255u8][0] != [235u8, 200u8, 90u8, 255u8][0]);
        }
    }
}

/// The spirit is opaque-ish (215) down to row 29 and fades by 5 per row
/// below; its opacity never rises going down and stays within 40..=215.
pub proof fn lemma_spirit_alpha_fades(y1: int, y2: int)
    requires
        0 <= y1 <= y2 < 64,
    ensures
        spirit_alpha(y2) <= spirit_alpha(y1),
        40 <= spirit_alpha(y1) <= 215,
        y1 < 30 ==> spirit_alpha(y1) == 215,
        30 <= y1 && y1 + 1 < 64 && 215 - (y1 + 1 - 30) * 5 >= 40 ==> spirit_alpha(y1) - spirit_alpha(
            y1 + 1,
        ) == 5,
{
}

/// The texel shown `offset` pixels into a billboard lies in the texture,
/// and moving further into the billboard never moves back in the texture.
pub proof fn lemma_texel_monotone(o1: int, o2: int, size: int)
    requires
        0 <= o1 <= o2,
        size > 0,
    ensures
        o1 * 64 / size <= o2 * 64 / size,
        o1 < size ==> o1 * 64 / size < 64,
{
    assert(o1 * 64 <= o2 * 64);
    vstd::arithmetic::div_mod::lemma_div_is_ordered(o1 * 64, o2 * 64, size);
    if o1 < size {
        assert(o1 * 64 < 64 * size) by (nonlinear_arith)
            requires
                o1 < size,
        ;
        vstd::arithmetic::div_mod::lemma_div_by_multiple_is_strongly_ordered(
            o1 * 64,
            64 * size,
            64,
            size,
        );
        vstd::arithmetic::div_mod::lemma_div_by_multiple(64, size);
    }
}

} // verus!
