//! RGBA cell bitmaps: the block-element and box-drawing glyphs that are drawn
//! without a font, and the composition of a rasterized font glyph into a
//! cell-sized bitmap.
//!
//! A bitmap of `w` by `h` pixels is a byte buffer of `w * 4 * h` bytes, row
//! after row; byte `i` lies in row `i / (4 * w)`, pixel `(i % (4 * w)) / 4`,
//! channel `i % 4`.
use vstd::prelude::*;
use vstd::arithmetic::div_mod::lemma_fundamental_div_mod_converse;

verus! {

/// A rectangle `[x0, x1) x [y0, y1)` of pixels.
pub type Rect = (usize, usize, usize, usize);

pub open spec fn in_rect(x: int, y: int, r: Rect) -> bool {
    r.0 <= x < r.2 && r.1 <= y < r.3
}

/// `usize::saturating_sub`.
pub open spec fn sat_sub(a: int, b: int) -> int {
    if a >= b {
        a - b
    } else {
        0
    }
}

/// Row of byte `i` in a bitmap whose rows are `bpr` bytes long.
pub open spec fn row_of(i: int, bpr: int) -> int {
    i / bpr
}

/// Pixel column of byte `i`.
pub open spec fn col_of(i: int, bpr: int) -> int {
    (i % bpr) / 4
}

pub proof fn lemma_byte_position(r: int, b: int, bpr: int)
    requires
        0 <= r,
        0 <= b < bpr,
    ensures
        (r * bpr + b) / bpr == r,
        (r * bpr + b) % bpr == b,
{
    lemma_fundamental_div_mod_converse(r * bpr + b, bpr, r, b);
}

pub proof fn lemma_byte_in_bounds(r: int, b: int, bpr: int, h: int)
    by (nonlinear_arith)
    requires
        0 <= r < h,
        0 <= b < bpr,
    ensures
        0 <= r * bpr + b < bpr * h,
        r * bpr + b + 1 <= bpr * h,
{
}

pub proof fn lemma_row_in_bounds(i: int, bpr: int, h: int)
    by (nonlinear_arith)
    requires
        0 <= i < bpr * h,
        bpr >= 0,
        h >= 0,
    ensures
        bpr > 0,
        0 <= i / bpr < h,
        0 <= i % bpr < bpr,
        i == (i / bpr) * bpr + i % bpr,
{
}

/// The rectangles that draw a block element or box-drawing character in a
/// `w` by `h` cell; empty for the other characters.
pub open spec fn builtin_rects(c: char, w: usize, h: usize) -> Seq<Rect> {
    let hw = (w / 2) as usize;
    let hh = (h / 2) as usize;
    if c == '\u{2580}' {
        seq![(0, 0, w, hh)]
    } else if c == '\u{2581}' {
        seq![(0, (h - h / 8) as usize, w, h)]
    } else if c == '\u{2582}' {
        seq![(0, (h - h / 4) as usize, w, h)]
    } else if c == '\u{2583}' {
        seq![(0, (h - 3 * h / 8) as usize, w, h)]
    } else if c == '\u{2584}' {
        seq![(0, hh, w, h)]
    } else if c == '\u{2585}' {
        seq![(0, (h - 5 * h / 8) as usize, w, h)]
    } else if c == '\u{2586}' {
        seq![(0, (h - 3 * h / 4) as usize, w, h)]
    } else if c == '\u{2587}' {
        seq![(0, (h - 7 * h / 8) as usize, w, h)]
    } else if c == '\u{2588}' {
        seq![(0, 0, w, h)]
    } else if c == '\u{2589}' {
        seq![(0, 0, (7 * w / 8) as usize, h)]
    } else if c == '\u{258A}' {
        seq![(0, 0, (3 * w / 4) as usize, h)]
    } else if c == '\u{258B}' {
        seq![(0, 0, (5 * w / 8) as usize, h)]
    } else if c == '\u{258C}' {
        seq![(0, 0, hw, h)]
    } else if c == '\u{258D}' {
        seq![(0, 0, (3 * w / 8) as usize, h)]
    } else if c == '\u{258E}' {
        seq![(0, 0, (w / 4) as usize, h)]
    } else if c == '\u{258F}' {
        seq![(0, 0, (w / 8) as usize, h)]
    } else if c == '\u{2590}' {
        seq![(hw, 0, w, h)]
    } else if c == '\u{2596}' {
        seq![(0, hh, hw, h)]
    } else if c == '\u{2597}' {
        seq![(hw, hh, w, h)]
    } else if c == '\u{2598}' {
        seq![(0, 0, hw, hh)]
    } else if c == '\u{2599}' {
        seq![(0, 0, hw, hh), (0, hh, w, h)]
    } else if c == '\u{259A}' {
        seq![(0, 0, hw, hh), (hw, hh, w, h)]
    } else if c == '\u{259B}' {
        seq![(0, 0, w, hh), (0, hh, hw, h)]
    } else if c == '\u{259C}' {
        seq![(0, 0, w, hh), (hw, hh, w, h)]
    } else if c == '\u{259D}' {
        seq![(hw, 0, w, hh)]
    } else if c == '\u{259E}' {
        seq![(hw, 0, w, hh), (0, hh, hw, h)]
    } else if c == '\u{259F}' {
        seq![(hw, 0, w, hh), (0, hh, w, h)]
    } else if c == '\u{2500}' || c == '\u{2501}' {
        let thick: usize = if c == '\u{2501}' {
            3
        } else {
            1
        };
        let y0 = sat_sub(hh as int, (thick / 2) as int) as usize;
        seq![(0, y0, w, (y0 + thick) as usize)]
    } else if c == '\u{2502}' || c == '\u{2503}' {
        let thick: usize = if c == '\u{2503}' {
            3
        } else {
            1
        };
        let x0 = sat_sub(hw as int, (thick / 2) as int) as usize;
        seq![(x0, 0, (x0 + thick) as usize, h)]
    } else if c == '\u{250C}' || c == '\u{256D}' {
        seq![(hw, hh, (hw + 1) as usize, h), (hw, hh, w, (hh + 1) as usize)]
    } else if c == '\u{2510}' || c == '\u{256E}' {
        seq![(hw, hh, (hw + 1) as usize, h), (0, hh, (hw + 1) as usize, (hh + 1) as usize)]
    } else if c == '\u{2514}' || c == '\u{2570}' {
        seq![(hw, 0, (hw + 1) as usize, (hh + 1) as usize), (hw, hh, w, (hh + 1) as usize)]
    } else if c == '\u{2518}' || c == '\u{256F}' {
        seq![
            (hw, 0, (hw + 1) as usize, (hh + 1) as usize),
            (0, hh, (hw + 1) as usize, (hh + 1) as usize)
        ]
    } else if c == '\u{251C}' {
        seq![(hw, 0, (hw + 1) as usize, h), (hw, hh, w, (hh + 1) as usize)]
    } else if c == '\u{2524}' {
        seq![(hw, 0, (hw + 1) as usize, h), (0, hh, (hw + 1) as usize, (hh + 1) as usize)]
    } else if c == '\u{252C}' {
        seq![(0, hh, w, (hh + 1) as usize), (hw, hh, (hw + 1) as usize, h)]
    } else if c == '\u{2534}' {
        seq![(0, hh, w, (hh + 1) as usize), (hw, 0, (hw + 1) as usize, (hh + 1) as usize)]
    } else if c == '\u{253C}' {
        seq![(0, hh, w, (hh + 1) as usize), (hw, 0, (hw + 1) as usize, h)]
    } else if c == '\u{2550}' {
        let y0 = sat_sub(hh as int, 1) as usize;
        seq![(0, y0, w, (y0 + 1) as usize), (0, (y0 + 2) as usize, w, (y0 + 3) as usize)]
    } else if c == '\u{2551}' {
        let x0 = sat_sub(hw as int, 1) as usize;
        seq![(x0, 0, (x0 + 1) as usize, h), ((x0 + 2) as usize, 0, (x0 + 3) as usize, h)]
    } else {
        Seq::empty()
    }
}

/// The three shade characters, drawn as dot patterns.
pub open spec fn is_shade(c: char) -> bool {
    c == '\u{2591}' || c == '\u{2592}' || c == '\u{2593}'
}

pub open spec fn shade_covers(c: char, x: int, y: int) -> bool {
    if c == '\u{2591}' {
        (x + y) % 4 == 0
    } else if c == '\u{2592}' {
        (x + y) % 2 == 0
    } else {
        (x + y) % 4 != 0
    }
}

/// Whether the character is drawn without a font.
pub open spec fn is_builtin(c: char, w: usize, h: usize) -> bool {
    is_shade(c) || builtin_rects(c, w, h).len() > 0
}

/// The characters drawn without a font: the block elements U+2580 to U+2593
/// and U+2596 to U+259F, the light and heavy lines U+2500 to U+2503, the
/// rounded corners U+256D to U+2570, the square corners, tees and cross, and
/// the double lines U+2550 and U+2551.
pub open spec fn builtin_char(c: char) -> bool {
    ||| '\u{2580}' <= c <= '\u{2593}'
    ||| '\u{2596}' <= c <= '\u{259F}'
    ||| '\u{2500}' <= c <= '\u{2503}'
    ||| '\u{256D}' <= c <= '\u{2570}'
    ||| c == '\u{250C}' || c == '\u{2510}' || c == '\u{2514}' || c == '\u{2518}'
    ||| c == '\u{251C}' || c == '\u{2524}' || c == '\u{252C}' || c == '\u{2534}'
    ||| c == '\u{253C}' || c == '\u{2550}' || c == '\u{2551}'
}

/// Pixel `(x, y)` is lit in the drawing of a character drawn with two
/// rectangles exactly when it lies in one of them.
proof fn lemma_covers_two(c: char, w: usize, h: usize, x: int, y: int)
    requires
        !is_shade(c),
        builtin_rects(c, w, h).len() == 2,
    ensures
        builtin_covers(c, w, h, x, y) == (in_rect(x, y, builtin_rects(c, w, h)[0]) || in_rect(
            x,
            y,
            builtin_rects(c, w, h)[1],
        )),
{
    let rs = builtin_rects(c, w, h);
    if in_rect(x, y, rs[0]) {
        assert(exists|k: int| 0 <= k < rs.len() && #[trigger] in_rect(x, y, rs[k]));
    } else if in_rect(x, y, rs[1]) {
        assert(exists|k: int| 0 <= k < rs.len() && #[trigger] in_rect(x, y, rs[k]));
    }
}

/// The arms of a box-drawing corner, tee or cross, as its Unicode name
/// gives them: `(up, down, left, right)`.
pub open spec fn box_arms(c: char) -> Option<(bool, bool, bool, bool)> {
    if c == '\u{2518}' {
        Some((true, false, true, false))
    } else if c == '\u{256F}' {
        Some((true, false, true, false))
    } else if c == '\u{2514}' {
        Some((true, false, false, true))
    } else if c == '\u{2570}' {
        Some((true, false, false, true))
    } else if c == '\u{250C}' {
        Some((false, true, false, true))
    } else if c == '\u{256D}' {
        Some((false, true, false, true))
    } else if c == '\u{2510}' {
        Some((false, true, true, false))
    } else if c == '\u{256E}' {
        Some((false, true, true, false))
    } else if c == '\u{251C}' {
        Some((true, true, false, true))
    } else if c == '\u{2524}' {
        Some((true, true, true, false))
    } else if c == '\u{252C}' {
        Some((false, true, true, true))
    } else if c == '\u{2534}' {
        Some((true, false, true, true))
    } else if c == '\u{253C}' {
        Some((true, true, true, true))
    } else {
        None
    }
}

/// The box-drawing corners, tees and cross light exactly the strokes their
/// Unicode names give: one-pixel lines from the centre pixel `(w / 2, h / 2)`
/// along the centre column up and down, and along the middle row left and
/// right, each drawn out to the edge where the name has that arm.
#[verifier::spinoff_prover]
#[verifier::rlimit(100)]
pub proof fn lemma_box_strokes(c: char, w: usize, h: usize, x: int, y: int)
    requires
        box_arms(c) is Some,
        0 <= x < w,
        0 <= y < h,
    ensures
        ({
            let (up, down, left, right) = box_arms(c)->0;
            let hw = (w / 2) as int;
            let hh = (h / 2) as int;
            builtin_covers(c, w, h, x, y) == ((x == hw && ((up && y <= hh) || (down && y >= hh))) || (
            y == hh && ((left && x <= hw) || (right && x >= hw))))
        }),
{
    if c == '\u{2518}' {
        lemma_covers_two(c, w, h, x, y);
    } else if c == '\u{256F}' {
        lemma_covers_two(c, w, h, x, y);
    } else if c == '\u{2514}' {
        lemma_covers_two(c, w, h, x, y);
    } else if c == '\u{2570}' {
        lemma_covers_two(c, w, h, x, y);
    } else if c == '\u{250C}' {
        lemma_covers_two(c, w, h, x, y);
    } else if c == '\u{256D}' {
        lemma_covers_two(c, w, h, x, y);
    } else if c == '\u{2510}' {
        lemma_covers_two(c, w, h, x, y);
    } else if c == '\u{256E}' {
        lemma_covers_two(c, w, h, x, y);
    } else if c == '\u{251C}' {
        lemma_covers_two(c, w, h, x, y);
    } else if c == '\u{2524}' {
        lemma_covers_two(c, w, h, x, y);
    } else if c == '\u{252C}' {
        lemma_covers_two(c, w, h, x, y);
    } else if c == '\u{2534}' {
        lemma_covers_two(c, w, h, x, y);
    } else if c == '\u{253C}' {
        lemma_covers_two(c, w, h, x, y);
    }
}

/// Exec counterpart of [`builtin_char`].
pub fn is_builtin_char(c: char) -> (r: bool)
    ensures
        r == builtin_char(c),
{
    ('\u{2580}' <= c && c <= '\u{2593}') || ('\u{2596}' <= c && c <= '\u{259F}') || ('\u{2500}'
        <= c && c <= '\u{2503}') || ('\u{256D}' <= c && c <= '\u{2570}') || c == '\u{250C}' || c
        == '\u{2510}' || c == '\u{2514}' || c == '\u{2518}' || c == '\u{251C}' || c == '\u{2524}'
        || c == '\u{252C}' || c == '\u{2534}' || c == '\u{253C}' || c == '\u{2550}' || c
        == '\u{2551}'
}

/// Whether a character is drawn without a font does not depend on the
/// cell's size.
pub proof fn lemma_builtin_set(c: char, w: usize, h: usize)
    ensures
        is_builtin(c, w, h) == builtin_char(c),
{
}

/// Whether pixel `(x, y)` is lit in the drawing of `c`.
pub open spec fn builtin_covers(c: char, w: usize, h: usize, x: int, y: int) -> bool {
    if is_shade(c) {
        shade_covers(c, x, y)
    } else {
        exists|k: int| 0 <= k < builtin_rects(c, w, h).len() && #[trigger] in_rect(x, y, builtin_rects(c, w, h)[k])
    }
}

/// Lights (sets to opaque white) every pixel of `rect` that lies in the cell.
fn fill_rect(buf: &mut Vec<u8>, w: usize, h: usize, rect: Rect)
    requires
        old(buf).len() >= w * 4 * h,
        w * 4 <= usize::MAX,
    ensures
        final(buf).len() == old(buf).len(),
        forall|i: int|
            0 <= i < final(buf).len() ==> #[trigger] final(buf)@[i] == if i < w * 4 * h && in_rect(
                col_of(i, 4 * w),
                row_of(i, 4 * w),
                rect,
            ) {
                255u8
            } else {
                old(buf)@[i]
            },
{
    let bpr = w * 4;
    let (x0, y0, x1, y1) = rect;
    let xmax = if x1 < w {
        x1
    } else {
        w
    };
    let ymax = if y1 < h {
        y1
    } else {
        h
    };
    if x0 >= xmax || y0 >= ymax {
        proof {
            assert forall|i: int| 0 <= i < buf.len() implies #[trigger] buf@[i] == if i < w * 4 * h
                && in_rect(col_of(i, 4 * w), row_of(i, 4 * w), rect) {
                255u8
            } else {
                old(buf)@[i]
            } by {
                if i < w * 4 * h {
                    lemma_row_in_bounds(i, bpr as int, h as int);
                }
            }
        }
        return;
    }
    let mut y = y0;
    while y < ymax
        invariant
            bpr == w * 4,
            buf.len() == old(buf).len(),
            buf.len() >= bpr * h,
            x0 < xmax <= w,
            y0 <= y <= ymax <= h,
            xmax == if x1 < w { x1 } else { w },
            ymax == if y1 < h { y1 } else { h },
            rect == (x0, y0, x1, y1),
            forall|i: int|
                0 <= i < buf.len() ==> #[trigger] buf@[i] == if i < bpr * h && y0 <= row_of(
                    i,
                    bpr as int,
                ) < y && x0 <= col_of(i, bpr as int) < xmax {
                    255u8
                } else {
                    old(buf)@[i]
                },
        decreases ymax - y,
    {
        let mut x = x0;
        while x < xmax
            invariant
                bpr == w * 4,
                buf.len() == old(buf).len(),
                buf.len() >= bpr * h,
                x0 <= x <= xmax <= w,
                y0 <= y < ymax <= h,
                forall|i: int|
                    0 <= i < buf.len() ==> #[trigger] buf@[i] == if i < bpr * h && ((y0 <= row_of(
                        i,
                        bpr as int,
                    ) < y && x0 <= col_of(i, bpr as int) < xmax) || (row_of(i, bpr as int) == y
                        && x0 <= col_of(i, bpr as int) < x)) {
                        255u8
                    } else {
                        old(buf)@[i]
                    },
            decreases xmax - x,
        {
            proof {
                lemma_byte_in_bounds(y as int, (x * 4 + 3) as int, bpr as int, h as int);
            }
            let off = y * bpr + x * 4;
            let ghost before = buf@;
            buf.set(off, 255);
            buf.set(off + 1, 255);
            buf.set(off + 2, 255);
            buf.set(off + 3, 255);
            proof {
                assert forall|i: int| 0 <= i < buf.len() implies #[trigger] buf@[i] == if i < bpr
                    * h && ((y0 <= row_of(i, bpr as int) < y && x0 <= col_of(i, bpr as int) < xmax)
                    || (row_of(i, bpr as int) == y && x0 <= col_of(i, bpr as int) < x + 1)) {
                    255u8
                } else {
                    old(buf)@[i]
                } by {
                    if i < bpr * h {
                        lemma_row_in_bounds(i, bpr as int, h as int);
                    }
                    if off <= i < off + 4 {
                        lemma_byte_position(y as int, i - y * bpr, bpr as int);
                    } else {
                        assert(buf@[i] == before[i]);
                        if i < bpr * h && row_of(i, bpr as int) == y && col_of(i, bpr as int) == x {
                            assert(i == y * bpr + i % (bpr as int));
                            assert(false);
                        }
                    }
                }
            }
            x = x + 1;
        }
        y = y + 1;
    }
    proof {
        assert forall|i: int| 0 <= i < buf.len() implies #[trigger] buf@[i] == if i < w * 4 * h
            && in_rect(col_of(i, 4 * w), row_of(i, 4 * w), rect) {
            255u8
        } else {
            old(buf)@[i]
        } by {
            if i < w * 4 * h {
                lemma_row_in_bounds(i, bpr as int, h as int);
            }
            assert(4 * w == bpr);
        }
    }
}

/// Exec counterpart of [`builtin_rects`].
fn builtin_rect_list(c: char, w: usize, h: usize) -> (v: Vec<Rect>)
    ensures
        v@ == builtin_rects(c, w, h),
{
    let hw = w / 2;
    let hh = h / 2;
    let v = match c {
        '\u{2580}' => vec![(0, 0, w, hh)],
        '\u{2581}' => {
            let t = ((h as u128) - (h as u128) / 8) as usize;
            vec![(0, t, w, h)]
        },
        '\u{2582}' => {
            let t = ((h as u128) - (h as u128) / 4) as usize;
            vec![(0, t, w, h)]
        },
        '\u{2583}' => {
            let t = ((h as u128) - 3 * (h as u128) / 8) as usize;
            vec![(0, t, w, h)]
        },
        '\u{2584}' => vec![(0, hh, w, h)],
        '\u{2585}' => {
            let t = ((h as u128) - 5 * (h as u128) / 8) as usize;
            vec![(0, t, w, h)]
        },
        '\u{2586}' => {
            let t = ((h as u128) - 3 * (h as u128) / 4) as usize;
            vec![(0, t, w, h)]
        },
        '\u{2587}' => {
            let t = ((h as u128) - 7 * (h as u128) / 8) as usize;
            vec![(0, t, w, h)]
        },
        '\u{2588}' => vec![(0, 0, w, h)],
        '\u{2589}' => {
            let r = (7 * (w as u128) / 8) as usize;
            vec![(0, 0, r, h)]
        },
        '\u{258A}' => {
            let r = (3 * (w as u128) / 4) as usize;
            vec![(0, 0, r, h)]
        },
        '\u{258B}' => {
            let r = (5 * (w as u128) / 8) as usize;
            vec![(0, 0, r, h)]
        },
        '\u{258C}' => vec![(0, 0, hw, h)],
        '\u{258D}' => {
            let r = (3 * (w as u128) / 8) as usize;
            vec![(0, 0, r, h)]
        },
        '\u{258E}' => vec![(0, 0, w / 4, h)],
        '\u{258F}' => vec![(0, 0, w / 8, h)],
        '\u{2590}' => vec![(hw, 0, w, h)],
        '\u{2596}' => vec![(0, hh, hw, h)],
        '\u{2597}' => vec![(hw, hh, w, h)],
        '\u{2598}' => vec![(0, 0, hw, hh)],
        '\u{2599}' => vec![(0, 0, hw, hh), (0, hh, w, h)],
        '\u{259A}' => vec![(0, 0, hw, hh), (hw, hh, w, h)],
        '\u{259B}' => vec![(0, 0, w, hh), (0, hh, hw, h)],
        '\u{259C}' => vec![(0, 0, w, hh), (hw, hh, w, h)],
        '\u{259D}' => vec![(hw, 0, w, hh)],
        '\u{259E}' => vec![(hw, 0, w, hh), (0, hh, hw, h)],
        '\u{259F}' => vec![(hw, 0, w, hh), (0, hh, w, h)],
        '\u{2500}' | '\u{2501}' => {
            let thick: usize = if c == '\u{2501}' {
                3
            } else {
                1
            };
            let y0 = hh.saturating_sub(thick / 2);
            vec![(0, y0, w, y0 + thick)]
        },
        '\u{2502}' | '\u{2503}' => {
            let thick: usize = if c == '\u{2503}' {
                3
            } else {
                1
            };
            let x0 = hw.saturating_sub(thick / 2);
            vec![(x0, 0, x0 + thick, h)]
        },
        '\u{250C}' | '\u{256D}' => vec![(hw, hh, hw + 1, h), (hw, hh, w, hh + 1)],
        '\u{2510}' | '\u{256E}' => vec![(hw, hh, hw + 1, h), (0, hh, hw + 1, hh + 1)],
        '\u{2514}' | '\u{2570}' => vec![(hw, 0, hw + 1, hh + 1), (hw, hh, w, hh + 1)],
        '\u{2518}' | '\u{256F}' => vec![(hw, 0, hw + 1, hh + 1), (0, hh, hw + 1, hh + 1)],
        '\u{251C}' => vec![(hw, 0, hw + 1, h), (hw, hh, w, hh + 1)],
        '\u{2524}' => vec![(hw, 0, hw + 1, h), (0, hh, hw + 1, hh + 1)],
        '\u{252C}' => vec![(0, hh, w, hh + 1), (hw, hh, hw + 1, h)],
        '\u{2534}' => vec![(0, hh, w, hh + 1), (hw, 0, hw + 1, hh + 1)],
        '\u{253C}' => vec![(0, hh, w, hh + 1), (hw, 0, hw + 1, h)],
        '\u{2550}' => {
            let y0 = hh.saturating_sub(1);
            vec![(0, y0, w, y0 + 1), (0, y0 + 2, w, y0 + 3)]
        },
        '\u{2551}' => {
            let x0 = hw.saturating_sub(1);
            vec![(x0, 0, x0 + 1, h), (x0 + 2, 0, x0 + 3, h)]
        },
        _ => Vec::new(),
    };
    proof {
        assert(v@ =~= builtin_rects(c, w, h));
    }
    v
}

/// Lights the pixels of a shade pattern.
fn fill_shade(buf: &mut Vec<u8>, w: usize, h: usize, c: char)
    requires
        old(buf).len() >= w * 4 * h,
        w * 4 <= usize::MAX,
        is_shade(c),
    ensures
        final(buf).len() == old(buf).len(),
        forall|i: int|
            0 <= i < final(buf).len() ==> #[trigger] final(buf)@[i] == if i < w * 4 * h && shade_covers(
                c,
                col_of(i, 4 * w),
                row_of(i, 4 * w),
            ) {
                255u8
            } else {
                old(buf)@[i]
            },
{
    let bpr = w * 4;
    let mut y: usize = 0;
    while y < h
        invariant
            bpr == w * 4,
            buf.len() == old(buf).len(),
            buf.len() >= bpr * h,
            is_shade(c),
            y <= h,
            forall|i: int|
                0 <= i < buf.len() ==> #[trigger] buf@[i] == if i < bpr * h && row_of(i, bpr as int) < y
                    && shade_covers(c, col_of(i, bpr as int), row_of(i, bpr as int)) {
                    255u8
                } else {
                    old(buf)@[i]
                },
        decreases h - y,
    {
        let mut x: usize = 0;
        while x < w
            invariant
                bpr == w * 4,
                buf.len() == old(buf).len(),
                buf.len() >= bpr * h,
                is_shade(c),
                x <= w,
                y < h,
                forall|i: int|
                    0 <= i < buf.len() ==> #[trigger] buf@[i] == if i < bpr * h && (row_of(i, bpr as int) < y || (
                    row_of(i, bpr as int) == y && col_of(i, bpr as int) < x)) && shade_covers(
                        c,
                        col_of(i, bpr as int),
                        row_of(i, bpr as int),
                    ) {
                        255u8
                    } else {
                        old(buf)@[i]
                    },
            decreases w - x,
        {
            let sum = (x as u128) + (y as u128);
            let lit = if c == '\u{2591}' {
                sum % 4 == 0
            } else if c == '\u{2592}' {
                sum % 2 == 0
            } else {
                sum % 4 != 0
            };
            let ghost before = buf@;
            if lit {
                proof {
                    lemma_byte_in_bounds(y as int, (x * 4 + 3) as int, bpr as int, h as int);
                }
                let off = y * bpr + x * 4;
                buf.set(off, 255);
                buf.set(off + 1, 255);
                buf.set(off + 2, 255);
                buf.set(off + 3, 255);
            }
            proof {
                let off = y * bpr + x * 4;
                assert forall|i: int| 0 <= i < buf.len() implies #[trigger] buf@[i] == if i < bpr * h
                    && (row_of(i, bpr as int) < y || (row_of(i, bpr as int) == y && col_of(
                    i,
                    bpr as int,
                ) < x + 1)) && shade_covers(c, col_of(i, bpr as int), row_of(i, bpr as int)) {
                    255u8
                } else {
                    old(buf)@[i]
                } by {
                    if i < bpr * h {
                        lemma_row_in_bounds(i, bpr as int, h as int);
                    }
                    if off <= i < off + 4 {
                        lemma_byte_position(y as int, i - y * bpr, bpr as int);
                    } else {
                        assert(buf@[i] == before[i]);
                        if i < bpr * h && row_of(i, bpr as int) == y && col_of(i, bpr as int) == x {
                            assert(i == y * bpr + i % (bpr as int));
                            assert(false);
                        }
                    }
                }
            }
            x = x + 1;
        }
        y = y + 1;
    }
    proof {
        assert forall|i: int| 0 <= i < buf.len() implies #[trigger] buf@[i] == if i < w * 4 * h
            && shade_covers(c, col_of(i, 4 * w), row_of(i, 4 * w)) {
            255u8
        } else {
            old(buf)@[i]
        } by {
            if i < w * 4 * h {
                lemma_row_in_bounds(i, bpr as int, h as int);
            }
            assert(4 * w == bpr);
        }
    }
}

/// Draw a block element or box-drawing character directly into a bitmap
/// buffer of `w` by `h` pixels. Returns true if the character was handled,
/// false otherwise (the buffer is then untouched).
pub fn draw_builtin_glyph(c: char, buf: &mut Vec<u8>, w: usize, h: usize) -> (handled: bool)
    requires
        old(buf).len() >= w * 4 * h,
        w * 4 <= usize::MAX,
    ensures
        handled == is_builtin(c, w, h),
        handled == builtin_char(c),
        !handled ==> final(buf)@ == old(buf)@,
        final(buf).len() == old(buf).len(),
        forall|i: int|
            0 <= i < final(buf).len() ==> #[trigger] final(buf)@[i] == if handled && i < w * 4 * h
                && builtin_covers(c, w, h, col_of(i, 4 * w), row_of(i, 4 * w)) {
                255u8
            } else {
                old(buf)@[i]
            },
{
    if c == '\u{2591}' || c == '\u{2592}' || c == '\u{2593}' {
        fill_shade(buf, w, h, c);
        return true;
    }
    let rects = builtin_rect_list(c, w, h);
    let n = rects.len();
    let mut k: usize = 0;
    while k < n
        invariant
            n == rects.len(),
            rects@ == builtin_rects(c, w, h),
            !is_shade(c),
            buf.len() == old(buf).len(),
            buf.len() >= w * 4 * h,
            w * 4 <= usize::MAX,
            k <= n,
            forall|i: int|
                0 <= i < buf.len() ==> #[trigger] buf@[i] == if i < w * 4 * h && exists|j: int|
                    0 <= j < k && #[trigger] in_rect(
                        col_of(i, 4 * w),
                        row_of(i, 4 * w),
                        rects@[j],
                    ) {
                    255u8
                } else {
                    old(buf)@[i]
                },
        decreases n - k,
    {
        let ghost before = buf@;
        fill_rect(buf, w, h, rects[k]);
        proof {
            assert forall|i: int| 0 <= i < buf.len() implies #[trigger] buf@[i] == if i < w * 4 * h
                && exists|j: int|
                0 <= j < k + 1 && #[trigger] in_rect(
                    col_of(i, 4 * w),
                    row_of(i, 4 * w),
                    rects@[j],
                ) {
                255u8
            } else {
                old(buf)@[i]
            } by {
                assert(before[i] == if i < w * 4 * h && exists|j: int|
                    0 <= j < k && #[trigger] in_rect(
                        col_of(i, 4 * w),
                        row_of(i, 4 * w),
                        rects@[j],
                    ) {
                    255u8
                } else {
                    old(buf)@[i]
                });
                if in_rect(col_of(i, 4 * w), row_of(i, 4 * w), rects@[k as int]) {
                } else {
                    if exists|j: int|
                        0 <= j < k + 1 && #[trigger] in_rect(
                            col_of(i, 4 * w),
                            row_of(i, 4 * w),
                            rects@[j],
                        ) {
                        let j = choose|j: int|
                            0 <= j < k + 1 && #[trigger] in_rect(
                                col_of(i, 4 * w),
                                row_of(i, 4 * w),
                                rects@[j],
                            );
                        assert(j < k);
                    }
                }
            }
        }
        k = k + 1;
    }
    n > 0
}

/// A glyph as the font rasterizer hands it over: a `width` by `rows` bitmap
/// whose rows are `pitch` bytes apart, placed `left` pixels right of the pen
/// and `top` pixels above the baseline, for the character `code`. Colour
/// glyphs hold BGRA pixels, the others one coverage byte per pixel.
#[derive(Clone, Debug)]
pub struct RenderedGlyph {
    pub code: char,
    pub width: usize,
    pub rows: usize,
    pub pitch: usize,
    pub left: i32,
    pub top: i32,
    pub is_color: bool,
    pub buffer: Vec<u8>,
}

/// The bitmap geometry a rasterizer guarantees: a coverage bitmap holds
/// `rows` rows of at least `width` bytes; offsets stay within machine range.
pub open spec fn rendered_wf(g: RenderedGlyph) -> bool {
    &&& g.rows * g.pitch + g.width * 4 + 4 <= usize::MAX
    &&& !g.is_color ==> (g.width <= g.pitch && g.rows * g.pitch <= g.buffer.len())
}

/// Exec counterpart of [`rendered_wf`].
pub fn rendered_well_formed(g: &RenderedGlyph) -> (b: bool)
    ensures
        b == rendered_wf(*g),
{
    let rows = g.rows as u128;
    let pitch = g.pitch as u128;
    let width = g.width as u128;
    proof {
        assert(rows * pitch <= 0xffff_ffff_ffff_ffffu128 * 0xffff_ffff_ffff_ffffu128) by (nonlinear_arith)
            requires
                rows <= 0xffff_ffff_ffff_ffffu128,
                pitch <= 0xffff_ffff_ffff_ffffu128,
        ;
    }
    let area = rows * pitch;
    if area > usize::MAX as u128 || area + width * 4 + 4 > usize::MAX as u128 {
        return false;
    }
    g.is_color || (g.width <= g.pitch && g.rows * g.pitch <= g.buffer.len())
}

/// Byte `b` of row `r` of the cell bitmap that holds the rasterized glyph
/// `g`, its baseline `ascent` pixels below the top of the cell. Coverage
/// glyphs become white with the coverage as alpha; colour glyphs are turned
/// from BGRA into RGBA; pixels outside the glyph stay transparent.
pub open spec fn composed_byte(g: RenderedGlyph, ascent: int, r: int, b: int) -> u8 {
    let left: int = if g.left < 0 {
        0
    } else {
        g.left as int
    };
    let y_off: int = if ascent - g.top < 0 {
        0
    } else {
        ascent - g.top
    };
    let x = b / 4;
    let k = b % 4;
    let py = r - y_off;
    let px = x - left;
    if 0 <= py < g.rows && 0 <= px < g.width {
        if g.is_color {
            let so = py * g.pitch + px * 4;
            if so + 3 < g.buffer.len() {
                if k == 0 {
                    g.buffer@[so + 2]
                } else if k == 1 {
                    g.buffer@[so + 1]
                } else if k == 2 {
                    g.buffer@[so]
                } else {
                    g.buffer@[so + 3]
                }
            } else {
                0
            }
        } else {
            let a = g.buffer@[py * g.pitch + px];
            if a > 0 {
                if k < 3 {
                    255
                } else {
                    a
                }
            } else {
                0
            }
        }
    } else {
        0
    }
}

/// The cell pixel that shows pixel `(px, py)` of a rasterized glyph, with
/// its baseline `ascent` pixels below the top of the cell: a colour glyph's
/// BGRA source pixel, the four bytes from `py * pitch + 4 * px`, reordered
/// to RGBA; a coverage glyph's coverage byte at `py * pitch + px`, as white
/// with that alpha (transparent for no coverage). The glyph is placed
/// `left` pixels right of the cell's edge and `ascent - top` rows down, both
/// clamped at zero.
pub proof fn lemma_composed_pixel(g: RenderedGlyph, ascent: int, px: int, py: int)
    requires
        0 <= px < g.width,
        0 <= py < g.rows,
        g.is_color ==> py * g.pitch + 4 * px + 3 < g.buffer.len(),
        !g.is_color ==> py * g.pitch + px < g.buffer.len(),
    ensures
        ({
            let x = (if g.left < 0 { 0 } else { g.left as int }) + px;
            let y = (if ascent - g.top < 0 { 0 } else { ascent - g.top }) + py;
            let pixel = seq![
                composed_byte(g, ascent, y, 4 * x),
                composed_byte(g, ascent, y, 4 * x + 1),
                composed_byte(g, ascent, y, 4 * x + 2),
                composed_byte(g, ascent, y, 4 * x + 3),
            ];
            let s = py * g.pitch + 4 * px;
            let a = g.buffer@[py * g.pitch + px];
            &&& g.is_color ==> pixel == seq![
                g.buffer@[s + 2],
                g.buffer@[s + 1],
                g.buffer@[s],
                g.buffer@[s + 3],
            ]
            &&& !g.is_color ==> pixel == if a > 0 {
                seq![255u8, 255, 255, a]
            } else {
                seq![0u8, 0, 0, 0]
            }
        }),
{
    let x = (if g.left < 0 { 0 } else { g.left as int }) + px;
    assert(x >= 0);
    lemma_fundamental_div_mod_converse(4 * x, 4, x, 0);
    lemma_fundamental_div_mod_converse(4 * x + 1, 4, x, 1);
    lemma_fundamental_div_mod_converse(4 * x + 2, 4, x, 2);
    lemma_fundamental_div_mod_converse(4 * x + 3, 4, x, 3);
}

proof fn lemma_source_offset(py: int, px: int, pitch: int, rows: int, width: int)
    by (nonlinear_arith)
    requires
        0 <= py < rows,
        0 <= px < width,
        pitch >= 0,
    ensures
        0 <= py * pitch + px * 4 <= rows * pitch + width * 4,
        py * pitch + px <= rows * pitch + width,
        width <= pitch ==> py * pitch + px < rows * pitch,
{
}

fn composed_byte_at(g: &RenderedGlyph, ascent: i32, r: usize, b: usize) -> (v: u8)
    requires
        rendered_wf(*g),
    ensures
        v == composed_byte(*g, ascent as int, r as int, b as int),
{
    let left: i64 = if g.left < 0 {
        0
    } else {
        g.left as i64
    };
    let diff: i64 = (ascent as i64) - (g.top as i64);
    let y_off: i64 = if diff < 0 {
        0
    } else {
        diff
    };
    let x = b / 4;
    let k = b % 4;
    if (r as i128) < (y_off as i128) || (x as i128) < (left as i128) {
        return 0;
    }
    let py = ((r as i128) - (y_off as i128)) as usize;
    let px = ((x as i128) - (left as i128)) as usize;
    if py >= g.rows || px >= g.width {
        return 0;
    }
    proof {
        lemma_source_offset(py as int, px as int, g.pitch as int, g.rows as int, g.width as int);
    }
    if g.is_color {
        let so = py * g.pitch + px * 4;
        if so + 3 < g.buffer.len() {
            if k == 0 {
                g.buffer[so + 2]
            } else if k == 1 {
                g.buffer[so + 1]
            } else if k == 2 {
                g.buffer[so]
            } else {
                g.buffer[so + 3]
            }
        } else {
            0
        }
    } else {
        let a = g.buffer[py * g.pitch + px];
        if a > 0 {
            if k < 3 {
                255
            } else {
                a
            }
        } else {
            0
        }
    }
}

/// The `w` by `h` cell bitmap holding the rasterized glyph `g`.
pub fn compose_glyph(g: &RenderedGlyph, ascent: i32, w: usize, h: usize) -> (buf: Vec<u8>)
    requires
        rendered_wf(*g),
        w * 4 <= usize::MAX,
        w * 4 * h <= usize::MAX,
    ensures
        buf.len() == w * 4 * h,
        forall|i: int|
            0 <= i < buf.len() ==> #[trigger] buf@[i] == composed_byte(
                *g,
                ascent as int,
                row_of(i, 4 * w),
                i % (4 * w),
            ),
{
    let bpr = w * 4;
    let len = bpr * h;
    let mut buf: Vec<u8> = Vec::new();
    let mut i: usize = 0;
    while i < len
        invariant
            bpr == w * 4,
            len == bpr * h,
            rendered_wf(*g),
            i <= len,
            buf.len() == i,
            forall|j: int|
                0 <= j < i ==> #[trigger] buf@[j] == composed_byte(
                    *g,
                    ascent as int,
                    row_of(j, bpr as int),
                    j % (bpr as int),
                ),
        decreases len - i,
    {
        let v = composed_byte_at(g, ascent, i / bpr, i % bpr);
        buf.push(v);
        i = i + 1;
    }
    buf
}

} // verus!
