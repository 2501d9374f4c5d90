//! The 32x32 RGBA tray icon that shows upload and download speed in a bold
//! 5x10 bitmap font with a one-pixel outline.
//!
//! The canvas is a byte buffer of `ICON_WIDTH * ICON_HEIGHT` pixels, four
//! bytes (R, G, B, A) each, row by row; byte `i` of the canvas belongs to
//! pixel `(pixel_x(i), pixel_y(i))`, channel `i % 4`.

use vstd::prelude::*;
use crate::text::chars_of;

verus! {

pub const ICON_WIDTH: usize = 32;
pub const ICON_HEIGHT: usize = 32;
/// Bytes of a whole canvas.
pub const CANVAS_BYTES: usize = 4096;

pub open spec fn pixel_x(i: int) -> int {
    (i / 4) % 32
}

pub open spec fn pixel_y(i: int) -> int {
    i / 128
}

/// Rows of the glyph of `c` (bit 4 is the leftmost column), if the font has one.
pub open spec fn glyph(c: char) -> Option<Seq<u8>> {
    if c == '0' {
        Some(seq![0b01110u8, 0b11111, 0b11011, 0b11011, 0b11011, 0b11011, 0b11011, 0b11011, 0b11111, 0b01110])
    } else if c == '1' {
        Some(seq![0b00110u8, 0b01110, 0b11110, 0b00110, 0b00110, 0b00110, 0b00110, 0b00110, 0b11111, 0b11111])
    } else if c == '2' {
        Some(seq![0b01110u8, 0b11111, 0b11011, 0b00011, 0b00110, 0b01100, 0b11000, 0b11000, 0b11111, 0b11111])
    } else if c == '3' {
        Some(seq![0b11111u8, 0b11111, 0b00011, 0b00110, 0b01110, 0b00011, 0b00011, 0b11011, 0b11111, 0b01110])
    } else if c == '4' {
        Some(seq![0b00110u8, 0b01110, 0b11110, 0b10110, 0b11111, 0b11111, 0b00110, 0b00110, 0b00110, 0b00110])
    } else if c == '5' {
        Some(seq![0b11111u8, 0b11111, 0b11000, 0b11110, 0b11111, 0b00011, 0b00011, 0b11011, 0b11111, 0b01110])
    } else if c == '6' {
        Some(seq![0b01110u8, 0b11111, 0b11000, 0b11110, 0b11111, 0b11011, 0b11011, 0b11011, 0b11111, 0b01110])
    } else if c == '7' {
        Some(seq![0b11111u8, 0b11111, 0b00011, 0b00110, 0b00110, 0b01100, 0b01100, 0b11000, 0b11000, 0b11000])
    } else if c == '8' {
        Some(seq![0b01110u8, 0b11111, 0b11011, 0b11111, 0b01110, 0b11111, 0b11011, 0b11011, 0b11111, 0b01110])
    } else if c == '9' {
        Some(seq![0b01110u8, 0b11111, 0b11011, 0b11011, 0b11111, 0b01111, 0b00011, 0b00011, 0b11111, 0b01110])
    } else if c == '.' {
        Some(seq![0b00000u8, 0b00000, 0b00000, 0b00000, 0b00000, 0b00000, 0b00000, 0b00000, 0b01100, 0b01100])
    } else if c == 'K' || c == 'k' {
        Some(seq![0b11011u8, 0b11011, 0b11110, 0b11100, 0b11110, 0b11011, 0b11011, 0b11011, 0b11011, 0b11011])
    } else if c == 'M' || c == 'm' {
        Some(seq![0b11011u8, 0b11111, 0b11111, 0b10101, 0b10101, 0b10001, 0b10001, 0b10001, 0b10001, 0b10001])
    } else if c == 'G' || c == 'g' {
        Some(seq![0b01110u8, 0b11111, 0b11000, 0b11000, 0b11011, 0b11011, 0b11011, 0b11011, 0b11111, 0b01110])
    } else if c == '↑' {
        Some(seq![0b00100u8, 0b01110, 0b11111, 0b11111, 0b01110, 0b01110, 0b01110, 0b01110, 0b01110, 0b01110])
    } else if c == '↓' {
        Some(seq![0b01110u8, 0b01110, 0b01110, 0b01110, 0b01110, 0b01110, 0b11111, 0b11111, 0b01110, 0b00100])
    } else if c == ' ' {
        Some(seq![0b00000u8, 0b00000, 0b00000, 0b00000, 0b00000, 0b00000, 0b00000, 0b00000, 0b00000, 0b00000])
    } else {
        None
    }
}

/// The glyph of `c` in the 5x10 bold font, if the font has one.
pub fn get_glyph_10(c: char) -> (r: Option<[u8; 10]>)
    ensures
        match r {
            Some(rows) => glyph(c) == Some(rows@),
            None => glyph(c) is None,
        },
{
    let r: Option<[u8; 10]> = if c == '0' {
        Some([0b01110, 0b11111, 0b11011, 0b11011, 0b11011, 0b11011, 0b11011, 0b11011, 0b11111, 0b01110])
    } else if c == '1' {
        Some([0b00110, 0b01110, 0b11110, 0b00110, 0b00110, 0b00110, 0b00110, 0b00110, 0b11111, 0b11111])
    } else if c == '2' {
        Some([0b01110, 0b11111, 0b11011, 0b00011, 0b00110, 0b01100, 0b11000, 0b11000, 0b11111, 0b11111])
    } else if c == '3' {
        Some([0b11111, 0b11111, 0b00011, 0b00110, 0b01110, 0b00011, 0b00011, 0b11011, 0b11111, 0b01110])
    } else if c == '4' {
        Some([0b00110, 0b01110, 0b11110, 0b10110, 0b11111, 0b11111, 0b00110, 0b00110, 0b00110, 0b00110])
    } else if c == '5' {
        Some([0b11111, 0b11111, 0b11000, 0b11110, 0b11111, 0b00011, 0b00011, 0b11011, 0b11111, 0b01110])
    } else if c == '6' {
        Some([0b01110, 0b11111, 0b11000, 0b11110, 0b11111, 0b11011, 0b11011, 0b11011, 0b11111, 0b01110])
    } else if c == '7' {
        Some([0b11111, 0b11111, 0b00011, 0b00110, 0b00110, 0b01100, 0b01100, 0b11000, 0b11000, 0b11000])
    } else if c == '8' {
        Some([0b01110, 0b11111, 0b11011, 0b11111, 0b01110, 0b11111, 0b11011, 0b11011, 0b11111, 0b01110])
    } else if c == '9' {
        Some([0b01110, 0b11111, 0b11011, 0b11011, 0b11111, 0b01111, 0b00011, 0b00011, 0b11111, 0b01110])
    } else if c == '.' {
        Some([0b00000, 0b00000, 0b00000, 0b00000, 0b00000, 0b00000, 0b00000, 0b00000, 0b01100, 0b01100])
    } else if c == 'K' || c == 'k' {
        Some([0b11011, 0b11011, 0b11110, 0b11100, 0b11110, 0b11011, 0b11011, 0b11011, 0b11011, 0b11011])
    } else if c == 'M' || c == 'm' {
        Some([0b11011, 0b11111, 0b11111, 0b10101, 0b10101, 0b10001, 0b10001, 0b10001, 0b10001, 0b10001])
    } else if c == 'G' || c == 'g' {
        Some([0b01110, 0b11111, 0b11000, 0b11000, 0b11011, 0b11011, 0b11011, 0b11011, 0b11111, 0b01110])
    } else if c == '↑' {
        Some([0b00100, 0b01110, 0b11111, 0b11111, 0b01110, 0b01110, 0b01110, 0b01110, 0b01110, 0b01110])
    } else if c == '↓' {
        Some([0b01110, 0b01110, 0b01110, 0b01110, 0b01110, 0b01110, 0b11111, 0b11111, 0b01110, 0b00100])
    } else if c == ' ' {
        Some([0b00000, 0b00000, 0b00000, 0b00000, 0b00000, 0b00000, 0b00000, 0b00000, 0b00000, 0b00000])
    } else {
        None
    };
    proof {
        if let Some(rows) = r {
            assert(rows@ =~= glyph(c)->0);
        }
    }
    r
}

/// Columns a character takes on the canvas when it has a glyph.
pub open spec fn char_width(c: char) -> int {
    if c == '.' {
        3
    } else {
        5
    }
}

/// Horizontal space reserved for `c` when measuring: three columns for `.`,
/// six (glyph and gap) for anything else.
pub open spec fn measured_width(c: char) -> int {
    if c == '.' {
        3
    } else {
        6
    }
}

pub open spec fn text_width(t: Seq<char>) -> int
    decreases t.len(),
{
    if t.len() == 0 {
        0
    } else {
        text_width(t.drop_last()) + measured_width(t.last())
    }
}

proof fn lemma_text_width_bound(t: Seq<char>)
    ensures
        0 <= text_width(t) <= 6 * t.len(),
    decreases t.len(),
{
    if t.len() > 0 {
        lemma_text_width_bound(t.drop_last());
    }
}

/// Width in pixels of `text` as drawn: the measured widths, less the
/// trailing gap (never below zero).
pub fn measure_text_width(text: &str) -> (w: usize)
    requires
        6 * text@.len() <= usize::MAX,
    ensures
        w == if text_width(text@) == 0 { 0 } else { text_width(text@) - 1 },
{
    let cs = chars_of(text);
    let mut w: usize = 0;
    let mut i: usize = 0;
    while i < cs.len()
        invariant
            i <= cs.len(),
            cs@ == text@,
            6 * cs@.len() <= usize::MAX,
            w == text_width(cs@.take(i as int)),
        decreases cs.len() - i,
    {
        proof {
            lemma_text_width_bound(cs@.take(i as int));
            assert(cs@.take(i + 1).drop_last() =~= cs@.take(i as int));
        }
        if cs[i] == '.' {
            w = w + 3;
        } else {
            w = w + 6;
        }
        i = i + 1;
    }
    assert(cs@.take(cs.len() as int) =~= cs@);
    w.saturating_sub(1)
}

/// Byte `i` belongs to canvas pixel `(x, y)` exactly when it lies in that
/// pixel's four bytes.
proof fn lemma_pixel_bytes(i: int, x: int, y: int)
    requires
        0 <= i < 4096,
        0 <= x < 32,
        0 <= y < 32,
    ensures
        (pixel_x(i) == x && pixel_y(i) == y) <==> ((y * 32 + x) * 4 <= i < (y * 32 + x) * 4 + 4),
        (pixel_x(i) == x && pixel_y(i) == y) ==> i % 4 == i - (y * 32 + x) * 4,
        0 <= pixel_x(i) < 32,
        0 <= pixel_y(i) < 32,
{
    assert((pixel_x(i) == x && pixel_y(i) == y) <==> ((y * 32 + x) * 4 <= i < (y * 32 + x) * 4 + 4))
        by (nonlinear_arith)
        requires
            0 <= i < 4096,
            0 <= x < 32,
            0 <= y < 32,
    ;
    assert((pixel_x(i) == x && pixel_y(i) == y) ==> i % 4 == i - (y * 32 + x) * 4) by (nonlinear_arith)
        requires
            0 <= i < 4096,
            0 <= x < 32,
            0 <= y < 32,
    ;
}

/// Whether `(x, y)` is on the canvas.
pub open spec fn on_canvas(x: int, y: int) -> bool {
    0 <= x < 32 && 0 <= y < 32
}

/// Set pixel `(x, y)` to `color`; coordinates off the canvas are ignored.
pub fn set_pixel_safe(buf: &mut Vec<u8>, x: usize, y: usize, color: [u8; 4])
    requires
        old(buf)@.len() >= CANVAS_BYTES,
    ensures
        final(buf)@.len() == old(buf)@.len(),
        forall|i: int|
            0 <= i < old(buf)@.len() ==> #[trigger] final(buf)@[i] == if i < CANVAS_BYTES && on_canvas(
                x as int,
                y as int,
            ) && pixel_x(i) == x && pixel_y(i) == y {
                color@[i % 4]
            } else {
                old(buf)@[i]
            },
{
    if x < ICON_WIDTH && y < ICON_HEIGHT {
        let idx = (y * ICON_WIDTH + x) * 4;
        buf.set(idx, color[0]);
        buf.set(idx + 1, color[1]);
        buf.set(idx + 2, color[2]);
        buf.set(idx + 3, color[3]);
        proof {
            assert forall|i: int| 0 <= i < old(buf)@.len() implies #[trigger] buf@[i] == if i
                < CANVAS_BYTES && on_canvas(x as int, y as int) && pixel_x(i) == x && pixel_y(i)
                == y {
                color@[i % 4]
            } else {
                old(buf)@[i]
            } by {
                if i < CANVAS_BYTES {
                    lemma_pixel_bytes(i, x as int, y as int);
                }
            }
        }
    }
}

proof fn lemma_pixel_range(i: int)
    requires
        0 <= i < 4096,
    ensures
        0 <= pixel_x(i) < 32,
        0 <= pixel_y(i) < 32,
{
}

/// `(x, y)` is one of the eight pixels around `(px, py)`.
pub open spec fn near(x: int, y: int, px: int, py: int) -> bool {
    -1 <= x - px <= 1 && -1 <= y - py <= 1 && !(x == px && y == py)
}

/// Paint the eight pixels around `(px, py)` (those on the canvas) with `color`.
fn outline_around(buf: &mut Vec<u8>, px: usize, py: usize, color: [u8; 4])
    requires
        old(buf)@.len() >= CANVAS_BYTES,
        px < usize::MAX,
        py < usize::MAX,
    ensures
        final(buf)@.len() == old(buf)@.len(),
        forall|i: int|
            0 <= i < old(buf)@.len() ==> #[trigger] final(buf)@[i] == if i < CANVAS_BYTES && near(
                pixel_x(i),
                pixel_y(i),
                px as int,
                py as int,
            ) {
                color@[i % 4]
            } else {
                old(buf)@[i]
            },
{
    let ghost b0 = buf@;
    set_pixel_safe(buf, px.wrapping_sub(1), py, color);
    set_pixel_safe(buf, px + 1, py, color);
    set_pixel_safe(buf, px, py.wrapping_sub(1), color);
    set_pixel_safe(buf, px, py + 1, color);
    set_pixel_safe(buf, px.wrapping_sub(1), py.wrapping_sub(1), color);
    set_pixel_safe(buf, px + 1, py + 1, color);
    set_pixel_safe(buf, px.wrapping_sub(1), py + 1, color);
    set_pixel_safe(buf, px + 1, py.wrapping_sub(1), color);
    proof {
        assert forall|i: int| 0 <= i < b0.len() implies #[trigger] buf@[i] == if i < CANVAS_BYTES
            && near(pixel_x(i), pixel_y(i), px as int, py as int) {
            color@[i % 4]
        } else {
            b0[i]
        } by {
            if i < CANVAS_BYTES {
                lemma_pixel_range(i);
            }
        }
    }
}

/// Whether glyph `rows`, `w` columns wide, has ink at column `col` of row `row`.
pub open spec fn ink(rows: Seq<u8>, w: int, col: int, row: int) -> bool {
    0 <= row < 10 && 0 <= col < w && (rows[row] & (1u8 << ((4 - col) as u8))) != 0
}

/// Glyph `rows` drawn with its top-left corner at `(x0, y0)` covers `(x, y)`.
pub open spec fn lit(rows: Seq<u8>, w: int, x0: int, y0: int, x: int, y: int) -> bool {
    ink(rows, w, x - x0, y - y0)
}

/// `(x, y)` is next to a pixel the glyph covers.
pub open spec fn halo(rows: Seq<u8>, w: int, x0: int, y0: int, x: int, y: int) -> bool {
    ||| lit(rows, w, x0, y0, x - 1, y - 1)
    ||| lit(rows, w, x0, y0, x, y - 1)
    ||| lit(rows, w, x0, y0, x + 1, y - 1)
    ||| lit(rows, w, x0, y0, x - 1, y)
    ||| lit(rows, w, x0, y0, x + 1, y)
    ||| lit(rows, w, x0, y0, x - 1, y + 1)
    ||| lit(rows, w, x0, y0, x, y + 1)
    ||| lit(rows, w, x0, y0, x + 1, y + 1)
}

/// The canvas `old` with the glyph drawn over it: covered pixels in `fg`,
/// the pixels around them in `ol`, everything else untouched.
pub open spec fn paint_glyph(old: Seq<u8>, rows: Seq<u8>, w: int, x0: int, y0: int, fg: Seq<u8>, ol: Seq<u8>) -> Seq<u8> {
    Seq::new(
        old.len(),
        |i: int|
            if i < CANVAS_BYTES && lit(rows, w, x0, y0, pixel_x(i), pixel_y(i)) {
                fg[i % 4]
            } else if i < CANVAS_BYTES && halo(rows, w, x0, y0, pixel_x(i), pixel_y(i)) {
                ol[i % 4]
            } else {
                old[i]
            },
    )
}

/// Covered pixels among those scanned before row `r`, column `c`.
spec fn lit_before(rows: Seq<u8>, w: int, x0: int, y0: int, r: int, c: int, x: int, y: int) -> bool {
    lit(rows, w, x0, y0, x, y) && (y - y0 < r || (y - y0 == r && x - x0 < c))
}

spec fn halo_before(rows: Seq<u8>, w: int, x0: int, y0: int, r: int, c: int, x: int, y: int) -> bool {
    ||| lit_before(rows, w, x0, y0, r, c, x - 1, y - 1)
    ||| lit_before(rows, w, x0, y0, r, c, x, y - 1)
    ||| lit_before(rows, w, x0, y0, r, c, x + 1, y - 1)
    ||| lit_before(rows, w, x0, y0, r, c, x - 1, y)
    ||| lit_before(rows, w, x0, y0, r, c, x + 1, y)
    ||| lit_before(rows, w, x0, y0, r, c, x - 1, y + 1)
    ||| lit_before(rows, w, x0, y0, r, c, x, y + 1)
    ||| lit_before(rows, w, x0, y0, r, c, x + 1, y + 1)
}

/// Draw one glyph: first the outline around every covered pixel, then the
/// covered pixels themselves.
fn draw_glyph(buf: &mut Vec<u8>, rows: &[u8; 10], w: usize, x0: usize, y0: usize, fg: [u8; 4], ol: [u8; 4])
    requires
        old(buf)@.len() >= CANVAS_BYTES,
        w <= 5,
        x0 + 6 < usize::MAX,
        y0 + 11 < usize::MAX,
    ensures
        final(buf)@ == paint_glyph(old(buf)@, rows@, w as int, x0 as int, y0 as int, fg@, ol@),
{
    let ghost b0 = buf@;
    let ghost g = rows@;
    let mut row: usize = 0;
    while row < 10
        invariant
            row <= 10,
            w <= 5,
            x0 + 6 < usize::MAX,
            y0 + 11 < usize::MAX,
            g == rows@,
            buf@.len() == b0.len(),
            b0.len() >= CANVAS_BYTES,
            forall|i: int|
                0 <= i < b0.len() ==> #[trigger] buf@[i] == if i < CANVAS_BYTES && halo_before(
                    g,
                    w as int,
                    x0 as int,
                    y0 as int,
                    row as int,
                    0,
                    pixel_x(i),
                    pixel_y(i),
                ) {
                    ol@[i % 4]
                } else {
                    b0[i]
                },
        decreases 10 - row,
    {
        let bits = rows[row];
        let mut col: usize = 0;
        while col < w
            invariant
                row < 10,
                col <= w,
                w <= 5,
                x0 + 6 < usize::MAX,
                y0 + 11 < usize::MAX,
                g == rows@,
                bits == g[row as int],
                buf@.len() == b0.len(),
                b0.len() >= CANVAS_BYTES,
                forall|i: int|
                    0 <= i < b0.len() ==> #[trigger] buf@[i] == if i < CANVAS_BYTES && halo_before(
                        g,
                        w as int,
                        x0 as int,
                        y0 as int,
                        row as int,
                        col as int,
                        pixel_x(i),
                        pixel_y(i),
                    ) {
                        ol@[i % 4]
                    } else {
                        b0[i]
                    },
            decreases w - col,
        {
            let ghost before = buf@;
            if bits & (1u8 << ((4 - col) as u8)) != 0 {
                outline_around(buf, x0 + col, y0 + row, ol);
            }
            proof {
                assert forall|i: int| 0 <= i < b0.len() implies #[trigger] buf@[i] == if i
                    < CANVAS_BYTES && halo_before(
                    g,
                    w as int,
                    x0 as int,
                    y0 as int,
                    row as int,
                    col + 1,
                    pixel_x(i),
                    pixel_y(i),
                ) {
                    ol@[i % 4]
                } else {
                    b0[i]
                } by {
                    assert(before[i] == buf@[i] || (bits & (1u8 << ((4 - col) as u8))) != 0);
                }
            }
            col = col + 1;
        }
        proof {
            assert forall|i: int| 0 <= i < b0.len() implies #[trigger] buf@[i] == if i < CANVAS_BYTES
                && halo_before(
                g,
                w as int,
                x0 as int,
                y0 as int,
                row + 1,
                0,
                pixel_x(i),
                pixel_y(i),
            ) {
                ol@[i % 4]
            } else {
                b0[i]
            } by {
                assert(halo_before(g, w as int, x0 as int, y0 as int, row as int, w as int, pixel_x(i), pixel_y(i))
                    == halo_before(g, w as int, x0 as int, y0 as int, row + 1, 0, pixel_x(i), pixel_y(i)));
            }
        }
        row = row + 1;
    }
    let ghost b1 = buf@;
    let mut row: usize = 0;
    while row < 10
        invariant
            row <= 10,
            w <= 5,
            x0 + 6 < usize::MAX,
            y0 + 11 < usize::MAX,
            g == rows@,
            buf@.len() == b0.len(),
            b0.len() >= CANVAS_BYTES,
            forall|i: int|
                0 <= i < b0.len() ==> #[trigger] buf@[i] == if i < CANVAS_BYTES && lit_before(
                    g,
                    w as int,
                    x0 as int,
                    y0 as int,
                    row as int,
                    0,
                    pixel_x(i),
                    pixel_y(i),
                ) {
                    fg@[i % 4]
                } else if i < CANVAS_BYTES && halo(g, w as int, x0 as int, y0 as int, pixel_x(i), pixel_y(i)) {
                    ol@[i % 4]
                } else {
                    b0[i]
                },
        decreases 10 - row,
    {
        let bits = rows[row];
        let mut col: usize = 0;
        while col < w
            invariant
                row < 10,
                col <= w,
                w <= 5,
                x0 + 6 < usize::MAX,
                y0 + 11 < usize::MAX,
                g == rows@,
                bits == g[row as int],
                buf@.len() == b0.len(),
                b0.len() >= CANVAS_BYTES,
                forall|i: int|
                    0 <= i < b0.len() ==> #[trigger] buf@[i] == if i < CANVAS_BYTES && lit_before(
                        g,
                        w as int,
                        x0 as int,
                        y0 as int,
                        row as int,
                        col as int,
                        pixel_x(i),
                        pixel_y(i),
                    ) {
                        fg@[i % 4]
                    } else if i < CANVAS_BYTES && halo(g, w as int, x0 as int, y0 as int, pixel_x(i), pixel_y(i)) {
                        ol@[i % 4]
                    } else {
                        b0[i]
                    },
            decreases w - col,
        {
            if bits & (1u8 << ((4 - col) as u8)) != 0 {
                set_pixel_safe(buf, x0 + col, y0 + row, fg);
            }
            proof {
                assert forall|i: int| 0 <= i < b0.len() implies #[trigger] buf@[i] == if i
                    < CANVAS_BYTES && lit_before(
                    g,
                    w as int,
                    x0 as int,
                    y0 as int,
                    row as int,
                    col + 1,
                    pixel_x(i),
                    pixel_y(i),
                ) {
                    fg@[i % 4]
                } else if i < CANVAS_BYTES && halo(g, w as int, x0 as int, y0 as int, pixel_x(i), pixel_y(i)) {
                    ol@[i % 4]
                } else {
                    b0[i]
                } by {
                    if i < CANVAS_BYTES {
                        lemma_pixel_range(i);
                    }
                }
            }
            col = col + 1;
        }
        row = row + 1;
    }
    proof {
        assert(buf@ =~= paint_glyph(b0, g, w as int, x0 as int, y0 as int, fg@, ol@));
    }
}

/// The canvas `buf` with `text` drawn left to right from `(x, y)`: each
/// character with a glyph is drawn and followed by a one-column gap, any
/// other character leaves a four-column space.
pub open spec fn paint_text(buf: Seq<u8>, text: Seq<char>, x: int, y: int, fg: Seq<u8>, ol: Seq<u8>) -> Seq<u8>
    decreases text.len(),
{
    if text.len() == 0 {
        buf
    } else {
        let c = text[0];
        match glyph(c) {
            Some(rows) => paint_text(
                paint_glyph(buf, rows, char_width(c), x, y, fg, ol),
                text.drop_first(),
                x + char_width(c) + 1,
                y,
                fg,
                ol,
            ),
            None => paint_text(buf, text.drop_first(), x + 4, y, fg, ol),
        }
    }
}

/// Draw `text` with its top-left corner at `(start_x, start_y)`.
pub fn draw_line(buf: &mut Vec<u8>, text: &str, start_x: usize, start_y: usize, fg: [u8; 4], outline: [u8; 4])
    requires
        old(buf)@.len() >= CANVAS_BYTES,
        start_x + 6 * text@.len() + 7 < usize::MAX,
        start_y + 11 < usize::MAX,
    ensures
        final(buf)@ == paint_text(old(buf)@, text@, start_x as int, start_y as int, fg@, outline@),
        final(buf)@.len() == old(buf)@.len(),
{
    let cs = chars_of(text);
    let ghost target = paint_text(buf@, cs@, start_x as int, start_y as int, fg@, outline@);
    let mut cur_x = start_x;
    let mut i: usize = 0;
    assert(cs@.skip(0) =~= cs@);
    while i < cs.len()
        invariant
            i <= cs.len(),
            cs@ == text@,
            start_x + 6 * cs@.len() + 7 < usize::MAX,
            start_y + 11 < usize::MAX,
            start_x <= cur_x <= start_x + 6 * i,
            buf@.len() >= CANVAS_BYTES,
            paint_text(buf@, cs@.skip(i as int), cur_x as int, start_y as int, fg@, outline@) == target,
        decreases cs.len() - i,
    {
        let c = cs[i];
        proof {
            assert(cs@.skip(i as int).drop_first() =~= cs@.skip(i + 1));
            assert(cs@.skip(i as int)[0] == c);
        }
        match get_glyph_10(c) {
            Some(rows) => {
                let char_w: usize = if c == '.' { 3 } else { 5 };
                draw_glyph(buf, &rows, char_w, cur_x, start_y, fg, outline);
                cur_x = cur_x + char_w + 1;
            },
            None => {
                cur_x = cur_x + 4;
            },
        }
        i = i + 1;
    }
    proof {
        assert(cs@.skip(cs.len() as int) =~= Seq::<char>::empty());
        lemma_paint_text_len(old(buf)@, text@, start_x as int, start_y as int, fg@, outline@);
    }
}

proof fn lemma_paint_text_len(buf: Seq<u8>, text: Seq<char>, x: int, y: int, fg: Seq<u8>, ol: Seq<u8>)
    ensures
        paint_text(buf, text, x, y, fg, ol).len() == buf.len(),
    decreases text.len(),
{
    if text.len() > 0 {
        let c = text[0];
        match glyph(c) {
            Some(rows) => lemma_paint_text_len(
                paint_glyph(buf, rows, char_width(c), x, y, fg, ol),
                text.drop_first(),
                x + char_width(c) + 1,
                y,
                fg,
                ol,
            ),
            None => lemma_paint_text_len(buf, text.drop_first(), x + 4, y, fg, ol),
        }
    }
}

/// Colour of the upload line (sky blue).
pub open spec fn upload_color() -> Seq<u8> {
    seq![56u8, 189, 248, 255]
}

/// Colour of the download line (bright green).
pub open spec fn download_color() -> Seq<u8> {
    seq![74u8, 222, 128, 255]
}

/// Colour of the outline (black).
pub open spec fn outline_color() -> Seq<u8> {
    seq![0u8, 0, 0, 255]
}

/// Left edge that centres a line `width` pixels wide on the canvas.
pub open spec fn centered_x(width: int) -> int {
    if width >= 32 {
        0
    } else {
        (32 - width) / 2
    }
}

/// Pixels of a drawn line of text (see [`measure_text_width`]).
pub open spec fn line_width(t: Seq<char>) -> int {
    if text_width(t) == 0 {
        0
    } else {
        text_width(t) - 1
    }
}

/// The icon for the two speed labels: `↑` and the upload label centred at
/// row 3 in blue, `↓` and the download label centred at row 18 in green,
/// both outlined in black, on a transparent canvas.
pub open spec fn speed_icon_pixels(up_label: Seq<char>, down_label: Seq<char>) -> Seq<u8> {
    let up = seq!['↑'] + up_label;
    let down = seq!['↓'] + down_label;
    let blank = Seq::new(CANVAS_BYTES as nat, |i: int| 0u8);
    let with_up = paint_text(blank, up, centered_x(line_width(up)), 3, upload_color(), outline_color());
    paint_text(with_up, down, centered_x(line_width(down)), 18, download_color(), outline_color())
}

/// Render the tray icon for two speed labels already formatted by the
/// caller (such as `1.2M`); returns the RGBA pixels, width and height.
pub fn generate_speed_icon(up_label: &str, down_label: &str) -> (r: (Vec<u8>, u32, u32))
    requires
        6 * up_label@.len() + 64 < usize::MAX,
        6 * down_label@.len() + 64 < usize::MAX,
    ensures
        r.0@ == speed_icon_pixels(up_label@, down_label@),
        r.1 == 32,
        r.2 == 32,
{
    let mut buf: Vec<u8> = Vec::new();
    let mut i: usize = 0;
    while i < CANVAS_BYTES
        invariant
            i <= CANVAS_BYTES,
            buf@ == Seq::new(i as nat, |k: int| 0u8),
        decreases CANVAS_BYTES - i,
    {
        buf.push(0u8);
        assert(buf@ =~= Seq::new((i + 1) as nat, |k: int| 0u8));
        i = i + 1;
    }
    let mut up = String::new();
    crate::text::push_char(&mut up, '↑');
    crate::text::append(&mut up, up_label);
    let mut down = String::new();
    crate::text::push_char(&mut down, '↓');
    crate::text::append(&mut down, down_label);
    let ghost up_s = seq!['↑'] + up_label@;
    let ghost down_s = seq!['↓'] + down_label@;
    assert(up@ =~= up_s);
    assert(down@ =~= down_s);
    let up_width = measure_text_width(up.as_str());
    let down_width = measure_text_width(down.as_str());
    let up_x = ICON_WIDTH.saturating_sub(up_width) / 2;
    let down_x = ICON_WIDTH.saturating_sub(down_width) / 2;
    let up_color: [u8; 4] = [56, 189, 248, 255];
    let down_color: [u8; 4] = [74, 222, 128, 255];
    let outline: [u8; 4] = [0, 0, 0, 255];
    assert(up_color@ =~= upload_color());
    assert(down_color@ =~= download_color());
    assert(outline@ =~= outline_color());
    draw_line(&mut buf, up.as_str(), up_x, 3, up_color, outline);
    draw_line(&mut buf, down.as_str(), down_x, 18, down_color, outline);
    (buf, 32, 32)
}

proof fn lemma_paint_text_frame(buf: Seq<u8>, text: Seq<char>, x: int, y: int, fg: Seq<u8>, ol: Seq<u8>)
    ensures
        forall|i: int|
            0 <= i < buf.len() && (i >= CANVAS_BYTES || pixel_y(i) < y - 1 || pixel_y(i) > y + 10)
                ==> #[trigger] paint_text(buf, text, x, y, fg, ol)[i] == buf[i],
    decreases text.len(),
{
    if text.len() > 0 {
        let c = text[0];
        match glyph(c) {
            Some(rows) => {
                let w = char_width(c);
                let b1 = paint_glyph(buf, rows, w, x, y, fg, ol);
                lemma_paint_text_frame(b1, text.drop_first(), x + w + 1, y, fg, ol);
                assert(paint_text(buf, text, x, y, fg, ol) == paint_text(b1, text.drop_first(), x + w + 1, y, fg, ol));
                assert(b1.len() == buf.len());
                assert forall|i: int|
                    0 <= i < buf.len() && (i >= CANVAS_BYTES || pixel_y(i) < y - 1 || pixel_y(i) > y + 10)
                    implies #[trigger] b1[i] == buf[i] by {
                    if i < CANVAS_BYTES {
                        let px = pixel_x(i);
                        let py = pixel_y(i);
                        assert(!lit(rows, w, x, y, px, py));
                        assert(!lit(rows, w, x, y, px - 1, py - 1) && !lit(rows, w, x, y, px, py - 1)
                            && !lit(rows, w, x, y, px + 1, py - 1) && !lit(rows, w, x, y, px - 1, py)
                            && !lit(rows, w, x, y, px + 1, py) && !lit(rows, w, x, y, px - 1, py + 1)
                            && !lit(rows, w, x, y, px, py + 1) && !lit(rows, w, x, y, px + 1, py + 1));
                        assert(!halo(rows, w, x, y, px, py));
                    }
                }
                assert forall|i: int|
                    0 <= i < buf.len() && (i >= CANVAS_BYTES || pixel_y(i) < y - 1 || pixel_y(i) > y + 10)
                    implies #[trigger] paint_text(buf, text, x, y, fg, ol)[i] == buf[i] by {
                    assert(paint_text(b1, text.drop_first(), x + w + 1, y, fg, ol)[i] == b1[i]);
                }
            },
            None => {
                lemma_paint_text_frame(buf, text.drop_first(), x + 4, y, fg, ol);
                assert(paint_text(buf, text, x, y, fg, ol) == paint_text(buf, text.drop_first(), x + 4, y, fg, ol));
            },
        }
    }
}

proof fn lemma_paint_text_pointwise(
    b1: Seq<u8>,
    b2: Seq<u8>,
    text: Seq<char>,
    x: int,
    y: int,
    fg: Seq<u8>,
    ol: Seq<u8>,
    i: int,
)
    requires
        b1.len() == b2.len(),
        0 <= i < b1.len(),
        b1[i] == b2[i],
    ensures
        paint_text(b1, text, x, y, fg, ol)[i] == paint_text(b2, text, x, y, fg, ol)[i],
    decreases text.len(),
{
    if text.len() > 0 {
        let c = text[0];
        match glyph(c) {
            Some(rows) => {
                let g1 = paint_glyph(b1, rows, char_width(c), x, y, fg, ol);
                let g2 = paint_glyph(b2, rows, char_width(c), x, y, fg, ol);
                lemma_paint_text_pointwise(g1, g2, text.drop_first(), x + char_width(c) + 1, y, fg, ol, i);
            },
            None => {
                lemma_paint_text_pointwise(b1, b2, text.drop_first(), x + 4, y, fg, ol, i);
            },
        }
    }
}

/// The two lines of the speed icon never mix: its top half (rows 0 to 15)
/// is `↑` and the upload label drawn on a blank canvas, centred, at row 3 in
/// the upload colour, whatever the download label; its bottom half (rows 16
/// to 31) is `↓` and the download label drawn on a blank canvas, centred, at
/// row 18 in the download colour, whatever the upload label.
pub proof fn speed_icon_lines_are_separate(up: Seq<char>, down: Seq<char>, other: Seq<char>)
    ensures
        speed_icon_pixels(up, down).len() == CANVAS_BYTES,
        forall|i: int| 0 <= i < 2048 ==> #[trigger] speed_icon_pixels(up, down)[i] == speed_icon_pixels(up, other)[i],
        forall|i: int| 2048 <= i < 4096 ==> #[trigger] speed_icon_pixels(up, down)[i] == speed_icon_pixels(other, down)[i],
        forall|i: int| 0 <= i < 2048 ==> #[trigger] speed_icon_pixels(up, down)[i] == paint_text(
            Seq::new(CANVAS_BYTES as nat, |k: int| 0u8),
            seq!['↑'] + up,
            centered_x(line_width(seq!['↑'] + up)),
            3,
            upload_color(),
            outline_color(),
        )[i],
        forall|i: int| 2048 <= i < 4096 ==> #[trigger] speed_icon_pixels(up, down)[i] == paint_text(
            Seq::new(CANVAS_BYTES as nat, |k: int| 0u8),
            seq!['↓'] + down,
            centered_x(line_width(seq!['↓'] + down)),
            18,
            download_color(),
            outline_color(),
        )[i],
{
    assert forall|a: Seq<char>, b: Seq<char>| #![trigger speed_icon_pixels(a, b)]
        speed_icon_pixels(a, b).len() == CANVAS_BYTES && (forall|i: int| 0 <= i < 2048 ==> #[trigger] speed_icon_pixels(a, b)[i] == paint_text(
            Seq::new(CANVAS_BYTES as nat, |k: int| 0u8),
            seq!['↑'] + a,
            centered_x(line_width(seq!['↑'] + a)),
            3,
            upload_color(),
            outline_color(),
        )[i]) && (forall|i: int| 2048 <= i < 4096 ==> #[trigger] speed_icon_pixels(a, b)[i] == paint_text(
            Seq::new(CANVAS_BYTES as nat, |k: int| 0u8),
            seq!['↓'] + b,
            centered_x(line_width(seq!['↓'] + b)),
            18,
            download_color(),
            outline_color(),
        )[i]) by {
        let blank = Seq::new(CANVAS_BYTES as nat, |k: int| 0u8);
        let ua = seq!['↑'] + a;
        let db = seq!['↓'] + b;
        let with_up = paint_text(blank, ua, centered_x(line_width(ua)), 3, upload_color(), outline_color());
        let fin = paint_text(with_up, db, centered_x(line_width(db)), 18, download_color(), outline_color());
        assert(fin == speed_icon_pixels(a, b));
        lemma_paint_text_len(blank, ua, centered_x(line_width(ua)), 3, upload_color(), outline_color());
        lemma_paint_text_len(with_up, db, centered_x(line_width(db)), 18, download_color(), outline_color());
        lemma_paint_text_frame(with_up, db, centered_x(line_width(db)), 18, download_color(), outline_color());
        lemma_paint_text_frame(blank, ua, centered_x(line_width(ua)), 3, upload_color(), outline_color());
        assert forall|i: int| 0 <= i < 2048 implies #[trigger] fin[i] == with_up[i] by {
            assert(pixel_y(i) < 16);
        }
        assert forall|i: int| 2048 <= i < 4096 implies #[trigger] fin[i] == paint_text(
            blank,
            db,
            centered_x(line_width(db)),
            18,
            download_color(),
            outline_color(),
        )[i] by {
            assert(pixel_y(i) >= 16);
            assert(with_up[i] == blank[i]);
            lemma_paint_text_pointwise(with_up, blank, db, centered_x(line_width(db)), 18, download_color(), outline_color(), i);
        }
    }
}

} // verus!
