//! Drawing into a 32-bit framebuffer, seen as a slice of pixels whose
//! rows lie `stride` pixels apart.

use vstd::prelude::*;
use crate::kdisplay::{Color, Psf2Font, glyph_bit, under_cursor, XOR_MASK, CURSOR_W, CURSOR_H, cursor_bitmap_row, cursor_row_bits};
use vstd::string::StrSliceExecFns;

verus! {

/// A framebuffer's visible size and the distance between rows, in pixels.
#[derive(Clone, Copy, Debug)]
pub struct FbGeometry {
    pub width: usize,
    pub height: usize,
    pub stride: usize,
}

/// The visible area lies within a slice of `len` pixels.
pub open spec fn fits(g: FbGeometry, len: nat) -> bool {
    g.width <= g.stride && g.height * g.stride <= len
}

/// Pixel `i` of the slice is on screen.
pub open spec fn on_screen(g: FbGeometry, i: int) -> bool {
    0 <= i < g.height * g.stride && i % (g.stride as int) < g.width
}

/// The column of pixel `i`.
pub open spec fn col_of(g: FbGeometry, i: int) -> int {
    i % (g.stride as int)
}

/// The row of pixel `i`.
pub open spec fn row_of(g: FbGeometry, i: int) -> int {
    i / (g.stride as int)
}

/// The 32-bit ARGB value of a colour.
pub open spec fn argb(c: Color) -> u32 {
    (c.a as u32 * 0x100_0000 + c.r as u32 * 0x1_0000 + c.g as u32 * 0x100 + c.b as u32) as u32
}

/// Row `y`, column `x` is slice index `y * stride + x`, on screen.
pub proof fn lemma_index(g: FbGeometry, x: int, y: int)
    requires
        0 <= x < g.width,
        0 <= y < g.height,
        g.width <= g.stride,
    ensures
        0 <= y * g.stride,
        y * g.stride + g.stride <= g.height * g.stride,
        0 <= y * g.stride + x < g.height * g.stride,
        col_of(g, y * g.stride + x) == x,
        row_of(g, y * g.stride + x) == y,
        on_screen(g, y * g.stride + x),
{
    let s = g.stride as int;
    assert(y * s + s <= g.height * s) by (nonlinear_arith) requires y < g.height, s >= 0;
    assert(y * s >= 0) by (nonlinear_arith) requires y >= 0, s >= 0;
    vstd::arithmetic::div_mod::lemma_fundamental_div_mod_converse(y * s + x, s, y, x);
}

/// Index `i` of row `y`'s stretch lies in row `y`, at column `i - y * stride`.
pub proof fn lemma_in_row(g: FbGeometry, y: int, i: int)
    requires
        g.stride > 0,
        0 <= y,
        y * g.stride <= i < y * g.stride + g.stride,
    ensures
        col_of(g, i) == i - y * g.stride,
        row_of(g, i) == y,
{
    let s = g.stride as int;
    vstd::arithmetic::div_mod::lemma_fundamental_div_mod_converse(i, s, y, i - y * s);
}

/// An on-screen index lies in some row below `height`.
pub proof fn lemma_on_screen_row(g: FbGeometry, i: int)
    requires
        on_screen(g, i),
    ensures
        g.stride > 0,
        0 <= row_of(g, i) < g.height,
        row_of(g, i) * g.stride <= i < row_of(g, i) * g.stride + g.stride,
        i == row_of(g, i) * g.stride + col_of(g, i),
{
    let s = g.stride as int;
    if s == 0 {
        assert(g.height * s == 0) by (nonlinear_arith) requires s == 0;
    }
    vstd::arithmetic::div_mod::lemma_fundamental_div_mod(i, s);
    let q = i / s;
    let r = i % s;
    assert(s * q == q * s) by (nonlinear_arith);
    assert(q >= 0) by (nonlinear_arith) requires i >= 0, s > 0, i == q * s + r, 0 <= r < s;
    if q >= g.height {
        assert(q * s >= g.height * s) by (nonlinear_arith) requires q >= g.height, s > 0;
    }
}

/// Sets pixel (`x`, `y`) when it is on screen.
pub fn draw_pixel(fb: &mut [u32], g: FbGeometry, x: usize, y: usize, color: Color)
    requires
        fits(g, old(fb)@.len()),
    ensures
        x < g.width && y < g.height ==> final(fb)@ == old(fb)@.update(y * g.stride + x, argb(color)),
        !(x < g.width && y < g.height) ==> final(fb)@ == old(fb)@,
{
    let n = fb.len();
    if x >= g.width || y >= g.height {
        return;
    }
    proof { lemma_index(g, x as int, y as int); }
    fb[y * g.stride + x] = color.pack();
}

/// Paints every on-screen pixel with `color`.
pub fn fill_screen(fb: &mut [u32], g: FbGeometry, color: Color)
    requires
        fits(g, old(fb)@.len()),
    ensures
        final(fb)@.len() == old(fb)@.len(),
        forall|i: int| 0 <= i < old(fb)@.len() ==>
            #[trigger] final(fb)@[i] == (if on_screen(g, i) { argb(color) } else { old(fb)@[i] }),
{
    let n = fb.len();
    let p = color.pack();
    let mut y: usize = 0;
    proof {
        assert forall|i: int| 0 <= i < old(fb)@.len() implies
            #[trigger] fb@[i] == (if on_screen(g, i) && row_of(g, i) < 0 { p } else { old(fb)@[i] }) by {
            if on_screen(g, i) { lemma_on_screen_row(g, i); }
        }
    }
    while y < g.height
        invariant
            0 <= y <= g.height,
            fits(g, old(fb)@.len()),
            n == fb@.len(),
            fb@.len() == old(fb)@.len(),
            p == argb(color),
            forall|i: int| 0 <= i < old(fb)@.len() ==>
                #[trigger] fb@[i] == (if on_screen(g, i) && row_of(g, i) < y { p } else { old(fb)@[i] }),
        decreases g.height - y,
    {
        let mut x: usize = 0;
        proof {
            assert forall|i: int| 0 <= i < old(fb)@.len() implies
                #[trigger] fb@[i] == (if on_screen(g, i) && (row_of(g, i) < y || (row_of(g, i) == y && col_of(g, i) < 0)) { p } else { old(fb)@[i] }) by {
                if on_screen(g, i) { lemma_on_screen_row(g, i); }
            }
        }
        while x < g.width
            invariant
                0 <= x <= g.width,
                0 <= y < g.height,
                fits(g, old(fb)@.len()),
                n == fb@.len(),
                fb@.len() == old(fb)@.len(),
                p == argb(color),
                forall|i: int| 0 <= i < old(fb)@.len() ==>
                    #[trigger] fb@[i] == (if on_screen(g, i) && (row_of(g, i) < y || (row_of(g, i) == y && col_of(g, i) < x)) { p } else { old(fb)@[i] }),
            decreases g.width - x,
        {
            proof { lemma_index(g, x as int, y as int); }
            let idx = y * g.stride + x;
            fb[idx] = p;
            proof {
                assert forall|i: int| 0 <= i < old(fb)@.len() implies
                    #[trigger] fb@[i] == (if on_screen(g, i) && (row_of(g, i) < y || (row_of(g, i) == y && col_of(g, i) < x + 1)) { p } else { old(fb)@[i] }) by {
                    if on_screen(g, i) {
                        lemma_on_screen_row(g, i);
                        if row_of(g, i) == y && col_of(g, i) == x {
                            assert(i == idx);
                        }
                    }
                }
            }
            x = x + 1;
        }
        proof {
            assert forall|i: int| 0 <= i < old(fb)@.len() implies
                #[trigger] fb@[i] == (if on_screen(g, i) && row_of(g, i) < y + 1 { p } else { old(fb)@[i] }) by {
                if on_screen(g, i) { lemma_on_screen_row(g, i); }
            }
        }
        y = y + 1;
    }
    proof {
        assert forall|i: int| 0 <= i < old(fb)@.len() implies
            #[trigger] fb@[i] == (if on_screen(g, i) { argb(color) } else { old(fb)@[i] }) by {
            if on_screen(g, i) { lemma_on_screen_row(g, i); }
        }
    }
}


/// Pixel `i` lies in the on-screen part of a `gw` x `gh` cell at (`x`, `y`).
pub open spec fn in_cell(g: FbGeometry, x: int, y: int, gw: int, gh: int, i: int) -> bool {
    &&& on_screen(g, i)
    &&& x <= col_of(g, i) < x + gw
    &&& y <= row_of(g, i) < y + gh
}

/// The pixels after painting a glyph into the cell at (`x`, `y`): lit
/// pixels get `fg`, unlit ones `bg` when given and stay otherwise.
pub open spec fn painted(old: Seq<u32>, g: FbGeometry, glyph: Seq<u8>, gw: int, gh: int, x: int, y: int, fg: u32, bg: Option<u32>) -> Seq<u32> {
    Seq::new(old.len(), |i: int|
        if in_cell(g, x, y, gw, gh, i) {
            if glyph_bit(glyph, gw, row_of(g, i) - y, col_of(g, i) - x) {
                fg
            } else {
                match bg { Some(b) => b, None => old[i] }
            }
        } else {
            old[i]
        })
}

/// Whether pixel (`col`, `row`) of a glyph `gw` pixels wide is lit.
fn glyph_lit(glyph: &[u8], gw: u32, row: u32, col: u32) -> (r: bool)
    requires
        col < gw,
    ensures
        r == glyph_bit(glyph@, gw as int, row as int, col as int),
{
    let bpr: u64 = (gw as u64 + 7) / 8;
    proof {
        assert(row as int * bpr <= 0xFFFF_FFFF * 0x2000_0000) by (nonlinear_arith)
            requires row <= 0xFFFF_FFFFu32, bpr <= 0x2000_0000;
    }
    let byte_index: u64 = row as u64 * bpr + (col / 8) as u64;
    let n = glyph.len();
    if byte_index < n as u64 {
        let shift = (7 - col % 8) as u8;
        (glyph[byte_index as usize] >> shift) & 1 == 1
    } else {
        false
    }
}

/// Paints a glyph bitmap `gw` x `gh` pixels at (`x`, `y`), clipped to the
/// screen: lit pixels `fg`, unlit ones `bg` when given.
pub fn paint_glyph(fb: &mut [u32], g: FbGeometry, glyph: &[u8], gw: u32, gh: u32, x: usize, y: usize, fg: u32, bg: Option<u32>)
    requires
        fits(g, old(fb)@.len()),
    ensures
        final(fb)@ == painted(old(fb)@, g, glyph@, gw as int, gh as int, x as int, y as int, fg, bg),
{
    let n = fb.len();
    let ghost target = painted(old(fb)@, g, glyph@, gw as int, gh as int, x as int, y as int, fg, bg);
    if x >= g.width || y >= g.height {
        proof {
            assert forall|i: int| 0 <= i < old(fb)@.len() implies !in_cell(g, x as int, y as int, gw as int, gh as int, i) by {
                if on_screen(g, i) { lemma_on_screen_row(g, i); }
            }
            assert(fb@ =~= target);
        }
        return;
    }
    let mut row: u32 = 0;
    proof {
        assert forall|i: int| 0 <= i < old(fb)@.len() implies
            #[trigger] fb@[i] == (if in_cell(g, x as int, y as int, gw as int, gh as int, i) && row_of(g, i) < y + 0 { target[i] } else { old(fb)@[i] }) by {
            if on_screen(g, i) { lemma_on_screen_row(g, i); }
        }
    }
    while row < gh
        invariant_except_break
            0 <= row <= gh,
            x < g.width,
            y < g.height,
            fits(g, old(fb)@.len()),
            n == fb@.len(),
            fb@.len() == old(fb)@.len(),
            target == painted(old(fb)@, g, glyph@, gw as int, gh as int, x as int, y as int, fg, bg),
            forall|i: int| 0 <= i < old(fb)@.len() ==>
                #[trigger] fb@[i] == (if in_cell(g, x as int, y as int, gw as int, gh as int, i) && row_of(g, i) < y + row { target[i] } else { old(fb)@[i] }),
        ensures
            forall|i: int| 0 <= i < old(fb)@.len() ==> #[trigger] fb@[i] == target[i],
            fb@.len() == old(fb)@.len(),
        decreases gh - row,
    {
        if row as usize >= g.height - y {
            proof {
                assert forall|i: int| 0 <= i < old(fb)@.len() implies #[trigger] fb@[i] == target[i] by {
                    if on_screen(g, i) { lemma_on_screen_row(g, i); }
                }
            }
            break;
        }
        let py = y + row as usize;
        let mut col: u32 = 0;
        while col < gw
            invariant_except_break
                0 <= col <= gw,
                row < gh,
                py == y + row,
                py < g.height,
                x < g.width,
                fits(g, old(fb)@.len()),
                n == fb@.len(),
                fb@.len() == old(fb)@.len(),
                target == painted(old(fb)@, g, glyph@, gw as int, gh as int, x as int, y as int, fg, bg),
                forall|i: int| 0 <= i < old(fb)@.len() ==>
                    #[trigger] fb@[i] == (if in_cell(g, x as int, y as int, gw as int, gh as int, i)
                        && (row_of(g, i) < py || (row_of(g, i) == py && col_of(g, i) < x + col)) { target[i] } else { old(fb)@[i] }),
            ensures
                forall|i: int| 0 <= i < old(fb)@.len() ==>
                    #[trigger] fb@[i] == (if in_cell(g, x as int, y as int, gw as int, gh as int, i) && row_of(g, i) < py + 1 { target[i] } else { old(fb)@[i] }),
                fb@.len() == old(fb)@.len(),
            decreases gw - col,
        {
            if col as usize >= g.width - x {
                proof {
                    assert forall|i: int| 0 <= i < old(fb)@.len() implies
                        #[trigger] fb@[i] == (if in_cell(g, x as int, y as int, gw as int, gh as int, i) && row_of(g, i) < py + 1 { target[i] } else { old(fb)@[i] }) by {
                        if on_screen(g, i) { lemma_on_screen_row(g, i); }
                    }
                }
                break;
            }
            let px = x + col as usize;
            proof { lemma_index(g, px as int, py as int); }
            let idx = py * g.stride + px;
            let lit = glyph_lit(glyph, gw, row, col);
            let ghost before = fb@;
            if lit {
                fb[idx] = fg;
            } else {
                match bg {
                    Some(b) => { fb[idx] = b; },
                    None => {},
                }
            }
            proof {
                assert(in_cell(g, x as int, y as int, gw as int, gh as int, idx as int));
                assert(fb@[idx as int] == target[idx as int]);
                assert forall|i: int| 0 <= i < old(fb)@.len() implies
                    #[trigger] fb@[i] == (if in_cell(g, x as int, y as int, gw as int, gh as int, i)
                        && (row_of(g, i) < py || (row_of(g, i) == py && col_of(g, i) < x + col + 1)) { target[i] } else { old(fb)@[i] }) by {
                    if i != idx as int {
                        assert(fb@[i] == before[i]);
                        if on_screen(g, i) {
                            lemma_on_screen_row(g, i);
                            if row_of(g, i) == py && col_of(g, i) == x + col {
                                assert(i == idx);
                            }
                        }
                    }
                }
            }
            col = col + 1;
        }
        proof {
            if col == gw {
                assert forall|i: int| 0 <= i < old(fb)@.len() implies
                    #[trigger] fb@[i] == (if in_cell(g, x as int, y as int, gw as int, gh as int, i) && row_of(g, i) < py + 1 { target[i] } else { old(fb)@[i] }) by {
                    if on_screen(g, i) { lemma_on_screen_row(g, i); }
                }
            }
        }
        row = row + 1;
    }
    proof {
        if row == gh {
            assert forall|i: int| 0 <= i < old(fb)@.len() implies #[trigger] fb@[i] == target[i] by {
                if on_screen(g, i) { lemma_on_screen_row(g, i); }
            }
        }
        assert(fb@ =~= target);
    }
}

/// The pixels after drawing character `ch` of `font` at (`x`, `y`) in
/// colour `p`: lit glyph pixels on screen take `p`; nothing changes for
/// a character the font lacks or a cell starting off screen.
pub open spec fn char_drawn(old: Seq<u32>, g: FbGeometry, font: Psf2Font, x: int, y: int, ch: char, p: u32) -> Seq<u32> {
    if (ch as u32) < font.spec_length() && x < g.width && y < g.height {
        painted(old, g, font.spec_glyphs().subrange((ch as u32) * font.spec_charsize(), (ch as u32) * font.spec_charsize() + font.spec_charsize()),
            font.spec_width() as int, font.spec_height() as int, x, y, p, None)
    } else {
        old
    }
}

/// Draws character `ch` of `font` at pixel (`x`, `y`) in `color`; pixels
/// not lit by the glyph keep their colour.
pub fn draw_char(fb: &mut [u32], g: FbGeometry, font: &Psf2Font, x: usize, y: usize, ch: char, color: Color)
    requires
        fits(g, old(fb)@.len()),
        font.wf(),
    ensures
        final(fb)@ == char_drawn(old(fb)@, g, *font, x as int, y as int, ch, argb(color)),
{
    let glyph = match font.get_glyph(ch) {
        Some(gl) => gl,
        None => return,
    };
    if x >= g.width || y >= g.height {
        return;
    }
    paint_glyph(fb, g, glyph, font.width(), font.height(), x, y, color.pack(), None);
}

/// Where `draw_string` puts each character: wrapping to the left edge on
/// the next line when a glyph would pass the right edge, and stopping at
/// the first glyph that would pass the bottom edge.
pub open spec fn string_layout(s: Seq<char>, w: int, h: int, cw: int, ch: int, x: int, y: int) -> Seq<(char, int, int)>
    decreases s.len(),
{
    if s.len() == 0 {
        Seq::empty()
    } else {
        let nx = if x + cw > w { 0 } else { x };
        let ny = if x + cw > w { y + ch } else { y };
        if ny + ch > h {
            Seq::empty()
        } else {
            seq![(s[0], nx, ny)] + string_layout(s.drop_first(), w, h, cw, ch, nx + cw, ny)
        }
    }
}

/// The pixels after drawing each placed character in turn.
pub open spec fn chars_drawn(old: Seq<u32>, g: FbGeometry, font: Psf2Font, places: Seq<(char, int, int)>, p: u32) -> Seq<u32>
    decreases places.len(),
{
    if places.len() == 0 {
        old
    } else {
        chars_drawn(char_drawn(old, g, font, places[0].1, places[0].2, places[0].0, p), g, font, places.drop_first(), p)
    }
}

proof fn lemma_chars_drawn_push(old: Seq<u32>, g: FbGeometry, font: Psf2Font, places: Seq<(char, int, int)>, last: (char, int, int), p: u32)
    ensures
        chars_drawn(old, g, font, places.push(last), p)
            == char_drawn(chars_drawn(old, g, font, places, p), g, font, last.1, last.2, last.0, p),
    decreases places.len(),
{
    reveal_with_fuel(chars_drawn, 2);
    if places.len() == 0 {
        assert(places.push(last).drop_first() =~= Seq::<(char, int, int)>::empty());
        assert(places.push(last)[0] == last);
    } else {
        assert(places.push(last).drop_first() =~= places.drop_first().push(last));
        assert(places.push(last)[0] == places[0]);
        lemma_chars_drawn_push(char_drawn(old, g, font, places[0].1, places[0].2, places[0].0, p), g, font, places.drop_first(), last, p);
    }
}

proof fn lemma_chars_drawn_len(old: Seq<u32>, g: FbGeometry, font: Psf2Font, places: Seq<(char, int, int)>, p: u32)
    ensures
        chars_drawn(old, g, font, places, p).len() == old.len(),
    decreases places.len(),
{
    if places.len() > 0 {
        lemma_chars_drawn_len(char_drawn(old, g, font, places[0].1, places[0].2, places[0].0, p), g, font, places.drop_first(), p);
    }
}

/// Draws `s` from pixel (`x`, `y`) in `color`, wrapping at the right
/// edge and stopping at the bottom edge (see `string_layout`).
pub fn draw_string(fb: &mut [u32], g: FbGeometry, font: &Psf2Font, x: usize, y: usize, s: &str, color: Color)
    requires
        fits(g, old(fb)@.len()),
        font.wf(),
        x + g.width + 2 * font.spec_width() <= usize::MAX,
        y + g.height + 2 * font.spec_height() <= usize::MAX,
    ensures
        final(fb)@ == chars_drawn(old(fb)@, g, *font,
            string_layout(s@, g.width as int, g.height as int, font.spec_width() as int, font.spec_height() as int, x as int, y as int),
            argb(color)),
{
    let n = s.unicode_len();
    let cw = font.width() as usize;
    let chh = font.height() as usize;
    let ghost full = string_layout(s@, g.width as int, g.height as int, cw as int, chh as int, x as int, y as int);
    let ghost p = argb(color);
    let mut cx = x;
    let mut cy = y;
    let mut i: usize = 0;
    let ghost mut placed: Seq<(char, int, int)> = Seq::empty();
    proof {
        assert(s@.subrange(0, n as int) =~= s@);
        if n == 0 {
            assert(full =~= placed);
        }
    }
    while i < n
        invariant_except_break
            0 <= i <= n,
            n == s@.len(),
            fits(g, old(fb)@.len()),
            font.wf(),
            cw == font.spec_width(),
            chh == font.spec_height(),
            p == argb(color),
            cx <= x || cx <= g.width || cx == cw,
            x + g.width + 2 * cw <= usize::MAX,
            fb@.len() == old(fb)@.len(),
            i == n ==> full == placed,
            cy <= y || cy + chh <= g.height,
            y + g.height + 2 * chh <= usize::MAX,
            full == placed + string_layout(s@.subrange(i as int, n as int), g.width as int, g.height as int, cw as int, chh as int, cx as int, cy as int),
            fb@ == chars_drawn(old(fb)@, g, *font, placed, p),
        ensures
            fb@ == chars_drawn(old(fb)@, g, *font, full, p),
        decreases n - i,
    {
        let c = s.get_char(i);
        let ghost rest = s@.subrange(i as int, n as int);
        let ghost ocx = cx as int;
        let ghost ocy = cy as int;
        proof {
            assert(rest[0] == c);
            assert(rest.drop_first() =~= s@.subrange(i + 1, n as int));
        }
        if cx + cw > g.width {
            cx = 0;
            cy = cy + chh;
        }
        if cy + chh > g.height {
            proof { assert(full =~= placed); }
            break;
        }
        draw_char(fb, g, font, cx, cy, c, color);
        proof {
            lemma_chars_drawn_push(old(fb)@, g, *font, placed, (c, cx as int, cy as int), p);
            assert(string_layout(rest, g.width as int, g.height as int, cw as int, chh as int, ocx, ocy)
                == seq![(c, cx as int, cy as int)] + string_layout(rest.drop_first(), g.width as int, g.height as int, cw as int, chh as int, cx + cw, cy as int));
            assert(placed.push((c, cx as int, cy as int)) + string_layout(rest.drop_first(), g.width as int, g.height as int, cw as int, chh as int, cx + cw, cy as int)
                =~= placed + (seq![(c, cx as int, cy as int)] + string_layout(rest.drop_first(), g.width as int, g.height as int, cw as int, chh as int, cx + cw, cy as int)));
            placed = placed.push((c, cx as int, cy as int));
            if i + 1 == n {
                assert(s@.subrange(n as int, n as int) =~= Seq::<char>::empty());
                assert(full =~= placed);
            }
        }
        cx = cx + cw;
        i = i + 1;
    }
}

/// The pixels after XOR-ing those under the arrow sprite at (`x`, `y`)
/// with `XOR_MASK`.
pub open spec fn cursor_xored(old: Seq<u32>, g: FbGeometry, x: int, y: int) -> Seq<u32> {
    Seq::new(old.len(), |i: int|
        if on_screen(g, i) && under_cursor(g.width as int, g.height as int, x, y, col_of(g, i), row_of(g, i)) {
            old[i] ^ XOR_MASK
        } else {
            old[i]
        })
}

/// XOR-ing the sprite twice at one place restores the screen: drawing
/// the cursor again erases it.
pub proof fn lemma_xor_cursor_twice(pixels: Seq<u32>, g: FbGeometry, x: int, y: int)
    ensures
        cursor_xored(cursor_xored(pixels, g, x, y), g, x, y) == pixels,
{
    assert forall|v: u32| #[trigger] ((v ^ XOR_MASK) ^ XOR_MASK) == v by {
        assert((v ^ 0x00FF_FFFFu32) ^ 0x00FF_FFFFu32 == v) by (bit_vector);
    }
    assert(cursor_xored(cursor_xored(pixels, g, x, y), g, x, y) =~= pixels);
}

/// XORs the pixels under the arrow sprite at (`x`, `y`) with `XOR_MASK`.
pub fn xor_cursor(fb: &mut [u32], g: FbGeometry, x: i32, y: i32)
    requires
        fits(g, old(fb)@.len()),
        g.width <= i32::MAX,
        g.height <= i32::MAX,
    ensures
        final(fb)@ == cursor_xored(old(fb)@, g, x as int, y as int),
{
    let n = fb.len();
    let w = g.width as i64;
    let h = g.height as i64;
    let mut row: usize = 0;
    proof {
        assert forall|i: int| 0 <= i < old(fb)@.len() implies #[trigger] fb@[i] == (
            if on_screen(g, i) && under_cursor(g.width as int, g.height as int, x as int, y as int, col_of(g, i), row_of(g, i))
                && row_of(g, i) - y < 0 { old(fb)@[i] ^ XOR_MASK } else { old(fb)@[i] }) by {
            if on_screen(g, i) { lemma_on_screen_row(g, i); }
        }
    }
    while row < CURSOR_H
        invariant
            0 <= row <= CURSOR_H,
            fits(g, old(fb)@.len()),
            w == g.width, h == g.height,
            n == fb@.len(),
            fb@.len() == old(fb)@.len(),
            forall|i: int| 0 <= i < old(fb)@.len() ==> #[trigger] fb@[i] == (
                if on_screen(g, i) && under_cursor(g.width as int, g.height as int, x as int, y as int, col_of(g, i), row_of(g, i))
                    && row_of(g, i) - y < row { old(fb)@[i] ^ XOR_MASK } else { old(fb)@[i] }),
        decreases CURSOR_H - row,
    {
        let py = y as i64 + row as i64;
        let bits = cursor_bitmap_row(row);
        let mut col: usize = 0;
        while col < CURSOR_W
            invariant
                0 <= row < CURSOR_H,
                0 <= col <= CURSOR_W,
                fits(g, old(fb)@.len()),
                w == g.width, h == g.height,
                py == y + row,
                bits == cursor_row_bits(row as int),
                n == fb@.len(),
                fb@.len() == old(fb)@.len(),
                forall|i: int| 0 <= i < old(fb)@.len() ==> #[trigger] fb@[i] == (
                    if on_screen(g, i) && under_cursor(g.width as int, g.height as int, x as int, y as int, col_of(g, i), row_of(g, i))
                        && (row_of(g, i) - y < row || (row_of(g, i) - y == row && col_of(g, i) - x < col)) { old(fb)@[i] ^ XOR_MASK } else { old(fb)@[i] }),
            decreases CURSOR_W - col,
        {
            let px = x as i64 + col as i64;
            let shift = (15 - col) as u16;
            if 0 <= py && py < h && 0 <= px && px < w && (bits >> shift) & 1 == 1 {
                proof { lemma_index(g, px as int, py as int); }
                let idx = py as usize * g.stride + px as usize;
                let ghost before = fb@;
                let v = fb[idx];
                fb[idx] = v ^ XOR_MASK;
                proof {
                    assert forall|i: int| 0 <= i < old(fb)@.len() implies #[trigger] fb@[i] == (
                        if on_screen(g, i) && under_cursor(g.width as int, g.height as int, x as int, y as int, col_of(g, i), row_of(g, i))
                            && (row_of(g, i) - y < row || (row_of(g, i) - y == row && col_of(g, i) - x < col + 1)) { old(fb)@[i] ^ XOR_MASK } else { old(fb)@[i] }) by {
                        if i != idx as int {
                            assert(fb@[i] == before[i]);
                            if on_screen(g, i) {
                                lemma_on_screen_row(g, i);
                                if row_of(g, i) - y == row && col_of(g, i) - x == col {
                                    assert(i == idx);
                                }
                            }
                        }
                    }
                }
            } else {
                proof {
                    assert forall|i: int| 0 <= i < old(fb)@.len() implies #[trigger] fb@[i] == (
                        if on_screen(g, i) && under_cursor(g.width as int, g.height as int, x as int, y as int, col_of(g, i), row_of(g, i))
                            && (row_of(g, i) - y < row || (row_of(g, i) - y == row && col_of(g, i) - x < col + 1)) { old(fb)@[i] ^ XOR_MASK } else { old(fb)@[i] }) by {
                        if on_screen(g, i) {
                            lemma_on_screen_row(g, i);
                        }
                    }
                }
            }
            col = col + 1;
        }
        proof {
            assert forall|i: int| 0 <= i < old(fb)@.len() implies #[trigger] fb@[i] == (
                if on_screen(g, i) && under_cursor(g.width as int, g.height as int, x as int, y as int, col_of(g, i), row_of(g, i))
                    && row_of(g, i) - y < row + 1 { old(fb)@[i] ^ XOR_MASK } else { old(fb)@[i] }) by {
                if on_screen(g, i) { lemma_on_screen_row(g, i); }
            }
        }
        row = row + 1;
    }
}

/// The pixels after scrolling up by `lines` pixel rows: every row
/// (with its padding) takes the one `lines` below it, and the visible
/// part of the bottom `lines` rows is painted `bg`.
pub open spec fn scrolled_up(old: Seq<u32>, g: FbGeometry, lines: int, bg: u32) -> Seq<u32> {
    Seq::new(old.len(), |i: int|
        if i < (g.height - lines) * g.stride {
            old[i + lines * g.stride]
        } else if on_screen(g, i) {
            bg
        } else {
            old[i]
        })
}

/// Moves the picture up by `lines` pixel rows and paints the freed rows
/// at the bottom with `bg`.
pub fn scroll_pixels(fb: &mut [u32], g: FbGeometry, lines: usize, bg: u32)
    requires
        fits(g, old(fb)@.len()),
        lines <= g.height,
    ensures
        final(fb)@ == scrolled_up(old(fb)@, g, lines as int, bg),
{
    let n = fb.len();
    let ghost target = scrolled_up(old(fb)@, g, lines as int, bg);
    proof {
        assert((g.height - lines) * g.stride + lines * g.stride == g.height * g.stride) by (nonlinear_arith);
        assert((g.height - lines) * g.stride >= 0) by (nonlinear_arith) requires lines <= g.height;
        assert(lines * g.stride >= 0) by (nonlinear_arith);
    }
    let shift = lines * g.stride;
    let keep = (g.height - lines) * g.stride;
    let mut i: usize = 0;
    while i < keep
        invariant
            0 <= i <= keep,
            keep + shift == g.height * g.stride,
            keep == (g.height - lines) * g.stride,
            shift == lines * g.stride,
            fits(g, old(fb)@.len()),
            n == fb@.len(),
            fb@.len() == old(fb)@.len(),
            forall|k: int| 0 <= k < i ==> #[trigger] fb@[k] == old(fb)@[k + shift],
            forall|k: int| i <= k < old(fb)@.len() ==> #[trigger] fb@[k] == old(fb)@[k],
        decreases keep - i,
    {
        let v = fb[i + shift];
        fb[i] = v;
        i = i + 1;
    }
    let start = g.height - lines;
    let mut y: usize = start;
    proof {
        assert forall|k: int| keep <= k < old(fb)@.len() implies #[trigger] fb@[k] == (if on_screen(g, k) && row_of(g, k) < y { bg } else { old(fb)@[k] }) by {
            if on_screen(g, k) {
                lemma_on_screen_row(g, k);
                if row_of(g, k) < start {
                    assert(row_of(g, k) * g.stride + g.stride <= start * g.stride) by (nonlinear_arith)
                        requires row_of(g, k) < start;
                }
            }
        }
    }
    while y < g.height
        invariant
            start <= y <= g.height,
            start == g.height - lines,
            keep == (g.height - lines) * g.stride,
            shift == lines * g.stride,
            fits(g, old(fb)@.len()),
            n == fb@.len(),
            fb@.len() == old(fb)@.len(),
            forall|k: int| 0 <= k < keep ==> #[trigger] fb@[k] == old(fb)@[k + shift],
            forall|k: int| keep <= k < old(fb)@.len() ==> #[trigger] fb@[k] == (if on_screen(g, k) && row_of(g, k) < y { bg } else { old(fb)@[k] }),
        decreases g.height - y,
    {
        let mut x: usize = 0;
        while x < g.width
            invariant
                0 <= x <= g.width,
                start <= y < g.height,
                start == g.height - lines,
                keep == (g.height - lines) * g.stride,
                shift == lines * g.stride,
                fits(g, old(fb)@.len()),
                n == fb@.len(),
                fb@.len() == old(fb)@.len(),
                forall|k: int| 0 <= k < keep ==> #[trigger] fb@[k] == old(fb)@[k + shift],
                forall|k: int| keep <= k < old(fb)@.len() ==> #[trigger] fb@[k] == (
                    if on_screen(g, k) && (row_of(g, k) < y || (row_of(g, k) == y && col_of(g, k) < x)) { bg } else { old(fb)@[k] }),
            decreases g.width - x,
        {
            proof {
                lemma_index(g, x as int, y as int);
                assert(start * g.stride <= y * g.stride) by (nonlinear_arith) requires start <= y;
            }
            let idx = y * g.stride + x;
            let ghost before = fb@;
            fb[idx] = bg;
            proof {
                assert forall|k: int| keep <= k < old(fb)@.len() implies #[trigger] fb@[k] == (
                    if on_screen(g, k) && (row_of(g, k) < y || (row_of(g, k) == y && col_of(g, k) < x + 1)) { bg } else { old(fb)@[k] }) by {
                    if k != idx as int {
                        assert(fb@[k] == before[k]);
                        if on_screen(g, k) {
                            lemma_on_screen_row(g, k);
                            if row_of(g, k) == y && col_of(g, k) == x {
                                assert(k == idx);
                            }
                        }
                    }
                }
            }
            x = x + 1;
        }
        proof {
            assert forall|k: int| keep <= k < old(fb)@.len() implies #[trigger] fb@[k] == (
                if on_screen(g, k) && row_of(g, k) < y + 1 { bg } else { old(fb)@[k] }) by {
                if on_screen(g, k) { lemma_on_screen_row(g, k); }
            }
        }
        y = y + 1;
    }
    proof {
        assert forall|k: int| 0 <= k < old(fb)@.len() implies #[trigger] fb@[k] == target[k] by {
            if k >= keep {
                if on_screen(g, k) {
                    lemma_on_screen_row(g, k);
                    if row_of(g, k) < start {
                        assert(row_of(g, k) * g.stride + g.stride <= start * g.stride) by (nonlinear_arith)
                            requires row_of(g, k) < start;
                    }
                }
            }
        }
        assert(fb@ =~= target);
    }
}

} // verus!
