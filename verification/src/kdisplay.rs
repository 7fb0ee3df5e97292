//! Framebuffer text console: PSF2 font parsing, the console's cursor
//! state machine and the mouse-cursor overlay.
//!
//! The console decides what to draw and where; `framebuffer` draws it
//! into the pixels.

pub mod framebuffer;

use vstd::prelude::*;
use crate::kdisplay::framebuffer::{FbGeometry, fits, on_screen, argb, painted, paint_glyph, scrolled_up, scroll_pixels, fill_screen};

verus! {

/// The PSF2 magic bytes.
pub open spec fn psf2_magic_ok(d: Seq<u8>) -> bool {
    d[0] == 0x72 && d[1] == 0xb5 && d[2] == 0x4a && d[3] == 0x86
}

/// The little-endian 32-bit word at byte `off`.
pub open spec fn le_u32(d: Seq<u8>, off: int) -> int {
    d[off] as int + d[off + 1] as int * 0x100 + d[off + 2] as int * 0x1_0000 + d[off + 3] as int * 0x100_0000
}

/// Reads the little-endian 32-bit word at `off`.
pub fn read_le_u32(d: &[u8], off: usize) -> (r: u32)
    requires
        off + 4 <= d@.len(),
    ensures
        r == le_u32(d@, off as int),
{
    let b0 = d[off] as u32;
    let b1 = d[off + 1] as u32;
    let b2 = d[off + 2] as u32;
    let b3 = d[off + 3] as u32;
    b0 + b1 * 0x100 + b2 * 0x1_0000 + b3 * 0x100_0000
}

/// Why a font image was refused.
#[derive(Clone, Copy, PartialEq, Eq, Structural, Debug)]
pub enum FontError {
    /// Shorter than the 32-byte header.
    TooSmall,
    /// Wrong magic bytes.
    BadMagic,
    /// The glyph table runs past the end of the image.
    Truncated,
}

/// The message reported for each font error.
pub open spec fn font_error_text(e: FontError) -> Seq<char> {
    match e {
        FontError::TooSmall => "PSF2: data too small"@,
        FontError::BadMagic => "PSF2: invalid magic"@,
        FontError::Truncated => "PSF2: truncated glyph data"@,
    }
}

impl FontError {
    /// The message the kernel reports.
    pub fn message(&self) -> (r: &'static str)
        ensures
            r@ == font_error_text(*self),
    {
        match self {
            FontError::TooSmall => "PSF2: data too small",
            FontError::BadMagic => "PSF2: invalid magic",
            FontError::Truncated => "PSF2: truncated glyph data",
        }
    }
}

/// What parsing a PSF2 image gives: the error, or the glyph table's start
/// and size.
pub open spec fn psf2_parse(d: Seq<u8>) -> Result<(int, int), FontError> {
    if d.len() < 32 {
        Err(FontError::TooSmall)
    } else if !psf2_magic_ok(d) {
        Err(FontError::BadMagic)
    } else if le_u32(d, 8) + le_u32(d, 16) * le_u32(d, 20) > d.len() {
        Err(FontError::Truncated)
    } else {
        Ok((le_u32(d, 8), le_u32(d, 16) * le_u32(d, 20)))
    }
}

/// A PSF2 bitmap font: header fields and the glyph table.
pub struct Psf2Font<'a> {
    length: u32,
    charsize: u32,
    height: u32,
    width: u32,
    glyphs: &'a [u8],
}

impl<'a> Psf2Font<'a> {
    /// Number of glyphs.
    pub closed spec fn spec_length(&self) -> int {
        self.length as int
    }

    /// Bytes per glyph.
    pub closed spec fn spec_charsize(&self) -> int {
        self.charsize as int
    }

    /// Glyph width in pixels.
    pub closed spec fn spec_width(&self) -> u32 {
        self.width
    }

    /// Glyph height in pixels.
    pub closed spec fn spec_height(&self) -> u32 {
        self.height
    }

    /// The glyph table.
    pub closed spec fn spec_glyphs(&self) -> Seq<u8> {
        self.glyphs@
    }

    /// The table holds exactly `length` glyphs of `charsize` bytes.
    pub closed spec fn wf(&self) -> bool {
        self.glyphs@.len() == self.length * self.charsize
    }

    /// Parses a PSF2 image: checks size and magic, and that the glyph
    /// table the header describes lies inside the image. Sizes are
    /// computed without overflow.
    pub fn from_bytes(data: &'a [u8]) -> (r: Result<Self, FontError>)
        ensures
            match psf2_parse(data@) {
                Ok((start, size)) => r matches Ok(f) && {
                    &&& f.wf()
                    &&& f.spec_glyphs() == data@.subrange(start, start + size)
                    &&& f.spec_length() == le_u32(data@, 16)
                    &&& f.spec_charsize() == le_u32(data@, 20)
                    &&& f.spec_height() == le_u32(data@, 24)
                    &&& f.spec_width() == le_u32(data@, 28)
                },
                Err(e) => r matches Err(g) && g == e,
            },
    {
        if data.len() < 32 {
            return Err(FontError::TooSmall);
        }
        if data[0] != 0x72 || data[1] != 0xb5 || data[2] != 0x4a || data[3] != 0x86 {
            return Err(FontError::BadMagic);
        }
        let headersize = read_le_u32(data, 8);
        let length = read_le_u32(data, 16);
        let charsize = read_le_u32(data, 20);
        let height = read_le_u32(data, 24);
        let width = read_le_u32(data, 28);
        proof {
            assert((length as int) * (charsize as int) <= 0xFFFF_FFFF * 0xFFFF_FFFF) by (nonlinear_arith)
                requires length <= 0xFFFF_FFFFu32, charsize <= 0xFFFF_FFFFu32;
        }
        let size: u64 = length as u64 * charsize as u64;
        if (data.len() as u64) < size || (data.len() as u64) - size < headersize as u64 {
            return Err(FontError::Truncated);
        }
        let start = headersize as usize;
        let end = start + size as usize;
        let glyphs = &data[start..end];
        Ok(Psf2Font { length, charsize, height, width, glyphs })
    }

    /// The bitmap of `ch`; `None` when the font has no glyph for it.
    pub fn get_glyph(&self, ch: char) -> (r: Option<&[u8]>)
        requires
            self.wf(),
        ensures
            (ch as u32) < self.spec_length() ==> (r matches Some(g) && g@ == self.spec_glyphs().subrange(
                (ch as u32) * self.spec_charsize(),
                (ch as u32) * self.spec_charsize() + self.spec_charsize(),
            )),
            (ch as u32) >= self.spec_length() ==> r is None,
    {
        let index = ch as u32;
        if index >= self.length {
            return None;
        }
        let glen = self.glyphs.len();
        proof {
            let i = index as int;
            let c = self.charsize as int;
            let n = self.length as int;
            assert((i + 1) * c <= n * c) by (nonlinear_arith)
                requires i < n, c >= 0;
            assert(i * c + c == (i + 1) * c) by (nonlinear_arith);
            assert(i * c >= 0) by (nonlinear_arith)
                requires i >= 0, c >= 0;
        }
        let start = index as usize * self.charsize as usize;
        let end = start + self.charsize as usize;
        Some(&self.glyphs[start..end])
    }

    /// Glyph width in pixels.
    pub fn width(&self) -> (r: u32)
        ensures
            r == self.spec_width(),
    {
        self.width
    }

    /// Glyph height in pixels.
    pub fn height(&self) -> (r: u32)
        ensures
            r == self.spec_height(),
    {
        self.height
    }

    /// Bytes per glyph.
    pub fn bytes_per_glyph(&self) -> (r: u32)
        ensures
            r == self.spec_charsize(),
    {
        self.charsize
    }
}

/// Pixel `col` of row `row` of a glyph `width` pixels wide is lit: rows
/// take whole bytes, the leftmost pixel is the top bit.
pub open spec fn glyph_bit(glyph: Seq<u8>, width: int, row: int, col: int) -> bool {
    let byte_index = row * ((width + 7) / 8) + col / 8;
    byte_index < glyph.len() && (glyph[byte_index] >> ((7 - col % 8) as u8)) & 1 == 1
}

/// Whether pixel (`col`, `row`) of a glyph is lit.
pub fn glyph_pixel_set(glyph: &[u8], width: usize, row: usize, col: usize) -> (r: bool)
    requires
        width < 0x1_0000,
        row < 0x1_0000,
        col < width,
    ensures
        r == glyph_bit(glyph@, width as int, row as int, col as int),
{
    proof {
        let b = (width + 7) / 8;
        assert(b <= 0x2000);
        assert(row * b <= 0x2000_0000) by (nonlinear_arith)
            requires row < 0x1_0000, b <= 0x2000;
    }
    let bytes_per_row = (width + 7) / 8;
    let byte_index = row * bytes_per_row + col / 8;
    let shift = (7 - col % 8) as u8;
    byte_index < glyph.len() && (glyph[byte_index] >> shift) & 1 == 1
}

/// An RGBA colour.
#[derive(Clone, Copy, PartialEq, Eq, Structural, Debug)]
pub struct Color {
    pub r: u8,
    pub g: u8,
    pub b: u8,
    pub a: u8,
}

impl Color {
    /// An opaque colour.
    pub fn new(r: u8, g: u8, b: u8) -> (c: Self)
        ensures
            c == (Color { r, g, b, a: 255 }),
    {
        Color { r, g, b, a: 255 }
    }

    /// The colour as a 32-bit ARGB framebuffer pixel.
    pub fn pack(&self) -> (p: u32)
        ensures
            p == self.a as u32 * 0x100_0000 + self.r as u32 * 0x1_0000 + self.g as u32 * 0x100 + self.b as u32,
    {
        self.a as u32 * 0x100_0000 + self.r as u32 * 0x1_0000 + self.g as u32 * 0x100 + self.b as u32
    }
}

/// What the console asks of the framebuffer.
#[derive(Clone, Copy, PartialEq, Eq, Structural, Debug)]
pub enum ConsoleAction {
    /// Draw glyph `ch` (foreground on background) with its top-left
    /// corner at pixel (`x`, `y`).
    Draw { x: usize, y: usize, ch: char },
    /// Move the screen up one text row and clear the bottom row.
    ScrollUp,
}

/// Largest framebuffer side the console handles, in pixels.
pub const MAX_FB_SIDE: usize = 0x1000_0000;

/// A text console over a framebuffer.
pub struct Console {
    fb_addr: usize,
    fb_width: usize,
    fb_height: usize,
    fb_pitch: usize,
    fb_bpp: usize,
    cursor_x: usize,
    cursor_y: usize,
    char_width: usize,
    char_height: usize,
    fg: Color,
    bg: Color,
}

/// The console's geometry and cursor, in pixels.
pub struct ConsoleView {
    pub width: int,
    pub height: int,
    pub cw: int,
    pub ch: int,
    pub x: int,
    pub y: int,
}

/// The next tab stop after column `x`: every fourth character cell.
pub open spec fn tab_stop(x: int, cw: int) -> int {
    ((x / cw / 4) + 1) * 4 * cw
}

/// The cursor after the line-wrap check before a glyph.
pub open spec fn wrapped(v: ConsoleView) -> ConsoleView {
    if v.x + v.cw > v.width { ConsoleView { x: 0, y: v.y + v.ch, ..v } } else { v }
}

/// The cursor after a scroll when the cursor row is off screen.
pub open spec fn scrolled(v: ConsoleView) -> (ConsoleView, Seq<ConsoleAction>) {
    if v.y + v.ch > v.height {
        (ConsoleView { y: v.y - v.ch, ..v }, seq![ConsoleAction::ScrollUp])
    } else {
        (v, Seq::empty())
    }
}

/// What writing `c` does: the new cursor and the drawing steps, in order.
pub open spec fn put_char_spec(v: ConsoleView, c: char) -> (ConsoleView, Seq<ConsoleAction>) {
    let (v1, acts) = if c == '\x08' {
        if v.x >= v.cw {
            let nx = v.x - v.cw;
            (ConsoleView { x: nx, ..v }, seq![ConsoleAction::Draw { x: nx as usize, y: v.y as usize, ch: ' ' }])
        } else {
            (v, Seq::empty())
        }
    } else if c == '\n' {
        (ConsoleView { x: 0, y: v.y + v.ch, ..v }, Seq::empty())
    } else if c == '\r' {
        (ConsoleView { x: 0, ..v }, Seq::empty())
    } else if c == '\t' {
        let t = tab_stop(v.x, v.cw);
        if t + v.cw > v.width {
            (ConsoleView { x: 0, y: v.y + v.ch, ..v }, Seq::empty())
        } else {
            (ConsoleView { x: t, ..v }, Seq::empty())
        }
    } else {
        let w = wrapped(v);
        let (s, sa) = scrolled(w);
        (
            ConsoleView { x: s.x + s.cw, ..s },
            sa.push(ConsoleAction::Draw { x: s.x as usize, y: s.y as usize, ch: c }),
        )
    };
    let (v2, acts2) = scrolled(v1);
    (v2, acts + acts2)
}

/// A newline moves the cursor to the start of the next text row, whatever
/// column it was in; when that row would leave the screen, the screen
/// scrolls up one row and the cursor stays on the bottom row. Nothing is
/// drawn, and the geometry stays.
pub proof fn lemma_newline(v: ConsoleView)
    requires
        0 < v.ch,
        0 <= v.y,
        v.y + v.ch <= v.height,
    ensures
        put_char_spec(v, '\n').0.x == 0,
        v.y + 2 * v.ch <= v.height ==> put_char_spec(v, '\n').0.y == v.y + v.ch && put_char_spec(v, '\n').1 == Seq::<ConsoleAction>::empty(),
        v.y + 2 * v.ch > v.height ==> put_char_spec(v, '\n').0.y == v.y && put_char_spec(v, '\n').1 == seq![ConsoleAction::ScrollUp],
        put_char_spec(v, '\n').0.width == v.width,
        put_char_spec(v, '\n').0.height == v.height,
        put_char_spec(v, '\n').0.cw == v.cw,
        put_char_spec(v, '\n').0.ch == v.ch,
{
    let r = put_char_spec(v, '\n');
    assert(Seq::<ConsoleAction>::empty() + seq![ConsoleAction::ScrollUp] =~= seq![ConsoleAction::ScrollUp]);
    assert(Seq::<ConsoleAction>::empty() + Seq::<ConsoleAction>::empty() =~= Seq::<ConsoleAction>::empty());
}

/// A cursor on a screen the console can use.
pub open spec fn view_ok(v: ConsoleView) -> bool {
    &&& 0 < v.cw <= v.width
    &&& 0 < v.ch <= v.height
    &&& 0 <= v.x <= v.width
    &&& 0 <= v.y && v.y + v.ch <= v.height
}

/// A printable character is drawn at the cursor and the cursor moves one
/// cell right. When the cell would pass the right edge, the character
/// goes to the start of the next row instead (scrolling the screen up
/// first when that row is off the bottom).
pub proof fn lemma_printable(v: ConsoleView, c: char)
    requires
        view_ok(v),
        c != '\x08' && c != '\n' && c != '\r' && c != '\t',
    ensures
        v.x + v.cw <= v.width ==> put_char_spec(v, c).1 == seq![ConsoleAction::Draw { x: v.x as usize, y: v.y as usize, ch: c }]
            && put_char_spec(v, c).0.x == v.x + v.cw && put_char_spec(v, c).0.y == v.y,
        v.x + v.cw > v.width && v.y + 2 * v.ch <= v.height ==>
            put_char_spec(v, c).1 == seq![ConsoleAction::Draw { x: 0, y: (v.y + v.ch) as usize, ch: c }]
            && put_char_spec(v, c).0.x == v.cw && put_char_spec(v, c).0.y == v.y + v.ch,
        v.x + v.cw > v.width && v.y + 2 * v.ch > v.height ==>
            put_char_spec(v, c).1 == seq![ConsoleAction::ScrollUp, ConsoleAction::Draw { x: 0, y: v.y as usize, ch: c }]
            && put_char_spec(v, c).0.x == v.cw && put_char_spec(v, c).0.y == v.y,
        view_ok(put_char_spec(v, c).0),
{
    let r = put_char_spec(v, c);
    assert(seq![ConsoleAction::Draw { x: v.x as usize, y: v.y as usize, ch: c }] + Seq::<ConsoleAction>::empty()
        =~= seq![ConsoleAction::Draw { x: v.x as usize, y: v.y as usize, ch: c }]);
    assert(Seq::<ConsoleAction>::empty().push(ConsoleAction::Draw { x: v.x as usize, y: v.y as usize, ch: c })
        =~= seq![ConsoleAction::Draw { x: v.x as usize, y: v.y as usize, ch: c }]);
    assert(Seq::<ConsoleAction>::empty().push(ConsoleAction::Draw { x: 0, y: (v.y + v.ch) as usize, ch: c }) + Seq::<ConsoleAction>::empty()
        =~= seq![ConsoleAction::Draw { x: 0, y: (v.y + v.ch) as usize, ch: c }]);
    assert(seq![ConsoleAction::ScrollUp].push(ConsoleAction::Draw { x: 0, y: v.y as usize, ch: c }) + Seq::<ConsoleAction>::empty()
        =~= seq![ConsoleAction::ScrollUp, ConsoleAction::Draw { x: 0, y: v.y as usize, ch: c }]);
}

/// A carriage return moves the cursor to the start of its row; a
/// backspace moves it one cell left and blanks that cell, or does nothing
/// at the left edge.
pub proof fn lemma_return_and_backspace(v: ConsoleView)
    requires
        view_ok(v),
    ensures
        put_char_spec(v, '\r').0 == (ConsoleView { x: 0, ..v }),
        put_char_spec(v, '\r').1 == Seq::<ConsoleAction>::empty(),
        v.x >= v.cw ==> put_char_spec(v, '\x08').0 == (ConsoleView { x: v.x - v.cw, ..v })
            && put_char_spec(v, '\x08').1 == seq![ConsoleAction::Draw { x: (v.x - v.cw) as usize, y: v.y as usize, ch: ' ' }],
        v.x < v.cw ==> put_char_spec(v, '\x08').0 == v && put_char_spec(v, '\x08').1 == Seq::<ConsoleAction>::empty(),
{
    assert(Seq::<ConsoleAction>::empty() + Seq::<ConsoleAction>::empty() =~= Seq::<ConsoleAction>::empty());
    assert(seq![ConsoleAction::Draw { x: (v.x - v.cw) as usize, y: v.y as usize, ch: ' ' }] + Seq::<ConsoleAction>::empty()
        =~= seq![ConsoleAction::Draw { x: (v.x - v.cw) as usize, y: v.y as usize, ch: ' ' }]);
}

impl Console {
    /// Geometry and cursor.
    pub closed spec fn view(&self) -> ConsoleView {
        ConsoleView {
            width: self.fb_width as int,
            height: self.fb_height as int,
            cw: self.char_width as int,
            ch: self.char_height as int,
            x: self.cursor_x as int,
            y: self.cursor_y as int,
        }
    }

    /// The font fits the screen and the cursor's text row is on it.
    pub closed spec fn wf(&self) -> bool {
        &&& 0 < self.char_width <= self.fb_width <= MAX_FB_SIDE
        &&& 0 < self.char_height <= self.fb_height <= MAX_FB_SIDE
        &&& self.cursor_x <= self.fb_width
        &&& self.cursor_y + self.char_height <= self.fb_height
    }

    /// In every state the console's operations reach, the cursor stays on
    /// the screen: its column is at most the width and its whole text row
    /// lies above the bottom edge.
    pub proof fn lemma_cursor_on_screen(&self)
        requires
            self.wf(),
        ensures
            0 <= self@.x <= self@.width,
            0 <= self@.y && self@.y + self@.ch <= self@.height,
            0 < self@.cw <= self@.width,
            0 < self@.ch <= self@.height,
    {
    }

    /// A console over a `width` x `height` framebuffer at `fb_addr`, with
    /// glyph cells of `char_width` x `char_height`; the cursor starts at
    /// the top left.
    pub fn new(
        fb_addr: usize,
        width: usize,
        height: usize,
        pitch: usize,
        bytes_per_pixel: usize,
        char_width: usize,
        char_height: usize,
        fg: Color,
        bg: Color,
    ) -> (r: Self)
        requires
            0 < char_width <= width <= MAX_FB_SIDE,
            0 < char_height <= height <= MAX_FB_SIDE,
        ensures
            r.wf(),
            r.view() == (ConsoleView {
                width: width as int,
                height: height as int,
                cw: char_width as int,
                ch: char_height as int,
                x: 0,
                y: 0,
            }),
    {
        Console {
            fb_addr,
            fb_width: width,
            fb_height: height,
            fb_pitch: pitch,
            fb_bpp: bytes_per_pixel,
            cursor_x: 0,
            cursor_y: 0,
            char_width,
            char_height,
            fg,
            bg,
        }
    }

    /// Text columns.
    pub fn cols(&self) -> (r: usize)
        requires
            self.wf(),
        ensures
            r == self.view().width / self.view().cw,
    {
        self.fb_width / self.char_width
    }

    /// Text rows.
    pub fn rows(&self) -> (r: usize)
        requires
            self.wf(),
        ensures
            r == self.view().height / self.view().ch,
    {
        self.fb_height / self.char_height
    }

    /// Moves the cursor to the top left (after the screen is cleared).
    pub fn home(&mut self)
        requires
            old(self).wf(),
        ensures
            final(self).wf(),
            final(self).view() == (ConsoleView { x: 0, y: 0, ..old(self).view() }),
    {
        self.cursor_x = 0;
        self.cursor_y = 0;
    }

    /// Moves the cursor up one text row after a scroll.
    fn scroll_cursor(&mut self, acts: &mut Vec<ConsoleAction>)
        requires
            old(self).cursor_y >= old(self).char_height,
        ensures
            final(self).view() == (ConsoleView { y: old(self).view().y - old(self).view().ch, ..old(self).view() }),
            final(acts)@ == old(acts)@.push(ConsoleAction::ScrollUp),
            final(self).fb_width == old(self).fb_width,
            final(self).fb_height == old(self).fb_height,
            final(self).char_width == old(self).char_width,
            final(self).char_height == old(self).char_height,
    {
        acts.push(ConsoleAction::ScrollUp);
        self.cursor_y = self.cursor_y - self.char_height;
    }

    /// Writes one character: backspace erases the previous cell, newline,
    /// carriage return and tab move the cursor, anything else is drawn and
    /// advances it, wrapping at the right edge. The screen scrolls when
    /// the cursor row leaves it. Returns the drawing steps in order.
    pub fn put_char(&mut self, c: char) -> (acts: Vec<ConsoleAction>)
        requires
            old(self).wf(),
        ensures
            final(self).wf(),
            (final(self).view(), acts@) == put_char_spec(old(self).view(), c),
    {
        let mut acts: Vec<ConsoleAction> = Vec::new();
        let cw = self.char_width;
        let chh = self.char_height;
        if c == '\x08' {
            if self.cursor_x >= cw {
                self.cursor_x = self.cursor_x - cw;
                acts.push(ConsoleAction::Draw { x: self.cursor_x, y: self.cursor_y, ch: ' ' });
            }
        } else if c == '\n' {
            self.cursor_x = 0;
            self.cursor_y = self.cursor_y + chh;
        } else if c == '\r' {
            self.cursor_x = 0;
        } else if c == '\t' {
            proof {
                let x = self.cursor_x as int;
                let w = cw as int;
                assert(tab_stop(x, w) <= x + 4 * w) by (nonlinear_arith)
                    requires w > 0, x >= 0;
                assert(tab_stop(x, w) >= 0) by (nonlinear_arith)
                    requires w > 0, x >= 0;
                assert((x / w / 4 + 1) * 4 <= x + 4) by (nonlinear_arith)
                    requires w > 0, x >= 0;
            }
            let t = ((self.cursor_x / cw / 4) + 1) * 4 * cw;
            if t + cw > self.fb_width {
                self.cursor_x = 0;
                self.cursor_y = self.cursor_y + chh;
            } else {
                self.cursor_x = t;
            }
        } else {
            if self.cursor_x + cw > self.fb_width {
                self.cursor_x = 0;
                self.cursor_y = self.cursor_y + chh;
            }
            if self.cursor_y + chh > self.fb_height {
                self.scroll_cursor(&mut acts);
            }
            acts.push(ConsoleAction::Draw { x: self.cursor_x, y: self.cursor_y, ch: c });
            self.cursor_x = self.cursor_x + cw;
        }
        let ghost mid = acts@;
        if self.cursor_y + chh > self.fb_height {
            self.scroll_cursor(&mut acts);
        }
        proof {
            let (v1, a1) = scrolled(self.view());
            assert(acts@ =~= put_char_spec(old(self).view(), c).1);
        }
        acts
    }
}

impl Console {
    /// The framebuffer as the console draws into it: 4-byte pixels, rows
    /// `pitch / 4` pixels apart.
    pub closed spec fn spec_geometry(&self) -> FbGeometry {
        FbGeometry { width: self.fb_width, height: self.fb_height, stride: self.fb_pitch / 4 }
    }

    /// Bytes per pixel.
    pub closed spec fn spec_bpp(&self) -> usize {
        self.fb_bpp
    }

    /// The foreground and background pixel values.
    pub closed spec fn colors(&self) -> (u32, u32) {
        (argb(self.fg), argb(self.bg))
    }

    /// The framebuffer geometry.
    pub fn geometry(&self) -> (r: FbGeometry)
        ensures
            r == self.spec_geometry(),
    {
        FbGeometry { width: self.fb_width, height: self.fb_height, stride: self.fb_pitch / 4 }
    }

    /// Draws glyph `ch` of `font` in the cell at (`x`, `y`): lit pixels in
    /// the foreground colour, the rest of the cell in the background
    /// colour; nothing for a character the font lacks.
    pub fn draw_glyph(&self, fb: &mut [u32], font: &Psf2Font, x: usize, y: usize, ch: char)
        requires
            self.wf(),
            font.wf(),
            fits(self.spec_geometry(), old(fb)@.len()),
        ensures
            (ch as u32) < font.spec_length() ==> final(fb)@ == painted(old(fb)@, self.spec_geometry(),
                font.spec_glyphs().subrange((ch as u32) * font.spec_charsize(), (ch as u32) * font.spec_charsize() + font.spec_charsize()),
                self.view().cw, self.view().ch, x as int, y as int, self.colors().0, Some(self.colors().1)),
            (ch as u32) >= font.spec_length() ==> final(fb)@ == old(fb)@,
    {
        let glyph = match font.get_glyph(ch) {
            Some(gl) => gl,
            None => return,
        };
        let g = self.geometry();
        paint_glyph(fb, g, glyph, self.char_width as u32, self.char_height as u32, x, y, self.fg.pack(), Some(self.bg.pack()));
    }

    /// Moves the picture up one text row and paints the bottom text row
    /// with the background colour (the cursor moves in `put_char`).
    pub fn scroll_up(&self, fb: &mut [u32])
        requires
            self.wf(),
            fits(self.spec_geometry(), old(fb)@.len()),
        ensures
            final(fb)@ == scrolled_up(old(fb)@, self.spec_geometry(), self.view().ch, self.colors().1),
    {
        let g = self.geometry();
        scroll_pixels(fb, g, self.char_height, self.bg.pack());
    }

    /// Paints the whole screen with the background colour and moves the
    /// cursor to the top left.
    pub fn clear(&mut self, fb: &mut [u32])
        requires
            old(self).wf(),
            fits(old(self).spec_geometry(), old(fb)@.len()),
        ensures
            final(self).wf(),
            final(self).view() == (ConsoleView { x: 0, y: 0, ..old(self).view() }),
            final(self).spec_geometry() == old(self).spec_geometry(),
            final(self).colors() == old(self).colors(),
            final(fb)@.len() == old(fb)@.len(),
            forall|i: int| 0 <= i < old(fb)@.len() ==> #[trigger] final(fb)@[i]
                == (if on_screen(old(self).spec_geometry(), i) { old(self).colors().1 } else { old(fb)@[i] }),
    {
        let g = self.geometry();
        fill_screen(fb, g, self.bg);
        self.cursor_x = 0;
        self.cursor_y = 0;
    }

    /// Carries out one drawing step of `put_char`.
    pub fn apply(&self, fb: &mut [u32], font: &Psf2Font, act: ConsoleAction)
        requires
            self.wf(),
            font.wf(),
            fits(self.spec_geometry(), old(fb)@.len()),
        ensures
            act matches ConsoleAction::ScrollUp ==> final(fb)@ == scrolled_up(old(fb)@, self.spec_geometry(), self.view().ch, self.colors().1),
            act matches ConsoleAction::Draw { x, y, ch } ==> {
                &&& (ch as u32) < font.spec_length() ==> final(fb)@ == painted(old(fb)@, self.spec_geometry(),
                    font.spec_glyphs().subrange((ch as u32) * font.spec_charsize(), (ch as u32) * font.spec_charsize() + font.spec_charsize()),
                    self.view().cw, self.view().ch, x as int, y as int, self.colors().0, Some(self.colors().1))
                &&& (ch as u32) >= font.spec_length() ==> final(fb)@ == old(fb)@
            },
    {
        match act {
            ConsoleAction::Draw { x, y, ch } => self.draw_glyph(fb, font, x, y, ch),
            ConsoleAction::ScrollUp => self.scroll_up(fb),
        }
    }
}

/// Writes `c` to the console when there is one; nothing otherwise.
pub fn console_try_put_char(console: &mut Option<Console>, c: char) -> (acts: Vec<ConsoleAction>)
    requires
        *old(console) matches Some(k) ==> k.wf(),
    ensures
        match *old(console) {
            Some(k) => (*final(console) matches Some(k2) && k2.wf()
                && (k2.view(), acts@) == put_char_spec(k.view(), c)),
            None => *final(console) is None && acts@.len() == 0,
        },
{
    match console {
        Some(k) => k.put_char(c),
        None => Vec::new(),
    }
}

/// Mouse-cursor sprite width in pixels.
pub const CURSOR_W: usize = 12;
/// Mouse-cursor sprite height in pixels.
pub const CURSOR_H: usize = 19;
/// Pixels under the sprite are XOR-ed with this.
pub const XOR_MASK: u32 = 0x00FF_FFFF;

/// Row `row` of the arrow sprite, leftmost pixel in the top bit.
pub open spec fn cursor_row_bits(row: int) -> u16 {
    if row == 0 { 0x8000 }
    else if row == 1 { 0xC000 }
    else if row == 2 { 0xE000 }
    else if row == 3 { 0xF000 }
    else if row == 4 { 0xF800 }
    else if row == 5 { 0xFC00 }
    else if row == 6 { 0xFE00 }
    else if row == 7 { 0xFF00 }
    else if row == 8 { 0xFF80 }
    else if row == 9 { 0xFFC0 }
    else if row == 10 { 0xFFE0 }
    else if row == 11 { 0xFFF0 }
    else if row == 12 { 0xFF00 }
    else if row == 13 { 0xFC00 }
    else if row == 14 { 0xFC00 }
    else if row == 15 { 0xC600 }
    else if row == 16 { 0x0600 }
    else if row == 17 { 0x0300 }
    else if row == 18 { 0x0300 }
    else { 0 }
}

/// Row `row` of the arrow sprite.
pub fn cursor_bitmap_row(row: usize) -> (r: u16)
    requires
        row < CURSOR_H,
    ensures
        r == cursor_row_bits(row as int),
{
    if row == 0 { 0x8000 }
    else if row == 1 { 0xC000 }
    else if row == 2 { 0xE000 }
    else if row == 3 { 0xF000 }
    else if row == 4 { 0xF800 }
    else if row == 5 { 0xFC00 }
    else if row == 6 { 0xFE00 }
    else if row == 7 { 0xFF00 }
    else if row == 8 { 0xFF80 }
    else if row == 9 { 0xFFC0 }
    else if row == 10 { 0xFFE0 }
    else if row == 11 { 0xFFF0 }
    else if row == 12 { 0xFF00 }
    else if row == 13 { 0xFC00 }
    else if row == 14 { 0xFC00 }
    else if row == 15 { 0xC600 }
    else if row == 16 { 0x0600 }
    else { 0x0300 }
}

/// Pixel (`col`, `row`) of the sprite is part of the arrow.
pub open spec fn sprite_bit(row: int, col: int) -> bool {
    (cursor_row_bits(row) >> ((15 - col) as u16)) & 1 == 1
}

/// Pixel (`px`, `py`) of a `w` x `h` screen lies under the arrow drawn at
/// (`x`, `y`).
pub open spec fn under_cursor(w: int, h: int, x: int, y: int, px: int, py: int) -> bool {
    &&& 0 <= px < w
    &&& 0 <= py < h
    &&& 0 <= px - x < CURSOR_W
    &&& 0 <= py - y < CURSOR_H
    &&& sprite_bit(py - y, px - x)
}

/// The screen pixels under the arrow drawn at (`x`, `y`), row by row.
pub fn cursor_pixels(fb_width: usize, fb_height: usize, x: i32, y: i32) -> (r: Vec<(usize, usize)>)
    requires
        fb_width <= i32::MAX,
        fb_height <= i32::MAX,
    ensures
        forall|k: int| 0 <= k < r@.len() ==> under_cursor(fb_width as int, fb_height as int, x as int, y as int,
            (#[trigger] r@[k]).0 as int, r@[k].1 as int),
        forall|px: int, py: int| under_cursor(fb_width as int, fb_height as int, x as int, y as int, px, py)
            ==> r@.contains((px as usize, py as usize)),
{
    let mut out: Vec<(usize, usize)> = Vec::new();
    let w = fb_width as i64;
    let h = fb_height as i64;
    let mut row: usize = 0;
    while row < CURSOR_H
        invariant
            0 <= row <= CURSOR_H,
            w == fb_width, h == fb_height,
            forall|k: int| 0 <= k < out@.len() ==> under_cursor(fb_width as int, fb_height as int, x as int, y as int,
                (#[trigger] out@[k]).0 as int, out@[k].1 as int),
            forall|px: int, py: int| under_cursor(fb_width as int, fb_height as int, x as int, y as int, px, py)
                && py - y < row ==> out@.contains((px as usize, py as usize)),
        decreases CURSOR_H - row,
    {
        let py = y as i64 + row as i64;
        let bits = cursor_bitmap_row(row);
        let mut col: usize = 0;
        while col < CURSOR_W
            invariant
                0 <= row < CURSOR_H,
                0 <= col <= CURSOR_W,
                w == fb_width, h == fb_height,
                py == y + row,
                bits == cursor_row_bits(row as int),
                forall|k: int| 0 <= k < out@.len() ==> under_cursor(fb_width as int, fb_height as int, x as int, y as int,
                    (#[trigger] out@[k]).0 as int, out@[k].1 as int),
                forall|px: int, py2: int| under_cursor(fb_width as int, fb_height as int, x as int, y as int, px, py2)
                    && (py2 - y < row || (py2 - y == row && px - x < col)) ==> out@.contains((px as usize, py2 as usize)),
            decreases CURSOR_W - col,
        {
            let px = x as i64 + col as i64;
            let shift = (15 - col) as u16;
            if 0 <= py && py < h && 0 <= px && px < w && (bits >> shift) & 1 == 1 {
                let ghost before = out@;
                out.push((px as usize, py as usize));
                proof {
                    assert(out@[out@.len() - 1] == (px as usize, py as usize));
                    assert forall|qx: int, qy: int| under_cursor(fb_width as int, fb_height as int, x as int, y as int, qx, qy)
                        && (qy - y < row || (qy - y == row && qx - x < col + 1)) implies out@.contains((qx as usize, qy as usize)) by {
                        if qy - y == row && qx - x == col {
                            assert(out@[out@.len() - 1] == (qx as usize, qy as usize));
                        } else {
                            let k = choose|k: int| 0 <= k < before.len() && before[k] == (qx as usize, qy as usize);
                            assert(out@[k] == before[k]);
                        }
                    }
                }
            }
            col = col + 1;
        }
        row = row + 1;
    }
    out
}

/// The mouse cursor's position and whether it is drawn.
#[derive(Clone, Copy, PartialEq, Eq, Structural, Debug)]
pub struct CursorState {
    pub x: i32,
    pub y: i32,
    pub visible: bool,
}

/// `v` clamped to `[lo, hi]`.
pub open spec fn clamp_int(v: int, lo: int, hi: int) -> int {
    if v < lo { lo } else if v > hi { hi } else { v }
}

impl CursorState {
    /// A hidden cursor at the origin.
    pub fn new() -> (r: Self)
        ensures
            r == (CursorState { x: 0, y: 0, visible: false }),
    {
        CursorState { x: 0, y: 0, visible: false }
    }
}

/// Centres the cursor on a `width` x `height` screen.
pub fn init_cursor(state: &mut CursorState, width: usize, height: usize)
    requires
        width <= i32::MAX,
        height <= i32::MAX,
    ensures
        final(state).x == width as int / 2,
        final(state).y == height as int / 2,
        final(state).visible == old(state).visible,
{
    state.x = (width as i32) / 2;
    state.y = (height as i32) / 2;
}

/// Moves the cursor by (`dx`, `-dy`) (mouse y grows upwards), clamped to
/// the screen, and shows it. Returns where to XOR the sprite, in order:
/// the old position (when it was shown, to erase it), then the new one.
pub fn cursor_move(state: &mut CursorState, fb_width: usize, fb_height: usize, dx: i16, dy: i16) -> (r: Vec<(i32, i32)>)
    requires
        1 <= fb_width <= i32::MAX,
        1 <= fb_height <= i32::MAX,
        i32::MIN <= old(state).x + dx <= i32::MAX,
        i32::MIN <= old(state).y - dy <= i32::MAX,
    ensures
        final(state).x == clamp_int(old(state).x + dx, 0, fb_width - 1),
        final(state).y == clamp_int(old(state).y - dy, 0, fb_height - 1),
        final(state).visible,
        old(state).visible ==> r@ == seq![(old(state).x, old(state).y), (final(state).x, final(state).y)],
        !old(state).visible ==> r@ == seq![(final(state).x, final(state).y)],
{
    let mut r: Vec<(i32, i32)> = Vec::new();
    if state.visible {
        r.push((state.x, state.y));
    }
    let maxx = fb_width as i32 - 1;
    let maxy = fb_height as i32 - 1;
    let nx = state.x + dx as i32;
    let ny = state.y - dy as i32;
    state.x = if nx < 0 { 0 } else if nx > maxx { maxx } else { nx };
    state.y = if ny < 0 { 0 } else if ny > maxy { maxy } else { ny };
    state.visible = true;
    r.push((state.x, state.y));
    r
}

/// The cursor position.
pub fn cursor_position(state: &CursorState) -> (r: (i32, i32))
    ensures
        r == (state.x, state.y),
{
    (state.x, state.y)
}

} // verus!
