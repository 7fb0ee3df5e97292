//! The user-interface server: it fetches `font.psf` through the file
//! server, then draws the text it is sent, glyph by glyph, into the
//! framebuffer capability (1280×800, 4 bytes per pixel).

use vstd::prelude::*;
use crate::actors::sdk::{Message, pack_name, unpack_words, name_payload, byte_of, VFS_READ_REQ, VFS_READ_REPLY};
use crate::fs::elf::le;
use crate::kdisplay::{le_u32, read_le_u32};

verus! {

/// Framebuffer width in pixels.
pub const FB_WIDTH: usize = 1280;
/// Framebuffer height in pixels.
pub const FB_HEIGHT: usize = 800;
/// Bytes per pixel.
pub const FB_BPP: usize = 4;
/// Bytes per framebuffer row.
pub const FB_PITCH: usize = 5120;
/// The PSF2 magic number.
pub const PSF2_MAGIC: u32 = 0x864a_b572;
/// Where the first line of text goes, and where drawing wraps back to.
pub const TEXT_MARGIN: usize = 8;

/// A PSF2 font header and where the font's bytes are found.
#[derive(Clone, Copy, Debug)]
pub struct PsfFont {
    pub header_size: u32,
    pub num_glyph: u32,
    pub bytes_per_glyph: u32,
    pub height: u32,
    pub width: u32,
    /// The memory capability holding the font file.
    pub mem_cap: i64,
    /// Where the file starts in that memory.
    pub file_offset: i32,
}

/// Packs a file name into the data words of a request.
pub fn pack_filename(name: &[u8]) -> (r: [u64; 3])
    ensures
        forall|k: int| 0 <= k < 3 ==> #[trigger] r@[k] == le(name_payload(name@), 8 * k, 8),
{
    pack_name(name)
}

/// The bytes of `font.psf`.
pub open spec fn font_name() -> Seq<u8> {
    seq![0x66u8, 0x6Fu8, 0x6Eu8, 0x74u8, 0x2Eu8, 0x70u8, 0x73u8, 0x66u8]
}

/// The request for `font.psf`; the third data word (3) asks the file
/// server to answer on its endpoint to this server.
pub fn font_request() -> (r: Message)
    ensures
        r.label == VFS_READ_REQ,
        r.data@[0] == le(name_payload(font_name()), 0, 8),
        r.data@[1] == le(name_payload(font_name()), 8, 8),
        r.data@[2] == 3,
        r.cap_grant == 0,
        r.cap_perms == 0,
{
    let name: [u8; 8] = [0x66, 0x6F, 0x6E, 0x74, 0x2E, 0x70, 0x73, 0x66];
    proof { assert(name@ =~= font_name()); }
    let mut data = pack_filename(name.as_slice());
    data[2] = 3;
    Message { label: VFS_READ_REQ, data, cap_grant: 0, cap_perms: 0, _pad: 0 }
}

/// Where the font file lies according to the file server's reply: the
/// granted capability, the offset and the size. `None` for another label
/// or a file shorter than a PSF2 header.
pub fn font_location(reply: &Message) -> (r: Option<(i64, i32, usize)>)
    ensures
        match r {
            Some((cap, off, size)) => {
                &&& reply.label == VFS_READ_REPLY
                &&& reply.data@[1] >= 32
                &&& cap == reply.cap_grant as i64
                &&& off == reply.data@[0] as i32
                &&& size == reply.data@[1] as usize
            },
            None => reply.label != VFS_READ_REPLY || (reply.data@[1] as usize) < 32,
        },
{
    if reply.label != VFS_READ_REPLY {
        return None;
    }
    let size = reply.data[1] as usize;
    if size < 32 {
        return None;
    }
    proof { assert(reply.data@[1] >= 32); }
    Some((reply.cap_grant as i64, reply.data[0] as i32, size))
}

/// The font described by the 32-byte header `hdr`; `None` when the magic
/// number is wrong.
pub fn font_from_header(hdr: &[u8; 32], mem_cap: i64, file_offset: i32) -> (r: Option<PsfFont>)
    ensures
        match r {
            Some(f) => {
                &&& le_u32(hdr@, 0) == PSF2_MAGIC
                &&& f.header_size == le_u32(hdr@, 8)
                &&& f.num_glyph == le_u32(hdr@, 16)
                &&& f.bytes_per_glyph == le_u32(hdr@, 20)
                &&& f.height == le_u32(hdr@, 24)
                &&& f.width == le_u32(hdr@, 28)
                &&& f.mem_cap == mem_cap
                &&& f.file_offset == file_offset
            },
            None => le_u32(hdr@, 0) != PSF2_MAGIC,
        },
{
    let h = hdr.as_slice();
    let magic = read_le_u32(h, 0);
    if magic != PSF2_MAGIC {
        return None;
    }
    Some(PsfFont {
        header_size: read_le_u32(h, 8),
        num_glyph: read_le_u32(h, 16),
        bytes_per_glyph: read_le_u32(h, 20),
        height: read_le_u32(h, 24),
        width: read_le_u32(h, 28),
        mem_cap,
        file_offset,
    })
}

/// Where glyph `ch` starts, with `i32` arithmetic as the memory read
/// takes it.
pub open spec fn glyph_offset(font: PsfFont, ch: u8) -> int {
    font.file_offset + (font.header_size as i32) + (ch as i32) * (font.bytes_per_glyph as i32)
}

/// Where to read glyph `ch` and how many bytes: `None` for a character
/// beyond the font or a glyph larger than 128 bytes.
pub fn glyph_location(font: &PsfFont, ch: u8) -> (r: Option<(i32, usize)>)
    requires
        (ch as u32) < font.num_glyph ==> {
            &&& i32::MIN <= (ch as i32) * (font.bytes_per_glyph as i32) <= i32::MAX
            &&& i32::MIN <= font.file_offset + (font.header_size as i32) <= i32::MAX
            &&& i32::MIN <= glyph_offset(*font, ch) <= i32::MAX
        },
    ensures
        match r {
            Some((off, len)) => {
                &&& (ch as u32) < font.num_glyph
                &&& font.bytes_per_glyph <= 128
                &&& off == glyph_offset(*font, ch)
                &&& len == font.bytes_per_glyph
            },
            None => (ch as u32) >= font.num_glyph || font.bytes_per_glyph > 128,
        },
{
    if ch as u32 >= font.num_glyph {
        return None;
    }
    let off = font.file_offset + font.header_size as i32 + (ch as i32) * (font.bytes_per_glyph as i32);
    if font.bytes_per_glyph > 128 {
        return None;
    }
    Some((off, font.bytes_per_glyph as usize))
}

/// Bytes per glyph row: the width rounded up to whole bytes.
pub open spec fn row_bytes(font: PsfFont) -> int {
    (font.width as int + 7) / 8
}

/// Rows of the glyph drawn at `y`: those on screen.
pub open spec fn rows_drawn(font: PsfFont, y: int) -> int {
    if y >= FB_HEIGHT { 0 } else if font.height as int <= FB_HEIGHT - y { font.height as int } else { FB_HEIGHT - y }
}

/// Columns of the glyph drawn at `x`: those on screen.
pub open spec fn cols_drawn(font: PsfFont, x: int) -> int {
    if x >= FB_WIDTH { 0 } else if font.width as int <= FB_WIDTH - x { font.width as int } else { FB_WIDTH - x }
}

/// Whether pixel (`row`, `col`) of the glyph bitmap is set (most
/// significant bit first).
pub open spec fn glyph_bit_set(bitmap: Seq<u8>, rb: int, row: int, col: int) -> bool {
    bitmap[row * rb + col / 8] & (0x80u8 >> ((col % 8) as u8)) != 0
}

/// A glyph at (`x`, `y`) stays inside the 128-byte bitmap and the 32
/// pixels a row buffer holds.
pub open spec fn blit_in_bounds(font: PsfFont, x: int, y: int) -> bool {
    let rows = rows_drawn(font, y);
    let cols = cols_drawn(font, x);
    rows > 0 && cols > 0 ==> (rows - 1) * row_bytes(font) + (cols - 1) / 8 < 128 && cols <= 32
}

/// One framebuffer write: bytes at an offset.
pub struct RowWrite {
    pub fb_offset: i32,
    pub bytes: Vec<u8>,
}

/// The framebuffer writes that draw a glyph bitmap at pixel (`x`, `y`):
/// one per drawn row, white (0xFF bytes) where a bit is set and zero
/// elsewhere, clipped at the screen's right and bottom edges.
pub fn glyph_rows(font: &PsfFont, bitmap: &[u8; 128], x: usize, y: usize) -> (r: Vec<RowWrite>)
    requires
        blit_in_bounds(*font, x as int, y as int),
        x <= 0x1000_0000,
    ensures
        r@.len() == (if cols_drawn(*font, x as int) > 0 { rows_drawn(*font, y as int) } else { 0 }),
        forall|row: int| 0 <= row < r@.len() ==> {
            &&& (#[trigger] r@[row]).fb_offset == (((y + row) * FB_PITCH + x * FB_BPP) as i32)
            &&& r@[row].bytes@.len() == 4 * cols_drawn(*font, x as int)
            &&& forall|c: int, j: int| 0 <= c < cols_drawn(*font, x as int) && 0 <= j < 4 ==>
                #[trigger] r@[row].bytes@[4 * c + j] == (if glyph_bit_set(bitmap@, row_bytes(*font), row, c) { 0xFFu8 } else { 0u8 })
        },
{
    let rb: usize = ((font.width as u64 + 7) / 8) as usize;
    let height = font.height as usize;
    let width = font.width as usize;
    let ghost rows = rows_drawn(*font, y as int);
    let ghost cols = cols_drawn(*font, x as int);
    let mut out: Vec<RowWrite> = Vec::new();
    if x >= FB_WIDTH || width == 0 {
        proof { assert(cols == 0); }
        return out;
    }
    let mut row: usize = 0;
    while row < height
        invariant_except_break
            0 <= row <= height,
            height == font.height,
            width == font.width,
            rb == row_bytes(*font),
            x < FB_WIDTH,
            width > 0,
            rows == rows_drawn(*font, y as int),
            cols == cols_drawn(*font, x as int),
            cols > 0,
            blit_in_bounds(*font, x as int, y as int),
            row <= rows,
            y + row <= FB_HEIGHT || row == 0,
            out@.len() == row,
            forall|r0: int| 0 <= r0 < out@.len() ==> {
                &&& (#[trigger] out@[r0]).fb_offset == (((y + r0) * FB_PITCH + x * FB_BPP) as i32)
                &&& out@[r0].bytes@.len() == 4 * cols
                &&& forall|c: int, j: int| 0 <= c < cols && 0 <= j < 4 ==>
                    #[trigger] out@[r0].bytes@[4 * c + j] == (if glyph_bit_set(bitmap@, rb as int, r0, c) { 0xFFu8 } else { 0u8 })
            },
        ensures
            out@.len() == rows,
            forall|r0: int| 0 <= r0 < out@.len() ==> {
                &&& (#[trigger] out@[r0]).fb_offset == (((y + r0) * FB_PITCH + x * FB_BPP) as i32)
                &&& out@[r0].bytes@.len() == 4 * cols
                &&& forall|c: int, j: int| 0 <= c < cols && 0 <= j < 4 ==>
                    #[trigger] out@[r0].bytes@[4 * c + j] == (if glyph_bit_set(bitmap@, rb as int, r0, c) { 0xFFu8 } else { 0u8 })
            },
        decreases height - row,
    {
        if y >= FB_HEIGHT || row >= FB_HEIGHT - y {
            break;
        }
        let py = y + row;
        let mut bytes: Vec<u8> = Vec::new();
        let mut col: usize = 0;
        while col < width
            invariant_except_break
                0 <= col <= width,
                width == font.width,
                x < FB_WIDTH,
                rb == row_bytes(*font),
                rows == rows_drawn(*font, y as int),
                cols == cols_drawn(*font, x as int),
                row < rows,
                cols > 0,
                blit_in_bounds(*font, x as int, y as int),
                col <= cols,
                bytes@.len() == 4 * col,
                forall|c: int, j: int| 0 <= c < col && 0 <= j < 4 ==>
                    #[trigger] bytes@[4 * c + j] == (if glyph_bit_set(bitmap@, rb as int, row as int, c) { 0xFFu8 } else { 0u8 }),
            ensures
                bytes@.len() == 4 * cols,
                forall|c: int, j: int| 0 <= c < cols && 0 <= j < 4 ==>
                    #[trigger] bytes@[4 * c + j] == (if glyph_bit_set(bitmap@, rb as int, row as int, c) { 0xFFu8 } else { 0u8 }),
            decreases width - col,
        {
            if col >= FB_WIDTH - x {
                break;
            }
            proof {
                assert((row as int) * (rb as int) <= (rows - 1) * (rb as int)) by (nonlinear_arith)
                    requires row < rows, rb >= 0;
                assert(col / 8 <= (cols - 1) / 8) by (nonlinear_arith)
                    requires col < cols;
            }
            let byte_idx = row * rb + col / 8;
            let set = bitmap[byte_idx] & (0x80u8 >> ((col % 8) as u8)) != 0;
            let v: u8 = if set { 0xFF } else { 0 };
            let ghost b0 = bytes@;
            bytes.push(v);
            bytes.push(v);
            bytes.push(v);
            bytes.push(v);
            proof {
                assert forall|c: int, j: int| 0 <= c < col + 1 && 0 <= j < 4 implies
                    #[trigger] bytes@[4 * c + j] == (if glyph_bit_set(bitmap@, rb as int, row as int, c) { 0xFFu8 } else { 0u8 }) by {
                    if c < col {
                        assert(bytes@[4 * c + j] == b0[4 * c + j]);
                    }
                }
            }
            col = col + 1;
        }
        proof {
            assert(py * FB_PITCH + x * FB_BPP <= 800 * 5120 + 0x4000_0000) by (nonlinear_arith)
                requires py < 800, x <= 0x1000_0000;
        }
        let off = (py * FB_PITCH + x * FB_BPP) as i32;
        out.push(RowWrite { fb_offset: off, bytes });
        row = row + 1;
    }
    out
}

/// Where the glyphs of `text` go, one `(character, x, y)` per glyph drawn:
/// a newline returns to `sx` on the next line, a glyph that would pass the
/// right edge wraps first, and drawing stops at a NUL or at a glyph that
/// would pass the bottom edge.
pub open spec fn layout(text: Seq<u8>, w: int, h: int, sx: int, cx: int, cy: int) -> Seq<(u8, int, int)>
    decreases text.len(),
{
    if text.len() == 0 {
        Seq::empty()
    } else {
        let ch = text[0];
        if ch == 0 {
            Seq::empty()
        } else if ch == 10 {
            layout(text.drop_first(), w, h, sx, sx, cy + h)
        } else {
            let nx = if cx + w > FB_WIDTH { sx } else { cx };
            let ny = if cx + w > FB_WIDTH { cy + h } else { cy };
            if ny + h > FB_HEIGHT {
                Seq::empty()
            } else {
                seq![(ch, nx, ny)] + layout(text.drop_first(), w, h, sx, nx + w, ny)
            }
        }
    }
}

/// Lays out `text` from pixel (`start_x`, `start_y`); the caller draws
/// each glyph at its place.
pub fn draw_text(font: &PsfFont, text: &[u8], start_x: usize, start_y: usize) -> (r: Vec<(u8, usize, usize)>)
    requires
        start_x + 2 * font.width + FB_WIDTH <= usize::MAX,
        start_y + (text@.len() + 2) * font.height <= usize::MAX,
    ensures
        r@.len() == layout(text@, font.width as int, font.height as int, start_x as int, start_x as int, start_y as int).len(),
        forall|i: int| 0 <= i < r@.len() ==> {
            let p = layout(text@, font.width as int, font.height as int, start_x as int, start_x as int, start_y as int)[i];
            &&& (#[trigger] r@[i]).0 == p.0
            &&& r@[i].1 == p.1
            &&& r@[i].2 == p.2
        },
{
    let gw = font.width as usize;
    let gh = font.height as usize;
    let n = text.len();
    let ghost full = layout(text@, gw as int, gh as int, start_x as int, start_x as int, start_y as int);
    let mut cx = start_x;
    let mut cy = start_y;
    let mut out: Vec<(u8, usize, usize)> = Vec::new();
    let mut i: usize = 0;
    proof {
        assert(text@.subrange(0, n as int) =~= text@);
        assert(out@.map_values(|p: (u8, usize, usize)| (p.0, p.1 as int, p.2 as int)) =~= Seq::<(u8, int, int)>::empty());
    }
    while i < n
        invariant_except_break
            0 <= i <= n,
            n == text@.len(),
            gw == font.width,
            gh == font.height,
            start_x + 2 * gw + FB_WIDTH <= usize::MAX,
            start_y + (n + 2) * gh <= usize::MAX,
            cx <= start_x + gw || cx <= FB_WIDTH,
            cy <= start_y + i * gh,
            full == out@.map_values(|p: (u8, usize, usize)| (p.0, p.1 as int, p.2 as int))
                + layout(text@.subrange(i as int, n as int), gw as int, gh as int, start_x as int, cx as int, cy as int),
        ensures
            full == out@.map_values(|p: (u8, usize, usize)| (p.0, p.1 as int, p.2 as int)),
        decreases n - i,
    {
        let ch = text[i];
        let ghost rest = text@.subrange(i as int, n as int);
        proof {
            assert(rest[0] == ch);
            assert(rest.drop_first() =~= text@.subrange(i + 1, n as int));
            assert(i * gh + gh == (i + 1) * gh) by (nonlinear_arith);
            assert((i + 1) * gh <= (n + 2) * gh) by (nonlinear_arith) requires i < n;
        }
        if ch == 0 {
            proof { assert(full =~= out@.map_values(|p: (u8, usize, usize)| (p.0, p.1 as int, p.2 as int))); }
            break;
        }
        if ch == 10 {
            cx = start_x;
            cy = cy + gh;
            i = i + 1;
            continue;
        }
        let mut nx = cx;
        let mut ny = cy;
        if cx + gw > FB_WIDTH {
            nx = start_x;
            ny = cy + gh;
        }
        proof {
            assert((i + 2) * gh <= (n + 2) * gh) by (nonlinear_arith) requires i < n;
            assert(i * gh + 2 * gh == (i + 2) * gh) by (nonlinear_arith);
        }
        if ny + gh > FB_HEIGHT {
            proof { assert(full =~= out@.map_values(|p: (u8, usize, usize)| (p.0, p.1 as int, p.2 as int))); }
            break;
        }
        let ghost before = out@;
        out.push((ch, nx, ny));
        proof {
            let f = |p: (u8, usize, usize)| (p.0, p.1 as int, p.2 as int);
            assert(out@.map_values(f) =~= before.map_values(f).push((ch, nx as int, ny as int)));
            assert(seq![(ch, nx as int, ny as int)] + layout(rest.drop_first(), gw as int, gh as int, start_x as int, nx + gw, ny as int)
                == layout(rest, gw as int, gh as int, start_x as int, cx as int, cy as int));
            assert(full =~= out@.map_values(f) + layout(rest.drop_first(), gw as int, gh as int, start_x as int, nx + gw, ny as int));
        }
        cx = nx + gw;
        cy = ny;
        i = i + 1;
    }
    proof {
        if i == n {
            assert(text@.subrange(n as int, n as int) =~= Seq::<u8>::empty());
            assert(full =~= out@.map_values(|p: (u8, usize, usize)| (p.0, p.1 as int, p.2 as int)));
        }
    }
    out
}

/// Unpacks the text of a draw request (24 bytes, NUL-terminated).
pub fn unpack_text(data: &[u64; 3]) -> (r: [u8; 24])
    ensures
        forall|k: int, i: int| 0 <= k < 3 && 0 <= i < 8 ==> #[trigger] r@[8 * k + i] == byte_of(data@[k], i as nat),
{
    unpack_words(data)
}

/// The next line's y after drawing a line at `cy`: one glyph height
/// down, back to the top margin when the line after would not fit.
pub fn next_line_y(cy: usize, glyph_h: u32) -> (r: usize)
    requires
        cy + 2 * glyph_h <= usize::MAX,
    ensures
        r == (if cy + 2 * glyph_h > FB_HEIGHT { TEXT_MARGIN as int } else { cy + glyph_h }),
{
    let ny = cy + glyph_h as usize;
    if ny + glyph_h as usize > FB_HEIGHT { TEXT_MARGIN } else { ny }
}

} // verus!
