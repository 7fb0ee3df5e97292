use minimalos::actors::ps2::{has_output, key_press_message, MouseAssembler};
use minimalos::actors::sdk::{pack_name, unpack_words, Logger, KEY_EVENT, MOUSE_EVENT};
use minimalos::actors::ui_server::{draw_text, next_line_y, PsfFont};
use minimalos::actors::vfs::{self, find_entry, parse_string_len, unpack_filename, FileEntry};
use minimalos::apps::hello_wasm::{add, guest_greeting};
use minimalos::kdisplay::framebuffer::{draw_pixel, fill_screen, scroll_pixels, xor_cursor, FbGeometry};
use minimalos::kdisplay::{Color, FontError, Psf2Font};
use minimalos::khal::keyboard::{self, handle_scancode, handle_scancode_event, KeyState};
use minimalos::khal::mouse::{handle_byte, is_mouse_status, mouse_config, MousePacket, PacketDecoder};
use minimalos::klog::{log, Level};

#[test]
fn sdk_name_roundtrip() {
    let words = pack_name(b"hello.txt");
    assert_eq!(words[0], u64::from_le_bytes(*b"hello.tx"));
    assert_eq!(words[1], u64::from_le_bytes([b't', 0, 0, 0, 0, 0, 0, 0]));
    assert_eq!(words[2], 0);
    let bytes = unpack_words(&words);
    assert_eq!(&bytes[..9], b"hello.txt");
    assert!(bytes[9..].iter().all(|&b| b == 0));
}

#[test]
fn sdk_long_name_is_cut_to_23_bytes() {
    let name = b"abcdefghijklmnopqrstuvwxyz";
    let bytes = unpack_words(&pack_name(name));
    assert_eq!(&bytes[..23], &name[..23]);
    assert_eq!(bytes[23], 0);
}

#[test]
fn sdk_logger_buffers_and_flushes() {
    let mut l = Logger::new();
    l.write_str("hello ");
    l.write_str("world");
    assert_eq!(l.flush(), b"hello world".to_vec());
    assert!(l.flush().is_empty());
    let long = "x".repeat(300);
    l.write_str(&long);
    assert_eq!(l.flush().len(), 256);
}

#[test]
fn vfs_octal_and_names() {
    assert_eq!(vfs::parse_octal(b"00000000144\0"), 100);
    assert_eq!(vfs::parse_octal(b"17"), 15);
    assert_eq!(parse_string_len(b"abc\0def"), 3);
    assert_eq!(parse_string_len(b"abc"), 3);
    let (bytes, len) = unpack_filename(&pack_name(b"font.psf"));
    assert_eq!(len, 8);
    assert_eq!(&bytes[..8], b"font.psf");
}

fn entry(name: &str, offset: u32, size: u32) -> FileEntry {
    let mut n = [0u8; 100];
    n[..name.len()].copy_from_slice(name.as_bytes());
    FileEntry { name: n, name_len: name.len(), offset, size }
}

#[test]
fn vfs_index_lookup() {
    let files = vec![entry("a.txt", 512, 10), entry("hello", 1536, 20), entry("a.txt", 4096, 30)];
    assert_eq!(find_entry(&files, b"a.txt"), Some(0));
    assert_eq!(find_entry(&files, b"hello"), Some(1));
    assert_eq!(find_entry(&files, b"hell"), None);
    assert_eq!(find_entry(&files, b"missing"), None);
}

#[test]
fn ps2_keyboard_messages() {
    assert!(has_output(0x01));
    assert!(!has_output(0x20));
    let m = key_press_message(0x1E).unwrap();
    assert_eq!(m.label, KEY_EVENT);
    assert_eq!(m.data, [0x1E, 0, 0]);
    assert!(key_press_message(0x9E).is_none());
    assert!(key_press_message(0).is_none());
}

#[test]
fn ps2_mouse_packets() {
    let mut a = MouseAssembler::new();
    // Out of step: dropped.
    assert!(a.push(0x02).is_none());
    assert!(a.push(0x19).is_none());
    assert!(a.push(0xFB).is_none());
    let m = a.push(0x02).unwrap();
    assert_eq!(m.label, MOUSE_EVENT);
    assert_eq!(m.data, [(-5i64) as u64, (-2i64) as u64, 1]);
    assert!(a.push(0x28).is_none());
    assert!(a.push(0x00).is_none());
    let m = a.push(0xFE).unwrap();
    assert_eq!(m.data, [0, 2, 0]);
}

#[test]
fn khal_mouse_decoder() {
    let mut d = PacketDecoder::new();
    assert_eq!(handle_byte(&mut d, 0x00), None);
    assert_eq!(handle_byte(&mut d, 0x3B), None);
    assert_eq!(handle_byte(&mut d, 0xFF), None);
    assert_eq!(handle_byte(&mut d, 0xFE), Some(MousePacket { dx: -1, dy: -2, buttons: 3 }));
    assert_eq!(mouse_config(0x65), 0x47);
    assert!(is_mouse_status(0x21));
    assert!(!is_mouse_status(0x01));
}

#[test]
fn keyboard_decodes_scancodes() {
    let mut kb = Some(keyboard::init());
    assert_eq!(handle_scancode(&mut kb, 0x1E), Some('a'));
    assert_eq!(handle_scancode(&mut kb, 0x9E), None);
    // Shift held gives capitals.
    assert_eq!(handle_scancode(&mut kb, 0x2A), None);
    assert_eq!(handle_scancode(&mut kb, 0x30), Some('B'));
    assert_eq!(handle_scancode(&mut kb, 0xAA), None);
    assert_eq!(handle_scancode(&mut kb, 0x02), Some('1'));
    let mut none = None;
    assert_eq!(handle_scancode(&mut none, 0x1E), None);
}

#[test]
fn klog_line_format() {
    assert_eq!(log(Level::Info, "boot"), "\x1b[32m[ INFO]\x1b[0m boot\n");
    assert_eq!(log(Level::Error, "x"), "\x1b[31m[ERROR]\x1b[0m x\n");
    assert_eq!(Level::Warn.as_str(), " WARN");
}

#[test]
fn ui_text_layout_wraps_lines() {
    let font = PsfFont {
        header_size: 32,
        num_glyph: 256,
        bytes_per_glyph: 16,
        height: 16,
        width: 8,
        mem_cap: 0,
        file_offset: 0,
    };
    let r = draw_text(&font, b"ab\nc", 8, 8);
    assert_eq!(r, vec![(b'a', 8, 8), (b'b', 16, 8), (b'c', 8, 24)]);
    let r = draw_text(&font, b"xy\0z", 1272, 8);
    assert_eq!(r, vec![(b'x', 1272, 8), (b'y', 1272, 24)]);
    assert_eq!(next_line_y(8, 16), 24);
    assert_eq!(next_line_y(780, 16), 8);
}

fn geometry() -> FbGeometry {
    FbGeometry { width: 4, height: 3, stride: 5 }
}

#[test]
fn framebuffer_pixels_and_fill() {
    let g = geometry();
    let mut fb = vec![7u32; 15];
    draw_pixel(&mut fb, g, 1, 2, Color::new(0x12, 0x34, 0x56));
    assert_eq!(fb[2 * 5 + 1], 0xFF12_3456);
    draw_pixel(&mut fb, g, 4, 0, Color::new(1, 1, 1));
    assert_eq!(fb[4], 7);
    fill_screen(&mut fb, g, Color::new(0, 0, 0));
    for y in 0..3 {
        for x in 0..5 {
            assert_eq!(fb[y * 5 + x], if x < 4 { 0xFF00_0000 } else { 7 });
        }
    }
}

#[test]
fn framebuffer_scroll() {
    let g = geometry();
    let mut fb: Vec<u32> = (0..15).collect();
    scroll_pixels(&mut fb, g, 1, 99);
    assert_eq!(&fb[0..4], &[5, 6, 7, 8]);
    assert_eq!(&fb[5..9], &[10, 11, 12, 13]);
    assert_eq!(&fb[10..14], &[99, 99, 99, 99]);
}

#[test]
fn framebuffer_cursor_xor_twice_restores() {
    let g = FbGeometry { width: 40, height: 30, stride: 40 };
    let orig: Vec<u32> = (0..1200u32).map(|i| i.wrapping_mul(2654435761)).collect();
    let mut fb = orig.clone();
    xor_cursor(&mut fb, g, 35, 20);
    assert_ne!(fb, orig);
    xor_cursor(&mut fb, g, 35, 20);
    assert_eq!(fb, orig);
    xor_cursor(&mut fb, g, -100, -100);
    assert_eq!(fb, orig);
}

#[test]
fn hello_guest() {
    assert_eq!(add(2, 40), 42);
    assert_eq!(add(-5, 3), -2);
    assert!(!guest_greeting().is_empty());
}

#[test]
fn font_error_messages() {
    let short = [0u8; 10];
    let e = Psf2Font::from_bytes(&short).err().unwrap();
    assert_eq!(e.message(), "PSF2: data too small");
    let bad = [0u8; 40];
    assert_eq!(Psf2Font::from_bytes(&bad).err().unwrap().message(), "PSF2: invalid magic");
    assert_eq!(FontError::Truncated.message(), "PSF2: truncated glyph data");
}

#[test]
fn keyboard_events_release_on_break_codes() {
    let mut kb = Some(keyboard::init());
    let e = handle_scancode_event(&mut kb, 0x1E).unwrap();
    assert_eq!((e.state, e.scancode), (KeyState::Pressed, 0x1E));
    let e = handle_scancode_event(&mut kb, 0x9E).unwrap();
    assert_eq!((e.state, e.scancode), (KeyState::Released, 0x9E));
    assert!(handle_scancode_event(&mut kb, 0xE0).is_none());
    let e = handle_scancode_event(&mut kb, 0xC8).unwrap();
    assert_eq!(e.state, KeyState::Released);
    let mut none = None;
    assert!(handle_scancode_event(&mut none, 0x1E).is_none());
}
