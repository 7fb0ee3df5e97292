//! PS/2 keyboard events, decoded with the `pc_keyboard` crate (scan code
//! set 1, US 104-key layout).

use vstd::prelude::*;
use pc_keyboard::{layouts, DecodedKey, HandleControl, KeyCode, Keyboard, ScancodeSet1};
use pc_keyboard::KeyEvent as PcKeyEvent;
use pc_keyboard::Error as PcKeyError;

verus! {

/// Interrupt vector of IRQ 1.
pub const KEYBOARD_VECTOR: u8 = 33;

/// The `pc_keyboard` decoder the kernel uses (scan code set 1, US 104-key
/// layout), held opaque: its decoding and modifier state are the crate's
/// own.
#[verifier::external_body]
pub struct Ps2Keyboard {
    kb: Keyboard<layouts::Us104Key, ScancodeSet1>,
}

/// A key as `pc_keyboard` names it.
#[verifier::external_type_specification]
#[verifier::external_body]
pub struct ExKeyCode(KeyCode);

/// A raw press or release from `pc_keyboard`.
#[verifier::external_type_specification]
#[verifier::external_body]
pub struct ExPcKeyEvent(PcKeyEvent);

/// A decoding failure from `pc_keyboard`.
#[verifier::external_type_specification]
#[verifier::external_body]
pub struct ExPcKeyError(PcKeyError);

/// Whether a key went down or up.
#[derive(Clone, Copy, PartialEq, Eq, Structural, Debug)]
pub enum KeyState {
    Pressed,
    Released,
}

/// The state `pc_keyboard` reports for a raw event.
#[derive(Clone, Copy, PartialEq, Eq, Structural, Debug)]
pub enum RawKeyState {
    Up,
    Down,
    SingleShot,
}

/// A decoded key: a character, or a key without one.
#[derive(Clone, Copy, Debug)]
pub enum KeyKind {
    Char(char),
    Raw(KeyCode),
}

/// A key press or release.
#[derive(Clone, Copy, Debug)]
pub struct KeyEvent {
    pub state: KeyState,
    pub key: KeyKind,
    pub scancode: u8,
}

/// `pc_keyboard::Keyboard::new` for scan code set 1, the US 104-key
/// layout, and Ctrl+letter mapped to control characters. Nothing is
/// claimed of the decoder it builds.
#[verifier::external_body]
fn new_us104_keyboard() -> (r: Ps2Keyboard) {
    Ps2Keyboard { kb: Keyboard::new(ScancodeSet1::new(), layouts::Us104Key, HandleControl::MapLettersToUnicode) }
}

/// A raw event with its key code and state read out.
struct RawEvent {
    event: PcKeyEvent,
    code: KeyCode,
    state: RawKeyState,
}

/// `Keyboard::add_byte`: feeds one scan code byte to the decoder's scan
/// code set 1 state machine, and reads the code and state of the event it
/// completes. Whichever state the machine is in (start, after `E0`, after
/// `E1`), an event it returns is a release exactly when the byte is at
/// least `0x80` and a press otherwise; it never returns a single-shot
/// event. Which key, and whether an event comes at all, depend on the
/// bytes fed before and are not stated.
#[verifier::external_body]
fn keyboard_add_byte(kb: &mut Ps2Keyboard, byte: u8) -> (r: Result<Option<RawEvent>, PcKeyError>)
    ensures
        r matches Ok(Some(e)) ==> (e.state == RawKeyState::Up <==> byte >= 0x80) && e.state != RawKeyState::SingleShot,
{
    match kb.kb.add_byte(byte) {
        Ok(Some(ev)) => {
            let state = match ev.state {
                pc_keyboard::KeyState::Up => RawKeyState::Up,
                pc_keyboard::KeyState::Down => RawKeyState::Down,
                pc_keyboard::KeyState::SingleShot => RawKeyState::SingleShot,
            };
            Ok(Some(RawEvent { code: ev.code, state, event: ev }))
        },
        Ok(None) => Ok(None),
        Err(e) => Err(e),
    }
}

/// `Keyboard::process_keyevent`: applies the event to the modifier state
/// and maps it through the layout, as a character or a raw key. It
/// depends on the modifiers held; nothing is claimed of the result.
#[verifier::external_body]
fn keyboard_process(kb: &mut Ps2Keyboard, ev: PcKeyEvent) -> (r: Option<KeyKind>) {
    match kb.kb.process_keyevent(ev) {
        Some(DecodedKey::Unicode(c)) => Some(KeyKind::Char(c)),
        Some(DecodedKey::RawKey(k)) => Some(KeyKind::Raw(k)),
        None => None,
    }
}

/// A fresh decoder.
pub fn init() -> Ps2Keyboard {
    new_us104_keyboard()
}

/// The kernel's state for a raw state: presses and releases; atomic
/// events are not reported.
pub fn key_state_of(raw: RawKeyState) -> (r: Option<KeyState>)
    ensures
        r == match raw {
            RawKeyState::Down => Some(KeyState::Pressed),
            RawKeyState::Up => Some(KeyState::Released),
            RawKeyState::SingleShot => None::<KeyState>,
        },
{
    match raw {
        RawKeyState::Down => Some(KeyState::Pressed),
        RawKeyState::Up => Some(KeyState::Released),
        RawKeyState::SingleShot => None,
    }
}

/// The event reported for a press or release: the layout's decoding when
/// there is one, else the raw key code.
pub fn key_event(state: KeyState, decoded: Option<KeyKind>, code: KeyCode, scancode: u8) -> (r: KeyEvent)
    ensures
        r.state == state,
        r.scancode == scancode,
        decoded matches Some(k) ==> r.key == k,
        decoded is None ==> r.key == KeyKind::Raw(code),
{
    match decoded {
        Some(k) => KeyEvent { state, key: k, scancode },
        None => KeyEvent { state, key: KeyKind::Raw(code), scancode },
    }
}

/// Feeds a scan code to the decoder, when there is one, and reports the
/// completed press or release it yields.
pub fn handle_scancode_event(
    kb: &mut Option<Ps2Keyboard>,
    scancode: u8,
) -> (r: Option<KeyEvent>)
    ensures
        *old(kb) is None ==> r is None,
        r matches Some(e) ==> e.scancode == scancode,
        r matches Some(e) ==> (e.state == KeyState::Released <==> scancode >= 0x80),
{
    match kb {
        None => None,
        Some(k) => {
            match keyboard_add_byte(k, scancode) {
                Ok(Some(raw)) => {
                    match key_state_of(raw.state) {
                        None => None,
                        Some(state) => {
                            let decoded = keyboard_process(k, raw.event);
                            Some(key_event(state, decoded, raw.code, scancode))
                        },
                    }
                },
                _ => None,
            }
        },
    }
}

/// The character a decoded key gives, if any.
pub fn key_char(decoded: Option<KeyKind>) -> (r: Option<char>)
    ensures
        r == match decoded {
            Some(KeyKind::Char(c)) => Some(c),
            _ => None::<char>,
        },
{
    match decoded {
        Some(KeyKind::Char(c)) => Some(c),
        _ => None,
    }
}

/// Feeds a scan code to the decoder, when there is one, and returns the
/// character it completes; a break code (`0x80` and up) completes none.
pub fn handle_scancode(
    kb: &mut Option<Ps2Keyboard>,
    scancode: u8,
) -> (r: Option<char>)
    ensures
        *old(kb) is None ==> r is None,
        scancode >= 0x80 ==> r is None,
{
    match kb {
        None => None,
        Some(k) => {
            match keyboard_add_byte(k, scancode) {
                Ok(Some(raw)) => {
                    // A release only updates the modifiers; it never yields a
                    // character.
                    let decoded = keyboard_process(k, raw.event);
                    if raw.state == RawKeyState::Up { None } else { key_char(decoded) }
                },
                _ => None,
            }
        },
    }
}

/// The PIC mask with IRQ 1 unmasked.
pub fn unmask_keyboard(mask: u8) -> (r: u8)
    ensures
        r == mask & !0x02u8,
{
    mask & !0x02u8
}

} // verus!
