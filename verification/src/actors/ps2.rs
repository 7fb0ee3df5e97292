//! The PS/2 drivers: the keyboard driver forwards key presses to the
//! shell; the mouse driver assembles three-byte packets into motion
//! events for the user-interface server.

use vstd::prelude::*;
use crate::actors::sdk::{Message, KEY_EVENT, MOUSE_EVENT};

verus! {

/// The status register holds a byte to read (bit 0).
pub open spec fn output_full(status: u8) -> bool {
    status & 0x01 != 0
}

/// Whether the status byte says a byte waits in the output buffer.
pub fn has_output(status: u8) -> (r: bool)
    ensures
        r == output_full(status),
{
    status & 0x01 != 0
}

/// The message for a scancode read from the keyboard: key presses only
/// (below 0x80, and not zero) are forwarded.
pub fn key_press_message(scancode: u8) -> (r: Option<Message>)
    ensures
        match r {
            Some(m) => {
                &&& 0 < scancode < 0x80
                &&& m.label == KEY_EVENT
                &&& m.data@ == seq![scancode as u64, 0u64, 0u64]
                &&& m.cap_grant == 0 && m.cap_perms == 0
            },
            None => scancode == 0 || scancode >= 0x80,
        },
{
    if scancode < 0x80 && scancode != 0 {
        Some(Message { label: KEY_EVENT, data: [scancode as u64, 0, 0], cap_grant: 0, cap_perms: 0, _pad: 0 })
    } else {
        None
    }
}

/// A mouse packet's horizontal motion: the second byte, negative when
/// bit 4 of the status byte is set.
pub open spec fn packet_dx(p: Seq<u8>) -> i32 {
    if p[0] & 0x10 != 0 { (p[1] as i32 - 256) as i32 } else { p[1] as i32 }
}

/// A mouse packet's vertical motion in screen direction (down is
/// positive): the third byte, negative when bit 5 is set, then negated.
pub open spec fn packet_dy(p: Seq<u8>) -> i32 {
    if p[0] & 0x20 != 0 { (256 - p[2] as i32) as i32 } else { (-(p[2] as i32)) as i32 }
}

/// The buttons of a packet: left in bit 0, right in bit 1.
pub open spec fn packet_buttons(p: Seq<u8>) -> u64 {
    (p[0] & 0x01) as u64 | ((((p[0] & 0x02) as u64) >> 1u64) << 1u64)
}

/// The buttons word of a packet reports the left button (status bit 0) in
/// bit 0 and the right button (status bit 1) in bit 1, and nothing else;
/// the motion is the 9-bit two's-complement value of the sign bit (status
/// bit 4 for x, bit 5 for y) and the motion byte, with y negated so that
/// down is positive.
pub proof fn lemma_packet_buttons(p: Seq<u8>)
    requires
        p.len() == 3,
    ensures
        packet_buttons(p) % 2 == p[0] % 2,
        (packet_buttons(p) / 2) % 2 == (p[0] / 2) % 2,
        packet_buttons(p) < 4,
        packet_dx(p) == p[1] - (if (p[0] / 16) % 2 == 1 { 256int } else { 0 }),
        packet_dy(p) == -(p[2] - (if (p[0] / 32) % 2 == 1 { 256int } else { 0 })),
{
    let s = p[0];
    assert((s & 0x01) as u64 | ((((s & 0x02) as u64) >> 1u64) << 1u64) == (s % 4) as u64
        && (s & 0x10 != 0) == ((s / 16) % 2 == 1) && (s & 0x20 != 0) == ((s / 32) % 2 == 1)) by (bit_vector);
}

/// Collects mouse bytes into packets.
pub struct MouseAssembler {
    packet: [u8; 3],
    count: usize,
}

impl MouseAssembler {
    /// The bytes of the packet collected so far.
    pub closed spec fn pending(&self) -> Seq<u8> {
        self.packet@.take(self.count as int)
    }

    /// Fewer than three bytes are pending.
    pub closed spec fn wf(&self) -> bool {
        self.count < 3 && self.packet@.len() == 3
    }

    /// Nothing collected yet.
    pub fn new() -> (r: Self)
        ensures
            r.wf(),
            r.pending() == Seq::<u8>::empty(),
    {
        MouseAssembler { packet: [0; 3], count: 0 }
    }

    /// Takes one byte. A first byte without bit 3 is out of step and is
    /// dropped. The third byte completes a packet, which is returned as a
    /// motion event (dx, dy, buttons).
    pub fn push(&mut self, data: u8) -> (r: Option<Message>)
        requires
            old(self).wf(),
        ensures
            final(self).wf(),
            old(self).pending().len() == 0 && data & 0x08 == 0 ==> r is None && final(self).pending() == old(self).pending(),
            (old(self).pending().len() > 0 || data & 0x08 != 0) && old(self).pending().len() < 2 ==>
                r is None && final(self).pending() == old(self).pending().push(data),
            old(self).pending().len() == 2 ==> {
                let p = old(self).pending().push(data);
                &&& final(self).pending() == Seq::<u8>::empty()
                &&& r matches Some(m) && m.label == MOUSE_EVENT
                    && m.data@ == seq![packet_dx(p) as u64, packet_dy(p) as u64, packet_buttons(p)]
                    && m.cap_grant == 0 && m.cap_perms == 0
            },
    {
        if self.count == 0 && data & 0x08 == 0 {
            return None;
        }
        let ghost before = self.packet@;
        self.packet[self.count] = data;
        self.count = self.count + 1;
        if self.count < 3 {
            proof { assert(self.pending() =~= old(self).pending().push(data)); }
            return None;
        }
        proof { assert(self.packet@.take(3) =~= old(self).pending().push(data)); }
        let status = self.packet[0];
        let mut dx = self.packet[1] as i32;
        let mut dy = self.packet[2] as i32;
        if status & 0x10 != 0 {
            dx = dx - 256;
        }
        if status & 0x20 != 0 {
            dy = dy - 256;
        }
        dy = -dy;
        let buttons = (status & 0x01) as u64 | ((((status & 0x02) as u64) >> 1u64) << 1u64);
        self.count = 0;
        proof { assert(self.pending() =~= Seq::<u8>::empty()); }
        Some(Message { label: MOUSE_EVENT, data: [dx as u64, dy as u64, buttons], cap_grant: 0, cap_perms: 0, _pad: 0 })
    }
}

} // verus!
