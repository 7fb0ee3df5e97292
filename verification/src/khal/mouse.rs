//! PS/2 mouse: three-byte packet decoding and controller values.

use vstd::prelude::*;

verus! {

/// Left button bit of `MousePacket::buttons`.
pub const BTN_LEFT: u8 = 0x01;
/// Right button bit.
pub const BTN_RIGHT: u8 = 0x02;
/// Middle button bit.
pub const BTN_MIDDLE: u8 = 0x04;
/// Interrupt vector of IRQ 12.
pub const MOUSE_VECTOR: u8 = 44;

/// A decoded movement report.
#[derive(Clone, Copy, PartialEq, Eq, Structural, Debug)]
pub struct MousePacket {
    pub dx: i16,
    pub dy: i16,
    pub buttons: u8,
}

/// The report in three packet bytes: the 9-bit two's-complement moves
/// (sign bits 4 and 5 of the status byte) and the button bits.
pub open spec fn decode_packet(status: u8, b1: u8, b2: u8) -> MousePacket {
    MousePacket {
        dx: if status & 0x10 != 0 { (b1 - 256) as i16 } else { b1 as i16 },
        dy: if status & 0x20 != 0 { (b2 - 256) as i16 } else { b2 as i16 },
        buttons: status & 0x07,
    }
}

/// Assembles packets from the byte stream.
pub struct PacketDecoder {
    buf: [u8; 3],
    index: u8,
}

impl PacketDecoder {
    /// The bytes of the packet in progress.
    pub closed spec fn pending(&self) -> Seq<u8> {
        self.buf@.subrange(0, self.index as int)
    }

    /// At most two bytes are ever pending.
    pub closed spec fn wf(&self) -> bool {
        self.index < 3
    }

    /// A decoder with nothing pending.
    pub fn new() -> (r: Self)
        ensures
            r.wf(),
            r.pending() == Seq::<u8>::empty(),
    {
        let d = PacketDecoder { buf: [0, 0, 0], index: 0 };
        proof { assert(d.pending() =~= Seq::<u8>::empty()); }
        d
    }

    /// Takes one byte. A packet starts only with a byte that has bit 3
    /// set (others are dropped to resynchronise); the third byte completes
    /// it and gives the decoded report.
    pub fn feed(&mut self, byte: u8) -> (r: Option<MousePacket>)
        requires
            old(self).wf(),
        ensures
            final(self).wf(),
            old(self).pending().len() == 0 && byte & 0x08 == 0 ==> r is None && final(self).pending() == old(self).pending(),
            !(old(self).pending().len() == 0 && byte & 0x08 == 0) && old(self).pending().len() < 2
                ==> r is None && final(self).pending() == old(self).pending().push(byte),
            old(self).pending().len() == 2 ==> {
                &&& r == Some(decode_packet(old(self).pending()[0], old(self).pending()[1], byte))
                &&& final(self).pending().len() == 0
            },
    {
        if self.index == 0 && byte & 0x08 == 0 {
            return None;
        }
        let ghost before = self.pending();
        self.buf[self.index as usize] = byte;
        self.index = self.index + 1;
        if self.index < 3 {
            proof { assert(self.pending() =~= before.push(byte)); }
            return None;
        }
        self.index = 0;
        let status = self.buf[0];
        let raw_dx = self.buf[1] as i16;
        let raw_dy = self.buf[2] as i16;
        let dx = if status & 0x10 != 0 { raw_dx - 256 } else { raw_dx };
        let dy = if status & 0x20 != 0 { raw_dy - 256 } else { raw_dy };
        let buttons = status & 0x07;
        proof { assert(self.pending() =~= Seq::<u8>::empty()); }
        Some(MousePacket { dx, dy, buttons })
    }
}

/// Feeds one byte from the mouse to `decoder`; a complete report comes
/// back on every third accepted byte.
pub fn handle_byte(decoder: &mut PacketDecoder, byte: u8) -> (r: Option<MousePacket>)
    requires
        old(decoder).wf(),
    ensures
        final(decoder).wf(),
        old(decoder).pending().len() == 0 && byte & 0x08 == 0 ==> r is None && final(decoder).pending() == old(decoder).pending(),
        !(old(decoder).pending().len() == 0 && byte & 0x08 == 0) && old(decoder).pending().len() < 2
            ==> r is None && final(decoder).pending() == old(decoder).pending().push(byte),
        old(decoder).pending().len() == 2 ==> {
            &&& r == Some(decode_packet(old(decoder).pending()[0], old(decoder).pending()[1], byte))
            &&& final(decoder).pending().len() == 0
        },
{
    decoder.feed(byte)
}

/// The controller configuration byte with the mouse clock enabled and the
/// mouse interrupt on: bit 1 set, bit 5 cleared.
pub fn mouse_config(config: u8) -> (r: u8)
    ensures
        r == (config | 0x02) & !0x20u8,
{
    (config | 0x02) & !0x20u8
}

/// A status byte says "output buffer full, from the mouse".
pub fn is_mouse_status(status: u8) -> (r: bool)
    ensures
        r == (status & 0x21 == 0x21),
{
    status & 0x21 == 0x21
}

} // verus!
