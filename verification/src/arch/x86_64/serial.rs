//! A 16550 UART driver. The functions decide register writes; the caller
//! performs the port accesses.

use vstd::prelude::*;
use vstd::string::StringSliceAdditionalSpecFns;
use crate::khal::serial::PortWrite;

verus! {

/// I/O base of COM1.
pub const COM1_BASE: u16 = 0x3F8;
/// Data register (divisor low with DLAB set).
pub const DATA_REG: u16 = 0;
/// Interrupt-enable register (divisor high with DLAB set).
pub const INT_ENABLE_REG: u16 = 1;
/// FIFO control register.
pub const FIFO_CTRL_REG: u16 = 2;
/// Line control register.
pub const LINE_CTRL_REG: u16 = 3;
/// Modem control register.
pub const MODEM_CTRL_REG: u16 = 4;
/// Line status register.
pub const LINE_STATUS_REG: u16 = 5;
/// Line status: transmitter empty.
pub const LSR_TX_EMPTY: u8 = 0x20;
/// Line status: a byte has arrived.
pub const LSR_RX_READY: u8 = 0x01;

/// `bytes` with a carriage return before every line feed.
pub open spec fn crlf(bytes: Seq<u8>) -> Seq<u8>
    decreases bytes.len(),
{
    if bytes.len() == 0 {
        Seq::empty()
    } else {
        let head = if bytes[0] == 10 { seq![13u8, 10u8] } else { seq![bytes[0]] };
        head + crlf(bytes.drop_first())
    }
}

/// A UART at an I/O base.
#[derive(Clone, Copy, PartialEq, Eq, Structural, Debug)]
pub struct SerialPort {
    base: u16,
}

impl SerialPort {
    /// The I/O base.
    pub closed spec fn spec_base(&self) -> u16 {
        self.base
    }

    /// The UART at `base`.
    pub fn new(base: u16) -> (r: Self)
        ensures
            r.spec_base() == base,
    {
        SerialPort { base }
    }

    /// Port of register `offset`.
    pub fn port(&self, offset: u16) -> (r: u16)
        requires
            self.spec_base() + offset <= u16::MAX,
        ensures
            r == self.spec_base() + offset,
    {
        self.base + offset
    }

    /// The set-up writes: interrupts off, divisor 1 (115200 baud), 8N1,
    /// FIFOs on, then loopback mode and the test byte 0xAE. The caller
    /// reads the data register back and passes it to `init_finish`.
    pub fn init(&self) -> (r: Vec<PortWrite>)
        requires
            self.spec_base() + 7 <= u16::MAX,
        ensures
            r@ == seq![
                PortWrite { port: (self.spec_base() + 1) as u16, value: 0x00 },
                PortWrite { port: (self.spec_base() + 3) as u16, value: 0x80 },
                PortWrite { port: self.spec_base(), value: 0x01 },
                PortWrite { port: (self.spec_base() + 1) as u16, value: 0x00 },
                PortWrite { port: (self.spec_base() + 3) as u16, value: 0x03 },
                PortWrite { port: (self.spec_base() + 2) as u16, value: 0xC7 },
                PortWrite { port: (self.spec_base() + 4) as u16, value: 0x0B },
                PortWrite { port: (self.spec_base() + 4) as u16, value: 0x1E },
                PortWrite { port: self.spec_base(), value: 0xAE },
            ],
    {
        let mut v: Vec<PortWrite> = Vec::new();
        v.push(PortWrite { port: self.base + INT_ENABLE_REG, value: 0x00 });
        v.push(PortWrite { port: self.base + LINE_CTRL_REG, value: 0x80 });
        v.push(PortWrite { port: self.base + DATA_REG, value: 0x01 });
        v.push(PortWrite { port: self.base + INT_ENABLE_REG, value: 0x00 });
        v.push(PortWrite { port: self.base + LINE_CTRL_REG, value: 0x03 });
        v.push(PortWrite { port: self.base + FIFO_CTRL_REG, value: 0xC7 });
        v.push(PortWrite { port: self.base + MODEM_CTRL_REG, value: 0x0B });
        v.push(PortWrite { port: self.base + MODEM_CTRL_REG, value: 0x1E });
        v.push(PortWrite { port: self.base + DATA_REG, value: 0xAE });
        let ghost b = self.spec_base();
        proof {
            assert(v@ =~= seq![
                PortWrite { port: (b + 1) as u16, value: 0x00 },
                PortWrite { port: (b + 3) as u16, value: 0x80 },
                PortWrite { port: b, value: 0x01 },
                PortWrite { port: (b + 1) as u16, value: 0x00 },
                PortWrite { port: (b + 3) as u16, value: 0x03 },
                PortWrite { port: (b + 2) as u16, value: 0xC7 },
                PortWrite { port: (b + 4) as u16, value: 0x0B },
                PortWrite { port: (b + 4) as u16, value: 0x1E },
                PortWrite { port: b, value: 0xAE },
            ]);
        }
        v
    }

    /// Ends the set-up given the loopback echo: when the test byte came
    /// back, normal operation (modem control 0x0F); otherwise nothing.
    pub fn init_finish(&self, echoed: u8) -> (r: Option<PortWrite>)
        requires
            self.spec_base() + 7 <= u16::MAX,
        ensures
            r == (if echoed == 0xAE {
                Some(PortWrite { port: (self.spec_base() + 4) as u16, value: 0x0F })
            } else {
                None
            }),
    {
        if echoed != 0xAE {
            return None;
        }
        Some(PortWrite { port: self.base + MODEM_CTRL_REG, value: 0x0F })
    }

    /// Sending `byte` given a line-status read: the data-register write
    /// once the transmitter is empty, `None` while it is busy.
    pub fn write_byte(&self, line_status: u8, byte: u8) -> (r: Option<PortWrite>)
        ensures
            r == (if line_status & LSR_TX_EMPTY != 0 {
                Some(PortWrite { port: self.spec_base(), value: byte })
            } else {
                None
            }),
    {
        if line_status & LSR_TX_EMPTY == 0 {
            return None;
        }
        Some(PortWrite { port: self.base + DATA_REG, value: byte })
    }

    /// Whether a byte is waiting, given a line-status read; when it is,
    /// the caller reads the data register.
    pub fn read_byte(&self, line_status: u8) -> (r: bool)
        ensures
            r == (line_status & LSR_RX_READY != 0),
    {
        line_status & LSR_RX_READY != 0
    }

    /// The bytes to transmit for `s`: every line feed preceded by a
    /// carriage return.
    pub fn write_string(&self, s: &str) -> (r: Vec<u8>)
        ensures
            r@ == crlf(s.spec_bytes()),
    {
        let bytes = s.as_bytes();
        let mut out: Vec<u8> = Vec::new();
        let mut i: usize = 0;
        proof {
            assert(bytes@.subrange(0, bytes@.len() as int) =~= bytes@);
            assert(out@ + crlf(bytes@) =~= crlf(bytes@));
        }
        while i < bytes.len()
            invariant
                0 <= i <= bytes@.len(),
                bytes@ == s.spec_bytes(),
                out@ + crlf(bytes@.subrange(i as int, bytes@.len() as int)) == crlf(bytes@),
            decreases bytes@.len() - i,
        {
            let b = bytes[i];
            proof {
                let rest = bytes@.subrange(i as int, bytes@.len() as int);
                assert(rest.drop_first() =~= bytes@.subrange(i + 1, bytes@.len() as int));
            }
            if b == 10 {
                out.push(13);
            }
            out.push(b);
            i = i + 1;
            proof {
                let rest = bytes@.subrange(i - 1, bytes@.len() as int);
                let head = if b == 10 { seq![13u8, 10u8] } else { seq![b] };
                assert(crlf(rest) == head + crlf(rest.drop_first()));
            }
        }
        proof { assert(bytes@.subrange(bytes@.len() as int, bytes@.len() as int) =~= Seq::<u8>::empty()); }
        out
    }
}

} // verus!
