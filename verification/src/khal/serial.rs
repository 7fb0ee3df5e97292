//! The COM1 serial line as the early console drives it.
//!
//! The functions here decide which registers get which values; the
//! caller performs the port accesses.

use vstd::prelude::*;
use vstd::string::StringSliceAdditionalSpecFns;

verus! {

/// I/O base of COM1.
pub const COM1_PORT: u16 = 0x3F8;

/// Line-status bit: the transmit holding register is empty.
pub const LSR_TX_EMPTY: u8 = 0x20;

/// One write of `value` to I/O port `port`.
#[derive(Clone, Copy, PartialEq, Eq, Structural, Debug)]
pub struct PortWrite {
    pub port: u16,
    pub value: u8,
}

/// The byte the loopback test sends.
pub const LOOPBACK_TEST_BYTE: u8 = 0xAE;

/// The register writes that set COM1 up for 115200 baud 8N1 with FIFOs
/// and then put it in loopback mode and send the test byte.
pub open spec fn serial_setup() -> Seq<PortWrite> {
    seq![
        PortWrite { port: 0x3F9, value: 0x00 },
        PortWrite { port: 0x3FB, value: 0x80 },
        PortWrite { port: 0x3F8, value: 0x01 },
        PortWrite { port: 0x3F9, value: 0x00 },
        PortWrite { port: 0x3FB, value: 0x03 },
        PortWrite { port: 0x3FA, value: 0xC7 },
        PortWrite { port: 0x3FC, value: 0x03 },
        PortWrite { port: 0x3FC, value: 0x1E },
        PortWrite { port: 0x3F8, value: 0xAE },
    ]
}

/// The console's serial line.
pub struct Serial {
    initialized: bool,
}

impl Serial {
    /// Whether output is enabled.
    pub closed spec fn spec_initialized(&self) -> bool {
        self.initialized
    }

    /// A line not yet set up (output is dropped).
    pub fn new() -> (r: Self)
        ensures
            !r.spec_initialized(),
    {
        Serial { initialized: false }
    }

    /// The writes that start the set-up, ending with the loopback test
    /// byte; the caller then reads the data register back.
    pub fn init_sequence() -> (r: Vec<PortWrite>)
        ensures
            r@ == serial_setup(),
    {
        let mut v: Vec<PortWrite> = Vec::new();
        v.push(PortWrite { port: COM1_PORT + 1, value: 0x00 });
        v.push(PortWrite { port: COM1_PORT + 3, value: 0x80 });
        v.push(PortWrite { port: COM1_PORT, value: 0x01 });
        v.push(PortWrite { port: COM1_PORT + 1, value: 0x00 });
        v.push(PortWrite { port: COM1_PORT + 3, value: 0x03 });
        v.push(PortWrite { port: COM1_PORT + 2, value: 0xC7 });
        v.push(PortWrite { port: COM1_PORT + 4, value: 0x03 });
        v.push(PortWrite { port: COM1_PORT + 4, value: 0x1E });
        v.push(PortWrite { port: COM1_PORT, value: LOOPBACK_TEST_BYTE });
        proof { assert(v@ =~= serial_setup()); }
        v
    }

    /// Finishes the set-up given the byte read back in loopback mode: when
    /// it echoes the test byte the line leaves loopback mode; either way
    /// output is enabled from now on. Returns the remaining writes.
    pub fn init(&mut self, echoed: u8) -> (r: Vec<PortWrite>)
        ensures
            final(self).spec_initialized(),
            echoed != LOOPBACK_TEST_BYTE ==> r@.len() == 0,
            echoed == LOOPBACK_TEST_BYTE ==> r@ == seq![
                PortWrite { port: 0x3FC, value: 0x0F },
                PortWrite { port: 0x3F9, value: 0x00 },
            ],
    {
        let mut v: Vec<PortWrite> = Vec::new();
        if echoed == LOOPBACK_TEST_BYTE {
            v.push(PortWrite { port: COM1_PORT + 4, value: 0x0F });
            v.push(PortWrite { port: COM1_PORT + 1, value: 0x00 });
            proof {
                assert(v@ =~= seq![
                    PortWrite { port: 0x3FC, value: 0x0F },
                    PortWrite { port: 0x3F9, value: 0x00 },
                ]);
            }
        }
        self.initialized = true;
        v
    }

    /// Sending `byte` once the line status `line_status` has been read:
    /// the data-register write when the transmitter is empty, `None` while
    /// it is busy (poll again) or when the line is not set up.
    pub fn write_byte(&self, line_status: u8, byte: u8) -> (r: Option<PortWrite>)
        ensures
            r == (if self.spec_initialized() && line_status & LSR_TX_EMPTY != 0 {
                Some(PortWrite { port: COM1_PORT, value: byte })
            } else {
                None
            }),
    {
        if self.initialized && line_status & LSR_TX_EMPTY != 0 {
            Some(PortWrite { port: COM1_PORT, value: byte })
        } else {
            None
        }
    }

    /// The bytes to transmit for `s`: all of them once the line is set
    /// up, none before.
    pub fn write_str(&self, s: &str) -> (r: Vec<u8>)
        ensures
            self.spec_initialized() ==> r@ == s.spec_bytes(),
            !self.spec_initialized() ==> r@.len() == 0,
    {
        if !self.initialized {
            return Vec::new();
        }
        vstd::slice::slice_to_vec(s.as_bytes())
    }
}

} // verus!
