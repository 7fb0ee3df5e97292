//! Register-sized IPC messages carried by endpoints.

use vstd::prelude::*;

verus! {

/// Payload registers per message.
pub const MSG_MAX_REGS: usize = 4;

/// Capability slots per message.
pub const MSG_MAX_CAPS: usize = 4;

/// A message: a label, payload registers and capabilities to transfer.
/// A zero label marks an empty message.
#[derive(Clone, Copy, Debug)]
pub struct IpcMessage {
    /// Operation code; 0 means "no message".
    pub label: u64,
    /// Payload.
    pub regs: [u64; 4],
    /// Slot indices of capabilities to transfer.
    pub caps: [u8; 4],
    /// How many entries of `caps` are used.
    pub cap_count: u8,
}

impl IpcMessage {
    /// The empty message.
    pub fn empty() -> (r: Self)
        ensures
            r.label == 0,
            r.regs@ == seq![0u64, 0u64, 0u64, 0u64],
            r.caps@ == seq![0u8, 0u8, 0u8, 0u8],
            r.cap_count == 0,
    {
        IpcMessage::new(0)
    }

    /// A message with `label` and nothing else.
    pub fn new(label: u64) -> (r: Self)
        ensures
            r.label == label,
            r.regs@ == seq![0u64, 0u64, 0u64, 0u64],
            r.caps@ == seq![0u8, 0u8, 0u8, 0u8],
            r.cap_count == 0,
    {
        let m = IpcMessage { label, regs: [0, 0, 0, 0], caps: [0, 0, 0, 0], cap_count: 0 };
        proof {
            assert(m.regs@ =~= seq![0u64, 0u64, 0u64, 0u64]);
            assert(m.caps@ =~= seq![0u8, 0u8, 0u8, 0u8]);
        }
        m
    }

    /// A message with `label` and payload `regs`, transferring nothing.
    pub fn with_data(label: u64, regs: [u64; 4]) -> (r: Self)
        ensures
            r.label == label,
            r.regs == regs,
            r.caps@ == seq![0u8, 0u8, 0u8, 0u8],
            r.cap_count == 0,
    {
        let m = IpcMessage { label, regs, caps: [0, 0, 0, 0], cap_count: 0 };
        proof { assert(m.caps@ =~= seq![0u8, 0u8, 0u8, 0u8]); }
        m
    }

    /// The label is zero.
    pub fn is_empty(&self) -> (r: bool)
        ensures
            r == (self.label == 0),
    {
        self.label == 0
    }
}

} // verus!
