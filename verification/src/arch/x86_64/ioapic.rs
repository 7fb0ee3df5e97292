//! I/O APIC redirection-table programming.
//!
//! The registers are reached through an index/data window; the functions
//! here give the register numbers and values, the caller performs the
//! accesses.

use vstd::prelude::*;
use crate::arch::x86_64::acpi::IsoOverride;

verus! {

/// Identification register.
pub const IOAPICID: u32 = 0x00;
/// Version register (bits 16..23: highest redirection entry).
pub const IOAPICVER: u32 = 0x01;
/// Mask bit of a redirection entry's low word.
pub const RTE_MASKED: u32 = 0x1_0000;
/// Polarity bit: active low.
pub const RTE_ACTIVE_LOW: u32 = 0x2000;
/// Trigger-mode bit: level.
pub const RTE_LEVEL: u32 = 0x8000;

/// One write of `value` to register `reg`.
#[derive(Clone, Copy, PartialEq, Eq, Structural, Debug)]
pub struct RegWrite {
    pub reg: u32,
    pub value: u32,
}

/// Register of the low word of redirection entry `n`.
pub fn rte_low(n: u32) -> (r: u32)
    requires
        n < 0x7FFF_0000,
    ensures
        r == 0x10 + 2 * n,
{
    0x10 + 2 * n
}

/// Register of the high word of redirection entry `n`.
pub fn rte_high(n: u32) -> (r: u32)
    requires
        n < 0x7FFF_0000,
    ensures
        r == 0x11 + 2 * n,
{
    0x11 + 2 * n
}

/// An I/O APIC: the first global system interrupt it serves and its
/// highest redirection entry.
#[derive(Clone, Copy, PartialEq, Eq, Structural, Debug)]
pub struct IoApic {
    pub gsi_base: u32,
    pub max_entries: u32,
}

/// Sets an I/O APIC up from its version register: records its GSI base
/// and highest entry (bits 16..23 of the version).
pub fn init(gsi_base: u32, version: u32) -> (r: IoApic)
    ensures
        r.gsi_base == gsi_base,
        r.max_entries == (version >> 16u32) & 0xFF,
        r.max_entries <= 0xFF,
{
    let max_entries = (version >> 16u32) & 0xFF;
    proof { assert((version >> 16u32) & 0xFF <= 0xFF) by (bit_vector); }
    IoApic { gsi_base, max_entries }
}

/// The low word of an entry after masking it.
pub fn masked(low: u32) -> (r: u32)
    ensures
        r == low | RTE_MASKED,
{
    low | RTE_MASKED
}

/// An override applies to this I/O APIC.
pub fn override_in_range(io: &IoApic, ovr: &IsoOverride) -> (r: bool)
    ensures
        r == (io.gsi_base <= ovr.gsi <= io.gsi_base + io.max_entries),
{
    ovr.gsi >= io.gsi_base && (ovr.gsi - io.gsi_base) <= io.max_entries
}

/// The writes that route `gsi` to `vector` on the processor with APIC id
/// `dest_apic_id`: fixed delivery, edge-triggered, active high, unmasked.
pub fn enable_irq(io: &IoApic, gsi: u32, vector: u8, dest_apic_id: u8) -> (r: [RegWrite; 2])
    requires
        io.gsi_base <= gsi,
        gsi - io.gsi_base <= io.max_entries,
        io.max_entries <= 0xFF,
    ensures
        r[0] == (RegWrite { reg: (0x10 + 2 * (gsi - io.gsi_base)) as u32, value: vector as u32 }),
        r[1] == (RegWrite { reg: (0x11 + 2 * (gsi - io.gsi_base)) as u32, value: (dest_apic_id as u32) << 24u32 }),
{
    let pin = gsi - io.gsi_base;
    let lo = vector as u32;
    let hi = (dest_apic_id as u32) << 24u32;
    [RegWrite { reg: rte_low(pin), value: lo }, RegWrite { reg: rte_high(pin), value: hi }]
}

/// As `enable_irq`, with the given polarity and trigger mode.
pub fn enable_irq_with_flags(
    io: &IoApic,
    gsi: u32,
    vector: u8,
    dest_apic_id: u8,
    active_low: bool,
    level_triggered: bool,
) -> (r: [RegWrite; 2])
    requires
        io.gsi_base <= gsi,
        gsi - io.gsi_base <= io.max_entries,
        io.max_entries <= 0xFF,
    ensures
        r[0] == (RegWrite {
            reg: (0x10 + 2 * (gsi - io.gsi_base)) as u32,
            value: (vector as u32) | (if active_low { RTE_ACTIVE_LOW } else { 0 }) | (if level_triggered { RTE_LEVEL } else { 0 }),
        }),
        r[1] == (RegWrite { reg: (0x11 + 2 * (gsi - io.gsi_base)) as u32, value: (dest_apic_id as u32) << 24u32 }),
{
    let pin = gsi - io.gsi_base;
    let a: u32 = if active_low { RTE_ACTIVE_LOW } else { 0 };
    let l: u32 = if level_triggered { RTE_LEVEL } else { 0 };
    let lo = (vector as u32) | a | l;
    let hi = (dest_apic_id as u32) << 24u32;
    [RegWrite { reg: rte_low(pin), value: lo }, RegWrite { reg: rte_high(pin), value: hi }]
}

/// The write that masks `gsi`, given its current low word.
pub fn mask_irq(io: &IoApic, gsi: u32, current_low: u32) -> (r: RegWrite)
    requires
        io.gsi_base <= gsi,
        gsi - io.gsi_base <= io.max_entries,
        io.max_entries <= 0xFF,
    ensures
        r == (RegWrite { reg: (0x10 + 2 * (gsi - io.gsi_base)) as u32, value: current_low | RTE_MASKED }),
{
    RegWrite { reg: rte_low(gsi - io.gsi_base), value: current_low | RTE_MASKED }
}

} // verus!
