//! The boot processor's descriptor table: flat 64-bit code and data
//! segments for both privilege levels and the task state segment.

use vstd::prelude::*;
use crate::arch::gdt::{desc_base, desc_limit, desc_access, lemma_tss_fields};

verus! {

/// Kernel code selector.
pub const KERNEL_CS: u16 = 0x08;
/// Kernel data selector.
pub const KERNEL_DS: u16 = 0x10;
/// User data selector, requested privilege 3.
pub const USER_DS: u16 = 0x1B;
/// User code selector, requested privilege 3.
pub const USER_CS: u16 = 0x23;
/// Task state segment selector.
pub const TSS_SELECTOR: u16 = 0x28;
/// Slots of the table: null, four segments, two for the TSS.
pub const GDT_ENTRY_COUNT: usize = 7;
/// Size of the task state segment in bytes.
pub const TSS_BYTES: u16 = 104;

/// A code or data segment descriptor.
#[derive(Clone, Copy, PartialEq, Eq, Structural, Debug)]
pub struct GdtEntry(pub u64);

/// A 64-bit code segment of privilege `dpl`: long mode, present, code or
/// data, execute/read.
pub open spec fn code64_bits(dpl: u8) -> u64 {
    (1u64 << 53u64) | (1u64 << 47u64) | (((dpl as u64) & 3) << 45u64) | (1u64 << 44u64) | (0xAu64 << 40u64)
}

/// A data segment of privilege `dpl`: present, code or data, read/write.
pub open spec fn data64_bits(dpl: u8) -> u64 {
    (1u64 << 47u64) | (((dpl as u64) & 3) << 45u64) | (1u64 << 44u64) | (0x2u64 << 40u64)
}

/// The fields the processor reads from the segment descriptors.
pub proof fn lemma_segment_fields(dpl: u8)
    by (bit_vector)
    ensures
        (code64_bits(dpl) >> 45u64) & 3 == (dpl as u64) & 3,
        (data64_bits(dpl) >> 45u64) & 3 == (dpl as u64) & 3,
        (code64_bits(dpl) >> 47u64) & 1 == 1,
        (data64_bits(dpl) >> 47u64) & 1 == 1,
        (code64_bits(dpl) >> 53u64) & 1 == 1,
        (data64_bits(dpl) >> 53u64) & 1 == 0,
        (code64_bits(dpl) >> 40u64) & 0xF == 0xA,
        (data64_bits(dpl) >> 40u64) & 0xF == 0x2,
{
}

impl GdtEntry {
    /// The null descriptor.
    pub fn null() -> (r: Self)
        ensures
            r.0 == 0,
    {
        GdtEntry(0)
    }

    /// A 64-bit code segment for privilege level `dpl`.
    pub fn code64(dpl: u8) -> (r: Self)
        ensures
            r.0 == code64_bits(dpl),
    {
        GdtEntry((1u64 << 53u64) | (1u64 << 47u64) | (((dpl as u64) & 3) << 45u64) | (1u64 << 44u64) | (0xAu64 << 40u64))
    }

    /// A data segment for privilege level `dpl`.
    pub fn data64(dpl: u8) -> (r: Self)
        ensures
            r.0 == data64_bits(dpl),
    {
        GdtEntry((1u64 << 47u64) | (((dpl as u64) & 3) << 45u64) | (1u64 << 44u64) | (0x2u64 << 40u64))
    }
}

/// The two-slot descriptor of a task state segment.
#[derive(Clone, Copy, PartialEq, Eq, Structural, Debug)]
pub struct TssDescriptor {
    pub low: u64,
    pub high: u64,
}

impl TssDescriptor {
    /// The descriptor of a TSS at `base` with byte limit `limit`: type
    /// "available 64-bit TSS", present, privilege 0.
    pub fn new(base: u64, limit: u16) -> (r: Self)
        ensures
            desc_base(r.low, r.high) == base,
            desc_limit(r.low) == limit,
            desc_access(r.low) == 0x89,
    {
        let l = limit as u64;
        proof { lemma_tss_fields(base, l); }
        let low = (l & 0xFFFF) | ((base & 0xFFFF) << 16u64) | (((base >> 16u64) & 0xFF) << 32u64)
            | (0x89u64 << 40u64) | (((l >> 16u64) & 0xF) << 48u64) | (((base >> 24u64) & 0xFF) << 56u64);
        let high = base >> 32u64;
        TssDescriptor { low, high }
    }
}

/// The table's slots for a TSS at `tss_base`: null, kernel code, kernel
/// data, user data, user code, then the TSS descriptor's two halves.
pub fn gdt_entries(tss_base: u64) -> (r: [u64; 7])
    ensures
        r@[0] == 0,
        r@[1] == code64_bits(0),
        r@[2] == data64_bits(0),
        r@[3] == data64_bits(3),
        r@[4] == code64_bits(3),
        desc_base(r@[5], r@[6]) == tss_base,
        desc_limit(r@[5]) == TSS_BYTES - 1,
        desc_access(r@[5]) == 0x89,
{
    let tss = TssDescriptor::new(tss_base, TSS_BYTES - 1);
    [GdtEntry::null().0, GdtEntry::code64(0).0, GdtEntry::data64(0).0, GdtEntry::data64(3).0, GdtEntry::code64(3).0, tss.low, tss.high]
}

/// The limit of the table pointer: its size in bytes minus one.
pub open spec fn gdt_limit() -> u16 {
    (GDT_ENTRY_COUNT * 8 - 1) as u16
}

/// Where the double-fault stack starts: its four pages begin at
/// `stack_base`, the lowest is left unmapped as a guard, and the stack
/// grows down from the top of the highest.
pub fn ist1_top(stack_base: u64) -> (r: u64)
    requires
        stack_base + 4 * 4096 <= u64::MAX,
    ensures
        r == stack_base + 4 * 4096,
{
    stack_base + 4 * 4096
}

} // verus!
