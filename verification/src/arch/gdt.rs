//! The global descriptor table: flat code and data segments for rings 0
//! and 3, and the task state segment.

use vstd::prelude::*;
use crate::arch::tss::TSS_SIZE;

verus! {

/// Descriptors in the table (the TSS descriptor takes two).
pub const GDT_ENTRIES: usize = 7;

/// Ring-0 64-bit code.
pub const KERNEL_CODE_DESCRIPTOR: u64 = 0x002F_9A00_0000_FFFF;
/// Ring-0 data.
pub const KERNEL_DATA_DESCRIPTOR: u64 = 0x000F_9200_0000_FFFF;
/// Ring-3 data.
pub const USER_DATA_DESCRIPTOR: u64 = 0x000F_F200_0000_FFFF;
/// Ring-3 64-bit code.
pub const USER_CODE_DESCRIPTOR: u64 = 0x002F_FA00_0000_FFFF;
/// Available 64-bit TSS, present.
pub const TSS_TYPE: u64 = 0x89;

/// A code or data segment descriptor.
#[derive(Clone, Copy, PartialEq, Eq, Structural, Debug)]
pub struct SegmentDescriptor(u64);

impl SegmentDescriptor {
    /// The raw descriptor.
    pub closed spec fn value(self) -> u64 {
        self.0
    }

    /// The raw descriptor.
    pub fn raw(self) -> (r: u64)
        ensures
            r == self.value(),
    {
        self.0
    }

    /// Ring-0 64-bit code: present, DPL 0, execute/read, long mode.
    pub fn kernel_code() -> (r: Self)
        ensures
            r.value() == KERNEL_CODE_DESCRIPTOR,
    {
        SegmentDescriptor(KERNEL_CODE_DESCRIPTOR)
    }

    /// Ring-0 data: present, DPL 0, read/write.
    pub fn kernel_data() -> (r: Self)
        ensures
            r.value() == KERNEL_DATA_DESCRIPTOR,
    {
        SegmentDescriptor(KERNEL_DATA_DESCRIPTOR)
    }

    /// Ring-3 data: present, DPL 3, read/write.
    pub fn user_data() -> (r: Self)
        ensures
            r.value() == USER_DATA_DESCRIPTOR,
    {
        SegmentDescriptor(USER_DATA_DESCRIPTOR)
    }

    /// Ring-3 64-bit code: present, DPL 3, execute/read, long mode.
    pub fn user_code() -> (r: Self)
        ensures
            r.value() == USER_CODE_DESCRIPTOR,
    {
        SegmentDescriptor(USER_CODE_DESCRIPTOR)
    }
}

/// The base address encoded in a 16-byte system descriptor.
pub open spec fn desc_base(low: u64, high: u64) -> u64 {
    ((low >> 16u64) & 0xFF_FFFF) | (((low >> 56u64) & 0xFF) << 24u64) | (high << 32u64)
}

/// The 20-bit limit encoded in a system descriptor.
pub open spec fn desc_limit(low: u64) -> u64 {
    (low & 0xFFFF) | (((low >> 48u64) & 0xF) << 16u64)
}

/// The access byte of a system descriptor.
pub open spec fn desc_access(low: u64) -> u64 {
    (low >> 40u64) & 0xFF
}

pub proof fn lemma_tss_fields(a: u64, l: u64)
    by (bit_vector)
    requires
        l < 0x10_0000,
    ensures
        ({
            let low = (l & 0xFFFF) | ((a & 0xFFFF) << 16u64) | (((a >> 16u64) & 0xFF) << 32u64)
                | (0x89u64 << 40u64) | (((l >> 16u64) & 0xF) << 48u64) | (((a >> 24u64) & 0xFF) << 56u64);
            let high = a >> 32u64;
            &&& ((low >> 16u64) & 0xFF_FFFF) | (((low >> 56u64) & 0xFF) << 24u64) | (high << 32u64) == a
            &&& (low & 0xFFFF) | (((low >> 48u64) & 0xF) << 16u64) == l
            &&& (low >> 40u64) & 0xFF == 0x89
        }),
{
}

/// The first eight bytes of the descriptor of a TSS at `a`: limit
/// `TSS_SIZE - 1`, base bits 0..32, type "available 64-bit TSS" with the
/// present bit, granularity and the other flags clear.
pub open spec fn tss_low(a: u64) -> u64 {
    let l = (TSS_SIZE - 1) as u64;
    (l & 0xFFFF) | ((a & 0xFFFF) << 16u64) | (((a >> 16u64) & 0xFF) << 32u64)
        | (0x89u64 << 40u64) | (((l >> 16u64) & 0xF) << 48u64) | (((a >> 24u64) & 0xFF) << 56u64)
}

/// The second eight bytes of the descriptor of a TSS at `a`: base bits
/// 32..64, the rest clear.
pub open spec fn tss_high(a: u64) -> u64 {
    a >> 32u64
}

/// The two-slot descriptor of the task state segment.
#[derive(Clone, Copy, PartialEq, Eq, Structural, Debug)]
pub struct TssDescriptor {
    low: u64,
    high: u64,
}

impl TssDescriptor {
    /// The first eight bytes.
    pub closed spec fn spec_low(self) -> u64 {
        self.low
    }

    /// The second eight bytes.
    pub closed spec fn spec_high(self) -> u64 {
        self.high
    }

    /// The descriptor of a TSS at `tss_addr`: base `tss_addr`, limit
    /// `TSS_SIZE - 1`, type "available 64-bit TSS", present.
    pub fn new(tss_addr: u64) -> (r: Self)
        ensures
            r.spec_low() == tss_low(tss_addr),
            r.spec_high() == tss_high(tss_addr),
            desc_base(r.spec_low(), r.spec_high()) == tss_addr,
            desc_limit(r.spec_low()) == TSS_SIZE - 1,
            desc_access(r.spec_low()) == TSS_TYPE,
    {
        let tss_len: u64 = (TSS_SIZE - 1) as u64;
        proof { lemma_tss_fields(tss_addr, tss_len); }
        let mut low: u64 = 0;
        low = low | (tss_len & 0xFFFF);
        low = low | ((tss_addr & 0xFFFF) << 16u64);
        low = low | (((tss_addr >> 16u64) & 0xFF) << 32u64);
        low = low | (0x89u64 << 40u64);
        low = low | (((tss_len >> 16u64) & 0xF) << 48u64);
        low = low | (((tss_addr >> 24u64) & 0xFF) << 56u64);
        let high = tss_addr >> 32u64;
        proof {
            assert(low == (tss_len & 0xFFFF) | ((tss_addr & 0xFFFF) << 16u64) | (((tss_addr >> 16u64) & 0xFF) << 32u64)
                | (0x89u64 << 40u64) | (((tss_len >> 16u64) & 0xF) << 48u64) | (((tss_addr >> 24u64) & 0xFF) << 56u64))
                by (bit_vector)
                requires
                    low == ((((((0u64 | (tss_len & 0xFFFF)) | ((tss_addr & 0xFFFF) << 16u64)) | (((tss_addr >> 16u64) & 0xFF) << 32u64))
                        | (0x89u64 << 40u64)) | (((tss_len >> 16u64) & 0xF) << 48u64)) | (((tss_addr >> 24u64) & 0xFF) << 56u64));
        }
        TssDescriptor { low, high }
    }
}

/// The table: null, kernel code, kernel data, user data, user code and the
/// two halves of the TSS descriptor.
pub struct Gdt {
    entries: [u64; 7],
}

/// The selectors of the table's segments (user selectors carry RPL 3).
#[derive(Clone, Copy, PartialEq, Eq, Structural, Debug)]
pub struct Selectors {
    pub kernel_code: u16,
    pub kernel_data: u16,
    pub user_data: u16,
    pub user_code: u16,
    pub tss: u16,
}

impl Gdt {
    /// The raw descriptors.
    pub closed spec fn spec_entries(&self) -> Seq<u64> {
        self.entries@
    }

    /// Builds the table for a TSS at `tss_addr` and the selectors of its
    /// segments.
    pub fn new(tss_addr: u64) -> (r: (Self, Selectors))
        ensures
            r.0.spec_entries().len() == GDT_ENTRIES,
            r.0.spec_entries()[0] == 0,
            r.0.spec_entries()[1] == KERNEL_CODE_DESCRIPTOR,
            r.0.spec_entries()[2] == KERNEL_DATA_DESCRIPTOR,
            r.0.spec_entries()[3] == USER_DATA_DESCRIPTOR,
            r.0.spec_entries()[4] == USER_CODE_DESCRIPTOR,
            r.0.spec_entries()[5] == tss_low(tss_addr),
            r.0.spec_entries()[6] == tss_high(tss_addr),
            desc_base(r.0.spec_entries()[5], r.0.spec_entries()[6]) == tss_addr,
            desc_limit(r.0.spec_entries()[5]) == TSS_SIZE - 1,
            desc_access(r.0.spec_entries()[5]) == TSS_TYPE,
            r.1 == (Selectors { kernel_code: 0x08, kernel_data: 0x10, user_data: 0x1B, user_code: 0x23, tss: 0x28 }),
    {
        let d = TssDescriptor::new(tss_addr);
        let gdt = Gdt {
            entries: [
                0,
                SegmentDescriptor::kernel_code().raw(),
                SegmentDescriptor::kernel_data().raw(),
                SegmentDescriptor::user_data().raw(),
                SegmentDescriptor::user_code().raw(),
                d.low,
                d.high,
            ],
        };
        let selectors = Selectors {
            kernel_code: 0x08,
            kernel_data: 0x10,
            user_data: 0x18 | 3,
            user_code: 0x20 | 3,
            tss: 0x28,
        };
        proof {
            assert(0x18u16 | 3 == 0x1B && 0x20u16 | 3 == 0x23) by (bit_vector);
        }
        (gdt, selectors)
    }
}

} // verus!
