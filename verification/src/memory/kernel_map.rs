//! Page permissions for the kernel image: write XOR execute by section.

use vstd::prelude::*;
use crate::memory::vmm::{self, PageTableFlags, KERNEL_CODE, KERNEL_RODATA, KERNEL_DATA};

verus! {

/// The kernel image section an address lies in.
#[derive(Clone, Copy, PartialEq, Eq, Structural, Debug)]
pub enum Section {
    Text,
    Rodata,
    Data,
    Bss,
    /// Between sections: treated as data.
    Gap,
}

/// The section bounds of the kernel image (start inclusive, end
/// exclusive), as the linker placed them.
#[derive(Clone, Copy, Debug)]
pub struct KernelSections {
    pub text_start: u64,
    pub text_end: u64,
    pub rodata_start: u64,
    pub rodata_end: u64,
    pub data_start: u64,
    pub data_end: u64,
    pub bss_start: u64,
    pub bss_end: u64,
}

/// The raw flags of a section: code is executable and read-only,
/// read-only data is neither writable nor executable, everything else is
/// writable and not executable.
pub open spec fn section_flags(s: Section) -> u64 {
    match s {
        Section::Text => KERNEL_CODE,
        Section::Rodata => KERNEL_RODATA,
        _ => KERNEL_DATA,
    }
}

impl Section {
    /// The page flags for this section.
    pub fn flags(self) -> (r: PageTableFlags)
        ensures
            r.value() == section_flags(self),
    {
        proof { vmm::lemma_flag_bits(0, 0); }
        match self {
            Section::Text => PageTableFlags::from_bits_truncate(KERNEL_CODE),
            Section::Rodata => PageTableFlags::from_bits_truncate(KERNEL_RODATA),
            _ => PageTableFlags::from_bits_truncate(KERNEL_DATA),
        }
    }
}

/// The section of `addr`, checking text, read-only data, data and bss in
/// that order.
pub open spec fn section_of(k: KernelSections, addr: u64) -> Section {
    if k.text_start <= addr < k.text_end {
        Section::Text
    } else if k.rodata_start <= addr < k.rodata_end {
        Section::Rodata
    } else if k.data_start <= addr < k.data_end {
        Section::Data
    } else if k.bss_start <= addr < k.bss_end {
        Section::Bss
    } else {
        Section::Gap
    }
}

/// The section a kernel address lies in.
pub fn classify_page(k: &KernelSections, addr: u64) -> (r: Section)
    ensures
        r == section_of(*k, addr),
{
    if addr >= k.text_start && addr < k.text_end {
        Section::Text
    } else if addr >= k.rodata_start && addr < k.rodata_end {
        Section::Rodata
    } else if addr >= k.data_start && addr < k.data_end {
        Section::Data
    } else if addr >= k.bss_start && addr < k.bss_end {
        Section::Bss
    } else {
        Section::Gap
    }
}

/// The page flags for a kernel address, by the section it lies in.
pub fn classify_flags(
    addr: u64,
    text_start: u64,
    text_end: u64,
    rodata_start: u64,
    rodata_end: u64,
    data_start: u64,
    data_end: u64,
    bss_start: u64,
    bss_end: u64,
) -> (r: PageTableFlags)
    ensures
        r.value() == section_flags(section_of(KernelSections {
            text_start, text_end, rodata_start, rodata_end, data_start, data_end, bss_start, bss_end,
        }, addr)),
{
    let k = KernelSections { text_start, text_end, rodata_start, rodata_end, data_start, data_end, bss_start, bss_end };
    classify_page(&k, addr).flags()
}

/// Write XOR execute: no section's flags are both writable and
/// executable.
pub proof fn lemma_write_xor_execute(k: KernelSections, addr: u64)
    ensures
        ({
            let f = section_flags(section_of(k, addr));
            (f & vmm::WRITABLE != 0) ==> (f & vmm::NO_EXECUTE != 0)
        }),
{
    assert(KERNEL_DATA & vmm::WRITABLE != 0 && KERNEL_DATA & vmm::NO_EXECUTE != 0) by (bit_vector);
    assert(KERNEL_CODE & vmm::WRITABLE == 0) by (bit_vector);
    assert(KERNEL_RODATA & vmm::WRITABLE == 0) by (bit_vector);
}

} // verus!
