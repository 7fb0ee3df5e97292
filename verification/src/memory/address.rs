//! Physical and virtual address newtypes.
//!
//! Physical addresses fit in 52 bits. Virtual addresses are canonical:
//! bits 48..63 copy bit 47, so they lie either below
//! `0x0000_8000_0000_0000` (user half) or at/above
//! `0xFFFF_8000_0000_0000` (kernel half).

use vstd::prelude::*;

verus! {

/// Size of a standard page (4 KiB).
pub const PAGE_SIZE: u64 = 4096;

/// Size of a large page (2 MiB).
pub const HUGE_PAGE_SIZE: u64 = 2097152;

/// Bit shift for standard pages (4 KiB = 2^12).
pub const PAGE_SHIFT: u64 = 12;

/// Exclusive upper bound of the physical address space (2^52).
pub const PHYS_ADDR_LIMIT: u64 = 0x0010_0000_0000_0000;

/// First address of the kernel (upper) half.
pub const KERNEL_HALF_START: u64 = 0xFFFF_8000_0000_0000;

/// Exclusive end of the user (lower) half.
pub const USER_HALF_END: u64 = 0x0000_8000_0000_0000;

/// An address is canonical when bits 48..63 all equal bit 47.
pub open spec fn canonical(addr: u64) -> bool {
    addr < USER_HALF_END || addr >= KERNEL_HALF_START
}

/// `v` rounded down to a multiple of 4096.
pub open spec fn align_down_4k(v: int) -> int {
    v - v % 4096
}

/// `v` rounded up to a multiple of 4096.
pub open spec fn align_up_4k(v: int) -> int {
    if v % 4096 == 0 { v } else { v - v % 4096 + 4096 }
}

pub proof fn lemma_mask_low_12(x: u64)
    ensures
        x & !0xFFFu64 == x - x % 4096,
        x & 0xFFFu64 == x % 4096,
{
    assert(x & !0xFFFu64 == x - x % 4096) by (bit_vector);
    assert(x & 0xFFFu64 == x % 4096) by (bit_vector);
}

/// A physical memory address (52 bits wide).
#[derive(Clone, Copy, PartialEq, Eq, Structural, PartialOrd, Ord, Hash, Debug)]
pub struct PhysAddr(pub(crate) u64);

impl PhysAddr {
    /// The raw value.
    pub closed spec fn val(self) -> u64 {
        self.0
    }

    /// Physical addresses are 52 bits wide.
    #[verifier::type_invariant]
    spec fn fits_52_bits(self) -> bool {
        self.0 < PHYS_ADDR_LIMIT
    }

    /// Creates a new physical address; it must fit in 52 bits.
    pub fn new(addr: u64) -> (r: Self)
        requires
            addr < PHYS_ADDR_LIMIT,
        ensures
            r.val() == addr,
    {
        PhysAddr(addr)
    }

    /// Returns the raw value (below 2^52).
    pub fn as_u64(self) -> (r: u64)
        ensures
            r == self.val(),
            r < PHYS_ADDR_LIMIT,
    {
        proof { use_type_invariant(&self); }
        self.0
    }

    /// Converts to the higher-half direct-map virtual address
    /// `self + hhdm_offset`, which must be canonical.
    pub fn to_virt(self, hhdm_offset: u64) -> (r: VirtAddr)
        requires
            self.val() + hhdm_offset <= u64::MAX,
            canonical((self.val() + hhdm_offset) as u64),
        ensures
            r.val() == self.val() + hhdm_offset,
    {
        VirtAddr::new(self.0 + hhdm_offset)
    }

    /// True when the address is a multiple of 4096.
    pub fn is_page_aligned(self) -> (r: bool)
        ensures
            r == (self.val() % 4096 == 0),
    {
        proof { lemma_mask_low_12(self.0); }
        self.0 & 0xFFF == 0
    }

    /// Rounds down to a multiple of 4096.
    pub fn page_align_down(self) -> (r: Self)
        ensures
            r.val() == align_down_4k(self.val() as int),
    {
        proof {
            lemma_mask_low_12(self.0);
            use_type_invariant(&self);
        }
        PhysAddr(self.0 & !0xFFF)
    }

    /// Rounds up to a multiple of 4096; the result must stay below 2^52.
    pub fn page_align_up(self) -> (r: Self)
        requires
            align_up_4k(self.val() as int) < PHYS_ADDR_LIMIT,
        ensures
            r.val() == align_up_4k(self.val() as int),
    {
        proof { use_type_invariant(&self); }
        let x: u64 = self.0 + 0xFFF;
        proof { lemma_mask_low_12(x); }
        PhysAddr(x & !0xFFF)
    }

    /// The zero address.
    pub fn zero() -> (r: Self)
        ensures
            r.val() == 0,
    {
        PhysAddr(0)
    }

    /// True for the zero address.
    pub fn is_zero(self) -> (r: bool)
        ensures
            r == (self.val() == 0),
    {
        self.0 == 0
    }

    /// `self + offset`; the result must stay below 2^52.
    pub fn add_offset(self, offset: u64) -> (r: Self)
        requires
            self.val() + offset < PHYS_ADDR_LIMIT,
        ensures
            r.val() == self.val() + offset,
    {
        PhysAddr::new(self.0 + offset)
    }

    /// `self - offset`; the result must not be negative.
    pub fn sub_offset(self, offset: u64) -> (r: Self)
        requires
            offset <= self.val(),
        ensures
            r.val() == self.val() - offset,
    {
        proof { use_type_invariant(&self); }
        PhysAddr(self.0 - offset)
    }

    /// The distance `self - other` in bytes.
    pub fn distance_from(self, other: PhysAddr) -> (r: u64)
        requires
            other.val() <= self.val(),
        ensures
            r == self.val() - other.val(),
    {
        self.0 - other.0
    }
}

/// A canonical virtual memory address.
#[derive(Clone, Copy, PartialEq, Eq, Structural, PartialOrd, Ord, Hash, Debug)]
pub struct VirtAddr(pub(crate) u64);

impl VirtAddr {
    /// The raw value.
    pub closed spec fn val(self) -> u64 {
        self.0
    }

    /// Two addresses with the same value are the same address.
    pub proof fn lemma_same_val(a: VirtAddr, b: VirtAddr)
        requires
            a.val() == b.val(),
        ensures
            a == b,
    {
    }

    /// The page-table index of level `level` (0 = PT, 3 = PML4).
    pub open spec fn index_at(self, level: int) -> int {
        ((self.val() as int) / pow2_12_9(level)) % 512
    }

    /// Creates a new virtual address; it must be canonical.
    pub fn new(addr: u64) -> (r: Self)
        requires
            canonical(addr),
        ensures
            r.val() == addr,
    {
        VirtAddr(addr)
    }

    /// Returns the raw value.
    pub fn as_u64(self) -> (r: u64)
        ensures
            r == self.val(),
    {
        self.0
    }

    /// True for kernel-half addresses.
    pub fn is_kernel(self) -> (r: bool)
        ensures
            r == (self.val() >= KERNEL_HALF_START),
    {
        self.0 >= 0xFFFF_8000_0000_0000
    }

    /// True for user-half addresses.
    pub fn is_user(self) -> (r: bool)
        ensures
            r == (self.val() < USER_HALF_END),
    {
        self.0 < 0x0000_8000_0000_0000
    }

    /// True when the address is a multiple of 4096.
    pub fn is_page_aligned(self) -> (r: bool)
        ensures
            r == (self.val() % 4096 == 0),
    {
        proof { lemma_mask_low_12(self.0); }
        self.0 & 0xFFF == 0
    }

    /// Rounds down to a multiple of 4096.
    pub fn page_align_down(self) -> (r: Self)
        ensures
            r.val() == align_down_4k(self.val() as int),
    {
        proof { lemma_mask_low_12(self.0); }
        VirtAddr(self.0 & !0xFFF)
    }

    /// Rounds up to a multiple of 4096; the sum must not overflow.
    pub fn page_align_up(self) -> (r: Self)
        requires
            self.val() + 0xFFF <= u64::MAX,
        ensures
            r.val() == align_up_4k(self.val() as int),
    {
        let x: u64 = self.0 + 0xFFF;
        proof { lemma_mask_low_12(x); }
        VirtAddr(x & !0xFFF)
    }

    /// The four 9-bit page-table indices, lowest level (PT) first:
    /// `[bits 12..20, bits 21..29, bits 30..38, bits 39..47]`.
    pub fn page_table_indices(self) -> (r: [u16; 4])
        ensures
            r[0] == self.index_at(0),
            r[1] == self.index_at(1),
            r[2] == self.index_at(2),
            r[3] == self.index_at(3),
    {
        let v = self.0;
        proof { lemma_index_bits(v); }
        [
            ((v >> 12) & 0x1FF) as u16,
            ((v >> 21) & 0x1FF) as u16,
            ((v >> 30) & 0x1FF) as u16,
            ((v >> 39) & 0x1FF) as u16,
        ]
    }

    /// The 12-bit offset within the 4 KiB page.
    pub fn page_offset(self) -> (r: u16)
        ensures
            r == self.val() % 4096,
    {
        proof { lemma_mask_low_12(self.0); }
        (self.0 & 0xFFF) as u16
    }

    /// The zero address.
    pub fn zero() -> (r: Self)
        ensures
            r.val() == 0,
    {
        VirtAddr(0)
    }

    /// `self + offset`; the result must be canonical.
    pub fn add_offset(self, offset: u64) -> (r: Self)
        requires
            self.val() + offset <= u64::MAX,
            canonical((self.val() + offset) as u64),
        ensures
            r.val() == self.val() + offset,
    {
        VirtAddr::new(self.0 + offset)
    }

    /// The distance `self - other` in bytes.
    pub fn distance_from(self, other: VirtAddr) -> (r: u64)
        requires
            other.val() <= self.val(),
        ensures
            r == self.val() - other.val(),
    {
        self.0 - other.0
    }
}

/// 2^(12 + 9 * level) for the four paging levels.
pub open spec fn pow2_12_9(level: int) -> int {
    if level == 0 { 0x1000 }
    else if level == 1 { 0x20_0000 }
    else if level == 2 { 0x4000_0000 }
    else { 0x80_0000_0000 }
}

pub proof fn lemma_index_bits(v: u64)
    ensures
        (v >> 12) & 0x1FF == (v / 0x1000) % 512,
        (v >> 21) & 0x1FF == (v / 0x20_0000) % 512,
        (v >> 30) & 0x1FF == (v / 0x4000_0000) % 512,
        (v >> 39) & 0x1FF == (v / 0x80_0000_0000) % 512,
{
    assert((v >> 12) & 0x1FF == (v / 0x1000) % 512) by (bit_vector);
    assert((v >> 21) & 0x1FF == (v / 0x20_0000) % 512) by (bit_vector);
    assert((v >> 30) & 0x1FF == (v / 0x4000_0000) % 512) by (bit_vector);
    assert((v >> 39) & 0x1FF == (v / 0x80_0000_0000) % 512) by (bit_vector);
}


/// Canonical addresses are told apart by their table indices: equal upper
/// three indices put two of them in one 2 MiB page, and equal indices at
/// all four levels in one 4 KiB page.
proof fn lemma_page_from_index_bits(a: u64, b: u64)
    by (bit_vector)
    requires
        a < 0x8000_0000_0000 || a >= 0xFFFF_8000_0000_0000,
        b < 0x8000_0000_0000 || b >= 0xFFFF_8000_0000_0000,
        (a >> 21) & 0x1FF == (b >> 21) & 0x1FF,
        (a >> 30) & 0x1FF == (b >> 30) & 0x1FF,
        (a >> 39) & 0x1FF == (b >> 39) & 0x1FF,
    ensures
        a / 0x20_0000 == b / 0x20_0000,
        (a >> 12) & 0x1FF == (b >> 12) & 0x1FF ==> a / 0x1000 == b / 0x1000,
{
}

/// Two canonical addresses with the same upper three table indices lie in
/// one 2 MiB page; with the same four, in one 4 KiB page.
pub proof fn lemma_same_indices_same_page(w: VirtAddr, v: VirtAddr)
    requires
        canonical(w.val()),
        canonical(v.val()),
        w.index_at(3) == v.index_at(3),
        w.index_at(2) == v.index_at(2),
        w.index_at(1) == v.index_at(1),
    ensures
        w.val() / 0x20_0000 == v.val() / 0x20_0000,
        w.index_at(0) == v.index_at(0) ==> w.val() / 0x1000 == v.val() / 0x1000,
{
    lemma_index_bits(w.val());
    lemma_index_bits(v.val());
    lemma_page_from_index_bits(w.val(), v.val());
}

} // verus!
