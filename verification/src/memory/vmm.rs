//! Four-level x86_64 page tables.
//!
//! Page tables live in physical memory, which the kernel reaches through
//! the higher-half direct map. The walks here take that memory as a slice
//! of entries: the table at physical address `t` (4 KiB aligned) is the
//! 512 entries starting at index `t / 8`. An entry that lies outside the
//! slice reads as non-present.

use vstd::prelude::*;
use crate::memory::address::{PhysAddr, VirtAddr, PHYS_ADDR_LIMIT};
use crate::memory::pmm::{self, BitmapAllocator, frame_of, is_next_fit};

verus! {

/// Entry is valid.
pub const PRESENT: u64 = 0x1;
/// Writes allowed.
pub const WRITABLE: u64 = 0x2;
/// Ring 3 may access.
pub const USER: u64 = 0x4;
/// Write-through caching.
pub const WRITE_THROUGH: u64 = 0x8;
/// Caching disabled.
pub const NO_CACHE: u64 = 0x10;
/// Set by the CPU on access.
pub const ACCESSED: u64 = 0x20;
/// Set by the CPU on write.
pub const DIRTY: u64 = 0x40;
/// 2 MiB page in a PD entry, 1 GiB page in a PDPT entry.
pub const HUGE_PAGE: u64 = 0x80;
/// TLB entry survives CR3 switches.
pub const GLOBAL: u64 = 0x100;
/// Instruction fetches fault.
pub const NO_EXECUTE: u64 = 0x8000_0000_0000_0000;
/// Every defined flag bit.
pub const ALL_FLAGS: u64 = 0x8000_0000_0000_01FF;

/// Kernel code: present, global, executable, read-only.
pub const KERNEL_CODE: u64 = 0x101;
/// Kernel read-only data: present, global, no-execute.
pub const KERNEL_RODATA: u64 = 0x8000_0000_0000_0101;
/// Kernel read-write data: present, global, writable, no-execute.
pub const KERNEL_DATA: u64 = 0x8000_0000_0000_0103;
/// Intermediate (non-leaf) entries: present and writable.
pub const INTERMEDIATE: u64 = 0x3;
/// Intermediate entries on the way to a user page.
pub const INTERMEDIATE_USER: u64 = 0x7;

/// Bits 12..51 of an entry: the physical frame it points to.
pub const ADDR_MASK: u64 = 0x000F_FFFF_FFFF_F000;

/// A set of page-table entry flags (only defined bits are kept).
#[derive(Clone, Copy, PartialEq, Eq, Structural, Debug)]
pub struct PageTableFlags(u64);

impl PageTableFlags {
    /// The raw bits.
    pub closed spec fn value(self) -> u64 {
        self.0
    }

    /// Only defined flag bits are ever set.
    #[verifier::type_invariant]
    spec fn only_defined_bits(self) -> bool {
        self.0 & ALL_FLAGS == self.0
    }

    /// The flags of `bits`, undefined bits dropped.
    pub fn from_bits_truncate(bits: u64) -> (r: Self)
        ensures
            r.value() == bits & ALL_FLAGS,
    {
        proof { lemma_flag_bits(bits, 0); }
        PageTableFlags(bits & ALL_FLAGS)
    }

    /// No flag.
    pub fn empty() -> (r: Self)
        ensures
            r.value() == 0,
    {
        proof { lemma_flag_bits(0, 0); }
        PageTableFlags(0)
    }

    /// The raw bits.
    pub fn bits(self) -> (r: u64)
        ensures
            r == self.value(),
    {
        self.0
    }

    /// Every flag of `other` is set in `self`.
    pub fn contains(self, other: Self) -> (r: bool)
        ensures
            r == (self.value() & other.value() == other.value()),
    {
        self.0 & other.0 == other.0
    }

    /// The flags set in either.
    pub fn union(self, other: Self) -> (r: Self)
        ensures
            r.value() == self.value() | other.value(),
    {
        proof {
            use_type_invariant(self);
            use_type_invariant(other);
            lemma_flag_bits(self.0, other.0);
        }
        PageTableFlags(self.0 | other.0)
    }
}

/// Entry bit tests on raw values.
pub open spec fn raw_present(e: u64) -> bool {
    e & PRESENT != 0
}

pub open spec fn raw_huge(e: u64) -> bool {
    e & HUGE_PAGE != 0
}

pub open spec fn raw_addr(e: u64) -> u64 {
    e & ADDR_MASK
}

/// The raw entry that maps frame `a` with `flags`.
pub open spec fn raw_entry(a: u64, flags: u64) -> u64 {
    (a & ADDR_MASK) | flags
}

pub proof fn lemma_entry_bits(e: u64, a: u64, f: u64)
    by (bit_vector)
    ensures
        e & ADDR_MASK < PHYS_ADDR_LIMIT,
        (e & ADDR_MASK) % 4096 == 0,
        (e & ADDR_MASK) & 0xFFF == 0,
        a % 4096 == 0 && a < PHYS_ADDR_LIMIT ==> ((a & ADDR_MASK) | (f & ALL_FLAGS)) & ADDR_MASK == a,
        ((a & ADDR_MASK) | (f & ALL_FLAGS)) & PRESENT == f & PRESENT,
        ((a & ADDR_MASK) | (f & ALL_FLAGS)) & HUGE_PAGE == f & HUGE_PAGE,
        ((a & ADDR_MASK) | (f & ALL_FLAGS)) & ALL_FLAGS == f & ALL_FLAGS,
        (e & ADDR_MASK) & !0x3FFF_FFFFu64 <= (e & ADDR_MASK),
        (e & ADDR_MASK) & !0x1F_FFFFu64 <= (e & ADDR_MASK),
        ((e & ADDR_MASK) & !0x3FFF_FFFFu64) + (a & 0x3FFF_FFFF) < PHYS_ADDR_LIMIT,
        ((e & ADDR_MASK) & !0x1F_FFFFu64) + (a & 0x1F_FFFF) < PHYS_ADDR_LIMIT,
        (e & ADDR_MASK) + (a & 0xFFF) < PHYS_ADDR_LIMIT,
        a & 0xFFF == a % 4096,
        0u64 & PRESENT == 0,
{
}

pub proof fn lemma_flag_bits(a: u64, b: u64)
    by (bit_vector)
    ensures
        (a & ALL_FLAGS) & ALL_FLAGS == a & ALL_FLAGS,
        (a & ALL_FLAGS == a && b & ALL_FLAGS == b) ==> (a | b) & ALL_FLAGS == a | b,
        0u64 & ALL_FLAGS == 0,
        USER & ALL_FLAGS == USER,
        INTERMEDIATE & ALL_FLAGS == INTERMEDIATE,
        INTERMEDIATE_USER & ALL_FLAGS == INTERMEDIATE_USER,
        KERNEL_CODE & ALL_FLAGS == KERNEL_CODE,
        KERNEL_RODATA & ALL_FLAGS == KERNEL_RODATA,
        KERNEL_DATA & ALL_FLAGS == KERNEL_DATA,
        INTERMEDIATE & PRESENT != 0,
        INTERMEDIATE_USER & PRESENT != 0,
        INTERMEDIATE & HUGE_PAGE == 0,
        INTERMEDIATE_USER & HUGE_PAGE == 0,
        (a % 4096 == 0 && a < PHYS_ADDR_LIMIT && b & ALL_FLAGS == b) ==> {
            &&& ((a & ADDR_MASK) | b) & ADDR_MASK == a
            &&& ((a & ADDR_MASK) | b) & PRESENT == b & PRESENT
            &&& ((a & ADDR_MASK) | b) & HUGE_PAGE == b & HUGE_PAGE
        },
{
}

/// One entry of a page table.
#[derive(Clone, Copy, PartialEq, Eq, Structural, Debug)]
pub struct PageTableEntry(u64);

impl PageTableEntry {
    /// The raw value.
    pub closed spec fn value(self) -> u64 {
        self.0
    }

    /// A non-present, all-zero entry.
    pub fn empty() -> (r: Self)
        ensures
            r.value() == 0,
    {
        PageTableEntry(0)
    }

    /// The raw value.
    pub fn raw(self) -> (r: u64)
        ensures
            r == self.value(),
    {
        self.0
    }

    /// The flag bits of the entry.
    pub fn flags(self) -> (r: PageTableFlags)
        ensures
            r.value() == self.value() & ALL_FLAGS,
    {
        PageTableFlags::from_bits_truncate(self.0)
    }

    /// The frame the entry points to (bits 12..51).
    pub fn addr(self) -> (r: PhysAddr)
        ensures
            r.val() == raw_addr(self.value()),
            r.val() % 4096 == 0,
    {
        proof { lemma_entry_bits(self.0, 0, 0); }
        PhysAddr::new(self.0 & ADDR_MASK)
    }

    /// The PRESENT bit.
    pub fn is_present(self) -> (r: bool)
        ensures
            r == raw_present(self.value()),
    {
        self.0 & PRESENT != 0
    }

    /// The HUGE_PAGE bit.
    pub fn is_huge(self) -> (r: bool)
        ensures
            r == raw_huge(self.value()),
    {
        self.0 & HUGE_PAGE != 0
    }

    /// All bits zero.
    pub fn is_empty(self) -> (r: bool)
        ensures
            r == (self.value() == 0),
    {
        self.0 == 0
    }

    /// Points the entry at the page-aligned frame `addr` with `flags`.
    pub fn set(&mut self, addr: PhysAddr, flags: PageTableFlags)
        requires
            addr.val() % 4096 == 0,
        ensures
            final(self).value() == raw_entry(addr.val(), flags.value()),
    {
        self.0 = (addr.as_u64() & ADDR_MASK) | flags.bits();
    }

    /// Makes the entry all zero (non-present).
    pub fn clear(&mut self)
        ensures
            final(self).value() == 0,
    {
        self.0 = 0;
    }
}

/// One 4 KiB page table: 512 entries.
pub struct PageTable {
    entries: [PageTableEntry; 512],
}

impl PageTable {
    /// The entries.
    pub closed spec fn view_entries(&self) -> Seq<PageTableEntry> {
        self.entries@
    }

    /// A table of non-present entries.
    pub fn new() -> (r: Self)
        ensures
            r.view_entries().len() == 512,
            forall|i: int| 0 <= i < 512 ==> (#[trigger] r.view_entries()[i]).value() == 0,
    {
        PageTable { entries: [PageTableEntry(0); 512] }
    }

    /// Entry `index`.
    pub fn entry(&self, index: usize) -> (r: &PageTableEntry)
        requires
            index < 512,
        ensures
            *r == self.view_entries()[index as int],
    {
        &self.entries[index]
    }

    /// Replaces entry `index`.
    pub fn entry_mut(&mut self, index: usize, e: PageTableEntry)
        requires
            index < 512,
        ensures
            final(self).view_entries() == old(self).view_entries().update(index as int, e),
    {
        self.entries[index] = e;
    }

    /// Makes every entry non-present.
    pub fn zero(&mut self)
        ensures
            final(self).view_entries().len() == 512,
            forall|i: int| 0 <= i < 512 ==> (#[trigger] final(self).view_entries()[i]).value() == 0,
    {
        let mut i: usize = 0;
        while i < 512
            invariant
                0 <= i <= 512,
                self.entries@.len() == 512,
                forall|k: int| 0 <= k < i ==> (#[trigger] self.entries@[k]).value() == 0,
            decreases 512 - i,
        {
            self.entries[i] = PageTableEntry(0);
            i = i + 1;
        }
    }

    /// All entries, in index order.
    pub fn iter(&self) -> (r: &[PageTableEntry])
        ensures
            r@ == self.view_entries(),
    {
        self.entries.as_slice()
    }
}

/// Why a mapping failed.
#[derive(Clone, Copy, PartialEq, Eq, Structural, Debug)]
pub enum MapError {
    /// The page is already mapped.
    AlreadyMapped,
    /// No free frame for a new page table.
    OutOfMemory,
    /// A huge page covers the address at an intermediate level.
    HugePageConflict,
}

/// Why an unmapping failed.
#[derive(Clone, Copy, PartialEq, Eq, Structural, Debug)]
pub enum UnmapError {
    /// The page is not mapped.
    NotMapped,
    /// A huge page covers the address at an intermediate level.
    HugePageConflict,
}

/// The word index of entry `idx` of the table at physical address `table`.
pub open spec fn slot(table: u64, idx: int) -> int {
    table as int / 8 + idx
}

/// The raw entry `idx` of the table at `table`; zero outside memory.
pub open spec fn read_entry(mem: Seq<PageTableEntry>, table: u64, idx: int) -> u64 {
    if 0 <= slot(table, idx) < mem.len() {
        mem[slot(table, idx)].value()
    } else {
        0
    }
}

/// The translation of `v` through the tables rooted at `root`: the
/// physical address, or `None` when some level is not present. Huge
/// pages at the PDPT (1 GiB) and PD (2 MiB) levels are honoured.
#[verifier::opaque]
pub open spec fn spec_translate(mem: Seq<PageTableEntry>, root: u64, v: VirtAddr) -> Option<u64> {
    let e4 = read_entry(mem, root, v.index_at(3));
    if !raw_present(e4) {
        None
    } else {
        let e3 = read_entry(mem, raw_addr(e4), v.index_at(2));
        if !raw_present(e3) {
            None
        } else if raw_huge(e3) {
            Some(((raw_addr(e3) & !0x3FFF_FFFFu64) + (v.val() & 0x3FFF_FFFF)) as u64)
        } else {
            let e2 = read_entry(mem, raw_addr(e3), v.index_at(1));
            if !raw_present(e2) {
                None
            } else if raw_huge(e2) {
                Some(((raw_addr(e2) & !0x1F_FFFFu64) + (v.val() & 0x1F_FFFF)) as u64)
            } else {
                let e1 = read_entry(mem, raw_addr(e2), v.index_at(0));
                if !raw_present(e1) {
                    None
                } else {
                    Some((raw_addr(e1) + v.val() % 4096) as u64)
                }
            }
        }
    }
}

/// Reads entry `idx` of the table at `table` (zero outside memory).
fn read_table_entry(mem: &[PageTableEntry], table: PhysAddr, idx: usize) -> (r: PageTableEntry)
    requires
        idx < 512,
    ensures
        r.value() == read_entry(mem@, table.val(), idx as int),
{
    let s = table.as_u64() / 8;
    if s < mem.len() as u64 && (idx as u64) < mem.len() as u64 - s {
        mem[(s + idx as u64) as usize]
    } else {
        PageTableEntry(0)
    }
}

/// Translates `virt` through the tables rooted at `pml4_phys`, honouring
/// 1 GiB and 2 MiB pages; `None` when the address is not mapped.
pub fn translate(mem: &[PageTableEntry], pml4_phys: PhysAddr, virt: VirtAddr) -> (r: Option<PhysAddr>)
    ensures
        match r {
            Some(p) => spec_translate(mem@, pml4_phys.val(), virt) == Some(p.val()),
            None => spec_translate(mem@, pml4_phys.val(), virt) is None,
        },
{
    proof { reveal(spec_translate); }
    let indices = virt.page_table_indices();
    let v = virt.as_u64();
    let e4 = read_table_entry(mem, pml4_phys, indices[3] as usize);
    if !e4.is_present() {
        return None;
    }
    let e3 = read_table_entry(mem, e4.addr(), indices[2] as usize);
    if !e3.is_present() {
        return None;
    }
    if e3.is_huge() {
        proof { lemma_entry_bits(e3.value(), v, 0); }
        return Some(PhysAddr::new((e3.addr().as_u64() & !0x3FFF_FFFFu64) + (v & 0x3FFF_FFFF)));
    }
    let e2 = read_table_entry(mem, e3.addr(), indices[1] as usize);
    if !e2.is_present() {
        return None;
    }
    if e2.is_huge() {
        proof { lemma_entry_bits(e2.value(), v, 0); }
        return Some(PhysAddr::new((e2.addr().as_u64() & !0x1F_FFFFu64) + (v & 0x1F_FFFF)));
    }
    let e1 = read_table_entry(mem, e2.addr(), indices[0] as usize);
    if !e1.is_present() {
        return None;
    }
    let off = virt.page_offset() as u64;
    proof { lemma_entry_bits(e1.value(), v, 0); }
    Some(PhysAddr::new(e1.addr().as_u64() + off))
}

/// Where unmapping `v` acts: the word index of its 4 KiB leaf entry and
/// the frame that entry maps, or why there is none.
pub open spec fn spec_unmap(mem: Seq<PageTableEntry>, root: u64, v: VirtAddr) -> Result<(int, u64), UnmapError> {
    let e4 = read_entry(mem, root, v.index_at(3));
    let e3 = read_entry(mem, raw_addr(e4), v.index_at(2));
    let e2 = read_entry(mem, raw_addr(e3), v.index_at(1));
    let e1 = read_entry(mem, raw_addr(e2), v.index_at(0));
    if !raw_present(e4) || !raw_present(e3) {
        Err(UnmapError::NotMapped)
    } else if raw_huge(e3) {
        Err(UnmapError::HugePageConflict)
    } else if !raw_present(e2) {
        Err(UnmapError::NotMapped)
    } else if raw_huge(e2) {
        Err(UnmapError::HugePageConflict)
    } else if !raw_present(e1) {
        Err(UnmapError::NotMapped)
    } else {
        Ok((slot(raw_addr(e2), v.index_at(0)), raw_addr(e1)))
    }
}

/// Offsets within one 4 KiB page carry through the address arithmetic of
/// a 1 GiB, 2 MiB or 4 KiB translation.
proof fn lemma_same_page_bits(a3: u64, a2: u64, v: u64, w: u64)
    by (bit_vector)
    requires
        v % 4096 == 0,
        w / 4096 == v / 4096,
    ensures
        w % 4096 == w - v,
        (((a3 & !0x3FFF_FFFFu64) + (w & 0x3FFF_FFFF)) as u64)
            == ((((a3 & !0x3FFF_FFFFu64) + (v & 0x3FFF_FFFF)) as u64 + w % 4096) as u64),
        (((a2 & !0x1F_FFFFu64) + (w & 0x1F_FFFF)) as u64)
            == ((((a2 & !0x1F_FFFFu64) + (v & 0x1F_FFFF)) as u64 + w % 4096) as u64),
{
}

/// Two addresses of one 4 KiB page index the same entries at every level.
proof fn lemma_same_page_indices(v: VirtAddr, w: VirtAddr)
    requires
        w.val() / 4096 == v.val() / 4096,
    ensures
        forall|l: int| 0 <= l < 4 ==> #[trigger] w.index_at(l) == v.index_at(l),
{
    assert forall|l: int| 0 <= l < 4 implies #[trigger] w.index_at(l) == v.index_at(l) by {
        let m: int = if l == 0 { 1 } else if l == 1 { 512 } else if l == 2 { 0x4_0000 } else { 0x800_0000 };
        assert(crate::memory::address::pow2_12_9(l) == 4096 * m);
        vstd::arithmetic::div_mod::lemma_div_denominator(w.val() as int, 4096, m);
        vstd::arithmetic::div_mod::lemma_div_denominator(v.val() as int, 4096, m);
    }
}

/// Whatever maps a page-aligned address, every address in its 4 KiB page
/// translates to the same frame plus its offset in the page: after
/// `map_page` maps `v` to `phys`, byte `o` of the page reads byte `o` of
/// the frame.
pub proof fn lemma_translate_same_page(mem: Seq<PageTableEntry>, root: u64, v: VirtAddr, w: VirtAddr)
    requires
        v.val() % 4096 == 0,
        w.val() / 4096 == v.val() / 4096,
        spec_translate(mem, root, v) is Some,
    ensures
        spec_translate(mem, root, w) == Some((spec_translate(mem, root, v)->0 + w.val() % 4096) as u64),
{
    reveal(spec_translate);
    lemma_same_page_indices(v, w);
    let e4 = read_entry(mem, root, v.index_at(3));
    let e3 = read_entry(mem, raw_addr(e4), v.index_at(2));
    let e2 = read_entry(mem, raw_addr(e3), v.index_at(1));
    lemma_same_page_bits(raw_addr(e3), raw_addr(e2), v.val(), w.val());
}

/// The frame `unmap_page` hands back is the one the page translated to
/// (and `unmap_page` leaves the page untranslated).
pub proof fn lemma_unmap_translation(mem: Seq<PageTableEntry>, root: u64, v: VirtAddr)
    requires
        v.val() % 4096 == 0,
        spec_unmap(mem, root, v) is Ok,
    ensures
        spec_translate(mem, root, v) == Some(spec_unmap(mem, root, v)->Ok_0.1),
{
    reveal(spec_translate);
}

/// Removes the 4 KiB mapping of `virt` from the tables rooted at
/// `pml4_phys` and returns the frame it mapped; the frame itself is not
/// freed. Fails when the page is not mapped or lies in a huge page.
pub fn unmap_page(mem: &mut [PageTableEntry], pml4_phys: PhysAddr, virt: VirtAddr) -> (r: Result<PhysAddr, UnmapError>)
    ensures
        match spec_unmap(old(mem)@, pml4_phys.val(), virt) {
            Ok((s, a)) => {
                &&& r matches Ok(p) && p.val() == a
                &&& final(mem)@.len() == old(mem)@.len()
                &&& final(mem)@[s].value() == 0
                &&& forall|k: int| 0 <= k < old(mem)@.len() && k != s ==> final(mem)@[k] == old(mem)@[k]
            },
            Err(e) => r == Err::<PhysAddr, UnmapError>(e) && final(mem)@ == old(mem)@,
        },
        r is Ok ==> spec_translate(final(mem)@, pml4_phys.val(), virt) is None,
        forall|fr: Seq<bool>| tables_ok(old(mem)@, pml4_phys.val(), fr) ==> #[trigger] tables_ok(final(mem)@, pml4_phys.val(), fr),
{
    proof { reveal(spec_translate); }
    let indices = virt.page_table_indices();
    let e4 = read_table_entry(mem, pml4_phys, indices[3] as usize);
    if !e4.is_present() {
        return Err(UnmapError::NotMapped);
    }
    let e3 = read_table_entry(mem, e4.addr(), indices[2] as usize);
    if !e3.is_present() {
        return Err(UnmapError::NotMapped);
    }
    if e3.is_huge() {
        return Err(UnmapError::HugePageConflict);
    }
    let e2 = read_table_entry(mem, e3.addr(), indices[1] as usize);
    if !e2.is_present() {
        return Err(UnmapError::NotMapped);
    }
    if e2.is_huge() {
        return Err(UnmapError::HugePageConflict);
    }
    let pt = e2.addr();
    let e1 = read_table_entry(mem, pt, indices[0] as usize);
    if !e1.is_present() {
        return Err(UnmapError::NotMapped);
    }
    let phys = e1.addr();
    proof { lemma_entry_bits(0, 0, 0); }
    let s = (pt.as_u64() / 8 + indices[0] as u64) as usize;
    let ghost m0 = mem@;
    mem[s] = PageTableEntry(0);
    proof {
        assert forall|fr: Seq<bool>| tables_ok(m0, pml4_phys.val(), fr) implies #[trigger] tables_ok(mem@, pml4_phys.val(), fr) by {
            let l = choose|l: Map<int, int>| levels_ok(m0, pml4_phys.val(), fr, l);
            lemma_levels_write(m0, pml4_phys.val(), fr, l, s as int, PageTableEntry(0));
        }
        let m1 = mem@;
        let root = pml4_phys.val();
        assert(m1 == m0.update(s as int, PageTableEntry(0)));
        let p4 = slot(root, virt.index_at(3));
        let p3 = slot(raw_addr(e4.value()), virt.index_at(2));
        let p2 = slot(raw_addr(e3.value()), virt.index_at(1));
        if s as int != p4 {
            assert(read_entry(m1, root, virt.index_at(3)) == read_entry(m0, root, virt.index_at(3)));
            if s as int != p3 {
                assert(read_entry(m1, raw_addr(e4.value()), virt.index_at(2)) == read_entry(m0, raw_addr(e4.value()), virt.index_at(2)));
                if s as int != p2 {
                    assert(read_entry(m1, raw_addr(e3.value()), virt.index_at(1)) == read_entry(m0, raw_addr(e3.value()), virt.index_at(1)));
                }
            }
        }
    }
    Ok(phys)
}

/// Number of untracked-as-used frames.
pub open spec fn free_frames(frames: Seq<bool>) -> int {
    frames.len() - pmm::count_true(frames)
}

/// The 512 entries of frame `f` are zero in `m`.
pub open spec fn frame_zeroed(m: Seq<PageTableEntry>, f: int) -> bool {
    forall|k: int| f * 512 <= k < f * 512 + 512 ==> (#[trigger] m[k]).value() == 0
}

/// Allocates a frame for a new page table and zeroes it in `mem`.
/// `None` when every frame is in use.
pub fn new_table(mem: &mut [PageTableEntry], pmm: &mut BitmapAllocator) -> (r: Option<PhysAddr>)
    requires
        old(pmm).wf(),
        old(pmm).total() * 512 <= old(mem)@.len(),
    ensures
        final(pmm).wf(),
        final(pmm).total() == old(pmm).total(),
        final(mem)@.len() == old(mem)@.len(),
        match r {
            Some(a) => {
                &&& a.val() % 4096 == 0
                &&& is_next_fit(old(pmm).frames(), old(pmm).cursor() / 64, frame_of(a))
                &&& final(pmm).frames() == old(pmm).frames().update(frame_of(a), true)
                &&& frame_zeroed(final(mem)@, frame_of(a))
                &&& forall|k: int| 0 <= k < old(mem)@.len() && !(frame_of(a) * 512 <= k < frame_of(a) * 512 + 512)
                    ==> final(mem)@[k] == old(mem)@[k]
            },
            None => {
                &&& forall|i: int| 0 <= i < old(pmm).frames().len() ==> #[trigger] old(pmm).frames()[i]
                &&& final(pmm).frames() == old(pmm).frames()
                &&& final(mem)@ == old(mem)@
            },
        },
{
    proof { old(pmm).lemma_wf_bounds(); }
    let r = pmm::alloc_frame(pmm);
    match r {
        Some(a) => {
            let ghost f = frame_of(a);
            let mlen = mem.len();
            proof {
                assert(a.val() == f * 4096);
                assert(a.val() / 8 == f * 512);
                let t = old(pmm).total();
                let n = mem@.len() as int;
                assert(0 <= f < t);
                assert(f * 512 + 512 <= n) by (nonlinear_arith)
                    requires 0 <= f < t, t * 512 <= n;
            }
            let base = (a.as_u64() / 8) as usize;
            let ghost m0 = mem@;
            let mut i: usize = 0;
            while i < 512
                invariant
                    0 <= i <= 512,
                    base == f * 512,
                    base + 512 <= mem@.len(),
                    mem@.len() == m0.len(),
                    forall|k: int| base <= k < base + i ==> (#[trigger] mem@[k]).value() == 0,
                    forall|k: int| 0 <= k < m0.len() && !(base <= k < base + i) ==> mem@[k] == m0[k],
                decreases 512 - i,
            {
                mem[base + i] = PageTableEntry(0);
                i = i + 1;
            }
            Some(a)
        },
        None => None,
    }
}

/// Entry `idx` of `table` points at a next-level table: when it is
/// present, that table; otherwise a new zeroed table from the frame
/// allocator, which the entry is set to with `flags`.
fn get_or_create_next_table(
    mem: &mut [PageTableEntry],
    pmm: &mut BitmapAllocator,
    table: PhysAddr,
    idx: usize,
    flags: PageTableFlags,
) -> (r: Result<PhysAddr, MapError>)
    requires
        old(pmm).wf(),
        old(pmm).total() * 512 <= old(mem)@.len(),
        idx < 512,
        slot(table.val(), idx as int) < old(mem)@.len(),
    ensures
        final(pmm).wf(),
        final(pmm).total() == old(pmm).total(),
        final(mem)@.len() == old(mem)@.len(),
        raw_present(read_entry(old(mem)@, table.val(), idx as int)) ==> {
            &&& r matches Ok(t) && t.val() == raw_addr(read_entry(old(mem)@, table.val(), idx as int))
                && t.val() % 4096 == 0 && t.val() < PHYS_ADDR_LIMIT
            &&& final(mem)@ == old(mem)@
            &&& final(pmm).frames() == old(pmm).frames()
        },
        !raw_present(read_entry(old(mem)@, table.val(), idx as int)) ==> match r {
            Ok(t) => {
                &&& t.val() % 4096 == 0
                &&& t.val() < PHYS_ADDR_LIMIT
                &&& is_next_fit(old(pmm).frames(), old(pmm).cursor() / 64, frame_of(t))
                &&& final(pmm).frames() == old(pmm).frames().update(frame_of(t), true)
                &&& final(mem)@[slot(table.val(), idx as int)].value() == raw_entry(t.val(), flags.value())
                &&& forall|k: int| frame_of(t) * 512 <= k < frame_of(t) * 512 + 512 && k != slot(table.val(), idx as int)
                    ==> (#[trigger] final(mem)@[k]).value() == 0
                &&& forall|k: int| 0 <= k < old(mem)@.len() && k != slot(table.val(), idx as int)
                    && !(frame_of(t) * 512 <= k < frame_of(t) * 512 + 512) ==> final(mem)@[k] == old(mem)@[k]
            },
            Err(e) => {
                &&& e == MapError::OutOfMemory
                &&& forall|i: int| 0 <= i < old(pmm).frames().len() ==> #[trigger] old(pmm).frames()[i]
                &&& final(pmm).frames() == old(pmm).frames()
                &&& final(mem)@ == old(mem)@
            },
        },
{
    let e = read_table_entry(mem, table, idx);
    if e.is_present() {
        let a = e.addr();
        let _ = a.as_u64();
        Ok(a)
    } else {
        match new_table(mem, pmm) {
            Some(frame) => {
                let _ = frame.as_u64();
                let s = (table.as_u64() / 8 + idx as u64) as usize;
                let mut ne = PageTableEntry(0);
                ne.set(frame, flags);
                let ghost m1 = mem@;
                mem[s] = ne;
                proof {
                    let sl = slot(table.val(), idx as int);
                    old(pmm).lemma_wf_bounds();
                    let f = frame_of(frame);
                    let t = old(pmm).total();
                    let n = m1.len() as int;
                    assert(f * 512 + 512 <= n) by (nonlinear_arith)
                        requires 0 <= f < t, t * 512 <= n;
                    assert(s == sl);
                    assert(mem@ == m1.update(sl, ne));
                    assert(mem@[sl].value() == raw_entry(frame.val(), flags.value()));
                    assert forall|k: int| frame_of(frame) * 512 <= k < frame_of(frame) * 512 + 512 && k != sl
                        implies (#[trigger] mem@[k]).value() == 0 by {
                        assert(m1[k].value() == 0);
                    }
                }
                Ok(frame)
            },
            None => Err(MapError::OutOfMemory),
        }
    }
}

/// Why mapping `v` cannot succeed whatever memory is free: a huge page on
/// the walk, or a present leaf.
pub open spec fn map_conflict(mem: Seq<PageTableEntry>, root: u64, v: VirtAddr) -> Option<MapError> {
    let e4 = read_entry(mem, root, v.index_at(3));
    let e3 = read_entry(mem, raw_addr(e4), v.index_at(2));
    let e2 = read_entry(mem, raw_addr(e3), v.index_at(1));
    let e1 = read_entry(mem, raw_addr(e2), v.index_at(0));
    if !raw_present(e4) || !raw_present(e3) {
        None
    } else if raw_huge(e3) {
        Some(MapError::HugePageConflict)
    } else if !raw_present(e2) {
        None
    } else if raw_huge(e2) {
        Some(MapError::HugePageConflict)
    } else if raw_present(e1) {
        Some(MapError::AlreadyMapped)
    } else {
        None
    }
}

/// How many tables mapping `v` must create.
pub open spec fn tables_needed(mem: Seq<PageTableEntry>, root: u64, v: VirtAddr) -> int {
    let e4 = read_entry(mem, root, v.index_at(3));
    let e3 = read_entry(mem, raw_addr(e4), v.index_at(2));
    let e2 = read_entry(mem, raw_addr(e3), v.index_at(1));
    if !raw_present(e4) {
        3
    } else if !raw_present(e3) {
        2
    } else if !raw_present(e2) {
        1
    } else {
        0
    }
}

/// The root table and the existing tables on the walk for `v` lie inside
/// `mem`.
pub open spec fn path_in_mem(mem: Seq<PageTableEntry>, root: u64, v: VirtAddr) -> bool {
    let e4 = read_entry(mem, root, v.index_at(3));
    let e3 = read_entry(mem, raw_addr(e4), v.index_at(2));
    let e2 = read_entry(mem, raw_addr(e3), v.index_at(1));
    &&& root % 4096 == 0
    &&& slot(root, 512) <= mem.len()
    &&& raw_present(e4) ==> slot(raw_addr(e4), 512) <= mem.len()
    &&& raw_present(e4) && raw_present(e3) && !raw_huge(e3) ==> slot(raw_addr(e3), 512) <= mem.len()
    &&& raw_present(e4) && raw_present(e3) && !raw_huge(e3) && raw_present(e2) && !raw_huge(e2)
        ==> slot(raw_addr(e2), 512) <= mem.len()
}

/// Frame-aligned address `a` lies in a frame the allocator does not hand
/// out: a used frame, or one beyond the tracked range.
pub open spec fn frame_owned(frames: Seq<bool>, a: u64) -> bool {
    a as int / 4096 >= frames.len() || frames[a as int / 4096]
}

/// The root table and the existing tables on the walk for `v` are in
/// frames the allocator will not hand out again.
pub open spec fn path_owned(mem: Seq<PageTableEntry>, root: u64, v: VirtAddr, frames: Seq<bool>) -> bool {
    let e4 = read_entry(mem, root, v.index_at(3));
    let e3 = read_entry(mem, raw_addr(e4), v.index_at(2));
    let e2 = read_entry(mem, raw_addr(e3), v.index_at(1));
    &&& frame_owned(frames, root)
    &&& raw_present(e4) ==> frame_owned(frames, raw_addr(e4))
    &&& raw_present(e4) && raw_present(e3) && !raw_huge(e3) ==> frame_owned(frames, raw_addr(e3))
    &&& raw_present(e4) && raw_present(e3) && !raw_huge(e3) && raw_present(e2) && !raw_huge(e2)
        ==> frame_owned(frames, raw_addr(e2))
}

/// The raw entry `i` of the table in frame `f`; zero outside memory.
pub open spec fn frame_entry(mem: Seq<PageTableEntry>, f: int, i: int) -> u64 {
    if 0 <= f * 512 + i < mem.len() { mem[f * 512 + i].value() } else { 0 }
}

/// The frame a frame-aligned address lies in.
pub open spec fn frame_num(a: u64) -> int {
    a as int / 4096
}

/// A table hierarchy rooted at `root` with a level for every table
/// reachable from it (4 for the root, down to 1 for the last-level
/// tables): each table lies in memory in a frame the allocator will not
/// hand out, and each present entry of a level-k table (k from 2 to 4)
/// that is not a huge page points at a table of level k - 1. A frame
/// has one level, so no table is reachable at two levels.
pub open spec fn levels_ok(mem: Seq<PageTableEntry>, root: u64, frames: Seq<bool>, l: Map<int, int>) -> bool {
    &&& root % 4096 == 0
    &&& l.dom().contains(frame_num(root))
    &&& l[frame_num(root)] == 4
    &&& forall|f: int| #[trigger] l.dom().contains(f) ==> {
        &&& 0 <= f
        &&& f * 512 + 512 <= mem.len()
        &&& (f >= frames.len() || frames[f])
        &&& 1 <= l[f] <= 4
    }
    &&& forall|f: int, i: int| #![trigger l.dom().contains(f), frame_entry(mem, f, i)]
        l.dom().contains(f) && 2 <= l[f] && 0 <= i < 512 && raw_present(frame_entry(mem, f, i))
            && (l[f] == 4 || !raw_huge(frame_entry(mem, f, i)))
        ==> l.dom().contains(frame_num(raw_addr(frame_entry(mem, f, i))))
            && l[frame_num(raw_addr(frame_entry(mem, f, i)))] == l[f] - 1
}

/// The tables rooted at `root` form a well-leveled hierarchy (see
/// `levels_ok`).
pub open spec fn tables_ok(mem: Seq<PageTableEntry>, root: u64, frames: Seq<bool>) -> bool {
    exists|l: Map<int, int>| levels_ok(mem, root, frames, l)
}

/// Reading entry `i` of an aligned table is reading entry `i` of its frame.
proof fn lemma_read_frame(mem: Seq<PageTableEntry>, t: u64, i: int)
    requires
        t % 4096 == 0,
    ensures
        read_entry(mem, t, i) == frame_entry(mem, frame_num(t), i),
{
    assert(t as int / 8 == (t as int / 4096) * 512);
}

/// In a well-leveled hierarchy the walk of any address stays in memory
/// and in frames the allocator keeps: what `map_page` needs.
pub proof fn lemma_levels_paths(mem: Seq<PageTableEntry>, root: u64, frames: Seq<bool>, l: Map<int, int>, v: VirtAddr)
    requires
        levels_ok(mem, root, frames, l),
    ensures
        path_in_mem(mem, root, v),
        path_owned(mem, root, v, frames),
{
    let i3 = v.index_at(3);
    let i2 = v.index_at(2);
    let i1 = v.index_at(1);
    assert(0 <= i3 < 512 && 0 <= i2 < 512 && 0 <= i1 < 512);
    let e4 = read_entry(mem, root, i3);
    lemma_read_frame(mem, root, i3);
    assert(l.dom().contains(frame_num(root)));
    lemma_entry_bits(e4, 0, 0);
    let a4 = raw_addr(e4);
    if raw_present(e4) {
        assert(frame_entry(mem, frame_num(root), i3) == e4);
        assert(l.dom().contains(frame_num(a4)) && l[frame_num(a4)] == 3);
        lemma_read_frame(mem, a4, i2);
        let e3 = read_entry(mem, a4, i2);
        lemma_entry_bits(e3, 0, 0);
        let a3 = raw_addr(e3);
        if raw_present(e3) && !raw_huge(e3) {
            assert(frame_entry(mem, frame_num(a4), i2) == e3);
            assert(l.dom().contains(frame_num(a3)) && l[frame_num(a3)] == 2);
            lemma_read_frame(mem, a3, i1);
            let e2 = read_entry(mem, a3, i1);
            lemma_entry_bits(e2, 0, 0);
            if raw_present(e2) && !raw_huge(e2) {
                assert(frame_entry(mem, frame_num(a3), i1) == e2);
                assert(l.dom().contains(frame_num(raw_addr(e2))));
            }
        }
    }
}

/// In a well-leveled hierarchy the walk of any address stays in memory
/// and in frames the allocator keeps.
pub proof fn lemma_tables_ok_paths(mem: Seq<PageTableEntry>, root: u64, frames: Seq<bool>, v: VirtAddr)
    requires
        tables_ok(mem, root, frames),
    ensures
        path_in_mem(mem, root, v),
        path_owned(mem, root, v, frames),
{
    let l = choose|l: Map<int, int>| levels_ok(mem, root, frames, l);
    lemma_levels_paths(mem, root, frames, l, v);
}

/// Marking more frames used keeps a hierarchy well leveled.
pub proof fn lemma_tables_ok_frames_grow(mem: Seq<PageTableEntry>, root: u64, fr: Seq<bool>, fr2: Seq<bool>)
    requires
        tables_ok(mem, root, fr),
        fr2.len() == fr.len(),
        forall|i: int| 0 <= i < fr.len() && #[trigger] fr[i] ==> fr2[i],
    ensures
        tables_ok(mem, root, fr2),
{
    let l = choose|l: Map<int, int>| levels_ok(mem, root, fr, l);
    lemma_levels_frames_grow(mem, root, fr, fr2, l);
}

/// A new root in the free frame at `root` whose user half (entries 0 to
/// 255) is empty and whose kernel half is the kernel root's: both it and
/// the kernel root head well-leveled hierarchies, the kernel's tables
/// shared between them.
pub proof fn lemma_levels_shared_root(
    m: Seq<PageTableEntry>, m2: Seq<PageTableEntry>, kroot: u64, fr: Seq<bool>, fr2: Seq<bool>, l: Map<int, int>, root: u64,
)
    requires
        levels_ok(m, kroot, fr, l),
        root % 4096 == 0,
        !l.dom().contains(frame_num(root)),
        frame_num(root) * 512 + 512 <= m.len(),
        m2.len() == m.len(),
        fr2.len() == fr.len(),
        frame_num(root) < fr2.len(),
        fr2[frame_num(root)],
        forall|i: int| 0 <= i < fr.len() && #[trigger] fr[i] ==> fr2[i],
        forall|j: int| 0 <= j < m.len() && j / 512 != frame_num(root) ==> #[trigger] m2[j] == m[j],
        forall|i: int| 0 <= i < 512 ==> #[trigger] frame_entry(m2, frame_num(root), i)
            == (if i < 256 { 0u64 } else { frame_entry(m, frame_num(kroot), i) }),
    ensures
        levels_ok(m2, root, fr2, l.insert(frame_num(root), 4)),
        levels_ok(m2, kroot, fr2, l),
{
    let f = frame_num(root);
    let kf = frame_num(kroot);
    let l1 = l.insert(f, 4);
    lemma_entry_bits(0, 0, 0);
    assert forall|g: int, i: int| l.dom().contains(g) && 0 <= i < 512 implies #[trigger] frame_entry(m2, g, i) == frame_entry(m, g, i) by {
        assert((g * 512 + i) / 512 == g);
    }
    assert forall|g: int| #[trigger] l.dom().contains(g) implies (g >= fr2.len() || fr2[g]) by {
        if g < fr.len() { assert(fr[g]); }
    }
    assert forall|g: int, i: int| #![trigger l.dom().contains(g), frame_entry(m2, g, i)]
        l.dom().contains(g) && 2 <= l[g] && 0 <= i < 512 && raw_present(frame_entry(m2, g, i))
            && (l[g] == 4 || !raw_huge(frame_entry(m2, g, i)))
        implies l.dom().contains(frame_num(raw_addr(frame_entry(m2, g, i))))
            && l[frame_num(raw_addr(frame_entry(m2, g, i)))] == l[g] - 1 by {
        assert(frame_entry(m2, g, i) == frame_entry(m, g, i));
    }
    assert(levels_ok(m2, kroot, fr2, l));
    assert forall|g: int| #[trigger] l1.dom().contains(g) implies {
        &&& 0 <= g
        &&& g * 512 + 512 <= m2.len()
        &&& (g >= fr2.len() || fr2[g])
        &&& 1 <= l1[g] <= 4
    } by {
        if g != f {
            assert(l.dom().contains(g));
        }
    }
    assert forall|g: int, i: int| #![trigger l1.dom().contains(g), frame_entry(m2, g, i)]
        l1.dom().contains(g) && 2 <= l1[g] && 0 <= i < 512 && raw_present(frame_entry(m2, g, i))
            && (l1[g] == 4 || !raw_huge(frame_entry(m2, g, i)))
        implies l1.dom().contains(frame_num(raw_addr(frame_entry(m2, g, i))))
            && l1[frame_num(raw_addr(frame_entry(m2, g, i)))] == l1[g] - 1 by {
        if g == f {
            if i >= 256 {
                assert(frame_entry(m2, f, i) == frame_entry(m, kf, i));
                assert(l.dom().contains(kf));
                assert(l.dom().contains(frame_num(raw_addr(frame_entry(m, kf, i)))));
            }
        } else {
            assert(l.dom().contains(g));
            assert(frame_entry(m2, g, i) == frame_entry(m, g, i));
            assert(l.dom().contains(frame_num(raw_addr(frame_entry(m, g, i)))));
        }
    }
}

/// A fresh zeroed frame at `root` as the root of a new hierarchy.
pub proof fn lemma_levels_new_root(mem: Seq<PageTableEntry>, root: u64, frames: Seq<bool>)
    requires
        root % 4096 == 0,
        frame_num(root) < frames.len(),
        frames[frame_num(root)],
        frame_num(root) * 512 + 512 <= mem.len(),
        forall|k: int| frame_num(root) * 512 <= k < frame_num(root) * 512 + 512 ==> (#[trigger] mem[k]).value() == 0,
    ensures
        levels_ok(mem, root, frames, map![frame_num(root) => 4int]),
{
    lemma_entry_bits(0, 0, 0);
    let f = frame_num(root);
    let l = map![f => 4int];
    assert forall|g: int, i: int| #![trigger l.dom().contains(g), frame_entry(mem, g, i)]
        l.dom().contains(g) && 2 <= l[g] && 0 <= i < 512 && raw_present(frame_entry(mem, g, i))
        implies false by {
        assert(g == f);
        assert(frame_entry(mem, f, i) == 0);
    }
}

/// Adding a fresh zeroed table of level `k - 1` in frame `f` and pointing
/// entry `idx` of the level-`k` table in frame `ft` at it keeps the
/// hierarchy well leveled.
pub proof fn lemma_levels_add_table(
    m: Seq<PageTableEntry>, m2: Seq<PageTableEntry>, root: u64, fr: Seq<bool>, l: Map<int, int>,
    ft: int, idx: int, f: int, k: int,
)
    requires
        levels_ok(m, root, fr, l),
        l.dom().contains(ft),
        l[ft] == k,
        2 <= k <= 4,
        0 <= idx < 512,
        0 <= f < fr.len(),
        !fr[f],
        f * 512 + 512 <= m.len(),
        m2.len() == m.len(),
        raw_present(m2[ft * 512 + idx].value()),
        !raw_huge(m2[ft * 512 + idx].value()),
        frame_num(raw_addr(m2[ft * 512 + idx].value())) == f,
        forall|j: int| f * 512 <= j < f * 512 + 512 ==> (#[trigger] m2[j]).value() == 0,
        forall|j: int| 0 <= j < m.len() && j != ft * 512 + idx && !(f * 512 <= j < f * 512 + 512) ==> m2[j] == m[j],
    ensures
        levels_ok(m2, root, fr.update(f, true), l.insert(f, k - 1)),
{
    let fr2 = fr.update(f, true);
    let l2 = l.insert(f, k - 1);
    lemma_entry_bits(0, 0, 0);
    assert(!l.dom().contains(f));
    assert forall|g: int| #[trigger] l2.dom().contains(g) implies {
        &&& 0 <= g
        &&& g * 512 + 512 <= m2.len()
        &&& (g >= fr2.len() || fr2[g])
        &&& 1 <= l2[g] <= 4
    } by {
        if g != f {
            assert(l.dom().contains(g));
        }
    }
    assert forall|g: int, i: int| #![trigger l2.dom().contains(g), frame_entry(m2, g, i)]
        l2.dom().contains(g) && 2 <= l2[g] && 0 <= i < 512 && raw_present(frame_entry(m2, g, i))
            && (l2[g] == 4 || !raw_huge(frame_entry(m2, g, i)))
        implies l2.dom().contains(frame_num(raw_addr(frame_entry(m2, g, i))))
            && l2[frame_num(raw_addr(frame_entry(m2, g, i)))] == l2[g] - 1 by {
        if g == f {
            assert(frame_entry(m2, f, i) == 0);
        } else {
            assert(l.dom().contains(g));
            if g == ft && i == idx {
            } else {
                if f <= g {
                    assert(g * 512 + i >= f * 512 + 512) by (nonlinear_arith) requires g > f, 0 <= i;
                } else {
                    assert(g * 512 + i < f * 512) by (nonlinear_arith) requires g < f, i < 512;
                }
                if g == ft {
                    assert(g * 512 + i != ft * 512 + idx);
                } else if g < ft {
                    assert(g * 512 + i < ft * 512) by (nonlinear_arith) requires g < ft, i < 512;
                } else {
                    assert(g * 512 + i >= ft * 512 + 512) by (nonlinear_arith) requires g > ft, 0 <= i;
                }
                assert(frame_entry(m2, g, i) == frame_entry(m, g, i));
                assert(l.dom().contains(frame_num(raw_addr(frame_entry(m, g, i)))));
            }
        }
    }
}

/// Writing entry `i` of a last-level table (level 1), or writing a
/// non-present entry anywhere, keeps the hierarchy well leveled.
pub proof fn lemma_levels_write(m: Seq<PageTableEntry>, root: u64, fr: Seq<bool>, l: Map<int, int>, s: int, e: PageTableEntry)
    requires
        levels_ok(m, root, fr, l),
        0 <= s < m.len(),
        (l.dom().contains(s / 512) && l[s / 512] == 1) || !raw_present(e.value()),
    ensures
        levels_ok(m.update(s, e), root, fr, l),
{
    let m2 = m.update(s, e);
    assert forall|g: int, i: int| #![trigger l.dom().contains(g), frame_entry(m2, g, i)]
        l.dom().contains(g) && 2 <= l[g] && 0 <= i < 512 && raw_present(frame_entry(m2, g, i))
            && (l[g] == 4 || !raw_huge(frame_entry(m2, g, i)))
        implies l.dom().contains(frame_num(raw_addr(frame_entry(m2, g, i))))
            && l[frame_num(raw_addr(frame_entry(m2, g, i)))] == l[g] - 1 by {
        if g * 512 + i == s {
            assert(s / 512 == g);
        } else {
            assert(frame_entry(m2, g, i) == frame_entry(m, g, i));
        }
    }
}

/// Marking more frames used keeps the hierarchy well leveled.
pub proof fn lemma_levels_frames_grow(m: Seq<PageTableEntry>, root: u64, fr: Seq<bool>, fr2: Seq<bool>, l: Map<int, int>)
    requires
        levels_ok(m, root, fr, l),
        fr2.len() == fr.len(),
        forall|i: int| 0 <= i < fr.len() && #[trigger] fr[i] ==> fr2[i],
    ensures
        levels_ok(m, root, fr2, l),
{
    assert forall|g: int| #[trigger] l.dom().contains(g) implies (g >= fr2.len() || fr2[g]) by {
        if g < fr.len() {
            assert(fr[g]);
        }
    }
}

/// Every entry that differs between `m` and `m2` lies outside the
/// leveled tables of `l`, or was not present in `m`.
pub open spec fn only_new_entries(m: Seq<PageTableEntry>, m2: Seq<PageTableEntry>, l: Map<int, int>) -> bool {
    &&& m2.len() == m.len()
    &&& forall|j: int| 0 <= j < m.len() && #[trigger] m2[j] != m[j] ==> !l.dom().contains(j / 512) || !raw_present(m[j].value())
}

/// Filling in entries that were not present, or entries outside the
/// hierarchy, leaves every existing translation as it was.
pub proof fn lemma_translation_kept(m: Seq<PageTableEntry>, m2: Seq<PageTableEntry>, root: u64, fr: Seq<bool>, l: Map<int, int>, w: VirtAddr)
    requires
        levels_ok(m, root, fr, l),
        only_new_entries(m, m2, l),
        spec_translate(m, root, w) is Some,
    ensures
        spec_translate(m2, root, w) == spec_translate(m, root, w),
{
    reveal(spec_translate);
    let i3 = w.index_at(3);
    let i2 = w.index_at(2);
    let i1 = w.index_at(1);
    let i0 = w.index_at(0);
    let e4 = read_entry(m, root, i3);
    lemma_read_frame(m, root, i3);
    lemma_read_frame(m2, root, i3);
    lemma_entry_bits(e4, 0, 0);
    let s4 = frame_num(root) * 512 + i3;
    assert(s4 / 512 == frame_num(root));
    assert(m2[s4] == m[s4]);
    let a4 = raw_addr(e4);
    assert(frame_entry(m, frame_num(root), i3) == e4);
    assert(l.dom().contains(frame_num(a4)) && l[frame_num(a4)] == 3);
    lemma_read_frame(m, a4, i2);
    lemma_read_frame(m2, a4, i2);
    let e3 = read_entry(m, a4, i2);
    lemma_entry_bits(e3, 0, 0);
    let s3 = frame_num(a4) * 512 + i2;
    assert(s3 / 512 == frame_num(a4));
    assert(m2[s3] == m[s3]);
    if !raw_huge(e3) {
        let a3 = raw_addr(e3);
        assert(frame_entry(m, frame_num(a4), i2) == e3);
        assert(l.dom().contains(frame_num(a3)) && l[frame_num(a3)] == 2);
        lemma_read_frame(m, a3, i1);
        lemma_read_frame(m2, a3, i1);
        let e2 = read_entry(m, a3, i1);
        lemma_entry_bits(e2, 0, 0);
        let s2 = frame_num(a3) * 512 + i1;
        assert(s2 / 512 == frame_num(a3));
        assert(m2[s2] == m[s2]);
        if !raw_huge(e2) {
            let a2 = raw_addr(e2);
            assert(frame_entry(m, frame_num(a3), i1) == e2);
            assert(l.dom().contains(frame_num(a2)));
            lemma_read_frame(m, a2, i0);
            lemma_read_frame(m2, a2, i0);
            let s1 = frame_num(a2) * 512 + i0;
            assert(s1 / 512 == frame_num(a2));
            assert(m2[s1] == m[s1]);
        }
    }
}

/// The table the root entry of `w` points at.
pub open spec fn walk_pdpt(m: Seq<PageTableEntry>, root: u64, w: VirtAddr) -> u64 {
    raw_addr(read_entry(m, root, w.index_at(3)))
}

/// The directory the walk of `w` reaches.
pub open spec fn walk_pd(m: Seq<PageTableEntry>, root: u64, w: VirtAddr) -> u64 {
    raw_addr(read_entry(m, walk_pdpt(m, root, w), w.index_at(2)))
}

/// The last-level table the walk of `w` reaches.
pub open spec fn walk_pt(m: Seq<PageTableEntry>, root: u64, w: VirtAddr) -> u64 {
    raw_addr(read_entry(m, walk_pd(m, root, w), w.index_at(1)))
}

/// The walk of `w` gets to a directory.
pub open spec fn reaches_pd(m: Seq<PageTableEntry>, root: u64, w: VirtAddr) -> bool {
    &&& raw_present(read_entry(m, root, w.index_at(3)))
    &&& raw_present(read_entry(m, walk_pdpt(m, root, w), w.index_at(2)))
    &&& !raw_huge(read_entry(m, walk_pdpt(m, root, w), w.index_at(2)))
}

/// The walk of `w` gets to a last-level table.
pub open spec fn reaches_pt(m: Seq<PageTableEntry>, root: u64, w: VirtAddr) -> bool {
    &&& reaches_pd(m, root, w)
    &&& raw_present(read_entry(m, walk_pd(m, root, w), w.index_at(1)))
    &&& !raw_huge(read_entry(m, walk_pd(m, root, w), w.index_at(1)))
}

/// Entry `i` of frame `f` is one the walk follows into another table:
/// present, in a table of level 2 to 4, and not a huge page below the
/// root.
pub open spec fn is_pointer(m: Seq<PageTableEntry>, l: Map<int, int>, f: int, i: int) -> bool {
    &&& l.dom().contains(f)
    &&& 2 <= l[f]
    &&& 0 <= i < 512
    &&& raw_present(frame_entry(m, f, i))
    &&& (l[f] == 4 || !raw_huge(frame_entry(m, f, i)))
}

/// The hierarchy is a tree: no table is reached through two entries.
pub open spec fn tree_ok(m: Seq<PageTableEntry>, l: Map<int, int>) -> bool {
    forall|f1: int, i1: int, f2: int, i2: int| #![trigger frame_entry(m, f1, i1), frame_entry(m, f2, i2)]
        is_pointer(m, l, f1, i1) && is_pointer(m, l, f2, i2)
            && frame_num(raw_addr(frame_entry(m, f1, i1))) == frame_num(raw_addr(frame_entry(m, f2, i2)))
        ==> f1 == f2 && i1 == i2
}

/// Well-leveled tables that form a tree.
pub open spec fn tree_tables_ok(m: Seq<PageTableEntry>, root: u64, frames: Seq<bool>) -> bool {
    exists|l: Map<int, int>| levels_ok(m, root, frames, l) && tree_ok(m, l)
}

/// In a tree, two walks that reach the same directory took the same
/// root and directory-pointer entries.
pub proof fn lemma_tree_same_pd(m: Seq<PageTableEntry>, root: u64, fr: Seq<bool>, l: Map<int, int>, w: VirtAddr, v: VirtAddr)
    requires
        levels_ok(m, root, fr, l),
        tree_ok(m, l),
        reaches_pd(m, root, w),
        reaches_pd(m, root, v),
        frame_num(walk_pd(m, root, w)) == frame_num(walk_pd(m, root, v)),
    ensures
        w.index_at(3) == v.index_at(3),
        w.index_at(2) == v.index_at(2),
{
    let f4 = frame_num(root);
    let (w3, w2) = (w.index_at(3), w.index_at(2));
    let (v3, v2) = (v.index_at(3), v.index_at(2));
    assert(0 <= w3 < 512 && 0 <= w2 < 512 && 0 <= v3 < 512 && 0 <= v2 < 512);
    lemma_read_frame(m, root, w3);
    lemma_read_frame(m, root, v3);
    let ew4 = read_entry(m, root, w3);
    let ev4 = read_entry(m, root, v3);
    lemma_entry_bits(ew4, 0, 0);
    lemma_entry_bits(ev4, 0, 0);
    assert(frame_entry(m, f4, w3) == ew4);
    assert(frame_entry(m, f4, v3) == ev4);
    let pw = walk_pdpt(m, root, w);
    let pv = walk_pdpt(m, root, v);
    assert(l.dom().contains(frame_num(pw)) && l[frame_num(pw)] == 3);
    assert(l.dom().contains(frame_num(pv)) && l[frame_num(pv)] == 3);
    lemma_read_frame(m, pw, w2);
    lemma_read_frame(m, pv, v2);
    let ew3 = read_entry(m, pw, w2);
    let ev3 = read_entry(m, pv, v2);
    lemma_entry_bits(ew3, 0, 0);
    lemma_entry_bits(ev3, 0, 0);
    assert(frame_entry(m, frame_num(pw), w2) == ew3);
    assert(frame_entry(m, frame_num(pv), v2) == ev3);
    assert(is_pointer(m, l, frame_num(pw), w2));
    assert(is_pointer(m, l, frame_num(pv), v2));
    assert(frame_num(pw) == frame_num(pv) && w2 == v2);
    assert(pw == pv);
    assert(is_pointer(m, l, f4, w3));
    assert(is_pointer(m, l, f4, v3));
}

/// In a tree, two walks that reach the same last-level table took the
/// same entries at every level above it.
pub proof fn lemma_tree_same_pt(m: Seq<PageTableEntry>, root: u64, fr: Seq<bool>, l: Map<int, int>, w: VirtAddr, v: VirtAddr)
    requires
        levels_ok(m, root, fr, l),
        tree_ok(m, l),
        reaches_pt(m, root, w),
        reaches_pt(m, root, v),
        frame_num(walk_pt(m, root, w)) == frame_num(walk_pt(m, root, v)),
    ensures
        w.index_at(3) == v.index_at(3),
        w.index_at(2) == v.index_at(2),
        w.index_at(1) == v.index_at(1),
{
    let (w3, w2, w1) = (w.index_at(3), w.index_at(2), w.index_at(1));
    let (v3, v2, v1) = (v.index_at(3), v.index_at(2), v.index_at(1));
    assert(0 <= w3 < 512 && 0 <= w2 < 512 && 0 <= v3 < 512 && 0 <= v2 < 512 && 0 <= w1 < 512 && 0 <= v1 < 512);
    lemma_read_frame(m, root, w3);
    lemma_read_frame(m, root, v3);
    lemma_entry_bits(read_entry(m, root, w3), 0, 0);
    lemma_entry_bits(read_entry(m, root, v3), 0, 0);
    assert(frame_entry(m, frame_num(root), w3) == read_entry(m, root, w3));
    assert(frame_entry(m, frame_num(root), v3) == read_entry(m, root, v3));
    let pw = walk_pdpt(m, root, w);
    let pv = walk_pdpt(m, root, v);
    assert(l.dom().contains(frame_num(pw)) && l[frame_num(pw)] == 3);
    assert(l.dom().contains(frame_num(pv)) && l[frame_num(pv)] == 3);
    lemma_read_frame(m, pw, w2);
    lemma_read_frame(m, pv, v2);
    lemma_entry_bits(read_entry(m, pw, w2), 0, 0);
    lemma_entry_bits(read_entry(m, pv, v2), 0, 0);
    assert(frame_entry(m, frame_num(pw), w2) == read_entry(m, pw, w2));
    assert(frame_entry(m, frame_num(pv), v2) == read_entry(m, pv, v2));
    let dw = walk_pd(m, root, w);
    let dv = walk_pd(m, root, v);
    assert(l.dom().contains(frame_num(dw)) && l[frame_num(dw)] == 2);
    assert(l.dom().contains(frame_num(dv)) && l[frame_num(dv)] == 2);
    lemma_read_frame(m, dw, w1);
    lemma_read_frame(m, dv, v1);
    let ew2 = read_entry(m, dw, w1);
    let ev2 = read_entry(m, dv, v1);
    lemma_entry_bits(ew2, 0, 0);
    lemma_entry_bits(ev2, 0, 0);
    assert(frame_entry(m, frame_num(dw), w1) == ew2);
    assert(frame_entry(m, frame_num(dv), v1) == ev2);
    assert(is_pointer(m, l, frame_num(dw), w1));
    assert(is_pointer(m, l, frame_num(dv), v1));
    assert(frame_num(dw) == frame_num(dv) && w1 == v1);
    lemma_tree_same_pd(m, root, fr, l, w, v);
}

/// One step of the walk in `map_page` keeps the hierarchy a tree: a new
/// table is reached only through the entry just written.
pub proof fn lemma_tree_table_step(
    m: Seq<PageTableEntry>, m2: Seq<PageTableEntry>, root: u64, fr: Seq<bool>, fr2: Seq<bool>, l: Map<int, int>,
    table: u64, idx: int, t: u64, flags: u64, k: int,
)
    requires
        levels_ok(m, root, fr, l),
        l.dom().contains(frame_num(table)),
        l[frame_num(table)] == k,
        2 <= k <= 4,
        table % 4096 == 0,
        0 <= idx < 512,
        k == 4 || !raw_present(read_entry(m, table, idx)) || !raw_huge(read_entry(m, table, idx)),
        m2.len() == m.len(),
        raw_present(read_entry(m, table, idx)) ==> t == raw_addr(read_entry(m, table, idx)) && m2 == m && fr2 == fr,
        !raw_present(read_entry(m, table, idx)) ==> {
            &&& t % 4096 == 0
            &&& 0 <= frame_num(t) < fr.len()
            &&& !fr[frame_num(t)]
            &&& frame_num(t) * 512 + 512 <= m.len()
            &&& fr2 == fr.update(frame_num(t), true)
            &&& m2[slot(table, idx)].value() == raw_entry(t, flags)
            &&& raw_present(raw_entry(t, flags))
            &&& !raw_huge(raw_entry(t, flags))
            &&& raw_addr(raw_entry(t, flags)) == t
            &&& forall|j: int| frame_num(t) * 512 <= j < frame_num(t) * 512 + 512 && j != slot(table, idx)
                ==> (#[trigger] m2[j]).value() == 0
            &&& forall|j: int| 0 <= j < m.len() && j != slot(table, idx)
                && !(frame_num(t) * 512 <= j < frame_num(t) * 512 + 512) ==> m2[j] == m[j]
        },
        tree_ok(m, l),
    ensures
        tree_ok(m2, if raw_present(read_entry(m, table, idx)) { l } else { l.insert(frame_num(t), k - 1) }),
{
    lemma_read_frame(m, table, idx);
    let e = read_entry(m, table, idx);
    if !raw_present(e) {
        let f = frame_num(t);
        let ft = frame_num(table);
        let sl = slot(table, idx);
        let l2 = l.insert(f, k - 1);
        assert(sl == ft * 512 + idx);
        assert(!l.dom().contains(f));
        assert(sl / 512 == ft);
        assert(f != ft);
        lemma_entry_bits(0, 0, 0);
        assert forall|g: int, i: int| #![trigger frame_entry(m2, g, i)]
            is_pointer(m2, l2, g, i) && !(g == ft && i == idx)
            implies g != f && is_pointer(m, l, g, i) && frame_entry(m2, g, i) == frame_entry(m, g, i)
                && frame_num(raw_addr(frame_entry(m, g, i))) != f by {
            if g == f {
                assert(frame_entry(m2, f, i) == 0);
            } else {
                if f <= g {
                    assert(g * 512 + i >= f * 512 + 512) by (nonlinear_arith) requires g > f, 0 <= i;
                } else {
                    assert(g * 512 + i < f * 512) by (nonlinear_arith) requires g < f, i < 512;
                }
                if g == ft {
                    assert(g * 512 + i != ft * 512 + idx);
                } else if g < ft {
                    assert(g * 512 + i < ft * 512) by (nonlinear_arith) requires g < ft, i < 512;
                } else {
                    assert(g * 512 + i >= ft * 512 + 512) by (nonlinear_arith) requires g > ft, 0 <= i;
                }
                assert(frame_entry(m2, g, i) == frame_entry(m, g, i));
                assert(l.dom().contains(frame_num(raw_addr(frame_entry(m, g, i)))));
            }
        }
        assert(frame_entry(m2, ft, idx) == m2[sl].value());
        assert forall|f1: int, i1: int, f2: int, i2: int| #![trigger frame_entry(m2, f1, i1), frame_entry(m2, f2, i2)]
            is_pointer(m2, l2, f1, i1) && is_pointer(m2, l2, f2, i2)
                && frame_num(raw_addr(frame_entry(m2, f1, i1))) == frame_num(raw_addr(frame_entry(m2, f2, i2)))
            implies f1 == f2 && i1 == i2 by {
            let a = f1 == ft && i1 == idx;
            let b = f2 == ft && i2 == idx;
            if !a && !b {
                assert(frame_entry(m, f1, i1) == frame_entry(m2, f1, i1));
                assert(frame_entry(m, f2, i2) == frame_entry(m2, f2, i2));
            }
        }
    }
}

/// Slots of two aligned tables coincide only for the same table and index.
pub proof fn lemma_slot_inj(a: u64, i: int, b: u64, j: int)
    requires
        a % 4096 == 0,
        b % 4096 == 0,
        0 <= i < 512,
        0 <= j < 512,
        slot(a, i) == slot(b, j),
    ensures
        a == b,
        i == j,
{
    lemma_slot_frame(a, i);
    lemma_slot_frame(b, j);
    assert(a as int / 8 == (a as int / 4096) * 512);
    assert(b as int / 8 == (b as int / 4096) * 512);
}

/// Writing a leaf where none was present, in a tree: the hierarchy stays
/// a tree, and only addresses in the page of `v` (whose walk ends at that
/// leaf) change translation, to the new leaf's frame.
pub proof fn lemma_leaf_tree(m: Seq<PageTableEntry>, root: u64, fr: Seq<bool>, l: Map<int, int>, pt: u64, i0: int, e: PageTableEntry, v: VirtAddr)
    requires
        levels_ok(m, root, fr, l),
        tree_ok(m, l),
        l.dom().contains(frame_num(pt)),
        l[frame_num(pt)] == 1,
        pt % 4096 == 0,
        0 <= i0 < 512,
        !raw_present(read_entry(m, pt, i0)),
        reaches_pt(m, root, v),
        walk_pt(m, root, v) == pt,
        v.index_at(0) == i0,
    ensures
        tree_ok(m.update(slot(pt, i0), e), l),
        forall|w: VirtAddr| #[trigger] spec_translate(m.update(slot(pt, i0), e), root, w) == spec_translate(m, root, w)
            || ({
                &&& w.index_at(3) == v.index_at(3) && w.index_at(2) == v.index_at(2)
                &&& w.index_at(1) == v.index_at(1) && w.index_at(0) == v.index_at(0)
                &&& raw_present(e.value())
                &&& spec_translate(m.update(slot(pt, i0), e), root, w) == Some((raw_addr(e.value()) + w.val() % 4096) as u64)
            }),
{
    let s = slot(pt, i0);
    lemma_read_frame(m, pt, i0);
    assert(s == frame_num(pt) * 512 + i0);
    assert(s / 512 == frame_num(pt));
    let m2 = m.update(s, e);
    lemma_tree_write(m, l, s, e);
    assert forall|w: VirtAddr| #[trigger] spec_translate(m2, root, w) == spec_translate(m, root, w)
        || ({
            &&& w.index_at(3) == v.index_at(3) && w.index_at(2) == v.index_at(2)
            &&& w.index_at(1) == v.index_at(1) && w.index_at(0) == v.index_at(0)
            &&& raw_present(e.value())
            &&& spec_translate(m2, root, w) == Some((raw_addr(e.value()) + w.val() % 4096) as u64)
        }) by {
        lemma_write_translate(m, m2, root, fr, l, s, w);
        if spec_translate(m2, root, w) != spec_translate(m, root, w) {
            let pw = walk_pt(m, root, w);
            lemma_entry_bits(read_entry(m, walk_pd(m, root, w), w.index_at(1)), 0, 0);
            assert(0 <= w.index_at(0) < 512);
            lemma_slot_inj(pw, w.index_at(0), pt, i0);
            lemma_tree_same_pt(m, root, fr, l, w, v);
        }
    }
}

/// Writing a 2 MiB entry where none was present, in a tree: the
/// hierarchy stays a tree, and only addresses in the 2 MiB page of `v`
/// change translation, into the new entry's frame.
pub proof fn lemma_huge_tree(m: Seq<PageTableEntry>, root: u64, fr: Seq<bool>, l: Map<int, int>, pd: u64, i1: int, e: PageTableEntry, v: VirtAddr)
    requires
        levels_ok(m, root, fr, l),
        tree_ok(m, l),
        l.dom().contains(frame_num(pd)),
        l[frame_num(pd)] == 2,
        pd % 4096 == 0,
        0 <= i1 < 512,
        !raw_present(read_entry(m, pd, i1)),
        raw_huge(e.value()),
        reaches_pd(m, root, v),
        walk_pd(m, root, v) == pd,
        v.index_at(1) == i1,
    ensures
        tree_ok(m.update(slot(pd, i1), e), l),
        forall|w: VirtAddr| #[trigger] spec_translate(m.update(slot(pd, i1), e), root, w) == spec_translate(m, root, w)
            || ({
                &&& w.index_at(3) == v.index_at(3) && w.index_at(2) == v.index_at(2) && w.index_at(1) == v.index_at(1)
                &&& raw_present(e.value())
                &&& spec_translate(m.update(slot(pd, i1), e), root, w)
                    == Some(((raw_addr(e.value()) & !0x1F_FFFFu64) + (w.val() & 0x1F_FFFF)) as u64)
            }),
{
    let s = slot(pd, i1);
    lemma_read_frame(m, pd, i1);
    assert(s == frame_num(pd) * 512 + i1);
    assert(s / 512 == frame_num(pd));
    let m2 = m.update(s, e);
    lemma_tree_write(m, l, s, e);
    assert forall|w: VirtAddr| #[trigger] spec_translate(m2, root, w) == spec_translate(m, root, w)
        || ({
            &&& w.index_at(3) == v.index_at(3) && w.index_at(2) == v.index_at(2) && w.index_at(1) == v.index_at(1)
            &&& raw_present(e.value())
            &&& spec_translate(m2, root, w) == Some(((raw_addr(e.value()) & !0x1F_FFFFu64) + (w.val() & 0x1F_FFFF)) as u64)
        }) by {
        lemma_write_translate(m, m2, root, fr, l, s, w);
        if spec_translate(m2, root, w) != spec_translate(m, root, w) {
            let dw = walk_pd(m, root, w);
            lemma_entry_bits(read_entry(m, walk_pdpt(m, root, w), w.index_at(2)), 0, 0);
            assert(0 <= w.index_at(1) < 512);
            lemma_slot_inj(dw, w.index_at(1), pd, i1);
            lemma_tree_same_pd(m, root, fr, l, w, v);
        }
    }
}

/// Writing, at a slot of the hierarchy, an entry the walk does not follow
/// keeps the hierarchy a tree.
pub proof fn lemma_tree_write(m: Seq<PageTableEntry>, l: Map<int, int>, s: int, e: PageTableEntry)
    requires
        tree_ok(m, l),
        0 <= s < m.len(),
        !(l.dom().contains(s / 512) && 2 <= l[s / 512] && raw_present(e.value())
            && (l[s / 512] == 4 || !raw_huge(e.value()))),
    ensures
        tree_ok(m.update(s, e), l),
{
    let m2 = m.update(s, e);
    assert forall|f1: int, i1: int, f2: int, i2: int| #![trigger frame_entry(m2, f1, i1), frame_entry(m2, f2, i2)]
        is_pointer(m2, l, f1, i1) && is_pointer(m2, l, f2, i2)
            && frame_num(raw_addr(frame_entry(m2, f1, i1))) == frame_num(raw_addr(frame_entry(m2, f2, i2)))
        implies f1 == f2 && i1 == i2 by {
        if f1 * 512 + i1 == s {
            assert((f1 * 512 + i1) / 512 == f1);
        }
        if f2 * 512 + i2 == s {
            assert((f2 * 512 + i2) / 512 == f2);
        }
        assert(frame_entry(m2, f1, i1) == frame_entry(m, f1, i1));
        assert(frame_entry(m2, f2, i2) == frame_entry(m, f2, i2));
    }
}

/// The translations after writing slot `s` of a table in the hierarchy,
/// where no present entry was: an address whose walk does not read `s`
/// translates as before; one whose walk reads it now translates through
/// the new entry. A new table pointer must lead to an empty table outside
/// the hierarchy, so only a new leaf or 2 MiB entry can add a translation.
pub proof fn lemma_write_translate(m: Seq<PageTableEntry>, m2: Seq<PageTableEntry>, root: u64, fr: Seq<bool>, l: Map<int, int>, s: int, w: VirtAddr)
    requires
        levels_ok(m, root, fr, l),
        m2.len() == m.len(),
        0 <= s < m.len(),
        l.dom().contains(s / 512),
        !raw_present(m[s].value()),
        forall|j: int| 0 <= j < m.len() && j != s && #[trigger] l.dom().contains(j / 512) ==> m2[j] == m[j],
        l[s / 512] == 3 && raw_present(m2[s].value()) ==> !raw_huge(m2[s].value()),
        l[s / 512] >= 2 && raw_present(m2[s].value()) && (l[s / 512] >= 3 || !raw_huge(m2[s].value())) ==> {
            &&& forall|i: int| 0 <= i < 512 ==> #[trigger] read_entry(m2, raw_addr(m2[s].value()), i) == 0
        },
    ensures
        ({
            let e = m2[s].value();
            let k = l[s / 512];
            ||| spec_translate(m2, root, w) == spec_translate(m, root, w)
            ||| k == 1 && raw_present(e) && spec_translate(m2, root, w) == Some((raw_addr(e) + w.val() % 4096) as u64)
                && reaches_pt(m, root, w) && s == slot(walk_pt(m, root, w), w.index_at(0))
            ||| k == 2 && raw_present(e) && raw_huge(e)
                && spec_translate(m2, root, w) == Some(((raw_addr(e) & !0x1F_FFFFu64) + (w.val() & 0x1F_FFFF)) as u64)
                && reaches_pd(m, root, w) && s == slot(walk_pd(m, root, w), w.index_at(1))
        }),
{
    reveal(spec_translate);
    let e = m2[s].value();
    let i3 = w.index_at(3);
    let i2 = w.index_at(2);
    let i1 = w.index_at(1);
    let i0 = w.index_at(0);
    assert(0 <= i3 < 512 && 0 <= i2 < 512 && 0 <= i1 < 512 && 0 <= i0 < 512);
    let f4 = frame_num(root);
    lemma_read_frame(m, root, i3);
    lemma_read_frame(m2, root, i3);
    let s4 = f4 * 512 + i3;
    assert(s4 / 512 == f4);
    assert(l.dom().contains(f4));
    let e4 = read_entry(m, root, i3);
    lemma_entry_bits(e4, 0, 0);
    if s4 == s {
        assert(read_entry(m2, root, i3) == e);
        assert(!raw_present(e4));
        return;
    }
    assert(m2[s4] == m[s4]);
    if !raw_present(e4) {
        return;
    }
    assert(frame_entry(m, f4, i3) == e4);
    let a4 = raw_addr(e4);
    let f3 = frame_num(a4);
    assert(l.dom().contains(f3) && l[f3] == 3);
    lemma_read_frame(m, a4, i2);
    lemma_read_frame(m2, a4, i2);
    let s3 = f3 * 512 + i2;
    assert(s3 / 512 == f3);
    let e3 = read_entry(m, a4, i2);
    lemma_entry_bits(e3, 0, 0);
    if s3 == s {
        assert(read_entry(m2, a4, i2) == e);
        assert(!raw_present(e3));
        return;
    }
    assert(m2[s3] == m[s3]);
    if !raw_present(e3) || raw_huge(e3) {
        return;
    }
    assert(frame_entry(m, f3, i2) == e3);
    let a3 = raw_addr(e3);
    let f2 = frame_num(a3);
    assert(l.dom().contains(f2) && l[f2] == 2);
    lemma_read_frame(m, a3, i1);
    lemma_read_frame(m2, a3, i1);
    let s2 = f2 * 512 + i1;
    assert(s2 / 512 == f2);
    let e2 = read_entry(m, a3, i1);
    lemma_entry_bits(e2, 0, 0);
    if s2 == s {
        assert(read_entry(m2, a3, i1) == e);
        assert(!raw_present(e2));
        return;
    }
    assert(m2[s2] == m[s2]);
    if !raw_present(e2) || raw_huge(e2) {
        return;
    }
    assert(frame_entry(m, f2, i1) == e2);
    let a2 = raw_addr(e2);
    let f1 = frame_num(a2);
    assert(l.dom().contains(f1) && l[f1] == 1);
    lemma_read_frame(m, a2, i0);
    lemma_read_frame(m2, a2, i0);
    let s1 = f1 * 512 + i0;
    assert(s1 / 512 == f1);
    if s1 == s {
        assert(read_entry(m2, a2, i0) == e);
        return;
    }
    assert(m2[s1] == m[s1]);
}

/// Tables whose root has no present entry translate nothing.
pub proof fn lemma_empty_root(mem: Seq<PageTableEntry>, root: u64)
    requires
        forall|i: int| 0 <= i < 512 ==> #[trigger] read_entry(mem, root, i) == 0,
    ensures
        forall|w: VirtAddr| #[trigger] spec_translate(mem, root, w) is None,
{
    reveal(spec_translate);
    lemma_entry_bits(0, 0, 0);
    assert forall|w: VirtAddr| #[trigger] spec_translate(mem, root, w) is None by {
        assert(read_entry(mem, root, w.index_at(3)) == 0);
    }
}

/// The root table's entries other than `i3` are the same in `m` and `m2`.
pub open spec fn root_kept(m: Seq<PageTableEntry>, m2: Seq<PageTableEntry>, root: u64, i3: int) -> bool {
    forall|i: int| 0 <= i < 512 && i != i3 ==> #[trigger] read_entry(m2, root, i) == read_entry(m, root, i)
}

/// A write that changes, among the hierarchy's frames, only slot `s`
/// keeps the root's entries other than `i3` when `s` lies outside the
/// root frame or is entry `i3` of the root.
pub proof fn lemma_root_step(m: Seq<PageTableEntry>, m2: Seq<PageTableEntry>, root: u64, l: Map<int, int>, s: int, i3: int)
    requires
        root % 4096 == 0,
        0 <= i3 < 512,
        l.dom().contains(frame_num(root)),
        m2.len() == m.len(),
        forall|j: int| 0 <= j < m.len() && j != s && #[trigger] l.dom().contains(j / 512) ==> m2[j] == m[j],
        s / 512 != frame_num(root) || s == slot(root, i3),
    ensures
        root_kept(m, m2, root, i3),
{
    assert forall|i: int| 0 <= i < 512 && i != i3 implies #[trigger] read_entry(m2, root, i) == read_entry(m, root, i) by {
        lemma_slot_frame(root, i);
        lemma_slot_frame(root, i3);
    }
}

/// Kernel-half addresses use the upper half of the root table, user-half
/// addresses the lower half.
pub proof fn lemma_root_index_half(w: VirtAddr)
    ensures
        w.val() >= crate::memory::address::KERNEL_HALF_START ==> w.index_at(3) >= 256,
        w.val() < crate::memory::address::USER_HALF_END ==> w.index_at(3) < 256,
{
    let v = w.val() as int;
    let q = v / 0x80_0000_0000;
    assert(w.index_at(3) == q % 512);
    if v >= 0xFFFF_8000_0000_0000 {
        assert(q >= 0x1FF_FF00) by (nonlinear_arith) requires v >= 0xFFFF_8000_0000_0000, q == v / 0x80_0000_0000;
        assert(q <= 0x1FF_FFFF) by (nonlinear_arith) requires v < 0x1_0000_0000_0000_0000, q == v / 0x80_0000_0000, v >= 0;
        assert(q % 512 == q - 0x1FF_FE00);
    }
    if v < 0x8000_0000_0000 {
        assert(q < 256) by (nonlinear_arith) requires v < 0x8000_0000_0000, q == v / 0x80_0000_0000, v >= 0;
    }
}

/// With the lower half of the root table empty, no user-half address
/// translates.
pub proof fn lemma_user_half_unmapped(mem: Seq<PageTableEntry>, root: u64, w: VirtAddr)
    requires
        forall|i: int| 0 <= i < 256 ==> #[trigger] read_entry(mem, root, i) == 0,
        w.val() < crate::memory::address::USER_HALF_END,
    ensures
        spec_translate(mem, root, w) is None,
{
    reveal(spec_translate);
    lemma_entry_bits(0, 0, 0);
    lemma_root_index_half(w);
    assert(read_entry(mem, root, w.index_at(3)) == 0);
}

/// A tree of well-leveled tables is well leveled.
pub proof fn lemma_tree_tables_ok(m: Seq<PageTableEntry>, root: u64, frames: Seq<bool>)
    requires
        tree_tables_ok(m, root, frames),
    ensures
        tables_ok(m, root, frames),
{
    let l = choose|l: Map<int, int>| levels_ok(m, root, frames, l) && tree_ok(m, l);
}

/// A new root with no entry heads a well-leveled tree.
pub proof fn lemma_tree_new_root(mem: Seq<PageTableEntry>, root: u64, frames: Seq<bool>)
    requires
        root % 4096 == 0,
        frame_num(root) < frames.len(),
        frames[frame_num(root)],
        frame_num(root) * 512 + 512 <= mem.len(),
        forall|k: int| frame_num(root) * 512 <= k < frame_num(root) * 512 + 512 ==> (#[trigger] mem[k]).value() == 0,
    ensures
        tree_tables_ok(mem, root, frames),
{
    lemma_levels_new_root(mem, root, frames);
    lemma_entry_bits(0, 0, 0);
    let l = map![frame_num(root) => 4int];
    assert forall|f1: int, i1: int, f2: int, i2: int| #![trigger frame_entry(mem, f1, i1), frame_entry(mem, f2, i2)]
        is_pointer(mem, l, f1, i1) && is_pointer(mem, l, f2, i2)
            && frame_num(raw_addr(frame_entry(mem, f1, i1))) == frame_num(raw_addr(frame_entry(mem, f2, i2)))
        implies f1 == f2 && i1 == i2 by {
        assert(f1 == frame_num(root));
        assert(frame_entry(mem, f1, i1) == 0);
    }
    assert(levels_ok(mem, root, frames, l) && tree_ok(mem, l));
}

/// Two roots with the same entry for `w` translate `w` alike.
pub proof fn lemma_same_root_entry(m: Seq<PageTableEntry>, r1: u64, r2: u64, w: VirtAddr)
    requires
        read_entry(m, r1, w.index_at(3)) == read_entry(m, r2, w.index_at(3)),
    ensures
        spec_translate(m, r1, w) == spec_translate(m, r2, w),
{
    reveal(spec_translate);
}

/// A mapping refused because something is in the way leaves an address
/// that already translates.
pub proof fn lemma_conflict_translates(m: Seq<PageTableEntry>, root: u64, v: VirtAddr)
    ensures
        map_conflict(m, root, v) is Some ==> spec_translate(m, root, v) is Some,
{
    reveal(spec_translate);
}

/// Entry `i` of an aligned table lies in the table's frame.
pub proof fn lemma_slot_frame(t: u64, i: int)
    requires
        t % 4096 == 0,
        0 <= i < 512,
    ensures
        (t as int / 4096) * 512 <= slot(t, i) < (t as int / 4096) * 512 + 512,
        slot(t, i) / 512 == t as int / 4096,
{
}

/// Taking a free frame raises the used count by one.
pub proof fn lemma_take_free(frames: Seq<bool>, f: int)
    requires
        0 <= f < frames.len(),
        !frames[f],
    ensures
        pmm::count_true(frames.update(f, true)) == pmm::count_true(frames) + 1,
        free_frames(frames) >= 1,
        free_frames(frames.update(f, true)) == free_frames(frames) - 1,
{
    pmm::lemma_count_update(frames, f, true);
    pmm::lemma_count_le_len(frames.update(f, true));
}

/// With every frame used, none is free.
pub proof fn lemma_none_free(frames: Seq<bool>)
    requires
        forall|i: int| 0 <= i < frames.len() ==> #[trigger] frames[i],
    ensures
        free_frames(frames) == 0,
{
    pmm::lemma_count_all_true(frames);
}

/// One step of the walk in `map_page`: entry `idx` of the level-`k`
/// table at `table` either already pointed at a table (nothing changes)
/// or now points at the fresh zeroed table `t`. The hierarchy stays well
/// leveled, `t` has level `k - 1`, and existing translations stay.
pub proof fn lemma_table_step(
    m: Seq<PageTableEntry>, m2: Seq<PageTableEntry>, root: u64, fr: Seq<bool>, fr2: Seq<bool>, l: Map<int, int>,
    table: u64, idx: int, t: u64, flags: u64, k: int,
)
    requires
        levels_ok(m, root, fr, l),
        l.dom().contains(frame_num(table)),
        l[frame_num(table)] == k,
        2 <= k <= 4,
        table % 4096 == 0,
        0 <= idx < 512,
        k == 4 || !raw_present(read_entry(m, table, idx)) || !raw_huge(read_entry(m, table, idx)),
        m2.len() == m.len(),
        raw_present(read_entry(m, table, idx)) ==> t == raw_addr(read_entry(m, table, idx)) && m2 == m && fr2 == fr,
        !raw_present(read_entry(m, table, idx)) ==> {
            &&& t % 4096 == 0
            &&& 0 <= frame_num(t) < fr.len()
            &&& !fr[frame_num(t)]
            &&& frame_num(t) * 512 + 512 <= m.len()
            &&& fr2 == fr.update(frame_num(t), true)
            &&& m2[slot(table, idx)].value() == raw_entry(t, flags)
            &&& raw_present(raw_entry(t, flags))
            &&& !raw_huge(raw_entry(t, flags))
            &&& raw_addr(raw_entry(t, flags)) == t
            &&& forall|j: int| frame_num(t) * 512 <= j < frame_num(t) * 512 + 512 && j != slot(table, idx)
                ==> (#[trigger] m2[j]).value() == 0
            &&& forall|j: int| 0 <= j < m.len() && j != slot(table, idx)
                && !(frame_num(t) * 512 <= j < frame_num(t) * 512 + 512) ==> m2[j] == m[j]
        },
    ensures
        ({
            let l2 = if raw_present(read_entry(m, table, idx)) { l } else { l.insert(frame_num(t), k - 1) };
            &&& levels_ok(m2, root, fr2, l2)
            &&& l2.dom().contains(frame_num(t))
            &&& l2[frame_num(t)] == k - 1
        }),
        forall|j: int| 0 <= j < m.len() && j != slot(table, idx) && #[trigger] l.dom().contains(j / 512) ==> m2[j] == m[j],
        forall|w: VirtAddr| #[trigger] spec_translate(m2, root, w) == spec_translate(m, root, w),
        forall|w: VirtAddr| #[trigger] spec_translate(m, root, w) is Some ==> spec_translate(m2, root, w) == spec_translate(m, root, w),
{
    lemma_read_frame(m, table, idx);
    let e = read_entry(m, table, idx);
    if raw_present(e) {
        assert(frame_entry(m, frame_num(table), idx) == e);
        assert(forall|w: VirtAddr| #[trigger] spec_translate(m, root, w) is Some ==> spec_translate(m2, root, w) == spec_translate(m, root, w));
    } else {
        let f = frame_num(t);
        let sl = slot(table, idx);
        assert(sl == frame_num(table) * 512 + idx);
        assert(!l.dom().contains(f));
        assert(sl / 512 == frame_num(table));
        assert(f != frame_num(table));
        if f < frame_num(table) {
            assert(f * 512 + 512 <= frame_num(table) * 512) by (nonlinear_arith) requires f < frame_num(table);
        } else {
            assert(frame_num(table) * 512 + 512 <= f * 512) by (nonlinear_arith) requires f > frame_num(table);
        }
        assert(m2[sl].value() == raw_entry(t, flags));
        lemma_levels_add_table(m, m2, root, fr, l, frame_num(table), idx, f, k);
        assert(only_new_entries(m, m2, l)) by {
            assert forall|j: int| 0 <= j < m.len() && #[trigger] m2[j] != m[j] implies !l.dom().contains(j / 512) || !raw_present(m[j].value()) by {
                if j != sl {
                    assert(j / 512 == f);
                } else {
                    assert(m[j].value() == e);
                }
            }
        }
        assert forall|j: int| 0 <= j < m.len() && j != sl && #[trigger] l.dom().contains(j / 512) implies m2[j] == m[j] by {
            if f * 512 <= j < f * 512 + 512 {
                assert(j / 512 == f);
            }
        }
        assert(t as int / 8 == f * 512);
        assert forall|i: int| 0 <= i < 512 implies #[trigger] read_entry(m2, raw_addr(m2[sl].value()), i) == 0 by {
            assert(m2[f * 512 + i].value() == 0);
        }
        assert forall|w: VirtAddr| #[trigger] spec_translate(m2, root, w) == spec_translate(m, root, w) by {
            lemma_write_translate(m, m2, root, fr, l, sl, w);
        }
        assert forall|w: VirtAddr| #[trigger] spec_translate(m, root, w) is Some implies spec_translate(m2, root, w) == spec_translate(m, root, w) by {
            lemma_translation_kept(m, m2, root, fr, l, w);
        }
    }
}

/// Writing a leaf entry that was not present into the last-level table
/// at `pt` keeps the hierarchy well leveled and existing translations.
pub proof fn lemma_leaf_step(m: Seq<PageTableEntry>, root: u64, fr: Seq<bool>, l: Map<int, int>, pt: u64, i0: int, e: PageTableEntry)
    requires
        levels_ok(m, root, fr, l),
        l.dom().contains(frame_num(pt)),
        l[frame_num(pt)] == 1,
        pt % 4096 == 0,
        0 <= i0 < 512,
        !raw_present(read_entry(m, pt, i0)),
    ensures
        levels_ok(m.update(slot(pt, i0), e), root, fr, l),
        forall|w: VirtAddr| #[trigger] spec_translate(m, root, w) is Some
            ==> spec_translate(m.update(slot(pt, i0), e), root, w) == spec_translate(m, root, w),
        forall|w: VirtAddr| #[trigger] spec_translate(m.update(slot(pt, i0), e), root, w) == spec_translate(m, root, w)
            || (raw_present(e.value()) && spec_translate(m.update(slot(pt, i0), e), root, w)
                == Some((raw_addr(e.value()) + w.val() % 4096) as u64)),
{
    let s = slot(pt, i0);
    lemma_read_frame(m, pt, i0);
    assert(s == frame_num(pt) * 512 + i0);
    assert(s / 512 == frame_num(pt));
    assert(0 <= s < m.len());
    lemma_levels_write(m, root, fr, l, s, e);
    let m2 = m.update(s, e);
    assert(only_new_entries(m, m2, l));
    assert forall|w: VirtAddr| #[trigger] spec_translate(m, root, w) is Some implies spec_translate(m2, root, w) == spec_translate(m, root, w) by {
        lemma_translation_kept(m, m2, root, fr, l, w);
    }
    assert forall|w: VirtAddr| #[trigger] spec_translate(m2, root, w) == spec_translate(m, root, w)
        || (raw_present(e.value()) && spec_translate(m2, root, w) == Some((raw_addr(e.value()) + w.val() % 4096) as u64)) by {
        lemma_write_translate(m, m2, root, fr, l, s, w);
    }

}

/// The smaller of two integers.
pub open spec fn min_int(a: int, b: int) -> int {
    if a <= b { a } else { b }
}

/// Maps the 4 KiB page `virt` to the frame `phys` with `flags` in the
/// tables rooted at `pml4_phys`, creating missing tables (zeroed, from
/// the frame allocator; intermediate entries get `INTERMEDIATE`, or
/// `INTERMEDIATE_USER` when `flags` holds `USER`). Fails on a huge page
/// in the way, on a present leaf, and when a table cannot be allocated
/// (tables created before that stay in place).
#[verifier::spinoff_prover]
#[verifier::rlimit(100)]
pub fn map_page(
    mem: &mut [PageTableEntry],
    pmm: &mut BitmapAllocator,
    pml4_phys: PhysAddr,
    virt: VirtAddr,
    phys: PhysAddr,
    flags: PageTableFlags,
) -> (r: Result<(), MapError>)
    requires
        old(pmm).wf(),
        old(pmm).total() * 512 <= old(mem)@.len(),
        path_in_mem(old(mem)@, pml4_phys.val(), virt),
        path_owned(old(mem)@, pml4_phys.val(), virt, old(pmm).frames()),
        virt.val() % 4096 == 0,
        phys.val() % 4096 == 0,
    ensures
        final(pmm).wf(),
        final(pmm).total() == old(pmm).total(),
        final(mem)@.len() == old(mem)@.len(),
        match map_conflict(old(mem)@, pml4_phys.val(), virt) {
            Some(e) => {
                &&& r == Err::<(), MapError>(e)
                &&& final(mem)@ == old(mem)@
                &&& final(pmm).frames() == old(pmm).frames()
            },
            None => {
                &&& (r is Ok <==> tables_needed(old(mem)@, pml4_phys.val(), virt) <= free_frames(old(pmm).frames()))
                &&& (r is Err ==> r == Err::<(), MapError>(MapError::OutOfMemory))
                &&& pmm::count_true(final(pmm).frames()) == pmm::count_true(old(pmm).frames())
                    + min_int(tables_needed(old(mem)@, pml4_phys.val(), virt), free_frames(old(pmm).frames()))
                &&& forall|i: int| 0 <= i < old(pmm).frames().len() && #[trigger] old(pmm).frames()[i] ==> final(pmm).frames()[i]
            },
        },
        r is Ok ==> spec_translate(final(mem)@, pml4_phys.val(), virt)
            == (if flags.value() & PRESENT != 0 { Some(phys.val()) } else { None::<u64> }),
        tables_ok(old(mem)@, pml4_phys.val(), old(pmm).frames()) ==> tables_ok(final(mem)@, pml4_phys.val(), final(pmm).frames()),
        tables_ok(old(mem)@, pml4_phys.val(), old(pmm).frames()) ==> forall|w: VirtAddr|
            #[trigger] spec_translate(old(mem)@, pml4_phys.val(), w) is Some
                ==> spec_translate(final(mem)@, pml4_phys.val(), w) == spec_translate(old(mem)@, pml4_phys.val(), w),
        tables_ok(old(mem)@, pml4_phys.val(), old(pmm).frames()) ==> forall|w: VirtAddr|
            #[trigger] spec_translate(final(mem)@, pml4_phys.val(), w) == spec_translate(old(mem)@, pml4_phys.val(), w)
            || (flags.value() & PRESENT != 0
                && spec_translate(final(mem)@, pml4_phys.val(), w) == Some((phys.val() + w.val() % 4096) as u64)),
        tables_ok(old(mem)@, pml4_phys.val(), old(pmm).frames())
            ==> root_kept(old(mem)@, final(mem)@, pml4_phys.val(), virt.index_at(3)),
        tree_tables_ok(old(mem)@, pml4_phys.val(), old(pmm).frames()) ==> {
            &&& tree_tables_ok(final(mem)@, pml4_phys.val(), final(pmm).frames())
            &&& forall|w: VirtAddr| #[trigger] spec_translate(final(mem)@, pml4_phys.val(), w) == spec_translate(old(mem)@, pml4_phys.val(), w)
                || ({
                    &&& w.index_at(3) == virt.index_at(3) && w.index_at(2) == virt.index_at(2)
                    &&& w.index_at(1) == virt.index_at(1) && w.index_at(0) == virt.index_at(0)
                    &&& flags.value() & PRESENT != 0
                    &&& spec_translate(final(mem)@, pml4_phys.val(), w) == Some((phys.val() + w.val() % 4096) as u64)
                })
        },
{
    let _ = phys.as_u64();
    proof {
        old(pmm).lemma_wf_bounds();
        use_type_invariant(&flags);
        lemma_flag_bits(phys.val(), flags.value());
    }
    let indices = virt.page_table_indices();
    let inter = if flags.contains(PageTableFlags(USER)) {
        PageTableFlags(INTERMEDIATE_USER)
    } else {
        PageTableFlags(INTERMEDIATE)
    };
    let ghost root = pml4_phys.val();
    let ghost m0 = mem@;
    let ghost f0 = pmm.frames();
    let ghost i3 = virt.index_at(3);
    let ghost i2 = virt.index_at(2);
    let ghost i1 = virt.index_at(1);
    let ghost i0 = virt.index_at(0);
    let ghost o4 = read_entry(m0, root, i3);
    let ghost o3 = read_entry(m0, raw_addr(o4), i2);
    let ghost o2 = read_entry(m0, raw_addr(o3), i1);
    let ghost ok0 = tables_ok(m0, root, f0);
    let ghost tree0 = tree_tables_ok(m0, root, f0);
    let ghost l0: Map<int, int> = if tree0 {
        choose|l: Map<int, int>| levels_ok(m0, root, f0, l) && tree_ok(m0, l)
    } else if ok0 {
        choose|l: Map<int, int>| levels_ok(m0, root, f0, l)
    } else {
        Map::empty()
    };
    proof {
        if tree0 {
            assert(levels_ok(m0, root, f0, l0) && tree_ok(m0, l0));
            assert(ok0);
        }
    }
    proof {
        lemma_entry_bits(0, 0, 0);
        lemma_slot_frame(root, i3);
        pmm::lemma_count_le_len(f0);
    }
    // Level 4: the PDPT.
    let pdpt = match get_or_create_next_table(mem, pmm, pml4_phys, indices[3] as usize, inter) {
        Ok(t) => t,
        Err(e) => {
            proof {
                lemma_none_free(f0);
                if ok0 { assert(levels_ok(mem@, root, pmm.frames(), l0)); }
            }
            return Err(e);
        },
    };
    let ghost m1 = mem@;
    let ghost f1 = pmm.frames();
    let ghost l1: Map<int, int> = if raw_present(o4) { l0 } else { l0.insert(frame_num(pdpt.val()), 3) };
    proof {
        lemma_flag_bits(pdpt.val(), inter.value());
        if ok0 {
            lemma_table_step(m0, m1, root, f0, f1, l0, root, i3, pdpt.val(), inter.value(), 4);
            if tree0 { lemma_tree_table_step(m0, m1, root, f0, f1, l0, root, i3, pdpt.val(), inter.value(), 4); }
            lemma_root_step(m0, m1, root, l0, slot(root, i3), i3);
        }
    }
    proof {
        if !raw_present(o4) {
            let fr = frame_of(pdpt);
            lemma_take_free(f0, fr);
            lemma_slot_frame(pdpt.val(), i2);
            assert(read_entry(m1, pdpt.val(), i2) == 0);
        }
        assert(pdpt.val() % 4096 == 0);
        let c1: int = if raw_present(o4) { 0 } else { 1 };
        assert(pmm::count_true(f1) == pmm::count_true(f0) + c1);
        assert(free_frames(f0) >= c1);
        assert(raw_present(o4) ==> read_entry(m1, pdpt.val(), i2) == o3);
        assert(frame_owned(f1, root));
        assert(frame_owned(f1, pdpt.val()));
        assert(forall|i: int| 0 <= i < f0.len() && #[trigger] f0[i] ==> f1[i]);
        lemma_flag_bits(pdpt.val(), inter.value());
        assert(raw_present(read_entry(m1, root, i3)) && raw_addr(read_entry(m1, root, i3)) == pdpt.val());
    }
    let e3 = read_table_entry(mem, pdpt, indices[2] as usize);
    if e3.is_present() && e3.is_huge() {
        proof { if ok0 { assert(levels_ok(mem@, root, pmm.frames(), l1)); } }
        return Err(MapError::HugePageConflict);
    }
    // Level 3: the PD.
    let pd = match get_or_create_next_table(mem, pmm, pdpt, indices[2] as usize, inter) {
        Ok(t) => t,
        Err(e) => {
            proof {
                lemma_none_free(f1);
                if ok0 { assert(levels_ok(mem@, root, pmm.frames(), l1)); }
            }
            return Err(e);
        },
    };
    let ghost m2 = mem@;
    let ghost f2 = pmm.frames();
    let ghost l2: Map<int, int> = if raw_present(e3.value()) { l1 } else { l1.insert(frame_num(pd.val()), 2) };
    proof {
        lemma_flag_bits(pd.val(), inter.value());
        if ok0 {
            lemma_table_step(m1, m2, root, f1, f2, l1, pdpt.val(), i2, pd.val(), inter.value(), 3);
            if tree0 { lemma_tree_table_step(m1, m2, root, f1, f2, l1, pdpt.val(), i2, pd.val(), inter.value(), 3); }
            lemma_slot_frame(pdpt.val(), i2);
            lemma_root_step(m1, m2, root, l1, slot(pdpt.val(), i2), i3);
        }
    }
    proof {
        if !raw_present(e3.value()) {
            let fr = frame_of(pd);
            lemma_take_free(f1, fr);
            lemma_slot_frame(pd.val(), i1);
            lemma_slot_frame(pdpt.val(), i2);
            assert(read_entry(m2, pd.val(), i1) == 0);
        }
        assert(pd.val() % 4096 == 0);
        let c2: int = if raw_present(o4) && raw_present(o3) { 0 } else if raw_present(o4) { 1 } else { 2 };
        assert(pmm::count_true(f2) == pmm::count_true(f0) + c2);
        assert(free_frames(f0) >= c2);
        assert(raw_present(o4) && raw_present(o3) ==> read_entry(m2, pd.val(), i1) == o2);
        assert(frame_owned(f2, pdpt.val()));
        assert(frame_owned(f2, pd.val()));
        assert(frame_owned(f2, root));
        assert(forall|i: int| 0 <= i < f0.len() && #[trigger] f0[i] ==> f2[i]);
        lemma_flag_bits(pd.val(), inter.value());
        assert(read_entry(m2, root, i3) == read_entry(m1, root, i3));
        assert(raw_present(read_entry(m2, pdpt.val(), i2)) && !raw_huge(read_entry(m2, pdpt.val(), i2))
            && raw_addr(read_entry(m2, pdpt.val(), i2)) == pd.val());
    }
    let e2 = read_table_entry(mem, pd, indices[1] as usize);
    if e2.is_present() && e2.is_huge() {
        proof { if ok0 { assert(levels_ok(mem@, root, pmm.frames(), l2)); } }
        return Err(MapError::HugePageConflict);
    }
    // Level 2: the PT.
    let pt = match get_or_create_next_table(mem, pmm, pd, indices[1] as usize, inter) {
        Ok(t) => t,
        Err(e) => {
            proof {
                lemma_none_free(f2);
                if ok0 { assert(levels_ok(mem@, root, pmm.frames(), l2)); }
            }
            return Err(e);
        },
    };
    let ghost m3 = mem@;
    let ghost f3 = pmm.frames();
    let ghost l3: Map<int, int> = if raw_present(e2.value()) { l2 } else { l2.insert(frame_num(pt.val()), 1) };
    proof {
        lemma_flag_bits(pt.val(), inter.value());
        if ok0 {
            lemma_table_step(m2, m3, root, f2, f3, l2, pd.val(), i1, pt.val(), inter.value(), 2);
            if tree0 { lemma_tree_table_step(m2, m3, root, f2, f3, l2, pd.val(), i1, pt.val(), inter.value(), 2); }
            lemma_slot_frame(pd.val(), i1);
            lemma_root_step(m2, m3, root, l2, slot(pd.val(), i1), i3);
        }
    }
    proof {
        if !raw_present(e2.value()) {
            let fr = frame_of(pt);
            lemma_take_free(f2, fr);
            lemma_slot_frame(pt.val(), i0);
            lemma_slot_frame(pd.val(), i1);
            assert(read_entry(m3, pt.val(), i0) == 0);
        }
        assert(pt.val() % 4096 == 0);
        assert(pmm::count_true(f3) == pmm::count_true(f0) + tables_needed(m0, root, virt));
        if !raw_present(e2.value()) {
            lemma_slot_frame(root, i3);
            lemma_slot_frame(pdpt.val(), i2);
        }
        lemma_flag_bits(pt.val(), inter.value());
        assert(read_entry(m3, root, i3) == read_entry(m1, root, i3));
        assert(read_entry(m3, pdpt.val(), i2) == read_entry(m2, pdpt.val(), i2));
        assert(raw_present(read_entry(m3, pd.val(), i1)) && !raw_huge(read_entry(m3, pd.val(), i1))
            && raw_addr(read_entry(m3, pd.val(), i1)) == pt.val());
        assert(free_frames(f0) >= tables_needed(m0, root, virt));
        assert(forall|i: int| 0 <= i < f0.len() && #[trigger] f0[i] ==> f3[i]);
    }
    // Level 1: the leaf.
    let leaf = read_table_entry(mem, pt, indices[0] as usize);
    if leaf.is_present() {
        proof { if ok0 { assert(levels_ok(mem@, root, pmm.frames(), l3)); } }
        return Err(MapError::AlreadyMapped);
    }
    let s = (pt.as_u64() / 8 + indices[0] as u64) as usize;
    let mut ne = PageTableEntry(0);
    ne.set(phys, flags);
    mem[s] = ne;
    proof {
        let m4 = mem@;
        assert(s == slot(pt.val(), i0));
        assert(m4 == m3.update(s as int, ne));
        assert(read_entry(m4, root, i3) == read_entry(m3, root, i3));
        assert(read_entry(m4, pdpt.val(), i2) == read_entry(m3, pdpt.val(), i2));
        assert(read_entry(m4, pd.val(), i1) == read_entry(m3, pd.val(), i1));
        assert(read_entry(m4, pt.val(), i0) == raw_entry(phys.val(), flags.value()));
        reveal(spec_translate);
        if ok0 {
            lemma_leaf_step(m3, root, f3, l3, pt.val(), i0, ne);
            if tree0 {
                lemma_leaf_tree(m3, root, f3, l3, pt.val(), i0, ne, virt);
                assert(levels_ok(m4, root, f3, l3) && tree_ok(m4, l3));
            }
            lemma_slot_frame(pt.val(), i0);
            lemma_root_step(m3, m4, root, l3, s as int, i3);
        }
    }
    Ok(())
}

/// Why mapping the 2 MiB page at `v` cannot succeed whatever memory is
/// free: a 1 GiB page covering it, or a present directory entry.
pub open spec fn huge_conflict(mem: Seq<PageTableEntry>, root: u64, v: VirtAddr) -> Option<MapError> {
    let e4 = read_entry(mem, root, v.index_at(3));
    let e3 = read_entry(mem, raw_addr(e4), v.index_at(2));
    let e2 = read_entry(mem, raw_addr(e3), v.index_at(1));
    if !raw_present(e4) || !raw_present(e3) {
        None
    } else if raw_huge(e3) {
        Some(MapError::HugePageConflict)
    } else if raw_present(e2) {
        Some(MapError::AlreadyMapped)
    } else {
        None
    }
}

/// Tables a 2 MiB mapping at `v` must create.
pub open spec fn huge_tables_needed(mem: Seq<PageTableEntry>, root: u64, v: VirtAddr) -> int {
    let e4 = read_entry(mem, root, v.index_at(3));
    let e3 = read_entry(mem, raw_addr(e4), v.index_at(2));
    if !raw_present(e4) { 2 } else if !raw_present(e3) { 1 } else { 0 }
}

/// Facts about 2 MiB alignment.
pub proof fn lemma_huge_bits(a: u64, w: u64)
    by (bit_vector)
    ensures
        a & 0x1F_FFFF == 0 ==> a & !0x1F_FFFFu64 == a,
        w & 0x1F_FFFF == w % 0x20_0000,
        HUGE_PAGE & ALL_FLAGS == HUGE_PAGE,
        (w | HUGE_PAGE) & HUGE_PAGE != 0,
        (w | HUGE_PAGE) & PRESENT == w & PRESENT,
{
}

/// Writing a huge directory entry where none was present keeps the
/// hierarchy well leveled and existing translations.
pub proof fn lemma_huge_step(m: Seq<PageTableEntry>, root: u64, fr: Seq<bool>, l: Map<int, int>, pd: u64, i1: int, e: PageTableEntry)
    requires
        levels_ok(m, root, fr, l),
        l.dom().contains(frame_num(pd)),
        l[frame_num(pd)] == 2,
        pd % 4096 == 0,
        0 <= i1 < 512,
        !raw_present(read_entry(m, pd, i1)),
        raw_huge(e.value()),
    ensures
        levels_ok(m.update(slot(pd, i1), e), root, fr, l),
        forall|w: VirtAddr| #[trigger] spec_translate(m, root, w) is Some
            ==> spec_translate(m.update(slot(pd, i1), e), root, w) == spec_translate(m, root, w),
        forall|w: VirtAddr| #[trigger] spec_translate(m.update(slot(pd, i1), e), root, w) == spec_translate(m, root, w)
            || (raw_present(e.value()) && spec_translate(m.update(slot(pd, i1), e), root, w)
                == Some(((raw_addr(e.value()) & !0x1F_FFFFu64) + (w.val() & 0x1F_FFFF)) as u64)),
{
    let s = slot(pd, i1);
    lemma_read_frame(m, pd, i1);
    assert(s == frame_num(pd) * 512 + i1);
    assert(s / 512 == frame_num(pd));
    let m2 = m.update(s, e);
    assert forall|g: int, i: int| #![trigger l.dom().contains(g), frame_entry(m2, g, i)]
        l.dom().contains(g) && 2 <= l[g] && 0 <= i < 512 && raw_present(frame_entry(m2, g, i))
            && (l[g] == 4 || !raw_huge(frame_entry(m2, g, i)))
        implies l.dom().contains(frame_num(raw_addr(frame_entry(m2, g, i))))
            && l[frame_num(raw_addr(frame_entry(m2, g, i)))] == l[g] - 1 by {
        if g * 512 + i == s {
            assert((g * 512 + i) / 512 == g);
        } else {
            assert(frame_entry(m2, g, i) == frame_entry(m, g, i));
        }
    }
    assert(only_new_entries(m, m2, l));
    assert forall|w: VirtAddr| #[trigger] spec_translate(m, root, w) is Some implies spec_translate(m2, root, w) == spec_translate(m, root, w) by {
        lemma_translation_kept(m, m2, root, fr, l, w);
    }
    assert forall|w: VirtAddr| #[trigger] spec_translate(m2, root, w) == spec_translate(m, root, w)
        || (raw_present(e.value()) && spec_translate(m2, root, w) == Some(((raw_addr(e.value()) & !0x1F_FFFFu64) + (w.val() & 0x1F_FFFF)) as u64)) by {
        lemma_write_translate(m, m2, root, fr, l, s, w);
    }

}

/// Addresses in one 2 MiB page share their upper three table indices.
pub proof fn lemma_same_huge_page(v: VirtAddr, w: VirtAddr)
    requires
        v.val() as int / 0x20_0000 == w.val() as int / 0x20_0000,
    ensures
        v.index_at(3) == w.index_at(3),
        v.index_at(2) == w.index_at(2),
        v.index_at(1) == w.index_at(1),
{
    let a = v.val() as int;
    let b = w.val() as int;
    vstd::arithmetic::div_mod::lemma_div_denominator(a, 0x20_0000, 0x200);
    vstd::arithmetic::div_mod::lemma_div_denominator(b, 0x20_0000, 0x200);
    vstd::arithmetic::div_mod::lemma_div_denominator(a, 0x20_0000, 0x4_0000);
    vstd::arithmetic::div_mod::lemma_div_denominator(b, 0x20_0000, 0x4_0000);
}

/// Every address of the 2 MiB page `virt` translates through a present
/// huge directory entry that maps `phys`.
pub proof fn lemma_huge_translate(m: Seq<PageTableEntry>, root: u64, virt: VirtAddr, phys: u64, pdpt: u64, pd: u64, e: u64)
    requires
        raw_present(read_entry(m, root, virt.index_at(3))),
        raw_addr(read_entry(m, root, virt.index_at(3))) == pdpt,
        raw_present(read_entry(m, pdpt, virt.index_at(2))),
        !raw_huge(read_entry(m, pdpt, virt.index_at(2))),
        raw_addr(read_entry(m, pdpt, virt.index_at(2))) == pd,
        read_entry(m, pd, virt.index_at(1)) == e,
        raw_present(e),
        raw_huge(e),
        raw_addr(e) == phys,
        phys % 0x20_0000 == 0,
    ensures
        forall|w: VirtAddr| w.val() as int / 0x20_0000 == virt.val() as int / 0x20_0000 ==>
            #[trigger] spec_translate(m, root, w) == Some((phys + w.val() % 0x20_0000) as u64),
{
    assert forall|w: VirtAddr| w.val() as int / 0x20_0000 == virt.val() as int / 0x20_0000
        implies #[trigger] spec_translate(m, root, w) == Some((phys + w.val() % 0x20_0000) as u64) by {
        lemma_same_huge_page(virt, w);
        lemma_huge_bits(phys, w.val());
        lemma_huge_bits(w.val(), phys);
        lemma_entry_bits(e, 0, 0);
        reveal(spec_translate);
    }
}

/// Writes the huge directory entry `idx` of the level-2 table `pd`, which
/// is not present, mapping the 2 MiB frame `phys` with `flags` and the
/// huge-page bit.
fn install_huge_entry(
    mem: &mut [PageTableEntry],
    pd: PhysAddr,
    idx: usize,
    phys: PhysAddr,
    flags: PageTableFlags,
    Ghost(root): Ghost<u64>,
    Ghost(fr): Ghost<Seq<bool>>,
    Ghost(l): Ghost<Map<int, int>>,
    Ghost(v): Ghost<VirtAddr>,
)
    requires
        levels_ok(old(mem)@, root, fr, l),
        l.dom().contains(frame_num(pd.val())),
        l[frame_num(pd.val())] == 2,
        pd.val() % 4096 == 0,
        idx < 512,
        0 <= slot(pd.val(), idx as int) < old(mem)@.len(),
        !raw_present(read_entry(old(mem)@, pd.val(), idx as int)),
        phys.val() % 0x20_0000 == 0,
        flags.value() & HUGE_PAGE != 0,
    ensures
        final(mem)@ == old(mem)@.update(slot(pd.val(), idx as int), final(mem)@[slot(pd.val(), idx as int)]),
        read_entry(final(mem)@, pd.val(), idx as int) == raw_entry(phys.val(), flags.value()),
        levels_ok(final(mem)@, root, fr, l),
        forall|w: VirtAddr| #[trigger] spec_translate(old(mem)@, root, w) is Some
            ==> spec_translate(final(mem)@, root, w) == spec_translate(old(mem)@, root, w),
        forall|w: VirtAddr| #[trigger] spec_translate(final(mem)@, root, w) == spec_translate(old(mem)@, root, w)
            || (flags.value() & PRESENT != 0
                && spec_translate(final(mem)@, root, w) == Some((phys.val() + w.val() % 0x20_0000) as u64)),
        tree_ok(old(mem)@, l) && reaches_pd(old(mem)@, root, v) && walk_pd(old(mem)@, root, v) == pd.val()
            && v.index_at(1) == idx ==> {
            &&& tree_ok(final(mem)@, l)
            &&& forall|w: VirtAddr| #[trigger] spec_translate(final(mem)@, root, w) == spec_translate(old(mem)@, root, w)
                || ({
                    &&& w.index_at(3) == v.index_at(3) && w.index_at(2) == v.index_at(2) && w.index_at(1) == v.index_at(1)
                    &&& flags.value() & PRESENT != 0
                    &&& spec_translate(final(mem)@, root, w) == Some((phys.val() + w.val() % 0x20_0000) as u64)
                })
        },
{
    let _ = phys.as_u64();
    proof {
        use_type_invariant(&flags);
        lemma_flag_bits(phys.val(), flags.value());
    }
    let s = (pd.as_u64() / 8 + idx as u64) as usize;
    let mut ne = PageTableEntry(0);
    ne.set(phys, flags);
    let ghost m = mem@;
    mem[s] = ne;
    proof {
        assert(raw_huge(ne.value()));
        lemma_huge_step(m, root, fr, l, pd.val(), idx as int, ne);
        assert(mem@ == m.update(slot(pd.val(), idx as int), ne));
        lemma_huge_bits(phys.val(), phys.val());
        lemma_entry_bits(0, phys.val(), flags.value());
        assert(raw_addr(ne.value()) == phys.val());
        assert(raw_present(ne.value()) == (flags.value() & PRESENT != 0));
        assert forall|w: VirtAddr| #[trigger] spec_translate(mem@, root, w) == spec_translate(m, root, w)
            || (flags.value() & PRESENT != 0
                && spec_translate(mem@, root, w) == Some((phys.val() + w.val() % 0x20_0000) as u64)) by {
            lemma_huge_bits(phys.val(), w.val());
        }
        if tree_ok(m, l) && reaches_pd(m, root, v) && walk_pd(m, root, v) == pd.val() && v.index_at(1) == idx {
            lemma_huge_tree(m, root, fr, l, pd.val(), idx as int, ne, v);
            assert forall|w: VirtAddr| #[trigger] spec_translate(mem@, root, w) == spec_translate(m, root, w)
                || ({
                    &&& w.index_at(3) == v.index_at(3) && w.index_at(2) == v.index_at(2) && w.index_at(1) == v.index_at(1)
                    &&& flags.value() & PRESENT != 0
                    &&& spec_translate(mem@, root, w) == Some((phys.val() + w.val() % 0x20_0000) as u64)
                }) by {
                lemma_huge_bits(phys.val(), w.val());
            }
        }
    }
}

/// Maps the 2 MiB page `virt` to the 2 MiB frame `phys` with `flags` (and
/// the huge-page bit) in the tables rooted at `pml4_phys`, creating the
/// missing upper tables. Fails on a 1 GiB page in the way, on a present
/// directory entry, and when a table cannot be allocated.
#[verifier::spinoff_prover]
#[verifier::rlimit(100)]
pub fn map_huge_page_2m(
    mem: &mut [PageTableEntry],
    pmm: &mut BitmapAllocator,
    pml4_phys: PhysAddr,
    virt: VirtAddr,
    phys: PhysAddr,
    flags: PageTableFlags,
) -> (r: Result<(), MapError>)
    requires
        old(pmm).wf(),
        old(pmm).total() * 512 <= old(mem)@.len(),
        tables_ok(old(mem)@, pml4_phys.val(), old(pmm).frames()),
        virt.val() % 0x20_0000 == 0,
        phys.val() % 0x20_0000 == 0,
    ensures
        final(pmm).wf(),
        final(pmm).total() == old(pmm).total(),
        final(mem)@.len() == old(mem)@.len(),
        forall|i: int| 0 <= i < old(pmm).frames().len() && #[trigger] old(pmm).frames()[i] ==> final(pmm).frames()[i],
        tables_ok(final(mem)@, pml4_phys.val(), final(pmm).frames()),
        forall|w: VirtAddr| #[trigger] spec_translate(old(mem)@, pml4_phys.val(), w) is Some
            ==> spec_translate(final(mem)@, pml4_phys.val(), w) == spec_translate(old(mem)@, pml4_phys.val(), w),
        match huge_conflict(old(mem)@, pml4_phys.val(), virt) {
            Some(e) => {
                &&& r == Err::<(), MapError>(e)
                &&& final(mem)@ == old(mem)@
                &&& final(pmm).frames() == old(pmm).frames()
            },
            None => {
                &&& (r is Ok <==> huge_tables_needed(old(mem)@, pml4_phys.val(), virt) <= free_frames(old(pmm).frames()))
                &&& (r is Err ==> r == Err::<(), MapError>(MapError::OutOfMemory))
            },
        },
        r is Ok && flags.value() & PRESENT != 0 ==> forall|w: VirtAddr|
            w.val() as int / 0x20_0000 == virt.val() as int / 0x20_0000 ==>
            #[trigger] spec_translate(final(mem)@, pml4_phys.val(), w) == Some((phys.val() + w.val() % 0x20_0000) as u64),
        forall|w: VirtAddr| #[trigger] spec_translate(final(mem)@, pml4_phys.val(), w) == spec_translate(old(mem)@, pml4_phys.val(), w)
            || (flags.value() & PRESENT != 0
                && spec_translate(final(mem)@, pml4_phys.val(), w) == Some((phys.val() + w.val() % 0x20_0000) as u64)),
        root_kept(old(mem)@, final(mem)@, pml4_phys.val(), virt.index_at(3)),
        tree_tables_ok(old(mem)@, pml4_phys.val(), old(pmm).frames()) ==> {
            &&& tree_tables_ok(final(mem)@, pml4_phys.val(), final(pmm).frames())
            &&& forall|w: VirtAddr| #[trigger] spec_translate(final(mem)@, pml4_phys.val(), w) == spec_translate(old(mem)@, pml4_phys.val(), w)
                || ({
                    &&& w.index_at(3) == virt.index_at(3) && w.index_at(2) == virt.index_at(2) && w.index_at(1) == virt.index_at(1)
                    &&& flags.value() & PRESENT != 0
                    &&& spec_translate(final(mem)@, pml4_phys.val(), w) == Some((phys.val() + w.val() % 0x20_0000) as u64)
                })
        },
        r == Err::<(), MapError>(MapError::OutOfMemory)
            ==> forall|i: int| 0 <= i < final(pmm).frames().len() ==> #[trigger] final(pmm).frames()[i],
{
    let _ = phys.as_u64();
    proof {
        old(pmm).lemma_wf_bounds();
        use_type_invariant(&flags);
        lemma_flag_bits(phys.val(), flags.value());
        lemma_tables_ok_paths(old(mem)@, pml4_phys.val(), old(pmm).frames(), virt);
    }
    let indices = virt.page_table_indices();
    let inter = if flags.contains(PageTableFlags(USER)) {
        PageTableFlags(INTERMEDIATE_USER)
    } else {
        PageTableFlags(INTERMEDIATE)
    };
    let ghost root = pml4_phys.val();
    let ghost m0 = mem@;
    let ghost f0 = pmm.frames();
    let ghost i3 = virt.index_at(3);
    let ghost i2 = virt.index_at(2);
    let ghost i1 = virt.index_at(1);
    let ghost o4 = read_entry(m0, root, i3);
    let ghost o3 = read_entry(m0, raw_addr(o4), i2);
    let ghost tree0 = tree_tables_ok(m0, root, f0);
    let ghost l0: Map<int, int> = if tree0 {
        choose|l: Map<int, int>| levels_ok(m0, root, f0, l) && tree_ok(m0, l)
    } else {
        choose|l: Map<int, int>| levels_ok(m0, root, f0, l)
    };
    proof {
        lemma_entry_bits(0, 0, 0);
        lemma_slot_frame(root, i3);
        pmm::lemma_count_le_len(f0);
    }
    // Level 4: the PDPT.
    let pdpt = match get_or_create_next_table(mem, pmm, pml4_phys, indices[3] as usize, inter) {
        Ok(t) => t,
        Err(e) => {
            proof {
                lemma_none_free(f0);
                assert(levels_ok(mem@, root, pmm.frames(), l0));
            }
            return Err(e);
        },
    };
    let ghost m1 = mem@;
    let ghost f1 = pmm.frames();
    let ghost l1: Map<int, int> = if raw_present(o4) { l0 } else { l0.insert(frame_num(pdpt.val()), 3) };
    proof {
        lemma_flag_bits(pdpt.val(), inter.value());
        lemma_table_step(m0, m1, root, f0, f1, l0, root, i3, pdpt.val(), inter.value(), 4);
        if tree0 { lemma_tree_table_step(m0, m1, root, f0, f1, l0, root, i3, pdpt.val(), inter.value(), 4); }
        lemma_root_step(m0, m1, root, l0, slot(root, i3), i3);
        if !raw_present(o4) {
            lemma_take_free(f0, frame_of(pdpt));
            lemma_slot_frame(pdpt.val(), i2);
            assert(read_entry(m1, pdpt.val(), i2) == 0);
        }
        assert(raw_present(o4) ==> read_entry(m1, pdpt.val(), i2) == o3);
        assert(raw_present(read_entry(m1, root, i3)) && raw_addr(read_entry(m1, root, i3)) == pdpt.val());
    }
    let e3 = read_table_entry(mem, pdpt, indices[2] as usize);
    if e3.is_present() && e3.is_huge() {
        proof { assert(levels_ok(mem@, root, pmm.frames(), l1)); }
        return Err(MapError::HugePageConflict);
    }
    // Level 3: the PD.
    let pd = match get_or_create_next_table(mem, pmm, pdpt, indices[2] as usize, inter) {
        Ok(t) => t,
        Err(e) => {
            proof {
                lemma_none_free(f1);
                if !raw_present(o4) {
                    lemma_take_free(f0, frame_of(pdpt));
                }
                assert(levels_ok(mem@, root, pmm.frames(), l1));
            }
            return Err(e);
        },
    };
    let ghost m2 = mem@;
    let ghost f2 = pmm.frames();
    let ghost l2: Map<int, int> = if raw_present(e3.value()) { l1 } else { l1.insert(frame_num(pd.val()), 2) };
    proof {
        lemma_flag_bits(pd.val(), inter.value());
        lemma_table_step(m1, m2, root, f1, f2, l1, pdpt.val(), i2, pd.val(), inter.value(), 3);
        if tree0 { lemma_tree_table_step(m1, m2, root, f1, f2, l1, pdpt.val(), i2, pd.val(), inter.value(), 3); }
        lemma_slot_frame(pdpt.val(), i2);
        lemma_root_step(m1, m2, root, l1, slot(pdpt.val(), i2), i3);
        if !raw_present(e3.value()) {
            lemma_take_free(f1, frame_of(pd));
            lemma_slot_frame(pd.val(), i1);
            lemma_slot_frame(pdpt.val(), i2);
            assert(read_entry(m2, pd.val(), i1) == 0);
        }
        if !raw_present(o4) {
            lemma_take_free(f0, frame_of(pdpt));
        }
        assert(read_entry(m2, root, i3) == read_entry(m1, root, i3));
        assert(raw_present(read_entry(m2, pdpt.val(), i2)) && !raw_huge(read_entry(m2, pdpt.val(), i2))
            && raw_addr(read_entry(m2, pdpt.val(), i2)) == pd.val());
        assert(huge_tables_needed(m0, root, virt) <= free_frames(f0));
    }
    // Level 2: the huge directory entry.
    let e2 = read_table_entry(mem, pd, indices[1] as usize);
    if e2.is_present() {
        proof { assert(levels_ok(mem@, root, pmm.frames(), l2)); }
        return Err(MapError::AlreadyMapped);
    }
    proof { lemma_huge_bits(phys.val(), flags.value()); }
    let huge_flags = flags.union(PageTableFlags(HUGE_PAGE));
    let ghost m3 = mem@;
    install_huge_entry(mem, pd, indices[1] as usize, phys, huge_flags, Ghost(root), Ghost(pmm.frames()), Ghost(l2), Ghost(virt));
    proof {
        let m4 = mem@;
        let s = slot(pd.val(), i1);
        lemma_slot_frame(pd.val(), i1);
        lemma_root_step(m3, m4, root, l2, s, i3);
        assert(read_entry(m4, root, i3) == read_entry(m3, root, i3));
        assert(read_entry(m4, pdpt.val(), i2) == read_entry(m3, pdpt.val(), i2));
        if flags.value() & PRESENT != 0 {
            use_type_invariant(&huge_flags);
            lemma_huge_bits(phys.val(), flags.value());
            lemma_flag_bits(phys.val(), huge_flags.value());
            lemma_huge_translate(m4, root, virt, phys.val(), pdpt.val(), pd.val(), read_entry(m4, pd.val(), i1));
        }
    }
    Ok(())
}

/// The root table named by a CR3 value: its address bits, without the
/// flag and PCID bits below bit 12.
pub fn active_pml4(cr3: u64) -> (r: PhysAddr)
    ensures
        r.val() == cr3 & ADDR_MASK,
        r.val() % 4096 == 0,
{
    proof { lemma_entry_bits(cr3, 0, 0); }
    PhysAddr::new(cr3 & ADDR_MASK)
}

} // verus!
