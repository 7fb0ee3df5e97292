//! ELF64 executables: header checks, program headers and segment loading.

use vstd::prelude::*;
use crate::memory::address::{PhysAddr, VirtAddr, canonical, USER_HALF_END};
use crate::memory::pmm::BitmapAllocator;
use crate::memory::vmm::{self, PageTableEntry, PageTableFlags, MapError, PRESENT, USER, WRITABLE, NO_EXECUTE, tables_ok, spec_translate, lemma_tables_ok_paths, lemma_tables_ok_frames_grow};

verus! {

/// Class byte: 64-bit.
pub const ELFCLASS64: u8 = 2;
/// Data byte: little endian.
pub const ELFDATA2LSB: u8 = 1;
/// Type: executable.
pub const ET_EXEC: u16 = 2;
/// Type: position-independent executable.
pub const ET_DYN: u16 = 3;
/// Machine: x86_64.
pub const EM_X86_64: u16 = 62;
/// Segment type: loadable.
pub const PT_LOAD: u32 = 1;
/// Segment flag: executable.
pub const PF_X: u32 = 1;
/// Segment flag: writable.
pub const PF_W: u32 = 2;
/// Segment flag: readable.
pub const PF_R: u32 = 4;
/// Size of the file header.
pub const EHDR_SIZE: usize = 64;
/// Size of a program header.
pub const PHDR_SIZE: usize = 56;

/// The ELF file header.
#[derive(Clone, Copy, Debug)]
pub struct Elf64Ehdr {
    pub e_ident: [u8; 16],
    pub e_type: u16,
    pub e_machine: u16,
    pub e_version: u32,
    pub e_entry: u64,
    pub e_phoff: u64,
    pub e_shoff: u64,
    pub e_flags: u32,
    pub e_ehsize: u16,
    pub e_phentsize: u16,
    pub e_phnum: u16,
    pub e_shentsize: u16,
    pub e_shnum: u16,
    pub e_shstrndx: u16,
}

/// A program header.
#[derive(Clone, Copy, PartialEq, Eq, Structural, Debug)]
pub struct Elf64Phdr {
    pub p_type: u32,
    pub p_flags: u32,
    pub p_offset: u64,
    pub p_vaddr: u64,
    pub p_paddr: u64,
    pub p_filesz: u64,
    pub p_memsz: u64,
    pub p_align: u64,
}

/// Why an executable was refused.
#[derive(Clone, Copy, PartialEq, Eq, Structural, Debug)]
pub enum ElfError {
    TooSmall,
    BadMagic,
    Not64Bit,
    NotLittleEndian,
    NotExecutable,
    WrongArch,
    PhdrOutOfBounds,
    SegmentOutOfBounds,
    BadVaddr,
    OutOfMemory,
    MapError,
}

/// The little-endian value of `n` bytes at `off`.
pub open spec fn le(d: Seq<u8>, off: int, n: nat) -> int
    decreases n,
{
    if n == 0 { 0 } else { d[off] as int + 256 * le(d, off + 1, (n - 1) as nat) }
}

/// Reads the little-endian 16-bit value at `off`.
pub fn read_u16(d: &[u8], off: usize) -> (r: u16)
    requires
        off + 2 <= d@.len(),
    ensures
        r == le(d@, off as int, 2),
{
    proof { reveal_with_fuel(le, 3); }
    d[off] as u16 + d[off + 1] as u16 * 256
}

/// Reads the little-endian 32-bit value at `off`.
pub fn read_u32(d: &[u8], off: usize) -> (r: u32)
    requires
        off + 4 <= d@.len(),
    ensures
        r == le(d@, off as int, 4),
{
    proof { reveal_with_fuel(le, 5); }
    d[off] as u32 + d[off + 1] as u32 * 0x100 + d[off + 2] as u32 * 0x1_0000 + d[off + 3] as u32 * 0x100_0000
}

/// Reads the little-endian 64-bit value at `off`.
pub fn read_u64(d: &[u8], off: usize) -> (r: u64)
    requires
        off + 8 <= d@.len(),
    ensures
        r == le(d@, off as int, 8),
{
    proof { reveal_with_fuel(le, 9); }
    d[off] as u64 + d[off + 1] as u64 * 0x100 + d[off + 2] as u64 * 0x1_0000 + d[off + 3] as u64 * 0x100_0000
        + d[off + 4] as u64 * 0x1_0000_0000 + d[off + 5] as u64 * 0x100_0000_0000
        + d[off + 6] as u64 * 0x1_0000_0000_0000 + d[off + 7] as u64 * 0x100_0000_0000_0000
}

/// What checking a file header gives: the first failed check, in the
/// order they are made, or success.
pub open spec fn header_check(d: Seq<u8>) -> Result<(), ElfError> {
    if d.len() < EHDR_SIZE {
        Err(ElfError::TooSmall)
    } else if !(d[0] == 0x7F && d[1] == 0x45 && d[2] == 0x4C && d[3] == 0x46) {
        Err(ElfError::BadMagic)
    } else if d[4] != ELFCLASS64 {
        Err(ElfError::Not64Bit)
    } else if d[5] != ELFDATA2LSB {
        Err(ElfError::NotLittleEndian)
    } else if le(d, 16, 2) != ET_EXEC && le(d, 16, 2) != ET_DYN {
        Err(ElfError::NotExecutable)
    } else if le(d, 18, 2) != EM_X86_64 {
        Err(ElfError::WrongArch)
    } else if le(d, 32, 8) + le(d, 56, 2) * le(d, 54, 2) > d.len() {
        Err(ElfError::PhdrOutOfBounds)
    } else {
        Ok(())
    }
}

/// The header fields are the little-endian values at their offsets.
pub open spec fn ehdr_of(d: Seq<u8>, h: Elf64Ehdr) -> bool {
    &&& h.e_ident@ == d.subrange(0, 16)
    &&& h.e_type == le(d, 16, 2)
    &&& h.e_machine == le(d, 18, 2)
    &&& h.e_version == le(d, 20, 4)
    &&& h.e_entry == le(d, 24, 8)
    &&& h.e_phoff == le(d, 32, 8)
    &&& h.e_shoff == le(d, 40, 8)
    &&& h.e_flags == le(d, 48, 4)
    &&& h.e_ehsize == le(d, 52, 2)
    &&& h.e_phentsize == le(d, 54, 2)
    &&& h.e_phnum == le(d, 56, 2)
    &&& h.e_shentsize == le(d, 58, 2)
    &&& h.e_shnum == le(d, 60, 2)
    &&& h.e_shstrndx == le(d, 62, 2)
}

/// Checks an executable's file header (size, magic, 64-bit little-endian
/// x86_64 executable, program headers inside the file) and returns it.
pub fn validate_header(elf_data: &[u8]) -> (r: Result<Elf64Ehdr, ElfError>)
    ensures
        match header_check(elf_data@) {
            Ok(()) => r matches Ok(h) && ehdr_of(elf_data@, h),
            Err(e) => r matches Err(g) && g == e,
        },
{
    if elf_data.len() < EHDR_SIZE {
        return Err(ElfError::TooSmall);
    }
    if elf_data[0] != 0x7F || elf_data[1] != 0x45 || elf_data[2] != 0x4C || elf_data[3] != 0x46 {
        return Err(ElfError::BadMagic);
    }
    if elf_data[4] != ELFCLASS64 {
        return Err(ElfError::Not64Bit);
    }
    if elf_data[5] != ELFDATA2LSB {
        return Err(ElfError::NotLittleEndian);
    }
    let e_type = read_u16(elf_data, 16);
    if e_type != ET_EXEC && e_type != ET_DYN {
        return Err(ElfError::NotExecutable);
    }
    let e_machine = read_u16(elf_data, 18);
    if e_machine != EM_X86_64 {
        return Err(ElfError::WrongArch);
    }
    let e_phoff = read_u64(elf_data, 32);
    let e_phentsize = read_u16(elf_data, 54);
    let e_phnum = read_u16(elf_data, 56);
    let len = elf_data.len() as u64;
    proof {
        assert((e_phnum as int) * (e_phentsize as int) <= 0xFFFF * 0xFFFF) by (nonlinear_arith)
            requires e_phnum <= 0xFFFF, e_phentsize <= 0xFFFF;
    }
    let table = e_phnum as u64 * e_phentsize as u64;
    if e_phoff > len || table > len - e_phoff {
        return Err(ElfError::PhdrOutOfBounds);
    }
    let mut ident = [0u8; 16];
    let mut i: usize = 0;
    while i < 16
        invariant
            0 <= i <= 16,
            elf_data@.len() >= EHDR_SIZE,
            forall|k: int| 0 <= k < i ==> ident@[k] == elf_data@[k],
        decreases 16 - i,
    {
        ident[i] = elf_data[i];
        i = i + 1;
    }
    proof { assert(ident@ =~= elf_data@.subrange(0, 16)); }
    Ok(Elf64Ehdr {
        e_ident: ident,
        e_type,
        e_machine,
        e_version: read_u32(elf_data, 20),
        e_entry: read_u64(elf_data, 24),
        e_phoff,
        e_shoff: read_u64(elf_data, 40),
        e_flags: read_u32(elf_data, 48),
        e_ehsize: read_u16(elf_data, 52),
        e_phentsize,
        e_phnum,
        e_shentsize: read_u16(elf_data, 58),
        e_shnum: read_u16(elf_data, 60),
        e_shstrndx: read_u16(elf_data, 62),
    })
}

/// The program header at byte `off`.
pub open spec fn phdr_at(d: Seq<u8>, off: int) -> Elf64Phdr {
    Elf64Phdr {
        p_type: le(d, off, 4) as u32,
        p_flags: le(d, off + 4, 4) as u32,
        p_offset: le(d, off + 8, 8) as u64,
        p_vaddr: le(d, off + 16, 8) as u64,
        p_paddr: le(d, off + 24, 8) as u64,
        p_filesz: le(d, off + 32, 8) as u64,
        p_memsz: le(d, off + 40, 8) as u64,
        p_align: le(d, off + 48, 8) as u64,
    }
}

/// Reads the program header at byte `off`.
fn read_phdr(d: &[u8], off: usize) -> (r: Elf64Phdr)
    requires
        off + PHDR_SIZE <= d@.len(),
    ensures
        r == phdr_at(d@, off as int),
{
    let _n = d.len();
    Elf64Phdr {
        p_type: read_u32(d, off),
        p_flags: read_u32(d, off + 4),
        p_offset: read_u64(d, off + 8),
        p_vaddr: read_u64(d, off + 16),
        p_paddr: read_u64(d, off + 24),
        p_filesz: read_u64(d, off + 32),
        p_memsz: read_u64(d, off + 40),
        p_align: read_u64(d, off + 48),
    }
}

/// The `e_phnum` program headers, 56 bytes apart from `e_phoff`, which
/// must lie inside the file.
pub fn program_headers(elf_data: &[u8], ehdr: &Elf64Ehdr) -> (r: Vec<Elf64Phdr>)
    requires
        ehdr.e_phoff + ehdr.e_phnum * PHDR_SIZE <= elf_data@.len(),
    ensures
        r@.len() == ehdr.e_phnum,
        forall|k: int| 0 <= k < r@.len() ==> #[trigger] r@[k] == phdr_at(elf_data@, ehdr.e_phoff + k * PHDR_SIZE),
{
    let _n = elf_data.len();
    let offset = ehdr.e_phoff as usize;
    let count = ehdr.e_phnum as usize;
    let mut out: Vec<Elf64Phdr> = Vec::new();
    let mut i: usize = 0;
    while i < count
        invariant
            0 <= i <= count,
            count == ehdr.e_phnum,
            offset == ehdr.e_phoff,
            offset + count * PHDR_SIZE <= elf_data@.len(),
            _n == elf_data@.len(),
            out@.len() == i,
            forall|k: int| 0 <= k < i ==> #[trigger] out@[k] == phdr_at(elf_data@, offset + k * PHDR_SIZE),
        decreases count - i,
    {
        proof {
            assert(offset + i * PHDR_SIZE + PHDR_SIZE <= offset + count * PHDR_SIZE) by (nonlinear_arith)
                requires i < count;
        }
        out.push(read_phdr(elf_data, offset + i * PHDR_SIZE));
        i = i + 1;
    }
    out
}

/// The page flags of a segment: present and user; writable when the
/// segment is; no-execute unless it is executable and not writable, so
/// that no user page is both writable and executable.
pub open spec fn segment_page_flags(elf_flags: u32) -> u64 {
    (PRESENT | USER) | (if elf_flags & PF_W != 0 { WRITABLE } else { 0 })
        | (if elf_flags & PF_X == 0 || elf_flags & PF_W != 0 { NO_EXECUTE } else { 0 })
}

/// The page flags for a segment with ELF flags `elf_flags`.
pub fn elf_flags_to_page_flags(elf_flags: u32) -> (r: PageTableFlags)
    ensures
        r.value() == segment_page_flags(elf_flags) & vmm::ALL_FLAGS,
        r.value() & WRITABLE != 0 ==> r.value() & NO_EXECUTE != 0,
{
    let w: u64 = if elf_flags & PF_W != 0 { WRITABLE } else { 0 };
    let x: u64 = if elf_flags & PF_X == 0 || elf_flags & PF_W != 0 { NO_EXECUTE } else { 0 };
    proof {
        assert((((PRESENT | USER) | w | x) & vmm::ALL_FLAGS) & WRITABLE != 0
            ==> (((PRESENT | USER) | w | x) & vmm::ALL_FLAGS) & NO_EXECUTE != 0) by (bit_vector)
            requires
                w == 0 || w == WRITABLE,
                x == 0 || x == NO_EXECUTE,
                w == WRITABLE ==> x == NO_EXECUTE;
    }
    PageTableFlags::from_bits_truncate((PRESENT | USER) | w | x)
}

/// What loading made: the entry point and counts.
pub struct ElfLoadResult {
    /// Entry point virtual address (`e_entry`).
    pub entry_point: u64,
    /// Pages newly mapped.
    pub pages_mapped: u64,
    /// Bytes of file data to copy.
    pub bytes_copied: u64,
    /// Bytes of memory beyond the file data (`p_memsz - p_filesz`), left
    /// zero.
    pub bss_zeroed: u64,
    /// The copies of file data into the mapped frames, for the caller to
    /// carry out through the direct map.
    pub copies: Vec<CopyOp>,
    /// The frames newly allocated and mapped, which the caller zeroes
    /// through the direct map before the copies, so that memory beyond
    /// the file data reads zero.
    pub fresh_frames: Vec<u64>,
}

/// Copy `len` bytes from byte `src_offset` of the file to byte
/// `dst_offset` of the frame at `phys`, which backs the page at
/// `virt_page`.
#[derive(Clone, Copy, Debug)]
pub struct CopyOp {
    pub virt_page: u64,
    pub phys: u64,
    pub dst_offset: usize,
    pub src_offset: usize,
    pub len: usize,
}

/// A copy as (page, destination offset, source offset, length).
pub open spec fn op_view(c: CopyOp) -> (int, int, int, int) {
    (c.virt_page as int, c.dst_offset as int, c.src_offset as int, c.len as int)
}

/// Why a loadable segment is refused, checked in this order: its file
/// data must lie in the file, and its memory in the user half.
pub open spec fn seg_check(d: Seq<u8>, ph: Elf64Phdr) -> Result<(), ElfError> {
    if ph.p_type != PT_LOAD {
        Ok(())
    } else if ph.p_offset + ph.p_filesz > d.len() {
        Err(ElfError::SegmentOutOfBounds)
    } else if ph.p_vaddr >= USER_HALF_END || ph.p_vaddr + ph.p_memsz > USER_HALF_END {
        Err(ElfError::BadVaddr)
    } else {
        Ok(())
    }
}

/// The first page of a segment.
pub open spec fn seg_start(ph: Elf64Phdr) -> int {
    ph.p_vaddr - ph.p_vaddr % 4096
}

/// The number of pages a segment's memory covers.
pub open spec fn seg_pages(ph: Elf64Phdr) -> int {
    ((ph.p_vaddr + ph.p_memsz + 4095) / 4096 * 4096 - seg_start(ph)) / 4096
}

/// Page `i` of a segment.
pub open spec fn seg_page(ph: Elf64Phdr, i: int) -> int {
    seg_start(ph) + i * 4096
}

/// The copy into page `i` of a segment: the part of the file data that
/// falls in the page, if any.
pub open spec fn page_op(ph: Elf64Phdr, i: int) -> Seq<(int, int, int, int)> {
    let base = seg_page(ph, i);
    let lo = if ph.p_vaddr >= base { ph.p_vaddr as int } else { base };
    let hi = if ph.p_vaddr + ph.p_filesz <= base + 4096 { ph.p_vaddr + ph.p_filesz } else { base + 4096 };
    if lo < hi {
        seq![(base, lo - base, ph.p_offset + (lo - ph.p_vaddr), hi - lo)]
    } else {
        Seq::empty()
    }
}

/// The copies into the first `n` pages of a segment.
pub open spec fn seg_ops(ph: Elf64Phdr, n: int) -> Seq<(int, int, int, int)>
    decreases n,
{
    if n <= 0 { Seq::empty() } else { seg_ops(ph, n - 1) + page_op(ph, n - 1) }
}

/// Every byte of a segment's file data falls in one of its pages, and that
/// page's copy writes it from the matching file offset: byte `a` of
/// memory (for `p_vaddr <= a < p_vaddr + p_filesz`) lies in page
/// `(a - start) / 4096`, whose copy `(page, dst, src, len)` covers
/// `page + dst <= a < page + dst + len` and reads it from
/// `p_offset + (a - p_vaddr)`.
pub proof fn lemma_file_byte_copied(ph: Elf64Phdr, a: int)
    requires
        ph.p_vaddr <= a < ph.p_vaddr + ph.p_filesz,
        ph.p_filesz <= ph.p_memsz,
    ensures
        0 <= (a - seg_start(ph)) / 4096 < seg_pages(ph),
        page_op(ph, (a - seg_start(ph)) / 4096).len() == 1,
        ({
            let op = page_op(ph, (a - seg_start(ph)) / 4096)[0];
            &&& op.0 == seg_page(ph, (a - seg_start(ph)) / 4096)
            &&& op.0 + op.1 <= a < op.0 + op.1 + op.3
            &&& op.2 + (a - op.0 - op.1) == ph.p_offset + (a - ph.p_vaddr)
        }),
{
    let v = ph.p_vaddr as int;
    let st = seg_start(ph);
    let i = (a - st) / 4096;
    let base = seg_page(ph, i);
    let end = (v + ph.p_memsz + 4095) / 4096 * 4096;
    assert(st <= v && v - st < 4096 && st % 4096 == 0) by (nonlinear_arith)
        requires st == v - v % 4096, v >= 0;
    assert(0 <= i && st + i * 4096 <= a < st + i * 4096 + 4096) by (nonlinear_arith)
        requires i == (a - st) / 4096, a >= st;
    assert(end >= v + ph.p_memsz && end % 4096 == 0) by (nonlinear_arith)
        requires end == (v + ph.p_memsz + 4095) / 4096 * 4096, v + ph.p_memsz >= 0;
    assert(i < (end - st) / 4096) by (nonlinear_arith)
        requires end % 4096 == 0, st % 4096 == 0, a < end, st <= a, i == (a - st) / 4096, st >= 0;
    assert(page_op(ph, i).len() == 1);
}

/// A page's copy writes only file data, each byte from its own file
/// offset, and stays inside the page: for a copy `(page, dst, src, len)`
/// of page `i`, `page` is that page, `0 <= dst`, `dst + len <= 4096`,
/// `len > 0`, the bytes `page + dst .. page + dst + len` lie in
/// `p_vaddr .. p_vaddr + p_filesz`, and `src = p_offset + (page + dst -
/// p_vaddr)`.
pub proof fn lemma_page_copy_sound(ph: Elf64Phdr, i: int)
    requires
        page_op(ph, i).len() > 0,
    ensures
        page_op(ph, i).len() == 1,
        ({
            let op = page_op(ph, i)[0];
            &&& op.0 == seg_page(ph, i)
            &&& 0 <= op.1 && op.1 + op.3 <= 4096 && op.3 > 0
            &&& ph.p_vaddr <= op.0 + op.1 && op.0 + op.1 + op.3 <= ph.p_vaddr + ph.p_filesz
            &&& op.2 == ph.p_offset + (op.0 + op.1 - ph.p_vaddr)
        }),
{
}

/// A segment's copies hold the copy of each of its first `n` pages.
pub proof fn lemma_seg_ops_has_page(ph: Elf64Phdr, n: int, i: int)
    requires
        0 <= i < n,
        page_op(ph, i).len() == 1,
    ensures
        exists|k: int| 0 <= k < seg_ops(ph, n).len() && #[trigger] seg_ops(ph, n)[k] == page_op(ph, i)[0],
    decreases n,
{
    if i == n - 1 {
        let k = seg_ops(ph, n - 1).len() as int;
        assert(seg_ops(ph, n)[k] == page_op(ph, i)[0]);
    } else {
        lemma_seg_ops_has_page(ph, n - 1, i);
        let k = choose|k: int| 0 <= k < seg_ops(ph, n - 1).len() && #[trigger] seg_ops(ph, n - 1)[k] == page_op(ph, i)[0];
        assert(seg_ops(ph, n)[k] == seg_ops(ph, n - 1)[k]);
    }
}

/// The copies for the first `n` program headers hold every copy of each
/// loadable one among them.
pub proof fn lemma_all_ops_has(phs: Seq<Elf64Phdr>, n: int, j: int, op: (int, int, int, int))
    requires
        0 <= j < n <= phs.len(),
        phs[j].p_type == PT_LOAD,
        exists|k: int| 0 <= k < seg_ops(phs[j], seg_pages(phs[j])).len() && #[trigger] seg_ops(phs[j], seg_pages(phs[j]))[k] == op,
    ensures
        exists|k: int| 0 <= k < all_ops(phs, n).len() && #[trigger] all_ops(phs, n)[k] == op,
    decreases n,
{
    if j == n - 1 {
        let k = choose|k: int| 0 <= k < seg_ops(phs[j], seg_pages(phs[j])).len() && #[trigger] seg_ops(phs[j], seg_pages(phs[j]))[k] == op;
        let m = all_ops(phs, n - 1).len() as int;
        assert(all_ops(phs, n)[m + k] == op);
    } else {
        lemma_all_ops_has(phs, n - 1, j, op);
        let k = choose|k: int| 0 <= k < all_ops(phs, n - 1).len() && #[trigger] all_ops(phs, n - 1)[k] == op;
        if phs[n - 1].p_type == PT_LOAD {
            assert(all_ops(phs, n)[k] == op);
        } else {
            assert(all_ops(phs, n) == all_ops(phs, n - 1));
            assert(all_ops(phs, n)[k] == op);
        }
    }
}

/// The copies a load lists cover the file data of every loadable segment:
/// for each byte `a` of segment `j`'s file data there is a copy
/// `(page, dst, src, len)` with `page + dst <= a < page + dst + len` that
/// reads it from file offset `p_offset + (a - p_vaddr)`.
pub proof fn lemma_load_copies_cover(phs: Seq<Elf64Phdr>, j: int, a: int)
    requires
        0 <= j < phs.len(),
        phs[j].p_type == PT_LOAD,
        phs[j].p_vaddr <= a < phs[j].p_vaddr + phs[j].p_filesz,
        phs[j].p_filesz <= phs[j].p_memsz,
    ensures
        exists|k: int| 0 <= k < all_ops(phs, phs.len() as int).len() && {
            let op = #[trigger] all_ops(phs, phs.len() as int)[k];
            &&& op.0 + op.1 <= a < op.0 + op.1 + op.3
            &&& op.2 + (a - op.0 - op.1) == phs[j].p_offset + (a - phs[j].p_vaddr)
        },
{
    let ph = phs[j];
    lemma_file_byte_copied(ph, a);
    let i = (a - seg_start(ph)) / 4096;
    lemma_seg_ops_has_page(ph, seg_pages(ph), i);
    let op = page_op(ph, i)[0];
    lemma_all_ops_has(phs, phs.len() as int, j, op);
}

/// The copies for the first `k` program headers (loadable ones only).
pub open spec fn all_ops(phs: Seq<Elf64Phdr>, k: int) -> Seq<(int, int, int, int)>
    decreases k,
{
    if k <= 0 {
        Seq::empty()
    } else if phs[k - 1].p_type == PT_LOAD {
        all_ops(phs, k - 1) + seg_ops(phs[k - 1], seg_pages(phs[k - 1]))
    } else {
        all_ops(phs, k - 1)
    }
}

/// The memory beyond the file data of the first `k` loadable segments.
pub open spec fn bss_total(phs: Seq<Elf64Phdr>, k: int) -> int
    decreases k,
{
    if k <= 0 {
        0
    } else if phs[k - 1].p_type == PT_LOAD && phs[k - 1].p_memsz > phs[k - 1].p_filesz {
        bss_total(phs, k - 1) + (phs[k - 1].p_memsz - phs[k - 1].p_filesz)
    } else {
        bss_total(phs, k - 1)
    }
}

/// The total length of a list of copies.
pub open spec fn ops_len(ops: Seq<(int, int, int, int)>) -> int
    decreases ops.len(),
{
    if ops.len() == 0 { 0 } else { ops_len(ops.drop_last()) + ops.last().3 }
}

proof fn lemma_ops_len_push(ops: Seq<(int, int, int, int)>, o: (int, int, int, int))
    ensures
        ops_len(ops.push(o)) == ops_len(ops) + o.3,
{
    assert(ops.push(o).drop_last() =~= ops);
}

/// Every frame the allocator tracks is in use.
pub open spec fn frames_exhausted(f: Seq<bool>) -> bool {
    forall|i: int| 0 <= i < f.len() ==> #[trigger] f[i]
}

/// Mapping the page at `page` meets a mapping already there: a huge page
/// over it, or a present 4 KiB entry.
pub open spec fn page_conflicts(mem: Seq<PageTableEntry>, root: u64, page: int) -> bool {
    forall|w: VirtAddr| w.val() == page ==> #[trigger] vmm::map_conflict(mem, root, w) is Some
}

/// What a failed page load leaves: `OutOfMemory` only with every frame
/// in use, `MapError` only with every frame in use or a mapping in the
/// way of page `page`.
pub open spec fn page_failure(e: ElfError, frames: Seq<bool>, mem: Seq<PageTableEntry>, root: u64, page: int) -> bool {
    ||| e == ElfError::OutOfMemory && frames_exhausted(frames)
    ||| e == ElfError::MapError && (frames_exhausted(frames) || page_conflicts(mem, root, page))
}

/// Every page-aligned address that `m1` translates and `m0` does not is
/// mapped to one of the frames `fresh`.
pub open spec fn new_pages_fresh(m0: Seq<PageTableEntry>, m1: Seq<PageTableEntry>, root: u64, fresh: Seq<u64>) -> bool {
    forall|w: VirtAddr| w.val() % 4096 == 0 && spec_translate(m0, root, w) is None
        && #[trigger] spec_translate(m1, root, w) is Some ==> fresh.contains(spec_translate(m1, root, w)->0)
}

/// Every item of `a` is in `b`.
pub open spec fn kept_in(a: Seq<u64>, b: Seq<u64>) -> bool {
    forall|x: u64| #[trigger] a.contains(x) ==> b.contains(x)
}

/// New pages over two steps: a page new in the second step is covered by
/// the second list; one new in the first step keeps its frame and stays
/// in the list.
proof fn lemma_fresh_trans(
    m0: Seq<PageTableEntry>, m1: Seq<PageTableEntry>, m2: Seq<PageTableEntry>, root: u64,
    f1: Seq<u64>, f2: Seq<u64>,
)
    requires
        new_pages_fresh(m0, m1, root, f1),
        new_pages_fresh(m1, m2, root, f2),
        kept_in(f1, f2),
        forall|w: VirtAddr| #[trigger] spec_translate(m1, root, w) is Some ==> spec_translate(m2, root, w) == spec_translate(m1, root, w),
    ensures
        new_pages_fresh(m0, m2, root, f2),
{
    assert forall|w: VirtAddr| w.val() % 4096 == 0 && spec_translate(m0, root, w) is None
        && #[trigger] spec_translate(m2, root, w) is Some implies f2.contains(spec_translate(m2, root, w)->0) by {
        if spec_translate(m1, root, w) is Some {
            assert(f1.contains(spec_translate(m1, root, w)->0));
        }
    }
}

/// Segment flags give present pages.
proof fn lemma_segment_flags_present(f: u32)
    ensures
        (segment_page_flags(f) & vmm::ALL_FLAGS) & PRESENT != 0,
{
    let w: u64 = if f & PF_W != 0 { WRITABLE } else { 0 };
    let x: u64 = if f & PF_X == 0 || f & PF_W != 0 { NO_EXECUTE } else { 0 };
    assert((((PRESENT | USER) | w | x) & vmm::ALL_FLAGS) & PRESENT != 0) by (bit_vector);
}

/// Backs the user page at `page` with a fresh zeroed frame mapped with
/// `flags`, or, when the page is mapped already, with the frame it maps
/// (the fresh frame goes back). Returns the frame and whether the
/// mapping is new.
fn map_user_page(
    mem: &mut [PageTableEntry],
    pmm: &mut BitmapAllocator,
    pml4: PhysAddr,
    page: u64,
    flags: PageTableFlags,
) -> (r: Result<(u64, bool), ElfError>)
    requires
        page % 4096 == 0,
        page < USER_HALF_END,
        flags.value() & PRESENT != 0,
        old(pmm).wf(),
        old(pmm).total() * 512 <= old(mem)@.len(),
        tables_ok(old(mem)@, pml4.val(), old(pmm).frames()),
    ensures
        final(pmm).wf(),
        final(pmm).total() == old(pmm).total(),
        final(mem)@.len() == old(mem)@.len(),
        tables_ok(final(mem)@, pml4.val(), final(pmm).frames()),
        forall|w: VirtAddr| #[trigger] spec_translate(old(mem)@, pml4.val(), w) is Some
            ==> spec_translate(final(mem)@, pml4.val(), w) == spec_translate(old(mem)@, pml4.val(), w),
        match r {
            Ok((p, _)) => forall|w: VirtAddr| w.val() == page ==> #[trigger] spec_translate(final(mem)@, pml4.val(), w) == Some(p),
            Err(e) => page_failure(e, final(pmm).frames(), final(mem)@, pml4.val(), page as int),
        },
        r matches Ok((p, true)) ==> new_pages_fresh(old(mem)@, final(mem)@, pml4.val(), seq![p]),
        r matches Ok((_, false)) ==> final(mem)@ == old(mem)@,
{
    let va = VirtAddr::new(page);
    let ghost fr_before = pmm.frames();
    let frame = match pmm.alloc_frame_zeroed() {
        None => return Err(ElfError::OutOfMemory),
        Some(f) => f,
    };
    let ghost m_before = mem@;
    let ghost fr_mid = pmm.frames();
    proof {
        lemma_tables_ok_frames_grow(mem@, pml4.val(), fr_before, pmm.frames());
        lemma_tables_ok_paths(mem@, pml4.val(), pmm.frames(), va);
        pmm.lemma_wf_bounds();
    }
    match vmm::map_page(mem, pmm, pml4, va, frame, flags) {
        Ok(()) => {
            proof {
                assert forall|w: VirtAddr| w.val() == page implies #[trigger] spec_translate(mem@, pml4.val(), w) == Some(frame.val()) by {
                    VirtAddr::lemma_same_val(w, va);
                }
                assert forall|w: VirtAddr| w.val() % 4096 == 0 && spec_translate(m_before, pml4.val(), w) is None
                    && #[trigger] spec_translate(mem@, pml4.val(), w) is Some implies seq![frame.val()].contains(spec_translate(mem@, pml4.val(), w)->0) by {
                    assert(seq![frame.val()][0] == frame.val());
                }
            }
            Ok((frame.as_u64(), true))
        },
        Err(MapError::AlreadyMapped) => {
            pmm.free_frame(frame);
            proof {
                assert(pmm.frames() =~= fr_before);
            }
            match vmm::translate(mem, pml4, va) {
                Some(p) => {
                    proof {
                        assert forall|w: VirtAddr| w.val() == page implies #[trigger] spec_translate(mem@, pml4.val(), w) == Some(p.val()) by {
                            VirtAddr::lemma_same_val(w, va);
                        }
                    }
                    Ok((p.as_u64(), false))
                },
                None => {
                    proof {
                        assert forall|w: VirtAddr| w.val() == page implies #[trigger] vmm::map_conflict(mem@, pml4.val(), w) is Some by {
                            VirtAddr::lemma_same_val(w, va);
                        }
                    }
                    Err(ElfError::MapError)
                },
            }
        },
        Err(_) => {
            proof {
                if vmm::map_conflict(m_before, pml4.val(), va) is Some {
                    assert forall|w: VirtAddr| w.val() == page implies #[trigger] vmm::map_conflict(mem@, pml4.val(), w) is Some by {
                        VirtAddr::lemma_same_val(w, va);
                    }
                } else {
                    pmm.lemma_wf_bounds();
                    crate::memory::pmm::lemma_count_full(pmm.frames());
                }
            }
            Err(ElfError::MapError)
        },
    }
}

/// The copy of file data into page `i` (at `page`, backed by the frame at
/// `phys`) of a segment, if any of its file data falls there.
fn page_copy(ph: &Elf64Phdr, page: u64, phys: u64, i: u64) -> (r: Option<CopyOp>)
    requires
        page == seg_page(*ph, i as int),
        page + 4096 <= USER_HALF_END,
        ph.p_vaddr < USER_HALF_END,
        ph.p_offset + ph.p_filesz <= usize::MAX,
    ensures
        match r {
            Some(op) => page_op(*ph, i as int) == seq![op_view(op)] && op.virt_page == page && op.phys == phys,
            None => page_op(*ph, i as int) == Seq::<(int, int, int, int)>::empty(),
        },
{
    let vaddr = ph.p_vaddr;
    let lo = if vaddr >= page { vaddr } else { page };
    let hi = if ph.p_filesz <= page + 4096 - vaddr || page + 4096 < vaddr {
        if page + 4096 < vaddr { page + 4096 } else { vaddr + ph.p_filesz }
    } else {
        page + 4096
    };
    if lo < hi {
        Some(CopyOp {
            virt_page: page,
            phys,
            dst_offset: (lo - page) as usize,
            src_offset: (ph.p_offset + (lo - vaddr)) as usize,
            len: (hi - lo) as usize,
        })
    } else {
        None
    }
}

/// Loads page `i` of a segment: maps it (see `map_user_page`) and
/// records the copy of the file data that falls in it.
fn load_page(
    d: &[u8],
    ph: &Elf64Phdr,
    mem: &mut [PageTableEntry],
    pmm: &mut BitmapAllocator,
    pml4: PhysAddr,
    copies: &mut Vec<CopyOp>,
    fresh: &mut Vec<u64>,
    i: u64,
    flags: PageTableFlags,
    Ghost(ops0): Ghost<Seq<(int, int, int, int)>>,
) -> (r: Result<bool, ElfError>)
    requires
        i < seg_pages(*ph),
        seg_pages(*ph) <= 0x8_0000_0000,
        seg_start(*ph) + seg_pages(*ph) * 4096 <= USER_HALF_END,
        seg_start(*ph) % 4096 == 0,
        ph.p_type == PT_LOAD,
        seg_check(d@, *ph) is Ok,
        flags.value() & PRESENT != 0,
        old(pmm).wf(),
        old(pmm).total() * 512 <= old(mem)@.len(),
        tables_ok(old(mem)@, pml4.val(), old(pmm).frames()),
        forall|n: int, w: VirtAddr| 0 <= n < old(copies)@.len() && w.val() == #[trigger] old(copies)@[n].virt_page ==>
            #[trigger] spec_translate(old(mem)@, pml4.val(), w) == Some(old(copies)@[n].phys),
        old(copies)@.map_values(|c: CopyOp| op_view(c)) == ops0 + seg_ops(*ph, i as int),
        forall|j: int, w: VirtAddr| 0 <= j < i && w.val() == #[trigger] seg_page(*ph, j) ==>
            #[trigger] spec_translate(old(mem)@, pml4.val(), w) is Some,
    ensures
        final(pmm).wf(),
        final(pmm).total() == old(pmm).total(),
        final(mem)@.len() == old(mem)@.len(),
        tables_ok(final(mem)@, pml4.val(), final(pmm).frames()),
        forall|w: VirtAddr| #[trigger] spec_translate(old(mem)@, pml4.val(), w) is Some
            ==> spec_translate(final(mem)@, pml4.val(), w) == spec_translate(old(mem)@, pml4.val(), w),
        forall|n: int, w: VirtAddr| 0 <= n < final(copies)@.len() && w.val() == #[trigger] final(copies)@[n].virt_page ==>
            #[trigger] spec_translate(final(mem)@, pml4.val(), w) == Some(final(copies)@[n].phys),
        r is Ok ==> final(copies)@.map_values(|c: CopyOp| op_view(c)) == ops0 + seg_ops(*ph, i + 1),
        r is Ok ==> forall|j: int, w: VirtAddr| 0 <= j < i + 1 && w.val() == #[trigger] seg_page(*ph, j) ==>
            #[trigger] spec_translate(final(mem)@, pml4.val(), w) is Some,
        r matches Err(e) ==> page_failure(e, final(pmm).frames(), final(mem)@, pml4.val(), seg_page(*ph, i as int)),
        r is Ok ==> new_pages_fresh(old(mem)@, final(mem)@, pml4.val(), final(fresh)@),
        kept_in(old(fresh)@, final(fresh)@),
{
    let start = ph.p_vaddr - ph.p_vaddr % 4096;
    let page = start + i * 4096;
    let ghost m_before = mem@;
    let (page_phys, fresh_page) = match map_user_page(mem, pmm, pml4, page, flags) {
        Ok(p) => p,
        Err(e) => {
            proof {
                assert forall|n: int, w: VirtAddr| 0 <= n < copies@.len() && w.val() == #[trigger] copies@[n].virt_page implies
                    #[trigger] spec_translate(mem@, pml4.val(), w) == Some(copies@[n].phys) by {
                    assert(spec_translate(m_before, pml4.val(), w) == Some(copies@[n].phys));
                }
            }
            return Err(e);
        },
    };
    let ghost fresh0 = fresh@;
    if fresh_page {
        fresh.push(page_phys);
        proof {
            assert forall|w: VirtAddr| w.val() % 4096 == 0 && spec_translate(m_before, pml4.val(), w) is None
                && #[trigger] spec_translate(mem@, pml4.val(), w) is Some implies fresh@.contains(spec_translate(mem@, pml4.val(), w)->0) by {
                assert(seq![page_phys].contains(spec_translate(mem@, pml4.val(), w)->0));
                assert(fresh@[fresh@.len() - 1] == page_phys);
            }
        }
    }
    proof {
        assert forall|x: u64| #[trigger] fresh0.contains(x) implies fresh@.contains(x) by {
            let j = choose|j: int| 0 <= j < fresh0.len() && fresh0[j] == x;
            assert(fresh@[j] == x);
        }
    }
    let ghost before = copies@;
    let _dlen = d.len();
    proof {
        assert(seg_ops(*ph, i + 1) == seg_ops(*ph, i as int) + page_op(*ph, i as int));
    }
    match page_copy(ph, page, page_phys, i) {
        Some(op) => {
            copies.push(op);
            proof {
                assert(copies@.map_values(|c: CopyOp| op_view(c)) =~= before.map_values(|c: CopyOp| op_view(c)).push(op_view(op)));
                assert(copies@.map_values(|c: CopyOp| op_view(c)) =~= ops0 + seg_ops(*ph, i + 1));
            }
        },
        None => {
            proof {
                assert(copies@.map_values(|c: CopyOp| op_view(c)) =~= ops0 + seg_ops(*ph, i + 1));
            }
        },
    }
    proof {
        assert forall|n: int, w: VirtAddr| 0 <= n < copies@.len() && w.val() == #[trigger] copies@[n].virt_page implies
            #[trigger] spec_translate(mem@, pml4.val(), w) == Some(copies@[n].phys) by {
            if n < before.len() {
                assert(copies@[n] == before[n]);
                assert(spec_translate(m_before, pml4.val(), w) == Some(before[n].phys));
            }
        }
        assert forall|j: int, w: VirtAddr| 0 <= j < i + 1 && w.val() == #[trigger] seg_page(*ph, j) implies
            #[trigger] spec_translate(mem@, pml4.val(), w) is Some by {
            if j < i {
                assert(spec_translate(m_before, pml4.val(), w) is Some);
            }
        }
    }
    Ok(fresh_page)
}

/// Maps the pages of one loadable segment into the tables at `pml4`,
/// each backed by a fresh zeroed frame (or the frame already mapped
/// there), and records the copies of its file data. Returns the number of
/// pages newly mapped.
#[verifier::spinoff_prover]
#[verifier::rlimit(60)]
fn load_segment(
    d: &[u8],
    ph: &Elf64Phdr,
    mem: &mut [PageTableEntry],
    pmm: &mut BitmapAllocator,
    pml4: PhysAddr,
    copies: &mut Vec<CopyOp>,
    fresh: &mut Vec<u64>,
) -> (r: Result<u64, ElfError>)
    requires
        ph.p_type == PT_LOAD,
        seg_check(d@, *ph) is Ok,
        old(pmm).wf(),
        old(pmm).total() * 512 <= old(mem)@.len(),
        tables_ok(old(mem)@, pml4.val(), old(pmm).frames()),
        forall|n: int, w: VirtAddr| 0 <= n < old(copies)@.len() && w.val() == #[trigger] old(copies)@[n].virt_page ==>
            #[trigger] spec_translate(old(mem)@, pml4.val(), w) == Some(old(copies)@[n].phys),
    ensures
        final(pmm).wf(),
        final(pmm).total() == old(pmm).total(),
        final(mem)@.len() == old(mem)@.len(),
        tables_ok(final(mem)@, pml4.val(), final(pmm).frames()),
        forall|w: VirtAddr| #[trigger] spec_translate(old(mem)@, pml4.val(), w) is Some
            ==> spec_translate(final(mem)@, pml4.val(), w) == spec_translate(old(mem)@, pml4.val(), w),
        forall|n: int, w: VirtAddr| 0 <= n < final(copies)@.len() && w.val() == #[trigger] final(copies)@[n].virt_page ==>
            #[trigger] spec_translate(final(mem)@, pml4.val(), w) == Some(final(copies)@[n].phys),
        match r {
            Ok(newly) => {
                &&& final(copies)@.map_values(|c: CopyOp| op_view(c)) == old(copies)@.map_values(|c: CopyOp| op_view(c)) + seg_ops(*ph, seg_pages(*ph))
                &&& forall|i: int, w: VirtAddr| 0 <= i < seg_pages(*ph) && w.val() == #[trigger] seg_page(*ph, i) ==>
                    #[trigger] spec_translate(final(mem)@, pml4.val(), w) is Some
                &&& newly <= seg_pages(*ph)
            },
            Err(e) => exists|i: int| 0 <= i < seg_pages(*ph)
                && page_failure(e, final(pmm).frames(), final(mem)@, pml4.val(), #[trigger] seg_page(*ph, i)),
        },
        r is Ok ==> new_pages_fresh(old(mem)@, final(mem)@, pml4.val(), final(fresh)@),
        kept_in(old(fresh)@, final(fresh)@),
{
    let flags = elf_flags_to_page_flags(ph.p_flags);
    proof { lemma_segment_flags_present(ph.p_flags); }
    let vaddr = ph.p_vaddr;
    let memsz = ph.p_memsz;
    let filesz = ph.p_filesz;
    let offset = ph.p_offset;
    let start = vaddr - vaddr % 4096;
    let end = (vaddr + memsz + 4095) / 4096 * 4096;
    let npages = (end - start) / 4096;
    proof {
        assert(end >= start);
        assert(npages <= 0x8_0000_0000);
        assert(npages == seg_pages(*ph));
    }
    let ghost ops0 = copies@.map_values(|c: CopyOp| op_view(c));
    let mut newly: u64 = 0;
    let mut i: u64 = 0;
    while i < npages
        invariant
            0 <= i <= npages,
            npages == seg_pages(*ph),
            npages <= 0x8_0000_0000,
            start == seg_start(*ph),
            start + npages * 4096 <= USER_HALF_END,
            ph.p_type == PT_LOAD,
            seg_check(d@, *ph) is Ok,
            flags.value() & PRESENT != 0,
            pmm.wf(),
            pmm.total() == old(pmm).total(),
            pmm.total() * 512 <= mem@.len(),
            mem@.len() == old(mem)@.len(),
            tables_ok(mem@, pml4.val(), pmm.frames()),
            forall|w: VirtAddr| #[trigger] spec_translate(old(mem)@, pml4.val(), w) is Some
                ==> spec_translate(mem@, pml4.val(), w) == spec_translate(old(mem)@, pml4.val(), w),
            forall|n: int, w: VirtAddr| 0 <= n < copies@.len() && w.val() == #[trigger] copies@[n].virt_page ==>
                #[trigger] spec_translate(mem@, pml4.val(), w) == Some(copies@[n].phys),
            copies@.map_values(|c: CopyOp| op_view(c)) == ops0 + seg_ops(*ph, i as int),
            ops0 == old(copies)@.map_values(|c: CopyOp| op_view(c)),
            forall|j: int, w: VirtAddr| 0 <= j < i && w.val() == #[trigger] seg_page(*ph, j) ==>
                #[trigger] spec_translate(mem@, pml4.val(), w) is Some,
            newly <= i,
            new_pages_fresh(old(mem)@, mem@, pml4.val(), fresh@),
            kept_in(old(fresh)@, fresh@),
        decreases npages - i,
    {
        let ghost m_before = mem@;
        let ghost f_before = fresh@;
        let is_new = load_page(d, ph, mem, pmm, pml4, copies, fresh, i, flags, Ghost(ops0))?;
        proof {
            lemma_fresh_trans(old(mem)@, m_before, mem@, pml4.val(), f_before, fresh@);
        }
        if is_new {
            newly = newly + 1;
        }
        i = i + 1;
    }
    Ok(newly)
}

/// `x`, or `u64::MAX` when it is larger.
pub open spec fn clamp_u64(x: int) -> int {
    if x > u64::MAX { u64::MAX as int } else { x }
}

/// The program headers a file holds: `e_phnum` of them, 56 bytes apart
/// from `e_phoff`.
pub open spec fn phdrs_of(d: Seq<u8>) -> Seq<Elf64Phdr> {
    Seq::new(le(d, 56, 2) as nat, |k: int| phdr_at(d, le(d, 32, 8) + k * PHDR_SIZE))
}

/// Every one of the first `k` program headers passes `seg_check`.
pub open spec fn segs_ok(d: Seq<u8>, phs: Seq<Elf64Phdr>, k: int) -> bool {
    forall|j: int| 0 <= j < k ==> #[trigger] seg_check(d, phs[j]) is Ok
}

/// Loads an executable into the address space whose tables are rooted
/// at `pml4_phys`: checks the file header and every loadable segment
/// (`seg_check`, in order; the first failure is returned before any
/// frame is taken or table written), then maps the pages of each
/// loadable segment to freshly allocated frames, reusing a frame where an
/// earlier segment mapped the page already. Frame contents are not
/// touched here: the result lists the fresh frames, for the caller to
/// zero, and the copies of the file data, each into a frame the page is
/// mapped to. `OutOfMemory` comes only when every frame is in use;
/// `MapError` only then or where a mapping already stands in the way.
pub fn load(
    elf_data: &[u8],
    mem: &mut [PageTableEntry],
    pmm: &mut BitmapAllocator,
    pml4_phys: PhysAddr,
) -> (r: Result<ElfLoadResult, ElfError>)
    requires
        old(pmm).wf(),
        old(pmm).total() * 512 <= old(mem)@.len(),
        tables_ok(old(mem)@, pml4_phys.val(), old(pmm).frames()),
    ensures
        final(pmm).wf(),
        final(pmm).total() == old(pmm).total(),
        final(mem)@.len() == old(mem)@.len(),
        tables_ok(final(mem)@, pml4_phys.val(), final(pmm).frames()),
        forall|w: VirtAddr| #[trigger] spec_translate(old(mem)@, pml4_phys.val(), w) is Some
            ==> spec_translate(final(mem)@, pml4_phys.val(), w) == spec_translate(old(mem)@, pml4_phys.val(), w),
        header_check(elf_data@) matches Err(e) ==> r == Err::<ElfLoadResult, ElfError>(e),
        header_check(elf_data@) is Ok && le(elf_data@, 32, 8) + le(elf_data@, 56, 2) * PHDR_SIZE > elf_data@.len()
            ==> r == Err::<ElfLoadResult, ElfError>(ElfError::PhdrOutOfBounds),
        r matches Ok(res) ==> {
            let phs = phdrs_of(elf_data@);
            &&& header_check(elf_data@) is Ok
            &&& segs_ok(elf_data@, phs, phs.len() as int)
            &&& res.entry_point == le(elf_data@, 24, 8)
            &&& res.copies@.map_values(|c: CopyOp| op_view(c)) == all_ops(phs, phs.len() as int)
            &&& forall|n: int, w: VirtAddr| 0 <= n < res.copies@.len() && w.val() == #[trigger] res.copies@[n].virt_page ==>
                #[trigger] spec_translate(final(mem)@, pml4_phys.val(), w) == Some(res.copies@[n].phys)
            &&& forall|k: int, i: int, w: VirtAddr| 0 <= k < phs.len() && phs[k].p_type == PT_LOAD && 0 <= i < seg_pages(phs[k])
                && w.val() == #[trigger] seg_page(phs[k], i) ==> #[trigger] spec_translate(final(mem)@, pml4_phys.val(), w) is Some
            &&& res.bss_zeroed == clamp_u64(bss_total(phs, phs.len() as int))
            &&& res.bytes_copied == clamp_u64(ops_len(all_ops(phs, phs.len() as int)))
            &&& new_pages_fresh(old(mem)@, final(mem)@, pml4_phys.val(), res.fresh_frames@)
        },
        r is Err && (r->Err_0 == ElfError::SegmentOutOfBounds || r->Err_0 == ElfError::BadVaddr) ==> {
            let phs = phdrs_of(elf_data@);
            exists|k: int| 0 <= k < phs.len() && segs_ok(elf_data@, phs, k) && #[trigger] seg_check(elf_data@, phs[k]) == Err::<(), ElfError>(r->Err_0)
        },
        header_check(elf_data@) is Ok && le(elf_data@, 32, 8) + le(elf_data@, 56, 2) * PHDR_SIZE <= elf_data@.len()
            && segs_ok(elf_data@, phdrs_of(elf_data@), phdrs_of(elf_data@).len() as int)
            ==> (r is Ok || r == Err::<ElfLoadResult, ElfError>(ElfError::OutOfMemory) || r == Err::<ElfLoadResult, ElfError>(ElfError::MapError)),
        header_check(elf_data@) is Ok && le(elf_data@, 32, 8) + le(elf_data@, 56, 2) * PHDR_SIZE <= elf_data@.len()
            ==> forall|k: int| 0 <= k < phdrs_of(elf_data@).len() && segs_ok(elf_data@, phdrs_of(elf_data@), k)
                && #[trigger] seg_check(elf_data@, phdrs_of(elf_data@)[k]) is Err
                ==> r == Err::<ElfLoadResult, ElfError>(seg_check(elf_data@, phdrs_of(elf_data@)[k])->Err_0),
        r matches Err(e) && e != ElfError::OutOfMemory && e != ElfError::MapError
            ==> final(mem)@ == old(mem)@ && *final(pmm) == *old(pmm),
        r is Err && (r->Err_0 == ElfError::OutOfMemory || r->Err_0 == ElfError::MapError) ==> {
            let phs = phdrs_of(elf_data@);
            exists|k: int, i: int| 0 <= k < phs.len() && phs[k].p_type == PT_LOAD && 0 <= i < seg_pages(phs[k])
                && page_failure(r->Err_0, final(pmm).frames(), final(mem)@, pml4_phys.val(), #[trigger] seg_page(phs[k], i))
        },
{
    let ehdr = validate_header(elf_data)?;
    let n = elf_data.len();
    let phoff = ehdr.e_phoff;
    let phnum = ehdr.e_phnum as u64;
    if phoff > n as u64 || phnum * (PHDR_SIZE as u64) > n as u64 - phoff {
        return Err(ElfError::PhdrOutOfBounds);
    }
    let phdrs = program_headers(elf_data, &ehdr);
    let ghost d = elf_data@;
    let ghost phs = phdrs_of(d);
    proof {
        assert(phdrs@ =~= phs);
    }
    let count = phdrs.len();
    let mut c: usize = 0;
    while c < count
        invariant
            0 <= c <= count,
            count == phs.len(),
            phdrs@ == phs,
            d == elf_data@,
            n == elf_data@.len(),
            phs == phdrs_of(elf_data@),
            segs_ok(d, phs, c as int),
            header_check(d) is Ok,
            le(d, 32, 8) + le(d, 56, 2) * PHDR_SIZE <= d.len(),
            mem@ == old(mem)@,
            *pmm == *old(pmm),
            pmm.wf(),
            pmm.total() * 512 <= mem@.len(),
            tables_ok(mem@, pml4_phys.val(), pmm.frames()),
        decreases count - c,
    {
        let ph = phdrs[c];
        if ph.p_type == PT_LOAD {
            if ph.p_offset > n as u64 || ph.p_filesz > n as u64 - ph.p_offset {
                proof {
                    assert(seg_check(d, phs[c as int]) == Err::<(), ElfError>(ElfError::SegmentOutOfBounds));
                    assert forall|k: int| 0 <= k < phs.len() && segs_ok(d, phs, k) && #[trigger] seg_check(d, phs[k]) is Err
                        implies k == c by {
                        if k < c { assert(seg_check(d, phs[k]) is Ok); }
                        if k > c { assert(seg_check(d, phs[c as int]) is Ok); }
                    }
                }
                return Err(ElfError::SegmentOutOfBounds);
            }
            if ph.p_vaddr >= USER_HALF_END || ph.p_memsz > USER_HALF_END - ph.p_vaddr {
                proof {
                    assert(seg_check(d, phs[c as int]) == Err::<(), ElfError>(ElfError::BadVaddr));
                    assert forall|k: int| 0 <= k < phs.len() && segs_ok(d, phs, k) && #[trigger] seg_check(d, phs[k]) is Err
                        implies k == c by {
                        if k < c { assert(seg_check(d, phs[k]) is Ok); }
                        if k > c { assert(seg_check(d, phs[c as int]) is Ok); }
                    }
                }
                return Err(ElfError::BadVaddr);
            }
        }
        proof {
            assert(segs_ok(d, phs, c + 1));
        }
        c = c + 1;
    }
    let mut copies: Vec<CopyOp> = Vec::new();
    let mut fresh_frames: Vec<u64> = Vec::new();
    let mut pages: u64 = 0;
    let mut bss: u64 = 0;
    let mut k: usize = 0;
    while k < count
        invariant
            0 <= k <= count,
            count == phs.len(),
            phdrs@ == phs,
            d == elf_data@,
            n == elf_data@.len(),
            header_check(d) is Ok,
            le(d, 32, 8) + le(d, 56, 2) * PHDR_SIZE <= d.len(),
            phs == phdrs_of(elf_data@),
            pmm.wf(),
            pmm.total() == old(pmm).total(),
            pmm.total() * 512 <= mem@.len(),
            mem@.len() == old(mem)@.len(),
            tables_ok(mem@, pml4_phys.val(), pmm.frames()),
            forall|w: VirtAddr| #[trigger] spec_translate(old(mem)@, pml4_phys.val(), w) is Some
                ==> spec_translate(mem@, pml4_phys.val(), w) == spec_translate(old(mem)@, pml4_phys.val(), w),
            segs_ok(d, phs, count as int),
            copies@.map_values(|c: CopyOp| op_view(c)) == all_ops(phs, k as int),
            forall|nn: int, w: VirtAddr| 0 <= nn < copies@.len() && w.val() == #[trigger] copies@[nn].virt_page ==>
                #[trigger] spec_translate(mem@, pml4_phys.val(), w) == Some(copies@[nn].phys),
            forall|kk: int, i: int, w: VirtAddr| 0 <= kk < k && phs[kk].p_type == PT_LOAD && 0 <= i < seg_pages(phs[kk])
                && w.val() == #[trigger] seg_page(phs[kk], i) ==> #[trigger] spec_translate(mem@, pml4_phys.val(), w) is Some,
            bss == clamp_u64(bss_total(phs, k as int)),
            new_pages_fresh(old(mem)@, mem@, pml4_phys.val(), fresh_frames@),
        decreases count - k,
    {
        let ph = phdrs[k];
        let ghost m_before = mem@;
        if ph.p_type == PT_LOAD {
            proof {
                assert(seg_check(d, phs[k as int]) is Ok);
            }
            let ghost f_before = fresh_frames@;
            let newly = match load_segment(elf_data, &ph, mem, pmm, pml4_phys, &mut copies, &mut fresh_frames) {
                Ok(x) => x,
                Err(e) => {
                    proof {
                        let i = choose|i: int| 0 <= i < seg_pages(ph)
                            && page_failure(e, pmm.frames(), mem@, pml4_phys.val(), #[trigger] seg_page(ph, i));
                        assert(page_failure(e, pmm.frames(), mem@, pml4_phys.val(), seg_page(phs[k as int], i)));
                    }
                    return Err(e);
                },
            };
            proof {
                lemma_fresh_trans(old(mem)@, m_before, mem@, pml4_phys.val(), f_before, fresh_frames@);
            }
            pages = pages.saturating_add(newly);
            if ph.p_memsz > ph.p_filesz {
                bss = bss.saturating_add(ph.p_memsz - ph.p_filesz);
            }
            proof {
                assert(all_ops(phs, k + 1) == all_ops(phs, k as int) + seg_ops(phs[k as int], seg_pages(phs[k as int])));
                assert forall|kk: int, i: int, w: VirtAddr| 0 <= kk < k + 1 && phs[kk].p_type == PT_LOAD && 0 <= i < seg_pages(phs[kk])
                    && w.val() == #[trigger] seg_page(phs[kk], i) implies #[trigger] spec_translate(mem@, pml4_phys.val(), w) is Some by {
                    if kk < k {
                        assert(spec_translate(m_before, pml4_phys.val(), w) is Some);
                    }
                }
            }
        } else {
            proof {
                assert(all_ops(phs, k + 1) == all_ops(phs, k as int));
            }
        }
        k = k + 1;
    }
    let mut copied: u64 = 0;
    let mut j: usize = 0;
    let ghost ops = copies@.map_values(|c: CopyOp| op_view(c));
    while j < copies.len()
        invariant
            0 <= j <= copies@.len(),
            ops == copies@.map_values(|c: CopyOp| op_view(c)),
            copied == clamp_u64(ops_len(ops.take(j as int))),
        decreases copies@.len() - j,
    {
        proof {
            assert(ops.take(j + 1) =~= ops.take(j as int).push(ops[j as int]));
            lemma_ops_len_push(ops.take(j as int), ops[j as int]);
        }
        copied = copied.saturating_add(copies[j].len as u64);
        j = j + 1;
    }
    proof { assert(ops.take(copies@.len() as int) =~= ops); }
    Ok(ElfLoadResult { entry_point: ehdr.e_entry, pages_mapped: pages, bytes_copied: copied, bss_zeroed: bss, copies, fresh_frames })
}

} // verus!
