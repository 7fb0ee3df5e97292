use minimalos::fs::elf::{self, elf_flags_to_page_flags, load, program_headers, validate_header, ElfError};
use minimalos::fs::tar::{self, find_file, for_each_file};
use minimalos::memory::address::{PhysAddr, VirtAddr};
use minimalos::memory::pmm::{BitmapAllocator, MemoryRegion, MemoryRegionKind};
use minimalos::memory::vmm::{self, new_table, translate, PageTableEntry};

fn tar_header(name: &str, size: usize) -> Vec<u8> {
    let mut h = vec![0u8; 512];
    h[..name.len()].copy_from_slice(name.as_bytes());
    let size_field = format!("{:011o}", size);
    h[124..135].copy_from_slice(size_field.as_bytes());
    h[156] = b'0';
    h[257..263].copy_from_slice(b"ustar\0");
    h
}

fn tar_archive(files: &[(&str, Vec<u8>)]) -> Vec<u8> {
    let mut out = Vec::new();
    for (name, data) in files {
        out.extend(tar_header(name, data.len()));
        out.extend(data.iter().copied());
        while out.len() % 512 != 0 {
            out.push(0);
        }
    }
    out.extend(vec![0u8; 1024]);
    out
}

#[test]
fn tar_parse_octal_fields() {
    assert_eq!(tar::parse_octal(b"0000644 "), 0o644);
    assert_eq!(tar::parse_octal(b"00000001750\0"), 1000);
    assert_eq!(tar::parse_octal(b""), 0);
}

#[test]
fn tar_find_by_path_and_by_name() {
    let big: Vec<u8> = (0..600u32).map(|i| (i % 251) as u8).collect();
    let a = tar_archive(&[("hello.txt", b"Hello!".to_vec()), ("dir/app.elf", big.clone())]);
    let f = find_file(&a, "hello.txt").unwrap();
    assert_eq!(f.name, "hello.txt");
    assert_eq!(f.data, b"Hello!");
    let g = find_file(&a, "app.elf").unwrap();
    assert_eq!(g.name, "dir/app.elf");
    assert_eq!(g.data, &big[..]);
    assert_eq!(find_file(&a, "dir/app.elf").unwrap().data.len(), 600);
    assert!(find_file(&a, "missing").is_none());
}

#[test]
fn tar_lists_files_in_order() {
    let a = tar_archive(&[("a", vec![1, 2, 3]), ("b/c", vec![0; 513]), ("d", vec![])]);
    let files = for_each_file(&a);
    assert_eq!(files, vec![("a", 3u64), ("b/c", 513u64), ("d", 0u64)]);
}

#[test]
fn tar_empty_archive() {
    let a = vec![0u8; 1024];
    assert!(for_each_file(&a).is_empty());
    assert!(find_file(&a, "x").is_none());
}

fn put16(d: &mut [u8], off: usize, v: u16) {
    d[off..off + 2].copy_from_slice(&v.to_le_bytes());
}
fn put32(d: &mut [u8], off: usize, v: u32) {
    d[off..off + 4].copy_from_slice(&v.to_le_bytes());
}
fn put64(d: &mut [u8], off: usize, v: u64) {
    d[off..off + 8].copy_from_slice(&v.to_le_bytes());
}

/// A one-segment x86_64 executable: 0x20 bytes of code at file offset
/// 0x100 loaded at 0x40_0010, with 0x3000 bytes of memory.
fn sample_elf() -> Vec<u8> {
    let mut d = vec![0u8; 0x200];
    d[0..4].copy_from_slice(&[0x7F, b'E', b'L', b'F']);
    d[4] = 2;
    d[5] = 1;
    d[6] = 1;
    put16(&mut d, 16, 2);
    put16(&mut d, 18, 0x3E);
    put32(&mut d, 20, 1);
    put64(&mut d, 24, 0x40_0010);
    put64(&mut d, 32, 64);
    put16(&mut d, 52, 64);
    put16(&mut d, 54, 56);
    put16(&mut d, 56, 1);
    let p = 64;
    put32(&mut d, p, 1);
    put32(&mut d, p + 4, 5);
    put64(&mut d, p + 8, 0x100);
    put64(&mut d, p + 16, 0x40_0010);
    put64(&mut d, p + 24, 0x40_0010);
    put64(&mut d, p + 32, 0x20);
    put64(&mut d, p + 40, 0x3000);
    put64(&mut d, p + 48, 0x1000);
    for i in 0..0x20 {
        d[0x100 + i] = 0x90;
    }
    d
}

#[test]
fn elf_header_accepted() {
    let d = sample_elf();
    let h = validate_header(&d).unwrap();
    assert_eq!(h.e_entry, 0x40_0010);
    assert_eq!(h.e_phnum, 1);
    let phs = program_headers(&d, &h);
    assert_eq!(phs.len(), 1);
    assert_eq!(phs[0].p_type, 1);
    assert_eq!(phs[0].p_vaddr, 0x40_0010);
    assert_eq!(phs[0].p_memsz, 0x3000);
}

#[test]
fn elf_header_errors() {
    let good = sample_elf();
    assert_eq!(validate_header(&good[..63]).err(), Some(ElfError::TooSmall));
    let mut d = good.clone();
    d[1] = b'X';
    assert_eq!(validate_header(&d).err(), Some(ElfError::BadMagic));
    let mut d = good.clone();
    d[4] = 1;
    assert_eq!(validate_header(&d).err(), Some(ElfError::Not64Bit));
    let mut d = good.clone();
    d[5] = 2;
    assert_eq!(validate_header(&d).err(), Some(ElfError::NotLittleEndian));
    let mut d = good.clone();
    put16(&mut d, 16, 1);
    assert_eq!(validate_header(&d).err(), Some(ElfError::NotExecutable));
    let mut d = good.clone();
    put16(&mut d, 16, 3);
    assert!(validate_header(&d).is_ok());
    let mut d = good.clone();
    put16(&mut d, 18, 3);
    assert_eq!(validate_header(&d).err(), Some(ElfError::WrongArch));
    let mut d = good.clone();
    put64(&mut d, 32, 0x1F0);
    assert_eq!(validate_header(&d).err(), Some(ElfError::PhdrOutOfBounds));
}

#[test]
fn elf_segment_flags() {
    assert_eq!(elf_flags_to_page_flags(5).bits(), vmm::PRESENT | vmm::USER);
    assert_eq!(elf_flags_to_page_flags(6).bits(), vmm::PRESENT | vmm::USER | vmm::WRITABLE | vmm::NO_EXECUTE);
    assert_eq!(elf_flags_to_page_flags(4).bits(), vmm::PRESENT | vmm::USER | vmm::NO_EXECUTE);
    assert_eq!(elf_flags_to_page_flags(7).bits(), vmm::PRESENT | vmm::USER | vmm::WRITABLE | vmm::NO_EXECUTE);
    assert_eq!(elf_flags_to_page_flags(3).bits(), vmm::PRESENT | vmm::USER | vmm::WRITABLE | vmm::NO_EXECUTE);
}

#[test]
fn elf_little_endian_reads() {
    let d = [1u8, 2, 3, 4, 5, 6, 7, 8, 9];
    assert_eq!(elf::read_u16(&d, 1), 0x0302);
    assert_eq!(elf::read_u32(&d, 0), 0x0403_0201);
    assert_eq!(elf::read_u64(&d, 1), 0x0908_0706_0504_0302);
}

fn machine() -> (Vec<PageTableEntry>, BitmapAllocator, PhysAddr) {
    let map = [MemoryRegion { base: 0x1000, length: 0xFF000, kind: MemoryRegionKind::Usable }];
    let mut pmm = BitmapAllocator::new(&map);
    let mut mem = vec![PageTableEntry::empty(); 256 * 512];
    let root = new_table(&mut mem, &mut pmm).unwrap();
    (mem, pmm, root)
}

#[test]
fn elf_load_maps_segment_and_lists_copies() {
    let (mut mem, mut pmm, root) = machine();
    let d = sample_elf();
    let res = load(&d, &mut mem, &mut pmm, root).unwrap();
    assert_eq!(res.entry_point, 0x40_0010);
    assert_eq!(res.pages_mapped, 4);
    assert_eq!(res.bytes_copied, 0x20);
    assert_eq!(res.bss_zeroed, 0x3000 - 0x20);
    assert_eq!(res.copies.len(), 1);
    let c = &res.copies[0];
    assert_eq!(c.virt_page, 0x40_0000);
    assert_eq!(c.dst_offset, 0x10);
    assert_eq!(c.src_offset, 0x100);
    assert_eq!(c.len, 0x20);
    let t = translate(&mem, root, VirtAddr::new(0x40_0000)).map(|p| p.as_u64());
    assert_eq!(t, Some(c.phys));
    for page in [0x40_1000u64, 0x40_2000, 0x40_3000] {
        assert!(translate(&mem, root, VirtAddr::new(page)).is_some());
    }
    assert!(translate(&mem, root, VirtAddr::new(0x40_4000)).is_none());
}

#[test]
fn elf_load_segment_errors() {
    let (mut mem, mut pmm, root) = machine();
    let mut d = sample_elf();
    put64(&mut d, 64 + 32, 0x1000);
    assert_eq!(load(&d, &mut mem, &mut pmm, root).err(), Some(ElfError::SegmentOutOfBounds));
    let mut d = sample_elf();
    put64(&mut d, 64 + 16, 0x8000_0000_0000);
    assert_eq!(load(&d, &mut mem, &mut pmm, root).err(), Some(ElfError::BadVaddr));
    let mut d = sample_elf();
    put64(&mut d, 64 + 16, 0x7FFF_FFFF_F000);
    assert_eq!(load(&d, &mut mem, &mut pmm, root).err(), Some(ElfError::BadVaddr));
    let mut d = sample_elf();
    d[0] = 0;
    assert_eq!(load(&d, &mut mem, &mut pmm, root).err(), Some(ElfError::BadMagic));
}

#[test]
fn elf_load_skips_non_load_segments() {
    let (mut mem, mut pmm, root) = machine();
    let mut d = sample_elf();
    put32(&mut d, 64, 4);
    let res = load(&d, &mut mem, &mut pmm, root).unwrap();
    assert_eq!(res.pages_mapped, 0);
    assert!(res.copies.is_empty());
    assert!(translate(&mem, root, VirtAddr::new(0x40_0000)).is_none());
}

#[test]
fn elf_load_rejects_before_touching_memory() {
    let (mut mem, mut pmm, root) = machine();
    let before = pmm.stats();
    let mem_before = mem.clone();
    // A second loadable segment with a kernel-half address: the first is
    // fine, but nothing is mapped because every segment is checked first.
    let mut d = sample_elf();
    put16(&mut d, 56, 2);
    let p = 64 + 56;
    put32(&mut d, p, 1);
    put32(&mut d, p + 4, 4);
    put64(&mut d, p + 16, 0x0000_8000_0000_0000);
    put64(&mut d, p + 40, 0x1000);
    assert_eq!(load(&d, &mut mem, &mut pmm, root).err(), Some(ElfError::BadVaddr));
    let after = pmm.stats();
    assert_eq!((after.used_frames, after.free_frames, after.bitmap_bytes), (before.used_frames, before.free_frames, before.bitmap_bytes));
    assert!(mem == mem_before);
    assert!(translate(&mem, root, VirtAddr::new(0x40_0000)).is_none());
}

#[test]
fn elf_load_reports_fresh_frames() {
    let (mut mem, mut pmm, root) = machine();
    let d = sample_elf();
    let res = load(&d, &mut mem, &mut pmm, root).unwrap();
    assert_eq!(res.fresh_frames.len(), 4);
    for page in [0x40_0000u64, 0x40_1000, 0x40_2000, 0x40_3000] {
        let t = translate(&mem, root, VirtAddr::new(page)).unwrap().as_u64();
        assert!(res.fresh_frames.contains(&t));
    }
}

#[test]
fn elf_load_out_of_memory_only_when_frames_run_out() {
    let map = [MemoryRegion { base: 0x1000, length: 0x6000, kind: MemoryRegionKind::Usable }];
    let mut pmm = BitmapAllocator::new(&map);
    let mut mem = vec![PageTableEntry::empty(); 256 * 512];
    let root = new_table(&mut mem, &mut pmm).unwrap();
    let d = sample_elf();
    let r = load(&d, &mut mem, &mut pmm, root);
    assert!(r.is_err());
    assert_eq!(pmm.stats().free_frames, 0);
}
