use minimalos::memory::address::{PhysAddr, VirtAddr};
use minimalos::memory::heap::{Heap, KernelAllocator, align_up};
use minimalos::memory::kernel_map::{classify_flags, classify_page, KernelSections, Section};
use minimalos::memory::pml4::{build, build_user_pml4, map_acpi_regions, KernelImage};
use minimalos::memory::pmm::{memory_totals, BitmapAllocator, MemoryRegion, MemoryRegionKind};
use minimalos::memory::vmm::{
    self, map_huge_page_2m, map_page, new_table, translate, unmap_page, MapError, PageTableEntry, PageTableFlags,
    UnmapError,
};

const HHDM: u64 = 0xFFFF_8000_0000_0000;

fn usable(base: u64, length: u64) -> MemoryRegion {
    MemoryRegion { base, length, kind: MemoryRegionKind::Usable }
}

/// 256 frames: frame 0 reserved, frame 1 holds the bitmap, frames 2..255 free.
fn small_machine() -> (Vec<PageTableEntry>, BitmapAllocator) {
    let map = [usable(0x1000, 0xFF000)];
    let pmm = BitmapAllocator::new(&map);
    let mem = vec![PageTableEntry::empty(); 256 * 512];
    (mem, pmm)
}

fn rw() -> PageTableFlags {
    PageTableFlags::from_bits_truncate(vmm::PRESENT | vmm::WRITABLE)
}

fn tr(mem: &[PageTableEntry], root: PhysAddr, v: u64) -> Option<u64> {
    translate(mem, root, VirtAddr::new(v)).map(|p| p.as_u64())
}

#[test]
fn address_page_table_indices() {
    let v = VirtAddr::new(0xFFFF_8000_4020_3ABC);
    let idx = v.page_table_indices();
    assert_eq!(idx, [0x003, 0x001, 0x001, 0x100]);
    assert_eq!(v.page_offset(), 0xABC);
    assert!(v.is_kernel());
    assert!(!VirtAddr::new(0x40_0000).is_kernel());
}

#[test]
fn address_alignment() {
    let p = PhysAddr::new(0x1234);
    assert_eq!(p.page_align_down().as_u64(), 0x1000);
    assert_eq!(p.page_align_up().as_u64(), 0x2000);
    assert!(!p.is_page_aligned());
    assert!(PhysAddr::new(0x3000).is_page_aligned());
    assert_eq!(PhysAddr::new(0x5000).to_virt(HHDM).as_u64(), HHDM + 0x5000);
}

#[test]
fn pmm_initial_state_and_stats() {
    let (_, pmm) = small_machine();
    let s = pmm.stats();
    assert_eq!(s.total_frames, 256);
    assert_eq!(s.used_frames, 2);
    assert_eq!(s.free_frames, 254);
    assert_eq!(s.bitmap_bytes, 32);
}

#[test]
fn pmm_alloc_free_roundtrip() {
    let (_, mut pmm) = small_machine();
    let a = pmm.alloc_frame().unwrap();
    assert_eq!(a.as_u64(), 0x2000);
    let b = pmm.alloc_frame().unwrap();
    assert_eq!(b.as_u64(), 0x3000);
    pmm.free_frame(a);
    assert_eq!(pmm.stats().used_frames, 3);
    let c = pmm.alloc_frame().unwrap();
    assert_eq!(c.as_u64(), 0x2000);
}

#[test]
fn pmm_contiguous_run() {
    let (_, mut pmm) = small_machine();
    let _ = pmm.alloc_frame().unwrap();
    let run = pmm.alloc_contiguous(4).unwrap();
    assert_eq!(run.as_u64(), 0x3000);
    assert_eq!(pmm.stats().used_frames, 7);
    assert!(pmm.alloc_contiguous(300).is_none());
}

#[test]
fn pmm_exhaustion() {
    let map = [usable(0x1000, 0x3000)];
    let mut pmm = BitmapAllocator::new(&map);
    assert_eq!(pmm.stats().total_frames, 4);
    assert!(pmm.alloc_frame().is_some());
    assert!(pmm.alloc_frame().is_some());
    assert!(pmm.alloc_frame().is_none());
}

#[test]
fn heap_first_fit_and_merge() {
    let mut h = Heap::new();
    h.init(0x1000, 0x1000);
    assert_eq!(h.allocate(32, 8), Some(0x1000));
    assert_eq!(h.allocate(32, 64), Some(0x1040));
    h.deallocate(0x1000, 32);
    h.deallocate(0x1040, 32);
    // All pieces merged back into one block covering the whole heap.
    assert_eq!(h.allocate(0x1000, 8), Some(0x1000));
    assert_eq!(h.allocate(16, 8), None);
}

#[test]
fn heap_small_requests_are_raised() {
    let mut h = Heap::new();
    h.init(0x2000, 0x100);
    assert_eq!(h.allocate(1, 1), Some(0x2000));
    assert_eq!(h.allocate(1, 1), Some(0x2010));
}

#[test]
fn kernel_allocator_counts_bytes() {
    let mut a = KernelAllocator::new();
    assert_eq!(minimalos::memory::heap::total_bytes(&a), 0);
    assert_eq!(a.allocate(8, 8), None);
    assert_eq!(minimalos::memory::heap::allocated_bytes(&a), 0);
}

#[test]
fn heap_align_up_values() {
    assert_eq!(align_up(0x1001, 0x1000), 0x2000);
    assert_eq!(align_up(0x1000, 0x1000), 0x1000);
    assert_eq!(align_up(17, 8), 24);
}

#[test]
fn vmm_map_then_translate() {
    let (mut mem, mut pmm) = small_machine();
    let root = new_table(&mut mem, &mut pmm).unwrap();
    assert_eq!(root.as_u64(), 0x2000);
    let r = map_page(&mut mem, &mut pmm, root, VirtAddr::new(0x40_0000), PhysAddr::new(0x10_0000), rw());
    assert_eq!(r, Ok(()));
    // Three tables were created for the walk.
    assert_eq!(pmm.stats().used_frames, 6);
    assert_eq!(tr(&mem, root, 0x40_0000), Some(0x10_0000));
    assert_eq!(tr(&mem, root, 0x40_0ABC), Some(0x10_0ABC));
    assert_eq!(tr(&mem, root, 0x40_1000), None);
    assert_eq!(tr(&mem, root, 0x1000), None);
}

#[test]
fn vmm_map_twice_is_already_mapped() {
    let (mut mem, mut pmm) = small_machine();
    let root = new_table(&mut mem, &mut pmm).unwrap();
    let v = VirtAddr::new(0x7000_0000_0000);
    assert_eq!(map_page(&mut mem, &mut pmm, root, v, PhysAddr::new(0x8000), rw()), Ok(()));
    assert_eq!(
        map_page(&mut mem, &mut pmm, root, v, PhysAddr::new(0x9000), rw()),
        Err(MapError::AlreadyMapped)
    );
    assert_eq!(tr(&mem, root, 0x7000_0000_0000), Some(0x8000));
}

#[test]
fn vmm_map_keeps_other_translations() {
    let (mut mem, mut pmm) = small_machine();
    let root = new_table(&mut mem, &mut pmm).unwrap();
    map_page(&mut mem, &mut pmm, root, VirtAddr::new(0x40_0000), PhysAddr::new(0xA000), rw()).unwrap();
    map_page(&mut mem, &mut pmm, root, VirtAddr::new(0x40_1000), PhysAddr::new(0xB000), rw()).unwrap();
    map_page(&mut mem, &mut pmm, root, VirtAddr::new(0x1_0000_0000), PhysAddr::new(0xC000), rw()).unwrap();
    assert_eq!(tr(&mem, root, 0x40_0000), Some(0xA000));
    assert_eq!(tr(&mem, root, 0x40_1000), Some(0xB000));
    assert_eq!(tr(&mem, root, 0x1_0000_0010), Some(0xC010));
}

#[test]
fn vmm_non_present_flags_map_nothing_visible() {
    let (mut mem, mut pmm) = small_machine();
    let root = new_table(&mut mem, &mut pmm).unwrap();
    let r = map_page(&mut mem, &mut pmm, root, VirtAddr::new(0x40_0000), PhysAddr::new(0xA000), PageTableFlags::empty());
    assert_eq!(r, Ok(()));
    assert_eq!(tr(&mem, root, 0x40_0000), None);
}

#[test]
fn vmm_unmap_then_translate_none() {
    let (mut mem, mut pmm) = small_machine();
    let root = new_table(&mut mem, &mut pmm).unwrap();
    let v = VirtAddr::new(0x40_0000);
    map_page(&mut mem, &mut pmm, root, v, PhysAddr::new(0x10_0000), rw()).unwrap();
    assert_eq!(unmap_page(&mut mem, root, v).map(|p| p.as_u64()), Ok(0x10_0000));
    assert_eq!(tr(&mem, root, 0x40_0000), None);
    assert_eq!(unmap_page(&mut mem, root, v), Err(UnmapError::NotMapped));
    // The tables stay: mapping again needs no new frame.
    let used = pmm.stats().used_frames;
    map_page(&mut mem, &mut pmm, root, v, PhysAddr::new(0x20_0000), rw()).unwrap();
    assert_eq!(pmm.stats().used_frames, used);
    assert_eq!(tr(&mem, root, 0x40_0000), Some(0x20_0000));
}

#[test]
fn vmm_out_of_memory() {
    let map = [usable(0x1000, 0x3000)];
    let mut pmm = BitmapAllocator::new(&map);
    let mut mem = vec![PageTableEntry::empty(); 4 * 512];
    let root = new_table(&mut mem, &mut pmm).unwrap();
    let r = map_page(&mut mem, &mut pmm, root, VirtAddr::new(0x40_0000), PhysAddr::new(0x10_0000), rw());
    assert_eq!(r, Err(MapError::OutOfMemory));
    assert_eq!(tr(&mem, root, 0x40_0000), None);
}

#[test]
fn vmm_huge_page_translation() {
    let (mut mem, mut pmm) = small_machine();
    let root = new_table(&mut mem, &mut pmm).unwrap();
    let r = map_huge_page_2m(&mut mem, &mut pmm, root, VirtAddr::new(0x8000_0000), PhysAddr::new(0x20_0000), rw());
    assert_eq!(r, Ok(()));
    assert_eq!(tr(&mem, root, 0x8000_0000), Some(0x20_0000));
    assert_eq!(tr(&mem, root, 0x801F_F123), Some(0x3F_F123));
    assert_eq!(tr(&mem, root, 0x8020_0000), None);
    // A 4 KiB page inside the huge page conflicts with it.
    assert_eq!(
        map_page(&mut mem, &mut pmm, root, VirtAddr::new(0x8000_1000), PhysAddr::new(0x5000), rw()),
        Err(MapError::HugePageConflict)
    );
    assert_eq!(
        map_huge_page_2m(&mut mem, &mut pmm, root, VirtAddr::new(0x8000_0000), PhysAddr::new(0x40_0000), rw()),
        Err(MapError::AlreadyMapped)
    );
    assert_eq!(unmap_page(&mut mem, root, VirtAddr::new(0x8000_0000)), Err(UnmapError::HugePageConflict));
}

#[test]
fn vmm_huge_page_over_page_table_is_already_mapped() {
    let (mut mem, mut pmm) = small_machine();
    let root = new_table(&mut mem, &mut pmm).unwrap();
    map_page(&mut mem, &mut pmm, root, VirtAddr::new(0x40_3000), PhysAddr::new(0x5000), rw()).unwrap();
    assert_eq!(
        map_huge_page_2m(&mut mem, &mut pmm, root, VirtAddr::new(0x40_0000), PhysAddr::new(0x20_0000), rw()),
        Err(MapError::AlreadyMapped)
    );
    assert_eq!(tr(&mem, root, 0x40_3000), Some(0x5000));
}

#[test]
fn vmm_active_pml4_masks_flags() {
    assert_eq!(vmm::active_pml4(0x0000_0000_0012_3018).as_u64(), 0x12_3000);
}

#[test]
fn kernel_map_write_xor_execute() {
    let k = KernelSections {
        text_start: 0x1000,
        text_end: 0x3000,
        rodata_start: 0x3000,
        rodata_end: 0x4000,
        data_start: 0x4000,
        data_end: 0x5000,
        bss_start: 0x6000,
        bss_end: 0x7000,
    };
    assert_eq!(classify_page(&k, 0x2000), Section::Text);
    assert_eq!(classify_page(&k, 0x3800), Section::Rodata);
    assert_eq!(classify_page(&k, 0x6000), Section::Bss);
    assert_eq!(classify_page(&k, 0x5000), Section::Gap);
    let f = |a: u64| classify_flags(a, 0x1000, 0x3000, 0x3000, 0x4000, 0x4000, 0x5000, 0x6000, 0x7000).bits();
    assert_eq!(f(0x1000), vmm::KERNEL_CODE);
    assert_eq!(f(0x3000), vmm::KERNEL_RODATA);
    assert_eq!(f(0x4000), vmm::KERNEL_DATA);
    assert_eq!(f(0x5800), vmm::KERNEL_DATA);
    for a in [0x1000u64, 0x3000, 0x4000, 0x6000, 0x9000] {
        let bits = f(a);
        assert!(bits & vmm::WRITABLE == 0 || bits & vmm::NO_EXECUTE != 0);
    }
}

fn kernel_layout() -> (KernelImage, KernelSections) {
    let image = KernelImage {
        phys_base: 0x8_0000,
        virt_base: 0xFFFF_FFFF_8000_0000,
        start: 0xFFFF_FFFF_8000_0000,
        end: 0xFFFF_FFFF_8000_3000,
    };
    let sections = KernelSections {
        text_start: 0xFFFF_FFFF_8000_0000,
        text_end: 0xFFFF_FFFF_8000_1000,
        rodata_start: 0xFFFF_FFFF_8000_1000,
        rodata_end: 0xFFFF_FFFF_8000_2000,
        data_start: 0xFFFF_FFFF_8000_2000,
        data_end: 0xFFFF_FFFF_8000_2800,
        bss_start: 0xFFFF_FFFF_8000_2800,
        bss_end: 0xFFFF_FFFF_8000_3000,
    };
    (image, sections)
}

#[test]
fn pml4_build_maps_direct_map_kernel_and_mmio() {
    let map = [
        usable(0x1000, 0xFF000),
        MemoryRegion { base: 0x10_0000, length: 0x1000, kind: MemoryRegionKind::BadMemory },
    ];
    let mut pmm = BitmapAllocator::new(&map);
    let mut mem = vec![PageTableEntry::empty(); 256 * 512];
    let (image, sections) = kernel_layout();
    let root = build(&mut mem, &mut pmm, &map, HHDM, image, sections);
    assert_eq!(root.as_u64() % 4096, 0);
    // Direct map.
    assert_eq!(tr(&mem, root, HHDM + 0x5000), Some(0x5000));
    assert_eq!(tr(&mem, root, HHDM + 0xF_F123), Some(0xF_F123));
    // Bad memory and what lies past the map are not mapped.
    assert_eq!(tr(&mem, root, HHDM + 0x10_0000), None);
    assert_eq!(tr(&mem, root, 0x5000), None);
    // Kernel image at its load address.
    assert_eq!(tr(&mem, root, 0xFFFF_FFFF_8000_0010), Some(0x8_0010));
    assert_eq!(tr(&mem, root, 0xFFFF_FFFF_8000_2FFF), Some(0x8_2FFF));
    assert_eq!(tr(&mem, root, 0xFFFF_FFFF_8000_3000), None);
    // Device registers.
    assert_eq!(tr(&mem, root, HHDM + 0xFEE0_0000), Some(0xFEE0_0000));
    assert_eq!(tr(&mem, root, HHDM + 0xFEC0_0020), Some(0xFEC0_0020));
}

#[test]
fn pml4_build_uses_huge_pages_for_aligned_regions() {
    let map = [usable(0x1000, 0xFF000), usable(0x20_0000, 0x40_0000)];
    let mut pmm = BitmapAllocator::new(&map);
    let mut mem = vec![PageTableEntry::empty(); 0x600 * 512];
    let (image, sections) = kernel_layout();
    let before = pmm.stats().used_frames;
    let root = build(&mut mem, &mut pmm, &map, HHDM, image, sections);
    assert_eq!(tr(&mem, root, HHDM + 0x20_0000), Some(0x20_0000));
    assert_eq!(tr(&mem, root, HHDM + 0x5F_FFFF), Some(0x5F_FFFF));
    // Root, PDPT, PD and one PT for the low region; PDPT, PD and PT for
    // the image; PD and two PTs for the device pages.
    assert_eq!(pmm.stats().used_frames, before + 10);
}

#[test]
fn pml4_user_space_shares_kernel_half() {
    let map = [usable(0x1000, 0xFF000)];
    let mut pmm = BitmapAllocator::new(&map);
    let mut mem = vec![PageTableEntry::empty(); 256 * 512];
    let (image, sections) = kernel_layout();
    let kroot = build(&mut mem, &mut pmm, &map, HHDM, image, sections);
    let uroot = build_user_pml4(&mut mem, &mut pmm, kroot);
    assert_ne!(uroot.as_u64(), kroot.as_u64());
    assert_eq!(tr(&mem, uroot, HHDM + 0x5000), Some(0x5000));
    assert_eq!(tr(&mem, uroot, 0xFFFF_FFFF_8000_1000), Some(0x8_1000));
    // A user mapping is private to the user space.
    map_page(&mut mem, &mut pmm, uroot, VirtAddr::new(0x40_0000), PhysAddr::new(0x9000), rw()).unwrap();
    assert_eq!(tr(&mem, uroot, 0x40_0000), Some(0x9000));
    assert_eq!(tr(&mem, kroot, 0x40_0000), None);
}

#[test]
fn pmm_stats_return_after_free() {
    let (_, mut pmm) = small_machine();
    let before = pmm.stats();
    let a = pmm.alloc_frame().unwrap();
    pmm.free_frame(a);
    let after = pmm.stats();
    assert_eq!(
        (after.total_frames, after.used_frames, after.free_frames, after.bitmap_bytes),
        (before.total_frames, before.used_frames, before.free_frames, before.bitmap_bytes)
    );
}

#[test]
fn memory_map_totals() {
    let map = [
        MemoryRegion { base: 0, length: 0x9F000, kind: MemoryRegionKind::Usable },
        MemoryRegion { base: 0x9F000, length: 0x1000, kind: MemoryRegionKind::Reserved },
        MemoryRegion { base: 0x10_0000, length: 0x70_0000, kind: MemoryRegionKind::Usable },
        MemoryRegion { base: 0x80_0000, length: 0x1_0000, kind: MemoryRegionKind::AcpiReclaimable },
    ];
    assert_eq!(memory_totals(&map), (0x9F000 + 0x1000 + 0x70_0000 + 0x1_0000, 0x9F000 + 0x70_0000));
    assert_eq!(memory_totals(&[]), (0, 0));
}

#[test]
fn acpi_regions_are_mapped_into_the_direct_map() {
    let map = [
        MemoryRegion { base: 0x1000, length: 0xFF000, kind: MemoryRegionKind::Usable },
        MemoryRegion { base: 0x10_0000, length: 0x1800, kind: MemoryRegionKind::AcpiReclaimable },
        MemoryRegion { base: 0x20_0000, length: 0x1000, kind: MemoryRegionKind::Reserved },
    ];
    let mut pmm = BitmapAllocator::new(&map[..1]);
    let mut mem = vec![PageTableEntry::empty(); 256 * 512];
    let root = vmm::new_table(&mut mem, &mut pmm).unwrap();
    let hhdm = 0xFFFF_8000_0000_0000u64;
    map_acpi_regions(&mut mem, &mut pmm, root, &map, hhdm);
    for page in [0x10_0000u64, 0x10_1000] {
        let t = vmm::translate(&mem, root, VirtAddr::new(hhdm + page)).map(|p| p.as_u64());
        assert_eq!(t, Some(page));
    }
    assert!(vmm::translate(&mem, root, VirtAddr::new(hhdm + 0x10_2000)).is_none());
    assert!(vmm::translate(&mem, root, VirtAddr::new(hhdm + 0x20_0000)).is_none());
}
