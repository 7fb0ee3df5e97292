//! Address-space roots: user address spaces share the kernel half of
//! the kernel's root table and start with an empty user half.

use vstd::prelude::*;
use crate::memory::address::{PhysAddr, VirtAddr, KERNEL_HALF_START, PHYS_ADDR_LIMIT, lemma_mask_low_12, canonical};
use crate::memory::kernel_map::{KernelSections, classify_flags};
use crate::memory::pmm::{self, BitmapAllocator, MemoryRegion, MemoryRegionKind, frame_of};
use crate::memory::vmm::{
    self, PageTableEntry, frame_entry, frame_num, levels_ok, tables_ok, spec_translate, read_entry,
    raw_present, raw_huge, raw_addr, lemma_entry_bits, PageTableFlags,
};

verus! {

/// The first root-table index of the kernel half.
pub const KERNEL_HALF_INDEX: usize = 256;

/// A new root table for a user address space: entries 0 to 255 (the
/// user half) empty, entries 256 to 511 (the kernel half) copied from
/// the kernel's root table, so the kernel's mappings are the same in
/// every address space. The kernel's tables are shared, not copied.
pub fn build_user_pml4(mem: &mut [PageTableEntry], pmm: &mut BitmapAllocator, kernel_pml4: PhysAddr) -> (r: PhysAddr)
    requires
        old(pmm).wf(),
        old(pmm).total() * 512 <= old(mem)@.len(),
        kernel_pml4.val() != 0,
        tables_ok(old(mem)@, kernel_pml4.val(), old(pmm).frames()),
        exists|i: int| 0 <= i < old(pmm).frames().len() && !old(pmm).frames()[i],
    ensures
        final(pmm).wf(),
        final(pmm).total() == old(pmm).total(),
        final(mem)@.len() == old(mem)@.len(),
        r.val() % 4096 == 0,
        !old(pmm).frames()[frame_of(r)],
        final(pmm).frames() == old(pmm).frames().update(frame_of(r), true),
        forall|i: int| 0 <= i < 256 ==> #[trigger] read_entry(final(mem)@, r.val(), i) == 0,
        forall|i: int| 256 <= i < 512 ==> #[trigger] read_entry(final(mem)@, r.val(), i) == read_entry(old(mem)@, kernel_pml4.val(), i),
        tables_ok(final(mem)@, r.val(), final(pmm).frames()),
        tables_ok(final(mem)@, kernel_pml4.val(), final(pmm).frames()),
        forall|w: VirtAddr| w.val() < crate::memory::address::USER_HALF_END
            ==> #[trigger] spec_translate(final(mem)@, r.val(), w) is None,
        forall|w: VirtAddr| w.val() >= KERNEL_HALF_START
            ==> #[trigger] spec_translate(final(mem)@, r.val(), w) == spec_translate(final(mem)@, kernel_pml4.val(), w),
{
    proof {
        old(pmm).lemma_wf_bounds();
        let i = choose|i: int| 0 <= i < old(pmm).frames().len() && !old(pmm).frames()[i];
        assert(!(forall|k: int| 0 <= k < old(pmm).frames().len() ==> #[trigger] old(pmm).frames()[k]));
    }
    let ghost m0 = mem@;
    let ghost f0 = pmm.frames();
    let ghost kroot = kernel_pml4.val();
    let ghost l0 = choose|l: Map<int, int>| levels_ok(m0, kroot, f0, l);
    let root = match vmm::new_table(mem, pmm) {
        Some(t) => t,
        None => {
            proof { assert(false); }
            return kernel_pml4;
        },
    };
    let ghost m1 = mem@;
    let ghost f = frame_of(root);
    let ghost kf = frame_num(kroot);
    let n = mem.len();
    proof {
        pmm.lemma_wf_bounds();
        assert(!l0.dom().contains(f));
        assert(l0.dom().contains(kf));
        assert(kf != f);
        assert(root.val() / 8 == f * 512);
        assert(kroot as int / 8 == kf * 512);
    }
    let kbase = (kernel_pml4.as_u64() / 8) as usize;
    let ubase = (root.as_u64() / 8) as usize;
    let mut i: usize = KERNEL_HALF_INDEX;
    while i < 512
        invariant
            KERNEL_HALF_INDEX <= i <= 512,
            n == mem@.len(),
            mem@.len() == m0.len(),
            kbase == kf * 512,
            ubase == f * 512,
            kf * 512 + 512 <= m0.len(),
            f * 512 + 512 <= m0.len(),
            kf != f,
            forall|k: int| ubase <= k < ubase + 512 && !(ubase + 256 <= k < ubase + i) ==> (#[trigger] mem@[k]).value() == 0,
            forall|k: int| ubase + 256 <= k < ubase + i ==> #[trigger] mem@[k] == m1[kbase + (k - ubase)],
            forall|k: int| 0 <= k < m0.len() && !(ubase <= k < ubase + 512) ==> #[trigger] mem@[k] == m1[k],
        decreases 512 - i,
    {
        proof {
            if kf < f {
                assert(kbase + 512 <= ubase);
            } else {
                assert(ubase + 512 <= kbase);
            }
        }
        let e = mem[kbase + i];
        mem[ubase + i] = e;
        i = i + 1;
    }
    proof {
        let m2 = mem@;
        assert forall|j: int| 0 <= j < m0.len() && j / 512 != f implies #[trigger] m2[j] == m0[j] by {
            assert(!(ubase <= j < ubase + 512));
            assert(!(f * 512 <= j < f * 512 + 512));
        }
        assert forall|k: int| 0 <= k < 512 implies #[trigger] frame_entry(m2, f, k)
            == (if k < 256 { 0u64 } else { frame_entry(m0, kf, k) }) by {
            if k >= 256 {
                assert(m2[ubase + k] == m1[kbase + k]);
                if kf < f {
                    assert(kbase + k < f * 512);
                } else {
                    assert(kbase + k >= f * 512 + 512);
                }
                assert(m1[kbase + k] == m0[kbase + k]);
            }
        }
        vmm::lemma_levels_shared_root(m0, m2, kroot, f0, pmm.frames(), l0, root.val());
        assert forall|k: int| 0 <= k < 512 implies #[trigger] read_entry(m2, root.val(), k) == frame_entry(m2, f, k) by {}
        assert forall|k: int| 0 <= k < 512 implies #[trigger] read_entry(m0, kroot, k) == frame_entry(m0, kf, k) by {}
        assert forall|w: VirtAddr| w.val() < crate::memory::address::USER_HALF_END
            implies #[trigger] spec_translate(m2, root.val(), w) is None by {
            vmm::lemma_user_half_unmapped(m2, root.val(), w);
        }
        assert forall|w: VirtAddr| w.val() >= KERNEL_HALF_START
            implies #[trigger] spec_translate(m2, root.val(), w) == spec_translate(m2, kroot, w) by {
            vmm::lemma_root_index_half(w);
            let k = w.index_at(3);
            assert(read_entry(m2, root.val(), k) == frame_entry(m2, f, k));
            assert(read_entry(m0, kroot, k) == frame_entry(m0, kf, k));
            assert(kf * 512 + k < f * 512 || kf * 512 + k >= f * 512 + 512) by {
                if kf < f {
                    assert(kf * 512 + k < f * 512);
                } else {
                    assert(kf * 512 + k >= f * 512 + 512);
                }
            }
            assert(m2[kf * 512 + k] == m0[kf * 512 + k]);
            assert(read_entry(m2, kroot, k) == read_entry(m0, kroot, k));
            vmm::lemma_same_root_entry(m2, root.val(), kroot, w);
        }
    }
    root
}

/// 2 MiB.
pub const SIZE_2M: u64 = 0x20_0000;
/// 4 KiB.
pub const SIZE_4K: u64 = 0x1000;
/// Local APIC registers.
pub const LAPIC_PHYS: u64 = 0xFEE0_0000;
/// I/O APIC registers.
pub const IOAPIC_PHYS: u64 = 0xFEC0_0000;
/// Direct-map flags: present, writable, global, no-execute.
pub const HHDM_FLAGS: u64 = 0x8000_0000_0000_0103;
/// Device-register flags: present, writable, caching off, global,
/// no-execute (write-through stays off).
pub const MMIO_FLAGS: u64 = 0x8000_0000_0000_0113;

/// The hierarchy rooted at `root` is a well-formed tree over `frames`, the
/// root frame is in use, and every frame used in `f0` still is.
#[verifier::opaque]
pub open spec fn space_ok(mem: Seq<PageTableEntry>, pmm: BitmapAllocator, root: u64, f0: Seq<bool>, total: int) -> bool {
    &&& pmm.wf()
    &&& pmm.total() == total
    &&& total * 512 <= mem.len()
    &&& vmm::tree_tables_ok(mem, root, pmm.frames())
    &&& root % 4096 == 0
    &&& pmm.frames().len() == f0.len()
    &&& forall|i: int| 0 <= i < f0.len() && #[trigger] f0[i] ==> pmm.frames()[i]
}

/// The 4 KiB pages of addresses in order: rounding down keeps the order,
/// and the page holding an address below `e` ends by `e` rounded up.
proof fn lemma_page_span(a: int, b: int, e: int)
    requires
        0 <= a <= b,
        b < e,
    ensures
        crate::memory::address::align_down_4k(a) <= crate::memory::address::align_down_4k(b),
        crate::memory::address::align_down_4k(b) + 4096 <= crate::memory::address::align_up_4k(e),
        crate::memory::address::align_down_4k(a) <= a,
        e <= crate::memory::address::align_up_4k(e),
{
    vstd::arithmetic::div_mod::lemma_fundamental_div_mod(a, 4096);
    vstd::arithmetic::div_mod::lemma_fundamental_div_mod(b, 4096);
    vstd::arithmetic::div_mod::lemma_fundamental_div_mod(e, 4096);
    vstd::arithmetic::div_mod::lemma_div_is_ordered(a, b, 4096);
    vstd::arithmetic::div_mod::lemma_div_is_ordered(b, e, 4096);
    if e % 4096 == 0 {
        assert(b / 4096 < e / 4096) by (nonlinear_arith)
            requires b < e, e == 4096 * (e / 4096) + e % 4096, e % 4096 == 0,
                b == 4096 * (b / 4096) + b % 4096, 0 <= b % 4096 < 4096;
    }
    assert(4096 * (a / 4096) <= 4096 * (b / 4096)) by (nonlinear_arith) requires a / 4096 <= b / 4096;
    if e % 4096 == 0 {
        assert(4096 * (b / 4096) + 4096 <= 4096 * (e / 4096)) by (nonlinear_arith) requires b / 4096 < e / 4096;
    } else {
        assert(4096 * (b / 4096) + 4096 <= 4096 * (e / 4096) + 4096) by (nonlinear_arith) requires b / 4096 <= e / 4096;
    }
}

/// The page at `w` may map physical address `p`: `p` is exposed memory,
/// and `w` is its direct-map address, or lies in the kernel image's pages
/// at the same offset from the link base as `p` from the load base.
pub open spec fn intended(map: Seq<MemoryRegion>, image: KernelImage, hhdm: u64, w: int, p: int) -> bool {
    &&& exposed(map, image, p)
    &&& (w == hhdm + p || ({
        &&& image.start - image.start % 4096 <= w < crate::memory::address::align_up_4k(image.end as int)
        &&& p - image.phys_base == w - image.virt_base
    }))
}

/// Every canonical address the tables rooted at `root` translate maps as
/// `intended` allows.
#[verifier::opaque]
pub open spec fn only_intended(mem: Seq<PageTableEntry>, root: u64, map: Seq<MemoryRegion>, image: KernelImage, hhdm: u64) -> bool {
    forall|w: VirtAddr| canonical(w.val()) && #[trigger] spec_translate(mem, root, w) is Some
        ==> intended(map, image, hhdm, w.val() as int, spec_translate(mem, root, w)->0 as int)
}

/// Every frame is in use.
pub open spec fn all_used(frames: Seq<bool>) -> bool {
    forall|i: int| 0 <= i < frames.len() ==> #[trigger] frames[i]
}

/// The lower (user) half of the root table is empty.
pub open spec fn user_half_empty(mem: Seq<PageTableEntry>, root: u64) -> bool {
    forall|i: int| 0 <= i < 256 ==> #[trigger] read_entry(mem, root, i) == 0
}

/// Maps one 4 KiB page; a failure leaves the page unmapped and is not
/// reported, as the direct map and the kernel image tolerate overlaps.
fn map_4k_page(
    mem: &mut [PageTableEntry],
    pmm: &mut BitmapAllocator,
    root: PhysAddr,
    virt: u64,
    phys: u64,
    flags: PageTableFlags,
    Ghost(f0): Ghost<Seq<bool>>,
    Ghost(total): Ghost<int>,
    Ghost(map): Ghost<Seq<MemoryRegion>>,
    Ghost(image): Ghost<KernelImage>,
    Ghost(hhdm): Ghost<u64>,
)
    requires
        space_ok(old(mem)@, *old(pmm), root.val(), f0, total),
        virt % 4096 == 0,
        virt >= KERNEL_HALF_START,
        phys % 4096 == 0,
        phys < PHYS_ADDR_LIMIT,
        only_exposed(old(mem)@, root.val(), map, image),
        forall|o: int| 0 <= o < 4096 ==> #[trigger] exposed(map, image, phys + o),
        only_intended(old(mem)@, root.val(), map, image, hhdm),
        forall|o: int| 0 <= o < 4096 ==> #[trigger] intended(map, image, hhdm, virt + o, phys + o),
        user_half_empty(old(mem)@, root.val()),
    ensures
        space_ok(final(mem)@, *final(pmm), root.val(), f0, total),
        only_exposed(final(mem)@, root.val(), map, image),
        only_intended(final(mem)@, root.val(), map, image, hhdm),
        user_half_empty(final(mem)@, root.val()),
        forall|w: VirtAddr| #[trigger] spec_translate(old(mem)@, root.val(), w) is Some
            ==> spec_translate(final(mem)@, root.val(), w) == spec_translate(old(mem)@, root.val(), w),
        forall|i: int| 0 <= i < old(pmm).frames().len() && #[trigger] old(pmm).frames()[i] ==> final(pmm).frames()[i],
        forall|w: VirtAddr| w.val() == virt && vmm::map_conflict(old(mem)@, root.val(), w) is None
            && vmm::tables_needed(old(mem)@, root.val(), w) <= vmm::free_frames(old(pmm).frames())
            ==> #[trigger] spec_translate(final(mem)@, root.val(), w)
                == (if flags.value() & vmm::PRESENT != 0 { Some(phys) } else { None::<u64> }),
        flags.value() & vmm::PRESENT != 0 ==> forall|w: VirtAddr| w.val() == virt
            ==> #[trigger] spec_translate(final(mem)@, root.val(), w) is Some || all_used(final(pmm).frames()),
        final(mem)@.len() == old(mem)@.len(),
{
    proof { reveal(space_ok); }
    let v = VirtAddr::new(virt);
    proof {
        old(pmm).lemma_wf_bounds();
        vmm::lemma_tree_tables_ok(old(mem)@, root.val(), old(pmm).frames());
        vmm::lemma_tables_ok_paths(old(mem)@, root.val(), old(pmm).frames(), v);
    }
    let ghost fr = pmm.frames();
    let ghost m0 = mem@;
    let r = vmm::map_page(mem, pmm, root, v, PhysAddr::new(phys), flags);
    proof {
        vmm::lemma_conflict_translates(m0, root.val(), v);
        if vmm::map_conflict(m0, root.val(), v) is None && r is Err {
            pmm.lemma_wf_bounds();
            assert(vmm::tables_needed(m0, root.val(), v) > vmm::free_frames(fr));
            assert(pmm::count_true(pmm.frames()) == pmm::count_true(fr) + vmm::free_frames(fr));
            pmm::lemma_count_full(pmm.frames());
        }
        assert forall|w: VirtAddr| w.val() == virt implies #[trigger] spec_translate(mem@, root.val(), w) == spec_translate(mem@, root.val(), v) by {
            VirtAddr::lemma_same_val(w, v);
        }
        assert forall|w: VirtAddr| w.val() == virt implies #[trigger] vmm::map_conflict(m0, root.val(), w) == vmm::map_conflict(m0, root.val(), v)
            && vmm::tables_needed(m0, root.val(), w) == vmm::tables_needed(m0, root.val(), v) by {
            VirtAddr::lemma_same_val(w, v);
        }
        pmm.lemma_wf_bounds();
        assert(forall|i: int| 0 <= i < fr.len() && #[trigger] fr[i] ==> pmm.frames()[i]);
        vmm::lemma_root_index_half(v);
        assert(user_half_empty(mem@, root.val()));
        reveal(only_exposed);
        assert forall|w: VirtAddr| #[trigger] spec_translate(mem@, root.val(), w) is Some
            implies exposed(map, image, spec_translate(mem@, root.val(), w)->0 as int) by {
            if spec_translate(mem@, root.val(), w) != spec_translate(m0, root.val(), w) {
                assert(exposed(map, image, phys + w.val() % 4096));
            }
        }
    }
        reveal(only_intended);
        assert forall|w: VirtAddr| canonical(w.val()) && #[trigger] spec_translate(mem@, root.val(), w) is Some
            implies intended(map, image, hhdm, w.val() as int, spec_translate(mem@, root.val(), w)->0 as int) by {
            if spec_translate(mem@, root.val(), w) != spec_translate(m0, root.val(), w) {
                crate::memory::address::lemma_same_indices_same_page(w, v);
                assert(w.val() / 0x1000 == virt / 0x1000);
                assert(intended(map, image, hhdm, virt + w.val() % 4096, phys + w.val() % 4096));
            }
        }
}

/// Maps one 2 MiB page; a failure is not reported (see `map_4k_page`).
fn map_2m_page(
    mem: &mut [PageTableEntry],
    pmm: &mut BitmapAllocator,
    root: PhysAddr,
    virt: u64,
    phys: u64,
    flags: PageTableFlags,
    Ghost(f0): Ghost<Seq<bool>>,
    Ghost(total): Ghost<int>,
    Ghost(map): Ghost<Seq<MemoryRegion>>,
    Ghost(image): Ghost<KernelImage>,
    Ghost(hhdm): Ghost<u64>,
)
    requires
        space_ok(old(mem)@, *old(pmm), root.val(), f0, total),
        virt % SIZE_2M == 0,
        virt >= KERNEL_HALF_START,
        phys % SIZE_2M == 0,
        phys < PHYS_ADDR_LIMIT,
        only_exposed(old(mem)@, root.val(), map, image),
        forall|o: int| 0 <= o < 0x20_0000 ==> #[trigger] exposed(map, image, phys + o),
        only_intended(old(mem)@, root.val(), map, image, hhdm),
        forall|o: int| 0 <= o < 0x20_0000 ==> #[trigger] intended(map, image, hhdm, virt + o, phys + o),
        user_half_empty(old(mem)@, root.val()),
    ensures
        space_ok(final(mem)@, *final(pmm), root.val(), f0, total),
        only_exposed(final(mem)@, root.val(), map, image),
        only_intended(final(mem)@, root.val(), map, image, hhdm),
        user_half_empty(final(mem)@, root.val()),
        forall|w: VirtAddr| #[trigger] spec_translate(old(mem)@, root.val(), w) is Some
            ==> spec_translate(final(mem)@, root.val(), w) == spec_translate(old(mem)@, root.val(), w),
        forall|i: int| 0 <= i < old(pmm).frames().len() && #[trigger] old(pmm).frames()[i] ==> final(pmm).frames()[i],
        forall|v: VirtAddr| v.val() == virt && vmm::huge_conflict(old(mem)@, root.val(), v) is None
            && vmm::huge_tables_needed(old(mem)@, root.val(), v) <= vmm::free_frames(old(pmm).frames())
            && flags.value() & vmm::PRESENT != 0
            ==> forall|w: VirtAddr| w.val() as int / 0x20_0000 == virt as int / 0x20_0000
                ==> #[trigger] spec_translate(final(mem)@, root.val(), w) == Some((phys + w.val() % 0x20_0000) as u64),
        final(mem)@.len() == old(mem)@.len(),
{
    proof { reveal(space_ok); }
    let v = VirtAddr::new(virt);
    proof {
        old(pmm).lemma_wf_bounds();
        vmm::lemma_tree_tables_ok(old(mem)@, root.val(), old(pmm).frames());
    }
    let ghost fr = pmm.frames();
    let ghost m0 = mem@;
    let _ = vmm::map_huge_page_2m(mem, pmm, root, v, PhysAddr::new(phys), flags);
    proof {
        assert forall|u: VirtAddr| u.val() == virt implies vmm::huge_conflict(m0, root.val(), u) == vmm::huge_conflict(m0, root.val(), v)
            && vmm::huge_tables_needed(m0, root.val(), u) == vmm::huge_tables_needed(m0, root.val(), v) by {
            VirtAddr::lemma_same_val(u, v);
        }
        pmm.lemma_wf_bounds();
        assert(forall|i: int| 0 <= i < fr.len() && #[trigger] fr[i] ==> pmm.frames()[i]);
        vmm::lemma_root_index_half(v);
        assert(user_half_empty(mem@, root.val()));
        reveal(only_exposed);
        assert forall|w: VirtAddr| #[trigger] spec_translate(mem@, root.val(), w) is Some
            implies exposed(map, image, spec_translate(mem@, root.val(), w)->0 as int) by {
            if spec_translate(mem@, root.val(), w) != spec_translate(m0, root.val(), w) {
                assert(exposed(map, image, phys + w.val() % 0x20_0000));
            }
        }
    }
        reveal(only_intended);
        assert forall|w: VirtAddr| canonical(w.val()) && #[trigger] spec_translate(mem@, root.val(), w) is Some
            implies intended(map, image, hhdm, w.val() as int, spec_translate(mem@, root.val(), w)->0 as int) by {
            if spec_translate(mem@, root.val(), w) != spec_translate(m0, root.val(), w) {
                crate::memory::address::lemma_same_indices_same_page(w, v);
                assert(w.val() / 0x20_0000 == virt / 0x20_0000);
                assert(intended(map, image, hhdm, virt + w.val() % 0x20_0000, phys + w.val() % 0x20_0000));
            }
        }
}

/// The 4 KiB page at physical `a` lies in a 2 MiB block that fits in
/// `[base, end)`: the direct map of a region gives it a 2 MiB page.
pub open spec fn in_full_block(a: int, base: int, end: int) -> bool {
    base <= a - a % 0x20_0000 && a - a % 0x20_0000 + 0x20_0000 <= end
}

/// Facts about 4 KiB pages inside 2 MiB blocks.
proof fn lemma_block_facts(p: int, a: int)
    requires
        0 <= p,
        p % 0x20_0000 == 0,
    ensures
        p % 4096 == 0,
        p <= a < p + 0x20_0000 ==> a - a % 0x20_0000 == p,
{
    vstd::arithmetic::div_mod::lemma_fundamental_div_mod(p, 0x20_0000);
    assert(p == 4096 * (512 * (p / 0x20_0000)));
    vstd::arithmetic::div_mod::lemma_mod_multiples_basic(512 * (p / 0x20_0000), 4096);
    if p <= a < p + 0x20_0000 {
        vstd::arithmetic::div_mod::lemma_fundamental_div_mod(a, 0x20_0000);
        let k = p / 0x20_0000;
        let q = a / 0x20_0000;
        assert(q == k) by (nonlinear_arith)
            requires
                p == 0x20_0000 * k,
                a == 0x20_0000 * q + a % 0x20_0000,
                0 <= a % 0x20_0000 < 0x20_0000,
                p <= a < p + 0x20_0000;
    }
}

/// Every 4 KiB page of the direct map of `[base, end)` below physical
/// `upto` that is not in a 2 MiB block translates, unless every frame is in
/// use.
#[verifier::opaque]
pub open spec fn covered_upto(mem: Seq<PageTableEntry>, root: u64, frames: Seq<bool>, hhdm: u64, base: int, end: int, upto: int) -> bool {
    all_used(frames) || forall|w: VirtAddr| w.val() % 4096 == 0 && hhdm + base < w.val() + 4096 && w.val() + 4096 <= hhdm + upto
        && !in_full_block(w.val() - hhdm, base, end)
        ==> #[trigger] spec_translate(mem, root, w) is Some
}

/// A step of the direct map of a region at a 2 MiB aligned `phys` with
/// 2 MiB left: one 2 MiB page.
#[verifier::spinoff_prover]
#[verifier::rlimit(60)]
fn direct_step_2m(
    mem: &mut [PageTableEntry],
    pmm: &mut BitmapAllocator,
    root: PhysAddr,
    hhdm: u64,
    base: u64,
    end: u64,
    phys: u64,
    flags: PageTableFlags,
    Ghost(f0): Ghost<Seq<bool>>,
    Ghost(total): Ghost<int>,
    Ghost(map): Ghost<Seq<MemoryRegion>>,
    Ghost(image): Ghost<KernelImage>,
    Ghost(ri): Ghost<int>,
) -> (next: u64)
    requires
        space_ok(old(mem)@, *old(pmm), root.val(), f0, total),
        only_exposed(old(mem)@, root.val(), map, image),
        only_intended(old(mem)@, root.val(), map, image, hhdm),
        user_half_empty(old(mem)@, root.val()),
        0 <= ri < map.len(),
        map[ri].base == base,
        map[ri].base + map[ri].length == end,
        map[ri].kind != MemoryRegionKind::BadMemory,
        base <= phys < end,
        hhdm >= KERNEL_HALF_START,
        hhdm % SIZE_2M == 0,
        end <= PHYS_ADDR_LIMIT,
        hhdm + end <= u64::MAX,
        phys == base || phys % 4096 == 0,
        phys % 0x20_0000 == 0,
        phys + 0x20_0000 <= end,
        flags.value() & vmm::PRESENT != 0 ==> covered_upto(old(mem)@, root.val(), old(pmm).frames(), hhdm, base as int, end as int, phys as int),
    ensures
        space_ok(final(mem)@, *final(pmm), root.val(), f0, total),
        only_exposed(final(mem)@, root.val(), map, image),
        only_intended(final(mem)@, root.val(), map, image, hhdm),
        user_half_empty(final(mem)@, root.val()),
        final(mem)@.len() == old(mem)@.len(),
        phys < next <= end + 4096,
        next % 4096 == 0,
        final(pmm).frames().len() == old(pmm).frames().len(),
        forall|w: VirtAddr| #[trigger] spec_translate(old(mem)@, root.val(), w) is Some
            ==> spec_translate(final(mem)@, root.val(), w) == spec_translate(old(mem)@, root.val(), w),
        forall|i: int| 0 <= i < old(pmm).frames().len() && #[trigger] old(pmm).frames()[i] ==> final(pmm).frames()[i],
        flags.value() & vmm::PRESENT != 0 ==> covered_upto(final(mem)@, root.val(), final(pmm).frames(), hhdm, base as int, end as int, next as int),
{
    proof {
        reveal(space_ok);
        lemma_block_facts(hhdm as int, 0);
        lemma_mask_low_12(phys);
        lemma_page_span(base as int, phys as int, end as int);
    }
    proof {
        assert forall|o: int| 0 <= o < 0x20_0000 implies #[trigger] exposed(map, image, phys + o) by {
            assert(region_exposes(map[ri], phys + o));
        }
        assert forall|o: int| 0 <= o < 0x20_0000 implies #[trigger] intended(map, image, hhdm, (hhdm + phys) + o, phys + o) by {
            assert(exposed(map, image, phys + o));
        }
    }
    let ghost m1 = mem@;
    let ghost fr1 = pmm.frames();
    map_2m_page(mem, pmm, root, hhdm + phys, phys, flags, Ghost(f0), Ghost(total), Ghost(map), Ghost(image), Ghost(hhdm));
    proof {
        reveal(space_ok);
        lemma_block_facts(phys as int, 0);
        assert(flags.value() & vmm::PRESENT != 0 ==> covered_upto(mem@, root.val(), pmm.frames(), hhdm, base as int, end as int, (phys + 0x20_0000) as int)) by {
            reveal(covered_upto);
            if all_used(fr1) {
                assert forall|i: int| 0 <= i < pmm.frames().len() implies #[trigger] pmm.frames()[i] by {
                    assert(fr1[i]);
                }
            }
            if flags.value() & vmm::PRESENT != 0 && !all_used(pmm.frames()) {
                assert forall|w: VirtAddr| w.val() % 4096 == 0 && hhdm + base < w.val() + 4096
                    && w.val() + 4096 <= hhdm + phys + 0x20_0000
                    && !in_full_block(w.val() - hhdm, base as int, end as int)
                    implies #[trigger] spec_translate(mem@, root.val(), w) is Some by {
                    if w.val() + 4096 > hhdm + phys {
                        lemma_block_facts(phys as int, w.val() - hhdm);
                    } else {
                        assert(spec_translate(m1, root.val(), w) is Some);
                    }
                }
            }
        }
    }
    phys + SIZE_2M
}

/// A step of the direct map of a region: the 4 KiB page that holds `phys`.
#[verifier::spinoff_prover]
#[verifier::rlimit(60)]
fn direct_step_4k(
    mem: &mut [PageTableEntry],
    pmm: &mut BitmapAllocator,
    root: PhysAddr,
    hhdm: u64,
    base: u64,
    end: u64,
    phys: u64,
    flags: PageTableFlags,
    Ghost(f0): Ghost<Seq<bool>>,
    Ghost(total): Ghost<int>,
    Ghost(map): Ghost<Seq<MemoryRegion>>,
    Ghost(image): Ghost<KernelImage>,
    Ghost(ri): Ghost<int>,
) -> (next: u64)
    requires
        space_ok(old(mem)@, *old(pmm), root.val(), f0, total),
        only_exposed(old(mem)@, root.val(), map, image),
        only_intended(old(mem)@, root.val(), map, image, hhdm),
        user_half_empty(old(mem)@, root.val()),
        0 <= ri < map.len(),
        map[ri].base == base,
        map[ri].base + map[ri].length == end,
        map[ri].kind != MemoryRegionKind::BadMemory,
        base <= phys < end,
        hhdm >= KERNEL_HALF_START,
        hhdm % SIZE_2M == 0,
        end <= PHYS_ADDR_LIMIT,
        hhdm + end <= u64::MAX,
        phys == base || phys % 4096 == 0,
        flags.value() & vmm::PRESENT != 0 ==> covered_upto(old(mem)@, root.val(), old(pmm).frames(), hhdm, base as int, end as int, phys as int),
    ensures
        space_ok(final(mem)@, *final(pmm), root.val(), f0, total),
        only_exposed(final(mem)@, root.val(), map, image),
        only_intended(final(mem)@, root.val(), map, image, hhdm),
        user_half_empty(final(mem)@, root.val()),
        final(mem)@.len() == old(mem)@.len(),
        phys < next <= end + 4096,
        next % 4096 == 0,
        final(pmm).frames().len() == old(pmm).frames().len(),
        forall|w: VirtAddr| #[trigger] spec_translate(old(mem)@, root.val(), w) is Some
            ==> spec_translate(final(mem)@, root.val(), w) == spec_translate(old(mem)@, root.val(), w),
        forall|i: int| 0 <= i < old(pmm).frames().len() && #[trigger] old(pmm).frames()[i] ==> final(pmm).frames()[i],
        flags.value() & vmm::PRESENT != 0 ==> covered_upto(final(mem)@, root.val(), final(pmm).frames(), hhdm, base as int, end as int, next as int),
{
    proof {
        reveal(space_ok);
        lemma_block_facts(hhdm as int, 0);
        lemma_mask_low_12(phys);
        lemma_page_span(base as int, phys as int, end as int);
    }
    let phys_aligned = phys & !0xFFFu64;
    proof {
        assert forall|o: int| 0 <= o < 4096 implies #[trigger] exposed(map, image, phys_aligned + o) by {
            assert(region_exposes(map[ri], phys_aligned + o));
        }
        assert forall|o: int| 0 <= o < 4096 implies #[trigger] intended(map, image, hhdm, (hhdm + phys_aligned) + o, phys_aligned + o) by {
            assert(exposed(map, image, phys_aligned + o));
        }
    }
    let ghost m1 = mem@;
    let ghost fr1 = pmm.frames();
    map_4k_page(mem, pmm, root, hhdm + phys_aligned, phys_aligned, flags, Ghost(f0), Ghost(total), Ghost(map), Ghost(image), Ghost(hhdm));
    proof {
        reveal(space_ok);
        assert(flags.value() & vmm::PRESENT != 0 ==> covered_upto(mem@, root.val(), pmm.frames(), hhdm, base as int, end as int, (phys_aligned + 4096) as int)) by {
            reveal(covered_upto);
            if all_used(fr1) {
                assert forall|i: int| 0 <= i < pmm.frames().len() implies #[trigger] pmm.frames()[i] by {
                    assert(fr1[i]);
                }
            }
            if flags.value() & vmm::PRESENT != 0 && !all_used(pmm.frames()) {
                assert forall|w: VirtAddr| w.val() % 4096 == 0 && hhdm + base < w.val() + 4096
                    && w.val() + 4096 <= hhdm + phys_aligned + 4096
                    && !in_full_block(w.val() - hhdm, base as int, end as int)
                    implies #[trigger] spec_translate(mem@, root.val(), w) is Some by {
                    if w.val() + 4096 > hhdm + phys {
                        assert(w.val() == hhdm + phys_aligned);
                    } else {
                        assert(spec_translate(m1, root.val(), w) is Some);
                    }
                }
            }
        }
    }
    phys_aligned + SIZE_4K
}

/// One step of the direct map of a region: a 2 MiB page at `phys` when it
/// is 2 MiB aligned with 2 MiB left, else the 4 KiB page that holds it.
/// Returns where the next step starts.
fn direct_step(
    mem: &mut [PageTableEntry],
    pmm: &mut BitmapAllocator,
    root: PhysAddr,
    hhdm: u64,
    base: u64,
    end: u64,
    phys: u64,
    flags: PageTableFlags,
    Ghost(f0): Ghost<Seq<bool>>,
    Ghost(total): Ghost<int>,
    Ghost(map): Ghost<Seq<MemoryRegion>>,
    Ghost(image): Ghost<KernelImage>,
    Ghost(ri): Ghost<int>,
) -> (next: u64)
    requires
        space_ok(old(mem)@, *old(pmm), root.val(), f0, total),
        only_exposed(old(mem)@, root.val(), map, image),
        only_intended(old(mem)@, root.val(), map, image, hhdm),
        user_half_empty(old(mem)@, root.val()),
        0 <= ri < map.len(),
        map[ri].base == base,
        map[ri].base + map[ri].length == end,
        map[ri].kind != MemoryRegionKind::BadMemory,
        base <= phys < end,
        hhdm >= KERNEL_HALF_START,
        hhdm % SIZE_2M == 0,
        end <= PHYS_ADDR_LIMIT,
        hhdm + end <= u64::MAX,
        phys == base || phys % 4096 == 0,
        flags.value() & vmm::PRESENT != 0 ==> covered_upto(old(mem)@, root.val(), old(pmm).frames(), hhdm, base as int, end as int, phys as int),
    ensures
        space_ok(final(mem)@, *final(pmm), root.val(), f0, total),
        only_exposed(final(mem)@, root.val(), map, image),
        only_intended(final(mem)@, root.val(), map, image, hhdm),
        user_half_empty(final(mem)@, root.val()),
        final(mem)@.len() == old(mem)@.len(),
        phys < next <= end + 4096,
        next % 4096 == 0,
        final(pmm).frames().len() == old(pmm).frames().len(),
        forall|w: VirtAddr| #[trigger] spec_translate(old(mem)@, root.val(), w) is Some
            ==> spec_translate(final(mem)@, root.val(), w) == spec_translate(old(mem)@, root.val(), w),
        forall|i: int| 0 <= i < old(pmm).frames().len() && #[trigger] old(pmm).frames()[i] ==> final(pmm).frames()[i],
        flags.value() & vmm::PRESENT != 0 ==> covered_upto(final(mem)@, root.val(), final(pmm).frames(), hhdm, base as int, end as int, next as int),
{
    let remaining = end - phys;
    proof {
        vmm::lemma_huge_bits(0, phys);
    }
    if phys & (SIZE_2M - 1) == 0 && remaining >= SIZE_2M {
        direct_step_2m(mem, pmm, root, hhdm, base, end, phys, flags, Ghost(f0), Ghost(total), Ghost(map), Ghost(image), Ghost(ri))
    } else {
        direct_step_4k(mem, pmm, root, hhdm, base, end, phys, flags, Ghost(f0), Ghost(total), Ghost(map), Ghost(image), Ghost(ri))
    }
}


/// Maps `[base, base + length)` of physical memory at `hhdm + base`: in
/// 2 MiB pages where the address is 2 MiB aligned with 2 MiB left, else
/// in the 4 KiB page that holds it.
#[verifier::spinoff_prover]
#[verifier::rlimit(40)]
fn map_direct_region(
    mem: &mut [PageTableEntry],
    pmm: &mut BitmapAllocator,
    root: PhysAddr,
    hhdm: u64,
    base: u64,
    length: u64,
    flags: PageTableFlags,
    Ghost(f0): Ghost<Seq<bool>>,
    Ghost(total): Ghost<int>,
    Ghost(map): Ghost<Seq<MemoryRegion>>,
    Ghost(image): Ghost<KernelImage>,
    Ghost(ri): Ghost<int>,
)
    requires
        space_ok(old(mem)@, *old(pmm), root.val(), f0, total),
        only_exposed(old(mem)@, root.val(), map, image),
        0 <= ri < map.len(),
        map[ri].base == base,
        map[ri].length == length,
        map[ri].kind != MemoryRegionKind::BadMemory,
        hhdm >= KERNEL_HALF_START,
        hhdm % SIZE_2M == 0,
        base + length <= PHYS_ADDR_LIMIT,
        hhdm + base + length <= u64::MAX,
        only_intended(old(mem)@, root.val(), map, image, hhdm),
        user_half_empty(old(mem)@, root.val()),
    ensures
        space_ok(final(mem)@, *final(pmm), root.val(), f0, total),
        only_exposed(final(mem)@, root.val(), map, image),
        only_intended(final(mem)@, root.val(), map, image, hhdm),
        user_half_empty(final(mem)@, root.val()),
        forall|w: VirtAddr| #[trigger] spec_translate(old(mem)@, root.val(), w) is Some
            ==> spec_translate(final(mem)@, root.val(), w) == spec_translate(old(mem)@, root.val(), w),
        forall|i: int| 0 <= i < old(pmm).frames().len() && #[trigger] old(pmm).frames()[i] ==> final(pmm).frames()[i],
        flags.value() & vmm::PRESENT != 0 && base < base + length ==> all_used(final(pmm).frames())
            || forall|w: VirtAddr| w.val() % 4096 == 0 && hhdm + base < w.val() + 4096 && w.val() < hhdm + base + length
                && !in_full_block(w.val() - hhdm, base as int, base + length)
                ==> #[trigger] spec_translate(final(mem)@, root.val(), w) is Some,
        final(mem)@.len() == old(mem)@.len(),
{
    let end = base + length;
    let mut phys = base;
    proof {
        reveal(space_ok);
        reveal(covered_upto);
    }
    while phys < end
        invariant
            space_ok(mem@, *pmm, root.val(), f0, total),
            only_exposed(mem@, root.val(), map, image),
            only_intended(mem@, root.val(), map, image, hhdm),
            user_half_empty(mem@, root.val()),
            0 <= ri < map.len(),
            map[ri].base == base,
            map[ri].length == length,
            map[ri].kind != MemoryRegionKind::BadMemory,
            end == base + length,
            base <= phys,
            mem@.len() == old(mem)@.len(),
            hhdm >= KERNEL_HALF_START,
            hhdm % SIZE_2M == 0,
            end <= PHYS_ADDR_LIMIT,
            hhdm + end <= u64::MAX,
            phys <= end + 4096,
            phys == base || phys % 4096 == 0,
            pmm.frames().len() == old(pmm).frames().len(),
            forall|w: VirtAddr| #[trigger] spec_translate(old(mem)@, root.val(), w) is Some
                ==> spec_translate(mem@, root.val(), w) == spec_translate(old(mem)@, root.val(), w),
            forall|i: int| 0 <= i < old(pmm).frames().len() && #[trigger] old(pmm).frames()[i] ==> pmm.frames()[i],
            flags.value() & vmm::PRESENT != 0 ==> covered_upto(mem@, root.val(), pmm.frames(), hhdm, base as int, end as int, phys as int),
        decreases end + 4096 - phys,
    {
        phys = direct_step(mem, pmm, root, hhdm, base, end, phys, flags, Ghost(f0), Ghost(total), Ghost(map), Ghost(image), Ghost(ri));
    }
    proof {
        reveal(covered_upto);
    }
}

/// Where the kernel image lies: loaded at `phys_base`, linked at
/// `virt_base`, spanning `[start, end)` of virtual memory.
#[derive(Clone, Copy, PartialEq, Eq, Structural, Debug)]
pub struct KernelImage {
    pub phys_base: u64,
    pub virt_base: u64,
    pub start: u64,
    pub end: u64,
}

/// The image can be mapped page by page: its pages lie in the kernel
/// half at or above the link base, both bases are page aligned, and the
/// physical pages stay below the physical address limit.
pub open spec fn image_ok(k: KernelImage) -> bool {
    &&& k.end + 0xFFF <= u64::MAX
    &&& k.start >= KERNEL_HALF_START
    &&& k.virt_base <= k.start - k.start % 4096
    &&& k.virt_base % 4096 == 0
    &&& k.phys_base % 4096 == 0
    &&& k.phys_base + crate::memory::address::align_up_4k(k.end as int) - k.virt_base <= PHYS_ADDR_LIMIT
}

/// Region `r` of the memory map, unless it is bad memory, exposes the
/// pages that hold its bytes.
pub open spec fn region_exposes(r: MemoryRegion, p: int) -> bool {
    &&& r.kind != MemoryRegionKind::BadMemory
    &&& crate::memory::address::align_down_4k(r.base as int) <= p
    &&& p < crate::memory::address::align_up_4k(r.base + r.length)
}

/// Physical address `p` lies in memory the kernel's own tables may map:
/// a page of a memory-map region that is not bad memory, a page of the
/// kernel image's load range, or one of the two APIC register pages.
pub open spec fn exposed(map: Seq<MemoryRegion>, image: KernelImage, p: int) -> bool {
    ||| exists|i: int| 0 <= i < map.len() && #[trigger] region_exposes(map[i], p)
    ||| image.phys_base + (image.start - image.start % 4096) - image.virt_base <= p
        < image.phys_base + crate::memory::address::align_up_4k(image.end as int) - image.virt_base
    ||| LAPIC_PHYS <= p < LAPIC_PHYS + 4096
    ||| IOAPIC_PHYS <= p < IOAPIC_PHYS + 4096
}

/// Every address the tables rooted at `root` translate leads to exposed
/// memory.
#[verifier::opaque]
pub open spec fn only_exposed(mem: Seq<PageTableEntry>, root: u64, map: Seq<MemoryRegion>, image: KernelImage) -> bool {
    forall|w: VirtAddr| #[trigger] spec_translate(mem, root, w) is Some
        ==> exposed(map, image, spec_translate(mem, root, w)->0 as int)
}

/// Every 4 KiB page from `start` to below `upto` translates, unless every
/// frame is in use.
#[verifier::opaque]
pub open spec fn pages_covered(mem: Seq<PageTableEntry>, root: u64, frames: Seq<bool>, start: int, upto: int) -> bool {
    all_used(frames) || forall|w: VirtAddr| w.val() % 4096 == 0 && start <= w.val() < upto
        ==> #[trigger] spec_translate(mem, root, w) is Some
}

/// Maps every 4 KiB page of the kernel image to its load address, with
/// the flags of the section it lies in (write XOR execute).
#[verifier::spinoff_prover]
#[verifier::rlimit(40)]
fn map_kernel_image(
    mem: &mut [PageTableEntry],
    pmm: &mut BitmapAllocator,
    root: PhysAddr,
    image: KernelImage,
    sections: KernelSections,
    Ghost(f0): Ghost<Seq<bool>>,
    Ghost(total): Ghost<int>,
    Ghost(map): Ghost<Seq<MemoryRegion>>,
    Ghost(hhdm): Ghost<u64>,
)
    requires
        space_ok(old(mem)@, *old(pmm), root.val(), f0, total),
        only_exposed(old(mem)@, root.val(), map, image),
        image_ok(image),
        only_intended(old(mem)@, root.val(), map, image, hhdm),
        user_half_empty(old(mem)@, root.val()),
    ensures
        space_ok(final(mem)@, *final(pmm), root.val(), f0, total),
        only_exposed(final(mem)@, root.val(), map, image),
        only_intended(final(mem)@, root.val(), map, image, hhdm),
        user_half_empty(final(mem)@, root.val()),
        forall|w: VirtAddr| #[trigger] spec_translate(old(mem)@, root.val(), w) is Some
            ==> spec_translate(final(mem)@, root.val(), w) == spec_translate(old(mem)@, root.val(), w),
        forall|i: int| 0 <= i < old(pmm).frames().len() && #[trigger] old(pmm).frames()[i] ==> final(pmm).frames()[i],
        all_used(final(pmm).frames()) || forall|w: VirtAddr| w.val() % 4096 == 0
            && image.start - image.start % 4096 <= w.val() < crate::memory::address::align_up_4k(image.end as int)
            ==> #[trigger] spec_translate(final(mem)@, root.val(), w) is Some,
        final(mem)@.len() == old(mem)@.len(),
{
    proof {
        lemma_mask_low_12(image.start);
        lemma_mask_low_12((image.end + 0xFFF) as u64);
    }
    let start_page = image.start & !0xFFFu64;
    let end_page = (image.end + 0xFFF) & !0xFFFu64;
    proof {
        assert(end_page == crate::memory::address::align_up_4k(image.end as int));
    }
    proof {
        assert(vmm::KERNEL_CODE & vmm::PRESENT != 0 && vmm::KERNEL_RODATA & vmm::PRESENT != 0
            && vmm::KERNEL_DATA & vmm::PRESENT != 0) by (bit_vector);
        reveal(space_ok);
        reveal(pages_covered);
    }
    let mut addr = start_page;
    while addr < end_page
        invariant
            space_ok(mem@, *pmm, root.val(), f0, total),
            vmm::KERNEL_CODE & vmm::PRESENT != 0 && vmm::KERNEL_RODATA & vmm::PRESENT != 0
                && vmm::KERNEL_DATA & vmm::PRESENT != 0,
            pmm.frames().len() == old(pmm).frames().len(),
            forall|w: VirtAddr| #[trigger] spec_translate(old(mem)@, root.val(), w) is Some
                ==> spec_translate(mem@, root.val(), w) == spec_translate(old(mem)@, root.val(), w),
            forall|i: int| 0 <= i < old(pmm).frames().len() && #[trigger] old(pmm).frames()[i] ==> pmm.frames()[i],
            pages_covered(mem@, root.val(), pmm.frames(), start_page as int, addr as int),
            only_exposed(mem@, root.val(), map, image),
            only_intended(mem@, root.val(), map, image, hhdm),
            user_half_empty(mem@, root.val()),
            mem@.len() == old(mem)@.len(),
            image_ok(image),
            start_page <= addr,
            addr % 4096 == 0,
            end_page % 4096 == 0,
            start_page == image.start - image.start % 4096,
            end_page == crate::memory::address::align_up_4k(image.end as int),
        decreases end_page - addr,
    {
        let flags = classify_flags(
            addr,
            sections.text_start,
            sections.text_end,
            sections.rodata_start,
            sections.rodata_end,
            sections.data_start,
            sections.data_end,
            sections.bss_start,
            sections.bss_end,
        );
        let offset = addr - image.virt_base;
        proof {
            assert(addr + 4096 <= end_page);
            assert forall|o: int| 0 <= o < 4096 implies #[trigger] exposed(map, image, image.phys_base + offset + o) by {}
            assert forall|o: int| 0 <= o < 4096 implies #[trigger] intended(map, image, hhdm, addr + o, (image.phys_base + offset) + o) by {
                assert(exposed(map, image, image.phys_base + offset + o));
            }
        }
        let ghost m1 = mem@;
        let ghost fr1 = pmm.frames();
        map_4k_page(mem, pmm, root, addr, image.phys_base + offset, flags, Ghost(f0), Ghost(total), Ghost(map), Ghost(image), Ghost(hhdm));
        proof {
            reveal(space_ok);
            assert(pages_covered(mem@, root.val(), pmm.frames(), start_page as int, addr + 4096)) by {
                reveal(pages_covered);
                if all_used(fr1) {
                    assert forall|i: int| 0 <= i < pmm.frames().len() implies #[trigger] pmm.frames()[i] by {
                        assert(fr1[i]);
                    }
                }
                if !all_used(pmm.frames()) {
                    assert forall|w: VirtAddr| w.val() % 4096 == 0 && start_page <= w.val() < addr + 4096
                        implies #[trigger] spec_translate(mem@, root.val(), w) is Some by {
                        if w.val() < addr {
                            assert(spec_translate(m1, root.val(), w) is Some);
                        }
                    }
                }
            }
        }
        addr = addr + SIZE_4K;
    }
    proof { reveal(pages_covered); }
}

/// Every page-aligned address `want` picks translates, unless every
/// frame is in use.
pub open spec fn covered_where(mem: Seq<PageTableEntry>, root: u64, frames: Seq<bool>, want: spec_fn(int) -> bool) -> bool {
    all_used(frames) || forall|w: VirtAddr| w.val() % 4096 == 0 && want(w.val() as int) ==> #[trigger] spec_translate(mem, root, w) is Some
}

/// The pages of the direct-map range of the region `base..base + len`
/// that no full 2 MiB block of the region holds.
pub open spec fn region_small_pages(hhdm: u64, base: int, len: int) -> spec_fn(int) -> bool {
    |a: int| 0 < len && hhdm + base < a + 4096 && a < hhdm + base + len && !in_full_block(a - hhdm, base, base + len)
}

/// The pages of the kernel image.
pub open spec fn image_pages(image: KernelImage) -> spec_fn(int) -> bool {
    |a: int| image.start - image.start % 4096 <= a < crate::memory::address::align_up_4k(image.end as int)
}

/// The page at `page`.
pub open spec fn one_page(page: int) -> spec_fn(int) -> bool {
    |a: int| a == page
}

/// Coverage survives a step that keeps every translation and every used
/// frame.
proof fn lemma_covered_step(
    m0: Seq<PageTableEntry>, f0: Seq<bool>, m1: Seq<PageTableEntry>, f1: Seq<bool>, root: u64, want: spec_fn(int) -> bool,
)
    requires
        covered_where(m0, root, f0, want),
        f0.len() == f1.len(),
        forall|w: VirtAddr| #[trigger] spec_translate(m0, root, w) is Some ==> spec_translate(m1, root, w) == spec_translate(m0, root, w),
        forall|i: int| 0 <= i < f0.len() && #[trigger] f0[i] ==> f1[i],
    ensures
        covered_where(m1, root, f1, want),
{
    if all_used(f0) {
        assert forall|i: int| 0 <= i < f1.len() implies #[trigger] f1[i] by {
            assert(f0[i]);
        }
    } else {
        assert forall|w: VirtAddr| w.val() % 4096 == 0 && want(w.val() as int) implies #[trigger] spec_translate(m1, root, w) is Some by {
            assert(spec_translate(m0, root, w) is Some);
        }
    }
}

/// Builds the kernel's own page tables in a new root and returns it:
/// every memory-map region but bad memory mapped at `hhdm` plus its
/// physical address (2 MiB pages where possible), the kernel image page by
/// page with write-XOR-execute section flags, and the local and I/O APIC
/// register pages uncached. Nothing else is mapped: no identity map and
/// nothing the bootloader left. A mapping that fails (already mapped,
/// tables exhausted) is skipped.
#[verifier::spinoff_prover]
#[verifier::rlimit(60)]
pub fn build(
    mem: &mut [PageTableEntry],
    pmm: &mut BitmapAllocator,
    map: &[MemoryRegion],
    hhdm: u64,
    image: KernelImage,
    sections: KernelSections,
) -> (r: PhysAddr)
    requires
        old(pmm).wf(),
        old(pmm).total() * 512 <= old(mem)@.len(),
        exists|i: int| 0 <= i < old(pmm).frames().len() && !old(pmm).frames()[i],
        hhdm >= KERNEL_HALF_START,
        hhdm % SIZE_2M == 0,
        hhdm + 0x1_0000_0000 <= u64::MAX,
        forall|i: int| 0 <= i < map@.len() && map@[i].kind != MemoryRegionKind::BadMemory ==> {
            &&& map@[i].base + map@[i].length <= PHYS_ADDR_LIMIT
            &&& hhdm + map@[i].base + map@[i].length <= u64::MAX
        },
        image_ok(image),
    ensures
        final(pmm).wf(),
        final(pmm).total() == old(pmm).total(),
        final(mem)@.len() == old(mem)@.len(),
        r.val() % 4096 == 0,
        0 <= frame_of(r) < old(pmm).frames().len(),
        !old(pmm).frames()[frame_of(r)],
        final(pmm).frames()[frame_of(r)],
        forall|i: int| 0 <= i < old(pmm).frames().len() && #[trigger] old(pmm).frames()[i] ==> final(pmm).frames()[i],
        tables_ok(final(mem)@, r.val(), final(pmm).frames()),
        forall|w: VirtAddr| #[trigger] spec_translate(final(mem)@, r.val(), w) is Some
            ==> exposed(map@, image, spec_translate(final(mem)@, r.val(), w)->0 as int),
        forall|w: VirtAddr| w.val() < crate::memory::address::USER_HALF_END
            ==> #[trigger] spec_translate(final(mem)@, r.val(), w) is None,
        forall|w: VirtAddr| canonical(w.val()) && #[trigger] spec_translate(final(mem)@, r.val(), w) is Some
            ==> intended(map@, image, hhdm, w.val() as int, spec_translate(final(mem)@, r.val(), w)->0 as int),
        vmm::tree_tables_ok(final(mem)@, r.val(), final(pmm).frames()),
        forall|k: int| 0 <= k < map@.len() && map@[k].kind != MemoryRegionKind::BadMemory ==>
            covered_where(final(mem)@, r.val(), final(pmm).frames(),
                #[trigger] region_small_pages(hhdm, map@[k].base as int, map@[k].length as int)),
        covered_where(final(mem)@, r.val(), final(pmm).frames(), image_pages(image)),
        covered_where(final(mem)@, r.val(), final(pmm).frames(), one_page(hhdm + LAPIC_PHYS)),
        covered_where(final(mem)@, r.val(), final(pmm).frames(), one_page(hhdm + IOAPIC_PHYS)),
{
    proof {
        old(pmm).lemma_wf_bounds();
        let i = choose|i: int| 0 <= i < old(pmm).frames().len() && !old(pmm).frames()[i];
        assert(!(forall|k: int| 0 <= k < old(pmm).frames().len() ==> #[trigger] old(pmm).frames()[k]));
    }
    let ghost f0 = pmm.frames();
    let ghost total = pmm.total();
    let root = match vmm::new_table(mem, pmm) {
        Some(t) => t,
        None => {
            proof { assert(false); }
            return PhysAddr::new(0);
        },
    };
    let ghost f1 = pmm.frames();
    proof {
        pmm.lemma_wf_bounds();
        assert(frame_num(root.val()) == frame_of(root));
        vmm::lemma_tree_new_root(mem@, root.val(), f1);
        assert(forall|i: int| 0 <= i < f1.len() && #[trigger] f1[i] ==> pmm.frames()[i]);
        reveal(space_ok);
        assert forall|i: int| 0 <= i < 512 implies #[trigger] read_entry(mem@, root.val(), i) == 0 by {
            vmm::lemma_slot_frame(root.val(), i);
        }
        vmm::lemma_empty_root(mem@, root.val());
        reveal(only_exposed);
        reveal(only_intended);
    }
    let ghost g0 = f1;
    // The direct map of physical memory.
    let hhdm_flags = PageTableFlags::from_bits_truncate(HHDM_FLAGS);
    proof {
        assert(HHDM_FLAGS & vmm::ALL_FLAGS & vmm::PRESENT != 0 && MMIO_FLAGS & vmm::ALL_FLAGS & vmm::PRESENT != 0) by (bit_vector);
    }
    let mut i: usize = 0;
    while i < map.len()
        invariant
            space_ok(mem@, *pmm, root.val(), g0, total),
            only_exposed(mem@, root.val(), map@, image),
            only_intended(mem@, root.val(), map@, image, hhdm),
            user_half_empty(mem@, root.val()),
            mem@.len() == old(mem)@.len(),
            hhdm >= KERNEL_HALF_START,
            hhdm % SIZE_2M == 0,
            forall|i: int| 0 <= i < map@.len() && map@[i].kind != MemoryRegionKind::BadMemory ==> {
                &&& map@[i].base + map@[i].length <= PHYS_ADDR_LIMIT
                &&& hhdm + map@[i].base + map@[i].length <= u64::MAX
            },
            0 <= i <= map@.len(),
            hhdm_flags.value() & vmm::PRESENT != 0,
            forall|k: int| 0 <= k < i && map@[k].kind != MemoryRegionKind::BadMemory ==>
                covered_where(mem@, root.val(), pmm.frames(), #[trigger] region_small_pages(hhdm, map@[k].base as int, map@[k].length as int)),
        decreases map.len() - i,
    {
        let entry = map[i];
        let ghost m0 = mem@;
        let ghost fr0 = pmm.frames();
        if entry.kind != MemoryRegionKind::BadMemory {
            map_direct_region(mem, pmm, root, hhdm, entry.base, entry.length, hhdm_flags, Ghost(g0), Ghost(total), Ghost(map@), Ghost(image), Ghost(i as int));
            proof {
                reveal(space_ok);
                assert forall|k: int| 0 <= k < i + 1 && map@[k].kind != MemoryRegionKind::BadMemory implies
                    covered_where(mem@, root.val(), pmm.frames(), #[trigger] region_small_pages(hhdm, map@[k].base as int, map@[k].length as int)) by {
                    if k < i {
                        lemma_covered_step(m0, fr0, mem@, pmm.frames(), root.val(), region_small_pages(hhdm, map@[k].base as int, map@[k].length as int));
                    } else {
                        let want = region_small_pages(hhdm, map@[k].base as int, map@[k].length as int);
                        if !all_used(pmm.frames()) && entry.base < entry.base + entry.length {
                            assert forall|w: VirtAddr| w.val() % 4096 == 0 && want(w.val() as int) implies #[trigger] spec_translate(mem@, root.val(), w) is Some by {
                            }
                        }
                    }
                }
            }
        }
        i = i + 1;
    }
    // The kernel image.
    let ghost m1 = mem@;
    let ghost fr1 = pmm.frames();
    map_kernel_image(mem, pmm, root, image, sections, Ghost(g0), Ghost(total), Ghost(map@), Ghost(hhdm));
    proof {
        reveal(space_ok);
        assert forall|k: int| 0 <= k < map@.len() && map@[k].kind != MemoryRegionKind::BadMemory implies
            covered_where(mem@, root.val(), pmm.frames(), #[trigger] region_small_pages(hhdm, map@[k].base as int, map@[k].length as int)) by {
            lemma_covered_step(m1, fr1, mem@, pmm.frames(), root.val(), region_small_pages(hhdm, map@[k].base as int, map@[k].length as int));
        }
        assert(covered_where(mem@, root.val(), pmm.frames(), image_pages(image)));
    }
    // Device registers.
    let mmio_flags = PageTableFlags::from_bits_truncate(MMIO_FLAGS);
    proof {
        assert forall|o: int| 0 <= o < 4096 implies #[trigger] intended(map@, image, hhdm, (hhdm + LAPIC_PHYS) + o, LAPIC_PHYS + o) by {
            assert(exposed(map@, image, LAPIC_PHYS + o));
        }
        assert forall|o: int| 0 <= o < 4096 implies #[trigger] intended(map@, image, hhdm, (hhdm + IOAPIC_PHYS) + o, IOAPIC_PHYS + o) by {
            assert(exposed(map@, image, IOAPIC_PHYS + o));
        }
    }
    let ghost m2 = mem@;
    let ghost fr2 = pmm.frames();
    map_4k_page(mem, pmm, root, hhdm + LAPIC_PHYS, LAPIC_PHYS, mmio_flags, Ghost(g0), Ghost(total), Ghost(map@), Ghost(image), Ghost(hhdm));
    let ghost m3 = mem@;
    let ghost fr3 = pmm.frames();
    proof {
        reveal(space_ok);
        assert forall|k: int| 0 <= k < map@.len() && map@[k].kind != MemoryRegionKind::BadMemory implies
            covered_where(mem@, root.val(), pmm.frames(), #[trigger] region_small_pages(hhdm, map@[k].base as int, map@[k].length as int)) by {
            lemma_covered_step(m2, fr2, mem@, pmm.frames(), root.val(), region_small_pages(hhdm, map@[k].base as int, map@[k].length as int));
        }
        lemma_covered_step(m2, fr2, mem@, pmm.frames(), root.val(), image_pages(image));
        assert(covered_where(mem@, root.val(), pmm.frames(), one_page(hhdm + LAPIC_PHYS)));
    }
    map_4k_page(mem, pmm, root, hhdm + IOAPIC_PHYS, IOAPIC_PHYS, mmio_flags, Ghost(g0), Ghost(total), Ghost(map@), Ghost(image), Ghost(hhdm));
    proof {
        reveal(space_ok);
        assert forall|k: int| 0 <= k < map@.len() && map@[k].kind != MemoryRegionKind::BadMemory implies
            covered_where(mem@, root.val(), pmm.frames(), #[trigger] region_small_pages(hhdm, map@[k].base as int, map@[k].length as int)) by {
            lemma_covered_step(m3, fr3, mem@, pmm.frames(), root.val(), region_small_pages(hhdm, map@[k].base as int, map@[k].length as int));
        }
        lemma_covered_step(m3, fr3, mem@, pmm.frames(), root.val(), image_pages(image));
        lemma_covered_step(m3, fr3, mem@, pmm.frames(), root.val(), one_page(hhdm + LAPIC_PHYS));
        assert(covered_where(mem@, root.val(), pmm.frames(), one_page(hhdm + IOAPIC_PHYS)));
        reveal(space_ok);
        reveal(only_exposed);
        reveal(only_intended);
        vmm::lemma_tree_tables_ok(mem@, root.val(), pmm.frames());
        assert forall|w: VirtAddr| w.val() < crate::memory::address::USER_HALF_END
            implies #[trigger] spec_translate(mem@, root.val(), w) is None by {
            vmm::lemma_user_half_unmapped(mem@, root.val(), w);
        }
        assert forall|i: int| 0 <= i < f0.len() && #[trigger] f0[i] implies pmm.frames()[i] by {
            assert(f1[i]);
        }
    }
    root
}

} // verus!

verus! {

/// Firmware tables live in ACPI reclaimable and NVS regions; those of up
/// to 16 MiB are mapped into the direct map before the tables are read.
pub open spec fn acpi_needs_mapping(e: MemoryRegion) -> bool {
    (e.kind == MemoryRegionKind::AcpiReclaimable || e.kind == MemoryRegionKind::AcpiNvs) && e.length <= 0x100_0000
}

/// The addresses `lo..hi`.
pub open spec fn addr_range(lo: int, hi: int) -> spec_fn(int) -> bool {
    |a: int| lo <= a < hi
}

/// The direct-map pages of a region, from its first page to the end of
/// its last.
pub open spec fn direct_pages(hhdm: u64, e: MemoryRegion) -> spec_fn(int) -> bool {
    addr_range(hhdm + (e.base - e.base % 4096), hhdm + crate::memory::address::align_up_4k(e.base + e.length))
}

/// Maps the direct-map page of frame `phys` read-only and no-execute in
/// the tables at `root`. A page already mapped (by a 4 KiB entry or a huge
/// page over it) is left as it is; so is one whose tables find no free
/// frame. Returns whether a new mapping was made.
fn map_firmware_page(
    mem: &mut [PageTableEntry],
    pmm: &mut BitmapAllocator,
    root: PhysAddr,
    virt: u64,
    phys: u64,
) -> (r: bool)
    requires
        old(pmm).wf(),
        old(pmm).total() * 512 <= old(mem)@.len(),
        tables_ok(old(mem)@, root.val(), old(pmm).frames()),
        virt >= KERNEL_HALF_START,
        virt % 4096 == 0,
        phys % 4096 == 0,
        phys < PHYS_ADDR_LIMIT,
    ensures
        final(pmm).wf(),
        final(pmm).total() == old(pmm).total(),
        final(mem)@.len() == old(mem)@.len(),
        final(pmm).frames().len() == old(pmm).frames().len(),
        tables_ok(final(mem)@, root.val(), final(pmm).frames()),
        forall|w: VirtAddr| #[trigger] spec_translate(old(mem)@, root.val(), w) is Some
            ==> spec_translate(final(mem)@, root.val(), w) == spec_translate(old(mem)@, root.val(), w),
        forall|i: int| 0 <= i < old(pmm).frames().len() && #[trigger] old(pmm).frames()[i] ==> final(pmm).frames()[i],
        all_used(final(pmm).frames()) || forall|w: VirtAddr| w.val() == virt ==> #[trigger] spec_translate(final(mem)@, root.val(), w) is Some,
        r ==> forall|w: VirtAddr| w.val() == virt ==> #[trigger] spec_translate(final(mem)@, root.val(), w) == Some(phys),
{
    let v = VirtAddr::new(virt);
    let flags = PageTableFlags::from_bits_truncate(vmm::PRESENT | vmm::NO_EXECUTE);
    proof {
        assert((vmm::PRESENT | vmm::NO_EXECUTE) & vmm::ALL_FLAGS & vmm::PRESENT != 0) by (bit_vector);
        old(pmm).lemma_wf_bounds();
        vmm::lemma_tables_ok_paths(old(mem)@, root.val(), old(pmm).frames(), v);
    }
    let ghost m0 = mem@;
    let ghost fr = pmm.frames();
    let res = vmm::map_page(mem, pmm, root, v, PhysAddr::new(phys), flags);
    proof {
        vmm::lemma_conflict_translates(m0, root.val(), v);
        assert forall|w: VirtAddr| w.val() == virt implies w == v by {
            VirtAddr::lemma_same_val(w, v);
        }
        pmm.lemma_wf_bounds();
        if vmm::map_conflict(m0, root.val(), v) is None && res is Err {
            pmm::lemma_count_full(pmm.frames());
        }
    }
    res.is_ok()
}

/// Maps every page of the region `[base, base + length)` into the direct
/// map at `hhdm` (see `map_firmware_page`).
fn map_firmware_region(
    mem: &mut [PageTableEntry],
    pmm: &mut BitmapAllocator,
    root: PhysAddr,
    hhdm: u64,
    e: MemoryRegion,
)
    requires
        old(pmm).wf(),
        old(pmm).total() * 512 <= old(mem)@.len(),
        tables_ok(old(mem)@, root.val(), old(pmm).frames()),
        hhdm >= KERNEL_HALF_START,
        hhdm % 4096 == 0,
        e.base + e.length + 4096 <= PHYS_ADDR_LIMIT,
        hhdm + e.base + e.length + 4096 <= u64::MAX,
    ensures
        final(pmm).wf(),
        final(pmm).total() == old(pmm).total(),
        final(mem)@.len() == old(mem)@.len(),
        final(pmm).frames().len() == old(pmm).frames().len(),
        tables_ok(final(mem)@, root.val(), final(pmm).frames()),
        forall|w: VirtAddr| #[trigger] spec_translate(old(mem)@, root.val(), w) is Some
            ==> spec_translate(final(mem)@, root.val(), w) == spec_translate(old(mem)@, root.val(), w),
        forall|i: int| 0 <= i < old(pmm).frames().len() && #[trigger] old(pmm).frames()[i] ==> final(pmm).frames()[i],
        covered_where(final(mem)@, root.val(), final(pmm).frames(), direct_pages(hhdm, e)),
{
    proof {
        lemma_mask_low_12(e.base);
        lemma_mask_low_12((e.base + e.length + 0xFFF) as u64);
    }
    let start = e.base & !0xFFFu64;
    let end = (e.base + e.length + 0xFFF) & !0xFFFu64;
    proof {
        assert(end == crate::memory::address::align_up_4k(e.base + e.length));
        old(pmm).lemma_wf_bounds();
    }
    let mut phys = start;
    while phys < end
        invariant
            pmm.wf(),
            pmm.total() == old(pmm).total(),
            pmm.total() * 512 <= mem@.len(),
            mem@.len() == old(mem)@.len(),
            tables_ok(mem@, root.val(), pmm.frames()),
            pmm.frames().len() == old(pmm).frames().len(),
            forall|w: VirtAddr| #[trigger] spec_translate(old(mem)@, root.val(), w) is Some
                ==> spec_translate(mem@, root.val(), w) == spec_translate(old(mem)@, root.val(), w),
            forall|i: int| 0 <= i < old(pmm).frames().len() && #[trigger] old(pmm).frames()[i] ==> pmm.frames()[i],
            covered_where(mem@, root.val(), pmm.frames(), addr_range(hhdm + start, hhdm + phys)),
            start <= phys <= end,
            phys % 4096 == 0,
            end % 4096 == 0,
            start == e.base - e.base % 4096,
            end == crate::memory::address::align_up_4k(e.base + e.length),
            hhdm >= KERNEL_HALF_START,
            hhdm % 4096 == 0,
            end <= e.base + e.length + 4096,
            e.base + e.length + 4096 <= PHYS_ADDR_LIMIT,
            hhdm + e.base + e.length + 4096 <= u64::MAX,
        decreases end - phys,
    {
        let ghost m1 = mem@;
        let ghost fr1 = pmm.frames();
        let _ = map_firmware_page(mem, pmm, root, hhdm + phys, phys);
        proof {
            pmm.lemma_wf_bounds();
            if all_used(fr1) {
                assert forall|i: int| 0 <= i < pmm.frames().len() implies #[trigger] pmm.frames()[i] by {
                    assert(fr1[i]);
                }
            }
            if !all_used(pmm.frames()) {
                assert forall|w: VirtAddr| w.val() % 4096 == 0 && (addr_range(hhdm + start, hhdm + phys + 4096))(w.val() as int)
                    implies #[trigger] spec_translate(mem@, root.val(), w) is Some by {
                    if w.val() < hhdm + phys {
                        assert((addr_range(hhdm + start, hhdm + phys))(w.val() as int));
                        assert(spec_translate(m1, root.val(), w) is Some);
                    }
                }
            }
        }
        phys = phys + 4096;
    }
    proof {
        assert forall|a: int| #[trigger] (direct_pages(hhdm, e))(a) == (addr_range(hhdm + start, hhdm + phys))(a) by {}
        assert(direct_pages(hhdm, e) == addr_range(hhdm + start, hhdm + phys));
    }
}

/// Maps the firmware-table regions of the boot memory map (see
/// `acpi_needs_mapping`) into the direct map at `hhdm` of the tables at
/// `root`, page by page, read-only and no-execute. Afterwards every page
/// of those regions translates, unless every frame is in use; other
/// translations stay as they were.
pub fn map_acpi_regions(
    mem: &mut [PageTableEntry],
    pmm: &mut BitmapAllocator,
    root: PhysAddr,
    map: &[MemoryRegion],
    hhdm: u64,
)
    requires
        old(pmm).wf(),
        old(pmm).total() * 512 <= old(mem)@.len(),
        tables_ok(old(mem)@, root.val(), old(pmm).frames()),
        hhdm >= KERNEL_HALF_START,
        hhdm % 4096 == 0,
        forall|i: int| 0 <= i < map@.len() && acpi_needs_mapping(#[trigger] map@[i]) ==> {
            &&& map@[i].base + map@[i].length + 4096 <= PHYS_ADDR_LIMIT
            &&& hhdm + map@[i].base + map@[i].length + 4096 <= u64::MAX
        },
    ensures
        final(pmm).wf(),
        final(pmm).total() == old(pmm).total(),
        final(mem)@.len() == old(mem)@.len(),
        final(pmm).frames().len() == old(pmm).frames().len(),
        tables_ok(final(mem)@, root.val(), final(pmm).frames()),
        forall|w: VirtAddr| #[trigger] spec_translate(old(mem)@, root.val(), w) is Some
            ==> spec_translate(final(mem)@, root.val(), w) == spec_translate(old(mem)@, root.val(), w),
        forall|k: int| 0 <= k < map@.len() && acpi_needs_mapping(map@[k]) ==>
            covered_where(final(mem)@, root.val(), final(pmm).frames(), #[trigger] direct_pages(hhdm, map@[k])),
{
    let mut i: usize = 0;
    while i < map.len()
        invariant
            0 <= i <= map@.len(),
            pmm.wf(),
            pmm.total() == old(pmm).total(),
            pmm.total() * 512 <= mem@.len(),
            mem@.len() == old(mem)@.len(),
            tables_ok(mem@, root.val(), pmm.frames()),
            forall|w: VirtAddr| #[trigger] spec_translate(old(mem)@, root.val(), w) is Some
                ==> spec_translate(mem@, root.val(), w) == spec_translate(old(mem)@, root.val(), w),
            hhdm >= KERNEL_HALF_START,
            hhdm % 4096 == 0,
            pmm.frames().len() == old(pmm).frames().len(),
            forall|j: int| 0 <= j < map@.len() && acpi_needs_mapping(#[trigger] map@[j]) ==> {
                &&& map@[j].base + map@[j].length + 4096 <= PHYS_ADDR_LIMIT
                &&& hhdm + map@[j].base + map@[j].length + 4096 <= u64::MAX
            },
            forall|k: int| 0 <= k < i && acpi_needs_mapping(map@[k]) ==>
                covered_where(mem@, root.val(), pmm.frames(), #[trigger] direct_pages(hhdm, map@[k])),
        decreases map@.len() - i,
    {
        let e = map[i];
        let needs = (e.kind == MemoryRegionKind::AcpiReclaimable || e.kind == MemoryRegionKind::AcpiNvs) && e.length <= 0x100_0000;
        if needs {
            proof { assert(acpi_needs_mapping(map@[i as int])); }
            let ghost m0 = mem@;
            let ghost fr0 = pmm.frames();
            map_firmware_region(mem, pmm, root, hhdm, e);
            proof {
                assert forall|k: int| 0 <= k < i + 1 && acpi_needs_mapping(map@[k]) implies
                    covered_where(mem@, root.val(), pmm.frames(), #[trigger] direct_pages(hhdm, map@[k])) by {
                    if k < i {
                        lemma_covered_step(m0, fr0, mem@, pmm.frames(), root.val(), direct_pages(hhdm, map@[k]));
                    }
                }
            }
        }
        i = i + 1;
    }
}

} // verus!
