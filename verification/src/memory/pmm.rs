//! Physical memory manager: a bitmap frame allocator.
//!
//! One bit per 4 KiB frame: set = used, clear = free. Frame `i` is bit
//! `i % 64` of word `i / 64`, which is the same bit layout as a byte
//! bitmap read little-endian (bit `i % 8` of byte `i / 8`).

use vstd::prelude::*;
use vstd::arithmetic::div_mod::{lemma_small_mod, lemma_mod_add_multiples_vanish};
use crate::memory::address::{PhysAddr, PAGE_SIZE, PHYS_ADDR_LIMIT};

verus! {

// ---------------------------------------------------------------------------
// Bits and counting
// ---------------------------------------------------------------------------

/// Bit `b` of word `w`.
pub open spec fn bit_of(w: u64, b: int) -> bool {
    (w >> (b as u64)) & 1u64 == 1u64
}

/// Number of `true` entries in `s`.
pub open spec fn count_true(s: Seq<bool>) -> nat
    decreases s.len(),
{
    if s.len() == 0 {
        0
    } else {
        count_true(s.drop_last()) + (if s.last() { 1nat } else { 0nat })
    }
}

/// Number of `true` entries of `s` in `[lo, hi)`.
pub open spec fn count_range(s: Seq<bool>, lo: int, hi: int) -> nat {
    count_true(s.subrange(lo, hi))
}

pub proof fn lemma_count_le_len(s: Seq<bool>)
    ensures
        count_true(s) <= s.len(),
    decreases s.len(),
{
    if s.len() > 0 {
        lemma_count_le_len(s.drop_last());
    }
}

pub proof fn lemma_count_all_true(s: Seq<bool>)
    requires
        forall|i: int| 0 <= i < s.len() ==> s[i],
    ensures
        count_true(s) == s.len(),
    decreases s.len(),
{
    if s.len() > 0 {
        lemma_count_all_true(s.drop_last());
    }
}

/// A sequence with as many `true` entries as entries holds only `true`.
pub proof fn lemma_count_full(s: Seq<bool>)
    requires
        count_true(s) == s.len(),
    ensures
        forall|i: int| 0 <= i < s.len() ==> s[i],
    decreases s.len(),
{
    if s.len() > 0 {
        lemma_count_le_len(s.drop_last());
        lemma_count_full(s.drop_last());
        assert forall|i: int| 0 <= i < s.len() implies s[i] by {
            if i < s.len() - 1 {
                assert(s.drop_last()[i] == s[i]);
            }
        }
    }
}

pub proof fn lemma_count_all_false(s: Seq<bool>)
    requires
        forall|i: int| 0 <= i < s.len() ==> !s[i],
    ensures
        count_true(s) == 0,
    decreases s.len(),
{
    if s.len() > 0 {
        lemma_count_all_false(s.drop_last());
    }
}

pub proof fn lemma_count_update(s: Seq<bool>, i: int, v: bool)
    requires
        0 <= i < s.len(),
    ensures
        count_true(s.update(i, v)) + (if s[i] { 1int } else { 0int })
            == count_true(s) + (if v { 1int } else { 0int }),
    decreases s.len(),
{
    let t = s.update(i, v);
    if i == s.len() - 1 {
        assert(t.drop_last() =~= s.drop_last());
    } else {
        assert(t.drop_last() =~= s.drop_last().update(i, v));
        lemma_count_update(s.drop_last(), i, v);
    }
}

pub proof fn lemma_count_concat(a: Seq<bool>, b: Seq<bool>)
    ensures
        count_true(a + b) == count_true(a) + count_true(b),
    decreases b.len(),
{
    if b.len() == 0 {
        assert(a + b =~= a);
    } else {
        assert((a + b).drop_last() =~= a + b.drop_last());
        lemma_count_concat(a, b.drop_last());
    }
}

pub proof fn lemma_count_split(s: Seq<bool>, lo: int, mid: int, hi: int)
    requires
        0 <= lo <= mid <= hi <= s.len(),
    ensures
        count_range(s, lo, hi) == count_range(s, lo, mid) + count_range(s, mid, hi),
{
    assert(s.subrange(lo, hi) =~= s.subrange(lo, mid) + s.subrange(mid, hi));
    lemma_count_concat(s.subrange(lo, mid), s.subrange(mid, hi));
}


pub proof fn lemma_count_single(s: Seq<bool>, i: int)
    requires
        0 <= i < s.len(),
    ensures
        count_range(s, i, i + 1) == (if s[i] { 1nat } else { 0nat }),
{
    let t = s.subrange(i, i + 1);
    assert(t.drop_last() =~= Seq::<bool>::empty());
    assert(count_true(Seq::<bool>::empty()) == 0);
}

pub proof fn lemma_count_empty_range(s: Seq<bool>, i: int)
    requires
        0 <= i <= s.len(),
    ensures
        count_range(s, i, i) == 0,
{
    assert(s.subrange(i, i) =~= Seq::<bool>::empty());
}

/// Inverted bits: bit `k` of `!w` is the opposite of bit `k` of `w`.
pub proof fn lemma_bit_not(w: u64, k: u64)
    requires
        k < 64,
    ensures
        ((!w) >> k) & 1u64 == 1u64 <==> !bit_of(w, k as int),
        ((!w) >> k) & 1u64 == 0u64 <==> bit_of(w, k as int),
{
    assert(((!w) >> k) & 1u64 == 1u64 <==> !((w >> k) & 1u64 == 1u64)) by (bit_vector)
        requires k < 64;
    assert(((!w) >> k) & 1u64 == 0u64 <==> ((w >> k) & 1u64 == 1u64)) by (bit_vector)
        requires k < 64;
}

/// Walking chunk indices `(c0 + j) % n` in order reaches chunk `(c0 + i) % n` at step `i`.
pub proof fn lemma_cyclic_index(c0: int, i: int, n: int)
    requires
        0 < n,
        0 <= c0 <= n,
        0 <= i < n,
    ensures
        0 <= (c0 + i) % n < n,
        (((c0 + i) % n) - c0 + n) % n == i,
{
    if c0 + i < n {
        lemma_small_mod((c0 + i) as nat, n as nat);
        lemma_mod_add_multiples_vanish(i, n);
        lemma_small_mod(i as nat, n as nat);
    } else {
        lemma_mod_add_multiples_vanish(c0 + i - n, n);
        lemma_small_mod((c0 + i - n) as nat, n as nat);
        lemma_small_mod(i as nat, n as nat);
    }
}

/// Every chunk `c` is visited at some step `j` of the cyclic walk.
pub proof fn lemma_cyclic_cover(c0: int, c: int, n: int) -> (j: int)
    requires
        0 < n,
        0 <= c0 <= n,
        0 <= c < n,
    ensures
        0 <= j < n,
        (c0 + j) % n == c,
{
    if c0 == n {
        lemma_mod_add_multiples_vanish(c, n);
        lemma_small_mod(c as nat, n as nat);
        c
    } else if c >= c0 {
        lemma_small_mod(c as nat, n as nat);
        c - c0
    } else {
        lemma_mod_add_multiples_vanish(c, n);
        lemma_small_mod(c as nat, n as nat);
        c - c0 + n
    }
}

/// Setting bit `b` changes bit `b` only.
pub proof fn lemma_bit_set(w: u64, b: u64, c: u64)
    requires
        b < 64,
        c < 64,
    ensures
        bit_of(w | (1u64 << b), c as int) == (c == b || bit_of(w, c as int)),
{
    assert(((w | (1u64 << b)) >> c) & 1u64 == 1u64 <==> (c == b || (w >> c) & 1u64 == 1u64))
        by (bit_vector)
        requires b < 64, c < 64;
}

/// Clearing bit `b` changes bit `b` only.
pub proof fn lemma_bit_clear(w: u64, b: u64, c: u64)
    requires
        b < 64,
        c < 64,
    ensures
        bit_of(w & !(1u64 << b), c as int) == (c != b && bit_of(w, c as int)),
{
    assert(((w & !(1u64 << b)) >> c) & 1u64 == 1u64 <==> (c != b && (w >> c) & 1u64 == 1u64))
        by (bit_vector)
        requires b < 64, c < 64;
}

/// Testing bit `b` with a mask.
pub proof fn lemma_bit_test(w: u64, b: u64)
    requires
        b < 64,
    ensures
        (w & (1u64 << b) != 0) == bit_of(w, b as int),
{
    assert((w & (1u64 << b) != 0) == ((w >> b) & 1u64 == 1u64)) by (bit_vector)
        requires b < 64;
}

/// Every bit of `u64::MAX` is set.
pub proof fn lemma_all_ones(c: u64)
    requires
        c < 64,
    ensures
        bit_of(0xFFFF_FFFF_FFFF_FFFFu64, c as int),
{
    assert((0xFFFF_FFFF_FFFF_FFFFu64 >> c) & 1u64 == 1u64) by (bit_vector)
        requires c < 64;
}

// ---------------------------------------------------------------------------
// Memory map model
// ---------------------------------------------------------------------------

/// The kind of a boot memory-map region.
#[derive(Clone, Copy, PartialEq, Eq, Structural, Debug)]
pub enum MemoryRegionKind {
    Usable,
    Reserved,
    AcpiReclaimable,
    AcpiNvs,
    BadMemory,
    BootloaderReclaimable,
    ExecutableAndModules,
    Framebuffer,
}

/// One entry of the boot memory map: `[base, base + length)` of a kind.
#[derive(Clone, Copy, PartialEq, Eq, Structural, Debug)]
pub struct MemoryRegion {
    pub base: u64,
    pub length: u64,
    pub kind: MemoryRegionKind,
}

/// Regions that determine how many frames the bitmap tracks.
pub open spec fn is_tracked_kind(k: MemoryRegionKind) -> bool {
    k == MemoryRegionKind::Usable || k == MemoryRegionKind::BootloaderReclaimable
        || k == MemoryRegionKind::AcpiReclaimable || k == MemoryRegionKind::ExecutableAndModules
        || k == MemoryRegionKind::Framebuffer
}

/// Highest end address of a tracked region among the first `n` entries.
pub open spec fn highest_tracked(map: Seq<MemoryRegion>, n: int) -> int
    decreases n,
{
    if n <= 0 {
        0
    } else {
        let prev = highest_tracked(map, n - 1);
        let e = map[n - 1];
        if is_tracked_kind(e.kind) && e.base + e.length > prev {
            e.base + e.length
        } else {
            prev
        }
    }
}

/// A region large enough to hold `frames` frames of bitmap, not at address 0.
pub open spec fn fits_bitmap(e: MemoryRegion, frames: int) -> bool {
    e.kind == MemoryRegionKind::Usable && e.length >= frames * 4096 && e.base > 0
}

/// Index of the first region of the first `n` that can hold the bitmap.
pub open spec fn first_fit_region(map: Seq<MemoryRegion>, frames: int, n: int) -> Option<int>
    decreases n,
{
    if n <= 0 {
        None
    } else {
        match first_fit_region(map, frames, n - 1) {
            Some(i) => Some(i),
            None => if fits_bitmap(map[n - 1], frames) { Some(n - 1) } else { None },
        }
    }
}

/// Frames covered by a usable region: `[base / 4096, (base + length) / 4096)`.
pub open spec fn usable_covers(e: MemoryRegion, i: int) -> bool {
    e.kind == MemoryRegionKind::Usable && e.base / 4096 <= i < (e.base + e.length) / 4096
}

/// Some usable region among the first `n` covers frame `i`.
pub open spec fn covered_by_usable(map: Seq<MemoryRegion>, n: int, i: int) -> bool {
    exists|k: int| 0 <= k < n && #[trigger] usable_covers(map[k], i)
}

/// The number of frames tracked for a memory map.
pub open spec fn frames_for_map(map: Seq<MemoryRegion>) -> int {
    highest_tracked(map, map.len() as int) / 4096
}

/// Bytes of bitmap needed for `frames` frames.
pub open spec fn bitmap_bytes_for(frames: int) -> int {
    (frames + 7) / 8
}

/// Pages of bitmap needed for `frames` frames.
pub open spec fn bitmap_pages_for(frames: int) -> int {
    (bitmap_bytes_for(frames) + 4095) / 4096
}

/// The maps the allocator can be built from: no region wraps around,
/// the tracked range is non-empty and below 2^52, and some usable region
/// away from address 0 can hold the bitmap.
pub open spec fn map_accepted(map: Seq<MemoryRegion>) -> bool {
    &&& forall|k: int| 0 <= k < map.len() ==> #[trigger] map[k].base + map[k].length <= u64::MAX
    &&& 4096 <= highest_tracked(map, map.len() as int) <= PHYS_ADDR_LIMIT
    &&& first_fit_region(map, bitmap_pages_for(frames_for_map(map)), map.len() as int) is Some
}

/// The used/free state right after initialisation: every frame is used
/// except those covered by a usable region, then the bitmap's own frames
/// and frame 0 are used again.
pub open spec fn initial_used(map: Seq<MemoryRegion>, bitmap_start: int, bitmap_pages: int, i: int) -> bool {
    !covered_by_usable(map, map.len() as int, i) || (bitmap_start <= i < bitmap_start + bitmap_pages)
        || i == 0
}


/// A tracked region ends at or below the highest tracked end.
pub proof fn lemma_highest_bounds(map: Seq<MemoryRegion>, n: int, k: int)
    requires
        0 <= k < n <= map.len(),
        is_tracked_kind(map[k].kind),
    ensures
        map[k].base + map[k].length <= highest_tracked(map, n),
    decreases n,
{
    if k < n - 1 {
        lemma_highest_bounds(map, n - 1, k);
    }
}

pub proof fn lemma_highest_nonneg(map: Seq<MemoryRegion>, n: int)
    ensures
        highest_tracked(map, n) >= 0,
    decreases n,
{
    if n > 0 {
        lemma_highest_nonneg(map, n - 1);
    }
}

/// The region picked by `first_fit_region` fits the bitmap and lies in range.
pub proof fn lemma_first_fit(map: Seq<MemoryRegion>, frames: int, n: int)
    requires
        0 <= n <= map.len(),
        first_fit_region(map, frames, n) is Some,
    ensures
        0 <= first_fit_region(map, frames, n)->0 < n,
        fits_bitmap(map[first_fit_region(map, frames, n)->0], frames),
    decreases n,
{
    if first_fit_region(map, frames, n - 1) is Some {
        lemma_first_fit(map, frames, n - 1);
    }
}

pub proof fn lemma_first_fit_some_stable(map: Seq<MemoryRegion>, frames: int, a: int, b: int)
    requires
        1 <= a <= b,
        first_fit_region(map, frames, a) is Some,
    ensures
        first_fit_region(map, frames, b) == first_fit_region(map, frames, a),
    decreases b - a,
{
    if a < b {
        lemma_first_fit_some_stable(map, frames, a, b - 1);
    }
}

pub proof fn lemma_first_fit_none(map: Seq<MemoryRegion>, frames: int, n: int)
    requires
        0 <= n,
        first_fit_region(map, frames, n) is None,
    ensures
        forall|k: int| 0 <= k < n ==> !fits_bitmap(#[trigger] map[k], frames),
    decreases n,
{
    if n > 0 {
        lemma_first_fit_none(map, frames, n - 1);
    }
}

// ---------------------------------------------------------------------------
// Statistics
// ---------------------------------------------------------------------------

/// Snapshot of physical memory usage.
#[derive(Clone, Copy, Debug)]
pub struct MemoryStats {
    /// Frames tracked by the bitmap.
    pub total_frames: usize,
    /// Frames marked used.
    pub used_frames: usize,
    /// Frames marked free.
    pub free_frames: usize,
    /// Size of the bitmap in bytes.
    pub bitmap_bytes: usize,
}

// ---------------------------------------------------------------------------
// The allocator
// ---------------------------------------------------------------------------

/// The bitmap frame allocator.
pub struct BitmapAllocator {
    words: Vec<u64>,
    bitmap_bytes: usize,
    bitmap_phys: PhysAddr,
    bitmap_frame_count: usize,
    total_frames: usize,
    used_frames: usize,
    search_start: usize,
}

/// Frame `i` is first in next-fit order starting at chunk `c0`: it is free,
/// every earlier chunk in the cyclic order has no free frame, and every
/// lower frame of its own chunk is used.
pub open spec fn is_next_fit(frames: Seq<bool>, c0: int, f: int) -> bool {
    let n: int = (frames.len() as int + 63) / 64;
    &&& 0 <= f < frames.len()
    &&& !frames[f]
    &&& forall|j: int| 0 <= j < (f / 64 - c0 + n) % n ==> !#[trigger] chunk_has_free(frames, (c0 + j) % n)
    &&& forall|g: int| f / 64 * 64 <= g < f ==> #[trigger] frames[g]
}

/// Chunk `c` holds a free tracked frame.
pub open spec fn chunk_has_free(frames: Seq<bool>, c: int) -> bool {
    exists|g: int| c * 64 <= g < c * 64 + 64 && g < frames.len() && 0 <= g && !#[trigger] frames[g]
}

/// All frames `[s, s + n)` are free.
pub open spec fn run_free(frames: Seq<bool>, s: int, n: int) -> bool {
    forall|g: int| s <= g < s + n ==> !#[trigger] frames[g]
}

/// `s` is the lowest start of a run of `n` free frames.
pub open spec fn is_first_run(frames: Seq<bool>, s: int, n: int) -> bool {
    &&& 0 <= s && s + n <= frames.len()
    &&& run_free(frames, s, n)
    &&& forall|t: int| 0 <= t < s && t + n <= frames.len() ==> !run_free(frames, t, n)
}

/// Some run of `n` free frames exists.
pub open spec fn has_run(frames: Seq<bool>, n: int) -> bool {
    exists|t: int| 0 <= t && t + n <= frames.len() && run_free(frames, t, n)
}

/// The frame number of an address.
pub open spec fn frame_of(a: PhysAddr) -> int {
    a.val() as int / 4096
}

/// `frames` with `[s, s + n)` marked used.
pub open spec fn mark_run(frames: Seq<bool>, s: int, n: int) -> Seq<bool> {
    Seq::new(frames.len(), |i: int| if s <= i < s + n { true } else { frames[i] })
}

/// `frames` with `[lo, hi)` marked free.
pub open spec fn clear_run(frames: Seq<bool>, lo: int, hi: int) -> Seq<bool> {
    Seq::new(frames.len(), |i: int| if lo <= i < hi { false } else { frames[i] })
}

impl BitmapAllocator {
    /// Used flag of every tracked frame.
    pub closed spec fn frames(&self) -> Seq<bool> {
        Seq::new(self.total_frames as nat, |i: int| bit_of(self.words@[i / 64], i % 64))
    }

    /// The frame index where the next single-frame scan starts.
    pub closed spec fn cursor(&self) -> int {
        self.search_start as int
    }

    /// Size of the bitmap in bytes.
    pub closed spec fn spec_bitmap_bytes(&self) -> int {
        self.bitmap_bytes as int
    }

    /// Physical address of the bitmap.
    pub closed spec fn spec_bitmap_phys(&self) -> PhysAddr {
        self.bitmap_phys
    }

    /// Number of frames the bitmap occupies.
    pub closed spec fn spec_bitmap_frame_count(&self) -> int {
        self.bitmap_frame_count as int
    }

    /// Well-formedness: the word vector covers every frame, the used
    /// counter is the number of used frames, frames lie below 2^52 and
    /// the cursor stays within the tracked range.
    pub closed spec fn wf(&self) -> bool {
        &&& self.words@.len() == (self.total_frames + 63) / 64
        &&& self.total_frames * 4096 <= PHYS_ADDR_LIMIT
        &&& self.total_frames + 64 <= usize::MAX
        &&& self.used_frames == count_true(self.frames())
        &&& self.search_start <= self.total_frames
        &&& self.bitmap_bytes == bitmap_bytes_for(self.total_frames as int)
    }

    /// Frame `frame` is used.
    fn test_frame(&self, frame: usize) -> (r: bool)
        requires
            self.wf(),
            frame < self.total_frames,
        ensures
            r == self.frames()[frame as int],
    {
        let w = self.words[frame / 64];
        let b = (frame % 64) as u64;
        proof { lemma_bit_test(w, b); }
        w & (1u64 << b) != 0
    }

    /// Sets the used flag of `frame` to `v`, leaving the counter alone.
    fn put_frame(&mut self, frame: usize, v: bool)
        requires
            old(self).words@.len() == (old(self).total_frames + 63) / 64,
            frame < old(self).total_frames,
        ensures
            final(self).frames() == old(self).frames().update(frame as int, v),
            final(self).total_frames == old(self).total_frames,
            final(self).used_frames == old(self).used_frames,
            final(self).search_start == old(self).search_start,
            final(self).bitmap_bytes == old(self).bitmap_bytes,
            final(self).bitmap_phys == old(self).bitmap_phys,
            final(self).bitmap_frame_count == old(self).bitmap_frame_count,
            final(self).words@.len() == old(self).words@.len(),
    {
        let wi = frame / 64;
        let b = (frame % 64) as u64;
        let w = self.words[wi];
        let nw = if v { w | (1u64 << b) } else { w & !(1u64 << b) };
        self.words.set(wi, nw);
        proof {
            let o = old(self).frames();
            let n = self.frames();
            assert forall|i: int| 0 <= i < n.len() implies n[i] == o.update(frame as int, v)[i] by {
                if i / 64 == wi as int {
                    let c = (i % 64) as u64;
                    if v {
                        lemma_bit_set(w, b, c);
                    } else {
                        lemma_bit_clear(w, b, c);
                    }
                }
            }
            assert(n =~= o.update(frame as int, v));
        }
    }

    /// Marks `frame` used; returns 1 if it was free, 0 if it was already used.
    fn set_bit(&mut self, frame: usize) -> (r: usize)
        requires
            old(self).wf(),
            frame < old(self).total_frames,
        ensures
            final(self).wf(),
            final(self).frames() == old(self).frames().update(frame as int, true),
            r == (if old(self).frames()[frame as int] { 0usize } else { 1usize }),
            final(self).used_frames == old(self).used_frames + r,
            final(self).total_frames == old(self).total_frames,
            final(self).search_start == old(self).search_start,
            final(self).bitmap_phys == old(self).bitmap_phys,
            final(self).bitmap_frame_count == old(self).bitmap_frame_count,
    {
        if self.test_frame(frame) {
            proof { assert(old(self).frames().update(frame as int, true) =~= old(self).frames()); }
            0
        } else {
            proof {
                lemma_count_update(self.frames(), frame as int, true);
                lemma_count_le_len(self.frames().update(frame as int, true));
            }
            self.put_frame(frame, true);
            self.used_frames = self.used_frames + 1;
            1
        }
    }

    /// Marks `frame` free; returns 1 if it was used, 0 if it was already free.
    fn clear_bit(&mut self, frame: usize) -> (r: usize)
        requires
            old(self).wf(),
            frame < old(self).total_frames,
        ensures
            final(self).wf(),
            final(self).frames() == old(self).frames().update(frame as int, false),
            r == (if old(self).frames()[frame as int] { 1usize } else { 0usize }),
            final(self).used_frames + r == old(self).used_frames,
            final(self).total_frames == old(self).total_frames,
            final(self).search_start == old(self).search_start,
            final(self).bitmap_phys == old(self).bitmap_phys,
            final(self).bitmap_frame_count == old(self).bitmap_frame_count,
    {
        if self.test_frame(frame) {
            proof { lemma_count_update(self.frames(), frame as int, false); }
            self.put_frame(frame, false);
            self.used_frames = self.used_frames - 1;
            1
        } else {
            proof { assert(old(self).frames().update(frame as int, false) =~= old(self).frames()); }
            0
        }
    }

    /// Number of tracked frames.
    pub closed spec fn total(&self) -> int {
        self.total_frames as int
    }

    /// A well-formed allocator tracks `total()` frames, all below 2^52.
    pub proof fn lemma_wf_bounds(&self)
        requires
            self.wf(),
        ensures
            self.frames().len() == self.total(),
            0 <= self.total(),
            self.total() * 4096 <= PHYS_ADDR_LIMIT,
    {
    }

    /// Allocates one frame, scanning 64-frame chunks in cyclic order from
    /// the cursor's chunk. Returns the page-aligned address of the first
    /// free frame found, or `None` when every frame is used.
    pub fn alloc_frame(&mut self) -> (r: Option<PhysAddr>)
        requires
            old(self).wf(),
        ensures
            final(self).wf(),
            final(self).total() == old(self).total(),
            final(self).spec_bitmap_bytes() == old(self).spec_bitmap_bytes(),
            match r {
                Some(a) => {
                    &&& a.val() % 4096 == 0
                    &&& is_next_fit(old(self).frames(), old(self).cursor() / 64, frame_of(a))
                    &&& final(self).frames() == old(self).frames().update(frame_of(a), true)
                    &&& final(self).cursor() == frame_of(a) + 1
                },
                None => {
                    &&& forall|i: int| 0 <= i < old(self).frames().len() ==> #[trigger] old(self).frames()[i]
                    &&& final(self).frames() == old(self).frames()
                    &&& final(self).cursor() == old(self).cursor()
                },
            },
    {
        let total_chunks = (self.total_frames + 63) / 64;
        let start_chunk = self.search_start / 64;
        let ghost frames = self.frames();
        let ghost n = total_chunks as int;
        let ghost c0 = start_chunk as int;
        let mut i: usize = 0;
        while i < total_chunks
            invariant
                self.wf(),
                *self == *old(self),
                frames == self.frames(),
                total_chunks == (self.total_frames + 63) / 64,
                start_chunk == self.search_start / 64,
                n == total_chunks,
                c0 == start_chunk,
                0 <= i <= total_chunks,
                forall|j: int| 0 <= j < i ==> !#[trigger] chunk_has_free(frames, (c0 + j) % n),
            decreases total_chunks - i,
        {
            let chunk_idx = (start_chunk + i) % total_chunks;
            proof { lemma_cyclic_index(c0, i as int, n); }
            let chunk = self.words[chunk_idx];
            if chunk == 0xFFFF_FFFF_FFFF_FFFFu64 {
                proof {
                    assert forall|g: int| chunk_idx * 64 <= g < chunk_idx * 64 + 64 && g < frames.len() && 0 <= g
                        implies #[trigger] frames[g] by {
                        lemma_all_ones((g % 64) as u64);
                    }
                }
                i = i + 1;
                continue;
            }
            let inv = !chunk;
            proof {
                vstd::std_specs::bits::axiom_u64_trailing_zeros(inv);
                assert(inv != 0) by (bit_vector)
                    requires inv == !chunk, chunk != 0xFFFF_FFFF_FFFF_FFFFu64;
            }
            let bit = inv.trailing_zeros() as usize;
            proof {
                lemma_bit_not(chunk, bit as u64);
                assert forall|k: u64| k < bit implies bit_of(chunk, k as int) by {
                    lemma_bit_not(chunk, k);
                }
            }
            let frame_idx = chunk_idx * 64 + bit;
            if frame_idx >= self.total_frames {
                proof {
                    assert forall|g: int| chunk_idx * 64 <= g < chunk_idx * 64 + 64 && g < frames.len() && 0 <= g
                        implies #[trigger] frames[g] by {
                        let k = (g % 64) as u64;
                        assert(bit_of(chunk, k as int));
                    }
                }
                i = i + 1;
                continue;
            }
            proof {
                assert(!frames[frame_idx as int]);
                vstd::arithmetic::div_mod::lemma_fundamental_div_mod_converse(frame_idx as int, 64, chunk_idx as int, bit as int);
                assert forall|g: int| frame_idx / 64 * 64 <= g < frame_idx implies #[trigger] frames[g] by {
                    vstd::arithmetic::div_mod::lemma_fundamental_div_mod_converse(g, 64, chunk_idx as int, g - chunk_idx * 64);
                    let k = (g % 64) as u64;
                    assert(k < bit);
                    assert(bit_of(chunk, k as int));
                }
                assert(is_next_fit(frames, c0, frame_idx as int));
            }
            let _ = self.set_bit(frame_idx);
            self.search_start = frame_idx + 1;
            return Some(PhysAddr::new(frame_idx as u64 * PAGE_SIZE));
        }
        proof {
            assert forall|g: int| 0 <= g < frames.len() implies #[trigger] frames[g] by {
                let j = lemma_cyclic_cover(c0, g / 64, n);
                assert(!chunk_has_free(frames, (c0 + j) % n));
            }
        }
        None
    }

    /// Frees a used frame. The address must be page-aligned, tracked and
    /// currently used (anything else is a double free).
    pub fn free_frame(&mut self, addr: PhysAddr)
        requires
            old(self).wf(),
            addr.val() % 4096 == 0,
            frame_of(addr) < old(self).total(),
            old(self).frames()[frame_of(addr)],
        ensures
            final(self).wf(),
            final(self).total() == old(self).total(),
            final(self).spec_bitmap_bytes() == old(self).spec_bitmap_bytes(),
            final(self).frames() == old(self).frames().update(frame_of(addr), false),
            final(self).cursor() == (if frame_of(addr) < old(self).cursor() { frame_of(addr) } else { old(self).cursor() }),
    {
        let frame_idx = (addr.as_u64() / PAGE_SIZE) as usize;
        let _ = self.clear_bit(frame_idx);
        if frame_idx < self.search_start {
            self.search_start = frame_idx;
        }
    }

    /// Clears the used flags of `[start_frame, end_frame)`; returns how many
    /// of them were set.
    fn clear_range(&mut self, start_frame: usize, end_frame: usize) -> (cleared: usize)
        requires
            old(self).wf(),
            end_frame <= old(self).total(),
        ensures
            final(self).wf(),
            final(self).total() == old(self).total(),
            final(self).spec_bitmap_bytes() == old(self).spec_bitmap_bytes(),
            final(self).cursor() == old(self).cursor(),
            final(self).bitmap_phys == old(self).bitmap_phys,
            final(self).bitmap_frame_count == old(self).bitmap_frame_count,
            start_frame < end_frame ==> final(self).frames() == clear_run(old(self).frames(), start_frame as int, end_frame as int),
            start_frame < end_frame ==> cleared == count_range(old(self).frames(), start_frame as int, end_frame as int),
            start_frame >= end_frame ==> final(self).frames() == old(self).frames() && cleared == 0,
    {
        if start_frame >= end_frame {
            return 0;
        }
        let ghost orig = self.frames();
        let mut cleared: usize = 0;
        let mut frame = start_frame;
        proof { lemma_count_empty_range(orig, start_frame as int); }
        while frame < end_frame
            invariant
                self.wf(),
                self.total_frames == old(self).total_frames,
                self.search_start == old(self).search_start,
                self.bitmap_phys == old(self).bitmap_phys,
                self.bitmap_frame_count == old(self).bitmap_frame_count,
                orig == old(self).frames(),
                start_frame <= frame <= end_frame,
                end_frame <= self.total_frames,
                self.frames() == clear_run(orig, start_frame as int, frame as int),
                cleared == count_range(orig, start_frame as int, frame as int),
                cleared <= frame - start_frame,
            decreases end_frame - frame,
        {
            let r = self.clear_bit(frame);
            proof {
                lemma_count_split(orig, start_frame as int, frame as int, frame + 1);
                lemma_count_single(orig, frame as int);
                assert(self.frames() =~= clear_run(orig, start_frame as int, frame + 1));
            }
            cleared = cleared + r;
            frame = frame + 1;
        }
        cleared
    }

    /// Allocates `count` physically contiguous frames. `count == 0` gives
    /// `None`; `count == 1` is `alloc_frame`; otherwise the lowest run of
    /// `count` free frames is taken (first fit from frame 0).
    pub fn alloc_contiguous(&mut self, count: usize) -> (r: Option<PhysAddr>)
        requires
            old(self).wf(),
        ensures
            final(self).wf(),
            final(self).total() == old(self).total(),
            final(self).spec_bitmap_bytes() == old(self).spec_bitmap_bytes(),
            count == 0 ==> r is None && final(self).frames() == old(self).frames() && final(self).cursor() == old(self).cursor(),
            count == 1 ==> match r {
                Some(a) => {
                    &&& a.val() % 4096 == 0
                    &&& is_next_fit(old(self).frames(), old(self).cursor() / 64, frame_of(a))
                    &&& final(self).frames() == old(self).frames().update(frame_of(a), true)
                    &&& final(self).cursor() == frame_of(a) + 1
                },
                None => {
                    &&& forall|i: int| 0 <= i < old(self).frames().len() ==> #[trigger] old(self).frames()[i]
                    &&& final(self).frames() == old(self).frames()
                    &&& final(self).cursor() == old(self).cursor()
                },
            },
            count > 1 ==> (r is Some <==> has_run(old(self).frames(), count as int)),
            count > 1 ==> match r {
                Some(a) => {
                    &&& a.val() % 4096 == 0
                    &&& is_first_run(old(self).frames(), frame_of(a), count as int)
                    &&& final(self).frames() == mark_run(old(self).frames(), frame_of(a), count as int)
                    &&& final(self).cursor() == old(self).cursor()
                },
                None => final(self).frames() == old(self).frames() && final(self).cursor() == old(self).cursor(),
            },
    {
        if count == 0 {
            return None;
        }
        if count == 1 {
            return self.alloc_frame();
        }
        let ghost frames = self.frames();
        let mut run_start: usize = 0;
        let mut run_length: usize = 0;
        let mut frame: usize = 0;
        while frame < self.total_frames
            invariant
                self.wf(),
                *self == *old(self),
                frames == self.frames(),
                count > 1,
                0 <= frame <= self.total_frames,
                run_length < count,
                run_length <= frame,
                run_length > 0 ==> run_start + run_length == frame,
                forall|g: int| frame - run_length <= g < frame ==> !#[trigger] frames[g],
                frame - run_length > 0 ==> frames[frame - run_length - 1],
                forall|t: int| 0 <= t && t + count <= frame ==> !run_free(frames, t, count as int),
            decreases self.total_frames - frame,
        {
            if !self.test_frame(frame) {
                if run_length == 0 {
                    run_start = frame;
                }
                run_length = run_length + 1;
                if run_length >= count {
                    let s = run_start;
                    proof {
                        assert(run_free(frames, s as int, count as int));
                        assert forall|t: int| 0 <= t < s && t + count <= frames.len()
                            implies !run_free(frames, t, count as int) by {
                            assert(t + count <= frame);
                        }
                    }
                    let mut f = s;
                    while f < s + count
                        invariant
                            self.wf(),
                            self.total_frames == old(self).total_frames,
                            self.search_start == old(self).search_start,
                            s + count <= self.total_frames,
                            s <= f <= s + count,
                            run_free(frames, s as int, count as int),
                            self.frames() == mark_run(frames, s as int, f - s),
                        decreases s + count - f,
                    {
                        let _ = self.set_bit(f);
                        proof { assert(self.frames() =~= mark_run(frames, s as int, f + 1 - s)); }
                        f = f + 1;
                    }
                    return Some(PhysAddr::new(s as u64 * PAGE_SIZE));
                }
            } else {
                proof {
                    assert forall|t: int| 0 <= t && t + count <= frame + 1 implies !run_free(frames, t, count as int) by {
                        if t + count == frame + 1 {
                            assert(frames[frame as int]);
                        }
                    }
                }
                run_length = 0;
                frame = frame + 1;
                continue;
            }
            proof {
                assert forall|t: int| 0 <= t && t + count <= frame + 1 implies !run_free(frames, t, count as int) by {
                    if t + count == frame + 1 {
                        assert(frames[frame + 1 - run_length - 1]);
                    }
                }
            }
            frame = frame + 1;
        }
        proof {
            assert(frames =~= old(self).frames());
            if has_run(frames, count as int) {
                let t = choose|t: int| 0 <= t && t + count <= frames.len() && run_free(frames, t, count as int);
                assert(!run_free(frames, t, count as int));
            }
        }
        None
    }

    /// Allocates one frame that its user wants zeroed; the frame is chosen
    /// exactly as by `alloc_frame`. The allocator holds only the bitmap and
    /// never touches frame contents: the caller zeroes the frame through
    /// the direct map before handing it out.
    pub fn alloc_frame_zeroed(&mut self) -> (r: Option<PhysAddr>)
        requires
            old(self).wf(),
        ensures
            final(self).wf(),
            final(self).total() == old(self).total(),
            final(self).spec_bitmap_bytes() == old(self).spec_bitmap_bytes(),
            match r {
                Some(a) => {
                    &&& a.val() % 4096 == 0
                    &&& is_next_fit(old(self).frames(), old(self).cursor() / 64, frame_of(a))
                    &&& final(self).frames() == old(self).frames().update(frame_of(a), true)
                    &&& final(self).cursor() == frame_of(a) + 1
                },
                None => {
                    &&& forall|i: int| 0 <= i < old(self).frames().len() ==> #[trigger] old(self).frames()[i]
                    &&& final(self).frames() == old(self).frames()
                    &&& final(self).cursor() == old(self).cursor()
                },
            },
    {
        self.alloc_frame()
    }

    /// A snapshot of the usage counters.
    pub fn stats(&self) -> (r: MemoryStats)
        requires
            self.wf(),
        ensures
            r.total_frames == self.total(),
            r.used_frames == count_true(self.frames()),
            r.free_frames == self.total() - count_true(self.frames()),
            r.bitmap_bytes == self.spec_bitmap_bytes(),
    {
        proof { lemma_count_le_len(self.frames()); }
        MemoryStats {
            total_frames: self.total_frames,
            used_frames: self.used_frames,
            free_frames: self.total_frames - self.used_frames,
            bitmap_bytes: self.bitmap_bytes,
        }
    }

    /// Builds the allocator from the boot memory map.
    ///
    /// Pass 1 sizes the bitmap from the highest end of a usable,
    /// reclaimable, executable or framebuffer region. Pass 2 places it in
    /// the first usable region away from address 0 that is large enough.
    /// Pass 3 marks every frame used, frees the frames of usable regions,
    /// then marks the bitmap's own frames and frame 0 used again.
    pub fn new(memory_map: &[MemoryRegion]) -> (r: Self)
        requires
            map_accepted(memory_map@),
            frames_for_map(memory_map@) + 64 <= usize::MAX,
        ensures
            r.wf(),
            r.total() == frames_for_map(memory_map@),
            r.cursor() == 0,
            r.spec_bitmap_bytes() == bitmap_bytes_for(r.total()),
            r.spec_bitmap_frame_count() == bitmap_pages_for(r.total()),
            r.spec_bitmap_phys().val()
                == memory_map@[first_fit_region(memory_map@, bitmap_pages_for(r.total()), memory_map@.len() as int)->0].base,
            forall|i: int| 0 <= i < r.total() ==> #[trigger] r.frames()[i] == initial_used(
                memory_map@,
                r.spec_bitmap_phys().val() as int / 4096,
                r.spec_bitmap_frame_count(),
                i,
            ),
    {
        let ghost map = memory_map@;
        let n = memory_map.len();
        // Pass 1: size the bitmap.
        let mut highest_addr: u64 = 0;
        let mut k: usize = 0;
        while k < n
            invariant
                n == map.len(),
                map == memory_map@,
                0 <= k <= n,
                highest_addr == highest_tracked(map, k as int),
                forall|j: int| 0 <= j < map.len() ==> #[trigger] map[j].base + map[j].length <= u64::MAX,
            decreases n - k,
        {
            let e = memory_map[k];
            let dominated = match e.kind {
                MemoryRegionKind::Usable | MemoryRegionKind::BootloaderReclaimable
                | MemoryRegionKind::AcpiReclaimable | MemoryRegionKind::ExecutableAndModules
                | MemoryRegionKind::Framebuffer => true,
                _ => false,
            };
            if dominated {
                let end = e.base + e.length;
                if end > highest_addr {
                    highest_addr = end;
                }
            }
            k = k + 1;
        }
        let total_frames = (highest_addr / PAGE_SIZE) as usize;
        let bitmap_bytes = (total_frames + 7) / 8;
        let bitmap_frame_count = (bitmap_bytes + 4095) / 4096;
        proof {
            assert(total_frames == frames_for_map(map));
            assert(bitmap_frame_count >= 1);
        }
        // Pass 2: place the bitmap.
        let mut found: Option<u64> = None;
        let ghost mut found_idx: int = 0;
        k = 0;
        while k < n
            invariant_except_break
                found is None,
                first_fit_region(map, bitmap_frame_count as int, k as int) is None,
            invariant
                n == map.len(),
                map == memory_map@,
                0 <= k <= n,
                bitmap_frame_count == bitmap_pages_for(total_frames as int),
                bitmap_frame_count <= 0x1_0000_0000,
                first_fit_region(map, bitmap_frame_count as int, n as int) is Some,
            ensures
                found is Some,
                first_fit_region(map, bitmap_frame_count as int, n as int) == Some(found_idx),
                found->0 == map[found_idx].base,
            decreases n - k,
        {
            let e = memory_map[k];
            let is_usable = match e.kind {
                MemoryRegionKind::Usable => true,
                _ => false,
            };
            if is_usable && e.length >= (bitmap_frame_count as u64) * PAGE_SIZE && e.base > 0 {
                found = Some(e.base);
                proof {
                    found_idx = k as int;
                    assert(fits_bitmap(map[k as int], bitmap_frame_count as int));
                    assert(first_fit_region(map, bitmap_frame_count as int, k + 1) == Some(k as int));
                    assert forall|m: int| k < m <= n implies first_fit_region(map, bitmap_frame_count as int, m)
                        == Some(k as int) by {
                        lemma_first_fit_some_stable(map, bitmap_frame_count as int, k as int + 1, m);
                    }
                }
                break;
            }
            proof {
                assert(!fits_bitmap(map[k as int], bitmap_frame_count as int));
            }
            k = k + 1;
        }
        let bitmap_base = match found {
            Some(b) => b,
            None => {
                proof { assert(false); }
                0
            },
        };
        proof {
            lemma_first_fit(map, bitmap_frame_count as int, n as int);
            lemma_highest_bounds(map, n as int, found_idx);
        }
        let bitmap_phys = PhysAddr::new(bitmap_base);
        // Pass 3: every frame used, then free the usable regions.
        let word_count = (total_frames + 63) / 64;
        let mut words: Vec<u64> = Vec::new();
        let mut w: usize = 0;
        while w < word_count
            invariant
                0 <= w <= word_count,
                words@.len() == w,
                forall|j: int| 0 <= j < w ==> words@[j] == 0xFFFF_FFFF_FFFF_FFFFu64,
            decreases word_count - w,
        {
            words.push(0xFFFF_FFFF_FFFF_FFFFu64);
            w = w + 1;
        }
        let mut alloc = BitmapAllocator {
            words,
            bitmap_bytes,
            bitmap_phys,
            bitmap_frame_count,
            total_frames,
            used_frames: total_frames,
            search_start: 0,
        };
        proof {
            assert forall|i: int| 0 <= i < alloc.frames().len() implies #[trigger] alloc.frames()[i] by {
                lemma_all_ones((i % 64) as u64);
            }
            lemma_count_all_true(alloc.frames());
            assert forall|i: int| 0 <= i < alloc.frames().len() implies
                alloc.frames()[i] == !covered_by_usable(map, 0, i) by {}
        }
        k = 0;
        while k < n
            invariant
                n == map.len(),
                map == memory_map@,
                0 <= k <= n,
                alloc.wf(),
                alloc.total_frames == total_frames,
                alloc.search_start == 0,
                alloc.bitmap_phys == bitmap_phys,
                alloc.bitmap_frame_count == bitmap_frame_count,
                alloc.bitmap_bytes == bitmap_bytes,
                forall|j: int| 0 <= j < map.len() ==> #[trigger] map[j].base + map[j].length <= u64::MAX,
                forall|i: int| 0 <= i < alloc.frames().len() ==>
                    #[trigger] alloc.frames()[i] == !covered_by_usable(map, k as int, i),
            decreases n - k,
        {
            let e = memory_map[k];
            let is_usable = match e.kind {
                MemoryRegionKind::Usable => true,
                _ => false,
            };
            let ghost before = alloc.frames();
            if is_usable {
                let sf = e.base / PAGE_SIZE;
                let ef = (e.base + e.length) / PAGE_SIZE;
                let start_frame = if sf < total_frames as u64 { sf as usize } else { total_frames };
                let end_frame = if ef < total_frames as u64 { ef as usize } else { total_frames };
                let _ = alloc.clear_range(start_frame, end_frame);
                proof {
                    assert forall|i: int| 0 <= i < alloc.frames().len() implies
                        #[trigger] alloc.frames()[i] == !covered_by_usable(map, k + 1, i) by {
                        if usable_covers(map[k as int], i) {
                            assert(start_frame <= i < end_frame);
                        } else {
                            if covered_by_usable(map, k + 1, i) {
                                let kk = choose|kk: int| 0 <= kk < k + 1 && #[trigger] usable_covers(map[kk], i);
                                assert(covered_by_usable(map, k as int, i) || kk == k);
                            }
                            if covered_by_usable(map, k as int, i) {
                                let kk = choose|kk: int| 0 <= kk < k && #[trigger] usable_covers(map[kk], i);
                                assert(0 <= kk < k + 1 && usable_covers(map[kk], i));
                            }
                        }
                    }
                }
            } else {
                proof {
                    assert forall|i: int| 0 <= i < alloc.frames().len() implies
                        #[trigger] alloc.frames()[i] == !covered_by_usable(map, k + 1, i) by {
                        if covered_by_usable(map, k + 1, i) {
                            let kk = choose|kk: int| 0 <= kk < k + 1 && #[trigger] usable_covers(map[kk], i);
                            assert(covered_by_usable(map, k as int, i) || kk == k);
                        }
                        if covered_by_usable(map, k as int, i) {
                            let kk = choose|kk: int| 0 <= kk < k && #[trigger] usable_covers(map[kk], i);
                            assert(0 <= kk < k + 1 && usable_covers(map[kk], i));
                        }
                    }
                }
            }
            k = k + 1;
        }
        // Re-mark the bitmap's own frames and frame 0.
        let bitmap_start_frame = (bitmap_base / PAGE_SIZE) as usize;
        proof {
            assert(bitmap_start_frame + bitmap_frame_count <= total_frames);
        }
        let mut f = bitmap_start_frame;
        while f < bitmap_start_frame + bitmap_frame_count
            invariant
                alloc.wf(),
                alloc.total_frames == total_frames,
                alloc.search_start == 0,
                alloc.bitmap_phys == bitmap_phys,
                alloc.bitmap_frame_count == bitmap_frame_count,
                alloc.bitmap_bytes == bitmap_bytes,
                bitmap_start_frame + bitmap_frame_count <= total_frames,
                bitmap_start_frame <= f <= bitmap_start_frame + bitmap_frame_count,
                forall|i: int| 0 <= i < alloc.frames().len() ==>
                    #[trigger] alloc.frames()[i] == (!covered_by_usable(map, n as int, i) || (bitmap_start_frame <= i < f)),
            decreases bitmap_start_frame + bitmap_frame_count - f,
        {
            let _ = alloc.set_bit(f);
            f = f + 1;
        }
        let _ = alloc.set_bit(0);
        alloc
    }

}

/// Freeing the frame an allocation just handed out gives back the bitmap
/// the allocation started from: `alloc_frame` marks a free frame used and
/// `free_frame` marks it free again, changing nothing else.
pub proof fn lemma_alloc_free_roundtrip(a0: BitmapAllocator, a1: BitmapAllocator, a2: BitmapAllocator, f: int)
    requires
        0 <= f < a0.frames().len(),
        !a0.frames()[f],
        a1.frames() == a0.frames().update(f, true),
        a2.frames() == a1.frames().update(f, false),
    ensures
        a2.frames() == a0.frames(),
{
    assert(a2.frames() =~= a0.frames());
}

} // verus!

verus! {

/// The bytes of the first `n` regions of a memory map.
pub open spec fn map_bytes(map: Seq<MemoryRegion>, n: int) -> int
    decreases n,
{
    if n <= 0 { 0 } else { map_bytes(map, n - 1) + map[n - 1].length }
}

/// The bytes of the usable regions among the first `n`.
pub open spec fn usable_bytes(map: Seq<MemoryRegion>, n: int) -> int
    decreases n,
{
    if n <= 0 {
        0
    } else if map[n - 1].kind == MemoryRegionKind::Usable {
        usable_bytes(map, n - 1) + map[n - 1].length
    } else {
        usable_bytes(map, n - 1)
    }
}

/// Usable bytes never exceed all bytes, and both grow with `n`.
proof fn lemma_map_bytes_mono(map: Seq<MemoryRegion>, i: int, n: int)
    requires
        0 <= i <= n <= map.len(),
    ensures
        usable_bytes(map, i) <= map_bytes(map, i) <= map_bytes(map, n),
    decreases n,
{
    if n > 0 {
        if i < n {
            lemma_map_bytes_mono(map, i, n - 1);
        } else {
            lemma_map_bytes_mono(map, i - 1, n - 1);
        }
    }
}

/// The memory the boot map describes: all regions' bytes, and the bytes
/// of the usable ones.
pub fn memory_totals(memory_map: &[MemoryRegion]) -> (r: (u64, u64))
    requires
        map_bytes(memory_map@, memory_map@.len() as int) <= u64::MAX,
    ensures
        r.0 == map_bytes(memory_map@, memory_map@.len() as int),
        r.1 == usable_bytes(memory_map@, memory_map@.len() as int),
{
    let n = memory_map.len();
    let mut total: u64 = 0;
    let mut usable: u64 = 0;
    let mut i: usize = 0;
    while i < n
        invariant
            0 <= i <= n,
            n == memory_map@.len(),
            map_bytes(memory_map@, n as int) <= u64::MAX,
            total == map_bytes(memory_map@, i as int),
            usable == usable_bytes(memory_map@, i as int),
        decreases n - i,
    {
        proof { lemma_map_bytes_mono(memory_map@, i + 1, n as int); }
        let e = memory_map[i];
        total = total + e.length;
        if e.kind == MemoryRegionKind::Usable {
            usable = usable + e.length;
        }
        i = i + 1;
    }
    (total, usable)
}

/// Checks the preconditions of `BitmapAllocator::new` on a memory map:
/// no region wraps around, the tracked range is non-empty and below 2^52,
/// the frame count fits, and a region can hold the bitmap.
pub fn memory_map_accepted(memory_map: &[MemoryRegion]) -> (r: bool)
    ensures
        r == (map_accepted(memory_map@) && frames_for_map(memory_map@) + 64 <= usize::MAX),
{
    let ghost map = memory_map@;
    let n = memory_map.len();
    let mut highest_addr: u64 = 0;
    let mut k: usize = 0;
    while k < n
        invariant
            n == map.len(),
            map == memory_map@,
            0 <= k <= n,
            highest_addr == highest_tracked(map, k as int),
            forall|j: int| 0 <= j < k ==> #[trigger] map[j].base + map[j].length <= u64::MAX,
        decreases n - k,
    {
        let e = memory_map[k];
        let end = match e.base.checked_add(e.length) {
            Some(v) => v,
            None => {
                return false;
            },
        };
        let dominated = match e.kind {
            MemoryRegionKind::Usable | MemoryRegionKind::BootloaderReclaimable
            | MemoryRegionKind::AcpiReclaimable | MemoryRegionKind::ExecutableAndModules
            | MemoryRegionKind::Framebuffer => true,
            _ => false,
        };
        if dominated && end > highest_addr {
            highest_addr = end;
        }
        k = k + 1;
    }
    if highest_addr < 4096 || highest_addr > PHYS_ADDR_LIMIT {
        return false;
    }
    let frames_u64 = highest_addr / PAGE_SIZE;
    if frames_u64 > (usize::MAX - 64) as u64 {
        return false;
    }
    let total_frames = frames_u64 as usize;
    let bitmap_bytes = (total_frames + 7) / 8;
    let bitmap_frame_count = (bitmap_bytes + 4095) / 4096;
    k = 0;
    while k < n
        invariant
            n == map.len(),
            map == memory_map@,
            0 <= k <= n,
            bitmap_frame_count == bitmap_pages_for(total_frames as int),
            bitmap_frame_count <= 0x1_0000_0000,
            first_fit_region(map, bitmap_frame_count as int, k as int) is None,
            forall|j: int| 0 <= j < map.len() ==> #[trigger] map[j].base + map[j].length <= u64::MAX,
            highest_addr == highest_tracked(map, n as int),
            4096 <= highest_addr <= PHYS_ADDR_LIMIT,
            total_frames == frames_for_map(map),
            total_frames + 64 <= usize::MAX,
        decreases n - k,
    {
        let e = memory_map[k];
        let is_usable = match e.kind {
            MemoryRegionKind::Usable => true,
            _ => false,
        };
        if is_usable && e.length >= (bitmap_frame_count as u64) * PAGE_SIZE && e.base > 0 {
            proof {
                assert(first_fit_region(map, bitmap_frame_count as int, k + 1) == Some(k as int));
                lemma_first_fit_some_stable(map, bitmap_frame_count as int, k + 1, n as int);
            }
            return true;
        }
        k = k + 1;
    }
    false
}

/// Builds the allocator from the boot memory map (see `BitmapAllocator::new`).
pub fn init(memory_map: &[MemoryRegion]) -> (r: BitmapAllocator)
    requires
        map_accepted(memory_map@),
        frames_for_map(memory_map@) + 64 <= usize::MAX,
    ensures
        r.wf(),
        r.total() == frames_for_map(memory_map@),
        r.cursor() == 0,
        forall|i: int| 0 <= i < r.total() ==> #[trigger] r.frames()[i] == initial_used(
            memory_map@,
            r.spec_bitmap_phys().val() as int / 4096,
            r.spec_bitmap_frame_count(),
            i,
        ),
{
    BitmapAllocator::new(memory_map)
}

/// Allocates one 4 KiB frame (see `BitmapAllocator::alloc_frame`).
pub fn alloc_frame(pmm: &mut BitmapAllocator) -> (r: Option<PhysAddr>)
    requires
        old(pmm).wf(),
    ensures
        final(pmm).wf(),
        final(pmm).total() == old(pmm).total(),
        final(pmm).spec_bitmap_bytes() == old(pmm).spec_bitmap_bytes(),
        match r {
            Some(a) => {
                &&& a.val() % 4096 == 0
                &&& is_next_fit(old(pmm).frames(), old(pmm).cursor() / 64, frame_of(a))
                &&& final(pmm).frames() == old(pmm).frames().update(frame_of(a), true)
            },
            None => {
                &&& forall|i: int| 0 <= i < old(pmm).frames().len() ==> #[trigger] old(pmm).frames()[i]
                &&& final(pmm).frames() == old(pmm).frames()
            },
        },
{
    pmm.alloc_frame()
}

/// Allocates one 4 KiB frame for the caller to zero (see
/// `BitmapAllocator::alloc_frame_zeroed`).
pub fn alloc_frame_zeroed(pmm: &mut BitmapAllocator) -> (r: Option<PhysAddr>)
    requires
        old(pmm).wf(),
    ensures
        final(pmm).wf(),
        final(pmm).total() == old(pmm).total(),
        final(pmm).spec_bitmap_bytes() == old(pmm).spec_bitmap_bytes(),
        match r {
            Some(a) => {
                &&& a.val() % 4096 == 0
                &&& is_next_fit(old(pmm).frames(), old(pmm).cursor() / 64, frame_of(a))
                &&& final(pmm).frames() == old(pmm).frames().update(frame_of(a), true)
            },
            None => {
                &&& forall|i: int| 0 <= i < old(pmm).frames().len() ==> #[trigger] old(pmm).frames()[i]
                &&& final(pmm).frames() == old(pmm).frames()
            },
        },
{
    pmm.alloc_frame_zeroed()
}

/// Frees a used frame (see `BitmapAllocator::free_frame`).
pub fn free_frame(pmm: &mut BitmapAllocator, addr: PhysAddr)
    requires
        old(pmm).wf(),
        addr.val() % 4096 == 0,
        frame_of(addr) < old(pmm).total(),
        old(pmm).frames()[frame_of(addr)],
    ensures
        final(pmm).wf(),
        final(pmm).total() == old(pmm).total(),
        final(pmm).spec_bitmap_bytes() == old(pmm).spec_bitmap_bytes(),
        final(pmm).frames() == old(pmm).frames().update(frame_of(addr), false),
{
    pmm.free_frame(addr)
}

/// Allocates `count` contiguous frames (see `BitmapAllocator::alloc_contiguous`).
pub fn alloc_contiguous(pmm: &mut BitmapAllocator, count: usize) -> (r: Option<PhysAddr>)
    requires
        old(pmm).wf(),
    ensures
        final(pmm).wf(),
        final(pmm).total() == old(pmm).total(),
        final(pmm).spec_bitmap_bytes() == old(pmm).spec_bitmap_bytes(),
        count == 0 ==> r is None && final(pmm).frames() == old(pmm).frames(),
        count > 1 ==> (r is Some <==> has_run(old(pmm).frames(), count as int)),
        count > 1 ==> match r {
            Some(a) => {
                &&& a.val() % 4096 == 0
                &&& is_first_run(old(pmm).frames(), frame_of(a), count as int)
                &&& final(pmm).frames() == mark_run(old(pmm).frames(), frame_of(a), count as int)
            },
            None => final(pmm).frames() == old(pmm).frames(),
        },
        count == 1 ==> match r {
            Some(a) => {
                &&& a.val() % 4096 == 0
                &&& is_next_fit(old(pmm).frames(), old(pmm).cursor() / 64, frame_of(a))
                &&& final(pmm).frames() == old(pmm).frames().update(frame_of(a), true)
            },
            None => {
                &&& forall|i: int| 0 <= i < old(pmm).frames().len() ==> #[trigger] old(pmm).frames()[i]
                &&& final(pmm).frames() == old(pmm).frames()
            },
        },
{
    pmm.alloc_contiguous(count)
}

/// Usage counters (see `BitmapAllocator::stats`).
pub fn stats(pmm: &BitmapAllocator) -> (r: MemoryStats)
    requires
        pmm.wf(),
    ensures
        r.total_frames == pmm.total(),
        r.used_frames == count_true(pmm.frames()),
        r.free_frames == pmm.total() - count_true(pmm.frames()),
        r.bitmap_bytes == pmm.spec_bitmap_bytes(),
{
    pmm.stats()
}

} // verus!
