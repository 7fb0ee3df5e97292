//! Kernel heap: a first-fit free-list allocator over one contiguous region.
//!
//! The free list is kept sorted by address; no two free blocks overlap or
//! touch (touching blocks are merged when memory is freed).

use vstd::prelude::*;
use crate::memory::address::{PhysAddr, VirtAddr, PAGE_SIZE, KERNEL_HALF_START, PHYS_ADDR_LIMIT, canonical};
use crate::memory::pmm::{self, BitmapAllocator, has_run, is_first_run, mark_run, frame_of};

verus! {

/// Smallest block the allocator hands out or keeps on the free list: a
/// free block must hold its own size and link (two machine words).
pub const MIN_BLOCK_SIZE: usize = 16;

/// Alignment of a free-block header.
pub const FREE_BLOCK_ALIGN: usize = 8;

/// Pages of the initial kernel heap (256 KiB).
pub const INITIAL_HEAP_PAGES: usize = 64;

/// A free region `[addr, addr + size)`.
#[derive(Clone, Copy, PartialEq, Eq, Structural, Debug)]
pub struct FreeBlock {
    pub addr: usize,
    pub size: usize,
}

/// End address of a block.
pub open spec fn block_end(b: FreeBlock) -> int {
    b.addr + b.size
}

/// `a` is a power of two.
pub open spec fn is_pow2(a: usize) -> bool {
    a > 0 && a & ((a - 1) as usize) == 0
}

/// `value` rounded up to a multiple of the power of two `align`.
pub open spec fn spec_align_up(value: usize, align: usize) -> usize {
    (((value + align - 1) as usize) & !((align - 1) as usize)) as usize
}

/// `x` is a multiple of the power of two `a`.
pub open spec fn is_aligned_to(x: usize, a: usize) -> bool {
    x & ((a - 1) as usize) == 0
}

pub proof fn lemma_align_up(value: usize, align: usize)
    requires
        is_pow2(align),
        value + align - 1 <= usize::MAX,
    ensures
        is_aligned_to(spec_align_up(value, align), align),
        value <= spec_align_up(value, align) < value + align,
{
    let x = (value + align - 1) as usize;
    let m = (align - 1) as usize;
    assert((x & !m) & m == 0) by (bit_vector);
    assert(x & !m <= x) by (bit_vector);
    assert(x - (x & !m) <= m) by (bit_vector)
        requires align > 0 && align & m == 0 && m == align - 1;
}

/// Rounds `value` up to a multiple of the power of two `align`.
pub fn align_up(value: usize, align: usize) -> (r: usize)
    requires
        is_pow2(align),
        value + align - 1 <= usize::MAX,
    ensures
        r == spec_align_up(value, align),
        is_aligned_to(r, align),
        value <= r < value + align,
{
    proof { lemma_align_up(value, align); }
    (value + (align - 1)) & !(align - 1)
}

/// Blocks in address order, with a gap between any two of them, all of
/// size at least `MIN_BLOCK_SIZE` and inside `[start, end)`.
pub open spec fn free_list_ok(list: Seq<FreeBlock>, start: int, end: int) -> bool {
    &&& forall|i: int| 0 <= i < list.len() ==> start <= #[trigger] list[i].addr
        && block_end(list[i]) <= end && list[i].size >= MIN_BLOCK_SIZE
    &&& forall|i: int, j: int| 0 <= i < j < list.len() ==> block_end(#[trigger] list[i]) < (#[trigger] list[j]).addr
}

/// The region `[addr, addr + size)` overlaps no block.
pub open spec fn disjoint_from_list(list: Seq<FreeBlock>, addr: int, size: int) -> bool {
    forall|i: int| 0 <= i < list.len() ==> addr + size <= (#[trigger] list[i]).addr || block_end(list[i]) <= addr
}

/// `j` is the insertion position of address `a`: blocks before it lie
/// below `a`, the block at it (if any) does not.
pub open spec fn is_insert_pos(list: Seq<FreeBlock>, a: int, j: int) -> bool {
    &&& 0 <= j <= list.len()
    &&& forall|k: int| 0 <= k < j ==> (#[trigger] list[k]).addr < a
    &&& j < list.len() ==> list[j].addr >= a
}

/// The insertion position of address `a`.
pub open spec fn insert_pos(list: Seq<FreeBlock>, a: int) -> int {
    choose|j: int| is_insert_pos(list, a, j)
}

pub proof fn lemma_insert_pos_unique(list: Seq<FreeBlock>, a: int, j: int)
    requires
        is_insert_pos(list, a, j),
    ensures
        insert_pos(list, a) == j,
{
    let c = insert_pos(list, a);
    assert(is_insert_pos(list, a, c));
    if c < j {
        assert(list[c].addr < a);
    } else if j < c {
        assert(list[j].addr < a);
    }
}

/// The free list after returning `[addr, addr + size)`: inserted in
/// address order and merged with a neighbour it touches.
pub open spec fn insert_spec(list: Seq<FreeBlock>, addr: int, size: int) -> Seq<FreeBlock> {
    let j = insert_pos(list, addr);
    let has_next = j < list.len() && addr + size == list[j].addr;
    let merged = if has_next { size + list[j].size } else { size };
    let rest = if has_next { list.subrange(j + 1, list.len() as int) } else { list.subrange(j, list.len() as int) };
    let has_prev = j > 0 && block_end(list[j - 1]) == addr;
    if has_prev {
        list.subrange(0, j - 1).push(FreeBlock { addr: list[j - 1].addr, size: (list[j - 1].size + merged) as usize }) + rest
    } else {
        list.subrange(0, j).push(FreeBlock { addr: addr as usize, size: merged as usize }) + rest
    }
}


/// Returning a disjoint region keeps the free list well formed.
#[verifier::rlimit(60)]
pub proof fn lemma_insert_ok(list: Seq<FreeBlock>, addr: int, size: int, j: int, s: int, e: int)
    requires
        free_list_ok(list, s, e),
        size >= MIN_BLOCK_SIZE,
        0 <= s <= addr,
        addr + size <= e,
        e <= usize::MAX,
        disjoint_from_list(list, addr, size),
        is_insert_pos(list, addr, j),
    ensures
        insert_pos(list, addr) == j,
        free_list_ok(insert_spec(list, addr, size), s, e),
        insert_spec(list, addr, size).len() == list.len() + 1
            - (if j < list.len() && addr + size == list[j].addr { 1int } else { 0int })
            - (if j > 0 && block_end(list[j - 1]) == addr { 1int } else { 0int }),
{
    lemma_insert_pos_unique(list, addr, j);
    let has_next = j < list.len() && addr + size == list[j].addr;
    let merged = if has_next { size + list[j].size } else { size };
    let lo = if has_next { j + 1 } else { j };
    let rest = list.subrange(lo, list.len() as int);
    let has_prev = j > 0 && block_end(list[j - 1]) == addr;
    let hi = if has_prev { j - 1 } else { j };
    let m = if has_prev {
        FreeBlock { addr: list[j - 1].addr, size: (list[j - 1].size + merged) as usize }
    } else {
        FreeBlock { addr: addr as usize, size: merged as usize }
    };
    let res = insert_spec(list, addr, size);
    assert(res =~= list.subrange(0, hi).push(m) + rest);
    // the merged block and its neighbours
    if j < list.len() {
        assert(list[j].addr >= addr);
        assert(addr + size <= list[j].addr);
    }
    if j > 0 {
        assert(list[j - 1].addr < addr);
        assert(block_end(list[j - 1]) <= addr);
    }
    if has_next {
        assert(block_end(list[j]) <= e);
    }
    assert(addr + merged <= e);
    if has_prev {
        assert(list[j - 1].size + merged <= e);
        assert(m.size == list[j - 1].size + merged);
        assert(m.addr == list[j - 1].addr);
    } else {
        assert(m.size == merged);
    }
    assert(block_end(m) == addr + merged);
    assert(m.size >= MIN_BLOCK_SIZE);
    assert(s <= m.addr);
    assert forall|i: int| 0 <= i < res.len() implies s <= #[trigger] res[i].addr
        && block_end(res[i]) <= e && res[i].size >= MIN_BLOCK_SIZE by {
        if i < hi {
            assert(res[i] == list[i]);
        } else if i == hi {
            assert(res[i] == m);
        } else {
            assert(res[i] == list[lo + i - hi - 1]);
        }
    }
    assert forall|a: int, b: int| 0 <= a < b < res.len() implies block_end(#[trigger] res[a]) < (#[trigger] res[b]).addr by {
        if b < hi {
            assert(res[a] == list[a] && res[b] == list[b]);
        } else if b == hi {
            assert(res[a] == list[a]);
            assert(res[b] == m);
            if has_prev {
                assert(block_end(list[a]) < list[j - 1].addr);
            } else {
                if a < j - 1 {
                    assert(block_end(list[a]) < list[j - 1].addr);
                }
            }
        } else {
            let bb = lo + b - hi - 1;
            assert(res[b] == list[bb]);
            if a < hi {
                assert(res[a] == list[a]);
                assert(block_end(list[a]) < list[bb].addr);
            } else if a == hi {
                assert(res[a] == m);
                if has_next {
                    assert(block_end(list[j]) < list[bb].addr);
                } else if bb > j {
                    assert(block_end(list[j]) < list[bb].addr);
                }
            } else {
                let aa = lo + a - hi - 1;
                assert(res[a] == list[aa]);
                assert(block_end(list[aa]) < list[bb].addr);
            }
        }
    }
}


/// Total bytes held by the blocks.
pub open spec fn sum_sizes(list: Seq<FreeBlock>) -> int
    decreases list.len(),
{
    if list.len() == 0 {
        0
    } else {
        sum_sizes(list.drop_last()) + list.last().size
    }
}

pub proof fn lemma_sum_concat(a: Seq<FreeBlock>, b: Seq<FreeBlock>)
    ensures
        sum_sizes(a + b) == sum_sizes(a) + sum_sizes(b),
    decreases b.len(),
{
    if b.len() == 0 {
        assert(a + b =~= a);
    } else {
        assert((a + b).drop_last() =~= a + b.drop_last());
        lemma_sum_concat(a, b.drop_last());
    }
}

pub proof fn lemma_sum_nonneg(a: Seq<FreeBlock>)
    ensures
        sum_sizes(a) >= 0,
    decreases a.len(),
{
    if a.len() > 0 {
        lemma_sum_nonneg(a.drop_last());
    }
}

pub proof fn lemma_sum_single(b: FreeBlock)
    ensures
        sum_sizes(seq![b]) == b.size,
{
    reveal_with_fuel(sum_sizes, 2);
    assert(seq![b].drop_last() =~= Seq::<FreeBlock>::empty());
}

/// Splitting a list around index `i`.
pub proof fn lemma_sum_split(list: Seq<FreeBlock>, i: int)
    requires
        0 <= i < list.len(),
    ensures
        sum_sizes(list) == sum_sizes(list.subrange(0, i)) + list[i].size
            + sum_sizes(list.subrange(i + 1, list.len() as int)),
{
    assert(list =~= list.subrange(0, i) + seq![list[i]] + list.subrange(i + 1, list.len() as int));
    lemma_sum_concat(list.subrange(0, i) + seq![list[i]], list.subrange(i + 1, list.len() as int));
    lemma_sum_concat(list.subrange(0, i), seq![list[i]]);
    lemma_sum_single(list[i]);
}

/// Inserting a region adds its size to the free total.
#[verifier::rlimit(60)]
pub proof fn lemma_insert_sum(list: Seq<FreeBlock>, addr: int, size: int, j: int, s: int, e: int)
    requires
        free_list_ok(list, s, e),
        size >= MIN_BLOCK_SIZE,
        0 <= s <= addr,
        addr + size <= e,
        e <= usize::MAX,
        disjoint_from_list(list, addr, size),
        is_insert_pos(list, addr, j),
    ensures
        sum_sizes(insert_spec(list, addr, size)) == sum_sizes(list) + size,
{
    lemma_insert_ok(list, addr, size, j, s, e);
    let has_next = j < list.len() && addr + size == list[j].addr;
    let merged = if has_next { size + list[j].size } else { size };
    let lo = if has_next { j + 1 } else { j };
    let rest = list.subrange(lo, list.len() as int);
    let has_prev = j > 0 && block_end(list[j - 1]) == addr;
    let hi = if has_prev { j - 1 } else { j };
    let m = if has_prev {
        FreeBlock { addr: list[j - 1].addr, size: (list[j - 1].size + merged) as usize }
    } else {
        FreeBlock { addr: addr as usize, size: merged as usize }
    };
    if j < list.len() {
        assert(list[j].addr >= addr);
    }
    if has_next {
        assert(block_end(list[j]) <= e);
    }
    if has_prev {
        assert(list[j - 1].addr < addr);
    }
    assert(insert_spec(list, addr, size) =~= list.subrange(0, hi) + seq![m] + rest);
    lemma_sum_concat(list.subrange(0, hi) + seq![m], rest);
    lemma_sum_concat(list.subrange(0, hi), seq![m]);
    lemma_sum_single(m);
    // the list before the insertion: head, optional predecessor, optional successor, rest
    let mid = list.subrange(hi, lo);
    assert(list =~= list.subrange(0, hi) + mid + rest);
    lemma_sum_concat(list.subrange(0, hi) + mid, rest);
    lemma_sum_concat(list.subrange(0, hi), mid);
    if has_prev && has_next {
        assert(mid =~= seq![list[j - 1]] + seq![list[j]]);
        lemma_sum_concat(seq![list[j - 1]], seq![list[j]]);
        lemma_sum_single(list[j - 1]);
        lemma_sum_single(list[j]);
    } else if has_prev {
        assert(mid =~= seq![list[j - 1]]);
        lemma_sum_single(list[j - 1]);
    } else if has_next {
        assert(mid =~= seq![list[j]]);
        lemma_sum_single(list[j]);
    } else {
        assert(mid =~= Seq::<FreeBlock>::empty());
    }
}

/// When the region touches no neighbour, insertion is a plain insert.
pub proof fn lemma_insert_plain(list: Seq<FreeBlock>, addr: int, size: int, j: int)
    requires
        is_insert_pos(list, addr, j),
        j < list.len() ==> addr + size < list[j].addr,
        j > 0 ==> block_end(list[j - 1]) < addr,
        0 <= addr <= usize::MAX,
        0 <= size <= usize::MAX,
    ensures
        insert_spec(list, addr, size) == list.insert(j, FreeBlock { addr: addr as usize, size: size as usize }),
{
    lemma_insert_pos_unique(list, addr, j);
    assert(insert_spec(list, addr, size) =~= list.insert(j, FreeBlock { addr: addr as usize, size: size as usize }));
}

/// The request size actually reserved.
pub open spec fn eff_size(size: usize) -> usize {
    if size < MIN_BLOCK_SIZE { MIN_BLOCK_SIZE } else { size }
}

/// The alignment actually used.
pub open spec fn eff_align(align: usize) -> usize {
    if align < FREE_BLOCK_ALIGN { FREE_BLOCK_ALIGN } else { align }
}

/// Block `b` can hold `size` bytes at an address aligned to `align`.
pub open spec fn block_fits(b: FreeBlock, size: usize, align: usize) -> bool {
    spec_align_up(b.addr, align) + size <= block_end(b)
}

/// `i` is the first block that can serve the request.
pub open spec fn is_first_fit(list: Seq<FreeBlock>, size: usize, align: usize, i: int) -> bool {
    &&& 0 <= i < list.len()
    &&& block_fits(list[i], size, align)
    &&& forall|k: int| 0 <= k < i ==> !block_fits(#[trigger] list[k], size, align)
}

/// The leftover pieces of block `b` around `[p, p + size)` that are big
/// enough to stay on the free list.
pub open spec fn leftover(b: FreeBlock, p: int, size: int) -> Seq<FreeBlock> {
    let front = if p - b.addr >= MIN_BLOCK_SIZE {
        seq![FreeBlock { addr: b.addr, size: (p - b.addr) as usize }]
    } else {
        Seq::<FreeBlock>::empty()
    };
    let back = if block_end(b) - (p + size) >= MIN_BLOCK_SIZE {
        seq![FreeBlock { addr: (p + size) as usize, size: (block_end(b) - (p + size)) as usize }]
    } else {
        Seq::<FreeBlock>::empty()
    };
    front + back
}

/// The free list after serving a request from block `i` at `[p, p + size)`.
pub open spec fn alloc_result(list: Seq<FreeBlock>, i: int, p: int, size: int) -> Seq<FreeBlock> {
    list.subrange(0, i) + leftover(list[i], p, size) + list.subrange(i + 1, list.len() as int)
}

/// Returning a region right after it was served gives back the free list
/// it was served from, provided neither leftover piece was too small to
/// keep (a piece below `MIN_BLOCK_SIZE` stays lost until the heap is
/// rebuilt).
pub proof fn lemma_alloc_dealloc_roundtrip(list: Seq<FreeBlock>, s: int, e: int, i: int, p: int, size: int)
    requires
        free_list_ok(list, s, e),
        e <= usize::MAX,
        0 <= i < list.len(),
        list[i].addr <= p,
        p + size <= block_end(list[i]),
        size >= MIN_BLOCK_SIZE,
        p == list[i].addr || p - list[i].addr >= MIN_BLOCK_SIZE,
        p + size == block_end(list[i]) || block_end(list[i]) - (p + size) >= MIN_BLOCK_SIZE,
    ensures
        insert_spec(alloc_result(list, i, p, size), p, size) == list,
{
    let b = list[i];
    let l = alloc_result(list, i, p, size);
    let has_front = p - b.addr >= MIN_BLOCK_SIZE;
    let has_back = block_end(b) - (p + size) >= MIN_BLOCK_SIZE;
    let front = FreeBlock { addr: b.addr, size: (p - b.addr) as usize };
    let back = FreeBlock { addr: (p + size) as usize, size: (block_end(b) - (p + size)) as usize };
    let pre = list.subrange(0, i);
    let post = list.subrange(i + 1, list.len() as int);
    let j = if has_front { i + 1 } else { i };
    if has_front && has_back {
        assert(l =~= pre + seq![front, back] + post);
    } else if has_front {
        assert(l =~= pre + seq![front] + post);
    } else if has_back {
        assert(l =~= pre + seq![back] + post);
    } else {
        assert(l =~= pre + post);
    }
    assert(is_insert_pos(l, p, j)) by {
        assert forall|k: int| 0 <= k < j implies (#[trigger] l[k]).addr < p by {
            if k < i {
                assert(l[k] == list[k]);
                assert(block_end(list[k]) < b.addr);
            }
        }
        if j < l.len() {
            if has_back {
                assert(l[j] == back);
            } else {
                assert(l[j] == list[i + 1]);
                assert(block_end(b) < list[i + 1].addr);
            }
        }
    }
    lemma_insert_pos_unique(l, p, j);
    if !has_front && i > 0 {
        assert(l[i - 1] == list[i - 1]);
        assert(block_end(list[i - 1]) < b.addr);
    }
    if !has_back && j < l.len() {
        assert(l[j] == list[i + 1]);
        assert(block_end(b) < list[i + 1].addr);
    }
    let r = insert_spec(l, p, size);
    assert(r =~= list);
}

/// Removing a block keeps the list well formed and frees the room it held.
pub proof fn lemma_remove_ok(list: Seq<FreeBlock>, i: int, s: int, e: int)
    requires
        free_list_ok(list, s, e),
        0 <= i < list.len(),
    ensures
        free_list_ok(list.remove(i), s, e),
        sum_sizes(list.remove(i)) == sum_sizes(list) - list[i].size,
        list.remove(i) == list.subrange(0, i) + list.subrange(i + 1, list.len() as int),
        forall|k: int| 0 <= k < i ==> block_end(#[trigger] list.remove(i)[k]) < list[i].addr,
        forall|k: int| i <= k < list.len() - 1 ==> block_end(list[i]) < (#[trigger] list.remove(i)[k]).addr,
{
    let r = list.remove(i);
    assert(r =~= list.subrange(0, i) + list.subrange(i + 1, list.len() as int));
    lemma_sum_split(list, i);
    lemma_sum_concat(list.subrange(0, i), list.subrange(i + 1, list.len() as int));
    assert forall|a: int, b: int| 0 <= a < b < r.len() implies block_end(#[trigger] r[a]) < (#[trigger] r[b]).addr by {
        let aa = if a < i { a } else { a + 1 };
        let bb = if b < i { b } else { b + 1 };
        assert(r[a] == list[aa] && r[b] == list[bb]);
    }
    assert forall|k: int| 0 <= k < r.len() implies s <= #[trigger] r[k].addr
        && block_end(r[k]) <= e && r[k].size >= MIN_BLOCK_SIZE by {
        let kk = if k < i { k } else { k + 1 };
        assert(r[k] == list[kk]);
    }
    assert forall|k: int| 0 <= k < i implies block_end(#[trigger] r[k]) < list[i].addr by {
        assert(r[k] == list[k]);
    }
    assert forall|k: int| i <= k < list.len() - 1 implies block_end(list[i]) < (#[trigger] r[k]).addr by {
        assert(r[k] == list[k + 1]);
    }
}

/// The heap state: a free list over `[heap_start, heap_end)`.
pub struct Heap {
    free_list: Vec<FreeBlock>,
    heap_start: usize,
    heap_end: usize,
    allocated_bytes: usize,
    total_bytes: usize,
}

impl Heap {
    /// The free blocks in address order.
    pub closed spec fn blocks(&self) -> Seq<FreeBlock> {
        self.free_list@
    }

    pub closed spec fn start(&self) -> int {
        self.heap_start as int
    }

    pub closed spec fn end(&self) -> int {
        self.heap_end as int
    }

    pub closed spec fn allocated(&self) -> int {
        self.allocated_bytes as int
    }

    pub closed spec fn total(&self) -> int {
        self.total_bytes as int
    }

    /// Well-formed free list inside the heap region.
    pub closed spec fn wf(&self) -> bool {
        &&& self.heap_start <= self.heap_end
        &&& free_list_ok(self.free_list@, self.heap_start as int, self.heap_end as int)
        &&& self.total_bytes == self.heap_end - self.heap_start
        &&& self.allocated_bytes + sum_sizes(self.free_list@) <= self.total_bytes
    }

    /// In every state the allocator's operations reach, the free list is
    /// in address order and coalesced: each block ends strictly before the
    /// next begins, so no two free blocks touch, and all lie in the heap.
    pub proof fn lemma_free_list_sorted_coalesced(&self)
        requires
            self.wf(),
        ensures
            free_list_ok(self.blocks(), self.start(), self.end()),
            forall|i: int| 0 <= i < self.blocks().len() - 1 ==>
                block_end(#[trigger] self.blocks()[i]) < self.blocks()[i + 1].addr,
    {
        assert forall|i: int| 0 <= i < self.blocks().len() - 1 implies
            block_end(#[trigger] self.blocks()[i]) < self.blocks()[i + 1].addr by {
            assert(block_end(self.blocks()[i]) < self.blocks()[i + 1].addr);
        }
    }

    /// An empty, uninitialised heap.
    pub fn new() -> (r: Self)
        ensures
            r.wf(),
            r.blocks().len() == 0,
            r.start() == 0,
            r.end() == 0,
            r.allocated() == 0,
            r.total() == 0,
    {
        Heap { free_list: Vec::new(), heap_start: 0, heap_end: 0, allocated_bytes: 0, total_bytes: 0 }
    }

    /// Makes `[start, start + size)` the heap, as one free block. The region
    /// must hold at least one block and start on a block-header boundary.
    pub fn init(&mut self, start: usize, size: usize)
        requires
            size >= MIN_BLOCK_SIZE,
            start % FREE_BLOCK_ALIGN == 0,
            start + size <= usize::MAX,
        ensures
            final(self).wf(),
            final(self).blocks() == seq![FreeBlock { addr: start, size: size }],
            final(self).start() == start,
            final(self).end() == start + size,
            final(self).total() == size,
            final(self).allocated() == 0,
    {
        self.heap_start = start;
        self.heap_end = start + size;
        self.total_bytes = size;
        self.allocated_bytes = 0;
        let mut v: Vec<FreeBlock> = Vec::new();
        v.push(FreeBlock { addr: start, size });
        self.free_list = v;
        proof {
            assert(self.free_list@ =~= seq![FreeBlock { addr: start, size: size }]);
            lemma_sum_single(FreeBlock { addr: start, size: size });
        }
    }

    /// First-fit allocation of `size` bytes aligned to `align` (a power of
    /// two). Sizes below `MIN_BLOCK_SIZE` and alignments below
    /// `FREE_BLOCK_ALIGN` are raised to them. The first block that can hold
    /// the aligned request is taken off the list; the pieces before and
    /// after the request go back when they can hold a block. `None` when
    /// no block fits, with the heap unchanged.
    pub fn allocate(&mut self, size: usize, align: usize) -> (r: Option<usize>)
        requires
            old(self).wf(),
            is_pow2(align),
            old(self).end() + eff_align(align) <= usize::MAX,
        ensures
            final(self).wf(),
            final(self).start() == old(self).start(),
            final(self).end() == old(self).end(),
            final(self).total() == old(self).total(),
            match r {
                Some(p) => exists|i: int| {
                    &&& #[trigger] is_first_fit(old(self).blocks(), eff_size(size), eff_align(align), i)
                    &&& p == spec_align_up(old(self).blocks()[i].addr, eff_align(align))
                    &&& final(self).blocks() == alloc_result(old(self).blocks(), i, p as int, eff_size(size) as int)
                    &&& final(self).allocated() == old(self).allocated() + eff_size(size)
                    &&& is_aligned_to(p, eff_align(align))
                    &&& old(self).start() <= p && p + eff_size(size) <= old(self).end()
                },
                None => {
                    &&& forall|i: int| 0 <= i < old(self).blocks().len()
                        ==> !block_fits(#[trigger] old(self).blocks()[i], eff_size(size), eff_align(align))
                    &&& final(self).blocks() == old(self).blocks()
                    &&& final(self).allocated() == old(self).allocated()
                },
            },
    {
        let es: usize = if size < MIN_BLOCK_SIZE { MIN_BLOCK_SIZE } else { size };
        let ea: usize = if align < FREE_BLOCK_ALIGN { FREE_BLOCK_ALIGN } else { align };
        proof {
            assert(is_pow2(8usize)) by (bit_vector);
        }
        let ghost list = self.free_list@;
        let len = self.free_list.len();
        let mut i: usize = 0;
        while i < len
            invariant
                *self == *old(self),
                list == self.free_list@,
                len == list.len(),
                self.wf(),
                0 <= i <= len,
                is_pow2(ea),
                ea == eff_align(align),
                es == eff_size(size),
                self.heap_end + ea <= usize::MAX,
                forall|k: int| 0 <= k < i ==> !block_fits(#[trigger] list[k], es, ea),
            decreases len - i,
        {
            let b = self.free_list[i];
            proof {
                assert(self.heap_start <= list[i as int].addr && block_end(list[i as int]) <= self.heap_end);
            }
            let alloc_start = align_up(b.addr, ea);
            let bend = b.addr + b.size;
            if alloc_start <= bend && es <= bend - alloc_start {
                proof {
                    assert(is_first_fit(list, es, ea, i as int));
                }
                self.take_from_block(i, alloc_start, es);
                return Some(alloc_start);
            }
            i = i + 1;
        }
        None
    }

    /// Returns `[addr, addr + max(size, MIN_BLOCK_SIZE))`, a region handed
    /// out earlier and not yet returned, to the free list, merging it with
    /// the free blocks it touches.
    pub fn deallocate(&mut self, addr: usize, size: usize)
        requires
            old(self).wf(),
            old(self).start() <= addr,
            addr + eff_size(size) <= old(self).end(),
            disjoint_from_list(old(self).blocks(), addr as int, eff_size(size) as int),
            old(self).allocated() >= eff_size(size),
        ensures
            final(self).wf(),
            final(self).blocks() == insert_spec(old(self).blocks(), addr as int, eff_size(size) as int),
            final(self).allocated() == old(self).allocated() - eff_size(size),
            final(self).start() == old(self).start(),
            final(self).end() == old(self).end(),
            final(self).total() == old(self).total(),
    {
        let es: usize = if size < MIN_BLOCK_SIZE { MIN_BLOCK_SIZE } else { size };
        self.allocated_bytes = self.allocated_bytes - es;
        self.insert_free_block(addr, es);
    }

    /// Takes block `i` off the list to serve `[p, p + size)` and returns
    /// the pieces before and after that can still hold a block.
    #[verifier::spinoff_prover]
    #[verifier::rlimit(80)]
    fn take_from_block(&mut self, i: usize, p: usize, size: usize)
        requires
            old(self).wf(),
            0 <= i < old(self).blocks().len(),
            old(self).blocks()[i as int].addr <= p,
            p + size <= block_end(old(self).blocks()[i as int]),
            size >= MIN_BLOCK_SIZE,
        ensures
            final(self).wf(),
            final(self).start() == old(self).start(),
            final(self).end() == old(self).end(),
            final(self).total() == old(self).total(),
            final(self).blocks() == alloc_result(old(self).blocks(), i as int, p as int, size as int),
            final(self).allocated() == old(self).allocated() + size,
    {
        let ghost list = self.free_list@;
        let b = self.free_list[i];
        let alloc_start = p;
        let es = size;
        let bend = b.addr + b.size;
        proof {
            lemma_remove_ok(list, i as int, self.heap_start as int, self.heap_end as int);
            lemma_sum_nonneg(list.remove(i as int));
        }
        self.free_list.remove(i);
        self.allocated_bytes = self.allocated_bytes + es;
        let ghost removed = self.free_list@;
        let front_gap = alloc_start - b.addr;
        if front_gap >= MIN_BLOCK_SIZE {
            proof {
                assert(disjoint_from_list(removed, b.addr as int, front_gap as int)) by {
                    assert forall|k: int| 0 <= k < removed.len() implies b.addr + front_gap <= (#[trigger] removed[k]).addr
                        || block_end(removed[k]) <= b.addr by {
                        if k >= i {
                            assert(block_end(b) < removed[k].addr);
                        }
                    }
                }
                assert(is_insert_pos(removed, b.addr as int, i as int));
                lemma_insert_plain(removed, b.addr as int, front_gap as int, i as int);
            }
            self.insert_free_block(b.addr, front_gap);
        }
        let ghost mid = self.free_list@;
        let alloc_end = alloc_start + es;
        let back_gap = bend - alloc_end;
        let ghost j: int = if front_gap >= MIN_BLOCK_SIZE { i + 1 } else { i as int };
        proof {
            if front_gap >= MIN_BLOCK_SIZE {
                assert(mid == removed.insert(i as int, FreeBlock { addr: b.addr, size: front_gap }));
            } else {
                assert(mid == removed);
            }
            assert(forall|k: int| 0 <= k < j ==> block_end(#[trigger] mid[k]) <= alloc_start);
            assert(forall|k: int| j <= k < mid.len() ==> bend < (#[trigger] mid[k]).addr);
        }
        if back_gap >= MIN_BLOCK_SIZE {
            proof {
                assert(disjoint_from_list(mid, alloc_end as int, back_gap as int)) by {
                    assert forall|k: int| 0 <= k < mid.len() implies alloc_end + back_gap <= (#[trigger] mid[k]).addr
                        || block_end(mid[k]) <= alloc_end by {
                        if k < j {
                            assert(block_end(mid[k]) <= alloc_start);
                        } else {
                            assert(bend < mid[k].addr);
                        }
                    }
                }
                assert(is_insert_pos(mid, alloc_end as int, j)) by {
                    assert forall|k: int| 0 <= k < j implies (#[trigger] mid[k]).addr < alloc_end by {
                        assert(block_end(mid[k]) <= alloc_start);
                    }
                }
                lemma_insert_plain(mid, alloc_end as int, back_gap as int, j);
            }
            self.insert_free_block(alloc_end, back_gap);
        }
        proof {
            let lo = leftover(b, alloc_start as int, es as int);
            assert(self.free_list@ =~= alloc_result(list, i as int, alloc_start as int, es as int));
        }
    }

    /// Returns `[addr, addr + size)` to the free list, keeping address
    /// order and merging with the neighbours it touches.
    #[verifier::spinoff_prover]
    #[verifier::rlimit(60)]
    fn insert_free_block(&mut self, addr: usize, size: usize)
        requires
            old(self).wf(),
            size >= MIN_BLOCK_SIZE,
            old(self).start() <= addr,
            addr + size <= old(self).end(),
            disjoint_from_list(old(self).blocks(), addr as int, size as int),
            old(self).allocated() + sum_sizes(old(self).blocks()) + size <= old(self).total(),
        ensures
            final(self).wf(),
            final(self).blocks() == insert_spec(old(self).blocks(), addr as int, size as int),
            sum_sizes(final(self).blocks()) == sum_sizes(old(self).blocks()) + size,
            final(self).start() == old(self).start(),
            final(self).end() == old(self).end(),
            final(self).allocated() == old(self).allocated(),
            final(self).total() == old(self).total(),
    {
        let ghost list = self.free_list@;
        let len = self.free_list.len();
        let mut j: usize = 0;
        while j < len && self.free_list[j].addr < addr
            invariant
                *self == *old(self),
                list == self.free_list@,
                len == list.len(),
                0 <= j <= len,
                forall|k: int| 0 <= k < j ==> (#[trigger] list[k]).addr < addr,
            decreases len - j,
        {
            j = j + 1;
        }
        proof {
            assert(is_insert_pos(list, addr as int, j as int));
            lemma_insert_pos_unique(list, addr as int, j as int);
        }
        let has_next = j < len && addr + size == self.free_list[j].addr;
        let mut merged = size;
        if has_next {
            merged = size + self.free_list[j].size;
            self.free_list.remove(j);
        }
        let has_prev = j > 0 && self.free_list[j - 1].addr + self.free_list[j - 1].size == addr;
        proof {
            lemma_insert_ok(list, addr as int, size as int, j as int, self.heap_start as int, self.heap_end as int);
            lemma_insert_sum(list, addr as int, size as int, j as int, self.heap_start as int, self.heap_end as int);
            if has_next {
                assert(self.free_list@ =~= list.subrange(0, j as int) + list.subrange(j + 1, list.len() as int));
            } else {
                assert(self.free_list@ =~= list.subrange(0, j as int) + list.subrange(j as int, list.len() as int));
            }
        }
        if has_prev {
            let p = self.free_list[j - 1];
            self.free_list.set(j - 1, FreeBlock { addr: p.addr, size: p.size + merged });
            proof {
                assert(self.free_list@ =~= insert_spec(list, addr as int, size as int));
            }
        } else {
            self.free_list.insert(j, FreeBlock { addr, size: merged });
            proof {
                assert(self.free_list@ =~= insert_spec(list, addr as int, size as int));
            }
        }
    }
}

/// The kernel's heap allocator: a `Heap` that callers serialise (the
/// kernel keeps it behind a spin lock).
pub struct KernelAllocator {
    inner: Heap,
}

impl KernelAllocator {
    /// The heap inside.
    pub closed spec fn heap(&self) -> Heap {
        self.inner
    }

    /// An uninitialised allocator; `init` must run before any allocation.
    pub fn new() -> (r: Self)
        ensures
            r.heap().wf(),
            r.heap().blocks().len() == 0,
            r.heap().allocated() == 0,
            r.heap().total() == 0,
    {
        KernelAllocator { inner: Heap::new() }
    }

    /// Allocates `size` bytes aligned to `align` (see `Heap::allocate`).
    pub fn allocate(&mut self, size: usize, align: usize) -> (r: Option<usize>)
        requires
            old(self).heap().wf(),
            is_pow2(align),
            old(self).heap().end() + eff_align(align) <= usize::MAX,
        ensures
            final(self).heap().wf(),
            final(self).heap().start() == old(self).heap().start(),
            final(self).heap().end() == old(self).heap().end(),
            final(self).heap().total() == old(self).heap().total(),
            match r {
                Some(p) => exists|i: int| {
                    &&& #[trigger] is_first_fit(old(self).heap().blocks(), eff_size(size), eff_align(align), i)
                    &&& p == spec_align_up(old(self).heap().blocks()[i].addr, eff_align(align))
                    &&& final(self).heap().blocks() == alloc_result(old(self).heap().blocks(), i, p as int, eff_size(size) as int)
                    &&& final(self).heap().allocated() == old(self).heap().allocated() + eff_size(size)
                    &&& is_aligned_to(p, eff_align(align))
                    &&& old(self).heap().start() <= p && p + eff_size(size) <= old(self).heap().end()
                },
                None => {
                    &&& forall|i: int| 0 <= i < old(self).heap().blocks().len()
                        ==> !block_fits(#[trigger] old(self).heap().blocks()[i], eff_size(size), eff_align(align))
                    &&& final(self).heap().blocks() == old(self).heap().blocks()
                    &&& final(self).heap().allocated() == old(self).heap().allocated()
                },
            },
    {
        self.inner.allocate(size, align)
    }

    /// Returns a region handed out earlier (see `Heap::deallocate`).
    pub fn deallocate(&mut self, addr: usize, size: usize)
        requires
            old(self).heap().wf(),
            old(self).heap().start() <= addr,
            addr + eff_size(size) <= old(self).heap().end(),
            disjoint_from_list(old(self).heap().blocks(), addr as int, eff_size(size) as int),
            old(self).heap().allocated() >= eff_size(size),
        ensures
            final(self).heap().wf(),
            final(self).heap().blocks() == insert_spec(old(self).heap().blocks(), addr as int, eff_size(size) as int),
            final(self).heap().allocated() == old(self).heap().allocated() - eff_size(size),
            final(self).heap().start() == old(self).heap().start(),
            final(self).heap().end() == old(self).heap().end(),
            final(self).heap().total() == old(self).heap().total(),
    {
        self.inner.deallocate(addr, size)
    }
}

/// Size of the initial heap in bytes.
pub open spec fn initial_heap_bytes() -> int {
    INITIAL_HEAP_PAGES * 4096
}

/// Sets up the kernel heap: takes the lowest run of `INITIAL_HEAP_PAGES`
/// free frames from the frame allocator and makes their direct-map window
/// (`physical + hhdm_offset`) the heap, as one free block.
pub fn init(allocator: &mut KernelAllocator, pmm: &mut BitmapAllocator, hhdm_offset: u64)
    requires
        old(pmm).wf(),
        has_run(old(pmm).frames(), INITIAL_HEAP_PAGES as int),
        hhdm_offset >= KERNEL_HALF_START,
        hhdm_offset % 8 == 0,
        hhdm_offset + old(pmm).total() * 4096 <= usize::MAX,
    ensures
        final(pmm).wf(),
        final(pmm).total() == old(pmm).total(),
        exists|s: int| {
            &&& #[trigger] is_first_run(old(pmm).frames(), s, INITIAL_HEAP_PAGES as int)
            &&& final(pmm).frames() == mark_run(old(pmm).frames(), s, INITIAL_HEAP_PAGES as int)
            &&& final(allocator).heap().wf()
            &&& final(allocator).heap().start() == s * 4096 + hhdm_offset
            &&& final(allocator).heap().end() == s * 4096 + hhdm_offset + initial_heap_bytes()
            &&& final(allocator).heap().blocks() == seq![FreeBlock {
                addr: (s * 4096 + hhdm_offset) as usize,
                size: initial_heap_bytes() as usize,
            }]
            &&& final(allocator).heap().allocated() == 0
            &&& final(allocator).heap().total() == initial_heap_bytes()
        },
{
    let heap_size: usize = INITIAL_HEAP_PAGES * 4096;
    proof { old(pmm).lemma_wf_bounds(); }
    let heap_phys = pmm::alloc_contiguous(pmm, INITIAL_HEAP_PAGES).unwrap();
    let ghost s = frame_of(heap_phys);
    proof {
        assert(heap_phys.val() == s * 4096);
    }
    let heap_virt = heap_phys.to_virt(hhdm_offset).as_u64() as usize;
    allocator.inner.init(heap_virt, heap_size);
}

/// Bytes currently handed out by the kernel heap.
pub fn allocated_bytes(allocator: &KernelAllocator) -> (r: usize)
    ensures
        r == allocator.heap().allocated(),
{
    allocator.inner.allocated_bytes
}

/// Size of the kernel heap in bytes.
pub fn total_bytes(allocator: &KernelAllocator) -> (r: usize)
    ensures
        r == allocator.heap().total(),
{
    allocator.inner.total_bytes
}

} // verus!
