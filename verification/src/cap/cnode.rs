//! Capability nodes: fixed arrays of capabilities addressed by slot.

use vstd::prelude::*;

verus! {

/// Slots per node.
pub const CNODE_SLOTS: usize = 64;

/// No right.
pub const RIGHTS_NONE: u8 = 0x00;
/// May read.
pub const RIGHTS_READ: u8 = 0x01;
/// May write.
pub const RIGHTS_WRITE: u8 = 0x02;
/// May execute.
pub const RIGHTS_EXEC: u8 = 0x04;
/// May grant the capability to others.
pub const RIGHTS_GRANT: u8 = 0x08;
/// May revoke derived capabilities.
pub const RIGHTS_REVOKE: u8 = 0x10;
/// Every right.
pub const RIGHTS_ALL: u8 = 0x1F;

/// A set of access rights.
#[derive(Clone, Copy, PartialEq, Eq, Structural, Debug)]
pub struct CapRights(u8);

impl CapRights {
    /// The raw bits.
    pub closed spec fn value(self) -> u8 {
        self.0
    }

    /// The rights with raw bits `bits`.
    pub fn from_raw(bits: u8) -> (r: Self)
        ensures
            r.value() == bits,
    {
        CapRights(bits)
    }

    /// The raw bits.
    pub fn bits(self) -> (r: u8)
        ensures
            r == self.value(),
    {
        self.0
    }

    /// Every right of `other` is among `self`.
    pub fn contains(self, other: CapRights) -> (r: bool)
        ensures
            r == (self.value() & other.value() == other.value()),
    {
        self.0 & other.0 == other.0
    }

    /// The rights in both `self` and `mask`.
    pub fn restrict(self, mask: CapRights) -> (r: CapRights)
        ensures
            r.value() == self.value() & mask.value(),
    {
        CapRights(self.0 & mask.0)
    }
}

/// Restricting never adds a right: the result is contained in both.
pub proof fn lemma_restrict_contained(a: u8, m: u8)
    by (bit_vector)
    ensures
        a & (a & m) == a & m,
        m & (a & m) == a & m,
{
}

/// The kernel object a capability refers to.
#[derive(Clone, Copy, PartialEq, Eq, Structural, Debug)]
pub enum CapObject {
    /// Free slot.
    Empty,
    /// An IPC endpoint.
    Endpoint { id: u64 },
    /// A block of 2^order physical frames at `phys`.
    MemoryFrame { phys: u64, order: u8 },
    /// An interrupt line.
    Interrupt { irq: u32 },
    /// A thread's control block.
    ThreadControl { tid: u64 },
    /// A range of `size` I/O ports from `base`.
    IoPort { base: u16, size: u16 },
    /// A process.
    Process { pid: u64 },
    /// The right to draw frames from the physical allocator.
    PmmAllocator,
}

/// An object and the rights held on it.
#[derive(Clone, Copy, PartialEq, Eq, Structural, Debug)]
pub struct Capability {
    pub object: CapObject,
    pub rights: CapRights,
}

impl Capability {
    /// The empty capability: no object, no right.
    pub closed spec fn empty_spec() -> Capability {
        Capability { object: CapObject::Empty, rights: CapRights(0) }
    }

    /// What the empty capability holds.
    pub proof fn lemma_empty_spec()
        ensures
            Capability::empty_spec().object is Empty,
            Capability::empty_spec().rights.value() == 0,
    {
    }

    /// A capability for `object` with `rights`.
    pub fn new(object: CapObject, rights: CapRights) -> (r: Self)
        ensures
            r.object == object,
            r.rights == rights,
    {
        Capability { object, rights }
    }

    /// The slot holds no object.
    pub fn is_empty(&self) -> (r: bool)
        ensures
            r == (self.object is Empty),
    {
        match self.object {
            CapObject::Empty => true,
            _ => false,
        }
    }
}

/// Number of slots holding an object.
pub open spec fn count_filled(slots: Seq<Capability>) -> nat
    decreases slots.len(),
{
    if slots.len() == 0 {
        0
    } else {
        count_filled(slots.drop_last()) + (if slots.last().object is Empty { 0nat } else { 1nat })
    }
}

/// `i` is the lowest free slot.
pub open spec fn is_first_empty(slots: Seq<Capability>, i: int) -> bool {
    &&& 0 <= i < slots.len()
    &&& slots[i].object is Empty
    &&& forall|k: int| 0 <= k < i ==> !(#[trigger] slots[k].object is Empty)
}

/// A node of `CNODE_SLOTS` capability slots.
pub struct CNode {
    pub slots: [Capability; 64],
}

impl CNode {
    /// A node with every slot free.
    pub fn new() -> (r: Self)
        ensures
            forall|i: int| 0 <= i < CNODE_SLOTS ==> #[trigger] r.slots@[i] == Capability::empty_spec(),
    {
        CNode { slots: [Capability { object: CapObject::Empty, rights: CapRights(0) }; 64] }
    }

    /// The capability in slot `index`; `None` when out of range or free.
    pub fn lookup(&self, index: usize) -> (r: Option<&Capability>)
        ensures
            match r {
                Some(c) => index < CNODE_SLOTS && *c == self.slots@[index as int] && !(c.object is Empty),
                None => index >= CNODE_SLOTS || self.slots@[index as int].object is Empty,
            },
    {
        if index >= CNODE_SLOTS {
            return None;
        }
        let cap = &self.slots[index];
        if cap.is_empty() {
            None
        } else {
            Some(cap)
        }
    }

    /// Stores `cap` in the lowest free slot and returns its index; `None`
    /// when the node is full.
    pub fn insert(&mut self, cap: Capability) -> (r: Option<usize>)
        ensures
            match r {
                Some(i) => {
                    &&& is_first_empty(old(self).slots@, i as int)
                    &&& final(self).slots@ == old(self).slots@.update(i as int, cap)
                },
                None => {
                    &&& forall|i: int| 0 <= i < CNODE_SLOTS ==> !(#[trigger] old(self).slots@[i].object is Empty)
                    &&& final(self).slots@ == old(self).slots@
                },
            },
    {
        let mut i: usize = 0;
        while i < CNODE_SLOTS
            invariant
                0 <= i <= CNODE_SLOTS,
                self.slots@ == old(self).slots@,
                forall|k: int| 0 <= k < i ==> !(#[trigger] self.slots@[k].object is Empty),
            decreases CNODE_SLOTS - i,
        {
            if self.slots[i].is_empty() {
                self.slots[i] = cap;
                return Some(i);
            }
            i = i + 1;
        }
        None
    }

    /// Stores `cap` in slot `index`; fails when out of range or taken.
    pub fn insert_at(&mut self, index: usize, cap: Capability) -> (r: Result<(), ()>)
        ensures
            (r is Ok) == (index < CNODE_SLOTS && old(self).slots@[index as int].object is Empty),
            r is Ok ==> final(self).slots@ == old(self).slots@.update(index as int, cap),
            r is Err ==> final(self).slots@ == old(self).slots@,
    {
        if index >= CNODE_SLOTS {
            return Err(());
        }
        if !self.slots[index].is_empty() {
            return Err(());
        }
        self.slots[index] = cap;
        Ok(())
    }

    /// Empties slot `index` and returns what it held; `None` when out of
    /// range or already free.
    pub fn remove(&mut self, index: usize) -> (r: Option<Capability>)
        ensures
            match r {
                Some(c) => {
                    &&& index < CNODE_SLOTS
                    &&& c == old(self).slots@[index as int]
                    &&& !(c.object is Empty)
                    &&& final(self).slots@ == old(self).slots@.update(index as int, Capability::empty_spec())
                },
                None => {
                    &&& (index >= CNODE_SLOTS || old(self).slots@[index as int].object is Empty)
                    &&& final(self).slots@ == old(self).slots@
                },
            },
    {
        if index >= CNODE_SLOTS {
            return None;
        }
        let cap = self.slots[index];
        if cap.is_empty() {
            return None;
        }
        self.slots[index] = Capability { object: CapObject::Empty, rights: CapRights(0) };
        Some(cap)
    }

    /// Number of slots holding an object.
    pub fn count(&self) -> (r: usize)
        ensures
            r == count_filled(self.slots@),
    {
        let mut n: usize = 0;
        let mut i: usize = 0;
        while i < CNODE_SLOTS
            invariant
                0 <= i <= CNODE_SLOTS,
                self.slots@.len() == CNODE_SLOTS,
                n == count_filled(self.slots@.subrange(0, i as int)),
                n <= i,
            decreases CNODE_SLOTS - i,
        {
            proof {
                assert(self.slots@.subrange(0, i + 1).drop_last() =~= self.slots@.subrange(0, i as int));
            }
            if !self.slots[i].is_empty() {
                n = n + 1;
            }
            i = i + 1;
        }
        proof { assert(self.slots@.subrange(0, CNODE_SLOTS as int) =~= self.slots@); }
        n
    }
}

/// Looking up a slot right after storing a capability there finds it.
pub proof fn lemma_lookup_after_insert(slots: Seq<Capability>, i: int, cap: Capability)
    requires
        0 <= i < slots.len(),
    ensures
        slots.update(i, cap)[i] == cap,
        forall|k: int| 0 <= k < slots.len() && k != i ==> #[trigger] slots.update(i, cap)[k] == slots[k],
{
}

/// Storing a capability in a free slot and removing it again restores the node.
pub proof fn lemma_insert_remove(slots: Seq<Capability>, i: int, cap: Capability)
    requires
        0 <= i < slots.len(),
        slots[i] == Capability::empty_spec(),
    ensures
        slots.update(i, cap).update(i, Capability::empty_spec()) == slots,
{
    assert(slots.update(i, cap).update(i, Capability::empty_spec()) =~= slots);
}

/// However capabilities were inserted and removed, a node never holds
/// more of them than it has slots.
pub proof fn lemma_count_at_most_slots(slots: Seq<Capability>)
    ensures
        count_filled(slots) <= slots.len(),
    decreases slots.len(),
{
    if slots.len() > 0 {
        lemma_count_at_most_slots(slots.drop_last());
    }
}

/// A node holds at most `CNODE_SLOTS` capabilities.
pub proof fn lemma_node_count_bound(node: &CNode)
    ensures
        count_filled(node.slots@) <= CNODE_SLOTS,
{
    lemma_count_at_most_slots(node.slots@);
}

/// Filling a free slot adds one to the count.
pub proof fn lemma_count_filled_update(slots: Seq<Capability>, i: int, c: Capability)
    requires
        0 <= i < slots.len(),
    ensures
        count_filled(slots.update(i, c)) + (if slots[i].object is Empty { 0int } else { 1int })
            == count_filled(slots) + (if c.object is Empty { 0int } else { 1int }),
    decreases slots.len(),
{
    let t = slots.update(i, c);
    if i == slots.len() - 1 {
        assert(t.drop_last() =~= slots.drop_last());
    } else {
        assert(t.drop_last() =~= slots.drop_last().update(i, c));
        lemma_count_filled_update(slots.drop_last(), i, c);
    }
}

} // verus!
