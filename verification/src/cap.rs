//! Per-actor capability tables.
//!
//! A capability names a kernel object and the permissions its holder has
//! on it. An actor refers to a capability by a handle: the slot index in
//! the low 32 bits and the slot's generation in the high 32 bits. Freeing
//! a slot bumps its generation, so handles to a freed slot go stale.

pub mod perms;
pub mod cnode;

use vstd::prelude::*;
use crate::cap::perms::{READ, WRITE, EXEC, GRANT, MAP};
use crate::numfmt::{digits, push_digits};
use vstd::string::StringExecFns;

verus! {

/// The kernel object a capability refers to.
#[derive(Clone, Copy, PartialEq, Eq, Structural, Debug)]
pub enum ObjectKind {
    /// No object: the slot is free.
    Empty,
    /// Physical memory: `pages` pages from `phys`.
    Memory { phys: u64, pages: usize },
    /// An interrupt line.
    IrqLine { irq: u8 },
    /// A range of I/O ports.
    IoPort { base: u16, count: u16 },
    /// The kernel log.
    Log,
    /// An IPC endpoint of another actor.
    Endpoint { target_actor_id: u64 },
}

impl ObjectKind {
    /// The slot holds no object.
    pub fn is_empty(&self) -> (r: bool)
        ensures
            r == (*self is Empty),
    {
        match self {
            ObjectKind::Empty => true,
            _ => false,
        }
    }
}

/// A capability: object, permission bits and the generation of its slot.
#[derive(Clone, Copy, PartialEq, Eq, Structural, Debug)]
pub struct Capability {
    pub object: ObjectKind,
    pub perms: u32,
    pub generation: u32,
}

impl Capability {
    /// An empty capability of the given generation.
    pub fn empty(generation: u32) -> (r: Self)
        ensures
            r.object is Empty,
            r.perms == 0,
            r.generation == generation,
    {
        Capability { object: ObjectKind::Empty, perms: 0, generation }
    }

    /// Every bit of `required` is among the capability's permissions.
    pub fn has_perms(&self, required: u32) -> (r: bool)
        ensures
            r == (self.perms & required == required),
    {
        self.perms & required == required
    }
}

/// 2^32: the generation's weight in a handle.
pub open spec fn gen_unit() -> int {
    0x1_0000_0000
}

/// The handle of slot `index` at generation `generation`.
pub open spec fn spec_handle(generation: u32, index: int) -> int {
    generation * gen_unit() + index
}

pub proof fn lemma_handle_bits(g: u64, i: u64, h: u64)
    by (bit_vector)
    requires
        g < 0x1_0000_0000,
    ensures
        i < 0x1_0000_0000 ==> (g << 32) | i == g * 0x1_0000_0000 + i,
        h >> 32 == h / 0x1_0000_0000,
        h & 0xFFFF_FFFF == h % 0x1_0000_0000,
{
}

/// Packs a generation and a slot index into a handle.
pub fn handle_pack(generation: u32, index: usize) -> (r: u64)
    ensures
        r == ((generation as u64) << 32u64) | (index as u64),
        index < gen_unit() ==> r == spec_handle(generation, index as int),
{
    proof { lemma_handle_bits(generation as u64, index as u64, 0); }
    ((generation as u64) << 32u64) | (index as u64)
}

/// Splits a handle into its generation (high half) and index (low half).
pub fn handle_unpack(handle: u64) -> (r: (u32, usize))
    ensures
        r.0 == handle as int / gen_unit(),
        r.1 == handle as int % gen_unit(),
{
    proof { lemma_handle_bits(0, 0, handle); }
    let generation = (handle >> 32u64) as u32;
    let index = (handle & 0xFFFF_FFFF) as usize;
    (generation, index)
}

/// Packing then unpacking gives back the generation and the index.
pub proof fn lemma_handle_roundtrip(generation: u32, index: int)
    requires
        0 <= index < gen_unit(),
    ensures
        spec_handle(generation, index) / gen_unit() == generation,
        spec_handle(generation, index) % gen_unit() == index,
{
    assert(spec_handle(generation, index) == generation * gen_unit() + index);
}

/// Slots per capability table.
pub const CAP_TABLE_SIZE: usize = 64;

/// The capability a handle names in `slots`: the slot must exist, hold an
/// object and carry the handle's generation.
pub open spec fn spec_lookup(slots: Seq<Capability>, handle: u64) -> Option<Capability> {
    let g = handle as int / gen_unit();
    let i = handle as int % gen_unit();
    if i < slots.len() && slots[i].generation == g && !(slots[i].object is Empty) {
        Some(slots[i])
    } else {
        None
    }
}

/// `i` is the lowest free slot.
pub open spec fn is_first_free(slots: Seq<Capability>, i: int) -> bool {
    &&& 0 <= i < slots.len()
    &&& slots[i].object is Empty
    &&& forall|k: int| 0 <= k < i ==> !(#[trigger] slots[k].object is Empty)
}

/// Number of slots holding an object.
pub open spec fn count_live(slots: Seq<Capability>) -> nat
    decreases slots.len(),
{
    if slots.len() == 0 {
        0
    } else {
        count_live(slots.drop_last()) + (if slots.last().object is Empty { 0nat } else { 1nat })
    }
}

/// Filling a free slot adds one to the live count; freeing a live one
/// takes one off.
pub proof fn lemma_count_live_update(slots: Seq<Capability>, i: int, c: Capability)
    requires
        0 <= i < slots.len(),
    ensures
        count_live(slots.update(i, c)) + (if slots[i].object is Empty { 0int } else { 1int })
            == count_live(slots) + (if c.object is Empty { 0int } else { 1int }),
    decreases slots.len(),
{
    let t = slots.update(i, c);
    if i == slots.len() - 1 {
        assert(t.drop_last() =~= slots.drop_last());
    } else {
        assert(t.drop_last() =~= slots.drop_last().update(i, c));
        lemma_count_live_update(slots.drop_last(), i, c);
    }
}

/// A fixed table of `CAP_TABLE_SIZE` capability slots.
pub struct CapTable {
    slots: [Capability; 64],
}

impl CapTable {
    /// The slots.
    pub closed spec fn slots(&self) -> Seq<Capability> {
        self.slots@
    }

    /// A table whose slots are all free, at generation 0.
    pub fn new() -> (r: Self)
        ensures
            r.slots().len() == CAP_TABLE_SIZE,
            forall|i: int| 0 <= i < CAP_TABLE_SIZE ==> #[trigger] r.slots()[i] == Capability::empty_spec(0),
    {
        CapTable { slots: [Capability { object: ObjectKind::Empty, perms: 0, generation: 0 }; 64] }
    }

    /// Puts `object` with `perms` into the lowest free slot and returns its
    /// handle; `None` when every slot holds an object.
    pub fn insert(&mut self, object: ObjectKind, perms: u32) -> (r: Option<u64>)
        ensures
            final(self).slots().len() == CAP_TABLE_SIZE,
            match r {
                Some(h) => exists|i: int| {
                    &&& #[trigger] is_first_free(old(self).slots(), i)
                    &&& h == spec_handle(old(self).slots()[i].generation, i)
                    &&& final(self).slots() == old(self).slots().update(i, Capability {
                        object,
                        perms,
                        generation: old(self).slots()[i].generation,
                    })
                },
                None => {
                    &&& forall|i: int| 0 <= i < CAP_TABLE_SIZE ==> !(#[trigger] old(self).slots()[i].object is Empty)
                    &&& final(self).slots() == old(self).slots()
                },
            },
    {
        let mut i: usize = 0;
        while i < CAP_TABLE_SIZE
            invariant
                0 <= i <= CAP_TABLE_SIZE,
                self.slots@ == old(self).slots@,
                forall|k: int| 0 <= k < i ==> !(#[trigger] self.slots@[k].object is Empty),
            decreases CAP_TABLE_SIZE - i,
        {
            let slot = self.slots[i];
            if slot.object.is_empty() {
                let generation = slot.generation;
                self.slots[i] = Capability { object, perms, generation };
                proof { assert(is_first_free(old(self).slots(), i as int)); }
                return Some(handle_pack(generation, i));
            }
            i = i + 1;
        }
        None
    }

    /// Puts `object` with `perms` into slot `index` and returns its handle;
    /// `None` when the index is out of range or the slot is taken.
    pub fn insert_at(&mut self, index: usize, object: ObjectKind, perms: u32) -> (r: Option<u64>)
        ensures
            final(self).slots().len() == CAP_TABLE_SIZE,
            (r is Some) == (index < CAP_TABLE_SIZE && old(self).slots()[index as int].object is Empty),
            r is Some ==> {
                &&& r == Some(spec_handle(old(self).slots()[index as int].generation, index as int) as u64)
                &&& final(self).slots() == old(self).slots().update(index as int, Capability {
                    object,
                    perms,
                    generation: old(self).slots()[index as int].generation,
                })
            },
            r is None ==> final(self).slots() == old(self).slots(),
    {
        if index >= CAP_TABLE_SIZE {
            return None;
        }
        let slot = self.slots[index];
        if !slot.object.is_empty() {
            return None;
        }
        let generation = slot.generation;
        self.slots[index] = Capability { object, perms, generation };
        Some(handle_pack(generation, index))
    }

    /// The capability `handle` names; `None` for an out-of-range index, a
    /// free slot or a stale generation.
    pub fn get(&self, handle: u64) -> (r: Option<&Capability>)
        ensures
            match r {
                Some(c) => spec_lookup(self.slots(), handle) == Some(*c),
                None => spec_lookup(self.slots(), handle) is None,
            },
    {
        let (generation, index) = handle_unpack(handle);
        if index >= CAP_TABLE_SIZE {
            return None;
        }
        let slot = &self.slots[index];
        if slot.generation != generation || slot.object.is_empty() {
            return None;
        }
        Some(slot)
    }

    /// Frees the slot `handle` names and returns what it held; the slot's
    /// generation moves on (wrapping), so the handle goes stale.
    pub fn remove(&mut self, handle: u64) -> (r: Option<Capability>)
        ensures
            final(self).slots().len() == CAP_TABLE_SIZE,
            r == spec_lookup(old(self).slots(), handle),
            match r {
                Some(c) => final(self).slots() == old(self).slots().update(
                    handle as int % gen_unit(),
                    Capability::empty_spec(if c.generation == u32::MAX { 0 } else { (c.generation + 1) as u32 }),
                ),
                None => final(self).slots() == old(self).slots(),
            },
    {
        let (generation, index) = handle_unpack(handle);
        if index >= CAP_TABLE_SIZE {
            return None;
        }
        let slot = self.slots[index];
        if slot.generation != generation || slot.object.is_empty() {
            return None;
        }
        let next = generation.wrapping_add(1);
        self.slots[index] = Capability { object: ObjectKind::Empty, perms: 0, generation: next };
        Some(slot)
    }

    /// Number of slots holding an object.
    pub fn count(&self) -> (r: usize)
        ensures
            r == count_live(self.slots()),
    {
        let mut n: usize = 0;
        let mut i: usize = 0;
        while i < CAP_TABLE_SIZE
            invariant
                0 <= i <= CAP_TABLE_SIZE,
                self.slots@.len() == CAP_TABLE_SIZE,
                n == count_live(self.slots@.subrange(0, i as int)),
                n <= i,
            decreases CAP_TABLE_SIZE - i,
        {
            proof {
                assert(self.slots@.subrange(0, i + 1).drop_last() =~= self.slots@.subrange(0, i as int));
            }
            if !self.slots[i].object.is_empty() {
                n = n + 1;
            }
            i = i + 1;
        }
        proof { assert(self.slots@.subrange(0, CAP_TABLE_SIZE as int) =~= self.slots@); }
        n
    }

    /// One entry per used slot, in slot order, separated by spaces: the
    /// slot index in brackets, the object, and the permission letters.
    pub fn summary(&self) -> (r: String)
        ensures
            r@ == summary_upto(self.slots(), CAP_TABLE_SIZE as int),
    {
        let mut out = String::from_str("");
        let mut any = false;
        let mut i: usize = 0;
        proof { reveal_strlit(""); }
        while i < CAP_TABLE_SIZE
            invariant
                0 <= i <= CAP_TABLE_SIZE,
                self.slots@.len() == CAP_TABLE_SIZE,
                out@ == summary_upto(self.slots(), i as int),
                any == (out@.len() > 0),
            decreases CAP_TABLE_SIZE - i,
        {
            let c = self.slots[i];
            if !c.object.is_empty() {
                if any {
                    out.append(" ");
                }
                let ghost before = out@;
                push_slot_text(&mut out, i, &c);
                proof {
                    lemma_slot_text_nonempty(i as int, c);
                    assert(out@.len() > 0);
                }
                any = true;
            }
            i = i + 1;
        }
        out
    }
}

/// The text of an object in a summary.
pub open spec fn kind_text(o: ObjectKind) -> Seq<char> {
    match o {
        ObjectKind::Empty => Seq::empty(),
        ObjectKind::Memory { pages, .. } => "Mem("@ + digits(pages as nat, 10) + "pg)"@,
        ObjectKind::IrqLine { irq } => "IRQ"@ + digits(irq as nat, 10),
        ObjectKind::IoPort { base, count } => "IO(0x"@ + digits(base as nat, 16) + "+"@ + digits(count as nat, 10) + ")"@,
        ObjectKind::Log => "Log"@,
        ObjectKind::Endpoint { target_actor_id } => "EP("@ + digits(target_actor_id as nat, 10) + ")"@,
    }
}

/// One permission letter, or `-` without the permission.
pub open spec fn perm_letter(p: u32, bit: u32, letter: Seq<char>) -> Seq<char> {
    if p & bit != 0 { letter } else { "-"@ }
}

/// The permission letters of `p`: R, W, X, G, M.
pub open spec fn perm_flags(p: u32) -> Seq<char> {
    perm_letter(p, READ, "R"@) + perm_letter(p, WRITE, "W"@) + perm_letter(p, EXEC, "X"@)
        + perm_letter(p, GRANT, "G"@) + perm_letter(p, MAP, "M"@)
}

/// The summary entry of slot `i` holding `c`.
pub open spec fn slot_text(i: int, c: Capability) -> Seq<char> {
    "["@ + digits(i as nat, 10) + "]"@ + kind_text(c.object) + "("@ + perm_flags(c.perms) + ")"@
}

/// The summary of the first `n` slots.
pub open spec fn summary_upto(slots: Seq<Capability>, n: int) -> Seq<char>
    decreases n,
{
    if n <= 0 {
        Seq::empty()
    } else {
        let prev = summary_upto(slots, n - 1);
        if slots[n - 1].object is Empty {
            prev
        } else if prev.len() == 0 {
            slot_text(n - 1, slots[n - 1])
        } else {
            prev + " "@ + slot_text(n - 1, slots[n - 1])
        }
    }
}

proof fn lemma_slot_text_nonempty(i: int, c: Capability)
    ensures
        slot_text(i, c).len() > 0,
{
    reveal_strlit("[");
}

/// Appends a permission letter, or `-`.
fn push_perm(out: &mut String, p: u32, bit: u32, letter: &str)
    ensures
        final(out)@ == old(out)@ + perm_letter(p, bit, letter@),
{
    if p & bit != 0 {
        out.append(letter);
    } else {
        out.append("-");
    }
}

/// Appends the text of an object.
fn push_kind_text(out: &mut String, o: ObjectKind)
    ensures
        final(out)@ == old(out)@ + kind_text(o),
{
    match o {
        ObjectKind::Empty => {},
        ObjectKind::Memory { pages, .. } => {
            out.append("Mem(");
            push_digits(out, pages as u64, 10);
            out.append("pg)");
        },
        ObjectKind::IrqLine { irq } => {
            out.append("IRQ");
            push_digits(out, irq as u64, 10);
        },
        ObjectKind::IoPort { base, count } => {
            out.append("IO(0x");
            push_digits(out, base as u64, 16);
            out.append("+");
            push_digits(out, count as u64, 10);
            out.append(")");
        },
        ObjectKind::Log => {
            out.append("Log");
        },
        ObjectKind::Endpoint { target_actor_id } => {
            out.append("EP(");
            push_digits(out, target_actor_id, 10);
            out.append(")");
        },
    }
    proof { assert(out@ =~= old(out)@ + kind_text(o)); }
}

/// Appends the permission letters of `p`.
fn push_perm_flags(out: &mut String, p: u32)
    ensures
        final(out)@ == old(out)@ + perm_flags(p),
{
    push_perm(out, p, READ, "R");
    push_perm(out, p, WRITE, "W");
    push_perm(out, p, EXEC, "X");
    push_perm(out, p, GRANT, "G");
    push_perm(out, p, MAP, "M");
    proof { assert(out@ =~= old(out)@ + perm_flags(p)); }
}

/// Appends the summary entry of slot `i`.
fn push_slot_text(out: &mut String, i: usize, c: &Capability)
    ensures
        final(out)@ == old(out)@ + slot_text(i as int, *c),
{
    out.append("[");
    push_digits(out, i as u64, 10);
    out.append("]");
    push_kind_text(out, c.object);
    out.append("(");
    push_perm_flags(out, c.perms);
    out.append(")");
    proof {
        assert(out@ =~= old(out)@ + slot_text(i as int, *c));
    }
}

impl Capability {
    /// The empty capability of a generation, as a value.
    pub open spec fn empty_spec(generation: u32) -> Capability {
        Capability { object: ObjectKind::Empty, perms: 0, generation }
    }
}

/// A capability put into free slot `i` can be looked up by the handle
/// the insertion returned, and handles to other slots see what they saw.
pub proof fn lemma_lookup_after_insert(slots: Seq<Capability>, i: int, c: Capability, other: u64)
    requires
        0 <= i < slots.len() <= gen_unit(),
        slots[i].object is Empty,
        c.generation == slots[i].generation,
        !(c.object is Empty),
        other as int % gen_unit() != i,
    ensures
        spec_lookup(slots.update(i, c), spec_handle(c.generation, i) as u64) == Some(c),
        spec_lookup(slots.update(i, c), other) == spec_lookup(slots, other),
{
    lemma_handle_roundtrip(c.generation, i);
    assert(spec_handle(c.generation, i) <= 0xFFFF_FFFF * gen_unit() + gen_unit());
}

/// Once a capability is removed, the handle that named it is stale: it
/// no longer looks anything up, even after the slot is filled again.
pub proof fn lemma_lookup_after_remove(slots: Seq<Capability>, handle: u64, refill: ObjectKind, perms: u32)
    requires
        spec_lookup(slots, handle) is Some,
    ensures
        ({
            let c = spec_lookup(slots, handle)->0;
            let i = handle as int % gen_unit();
            let g = if c.generation == u32::MAX { 0u32 } else { (c.generation + 1) as u32 };
            let freed = slots.update(i, Capability::empty_spec(g));
            &&& spec_lookup(freed, handle) is None
            &&& spec_lookup(freed.update(i, Capability { object: refill, perms, generation: g }), handle) is None
        }),
{
}

} // verus!
