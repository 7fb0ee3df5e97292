//! The 64-bit task state segment.

use vstd::prelude::*;

verus! {

/// Size of the double-fault (IST1) stack.
pub const IST_STACK_SIZE: u64 = 16384;

/// Size of the ring-0 stack used on entry from ring 3.
pub const KERNEL_STACK_SIZE: u64 = 16384;

/// Size in bytes of the task state segment.
pub const TSS_SIZE: u16 = 104;

/// The task state segment: the stacks the CPU switches to.
pub struct Tss {
    reserved0: u32,
    /// RSP0..RSP2: stacks for entry into rings 0..2.
    pub rsp: [u64; 3],
    reserved1: u64,
    /// IST1..IST7: interrupt stacks.
    pub ist: [u64; 7],
    reserved2: u64,
    reserved3: u16,
    /// Offset of the I/O permission bitmap from the segment's base.
    pub iomap_base: u16,
}

impl Tss {
    /// The RSP0..RSP2 slots.
    pub closed spec fn spec_rsp(&self) -> Seq<u64> {
        self.rsp@
    }

    /// The IST1..IST7 slots.
    pub closed spec fn spec_ist(&self) -> Seq<u64> {
        self.ist@
    }

    /// The I/O bitmap offset.
    pub closed spec fn spec_iomap_base(&self) -> u16 {
        self.iomap_base
    }

    /// Three RSP slots and seven IST slots.
    pub proof fn lemma_slot_counts(&self)
        ensures
            self.spec_rsp().len() == 3,
            self.spec_ist().len() == 7,
    {
    }

    /// A segment with every field zeroed.
    pub fn new() -> (r: Self)
        ensures
            r.spec_rsp() == seq![0u64, 0u64, 0u64],
            r.spec_ist() == seq![0u64, 0u64, 0u64, 0u64, 0u64, 0u64, 0u64],
            r.spec_iomap_base() == 0,
    {
        let t = Tss {
            reserved0: 0,
            rsp: [0, 0, 0],
            reserved1: 0,
            ist: [0, 0, 0, 0, 0, 0, 0],
            reserved2: 0,
            reserved3: 0,
            iomap_base: 0,
        };
        proof {
            assert(t.rsp@ =~= seq![0u64, 0u64, 0u64]);
            assert(t.ist@ =~= seq![0u64, 0u64, 0u64, 0u64, 0u64, 0u64, 0u64]);
        }
        t
    }

    /// Points IST1 at the top of the double-fault stack and RSP0 at the
    /// top of the kernel stack, given where the two stacks start.
    pub fn init(&mut self, double_fault_stack: u64, kernel_stack: u64)
        requires
            double_fault_stack + IST_STACK_SIZE <= u64::MAX,
            kernel_stack + KERNEL_STACK_SIZE <= u64::MAX,
        ensures
            final(self).spec_ist() == old(self).spec_ist().update(0, (double_fault_stack + IST_STACK_SIZE) as u64),
            final(self).spec_rsp() == old(self).spec_rsp().update(0, (kernel_stack + KERNEL_STACK_SIZE) as u64),
            final(self).spec_iomap_base() == old(self).spec_iomap_base(),
    {
        self.ist[0] = double_fault_stack + IST_STACK_SIZE;
        self.rsp[0] = kernel_stack + KERNEL_STACK_SIZE;
    }

    /// Points RSP0 at `rsp0`, the top of the kernel stack of the task
    /// about to run, so that entries from ring 3 land on it.
    pub fn set_rsp0(&mut self, rsp0: u64)
        ensures
            final(self).spec_rsp() == old(self).spec_rsp().update(0, rsp0),
            final(self).spec_ist() == old(self).spec_ist(),
            final(self).spec_iomap_base() == old(self).spec_iomap_base(),
    {
        self.rsp[0] = rsp0;
    }

    /// The top of the kernel stack that starts at `kernel_stack`.
    pub fn kernel_rsp0(kernel_stack: u64) -> (r: u64)
        requires
            kernel_stack + KERNEL_STACK_SIZE <= u64::MAX,
        ensures
            r == kernel_stack + KERNEL_STACK_SIZE,
    {
        kernel_stack + KERNEL_STACK_SIZE
    }
}

} // verus!
