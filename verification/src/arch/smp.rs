//! Per-core state and the bring-up plan for application processors.

use vstd::prelude::*;
use crate::arch::gdt::{Gdt, Selectors};
use crate::arch::tss::{Tss, KERNEL_STACK_SIZE, IST_STACK_SIZE};

verus! {

/// Cores the kernel runs on at most.
pub const MAX_CORES: usize = 4;

/// One core's private state: its ids, TSS, GDT and selectors, and where
/// its kernel and interrupt stacks start.
pub struct CoreLocal {
    pub core_id: u32,
    pub apic_id: u32,
    tss: Tss,
    gdt: Gdt,
    selectors: Selectors,
    kernel_stack: u64,
    ist_stack: u64,
}

impl CoreLocal {
    /// The core's index.
    pub closed spec fn spec_core_id(&self) -> u32 {
        self.core_id
    }

    /// The core's local APIC id.
    pub closed spec fn spec_apic_id(&self) -> u32 {
        self.apic_id
    }

    /// Start of the kernel stack.
    pub closed spec fn spec_kernel_stack(&self) -> u64 {
        self.kernel_stack
    }

    /// Start of the interrupt stack.
    pub closed spec fn spec_ist_stack(&self) -> u64 {
        self.ist_stack
    }

    /// The TSS.
    pub closed spec fn spec_tss(&self) -> &Tss {
        &self.tss
    }

    /// The GDT.
    pub closed spec fn spec_gdt(&self) -> &Gdt {
        &self.gdt
    }

    /// The selectors.
    pub closed spec fn spec_selectors(&self) -> Selectors {
        self.selectors
    }

    /// A core record with ids 0 and the given stacks, before `init`.
    pub fn zeroed(kernel_stack: u64, ist_stack: u64) -> (r: Self)
        ensures
            r.spec_core_id() == 0,
            r.spec_apic_id() == 0,
            r.spec_kernel_stack() == kernel_stack,
            r.spec_ist_stack() == ist_stack,
    {
        let (gdt, selectors) = Gdt::new(0);
        CoreLocal { core_id: 0, apic_id: 0, tss: Tss::new(), gdt, selectors, kernel_stack, ist_stack }
    }

    /// Sets the core up: its ids, RSP0 and IST1 at the tops of its stacks,
    /// and a GDT whose TSS descriptor points at `tss_addr`, where this
    /// record's TSS lives.
    pub fn init(&mut self, core_id: u32, apic_id: u32, tss_addr: u64)
        requires
            old(self).spec_kernel_stack() + KERNEL_STACK_SIZE <= u64::MAX,
            old(self).spec_ist_stack() + IST_STACK_SIZE <= u64::MAX,
        ensures
            final(self).spec_core_id() == core_id,
            final(self).spec_apic_id() == apic_id,
            final(self).spec_kernel_stack() == old(self).spec_kernel_stack(),
            final(self).spec_ist_stack() == old(self).spec_ist_stack(),
            final(self).spec_tss().spec_rsp()[0] == old(self).spec_kernel_stack() + KERNEL_STACK_SIZE,
            final(self).spec_tss().spec_ist()[0] == old(self).spec_ist_stack() + IST_STACK_SIZE,
            final(self).spec_selectors() == (Selectors { kernel_code: 0x08, kernel_data: 0x10, user_data: 0x1B, user_code: 0x23, tss: 0x28 }),
    {
        proof { self.tss.lemma_slot_counts(); }
        self.core_id = core_id;
        self.apic_id = apic_id;
        self.tss.init(self.ist_stack, self.kernel_stack);
        let (gdt, selectors) = Gdt::new(tss_addr);
        self.gdt = gdt;
        self.selectors = selectors;
    }

    /// The top of this core's kernel stack.
    pub fn kernel_rsp0(&self) -> (r: u64)
        requires
            self.spec_kernel_stack() + KERNEL_STACK_SIZE <= u64::MAX,
        ensures
            r == self.spec_kernel_stack() + KERNEL_STACK_SIZE,
    {
        self.kernel_stack + KERNEL_STACK_SIZE
    }
}

/// System-wide bring-up state.
pub struct SmpState {
    core_count: u32,
    ap_go: bool,
}

impl SmpState {
    /// Cores online.
    pub closed spec fn spec_core_count(&self) -> u32 {
        self.core_count
    }

    /// Whether application processors may start scheduling.
    pub closed spec fn spec_ap_go(&self) -> bool {
        self.ap_go
    }

    /// One core (the bootstrap processor), application processors held.
    pub fn new() -> (r: Self)
        ensures
            r.spec_core_count() == 1,
            !r.spec_ap_go(),
    {
        SmpState { core_count: 1, ap_go: false }
    }
}

/// Cores online.
pub fn core_count(s: &SmpState) -> (r: u32)
    ensures
        r == s.spec_core_count(),
{
    s.core_count
}

/// Lets the application processors start scheduling.
pub fn signal_ap_go(s: &mut SmpState)
    ensures
        final(s).spec_ap_go(),
        final(s).spec_core_count() == old(s).spec_core_count(),
{
    s.ap_go = true;
}

/// The application processors to wake, in firmware order, skipping the
/// bootstrap processor: each gets the next core index from 1, up to
/// `MAX_CORES - 1` of them. Returns the core count to record and the
/// (core index, APIC id) pairs.
pub fn plan_aps(s: &mut SmpState, cpu_apic_ids: &[u32], bsp_apic_id: u32) -> (r: Vec<(u32, u32)>)
    ensures
        final(s).spec_core_count() == if cpu_apic_ids@.len() < MAX_CORES { cpu_apic_ids@.len() as int } else { MAX_CORES as int },
        final(s).spec_ap_go() == old(s).spec_ap_go(),
        r@.len() < MAX_CORES,
        forall|k: int| 0 <= k < r@.len() ==> (#[trigger] r@[k]).0 == k + 1,
        forall|k: int| 0 <= k < r@.len() ==> (#[trigger] r@[k]).1 != bsp_apic_id
            && cpu_apic_ids@.contains(r@[k].1),
{
    let n = cpu_apic_ids.len();
    let total: usize = if n < MAX_CORES { n } else { MAX_CORES };
    s.core_count = total as u32;
    let mut out: Vec<(u32, u32)> = Vec::new();
    let mut ap_index: u32 = 1;
    let mut i: usize = 0;
    while i < n
        invariant
            0 <= i <= n,
            n == cpu_apic_ids@.len(),
            1 <= ap_index <= MAX_CORES,
            out@.len() == ap_index - 1,
            forall|k: int| 0 <= k < out@.len() ==> (#[trigger] out@[k]).0 == k + 1,
            forall|k: int| 0 <= k < out@.len() ==> (#[trigger] out@[k]).1 != bsp_apic_id
                && cpu_apic_ids@.contains(out@[k].1),
        decreases n - i,
    {
        let id = cpu_apic_ids[i];
        if id != bsp_apic_id {
            if ap_index as usize >= MAX_CORES {
                break;
            }
            proof { assert(cpu_apic_ids@[i as int] == id); }
            out.push((ap_index, id));
            ap_index = ap_index + 1;
        }
        i = i + 1;
    }
    out
}

/// The core index of the application processor with APIC id `lapic_id`
/// among `core_apic_ids` (index 0, the bootstrap processor, is never
/// matched); 0 when none matches.
pub fn find_core(core_apic_ids: &[u32], lapic_id: u32) -> (r: usize)
    ensures
        r == 0 || (1 <= r < core_apic_ids@.len() && core_apic_ids@[r as int] == lapic_id
            && forall|k: int| 1 <= k < r ==> core_apic_ids@[k] != lapic_id),
        r == 0 ==> forall|k: int| 1 <= k < core_apic_ids@.len() && k < MAX_CORES ==> core_apic_ids@[k] != lapic_id,
        r < MAX_CORES,
{
    let n = core_apic_ids.len();
    let mut i: usize = 1;
    while i < MAX_CORES && i < n
        invariant
            1 <= i <= MAX_CORES,
            n == core_apic_ids@.len(),
            forall|k: int| 1 <= k < i && k < n ==> core_apic_ids@[k] != lapic_id,
        decreases MAX_CORES - i,
    {
        if core_apic_ids[i] == lapic_id {
            return i;
        }
        i = i + 1;
    }
    0
}

} // verus!
