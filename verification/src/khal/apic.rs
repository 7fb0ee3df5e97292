//! Local APIC values used by the early timer set-up.

use vstd::prelude::*;
use crate::arch::x86_64::ioapic::RegWrite;

verus! {

/// Timer divide configuration register.
pub const APIC_REG_TIMER_DIV: u32 = 0x3E0;
/// LVT timer register.
pub const APIC_REG_LVT_TIMER: u32 = 0x320;
/// Timer initial count register.
pub const APIC_REG_TIMER_INIT: u32 = 0x380;
/// LVT timer mode: periodic.
pub const TIMER_PERIODIC: u32 = 0x2_0000;
/// APIC global enable bit of the APIC base MSR.
pub const APIC_BASE_ENABLE: u64 = 0x800;

/// Timer clock divisors.
#[derive(Clone, Copy, PartialEq, Eq, Structural, Debug)]
pub enum TimerDivide {
    By1,
    By2,
    By4,
    By8,
    By16,
    By32,
    By64,
    By128,
}

impl TimerDivide {
    /// The divide-configuration encoding.
    pub open spec fn spec_bits(self) -> u32 {
        match self {
            TimerDivide::By1 => 0xB,
            TimerDivide::By2 => 0x0,
            TimerDivide::By4 => 0x1,
            TimerDivide::By8 => 0x2,
            TimerDivide::By16 => 0x3,
            TimerDivide::By32 => 0x8,
            TimerDivide::By64 => 0x9,
            TimerDivide::By128 => 0xA,
        }
    }

    /// The divide-configuration encoding.
    pub fn bits(self) -> (r: u32)
        ensures
            r == self.spec_bits(),
    {
        match self {
            TimerDivide::By1 => 0xB,
            TimerDivide::By2 => 0x0,
            TimerDivide::By4 => 0x1,
            TimerDivide::By8 => 0x2,
            TimerDivide::By16 => 0x3,
            TimerDivide::By32 => 0x8,
            TimerDivide::By64 => 0x9,
            TimerDivide::By128 => 0xA,
        }
    }
}

/// The writes that start the periodic timer on `vector` with the given
/// initial count and divisor.
pub fn enable_timer(vector: u8, initial_count: u32, divider: TimerDivide) -> (r: [RegWrite; 3])
    ensures
        r[0] == (RegWrite { reg: APIC_REG_TIMER_DIV, value: divider.spec_bits() }),
        r[1] == (RegWrite { reg: APIC_REG_LVT_TIMER, value: TIMER_PERIODIC | vector as u32 }),
        r[2] == (RegWrite { reg: APIC_REG_TIMER_INIT, value: initial_count }),
{
    [
        RegWrite { reg: APIC_REG_TIMER_DIV, value: divider.bits() },
        RegWrite { reg: APIC_REG_LVT_TIMER, value: TIMER_PERIODIC | vector as u32 },
        RegWrite { reg: APIC_REG_TIMER_INIT, value: initial_count },
    ]
}

/// From the APIC base MSR: the registers' physical base (page aligned)
/// and, when the APIC is globally disabled, the MSR value that enables it.
pub fn apic_base(msr_value: u64) -> (r: (u64, Option<u64>))
    ensures
        r.0 == msr_value & 0xFFFF_FFFF_FFFF_F000,
        r.1 == if msr_value & APIC_BASE_ENABLE == 0 { Some(msr_value | APIC_BASE_ENABLE) } else { None },
{
    let base = msr_value & 0xFFFF_FFFF_FFFF_F000;
    if msr_value & APIC_BASE_ENABLE == 0 {
        (base, Some(msr_value | APIC_BASE_ENABLE))
    } else {
        (base, None)
    }
}

} // verus!
