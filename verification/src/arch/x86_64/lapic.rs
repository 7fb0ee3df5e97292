//! Local APIC programming: set-up values, timer calibration and one-shot
//! timer counts.

use vstd::prelude::*;
use crate::arch::x86_64::ioapic::RegWrite;

verus! {

/// Local APIC ID register.
pub const LAPIC_ID: u32 = 0x020;
/// Task priority register.
pub const LAPIC_TPR: u32 = 0x080;
/// End-of-interrupt register.
pub const LAPIC_EOI: u32 = 0x0B0;
/// Spurious interrupt vector register.
pub const LAPIC_SPURIOUS: u32 = 0x0F0;
/// LVT timer register.
pub const LAPIC_LVT_TIMER: u32 = 0x320;
/// Timer initial count.
pub const LAPIC_TIMER_INIT: u32 = 0x380;
/// Timer divide configuration.
pub const LAPIC_TIMER_DIV: u32 = 0x3E0;
/// Divide configuration for "divide by 1".
pub const TIMER_DIVIDE_BY_1: u32 = 0xB;
/// LVT mask bit.
pub const LVT_MASK: u32 = 0x1_0000;
/// Vector of the timer interrupt.
pub const TIMER_VECTOR: u32 = 32;
/// Crystal frequency assumed when CPUID leaf 0x15 leaves it out.
pub const DEFAULT_CRYSTAL_HZ: u64 = 19_200_000;
/// PIT input clock.
pub const PIT_HZ: u32 = 1_193_182;
/// PIT calibration window.
pub const PIT_INTERVAL_MS: u32 = 10;
/// Ticks per microsecond assumed when the PIT measurement gives zero.
pub const FALLBACK_TICKS_PER_US: u64 = 100;

/// The set-up writes: accept all priorities, enable the APIC with
/// spurious vector 255, and mask the timer.
pub fn init() -> (r: [RegWrite; 3])
    ensures
        r[0] == (RegWrite { reg: LAPIC_TPR, value: 0 }),
        r[1] == (RegWrite { reg: LAPIC_SPURIOUS, value: 0x1FF }),
        r[2] == (RegWrite { reg: LAPIC_LVT_TIMER, value: LVT_MASK }),
{
    [
        RegWrite { reg: LAPIC_TPR, value: 0 },
        RegWrite { reg: LAPIC_SPURIOUS, value: 0x1FF },
        RegWrite { reg: LAPIC_LVT_TIMER, value: LVT_MASK },
    ]
}

/// The APIC id in an ID register value (its top byte).
pub fn id(id_reg: u32) -> (r: u8)
    ensures
        r == id_reg / 0x100_0000,
{
    proof { assert(id_reg >> 24u32 == id_reg / 0x100_0000) by (bit_vector); }
    (id_reg >> 24u32) as u8
}

/// The write that signals end of interrupt.
pub fn eoi() -> (r: RegWrite)
    ensures
        r == (RegWrite { reg: LAPIC_EOI, value: 0 }),
{
    RegWrite { reg: LAPIC_EOI, value: 0 }
}

/// Timer ticks per microsecond from CPUID leaf 0x15 (denominator `eax`,
/// numerator `ebx`, crystal Hz `ecx`, 19.2 MHz when zero), when the leaf
/// exists and gives a usable rate.
pub fn calibrate_from_cpuid(cpuid_max: u32, eax: u32, ebx: u32, ecx: u32) -> (r: Option<u64>)
    ensures
        ({
            let crystal: int = if ecx != 0 { ecx as int } else { DEFAULT_CRYSTAL_HZ as int };
            r == if cpuid_max >= 0x15 && eax != 0 && ebx != 0 && crystal / 1_000_000 > 0 {
                Some((crystal / 1_000_000) as u64)
            } else {
                None
            }
        }),
{
    if cpuid_max < 0x15 || eax == 0 || ebx == 0 {
        return None;
    }
    let crystal_hz: u64 = if ecx != 0 { ecx as u64 } else { DEFAULT_CRYSTAL_HZ };
    let ticks_per_us = crystal_hz / 1_000_000;
    if ticks_per_us > 0 {
        Some(ticks_per_us)
    } else {
        None
    }
}

/// The PIT channel-2 reload value for the calibration window.
pub fn pit_count() -> (r: u16)
    ensures
        r == PIT_HZ / (1000u32 / PIT_INTERVAL_MS),
{
    proof { assert(PIT_HZ / (1000u32 / PIT_INTERVAL_MS) == 11931); }
    (PIT_HZ / (1000 / PIT_INTERVAL_MS)) as u16
}

/// Timer ticks per microsecond from the timer count left after the
/// calibration window (counting down from 0xFFFF_FFFF); 100 when the
/// measurement gives zero.
pub fn calibrate_from_pit(timer_current: u32) -> (r: u64)
    ensures
        ({
            let t = (0xFFFF_FFFF - timer_current) / (PIT_INTERVAL_MS as int * 1000);
            r == if t == 0 { FALLBACK_TICKS_PER_US as int } else { t }
        }),
{
    let elapsed: u64 = 0xFFFF_FFFFu64 - timer_current as u64;
    let ticks_per_us = elapsed / (PIT_INTERVAL_MS as u64 * 1000);
    if ticks_per_us == 0 { FALLBACK_TICKS_PER_US } else { ticks_per_us }
}

/// The writes that arm a one-shot timer for `microseconds` at the
/// calibrated rate: divide by 1, vector 32 unmasked, and the initial
/// count, saturated at 0xFFFF_FFFF.
pub fn set_timer_oneshot(ticks_per_us: u64, microseconds: u64) -> (r: [RegWrite; 3])
    requires
        microseconds * ticks_per_us <= u64::MAX,
    ensures
        r[0] == (RegWrite { reg: LAPIC_TIMER_DIV, value: TIMER_DIVIDE_BY_1 }),
        r[1] == (RegWrite { reg: LAPIC_LVT_TIMER, value: TIMER_VECTOR }),
        r[2] == (RegWrite {
            reg: LAPIC_TIMER_INIT,
            value: if microseconds * ticks_per_us > 0xFFFF_FFFF { 0xFFFF_FFFF } else { (microseconds * ticks_per_us) as u32 },
        }),
{
    let ticks = microseconds * ticks_per_us;
    let count: u32 = if ticks > 0xFFFF_FFFF { 0xFFFF_FFFF } else { ticks as u32 };
    [
        RegWrite { reg: LAPIC_TIMER_DIV, value: TIMER_DIVIDE_BY_1 },
        RegWrite { reg: LAPIC_LVT_TIMER, value: TIMER_VECTOR },
        RegWrite { reg: LAPIC_TIMER_INIT, value: count },
    ]
}

} // verus!
