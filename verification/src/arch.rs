//! Architecture structures: descriptor tables, the task state segment
//! and the x86_64 platform drivers.

pub mod idt;
pub mod gdt;
pub mod tss;
pub mod x86_64;
pub mod smp;
pub mod syscall;
