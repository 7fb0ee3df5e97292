//! x86_64 platform pieces: the 16550 UART, ACPI tables, the I/O APIC and
//! local APIC programming values, and boot information.

pub mod serial;
pub mod acpi;
pub mod ioapic;
pub mod lapic;
pub mod pci;
pub mod idt;
pub mod syscall;
pub mod gdt;
