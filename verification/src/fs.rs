//! Boot file systems: the ustar initial RAM disk and ELF executables.

pub mod tar;
pub mod elf;
