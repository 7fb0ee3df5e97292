//! Hardware access helpers whose decisions can be stated apart from the
//! port and memory accesses themselves: the serial line, the boot RAM
//! disk, and the PS/2 mouse and keyboard decoders.

pub mod serial;
pub mod ramdisk;
pub mod mouse;
pub mod keyboard;
pub mod apic;
