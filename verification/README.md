# minimalos

The logic of MinimalOS, a small 64-bit x86_64 kernel, as a library whose
functions carry `requires`/`ensures` contracts proved with Verus.

Layout:

- `src/memory`: the physical frame bitmap allocator, the kernel heap's
  free list, four-level page tables (map, unmap, translate, 2 MiB pages),
  and the construction of the kernel's and a process's address space.
- `src/arch`: descriptor tables, TSS, exception decoding and reports,
  ACPI/MADT reading, local and I/O APIC register programs, PCI scanning,
  the serial port and the system calls with their capability checks.
- `src/cap`, `src/ipc`: capability nodes, rights, endpoints and messages.
- `src/fs`: USTAR ramdisk lookup and the ELF64 loader.
- `src/kdisplay`, `src/khal`, `src/actors`, `src/klog`: PSF2 fonts, the
  framebuffer console, keyboard and mouse decoding, and the user-space
  actors' message handling.
- `app`: the boot path and interrupt entry points, which read the
  hardware, call the library and carry out what it decides.
- `tests`: tests of the library on concrete values.

The library does no I/O: page tables are a slice of entries indexed by
physical address, and frame contents are written by the caller through
the direct map (for example, the frames the ELF loader lists as fresh are
zeroed before its copies are made).
