use minimalos::arch::idt::Idt;
use minimalos::arch::tss::Tss;
use minimalos::arch::x86_64::acpi::parse_madt_table;
use minimalos::arch::x86_64::gdt::{gdt_entries, ist1_top};
use minimalos::arch::x86_64::idt::{exception_report_lines, InterruptFrame, ReportLabel, ReportLine, SelectorTable};
use minimalos::arch::x86_64::ioapic::{self, enable_irq, enable_irq_with_flags, mask_irq, RegWrite};
use minimalos::arch::x86_64::lapic;
use minimalos::arch::x86_64::pci::{class_name, class_of, config_address, is_multifunction, is_present, PciScanner};
use minimalos::arch::x86_64::syscall::{
    endpoint_for, map_memory, notify_irq_waiters, port_for, process_for, register_endpoint, sys_delegate, sys_map_memory,
    unknown_call_reply,
    sys_port_out, sys_recv, sys_send, sys_wait_irq, syscall_dispatch, EndpointTable, IrqWaiters, Syscall,
    SyscallFrame, ERR_0, ERR_1, ERR_2, ERR_3, ERR_4, ERR_5, ERR_6,
};
use minimalos::arch::syscall::{log_args_ok, message_ptr_ok, validate_user_ptr};
use minimalos::cap::cnode::{CNode, CapObject, CapRights, Capability, RIGHTS_ALL, RIGHTS_READ, RIGHTS_WRITE};
use minimalos::ipc::endpoint::{Endpoint, RecvOutcome, SendOutcome};
use minimalos::memory::address::{PhysAddr, VirtAddr};
use minimalos::memory::pmm::{BitmapAllocator, MemoryRegion, MemoryRegionKind};
use minimalos::memory::vmm::{self, new_table, translate, PageTableEntry};

#[test]
fn gdt_layout() {
    let e = gdt_entries(0x1234_5678_9ABC_DEF0);
    assert_eq!(e[0], 0);
    assert_eq!(e[1], 0x0020_9A00_0000_0000);
    assert_eq!(e[2], 0x0000_9200_0000_0000);
    assert_eq!(e[3], 0x0000_F200_0000_0000);
    assert_eq!(e[4], 0x0020_FA00_0000_0000);
    assert_eq!(e[5], 0x9A00_89BC_DEF0_0067);
    assert_eq!(e[6], 0x1234_5678);
    assert_eq!(ist1_top(0x10_0000), 0x10_4000);
}

#[test]
fn lapic_register_writes() {
    let w = lapic::init();
    assert_eq!(w[0], RegWrite { reg: 0x80, value: 0 });
    assert_eq!(w[1], RegWrite { reg: 0xF0, value: 0x1FF });
    assert_eq!(w[2], RegWrite { reg: 0x320, value: 0x1_0000 });
    assert_eq!(lapic::eoi(), RegWrite { reg: 0xB0, value: 0 });
    assert_eq!(lapic::id(0x0300_0000), 3);
    assert_eq!(lapic::pit_count(), 11931);
}

#[test]
fn lapic_calibration() {
    assert_eq!(lapic::calibrate_from_cpuid(0x14, 1, 1, 0), None);
    assert_eq!(lapic::calibrate_from_cpuid(0x15, 0, 1, 0), None);
    assert_eq!(lapic::calibrate_from_cpuid(0x15, 2, 100, 0), Some(19));
    assert_eq!(lapic::calibrate_from_cpuid(0x16, 2, 100, 25_000_000), Some(25));
    assert_eq!(lapic::calibrate_from_cpuid(0x16, 2, 100, 999_999), None);
    assert_eq!(lapic::calibrate_from_pit(0xFFFF_FFFF), 100);
    assert_eq!(lapic::calibrate_from_pit(0xFFFF_FFFF - 1_000_000), 100);
    assert_eq!(lapic::calibrate_from_pit(0xFFFF_FFFF - 2_500_000), 250);
}

#[test]
fn lapic_oneshot_saturates() {
    let w = lapic::set_timer_oneshot(100, 1000);
    assert_eq!(w[0], RegWrite { reg: 0x3E0, value: 0xB });
    assert_eq!(w[1], RegWrite { reg: 0x320, value: 32 });
    assert_eq!(w[2], RegWrite { reg: 0x380, value: 100_000 });
    let w = lapic::set_timer_oneshot(1000, 10_000_000);
    assert_eq!(w[2].value, 0xFFFF_FFFF);
}

#[test]
fn ioapic_redirection_entries() {
    assert_eq!(ioapic::rte_low(1), 0x12);
    assert_eq!(ioapic::rte_high(1), 0x13);
    let io = ioapic::init(16, 0x0017_0020);
    assert_eq!(io.gsi_base, 16);
    assert_eq!(io.max_entries, 0x17);
    let w = enable_irq(&io, 17, 0x21, 2);
    assert_eq!(w[0], RegWrite { reg: 0x12, value: 0x21 });
    assert_eq!(w[1], RegWrite { reg: 0x13, value: 0x0200_0000 });
    let w = enable_irq_with_flags(&io, 16, 0x30, 0, true, true);
    assert_eq!(w[0], RegWrite { reg: 0x10, value: 0x30 | 0x2000 | 0x8000 });
    assert_eq!(mask_irq(&io, 18, 0x25), RegWrite { reg: 0x14, value: 0x1_0025 });
    assert_eq!(ioapic::masked(0x40), 0x1_0040);
}

#[test]
fn pci_register_decoding() {
    assert_eq!(config_address(1, 2, 3, 0x0E), 0x8001_1300 | 0x0C);
    assert!(!is_present(0xFFFF_FFFF));
    assert!(is_present(0x1234_8086));
    assert!(is_multifunction(0x0080_0000));
    assert!(!is_multifunction(0x0000_0000));
    assert_eq!(class_of(0x0C03_3000), (0x0C, 0x03));
    assert_eq!(class_name(0x0C, 0x05), "SMBus Controller");
    assert_eq!(class_name(0xFE, 0x00), "Unknown");
}

/// Configuration dwords of a machine with a single-function device at
/// 0:0, a multi-function device at 0:1 (functions 0 and 2) and a device
/// at 3:5.
fn config_read(bus: u8, dev: u8, func: u8, offset: u8) -> u32 {
    let present = matches!((bus, dev, func), (0, 0, 0) | (0, 1, 0) | (0, 1, 2) | (3, 5, 0));
    if !present {
        return 0xFFFF_FFFF;
    }
    match offset {
        0 => 0x1234_8086,
        0x0C => {
            if (bus, dev) == (0, 1) {
                0x0080_0000
            } else {
                0
            }
        },
        _ => 0,
    }
}

#[test]
fn pci_scan_finds_every_function() {
    let mut s = PciScanner::new();
    let mut found = Vec::new();
    while let Some((bus, dev, func, off)) = s.next_read() {
        if let Some(f) = s.feed(config_read(bus, dev, func, off)) {
            found.push(f);
        }
    }
    assert_eq!(found, vec![(0, 0, 0), (0, 1, 0), (0, 1, 2), (3, 5, 0)]);
    assert_eq!(s.count, 4);
}

#[test]
fn user_pointer_checks() {
    assert!(validate_user_ptr(0x1000, 16));
    assert!(!validate_user_ptr(0, 16));
    assert!(!validate_user_ptr(0x7FFF_FFFF_FFF8, 16));
    assert!(!validate_user_ptr(0xFFFF_8000_0000_0000, 1));
    assert!(log_args_ok(0x1000, 100));
    assert!(!log_args_ok(0x1000, 4097));
    assert!(message_ptr_ok(0x1000));
    assert!(!message_ptr_ok(0));
}

fn frame(rax: u64, rdi: u64, rsi: u64, rdx: u64, r10: u64) -> SyscallFrame {
    SyscallFrame {
        r15: 0,
        r14: 0,
        r13: 0,
        r12: 0,
        r11: 0,
        r10,
        r9: 0,
        r8: 0,
        rbp: 0,
        rdi,
        rsi,
        rdx,
        rcx: 0,
        rbx: 0,
        rax,
        user_rsp: 0,
    }
}

#[test]
fn syscall_decoding() {
    assert_eq!(syscall_dispatch(&frame(1, 2, 3, 4, 5)), Syscall::Send { slot: 2, label: 3, data0: 4, data1: 5 });
    assert_eq!(syscall_dispatch(&frame(2, 7, 0, 0, 0)), Syscall::Recv { slot: 7 });
    assert_eq!(
        syscall_dispatch(&frame(8, 1, 2, 0x40_0000, 1)),
        Syscall::MapMemory { proc_slot: 1, frame_slot: 2, vaddr: 0x40_0000, flags: 1 }
    );
    assert_eq!(syscall_dispatch(&frame(6, 0, 0, 0, 0)), Syscall::SpawnProcess);
    assert_eq!(syscall_dispatch(&frame(99, 0, 0, 0, 0)), Syscall::Unknown { number: 99 });
}

fn node_with(caps: &[(usize, CapObject, u8)]) -> CNode {
    let mut n = CNode::new();
    for (slot, obj, rights) in caps {
        n.insert_at(*slot, Capability::new(*obj, CapRights::from_raw(*rights))).unwrap();
    }
    n
}

#[test]
fn endpoint_capability_checks() {
    let n = node_with(&[
        (0, CapObject::Endpoint { id: 4 }, RIGHTS_ALL),
        (1, CapObject::Endpoint { id: 5 }, RIGHTS_READ),
        (2, CapObject::Interrupt { irq: 1 }, RIGHTS_ALL),
    ]);
    assert_eq!(endpoint_for(&n, 0, true), Ok(4));
    assert_eq!(endpoint_for(&n, 1, false), Ok(5));
    assert_eq!(endpoint_for(&n, 1, true), Err(ERR_1));
    assert_eq!(endpoint_for(&n, 2, true), Err(ERR_2));
    assert_eq!(endpoint_for(&n, 3, true), Err(ERR_0));
    assert_eq!(endpoint_for(&n, 1000, true), Err(ERR_0));
}

#[test]
fn send_then_receive_through_table() {
    let n = node_with(&[(0, CapObject::Endpoint { id: 4 }, RIGHTS_ALL), (1, CapObject::Endpoint { id: 9 }, RIGHTS_ALL)]);
    let mut table = EndpointTable::new();
    register_endpoint(&mut table, Endpoint::new(4));
    let (code, out) = sys_send(&n, &mut table, 100, 0, 7, 11, 22);
    assert_eq!(code, 0);
    assert!(matches!(out, Some(SendOutcome::Blocked)));
    // Endpoint 9 is not registered.
    let (code, out) = sys_send(&n, &mut table, 100, 1, 7, 11, 22);
    assert_eq!(code, ERR_3);
    assert!(out.is_none());
    let mut f = frame(2, 0, 0, 0, 0);
    let (code, out) = sys_recv(&n, &mut table, &mut f, 200, 0);
    assert_eq!(code, 0);
    assert!(matches!(out, Some(RecvOutcome::Received { sender: 100, .. })));
    assert_eq!((f.rdi, f.rsi, f.rdx), (7, 11, 22));
    let (code, out) = sys_recv(&n, &mut table, &mut f, 201, 0);
    assert_eq!(code, 0);
    assert!(matches!(out, Some(RecvOutcome::Blocked)));
}

#[test]
fn port_capability_checks() {
    let n = node_with(&[
        (0, CapObject::IoPort { base: 0x60, size: 5 }, RIGHTS_READ | RIGHTS_WRITE),
        (1, CapObject::IoPort { base: 0x3F8, size: 8 }, RIGHTS_READ),
        (2, CapObject::Endpoint { id: 1 }, RIGHTS_ALL),
    ]);
    assert_eq!(port_for(&n, 0, 0x64, true), Ok(0x64));
    assert_eq!(port_for(&n, 0, 0x65, true), Err(ERR_4));
    assert_eq!(port_for(&n, 0, 0x5F, false), Err(ERR_4));
    assert_eq!(port_for(&n, 1, 0x3F8, true), Err(ERR_1));
    assert_eq!(port_for(&n, 2, 0x60, false), Err(ERR_2));
    assert_eq!(port_for(&n, 9, 0x60, false), Err(ERR_0));
    assert_eq!(sys_port_out(&n, 0, 0x60, 0x1FF), Ok((0x60, 0xFF)));
}

#[test]
fn wait_irq_then_notify() {
    let n = node_with(&[
        (0, CapObject::Interrupt { irq: 1 }, RIGHTS_ALL),
        (1, CapObject::Interrupt { irq: 40 }, RIGHTS_ALL),
    ]);
    let mut w = IrqWaiters::new();
    assert_eq!(sys_wait_irq(&n, &mut w, 0, 77), 0);
    assert_eq!(sys_wait_irq(&n, &mut w, 0, 78), ERR_5);
    assert_eq!(sys_wait_irq(&n, &mut w, 1, 78), ERR_4);
    assert_eq!(sys_wait_irq(&n, &mut w, 5, 78), ERR_0);
    assert_eq!(notify_irq_waiters(&mut w, 2), None);
    assert_eq!(notify_irq_waiters(&mut w, 1), Some(77));
    assert_eq!(notify_irq_waiters(&mut w, 1), None);
    assert_eq!(notify_irq_waiters(&mut w, 99), None);
}

#[test]
fn map_memory_request_checks() {
    let n = node_with(&[
        (0, CapObject::Process { pid: 3 }, RIGHTS_ALL),
        (1, CapObject::MemoryFrame { phys: 0x5000, order: 0 }, RIGHTS_ALL),
        (2, CapObject::Endpoint { id: 1 }, RIGHTS_ALL),
    ]);
    let req = sys_map_memory(&n, 0, 1, 0x40_0000, 1).unwrap();
    assert_eq!((req.pid, req.vaddr, req.phys), (3, 0x40_0000, 0x5000));
    assert_eq!(req.flags.bits(), vmm::PRESENT | vmm::USER | vmm::WRITABLE | vmm::NO_EXECUTE);
    let req = sys_map_memory(&n, 0, 1, 0x40_0000, 2).unwrap();
    assert_eq!(req.flags.bits(), vmm::PRESENT | vmm::USER);
    assert_eq!(sys_map_memory(&n, 5, 1, 0x40_0000, 0).err(), Some(ERR_0));
    assert_eq!(sys_map_memory(&n, 2, 1, 0x40_0000, 0).err(), Some(ERR_1));
    assert_eq!(sys_map_memory(&n, 0, 9, 0x40_0000, 0).err(), Some(ERR_2));
    assert_eq!(sys_map_memory(&n, 0, 2, 0x40_0000, 0).err(), Some(ERR_3));
    assert_eq!(sys_map_memory(&n, 0, 1, 0x40_0010, 0).err(), Some(ERR_4));
    assert_eq!(sys_map_memory(&n, 0, 1, 0x8000_0000_0000, 0).err(), Some(ERR_4));
    assert_eq!(process_for(&n, 0), Ok(3));
    let (pid, cap) = sys_delegate(&n, 0, 2).unwrap();
    assert_eq!(pid, 3);
    assert_eq!(cap.object, CapObject::Endpoint { id: 1 });
    assert_eq!(sys_delegate(&n, 0, 7).err(), Some(ERR_2));
}

#[test]
fn tss_starts_zeroed_and_sets_rsp0() {
    let mut t = Tss::new();
    assert_eq!(t.rsp, [0; 3]);
    assert_eq!(t.ist, [0; 7]);
    assert_eq!(t.iomap_base, 0);
    t.set_rsp0(0xFFFF_8000_0001_0000);
    assert_eq!(t.rsp, [0xFFFF_8000_0001_0000, 0, 0]);
    assert_eq!(t.ist, [0; 7]);
}

#[test]
fn idt_starts_with_missing_entries() {
    let idt = Idt::new();
    for v in [0u8, 13, 255] {
        assert_eq!(idt.entry(v).handler(), 0);
    }
}

fn madt_table(entries: &[u8]) -> Vec<u8> {
    let mut t = vec![0u8; 44];
    t[0..4].copy_from_slice(b"APIC");
    t[36..40].copy_from_slice(&0xFEE0_0000u32.to_le_bytes());
    t.extend_from_slice(entries);
    let len = t.len() as u32;
    t[4..8].copy_from_slice(&len.to_le_bytes());
    t
}

#[test]
fn madt_entries_read_whatever_their_length() {
    let mut e = Vec::new();
    // A processor, enabled.
    e.extend_from_slice(&[0, 8, 1, 2, 1, 0, 0, 0]);
    // An I/O APIC entry declaring length 2: still counted, its fields
    // read from the bytes that follow.
    e.extend_from_slice(&[1, 2]);
    // An override: IRQ 0 to GSI 2, flags polarity 3, trigger 1.
    e.extend_from_slice(&[2, 10, 0, 0, 2, 0, 0, 0, 0x07, 0]);
    // A processor neither enabled nor online-capable: skipped.
    e.extend_from_slice(&[0, 8, 3, 4, 0, 0, 0, 0]);
    // Length below 2 ends the walk.
    e.extend_from_slice(&[1, 0, 0, 0]);
    let t = madt_table(&e);
    let info = parse_madt_table(&t);
    assert_eq!(info.lapic_addr, 0xFEE0_0000);
    assert_eq!(info.cpu_count, 1);
    assert_eq!((info.cpus[0].acpi_id, info.cpus[0].apic_id, info.cpus[0].enabled), (1, 2, true));
    assert_eq!(info.ioapic_count, 1);
    // The length-2 entry at offset 52: id is byte 54, address bytes 56..60.
    assert_eq!(info.ioapics[0].id, 2);
    assert_eq!(info.ioapics[0].address, u32::from_le_bytes([0, 0, 2, 0]) as u64);
    assert_eq!(info.ioapics[0].gsi_base, u32::from_le_bytes([0, 0, 7, 0]));
    assert_eq!(info.override_count, 1);
    assert_eq!((info.overrides[0].irq_source, info.overrides[0].gsi), (0, 2));
    assert_eq!((info.overrides[0].polarity, info.overrides[0].trigger), (3, 1));
}

#[test]
fn madt_short_entry_at_the_end_reads_zero_past_the_table() {
    let t = madt_table(&[1, 2]);
    let info = parse_madt_table(&t);
    assert_eq!(info.ioapic_count, 1);
    assert_eq!((info.ioapics[0].id, info.ioapics[0].address, info.ioapics[0].gsi_base), (0, 0, 0));
}

fn frame_with(vector: u64, error_code: u64) -> InterruptFrame {
    InterruptFrame {
        r15: 0, r14: 0, r13: 0, r12: 0, r11: 0, r10: 0, r9: 0, r8: 0, rbp: 0, rdi: 0, rsi: 0, rdx: 0, rcx: 0,
        rbx: 0, rax: 0, vector, error_code, rip: 0x1000, cs: 0x08, rflags: 0, rsp: 0x2000, ss: 0,
    }
}

#[test]
fn general_protection_report() {
    let lines = exception_report_lines(&frame_with(13, 0x14), 0);
    assert_eq!(lines.len(), 9);
    assert_eq!(lines[0], ReportLine::Blank);
    assert_eq!(lines[2], ReportLine::Value { label: ReportLabel::ErrorCode, value: 0x14, wide: false });
    assert_eq!(lines[3], ReportLine::SelectorIndex(2));
    assert_eq!(lines[4], ReportLine::Table(SelectorTable::Ldt));
    assert_eq!(lines[5], ReportLine::External(false));
    assert_eq!(lines[6], ReportLine::Value { label: ReportLabel::Rip, value: 0x1000, wide: true });
    assert_eq!(lines[7], ReportLine::Value { label: ReportLabel::Cs, value: 0x08, wide: false });
    assert_eq!(lines[8], ReportLine::Value { label: ReportLabel::Rsp, value: 0x2000, wide: true });
    let lines = exception_report_lines(&frame_with(13, 0), 0);
    assert_eq!(lines.len(), 6);
}

#[test]
fn page_fault_and_other_reports() {
    let lines = exception_report_lines(&frame_with(14, 0b10011), 0xDEAD_B000);
    assert_eq!(lines[2], ReportLine::Value { label: ReportLabel::Cr2, value: 0xDEAD_B000, wide: true });
    assert_eq!(lines[4], ReportLine::PageFaultBit { bit: 0, set: true });
    assert_eq!(lines[5], ReportLine::PageFaultBit { bit: 1, set: true });
    assert_eq!(lines[6], ReportLine::PageFaultBit { bit: 2, set: false });
    assert_eq!(lines[8], ReportLine::PageFaultBit { bit: 4, set: true });
    assert_eq!(exception_report_lines(&frame_with(8, 0), 0).len(), 20);
    assert_eq!(exception_report_lines(&frame_with(0, 0), 0).len(), 6);
    assert_eq!(exception_report_lines(&frame_with(40, 0), 0).len(), 1);
}

#[test]
fn unknown_call_number_gets_err_0() {
    let mut f = SyscallFrame {
        r15: 0, r14: 0, r13: 0, r12: 0, r11: 0, r10: 0, r9: 0, r8: 0, rbp: 0, rdi: 0, rsi: 0, rdx: 0,
        rcx: 0x40_1000, rbx: 0, rax: 11, user_rsp: 0,
    };
    let call = syscall_dispatch(&f);
    assert_eq!(unknown_call_reply(&call), Some(u64::MAX));
    f.rax = 8;
    assert_eq!(unknown_call_reply(&syscall_dispatch(&f)), None);
}

#[test]
fn map_memory_maps_into_the_target() {
    let map = [MemoryRegion { base: 0x1000, length: 0xFF000, kind: MemoryRegionKind::Usable }];
    let mut pmm = BitmapAllocator::new(&map);
    let mut mem = vec![PageTableEntry::empty(); 256 * 512];
    let root = new_table(&mut mem, &mut pmm).unwrap();
    let n = node_with(&[
        (0, CapObject::Process { pid: 3 }, RIGHTS_ALL),
        (1, CapObject::MemoryFrame { phys: 0x5000, order: 0 }, RIGHTS_ALL),
        (2, CapObject::Process { pid: 9 }, RIGHTS_ALL),
    ]);
    let procs: Vec<(u64, PhysAddr)> = vec![(3, root)];
    assert_eq!(map_memory(&n, &mut mem, &mut pmm, &procs, 0, 1, 0x40_0000, 1), 0);
    let t = translate(&mem, root, VirtAddr::new(0x40_0123)).map(|p| p.as_u64());
    assert_eq!(t, Some(0x5123));
    assert_eq!(map_memory(&n, &mut mem, &mut pmm, &procs, 0, 1, 0x40_0000, 1), ERR_6);
    assert_eq!(map_memory(&n, &mut mem, &mut pmm, &procs, 2, 1, 0x40_1000, 1), ERR_5);
    assert!(translate(&mem, root, VirtAddr::new(0x40_1000)).is_none());
    assert_eq!(map_memory(&n, &mut mem, &mut pmm, &procs, 0, 1, 0x40_0010, 1), ERR_4);
}

#[test]
fn isa_irq_follows_its_override() {
    let mut e = Vec::new();
    e.extend_from_slice(&[2, 10, 0, 0, 2, 0, 0, 0, 0, 0]);
    e.extend_from_slice(&[2, 10, 0, 4, 20, 0, 0, 0, 0, 0]);
    e.extend_from_slice(&[2, 10, 0, 4, 21, 0, 0, 0, 0, 0]);
    let info = parse_madt_table(&madt_table(&e));
    assert_eq!(info.gsi_for_irq(0), 2);
    assert_eq!(info.gsi_for_irq(4), 20);
    assert_eq!(info.gsi_for_irq(1), 1);
}
