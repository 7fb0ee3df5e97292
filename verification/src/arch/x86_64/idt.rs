//! Exception and interrupt dispatch decisions: what a fault's vector and
//! error code mean, and what an interrupt vector asks for.

use vstd::prelude::*;

verus! {

/// The registers the interrupt stubs save, with the vector and error
/// code, then the CPU's own frame.
#[derive(Clone, Copy, PartialEq, Eq, Structural, Debug)]
pub struct InterruptFrame {
    pub r15: u64,
    pub r14: u64,
    pub r13: u64,
    pub r12: u64,
    pub r11: u64,
    pub r10: u64,
    pub r9: u64,
    pub r8: u64,
    pub rbp: u64,
    pub rdi: u64,
    pub rsi: u64,
    pub rdx: u64,
    pub rcx: u64,
    pub rbx: u64,
    pub rax: u64,
    pub vector: u64,
    pub error_code: u64,
    pub rip: u64,
    pub cs: u64,
    pub rflags: u64,
    pub rsp: u64,
    pub ss: u64,
}

/// The descriptor table a #GP selector error code names.
#[derive(Clone, Copy, PartialEq, Eq, Structural, Debug)]
pub enum SelectorTable {
    Gdt,
    Idt,
    Ldt,
}

/// What a non-zero #GP error code names.
#[derive(Clone, Copy, PartialEq, Eq, Structural, Debug)]
pub struct SelectorError {
    /// Index of the selector.
    pub index: u64,
    /// The table it indexes.
    pub table: SelectorTable,
    /// The fault came from an external event.
    pub external: bool,
}

/// What a page-fault error code says.
#[derive(Clone, Copy, PartialEq, Eq, Structural, Debug)]
pub struct PageFaultCause {
    /// A protection violation (else the page was not present).
    pub protection: bool,
    /// A write (else a read).
    pub write: bool,
    /// In user mode (else supervisor).
    pub user: bool,
    /// A reserved bit was set in a paging entry.
    pub reserved_bit: bool,
    /// An instruction fetch (else a data access).
    pub instruction_fetch: bool,
}

/// What an exception is, as the fault report describes it.
#[derive(Clone, Copy, PartialEq, Eq, Structural, Debug)]
pub enum ExceptionKind {
    DivideError,
    InvalidOpcode,
    DoubleFault,
    /// With the selector index, table and external flag when the error
    /// code is non-zero.
    GeneralProtection { selector: Option<SelectorError> },
    PageFault { cause: PageFaultCause },
    /// Another CPU exception vector (below 32).
    Unhandled { vector: u64 },
    /// A vector that is no exception.
    Unknown { vector: u64 },
}

pub proof fn lemma_error_bits(e: u64)
    by (bit_vector)
    ensures
        (e >> 3u64) & 0x1FFF == (e / 8) % 0x2000,
        (e >> 1u64) & 0x03 == (e / 2) % 4,
        e & 1 == e % 2,
        (e & 2 != 0) == ((e / 2) % 2 == 1),
        (e & 4 != 0) == ((e / 4) % 2 == 1),
        (e & 8 != 0) == ((e / 8) % 2 == 1),
        (e & 16 != 0) == ((e / 16) % 2 == 1),
{
}

/// The table a selector error code's bits 1..2 name (3 means the IDT).
pub open spec fn table_of(bits: u64) -> SelectorTable {
    if bits == 0 { SelectorTable::Gdt } else if bits == 2 { SelectorTable::Ldt } else { SelectorTable::Idt }
}

/// What an exception frame's vector and error code mean.
pub open spec fn exception_meaning(vector: u64, e: u64) -> ExceptionKind {
    if vector == 0 {
        ExceptionKind::DivideError
    } else if vector == 6 {
        ExceptionKind::InvalidOpcode
    } else if vector == 8 {
        ExceptionKind::DoubleFault
    } else if vector == 13 {
        ExceptionKind::GeneralProtection {
            selector: if e != 0 { Some(SelectorError { index: (e / 8) % 0x2000, table: table_of((e / 2) % 4), external: e % 2 == 1 }) } else { None },
        }
    } else if vector == 14 {
        ExceptionKind::PageFault {
            cause: PageFaultCause {
                protection: e % 2 == 1,
                write: (e / 2) % 2 == 1,
                user: (e / 4) % 2 == 1,
                reserved_bit: (e / 8) % 2 == 1,
                instruction_fetch: (e / 16) % 2 == 1,
            },
        }
    } else if vector < 32 {
        ExceptionKind::Unhandled { vector }
    } else {
        ExceptionKind::Unknown { vector }
    }
}

/// Decodes the exception in `frame`; every exception stops the kernel,
/// after a report of what this says.
pub fn exception_dispatch(frame: &InterruptFrame) -> (r: ExceptionKind)
    ensures
        r == exception_meaning(frame.vector, frame.error_code),
{
    let e = frame.error_code;
    proof { lemma_error_bits(e); }
    let v = frame.vector;
    if v == 0 {
        ExceptionKind::DivideError
    } else if v == 6 {
        ExceptionKind::InvalidOpcode
    } else if v == 8 {
        ExceptionKind::DoubleFault
    } else if v == 13 {
        if e != 0 {
            let index = (e >> 3u64) & 0x1FFF;
            let bits = (e >> 1u64) & 0x03;
            let table = if bits == 0 { SelectorTable::Gdt } else if bits == 2 { SelectorTable::Ldt } else { SelectorTable::Idt };
            ExceptionKind::GeneralProtection { selector: Some(SelectorError { index, table, external: e & 1 != 0 }) }
        } else {
            ExceptionKind::GeneralProtection { selector: None }
        }
    } else if v == 14 {
        ExceptionKind::PageFault {
            cause: PageFaultCause {
                protection: e & 1 != 0,
                write: e & 2 != 0,
                user: e & 4 != 0,
                reserved_bit: e & 8 != 0,
                instruction_fetch: e & 16 != 0,
            },
        }
    } else if v < 32 {
        ExceptionKind::Unhandled { vector: v }
    } else {
        ExceptionKind::Unknown { vector: v }
    }
}

/// A register or value the fault report names.
#[derive(Clone, Copy, PartialEq, Eq, Structural, Debug)]
pub enum ReportLabel {
    Rip, Cs, Rflags, Rsp, Ss, Error, ErrorCode, Cr2,
    Rax, Rbx, Rcx, Rdx, Rsi, Rdi, Rbp, R8, R9, R10, R11, R12, R13, R14, R15,
}

/// One line of a fault report.
#[derive(Clone, Copy, PartialEq, Eq, Structural, Debug)]
pub enum ReportLine {
    /// An empty line.
    Blank,
    /// A line of `=`.
    Rule,
    /// `EXCEPTION:` and the name of the exception.
    Heading(ExceptionKind),
    /// A labelled value in hex, with 16 digits when `wide`, else 4.
    Value { label: ReportLabel, value: u64, wide: bool },
    /// Two registers side by side, 16 hex digits each.
    Regs { first: ReportLabel, first_value: u64, second: ReportLabel, second_value: u64 },
    /// One register in the same form.
    Reg { label: ReportLabel, value: u64 },
    /// The selector index of a #GP error code.
    SelectorIndex(u64),
    /// The table of a #GP error code.
    Table(SelectorTable),
    /// Whether a #GP came from an external event.
    External(bool),
    /// Bit `bit` (0..4) of a page-fault error code and whether it is set.
    PageFaultBit { bit: u8, set: bool },
}

/// A labelled 16-digit value.
pub open spec fn wide(label: ReportLabel, value: u64) -> ReportLine {
    ReportLine::Value { label, value, wide: true }
}

/// A labelled 4-digit value.
pub open spec fn narrow(label: ReportLabel, value: u64) -> ReportLine {
    ReportLine::Value { label, value, wide: false }
}

/// Two registers side by side.
pub open spec fn regs2(a: ReportLabel, av: u64, b: ReportLabel, bv: u64) -> ReportLine {
    ReportLine::Regs { first: a, first_value: av, second: b, second_value: bv }
}

/// The double-fault report: the CPU frame, the error code and every
/// general register, between rules.
pub open spec fn double_fault_report(f: InterruptFrame, k: ExceptionKind) -> Seq<ReportLine> {
    seq![ReportLine::Blank, ReportLine::Rule, ReportLine::Heading(k), ReportLine::Rule,
        wide(ReportLabel::Rip, f.rip), narrow(ReportLabel::Cs, f.cs), wide(ReportLabel::Rflags, f.rflags),
        wide(ReportLabel::Rsp, f.rsp), narrow(ReportLabel::Ss, f.ss), wide(ReportLabel::Error, f.error_code),
        ReportLine::Blank,
        regs2(ReportLabel::Rax, f.rax, ReportLabel::Rbx, f.rbx), regs2(ReportLabel::Rcx, f.rcx, ReportLabel::Rdx, f.rdx),
        regs2(ReportLabel::Rsi, f.rsi, ReportLabel::Rdi, f.rdi), regs2(ReportLabel::Rbp, f.rbp, ReportLabel::R8, f.r8),
        regs2(ReportLabel::R9, f.r9, ReportLabel::R10, f.r10), regs2(ReportLabel::R11, f.r11, ReportLabel::R12, f.r12),
        regs2(ReportLabel::R13, f.r13, ReportLabel::R14, f.r14),
        ReportLine::Reg { label: ReportLabel::R15, value: f.r15 },
        ReportLine::Rule]
}

/// The #GP report: the error code, its selector fields when it is
/// non-zero, then RIP, CS and RSP.
pub open spec fn gp_report(f: InterruptFrame, k: ExceptionKind) -> Seq<ReportLine> {
    let e = f.error_code;
    seq![ReportLine::Blank, ReportLine::Heading(k), narrow(ReportLabel::ErrorCode, e)]
        + (if e != 0 {
            seq![ReportLine::SelectorIndex((e / 8) % 0x2000), ReportLine::Table(table_of((e / 2) % 4)), ReportLine::External(e % 2 == 1)]
        } else {
            Seq::empty()
        })
        + seq![wide(ReportLabel::Rip, f.rip), narrow(ReportLabel::Cs, f.cs), wide(ReportLabel::Rsp, f.rsp)]
}

/// The page-fault report: the faulting address `cr2`, the error code and
/// its five low bits, then RIP and RSP.
pub open spec fn pf_report(f: InterruptFrame, k: ExceptionKind, cr2: u64) -> Seq<ReportLine> {
    let e = f.error_code;
    seq![ReportLine::Blank, ReportLine::Heading(k), wide(ReportLabel::Cr2, cr2), narrow(ReportLabel::ErrorCode, e),
        ReportLine::PageFaultBit { bit: 0, set: e % 2 == 1 },
        ReportLine::PageFaultBit { bit: 1, set: (e / 2) % 2 == 1 },
        ReportLine::PageFaultBit { bit: 2, set: (e / 4) % 2 == 1 },
        ReportLine::PageFaultBit { bit: 3, set: (e / 8) % 2 == 1 },
        ReportLine::PageFaultBit { bit: 4, set: (e / 16) % 2 == 1 },
        wide(ReportLabel::Rip, f.rip), wide(ReportLabel::Rsp, f.rsp)]
}

/// The report printed for the exception in `f` before the kernel stops;
/// `cr2` is the faulting address, read for a page fault.
pub open spec fn exception_report(f: InterruptFrame, cr2: u64) -> Seq<ReportLine> {
    let k = exception_meaning(f.vector, f.error_code);
    if f.vector == 0 {
        seq![ReportLine::Blank, ReportLine::Heading(k), wide(ReportLabel::Rip, f.rip), narrow(ReportLabel::Cs, f.cs),
            wide(ReportLabel::Rflags, f.rflags), wide(ReportLabel::Rsp, f.rsp)]
    } else if f.vector == 6 {
        seq![ReportLine::Blank, ReportLine::Heading(k), wide(ReportLabel::Rip, f.rip), narrow(ReportLabel::Cs, f.cs)]
    } else if f.vector == 8 {
        double_fault_report(f, k)
    } else if f.vector == 13 {
        gp_report(f, k)
    } else if f.vector == 14 {
        pf_report(f, k, cr2)
    } else if f.vector < 32 {
        seq![ReportLine::Blank, ReportLine::Heading(k), wide(ReportLabel::Rip, f.rip), wide(ReportLabel::Error, f.error_code)]
    } else {
        seq![ReportLine::Heading(k)]
    }
}

/// The lines of the report on the exception in `frame`, which the kernel
/// prints before it halts; `cr2` is the faulting address (used for a
/// page fault only).
pub fn exception_report_lines(frame: &InterruptFrame, cr2: u64) -> (r: Vec<ReportLine>)
    ensures
        r@ == exception_report(*frame, cr2),
{
    let k = exception_dispatch(frame);
    let e = frame.error_code;
    proof { lemma_error_bits(e); }
    let mut out: Vec<ReportLine> = Vec::new();
    let v = frame.vector;
    if v == 0 {
        out.push(ReportLine::Blank);
        out.push(ReportLine::Heading(k));
        out.push(ReportLine::Value { label: ReportLabel::Rip, value: frame.rip, wide: true });
        out.push(ReportLine::Value { label: ReportLabel::Cs, value: frame.cs, wide: false });
        out.push(ReportLine::Value { label: ReportLabel::Rflags, value: frame.rflags, wide: true });
        out.push(ReportLine::Value { label: ReportLabel::Rsp, value: frame.rsp, wide: true });
    } else if v == 6 {
        out.push(ReportLine::Blank);
        out.push(ReportLine::Heading(k));
        out.push(ReportLine::Value { label: ReportLabel::Rip, value: frame.rip, wide: true });
        out.push(ReportLine::Value { label: ReportLabel::Cs, value: frame.cs, wide: false });
    } else if v == 8 {
        out.push(ReportLine::Blank);
        out.push(ReportLine::Rule);
        out.push(ReportLine::Heading(k));
        out.push(ReportLine::Rule);
        out.push(ReportLine::Value { label: ReportLabel::Rip, value: frame.rip, wide: true });
        out.push(ReportLine::Value { label: ReportLabel::Cs, value: frame.cs, wide: false });
        out.push(ReportLine::Value { label: ReportLabel::Rflags, value: frame.rflags, wide: true });
        out.push(ReportLine::Value { label: ReportLabel::Rsp, value: frame.rsp, wide: true });
        out.push(ReportLine::Value { label: ReportLabel::Ss, value: frame.ss, wide: false });
        out.push(ReportLine::Value { label: ReportLabel::Error, value: e, wide: true });
        out.push(ReportLine::Blank);
        out.push(ReportLine::Regs { first: ReportLabel::Rax, first_value: frame.rax, second: ReportLabel::Rbx, second_value: frame.rbx });
        out.push(ReportLine::Regs { first: ReportLabel::Rcx, first_value: frame.rcx, second: ReportLabel::Rdx, second_value: frame.rdx });
        out.push(ReportLine::Regs { first: ReportLabel::Rsi, first_value: frame.rsi, second: ReportLabel::Rdi, second_value: frame.rdi });
        out.push(ReportLine::Regs { first: ReportLabel::Rbp, first_value: frame.rbp, second: ReportLabel::R8, second_value: frame.r8 });
        out.push(ReportLine::Regs { first: ReportLabel::R9, first_value: frame.r9, second: ReportLabel::R10, second_value: frame.r10 });
        out.push(ReportLine::Regs { first: ReportLabel::R11, first_value: frame.r11, second: ReportLabel::R12, second_value: frame.r12 });
        out.push(ReportLine::Regs { first: ReportLabel::R13, first_value: frame.r13, second: ReportLabel::R14, second_value: frame.r14 });
        out.push(ReportLine::Reg { label: ReportLabel::R15, value: frame.r15 });
        out.push(ReportLine::Rule);
    } else if v == 13 {
        out.push(ReportLine::Blank);
        out.push(ReportLine::Heading(k));
        out.push(ReportLine::Value { label: ReportLabel::ErrorCode, value: e, wide: false });
        if e != 0 {
            let bits = (e >> 1u64) & 0x03;
            let table = if bits == 0 { SelectorTable::Gdt } else if bits == 2 { SelectorTable::Ldt } else { SelectorTable::Idt };
            out.push(ReportLine::SelectorIndex((e >> 3u64) & 0x1FFF));
            out.push(ReportLine::Table(table));
            out.push(ReportLine::External(e & 1 != 0));
        }
        out.push(ReportLine::Value { label: ReportLabel::Rip, value: frame.rip, wide: true });
        out.push(ReportLine::Value { label: ReportLabel::Cs, value: frame.cs, wide: false });
        out.push(ReportLine::Value { label: ReportLabel::Rsp, value: frame.rsp, wide: true });
    } else if v == 14 {
        out.push(ReportLine::Blank);
        out.push(ReportLine::Heading(k));
        out.push(ReportLine::Value { label: ReportLabel::Cr2, value: cr2, wide: true });
        out.push(ReportLine::Value { label: ReportLabel::ErrorCode, value: e, wide: false });
        out.push(ReportLine::PageFaultBit { bit: 0, set: e & 1 != 0 });
        out.push(ReportLine::PageFaultBit { bit: 1, set: e & 2 != 0 });
        out.push(ReportLine::PageFaultBit { bit: 2, set: e & 4 != 0 });
        out.push(ReportLine::PageFaultBit { bit: 3, set: e & 8 != 0 });
        out.push(ReportLine::PageFaultBit { bit: 4, set: e & 16 != 0 });
        out.push(ReportLine::Value { label: ReportLabel::Rip, value: frame.rip, wide: true });
        out.push(ReportLine::Value { label: ReportLabel::Rsp, value: frame.rsp, wide: true });
    } else if v < 32 {
        out.push(ReportLine::Blank);
        out.push(ReportLine::Heading(k));
        out.push(ReportLine::Value { label: ReportLabel::Rip, value: frame.rip, wide: true });
        out.push(ReportLine::Value { label: ReportLabel::Error, value: e, wide: true });
    } else {
        out.push(ReportLine::Heading(k));
    }
    proof {
        assert(out@ =~= exception_report(*frame, cr2));
    }
    out
}

/// What a hardware interrupt asks for.
#[derive(Clone, Copy, PartialEq, Eq, Structural, Debug)]
pub enum IrqAction {
    /// Timer: end of interrupt, then reschedule.
    Schedule,
    /// Spurious: nothing (no end of interrupt).
    Ignore,
    /// Any other: log it, then end of interrupt.
    Acknowledge { vector: u64 },
}

/// What the interrupt on `vector` asks for.
pub fn irq_dispatch(vector: u64) -> (r: IrqAction)
    ensures
        r == if vector == 32 { IrqAction::Schedule } else if vector == 255 { IrqAction::Ignore } else { IrqAction::Acknowledge { vector } },
{
    if vector == 32 {
        IrqAction::Schedule
    } else if vector == 255 {
        IrqAction::Ignore
    } else {
        IrqAction::Acknowledge { vector }
    }
}

/// Kernel code selector the gates use.
pub const KERNEL_CS: u16 = 0x08;

/// A present, ring-0, 64-bit interrupt gate.
#[derive(Clone, Copy, PartialEq, Eq, Structural, Debug)]
pub struct IdtGate {
    pub offset_lo: u16,
    pub selector: u16,
    pub ist: u8,
    pub type_attr: u8,
    pub offset_mid: u16,
    pub offset_hi: u32,
    pub reserved: u32,
}

/// The handler address a gate holds.
pub open spec fn gate_handler(g: IdtGate) -> int {
    g.offset_lo + g.offset_mid * 0x1_0000 + g.offset_hi * 0x1_0000_0000
}

impl IdtGate {
    /// An interrupt gate for `handler` on the kernel code segment, using
    /// interrupt stack `ist_index` (low three bits).
    pub fn interrupt_gate(handler: u64, ist_index: u8) -> (r: Self)
        ensures
            gate_handler(r) == handler,
            r.selector == KERNEL_CS,
            r.ist == ist_index % 8,
            r.type_attr == 0x8E,
            r.reserved == 0,
    {
        proof {
            assert((handler as u16) as int + ((handler >> 16u64) as u16) as int * 0x1_0000
                + ((handler >> 32u64) as u32) as int * 0x1_0000_0000 == handler && ist_index & 0x07 == ist_index % 8) by (bit_vector);
        }
        IdtGate {
            offset_lo: handler as u16,
            selector: KERNEL_CS,
            ist: ist_index & 0x07,
            type_attr: 0x8E,
            offset_mid: (handler >> 16u64) as u16,
            offset_hi: (handler >> 32u64) as u32,
            reserved: 0,
        }
    }
}

/// The vectors that get a gate, with their interrupt stack: the CPU
/// exceptions 0..19 except 9 and 15 (the double fault, 8, on IST1), the
/// sixteen hardware interrupts 32..47, and the spurious vector 255, in
/// increasing order.
pub fn installed_vectors() -> (r: Vec<(u8, u8)>)
    ensures
        r@.len() == 35,
        forall|k: int| 0 <= k < r@.len() ==> ((#[trigger] r@[k]).1 == 1 <==> r@[k].0 == 8),
        forall|k: int| 0 <= k < r@.len() ==> {
            let v = (#[trigger] r@[k]).0;
            (v < 20 && v != 9 && v != 15) || (32 <= v < 48) || v == 255
        },
        forall|i: int, j: int| 0 <= i < j < r@.len() ==> (#[trigger] r@[i]).0 < (#[trigger] r@[j]).0,
{
    let mut out: Vec<(u8, u8)> = Vec::new();
    let mut v: u8 = 0;
    while v < 20
        invariant
            0 <= v <= 20,
            out@.len() == if v <= 9 { v as int } else if v <= 15 { v - 1 } else { v - 2 },
            forall|k: int| 0 <= k < out@.len() ==> ((#[trigger] out@[k]).1 == 1 <==> out@[k].0 == 8),
            forall|k: int| 0 <= k < out@.len() ==> {
                let w = (#[trigger] out@[k]).0;
                w < v && w < 20 && w != 9 && w != 15
            },
            forall|i: int, j: int| 0 <= i < j < out@.len() ==> (#[trigger] out@[i]).0 < (#[trigger] out@[j]).0,
        decreases 20 - v,
    {
        if v != 9 && v != 15 {
            let ist: u8 = if v == 8 { 1 } else { 0 };
            out.push((v, ist));
        }
        v = v + 1;
    }
    let mut irq: u8 = 32;
    while irq < 48
        invariant
            32 <= irq <= 48,
            out@.len() == 18 + (irq - 32),
            forall|k: int| 0 <= k < out@.len() ==> ((#[trigger] out@[k]).1 == 1 <==> out@[k].0 == 8),
            forall|k: int| 0 <= k < out@.len() ==> {
                let w = (#[trigger] out@[k]).0;
                (w < 20 && w != 9 && w != 15) || (32 <= w < irq)
            },
            forall|i: int, j: int| 0 <= i < j < out@.len() ==> (#[trigger] out@[i]).0 < (#[trigger] out@[j]).0,
        decreases 48 - irq,
    {
        out.push((irq, 0));
        irq = irq + 1;
    }
    out.push((255, 0));
    out
}

} // verus!
