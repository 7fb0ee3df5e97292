//! System calls: decoding the saved registers and the capability checks
//! and object operations each call performs.
//!
//! Every call names its objects through slots of the caller's capability
//! node. The result is 0 (or a slot/thread number) on success and a code
//! near `u64::MAX` on failure; the codes are listed below.

use vstd::prelude::*;
use crate::cap::cnode::{CNode, CapObject, CapRights, Capability, CNODE_SLOTS, RIGHTS_READ, RIGHTS_WRITE, RIGHTS_ALL, is_first_empty};
use crate::ipc::endpoint::{Endpoint, SendOutcome, RecvOutcome};
use crate::ipc::message::IpcMessage;
use crate::memory::address::{PhysAddr, VirtAddr, USER_HALF_END};
use crate::memory::pmm::{BitmapAllocator, is_next_fit, frame_of};
use crate::memory::vmm::{self, PageTableFlags, PRESENT, USER, WRITABLE, NO_EXECUTE};

verus! {

pub const SYS_SEND: u64 = 1;
pub const SYS_RECV: u64 = 2;
pub const SYS_PORT_OUT: u64 = 3;
pub const SYS_PORT_IN: u64 = 4;
pub const SYS_WAIT_IRQ: u64 = 5;
pub const SYS_SPAWN_PROCESS: u64 = 6;
pub const SYS_ALLOC_MEMORY: u64 = 7;
pub const SYS_MAP_MEMORY: u64 = 8;
pub const SYS_DELEGATE: u64 = 9;
pub const SYS_SPAWN_THREAD: u64 = 10;

/// Failure codes: `u64::MAX - k`.
pub const ERR_0: u64 = 0xFFFF_FFFF_FFFF_FFFF;
pub const ERR_1: u64 = 0xFFFF_FFFF_FFFF_FFFE;
pub const ERR_2: u64 = 0xFFFF_FFFF_FFFF_FFFD;
pub const ERR_3: u64 = 0xFFFF_FFFF_FFFF_FFFC;
pub const ERR_4: u64 = 0xFFFF_FFFF_FFFF_FFFB;
pub const ERR_5: u64 = 0xFFFF_FFFF_FFFF_FFFA;
pub const ERR_6: u64 = 0xFFFF_FFFF_FFFF_FFF9;

/// Endpoints the kernel can register.
pub const MAX_ENDPOINTS: usize = 64;
/// Interrupt lines a thread can wait on.
pub const MAX_IRQ_LINES: usize = 16;

/// The registers saved on system-call entry.
#[derive(Clone, Copy, PartialEq, Eq, Structural, Debug)]
pub struct SyscallFrame {
    pub r15: u64,
    pub r14: u64,
    pub r13: u64,
    pub r12: u64,
    pub r11: u64,
    pub r10: u64,
    pub r9: u64,
    pub r8: u64,
    pub rbp: u64,
    pub rdi: u64,
    pub rsi: u64,
    pub rdx: u64,
    pub rcx: u64,
    pub rbx: u64,
    pub rax: u64,
    pub user_rsp: u64,
}

/// A decoded system call: the number in RAX, arguments in RDI, RSI, RDX
/// and R10.
#[derive(Clone, Copy, PartialEq, Eq, Structural, Debug)]
pub enum Syscall {
    Send { slot: u64, label: u64, data0: u64, data1: u64 },
    Recv { slot: u64 },
    PortOut { slot: u64, port: u64, value: u64 },
    PortIn { slot: u64, port: u64 },
    WaitIrq { slot: u64 },
    SpawnProcess,
    AllocMemory { alloc_slot: u64, target_slot: u64 },
    MapMemory { proc_slot: u64, frame_slot: u64, vaddr: u64, flags: u64 },
    Delegate { proc_slot: u64, src_slot: u64, dst_slot: u64 },
    SpawnThread { proc_slot: u64, user_rip: u64, user_rsp: u64 },
    Unknown { number: u64 },
}

/// Decodes the call in `frame`.
pub fn syscall_dispatch(frame: &SyscallFrame) -> (r: Syscall)
    ensures
        r == match frame.rax {
            1 => Syscall::Send { slot: frame.rdi, label: frame.rsi, data0: frame.rdx, data1: frame.r10 },
            2 => Syscall::Recv { slot: frame.rdi },
            3 => Syscall::PortOut { slot: frame.rdi, port: frame.rsi, value: frame.rdx },
            4 => Syscall::PortIn { slot: frame.rdi, port: frame.rsi },
            5 => Syscall::WaitIrq { slot: frame.rdi },
            6 => Syscall::SpawnProcess,
            7 => Syscall::AllocMemory { alloc_slot: frame.rdi, target_slot: frame.rsi },
            8 => Syscall::MapMemory { proc_slot: frame.rdi, frame_slot: frame.rsi, vaddr: frame.rdx, flags: frame.r10 },
            9 => Syscall::Delegate { proc_slot: frame.rdi, src_slot: frame.rsi, dst_slot: frame.rdx },
            10 => Syscall::SpawnThread { proc_slot: frame.rdi, user_rip: frame.rsi, user_rsp: frame.rdx },
            _ => Syscall::Unknown { number: frame.rax },
        },
{
    match frame.rax {
        SYS_SEND => Syscall::Send { slot: frame.rdi, label: frame.rsi, data0: frame.rdx, data1: frame.r10 },
        SYS_RECV => Syscall::Recv { slot: frame.rdi },
        SYS_PORT_OUT => Syscall::PortOut { slot: frame.rdi, port: frame.rsi, value: frame.rdx },
        SYS_PORT_IN => Syscall::PortIn { slot: frame.rdi, port: frame.rsi },
        SYS_WAIT_IRQ => Syscall::WaitIrq { slot: frame.rdi },
        SYS_SPAWN_PROCESS => Syscall::SpawnProcess,
        SYS_ALLOC_MEMORY => Syscall::AllocMemory { alloc_slot: frame.rdi, target_slot: frame.rsi },
        SYS_MAP_MEMORY => Syscall::MapMemory { proc_slot: frame.rdi, frame_slot: frame.rsi, vaddr: frame.rdx, flags: frame.r10 },
        SYS_DELEGATE => Syscall::Delegate { proc_slot: frame.rdi, src_slot: frame.rsi, dst_slot: frame.rdx },
        SYS_SPAWN_THREAD => Syscall::SpawnThread { proc_slot: frame.rdi, user_rip: frame.rsi, user_rsp: frame.rdx },
        _ => Syscall::Unknown { number: frame.rax },
    }
}

/// The capability in `slot` of `node`, when the slot exists and holds one.
pub open spec fn cap_at(node: &CNode, slot: u64) -> Option<Capability> {
    if slot < CNODE_SLOTS && !(node.slots@[slot as int].object is Empty) {
        Some(node.slots@[slot as int])
    } else {
        None
    }
}

/// Looks up `slot`, which callers pass as a full register.
fn lookup_slot(node: &CNode, slot: u64) -> (r: Option<Capability>)
    ensures
        r == cap_at(node, slot),
{
    if slot >= CNODE_SLOTS as u64 {
        return None;
    }
    match node.lookup(slot as usize) {
        Some(c) => Some(*c),
        None => None,
    }
}

/// The endpoint a send (`need_write`) or receive names: the capability
/// must exist (else `ERR_0`), carry the right (else `ERR_1`) and be an
/// endpoint (else `ERR_2`).
pub open spec fn endpoint_check(node: &CNode, slot: u64, need_write: bool) -> Result<u64, u64> {
    match cap_at(node, slot) {
        None => Err(ERR_0),
        Some(c) => match c.object {
            CapObject::Endpoint { id } => {
                let right: u8 = if need_write { RIGHTS_WRITE } else { RIGHTS_READ };
                if c.rights.value() & right == right { Ok(id) } else { Err(ERR_1) }
            },
            _ => Err(ERR_2),
        },
    }
}

/// The endpoint id a send (`need_write`) or receive may use.
pub fn endpoint_for(node: &CNode, slot: u64, need_write: bool) -> (r: Result<u64, u64>)
    ensures
        r == endpoint_check(node, slot, need_write),
{
    match lookup_slot(node, slot) {
        None => Err(ERR_0),
        Some(c) => match c.object {
            CapObject::Endpoint { id } => {
                let right: u8 = if need_write { RIGHTS_WRITE } else { RIGHTS_READ };
                if c.rights.contains(CapRights::from_raw(right)) { Ok(id) } else { Err(ERR_1) }
            },
            _ => Err(ERR_2),
        },
    }
}

/// The registered endpoints, by id.
pub struct EndpointTable {
    slots: Vec<Option<Endpoint>>,
}

impl EndpointTable {
    /// The endpoints by id.
    pub closed spec fn entries(&self) -> Seq<Option<Endpoint>> {
        self.slots@
    }

    /// One entry per id; every registered endpoint is well formed and
    /// registered under its own id.
    pub closed spec fn wf(&self) -> bool {
        &&& self.slots@.len() == MAX_ENDPOINTS
        &&& forall|i: int| 0 <= i < MAX_ENDPOINTS ==> (#[trigger] self.slots@[i] matches Some(e) ==> e.wf() && e.spec_id() == i)
    }

    /// No endpoint registered.
    pub fn new() -> (r: Self)
        ensures
            r.wf(),
            forall|i: int| 0 <= i < MAX_ENDPOINTS ==> #[trigger] r.entries()[i] is None,
    {
        let mut slots: Vec<Option<Endpoint>> = Vec::new();
        let mut i: usize = 0;
        while i < MAX_ENDPOINTS
            invariant
                0 <= i <= MAX_ENDPOINTS,
                slots@.len() == i,
                forall|k: int| 0 <= k < i ==> #[trigger] slots@[k] is None,
            decreases MAX_ENDPOINTS - i,
        {
            slots.push(None);
            i = i + 1;
        }
        EndpointTable { slots }
    }
}

/// Registers `ep` under its id, which must be below `MAX_ENDPOINTS`.
pub fn register_endpoint(table: &mut EndpointTable, ep: Endpoint)
    requires
        old(table).wf(),
        ep.wf(),
        ep.spec_id() < MAX_ENDPOINTS,
    ensures
        final(table).wf(),
        final(table).entries() == old(table).entries().update(ep.spec_id() as int, Some(ep)),
{
    let id = ep.id() as usize;
    table.slots.set(id, Some(ep));
}

/// What a send does: the code and, on success, what the endpoint decided.
pub open spec fn send_check(node: &CNode, table: &EndpointTable, slot: u64) -> Result<u64, u64> {
    match endpoint_check(node, slot, true) {
        Err(e) => Err(e),
        Ok(id) => if id < MAX_ENDPOINTS && table.entries()[id as int] is Some { Ok(id) } else { Err(ERR_3) },
    }
}

/// `SYS_SEND`: thread `sender` sends `label` and two data words through
/// the endpoint in `slot`. Fails with `ERR_0`/`ERR_1`/`ERR_2` as
/// `endpoint_for`, or `ERR_3` when no such endpoint is registered;
/// otherwise the endpoint hands the message on or blocks the sender, and
/// the call returns 0.
pub fn sys_send(
    node: &CNode,
    table: &mut EndpointTable,
    sender: u64,
    slot: u64,
    label: u64,
    data0: u64,
    data1: u64,
) -> (r: (u64, Option<SendOutcome>))
    requires
        old(table).wf(),
    ensures
        final(table).wf(),
        match send_check(node, old(table), slot) {
            Err(e) => r.0 == e && r.1 is None && final(table).entries() == old(table).entries(),
            Ok(id) => {
                &&& r.0 == 0
                &&& r.1 is Some
                &&& final(table).entries()[id as int] is Some
                &&& forall|i: int| 0 <= i < MAX_ENDPOINTS && i != id ==> #[trigger] final(table).entries()[i] == old(table).entries()[i]
                &&& ({
                    let before = old(table).entries()[id as int]->0;
                    let after = final(table).entries()[id as int]->0;
                    before.receivers().len() > 0 ==> r.1 == Some(SendOutcome::Delivered { receiver: before.receivers()[0] })
                        && after.receivers() == before.receivers().drop_first() && after.senders() == before.senders()
                })
                &&& ({
                    let before = old(table).entries()[id as int]->0;
                    let after = final(table).entries()[id as int]->0;
                    before.receivers().len() == 0 ==> (r.1 matches Some(SendOutcome::Blocked)
                        && after.senders().len() == before.senders().len() + 1
                        && after.senders().drop_last() == before.senders()
                        && after.senders().last().0 == sender
                        && after.senders().last().1.label == label
                        && after.senders().last().1.regs@ == seq![data0, data1, 0u64, 0u64]
                        && after.receivers() == before.receivers())
                })
            },
        },
{
    let id = match endpoint_for(node, slot, true) {
        Err(e) => return (e, None),
        Ok(id) => id,
    };
    if id >= MAX_ENDPOINTS as u64 {
        return (ERR_3, None);
    }
    let idx = id as usize;
    let taken = table.slots[idx].take();
    match taken {
        None => {
            proof { assert(table.slots@ =~= old(table).slots@); }
            (ERR_3, None)
        },
        Some(mut ep) => {
            let msg = IpcMessage::with_data(label, [data0, data1, 0, 0]);
            let outcome = ep.send(sender, msg);
            table.slots.set(idx, Some(ep));
            (0, Some(outcome))
        },
    }
}

/// What a receive through `slot` does: the endpoint id, or the code.
pub open spec fn recv_check(node: &CNode, table: &EndpointTable, slot: u64) -> Result<u64, u64> {
    match endpoint_check(node, slot, false) {
        Err(e) => Err(e),
        Ok(id) => if id < MAX_ENDPOINTS && table.entries()[id as int] is Some { Ok(id) } else { Err(ERR_3) },
    }
}

/// `SYS_RECV`: thread `receiver` receives through the endpoint in `slot`.
/// Fails as `sys_send` does (the right needed is READ). Otherwise the
/// endpoint hands over the longest-waiting sender's message, which is
/// written into the frame's registers, or blocks the receiver (the frame
/// is filled by `deliver_to_frame` when a sender arrives); the call
/// returns 0.
pub fn sys_recv(
    node: &CNode,
    table: &mut EndpointTable,
    frame: &mut SyscallFrame,
    receiver: u64,
    slot: u64,
) -> (r: (u64, Option<RecvOutcome>))
    requires
        old(table).wf(),
    ensures
        final(table).wf(),
        match recv_check(node, old(table), slot) {
            Err(e) => {
                &&& r.0 == e
                &&& r.1 is None
                &&& final(table).entries() == old(table).entries()
                &&& *final(frame) == *old(frame)
            },
            Ok(id) => {
                &&& r.0 == 0
                &&& r.1 is Some
                &&& final(table).entries()[id as int] is Some
                &&& forall|i: int| 0 <= i < MAX_ENDPOINTS && i != id ==> #[trigger] final(table).entries()[i] == old(table).entries()[i]
                &&& ({
                    let before = old(table).entries()[id as int]->0;
                    let after = final(table).entries()[id as int]->0;
                    before.senders().len() > 0 ==> {
                        &&& r.1 == Some(RecvOutcome::Received { msg: before.senders()[0].1, sender: before.senders()[0].0 })
                        &&& after.senders() == before.senders().drop_first()
                        &&& after.receivers() == before.receivers()
                        &&& *final(frame) == frame_with_message(*old(frame), before.senders()[0].1)
                    }
                })
                &&& ({
                    let before = old(table).entries()[id as int]->0;
                    let after = final(table).entries()[id as int]->0;
                    before.senders().len() == 0 ==> {
                        &&& r.1 matches Some(RecvOutcome::Blocked)
                        &&& after.receivers() == before.receivers().push(receiver)
                        &&& after.senders() == before.senders()
                        &&& *final(frame) == *old(frame)
                    }
                })
            },
        },
{
    let id = match endpoint_for(node, slot, false) {
        Err(e) => return (e, None),
        Ok(id) => id,
    };
    if id >= MAX_ENDPOINTS as u64 {
        return (ERR_3, None);
    }
    let idx = id as usize;
    let taken = table.slots[idx].take();
    match taken {
        None => {
            proof { assert(table.slots@ =~= old(table).slots@); }
            (ERR_3, None)
        },
        Some(mut ep) => {
            let outcome = ep.recv(receiver);
            table.slots.set(idx, Some(ep));
            match outcome {
                RecvOutcome::Received { msg, .. } => deliver_to_frame(frame, &msg),
                RecvOutcome::Blocked => {},
            }
            (0, Some(outcome))
        },
    }
}

/// The frame after a received message is placed in its registers: the
/// label in RDI, data words 0, 1 and 2 in RSI, RDX and R10.
pub open spec fn frame_with_message(f: SyscallFrame, msg: IpcMessage) -> SyscallFrame {
    SyscallFrame { rdi: msg.label, rsi: msg.regs@[0], rdx: msg.regs@[1], r10: msg.regs@[2], ..f }
}

/// Places a received message in the registers the caller sees on return.
pub fn deliver_to_frame(frame: &mut SyscallFrame, msg: &IpcMessage)
    ensures
        *final(frame) == frame_with_message(*old(frame), *msg),
{
    frame.rdi = msg.label;
    frame.rsi = msg.regs[0];
    frame.rdx = msg.regs[1];
    frame.r10 = msg.regs[2];
}

/// Whether `port` (truncated to 16 bits) lies in `[base, base + size)`.
pub open spec fn port_in_range(port: u64, base: u16, size: u16) -> bool {
    base <= (port as u16) && (port as u16) < base + size
}

/// What a port access through `slot` does: the 16-bit port, or the code.
/// The capability must exist (else `ERR_0`), be an I/O-port range (else
/// `ERR_2`) with the right (else `ERR_1`), and hold the port (else
/// `ERR_4`).
pub open spec fn port_check(node: &CNode, slot: u64, port: u64, need_write: bool) -> Result<u16, u64> {
    match cap_at(node, slot) {
        None => Err(ERR_0),
        Some(c) => match c.object {
            CapObject::IoPort { base, size } => {
                let right: u8 = if need_write { RIGHTS_WRITE } else { RIGHTS_READ };
                if c.rights.value() & right != right {
                    Err(ERR_1)
                } else if !port_in_range(port, base, size) {
                    Err(ERR_4)
                } else {
                    Ok(port as u16)
                }
            },
            _ => Err(ERR_2),
        },
    }
}

/// The port a write (`need_write`) or read may touch.
pub fn port_for(node: &CNode, slot: u64, port: u64, need_write: bool) -> (r: Result<u16, u64>)
    ensures
        r == port_check(node, slot, port, need_write),
{
    match lookup_slot(node, slot) {
        None => Err(ERR_0),
        Some(c) => match c.object {
            CapObject::IoPort { base, size } => {
                let right: u8 = if need_write { RIGHTS_WRITE } else { RIGHTS_READ };
                if !c.rights.contains(CapRights::from_raw(right)) {
                    return Err(ERR_1);
                }
                let port16 = port as u16;
                if port16 < base || port16 as u32 >= base as u32 + size as u32 {
                    return Err(ERR_4);
                }
                Ok(port16)
            },
            _ => Err(ERR_2),
        },
    }
}

/// `SYS_PORT_OUT`: the port and the byte (the low 8 bits of `value`) to
/// write, or the failure code.
pub fn sys_port_out(node: &CNode, slot: u64, port: u64, value: u64) -> (r: Result<(u16, u8), u64>)
    ensures
        match port_check(node, slot, port, true) {
            Ok(p) => r == Ok::<(u16, u8), u64>((p, value as u8)),
            Err(e) => r == Err::<(u16, u8), u64>(e),
        },
{
    match port_for(node, slot, port, true) {
        Ok(p) => Ok((p, value as u8)),
        Err(e) => Err(e),
    }
}

/// `SYS_PORT_IN`: the port to read, or the failure code. The byte read
/// is handed back by `port_in_complete`.
pub fn sys_port_in(node: &CNode, slot: u64, port: u64) -> (r: Result<u16, u64>)
    ensures
        r == port_check(node, slot, port, false),
{
    port_for(node, slot, port, false)
}

/// Places the byte read from a port in RDI, where the caller sees it.
pub fn port_in_complete(frame: &mut SyscallFrame, byte: u8)
    ensures
        *final(frame) == (SyscallFrame { rdi: byte as u64, ..*old(frame) }),
{
    frame.rdi = byte as u64;
}

/// At most one thread waits on each interrupt line.
pub struct IrqWaiters {
    waiters: [Option<u64>; 16],
}

impl IrqWaiters {
    /// The waiting thread of each line.
    pub closed spec fn lines(&self) -> Seq<Option<u64>> {
        self.waiters@
    }

    /// No thread waiting.
    pub fn new() -> (r: Self)
        ensures
            r.lines().len() == MAX_IRQ_LINES,
            forall|i: int| 0 <= i < MAX_IRQ_LINES ==> #[trigger] r.lines()[i] is None,
    {
        IrqWaiters { waiters: [None; 16] }
    }

    /// One entry per line.
    pub proof fn lemma_len(&self)
        ensures
            self.lines().len() == MAX_IRQ_LINES,
    {
    }
}

/// What a wait through `slot` does: the line, or the code. The
/// capability must exist (else `ERR_0`) and be an interrupt (else
/// `ERR_2`) of a line below `MAX_IRQ_LINES` (else `ERR_4`) that nobody
/// waits on yet (else `ERR_5`).
pub open spec fn wait_irq_check(node: &CNode, waiters: &IrqWaiters, slot: u64) -> Result<u32, u64> {
    match cap_at(node, slot) {
        None => Err(ERR_0),
        Some(c) => match c.object {
            CapObject::Interrupt { irq } => {
                if irq >= MAX_IRQ_LINES {
                    Err(ERR_4)
                } else if waiters.lines()[irq as int] is Some {
                    Err(ERR_5)
                } else {
                    Ok(irq)
                }
            },
            _ => Err(ERR_2),
        },
    }
}

/// `SYS_WAIT_IRQ`: registers `thread` as the waiter of the interrupt line
/// in `slot` and returns 0 (the thread then blocks until
/// `notify_irq_waiters`), or returns the failure code and changes nothing.
pub fn sys_wait_irq(node: &CNode, waiters: &mut IrqWaiters, slot: u64, thread: u64) -> (r: u64)
    ensures
        match wait_irq_check(node, old(waiters), slot) {
            Ok(irq) => r == 0 && final(waiters).lines() == old(waiters).lines().update(irq as int, Some(thread)),
            Err(e) => r == e && final(waiters).lines() == old(waiters).lines(),
        },
{
    let cap = match lookup_slot(node, slot) {
        None => return ERR_0,
        Some(c) => c,
    };
    let irq = match cap.object {
        CapObject::Interrupt { irq } => irq,
        _ => return ERR_2,
    };
    if irq as usize >= MAX_IRQ_LINES {
        return ERR_4;
    }
    let line = irq as usize;
    if waiters.waiters[line].is_some() {
        return ERR_5;
    }
    waiters.waiters[line] = Some(thread);
    0
}

/// Line `irq` fired: takes and returns the thread waiting on it, which
/// becomes ready; `None` when the line is out of range or nobody waits.
pub fn notify_irq_waiters(waiters: &mut IrqWaiters, irq: usize) -> (r: Option<u64>)
    ensures
        irq >= MAX_IRQ_LINES ==> r is None && final(waiters).lines() == old(waiters).lines(),
        irq < MAX_IRQ_LINES ==> {
            &&& r == old(waiters).lines()[irq as int]
            &&& final(waiters).lines() == old(waiters).lines().update(irq as int, None)
        },
{
    if irq >= MAX_IRQ_LINES {
        return None;
    }
    let w = waiters.waiters[irq];
    waiters.waiters[irq] = None;
    w
}

/// A wait that succeeds is ended by the next interrupt on its line, which
/// hands back the waiting thread and frees the line again.
pub proof fn lemma_wait_then_notify(before: Seq<Option<u64>>, irq: int, thread: u64)
    requires
        0 <= irq < MAX_IRQ_LINES,
        before.len() == MAX_IRQ_LINES,
        before[irq] is None,
    ensures
        ({
            let waiting = before.update(irq, Some(thread));
            &&& waiting[irq] == Some(thread)
            &&& waiting.update(irq, None) == before
        }),
{
    assert(before.update(irq, Some(thread)).update(irq, None) =~= before);
}

/// `SYS_SPAWN_PROCESS`, after the child `child_pid` was created: a
/// capability with every right on the child goes to the caller's lowest
/// free slot, whose index is returned; `ERR_0` when the node is full.
pub fn sys_spawn_process(node: &mut CNode, child_pid: u64) -> (r: u64)
    ensures
        r != ERR_0 ==> {
            &&& is_first_empty(old(node).slots@, r as int)
            &&& final(node).slots@ == old(node).slots@.update(r as int, final(node).slots@[r as int])
            &&& final(node).slots@[r as int].object == (CapObject::Process { pid: child_pid })
            &&& final(node).slots@[r as int].rights.value() == RIGHTS_ALL
        },
        r == ERR_0 ==> {
            &&& forall|i: int| 0 <= i < CNODE_SLOTS ==> !(#[trigger] old(node).slots@[i].object is Empty)
            &&& final(node).slots@ == old(node).slots@
        },
{
    let cap = Capability::new(CapObject::Process { pid: child_pid }, CapRights::from_raw(RIGHTS_ALL));
    match node.insert(cap) {
        Some(slot) => slot as u64,
        None => ERR_0,
    }
}

/// Whether the capability in `slot` lets its holder draw frames: it must
/// exist (else `ERR_0`), be the allocator (else `ERR_1`) and carry WRITE
/// (else `ERR_2`).
pub open spec fn alloc_check(node: &CNode, slot: u64) -> Result<(), u64> {
    match cap_at(node, slot) {
        None => Err(ERR_0),
        Some(c) => match c.object {
            CapObject::PmmAllocator => {
                if c.rights.value() & RIGHTS_WRITE == RIGHTS_WRITE { Ok(()) } else { Err(ERR_2) }
            },
            _ => Err(ERR_1),
        },
    }
}

/// `SYS_ALLOC_MEMORY`: draws a frame (returned, for the caller to zero)
/// and puts a capability with every right on it in `target_slot`.
/// Fails as `alloc_check` says, with `ERR_4` when no frame is free, and
/// with `ERR_3` when `target_slot` is out of range or taken (the frame
/// stays drawn).
pub fn sys_alloc_memory(
    node: &mut CNode,
    pmm: &mut BitmapAllocator,
    alloc_slot: u64,
    target_slot: u64,
) -> (r: (u64, Option<PhysAddr>))
    requires
        old(pmm).wf(),
    ensures
        final(pmm).wf(),
        final(pmm).total() == old(pmm).total(),
        match alloc_check(old(node), alloc_slot) {
            Err(e) => {
                &&& r.0 == e && r.1 is None
                &&& final(node).slots@ == old(node).slots@
                &&& final(pmm).frames() == old(pmm).frames()
            },
            Ok(_) => match r.1 {
                None => {
                    &&& r.0 == ERR_4
                    &&& forall|i: int| 0 <= i < old(pmm).frames().len() ==> #[trigger] old(pmm).frames()[i]
                    &&& final(pmm).frames() == old(pmm).frames()
                    &&& final(node).slots@ == old(node).slots@
                },
                Some(a) => {
                    &&& a.val() % 4096 == 0
                    &&& is_next_fit(old(pmm).frames(), old(pmm).cursor() / 64, frame_of(a))
                    &&& final(pmm).frames() == old(pmm).frames().update(frame_of(a), true)
                    &&& (r.0 == 0) == (target_slot < CNODE_SLOTS && old(node).slots@[target_slot as int].object is Empty)
                    &&& r.0 == 0 ==> {
                        &&& final(node).slots@ == old(node).slots@.update(target_slot as int, final(node).slots@[target_slot as int])
                        &&& final(node).slots@[target_slot as int].object == (CapObject::MemoryFrame { phys: a.val(), order: 0 })
                        &&& final(node).slots@[target_slot as int].rights.value() == RIGHTS_ALL
                    }
                    &&& r.0 != 0 ==> r.0 == ERR_3 && final(node).slots@ == old(node).slots@
                },
            },
        },
{
    let cap = match lookup_slot(node, alloc_slot) {
        None => return (ERR_0, None),
        Some(c) => c,
    };
    match cap.object {
        CapObject::PmmAllocator => {},
        _ => return (ERR_1, None),
    }
    if !cap.rights.contains(CapRights::from_raw(RIGHTS_WRITE)) {
        return (ERR_2, None);
    }
    let phys = match pmm.alloc_frame_zeroed() {
        None => return (ERR_4, None),
        Some(p) => p,
    };
    if target_slot >= CNODE_SLOTS as u64 {
        return (ERR_3, Some(phys));
    }
    let mem_cap = Capability::new(
        CapObject::MemoryFrame { phys: phys.as_u64(), order: 0 },
        CapRights::from_raw(RIGHTS_ALL),
    );
    match node.insert_at(target_slot as usize, mem_cap) {
        Ok(()) => (0, Some(phys)),
        Err(()) => (ERR_3, Some(phys)),
    }
}

/// The process named by the capability in `slot`: it must exist (else
/// `ERR_0`) and be a process (else `ERR_1`).
pub open spec fn process_check(node: &CNode, slot: u64) -> Result<u64, u64> {
    match cap_at(node, slot) {
        None => Err(ERR_0),
        Some(c) => match c.object {
            CapObject::Process { pid } => Ok(pid),
            _ => Err(ERR_1),
        },
    }
}

/// The pid named by the process capability in `slot`.
pub fn process_for(node: &CNode, slot: u64) -> (r: Result<u64, u64>)
    ensures
        r == process_check(node, slot),
{
    match lookup_slot(node, slot) {
        None => Err(ERR_0),
        Some(c) => match c.object {
            CapObject::Process { pid } => Ok(pid),
            _ => Err(ERR_1),
        },
    }
}

/// A mapping `SYS_MAP_MEMORY` asks for: frame `phys` at `vaddr` in the
/// address space of process `pid`, with `flags`.
#[derive(Clone, Copy, Debug)]
pub struct MapRequest {
    pub pid: u64,
    pub vaddr: u64,
    pub phys: u64,
    pub flags: PageTableFlags,
}

/// The checks of `SYS_MAP_MEMORY`: the process (`ERR_0`, `ERR_1` as
/// `process_check`), the frame capability (missing: `ERR_2`; not a frame:
/// `ERR_3`) and the address (not page aligned or not in the user half:
/// `ERR_4`). Gives the pid and the frame's address.
pub open spec fn map_check(node: &CNode, proc_slot: u64, frame_slot: u64, vaddr: u64) -> Result<(u64, u64), u64> {
    match process_check(node, proc_slot) {
        Err(e) => Err(e),
        Ok(pid) => match cap_at(node, frame_slot) {
            None => Err(ERR_2),
            Some(fc) => match fc.object {
                CapObject::MemoryFrame { phys, .. } => {
                    if vaddr % 4096 != 0 || vaddr >= USER_HALF_END { Err(ERR_4) } else { Ok((pid, phys)) }
                },
                _ => Err(ERR_3),
            },
        },
    }
}

/// The page flags a user mapping gets: present and user always; writable
/// when bit 0 of `flags_raw` is set; no-execute unless bit 1 is set.
pub open spec fn user_page_flags(flags_raw: u64) -> u64 {
    (PRESENT | USER) | (if flags_raw & 1 != 0 { WRITABLE } else { 0 })
        | (if flags_raw & 2 == 0 { NO_EXECUTE } else { 0 })
}

/// `SYS_MAP_MEMORY`, up to the mapping itself: the request, or the
/// failure code of `map_check` (`map_memory` goes on to the mapping).
pub fn sys_map_memory(
    node: &CNode,
    proc_slot: u64,
    frame_slot: u64,
    vaddr: u64,
    flags_raw: u64,
) -> (r: Result<MapRequest, u64>)
    ensures
        match map_check(node, proc_slot, frame_slot, vaddr) {
            Err(e) => r == Err::<MapRequest, u64>(e),
            Ok((pid, phys)) => r matches Ok(q) && q.pid == pid && q.vaddr == vaddr && q.phys == phys
                && q.flags.value() == user_page_flags(flags_raw) & vmm::ALL_FLAGS,
        },
{
    let pid = match process_for(node, proc_slot) {
        Err(e) => return Err(e),
        Ok(p) => p,
    };
    let fc = match lookup_slot(node, frame_slot) {
        None => return Err(ERR_2),
        Some(c) => c,
    };
    let phys = match fc.object {
        CapObject::MemoryFrame { phys, .. } => phys,
        _ => return Err(ERR_3),
    };
    if vaddr % 4096 != 0 || vaddr >= USER_HALF_END {
        return Err(ERR_4);
    }
    let w: u64 = if flags_raw & 1 != 0 { WRITABLE } else { 0 };
    let x: u64 = if flags_raw & 2 == 0 { NO_EXECUTE } else { 0 };
    let flags = PageTableFlags::from_bits_truncate((PRESENT | USER) | w | x);
    Ok(MapRequest { pid, vaddr, phys, flags })
}

/// The root table of the first process with pid `pid` in `procs` from
/// position `k` on.
pub open spec fn root_from(procs: Seq<(u64, PhysAddr)>, pid: u64, k: int) -> Option<PhysAddr>
    decreases procs.len() - k,
{
    if k < 0 || k >= procs.len() {
        None
    } else if procs[k].0 == pid {
        Some(procs[k].1)
    } else {
        root_from(procs, pid, k + 1)
    }
}

/// The root table of process `pid` in a process table of (pid, root)
/// pairs: that of its first entry.
pub open spec fn root_of(procs: Seq<(u64, PhysAddr)>, pid: u64) -> Option<PhysAddr> {
    root_from(procs, pid, 0)
}

/// The position of the first entry of process `pid`.
fn find_process(procs: &[(u64, PhysAddr)], pid: u64) -> (r: Option<usize>)
    ensures
        match r {
            Some(i) => i < procs@.len() && root_of(procs@, pid) == Some(procs@[i as int].1),
            None => root_of(procs@, pid) is None,
        },
{
    let mut i: usize = 0;
    while i < procs.len()
        invariant
            0 <= i <= procs@.len(),
            root_of(procs@, pid) == root_from(procs@, pid, i as int),
        decreases procs@.len() - i,
    {
        if procs[i].0 == pid {
            return Some(i);
        }
        i = i + 1;
    }
    None
}

/// User page flags are present.
proof fn lemma_user_flags_present(flags_raw: u64)
    ensures
        (user_page_flags(flags_raw) & vmm::ALL_FLAGS) & PRESENT != 0,
{
    let w: u64 = if flags_raw & 1 != 0 { WRITABLE } else { 0 };
    let x: u64 = if flags_raw & 2 == 0 { NO_EXECUTE } else { 0 };
    assert((((PRESENT | USER) | w | x) & vmm::ALL_FLAGS) & PRESENT != 0) by (bit_vector);
}

/// `SYS_MAP_MEMORY` whole: the checks of `map_check`, then the target's
/// root table in `procs` (none: `ERR_5`, nothing changed), then the
/// mapping of the frame at `vaddr` there with the flags of
/// `user_page_flags`: 0 when it is made, `ERR_6` when it fails (a
/// mapping in the way, or too few free frames for the tables it needs).
/// After a 0 the target translates `vaddr` to the frame.
pub fn map_memory(
    node: &CNode,
    mem: &mut [vmm::PageTableEntry],
    pmm: &mut BitmapAllocator,
    procs: &[(u64, PhysAddr)],
    proc_slot: u64,
    frame_slot: u64,
    vaddr: u64,
    flags_raw: u64,
) -> (r: u64)
    requires
        old(pmm).wf(),
        old(pmm).total() * 512 <= old(mem)@.len(),
        forall|i: int| 0 <= i < procs@.len() ==> vmm::tables_ok(old(mem)@, (#[trigger] procs@[i]).1.val(), old(pmm).frames()),
        map_check(node, proc_slot, frame_slot, vaddr) is Ok ==> map_check(node, proc_slot, frame_slot, vaddr)->Ok_0.1 % 4096 == 0
            && map_check(node, proc_slot, frame_slot, vaddr)->Ok_0.1 < crate::memory::address::PHYS_ADDR_LIMIT,
    ensures
        final(pmm).wf(),
        final(pmm).total() == old(pmm).total(),
        map_check(node, proc_slot, frame_slot, vaddr) is Err ==> r == map_check(node, proc_slot, frame_slot, vaddr)->Err_0
            && final(mem)@ == old(mem)@ && final(pmm).frames() == old(pmm).frames(),
        map_check(node, proc_slot, frame_slot, vaddr) is Ok
            && root_of(procs@, map_check(node, proc_slot, frame_slot, vaddr)->Ok_0.0) is None
            ==> r == ERR_5 && final(mem)@ == old(mem)@ && final(pmm).frames() == old(pmm).frames(),
        map_check(node, proc_slot, frame_slot, vaddr) is Ok
            && root_of(procs@, map_check(node, proc_slot, frame_slot, vaddr)->Ok_0.0) is Some ==> {
            let phys = map_check(node, proc_slot, frame_slot, vaddr)->Ok_0.1;
            let root = root_of(procs@, map_check(node, proc_slot, frame_slot, vaddr)->Ok_0.0)->0;
            &&& (r == 0 || r == ERR_6)
            &&& forall|w: VirtAddr| w.val() == vaddr ==> (r == 0 <==> (vmm::map_conflict(old(mem)@, root.val(), w) is None
                && #[trigger] vmm::tables_needed(old(mem)@, root.val(), w) <= vmm::free_frames(old(pmm).frames())))
            &&& r == 0 ==> forall|w: VirtAddr| w.val() == vaddr ==> #[trigger] vmm::spec_translate(final(mem)@, root.val(), w) == Some(phys)
            &&& r == 0 ==> forall|w: VirtAddr| #[trigger] vmm::spec_translate(old(mem)@, root.val(), w) is Some
                ==> vmm::spec_translate(final(mem)@, root.val(), w) == vmm::spec_translate(old(mem)@, root.val(), w)
        },
{
    let req = match sys_map_memory(node, proc_slot, frame_slot, vaddr, flags_raw) {
        Err(e) => return e,
        Ok(q) => q,
    };
    let i = match find_process(procs, req.pid) {
        None => return ERR_5,
        Some(i) => i,
    };
    let root = procs[i].1;
    let va = VirtAddr::new(req.vaddr);
    proof {
        vmm::lemma_tables_ok_paths(mem@, root.val(), pmm.frames(), va);
        lemma_user_flags_present(flags_raw);
    }
    let ghost m0 = mem@;
    let ghost f0 = pmm.frames();
    let res = vmm::map_page(mem, pmm, root, va, PhysAddr::new(req.phys), req.flags);
    proof {
        assert forall|w: VirtAddr| w.val() == vaddr implies w == va by {
            VirtAddr::lemma_same_val(w, va);
        }
    }
    match res {
        Ok(()) => 0,
        Err(_) => ERR_6,
    }
}

/// The answer to a call with an unknown number, `ERR_0`; `None` for the
/// calls the kernel knows.
pub fn unknown_call_reply(call: &Syscall) -> (r: Option<u64>)
    ensures
        (r is Some) == (*call is Unknown),
        r is Some ==> r == Some(ERR_0),
{
    match call {
        Syscall::Unknown { .. } => Some(ERR_0),
        _ => None,
    }
}

/// The checks of `SYS_DELEGATE` in the caller's node: the process
/// (`ERR_0`, `ERR_1` as `process_check`) and the capability to copy
/// (missing: `ERR_2`).
pub open spec fn delegate_check(node: &CNode, proc_slot: u64, src_slot: u64) -> Result<(u64, Capability), u64> {
    match process_check(node, proc_slot) {
        Err(e) => Err(e),
        Ok(pid) => match cap_at(node, src_slot) {
            None => Err(ERR_2),
            Some(c) => Ok((pid, c)),
        },
    }
}

/// `SYS_DELEGATE`, first step: the target pid and a copy of the
/// capability to hand over, or the failure code. Whoever holds the
/// process table answers `ERR_3` for an unknown pid, then calls
/// `delegate_install` on the target's node.
pub fn sys_delegate(node: &CNode, proc_slot: u64, src_slot: u64) -> (r: Result<(u64, Capability), u64>)
    ensures
        r == delegate_check(node, proc_slot, src_slot),
{
    let pid = match process_for(node, proc_slot) {
        Err(e) => return Err(e),
        Ok(p) => p,
    };
    match lookup_slot(node, src_slot) {
        None => Err(ERR_2),
        Some(c) => Ok((pid, c)),
    }
}

/// `SYS_DELEGATE`, last step: puts `cap` in slot `dst_slot` of the
/// target's node and returns 0; `ERR_4` when the slot is out of range or
/// taken.
pub fn delegate_install(target: &mut CNode, dst_slot: u64, cap: Capability) -> (r: u64)
    ensures
        (r == 0) == (dst_slot < CNODE_SLOTS && old(target).slots@[dst_slot as int].object is Empty),
        r == 0 ==> final(target).slots@ == old(target).slots@.update(dst_slot as int, cap),
        r != 0 ==> r == ERR_4 && final(target).slots@ == old(target).slots@,
{
    if dst_slot >= CNODE_SLOTS as u64 {
        return ERR_4;
    }
    match target.insert_at(dst_slot as usize, cap) {
        Ok(()) => 0,
        Err(()) => ERR_4,
    }
}

/// `SYS_SPAWN_THREAD`, first step: the pid of the process to run the new
/// thread in, or the failure code of `process_check`. Whoever holds the
/// process table answers `ERR_2` for an unknown pid, then creates the
/// thread and returns its id.
pub fn sys_spawn_thread(node: &CNode, proc_slot: u64) -> (r: Result<u64, u64>)
    ensures
        r == process_check(node, proc_slot),
{
    process_for(node, proc_slot)
}

} // verus!
