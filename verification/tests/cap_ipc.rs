use minimalos::cap::cnode::{CNode, CapObject, CapRights, Capability as NodeCap, RIGHTS_ALL, RIGHTS_READ, RIGHTS_WRITE};
use minimalos::cap::perms::{GRANT, READ, WRITE};
use minimalos::cap::{handle_pack, handle_unpack, CapTable, ObjectKind};
use minimalos::ipc::endpoint::{Endpoint, RecvOutcome, SendOutcome, Thread, ThreadState};
use minimalos::ipc::message::IpcMessage;
use minimalos::ipc::{IpcQueue, Message};
use minimalos::numfmt::push_digits;

#[test]
fn handle_pack_unpack_roundtrip() {
    let h = handle_pack(7, 12);
    assert_eq!(h, (7u64 << 32) | 12);
    assert_eq!(handle_unpack(h), (7, 12));
    assert_eq!(handle_unpack(handle_pack(0xFFFF_FFFF, 63)), (0xFFFF_FFFF, 63));
}

#[test]
fn cap_table_insert_get_remove() {
    let mut t = CapTable::new();
    let h = t.insert(ObjectKind::Log, READ | WRITE).unwrap();
    assert_eq!(h, handle_pack(0, 0));
    let c = t.get(h).unwrap();
    assert_eq!(c.object, ObjectKind::Log);
    assert_eq!(c.perms, READ | WRITE);
    assert!(c.has_perms(READ));
    assert!(!c.has_perms(GRANT));
    assert_eq!(t.count(), 1);
    let removed = t.remove(h).unwrap();
    assert_eq!(removed.object, ObjectKind::Log);
    assert_eq!(t.count(), 0);
}

#[test]
fn cap_table_stale_handle_after_remove() {
    let mut t = CapTable::new();
    let h = t.insert(ObjectKind::IrqLine { irq: 1 }, READ).unwrap();
    t.remove(h).unwrap();
    assert!(t.get(h).is_none());
    assert!(t.remove(h).is_none());
    // The slot is reused under a new generation.
    let h2 = t.insert(ObjectKind::Log, READ).unwrap();
    assert_ne!(h2, h);
    assert_eq!(handle_unpack(h2).1, 0);
    assert!(t.get(h).is_none());
    assert!(t.get(h2).is_some());
}

#[test]
fn cap_table_insert_at_and_full() {
    let mut t = CapTable::new();
    assert!(t.insert_at(5, ObjectKind::Log, READ).is_some());
    assert!(t.insert_at(5, ObjectKind::Log, READ).is_none());
    assert!(t.insert_at(64, ObjectKind::Log, READ).is_none());
    for _ in 0..63 {
        assert!(t.insert(ObjectKind::Log, READ).is_some());
    }
    assert_eq!(t.count(), 64);
    assert!(t.insert(ObjectKind::Log, READ).is_none());
}

#[test]
fn cap_table_out_of_range_handle() {
    let t = CapTable::new();
    assert!(t.get(handle_pack(0, 64)).is_none());
    assert!(t.get(handle_pack(0, 3)).is_none());
}

#[test]
fn cap_table_summary_text() {
    let mut t = CapTable::new();
    assert_eq!(t.summary(), "");
    t.insert(ObjectKind::Memory { phys: 0x1000, pages: 4 }, READ | WRITE).unwrap();
    t.insert_at(3, ObjectKind::IoPort { base: 0x3F8, count: 8 }, READ | WRITE | GRANT).unwrap();
    t.insert_at(10, ObjectKind::Endpoint { target_actor_id: 42 }, 0).unwrap();
    t.insert_at(11, ObjectKind::IrqLine { irq: 12 }, 0x1F).unwrap();
    assert_eq!(t.summary(), "[0]Mem(4pg)(RW---) [3]IO(0x3f8+8)(RW-G-) [10]EP(42)(-----) [11]IRQ12(RWXGM)");
}

#[test]
fn numfmt_digits() {
    let mut s = String::new();
    push_digits(&mut s, 0, 10);
    s.push(' ');
    push_digits(&mut s, 1234567890, 10);
    s.push(' ');
    push_digits(&mut s, 0xBEEF, 16);
    s.push(' ');
    push_digits(&mut s, u64::MAX, 10);
    assert_eq!(s, "0 1234567890 beef 18446744073709551615");
}

#[test]
fn cnode_rights_restrict() {
    let r = CapRights::from_raw(RIGHTS_READ | RIGHTS_WRITE);
    assert!(r.contains(CapRights::from_raw(RIGHTS_READ)));
    assert!(!r.contains(CapRights::from_raw(RIGHTS_ALL)));
    assert_eq!(r.restrict(CapRights::from_raw(RIGHTS_READ)).bits(), RIGHTS_READ);
    assert_eq!(CapRights::from_raw(0xFF).bits(), 0xFF);
    assert_eq!(CapRights::from_raw(0xFF).restrict(CapRights::from_raw(RIGHTS_ALL)).bits(), RIGHTS_ALL);
}

#[test]
fn cnode_insert_lookup_remove() {
    let mut n = CNode::new();
    let cap = NodeCap::new(CapObject::Endpoint { id: 9 }, CapRights::from_raw(RIGHTS_ALL));
    assert_eq!(n.insert(cap), Some(0));
    assert_eq!(n.insert(cap), Some(1));
    assert_eq!(n.count(), 2);
    assert_eq!(n.lookup(1).map(|c| c.object), Some(CapObject::Endpoint { id: 9 }));
    assert_eq!(n.remove(0).map(|c| c.object), Some(CapObject::Endpoint { id: 9 }));
    assert!(n.lookup(0).is_none());
    assert!(n.remove(0).is_none());
    // The first free slot is reused.
    assert_eq!(n.insert(cap), Some(0));
    assert_eq!(n.insert_at(1, cap), Err(()));
    assert_eq!(n.insert_at(64, cap), Err(()));
    assert_eq!(n.insert_at(7, cap), Ok(()));
    assert_eq!(n.count(), 3);
}

#[test]
fn ipc_queue_fifo() {
    let mut q = IpcQueue::new();
    assert!(q.is_empty());
    for i in 0..16u64 {
        let mut m = Message::empty();
        m.label = i;
        assert!(q.push(m).is_ok());
    }
    assert!(q.is_full());
    let mut extra = Message::empty();
    extra.label = 99;
    assert_eq!(q.push(extra).err(), Some("IPC queue full"));
    for i in 0..16u64 {
        assert_eq!(q.pop().map(|m| m.label), Some(i));
    }
    assert!(q.pop().is_none());
}

#[test]
fn ipc_queue_wraps_around() {
    let mut q = IpcQueue::new();
    for round in 0..3u64 {
        for i in 0..10u64 {
            let mut m = Message::empty();
            m.label = round * 100 + i;
            q.push(m).unwrap();
        }
        for i in 0..10u64 {
            assert_eq!(q.pop().map(|m| m.label), Some(round * 100 + i));
        }
    }
}

#[test]
fn endpoint_rendezvous_order() {
    let mut ep = Endpoint::new(3);
    assert_eq!(ep.id(), 3);
    let m1 = IpcMessage::with_data(1, [10, 11, 12, 13]);
    let m2 = IpcMessage::new(2);
    assert!(matches!(ep.send(100, m1), SendOutcome::Blocked));
    assert!(matches!(ep.send(101, m2), SendOutcome::Blocked));
    match ep.recv(200) {
        RecvOutcome::Received { msg, sender } => {
            assert_eq!(sender, 100);
            assert_eq!(msg.label, 1);
            assert_eq!(msg.regs, [10, 11, 12, 13]);
        },
        RecvOutcome::Blocked => panic!("a sender was waiting"),
    }
    match ep.recv(201) {
        RecvOutcome::Received { msg, sender } => {
            assert_eq!(sender, 101);
            assert_eq!(msg.label, 2);
        },
        RecvOutcome::Blocked => panic!("a sender was waiting"),
    }
    assert!(matches!(ep.recv(202), RecvOutcome::Blocked));
    assert!(matches!(ep.recv(203), RecvOutcome::Blocked));
    assert!(matches!(ep.send(102, IpcMessage::new(3)), SendOutcome::Delivered { receiver: 202 }));
    assert!(matches!(ep.send(103, IpcMessage::new(4)), SendOutcome::Delivered { receiver: 203 }));
}

#[test]
fn ipc_message_empty() {
    assert!(IpcMessage::empty().is_empty());
    assert!(!IpcMessage::new(5).is_empty());
    assert_eq!(IpcMessage::new(5).cap_count, 0);
}

fn thread(id: u64) -> Thread {
    Thread { id, state: ThreadState::Running, ipc_buffer: IpcMessage::empty() }
}

#[test]
fn endpoint_threads_rendezvous() {
    let mut ep = Endpoint::new(7);
    let mut threads = vec![thread(1), thread(2)];
    let mut rq: Vec<u64> = Vec::new();
    // Thread 1 sends with no receiver: it blocks holding the message.
    let mut t1 = thread(1);
    let m = IpcMessage::new(55);
    assert!(!ep.send_thread(&mut t1, m, &mut threads, &mut rq));
    assert_eq!(t1.state, ThreadState::BlockedSend);
    assert_eq!(t1.ipc_buffer.label, 55);
    threads[0] = t1;
    // Thread 2 receives: it takes the message, thread 1 is woken with an
    // empty buffer and queued to run.
    let mut t2 = thread(2);
    let got = ep.recv_thread(&mut t2, &mut threads, &mut rq).unwrap();
    assert_eq!(got.label, 55);
    assert_eq!(threads[0].state, ThreadState::Ready);
    assert_eq!(threads[0].ipc_buffer.label, 0);
    assert_eq!(rq, vec![1]);
    assert_eq!(t2.state, ThreadState::Running);
    // Thread 2 receives again: nobody sends, so it blocks.
    assert!(ep.recv_thread(&mut t2, &mut threads, &mut rq).is_none());
    assert_eq!(t2.state, ThreadState::BlockedRecv);
    threads[1] = t2;
    // Thread 1 sends: the waiting receiver gets the message and is queued.
    let mut t1 = thread(1);
    assert!(ep.send_thread(&mut t1, IpcMessage::new(9), &mut threads, &mut rq));
    assert_eq!(threads[1].state, ThreadState::Ready);
    assert_eq!(threads[1].ipc_buffer.label, 9);
    assert_eq!(rq, vec![1, 2]);
}
