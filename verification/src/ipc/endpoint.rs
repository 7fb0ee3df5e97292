//! Synchronous rendezvous endpoints.
//!
//! A send meets a waiting receiver or blocks until one comes; a receive
//! meets a waiting sender or blocks until one comes. Waiters are served
//! in arrival order. `send` and `recv` decide who meets whom;
//! `send_thread` and `recv_thread` also carry the message between thread
//! buffers, set the threads' states and queue the woken thread to run
//! (switching away from a blocked caller is the scheduler's part).

use vstd::prelude::*;
use std::collections::VecDeque;
use crate::ipc::message::IpcMessage;

verus! {

/// What a send leads to.
#[derive(Clone, Copy, Debug)]
pub enum SendOutcome {
    /// The message goes to this waiting receiver, which becomes ready.
    Delivered { receiver: u64 },
    /// No receiver waits: the sender blocks with its message.
    Blocked,
}

/// What a receive leads to.
#[derive(Clone, Copy, Debug)]
pub enum RecvOutcome {
    /// This waiting sender's message is taken; the sender becomes ready.
    Received { msg: IpcMessage, sender: u64 },
    /// No sender waits: the receiver blocks.
    Blocked,
}

/// An endpoint: its id and the threads blocked on it.
pub struct Endpoint {
    id: u64,
    blocked_senders: VecDeque<(u64, IpcMessage)>,
    blocked_receivers: VecDeque<u64>,
}

impl Endpoint {
    /// The endpoint's id.
    pub closed spec fn spec_id(&self) -> u64 {
        self.id
    }

    /// Blocked senders with their messages, oldest first.
    pub closed spec fn senders(&self) -> Seq<(u64, IpcMessage)> {
        self.blocked_senders@
    }

    /// Blocked receivers, oldest first.
    pub closed spec fn receivers(&self) -> Seq<u64> {
        self.blocked_receivers@
    }

    /// Senders and receivers never wait at the same time.
    pub open spec fn wf(&self) -> bool {
        self.senders().len() == 0 || self.receivers().len() == 0
    }

    /// A fresh endpoint with nobody waiting.
    pub fn new(id: u64) -> (r: Self)
        ensures
            r.spec_id() == id,
            r.senders().len() == 0,
            r.receivers().len() == 0,
            r.wf(),
    {
        Endpoint { id, blocked_senders: VecDeque::new(), blocked_receivers: VecDeque::new() }
    }

    /// The endpoint's id.
    pub fn id(&self) -> (r: u64)
        ensures
            r == self.spec_id(),
    {
        self.id
    }

    /// Thread `sender` sends `msg`: the longest-waiting receiver gets it,
    /// or, with none waiting, the sender joins the back of the senders.
    pub fn send(&mut self, sender: u64, msg: IpcMessage) -> (r: SendOutcome)
        requires
            old(self).wf(),
        ensures
            final(self).wf(),
            final(self).spec_id() == old(self).spec_id(),
            old(self).receivers().len() > 0 ==> {
                &&& r matches SendOutcome::Delivered { receiver } && receiver == old(self).receivers()[0]
                &&& final(self).receivers() == old(self).receivers().drop_first()
                &&& final(self).senders() == old(self).senders()
            },
            old(self).receivers().len() == 0 ==> {
                &&& r is Blocked
                &&& final(self).senders() == old(self).senders().push((sender, msg))
                &&& final(self).receivers() == old(self).receivers()
            },
    {
        match self.blocked_receivers.pop_front() {
            Some(receiver) => SendOutcome::Delivered { receiver },
            None => {
                self.blocked_senders.push_back((sender, msg));
                SendOutcome::Blocked
            },
        }
    }

    /// Thread `receiver` receives: it takes the message of the
    /// longest-waiting sender, or, with none waiting, joins the back of
    /// the receivers.
    pub fn recv(&mut self, receiver: u64) -> (r: RecvOutcome)
        requires
            old(self).wf(),
        ensures
            final(self).wf(),
            final(self).spec_id() == old(self).spec_id(),
            old(self).senders().len() > 0 ==> {
                &&& r matches RecvOutcome::Received { msg, sender }
                    && (sender, msg) == old(self).senders()[0]
                &&& final(self).senders() == old(self).senders().drop_first()
                &&& final(self).receivers() == old(self).receivers()
            },
            old(self).senders().len() == 0 ==> {
                &&& r is Blocked
                &&& final(self).receivers() == old(self).receivers().push(receiver)
                &&& final(self).senders() == old(self).senders()
            },
    {
        match self.blocked_senders.pop_front() {
            Some((sender, msg)) => RecvOutcome::Received { msg, sender },
            None => {
                self.blocked_receivers.push_back(receiver);
                RecvOutcome::Blocked
            },
        }
    }
}

/// The scheduling state of a thread.
#[derive(Clone, Copy, PartialEq, Eq, Structural, Debug)]
pub enum ThreadState {
    Ready,
    Running,
    BlockedSend,
    BlockedRecv,
}

/// What the IPC path reads and writes of a thread: its id, state and
/// message buffer.
#[derive(Clone, Copy, Debug)]
pub struct Thread {
    pub id: u64,
    pub state: ThreadState,
    pub ipc_buffer: IpcMessage,
}

/// The empty message: label 0 and nothing else.
pub open spec fn is_empty_msg(m: IpcMessage) -> bool {
    &&& m.label == 0
    &&& m.regs@ == seq![0u64, 0u64, 0u64, 0u64]
    &&& m.caps@ == seq![0u8, 0u8, 0u8, 0u8]
    &&& m.cap_count == 0
}

/// `i` is the first position of thread `id` in `threads`.
pub open spec fn first_thread(threads: Seq<Thread>, id: u64, i: int) -> bool {
    &&& 0 <= i < threads.len()
    &&& threads[i].id == id
    &&& forall|j: int| 0 <= j < i ==> (#[trigger] threads[j]).id != id
}

/// The first position of thread `id`, if any.
fn find_thread(threads: &Vec<Thread>, id: u64) -> (r: Option<usize>)
    ensures
        match r {
            Some(i) => first_thread(threads@, id, i as int),
            None => forall|j: int| 0 <= j < threads@.len() ==> (#[trigger] threads@[j]).id != id,
        },
{
    let mut i: usize = 0;
    while i < threads.len()
        invariant
            0 <= i <= threads@.len(),
            forall|j: int| 0 <= j < i ==> (#[trigger] threads@[j]).id != id,
        decreases threads@.len() - i,
    {
        if threads[i].id == id {
            return Some(i);
        }
        i = i + 1;
    }
    None
}

/// A thread can be woken: every thread in the table with a waiting id is
/// found there.
pub open spec fn has_thread(threads: Seq<Thread>, id: u64) -> bool {
    exists|i: int| 0 <= i < threads.len() && (#[trigger] threads[i]).id == id
}

impl Endpoint {
    /// A receive by the running thread `current`, with the thread table
    /// `threads` and the run queue of thread ids. Fast path: the
    /// longest-waiting sender's message is taken; that sender (its first
    /// record in `threads`) gets an empty buffer, becomes ready and joins
    /// the back of the run queue; `current` keeps running. Slow path: with
    /// no sender waiting, `current` is marked blocked on receive and joins
    /// the receivers; the caller then switches away.
    pub fn recv_thread(&mut self, current: &mut Thread, threads: &mut Vec<Thread>, run_queue: &mut Vec<u64>) -> (r: Option<IpcMessage>)
        requires
            old(self).wf(),
            old(self).senders().len() > 0 ==> has_thread(old(threads)@, old(self).senders()[0].0),
        ensures
            final(self).wf(),
            final(self).spec_id() == old(self).spec_id(),
            old(self).senders().len() > 0 ==> {
                let sid = old(self).senders()[0].0;
                &&& r == Some(old(self).senders()[0].1)
                &&& final(self).senders() == old(self).senders().drop_first()
                &&& final(self).receivers() == old(self).receivers()
                &&& exists|i: int| first_thread(old(threads)@, sid, i) && final(threads)@ == old(threads)@.update(i, final(threads)@[i])
                    && final(threads)@[i].id == sid && final(threads)@[i].state == ThreadState::Ready
                    && is_empty_msg(final(threads)@[i].ipc_buffer)
                &&& final(run_queue)@ == old(run_queue)@.push(sid)
                &&& *final(current) == *old(current)
            },
            old(self).senders().len() == 0 ==> {
                &&& r is None
                &&& final(self).receivers() == old(self).receivers().push(old(current).id)
                &&& final(self).senders() == old(self).senders()
                &&& final(current).id == old(current).id && final(current).state == ThreadState::BlockedRecv
                &&& final(current).ipc_buffer == old(current).ipc_buffer
                &&& final(threads)@ == old(threads)@
                &&& final(run_queue)@ == old(run_queue)@
            },
    {
        match self.recv(current.id) {
            RecvOutcome::Received { msg, sender } => {
                let i = match find_thread(threads, sender) {
                    Some(i) => i,
                    None => {
                        proof {
                            let k = choose|k: int| 0 <= k < threads@.len() && (#[trigger] threads@[k]).id == sender;
                            assert(threads@[k].id != sender);
                        }
                        return Some(msg);
                    },
                };
                let woken = Thread { id: sender, state: ThreadState::Ready, ipc_buffer: IpcMessage::empty() };
                threads.set(i, woken);
                run_queue.push(sender);
                Some(msg)
            },
            RecvOutcome::Blocked => {
                current.state = ThreadState::BlockedRecv;
                None
            },
        }
    }

    /// A send of `msg` by the running thread `current`. Fast path: the
    /// longest-waiting receiver (its first record in `threads`) gets the
    /// message in its buffer, becomes ready and joins the back of the run
    /// queue; `current` keeps running. Slow path: with no receiver
    /// waiting, `current` holds the message in its buffer, is marked
    /// blocked on send and joins the senders.
    pub fn send_thread(&mut self, current: &mut Thread, msg: IpcMessage, threads: &mut Vec<Thread>, run_queue: &mut Vec<u64>) -> (r: bool)
        requires
            old(self).wf(),
            old(self).receivers().len() > 0 ==> has_thread(old(threads)@, old(self).receivers()[0]),
        ensures
            final(self).wf(),
            final(self).spec_id() == old(self).spec_id(),
            r == (old(self).receivers().len() > 0),
            old(self).receivers().len() > 0 ==> {
                let rid = old(self).receivers()[0];
                &&& final(self).receivers() == old(self).receivers().drop_first()
                &&& final(self).senders() == old(self).senders()
                &&& exists|i: int| first_thread(old(threads)@, rid, i) && final(threads)@ == old(threads)@.update(i, final(threads)@[i])
                    && final(threads)@[i].id == rid && final(threads)@[i].state == ThreadState::Ready
                    && final(threads)@[i].ipc_buffer == msg
                &&& final(run_queue)@ == old(run_queue)@.push(rid)
                &&& *final(current) == *old(current)
            },
            old(self).receivers().len() == 0 ==> {
                &&& final(self).senders() == old(self).senders().push((old(current).id, msg))
                &&& final(self).receivers() == old(self).receivers()
                &&& final(current).id == old(current).id && final(current).state == ThreadState::BlockedSend
                &&& final(current).ipc_buffer == msg
                &&& final(threads)@ == old(threads)@
                &&& final(run_queue)@ == old(run_queue)@
            },
    {
        match self.send(current.id, msg) {
            SendOutcome::Delivered { receiver } => {
                let i = match find_thread(threads, receiver) {
                    Some(i) => i,
                    None => {
                        proof {
                            let k = choose|k: int| 0 <= k < threads@.len() && (#[trigger] threads@[k]).id == receiver;
                            assert(threads@[k].id != receiver);
                        }
                        return true;
                    },
                };
                let woken = Thread { id: receiver, state: ThreadState::Ready, ipc_buffer: msg };
                threads.set(i, woken);
                run_queue.push(receiver);
                true
            },
            SendOutcome::Blocked => {
                current.ipc_buffer = msg;
                current.state = ThreadState::BlockedSend;
                false
            },
        }
    }
}

/// Waiters are served in arrival order: after `a` then `b` block on an
/// empty endpoint, the first partner to arrive meets `a`.
pub proof fn lemma_arrival_order(waiting: Seq<u64>, a: u64, b: u64)
    requires
        waiting.len() == 0,
    ensures
        waiting.push(a).push(b)[0] == a,
        waiting.push(a).push(b).drop_first() == seq![b],
{
    assert(waiting.push(a).push(b).drop_first() =~= seq![b]);
}

} // verus!
