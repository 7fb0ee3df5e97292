//! Inter-process communication: fixed-size messages, bounded FIFO
//! mailboxes, and synchronous rendezvous endpoints.

pub mod message;
pub mod endpoint;

use vstd::prelude::*;

verus! {

/// A fixed-size IPC message.
#[derive(Clone, Copy, Debug)]
pub struct Message {
    /// What the message is about (sender-defined).
    pub label: u64,
    /// Payload words.
    pub data: [u64; 3],
    /// Handle of a capability to transfer (0 = none).
    pub cap_grant: u64,
    /// Permissions for the transferred capability.
    pub cap_perms: u32,
    /// Keeps the layout a multiple of 8 bytes.
    pub _pad: u32,
}

impl Message {
    /// The all-zero message.
    pub fn empty() -> (r: Self)
        ensures
            r.label == 0,
            r.data@ == seq![0u64, 0u64, 0u64],
            r.cap_grant == 0,
            r.cap_perms == 0,
            r._pad == 0,
    {
        let m = Message { label: 0, data: [0, 0, 0], cap_grant: 0, cap_perms: 0, _pad: 0 };
        proof { assert(m.data@ =~= seq![0u64, 0u64, 0u64]); }
        m
    }
}

/// Messages a mailbox holds.
pub const IPC_QUEUE_SIZE: usize = 16;

/// A bounded FIFO mailbox (ring buffer of `IPC_QUEUE_SIZE` messages).
pub struct IpcQueue {
    messages: [Message; 16],
    head: usize,
    tail: usize,
    count: usize,
}

impl IpcQueue {
    /// The queued messages, oldest first.
    pub closed spec fn view(&self) -> Seq<Message> {
        Seq::new(self.count as nat, |i: int| self.messages@[(self.head + i) % 16])
    }

    /// Ring-buffer bookkeeping is consistent.
    pub closed spec fn wf(&self) -> bool {
        &&& self.head < 16
        &&& self.tail < 16
        &&& self.count <= 16
        &&& self.tail == (self.head + self.count) % 16
    }

    /// An empty mailbox.
    pub fn new() -> (r: Self)
        ensures
            r.wf(),
            r.view() == Seq::<Message>::empty(),
    {
        let e = Message::empty();
        let q = IpcQueue { messages: [e; 16], head: 0, tail: 0, count: 0 };
        proof { assert(q.view() =~= Seq::<Message>::empty()); }
        q
    }

    /// Appends `msg`; fails, leaving the mailbox unchanged, when it already
    /// holds `IPC_QUEUE_SIZE` messages.
    pub fn push(&mut self, msg: Message) -> (r: Result<(), &'static str>)
        requires
            old(self).wf(),
        ensures
            final(self).wf(),
            (r is Err) == (old(self).view().len() == IPC_QUEUE_SIZE),
            r is Ok ==> final(self).view() == old(self).view().push(msg),
            r matches Err(e) ==> final(self).view() == old(self).view() && e@ == "IPC queue full"@,
    {
        if self.count == IPC_QUEUE_SIZE {
            return Err("IPC queue full");
        }
        let ghost before = self.view();
        self.messages[self.tail] = msg;
        self.tail = (self.tail + 1) % IPC_QUEUE_SIZE;
        self.count = self.count + 1;
        proof {
            assert(self.view() =~= before.push(msg));
        }
        Ok(())
    }

    /// Removes and returns the oldest message; `None` when empty.
    pub fn pop(&mut self) -> (r: Option<Message>)
        requires
            old(self).wf(),
        ensures
            final(self).wf(),
            old(self).view().len() == 0 ==> r is None && final(self).view() == old(self).view(),
            old(self).view().len() > 0 ==> r == Some(old(self).view()[0]) && final(self).view() == old(self).view().drop_first(),
    {
        if self.count == 0 {
            return None;
        }
        let ghost before = self.view();
        let msg = self.messages[self.head];
        self.head = (self.head + 1) % IPC_QUEUE_SIZE;
        self.count = self.count - 1;
        proof {
            assert forall|i: int| 0 <= i < self.count implies #[trigger] self.view()[i] == before.drop_first()[i] by {
                assert((self.head + i) % 16 == (old(self).head + (i + 1)) % 16);
            }
            assert(self.view() =~= before.drop_first());
        }
        Some(msg)
    }

    /// Holds `IPC_QUEUE_SIZE` messages.
    pub fn is_full(&self) -> (r: bool)
        ensures
            r == (self.view().len() == IPC_QUEUE_SIZE),
    {
        self.count == IPC_QUEUE_SIZE
    }

    /// Holds no message.
    pub fn is_empty(&self) -> (r: bool)
        ensures
            r == (self.view().len() == 0),
    {
        self.count == 0
    }
}

/// Messages come out of a mailbox in the order they went in: pushing onto
/// a non-empty mailbox leaves its oldest message in front, and popping
/// after a single push into an empty mailbox returns that message.
pub proof fn lemma_fifo(q: Seq<Message>, m: Message)
    ensures
        q.len() > 0 ==> q.push(m)[0] == q[0] && q.push(m).drop_first() == q.drop_first().push(m),
        q.len() == 0 ==> q.push(m)[0] == m && q.push(m).drop_first() == q,
{
    if q.len() > 0 {
        assert(q.push(m).drop_first() =~= q.drop_first().push(m));
    } else {
        assert(q.push(m).drop_first() =~= q);
    }
}

} // verus!
