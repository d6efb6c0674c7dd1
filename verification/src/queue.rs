//! Submissions on their way to the kernel: the bounded ring and the backlog
//! behind it.
//!
//! [`SubmissionQueue`] is the library's picture of the kernel's submission
//! ring: the entries queued since the ring was last handed to the kernel, and
//! never more of them than the ring has slots. [`Backlog`] holds what did not
//! fit, in the order in which it arrived. Ring and backlog together are one
//! queue in the order of submission: the reactor puts a new entry in the ring
//! only while the backlog is empty.

use std::collections::VecDeque;
use vstd::prelude::*;
use crate::op::{encode, encode_spec, Fd, Op};

verus! {

/// A fully formed operation that waits to be placed in the kernel's ring.
#[derive(Clone, Copy, Debug, PartialEq, Eq, Structural)]
pub enum Submission {
    /// Accept connections on `listener`, one completion per connection.
    Accept { listener: Fd },
    /// Receive up to `len` bytes on `fd` into buffer slot `buffer`.
    Recv { fd: Fd, buffer: u16, len: u32 },
    /// Send the first `len` bytes of buffer slot `buffer` on `fd`.
    Send { fd: Fd, buffer: u16, len: u32 },
    /// Close `fd`.
    Close { fd: Fd },
}

impl Submission {
    /// The descriptor under which the completion of this entry is dispatched.
    pub open spec fn op_spec(self) -> Op {
        match self {
            Submission::Accept { .. } => Op::Accept,
            Submission::Recv { fd, buffer, .. } => Op::Recv(fd, buffer),
            Submission::Send { fd, .. } => Op::Send(fd),
            Submission::Close { fd } => Op::Close(fd),
        }
    }

    /// The descriptor under which the completion of this entry is dispatched.
    #[verifier::when_used_as_spec(op_spec)]
    pub fn op(self) -> (op: Op)
        ensures
            op == self.op_spec(),
    {
        match self {
            Submission::Accept { .. } => Op::Accept,
            Submission::Recv { fd, buffer, .. } => Op::Recv(fd, buffer),
            Submission::Send { fd, .. } => Op::Send(fd),
            Submission::Close { fd } => Op::Close(fd),
        }
    }

    /// The correlation tag that the ring entry carries.
    pub fn user_data(self) -> (tag: u64)
        ensures
            tag == encode_spec(self.op_spec()),
    {
        encode(self.op())
    }
}

/// The entries queued for the kernel's submission ring, oldest first.
pub struct SubmissionQueue {
    entries: Vec<Submission>,
    capacity: usize,
}

impl View for SubmissionQueue {
    type V = Seq<Submission>;

    /// The queued entries, oldest first.
    closed spec fn view(&self) -> Seq<Submission> {
        self.entries@
    }
}

impl SubmissionQueue {
    /// The number of slots in the ring.
    pub closed spec fn capacity_spec(&self) -> usize {
        self.capacity
    }

    /// The queue holds no more than the ring has slots.
    pub open spec fn wf(&self) -> bool {
        self@.len() <= self.capacity_spec()
    }

    /// An empty queue for a ring with `capacity` slots.
    pub fn with_capacity(capacity: usize) -> (queue: SubmissionQueue)
        ensures
            queue.wf(),
            queue@ == Seq::<Submission>::empty(),
            queue.capacity_spec() == capacity,
    {
        SubmissionQueue { entries: Vec::new(), capacity }
    }

    /// The number of slots in the ring.
    #[verifier::when_used_as_spec(capacity_spec)]
    pub fn capacity(&self) -> (c: usize)
        ensures
            c == self.capacity_spec(),
    {
        self.capacity
    }

    /// Number of queued entries.
    pub fn len(&self) -> (n: usize)
        ensures
            n == self@.len(),
    {
        self.entries.len()
    }

    /// Whether nothing is queued.
    pub fn is_empty(&self) -> (b: bool)
        ensures
            b == (self@.len() == 0),
    {
        self.entries.len() == 0
    }

    /// Whether every slot of the ring is taken.
    pub fn is_full(&self) -> (b: bool)
        ensures
            b == (self@.len() >= self.capacity_spec()),
    {
        self.entries.len() >= self.capacity
    }

    /// Appends an entry if a slot is free. A full queue hands the entry back
    /// and stays as it was.
    pub fn push(&mut self, entry: Submission) -> (r: Result<(), Submission>)
        requires
            old(self).wf(),
        ensures
            final(self).wf(),
            final(self).capacity_spec() == old(self).capacity_spec(),
            old(self)@.len() < old(self).capacity_spec() ==> r is Ok && final(self)@ == old(
                self,
            )@.push(entry),
            old(self)@.len() >= old(self).capacity_spec() ==> r == Err::<(), Submission>(entry)
                && final(self)@ == old(self)@,
    {
        if self.entries.len() >= self.capacity {
            Err(entry)
        } else {
            self.entries.push(entry);
            Ok(())
        }
    }

    /// Empties the queue and returns what it held, oldest first: the batch to
    /// place in the kernel's ring.
    pub fn take_all(&mut self) -> (batch: Vec<Submission>)
        ensures
            batch@ == old(self)@,
            final(self)@ == Seq::<Submission>::empty(),
            final(self).capacity_spec() == old(self).capacity_spec(),
            final(self).wf(),
    {
        let mut batch: Vec<Submission> = Vec::new();
        std::mem::swap(&mut batch, &mut self.entries);
        batch
    }
}

/// How many entries a drain moves: as many as the backlog holds, up to the
/// number of free slots in the ring.
pub open spec fn drain_count(queued: nat, capacity: nat, waiting: nat) -> nat {
    if queued >= capacity {
        0
    } else if waiting <= capacity - queued {
        waiting
    } else {
        (capacity - queued) as nat
    }
}

/// Operations that found the ring full, in arrival order.
pub struct Backlog {
    entries: VecDeque<Submission>,
}

impl View for Backlog {
    type V = Seq<Submission>;

    /// The waiting entries, oldest first.
    closed spec fn view(&self) -> Seq<Submission> {
        self.entries@
    }
}

impl Backlog {
    /// An empty backlog.
    pub fn new() -> (backlog: Backlog)
        ensures
            backlog@ == Seq::<Submission>::empty(),
    {
        Backlog { entries: VecDeque::new() }
    }

    /// Number of waiting entries.
    pub fn len(&self) -> (n: usize)
        ensures
            n == self@.len(),
    {
        self.entries.len()
    }

    /// Whether nothing waits.
    pub fn is_empty(&self) -> (b: bool)
        ensures
            b == (self@.len() == 0),
    {
        self.entries.len() == 0
    }

    /// Appends an entry behind all that wait already.
    pub fn enqueue(&mut self, entry: Submission)
        ensures
            final(self)@ == old(self)@.push(entry),
    {
        self.entries.push_back(entry);
    }

    /// Moves entries from the front of the backlog to the back of the ring
    /// queue while the queue has a free slot and the backlog is not empty.
    /// The entries arrive in the queue in the order in which they were
    /// enqueued, and none is dropped.
    pub fn drain_into(&mut self, ring: &mut SubmissionQueue)
        requires
            old(ring).wf(),
        ensures
            final(ring).wf(),
            final(ring).capacity_spec() == old(ring).capacity_spec(),
            ({
                let k = drain_count(
                    old(ring)@.len(),
                    old(ring).capacity_spec() as nat,
                    old(self)@.len(),
                ) as int;
                &&& final(ring)@ == old(ring)@ + old(self)@.take(k)
                &&& final(self)@ == old(self)@.skip(k)
            }),
    {
        let ghost ring0 = ring@;
        let ghost waiting0 = self@;
        let ghost moved: int = 0;
        while !ring.is_full() && !self.is_empty()
            invariant
                ring.wf(),
                ring.capacity_spec() == old(ring).capacity_spec(),
                ring0 == old(ring)@,
                waiting0 == old(self)@,
                0 <= moved <= waiting0.len(),
                ring@ == ring0 + waiting0.take(moved),
                self@ == waiting0.skip(moved),
            decreases self@.len(),
        {
            let next = self.entries.pop_front();
            match next {
                Some(entry) => {
                    let _ = ring.push(entry);
                    proof {
                        assert(waiting0.take(moved + 1) == waiting0.take(moved).push(
                            waiting0[moved],
                        ));
                        assert(waiting0.skip(moved + 1) == waiting0.skip(moved).subrange(
                            1,
                            waiting0.skip(moved).len() as int,
                        ));
                        moved = moved + 1;
                    }
                },
                None => {},
            }
        }
    }
}

} // verus!
