//! The reactor as a state machine over plain mathematical values.
//!
//! [`ReactorView`] is what the reactor's state means: the queued submissions,
//! the backlog, the live buffers with their bytes, and the directory. The functions on
//! it say how each completion changes that state and what is reported back.
//! The executable reactor is proved to follow them step for step, and the
//! laws at the end of this file are proved about them.

use vstd::prelude::*;
use crate::buffers::{zeroed, PoolExhausted, BUFFER_SIZE};
use crate::op::{decode_spec, encode_spec, lemma_codec_round_trip, Fd, Op};
use crate::queue::{drain_count, Submission};

verus! {

/// Completion flag: the kernel will post further completions for the same
/// submission, so it need not be submitted again.
pub const CQE_F_MORE: u32 = 2;

/// One entry of the completion ring.
#[derive(Clone, Copy, Debug, PartialEq, Eq, Structural)]
pub struct Completion {
    /// The correlation tag of the submission that finished.
    pub user_data: u64,
    /// Negative: an error code. Otherwise the operation's result: the new
    /// handle for an accept, the byte count for a receive or a send.
    pub result: i32,
    /// Flag bits, of which the reactor reads `CQE_F_MORE`.
    pub flags: u32,
}

/// What the reactor did with a completion.
#[derive(Clone, Copy, Debug, PartialEq, Eq)]
pub enum Event {
    /// A connection was admitted. `started` is the buffer of its first
    /// receive, which is queued; `None` means that the pool was exhausted and
    /// the close of the connection is queued instead.
    Accepted { fd: Fd, started: Option<u16> },
    /// `len` bytes arrived in `buffer`; sending them back is queued.
    Received { fd: Fd, buffer: u16, len: u32 },
    /// The peer closed its sending side. The buffer is free again and the
    /// close of the connection is queued.
    PeerClosed { fd: Fd, buffer: u16 },
    /// A send finished. `started` is the buffer of the next receive, which is
    /// queued; `None` means that the pool was exhausted and the close of the
    /// connection is queued instead.
    Sent { fd: Fd, started: Option<u16> },
    /// A close finished for a connection that still owned a buffer. The
    /// buffer is free again; the caller lets go of the handle.
    Closed { fd: Fd, buffer: u16 },
    /// A close finished for a connection that owns nothing any more: its
    /// receive path had cleaned up before. Worth a note, not an error.
    UnknownClose { fd: Fd },
    /// The operation failed with the given negative result. A failed receive
    /// frees its buffer and queues the close; a failed send queues the close;
    /// a failed accept or close changes nothing else.
    Failed { op: Op, result: i32 },
}

/// A completion that cannot come from an operation the reactor submitted.
/// The state is left untouched; the caller is expected to stop.
#[derive(Clone, Copy, Debug, PartialEq, Eq, Structural)]
pub enum Fault {
    /// The tag is not the encoding of any descriptor.
    UnknownTag(u64),
    /// A receive finished on a buffer that its connection does not own, so
    /// freeing or reading it would touch a slot that is free or someone
    /// else's.
    UnboundBuffer { fd: Fd, index: u16 },
    /// A receive reported more bytes than a buffer holds.
    Oversized { fd: Fd, index: u16, len: i32 },
}

/// How an attempt to move the backlog into the ring ended.
#[derive(Clone, Copy, Debug, PartialEq, Eq, Structural)]
pub enum DrainStatus {
    /// The completion ring is full: nothing was moved, completions come
    /// first.
    Deferred,
    /// The backlog is empty.
    Drained,
    /// The ring is full and entries still wait. The caller hands the ring to
    /// the kernel, waits for space and drains again.
    RingFull,
}

/// The meaning of a reactor's state.
pub struct ReactorView {
    /// The listening socket.
    pub listener: Fd,
    /// Entries queued for the kernel's ring, oldest first.
    pub ring: Seq<Submission>,
    /// Number of slots in the kernel's ring.
    pub ring_capacity: nat,
    /// Entries that found the ring full, oldest first.
    pub backlog: Seq<Submission>,
    /// The live buffers: index to the bytes that the buffer holds.
    pub buffers: Map<usize, Seq<u8>>,
    /// The most buffers that may be live.
    pub pool_capacity: nat,
    /// The index that the next allocation hands out.
    pub next_index: usize,
    /// The buffer that each connection owns.
    pub directory: Map<Fd, u16>,
}

impl ReactorView {
    /// The indices of the live buffers.
    pub open spec fn live(self) -> Set<usize> {
        self.buffers.dom()
    }

    /// The bytes that a queued send carries: the first `len` bytes of its
    /// buffer, as the buffer holds them now.
    pub open spec fn payload(self, s: Submission) -> Seq<u8> {
        match s {
            Submission::Send { buffer, len, .. } => self.buffers[buffer as usize].take(len as int),
            _ => Seq::empty(),
        }
    }

    /// Some connection owns buffer `k`.
    pub open spec fn owned(self, k: usize) -> bool {
        exists|fd: Fd| #[trigger] self.directory.contains_key(fd) && self.directory[fd] as usize == k
    }

    /// The next index is free, and below the capacity while there is room.
    pub open spec fn next_fits(self) -> bool {
        &&& !self.live().contains(self.next_index)
        &&& self.live().len() < self.pool_capacity ==> self.next_index < self.pool_capacity
    }

    /// The invariant of the reactor, next index aside: the ring holds no more
    /// than its capacity; the live buffers are exactly the ones the directory
    /// refers to, each owned by one connection; all of them lie below the
    /// pool's capacity, and each holds `BUFFER_SIZE` bytes.
    pub open spec fn inv_core(self) -> bool {
        &&& self.ring.len() <= self.ring_capacity
        &&& self.pool_capacity <= u16::MAX
        &&& self.live().finite()
        &&& self.live().len() <= self.pool_capacity
        &&& forall|k: usize| self.live().contains(k) ==> k < self.pool_capacity
        &&& forall|k: usize|
            self.buffers.contains_key(k) ==> (#[trigger] self.buffers[k]).len() == BUFFER_SIZE
        &&& self.directory.dom().finite()
        &&& forall|fd: Fd| #[trigger]
            self.directory.contains_key(fd) ==> self.live().contains(self.directory[fd] as usize)
        &&& forall|a: Fd, b: Fd|
            #![trigger self.directory.contains_key(a), self.directory.contains_key(b)]
            self.directory.contains_key(a) && self.directory.contains_key(b) && self.directory[a]
                == self.directory[b] ==> a == b
        &&& forall|k: usize| #[trigger] self.live().contains(k) ==> self.owned(k)
    }

    /// The invariant of the reactor.
    pub open spec fn inv(self) -> bool {
        self.inv_core() && self.next_fits()
    }

    /// Everything that is queued, in the order of submission: the ring first,
    /// the backlog behind it.
    pub open spec fn queue(self) -> Seq<Submission> {
        self.ring + self.backlog
    }

    /// Queues an entry behind everything that is queued already. It goes into
    /// the ring only if nothing waits in the backlog and the ring has a free
    /// slot; otherwise it goes to the end of the backlog, whatever room the
    /// ring has, so that no entry overtakes an older one. Nothing is dropped.
    pub open spec fn push(self, entry: Submission) -> ReactorView {
        if self.backlog.len() == 0 && self.ring.len() < self.ring_capacity {
            ReactorView { ring: self.ring.push(entry), ..self }
        } else {
            ReactorView { backlog: self.backlog.push(entry), ..self }
        }
    }

    /// Queues the entries one after the other.
    pub open spec fn push_all(self, entries: Seq<Submission>) -> ReactorView
        decreases entries.len(),
    {
        if entries.len() == 0 {
            self
        } else {
            self.push_all(entries.drop_last()).push(entries.last())
        }
    }

    /// Forgets a connection's binding and frees the buffer it owned. The
    /// freed index is the next to be handed out. Nothing happens for a
    /// connection without a binding.
    pub open spec fn unbind(self, fd: Fd) -> ReactorView {
        if self.directory.contains_key(fd) {
            ReactorView {
                buffers: self.buffers.remove(self.directory[fd] as usize),
                next_index: self.directory[fd] as usize,
                directory: self.directory.remove(fd),
                ..self
            }
        } else {
            self
        }
    }

    /// Starts a receive on a connection: the buffer the connection owned, if
    /// any, is freed; a free slot is taken and bound to the connection; the
    /// receive into it is queued. With the pool exhausted nothing changes.
    /// `next_after` is the index that the pool will hand out after this
    /// allocation.
    pub open spec fn receive(self, fd: Fd, next_after: usize) -> (ReactorView, Result<
        u16,
        PoolExhausted,
    >) {
        let freed = self.unbind(fd);
        if freed.live().len() < freed.pool_capacity {
            let index = freed.next_index as u16;
            let bound = ReactorView {
                buffers: freed.buffers.insert(index as usize, zeroed()),
                next_index: next_after,
                directory: freed.directory.insert(fd, index),
                ..freed
            };
            (
                bound.push(Submission::Recv { fd, buffer: index, len: BUFFER_SIZE as u32 }),
                Ok(index),
            )
        } else {
            (freed, Err(PoolExhausted))
        }
    }

    /// Starts a receive, or queues the close of the connection when no buffer
    /// can be had. Returns the buffer, if one was bound.
    pub open spec fn receive_or_close(self, fd: Fd, next_after: usize) -> (ReactorView, Option<
        u16,
    >) {
        let (started, r) = self.receive(fd, next_after);
        match r {
            Ok(index) => (started, Some(index)),
            Err(_) => (started.push(Submission::Close { fd }), None),
        }
    }

    /// The state after a completion, and what is reported for it.
    pub open spec fn handle(self, c: Completion, next_after: usize) -> (ReactorView, Result<
        Event,
        Fault,
    >) {
        match decode_spec(c.user_data as int) {
            None => (self, Err(Fault::UnknownTag(c.user_data))),
            Some(Op::Accept) => {
                let armed = if c.flags & CQE_F_MORE == 0 {
                    self.push(Submission::Accept { listener: self.listener })
                } else {
                    self
                };
                if c.result < 0 {
                    (armed, Ok(Event::Failed { op: Op::Accept, result: c.result }))
                } else {
                    let (next, started) = armed.receive_or_close(c.result, next_after);
                    (next, Ok(Event::Accepted { fd: c.result, started }))
                }
            },
            Some(Op::Recv(fd, index)) => {
                if !(self.directory.contains_key(fd) && self.directory[fd] == index) {
                    (self, Err(Fault::UnboundBuffer { fd, index }))
                } else if c.result < 0 {
                    (
                        self.unbind(fd).push(Submission::Close { fd }),
                        Ok(Event::Failed { op: Op::Recv(fd, index), result: c.result }),
                    )
                } else if c.result == 0 {
                    (
                        self.unbind(fd).push(Submission::Close { fd }),
                        Ok(Event::PeerClosed { fd, buffer: index }),
                    )
                } else if c.result > BUFFER_SIZE {
                    (self, Err(Fault::Oversized { fd, index, len: c.result }))
                } else {
                    (
                        self.push(Submission::Send { fd, buffer: index, len: c.result as u32 }),
                        Ok(Event::Received { fd, buffer: index, len: c.result as u32 }),
                    )
                }
            },
            Some(Op::Send(fd)) => {
                if c.result < 0 {
                    (
                        self.push(Submission::Close { fd }),
                        Ok(Event::Failed { op: Op::Send(fd), result: c.result }),
                    )
                } else {
                    let (next, started) = self.receive_or_close(fd, next_after);
                    (next, Ok(Event::Sent { fd, started }))
                }
            },
            Some(Op::Close(fd)) => {
                if c.result < 0 {
                    (self, Ok(Event::Failed { op: Op::Close(fd), result: c.result }))
                } else if self.directory.contains_key(fd) {
                    (self.unbind(fd), Ok(Event::Closed { fd, buffer: self.directory[fd] }))
                } else {
                    (self, Ok(Event::UnknownClose { fd }))
                }
            },
        }
    }

    /// The state after an attempt to move the backlog into the ring. With the
    /// completion ring full nothing moves. Otherwise entries leave the front
    /// of the backlog for the back of the ring, in order, until the backlog
    /// is empty or the ring is full.
    pub open spec fn drain(self, completions_full: bool) -> (ReactorView, DrainStatus) {
        if completions_full {
            (self, DrainStatus::Deferred)
        } else {
            let k = drain_count(self.ring.len(), self.ring_capacity, self.backlog.len()) as int;
            let moved = ReactorView {
                ring: self.ring + self.backlog.take(k),
                backlog: self.backlog.skip(k),
                ..self
            };
            (
                moved,
                if moved.backlog.len() == 0 {
                    DrainStatus::Drained
                } else {
                    DrainStatus::RingFull
                },
            )
        }
    }

    /// The state after the queued entries were handed to the kernel.
    pub open spec fn submitted(self) -> ReactorView {
        ReactorView { ring: Seq::empty(), ..self }
    }
}

impl ReactorView {
    /// The invariant looks at the queues only for the bound of the ring: a
    /// state with the same pool and the same directory, whose ring is within
    /// its capacity, satisfies it too.
    pub proof fn lemma_inv_same_books(self, other: ReactorView)
        requires
            self.inv(),
            other.live() == self.live(),
            forall|k: usize|
                other.buffers.contains_key(k) ==> (#[trigger] other.buffers[k]).len()
                    == BUFFER_SIZE,
            other.pool_capacity == self.pool_capacity,
            other.next_index == self.next_index,
            other.directory == self.directory,
            other.ring.len() <= other.ring_capacity,
        ensures
            other.inv(),
    {
        assert forall|k: usize| #[trigger] other.live().contains(k) implies other.owned(k) by {
            assert(self.owned(k));
            let owner = choose|o: Fd| #[trigger]
                self.directory.contains_key(o) && self.directory[o] as usize == k;
            assert(other.directory.contains_key(owner));
        }
    }

    /// Queueing an entry keeps the invariant.
    pub proof fn lemma_push_inv(self, entry: Submission)
        requires
            self.inv(),
        ensures
            self.push(entry).inv(),
    {
        self.lemma_inv_same_books(self.push(entry));
    }

    /// Unbinding a connection keeps the invariant.
    pub proof fn lemma_unbind_inv(self, fd: Fd)
        requires
            self.inv(),
        ensures
            self.unbind(fd).inv(),
            self.unbind(fd).live().len() < self.pool_capacity || self.unbind(fd) == self,
    {
        if self.directory.contains_key(fd) {
            let after = self.unbind(fd);
            assert forall|k: usize| #[trigger] after.live().contains(k) implies after.owned(k) by {
                assert(self.owned(k));
                let owner = choose|o: Fd| #[trigger]
                    self.directory.contains_key(o) && self.directory[o] as usize == k;
                assert(after.directory.contains_key(owner));
            }
        }
    }

    /// Binding a connection without a binding to the free next index keeps
    /// the invariant, whatever free index comes next.
    pub proof fn lemma_bind_inv(self, fd: Fd, next_after: usize)
        requires
            self.inv(),
            !self.directory.contains_key(fd),
            self.live().len() < self.pool_capacity,
            ({
                let bound = ReactorView {
                    buffers: self.buffers.insert(self.next_index, zeroed()),
                    next_index: next_after,
                    directory: self.directory.insert(fd, self.next_index as u16),
                    ..self
                };
                bound.next_fits()
            }),
        ensures
            ({
                let bound = ReactorView {
                    buffers: self.buffers.insert(self.next_index, zeroed()),
                    next_index: next_after,
                    directory: self.directory.insert(fd, self.next_index as u16),
                    ..self
                };
                bound.inv()
            }),
    {
        let index = self.next_index;
        let bound = ReactorView {
            buffers: self.buffers.insert(index, zeroed()),
            next_index: next_after,
            directory: self.directory.insert(fd, index as u16),
            ..self
        };
        assert forall|k: usize| #[trigger] bound.live().contains(k) implies bound.owned(k) by {
            if k == index {
                assert(bound.directory.contains_key(fd));
            } else {
                assert(self.owned(k));
                let owner = choose|o: Fd| #[trigger]
                    self.directory.contains_key(o) && self.directory[o] as usize == k;
                assert(bound.directory.contains_key(owner));
            }
        }
    }

    /// Starting a receive, or queueing the close for want of a buffer, keeps
    /// the invariant.
    pub proof fn lemma_receive_or_close_inv(self, fd: Fd, next_after: usize)
        requires
            self.inv(),
            self.receive_or_close(fd, next_after).0.next_fits(),
        ensures
            self.receive_or_close(fd, next_after).0.inv(),
            self.receive(fd, next_after).0.inv(),
    {
        self.lemma_unbind_inv(fd);
        let freed = self.unbind(fd);
        if freed.live().len() < freed.pool_capacity {
            freed.lemma_bind_inv(fd, next_after);
            let bound = ReactorView {
                buffers: freed.buffers.insert(freed.next_index, zeroed()),
                next_index: next_after,
                directory: freed.directory.insert(fd, freed.next_index as u16),
                ..freed
            };
            bound.lemma_push_inv(
                Submission::Recv { fd, buffer: freed.next_index as u16, len: BUFFER_SIZE as u32 },
            );
        } else {
            freed.lemma_push_inv(Submission::Close { fd });
        }
    }

    /// Every completion leaves the invariant intact: after it, as before,
    /// the live buffers are exactly those that the directory refers to, each
    /// owned by a single connection. The premise on the outcome says only
    /// that the index which the pool names next is a free one.
    pub proof fn lemma_handle_inv(self, c: Completion, next_after: usize)
        requires
            self.inv(),
            self.handle(c, next_after).0.next_fits(),
        ensures
            self.handle(c, next_after).0.inv(),
    {
        let armed = self.push(Submission::Accept { listener: self.listener });
        self.lemma_push_inv(Submission::Accept { listener: self.listener });
        match decode_spec(c.user_data as int) {
            None => {},
            Some(Op::Accept) => {
                if c.result >= 0 {
                    if c.flags & CQE_F_MORE == 0 {
                        armed.lemma_receive_or_close_inv(c.result, next_after);
                    } else {
                        self.lemma_receive_or_close_inv(c.result, next_after);
                    }
                }
            },
            Some(Op::Recv(fd, index)) => {
                self.lemma_unbind_inv(fd);
                self.unbind(fd).lemma_push_inv(Submission::Close { fd });
                self.lemma_push_inv(
                    Submission::Send { fd, buffer: index, len: c.result as u32 },
                );
            },
            Some(Op::Send(fd)) => {
                if c.result >= 0 {
                    self.lemma_receive_or_close_inv(fd, next_after);
                } else {
                    self.lemma_push_inv(Submission::Close { fd });
                }
            },
            Some(Op::Close(fd)) => {
                self.lemma_unbind_inv(fd);
            },
        }
    }
}

/// The completion of a receive on `fd` into buffer `index`.
pub open spec fn recv_completion(fd: Fd, index: u16, result: i32, flags: u32) -> Completion {
    Completion { user_data: encode_spec(Op::Recv(fd, index)) as u64, result, flags }
}

/// The completion of a send on `fd`.
pub open spec fn send_completion(fd: Fd, result: i32, flags: u32) -> Completion {
    Completion { user_data: encode_spec(Op::Send(fd)) as u64, result, flags }
}

/// The completion of a close of `fd`.
pub open spec fn close_completion(fd: Fd, result: i32, flags: u32) -> Completion {
    Completion { user_data: encode_spec(Op::Close(fd)) as u64, result, flags }
}

/// A completion of the accept.
pub open spec fn accept_completion(result: i32, flags: u32) -> Completion {
    Completion { user_data: encode_spec(Op::Accept) as u64, result, flags }
}

impl ReactorView {
    /// Queueing keeps the order of submission: the new entry stands behind
    /// every entry that was queued before it, in the ring or in the backlog,
    /// and those keep their order.
    pub proof fn lemma_push_keeps_order(self, entry: Submission)
        ensures
            self.push(entry).queue() == self.queue().push(entry),
    {
        assert(self.push(entry).queue() =~= self.queue().push(entry));
    }

    /// While entries wait in the backlog, a new entry does not enter the
    /// ring, whatever room the ring has: it goes behind them.
    pub proof fn lemma_push_never_overtakes(self, entry: Submission)
        requires
            self.backlog.len() > 0,
        ensures
            self.push(entry).ring == self.ring,
            self.push(entry).backlog == self.backlog.push(entry),
    {
    }

    /// While the ring is full, everything that is queued lands in the
    /// backlog, in the order in which it was queued, and the ring is not
    /// touched.
    pub proof fn lemma_full_ring_defers(self, entries: Seq<Submission>)
        requires
            self.ring.len() >= self.ring_capacity,
        ensures
            self.push_all(entries).ring == self.ring,
            self.push_all(entries).backlog == self.backlog + entries,
            self.push_all(entries) == (ReactorView { backlog: self.backlog + entries, ..self }),
        decreases entries.len(),
    {
        if entries.len() > 0 {
            self.lemma_full_ring_defers(entries.drop_last());
            assert((self.backlog + entries.drop_last()).push(entries.last()) =~= self.backlog
                + entries);
        } else {
            assert(self.backlog + entries =~= self.backlog);
        }
    }

    /// Draining keeps the order of submission and loses nothing: the ring
    /// followed by the backlog reads the same before and after, and the ring
    /// is a prefix of it.
    pub proof fn lemma_drain_keeps_order(self, completions_full: bool)
        requires
            self.ring.len() <= self.ring_capacity,
        ensures
            ({
                let (after, status) = self.drain(completions_full);
                &&& after.queue() == self.queue()
                &&& after.ring.len() <= after.ring_capacity
                &&& status == DrainStatus::Drained ==> after.backlog.len() == 0
                &&& status == DrainStatus::RingFull ==> after.ring.len() == after.ring_capacity
                    && after.backlog.len() > 0
                &&& status == DrainStatus::Deferred ==> after == self
            }),
    {
    }

    /// Entries queued against a full ring are replayed first in, first out:
    /// once the ring has been handed to the kernel, a drain moves them into
    /// the ring in the order in which they were queued, behind what waited
    /// before them. If the ring has room for all of them, the ring then
    /// holds exactly that sequence and the backlog is empty.
    pub proof fn lemma_backlog_is_fifo(self, entries: Seq<Submission>)
        requires
            self.ring.len() >= self.ring_capacity,
        ensures
            ({
                let waiting = self.backlog + entries;
                let (after, status) = self.push_all(entries).submitted().drain(false);
                &&& after.ring + after.backlog == waiting
                &&& waiting.len() <= self.ring_capacity ==> after.ring == waiting && status
                    == DrainStatus::Drained
                &&& waiting.len() > self.ring_capacity ==> after.ring == waiting.take(
                    self.ring_capacity as int,
                ) && status == DrainStatus::RingFull
            }),
    {
        self.lemma_full_ring_defers(entries);
        self.push_all(entries).submitted().lemma_drain_keeps_order(false);
    }

    /// A receive for a connection that owns no buffer takes a slot that is
    /// not live: the one the pool names next. The slot becomes live with
    /// zeros in it and is bound to the connection, and the receive into it
    /// is queued. With every slot live, nothing changes and exhaustion is
    /// reported. A connection that owns a buffer trades it in, so that it
    /// never meets exhaustion.
    pub proof fn lemma_receive_takes_a_free_slot(self, fd: Fd, next_after: usize)
        requires
            self.inv(),
        ensures
            ({
                let (after, r) = self.receive(fd, next_after);
                let index = self.next_index as u16;
                let entry = Submission::Recv { fd, buffer: index, len: BUFFER_SIZE as u32 };
                &&& !self.directory.contains_key(fd) && self.live().len() < self.pool_capacity
                    ==> {
                    &&& r == Ok::<u16, PoolExhausted>(index)
                    &&& !self.live().contains(index as usize)
                    &&& after == (ReactorView {
                        buffers: self.buffers.insert(index as usize, zeroed()),
                        directory: self.directory.insert(fd, index),
                        next_index: next_after,
                        ..self
                    }).push(entry)
                }
                &&& !self.directory.contains_key(fd) && self.live().len() >= self.pool_capacity
                    ==> r is Err && after == self
                &&& self.directory.contains_key(fd) ==> r == Ok::<u16, PoolExhausted>(
                    self.directory[fd],
                )
            }),
    {
        self.lemma_unbind_inv(fd);
    }

    /// The buffer that a completion caused to be handed out, if any.
    pub open spec fn handed_out(event: Result<Event, Fault>) -> Option<u16> {
        match event {
            Ok(Event::Accepted { started, .. }) => started,
            Ok(Event::Sent { started, .. }) => started,
            _ => None,
        }
    }

    /// Handling a completion leaves the bytes of the live buffers alone: a
    /// buffer that is live afterwards holds what it held before, unless this
    /// very step handed it out, and then it holds zeros. Queueing, draining
    /// and handing the queue to the kernel do not touch the buffers at all.
    pub proof fn lemma_handle_keeps_bytes(self, c: Completion, next_after: usize, k: usize)
        requires
            self.inv(),
            self.handle(c, next_after).0.buffers.contains_key(k),
        ensures
            ({
                let (after, event) = self.handle(c, next_after);
                if ReactorView::handed_out(event) == Some(k as u16) {
                    after.buffers[k] == zeroed()
                } else {
                    self.buffers.contains_key(k) && after.buffers[k] == self.buffers[k]
                }
            }),
            forall|entry: Submission| #[trigger] self.push(entry).buffers == self.buffers,
            forall|full: bool| #[trigger] self.drain(full).0.buffers == self.buffers,
            self.submitted().buffers == self.buffers,
    {
        let accept = Submission::Accept { listener: self.listener };
        self.lemma_push_inv(accept);
        self.push(accept).lemma_unbind_inv(c.result);
        self.lemma_unbind_inv(c.result);
        match decode_spec(c.user_data as int) {
            Some(Op::Send(fd)) => {
                self.lemma_unbind_inv(fd);
            },
            _ => {},
        }
    }

    /// A receive that delivers `n` bytes, `n` between one and the size of a
    /// buffer, queues exactly one send, of the first `n` bytes of the very
    /// buffer that was received into, on the same connection. The send
    /// carries the bytes that the buffer held when the receive completed:
    /// pool and directory, and with them every byte of every live buffer,
    /// stay as they are. When the send has finished, the next receive is
    /// queued for the same connection, into a buffer handed out afresh.
    pub proof fn lemma_echo_cycle(
        self,
        fd: Fd,
        index: u16,
        n: i32,
        sent: i32,
        flags: u32,
        next_after: usize,
    )
        requires
            self.inv(),
            self.directory.contains_key(fd),
            self.directory[fd] == index,
            0 < n <= BUFFER_SIZE,
            sent >= 0,
        ensures
            ({
                let (echoing, e1) = self.handle(recv_completion(fd, index, n, flags), next_after);
                let (receiving, e2) = echoing.handle(send_completion(fd, sent, flags), next_after);
                let send = Submission::Send { fd, buffer: index, len: n as u32 };
                let recv = Submission::Recv { fd, buffer: index, len: BUFFER_SIZE as u32 };
                &&& e1 == Ok::<Event, Fault>(Event::Received { fd, buffer: index, len: n as u32 })
                &&& echoing == self.push(send)
                &&& echoing.payload(send) == self.buffers[index as usize].take(n as int)
                &&& echoing.payload(send).len() == n
                &&& e2 == Ok::<Event, Fault>(Event::Sent { fd, started: Some(index) })
                &&& receiving == (ReactorView {
                    next_index: next_after,
                    buffers: self.buffers.insert(index as usize, zeroed()),
                    ..self
                }).push(send).push(recv)
            }),
    {
        lemma_codec_round_trip(Op::Recv(fd, index));
        lemma_codec_round_trip(Op::Send(fd));
        assert(self.live().contains(index as usize));
        assert(self.buffers.remove(index as usize).dom() =~= self.live().remove(index as usize));
        assert(self.directory.remove(fd).insert(fd, index) =~= self.directory);
        assert(self.buffers.remove(index as usize).insert(index as usize, zeroed())
            =~= self.buffers.insert(index as usize, zeroed()));
    }

    /// When the peer closes its sending side, the receive completes with
    /// length zero. Then exactly one close of the connection is queued, the
    /// connection's binding is gone and its buffer is free. The connection
    /// accepted next is given that very buffer.
    pub proof fn lemma_half_close_frees_buffer(
        self,
        fd: Fd,
        index: u16,
        flags: u32,
        next_fd: Fd,
        next_flags: u32,
        next_after: usize,
    )
        requires
            self.inv(),
            self.directory.contains_key(fd),
            self.directory[fd] == index,
            next_fd >= 0,
            next_fd == fd || !self.directory.contains_key(next_fd),
        ensures
            ({
                let (closing, e1) = self.handle(recv_completion(fd, index, 0, flags), next_after);
                let (admitted, e2) = closing.handle(
                    accept_completion(next_fd, next_flags),
                    next_after,
                );
                &&& e1 == Ok::<Event, Fault>(Event::PeerClosed { fd, buffer: index })
                &&& closing == self.unbind(fd).push(Submission::Close { fd })
                &&& closing.buffers == self.buffers.remove(index as usize)
                &&& !closing.directory.contains_key(fd)
                &&& e2 == Ok::<Event, Fault>(Event::Accepted { fd: next_fd, started: Some(index) })
                &&& admitted.buffers == self.buffers.insert(index as usize, zeroed())
                &&& admitted.directory == self.directory.remove(fd).insert(next_fd, index)
            }),
    {
        lemma_codec_round_trip(Op::Recv(fd, index));
        lemma_codec_round_trip(Op::Accept);
    }

    /// A receive that fails leads to exactly one close and exactly one
    /// release of the buffer: the failure queues one entry, the close of the
    /// connection, and frees the connection's buffer; when that close
    /// completes, nothing is freed and nothing is queued any more.
    pub proof fn lemma_receive_error_releases_once(
        self,
        fd: Fd,
        index: u16,
        result: i32,
        closed: i32,
        flags: u32,
        next_after: usize,
    )
        requires
            self.inv(),
            self.directory.contains_key(fd),
            self.directory[fd] == index,
            result < 0,
            closed >= 0,
        ensures
            ({
                let (closing, e1) = self.handle(
                    recv_completion(fd, index, result, flags),
                    next_after,
                );
                let (done, e2) = closing.handle(close_completion(fd, closed, flags), next_after);
                &&& e1 == Ok::<Event, Fault>(Event::Failed { op: Op::Recv(fd, index), result })
                &&& closing == self.unbind(fd).push(Submission::Close { fd })
                &&& closing.buffers == self.buffers.remove(index as usize)
                &&& closing.ring.len() + closing.backlog.len() == self.ring.len()
                    + self.backlog.len() + 1
                &&& e2 == Ok::<Event, Fault>(Event::UnknownClose { fd })
                &&& done == closing
            }),
    {
        lemma_codec_round_trip(Op::Recv(fd, index));
        lemma_codec_round_trip(Op::Close(fd));
    }
}

} // verus!
