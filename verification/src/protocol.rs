//! The reactor together with the kernel.
//!
//! The reactor cannot see what the kernel holds. This file adds that part
//! to the picture, as a multiset of the entries that were handed to the
//! kernel and have not completed, and states what the kernel is relied on
//! for: it completes only what was submitted, it never reports more bytes
//! than a receive asked for, and a handle it returns from an accept is not
//! one that an operation is still pending on.
//!
//! Under that reliance the reactor never meets a fault, exactly one accept is
//! outstanding at any time, every connection has at most one operation
//! pending, and every pending receive or send refers to the live buffer that
//! its connection owns. So no buffer is freed or handed out again while an
//! operation that refers to it is queued or in flight, and the reactor
//! changes no byte of it: the send that echoes a receive carries what the
//! receive left in the buffer.

use vstd::multiset::Multiset;
use vstd::prelude::*;
use crate::buffers::{zeroed, BUFFER_SIZE};
use crate::model::{Completion, ReactorView, CQE_F_MORE};
use crate::op::{encode_spec, lemma_codec_round_trip, Fd};
use crate::queue::{drain_count, Submission};

verus! {

broadcast use {
    vstd::seq_lib::to_multiset_build,
    vstd::seq_lib::lemma_multiset_commutative,
    vstd::multiset::group_multiset_axioms,
};

/// The connection that an entry works on; an accept works on none.
pub open spec fn connection(s: Submission) -> Option<Fd> {
    match s {
        Submission::Accept { .. } => None,
        Submission::Recv { fd, .. } => Some(fd),
        Submission::Send { fd, .. } => Some(fd),
        Submission::Close { fd } => Some(fd),
    }
}

/// The buffer that an entry reads or writes, if any.
pub open spec fn buffer_of(s: Submission) -> Option<u16> {
    match s {
        Submission::Recv { buffer, .. } => Some(buffer),
        Submission::Send { buffer, .. } => Some(buffer),
        _ => None,
    }
}

/// One more if the two entries are the same.
pub open spec fn one_if(a: Submission, b: Submission) -> nat {
    if a == b {
        1
    } else {
        0
    }
}

/// An empty sequence holds no entry.
pub proof fn lemma_empty_holds_nothing()
    ensures
        forall|s: Submission| #[trigger] Seq::<Submission>::empty().to_multiset().count(s) == 0,
{
    Seq::<Submission>::empty().to_multiset_ensures();
    assert forall|s: Submission| #[trigger]
        Seq::<Submission>::empty().to_multiset().count(s) == 0 by {
        assert(!Seq::<Submission>::empty().contains(s));
    }
}

impl ReactorView {
    /// How often an entry waits in the ring or in the backlog.
    pub open spec fn waiting(self, s: Submission) -> nat {
        self.ring.to_multiset().count(s) + self.backlog.to_multiset().count(s)
    }

    /// Queueing an entry adds one occurrence of it and touches nothing else.
    pub proof fn lemma_push_waiting(self, entry: Submission)
        ensures
            forall|s: Submission| #[trigger]
                self.push(entry).waiting(s) == self.waiting(s) + one_if(s, entry),
            self.push(entry).directory == self.directory,
            self.push(entry).buffers == self.buffers,
            self.push(entry).listener == self.listener,
    {
    }

    /// A drain moves entries between backlog and ring; none appears or
    /// disappears.
    pub proof fn lemma_drain_waiting(self, completions_full: bool)
        ensures
            forall|s: Submission| #[trigger]
                self.drain(completions_full).0.waiting(s) == self.waiting(s),
    {
        let after = self.drain(completions_full).0;
        if !completions_full {
            let k = drain_count(self.ring.len(), self.ring_capacity, self.backlog.len()) as int;
            assert(self.backlog.take(k) + self.backlog.skip(k) =~= self.backlog);
            assert forall|s: Submission| #[trigger] after.waiting(s) == self.waiting(s) by {
                assert(after.ring.to_multiset().count(s) == self.ring.to_multiset().count(s)
                    + self.backlog.take(k).to_multiset().count(s));
                assert(self.backlog.to_multiset().count(s) == self.backlog.take(
                    k,
                ).to_multiset().count(s) + self.backlog.skip(k).to_multiset().count(s));
            }
        }
    }
}

/// The reactor and what the kernel holds.
pub struct System {
    pub reactor: ReactorView,
    /// The entries that were handed to the kernel and have not completed.
    pub in_flight: Multiset<Submission>,
}

impl System {
    /// How often an entry is pending: queued in the reactor or held by the
    /// kernel.
    pub open spec fn pending(self, s: Submission) -> nat {
        self.in_flight.count(s) + self.reactor.waiting(s)
    }

    /// A pending entry agrees with the reactor's books: an accept is on the
    /// listening socket, and a receive or a send names the buffer that its
    /// connection owns and stays within it.
    pub open spec fn agrees(self, s: Submission) -> bool {
        match s {
            Submission::Accept { listener } => listener == self.reactor.listener,
            Submission::Recv { fd, buffer, len } => {
                &&& self.reactor.directory.contains_key(fd)
                &&& self.reactor.directory[fd] == buffer
                &&& len == BUFFER_SIZE
            },
            Submission::Send { fd, buffer, len } => {
                &&& self.reactor.directory.contains_key(fd)
                &&& self.reactor.directory[fd] == buffer
                &&& 0 < len <= BUFFER_SIZE
            },
            Submission::Close { .. } => true,
        }
    }

    /// The invariant of reactor and kernel together.
    pub open spec fn inv(self) -> bool {
        &&& self.reactor.inv()
        &&& self.pending(Submission::Accept { listener: self.reactor.listener }) == 1
        &&& forall|s: Submission| #[trigger] self.pending(s) > 0 ==> self.agrees(s)
        &&& forall|a: Submission, b: Submission|
            #![trigger self.pending(a), self.pending(b)]
            self.pending(a) > 0 && self.pending(b) > 0 && connection(a) is Some && connection(a)
                == connection(b) ==> a == b
        &&& forall|s: Submission| connection(s) is Some ==> #[trigger] self.pending(s) <= 1
    }

    /// The state in which the loop starts: nothing but the first accept is
    /// queued.
    pub open spec fn start(reactor: ReactorView) -> System {
        System {
            reactor: reactor.push(Submission::Accept { listener: reactor.listener }),
            in_flight: Multiset::empty(),
        }
    }

    /// The queued entries are handed to the kernel.
    pub open spec fn submit(self) -> System {
        System {
            reactor: self.reactor.submitted(),
            in_flight: self.in_flight.add(self.reactor.ring.to_multiset()),
        }
    }

    /// The backlog is drained into the ring.
    pub open spec fn drain(self, completions_full: bool) -> System {
        System { reactor: self.reactor.drain(completions_full).0, ..self }
    }

    /// The completion that the kernel posts for an entry.
    pub open spec fn completion_of(s: Submission, result: i32, flags: u32) -> Completion {
        Completion { user_data: encode_spec(s.op_spec()) as u64, result, flags }
    }

    /// What the kernel is relied on for when it completes `s`: it holds `s`;
    /// a receive yields no more bytes than it asked for; and an accept yields
    /// a handle on which nothing is pending.
    pub open spec fn kernel_may_complete(self, s: Submission, result: i32, flags: u32) -> bool {
        &&& self.in_flight.count(s) > 0
        &&& s matches Submission::Recv { len, .. } ==> result <= len
        &&& s is Accept && result >= 0 ==> forall|p: Submission| #[trigger]
            self.pending(p) > 0 ==> connection(p) != Some(result)
    }

    /// The kernel completes `s` and the reactor handles the completion. A
    /// multishot accept that announces more completions stays with the
    /// kernel; every other entry is done.
    pub open spec fn complete(
        self,
        s: Submission,
        result: i32,
        flags: u32,
        next_after: usize,
    ) -> System {
        System {
            reactor: self.reactor.handle(System::completion_of(s, result, flags), next_after).0,
            in_flight: if s is Accept && flags & CQE_F_MORE != 0 {
                self.in_flight
            } else {
                self.in_flight.remove(s)
            },
        }
    }

    /// While an operation is pending on a buffer, the buffer is live and
    /// owned by the operation's connection, so the pool does not hand it out:
    /// it is not the index that comes next, and an allocation returns only
    /// an index that is not live.
    pub proof fn lemma_pending_buffer_is_held(self, s: Submission)
        requires
            self.inv(),
            self.pending(s) > 0,
        ensures
            s matches Submission::Recv { fd, buffer, .. } ==> self.reactor.live().contains(
                buffer as usize,
            ) && self.reactor.directory[fd] == buffer && self.reactor.next_index != buffer,
            s matches Submission::Send { fd, buffer, .. } ==> self.reactor.live().contains(
                buffer as usize,
            ) && self.reactor.directory[fd] == buffer && self.reactor.next_index != buffer,
    {
    }

    /// No two pending operations share a buffer: what a receive has written
    /// stays untouched while the send that echoes it is pending.
    pub proof fn lemma_pending_buffers_differ(self, a: Submission, b: Submission)
        requires
            self.inv(),
            self.pending(a) > 0,
            self.pending(b) > 0,
            a != b,
            buffer_of(a) is Some,
            buffer_of(b) is Some,
        ensures
            buffer_of(a) != buffer_of(b),
    {
    }

    /// While an operation is pending on a buffer, no completion of another
    /// operation changes a byte of that buffer: what a receive has written
    /// is what the send that echoes it carries, however long the send waits
    /// in the backlog or with the kernel.
    pub proof fn lemma_pending_bytes_stay(
        self,
        s: Submission,
        result: i32,
        flags: u32,
        next_after: usize,
        p: Submission,
    )
        requires
            self.inv(),
            self.kernel_may_complete(s, result, flags),
            self.complete(s, result, flags, next_after).reactor.next_fits(),
            self.pending(p) > 0,
            p != s,
            buffer_of(p) is Some,
        ensures
            ({
                let after = self.complete(s, result, flags, next_after);
                let b = buffer_of(p)->0 as usize;
                &&& after.pending(p) > 0
                &&& after.reactor.buffers.contains_key(b)
                &&& after.reactor.buffers[b] == self.reactor.buffers[b]
                &&& after.reactor.payload(p) == self.reactor.payload(p)
            }),
    {
        let c = System::completion_of(s, result, flags);
        let after = self.complete(s, result, flags, next_after);
        let b = buffer_of(p)->0;
        let fd = connection(p)->0;
        self.lemma_complete_inv(s, result, flags, next_after);
        self.reactor.lemma_handle_keeps_bytes(c, next_after, b as usize);
        lemma_codec_round_trip(s.op_spec());
        assert(self.pending(s) > 0);
        assert(after.pending(p) >= self.pending(p));
        assert(self.agrees(p) && self.agrees(s) && after.agrees(p));
        if ReactorView::handed_out(self.reactor.handle(c, next_after).1) == Some(b) {
            // The buffer handed out now belongs to the connection that the
            // completion is about, and `p` works on another one.
            let about = match s {
                Submission::Accept { .. } => result,
                _ => connection(s)->0,
            };
            assert(after.reactor.directory.contains_key(about));
            assert(after.reactor.directory.contains_key(fd));
            assert(after.reactor.directory[about] == b);
            assert(about == fd);
        }
    }

    /// The loop starts in a state that satisfies the invariant.
    pub proof fn lemma_start_inv(reactor: ReactorView)
        requires
            reactor.inv(),
            reactor.ring.len() == 0,
            reactor.backlog.len() == 0,
        ensures
            System::start(reactor).inv(),
    {
        let accept = Submission::Accept { listener: reactor.listener };
        reactor.lemma_push_inv(accept);
        reactor.lemma_push_waiting(accept);
        assert(reactor.ring =~= Seq::empty());
        assert(reactor.backlog =~= Seq::empty());
        lemma_empty_holds_nothing();
        assert forall|s: Submission| #[trigger]
            System::start(reactor).pending(s) == one_if(s, accept) by {}
    }

    /// A step that leaves the pending counts, the directory and the listener
    /// alone keeps the invariant.
    proof fn lemma_same_pending_inv(self, after: System)
        requires
            self.inv(),
            after.reactor.inv(),
            after.reactor.listener == self.reactor.listener,
            after.reactor.directory == self.reactor.directory,
            forall|s: Submission| #[trigger] after.pending(s) == self.pending(s),
        ensures
            after.inv(),
    {
        assert forall|s: Submission| #[trigger] after.pending(s) > 0 implies after.agrees(s) by {
            assert(self.pending(s) > 0);
        }
        assert forall|a: Submission, b: Submission|
            #![trigger after.pending(a), after.pending(b)]
            after.pending(a) > 0 && after.pending(b) > 0 && connection(a) is Some && connection(a)
                == connection(b) implies a == b by {
            assert(self.pending(a) > 0 && self.pending(b) > 0);
        }
        assert forall|s: Submission| connection(s) is Some implies #[trigger] after.pending(s)
            <= 1 by {
            assert(self.pending(s) <= 1);
        }
    }

    /// Handing the queue to the kernel keeps the invariant.
    pub proof fn lemma_submit_inv(self)
        requires
            self.inv(),
        ensures
            self.submit().inv(),
    {
        let after = self.submit();
        lemma_empty_holds_nothing();
        assert forall|s: Submission| #[trigger] after.pending(s) == self.pending(s) by {}
        self.reactor.lemma_inv_same_books(after.reactor);
        self.lemma_same_pending_inv(after);
    }

    /// Draining the backlog keeps the invariant.
    pub proof fn lemma_drain_inv(self, completions_full: bool)
        requires
            self.inv(),
        ensures
            self.drain(completions_full).inv(),
    {
        let after = self.drain(completions_full);
        self.reactor.lemma_drain_waiting(completions_full);
        self.reactor.lemma_drain_keeps_order(completions_full);
        assert forall|s: Submission| #[trigger] after.pending(s) == self.pending(s) by {}
        self.reactor.lemma_inv_same_books(after.reactor);
        self.lemma_same_pending_inv(after);
    }

    /// The invariant survives a step in which at most one pending entry
    /// goes, at most one comes, and the directory changes for no connection
    /// but the one that the step is about.
    proof fn lemma_step_inv(
        self,
        after: System,
        gone: Submission,
        fresh: Option<Submission>,
        touched: Option<Fd>,
    )
        requires
            self.inv(),
            after.reactor.inv(),
            after.reactor.listener == self.reactor.listener,
            self.pending(gone) > 0,
            forall|p: Submission| #[trigger]
                after.pending(p) == self.pending(p) - (if connection(gone) is Some {
                    one_if(p, gone)
                } else {
                    0
                }) + (match fresh {
                    Some(n) => one_if(p, n),
                    None => 0,
                }),
            fresh matches Some(n) ==> connection(n) is Some && connection(n) == touched
                && after.agrees(n),
            forall|p: Submission| #[trigger]
                self.pending(p) > 0 && touched is Some && connection(p) == touched ==> p == gone,
            forall|fd: Fd|
                Some(fd) != touched ==> (#[trigger] after.reactor.directory.contains_key(fd)
                    == self.reactor.directory.contains_key(fd)) && after.reactor.directory[fd]
                    == self.reactor.directory[fd],
        ensures
            after.inv(),
    {
        assert forall|p: Submission| #[trigger] after.pending(p) > 0 implies after.agrees(p) by {
            if fresh != Some(p) && connection(p) is Some {
                let fd = connection(p)->0;
                assert(self.pending(p) > 0);
                assert(after.reactor.directory.contains_key(fd)
                    == self.reactor.directory.contains_key(fd));
            }
        }
        assert forall|a: Submission, b: Submission|
            #![trigger after.pending(a), after.pending(b)]
            after.pending(a) > 0 && after.pending(b) > 0 && connection(a) is Some && connection(a)
                == connection(b) implies a == b by {
            assert(fresh == Some(a) || self.pending(a) > 0);
            assert(fresh == Some(b) || self.pending(b) > 0);
        }
        assert forall|p: Submission| connection(p) is Some implies #[trigger] after.pending(p)
            <= 1 by {
            assert(self.pending(p) <= 1);
        }
    }

    /// A receive completes.
    proof fn lemma_recv_completes(
        self,
        s: Submission,
        result: i32,
        flags: u32,
        next_after: usize,
    )
        requires
            self.inv(),
            s is Recv,
            self.kernel_may_complete(s, result, flags),
            self.complete(s, result, flags, next_after).reactor.inv(),
        ensures
            self.reactor.handle(System::completion_of(s, result, flags), next_after).1 is Ok,
            self.complete(s, result, flags, next_after).inv(),
            forall|p: Submission|
                p != s ==> #[trigger] self.complete(s, result, flags, next_after).pending(p)
                    >= self.pending(p),
    {
        let after = self.complete(s, result, flags, next_after);
        lemma_codec_round_trip(s.op_spec());
        assert(self.pending(s) > 0);
        if let Submission::Recv { fd, buffer, len } = s {
            let new = if result <= 0 {
                Submission::Close { fd }
            } else {
                Submission::Send { fd, buffer, len: result as u32 }
            };
            self.reactor.unbind(fd).lemma_push_waiting(new);
            self.reactor.lemma_push_waiting(new);
            assert forall|p: Submission| #[trigger]
                after.pending(p) == self.pending(p) - one_if(p, s) + one_if(p, new) by {}
            self.lemma_step_inv(after, s, Some(new), Some(fd));
        }
    }

    /// A send completes.
    proof fn lemma_send_completes(
        self,
        s: Submission,
        result: i32,
        flags: u32,
        next_after: usize,
    )
        requires
            self.inv(),
            s is Send,
            self.kernel_may_complete(s, result, flags),
            self.complete(s, result, flags, next_after).reactor.inv(),
        ensures
            self.reactor.handle(System::completion_of(s, result, flags), next_after).1 is Ok,
            self.complete(s, result, flags, next_after).inv(),
            forall|p: Submission|
                p != s ==> #[trigger] self.complete(s, result, flags, next_after).pending(p)
                    >= self.pending(p),
    {
        let after = self.complete(s, result, flags, next_after);
        lemma_codec_round_trip(s.op_spec());
        assert(self.pending(s) > 0);
        if let Submission::Send { fd, buffer, len } = s {
            let new = if result < 0 {
                Submission::Close { fd }
            } else {
                Submission::Recv { fd, buffer, len: BUFFER_SIZE as u32 }
            };
            let again = ReactorView {
                next_index: next_after,
                buffers: self.reactor.buffers.insert(buffer as usize, zeroed()),
                ..self.reactor
            };
            self.reactor.lemma_push_waiting(new);
            again.lemma_push_waiting(new);
            assert forall|p: Submission| #[trigger]
                after.pending(p) == self.pending(p) - one_if(p, s) + one_if(p, new) by {}
            self.lemma_step_inv(after, s, Some(new), Some(fd));
        }
    }

    /// A close completes.
    proof fn lemma_close_completes(
        self,
        s: Submission,
        result: i32,
        flags: u32,
        next_after: usize,
    )
        requires
            self.inv(),
            s is Close,
            self.kernel_may_complete(s, result, flags),
            self.complete(s, result, flags, next_after).reactor.inv(),
        ensures
            self.reactor.handle(System::completion_of(s, result, flags), next_after).1 is Ok,
            self.complete(s, result, flags, next_after).inv(),
            forall|p: Submission|
                p != s ==> #[trigger] self.complete(s, result, flags, next_after).pending(p)
                    >= self.pending(p),
    {
        let after = self.complete(s, result, flags, next_after);
        lemma_codec_round_trip(s.op_spec());
        if let Submission::Close { fd } = s {
            assert forall|p: Submission| #[trigger]
                after.pending(p) == self.pending(p) - one_if(p, s) by {}
            self.lemma_step_inv(after, s, None, Some(fd));
        }
    }

    /// The accept completes.
    proof fn lemma_accept_completes(
        self,
        s: Submission,
        result: i32,
        flags: u32,
        next_after: usize,
    )
        requires
            self.inv(),
            s is Accept,
            self.kernel_may_complete(s, result, flags),
            self.complete(s, result, flags, next_after).reactor.inv(),
        ensures
            self.reactor.handle(System::completion_of(s, result, flags), next_after).1 is Ok,
            self.complete(s, result, flags, next_after).inv(),
            forall|p: Submission|
                p != s ==> #[trigger] self.complete(s, result, flags, next_after).pending(p)
                    >= self.pending(p),
    {
        let after = self.complete(s, result, flags, next_after);
        let accept = Submission::Accept { listener: self.reactor.listener };
        lemma_codec_round_trip(s.op_spec());
        let armed = if flags & CQE_F_MORE == 0 {
            self.reactor.push(accept)
        } else {
            self.reactor
        };
        let kept = System { reactor: armed, in_flight: after.in_flight };
        self.reactor.lemma_push_waiting(accept);
        assert forall|p: Submission| #[trigger] kept.pending(p) == self.pending(p) by {
            assert(armed.waiting(p) == self.reactor.waiting(p) + (if flags & CQE_F_MORE == 0 {
                one_if(p, accept)
            } else {
                0
            }));
        }
        if result < 0 {
            self.lemma_step_inv(after, s, None, None);
        } else {
            let fd = result;
            let freed = armed.unbind(fd);
            let index = freed.next_index as u16;
            let bound = ReactorView {
                buffers: freed.buffers.insert(index as usize, zeroed()),
                next_index: next_after,
                directory: freed.directory.insert(fd, index),
                ..freed
            };
            let new = if freed.live().len() < freed.pool_capacity {
                Submission::Recv { fd, buffer: index, len: BUFFER_SIZE as u32 }
            } else {
                Submission::Close { fd }
            };
            bound.lemma_push_waiting(new);
            freed.lemma_push_waiting(new);
            assert forall|p: Submission| #[trigger]
                after.pending(p) == self.pending(p) + one_if(p, new) by {}
            self.lemma_step_inv(after, s, Some(new), Some(fd));
        }
    }

    /// Whatever the kernel completes within what it is relied on for, the
    /// reactor handles it without a fault, and the invariant holds
    /// afterwards: one accept is outstanding, no connection has two
    /// operations pending, and every pending receive or send refers to the
    /// buffer that its connection owns, which is live. Only the completed
    /// entry stops being pending. The premise on the outcome says only that
    /// the index which the pool names next is a free one.
    pub proof fn lemma_complete_inv(
        self,
        s: Submission,
        result: i32,
        flags: u32,
        next_after: usize,
    )
        requires
            self.inv(),
            self.kernel_may_complete(s, result, flags),
            self.complete(s, result, flags, next_after).reactor.next_fits(),
        ensures
            self.reactor.handle(System::completion_of(s, result, flags), next_after).1 is Ok,
            self.complete(s, result, flags, next_after).inv(),
            forall|p: Submission|
                p != s ==> #[trigger] self.complete(s, result, flags, next_after).pending(p)
                    >= self.pending(p),
    {
        self.reactor.lemma_handle_inv(System::completion_of(s, result, flags), next_after);
        match s {
            Submission::Accept { .. } => {
                self.lemma_accept_completes(s, result, flags, next_after);
            },
            Submission::Recv { .. } => {
                self.lemma_recv_completes(s, result, flags, next_after);
            },
            Submission::Send { .. } => {
                self.lemma_send_completes(s, result, flags, next_after);
            },
            Submission::Close { .. } => {
                self.lemma_close_completes(s, result, flags, next_after);
            },
        }
    }
}

} // verus!
