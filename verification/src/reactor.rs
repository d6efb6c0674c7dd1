//! The reactor: the one object that owns the submission queue, the backlog,
//! the buffer pool and the directory, and that decides what follows from
//! each completion.
//!
//! The caller runs the loop around it: it waits on the kernel, hands each
//! completion to [`Reactor::handle_completion`], and places the entries that
//! [`Reactor::take_submissions`] returns in the kernel's ring.

use vstd::prelude::*;
use crate::buffers::{zeroed, BufferSlab, PoolExhausted, BUFFER_SIZE, POOL_CAPACITY};
use crate::directory::Directory;
use crate::model::{Completion, DrainStatus, Event, Fault, ReactorView, CQE_F_MORE};
use crate::op::{decode, Fd, Op};
use crate::queue::{Backlog, Submission, SubmissionQueue};

verus! {

/// The state of the event loop: the listening socket, the entries queued for
/// the kernel's ring, the backlog behind them, the buffer pool and the
/// directory of the buffers that connections own.
pub struct Reactor {
    listener: Fd,
    ring: SubmissionQueue,
    backlog: Backlog,
    buffers: BufferSlab,
    directory: Directory,
}

impl View for Reactor {
    type V = ReactorView;

    /// What the state means: the views of the parts, side by side.
    closed spec fn view(&self) -> ReactorView {
        ReactorView {
            listener: self.listener,
            ring: self.ring@,
            ring_capacity: self.ring.capacity_spec() as nat,
            backlog: self.backlog@,
            buffers: self.buffers@,
            pool_capacity: self.buffers.capacity_spec() as nat,
            next_index: self.buffers.next_index(),
            directory: self.directory@,
        }
    }
}

impl Reactor {
    /// The reactor's representation is consistent and its state satisfies
    /// the invariant.
    pub closed spec fn wf(&self) -> bool {
        &&& self.ring.wf()
        &&& self.buffers.wf()
        &&& self@.inv()
    }

    /// A well-formed reactor satisfies the invariant of the model.
    pub proof fn lemma_wf(&self)
        requires
            self.wf(),
        ensures
            self@.inv(),
    {
    }

    /// A reactor for the given listening socket, a ring with `ring_capacity`
    /// slots and a pool of `pool_capacity` buffers. Nothing is queued yet.
    pub fn with_capacity(listener: Fd, ring_capacity: usize, pool_capacity: u16) -> (reactor:
        Reactor)
        ensures
            reactor.wf(),
            reactor@ == (ReactorView {
                listener,
                ring: Seq::empty(),
                ring_capacity: ring_capacity as nat,
                backlog: Seq::empty(),
                buffers: Map::empty(),
                pool_capacity: pool_capacity as nat,
                next_index: 0,
                directory: Map::empty(),
            }),
    {
        let reactor = Reactor {
            listener,
            ring: SubmissionQueue::with_capacity(ring_capacity),
            backlog: Backlog::new(),
            buffers: BufferSlab::with_capacity(pool_capacity),
            directory: Directory::new(),
        };
        proof {
            reactor.buffers.lemma_wf();
            reactor.directory.lemma_finite();
        }
        reactor
    }

    /// A reactor with the default pool size.
    pub fn new(listener: Fd, ring_capacity: usize) -> (reactor: Reactor)
        ensures
            reactor.wf(),
            reactor@ == (ReactorView {
                listener,
                ring: Seq::empty(),
                ring_capacity: ring_capacity as nat,
                backlog: Seq::empty(),
                buffers: Map::empty(),
                pool_capacity: POOL_CAPACITY as nat,
                next_index: 0,
                directory: Map::empty(),
            }),
    {
        Reactor::with_capacity(listener, ring_capacity, POOL_CAPACITY)
    }

    /// The listening socket.
    pub fn listener(&self) -> (fd: Fd)
        ensures
            fd == self@.listener,
    {
        self.listener
    }

    /// Number of entries queued for the ring.
    pub fn queued(&self) -> (n: usize)
        ensures
            n == self@.ring.len(),
    {
        self.ring.len()
    }

    /// Number of entries that wait in the backlog.
    pub fn backlog_len(&self) -> (n: usize)
        ensures
            n == self@.backlog.len(),
    {
        self.backlog.len()
    }

    /// Number of live buffers.
    pub fn live_buffers(&self) -> (n: usize)
        ensures
            n == self@.live().len(),
    {
        self.buffers.len()
    }

    /// The buffer that a connection owns, if any.
    pub fn bound(&self, fd: Fd) -> (r: Option<u16>)
        ensures
            r == (if self@.directory.contains_key(fd) {
                Some(self@.directory[fd])
            } else {
                None
            }),
    {
        self.directory.get(fd)
    }

    /// The storage of a live buffer, with the bytes that the buffer holds;
    /// `None` for an index that is not live.
    pub fn buffer(&self, index: u16) -> (r: Option<&[u8; BUFFER_SIZE]>)
        ensures
            r is Some <==> self@.buffers.contains_key(index as usize),
            r is Some ==> r.unwrap()@ == self@.buffers[index as usize],
    {
        self.buffers.buffer(index)
    }

    /// Write access to the storage of a live buffer, `None` for an index that
    /// is not live. What the caller leaves there is what the buffer holds
    /// afterwards; nothing else changes. This is the one way in which the
    /// bytes of a live buffer change.
    pub fn buffer_mut(&mut self, index: u16) -> (r: Option<&mut [u8; BUFFER_SIZE]>)
        requires
            old(self).wf(),
        ensures
            final(self).wf(),
            r is Some <==> old(self)@.buffers.contains_key(index as usize),
            r is Some ==> (*r.unwrap())@ == old(self)@.buffers[index as usize] && final(self)@
                == (ReactorView {
                buffers: old(self)@.buffers.insert(index as usize, (*final(r.unwrap()))@),
                ..old(self)@
            }),
            r is None ==> final(self)@ == old(self)@,
    {
        self.buffers.buffer_mut(index)
    }

    /// Queues an entry behind everything that is queued already: in the ring
    /// if nothing waits in the backlog and the ring has a free slot, else at
    /// the end of the backlog. An entry never overtakes an older one.
    pub fn push(&mut self, entry: Submission)
        requires
            old(self).wf(),
        ensures
            final(self).wf(),
            final(self)@ == old(self)@.push(entry),
            final(self)@.buffers == old(self)@.buffers,
    {
        if self.backlog.is_empty() {
            match self.ring.push(entry) {
                Ok(_) => {},
                Err(entry) => {
                    self.backlog.enqueue(entry);
                },
            }
        } else {
            self.backlog.enqueue(entry);
        }
    }

    /// Queues an accept on the listening socket.
    pub fn accept(&mut self)
        requires
            old(self).wf(),
        ensures
            final(self).wf(),
            final(self)@ == old(self)@.push(Submission::Accept { listener: old(self)@.listener }),
            final(self)@.buffers == old(self)@.buffers,
    {
        let entry = Submission::Accept { listener: self.listener };
        self.push(entry)
    }

    /// Queues a receive on `fd` into buffer `buffer`, for a whole buffer's
    /// worth of bytes. This only queues: pool and directory are not
    /// consulted.
    pub fn recv(&mut self, fd: Fd, buffer: u16)
        requires
            old(self).wf(),
        ensures
            final(self).wf(),
            final(self)@ == old(self)@.push(
                Submission::Recv { fd, buffer, len: BUFFER_SIZE as u32 },
            ),
            final(self)@.buffers == old(self)@.buffers,
    {
        let entry = Submission::Recv { fd, buffer, len: BUFFER_SIZE as u32 };
        self.push(entry)
    }

    /// Queues a send of the first `len` bytes of buffer `buffer` on `fd`.
    /// The entry carries the bytes that the buffer holds: no byte of any
    /// buffer is changed. This only queues: pool and directory are not
    /// consulted.
    pub fn send(&mut self, fd: Fd, buffer: u16, len: u32)
        requires
            old(self).wf(),
        ensures
            final(self).wf(),
            final(self)@ == old(self)@.push(Submission::Send { fd, buffer, len }),
            final(self)@.buffers == old(self)@.buffers,
            final(self)@.payload(Submission::Send { fd, buffer, len }) == old(
                self,
            )@.buffers[buffer as usize].take(len as int),
    {
        let entry = Submission::Send { fd, buffer, len };
        self.push(entry)
    }

    /// Queues the close of `fd`.
    pub fn close(&mut self, fd: Fd)
        requires
            old(self).wf(),
        ensures
            final(self).wf(),
            final(self)@ == old(self)@.push(Submission::Close { fd }),
            final(self)@.buffers == old(self)@.buffers,
    {
        let entry = Submission::Close { fd };
        self.push(entry)
    }

    /// Forgets the binding of `fd` and frees its buffer, if it has one.
    fn unbind(&mut self, fd: Fd) -> (freed: Option<u16>)
        requires
            old(self).wf(),
        ensures
            final(self).wf(),
            final(self)@ == old(self)@.unbind(fd),
            freed == (if old(self)@.directory.contains_key(fd) {
                Some(old(self)@.directory[fd])
            } else {
                None
            }),
    {
        proof {
            self.buffers.lemma_wf();
            old(self)@.lemma_unbind_inv(fd);
        }
        match self.directory.take(fd) {
            Some(index) => {
                self.buffers.release(index);
                Some(index)
            },
            None => {
                assert(self.directory@ =~= old(self).directory@);
                None
            },
        }
    }

    /// Starts a receive on `fd`: frees the buffer the connection owned, if
    /// any, takes a free slot, binds it to the connection and queues the
    /// receive into it. Returns the slot's index. When the pool is exhausted
    /// nothing is queued and nothing changes. The buffer handed out holds
    /// zeros; the bytes of every other live buffer stay as they are.
    pub fn receive(&mut self, fd: Fd) -> (r: Result<u16, PoolExhausted>)
        requires
            old(self).wf(),
        ensures
            final(self).wf(),
            (final(self)@, r) == old(self)@.receive(fd, final(self)@.next_index),
            forall|k: usize| #[trigger]
                final(self)@.buffers.contains_key(k) ==> if r == Ok::<u16, PoolExhausted>(
                    k as u16,
                ) {
                    final(self)@.buffers[k] == zeroed()
                } else {
                    old(self)@.buffers.contains_key(k) && final(self)@.buffers[k] == old(
                        self,
                    )@.buffers[k]
                },
    {
        let _ = self.unbind(fd);
        proof {
            self.buffers.lemma_wf();
        }
        let ghost freed = self@;
        match self.buffers.allocate() {
            Ok(index) => {
                let _ = self.directory.bind(fd, index);
                proof {
                    self.buffers.lemma_wf();
                    freed.lemma_bind_inv(fd, self@.next_index);
                }
                self.recv(fd, index);
                Ok(index)
            },
            Err(e) => Err(e),
        }
    }

    /// Starts a receive on `fd`, or queues its close when the pool is
    /// exhausted.
    fn receive_or_close(&mut self, fd: Fd) -> (buffer: Option<u16>)
        requires
            old(self).wf(),
        ensures
            final(self).wf(),
            (final(self)@, buffer) == old(self)@.receive_or_close(fd, final(self)@.next_index),
    {
        match self.receive(fd) {
            Ok(index) => Some(index),
            Err(_) => {
                self.close(fd);
                None
            },
        }
    }

    /// Dispatches one completion: decodes its tag and carries out what the
    /// protocol asks for: re-arming the accept, starting a receive, echoing
    /// what was received, closing on errors and on a peer's half-close, and
    /// freeing the buffer when a close finishes.
    ///
    /// No byte of a live buffer is changed: a buffer that is live afterwards
    /// holds what it held before, unless this call handed it out, and then
    /// it holds zeros. So the send that is queued for a receive of `n` bytes
    /// carries the `n` bytes that the buffer held when the receive
    /// completed.
    ///
    /// On a fault the reactor is left as it was.
    pub fn handle_completion(&mut self, completion: Completion) -> (r: Result<Event, Fault>)
        requires
            old(self).wf(),
        ensures
            final(self).wf(),
            (final(self)@, r) == old(self)@.handle(completion, final(self)@.next_index),
            forall|k: usize| #[trigger]
                final(self)@.buffers.contains_key(k) ==> if ReactorView::handed_out(r) == Some(
                    k as u16,
                ) {
                    final(self)@.buffers[k] == zeroed()
                } else {
                    old(self)@.buffers.contains_key(k) && final(self)@.buffers[k] == old(
                        self,
                    )@.buffers[k]
                },
    {
        let r = match decode(completion.user_data) {
            None => Err(Fault::UnknownTag(completion.user_data)),
            Some(op) => match op {
                Op::Accept => {
                    if completion.flags & CQE_F_MORE == 0 {
                        self.accept();
                    }
                    if completion.result < 0 {
                        Ok(Event::Failed { op, result: completion.result })
                    } else {
                        let started = self.receive_or_close(completion.result);
                        Ok(Event::Accepted { fd: completion.result, started })
                    }
                },
                Op::Recv(fd, index) => {
                    if self.directory.get(fd) != Some(index) {
                        Err(Fault::UnboundBuffer { fd, index })
                    } else if completion.result <= 0 {
                        let _ = self.unbind(fd);
                        self.close(fd);
                        if completion.result < 0 {
                            Ok(Event::Failed { op, result: completion.result })
                        } else {
                            Ok(Event::PeerClosed { fd, buffer: index })
                        }
                    } else if completion.result > BUFFER_SIZE as i32 {
                        Err(Fault::Oversized { fd, index, len: completion.result })
                    } else {
                        let len = completion.result as u32;
                        self.send(fd, index, len);
                        Ok(Event::Received { fd, buffer: index, len })
                    }
                },
                Op::Send(fd) => {
                    if completion.result < 0 {
                        self.close(fd);
                        Ok(Event::Failed { op, result: completion.result })
                    } else {
                        let started = self.receive_or_close(fd);
                        Ok(Event::Sent { fd, started })
                    }
                },
                Op::Close(fd) => {
                    if completion.result < 0 {
                        Ok(Event::Failed { op, result: completion.result })
                    } else {
                        match self.unbind(fd) {
                            Some(buffer) => Ok(Event::Closed { fd, buffer }),
                            None => Ok(Event::UnknownClose { fd }),
                        }
                    }
                },
            },
        };
        proof {
            let next_after = self@.next_index;
            assert forall|k: usize| #[trigger] self@.buffers.contains_key(k) implies if ReactorView::handed_out(
                r,
            ) == Some(k as u16) {
                self@.buffers[k] == zeroed()
            } else {
                old(self)@.buffers.contains_key(k) && self@.buffers[k] == old(self)@.buffers[k]
            } by {
                old(self)@.lemma_handle_keeps_bytes(completion, next_after, k);
            }
        }
        r
    }

    /// Moves the backlog into the ring as far as it fits, unless the
    /// completion ring is full, in which case completions are to be handled
    /// first and nothing moves.
    pub fn drain_backlog(&mut self, completions_full: bool) -> (status: DrainStatus)
        requires
            old(self).wf(),
        ensures
            final(self).wf(),
            (final(self)@, status) == old(self)@.drain(completions_full),
            final(self)@.buffers == old(self)@.buffers,
    {
        if completions_full {
            return DrainStatus::Deferred;
        }
        self.backlog.drain_into(&mut self.ring);
        if self.backlog.is_empty() {
            DrainStatus::Drained
        } else {
            DrainStatus::RingFull
        }
    }

    /// Hands out the queued entries, oldest first, and leaves the queue
    /// empty: the batch that the caller places in the kernel's ring.
    pub fn take_submissions(&mut self) -> (batch: Vec<Submission>)
        requires
            old(self).wf(),
        ensures
            final(self).wf(),
            batch@ == old(self)@.ring,
            final(self)@ == old(self)@.submitted(),
            final(self)@.buffers == old(self)@.buffers,
    {
        self.ring.take_all()
    }
}

} // verus!
