use uring_echo::buffers::BUFFER_SIZE;
use uring_echo::model::{Completion, DrainStatus, Event, Fault, CQE_F_MORE};
use uring_echo::op::{encode, Op};
use uring_echo::queue::Submission;
use uring_echo::reactor::Reactor;

const LISTENER: i32 = 3;

fn done(op: Op, result: i32) -> Completion {
    Completion { user_data: encode(op), result, flags: 0 }
}

fn accepted(fd: i32) -> Completion {
    Completion { user_data: encode(Op::Accept), result: fd, flags: CQE_F_MORE }
}

fn whole_buffer(fd: i32, buffer: u16) -> Submission {
    Submission::Recv { fd, buffer, len: BUFFER_SIZE as u32 }
}

/// A reactor with one connection that has a receive outstanding.
fn one_connection(fd: i32) -> Reactor {
    let mut reactor = Reactor::with_capacity(LISTENER, 16, 4);
    assert_eq!(
        reactor.handle_completion(accepted(fd)),
        Ok(Event::Accepted { fd, started: Some(0) })
    );
    assert_eq!(reactor.take_submissions(), vec![whole_buffer(fd, 0)]);
    reactor
}

#[test]
fn new_reactor_is_idle() {
    let mut reactor = Reactor::new(LISTENER, 1024);
    assert_eq!(reactor.listener(), LISTENER);
    assert_eq!(reactor.queued(), 0);
    assert_eq!(reactor.backlog_len(), 0);
    assert_eq!(reactor.live_buffers(), 0);
    assert_eq!(reactor.bound(7), None);
    assert_eq!(reactor.take_submissions(), vec![]);
}

#[test]
fn initial_accept_is_queued() {
    let mut reactor = Reactor::new(LISTENER, 1024);
    reactor.accept();
    assert_eq!(reactor.queued(), 1);
    assert_eq!(reactor.take_submissions(), vec![Submission::Accept { listener: LISTENER }]);
    assert_eq!(reactor.queued(), 0);
}

#[test]
fn queueing_by_hand() {
    let mut reactor = Reactor::new(LISTENER, 8);
    reactor.recv(7, 2);
    reactor.send(7, 2, 5);
    reactor.close(7);
    reactor.push(Submission::Accept { listener: 9 });
    assert_eq!(
        reactor.take_submissions(),
        vec![
            whole_buffer(7, 2),
            Submission::Send { fd: 7, buffer: 2, len: 5 },
            Submission::Close { fd: 7 },
            Submission::Accept { listener: 9 },
        ]
    );
}

#[test]
fn accept_starts_a_receive() {
    let mut reactor = Reactor::with_capacity(LISTENER, 16, 4);
    assert_eq!(
        reactor.handle_completion(accepted(7)),
        Ok(Event::Accepted { fd: 7, started: Some(0) })
    );
    assert_eq!(reactor.bound(7), Some(0));
    assert_eq!(reactor.live_buffers(), 1);
    assert_eq!(reactor.take_submissions(), vec![whole_buffer(7, 0)]);
}

#[test]
fn multishot_accept_is_not_resubmitted() {
    let mut reactor = Reactor::with_capacity(LISTENER, 16, 4);
    for (n, fd) in [7, 8, 9].into_iter().enumerate() {
        assert_eq!(
            reactor.handle_completion(accepted(fd)),
            Ok(Event::Accepted { fd, started: Some(n as u16) })
        );
    }
    assert_eq!(
        reactor.take_submissions(),
        vec![whole_buffer(7, 0), whole_buffer(8, 1), whole_buffer(9, 2)]
    );
}

#[test]
fn accept_is_rearmed_when_the_kernel_stops() {
    let mut reactor = Reactor::with_capacity(LISTENER, 16, 4);
    assert_eq!(
        reactor.handle_completion(done(Op::Accept, 7)),
        Ok(Event::Accepted { fd: 7, started: Some(0) })
    );
    assert_eq!(
        reactor.take_submissions(),
        vec![Submission::Accept { listener: LISTENER }, whole_buffer(7, 0)]
    );
}

#[test]
fn other_flag_bits_do_not_count_as_more() {
    let mut reactor = Reactor::with_capacity(LISTENER, 16, 4);
    let completion = Completion { user_data: encode(Op::Accept), result: 7, flags: 1 | 4 };
    reactor.handle_completion(completion).unwrap();
    assert_eq!(
        reactor.take_submissions(),
        vec![Submission::Accept { listener: LISTENER }, whole_buffer(7, 0)]
    );
    let completion = Completion { user_data: encode(Op::Accept), result: 8, flags: 1 | 2 | 4 };
    reactor.handle_completion(completion).unwrap();
    assert_eq!(reactor.take_submissions(), vec![whole_buffer(8, 1)]);
}

#[test]
fn failed_accept_is_reported_and_rearmed() {
    let mut reactor = one_connection(7);
    assert_eq!(
        reactor.handle_completion(done(Op::Accept, -24)),
        Ok(Event::Failed { op: Op::Accept, result: -24 })
    );
    assert_eq!(reactor.take_submissions(), vec![Submission::Accept { listener: LISTENER }]);
    // Unrelated state is untouched.
    assert_eq!(reactor.bound(7), Some(0));
    assert_eq!(reactor.live_buffers(), 1);
}

#[test]
fn failed_accept_with_more_to_come_queues_nothing() {
    let mut reactor = one_connection(7);
    let completion = Completion { user_data: encode(Op::Accept), result: -24, flags: CQE_F_MORE };
    assert_eq!(
        reactor.handle_completion(completion),
        Ok(Event::Failed { op: Op::Accept, result: -24 })
    );
    assert_eq!(reactor.take_submissions(), vec![]);
}

#[test]
fn ping_scenario() {
    let mut reactor = Reactor::new(LISTENER, 1024);
    reactor.accept();
    assert_eq!(reactor.take_submissions(), vec![Submission::Accept { listener: LISTENER }]);

    // The client connects.
    assert_eq!(
        reactor.handle_completion(accepted(7)),
        Ok(Event::Accepted { fd: 7, started: Some(0) })
    );
    assert_eq!(reactor.take_submissions(), vec![whole_buffer(7, 0)]);

    // The client sends "ping": the kernel writes it into the buffer.
    reactor.buffer_mut(0).unwrap()[..4].copy_from_slice(b"ping");
    assert_eq!(
        reactor.handle_completion(done(Op::Recv(7, 0), 4)),
        Ok(Event::Received { fd: 7, buffer: 0, len: 4 })
    );
    let batch = reactor.take_submissions();
    assert_eq!(batch, vec![Submission::Send { fd: 7, buffer: 0, len: 4 }]);
    match batch[0] {
        Submission::Send { buffer, len, .. } => {
            assert_eq!(&reactor.buffer(buffer).unwrap()[..len as usize], b"ping");
        }
        _ => unreachable!(),
    }

    // The send finishes; the server listens again.
    assert_eq!(
        reactor.handle_completion(done(Op::Send(7), 4)),
        Ok(Event::Sent { fd: 7, started: Some(0) })
    );
    assert_eq!(reactor.take_submissions(), vec![whole_buffer(7, 0)]);

    // The client shuts down its sending side.
    assert_eq!(
        reactor.handle_completion(done(Op::Recv(7, 0), 0)),
        Ok(Event::PeerClosed { fd: 7, buffer: 0 })
    );
    assert_eq!(reactor.take_submissions(), vec![Submission::Close { fd: 7 }]);
    assert_eq!(reactor.live_buffers(), 0);
    assert_eq!(reactor.bound(7), None);

    // The close finishes without error.
    assert_eq!(
        reactor.handle_completion(done(Op::Close(7), 0)),
        Ok(Event::UnknownClose { fd: 7 })
    );
    assert_eq!(reactor.take_submissions(), vec![]);
    assert_eq!(reactor.live_buffers(), 0);
}

#[test]
fn echo_of_every_length() {
    let mut reactor = one_connection(7);
    for len in 1..=BUFFER_SIZE {
        let index = reactor.bound(7).unwrap();
        let message: Vec<u8> = (0..len).map(|i| (i * 31 + len) as u8).collect();
        reactor.buffer_mut(index).unwrap()[..len].copy_from_slice(&message);
        assert_eq!(
            reactor.handle_completion(done(Op::Recv(7, index), len as i32)),
            Ok(Event::Received { fd: 7, buffer: index, len: len as u32 })
        );
        let batch = reactor.take_submissions();
        assert_eq!(batch, vec![Submission::Send { fd: 7, buffer: index, len: len as u32 }]);
        assert_eq!(&reactor.buffer(index).unwrap()[..len], &message[..]);
        let next = match reactor.handle_completion(done(Op::Send(7), len as i32)) {
            Ok(Event::Sent { fd: 7, started: Some(next) }) => next,
            other => panic!("unexpected {:?}", other),
        };
        assert_eq!(reactor.take_submissions(), vec![whole_buffer(7, next)]);
        assert_eq!(reactor.bound(7), Some(next));
        assert_eq!(reactor.live_buffers(), 1);
    }
}

#[test]
fn sequential_writes_come_back_in_order() {
    let mut reactor = one_connection(7);
    let mut echoed: Vec<u8> = Vec::new();
    let writes: [&[u8]; 4] = [b"one", b"two", b"three", b"4"];
    for write in writes {
        let index = reactor.bound(7).unwrap();
        reactor.buffer_mut(index).unwrap()[..write.len()].copy_from_slice(write);
        reactor.handle_completion(done(Op::Recv(7, index), write.len() as i32)).unwrap();
        for entry in reactor.take_submissions() {
            match entry {
                Submission::Send { fd, buffer, len } => {
                    assert_eq!(fd, 7);
                    echoed.extend_from_slice(&reactor.buffer(buffer).unwrap()[..len as usize]);
                }
                other => panic!("unexpected {:?}", other),
            }
        }
        reactor.handle_completion(done(Op::Send(7), write.len() as i32)).unwrap();
        reactor.take_submissions();
    }
    assert_eq!(echoed, b"onetwothree4");
}

#[test]
fn connections_interleave() {
    let mut reactor = Reactor::with_capacity(LISTENER, 16, 4);
    reactor.handle_completion(accepted(7)).unwrap();
    reactor.handle_completion(accepted(8)).unwrap();
    reactor.take_submissions();
    assert_eq!(
        reactor.handle_completion(done(Op::Recv(8, 1), 2)),
        Ok(Event::Received { fd: 8, buffer: 1, len: 2 })
    );
    assert_eq!(
        reactor.handle_completion(done(Op::Recv(7, 0), 3)),
        Ok(Event::Received { fd: 7, buffer: 0, len: 3 })
    );
    assert_eq!(
        reactor.take_submissions(),
        vec![
            Submission::Send { fd: 8, buffer: 1, len: 2 },
            Submission::Send { fd: 7, buffer: 0, len: 3 },
        ]
    );
    assert_eq!(reactor.bound(7), Some(0));
    assert_eq!(reactor.bound(8), Some(1));
}

#[test]
fn half_close_frees_the_slot_for_the_next_connection() {
    let mut reactor = Reactor::with_capacity(LISTENER, 16, 4);
    reactor.handle_completion(accepted(7)).unwrap();
    reactor.handle_completion(accepted(8)).unwrap();
    reactor.take_submissions();
    assert_eq!(
        reactor.handle_completion(done(Op::Recv(7, 0), 0)),
        Ok(Event::PeerClosed { fd: 7, buffer: 0 })
    );
    assert_eq!(reactor.take_submissions(), vec![Submission::Close { fd: 7 }]);
    assert_eq!(reactor.live_buffers(), 1);
    assert!(reactor.buffer(0).is_none());
    assert_eq!(
        reactor.handle_completion(accepted(9)),
        Ok(Event::Accepted { fd: 9, started: Some(0) })
    );
    assert_eq!(reactor.take_submissions(), vec![whole_buffer(9, 0)]);
}

#[test]
fn receive_error_closes_once_and_releases_once() {
    let mut reactor = one_connection(7);
    assert_eq!(
        reactor.handle_completion(done(Op::Recv(7, 0), -104)),
        Ok(Event::Failed { op: Op::Recv(7, 0), result: -104 })
    );
    assert_eq!(reactor.take_submissions(), vec![Submission::Close { fd: 7 }]);
    assert_eq!(reactor.live_buffers(), 0);
    assert_eq!(reactor.bound(7), None);
    // The close completes: nothing is left to release, nothing more is closed.
    assert_eq!(
        reactor.handle_completion(done(Op::Close(7), 0)),
        Ok(Event::UnknownClose { fd: 7 })
    );
    assert_eq!(reactor.take_submissions(), vec![]);
    assert_eq!(reactor.live_buffers(), 0);
}

#[test]
fn receive_error_does_not_free_a_neighbour() {
    let mut reactor = Reactor::with_capacity(LISTENER, 16, 4);
    reactor.handle_completion(accepted(7)).unwrap();
    reactor.handle_completion(accepted(8)).unwrap();
    reactor.take_submissions();
    reactor.handle_completion(done(Op::Recv(7, 0), -104)).unwrap();
    // Slot 0 is reused by a new connection before the close completes.
    assert_eq!(
        reactor.handle_completion(accepted(9)),
        Ok(Event::Accepted { fd: 9, started: Some(0) })
    );
    assert_eq!(
        reactor.handle_completion(done(Op::Close(7), 0)),
        Ok(Event::UnknownClose { fd: 7 })
    );
    assert_eq!(reactor.bound(9), Some(0));
    assert_eq!(reactor.bound(8), Some(1));
    assert_eq!(reactor.live_buffers(), 2);
}

#[test]
fn send_error_closes_and_the_close_frees_the_buffer() {
    let mut reactor = one_connection(7);
    reactor.handle_completion(done(Op::Recv(7, 0), 5)).unwrap();
    reactor.take_submissions();
    assert_eq!(
        reactor.handle_completion(done(Op::Send(7), -32)),
        Ok(Event::Failed { op: Op::Send(7), result: -32 })
    );
    assert_eq!(reactor.take_submissions(), vec![Submission::Close { fd: 7 }]);
    // The buffer stays bound until the close completes.
    assert_eq!(reactor.bound(7), Some(0));
    assert_eq!(reactor.live_buffers(), 1);
    assert_eq!(
        reactor.handle_completion(done(Op::Close(7), 0)),
        Ok(Event::Closed { fd: 7, buffer: 0 })
    );
    assert_eq!(reactor.bound(7), None);
    assert_eq!(reactor.live_buffers(), 0);
    assert_eq!(reactor.take_submissions(), vec![]);
}

#[test]
fn failed_close_changes_nothing() {
    let mut reactor = one_connection(7);
    assert_eq!(
        reactor.handle_completion(done(Op::Close(7), -9)),
        Ok(Event::Failed { op: Op::Close(7), result: -9 })
    );
    assert_eq!(reactor.bound(7), Some(0));
    assert_eq!(reactor.live_buffers(), 1);
    assert_eq!(reactor.take_submissions(), vec![]);
}

#[test]
fn close_of_an_unknown_connection_is_tolerated() {
    let mut reactor = one_connection(7);
    assert_eq!(
        reactor.handle_completion(done(Op::Close(99), 0)),
        Ok(Event::UnknownClose { fd: 99 })
    );
    assert_eq!(reactor.bound(7), Some(0));
    assert_eq!(reactor.live_buffers(), 1);
}

#[test]
fn exhausted_pool_turns_the_connection_away() {
    let mut reactor = Reactor::with_capacity(LISTENER, 16, 1);
    assert_eq!(
        reactor.handle_completion(accepted(7)),
        Ok(Event::Accepted { fd: 7, started: Some(0) })
    );
    assert_eq!(
        reactor.handle_completion(accepted(8)),
        Ok(Event::Accepted { fd: 8, started: None })
    );
    assert_eq!(
        reactor.take_submissions(),
        vec![whole_buffer(7, 0), Submission::Close { fd: 8 }]
    );
    assert_eq!(reactor.bound(8), None);
    assert_eq!(reactor.live_buffers(), 1);
    // The first connection is served as before.
    assert_eq!(
        reactor.handle_completion(done(Op::Recv(7, 0), 3)),
        Ok(Event::Received { fd: 7, buffer: 0, len: 3 })
    );
    assert_eq!(
        reactor.handle_completion(done(Op::Send(7), 3)),
        Ok(Event::Sent { fd: 7, started: Some(0) })
    );
}

#[test]
fn receive_reports_exhaustion() {
    let mut reactor = Reactor::with_capacity(LISTENER, 16, 1);
    assert_eq!(reactor.receive(7), Ok(0));
    assert!(reactor.receive(8).is_err());
    assert_eq!(reactor.take_submissions(), vec![whole_buffer(7, 0)]);
    assert_eq!(reactor.bound(8), None);
    // A connection that owns a buffer trades it in and never runs dry.
    assert_eq!(reactor.receive(7), Ok(0));
    assert_eq!(reactor.live_buffers(), 1);
}

#[test]
fn unknown_tag_is_a_fault() {
    let mut reactor = one_connection(7);
    let completion = Completion { user_data: 0xdead_0000_0000_0004, result: 0, flags: 0 };
    assert_eq!(
        reactor.handle_completion(completion),
        Err(Fault::UnknownTag(0xdead_0000_0000_0004))
    );
    assert_eq!(reactor.bound(7), Some(0));
    assert_eq!(reactor.take_submissions(), vec![]);
}

#[test]
fn receive_on_a_foreign_buffer_is_a_fault() {
    let mut reactor = one_connection(7);
    assert_eq!(
        reactor.handle_completion(done(Op::Recv(7, 1), 4)),
        Err(Fault::UnboundBuffer { fd: 7, index: 1 })
    );
    assert_eq!(
        reactor.handle_completion(done(Op::Recv(8, 0), -1)),
        Err(Fault::UnboundBuffer { fd: 8, index: 0 })
    );
    assert_eq!(reactor.bound(7), Some(0));
    assert_eq!(reactor.live_buffers(), 1);
    assert_eq!(reactor.take_submissions(), vec![]);
}

#[test]
fn second_receive_completion_after_cleanup_is_a_fault() {
    let mut reactor = one_connection(7);
    reactor.handle_completion(done(Op::Recv(7, 0), 0)).unwrap();
    assert_eq!(
        reactor.handle_completion(done(Op::Recv(7, 0), 0)),
        Err(Fault::UnboundBuffer { fd: 7, index: 0 })
    );
    assert_eq!(reactor.take_submissions(), vec![Submission::Close { fd: 7 }]);
}

#[test]
fn oversized_receive_is_a_fault() {
    let mut reactor = one_connection(7);
    assert_eq!(
        reactor.handle_completion(done(Op::Recv(7, 0), 1025)),
        Err(Fault::Oversized { fd: 7, index: 0, len: 1025 })
    );
    assert_eq!(reactor.take_submissions(), vec![]);
    assert_eq!(
        reactor.handle_completion(done(Op::Recv(7, 0), 1024)),
        Ok(Event::Received { fd: 7, buffer: 0, len: 1024 })
    );
}

#[test]
fn full_ring_spills_into_the_backlog() {
    let mut reactor = Reactor::with_capacity(LISTENER, 2, 8);
    for fd in 10..15 {
        reactor.handle_completion(accepted(fd)).unwrap();
    }
    assert_eq!(reactor.queued(), 2);
    assert_eq!(reactor.backlog_len(), 3);
    assert_eq!(reactor.take_submissions(), vec![whole_buffer(10, 0), whole_buffer(11, 1)]);
    assert_eq!(reactor.drain_backlog(false), DrainStatus::RingFull);
    assert_eq!(reactor.backlog_len(), 1);
    assert_eq!(reactor.take_submissions(), vec![whole_buffer(12, 2), whole_buffer(13, 3)]);
    assert_eq!(reactor.drain_backlog(false), DrainStatus::Drained);
    assert_eq!(reactor.take_submissions(), vec![whole_buffer(14, 4)]);
    assert_eq!(reactor.drain_backlog(false), DrainStatus::Drained);
    assert_eq!(reactor.take_submissions(), vec![]);
}

#[test]
fn drain_waits_while_completions_are_pending() {
    let mut reactor = Reactor::with_capacity(LISTENER, 1, 8);
    reactor.close(1);
    reactor.close(2);
    reactor.take_submissions();
    assert_eq!(reactor.drain_backlog(true), DrainStatus::Deferred);
    assert_eq!(reactor.queued(), 0);
    assert_eq!(reactor.backlog_len(), 1);
    assert_eq!(reactor.drain_backlog(false), DrainStatus::Drained);
    assert_eq!(reactor.take_submissions(), vec![Submission::Close { fd: 2 }]);
}

#[test]
fn forced_full_ring_replays_markers_in_order() {
    let mut reactor = Reactor::with_capacity(LISTENER, 4, 8);
    for fd in 100..104 {
        reactor.close(fd);
    }
    // The ring is full now: every marker goes to the backlog.
    for marker in 0..10 {
        reactor.close(marker);
    }
    assert_eq!(reactor.queued(), 4);
    assert_eq!(reactor.backlog_len(), 10);
    reactor.take_submissions();
    let mut replayed: Vec<Submission> = Vec::new();
    loop {
        let status = reactor.drain_backlog(false);
        replayed.extend(reactor.take_submissions());
        if status == DrainStatus::Drained {
            break;
        }
    }
    let expected: Vec<Submission> = (0..10).map(|fd| Submission::Close { fd }).collect();
    assert_eq!(replayed, expected);
}

#[test]
fn close_follows_its_send_through_the_backlog() {
    let mut reactor = Reactor::with_capacity(LISTENER, 1, 8);
    reactor.handle_completion(accepted(7)).unwrap();
    reactor.take_submissions();
    reactor.accept();
    // The ring is full: the send and the close that follows it are deferred.
    reactor.send(7, 0, 4);
    reactor.close(7);
    assert_eq!(reactor.take_submissions(), vec![Submission::Accept { listener: LISTENER }]);
    assert_eq!(reactor.drain_backlog(false), DrainStatus::RingFull);
    assert_eq!(reactor.take_submissions(), vec![Submission::Send { fd: 7, buffer: 0, len: 4 }]);
    assert_eq!(reactor.drain_backlog(false), DrainStatus::Drained);
    assert_eq!(reactor.take_submissions(), vec![Submission::Close { fd: 7 }]);
}

#[test]
fn buffers_of_free_slots_are_not_exposed() {
    let mut reactor = one_connection(7);
    assert!(reactor.buffer(0).is_some());
    assert!(reactor.buffer(1).is_none());
    assert!(reactor.buffer_mut(1).is_none());
    reactor.handle_completion(done(Op::Recv(7, 0), 0)).unwrap();
    assert!(reactor.buffer(0).is_none());
    assert!(reactor.buffer_mut(0).is_none());
}

#[test]
fn later_entry_does_not_overtake_the_backlog() {
    let mut reactor = Reactor::with_capacity(LISTENER, 1, 8);
    reactor.close(1);
    reactor.close(2);
    assert_eq!(reactor.take_submissions(), vec![Submission::Close { fd: 1 }]);
    // The ring has room again, but an older entry still waits.
    reactor.close(3);
    assert_eq!(reactor.queued(), 0);
    assert_eq!(reactor.backlog_len(), 2);
    assert_eq!(reactor.drain_backlog(false), DrainStatus::RingFull);
    assert_eq!(reactor.take_submissions(), vec![Submission::Close { fd: 2 }]);
    assert_eq!(reactor.drain_backlog(false), DrainStatus::Drained);
    assert_eq!(reactor.take_submissions(), vec![Submission::Close { fd: 3 }]);
}

#[test]
fn close_never_overtakes_its_send_after_a_deferred_drain() {
    let mut reactor = Reactor::with_capacity(LISTENER, 2, 8);
    reactor.handle_completion(accepted(7)).unwrap();
    reactor.take_submissions();
    reactor.accept();
    reactor.accept();
    // The ring is full: the send is held back.
    reactor.send(7, 0, 4);
    reactor.take_submissions();
    // Completions come first, so the drain is put off; the close that is
    // queued meanwhile must still follow the send.
    assert_eq!(reactor.drain_backlog(true), DrainStatus::Deferred);
    reactor.close(7);
    assert_eq!(reactor.queued(), 0);
    assert_eq!(reactor.drain_backlog(false), DrainStatus::Drained);
    assert_eq!(
        reactor.take_submissions(),
        vec![Submission::Send { fd: 7, buffer: 0, len: 4 }, Submission::Close { fd: 7 }]
    );
}

#[test]
fn send_for_ping_carries_ping() {
    let mut reactor = one_connection(7);
    reactor.buffer_mut(0).unwrap()[..4].copy_from_slice(b"ping");
    reactor.send(7, 0, 4);
    assert_eq!(reactor.backlog_len(), 0);
    let batch = reactor.take_submissions();
    assert_eq!(batch, vec![Submission::Send { fd: 7, buffer: 0, len: 4 }]);
    assert_eq!(batch[0].user_data(), u64::from(Op::Send(7)));
    assert_eq!(&reactor.buffer(0).unwrap()[..4], b"ping");
}

#[test]
fn handling_completions_leaves_the_bytes_alone() {
    let mut reactor = Reactor::with_capacity(LISTENER, 16, 4);
    reactor.handle_completion(accepted(7)).unwrap();
    reactor.handle_completion(accepted(8)).unwrap();
    reactor.buffer_mut(0).unwrap().fill(0x11);
    reactor.buffer_mut(1).unwrap().fill(0x22);
    // A whole life of connection 8, while connection 7 waits for its echo.
    reactor.handle_completion(done(Op::Recv(7, 0), 1024)).unwrap();
    reactor.handle_completion(done(Op::Recv(8, 1), 10)).unwrap();
    assert!(reactor.buffer(1).unwrap().iter().all(|b| *b == 0x22));
    reactor.handle_completion(done(Op::Send(8), 10)).unwrap();
    reactor.handle_completion(done(Op::Recv(8, 1), 0)).unwrap();
    reactor.handle_completion(done(Op::Close(8), 0)).unwrap();
    reactor.handle_completion(accepted(9)).unwrap();
    reactor.handle_completion(done(Op::Accept, -24)).unwrap();
    assert_eq!(reactor.drain_backlog(false), DrainStatus::Drained);
    reactor.take_submissions();
    assert!(reactor.buffer(0).unwrap().iter().all(|b| *b == 0x11));
    assert_eq!(reactor.bound(7), Some(0));
}

#[test]
fn a_buffer_handed_out_holds_zeros() {
    let mut reactor = one_connection(7);
    assert!(reactor.buffer(0).unwrap().iter().all(|b| *b == 0));
    reactor.buffer_mut(0).unwrap().fill(0xee);
    reactor.handle_completion(done(Op::Recv(7, 0), 5)).unwrap();
    assert!(reactor.buffer(0).unwrap().iter().all(|b| *b == 0xee));
    // After the send the connection is given a buffer afresh.
    assert_eq!(
        reactor.handle_completion(done(Op::Send(7), 5)),
        Ok(Event::Sent { fd: 7, started: Some(0) })
    );
    assert!(reactor.buffer(0).unwrap().iter().all(|b| *b == 0));
}

#[test]
fn buffers_are_the_storage_of_their_own_slot() {
    let mut reactor = Reactor::with_capacity(LISTENER, 16, 4);
    for fd in 10..14 {
        reactor.handle_completion(accepted(fd)).unwrap();
    }
    for index in 0..4u16 {
        reactor.buffer_mut(index).unwrap().fill(index as u8 + 1);
    }
    for index in 0..4u16 {
        assert!(reactor.buffer(index).unwrap().iter().all(|b| *b == index as u8 + 1));
    }
}
