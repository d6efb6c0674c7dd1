//! The decisions of the echo servers that read and write a stream socket
//! directly.
//!
//! Two kinds of server share the wire behaviour and differ in how a read
//! reaches them. A server woken by readiness events reads from a
//! non-blocking socket, where a read that would block is no failure: it
//! keeps the connection and waits ([`after_ready_read`]). A server that runs
//! one task per connection awaits each read and each write, so that every
//! error ends the task, with that error ([`after_awaited_read`],
//! [`after_awaited_write`]).

use vstd::prelude::*;

verus! {

/// `std::io::ErrorKind`, declared to the verifier with its variants, so that
/// verified code can tell them apart.
#[verifier::external_type_specification]
pub struct ExErrorKind(std::io::ErrorKind);

/// Whether a read error only says that no data is ready yet.
pub fn would_block(kind: std::io::ErrorKind) -> (b: bool)
    ensures
        b == (kind == std::io::ErrorKind::WouldBlock),
{
    match kind {
        std::io::ErrorKind::WouldBlock => true,
        _ => false,
    }
}

/// What a server woken by readiness events does with a connection after a
/// read or a write on it returned.
#[derive(Clone, Copy, Debug, PartialEq, Eq, Structural)]
pub enum Step {
    /// Write the first `n` bytes of the read buffer back.
    Echo(usize),
    /// Keep the connection and wait for the next event.
    Wait,
    /// The peer closed the connection, or the read or the write failed: drop
    /// the connection.
    Hangup,
}

/// The step that follows the outcome of a read on a non-blocking socket.
pub open spec fn after_ready_read_spec(outcome: Result<usize, std::io::ErrorKind>) -> Step {
    match outcome {
        Ok(n) => if n == 0 {
            Step::Hangup
        } else {
            Step::Echo(n)
        },
        Err(kind) => if kind == std::io::ErrorKind::WouldBlock {
            Step::Wait
        } else {
            Step::Hangup
        },
    }
}

/// Decides what follows a read on a non-blocking socket: a read of zero
/// bytes means that the peer is gone, a read of `n` bytes is echoed, a read
/// that would block leaves the connection alone, and any other error ends
/// it.
pub fn after_ready_read(outcome: Result<usize, std::io::ErrorKind>) -> (step: Step)
    ensures
        step == after_ready_read_spec(outcome),
{
    match outcome {
        Ok(n) => if n == 0 {
            Step::Hangup
        } else {
            Step::Echo(n)
        },
        Err(kind) => if would_block(kind) {
            Step::Wait
        } else {
            Step::Hangup
        },
    }
}

/// Decides what follows the write of an echo on a connection of the
/// readiness server: a write that failed, for whatever reason, ends the
/// connection; after a good one the server waits for the next event.
pub fn after_ready_write<E>(outcome: Result<(), E>) -> (step: Step)
    ensures
        step == (if outcome is Ok {
            Step::Wait
        } else {
            Step::Hangup
        }),
{
    match outcome {
        Ok(_) => Step::Wait,
        Err(_) => Step::Hangup,
    }
}

/// What the task of a connection does next.
#[derive(Debug, PartialEq, Eq)]
pub enum Next<E> {
    /// Await a read into the buffer.
    Read,
    /// Await the write of the first `n` bytes of the buffer.
    Write(usize),
    /// End the task with this result. Nothing is read or written any more.
    Return(Result<(), E>),
}

/// What follows an awaited read: zero bytes end the task in good order, `n`
/// bytes are written back, and an error, of whatever kind, ends the task
/// with that error.
pub open spec fn after_awaited_read_spec<E>(outcome: Result<usize, E>) -> Next<E> {
    match outcome {
        Ok(n) => if n == 0 {
            Next::Return(Ok(()))
        } else {
            Next::Write(n)
        },
        Err(e) => Next::Return(Err(e)),
    }
}

/// What follows an awaited write: after a good one the task reads again, and
/// an error ends the task with that error.
pub open spec fn after_awaited_write_spec<E>(outcome: Result<(), E>) -> Next<E> {
    match outcome {
        Ok(_) => Next::Read,
        Err(e) => Next::Return(Err(e)),
    }
}

/// Decides what follows an awaited read.
pub fn after_awaited_read<E>(outcome: Result<usize, E>) -> (next: Next<E>)
    ensures
        next == after_awaited_read_spec(outcome),
{
    match outcome {
        Ok(n) => if n == 0 {
            Next::Return(Ok(()))
        } else {
            Next::Write(n)
        },
        Err(e) => Next::Return(Err(e)),
    }
}

/// Decides what follows an awaited write.
pub fn after_awaited_write<E>(outcome: Result<(), E>) -> (next: Next<E>)
    ensures
        next == after_awaited_write_spec(outcome),
{
    match outcome {
        Ok(_) => Next::Read,
        Err(e) => Next::Return(Err(e)),
    }
}

/// What the socket answered to the task's last request.
pub enum Answer<E> {
    ReadDone(Result<usize, E>),
    WriteDone(Result<(), E>),
}

/// The task after one answer: a read is followed by what `after_awaited_read`
/// decides, a write by what `after_awaited_write` decides, and a task that
/// has ended stays as it is.
pub open spec fn task_step<E>(next: Next<E>, answer: Answer<E>) -> Next<E> {
    match (next, answer) {
        (Next::Read, Answer::ReadDone(outcome)) => after_awaited_read_spec(outcome),
        (Next::Write(_), Answer::WriteDone(outcome)) => after_awaited_write_spec(outcome),
        _ => next,
    }
}

/// The task after a sequence of answers, starting with a read.
pub open spec fn task_run<E>(answers: Seq<Answer<E>>) -> Next<E>
    decreases answers.len(),
{
    if answers.len() == 0 {
        Next::Read
    } else {
        task_step(task_run(answers.drop_last()), answers.last())
    }
}

/// The answers to reads of the given lengths, each followed by its good
/// write.
pub open spec fn echoes<E>(lens: Seq<usize>) -> Seq<Answer<E>>
    decreases lens.len(),
{
    if lens.len() == 0 {
        Seq::empty()
    } else {
        echoes::<E>(lens.drop_last()).push(Answer::ReadDone(Ok(lens.last()))).push(
            Answer::WriteDone(Ok(())),
        )
    }
}

/// After any number of reads that were echoed, the task is about to read
/// again.
pub proof fn lemma_echoes_read_again<E>(lens: Seq<usize>)
    requires
        forall|i: int| 0 <= i < lens.len() ==> lens[i] > 0,
    ensures
        task_run(echoes::<E>(lens)) == Next::<E>::Read,
    decreases lens.len(),
{
    if lens.len() > 0 {
        lemma_echoes_read_again::<E>(lens.drop_last());
        let before = echoes::<E>(lens.drop_last());
        let read = before.push(Answer::ReadDone(Ok(lens.last())));
        assert(read.drop_last() == before);
        assert(task_run(read) == Next::<E>::Write(lens.last()));
        assert(echoes::<E>(lens).drop_last() == read);
    }
}

/// When reads were echoed and the next read fails, the task ends with that
/// very error, of whatever kind; and when it returns zero bytes, the task
/// ends in good order.
pub proof fn lemma_task_ends_with_the_read<E>(lens: Seq<usize>, last: Result<usize, E>)
    requires
        forall|i: int| 0 <= i < lens.len() ==> lens[i] > 0,
        last is Err || last == Ok::<usize, E>(0),
    ensures
        task_run(echoes::<E>(lens).push(Answer::ReadDone(last))) == Next::Return(
            match last {
                Ok(_) => Ok(()),
                Err(e) => Err(e),
            },
        ),
{
    lemma_echoes_read_again::<E>(lens);
    assert(echoes::<E>(lens).push(Answer::ReadDone(last)).drop_last() == echoes::<E>(lens));
}

/// When a write fails, the task ends with that error.
pub proof fn lemma_task_ends_with_the_write<E>(lens: Seq<usize>, n: usize, e: E)
    requires
        forall|i: int| 0 <= i < lens.len() ==> lens[i] > 0,
        n > 0,
    ensures
        task_run(
            echoes::<E>(lens).push(Answer::ReadDone(Ok(n))).push(Answer::WriteDone(Err(e))),
        ) == Next::Return(Err::<(), E>(e)),
{
    lemma_echoes_read_again::<E>(lens);
    let read = echoes::<E>(lens).push(Answer::ReadDone(Ok(n)));
    assert(read.drop_last() == echoes::<E>(lens));
    assert(task_run(read) == Next::<E>::Write(n));
    assert(read.push(Answer::WriteDone(Err(e))).drop_last() == read);
}

/// Once the task has ended, nothing that the socket answers changes that:
/// no read and no write follows the end.
pub proof fn lemma_nothing_follows_the_end<E>(answers: Seq<Answer<E>>, answer: Answer<E>)
    requires
        task_run(answers) is Return,
    ensures
        task_run(answers.push(answer)) == task_run(answers),
{
    assert(answers.push(answer).drop_last() == answers);
}

} // verus!
