//! A sender that repeats a UDP payload to a set of destinations until it is stopped: the
//! handle that controls it, and the decision that its thread takes after each round.

use vstd::prelude::*;

verus! {

#[verifier::external_type_specification]
#[verifier::external_body]
#[verifier::reject_recursive_types(T)]
pub struct ExSender<T>(std::sync::mpsc::Sender<T>);

#[verifier::external_type_specification]
#[verifier::external_body]
#[verifier::reject_recursive_types(T)]
pub struct ExScopedJoinHandle<T>(crossbeam::ScopedJoinHandle<T>);

/// Sends `value` on the channel with `std::sync::mpsc::Sender::send`; `true` when it was
/// sent, `false` when the receiving side is gone.
///
/// Trusted: nothing is stated of the answer, which depends on whether the receiver still
/// exists; the call is believed not to panic (a hung-up receiver is reported as an error).
#[verifier::external_body]
fn channel_send<T>(sender: &std::sync::mpsc::Sender<T>, value: T) -> (sent: bool)
    opens_invariants none
    no_unwind
{
    sender.send(value).is_ok()
}

/// Wakes the sending thread with `Thread::unpark` on the thread of the crossbeam join handle.
///
/// Trusted: it returns without panicking; nothing else is stated.
#[verifier::external_body]
fn unpark_thread(handle: &crossbeam::ScopedJoinHandle<()>)
    opens_invariants none
    no_unwind
{
    handle.thread().unpark()
}

/// The handle of a periodic sender: the channels to its thread and the thread itself.
#[must_use]
#[verifier::reject_recursive_types(D)]
pub struct PeriodicSender<D> {
    notify_exit: std::sync::mpsc::Sender<()>,
    join_guard: crossbeam::ScopedJoinHandle<()>,
    payload_sender: std::sync::mpsc::Sender<D>,
}

impl<D> PeriodicSender<D> {
    /// The channel that tells the thread to exit.
    pub closed spec fn exit_channel(&self) -> std::sync::mpsc::Sender<()> {
        self.notify_exit
    }

    /// The sending thread.
    pub closed spec fn thread(&self) -> crossbeam::ScopedJoinHandle<()> {
        self.join_guard
    }

    /// The channel that hands the thread new payloads.
    pub closed spec fn payload_channel(&self) -> std::sync::mpsc::Sender<D> {
        self.payload_sender
    }

    /// The handle of a sender thread, from the channel that tells it to exit, the thread,
    /// and the channel that hands it new payloads.
    pub fn from_parts(
        notify_exit: std::sync::mpsc::Sender<()>,
        join_guard: crossbeam::ScopedJoinHandle<()>,
        payload_sender: std::sync::mpsc::Sender<D>,
    ) -> (s: PeriodicSender<D>)
        ensures
            s.exit_channel() == notify_exit,
            s.thread() == join_guard,
            s.payload_channel() == payload_sender,
    {
        PeriodicSender { notify_exit, join_guard, payload_sender }
    }

    /// Hands the thread a new payload, sent from its next round on. A thread that has died
    /// is ignored.
    pub fn set_payload(&self, data: D) {
        // ignore this error, indicates that the sending thread has died
        let _ = channel_send(&self.payload_sender, data);
    }

    /// Tells the thread to exit and wakes it. `false` when the thread was already gone.
    pub fn stop(&self) -> (sent: bool)
        opens_invariants none
        no_unwind
    {
        let sent = channel_send(&self.notify_exit, ());
        unpark_thread(&self.join_guard);
        sent
    }
}

impl<D> Drop for PeriodicSender<D> {
    /// A handle that goes away tells its thread to exit and wakes it. A thread that is already
    /// gone is ignored: a destructor does not panic.
    fn drop(&mut self)
        opens_invariants none
        no_unwind
    {
        let _ = self.stop();
    }
}

/// What a non-blocking receive on a channel found.
#[derive(Debug)]
pub enum Received<T> {
    /// Nothing was waiting.
    Empty,
    /// The sending side is gone.
    Disconnected,
    /// A value.
    Value(T),
}

/// What the sender thread does after a round of sends.
#[derive(Debug)]
pub enum RoundOutcome<D> {
    /// Another round, with this payload.
    Continue(D),
    /// Stop: the handle asked for it.
    Exit,
    /// The handle is gone without asking the thread to stop: the thread gives up.
    Abort,
}

/// The decision after a round, given what the exit channel and then the payload channel had:
/// an exit request ends the thread; a new payload replaces the old; a vanished handle aborts.
/// The payload channel is only looked at when the exit channel was empty.
pub fn after_round<D>(exit: Received<()>, payload: Received<D>, data: D) -> (o: RoundOutcome<D>)
    ensures
        match exit {
            Received::Value(_) => o is Exit,
            Received::Disconnected => o is Abort,
            Received::Empty => match payload {
                Received::Empty => o == RoundOutcome::Continue(data),
                Received::Disconnected => o is Abort,
                Received::Value(d) => o == RoundOutcome::Continue(d),
            },
        },
{
    match exit {
        Received::Value(_) => RoundOutcome::Exit,
        Received::Disconnected => RoundOutcome::Abort,
        Received::Empty => match payload {
            Received::Empty => RoundOutcome::Continue(data),
            Received::Disconnected => RoundOutcome::Abort,
            Received::Value(d) => RoundOutcome::Continue(d),
        },
    }
}

} // verus!
