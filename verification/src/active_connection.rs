//! The decisions of an active connection: its entry in the connection map, its heartbeat
//! timers, and what it does with each message from the peer.

use vstd::prelude::*;

verus! {

/// A connection without any message from the peer for this long is dropped (milliseconds).
pub const INACTIVITY_TIMEOUT_MS: u64 = 120000;

/// A heartbeat goes out when nothing was sent for this long (milliseconds).
pub const HEARTBEAT_PERIOD_MS: u64 = 20000;

/// The entry of a peer in the connection map: the handle of its active connection, if any,
/// and how many handshakes with it are in progress.
#[derive(Debug)]
pub struct ConnectionId<H> {
    pub active_connection: Option<H>,
    pub currently_handshaking: usize,
}

/// The entry of a peer once a connection to it becomes active: the existing entry, or a new
/// one counting one handshake, now holding `handle` as its active connection.
pub open spec fn activate_spec<H>(existing: Option<ConnectionId<H>>, handle: H) -> ConnectionId<H> {
    ConnectionId {
        active_connection: Some(handle),
        currently_handshaking: match existing {
            Some(e) => e.currently_handshaking,
            None => 1,
        },
    }
}

/// The entry of a peer once its active connection goes away: it loses the connection, and is
/// removed (`None`) when no handshake with the peer is in progress.
pub open spec fn deactivate_spec<H>(entry: ConnectionId<H>) -> Option<ConnectionId<H>> {
    if entry.currently_handshaking == 0 {
        None
    } else {
        Some(ConnectionId { active_connection: None, currently_handshaking: entry.currently_handshaking })
    }
}

/// Updates the entry of a peer whose connection becomes active, by `activate_spec`.
pub fn activate<H>(existing: Option<ConnectionId<H>>, handle: H) -> (entry: ConnectionId<H>)
    ensures
        entry == activate_spec(existing, handle),
        entry.active_connection == Some(handle),
        existing matches Some(e) ==> entry.currently_handshaking == e.currently_handshaking,
        existing is None ==> entry.currently_handshaking == 1,
{
    let mut entry = match existing {
        Some(e) => e,
        None => ConnectionId { active_connection: None, currently_handshaking: 1 },
    };
    entry.active_connection = Some(handle);
    entry
}

/// Updates the entry of a peer whose active connection goes away, by `deactivate_spec`.
pub fn deactivate<H>(entry: ConnectionId<H>) -> (after: Option<ConnectionId<H>>)
    ensures
        after == deactivate_spec(entry),
{
    if entry.currently_handshaking == 0 {
        None
    } else {
        Some(ConnectionId { active_connection: None, currently_handshaking: entry.currently_handshaking })
    }
}

/// The heartbeat timers of a connection: when it times out for lack of messages from the
/// peer, and when a heartbeat is due, in milliseconds.
#[derive(Clone, Copy, Debug, PartialEq, Eq, Structural)]
pub struct Heartbeat {
    pub recv_deadline_ms: u64,
    pub send_deadline_ms: u64,
}

/// What the heartbeat check asks for.
#[derive(Clone, Copy, Debug, PartialEq, Eq, Structural)]
pub enum HeartbeatAction {
    /// The peer has been silent too long: drop the connection.
    Close,
    /// Send a heartbeat to the peer.
    SendHeartbeat,
    /// Nothing is due.
    Wait,
}

/// The outcome of a heartbeat check at `now`, as the action and the timers after it.
pub open spec fn check_spec(h: Heartbeat, now: u64) -> (HeartbeatAction, Heartbeat) {
    if now >= h.recv_deadline_ms {
        (HeartbeatAction::Close, h)
    } else if now >= h.send_deadline_ms {
        (
            HeartbeatAction::SendHeartbeat,
            Heartbeat { recv_deadline_ms: h.recv_deadline_ms, send_deadline_ms: (now
                + HEARTBEAT_PERIOD_MS) as u64 },
        )
    } else {
        (HeartbeatAction::Wait, h)
    }
}

impl Heartbeat {
    /// The timers of a connection that becomes active at `now`.
    pub fn new(now: u64) -> (h: Heartbeat)
        requires
            now + INACTIVITY_TIMEOUT_MS <= u64::MAX,
        ensures
            h == (Heartbeat {
                recv_deadline_ms: (now + INACTIVITY_TIMEOUT_MS) as u64,
                send_deadline_ms: (now + HEARTBEAT_PERIOD_MS) as u64,
            }),
    {
        Heartbeat {
            recv_deadline_ms: now + INACTIVITY_TIMEOUT_MS,
            send_deadline_ms: now + HEARTBEAT_PERIOD_MS,
        }
    }

    /// A message went out at `now`: the next heartbeat is due a period later.
    pub fn message_sent(&mut self, now: u64)
        requires
            now + HEARTBEAT_PERIOD_MS <= u64::MAX,
        ensures
            *final(self) == (Heartbeat {
                recv_deadline_ms: old(self).recv_deadline_ms,
                send_deadline_ms: (now + HEARTBEAT_PERIOD_MS) as u64,
            }),
    {
        self.send_deadline_ms = now + HEARTBEAT_PERIOD_MS;
    }

    /// A message came in at `now`: the peer has another inactivity timeout.
    pub fn message_received(&mut self, now: u64)
        requires
            now + INACTIVITY_TIMEOUT_MS <= u64::MAX,
        ensures
            *final(self) == (Heartbeat {
                recv_deadline_ms: (now + INACTIVITY_TIMEOUT_MS) as u64,
                send_deadline_ms: old(self).send_deadline_ms,
            }),
    {
        self.recv_deadline_ms = now + INACTIVITY_TIMEOUT_MS;
    }

    /// The check at `now`, after the messages of a poll were handled: an expired receive
    /// timer closes the connection; else an expired send timer asks for a heartbeat and
    /// re-arms.
    pub fn check(&mut self, now: u64) -> (a: HeartbeatAction)
        requires
            now + HEARTBEAT_PERIOD_MS <= u64::MAX,
        ensures
            (a, *final(self)) == check_spec(*old(self), now),
            final(self).recv_deadline_ms == old(self).recv_deadline_ms,
            (a == HeartbeatAction::Close) == (now >= old(self).recv_deadline_ms),
    {
        if now >= self.recv_deadline_ms {
            HeartbeatAction::Close
        } else if now >= self.send_deadline_ms {
            self.send_deadline_ms = now + HEARTBEAT_PERIOD_MS;
            HeartbeatAction::SendHeartbeat
        } else {
            HeartbeatAction::Wait
        }
    }
}

/// A message from the peer, as far as an active connection tells messages apart.
#[derive(Debug)]
pub enum Incoming<M> {
    /// A payload for the user.
    Data(Vec<u8>),
    /// A heartbeat.
    Heartbeat,
    /// Any other message, which an active connection does not expect.
    Other(M),
}

/// What an active connection does with a message from the peer.
#[derive(Debug)]
pub enum IncomingAction<M> {
    /// Hand the payload to the user.
    Deliver(Vec<u8>),
    /// Nothing beyond the timer reset.
    Ignore,
    /// Report the unexpected message.
    Report(M),
}

/// The action for a message from the peer.
pub fn on_incoming<M>(msg: Incoming<M>) -> (a: IncomingAction<M>)
    ensures
        match msg {
            Incoming::Data(d) => a matches IncomingAction::Deliver(p) && p@ == d@,
            Incoming::Heartbeat => a is Ignore,
            Incoming::Other(m) => a == IncomingAction::Report(m),
        },
{
    match msg {
        Incoming::Data(d) => IncomingAction::Deliver(d),
        Incoming::Heartbeat => IncomingAction::Ignore,
        Incoming::Other(m) => IncomingAction::Report(m),
    }
}

/// A connection is not dropped for inactivity within the inactivity timeout of the peer's
/// last message.
pub proof fn law_no_close_within_inactivity_timeout(h: Heartbeat, received_at: u64, now: u64)
    requires
        received_at + INACTIVITY_TIMEOUT_MS <= u64::MAX,
        received_at <= now < received_at + INACTIVITY_TIMEOUT_MS,
    ensures
        check_spec(
            Heartbeat {
                recv_deadline_ms: (received_at + INACTIVITY_TIMEOUT_MS) as u64,
                send_deadline_ms: h.send_deadline_ms,
            },
            now,
        ).0 != HeartbeatAction::Close,
{
}

/// After a heartbeat goes out, the next check within a heartbeat period asks for none.
pub proof fn law_one_heartbeat_per_period(h: Heartbeat, now: u64, later: u64)
    requires
        now + HEARTBEAT_PERIOD_MS <= u64::MAX,
        check_spec(h, now).0 == HeartbeatAction::SendHeartbeat,
        now <= later < now + HEARTBEAT_PERIOD_MS,
    ensures
        check_spec(check_spec(h, now).1, later).0 != HeartbeatAction::SendHeartbeat,
{
}

/// Silence closes the connection: once the receive deadline has passed, every check closes it.
pub proof fn law_silence_closes(h: Heartbeat, now: u64)
    requires
        now >= h.recv_deadline_ms,
    ensures
        check_spec(h, now) == (HeartbeatAction::Close, h),
{
}

/// Only a message from the peer moves the receive deadline: a check never does, and it closes
/// the connection exactly when the deadline has passed.
pub proof fn law_check_keeps_receive_deadline(h: Heartbeat, now: u64)
    ensures
        check_spec(h, now).1.recv_deadline_ms == h.recv_deadline_ms,
        (check_spec(h, now).0 == HeartbeatAction::Close) == (now >= h.recv_deadline_ms),
{
}

/// Checks in between do not keep a silent connection alive: once its receive deadline has
/// passed, the next check closes it, whatever earlier checks did.
pub proof fn law_checks_do_not_delay_close(h: Heartbeat, earlier: u64, now: u64)
    requires
        now >= h.recv_deadline_ms,
    ensures
        check_spec(check_spec(h, earlier).1, now).0 == HeartbeatAction::Close,
{
}

/// Activation always records the new connection's handle, for an existing entry as for a new
/// one, and keeps an existing entry's count of handshakes; a new entry counts one.
pub proof fn law_activate_records_handle<H>(existing: Option<ConnectionId<H>>, handle: H)
    ensures
        activate_spec(existing, handle).active_connection == Some(handle),
        activate_spec(existing, handle).currently_handshaking == match existing {
            Some(e) => e.currently_handshaking,
            None => 1usize,
        },
{
}

/// An active connection that goes away leaves its peer's entry in place exactly when a
/// handshake with the peer is counted; an entry made by activation counts one, so it stays.
pub proof fn law_activate_then_deactivate<H>(existing: Option<ConnectionId<H>>, handle: H)
    ensures
        deactivate_spec(activate_spec(existing, handle)) == match existing {
            None => Some(ConnectionId::<H> { active_connection: None, currently_handshaking: 1 }),
            Some(e) => if e.currently_handshaking == 0 {
                None
            } else {
                Some(
                    ConnectionId::<H> {
                        active_connection: None,
                        currently_handshaking: e.currently_handshaking,
                    },
                )
            },
        },
{
}

} // verus!
