//! The decisions of a UDP receive with a deadline: how long to wait next, and what a failed
//! receive means.

use vstd::prelude::*;

verus! {

/// What a receive with a deadline does before its next try.
#[derive(Clone, Copy, Debug, PartialEq, Eq, Structural)]
pub enum RecvWait {
    /// The deadline has passed: give up with no datagram.
    GiveUp,
    /// Wait for a datagram for this many milliseconds.
    WaitMs(u64),
}

/// The wait before the next try, from the time left until the deadline: whether it is below
/// zero, and its whole milliseconds.
pub fn wait_until_deadline(time_left_negative: bool, time_left_ms: i64) -> (w: RecvWait)
    requires
        !time_left_negative ==> time_left_ms >= 0,
    ensures
        w == (if time_left_negative {
            RecvWait::GiveUp
        } else {
            RecvWait::WaitMs(time_left_ms as u64)
        }),
{
    if time_left_negative {
        RecvWait::GiveUp
    } else {
        RecvWait::WaitMs(time_left_ms as u64)
    }
}

/// The kinds of receive errors that the receive tells apart.
#[derive(Clone, Copy, Debug, PartialEq, Eq, Structural)]
pub enum RecvErrorKind {
    Interrupted,
    TimedOut,
    Other,
}

/// What a receive does after a failed try.
#[derive(Clone, Copy, Debug, PartialEq, Eq, Structural)]
pub enum RecvRetry {
    /// Try again (the wait was interrupted).
    Retry,
    /// The deadline passed while waiting: no datagram.
    NoDatagram,
    /// Pass the error on.
    Fail,
}

/// The decision after a failed try.
pub fn after_recv_error(kind: RecvErrorKind) -> (r: RecvRetry)
    ensures
        r == match kind {
            RecvErrorKind::Interrupted => RecvRetry::Retry,
            RecvErrorKind::TimedOut => RecvRetry::NoDatagram,
            RecvErrorKind::Other => RecvRetry::Fail,
        },
{
    match kind {
        RecvErrorKind::Interrupted => RecvRetry::Retry,
        RecvErrorKind::TimedOut => RecvRetry::NoDatagram,
        RecvErrorKind::Other => RecvRetry::Fail,
    }
}

} // verus!
