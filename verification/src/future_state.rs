//! The readiness bookkeeping of an evented handle on the event loop.
//!
//! Each direction (read, write) has two flags: `shared`, which the event loop sets when the
//! handle becomes ready, and `local`, which the handle keeps once it has seen the readiness.
//! A readiness event is taken over from `shared` to `local` exactly once, and stays with the
//! handle until the handle says that it needs the direction again.

use vstd::prelude::*;

verus! {

/// The two readiness flags of one direction of an evented handle.
#[derive(Clone, Copy, Debug, PartialEq, Eq, Structural)]
pub struct Readiness {
    /// Readiness that the handle has taken over and not used up yet.
    pub local: bool,
    /// Readiness signalled by the event loop and not taken over yet.
    pub shared: bool,
}

impl Readiness {
    /// No readiness anywhere.
    pub fn new() -> (r: Readiness)
        ensures
            r == (Readiness { local: false, shared: false }),
    {
        Readiness { local: false, shared: false }
    }

    /// Checks for readiness. Ready when the handle holds readiness, or when the event loop
    /// signalled some, which the handle then takes over. When not ready, the caller registers
    /// its task to be woken by the event loop.
    pub fn poll(&mut self) -> (ready: bool)
        ensures
            ready == (old(self).local || old(self).shared),
            *final(self) == (if old(self).local {
                *old(self)
            } else if old(self).shared {
                Readiness { local: true, shared: false }
            } else {
                *old(self)
            }),
    {
        if self.local {
            return true;
        }
        if self.shared {
            self.shared = false;
            self.local = true;
            true
        } else {
            false
        }
    }

    /// The handle has used up its readiness and waits for the next event; the caller
    /// registers its task to be woken.
    pub fn need(&mut self)
        ensures
            *final(self) == (Readiness { local: false, shared: old(self).shared }),
    {
        self.local = false;
    }

    /// The event loop signals readiness; the caller then runs the registered task.
    pub fn signal(&mut self)
        ensures
            *final(self) == (Readiness { local: old(self).local, shared: true }),
    {
        self.shared = true;
    }
}

/// The outcome of polling readiness `r`, as a pair (ready, readiness after).
pub open spec fn poll_spec(r: Readiness) -> (bool, Readiness) {
    if r.local {
        (true, r)
    } else if r.shared {
        (true, Readiness { local: true, shared: false })
    } else {
        (false, r)
    }
}

/// A signalled readiness is seen by the next poll, and keeps being seen by later polls until
/// the handle declares that it needs the direction again.
pub proof fn law_signal_then_poll_ready(r: Readiness)
    ensures
        poll_spec(Readiness { local: r.local, shared: true }).0,
        poll_spec(poll_spec(Readiness { local: r.local, shared: true }).1).0,
{
}

/// After the handle declares its need, a poll is ready exactly when a signal is pending, and
/// a signal that a poll took over is no longer pending: each signal is used once.
pub proof fn law_need_consumes_readiness(r: Readiness)
    ensures
        poll_spec(Readiness { local: false, shared: r.shared }).0 == r.shared,
        !r.local && r.shared ==> !poll_spec(r).1.shared && poll_spec(r).1.local,
{
}

/// Polling twice in a row gives the same answer as polling once.
pub proof fn law_poll_idempotent(r: Readiness)
    ensures
        poll_spec(poll_spec(r).1) == poll_spec(r),
{
}

} // verus!
