//! The datagram exchanged while punching a hole through a NAT.

use vstd::prelude::*;

verus! {

/// A hole punching datagram: the secret that both sides share, and whether it acknowledges
/// one received from the other side.
#[derive(Clone, Copy, Debug)]
pub struct HolePunch {
    pub secret: [u8; 4],
    pub ack: bool,
}

} // verus!
