//! The messages that peers exchange.

use vstd::prelude::*;
use crate::peer_id::PublicKey;
use crate::socket_addr::SocketAddr;

verus! {

/// A message on the wire between two peers.
#[derive(Clone, Debug)]
pub enum CrustMsg {
    BootstrapRequest(PublicKey),
    BootstrapResponse(PublicKey),
    ExternalEndpointRequest,
    ExternalEndpointResponse(SocketAddr),
    Connect(PublicKey),
    Message(Vec<u8>),
}

} // verus!
