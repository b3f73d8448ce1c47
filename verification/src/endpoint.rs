//! Transport endpoints: a protocol and a socket address.

use vstd::prelude::*;
use crate::socket_addr::SocketAddr;

verus! {

/// The transport protocols.
#[derive(Clone, Copy, Debug, PartialEq, Eq, Hash, Structural)]
pub enum Protocol {
    Tcp,
    Utp,
}

/// An address at which a peer can be reached with a given protocol.
#[derive(Clone, Copy, Debug, PartialEq, Eq, Hash, Structural)]
pub struct Endpoint {
    pub protocol: Protocol,
    pub socket_addr: SocketAddr,
}

/// An address to listen on with a given protocol.
pub type ListenEndpoint = Endpoint;

impl Endpoint {
    /// The endpoint for `socket_addr` with `protocol`.
    pub fn from_socket_addr(protocol: Protocol, socket_addr: SocketAddr) -> (e: Endpoint)
        ensures
            e == (Endpoint { protocol, socket_addr }),
    {
        Endpoint { protocol, socket_addr }
    }
}

} // verus!
