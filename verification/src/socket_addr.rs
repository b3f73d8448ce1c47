//! Socket addresses as plain values, and the decoding of their text form.

use vstd::prelude::*;

verus! {

/// An IP socket address. An IPv4 address is held as the `u32` whose big-endian bytes are its
/// four octets; an IPv6 address as the `u128` whose big-endian bytes are its sixteen octets.
#[allow(inconsistent_fields)]
#[derive(Clone, Copy, Debug, PartialEq, Eq, Hash, Structural)]
pub enum SocketAddr {
    V4 { ip: u32, port: u16 },
    V6 { ip: u128, port: u16, flowinfo: u32, scope_id: u32 },
}

/// The error text of a failed decode: the parser's message behind a fixed prefix.
pub open spec fn decode_error_text(parse_error: Seq<char>) -> Seq<char> {
    "Failed to decode SocketAddr: "@ + parse_error
}

impl SocketAddr {
    /// The port of the address.
    pub open spec fn spec_port(self) -> u16 {
        match self {
            SocketAddr::V4 { port, .. } => port,
            SocketAddr::V6 { port, .. } => port,
        }
    }

    /// The port of the address.
    pub fn port(&self) -> (p: u16)
        ensures
            p == self.spec_port(),
    {
        match *self {
            SocketAddr::V4 { port, .. } => port,
            SocketAddr::V6 { port, .. } => port,
        }
    }

    /// Decoding of the serialised text form, from the answer of the standard library's parser
    /// on that text: an address is kept, a parse error gets the prefix of `decode_error_text`.
    pub fn decode_parsed(parsed: Result<SocketAddr, String>) -> (r: Result<SocketAddr, String>)
        ensures
            match parsed {
                Ok(a) => r == Ok::<SocketAddr, String>(a),
                Err(e) => r matches Err(m) && m@ == decode_error_text(e@),
            },
    {
        match parsed {
            Ok(a) => Ok(a),
            Err(e) => {
                let mut msg = String::from_str("Failed to decode SocketAddr: ");
                msg.append(e.as_str());
                Err(msg)
            },
        }
    }
}

} // verus!
