//! The decisions of a connection: what to do with each message read from a peer, how a
//! failed send is reported, and which side picks the connection when two peers connect to
//! each other at once.

use vstd::prelude::*;
use crate::crust_msg::CrustMsg;
use crate::peer_id::{bytes_greater, PeerId};

verus! {

/// What the reading side of a connection does with one read.
#[derive(Debug)]
pub enum ReaderAction {
    /// Hand the payload to the user as a new message from the peer.
    Deliver(Vec<u8>),
    /// The peer sent something other than a payload: report it and keep reading.
    Unexpected(CrustMsg),
    /// Stop reading and drop the connection.
    Close,
}

/// The reader's decision after a read, given whether the connection was stopped meanwhile and
/// what was read (a message, or the text of a deserialisation error).
pub fn on_read(stop_requested: bool, read: Result<CrustMsg, String>) -> (a: ReaderAction)
    ensures
        stop_requested ==> a is Close,
        !stop_requested ==> match read {
            Ok(CrustMsg::Message(payload)) => a matches ReaderAction::Deliver(p) && p@ == payload@,
            Ok(m) => a == ReaderAction::Unexpected(m),
            Err(_) => a is Close,
        },
{
    if stop_requested {
        return ReaderAction::Close;
    }
    match read {
        Ok(CrustMsg::Message(payload)) => ReaderAction::Deliver(payload),
        Ok(other) => ReaderAction::Unexpected(other),
        Err(_) => ReaderAction::Close,
    }
}

/// The text of the error that reports a failed send.
pub open spec fn lost_connection_text(cause: Seq<char>) -> Seq<char> {
    "Lost connection to peer: "@ + cause
}

/// The error message of a send that failed with `cause`.
pub fn lost_connection_message(cause: &str) -> (m: String)
    ensures
        m@ == lost_connection_text(cause@),
{
    let mut m = String::from_str("Lost connection to peer: ");
    m.append(cause);
    m
}

/// What a peer does with a fresh connection to another peer.
#[derive(Clone, Copy, Debug, PartialEq, Eq, Structural)]
pub enum CandidateAction {
    /// A connection to that peer is already active: drop this one.
    Abandon,
    /// Choose this connection and tell the other side.
    SendChoice,
    /// Keep this connection only if the other side chooses it.
    AwaitChoice,
}

/// The action of a peer with id `our_id` on a new connection to `their_id`: the peer with the
/// larger id chooses, the other waits to be told.
pub open spec fn candidate_action_spec(already_active: bool, our_id: PeerId, their_id: PeerId) -> CandidateAction {
    if already_active {
        CandidateAction::Abandon
    } else if bytes_greater(our_id.bytes(), their_id.bytes()) {
        CandidateAction::SendChoice
    } else {
        CandidateAction::AwaitChoice
    }
}

/// Decides what to do with a new connection to `their_id`.
pub fn connection_candidate(already_active: bool, our_id: &PeerId, their_id: &PeerId) -> (a:
    CandidateAction)
    ensures
        a == candidate_action_spec(already_active, *our_id, *their_id),
{
    if already_active {
        CandidateAction::Abandon
    } else if our_id.greater_than(their_id) {
        CandidateAction::SendChoice
    } else {
        CandidateAction::AwaitChoice
    }
}

/// What the waiting side of a new connection reads from it: the other side's choice of this
/// connection, or any other message.
#[derive(Debug)]
pub enum CandidateMessage<M> {
    ChooseConnection,
    Other(M),
}

/// Whether the waiting side keeps the connection after its one read (`None` when the stream
/// ended): only the other side's choice keeps it.
pub fn keeps_candidate<M>(read: Option<CandidateMessage<M>>) -> (keep: bool)
    ensures
        keep == (read matches Some(CandidateMessage::ChooseConnection)),
{
    match read {
        Some(CandidateMessage::ChooseConnection) => true,
        _ => false,
    }
}

proof fn lemma_bytes_greater_total(a: Seq<u8>, b: Seq<u8>)
    requires
        a.len() == b.len(),
        a != b,
    ensures
        bytes_greater(a, b) != bytes_greater(b, a),
    decreases a.len(),
{
    if a.len() == 0 {
        assert(a =~= b);
    } else if a[0] == b[0] {
        if a.drop_first() == b.drop_first() {
            assert(a =~= b) by {
                assert forall|i: int| 0 <= i < a.len() implies a[i] == b[i] by {
                    if i > 0 {
                        assert(a[i] == a.drop_first()[i - 1]);
                        assert(b[i] == b.drop_first()[i - 1]);
                    }
                }
            }
        }
        lemma_bytes_greater_total(a.drop_first(), b.drop_first());
    }
}

/// When two peers with different ids meet, exactly one of them chooses the connection and
/// the other waits for the choice.
pub proof fn law_exactly_one_side_chooses(a: PeerId, b: PeerId)
    requires
        a.bytes() != b.bytes(),
    ensures
        (candidate_action_spec(false, a, b) == CandidateAction::SendChoice) <==> (
        candidate_action_spec(false, b, a) == CandidateAction::AwaitChoice),
        candidate_action_spec(false, a, b) != CandidateAction::Abandon,
{
    lemma_bytes_greater_total(a.bytes(), b.bytes());
}

} // verus!
