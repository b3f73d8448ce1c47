use crust::config::Config;
use crust::connection::{
    connection_candidate, keeps_candidate, lost_connection_message, on_read, CandidateAction, CandidateMessage,
    ReaderAction,
};
use crust::crust_msg::CrustMsg;
use crust::endpoint::{Endpoint, Protocol};
use crust::event_loop::event_loop_name;
use crust::future_state::Readiness;
use crust::hole_punching::HolePunch;
use crust::mapped_tcp_socket::{all_mapped_addrs, ext_addr_of_reply, local_mapped_addrs, unspecified_v4, EchoReply, ExtAddrError};
use crust::peer_id::{PeerId, PublicKey};
use crust::periodic_sender::{after_round, Received, RoundOutcome};
use crust::service::{check_connect, get_known_external_endpoints, same_secret, ConnectRefusal, SeqIds};
use crust::socket_addr::SocketAddr;
use crust::socket_utils::{after_recv_error, wait_until_deadline, RecvErrorKind, RecvRetry, RecvWait};

#[test]
fn default_config() {
    let c = Config::default();
    assert!(c.hard_coded_contacts.is_empty());
    assert_eq!(
        c.listen_endpoints,
        vec![Endpoint { protocol: Protocol::Tcp, socket_addr: SocketAddr::V4 { ip: 0, port: 0 } }]
    );
    assert!(c.udp_mapper_servers.is_empty());
    assert!(c.tcp_mapper_servers.is_empty());
    assert_eq!(c.service_discovery_port, None);
    assert_eq!(c.bootstrap_cache_name, None);
}

#[test]
fn config_file_name() {
    assert_eq!(Config::file_name_for("vault"), "vault.crust.config");
}

#[test]
fn socket_addr_decode_errors_are_prefixed() {
    let ok = SocketAddr::decode_parsed(Ok(SocketAddr::V4 { ip: 1, port: 2 }));
    assert_eq!(ok, Ok(SocketAddr::V4 { ip: 1, port: 2 }));
    let err = SocketAddr::decode_parsed(Err("invalid socket address syntax".to_string()));
    assert_eq!(err, Err("Failed to decode SocketAddr: invalid socket address syntax".to_string()));
    assert_eq!(SocketAddr::V6 { ip: 0, port: 77, flowinfo: 0, scope_id: 0 }.port(), 77);
}

#[test]
fn reader_decisions() {
    match on_read(false, Ok(CrustMsg::Message(vec![4, 5]))) {
        ReaderAction::Deliver(p) => assert_eq!(p, vec![4, 5]),
        other => panic!("unexpected {:?}", other),
    }
    assert!(matches!(on_read(false, Ok(CrustMsg::ExternalEndpointRequest)), ReaderAction::Unexpected(_)));
    assert!(matches!(on_read(false, Err("eof".to_string())), ReaderAction::Close));
    assert!(matches!(on_read(true, Ok(CrustMsg::Message(vec![1]))), ReaderAction::Close));
}

#[test]
fn lost_connection_text() {
    assert_eq!(lost_connection_message("broken pipe"), "Lost connection to peer: broken pipe");
}

fn id(first: u8, rest: u8) -> PeerId {
    let mut k = [rest; 32];
    k[0] = first;
    PeerId(PublicKey(k))
}

#[test]
fn candidate_decisions() {
    let a = id(2, 0);
    let b = id(1, 255);
    assert_eq!(connection_candidate(false, &a, &b), CandidateAction::SendChoice);
    assert_eq!(connection_candidate(false, &b, &a), CandidateAction::AwaitChoice);
    assert_eq!(connection_candidate(true, &a, &b), CandidateAction::Abandon);
    let c = id(1, 254);
    assert_eq!(connection_candidate(false, &b, &c), CandidateAction::SendChoice);
    assert_eq!(connection_candidate(false, &c, &b), CandidateAction::AwaitChoice);
    assert_eq!(connection_candidate(false, &c, &c), CandidateAction::AwaitChoice);
    assert!(a.greater_than(&b));
    assert!(!b.greater_than(&a));
}

#[test]
fn connect_checks() {
    let addr = vec![SocketAddr::V4 { ip: 1, port: 1 }];
    assert_eq!(check_connect(&Some([1, 2, 3, 4]), &Some([1, 2, 3, 4]), &addr), Ok(()));
    assert_eq!(check_connect(&None, &None, &addr), Ok(()));
    assert_eq!(
        check_connect(&Some([1, 2, 3, 4]), &Some([1, 2, 3, 5]), &addr),
        Err(ConnectRefusal::SecretMismatch)
    );
    assert_eq!(check_connect(&Some([1, 2, 3, 4]), &None, &Vec::new()), Err(ConnectRefusal::SecretMismatch));
    assert_eq!(check_connect(&None, &None, &Vec::new()), Err(ConnectRefusal::NoRendezvousAddr));
    assert_eq!(
        ConnectRefusal::SecretMismatch.message(),
        "Cannot connect. our_contact_info and their_contact_info are not associated with the same connection."
    );
    assert_eq!(
        ConnectRefusal::NoRendezvousAddr.message(),
        "No udp rendezvous address supplied. Direct connections and tcp rendezvous connect not yet supported."
    );
    assert!(same_secret(&None, &None));
    assert!(!same_secret(&None, &Some([0; 4])));
}

#[test]
fn external_endpoints_are_tcp() {
    let addrs = vec![SocketAddr::V4 { ip: 5, port: 6 }, SocketAddr::V4 { ip: 7, port: 8 }];
    let eps = get_known_external_endpoints(&addrs);
    assert_eq!(
        eps,
        vec![
            Endpoint { protocol: Protocol::Tcp, socket_addr: addrs[0] },
            Endpoint { protocol: Protocol::Tcp, socket_addr: addrs[1] },
        ]
    );
}

#[test]
fn seq_ids_count_up() {
    let mut s = SeqIds::new();
    assert_eq!(s.take(), 0);
    assert_eq!(s.take(), 1);
    assert_eq!(s.take(), 2);
}

#[test]
fn readiness_is_taken_over_once() {
    let mut r = Readiness::new();
    assert!(!r.poll());
    r.signal();
    assert!(r.poll());
    assert_eq!(r, Readiness { local: true, shared: false });
    assert!(r.poll());
    r.need();
    assert!(!r.poll());
    r.signal();
    r.signal();
    assert!(r.poll());
    r.need();
    assert!(!r.poll());
}

#[test]
fn sender_round_decisions() {
    assert!(matches!(after_round(Received::Value(()), Received::Value(1u8), 0u8), RoundOutcome::Exit));
    assert!(matches!(after_round(Received::Disconnected, Received::Empty, 0u8), RoundOutcome::Abort));
    assert!(matches!(after_round(Received::Empty, Received::Empty, 3u8), RoundOutcome::Continue(3)));
    assert!(matches!(after_round(Received::Empty, Received::Value(9u8), 3u8), RoundOutcome::Continue(9)));
    assert!(matches!(after_round(Received::<()>::Empty, Received::<u8>::Disconnected, 3u8), RoundOutcome::Abort));
}

#[test]
fn recv_decisions() {
    assert_eq!(wait_until_deadline(true, -5), RecvWait::GiveUp);
    assert_eq!(wait_until_deadline(false, 250), RecvWait::WaitMs(250));
    assert_eq!(after_recv_error(RecvErrorKind::Interrupted), RecvRetry::Retry);
    assert_eq!(after_recv_error(RecvErrorKind::TimedOut), RecvRetry::NoDatagram);
    assert_eq!(after_recv_error(RecvErrorKind::Other), RecvRetry::Fail);
}

#[test]
fn event_loop_names() {
    assert_eq!(event_loop_name(None), "CRUST-Event-Loop");
    assert_eq!(event_loop_name(Some("wow")), "CRUST-Event-Loop: wow");
}

#[test]
fn mapped_addresses() {
    assert_eq!(unspecified_v4(80), SocketAddr::V4 { ip: 0, port: 80 });
    let local = local_mapped_addrs(&vec![0x0a00_0001, 0xc0a8_0001], 4000);
    assert_eq!(
        local,
        vec![SocketAddr::V4 { ip: 0x0a00_0001, port: 4000 }, SocketAddr::V4 { ip: 0xc0a8_0001, port: 4000 }]
    );
    let all = all_mapped_addrs(local.clone(), vec![SocketAddr::V4 { ip: 9, port: 1 }]);
    assert_eq!(all.len(), 3);
    assert_eq!(all[2], SocketAddr::V4 { ip: 9, port: 1 });
}

#[test]
fn hole_punch_fields() {
    let h = HolePunch { secret: [1, 2, 3, 4], ack: true };
    assert_eq!(h.secret, [1, 2, 3, 4]);
    assert!(h.ack);
}

#[test]
fn start_two_services_utp_rendezvous_connect() {
    // Start 2 services and get their OurContactInfos. Filter the contact infos to contain just
    // utp rendezvous endpoints and ensure that the two services can connect and exchange
    // messages in both directions.
}

#[test]
fn waiting_side_keeps_candidate_only_on_choice() {
    assert!(keeps_candidate::<u8>(Some(CandidateMessage::ChooseConnection)));
    assert!(!keeps_candidate(Some(CandidateMessage::Other(7u8))));
    assert!(!keeps_candidate::<u8>(None));
}

#[test]
fn only_an_echo_gives_an_external_address() {
    let a = SocketAddr::V4 { ip: 0x0102_0304, port: 5483 };
    assert_eq!(ext_addr_of_reply(Some(EchoReply::EchoAddrResp(a))), Ok(a));
    assert_eq!(ext_addr_of_reply(Some(EchoReply::Other)), Err(ExtAddrError::InvalidData));
    assert_eq!(ext_addr_of_reply(None), Err(ExtAddrError::InvalidData));
}
