use crust::bootstrap::{
    get_known_contacts, peer_of_response, BootstrapAction, BootstrapAttempt, BootstrapEvent, BootstrapPhase,
    BootstrapRun,
};
use crust::config::Config;
use crust::crust_msg::CrustMsg;
use crust::endpoint::{Endpoint, Protocol};
use crust::peer_id::{new_id, PeerId, PublicKey};
use crust::socket_addr::SocketAddr;
use crust::static_contact_info::StaticContactInfo;

fn contact(port: u16) -> StaticContactInfo {
    let mut c = StaticContactInfo::new();
    c.endpoints.push(Endpoint::from_socket_addr(
        Protocol::Tcp,
        SocketAddr::V4 { ip: 0x7f00_0001, port },
    ));
    c
}

fn ports(v: &[StaticContactInfo]) -> Vec<u16> {
    v.iter().map(|c| c.endpoints[0].socket_addr.port()).collect()
}

#[test]
fn known_contacts_keep_first_occurrences_in_order() {
    let mut config = Config::default();
    config.hard_coded_contacts = vec![contact(2), contact(4), contact(1)];
    let cached = vec![contact(1), contact(2), contact(1)];
    let discovered = vec![contact(5), contact(4), contact(6)];
    let all = get_known_contacts(cached, &config, discovered);
    assert_eq!(ports(&all), vec![1, 2, 4, 5, 6]);
}

#[test]
fn known_contacts_of_nothing_is_empty() {
    let config = Config::default();
    assert!(get_known_contacts(Vec::new(), &config, Vec::new()).is_empty());
}

#[test]
fn contacts_differing_in_mapper_servers_are_different() {
    let a = contact(1);
    let mut b = contact(1);
    assert!(a.same_as(&b));
    b.udp_mapper_servers.push(SocketAddr::V4 { ip: 1, port: 2 });
    assert!(!a.same_as(&b));
    let config = Config::default();
    let all = get_known_contacts(vec![a, b], &config, Vec::new());
    assert_eq!(all.len(), 2);
}

#[test]
fn duplicate_is_same() {
    let mut a = contact(3);
    a.tcp_mapper_servers.push(SocketAddr::V6 { ip: 1, port: 9, flowinfo: 0, scope_id: 0 });
    let b = a.duplicate();
    assert!(a.same_as(&b));
}

fn key(b: u8) -> PublicKey {
    PublicKey([b; 32])
}

fn next(run: &mut BootstrapRun, stop: bool) -> BootstrapAction {
    run.step(BootstrapEvent::Next { stop_requested: stop })
}

#[test]
fn bootstrap_attempts_every_contact_once_with_growing_deadlines() {
    let contacts = vec![contact(1), contact(2), contact(3)];
    let mut run = BootstrapRun::new(contacts, key(7), 1_000);
    let mut seen = Vec::new();
    for i in 0..3usize {
        match next(&mut run, false) {
            BootstrapAction::Connect(a) => {
                assert_eq!(a, BootstrapAttempt { contact: i, deadline_ms: 1_000 + 3_000 * (i as u64 + 1) });
                seen.push(run.contact(a.contact).endpoints[0].socket_addr.port());
            }
            other => panic!("unexpected {:?}", other),
        }
        assert_eq!(run.phase(), BootstrapPhase::Connecting(i));
        assert!(matches!(run.step(BootstrapEvent::Connected(false)), BootstrapAction::Skip));
        assert!(!run.is_finished());
    }
    assert!(matches!(next(&mut run, false), BootstrapAction::Finish));
    assert!(run.is_finished());
    seen.sort();
    assert_eq!(seen, vec![1, 2, 3]);
}

#[test]
fn bootstrap_stops_when_asked() {
    let mut run = BootstrapRun::new(vec![contact(1), contact(2)], key(7), 0);
    assert!(matches!(next(&mut run, false), BootstrapAction::Connect(_)));
    assert!(matches!(run.step(BootstrapEvent::Connected(false)), BootstrapAction::Skip));
    assert!(matches!(next(&mut run, true), BootstrapAction::Finish));
    assert!(run.is_finished());
    assert_eq!(run.phase(), BootstrapPhase::Finished);
}

#[test]
fn bootstrap_without_contacts_finishes_at_once() {
    let mut run = BootstrapRun::new(Vec::new(), key(1), 0);
    assert!(matches!(next(&mut run, false), BootstrapAction::Finish));
    assert!(run.is_finished());
}

#[test]
fn bootstrap_handshake_with_a_new_peer_caches_the_contact() {
    let mut run = BootstrapRun::new(vec![contact(8)], key(9), 0);
    assert!(matches!(next(&mut run, false), BootstrapAction::Connect(_)));
    match run.step(BootstrapEvent::Connected(true)) {
        BootstrapAction::SendRequest(CrustMsg::BootstrapRequest(k)) => assert_eq!(k.0, [9; 32]),
        other => panic!("unexpected {:?}", other),
    }
    assert!(matches!(run.step(BootstrapEvent::RequestWritten(true)), BootstrapAction::ReadAnswer));
    match run.step(BootstrapEvent::Answer(Ok(CrustMsg::BootstrapResponse(key(4))))) {
        BootstrapAction::Register(id) => assert_eq!((id.0).0, [4; 32]),
        other => panic!("unexpected {:?}", other),
    }
    assert_eq!(run.phase(), BootstrapPhase::Registering(0));
    assert!(matches!(run.step(BootstrapEvent::Registered(true)), BootstrapAction::CacheContact(0)));
    assert!(matches!(next(&mut run, false), BootstrapAction::Finish));
}

#[test]
fn bootstrap_known_peer_or_bad_answer_is_skipped() {
    let mut run = BootstrapRun::new(vec![contact(8), contact(9)], key(9), 0);
    assert!(matches!(next(&mut run, false), BootstrapAction::Connect(_)));
    assert!(matches!(run.step(BootstrapEvent::Connected(true)), BootstrapAction::SendRequest(_)));
    assert!(matches!(run.step(BootstrapEvent::RequestWritten(true)), BootstrapAction::ReadAnswer));
    assert!(matches!(run.step(BootstrapEvent::Answer(Ok(CrustMsg::BootstrapResponse(key(4))))), BootstrapAction::Register(_)));
    assert!(matches!(run.step(BootstrapEvent::Registered(false)), BootstrapAction::Skip));
    assert!(matches!(next(&mut run, false), BootstrapAction::Connect(_)));
    assert!(matches!(run.step(BootstrapEvent::Connected(true)), BootstrapAction::SendRequest(_)));
    assert!(matches!(run.step(BootstrapEvent::RequestWritten(true)), BootstrapAction::ReadAnswer));
    assert!(matches!(run.step(BootstrapEvent::Answer(Ok(CrustMsg::Message(vec![1])))), BootstrapAction::Skip));
    assert_eq!(run.phase(), BootstrapPhase::Idle);
    assert!(matches!(next(&mut run, false), BootstrapAction::Finish));
}

#[test]
fn bootstrap_write_or_read_failure_is_skipped() {
    let mut run = BootstrapRun::new(vec![contact(8), contact(9)], key(9), 0);
    assert!(matches!(next(&mut run, false), BootstrapAction::Connect(_)));
    assert!(matches!(run.step(BootstrapEvent::Connected(true)), BootstrapAction::SendRequest(_)));
    assert!(matches!(run.step(BootstrapEvent::RequestWritten(false)), BootstrapAction::Skip));
    assert!(matches!(next(&mut run, false), BootstrapAction::Connect(_)));
    assert!(matches!(run.step(BootstrapEvent::Connected(true)), BootstrapAction::SendRequest(_)));
    assert!(matches!(run.step(BootstrapEvent::RequestWritten(true)), BootstrapAction::ReadAnswer));
    assert!(matches!(run.step(BootstrapEvent::Answer(Err("eof".to_string()))), BootstrapAction::Skip));
}

#[test]
fn response_names_the_peer() {
    let id = peer_of_response(&CrustMsg::BootstrapResponse(key(3))).expect("a peer");
    assert_eq!((id.0).0, [3; 32]);
    assert!(peer_of_response(&CrustMsg::BootstrapRequest(key(3))).is_none());
    assert!(peer_of_response(&CrustMsg::Message(vec![1])).is_none());
    assert!(peer_of_response(&CrustMsg::ExternalEndpointRequest).is_none());
    let id2: PeerId = new_id(key(3));
    assert_eq!((id2.0).0, (id.0).0);
}

#[test]
fn full_handshakes_finish_within_five_steps_per_contact() {
    let n = 3;
    let mut run = BootstrapRun::new((0..n).map(|i| contact(10 + i as u16)).collect(), key(1), 0);
    let mut event = BootstrapEvent::Next { stop_requested: false };
    let mut steps = 0;
    loop {
        steps += 1;
        event = match run.step(event) {
            BootstrapAction::Connect(_) => BootstrapEvent::Connected(true),
            BootstrapAction::SendRequest(_) => BootstrapEvent::RequestWritten(true),
            BootstrapAction::ReadAnswer => BootstrapEvent::Answer(Ok(CrustMsg::BootstrapResponse(key(4)))),
            BootstrapAction::Register(_) => BootstrapEvent::Registered(true),
            BootstrapAction::CacheContact(_) | BootstrapAction::Skip => BootstrapEvent::Next { stop_requested: false },
            BootstrapAction::Finish => break,
        };
    }
    assert!(run.is_finished());
    assert_eq!(steps, 5 * n + 1);
}
