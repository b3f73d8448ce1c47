use crust::connection_map::ConnectionMap;
use crust::peer_id::{new_id, PublicKey};

#[test]
fn first_connection_to_a_peer_is_kept() {
    let mut cm: ConnectionMap<&str> = ConnectionMap::new();
    let id = new_id(PublicKey([7; 32]));
    assert!(!cm.contains(&id));
    assert!(cm.register(id, "first"));
    assert!(cm.contains(&id));
    assert_eq!(cm.len(), 1);
}

#[test]
fn second_connection_to_a_peer_is_refused() {
    let mut cm: ConnectionMap<&str> = ConnectionMap::new();
    let id = new_id(PublicKey([7; 32]));
    assert!(cm.register(id, "first"));
    assert!(!cm.register(new_id(PublicKey([7; 32])), "second"));
    assert_eq!(cm.len(), 1);
    assert_eq!(cm.remove(&id), Some("first"));
    assert_eq!(cm.remove(&id), None);
    assert_eq!(cm.len(), 0);
}

#[test]
fn peers_differing_in_one_byte_are_distinct() {
    let mut cm: ConnectionMap<u32> = ConnectionMap::new();
    let mut key = [1u8; 32];
    let a = new_id(PublicKey(key));
    key[31] = 2;
    let b = new_id(PublicKey(key));
    assert!(!a.same_as(&b));
    assert!(a.same_as(&new_id(PublicKey([1; 32]))));
    assert!(cm.register(a, 1));
    assert!(cm.register(b, 2));
    assert_eq!(cm.len(), 2);
    assert_eq!(cm.remove(&a), Some(1));
    assert!(cm.contains(&b));
    assert!(!cm.contains(&a));
}
