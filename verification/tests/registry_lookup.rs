//! The connection registry on its own: insert, replace, remove, lookup.

use fanout_core::key::ConnectionKey;
use fanout_core::message::Message;
use fanout_core::registry::ConnectionRegistry;
use tokio::sync::mpsc;

fn key(owner: u128, address: &str) -> ConnectionKey {
    ConnectionKey::new(owner, address.to_string())
}

#[test]
fn lookup_finds_only_registered_keys() {
    let mut registry = ConnectionRegistry::new();
    let a = key(1, "a:1");
    let (tx, _rx) = mpsc::channel::<Message>(4);
    registry.insert(a.clone(), tx);
    assert!(registry.get(&a).is_some());
    assert!(registry.get(&key(1, "a:2")).is_none());
    assert!(registry.get(&key(2, "a:1")).is_none());
}

#[test]
fn insert_replaces_the_socket_for_an_existing_key() {
    let mut registry = ConnectionRegistry::new();
    let a = key(1, "a:1");
    let (tx1, mut rx1) = mpsc::channel::<Message>(4);
    let (tx2, mut rx2) = mpsc::channel::<Message>(4);
    registry.insert(a.clone(), tx1);
    registry.insert(a.clone(), tx2);
    let socket = registry.get(&a).unwrap();
    socket.try_send(Message::Ping).unwrap();
    assert!(rx1.try_recv().is_err());
    assert_eq!(rx2.try_recv().unwrap(), Message::Ping);
}

#[test]
fn remove_reports_presence_and_is_a_noop_when_absent() {
    let mut registry = ConnectionRegistry::new();
    let a = key(1, "a:1");
    let (tx, _rx) = mpsc::channel::<Message>(4);
    registry.insert(a.clone(), tx);
    assert!(!registry.remove(&key(2, "b:2")));
    assert!(registry.get(&a).is_some());
    assert!(registry.remove(&a));
    assert!(registry.get(&a).is_none());
    assert!(!registry.remove(&a));
}
