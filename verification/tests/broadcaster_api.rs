//! The broadcaster's delivery API, exercised against real tokio channels.

use fanout_core::broadcaster::Broadcaster;
use fanout_core::key::ConnectionKey;
use fanout_core::message::{BroadcastError, Message};
use tokio::sync::mpsc;

fn key(owner: u128, address: &str) -> ConnectionKey {
    ConnectionKey::new(owner, address.to_string())
}

fn channel() -> (mpsc::Sender<Message>, mpsc::Receiver<Message>) {
    mpsc::channel(8)
}

#[test]
fn registry_consistency_after_unsubscribe() {
    let mut broadcaster = Broadcaster::new();
    let k = key(7, "192.0.2.1:4444");
    let (tx, _rx) = channel();
    let _global = broadcaster.subscribe(k.clone(), tx);
    assert!(broadcaster.get(&k).is_some());
    assert_eq!(broadcaster.queue_len(), 1);

    assert!(broadcaster.unsubscribe(&k));
    assert!(broadcaster.get(&k).is_none());
    assert_eq!(broadcaster.queue_len(), 0);
    assert!(broadcaster.move_queue(1).is_empty());
}

#[test]
fn unsubscribe_of_unknown_key_is_a_noop() {
    let mut broadcaster = Broadcaster::new();
    let k = key(1, "a:1");
    let (tx, _rx) = channel();
    let _global = broadcaster.subscribe(k.clone(), tx);
    assert!(!broadcaster.unsubscribe(&key(2, "b:2")));
    assert!(broadcaster.get(&k).is_some());
    assert_eq!(broadcaster.queue_len(), 1);
}

#[test]
fn resubscription_keeps_the_queue_duplicate_free() {
    let mut broadcaster = Broadcaster::new();
    let a = key(1, "a:1");
    let b = key(2, "b:2");
    let (tx_a1, _rx_a1) = channel();
    let (tx_b, _rx_b) = channel();
    let (tx_a2, mut rx_a2) = channel();
    let _g1 = broadcaster.subscribe(a.clone(), tx_a1);
    let _g2 = broadcaster.subscribe(b.clone(), tx_b);
    // Subscribing A again replaces its socket and moves it to the back.
    let _g3 = broadcaster.subscribe(a.clone(), tx_a2);
    assert_eq!(broadcaster.queue_len(), 2);
    assert_eq!(broadcaster.move_queue(2), vec![b.clone(), a.clone()]);
    // The replacement socket is the one that now receives.
    let delivered = broadcaster.broadcast_to_user(&vec![Message::Ping], &a);
    assert!(delivered);
    assert_eq!(rx_a2.try_recv().unwrap(), Message::Ping);
}

#[test]
fn broadcast_without_receivers_signals_no_receivers() {
    let broadcaster = Broadcaster::new();
    assert_eq!(
        broadcaster.broadcast(Message::Ping),
        Err(BroadcastError::NoReceivers)
    );
}

#[test]
fn broadcast_reports_two_live_receivers() {
    let mut broadcaster = Broadcaster::new();
    let (tx_a, _rx_a) = channel();
    let (tx_b, _rx_b) = channel();
    let mut global_a = broadcaster.subscribe(key(1, "a:1"), tx_a);
    let mut global_b = broadcaster.subscribe(key(2, "b:2"), tx_b);
    assert_eq!(broadcaster.broadcast(Message::Ping), Ok(2));
    assert_eq!(global_a.try_recv().unwrap(), Message::Ping);
    assert_eq!(global_b.try_recv().unwrap(), Message::Ping);
}

#[test]
fn batch_still_delivers_when_one_channel_is_closed() {
    let mut broadcaster = Broadcaster::new();
    let a = key(1, "a:1");
    let b = key(2, "b:2");
    let (tx_a, rx_a) = channel();
    let (tx_b, mut rx_b) = channel();
    let _ga = broadcaster.subscribe(a.clone(), tx_a);
    let _gb = broadcaster.subscribe(b.clone(), tx_b);
    drop(rx_a);

    let attempted = broadcaster.batch(
        Message::RequestUptimeReport,
        &vec![a.clone(), b.clone()],
    );
    // Both targets were registered, so both sends were attempted; the
    // closed channel did not keep B from receiving, and nothing failed
    // toward the caller.
    assert_eq!(attempted, vec![a, b]);
    assert_eq!(rx_b.try_recv().unwrap(), Message::RequestUptimeReport);
}

#[test]
fn batch_skips_targets_not_registered() {
    let mut broadcaster = Broadcaster::new();
    let a = key(1, "a:1");
    let stranger = key(9, "z:9");
    let (tx_a, mut rx_a) = channel();
    let _ga = broadcaster.subscribe(a.clone(), tx_a);

    let attempted = broadcaster.batch(Message::Ping, &vec![stranger, a.clone()]);
    assert_eq!(attempted, vec![a]);
    assert_eq!(rx_a.try_recv().unwrap(), Message::Ping);
    assert!(rx_a.try_recv().is_err());
}

#[test]
fn broadcast_to_user_delivers_in_order() {
    let mut broadcaster = Broadcaster::new();
    let a = key(1, "a:1");
    let (tx_a, mut rx_a) = channel();
    let _ga = broadcaster.subscribe(a.clone(), tx_a);

    let messages = vec![
        Message::RequestUptimeReport,
        Message::RequestBandwidthReport,
        Message::Ping,
    ];
    assert!(broadcaster.broadcast_to_user(&messages, &a));
    assert_eq!(rx_a.try_recv().unwrap(), Message::RequestUptimeReport);
    assert_eq!(rx_a.try_recv().unwrap(), Message::RequestBandwidthReport);
    assert_eq!(rx_a.try_recv().unwrap(), Message::Ping);

    assert!(!broadcaster.broadcast_to_user(&messages, &key(2, "b:2")));
}

#[test]
fn queue_multiple_delivers_to_the_selected_slice() {
    let mut broadcaster = Broadcaster::new();
    let a = key(1, "a:1");
    let b = key(2, "b:2");
    let c = key(3, "c:3");
    let (tx_a, mut rx_a) = channel();
    let (tx_b, mut rx_b) = channel();
    let (tx_c, mut rx_c) = channel();
    let _ga = broadcaster.subscribe(a.clone(), tx_a);
    let _gb = broadcaster.subscribe(b.clone(), tx_b);
    let _gc = broadcaster.subscribe(c.clone(), tx_c);

    let selected = broadcaster.queue_multiple(&vec![Message::Ping], 2);
    assert_eq!(selected, vec![a.clone(), b.clone()]);
    assert_eq!(rx_a.try_recv().unwrap(), Message::Ping);
    assert_eq!(rx_b.try_recv().unwrap(), Message::Ping);
    assert!(rx_c.try_recv().is_err());

    // The drained keys went to the back: the next slice starts at C.
    let next = broadcaster.queue_multiple(&vec![Message::Ping], 2);
    assert_eq!(next, vec![c, a]);
}

#[test]
fn move_queue_rotates_without_sending() {
    let mut broadcaster = Broadcaster::new();
    let a = key(1, "a:1");
    let b = key(2, "b:2");
    let (tx_a, mut rx_a) = channel();
    let (tx_b, _rx_b) = channel();
    let _ga = broadcaster.subscribe(a.clone(), tx_a);
    let _gb = broadcaster.subscribe(b.clone(), tx_b);
    let drained = broadcaster.move_queue(1);
    assert_eq!(drained, vec![a]);
    assert_eq!(broadcaster.queue_len(), 2);
    assert!(rx_a.try_recv().is_err());
}

#[test]
fn full_channel_never_blocks_delivery() {
    let mut broadcaster = Broadcaster::new();
    let a = key(1, "a:1");
    let (tx_a, mut rx_a) = mpsc::channel(1);
    let _ga = broadcaster.subscribe(a.clone(), tx_a);

    // The second send finds the one-slot buffer full; it is dropped
    // best-effort instead of blocking or failing the caller.
    let messages = vec![Message::RequestUptimeReport, Message::RequestBandwidthReport];
    assert!(broadcaster.broadcast_to_user(&messages, &a));
    assert_eq!(rx_a.try_recv().unwrap(), Message::RequestUptimeReport);
    assert!(rx_a.try_recv().is_err());
}

#[test]
fn default_broadcaster_is_empty() {
    let mut broadcaster = Broadcaster::default();
    assert_eq!(broadcaster.queue_len(), 0);
    assert!(broadcaster.move_queue(3).is_empty());
}
