//! Rotation behavior of the delivery queue, exercised directly.

use fanout_core::key::ConnectionKey;
use fanout_core::queue::DeliveryQueue;

fn key(owner: u128, address: &str) -> ConnectionKey {
    ConnectionKey::new(owner, address.to_string())
}

#[test]
fn scenario_rotate_three_keys_by_two() {
    let mut queue = DeliveryQueue::new();
    let a = key(1, "10.0.0.1:1");
    let b = key(2, "10.0.0.2:2");
    let c = key(3, "10.0.0.3:3");
    queue.push_back(a.clone());
    queue.push_back(b.clone());
    queue.push_back(c.clone());

    // First call drains [A, B]; the queue becomes [C, A, B].
    let first = queue.rotate_front(2);
    assert_eq!(first, vec![a.clone(), b.clone()]);
    assert_eq!(queue.len(), 3);

    // Second call drains [C, A]; the queue becomes [B, C, A].
    let second = queue.rotate_front(2);
    assert_eq!(second, vec![c.clone(), a.clone()]);
    assert_eq!(queue.len(), 3);

    // Third call drains [B, C]; every key has now appeared exactly twice.
    let third = queue.rotate_front(2);
    assert_eq!(third, vec![b.clone(), c.clone()]);
    assert_eq!(queue.len(), 3);
}

#[test]
fn rotation_preserves_queue_length() {
    let mut queue = DeliveryQueue::new();
    for owner in 0..7u128 {
        queue.push_back(key(owner, "10.1.0.0:9"));
    }
    for count in [0usize, 1, 3, 7, 100] {
        let before = queue.len();
        let _ = queue.rotate_front(count);
        assert_eq!(queue.len(), before);
    }
}

#[test]
fn rotation_beyond_length_wraps_whole_queue() {
    let mut queue = DeliveryQueue::new();
    let a = key(1, "a:1");
    let b = key(2, "b:2");
    queue.push_back(a.clone());
    queue.push_back(b.clone());
    let drained = queue.rotate_front(5);
    assert_eq!(drained, vec![a.clone(), b.clone()]);
    assert_eq!(queue.len(), 2);
    // The queue wrapped to itself: the next rotation starts from the front
    // again.
    let again = queue.rotate_front(1);
    assert_eq!(again, vec![a]);
}

#[test]
fn rotation_by_zero_drains_nothing() {
    let mut queue = DeliveryQueue::new();
    queue.push_back(key(1, "a:1"));
    let drained = queue.rotate_front(0);
    assert!(drained.is_empty());
    assert_eq!(queue.len(), 1);
}

#[test]
fn remove_value_reports_absence() {
    let mut queue = DeliveryQueue::new();
    queue.push_back(key(1, "a:1"));
    assert!(!queue.remove_value(&key(2, "b:2")));
    assert_eq!(queue.len(), 1);
    assert!(queue.remove_value(&key(1, "a:1")));
    assert_eq!(queue.len(), 0);
}

#[test]
fn rotation_is_fair_over_a_full_cycle() {
    // With 5 keys and batches of 2, three calls drain 6 entries; every key
    // appears at least once, and none twice before all others once.
    let mut queue = DeliveryQueue::new();
    for owner in 0..5u128 {
        queue.push_back(key(owner, "fair:1"));
    }
    let mut seen: Vec<u128> = Vec::new();
    for _ in 0..3 {
        for drained in queue.rotate_front(2) {
            seen.push(drained.owner);
        }
    }
    assert_eq!(seen.len(), 6);
    for owner in 0..5u128 {
        assert!(seen.contains(&owner));
    }
    // The first repeated key is exactly the one that was drained first.
    assert_eq!(seen[5], seen[0]);
}
