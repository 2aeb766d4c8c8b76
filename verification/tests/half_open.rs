//! Half-open connections.

use phantom_transport::clock::Duration;
use phantom_transport::half_open::HalfOpenSlots;
use std::sync::{Arc, Mutex};

#[test]
fn test_insert_and_take() {
    let mut slots = HalfOpenSlots::new();

    let id = slots.insert("hello", 0).unwrap();
    assert!(slots.contains(id, 0));
    assert_eq!(slots.len(), 1);

    let data = slots.take(id, 0).unwrap();
    assert_eq!(data, "hello");
    assert!(!slots.contains(id, 0));
    assert_eq!(slots.len(), 0);
}

#[test]
fn test_take_nonexistent() {
    let mut slots: HalfOpenSlots<String> = HalfOpenSlots::new();
    assert!(slots.take(999, 0).is_none());
}

#[test]
fn test_expired_entry() {
    let mut slots = HalfOpenSlots::with_config(Duration::from_millis(1), 100);

    let id = slots.insert("ephemeral", 0).unwrap();

    assert!(slots.take(id, 10).is_none());
}

#[test]
fn test_capacity_limit() {
    let mut slots = HalfOpenSlots::with_config(Duration::from_secs(60), 3);

    assert!(slots.insert(1, 0).is_some());
    assert!(slots.insert(2, 0).is_some());
    assert!(slots.insert(3, 0).is_some());
    assert!(slots.insert(4, 0).is_none());
}

#[test]
fn test_gc() {
    let mut slots = HalfOpenSlots::with_config(Duration::from_millis(1), 100);

    slots.insert("a", 0).unwrap();
    slots.insert("b", 0).unwrap();
    assert_eq!(slots.len(), 2);

    slots.gc(10);
    assert_eq!(slots.len(), 0);
}

#[test]
fn test_concurrent_access() {
    let slots = Arc::new(Mutex::new(HalfOpenSlots::with_config(
        Duration::from_secs(10),
        10000,
    )));
    let mut pending = vec![];

    for i in 0u32..100 {
        let s = slots.clone();
        let id = s.lock().unwrap().insert(i, 0).unwrap();
        assert!(s.lock().unwrap().contains(id, 0));
        pending.push((id, i));
    }

    for (id, i) in pending {
        let val = slots.lock().unwrap().take(id, 0).unwrap();
        assert_eq!(val, i);
    }

    assert!(slots.lock().unwrap().is_empty());
}

#[test]
fn full_table_makes_room_for_the_living() {
    let mut slots = HalfOpenSlots::with_config(Duration::from_millis(5), 2);
    let first = slots.insert("a", 0).unwrap();
    assert!(slots.insert("b", 0).is_some());
    assert!(slots.insert("c", 5).is_none());
    let id = slots.insert("d", 6).unwrap();
    assert_eq!(slots.len(), 1);
    assert_ne!(id, first);
    assert_eq!(slots.take(id, 11), Some("d"));
    assert_eq!(slots.take(id, 11), None);
}
