//! The resumption tickets of a server.

use phantom_transport::session_cache::{SessionCache, DEFAULT_CAPACITY, TICKET_LIFETIME_MS};
use phantom_transport::types::CipherSuite;

fn id(n: u32) -> [u8; 32] {
    let mut id = [0u8; 32];
    id[..4].copy_from_slice(&n.to_be_bytes());
    id
}

#[test]
fn least_recently_used_ticket_leaves_first() {
    let mut cache = SessionCache::new();
    let secret = [7u8; 32];
    cache.store(id(0), &secret, CipherSuite::Aes256Gcm, 5);
    cache.store(id(1), &secret, CipherSuite::Aes256Gcm, 5);
    for n in 2..DEFAULT_CAPACITY as u32 {
        cache.store(id(n), &secret, CipherSuite::Aes256Gcm, 5);
    }
    assert_eq!(cache.len(), DEFAULT_CAPACITY);

    // The first ticket is claimed and put back: it was then used last.
    let t = cache.peek(&id(0), 6).expect("a ticket");
    assert!(cache.remove(&id(0)));
    cache.reinsert_with_expiry(t.id, &t.secret, t.suite, t.created_at, t.expires_at);
    cache.store(id(9_999), &secret, CipherSuite::Aes256Gcm, 7);
    assert_eq!(cache.len(), DEFAULT_CAPACITY);
    assert!(cache.peek(&id(1), 7).is_none());
    assert!(cache.peek(&id(0), 7).is_some());
    assert!(cache.peek(&id(9_999), 7).is_some());
}

#[test]
fn ticket_is_good_for_its_lifetime() {
    let mut cache = SessionCache::new();
    cache.store(id(1), &[9u8; 32], CipherSuite::Aes256Gcm, 10);
    assert!(cache.peek(&id(1), 9 + TICKET_LIFETIME_MS).is_some());
    assert!(cache.peek(&id(1), 10 + TICKET_LIFETIME_MS).is_none());
    assert!(!cache.remove(&id(2)));
}
