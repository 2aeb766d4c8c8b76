//! Reputation of addresses.

use phantom_transport::reputation::{
    ReputationTracker, BASE_DIFFICULTY, MAX_DIFFICULTY, WINDOW_SECS,
};
use phantom_transport::types::ClientIp;

fn v4(a: u8, b: u8, c: u8, d: u8) -> ClientIp {
    ClientIp {
        is_v6: false,
        bits: u32::from_be_bytes([a, b, c, d]) as u128,
        text: format!("{a}.{b}.{c}.{d}").into_bytes(),
    }
}

fn ip(n: u8) -> ClientIp {
    v4(10, 0, 0, n)
}

#[test]
fn clean_ip_pays_no_extra_difficulty() {
    let rep = ReputationTracker::new();
    assert_eq!(rep.calculate_difficulty(&ip(1), false, 100), 0, "new IP");
    assert_eq!(rep.calculate_difficulty(&ip(1), true, 100), 0, "ticket holder");
}

#[test]
fn repeated_violations_escalate_and_reset_clears() {
    let mut rep = ReputationTracker::new();
    let a = ip(2);
    assert_eq!(rep.calculate_difficulty(&a, false, 100), 0);
    rep.record_violation(&a, 100);
    let d1 = rep.calculate_difficulty(&a, false, 100);
    assert!(
        d1 >= BASE_DIFFICULTY,
        "first violation escalates to >= base, got {d1}"
    );
    rep.record_violation(&a, 100);
    rep.record_violation(&a, 100);
    let d3 = rep.calculate_difficulty(&a, false, 100);
    assert!(
        d3 >= d1 && d3 <= MAX_DIFFICULTY,
        "escalates further, capped at max; got {d3}"
    );
    rep.reset_violations(&a);
    assert_eq!(
        rep.calculate_difficulty(&a, false, 100),
        0,
        "reset clears escalation"
    );
}

#[test]
fn map_is_bounded() {
    let mut rep = ReputationTracker::with_capacity(8);
    for n in 0..100u8 {
        rep.record_violation(&v4(10, 1, 0, n), 100);
    }
    assert!(
        rep.len() <= 8,
        "map must stay bounded, got {}",
        rep.len()
    );
}

#[test]
fn difficulty_doubles_up_to_the_cap() {
    let mut rep = ReputationTracker::new();
    let a = ip(3);
    let mut seen = Vec::new();
    for _ in 0..12 {
        rep.record_violation(&a, 100);
        seen.push(rep.calculate_difficulty(&a, false, 100));
    }
    assert_eq!(seen[0], BASE_DIFFICULTY + 1);
    assert_eq!(seen[1], BASE_DIFFICULTY + 2);
    assert_eq!(seen[2], BASE_DIFFICULTY + 4);
    assert_eq!(*seen.last().unwrap(), MAX_DIFFICULTY);
    assert_eq!(rep.calculate_difficulty(&a, true, 100), 0);
}

#[test]
fn old_violations_are_forgotten() {
    let mut rep = ReputationTracker::new();
    let a = ip(4);
    rep.record_violation(&a, 100);
    assert!(rep.calculate_difficulty(&a, false, 100) > 0);
    assert_eq!(rep.calculate_difficulty(&a, false, 101 + WINDOW_SECS), 0);
    assert_eq!(rep.len(), 1);
    rep.gc(101 + WINDOW_SECS);
    assert_eq!(rep.len(), 0);
}
