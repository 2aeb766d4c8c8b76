//! Fallback between transport modes.

use phantom_transport::fallback::{
    FallbackStateMachine, FallbackTrigger, TransportMode, PROBE_INTERVAL_MS,
};

#[test]
fn test_fallback_cycle() {
    let mut fsm = FallbackStateMachine::with_defaults(0);
    assert_eq!(fsm.current_mode(), TransportMode::Turbo);

    fsm.degrade(0);
    assert_eq!(fsm.current_mode(), TransportMode::Reliable);

    fsm.degrade(0);
    assert_eq!(fsm.current_mode(), TransportMode::Stealth);

    fsm.upgrade(0);
    assert_eq!(fsm.current_mode(), TransportMode::Turbo);
}

#[test]
fn test_should_probe() {
    let mut fsm = FallbackStateMachine::with_defaults(0);

    assert!(!fsm.should_probe(1));

    fsm.degrade(0);
    assert_eq!(fsm.current_mode(), TransportMode::Reliable);

    assert!(!fsm.should_probe(1));

    fsm.record_probe(1);
    assert!(!fsm.should_probe(1));
}

#[test]
fn third_failure_falls_back() {
    let mut fsm = FallbackStateMachine::new(FallbackTrigger::default(), 0);
    fsm.record_failure(1);
    fsm.record_failure(2);
    assert_eq!(fsm.current_mode(), TransportMode::Turbo);
    fsm.record_failure(3);
    assert_eq!(fsm.current_mode(), TransportMode::Reliable);
    fsm.record_failure(4);
    assert_eq!(fsm.current_mode(), TransportMode::Stealth);
    fsm.record_failure(5);
    assert_eq!(fsm.current_mode(), TransportMode::Stealth);
    fsm.upgrade(6);
    assert_eq!(fsm.current_mode(), TransportMode::Turbo);
    assert_eq!(fsm.metrics().connection_failures, 0);
}

#[test]
fn success_forgives_failures() {
    let mut fsm = FallbackStateMachine::with_defaults(0);
    fsm.record_failure(1);
    fsm.record_failure(2);
    fsm.metrics_mut().record_sent();
    fsm.metrics_mut().record_success(9);
    assert_eq!(fsm.metrics().packets_sent, 1);
    assert_eq!(fsm.metrics().packets_acked, 1);
    assert_eq!(fsm.metrics().last_success_ms, 9);
    assert!(!fsm.check_and_fallback(10));
    fsm.record_failure(11);
    assert_eq!(fsm.current_mode(), TransportMode::Turbo);
}

#[test]
fn probe_is_due_after_the_interval() {
    let mut fsm = FallbackStateMachine::with_defaults(0);
    fsm.degrade(100);
    assert!(!fsm.should_probe(100 + PROBE_INTERVAL_MS));
    assert!(fsm.should_probe(101 + PROBE_INTERVAL_MS));
    fsm.record_probe(101 + PROBE_INTERVAL_MS);
    assert!(!fsm.should_probe(102 + PROBE_INTERVAL_MS));
}
