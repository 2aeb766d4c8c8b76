//! Path liveness.

use phantom_transport::clock::Duration;
use phantom_transport::liveness::{
    liveness_verdict, should_send_keepalive, LivenessConfig, LivenessVerdict,
};

fn cfg() -> LivenessConfig {
    LivenessConfig {
        min_pto: Duration::from_millis(100),
        path_down_ptos: 4,
        idle_timeout: Duration::from_secs(1),
        keepalive_interval: None,
    }
}

#[test]
fn no_outstanding_data_never_declares_path_down() {
    let v = liveness_verdict(
        Duration::from_secs(60),
        0,
        Duration::zero(),
        false,
        Duration::zero(),
        &cfg(),
    );
    assert_eq!(v, LivenessVerdict::Unchanged);
}

#[test]
fn outstanding_data_just_below_threshold_is_unchanged() {
    let v = liveness_verdict(
        Duration::from_millis(399),
        1200,
        Duration::zero(),
        false,
        Duration::zero(),
        &cfg(),
    );
    assert_eq!(v, LivenessVerdict::Unchanged);
}

#[test]
fn outstanding_data_past_threshold_is_path_down() {
    let v = liveness_verdict(
        Duration::from_millis(401),
        1200,
        Duration::zero(),
        false,
        Duration::zero(),
        &cfg(),
    );
    assert_eq!(v, LivenessVerdict::PathDown);
}

#[test]
fn pto_scales_with_min_rtt() {
    let below = liveness_verdict(
        Duration::from_millis(2000),
        800,
        Duration::from_millis(200),
        false,
        Duration::zero(),
        &cfg(),
    );
    assert_eq!(
        below,
        LivenessVerdict::Unchanged,
        "2000ms < 2400ms threshold"
    );
    let above = liveness_verdict(
        Duration::from_millis(2500),
        800,
        Duration::from_millis(200),
        false,
        Duration::zero(),
        &cfg(),
    );
    assert_eq!(
        above,
        LivenessVerdict::PathDown,
        "2500ms > 2400ms threshold"
    );
}

#[test]
fn migrating_and_still_silent_is_unchanged_until_idle_timeout() {
    let v = liveness_verdict(
        Duration::from_secs(10),
        800,
        Duration::zero(),
        true,
        Duration::from_millis(500),
        &cfg(),
    );
    assert_eq!(v, LivenessVerdict::Unchanged);
}

#[test]
fn migrating_recovers_when_inbound_resumes() {
    let v = liveness_verdict(
        Duration::from_millis(50),
        800,
        Duration::zero(),
        true,
        Duration::from_millis(500),
        &cfg(),
    );
    assert_eq!(v, LivenessVerdict::Recovered);
}

#[test]
fn migrating_dies_after_idle_timeout() {
    let v = liveness_verdict(
        Duration::from_secs(10),
        800,
        Duration::zero(),
        true,
        Duration::from_millis(1100),
        &cfg(),
    );
    assert_eq!(v, LivenessVerdict::Dead);
}

#[test]
fn recovery_beats_death_at_the_idle_timeout_edge() {
    let v = liveness_verdict(
        Duration::from_millis(20),
        800,
        Duration::zero(),
        true,
        Duration::from_secs(5),
        &cfg(),
    );
    assert_eq!(v, LivenessVerdict::Recovered);
}

#[test]
fn for_test_config_is_faster_than_default() {
    let t = LivenessConfig::for_test();
    let d = LivenessConfig::default();
    assert!(t.idle_timeout < d.idle_timeout);
    assert!(t.min_pto <= d.min_pto);
    assert!(t.path_down_ptos >= 1);
    assert!(t.keepalive_interval.unwrap() < d.keepalive_interval.unwrap());
}

#[test]
fn default_config_is_sane() {
    let d = LivenessConfig::default();
    assert!(d.min_pto > Duration::zero());
    assert!(d.path_down_ptos >= 1);
    assert!(d.idle_timeout > d.min_pto);
    let ka = d.keepalive_interval.expect("default keep-alive enabled");
    assert!(
        ka < d.idle_timeout,
        "keep-alive must precede the idle-timeout"
    );
    assert!(ka > d.min_pto, "keep-alive must be rarer than one PTO");
}

fn ka_cfg() -> LivenessConfig {
    LivenessConfig {
        keepalive_interval: Some(Duration::from_millis(100)),
        ..cfg()
    }
}

#[test]
fn keepalive_fires_on_an_idle_connected_path() {
    assert!(should_send_keepalive(
        true,
        0,
        Duration::from_millis(150),
        Duration::from_millis(150),
        &ka_cfg(),
    ));
}

#[test]
fn keepalive_suppressed_when_disabled() {
    let cfg = LivenessConfig {
        keepalive_interval: None,
        ..cfg()
    };
    assert!(!should_send_keepalive(
        true,
        0,
        Duration::from_secs(60),
        Duration::from_secs(60),
        &cfg,
    ));
}

#[test]
fn keepalive_suppressed_with_data_in_flight() {
    assert!(!should_send_keepalive(
        true,
        1200,
        Duration::from_millis(150),
        Duration::from_millis(150),
        &ka_cfg(),
    ));
}

#[test]
fn keepalive_suppressed_when_not_connected() {
    assert!(!should_send_keepalive(
        false,
        0,
        Duration::from_millis(150),
        Duration::from_millis(150),
        &ka_cfg(),
    ));
}

#[test]
fn keepalive_suppressed_before_the_interval_and_throttled_after_a_recent_ping() {
    assert!(!should_send_keepalive(
        true,
        0,
        Duration::from_millis(50),
        Duration::from_millis(150),
        &ka_cfg(),
    ));
    assert!(!should_send_keepalive(
        true,
        0,
        Duration::from_millis(150),
        Duration::from_millis(50),
        &ka_cfg(),
    ));
}

#[test]
fn quiet_time_at_the_threshold_does_not_count_as_down() {
    let v = liveness_verdict(
        Duration::from_millis(400),
        1,
        Duration::zero(),
        false,
        Duration::zero(),
        &cfg(),
    );
    assert_eq!(v, LivenessVerdict::Unchanged);
}
