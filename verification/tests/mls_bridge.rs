//! Sessions from group secrets.

use phantom_transport::mls_bridge::{
    derive_session_id_from_group, labels, MlsBridgeError, MlsSessionBuilder,
};
use phantom_transport::session::SessionRole;
use phantom_transport::types::SchedulerMode;

#[test]
fn test_labels() {
    assert!(!labels::SESSION_KEY.is_empty());
    assert!(!labels::RESUMPTION_SECRET.is_empty());
}

#[test]
fn session_comes_from_both_secrets() {
    let builder = MlsSessionBuilder::new().scheduler_mode(SchedulerMode::Stealth);
    let session = builder
        .build_from_group(b"group", Ok(vec![1u8; 32]), Ok(vec![2u8; 32]))
        .expect("two secrets");
    assert_eq!(session.traffic_secret, [1u8; 32]);
    assert_eq!(session.resumption_secret, Some([2u8; 32]));
    assert_eq!(session.role, SessionRole::Member);
    assert_eq!(session.scheduler_mode, SchedulerMode::Stealth);
    assert_eq!(session.id, derive_session_id_from_group(b"group"));
}

#[test]
fn group_id_decides_the_session_id() {
    let a = derive_session_id_from_group(b"group");
    assert_eq!(a, derive_session_id_from_group(b"group"));
    assert_ne!(a, derive_session_id_from_group(b"other"));
}

#[test]
fn failed_export_and_short_secret_are_errors() {
    let builder = MlsSessionBuilder::new();
    let failed = builder.build_from_group(b"g", Err("no epoch".to_string()), Ok(vec![2u8; 32]));
    match failed {
        Err(MlsBridgeError::ExportFailed(m)) => assert_eq!(m, "no epoch"),
        _ => panic!("an export error"),
    }
    let short = builder.build_from_group(b"g", Ok(vec![1u8; 31]), Ok(vec![2u8; 32]));
    assert!(matches!(short, Err(MlsBridgeError::InvalidKeyLength)));
}
