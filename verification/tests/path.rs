//! Path validation.

use phantom_transport::path::{
    PathRegistry, PathStateKind, RegistrationResult, PATH_CHALLENGE_LEN,
};

#[test]
fn register_new_path_returns_created() {
    let mut r = PathRegistry::new();
    assert_eq!(r.register(7), RegistrationResult::Created);
    assert_eq!(r.register(7), RegistrationResult::AlreadyKnown);
}

#[test]
fn freshly_registered_path_is_unvalidated() {
    let mut r = PathRegistry::new();
    r.register(1);
    assert_eq!(r.state(1), Some(PathStateKind::Unvalidated));
}

#[test]
fn issue_challenge_transitions_to_validating() {
    let mut r = PathRegistry::new();
    r.register(1);
    let challenge = r.issue_challenge(1).expect("random bytes").expect("challenge issued");
    assert_eq!(challenge.len(), PATH_CHALLENGE_LEN);
    assert_eq!(r.state(1), Some(PathStateKind::Validating));
}

#[test]
fn reissue_on_validating_path_returns_same_challenge() {
    let mut r = PathRegistry::new();
    r.register(1);
    let first = r.issue_challenge(1).expect("random bytes").expect("first challenge");
    let second = r.issue_challenge(1).expect("random bytes").expect("re-issue returns existing");
    assert_eq!(
        first, second,
        "re-issue must not clobber the in-flight challenge"
    );
    assert!(r.verify_response(1, &first));
    assert_eq!(r.state(1), Some(PathStateKind::Validated));
}

#[test]
fn matching_response_transitions_to_validated() {
    let mut r = PathRegistry::new();
    r.register(1);
    let challenge = r.issue_challenge(1).expect("random bytes").expect("challenge");
    assert!(r.verify_response(1, &challenge));
    assert_eq!(r.state(1), Some(PathStateKind::Validated));
}

#[test]
fn mismatched_response_transitions_to_failed() {
    let mut r = PathRegistry::new();
    r.register(1);
    let mut challenge = r.issue_challenge(1).expect("random bytes").expect("challenge");
    challenge[0] ^= 0xFF;
    assert!(!r.verify_response(1, &challenge));
    assert_eq!(r.state(1), Some(PathStateKind::Failed));
}

#[test]
fn response_without_challenge_fails() {
    let mut r = PathRegistry::new();
    r.register(1);
    let zeros = [0u8; PATH_CHALLENGE_LEN];
    assert!(!r.verify_response(1, &zeros));
    assert_eq!(r.state(1), Some(PathStateKind::Unvalidated));
}

#[test]
fn response_for_wrong_length_fails() {
    let mut r = PathRegistry::new();
    r.register(1);
    let _ = r.issue_challenge(1).expect("random bytes");
    assert!(!r.verify_response(1, &[0u8; 16]));
    assert_eq!(r.state(1), Some(PathStateKind::Validating));
}

#[test]
fn issue_challenge_on_unknown_path_returns_none() {
    let mut r = PathRegistry::new();
    assert!(r.issue_challenge(99).expect("random bytes").is_none());
}

#[test]
fn validated_paths_lists_only_validated() {
    let mut r = PathRegistry::new();
    for p in 0..5 {
        r.register(p);
    }
    for p in [1u8, 3].iter().copied() {
        let c = r.issue_challenge(p).expect("random bytes").unwrap();
        assert!(r.verify_response(p, &c));
    }
    let mut c = r.issue_challenge(2).expect("random bytes").unwrap();
    c[0] ^= 1;
    assert!(!r.verify_response(2, &c));
    let _ = r.issue_challenge(4).expect("random bytes");

    let mut validated = r.validated_paths();
    validated.sort();
    assert_eq!(validated, vec![1, 3]);
}

#[test]
fn mark_seen_updates_last_packet_timestamp() {
    let mut r = PathRegistry::new();
    r.register(1);
    let before = 1_000;
    r.mark_seen(1, 1_002);
    let path = r.path(1).unwrap();
    let seen = path.last_packet_seen.expect("set");
    assert!(seen >= before);
}

#[test]
fn re_validating_terminal_path_returns_none() {
    let mut r = PathRegistry::new();
    r.register(1);
    let c = r.issue_challenge(1).expect("random bytes").unwrap();
    assert!(r.verify_response(1, &c));

    assert!(r.issue_challenge(1).expect("random bytes").is_none());

    r.register(2);
    let mut c2 = r.issue_challenge(2).expect("random bytes").unwrap();
    c2[0] ^= 1;
    assert!(!r.verify_response(2, &c2));
    assert!(r.issue_challenge(2).expect("random bytes").is_none());
}

#[test]
fn challenge_is_what_was_drawn() {
    let mut r = PathRegistry::new();
    r.register(4);
    assert_eq!(r.issue_challenge_from(4, [7u8; 32]), Some([7u8; 32]));
    assert_eq!(r.issue_challenge_from(4, [8u8; 32]), Some([7u8; 32]));
    assert!(r.verify_response(4, &[7u8; 32]));
    assert_eq!(r.issue_challenge_from(4, [8u8; 32]), None);
}

#[test]
fn fresh_challenges_differ() {
    let mut r = PathRegistry::new();
    r.register(1);
    r.register(2);
    let a = r.issue_challenge(1).expect("random bytes").expect("unvalidated");
    let b = r.issue_challenge(2).expect("random bytes").expect("unvalidated");
    assert_ne!(a, b);
    assert_ne!(a, [0u8; 32]);
}

#[test]
fn registered_validated_path_is_validated() {
    let mut r = PathRegistry::new();
    assert!(r.is_empty());
    assert_eq!(r.register_validated(0), RegistrationResult::Created);
    assert_eq!(r.register_validated(0), RegistrationResult::AlreadyKnown);
    assert_eq!(r.validated_paths(), vec![0]);
    assert_eq!(r.len(), 1);
    assert_eq!(r.state(9), None);
}
