//! Health of the consensus engine.

use ferrosa_cluster::consensus_health::{
    BoundedDiagnostic, ConsensusHealth, DiagnosticFull, CONSENSUS_DIAGNOSTIC_CAPACITY,
};

#[test]
fn diagnostic_is_utf8_safe_and_fixed_capacity() {
    let mut health = ConsensusHealth::new();
    let oversized = "🦀".repeat(CONSENSUS_DIAGNOSTIC_CAPACITY);
    assert!(health.fail("test", &oversized));

    let detail = health.failure().unwrap().detail();
    assert!(detail.len() <= CONSENSUS_DIAGNOSTIC_CAPACITY);
    assert!(std::str::from_utf8(detail.as_bytes()).is_ok());
    assert_eq!(detail, "🦀".repeat(CONSENSUS_DIAGNOSTIC_CAPACITY / 4));
}

#[test]
fn first_failure_is_stable_and_count_is_monotonic() {
    let mut health = ConsensusHealth::new();
    assert!(health.fail("first", "one"));
    for attempt in 0..10_000 {
        assert!(!health.fail("repeat", &format!("failure {attempt}")));
    }

    assert!(!health.is_healthy());
    assert_eq!(health.failure_count(), 10_001);
    assert_eq!(health.failure().unwrap().kind(), "first");
    assert_eq!(health.failure().unwrap().detail(), "one");
}

/// What is appended to a partly filled diagnostic is cut to the room that is left.
#[test]
fn diagnostics_fill_up() {
    let mut d = BoundedDiagnostic::new();
    assert_eq!(d.write_str("abc"), Ok(()));
    assert_eq!(d.write_str(""), Ok(()));
    assert_eq!(d.as_str(), "abc");
    let crabs = "🦀".repeat(CONSENSUS_DIAGNOSTIC_CAPACITY);
    assert_eq!(d.write_str(&crabs), Err(DiagnosticFull));
    assert_eq!(d.as_str(), format!("abc{}", "🦀".repeat(255)));
    assert_eq!(d.write_str("é"), Err(DiagnosticFull), "one byte is left");
    assert_eq!(d.write_str("x"), Ok(()));
    assert_eq!(d.as_str().len(), CONSENSUS_DIAGNOSTIC_CAPACITY);
    assert_eq!(d.write_str("y"), Err(DiagnosticFull));
    assert_eq!(d.write_str(""), Err(DiagnosticFull), "no room is left");
}

/// Nothing has failed at first.
#[test]
fn new_health_is_healthy() {
    let health = ConsensusHealth::default();
    assert!(health.is_healthy());
    assert!(health.failure().is_none());
    assert_eq!(health.failure_count(), 0);
}

/// A cut never falls inside a character.
#[test]
fn diagnostics_are_cut_between_characters() {
    let mut health = ConsensusHealth::new();
    let text = format!("a{}", "é".repeat(CONSENSUS_DIAGNOSTIC_CAPACITY));
    health.fail("cut", &text);
    let detail = health.failure().unwrap().detail();
    assert_eq!(detail, format!("a{}", "é".repeat(511)));
}
