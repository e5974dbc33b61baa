//! Leader election phase.

use ferrosa_cluster::controller::bootstrap::phase::BootstrapPhase;
use ferrosa_cluster::controller::bootstrap::wait_leader::{postcondition, precondition, LeaderObservation};

#[test]
fn elected_observation_passes_postcondition() {
    let obs = LeaderObservation::Elected {
        node_id: 1,
        waited_ms: 120,
    };
    postcondition(obs).expect("elected gives ok");
}

#[test]
fn timeout_observation_fails_postcondition() {
    let obs = LeaderObservation::Timeout {
        waited_ms: 30_000,
    };
    let err = postcondition(obs).expect_err("timeout gives err");
    assert_eq!(err.name(), BootstrapPhase::WaitLeader);
    let msg = err.message();
    assert!(msg.contains("no leader"), "{msg}");
}

#[test]
fn precondition_requires_raft_created() {
    precondition(true).expect("raft ok");
    assert!(precondition(false).is_err());
}
