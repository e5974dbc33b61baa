//! Promotion phase.

use std::collections::BTreeMap;

use ferrosa_cluster::controller::bootstrap::phase::BootstrapPhase;
use ferrosa_cluster::controller::bootstrap::promote::{postcondition, precondition, PromoteState};
use ferrosa_cluster::raft::NodeState;

#[test]
fn promote_postcondition_holds_when_all_members_normal() {
    let mut m = BTreeMap::new();
    m.insert(1, NodeState::Normal);
    m.insert(2, NodeState::Normal);
    m.insert(3, NodeState::Normal);
    let state = PromoteState { member_states: m };
    precondition(true).expect("stream ok");
    postcondition(&state).expect("all normal");
}

#[test]
fn promote_flags_member_in_joining_state() {
    let mut m = BTreeMap::new();
    m.insert(1, NodeState::Normal);
    m.insert(2, NodeState::Joining);
    let state = PromoteState { member_states: m };
    let err = postcondition(&state).expect_err("Joining gives err");
    assert_eq!(err.name(), BootstrapPhase::Promote);
}

#[test]
fn promote_rejects_empty_map() {
    let state = PromoteState::default();
    assert!(postcondition(&state).is_err());
}
