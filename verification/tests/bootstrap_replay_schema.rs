//! Schema replay phase.

use std::collections::BTreeMap;

use ferrosa_cluster::controller::bootstrap::phase::BootstrapPhase;
use ferrosa_cluster::controller::bootstrap::replay_schema::{postcondition, precondition, ReplaySchemaState};

#[test]
fn replay_postcondition_holds_when_all_nodes_match_leader() {
    let v = u128::from_be_bytes([7; 16]);
    let mut node_schema_versions = BTreeMap::new();
    node_schema_versions.insert(1, v);
    node_schema_versions.insert(2, v);
    node_schema_versions.insert(3, v);
    let state = ReplaySchemaState {
        leader_node_id: 1,
        node_schema_versions,
    };
    precondition(&state).expect("leader present gives pre ok");
    postcondition(&state).expect("all match gives post ok");
}

#[test]
fn replay_postcondition_flags_divergent_follower() {
    let v_leader = u128::from_be_bytes([7; 16]);
    let v_follower = u128::from_be_bytes([8; 16]);
    let mut m = BTreeMap::new();
    m.insert(1, v_leader);
    m.insert(2, v_follower);
    let state = ReplaySchemaState {
        leader_node_id: 1,
        node_schema_versions: m,
    };
    let err = postcondition(&state).expect_err("divergence gives err");
    assert_eq!(err.name(), BootstrapPhase::ReplaySchema);
}

#[test]
fn precondition_requires_leader_in_map() {
    let state = ReplaySchemaState {
        leader_node_id: 1,
        node_schema_versions: BTreeMap::new(),
    };
    assert!(precondition(&state).is_err());
}
