//! Connection pool phase.

use std::collections::{BTreeMap, BTreeSet};

use ferrosa_cluster::controller::bootstrap::establish_pools::{
    postcondition, precondition, EstablishPoolsState, PeerLaneStatus,
};
use ferrosa_cluster::controller::bootstrap::phase::BootstrapPhase;

fn uuid(byte: u8) -> u128 {
    u128::from_be_bytes([byte; 16])
}

#[test]
fn pools_postcondition_holds_when_both_lanes_live_for_every_peer() {
    let mut lane_status = BTreeMap::new();
    lane_status.insert(
        uuid(2),
        PeerLaneStatus {
            raft: true,
            data: true,
        },
    );
    lane_status.insert(
        uuid(3),
        PeerLaneStatus {
            raft: true,
            data: true,
        },
    );
    let state = EstablishPoolsState {
        expected_peers: [uuid(2), uuid(3)].into_iter().collect(),
        lane_status,
    };
    precondition(&state).expect("non-empty peer set passes pre");
    postcondition(&state).expect("both lanes live for all peers");
}

#[test]
fn postcondition_flags_peer_missing_data_lane() {
    let mut lane_status = BTreeMap::new();
    lane_status.insert(
        uuid(2),
        PeerLaneStatus {
            raft: true,
            data: false,
        },
    );
    let state = EstablishPoolsState {
        expected_peers: [uuid(2)].into_iter().collect(),
        lane_status,
    };
    let err = postcondition(&state).expect_err("data lane missing gives fail");
    assert_eq!(err.name(), BootstrapPhase::EstablishPools);
}

#[test]
fn postcondition_flags_unknown_peer() {
    let state = EstablishPoolsState {
        expected_peers: [uuid(2)].into_iter().collect(),
        lane_status: BTreeMap::new(),
    };
    assert!(postcondition(&state).is_err());
}

#[test]
fn precondition_rejects_empty_peer_set() {
    let state = EstablishPoolsState {
        expected_peers: BTreeSet::new(),
        lane_status: BTreeMap::new(),
    };
    assert!(precondition(&state).is_err());
}
