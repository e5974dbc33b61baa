//! Invite delivery phase.

use std::collections::BTreeSet;

use ferrosa_cluster::controller::bootstrap::deliver_invites::{postcondition, precondition, DeliverInvitesState};
use ferrosa_cluster::controller::bootstrap::phase::BootstrapPhase;
use ferrosa_cluster::mode::DeploymentMode;

fn uuid(byte: u8) -> u128 {
    u128::from_be_bytes([byte; 16])
}

/// Three nodes, every peer acks gives post-condition
/// is satisfied; the phase reports `Ok(())`.
#[test]
fn deliver_invites_succeeds_to_all_peers() {
    let mut state = DeliverInvitesState {
        mode: DeploymentMode::Forming,
        expected_peers: [uuid(2), uuid(3)].into_iter().collect(),
        acked_peers: BTreeSet::new(),
    };
    precondition(&state).expect("Forming gives pre passes");
    // Before anyone acks, post fails — gives the failure-mode test
    // a deterministic signal to wait on.
    assert!(postcondition(&state).is_err());

    // Each peer acks; the phase post-condition flips to OK.
    state.acked_peers.insert(uuid(2));
    state.acked_peers.insert(uuid(3));
    postcondition(&state).expect("post-condition holds with all acks");
}

#[test]
fn precondition_rejects_non_forming_mode() {
    let state = DeliverInvitesState {
        mode: DeploymentMode::Cluster,
        expected_peers: BTreeSet::new(),
        acked_peers: BTreeSet::new(),
    };
    let err = precondition(&state).expect_err("Cluster mode gives pre fails");
    assert_eq!(err.name(), BootstrapPhase::DeliverInvites);
}

#[test]
fn postcondition_lists_missing_peers() {
    let state = DeliverInvitesState {
        mode: DeploymentMode::Forming,
        expected_peers: [uuid(2), uuid(3), uuid(4)].into_iter().collect(),
        acked_peers: [uuid(2)].into_iter().collect(),
    };
    let err = postcondition(&state).expect_err("missing acks gives post fails");
    let msg = err.message();
    assert!(msg.contains("did not ack"), "{msg}");
}
