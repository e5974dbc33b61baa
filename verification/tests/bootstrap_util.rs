//! Set differences and their reports.

use std::collections::BTreeSet;

use ferrosa_cluster::controller::bootstrap::phase::BootstrapPhase;
use ferrosa_cluster::controller::bootstrap::util::{missing, missing_error};

#[test]
fn missing_returns_none_when_observed_covers_expected() {
    let expected: BTreeSet<u64> = [1, 2, 3].into_iter().collect();
    let observed: BTreeSet<u64> = [1, 2, 3].into_iter().collect();
    assert!(missing(&expected, &observed).is_none());
}

#[test]
fn missing_returns_diff_in_sorted_order() {
    let expected: BTreeSet<u64> = [1, 2, 3, 4].into_iter().collect();
    let observed: BTreeSet<u64> = [2, 4].into_iter().collect();
    let m = missing(&expected, &observed).unwrap();
    assert_eq!(m, vec![1, 3]);
}

#[test]
fn missing_error_attaches_phase_label() {
    let m: Vec<u64> = vec![5, 6];
    let err = missing_error(BootstrapPhase::EstablishPools, "peer", m);
    assert_eq!(err.name(), BootstrapPhase::EstablishPools);
    let msg = err.message();
    assert!(msg.contains("peer"), "{msg}");
}
