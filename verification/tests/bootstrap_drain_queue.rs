//! Queue drain phase.

use ferrosa_cluster::controller::bootstrap::drain_queue::{postcondition, precondition, DrainQueueState};
use ferrosa_cluster::controller::bootstrap::phase::BootstrapPhase;

#[test]
fn drain_queue_postcondition_holds_when_empty_and_applied_matches() {
    let state = DrainQueueState {
        channel_empty: true,
        enqueued: 3,
        applied: 3,
    };
    precondition(true).expect("promote ok");
    postcondition(state).expect("drain complete");
}

#[test]
fn drain_queue_flags_unapplied_op() {
    let state = DrainQueueState {
        channel_empty: true,
        enqueued: 3,
        applied: 2,
    };
    let err = postcondition(state).expect_err("missing apply gives err");
    assert_eq!(err.name(), BootstrapPhase::DrainQueue);
}

#[test]
fn drain_queue_flags_non_empty_channel() {
    let state = DrainQueueState {
        channel_empty: false,
        enqueued: 3,
        applied: 3,
    };
    assert!(postcondition(state).is_err());
}

#[test]
fn drain_queue_precondition_requires_promoted() {
    assert!(precondition(false).is_err());
}
