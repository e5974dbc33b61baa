//! Asking an existing cluster for admission.

use ferrosa_cluster::controller::cluster_rejoin::{
    cluster_rejoin_attempts_total, cluster_rejoin_failures_total, next_backoff, rejoin_node_info,
    Rejoin, RejoinCounters, RejoinError, RejoinStep, BACKOFF_INITIAL_SECS, BACKOFF_MAX_SECS,
    MAX_REJOIN_ATTEMPTS,
};
use ferrosa_cluster::raft::NodeState;

#[test]
fn backoff_sequence_caps_at_60s() {
    let mut b = BACKOFF_INITIAL_SECS;
    let mut sequence = Vec::new();
    for _ in 0..MAX_REJOIN_ATTEMPTS {
        sequence.push(b);
        b = next_backoff(b);
    }
    // First backoff is 1s.
    assert_eq!(sequence[0], 1);
    // After several doublings, must not exceed 60s.
    for &v in &sequence {
        assert!(
            v <= BACKOFF_MAX_SECS,
            "backoff {v} exceeds cap {BACKOFF_MAX_SECS}"
        );
    }
    // Sequence grows monotonically until the cap.
    let pre_cap: Vec<u64> = sequence
        .iter()
        .copied()
        .take_while(|&v| v < BACKOFF_MAX_SECS)
        .collect();
    for w in pre_cap.windows(2) {
        assert!(w[1] > w[0], "backoff should grow before cap: {:?}", w);
    }
    assert_eq!(sequence, vec![1, 2, 4, 8, 16, 32, 60, 60, 60, 60]);
}

#[test]
fn counters_are_zero_at_start() {
    let counters = RejoinCounters::new();
    assert_eq!(cluster_rejoin_attempts_total(&counters), 0);
    assert_eq!(cluster_rejoin_failures_total(&counters), 0);
}

#[test]
fn attempt_rejoin_fails_loud_with_no_peers() {
    let mut counters = RejoinCounters::new();
    let result = Rejoin::start(0, &mut counters);
    assert!(
        matches!(result, Err(RejoinError::Exhausted)),
        "must fail loud with no peers"
    );
    assert!(cluster_rejoin_failures_total(&counters) > 0);
    assert_eq!(cluster_rejoin_failures_total(&counters), 1);
    assert_eq!(cluster_rejoin_attempts_total(&counters), 1);
    assert_eq!(
        RejoinError::Exhausted.message(),
        "cluster_rejoin: all 10 JoinNode attempts exhausted"
    );
}

/// Every member is asked in every round before the attempt is given up.
#[test]
fn every_member_is_asked_in_every_round() {
    let mut counters = RejoinCounters::new();
    let mut rejoin = Rejoin::start(3, &mut counters).expect("members");
    let mut asked = vec![rejoin.peer];
    let mut pauses = Vec::new();
    loop {
        match rejoin.record(false, &mut counters) {
            RejoinStep::Ask { peer } => asked.push(peer),
            RejoinStep::AskAfter { secs, peer } => {
                pauses.push(secs);
                asked.push(peer);
            }
            RejoinStep::Accepted => unreachable!(),
            RejoinStep::Exhausted => break,
        }
    }
    assert_eq!(asked.len(), 30);
    assert_eq!(&asked[..4], &[0, 1, 2, 0]);
    assert_eq!(pauses, vec![1, 2, 4, 8, 16, 32, 60, 60, 60]);
    assert_eq!(cluster_rejoin_attempts_total(&counters), 1);
    assert_eq!(cluster_rejoin_failures_total(&counters), 1);
}

/// The first admission ends the attempt.
#[test]
fn admission_ends_the_attempt() {
    let mut counters = RejoinCounters::new();
    let mut rejoin = Rejoin::start(2, &mut counters).expect("members");
    assert_eq!(rejoin.record(false, &mut counters), RejoinStep::Ask { peer: 1 });
    assert_eq!(rejoin.record(true, &mut counters), RejoinStep::Accepted);
    assert_eq!(cluster_rejoin_attempts_total(&counters), 1);
    assert_eq!(cluster_rejoin_failures_total(&counters), 0);
}

/// A node asks to be added as one that does not serve yet.
#[test]
fn rejoining_node_is_joining() {
    let n = rejoin_node_info(5, "10.0.0.5:7000", "dc1", "rack1", Some("10.0.0.5:9042"));
    assert_eq!(n.host_id, 5);
    assert_eq!(n.addr, "10.0.0.5:7000");
    assert_eq!(n.state, NodeState::Joining);
    assert_eq!(n.cql_broadcast.as_deref(), Some("10.0.0.5:9042"));
}
