//! Deterministic cluster simulation.

use ferrosa_cluster::accord::test_cluster::{
    Disagreement, TestCluster, TestMessage, TestMessagePayload,
};
use ferrosa_cluster::accord::txn_state::TxnState;
use ferrosa_cluster::accord::types::{Timestamp, TxnId, TxnPhase, TxnSet};

/// Helper: create a simple PreAccept test message.
fn preaccept_msg(src: u64, dst: u64, t0_micros: u64) -> TestMessage {
    let t0 = Timestamp::synthetic(t0_micros);
    let txn_id = TxnId::new(src, t0);
    TestMessage {
        src,
        dst,
        payload: TestMessagePayload::PreAccept {
            txn_id,
            t0,
            key: b"key1".to_vec(),
        },
    }
}

/// Helper: create a simple Commit test message (generates no response).
fn commit_msg(src: u64, dst: u64, t0_micros: u64) -> TestMessage {
    let t0 = Timestamp::synthetic(t0_micros);
    let txn_id = TxnId::new(src, t0);
    TestMessage {
        src,
        dst,
        payload: TestMessagePayload::Commit {
            txn_id,
            t0,
            t: t0,
            deps: vec![],
        },
    }
}

#[test]
fn test_cluster_deterministic_delivery() {
    let mut cluster = TestCluster::new(3);

    // Enqueue 3 messages to different replicas.
    let msg1 = preaccept_msg(1, 2, 100);
    let msg2 = preaccept_msg(1, 3, 200);
    let msg3 = preaccept_msg(2, 1, 300);

    // Capture txn_ids to verify FIFO order by checking which replica
    // processed each message.
    let dst1 = msg1.dst;
    let dst2 = msg2.dst;
    let dst3 = msg3.dst;

    cluster.send(msg1);
    cluster.send(msg2);
    cluster.send(msg3);

    assert_eq!(cluster.pending_count(), 3);

    // deliver_next() should deliver in FIFO order.
    let r1 = cluster.deliver_next();
    assert_eq!(r1.len(), 1); // PreAcceptOK response
    assert_eq!(r1[0].src, dst1); // Response came from replica 2

    let r2 = cluster.deliver_next();
    assert_eq!(r2.len(), 1);
    assert_eq!(r2[0].src, dst2); // Response came from replica 3

    let r3 = cluster.deliver_next();
    assert_eq!(r3.len(), 1);
    assert_eq!(r3[0].src, dst3); // Response came from replica 1

    // The 3 responses are now pending (one from each deliver_next).
    assert_eq!(cluster.pending_count(), 3);
}

#[test]
fn test_cluster_out_of_order_delivery() {
    let mut cluster = TestCluster::new(3);

    let msg1 = preaccept_msg(1, 2, 100);
    let msg2 = preaccept_msg(1, 3, 200);
    let msg3 = preaccept_msg(2, 1, 300);

    let dst3 = msg3.dst; // node 1

    cluster.send(msg1);
    cluster.send(msg2);
    cluster.send(msg3);

    assert_eq!(cluster.pending_count(), 3);

    // Deliver message at index 2 (msg3) first — out of order.
    let r = cluster.deliver_at(2);
    assert_eq!(r.len(), 1);
    assert_eq!(r[0].src, dst3); // Response from replica 1

    // Messages 1 and 2 are still pending, plus the response from msg3.
    assert_eq!(cluster.pending_count(), 3); // msg1, msg2, and response
}

#[test]
fn test_cluster_drop_message() {
    let mut cluster = TestCluster::new(3);

    let msg1 = preaccept_msg(1, 2, 100);
    let msg2 = preaccept_msg(1, 3, 200);
    let msg3 = preaccept_msg(2, 1, 300);

    let dst1 = msg1.dst; // node 2
    let dst3 = msg3.dst; // node 1

    cluster.send(msg1);
    cluster.send(msg2);
    cluster.send(msg3);

    assert_eq!(cluster.pending_count(), 3);

    // Drop message at index 1 (msg2) — simulates partition.
    cluster.drop_at(1);
    assert_eq!(cluster.pending_count(), 2);

    // Deliver remaining: should be msg1 then msg3.
    let r1 = cluster.deliver_next();
    assert_eq!(r1[0].src, dst1); // From replica 2 (msg1's dst)

    // After delivering msg1, its response is enqueued, so we have
    // msg3 + response = 2 pending.
    let r3 = cluster.deliver_next();
    assert_eq!(r3[0].src, dst3); // From replica 1 (msg3's dst)
}

#[test]
fn test_cluster_drain() {
    let mut cluster = TestCluster::new(5);

    // Enqueue 10 PreAccept messages to different replicas.
    for i in 0..10 {
        let src = 1;
        let dst = (i % 5) as u64 + 1;
        // If src == dst, pick a different dst.
        let dst = if dst == src { (dst % 5) + 1 } else { dst };
        let msg = preaccept_msg(src, dst, (i + 1) as u64 * 100);
        cluster.send(msg);
    }

    assert_eq!(cluster.pending_count(), 10);

    // drain() should deliver all messages (and their responses) until quiescent.
    cluster.drain();

    assert_eq!(cluster.pending_count(), 0);
}

#[test]
fn test_cluster_assert_consistent() {
    let mut cluster = TestCluster::new(3);

    let t0 = Timestamp::synthetic(1000);
    let txn_id = TxnId::new(1, t0);

    // Commit the same transaction on replicas 1 and 2 with same state.
    for node_id in [1u64, 2] {
        let replica = cluster.replica_mut(node_id);
        let mut state = TxnState::new(txn_id, t0);
        state.phase = TxnPhase::Committed;
        state.t = t0;
        state.deps = TxnSet::new();
        replica.txn_states.insert(txn_id, state);
    }

    // Should pass — both replicas agree.
    assert_eq!(cluster.assert_consistent(&txn_id), Ok(()));

    // Now modify replica 2's execution timestamp to create inconsistency.
    let replica2 = cluster.replica_mut(2);
    let at = replica2.txn_states.position(&txn_id).unwrap();
    let state2 = replica2.txn_states.value_mut(at);
    state2.t = Timestamp::synthetic(9999);

    // The replicas disagree on `t`.
    assert_eq!(cluster.assert_consistent(&txn_id), Err(Disagreement::Timestamp));
}

#[test]
fn test_cluster_no_tokio() {
    let mut cluster = TestCluster::new(3);

    let t0 = Timestamp::synthetic(500);
    let txn_id = TxnId::new(1, t0);

    // Send a PreAccept.
    cluster.send(TestMessage {
        src: 1,
        dst: 2,
        payload: TestMessagePayload::PreAccept {
            txn_id,
            t0,
            key: b"no_tokio_key".to_vec(),
        },
    });

    // Deliver it synchronously.
    let responses = cluster.deliver_next();
    assert_eq!(responses.len(), 1);

    // Verify the response is a PreAcceptOK.
    match &responses[0].payload {
        TestMessagePayload::PreAcceptOK {
            txn_id: resp_txn_id,
            t,
            deps,
        } => {
            assert_eq!(*resp_txn_id, txn_id);
            assert_eq!(*t, t0); // No conflicts, so t == t0.
            assert!(deps.is_empty());
        }
        other => panic!("expected PreAcceptOK, got {:?}", other),
    }

    // Verify replica state was updated.
    let replica = cluster.replica(2);
    assert!(replica.txn_states.contains_key(&txn_id));
    assert_eq!(replica.txn_states.get(&txn_id).unwrap().phase, TxnPhase::PreAccepted);
}
