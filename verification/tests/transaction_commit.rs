//! Committing a buffered write set.

use ferrosa_cluster::accord::apply::{
    ApplyError, ApplyMutation, NoReader, StorageApplier,
};
use ferrosa_cluster::accord::state_machine::{AccordStateMachine, SmResponse};
use ferrosa_cluster::accord::sync_writer::MemorySyncWriter;
use ferrosa_cluster::accord::transaction_commit::{
    begin_commit, finish_commit, CommitError, CommitOutcome, CommitStep, DriverFailure,
    TransactionWrite,
};
use ferrosa_cluster::accord::types::{BallotNumber, Timestamp, TxnId};

/// Records every applied mutation's data, so a test can assert which keys' writes landed.
struct RecordingApplier {
    applied: Vec<Vec<u8>>,
}

impl StorageApplier for RecordingApplier {
    fn apply(&mut self, _txn_id: TxnId, mutation: ApplyMutation) -> Result<(), ApplyError> {
        self.applied.push(mutation.data);
        Ok(())
    }
}

type Node = AccordStateMachine<MemorySyncWriter, RecordingApplier, NoReader>;

fn make_node(id: u64) -> Node {
    AccordStateMachine::with_applier(
        id,
        MemorySyncWriter::new(),
        RecordingApplier { applied: Vec::new() },
    )
}

fn write(ks: &str, key: &[u8], mutation: &[u8]) -> TransactionWrite {
    TransactionWrite {
        keyspace: ks.to_string(),
        key: key.to_vec(),
        mutation: mutation.to_vec(),
    }
}

#[test]
fn empty_write_set_commits_without_driving_accord() {
    match begin_commit(Vec::new(), &Vec::new()).expect("empty commit") {
        CommitStep::Done(outcome) => assert_eq!(outcome, CommitOutcome::Committed),
        CommitStep::Drive(_) => panic!("an empty transaction must not apply anything"),
    }
}

#[test]
fn commits_multi_key_write_set_across_shards_and_applies_every_key() {
    // Two shards of one node each, and a coordinator that is neither: each shard
    // must apply its own key.
    let (ha, hb) = (0xA_u128, 0xB_u128);
    let mut nodes: Vec<(u128, Node)> = vec![(ha, make_node(0xA)), (hb, make_node(0xB))];

    let writes = vec![
        write("ks", b"acct_a", b"row_a"),
        write("ks", b"acct_b", b"row_b"),
    ];
    let resolved = vec![Some(vec![ha]), Some(vec![hb])];
    let plan = match begin_commit(writes, &resolved).expect("commit") {
        CommitStep::Drive(plan) => plan,
        CommitStep::Done(_) => panic!("there is something to drive"),
    };
    assert_eq!(plan.replica_ids, vec![ha, hb]);

    let t0 = Timestamp::synthetic(1000);
    let txn_id = TxnId::new(999_999, t0);
    for ((key, mutation), replicas) in plan.write_set.iter().zip(&plan.placements) {
        for host in replicas {
            let node = nodes.iter_mut().find(|(h, _)| h == host).expect("a replica");
            let resp = node.1.handle_preaccept(txn_id, t0, key, BallotNumber(0), 0);
            assert!(matches!(resp, SmResponse::PreAcceptOK { .. }));
            node.1.handle_commit(txn_id, t0, t0, vec![]);
            node.1.handle_apply(txn_id, mutation.clone());
        }
    }

    let outcome = finish_commit(Ok(())).expect("commit");
    assert_eq!(outcome, CommitOutcome::Committed);
    assert_eq!(
        nodes[0].1.applier().applied,
        vec![b"row_a".to_vec()],
        "shard A must apply its key"
    );
    assert_eq!(
        nodes[1].1.applier().applied,
        vec![b"row_b".to_vec()],
        "shard B must apply its key"
    );
}

fn refusal(writes: Vec<TransactionWrite>, resolved: Vec<Option<Vec<u128>>>) -> CommitError {
    match begin_commit(writes, &resolved) {
        Err(e) => e,
        Ok(_) => panic!("an unplaceable key must fail"),
    }
}

#[test]
fn unplaceable_key_fails_loud() {
    // A key that cannot be placed must abort the commit with an error, never
    // silently commit to a guessed or empty replica set.
    let err = refusal(vec![write("ks", b"k", b"v")], vec![None]);
    assert!(err.reason.contains("no replicas"), "got: {}", err.reason);
    assert_eq!(
        err.reason,
        "no replicas resolved for a key in keyspace 'ks' (cluster mode required)"
    );
    let empty = refusal(vec![write("ks", b"k", b"v")], vec![Some(vec![])]);
    assert_eq!(empty.reason, "empty replica set for a key in keyspace 'ks'");
}

/// Resolving stops at the first key that cannot be placed.
#[test]
fn first_unplaceable_key_is_reported() {
    let writes = vec![write("a", b"1", b""), write("b", b"2", b""), write("c", b"3", b"")];
    let err = refusal(writes, vec![Some(vec![1]), None]);
    assert!(err.reason.contains("'b'"), "got: {}", err.reason);
}

/// Two writes under one key in two keyspaces go to the replicas of their own
/// keyspaces, and the transaction needs a quorum of both.
#[test]
fn each_write_is_placed_by_its_keyspace() {
    let writes = vec![write("a", b"k", b"1"), write("b", b"k", b"2")];
    let resolved = vec![Some(vec![3, 1]), Some(vec![2])];
    match begin_commit(writes, &resolved).expect("commit") {
        CommitStep::Drive(plan) => {
            assert_eq!(plan.replica_ids, vec![1, 2, 3]);
            assert_eq!(plan.placements, vec![vec![3, 1], vec![2]]);
            assert_eq!(plan.write_set.len(), 2);
            let participants = plan.participants();
            assert_ne!(participants.key_shard[0], participants.key_shard[1]);
            let mut quorum = participants.quorum();
            quorum.record_node_ack(2);
            assert!(!quorum.all_reached(), "the replicas of keyspace a are missing");
            quorum.record_node_ack(1);
            quorum.record_node_ack(3);
            assert!(quorum.all_reached());
        }
        CommitStep::Done(_) => panic!("there is something to drive"),
    }
}

/// A transaction whose condition failed is aborted; one without an outcome fails.
#[test]
fn driver_failures_are_told_apart() {
    assert_eq!(
        finish_commit(Err(DriverFailure::ConditionNotMet)),
        Ok(CommitOutcome::Aborted { reason: "transaction condition not met".to_string() })
    );
    assert_eq!(
        finish_commit(Err(DriverFailure::Undecided { reason: "no quorum".to_string() })),
        Err(CommitError { reason: "no quorum".to_string() })
    );
}
