//! Replica state machine.

use ferrosa_cluster::accord::apply::{
    ApplyError, ApplyMutation, NoReader, NoopStorageApplier, ReadError, StorageApplier,
    StorageReader,
};
use ferrosa_cluster::accord::conflict_index::{InFlightWrite, TxnStatus};
use ferrosa_cluster::accord::state_machine::{AccordStateMachine, SmResponse};
use ferrosa_cluster::accord::sync_writer::{MemorySyncWriter, SyncWriteCall};
use ferrosa_cluster::accord::types::{
    AcceptedBallot, BallotNumber, PromisedBallot, Timestamp, TxnId, TxnPhase,
};

fn ts(micros: u64) -> Timestamp {
    Timestamp::synthetic(micros)
}

fn txn(src: u64, micros: u64) -> TxnId {
    TxnId::new(src, ts(micros))
}

fn make_sm(node_id: u64) -> AccordStateMachine<MemorySyncWriter, NoopStorageApplier, NoReader> {
    AccordStateMachine::new(node_id, MemorySyncWriter::new())
}

/// Keeps every mutation that reaches the storage seam, and refuses them while told to.
struct CapturingApplier {
    captured: Vec<(TxnId, ApplyMutation)>,
    refusing: bool,
}

impl CapturingApplier {
    fn new() -> Self {
        Self { captured: Vec::new(), refusing: false }
    }
}

impl StorageApplier for CapturingApplier {
    fn apply(&mut self, txn_id: TxnId, mutation: ApplyMutation) -> Result<(), ApplyError> {
        if self.refusing {
            return Err(ApplyError);
        }
        self.captured.push((txn_id, mutation));
        Ok(())
    }
}

/// PreAccept on new txn sets phase to PreAccepted.
#[test]
fn sm_preaccept_sets_pre_accepted() {
    let mut sm = make_sm(1);
    let txn_id = txn(1, 1000);
    let t0 = ts(1000);

    let resp = sm.handle_preaccept(txn_id, t0, b"key1", BallotNumber(0), 0);
    assert!(matches!(resp, SmResponse::PreAcceptOK { .. }));

    let state = sm.get_state(&txn_id).expect("state must exist");
    assert_eq!(state.phase, TxnPhase::PreAccepted);
}

/// Accept after PreAccept moves to Accepted.
#[test]
fn sm_accept_clears_preaccept() {
    let mut sm = make_sm(1);
    let txn_id = txn(1, 1000);
    let t0 = ts(1000);

    sm.handle_preaccept(txn_id, t0, b"key1", BallotNumber(0), 0);

    let resp = sm.handle_accept(txn_id, t0, ts(1001), vec![], BallotNumber(1));
    assert!(matches!(resp, SmResponse::AcceptOK { .. }));

    let state = sm.get_state(&txn_id).unwrap();
    assert_eq!(state.phase, TxnPhase::Accepted);
}

/// Commit after Accept moves to Committed.
#[test]
fn sm_commit_clears_accepted() {
    let mut sm = make_sm(1);
    let txn_id = txn(1, 1000);
    let t0 = ts(1000);

    sm.handle_preaccept(txn_id, t0, b"key1", BallotNumber(0), 0);
    sm.handle_accept(txn_id, t0, ts(1001), vec![], BallotNumber(1));
    sm.handle_commit(txn_id, t0, ts(1001), vec![]);

    let state = sm.get_state(&txn_id).unwrap();
    assert_eq!(state.phase, TxnPhase::Committed);
}

/// Apply after Committed moves to Applied.
#[test]
fn sm_apply_clears_committed() {
    let mut sm = make_sm(1);
    let txn_id = txn(1, 1000);
    let t0 = ts(1000);

    sm.handle_preaccept(txn_id, t0, b"key1", BallotNumber(0), 0);
    sm.handle_accept(txn_id, t0, ts(1001), vec![], BallotNumber(1));
    sm.handle_commit(txn_id, t0, ts(1001), vec![]);
    sm.handle_apply(txn_id, vec![42]);

    let state = sm.get_state(&txn_id).unwrap();
    assert_eq!(state.phase, TxnPhase::Applied);
}

/// Duplicate PreAccept returns same response.
#[test]
fn sm_idempotent_preaccept() {
    let mut sm = make_sm(1);
    let txn_id = txn(1, 1000);
    let t0 = ts(1000);

    let resp1 = sm.handle_preaccept(txn_id, t0, b"key1", BallotNumber(0), 0);
    let resp2 = sm.handle_preaccept(txn_id, t0, b"key1", BallotNumber(0), 0);

    // Both should be PreAcceptOK with identical t and deps.
    match (&resp1, &resp2) {
        (
            SmResponse::PreAcceptOK {
                t: t1, deps: d1, ..
            },
            SmResponse::PreAcceptOK {
                t: t2, deps: d2, ..
            },
        ) => {
            assert_eq!(t1, t2, "idempotent PreAccept must return same t");
            assert_eq!(d1, d2, "idempotent PreAccept must return same deps");
        }
        _ => panic!("expected two PreAcceptOK responses"),
    }
}

/// Duplicate Commit is no-op.
#[test]
fn sm_idempotent_commit() {
    let mut sm = make_sm(1);
    let txn_id = txn(1, 1000);
    let t0 = ts(1000);

    sm.handle_preaccept(txn_id, t0, b"key1", BallotNumber(0), 0);
    sm.handle_accept(txn_id, t0, ts(1001), vec![], BallotNumber(1));

    // First commit.
    sm.handle_commit(txn_id, t0, ts(1001), vec![]);
    let state1 = sm.get_state(&txn_id).unwrap().copied();
    let calls_after_first = sm.sync_writer().calls().len();

    // Second commit (duplicate).
    sm.handle_commit(txn_id, t0, ts(1001), vec![]);
    let state2 = sm.get_state(&txn_id).unwrap();

    // State should not have changed.
    assert_eq!(state1.phase, state2.phase);
    assert_eq!(state1.t, state2.t);

    // No additional persist calls for the duplicate.
    assert_eq!(
        sm.sync_writer().calls().len(),
        calls_after_first,
        "duplicate commit should not persist again"
    );
}

/// PreAccept rejected if already Accepted.
#[test]
fn sm_reject_preaccept_after_accept() {
    let mut sm = make_sm(1);
    let txn_id = txn(1, 1000);
    let t0 = ts(1000);

    sm.handle_preaccept(txn_id, t0, b"key1", BallotNumber(0), 0);
    sm.handle_accept(txn_id, t0, ts(1001), vec![], BallotNumber(1));

    // PreAccept after Accept should be rejected.
    let resp = sm.handle_preaccept(txn_id, t0, b"key1", BallotNumber(0), 0);
    assert!(
        matches!(resp, SmResponse::Nack { .. }),
        "PreAccept after Accept must be NACKed"
    );
}

/// Accept with lower ballot rejected.
#[test]
fn sm_reject_accept_lower_ballot() {
    let mut sm = make_sm(1);
    let txn_id = txn(1, 1000);
    let t0 = ts(1000);

    // Accept at ballot 5.
    sm.handle_accept(txn_id, t0, ts(1001), vec![], BallotNumber(5));

    // Accept at ballot 3 (lower) should be NACKed.
    let resp = sm.handle_accept(txn_id, t0, ts(1002), vec![], BallotNumber(3));
    assert!(
        matches!(resp, SmResponse::Nack { .. }),
        "Accept with lower ballot must be NACKed"
    );
}


/// Initial PreAccept uses ballot 0.
#[test]
fn sm_preaccept_ballot_zero() {
    let mut sm = make_sm(1);
    let txn_id = txn(1, 1000);
    let t0 = ts(1000);

    sm.handle_preaccept(txn_id, t0, b"key1", BallotNumber(0), 0);
    let state = sm.get_state(&txn_id).unwrap();

    assert_eq!(
        state.max_ballot_seen,
        PromisedBallot::default(),
        "initial PreAccept should have ballot 0"
    );
    assert_eq!(
        state.accepted_ballot,
        AcceptedBallot::default(),
        "initial PreAccept accepted_ballot should be 0"
    );
}

/// Recover updates promised ballot, NOT accepted.
#[test]
fn sm_recover_updates_promised_only() {
    let mut sm = make_sm(1);
    let txn_id = txn(1, 1000);
    let t0 = ts(1000);

    // PreAccept first.
    sm.handle_preaccept(txn_id, t0, b"key1", BallotNumber(0), 0);

    // Recover with ballot 5.
    let result = sm.handle_recover(txn_id, t0, BallotNumber(5));
    assert!(result.is_some());

    let state = sm.get_state(&txn_id).unwrap();
    assert_eq!(
        state.max_ballot_seen,
        PromisedBallot(BallotNumber(5)),
        "Recover should update promised ballot"
    );
    assert_eq!(
        state.accepted_ballot,
        AcceptedBallot::default(),
        "Recover must NOT update accepted ballot"
    );
}

/// Accept sets accepted_ballot.
#[test]
fn sm_accept_updates_accepted_ballot() {
    let mut sm = make_sm(1);
    let txn_id = txn(1, 1000);
    let t0 = ts(1000);

    sm.handle_accept(txn_id, t0, ts(1001), vec![], BallotNumber(3));
    let state = sm.get_state(&txn_id).unwrap();

    assert_eq!(
        state.accepted_ballot,
        AcceptedBallot(BallotNumber(3)),
        "Accept must set accepted_ballot"
    );
    assert!(
        (state.max_ballot_seen.0).0 >= 3,
        "max_ballot_seen must be >= accepted_ballot"
    );
}

/// Recovery after accept preserves accepted_ballot.
#[test]
fn sm_recover_after_accept_preserves_accepted() {
    let mut sm = make_sm(1);
    let txn_id = txn(1, 1000);
    let t0 = ts(1000);

    // Accept at ballot 3.
    sm.handle_accept(txn_id, t0, ts(1001), vec![], BallotNumber(3));

    // Recover at ballot 7.
    sm.handle_recover(txn_id, t0, BallotNumber(7));

    let state = sm.get_state(&txn_id).unwrap();
    assert_eq!(
        state.accepted_ballot,
        AcceptedBallot(BallotNumber(3)),
        "Recover must NOT change accepted_ballot"
    );
    assert_eq!(
        state.max_ballot_seen,
        PromisedBallot(BallotNumber(7)),
        "Recover must update promised ballot"
    );
}

/// Recovery picks by accepted_ballot (not max_ballot_seen).
#[test]
fn sm_recovery_selection_uses_accepted_ballot() {
    // This test verifies the returned state has the correct
    // accepted_ballot for the RecoveryCoordinator to use.
    let mut sm = make_sm(1);
    let txn_id = txn(1, 1000);
    let t0 = ts(1000);

    // Accept at ballot 3.
    sm.handle_accept(txn_id, t0, ts(1001), vec![], BallotNumber(3));

    // Recover at ballot 10 — promised goes to 10 but accepted stays 3.
    let recovered_state = sm.handle_recover(txn_id, t0, BallotNumber(10)).unwrap();

    assert_eq!(
        recovered_state.accepted_ballot,
        AcceptedBallot(BallotNumber(3)),
        "recovered state must have accepted_ballot=3"
    );
    assert_eq!(
        recovered_state.max_ballot_seen,
        PromisedBallot(BallotNumber(10)),
        "recovered state must have promised=10"
    );
}

/// NACK response includes current promised ballot.
#[test]
fn sm_nack_carries_promised_ballot() {
    let mut sm = make_sm(1);
    let txn_id = txn(1, 1000);
    let t0 = ts(1000);

    // Accept at ballot 10.
    sm.handle_accept(txn_id, t0, ts(1001), vec![], BallotNumber(10));

    // Accept at lower ballot 3 — should NACK.
    let resp = sm.handle_accept(txn_id, t0, ts(1002), vec![], BallotNumber(3));
    match resp {
        SmResponse::Nack { promised, .. } => {
            assert_eq!(
                promised,
                PromisedBallot(BallotNumber(10)),
                "NACK must carry the current promised ballot"
            );
        }
        other => panic!("expected Nack, got {:?}", other),
    }
}

/// Higher ballot preempts lower in-progress.
#[test]
fn sm_higher_ballot_preempts_lower() {
    let mut sm = make_sm(1);
    let txn_id = txn(1, 1000);
    let t0 = ts(1000);

    // Accept at ballot 3.
    sm.handle_accept(txn_id, t0, ts(1001), vec![], BallotNumber(3));

    // Accept at ballot 7 (higher) should succeed.
    let resp = sm.handle_accept(txn_id, t0, ts(1002), vec![], BallotNumber(7));
    assert!(
        matches!(resp, SmResponse::AcceptOK { ballot, .. } if ballot == BallotNumber(7)),
        "higher ballot must succeed"
    );

    let state = sm.get_state(&txn_id).unwrap();
    assert_eq!(state.accepted_ballot, AcceptedBallot(BallotNumber(7)));
}


/// PreAccept deps come from ConflictIndex lookup.
#[test]
fn sm_preaccept_deps_from_conflict_index() {
    let mut sm = make_sm(1);
    let key = b"shared_key";

    // Register a pre-existing txn in the conflict index.
    let existing_txn = txn(2, 500);
    let entry = InFlightWrite {
        txn_id: existing_txn,
        t0: ts(500),
        accord_ts: None,
        status: TxnStatus::PreAccepted,
    };
    let _ = sm.conflict_index_mut().register(key, entry);

    // PreAccept a new txn on the same key with t0=1000 (> 500).
    let new_txn = txn(1, 1000);
    let resp = sm.handle_preaccept(new_txn, ts(1000), key, BallotNumber(0), 0);

    match resp {
        SmResponse::PreAcceptOK { deps, .. } => {
            assert!(
                deps.contains(&existing_txn),
                "deps must include the conflicting txn from ConflictIndex"
            );
        }
        other => panic!("expected PreAcceptOK, got {:?}", other),
    }
}

/// PreAccept uses t0 for dep filter (not t).
#[test]
fn sm_preaccept_deps_use_t0_not_t() {
    let mut sm = make_sm(1);
    let key = b"shared_key";

    // Register txn with t0=800.
    let txn_800 = txn(2, 800);
    let entry = InFlightWrite {
        txn_id: txn_800,
        t0: ts(800),
        accord_ts: None,
        status: TxnStatus::PreAccepted,
    };
    let _ = sm.conflict_index_mut().register(key, entry);

    // Register txn with t0=1200.
    let txn_1200 = txn(3, 1200);
    let entry = InFlightWrite {
        txn_id: txn_1200,
        t0: ts(1200),
        accord_ts: None,
        status: TxnStatus::PreAccepted,
    };
    let _ = sm.conflict_index_mut().register(key, entry);

    // PreAccept with t0=1000. deps_before_t0 should include 800 but not 1200.
    let new_txn = txn(1, 1000);
    let resp = sm.handle_preaccept(new_txn, ts(1000), key, BallotNumber(0), 0);

    match resp {
        SmResponse::PreAcceptOK { deps, .. } => {
            assert!(deps.contains(&txn_800), "should include t0=800 < t0=1000");
            assert!(
                !deps.contains(&txn_1200),
                "should NOT include t0=1200 > t0=1000"
            );
        }
        other => panic!("expected PreAcceptOK, got {:?}", other),
    }
}

/// Accept uses t (final timestamp) for dep filter, not t0.
#[test]
fn sm_accept_deps_use_t_not_t0() {
    // Accept handler receives deps from the coordinator (already computed).
    // This test verifies the deps are stored as provided, and that the
    // Accept handler correctly uses the provided deps (which were computed
    // using t, not t0, by the coordinator).
    let mut sm = make_sm(1);
    let txn_id = txn(1, 1000);
    let t0 = ts(1000);
    let t = ts(2000); // final timestamp is different from t0

    // Deps computed by coordinator using t (not t0).
    let dep = txn(2, 1500);
    let resp = sm.handle_accept(txn_id, t0, t, vec![dep], BallotNumber(1));

    match resp {
        SmResponse::AcceptOK { deps, .. } => {
            assert!(deps.contains(&dep), "Accept must store provided deps");
        }
        other => panic!("expected AcceptOK, got {:?}", other),
    }

    let state = sm.get_state(&txn_id).unwrap();
    assert!(
        state.deps.contains(&dep),
        "stored state must contain the dep"
    );
    assert_eq!(state.t, t, "stored t must be the accept timestamp");
}

/// Deps union across quorum responses.
#[test]
fn sm_deps_union_across_quorum() {
    // Simulate two replicas returning different dep sets.
    // The coordinator (not the SM) computes the union. Here we verify
    // that the SM stores whatever deps are passed to Accept.
    let mut sm = make_sm(1);
    let txn_id = txn(1, 1000);
    let t0 = ts(1000);

    let dep_a = txn(2, 500);
    let dep_b = txn(3, 600);

    // Union of deps from two replicas: {dep_a, dep_b}.
    let union_deps = vec![dep_a, dep_b];
    sm.handle_accept(txn_id, t0, ts(1001), union_deps, BallotNumber(1));

    let state = sm.get_state(&txn_id).unwrap();
    assert!(state.deps.contains(&dep_a));
    assert!(state.deps.contains(&dep_b));
    assert_eq!(state.deps.len(), 2);
}

/// Extra deps are safe (conservative).
#[test]
fn sm_deps_superset_is_safe() {
    let mut sm = make_sm(1);
    let txn_id = txn(1, 1000);
    let t0 = ts(1000);

    // Include an extra dep that doesn't actually conflict.
    let real_dep = txn(2, 500);
    let extra_dep = txn(3, 999);
    let deps = vec![real_dep, extra_dep];

    sm.handle_accept(txn_id, t0, ts(1001), deps, BallotNumber(1));

    let state = sm.get_state(&txn_id).unwrap();
    // Both deps stored — extra deps are safe (conservative ordering).
    assert!(state.deps.contains(&real_dep));
    assert!(state.deps.contains(&extra_dep));
    assert_eq!(state.deps.len(), 2);
}

/// Missing deps are unsafe — smaller dep set is strictly wrong.
#[test]
fn sm_deps_missing_is_unsafe() {
    // This documents the invariant: the coordinator must use the union.
    // If a dep is missing, the SM stores what it's given. The test shows
    // that a smaller set does not include the missing dep.
    let mut sm = make_sm(1);
    let txn_id = txn(1, 1000);
    let t0 = ts(1000);

    let dep_a = txn(2, 500);
    let _dep_b = txn(3, 600); // intentionally omitted

    sm.handle_accept(txn_id, t0, ts(1001), vec![dep_a], BallotNumber(1));

    let state = sm.get_state(&txn_id).unwrap();
    assert!(state.deps.contains(&dep_a));
    assert_eq!(
        state.deps.len(),
        1,
        "missing dep_b means only 1 dep stored — this is unsafe"
    );
}


/// PreAccept persists to protocol log before replying.
#[test]
fn sm_preaccept_persists_before_reply() {
    let mut sm = make_sm(1);
    let txn_id = txn(1, 1000);
    let t0 = ts(1000);

    let resp = sm.handle_preaccept(txn_id, t0, b"key1", BallotNumber(0), 0);
    assert!(matches!(resp, SmResponse::PreAcceptOK { .. }));

    let calls = sm.sync_writer().calls();
    assert!(calls.len() >= 2, "must have at least Write + Fsync");
    assert_eq!(calls[0], SyncWriteCall::Write, "first call must be Write");
    assert_eq!(calls[1], SyncWriteCall::Fsync, "second call must be Fsync");
}

/// Accept persists before replying.
#[test]
fn sm_accept_persists_before_reply() {
    let mut sm = make_sm(1);
    let txn_id = txn(1, 1000);
    let t0 = ts(1000);

    let resp = sm.handle_accept(txn_id, t0, ts(1001), vec![], BallotNumber(1));
    assert!(matches!(resp, SmResponse::AcceptOK { .. }));

    let calls = sm.sync_writer().calls();
    assert!(calls.len() >= 2, "must have at least Write + Fsync");
    assert_eq!(calls[0], SyncWriteCall::Write);
    assert_eq!(calls[1], SyncWriteCall::Fsync);
}

/// Apply persists to main log before setting applied flag.
#[test]
fn sm_apply_persists_before_flag() {
    let mut sm = make_sm(1);
    let txn_id = txn(1, 1000);
    let t0 = ts(1000);

    // Set up a committed transaction.
    sm.handle_preaccept(txn_id, t0, b"key1", BallotNumber(0), 0);
    sm.handle_accept(txn_id, t0, ts(1001), vec![], BallotNumber(1));
    sm.handle_commit(txn_id, t0, ts(1001), vec![]);

    // Look at the calls of the apply alone.
    let before = sm.sync_writer().calls().len();

    sm.handle_apply(txn_id, vec![42]);

    let calls = &sm.sync_writer().calls()[before..];
    assert!(calls.len() >= 2, "apply must Write + Fsync");
    assert_eq!(calls[0], SyncWriteCall::Write);
    assert_eq!(calls[1], SyncWriteCall::Fsync);

    // Applied flag must be set AFTER fsync.
    let state = sm.get_state(&txn_id).unwrap();
    assert_eq!(state.phase, TxnPhase::Applied);
}

/// Crash after persist but before flag = safe (replay recovers).
#[test]
fn sm_crash_between_persist_and_flag() {
    let mut sm = make_sm(1);
    let txn_id = txn(1, 1000);
    let t0 = ts(1000);

    // Set up committed state.
    sm.handle_preaccept(txn_id, t0, b"key1", BallotNumber(0), 0);
    sm.handle_accept(txn_id, t0, ts(1001), vec![], BallotNumber(1));
    sm.handle_commit(txn_id, t0, ts(1001), vec![]);

    // Simulate crash: fsync succeeds for persist but we "crash" before
    // setting the applied flag by making fsync fail on the apply call.
    sm.sync_writer_mut().set_fsync_failure(true);

    sm.handle_apply(txn_id, vec![42]);

    // Applied flag must NOT be set because fsync "failed" (simulated crash).
    let state = sm.get_state(&txn_id).unwrap();
    assert_eq!(
        state.phase,
        TxnPhase::Committed,
        "phase must still be Committed when fsync fails during apply"
    );

    // On recovery: re-enable fsync and retry apply.
    sm.sync_writer_mut().set_fsync_failure(false);
    sm.handle_apply(txn_id, vec![42]);

    let state = sm.get_state(&txn_id).unwrap();
    assert_eq!(
        state.phase,
        TxnPhase::Applied,
        "replay after crash must successfully apply"
    );
}

/// Applying hands the mutation to the storage applier.
#[test]
fn sm_apply_invokes_storage_applier_with_mutation() {
    let mut sm = AccordStateMachine::with_applier(
        1,
        MemorySyncWriter::new(),
        CapturingApplier::new(),
    );

    let txn_id = txn(1, 1000);
    let t0 = ts(1000);
    let t = ts(1001);
    let mutation_bytes = b"real-row-mutation".to_vec();

    sm.handle_preaccept(txn_id, t0, b"key1", BallotNumber(0), 0);
    sm.handle_accept(txn_id, t0, t, vec![], BallotNumber(1));
    sm.handle_commit(txn_id, t0, t, vec![]);
    sm.handle_apply(txn_id, mutation_bytes.clone());

    let captured = &sm.applier().captured;
    assert_eq!(
        captured.len(),
        1,
        "handle_apply must invoke the StorageApplier exactly once"
    );
    let (got_txn, got) = &captured[0];
    assert_eq!(*got_txn, txn_id, "applier must receive the txn id");
    assert_eq!(
        got.data, mutation_bytes,
        "applier must receive the mutation bytes (no phantom write)"
    );
    assert_eq!(
        got.t, t,
        "applier must receive the agreed execution timestamp"
    );
}

/// A commit that is not durable is not visible: neither the phase nor the
/// committed set changes, and no waiter is woken.
#[test]
fn sm_crash_during_commit_fsync_does_not_advance() {
    let mut sm = make_sm(1);
    let txn_id = txn(1, 1000);
    let t0 = ts(1000);

    // Advance to Accepted (ready to commit).
    sm.handle_preaccept(txn_id, t0, b"key1", BallotNumber(0), 0);
    sm.handle_accept(txn_id, t0, ts(1001), vec![], BallotNumber(1));

    // A dependency waiter parked on this txn must NOT be woken by a
    // non-durable commit.
    sm.register_dep_waiter(txn_id, txn(2, 2000));

    // Inject disk failure for the commit's durable write.
    sm.sync_writer_mut().set_fsync_failure(true);
    sm.handle_commit(txn_id, t0, ts(1001), vec![]);

    // Commit must NOT have advanced: not durable => not observable.
    let state = sm.get_state(&txn_id).unwrap();
    assert_ne!(
        state.phase,
        TxnPhase::Committed,
        "fsync failed during commit: phase must NOT be Committed (non-durable)"
    );
    assert_eq!(
        sm.committed_count(),
        0,
        "fsync failed during commit: committed set must be empty"
    );
    assert!(
        sm.last_notified_waiters().is_empty(),
        "fsync failed during commit: dependency waiters must NOT be woken"
    );

    // On recovery: re-enable fsync and retry commit.
    sm.sync_writer_mut().set_fsync_failure(false);
    sm.handle_commit(txn_id, t0, ts(1001), vec![]);

    let state = sm.get_state(&txn_id).unwrap();
    assert_eq!(
        state.phase,
        TxnPhase::Committed,
        "retry after disk heal must commit"
    );
    assert_eq!(
        sm.committed_count(),
        1,
        "healed commit must be in committed set"
    );
    assert_eq!(
        sm.last_notified_waiters(),
        &[txn(2, 2000)][..],
        "healed commit must wake the parked dependency waiter"
    );
}


/// No conflict: t unchanged, deps from local ConflictIndex.
#[test]
fn preaccept_no_conflict_fast_path() {
    let mut sm = make_sm(1);
    let txn_id = txn(1, 1000);
    let t0 = ts(1000);

    let resp = sm.handle_preaccept(txn_id, t0, b"unique_key", BallotNumber(0), 0);

    match resp {
        SmResponse::PreAcceptOK { t, deps, .. } => {
            assert_eq!(t, t0, "no conflict: t must equal t0");
            assert!(deps.is_empty(), "no conflict: deps must be empty");
        }
        other => panic!("expected PreAcceptOK, got {:?}", other),
    }
}

/// Conflict: t bumped past conflicting t0.
#[test]
fn preaccept_conflict_bumps_timestamp() {
    let mut sm = make_sm(1);
    let key = b"contested_key";

    // Register existing txn with t0=1500 on the same key.
    let existing = txn(2, 1500);
    let entry = InFlightWrite {
        txn_id: existing,
        t0: ts(1500),
        accord_ts: None,
        status: TxnStatus::PreAccepted,
    };
    let _ = sm.conflict_index_mut().register(key, entry);

    // PreAccept new txn with t0=1000 (lower than existing t0=1500).
    let new_txn = txn(1, 1000);
    let resp = sm.handle_preaccept(new_txn, ts(1000), key, BallotNumber(0), 0);

    match resp {
        SmResponse::PreAcceptOK { t, .. } => {
            assert!(
                t > ts(1500),
                "t must be bumped past conflicting t0=1500, got {:?}",
                t
            );
        }
        other => panic!("expected PreAcceptOK, got {:?}", other),
    }
}

/// New txn registered in ConflictIndex after PreAccept.
#[test]
fn preaccept_registers_in_conflict_index() {
    let mut sm = make_sm(1);
    let key = b"new_key";
    let txn_id = txn(1, 1000);
    let t0 = ts(1000);

    assert!(
        sm.conflict_index().is_empty(),
        "conflict index should start empty"
    );

    sm.handle_preaccept(txn_id, t0, key, BallotNumber(0), 0);

    assert!(
        !sm.conflict_index().is_empty(),
        "txn must be registered in conflict index after PreAccept"
    );
    assert!(
        sm.conflict_index().max_conflicting_timestamp(key).is_some(),
        "key must be findable in conflict index"
    );
}

/// Higher promised ballot NACKs PreAccept.
#[test]
fn preaccept_nack_if_higher_ballot_seen() {
    let mut sm = make_sm(1);
    let txn_id = txn(1, 1000);
    let t0 = ts(1000);

    // Accept at ballot 5 (sets max_ballot_seen >= 5).
    sm.handle_accept(txn_id, t0, ts(1001), vec![], BallotNumber(5));

    // PreAccept at ballot 0 should be NACKed.
    let resp = sm.handle_preaccept(txn_id, t0, b"key1", BallotNumber(0), 0);
    assert!(
        matches!(resp, SmResponse::Nack { .. }),
        "PreAccept with lower ballot must be NACKed"
    );
}

/// Exact same PreAccept returns cached response.
#[test]
fn preaccept_idempotent_on_duplicate() {
    let mut sm = make_sm(1);
    let txn_id = txn(1, 1000);
    let t0 = ts(1000);

    let resp1 = sm.handle_preaccept(txn_id, t0, b"key1", BallotNumber(0), 0);
    let calls_after_first = sm.sync_writer().calls().len();

    let resp2 = sm.handle_preaccept(txn_id, t0, b"key1", BallotNumber(0), 0);

    match (&resp1, &resp2) {
        (
            SmResponse::PreAcceptOK {
                t: t1, deps: d1, ..
            },
            SmResponse::PreAcceptOK {
                t: t2, deps: d2, ..
            },
        ) => {
            assert_eq!(t1, t2);
            assert_eq!(d1, d2);
        }
        _ => panic!("both responses must be PreAcceptOK"),
    }

    // Idempotent call should not trigger additional persist.
    // (The cached path returns early before persisting.)
    let calls_after_second = sm.sync_writer().calls().len();
    assert_eq!(
        calls_after_first, calls_after_second,
        "idempotent PreAccept must not re-persist"
    );
}

/// Different epoch triggers slow path (bumped timestamp).
#[test]
fn preaccept_epoch_mismatch() {
    let mut sm = make_sm(1);
    let key = b"epoch_key";

    // Register existing txn with epoch=0.
    let existing = txn(2, 500);
    let entry = InFlightWrite {
        txn_id: existing,
        t0: ts(500),
        accord_ts: None,
        status: TxnStatus::PreAccepted,
    };
    let _ = sm.conflict_index_mut().register(key, entry);

    // PreAccept with epoch=1 (mismatch from epoch=0 on existing txns).
    // The epoch mismatch means the coordinator's proposed t0 may be
    // from a different configuration — this triggers conflict detection.
    let new_txn = txn(1, 1000);
    let mut t0 = ts(1000);
    t0.epoch = 1; // Different epoch

    let resp = sm.handle_preaccept(new_txn, t0, key, BallotNumber(0), 1);

    // Should still get a valid response (PreAcceptOK).
    assert!(
        matches!(resp, SmResponse::PreAcceptOK { .. }),
        "epoch mismatch should still produce PreAcceptOK"
    );
}


/// Normal Accept sets accepted_ballot and deps.
#[test]
fn accept_normal() {
    let mut sm = make_sm(1);
    let txn_id = txn(1, 1000);
    let t0 = ts(1000);
    let t = ts(1001);
    let dep = txn(2, 500);

    let resp = sm.handle_accept(txn_id, t0, t, vec![dep], BallotNumber(1));

    match resp {
        SmResponse::AcceptOK { ballot, deps, .. } => {
            assert_eq!(ballot, BallotNumber(1));
            assert!(deps.contains(&dep));
        }
        other => panic!("expected AcceptOK, got {:?}", other),
    }

    let state = sm.get_state(&txn_id).unwrap();
    assert_eq!(state.phase, TxnPhase::Accepted);
    assert_eq!(state.accepted_ballot, AcceptedBallot(BallotNumber(1)));
    assert_eq!(state.t, t);
}

/// Lower ballot Accept NACKed.
#[test]
fn accept_nack_lower_ballot() {
    let mut sm = make_sm(1);
    let txn_id = txn(1, 1000);
    let t0 = ts(1000);

    // First accept at ballot 5.
    sm.handle_accept(txn_id, t0, ts(1001), vec![], BallotNumber(5));

    // Lower ballot (3) should be NACKed.
    let resp = sm.handle_accept(txn_id, t0, ts(1002), vec![], BallotNumber(3));
    assert!(matches!(resp, SmResponse::Nack { .. }));
}

/// Accept after PreAccept works.
#[test]
fn accept_after_preaccept() {
    let mut sm = make_sm(1);
    let txn_id = txn(1, 1000);
    let t0 = ts(1000);

    sm.handle_preaccept(txn_id, t0, b"key1", BallotNumber(0), 0);
    assert_eq!(sm.get_state(&txn_id).unwrap().phase, TxnPhase::PreAccepted);

    let resp = sm.handle_accept(txn_id, t0, ts(1001), vec![], BallotNumber(1));
    assert!(matches!(resp, SmResponse::AcceptOK { .. }));
    assert_eq!(sm.get_state(&txn_id).unwrap().phase, TxnPhase::Accepted);
}

/// Accept without PreAccept (recovery path) works.
#[test]
fn accept_skipped_preaccept() {
    let mut sm = make_sm(1);
    let txn_id = txn(1, 1000);
    let t0 = ts(1000);

    // Accept directly without PreAccept — this happens in recovery.
    let resp = sm.handle_accept(txn_id, t0, ts(1001), vec![], BallotNumber(1));
    assert!(matches!(resp, SmResponse::AcceptOK { .. }));

    let state = sm.get_state(&txn_id).unwrap();
    assert_eq!(state.phase, TxnPhase::Accepted);
}

/// Accept after Commit is no-op (returns AcceptOK with committed state).
#[test]
fn accept_after_commit() {
    let mut sm = make_sm(1);
    let txn_id = txn(1, 1000);
    let t0 = ts(1000);

    sm.handle_preaccept(txn_id, t0, b"key1", BallotNumber(0), 0);
    sm.handle_accept(txn_id, t0, ts(1001), vec![], BallotNumber(1));
    sm.handle_commit(txn_id, t0, ts(1001), vec![]);

    // Accept after commit should be a no-op.
    let resp = sm.handle_accept(txn_id, t0, ts(1002), vec![], BallotNumber(2));
    match resp {
        SmResponse::AcceptOK { .. } => {
            // Correct: no-op returns AcceptOK with committed state.
        }
        other => panic!("expected AcceptOK (no-op), got {:?}", other),
    }

    // Phase must still be Committed (not regressed).
    assert_eq!(sm.get_state(&txn_id).unwrap().phase, TxnPhase::Committed);
}


/// Commit locks the final timestamp.
#[test]
fn commit_sets_final_timestamp() {
    let mut sm = make_sm(1);
    let txn_id = txn(1, 1000);
    let t0 = ts(1000);
    let t_final = ts(2000);

    sm.handle_preaccept(txn_id, t0, b"key1", BallotNumber(0), 0);
    sm.handle_accept(txn_id, t0, ts(1500), vec![], BallotNumber(1));
    sm.handle_commit(txn_id, t0, t_final, vec![]);

    let state = sm.get_state(&txn_id).unwrap();
    assert_eq!(state.t, t_final, "commit must lock the final timestamp");
    assert_eq!(state.phase, TxnPhase::Committed);
}

/// Duplicate Commit is idempotent.
#[test]
fn commit_idempotent() {
    let mut sm = make_sm(1);
    let txn_id = txn(1, 1000);
    let t0 = ts(1000);

    sm.handle_preaccept(txn_id, t0, b"key1", BallotNumber(0), 0);
    sm.handle_accept(txn_id, t0, ts(1001), vec![], BallotNumber(1));

    sm.handle_commit(txn_id, t0, ts(1001), vec![]);
    let calls_after_first = sm.sync_writer().calls().len();

    sm.handle_commit(txn_id, t0, ts(1001), vec![]);
    let calls_after_second = sm.sync_writer().calls().len();

    assert_eq!(
        calls_after_first, calls_after_second,
        "duplicate commit must not re-persist"
    );

    assert_eq!(sm.get_state(&txn_id).unwrap().phase, TxnPhase::Committed);
}

/// Commit wakes transactions waiting on deps.
#[test]
fn commit_wakes_dep_waiters() {
    let mut sm = make_sm(1);
    let dep_txn = txn(1, 1000);
    let waiter_txn = txn(2, 2000);
    let t0 = ts(1000);

    // Set up the dependency transaction.
    sm.handle_preaccept(dep_txn, t0, b"key1", BallotNumber(0), 0);
    sm.handle_accept(dep_txn, t0, ts(1001), vec![], BallotNumber(1));

    // Register a waiter.
    sm.register_dep_waiter(dep_txn, waiter_txn);

    // Commit the dependency.
    sm.handle_commit(dep_txn, t0, ts(1001), vec![]);

    let notified = sm.last_notified_waiters();
    assert_eq!(notified.len(), 1);
    assert_eq!(
        notified[0], waiter_txn,
        "commit must wake waiting transactions"
    );
}

#[test]
fn prune_applied_removes_completed_transactions() {
    let mut sm = make_sm(1);
    let tid = txn(1, 100);
    let t0 = ts(100);

    // Drive through full lifecycle: PreAccept -> Accept -> Commit -> Apply
    sm.handle_preaccept(tid, t0, b"key", BallotNumber(0), 0);
    sm.handle_accept(tid, t0, ts(101), vec![], BallotNumber(0));
    sm.handle_commit(tid, t0, ts(101), vec![]);
    sm.handle_apply(tid, b"result".to_vec());

    assert_eq!(sm.txn_count(), 1, "transaction should be tracked");
    assert_eq!(sm.committed_count(), 1, "committed set should have entry");

    let pruned = sm.prune_applied();
    assert!(pruned > 0, "should prune at least one entry");
    assert_eq!(sm.txn_count(), 0, "txn_states should be empty after prune");
    assert_eq!(
        sm.committed_count(),
        0,
        "committed_txns should be empty after prune"
    );
}

#[test]
fn prune_applied_preserves_in_flight_transactions() {
    let mut sm = make_sm(1);
    let applied = txn(1, 100);
    let in_flight = txn(1, 200);
    let t0 = ts(100);

    // applied goes through full lifecycle.
    sm.handle_preaccept(applied, t0, b"k1", BallotNumber(0), 0);
    sm.handle_accept(applied, t0, ts(101), vec![], BallotNumber(0));
    sm.handle_commit(applied, t0, ts(101), vec![]);
    sm.handle_apply(applied, b"done".to_vec());

    // in_flight is only preaccepted (still in consensus).
    sm.handle_preaccept(in_flight, ts(200), b"k2", BallotNumber(0), 0);

    assert_eq!(sm.txn_count(), 2);

    sm.prune_applied();

    assert_eq!(
        sm.txn_count(),
        1,
        "only the applied transaction should be pruned"
    );
    assert!(
        sm.get_state(&in_flight).is_some(),
        "in-flight transaction must survive pruning"
    );
    assert!(
        sm.get_state(&applied).is_none(),
        "applied transaction must be pruned"
    );
}

/// Serves the rows that it was made with.
struct FixedReader {
    rows: Vec<(Vec<u8>, Vec<u8>)>,
    broken: bool,
}

impl StorageReader for FixedReader {
    fn read_row_at(
        &self,
        _keyspace: &str,
        _table: &str,
        key: &[u8],
        _t: Timestamp,
    ) -> Result<Option<Vec<u8>>, ReadError> {
        if self.broken {
            return Err(ReadError);
        }
        Ok(self.rows.iter().find(|(k, _)| k.as_slice() == key).map(|(_, v)| v.clone()))
    }
}

/// With storage behind it, an applied mutation is in storage, not only recorded.
#[test]
fn production_state_machine_persists_applied_lwt_to_engine() {
    let reader = FixedReader { rows: Vec::new(), broken: false };
    let mut sm = AccordStateMachine::with_applier_and_reader(
        7,
        MemorySyncWriter::new(),
        CapturingApplier::new(),
        reader,
    );
    let txn_id = txn(1, 1000);
    let t0 = ts(1000);
    let t = ts(1001);

    sm.handle_preaccept(txn_id, t0, b"pk-prod", BallotNumber(0), 0);
    sm.handle_accept(txn_id, t0, t, vec![], BallotNumber(1));
    sm.handle_commit(txn_id, t0, t, vec![]);
    sm.handle_apply(txn_id, b"durable".to_vec());

    assert_eq!(
        sm.get_state(&txn_id).map(|s| s.phase),
        Some(TxnPhase::Applied),
        "production apply must reach Applied (engine write succeeded)"
    );
    assert_eq!(sm.applier().captured.len(), 1);
    assert_eq!(sm.applier().captured[0].1.data, b"durable".to_vec());
}

/// If storage cannot persist, the transaction must not advance to Applied.
#[test]
fn production_apply_failure_does_not_fake_applied() {
    let mut sm = AccordStateMachine::with_applier(
        7,
        MemorySyncWriter::new(),
        CapturingApplier { captured: Vec::new(), refusing: true },
    );
    let txn_id = txn(2, 2000);
    let t0 = ts(2000);
    let t = ts(2001);

    sm.handle_preaccept(txn_id, t0, b"pk-missing-table", BallotNumber(0), 0);
    sm.handle_accept(txn_id, t0, t, vec![], BallotNumber(1));
    sm.handle_commit(txn_id, t0, t, vec![]);
    sm.handle_apply(txn_id, b"x".to_vec());

    assert_ne!(
        sm.get_state(&txn_id).map(|s| s.phase),
        Some(TxnPhase::Applied),
        "a failed engine apply must NOT mark the txn Applied (no fake ApplyOK)"
    );
    assert!(sm.applier().captured.is_empty());
}

/// Rows come from the reader; without one, or where it fails, there are none.
#[test]
fn rows_come_from_the_reader() {
    let with = |broken: bool| {
        AccordStateMachine::with_applier_and_reader(
            7,
            MemorySyncWriter::new(),
            CapturingApplier::new(),
            FixedReader { rows: vec![(b"k".to_vec(), b"row".to_vec())], broken },
        )
    };
    let sm = with(false);
    assert!(sm.has_reader());
    assert_eq!(sm.read_row_bytes_at("ks", "t", b"k", ts(1)), Some(b"row".to_vec()));
    assert_eq!(sm.read_row_bytes_at("ks", "t", b"other", ts(1)), None);
    assert_eq!(with(true).read_row_bytes_at("ks", "t", b"k", ts(1)), None);
    assert_eq!(make_sm(7).read_row_bytes_at("ks", "t", b"k", ts(1)), None);
}

/// Answers with what it was asked.
struct EchoReader;

impl StorageReader for EchoReader {
    fn read_row_at(
        &self,
        keyspace: &str,
        table: &str,
        key: &[u8],
        t: Timestamp,
    ) -> Result<Option<Vec<u8>>, ReadError> {
        Ok(Some(format!("{keyspace}/{table}/{key:?}/{t:?}").into_bytes()))
    }
}

/// The reader is asked for the very row that the caller wants, before and after
/// the state machine has handled a message.
#[test]
fn the_reader_is_asked_for_this_row() {
    let mut sm = AccordStateMachine::with_applier_and_reader(
        7,
        MemorySyncWriter::new(),
        CapturingApplier::new(),
        EchoReader,
    );
    let asked = format!("ks/t/{:?}/{:?}", b"k", ts(5)).into_bytes();
    assert_eq!(sm.read_row_bytes_at("ks", "t", b"k", ts(5)), Some(asked.clone()));
    sm.handle_preaccept(txn(1, 10), ts(10), b"k", BallotNumber(0), 0);
    assert_eq!(sm.read_row_bytes_at("ks", "t", b"k", ts(5)), Some(asked));
}

/// Of two transactions on a key the second depends on the first, or is ordered
/// past it.
#[test]
fn conflicting_proposals_are_ordered() {
    let mut sm = make_sm(1);
    sm.handle_preaccept(txn(1, 1000), ts(1000), b"k", BallotNumber(0), 0);
    match sm.handle_preaccept(txn(2, 2000), ts(2000), b"k", BallotNumber(0), 0) {
        SmResponse::PreAcceptOK { t, deps, .. } => {
            assert_eq!(t, ts(2000));
            assert_eq!(deps, vec![txn(1, 1000)]);
        }
        other => panic!("expected PreAcceptOK, got {:?}", other),
    }
    match sm.handle_preaccept(txn(3, 500), ts(500), b"k", BallotNumber(0), 0) {
        SmResponse::PreAcceptOK { t, deps, .. } => {
            assert!(t > ts(2000));
            assert!(deps.is_empty());
        }
        other => panic!("expected PreAcceptOK, got {:?}", other),
    }
}

/// A row is absent until a transaction on its key was applied, and stays present
/// after that transaction was forgotten.
#[test]
fn applied_rows_exist() {
    let mut sm = make_sm(1);
    assert!(sm.read_condition_holds_at(b"k", &ts(9000)));
    sm.handle_preaccept(txn(1, 1000), ts(1000), b"k", BallotNumber(0), 0);
    sm.handle_commit(txn(1, 1000), ts(1000), ts(1000), vec![]);
    assert!(sm.read_condition_holds_at(b"k", &ts(9000)), "committed is not applied");
    sm.handle_apply(txn(1, 1000), vec![1]);
    assert!(!sm.read_condition_holds_at(b"k", &ts(9000)));
    assert!(sm.read_condition_holds_at(b"other", &ts(9000)));
    assert!(!sm.read_condition_holds_at(b"k", &ts(1000)), "committed at this very time");
    assert!(sm.read_condition_holds_at(b"k", &ts(999)));
}

/// What counts is when a transaction commits, not when it was proposed.
#[test]
fn rows_exist_from_their_commit_on() {
    let mut sm = make_sm(1);
    let id = txn(1, 1000);
    sm.handle_preaccept(id, ts(1000), b"k", BallotNumber(0), 0);
    sm.handle_commit(id, ts(1000), ts(5000), vec![]);
    sm.handle_apply(id, vec![1]);
    assert!(sm.read_condition_holds_at(b"k", &ts(4999)), "proposed before, committed after");
    assert!(!sm.read_condition_holds_at(b"k", &ts(5000)));
    // A write whose transaction is not known has been applied and forgotten.
    let entry = InFlightWrite {
        txn_id: txn(2, 2000),
        t0: ts(2000),
        accord_ts: None,
        status: TxnStatus::PreAccepted,
    };
    sm.conflict_index_mut().register(b"gone", entry).expect("room");
    assert!(!sm.read_condition_holds_at(b"gone", &ts(2000)));
    assert!(sm.read_condition_holds_at(b"gone", &ts(1999)));
}

/// A full conflict index registers nothing more, and the protocol goes on.
#[test]
fn full_index_does_not_stop_the_protocol() {
    let mut sm = AccordStateMachine::with_capacity(1, MemorySyncWriter::new(), 1);
    sm.handle_preaccept(txn(1, 1000), ts(1000), b"a", BallotNumber(0), 0);
    let resp = sm.handle_preaccept(txn(1, 2000), ts(2000), b"b", BallotNumber(0), 0);
    assert!(matches!(resp, SmResponse::PreAcceptOK { .. }));
    assert_eq!(sm.conflict_index().max_conflicting_timestamp(b"a"), Some(ts(1000)));
    assert_eq!(sm.conflict_index().max_conflicting_timestamp(b"b"), None);
}

/// A PreAccept whose record is not durable leaves nothing behind, so that the same
/// message is logged, registered and answered once the log works again.
#[test]
fn preaccept_is_retried_from_scratch() {
    let mut sm = make_sm(1);
    let id = txn(1, 1000);
    sm.sync_writer_mut().set_fsync_failure(true);
    let silent = sm.handle_preaccept(id, ts(1000), b"k", BallotNumber(0), 0);
    assert!(matches!(silent, SmResponse::NoResponse));
    assert!(sm.get_state(&id).is_none());
    assert!(!sm.conflict_index().deps_before_t0(b"k", &ts(2000)).contains(&id));
    sm.sync_writer_mut().set_fsync_failure(false);
    let before = sm.sync_writer().calls().len();
    let reply = sm.handle_preaccept(id, ts(1000), b"k", BallotNumber(0), 0);
    assert!(matches!(reply, SmResponse::PreAcceptOK { .. }));
    assert_eq!(&sm.sync_writer().calls()[before..], &[SyncWriteCall::Write, SyncWriteCall::Fsync]);
    assert!(sm.conflict_index().deps_before_t0(b"k", &ts(2000)).contains(&id));
    sm.handle_preaccept(id, ts(1000), b"k", BallotNumber(0), 0);
    assert_eq!(sm.sync_writer().calls().len(), before + 2, "a repetition is not logged");
}

/// The first PreAccept of a transaction known from a recovery only is no
/// repetition: it sees the others on its key, and is logged.
#[test]
fn preaccept_after_recovery_is_taken_up() {
    let mut sm = make_sm(1);
    let first = txn(1, 1000);
    let second = txn(2, 2000);
    sm.handle_preaccept(first, ts(1000), b"k", BallotNumber(0), 0);
    assert!(sm.handle_recover(second, ts(2000), BallotNumber(3)).is_some());
    let before = sm.sync_writer().calls().len();
    match sm.handle_preaccept(second, ts(2000), b"k", BallotNumber(3), 0) {
        SmResponse::PreAcceptOK { deps, .. } => assert_eq!(deps, vec![first]),
        other => panic!("expected PreAcceptOK, got {other:?}"),
    }
    assert_eq!(sm.sync_writer().calls().len(), before + 2);
}

/// An identical Accept is answered again without being logged again; another value
/// or ballot is logged.
#[test]
fn accept_is_idempotent() {
    let mut sm = make_sm(1);
    let id = txn(1, 1000);
    let (d1, d2) = (txn(2, 1), txn(3, 2));
    let first = sm.handle_accept(id, ts(1000), ts(1001), vec![d1, d2], BallotNumber(4));
    assert!(matches!(first, SmResponse::AcceptOK { .. }));
    let calls = sm.sync_writer().calls().len();
    match sm.handle_accept(id, ts(1000), ts(1001), vec![d2, d1], BallotNumber(4)) {
        SmResponse::AcceptOK { txn_id, ballot, deps } => {
            assert_eq!((txn_id, ballot), (id, BallotNumber(4)));
            assert_eq!(deps, vec![d2, d1]);
        }
        other => panic!("expected AcceptOK, got {other:?}"),
    }
    assert_eq!(sm.sync_writer().calls().len(), calls);
    sm.handle_accept(id, ts(1000), ts(1002), vec![d1, d2], BallotNumber(4));
    assert_eq!(sm.sync_writer().calls().len(), calls + 2);
    sm.handle_accept(id, ts(1000), ts(1002), vec![d1, d2], BallotNumber(5));
    assert_eq!(sm.sync_writer().calls().len(), calls + 4);
}

/// An Accept whose record is not durable is not kept.
#[test]
fn accept_needs_a_durable_record() {
    let mut sm = make_sm(1);
    let id = txn(1, 1000);
    sm.sync_writer_mut().set_fsync_failure(true);
    let silent = sm.handle_accept(id, ts(1000), ts(1001), vec![], BallotNumber(4));
    assert!(matches!(silent, SmResponse::NoResponse));
    assert!(sm.get_state(&id).is_none());
    sm.sync_writer_mut().set_fsync_failure(false);
    let reply = sm.handle_accept(id, ts(1000), ts(1001), vec![], BallotNumber(4));
    assert!(matches!(reply, SmResponse::AcceptOK { .. }));
}

/// A higher promise refuses an Accept even where the outcome is decided.
#[test]
fn accept_ballot_is_checked_first() {
    let mut sm = make_sm(1);
    let id = txn(1, 1000);
    sm.handle_accept(id, ts(1000), ts(1001), vec![], BallotNumber(1));
    sm.handle_commit(id, ts(1000), ts(1001), vec![]);
    sm.handle_recover(id, ts(1000), BallotNumber(7));
    match sm.handle_accept(id, ts(1000), ts(1001), vec![], BallotNumber(3)) {
        SmResponse::Nack { promised, .. } => assert_eq!(promised, PromisedBallot(BallotNumber(7))),
        other => panic!("expected Nack, got {other:?}"),
    }
    let agreed = sm.handle_accept(id, ts(1000), ts(1001), vec![], BallotNumber(7));
    assert!(matches!(agreed, SmResponse::AcceptOK { .. }));
}

/// A recovery is answered once its promise is durable, and logged once.
#[test]
fn recovery_persists_its_promise() {
    let mut sm = make_sm(1);
    let id = txn(1, 1000);
    sm.sync_writer_mut().set_fsync_failure(true);
    assert!(sm.handle_recover(id, ts(1000), BallotNumber(5)).is_none());
    assert!(sm.get_state(&id).is_none());
    sm.sync_writer_mut().set_fsync_failure(false);
    let before = sm.sync_writer().calls().len();
    let state = sm.handle_recover(id, ts(1000), BallotNumber(5)).expect("a promise");
    assert_eq!(state.max_ballot_seen, PromisedBallot(BallotNumber(5)));
    assert_eq!(sm.sync_writer().calls().len(), before + 2);
    assert!(sm.handle_recover(id, ts(1000), BallotNumber(5)).is_some());
    assert_eq!(sm.sync_writer().calls().len(), before + 2, "a repetition is not logged");
    assert!(sm.handle_recover(id, ts(1000), BallotNumber(4)).is_none());
}

/// Pruning right after pruning drops nothing.
#[test]
fn pruning_again_drops_nothing() {
    let mut sm = make_sm(1);
    let id = txn(1, 1000);
    sm.handle_commit(id, ts(1000), ts(1000), vec![]);
    sm.handle_apply(id, b"row".to_vec());
    assert_eq!(sm.prune_applied(), 2, "one entry in each table");
    assert_eq!(sm.prune_applied(), 0);
}
