//! Two-phase schema changes.

use ferrosa_cluster::accord::two_phase_ddl::{
    DdlOperation, DdlPhase, TwoPhaseDdlError, TwoPhaseDdlManager,
};
use ferrosa_cluster::accord::types::{Timestamp, TxnId};

fn ts(micros: u64) -> Timestamp {
    Timestamp::synthetic(micros)
}

fn txn(time: u64) -> TxnId {
    TxnId(ts(time))
}

#[test]
fn two_phase_ddl_dep_wait() {
    let mut mgr = TwoPhaseDdlManager::new();
    let table = "ks.users";

    // Submit DDL marker.
    let ddl_txn = txn(1000);
    mgr.submit_marker(
        ddl_txn,
        DdlOperation::AlterTable {
            table: table.to_string(),
            description: "ADD COLUMN age int".to_string(),
        },
    )
    .expect("submit_marker");

    assert_eq!(mgr.phase(table), Some(DdlPhase::MarkerPending));
    assert_eq!(
        mgr.active_marker(table),
        Some(ddl_txn),
        "active marker must be the DDL txn"
    );

    // DML transactions arrive and must dep-wait on the DDL marker.
    let dml1 = txn(2000);
    let dml2 = txn(3000);
    assert!(
        mgr.register_dep_wait(table, dml1),
        "dml1 must register dep-wait"
    );
    assert!(
        mgr.register_dep_wait(table, dml2),
        "dml2 must register dep-wait"
    );

    // Verify dep-waiters are tracked.
    let waiters = mgr.dep_waiters(table).expect("waiters must exist");
    assert_eq!(waiters.len(), 2);
    assert!(waiters.contains(&dml1));
    assert!(waiters.contains(&dml2));

    // DML on a different table does NOT dep-wait.
    assert!(
        !mgr.register_dep_wait("ks.other", txn(4000)),
        "no DDL on ks.other — no dep-wait"
    );

    // Resolve dep-waiters.
    assert!(mgr.resolve_dep_waiter(table, &dml1));
    assert!(!mgr.all_dep_waiters_resolved(table));
    assert!(mgr.resolve_dep_waiter(table, &dml2));
    assert!(mgr.all_dep_waiters_resolved(table), "all waiters resolved");
}

#[test]
fn two_phase_ddl_concurrent_dml() {
    let mut mgr = TwoPhaseDdlManager::new();
    let table = "ks.users";

    // Submit DDL marker.
    let ddl_txn = txn(1000);
    mgr.submit_marker(
        ddl_txn,
        DdlOperation::CreateIndex {
            table: table.to_string(),
            column: "email".to_string(),
        },
    )
    .expect("submit_marker");

    // Concurrent DDL on the same table is rejected.
    let ddl2 = txn(1500);
    let err = mgr
        .submit_marker(
            ddl2,
            DdlOperation::DropTable {
                table: table.to_string(),
            },
        )
        .unwrap_err();
    assert!(
        matches!(err, TwoPhaseDdlError::ConcurrentDdl { .. }),
        "concurrent DDL must be rejected"
    );

    // DML txns dep-wait.
    let dml1 = txn(2000);
    let dml2 = txn(3000);
    let dml3 = txn(4000);
    mgr.register_dep_wait(table, dml1);
    mgr.register_dep_wait(table, dml2);
    mgr.register_dep_wait(table, dml3);

    // DDL marker commits.
    assert!(mgr.mark_committed(table));
    assert_eq!(mgr.phase(table), Some(DdlPhase::MarkerCommitted));

    // Resolve DML dep-waiters one by one.
    mgr.resolve_dep_waiter(table, &dml1);
    mgr.resolve_dep_waiter(table, &dml2);
    assert!(!mgr.all_dep_waiters_resolved(table), "dml3 still waiting");
    mgr.resolve_dep_waiter(table, &dml3);
    assert!(mgr.all_dep_waiters_resolved(table));

    // Phase 2: apply schema.
    assert!(mgr.begin_apply(table));
    assert_eq!(mgr.phase(table), Some(DdlPhase::Applying));

    // Complete.
    assert!(mgr.complete(table));
    assert_eq!(mgr.phase(table), Some(DdlPhase::Complete));

    // After completion, a new DDL on the same table can proceed.
    mgr.cleanup(table);
    let ddl3 = txn(5000);
    mgr.submit_marker(
        ddl3,
        DdlOperation::DropTable {
            table: table.to_string(),
        },
    )
    .expect("new DDL after cleanup must succeed");
}

#[test]
fn two_phase_ddl_schema_change_visible() {
    let mut mgr = TwoPhaseDdlManager::new();
    let table = "ks.users";

    // Initial schema version is 0.
    assert_eq!(mgr.schema_version(table), 0);

    // Submit and commit DDL marker.
    let ddl_txn = txn(1000);
    mgr.submit_marker(
        ddl_txn,
        DdlOperation::AlterTable {
            table: table.to_string(),
            description: "ADD COLUMN email text".to_string(),
        },
    )
    .unwrap();

    // Schema version unchanged during phase 1.
    assert_eq!(mgr.schema_version(table), 0);

    mgr.mark_committed(table);
    assert_eq!(mgr.schema_version(table), 0);

    // Phase 2: apply.
    mgr.begin_apply(table);
    assert_eq!(mgr.schema_version(table), 0, "not yet complete");

    // Complete — schema version bumps.
    mgr.complete(table);
    assert_eq!(
        mgr.schema_version(table),
        1,
        "schema version must be 1 after first DDL"
    );

    // Second DDL bumps again.
    mgr.cleanup(table);
    let ddl2 = txn(2000);
    mgr.submit_marker(
        ddl2,
        DdlOperation::CreateIndex {
            table: table.to_string(),
            column: "age".to_string(),
        },
    )
    .unwrap();
    mgr.mark_committed(table);
    mgr.begin_apply(table);
    mgr.complete(table);
    assert_eq!(
        mgr.schema_version(table),
        2,
        "schema version must be 2 after second DDL"
    );

    // Different table has its own version.
    assert_eq!(mgr.schema_version("ks.orders"), 0);
}

#[test]
fn two_phase_ddl_abort_on_timeout() {
    let mut mgr = TwoPhaseDdlManager::with_timeout(5_000);
    let table = "ks.users";

    // Submit DDL marker.
    let ddl_txn = txn(1000);
    mgr.submit_marker(
        ddl_txn,
        DdlOperation::DropTable {
            table: table.to_string(),
        },
    )
    .unwrap();

    assert_eq!(mgr.phase(table), Some(DdlPhase::MarkerPending));

    // Register some dep-waiters.
    mgr.register_dep_wait(table, txn(2000));
    mgr.register_dep_wait(table, txn(3000));

    // Simulate timeout (in production this would be driven by a timer).
    let elapsed = 6_000;
    mgr.abort_timeout(table, elapsed).expect("abort_timeout");

    assert_eq!(
        mgr.phase(table),
        Some(DdlPhase::Aborted),
        "DDL must be aborted after timeout"
    );

    // Schema version unchanged — DDL did not complete.
    assert_eq!(
        mgr.schema_version(table),
        0,
        "schema version must not change on aborted DDL"
    );

    // Attempting further phase transitions on an aborted DDL fails.
    assert!(!mgr.mark_committed(table), "cannot commit an aborted DDL");
    assert!(!mgr.begin_apply(table), "cannot apply an aborted DDL");
    assert!(!mgr.complete(table), "cannot complete an aborted DDL");

    // Cleanup removes the aborted DDL.
    let cleaned = mgr.cleanup(table);
    assert!(cleaned.is_some(), "aborted DDL should be cleanable");
    assert!(
        mgr.active_marker(table).is_none(),
        "no active marker after cleanup"
    );

    // Can now submit a new DDL on the same table.
    let ddl2 = txn(5000);
    mgr.submit_marker(
        ddl2,
        DdlOperation::DropTable {
            table: table.to_string(),
        },
    )
    .expect("new DDL after abort cleanup must succeed");
}

/// A change is not applied while a transaction waits for it; where that transaction
/// never resolves, the change can be given up and forgotten.
#[test]
fn stuck_changes_make_way() {
    let mut mgr = TwoPhaseDdlManager::new();
    let table = "ks.users";
    let change = || DdlOperation::DropTable { table: table.to_string() };
    mgr.submit_marker(txn(1000), change()).expect("submit_marker");
    mgr.register_dep_wait(table, txn(2000));
    assert!(mgr.mark_committed(table));
    assert!(!mgr.begin_apply(table), "a transaction waits");
    assert_eq!(mgr.phase(table), Some(DdlPhase::MarkerCommitted));
    mgr.abort_timeout(table, 60_000).expect("active");
    assert_eq!(mgr.phase(table), Some(DdlPhase::Aborted));
    assert!(mgr.cleanup(table).is_some());
    assert_eq!(mgr.schema_version(table), 0);
    mgr.submit_marker(txn(3000), change()).expect("the table is free");
}

/// A change that is visible is not given up.
#[test]
fn visible_changes_stay() {
    let mut mgr = TwoPhaseDdlManager::new();
    let table = "ks.users";
    let change = DdlOperation::DropTable { table: table.to_string() };
    mgr.submit_marker(txn(1000), change).expect("submit_marker");
    mgr.register_dep_wait(table, txn(2000));
    assert!(mgr.mark_committed(table));
    assert!(mgr.resolve_dep_waiter(table, &txn(2000)));
    assert!(mgr.begin_apply(table));
    assert!(mgr.complete(table));
    let refused = mgr.abort_timeout(table, 60_000).expect_err("complete");
    assert_eq!(refused, TwoPhaseDdlError::AlreadyComplete { table: table.to_string() });
    assert_eq!(refused.message(), "DDL on ks.users already complete");
    assert_eq!(mgr.phase(table), Some(DdlPhase::Complete));
    assert_eq!(mgr.schema_version(table), 1);
}
