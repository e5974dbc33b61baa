//! Streaming phase.

use std::collections::BTreeMap;

use ferrosa_cluster::controller::bootstrap::bootstrap_stream::{
    plan_table_stream, postcondition, precondition, BootstrapStreamState, TableStreamPlan,
    TableStreamPlanInput, BOUNDED_ROW_FALLBACK_LIMIT,
};
use ferrosa_cluster::controller::bootstrap::phase::BootstrapPhase;

#[test]
fn bootstrap_stream_postcondition_holds_when_all_owners_complete() {
    let state = BootstrapStreamState {
        expected_owners: [1, 2, 3].into_iter().collect(),
        completed_owners: [1, 2, 3].into_iter().collect(),
        bytes_streamed: BTreeMap::new(),
    };
    precondition(true).expect("replay ok");
    postcondition(&state).expect("all owners completed");
}

#[test]
fn bootstrap_stream_flags_uncompleted_replica() {
    let state = BootstrapStreamState {
        expected_owners: [1, 2, 3].into_iter().collect(),
        completed_owners: [1, 2].into_iter().collect(),
        bytes_streamed: BTreeMap::new(),
    };
    let err = postcondition(&state).expect_err("missing replica gives fail");
    assert_eq!(err.name(), BootstrapPhase::BootstrapStream);
}

#[test]
fn bootstrap_stream_precondition_requires_replay() {
    assert!(precondition(false).is_err());
}

#[test]
fn sstable_backed_table_uses_sstable_stream_before_row_materialization() {
    let plan = plan_table_stream(TableStreamPlanInput {
        sstable_dir_count: 3,
        row_fallback_limit: BOUNDED_ROW_FALLBACK_LIMIT,
    });

    assert_eq!(
        plan,
        TableStreamPlan::SstableBulk {
            sstable_dir_count: 3,
        }
    );
    assert!(
        !plan.allows_row_materialization(),
        "SSTable-backed bootstrap must attempt bulk SSTable transfer before row materialization"
    );
}

#[test]
fn failed_sstable_stream_does_not_fall_back_to_unbounded_rows() {
    let plan = TableStreamPlan::SstableBulk {
        sstable_dir_count: 2,
    };

    let retry = plan.after_sstable_stream_failure("network partition");

    assert!(retry.requires_retry());
    assert!(
        !retry.allows_row_materialization(),
        "SSTable stream failure must not switch to row materialization, bounded or unbounded"
    );
}

#[test]
fn small_table_row_fallback_is_partition_bounded() {
    let plan = plan_table_stream(TableStreamPlanInput {
        sstable_dir_count: 0,
        row_fallback_limit: 64,
    });

    assert_eq!(plan, TableStreamPlan::BoundedRows { limit: 64 });
    assert!(plan.allows_row_materialization());
    assert_eq!(plan.row_materialization_limit(), Some(64));
}

#[test]
fn stream_failure_reports_retry_required() {
    let retry = TableStreamPlan::SstableBulk {
        sstable_dir_count: 1,
    }
    .after_sstable_stream_failure("send_sstable_files failed");

    assert_eq!(retry, TableStreamPlan::RetryRequired);
    assert!(retry.requires_retry());
}

/// The report names the owners that are missing.
#[test]
fn stream_report_names_missing_owners() {
    let state = BootstrapStreamState {
        expected_owners: [1, 2, 3, 9].into_iter().collect(),
        completed_owners: [2].into_iter().collect(),
        bytes_streamed: BTreeMap::new(),
    };
    let err = postcondition(&state).expect_err("missing owners");
    let msg = err.message();
    assert!(msg.starts_with("bootstrap phase 'bootstrap_stream' failed: "), "{msg}");
    assert!(msg.contains("[1, 3, 9]"), "{msg}");
}

/// Only a file plan changes when its stream fails.
#[test]
fn row_plans_survive_a_failed_file_stream() {
    let rows = TableStreamPlan::BoundedRows { limit: 64 };
    assert_eq!(rows.after_sstable_stream_failure("late"), rows);
    assert_eq!(TableStreamPlan::RetryRequired.row_materialization_limit(), None);
}
