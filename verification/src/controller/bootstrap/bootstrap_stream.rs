//! Sending data to the new owners of token ranges.
//!
//! The schema is replayed before; afterwards every owner that owes data has
//! reported that it is done.

use std::collections::{BTreeMap, BTreeSet};

use vstd::prelude::*;

use super::phase::{BootstrapError, BootstrapPhase};
use super::util::counted_text;
use crate::ordered::difference_u64;
use crate::text::decimal_list;

verus! {

/// Most rows that are sent from memory for a table without files.
pub const BOUNDED_ROW_FALLBACK_LIMIT: usize = 1_000;

/// What is known of a table.
#[derive(Clone, Copy, Debug, PartialEq, Eq, Structural)]
pub struct TableStreamPlanInput {
    pub sstable_dir_count: usize,
    pub row_fallback_limit: usize,
}

/// How a table is sent.
#[derive(Clone, Copy, Debug, PartialEq, Eq, Structural)]
pub enum TableStreamPlan {
    /// As files.
    SstableBulk { sstable_dir_count: usize },
    /// As at most so many rows.
    BoundedRows { limit: usize },
    /// Not now.
    RetryRequired,
}

impl TableStreamPlan {
    /// May rows be read into memory?
    pub fn allows_row_materialization(self) -> (b: bool)
        ensures
            b == (self is BoundedRows),
    {
        matches!(self, TableStreamPlan::BoundedRows { .. })
    }

    /// How many rows may be read into memory.
    pub fn row_materialization_limit(self) -> (limit: Option<usize>)
        ensures
            limit == match self {
                TableStreamPlan::BoundedRows { limit } => Some(limit),
                _ => None,
            },
    {
        match self {
            TableStreamPlan::BoundedRows { limit } => Some(limit),
            TableStreamPlan::SstableBulk { .. } | TableStreamPlan::RetryRequired => None,
        }
    }

    /// Must the table be sent later?
    pub fn requires_retry(self) -> (b: bool)
        ensures
            b == (self is RetryRequired),
    {
        matches!(self, TableStreamPlan::RetryRequired)
    }

    /// The plan after files could not be sent: never rows in their place.
    pub open spec fn spec_after_failure(self) -> TableStreamPlan {
        match self {
            TableStreamPlan::SstableBulk { .. } => TableStreamPlan::RetryRequired,
            other => other,
        }
    }

    /// The plan after files could not be sent, whatever the reason.
    pub fn after_sstable_stream_failure(self, _reason: &str) -> (plan: TableStreamPlan)
        ensures
            plan == self.spec_after_failure(),
    {
        match self {
            TableStreamPlan::SstableBulk { .. } => TableStreamPlan::RetryRequired,
            other => other,
        }
    }
}

/// The plan for a table.
pub open spec fn table_plan(input: TableStreamPlanInput) -> TableStreamPlan {
    if input.sstable_dir_count > 0 {
        TableStreamPlan::SstableBulk { sstable_dir_count: input.sstable_dir_count }
    } else {
        TableStreamPlan::BoundedRows { limit: input.row_fallback_limit }
    }
}

/// The plan for a table: files where there are any, else a bounded number of
/// rows.
pub fn plan_table_stream(input: TableStreamPlanInput) -> (plan: TableStreamPlan)
    ensures
        plan == table_plan(input),
{
    if input.sstable_dir_count > 0 {
        TableStreamPlan::SstableBulk { sstable_dir_count: input.sstable_dir_count }
    } else {
        TableStreamPlan::BoundedRows { limit: input.row_fallback_limit }
    }
}

/// A table with files is never read into memory, whether or not the files can
/// be sent; one without is read up to the limit and no further.
pub proof fn files_are_never_read_as_rows(input: TableStreamPlanInput)
    ensures
        input.sstable_dir_count > 0 ==> !(table_plan(input) is BoundedRows)
            && table_plan(input).spec_after_failure() is RetryRequired,
        input.sstable_dir_count == 0 ==> table_plan(input) == (TableStreamPlan::BoundedRows {
            limit: input.row_fallback_limit,
        }),
{
}

/// How far the owners have come.
#[derive(Debug)]
pub struct BootstrapStreamState {
    pub expected_owners: BTreeSet<u64>,
    pub completed_owners: BTreeSet<u64>,
    /// Bytes sent by each owner.
    pub bytes_streamed: BTreeMap<u64, u64>,
}

/// The schema must have been replayed.
pub fn precondition(schema_replayed: bool) -> (r: Result<(), BootstrapError>)
    ensures
        match r {
            Ok(()) => schema_replayed,
            Err(e) => !schema_replayed && e.says(
                BootstrapPhase::BootstrapStream,
                "ReplaySchema post-condition not satisfied"@,
            ),
        },
{
    if schema_replayed {
        Ok(())
    } else {
        Err(
            BootstrapError::phase(
                BootstrapPhase::BootstrapStream,
                "ReplaySchema post-condition not satisfied",
            ),
        )
    }
}

/// Every expected owner must have completed.
pub fn postcondition(state: &BootstrapStreamState) -> (r: Result<(), BootstrapError>)
    ensures
        match r {
            Ok(()) => state.expected_owners@.subset_of(state.completed_owners@),
            Err(e) => {
                &&& !state.expected_owners@.subset_of(state.completed_owners@)
                &&& e.says(
                    BootstrapPhase::BootstrapStream,
                    super::util::counted_list(
                        " replica(s) did not finish streaming: "@,
                        crate::text::decimal_texts(
                            crate::ordered::ascending_u64(
                                state.expected_owners@.difference(state.completed_owners@),
                            ),
                        ),
                    ),
                )
            },
        },
{
    let missing = difference_u64(&state.expected_owners, &state.completed_owners);
    if missing.len() == 0 {
        proof {
            assert forall|x: u64| state.expected_owners@.contains(x) implies
                state.completed_owners@.contains(x) by {
                if !state.completed_owners@.contains(x) {
                    assert(state.expected_owners@.difference(state.completed_owners@).contains(x));
                    assert(missing@.contains(x));
                }
            }
        }
        Ok(())
    } else {
        proof {
            assert(missing@.to_set().contains(missing@[0])) by {
                assert(missing@.contains(missing@[0]));
            }
        }
        let items = decimal_list(missing.as_slice());
        Err(
            BootstrapError::from_source(
                BootstrapPhase::BootstrapStream,
                counted_text(" replica(s) did not finish streaming: ", items.as_slice()),
            ),
        )
    }
}

/// A table is sent as all of its files where it has any, and else as rows up to its limit.
/// Where files could not be sent it is sent later; every other plan stands.
pub proof fn tables_are_sent_as_planned(input: TableStreamPlanInput, limit: usize, files: usize)
    ensures
        input.sstable_dir_count > 0 ==> table_plan(input) == (TableStreamPlan::SstableBulk {
            sstable_dir_count: input.sstable_dir_count,
        }),
        input.sstable_dir_count == 0 ==> table_plan(input) == (TableStreamPlan::BoundedRows {
            limit: input.row_fallback_limit,
        }),
        (TableStreamPlan::SstableBulk { sstable_dir_count: files }).spec_after_failure()
            == TableStreamPlan::RetryRequired,
        (TableStreamPlan::BoundedRows { limit }).spec_after_failure() == (
        TableStreamPlan::BoundedRows { limit }),
        TableStreamPlan::RetryRequired.spec_after_failure() == TableStreamPlan::RetryRequired,
{
}

} // verus!
