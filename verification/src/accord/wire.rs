//! What a read vote has to determine on a replica.

use vstd::prelude::*;

verus! {

/// How a replica answers a read vote.
///
/// A replica never interprets predicates itself: for a general condition it
/// returns the row, which the coordinator evaluates.
#[derive(Clone, Debug, PartialEq, Eq)]
pub enum ReadPredicate {
    /// The condition holds iff the row does not exist.
    NotExists,
    /// The replica returns the row of this table.
    ReadRow { keyspace: String, table: String },
    /// There is no condition; no vote is taken.
    Always,
}

impl Default for ReadPredicate {
    /// A vote that names no predicate asks for the row's absence.
    fn default() -> (p: Self)
        ensures
            p == ReadPredicate::NotExists,
    {
        ReadPredicate::NotExists
    }
}

} // verus!
