//! Consistency levels of queries.

use vstd::prelude::*;

verus! {

/// How many replicas a query needs.
#[derive(Clone, Copy, Debug, PartialEq, Eq, Structural)]
pub enum ConsistencyLevel {
    /// A majority.
    Quorum,
}

impl ConsistencyLevel {
    /// The level with the given name: no name is recognised.
    pub fn from_str(_s: &str) -> (r: Option<Self>)
        ensures
            r is None,
    {
        None
    }
}

} // verus!
