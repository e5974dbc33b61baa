//! Waiting for a leader.
//!
//! The consensus instance exists before; afterwards a leader is known, within
//! the time for formation.

use vstd::prelude::*;

use super::phase::{BootstrapError, BootstrapPhase};
use crate::text::append_decimal;

verus! {

/// How the wait ended. Times are in milliseconds.
#[derive(Clone, Copy, Debug, PartialEq, Eq, Structural)]
pub enum LeaderObservation {
    /// A leader is known.
    Elected { node_id: u64, waited_ms: u64 },
    /// The time ran out.
    Timeout { waited_ms: u64 },
}

/// The instance must exist.
pub fn precondition(raft_created: bool) -> (r: Result<(), BootstrapError>)
    ensures
        match r {
            Ok(()) => raft_created,
            Err(e) => !raft_created && e.says(
                BootstrapPhase::WaitLeader,
                "Raft instance not created"@,
            ),
        },
{
    if raft_created {
        Ok(())
    } else {
        Err(BootstrapError::phase(BootstrapPhase::WaitLeader, "Raft instance not created"))
    }
}

/// A leader must be known.
pub fn postcondition(obs: LeaderObservation) -> (r: Result<(), BootstrapError>)
    ensures
        match r {
            Ok(()) => obs is Elected,
            Err(e) => obs matches LeaderObservation::Timeout { waited_ms } && e.says(
                BootstrapPhase::WaitLeader,
                "no leader after "@ + crate::text::decimal_text(waited_ms as nat) + " ms"@,
            ),
        },
{
    match obs {
        LeaderObservation::Elected { .. } => Ok(()),
        LeaderObservation::Timeout { waited_ms } => {
            let mut m = "no leader after ".to_owned();
            append_decimal(&mut m, waited_ms);
            m.append(" ms");
            Err(BootstrapError::from_source(BootstrapPhase::WaitLeader, m))
        },
    }
}

} // verus!
