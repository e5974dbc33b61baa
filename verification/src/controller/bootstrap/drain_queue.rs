//! Replaying the schema changes that were queued.
//!
//! Every node serves before; afterwards the queue is empty and all that was in
//! it has been applied.

use vstd::prelude::*;

use super::phase::{BootstrapError, BootstrapPhase};
use crate::text::append_decimal;

verus! {

/// How far the queue has been worked off.
#[derive(Clone, Copy, Debug, PartialEq, Eq, Structural)]
pub struct DrainQueueState {
    /// The queue was found empty often enough in a row.
    pub channel_empty: bool,
    /// Changes that were queued.
    pub enqueued: u64,
    /// Changes that were applied.
    pub applied: u64,
}

impl Default for DrainQueueState {
    /// A queue nobody has looked at.
    fn default() -> (s: Self)
        ensures
            s == (DrainQueueState { channel_empty: false, enqueued: 0, applied: 0 }),
    {
        DrainQueueState { channel_empty: false, enqueued: 0, applied: 0 }
    }
}

/// Every node must serve.
pub fn precondition(promoted: bool) -> (r: Result<(), BootstrapError>)
    ensures
        match r {
            Ok(()) => promoted,
            Err(e) => !promoted && e.says(
                BootstrapPhase::DrainQueue,
                "Promote post-condition not satisfied"@,
            ),
        },
{
    if promoted {
        Ok(())
    } else {
        Err(BootstrapError::phase(BootstrapPhase::DrainQueue, "Promote post-condition not satisfied"))
    }
}

/// The queue must be empty and all of it applied.
pub fn postcondition(state: DrainQueueState) -> (r: Result<(), BootstrapError>)
    ensures
        match r {
            Ok(()) => state.channel_empty && state.applied == state.enqueued,
            Err(e) => if !state.channel_empty {
                e.says(BootstrapPhase::DrainQueue, "DDL queue receiver is not yet empty"@)
            } else {
                state.applied != state.enqueued && e.says(
                    BootstrapPhase::DrainQueue,
                    "applied "@ + crate::text::decimal_text(state.applied as nat) + " of "@
                        + crate::text::decimal_text(state.enqueued as nat) + " queued DDL ops"@,
                )
            },
        },
{
    if !state.channel_empty {
        return Err(
            BootstrapError::phase(BootstrapPhase::DrainQueue, "DDL queue receiver is not yet empty"),
        );
    }
    if state.applied != state.enqueued {
        let mut m = "applied ".to_owned();
        append_decimal(&mut m, state.applied);
        m.append(" of ");
        append_decimal(&mut m, state.enqueued);
        m.append(" queued DDL ops");
        return Err(BootstrapError::from_source(BootstrapPhase::DrainQueue, m));
    }
    Ok(())
}

} // verus!
