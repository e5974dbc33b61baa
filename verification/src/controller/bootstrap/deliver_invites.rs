//! Inviting every peer.
//!
//! The node is forming before; afterwards every peer has acknowledged its
//! invite.

use std::collections::BTreeSet;

use vstd::prelude::*;

use super::phase::{BootstrapError, BootstrapPhase};
use super::util::counted_text;
use crate::mode::DeploymentMode;
use crate::ordered::difference_u128;
use crate::text::host_list;

verus! {

/// Whom to invite, and who has answered.
#[derive(Debug)]
pub struct DeliverInvitesState {
    /// Mode of this node.
    pub mode: DeploymentMode,
    /// Peers to invite, this node aside.
    pub expected_peers: BTreeSet<u128>,
    /// Peers that acknowledged.
    pub acked_peers: BTreeSet<u128>,
}

/// The node must be forming.
pub fn precondition(state: &DeliverInvitesState) -> (r: Result<(), BootstrapError>)
    ensures
        match r {
            Ok(()) => state.mode == DeploymentMode::Forming,
            Err(e) => state.mode != DeploymentMode::Forming && e.says(
                BootstrapPhase::DeliverInvites,
                "expected mode=Forming, got "@ + crate::mode::mode_name(state.mode),
            ),
        },
{
    match state.mode {
        DeploymentMode::Forming => Ok(()),
        other => {
            let mut m = "expected mode=Forming, got ".to_owned();
            m.append(other.name());
            Err(BootstrapError::from_source(BootstrapPhase::DeliverInvites, m))
        },
    }
}

/// Every expected peer must have acknowledged.
pub fn postcondition(state: &DeliverInvitesState) -> (r: Result<(), BootstrapError>)
    ensures
        match r {
            Ok(()) => state.expected_peers@.subset_of(state.acked_peers@),
            Err(e) => {
                &&& !state.expected_peers@.subset_of(state.acked_peers@)
                &&& e.says(
                    BootstrapPhase::DeliverInvites,
                    super::util::counted_list(
                        " peer(s) did not ack ClusterInvite: "@,
                        crate::text::host_texts(
                            crate::ordered::ascending_u128(
                                state.expected_peers@.difference(state.acked_peers@),
                            ),
                        ),
                    ),
                )
            },
        },
{
    let missing = difference_u128(&state.expected_peers, &state.acked_peers);
    if missing.len() == 0 {
        proof {
            assert forall|x: u128| state.expected_peers@.contains(x) implies
                state.acked_peers@.contains(x) by {
                if !state.acked_peers@.contains(x) {
                    assert(state.expected_peers@.difference(state.acked_peers@).contains(x));
                    assert(missing@.contains(x));
                }
            }
        }
        Ok(())
    } else {
        proof {
            assert(missing@.to_set().contains(missing@[0])) by {
                assert(missing@.contains(missing@[0]));
            }
        }
        let items = host_list(missing.as_slice());
        Err(
            BootstrapError::from_source(
                BootstrapPhase::DeliverInvites,
                counted_text(" peer(s) did not ack ClusterInvite: ", items.as_slice()),
            ),
        )
    }
}

} // verus!
