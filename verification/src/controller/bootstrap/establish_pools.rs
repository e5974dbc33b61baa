//! Connecting to every peer.
//!
//! There are peers before; afterwards each of them is connected on the lane for
//! consensus and on the lane for data.

use std::collections::{BTreeMap, BTreeSet};

use vstd::prelude::*;

use super::create_raft::bool_name;
use super::phase::{BootstrapError, BootstrapPhase};
use super::util::counted_text;
use crate::ordered::set_members_u128;
use crate::text::append_host;

verus! {

broadcast use vstd::std_specs::btree::group_btree_axioms;

/// Which lanes to a peer are live.
#[derive(Clone, Copy, Debug, PartialEq, Eq, Structural)]
pub struct PeerLaneStatus {
    pub raft: bool,
    pub data: bool,
}

impl Default for PeerLaneStatus {
    /// No lane.
    fn default() -> (s: Self)
        ensures
            s == (PeerLaneStatus { raft: false, data: false }),
    {
        PeerLaneStatus { raft: false, data: false }
    }
}

impl PeerLaneStatus {
    /// Both lanes?
    pub fn both_live(self) -> (b: bool)
        ensures
            b == (self.raft && self.data),
    {
        self.raft && self.data
    }
}

/// Whom to connect to, and how far that has come.
#[derive(Debug)]
pub struct EstablishPoolsState {
    pub expected_peers: BTreeSet<u128>,
    pub lane_status: BTreeMap<u128, PeerLaneStatus>,
}

/// The lanes to a peer; of an unknown peer none is live.
pub open spec fn status_of(m: Map<u128, PeerLaneStatus>, peer: u128) -> PeerLaneStatus {
    if m.contains_key(peer) {
        m[peer]
    } else {
        PeerLaneStatus { raft: false, data: false }
    }
}

/// Peers that lack a lane.
pub open spec fn lacks_lane(m: Map<u128, PeerLaneStatus>) -> spec_fn(u128) -> bool {
    |peer: u128| !(status_of(m, peer).raft && status_of(m, peer).data)
}

/// A peer and its lanes as text.
pub open spec fn lane_text(m: Map<u128, PeerLaneStatus>, peer: u128) -> Seq<char> {
    "("@ + crate::text::host_text(peer) + ", PeerLaneStatus { raft: "@
        + super::create_raft::bool_text(status_of(m, peer).raft) + ", data: "@
        + super::create_raft::bool_text(status_of(m, peer).data) + " })"@
}

/// Peers and their lanes as text.
pub open spec fn lane_texts(m: Map<u128, PeerLaneStatus>, peers: Seq<u128>) -> Seq<Seq<char>> {
    Seq::new(peers.len(), |i: int| lane_text(m, peers[i]))
}

/// There must be peers.
pub fn precondition(state: &EstablishPoolsState) -> (r: Result<(), BootstrapError>)
    ensures
        match r {
            Ok(()) => state.expected_peers@.len() > 0,
            Err(e) => state.expected_peers@.len() == 0 && e.says(
                BootstrapPhase::EstablishPools,
                "no peers to establish pools for"@,
            ),
        },
{
    if state.expected_peers.len() == 0 {
        Err(BootstrapError::phase(BootstrapPhase::EstablishPools, "no peers to establish pools for"))
    } else {
        Ok(())
    }
}

/// Are both lanes to every expected peer live?
pub open spec fn all_connected(expected: Set<u128>, lanes: Map<u128, PeerLaneStatus>) -> bool {
    forall|peer: u128| #[trigger]
        expected.contains(peer) ==> status_of(lanes, peer).raft && status_of(lanes, peer).data
}

/// Both lanes to every expected peer must be live.
pub fn postcondition(state: &EstablishPoolsState) -> (r: Result<(), BootstrapError>)
    ensures
        match r {
            Ok(()) => all_connected(state.expected_peers@, state.lane_status@),
            Err(e) => {
                &&& !all_connected(state.expected_peers@, state.lane_status@)
                &&& e.says(
                    BootstrapPhase::EstablishPools,
                    super::util::counted_list(
                        " peer(s) missing lane(s): "@,
                        lane_texts(
                            state.lane_status@,
                            crate::ordered::ascending_u128(state.expected_peers@).filter(
                                lacks_lane(state.lane_status@),
                            ),
                        ),
                    ),
                )
            },
        },
{
    let peers = set_members_u128(&state.expected_peers);
    let ghost lanes = state.lane_status@;
    let ghost p = lacks_lane(lanes);
    proof {
        crate::ordered::lemma_ascending_u128(peers@);
        reveal(Seq::filter);
    }
    let mut missing: Vec<String> = Vec::new();
    let mut i: usize = 0;
    assert(crate::text::text_views(missing@) =~= lane_texts(lanes, peers@.take(0).filter(p)));
    while i < peers.len()
        invariant
            i <= peers.len(),
            lanes == state.lane_status@,
            p == lacks_lane(lanes),
            peers@.to_set() == state.expected_peers@,
            crate::text::text_views(missing@) == lane_texts(lanes, peers@.take(i as int).filter(p)),
            missing@.len() == 0 ==> forall|k: int|
                0 <= k < i ==> status_of(lanes, #[trigger] peers@[k]).raft && status_of(
                    lanes,
                    peers@[k],
                ).data,
            missing@.len() > 0 ==> !all_connected(state.expected_peers@, lanes),
        decreases peers.len() - i,
    {
        proof {
            crate::collections::lemma_filter_step(peers@, i as int, p);
        }
        let peer: u128 = peers[i];
        let status: PeerLaneStatus = match state.lane_status.get(&peer) {
            Some(s) => *s,
            None => PeerLaneStatus { raft: false, data: false },
        };
        if !status.both_live() {
            let mut t = "(".to_owned();
            append_host(&mut t, peer);
            t.append(", PeerLaneStatus { raft: ");
            t.append(bool_name(status.raft));
            t.append(", data: ");
            t.append(bool_name(status.data));
            t.append(" })");
            let ghost before = missing@;
            missing.push(t);
            proof {
                assert(crate::text::text_views(missing@) =~= crate::text::text_views(before).push(
                    lane_text(lanes, peer),
                ));
                let f = peers@.take(i as int).filter(p);
                assert(lane_texts(lanes, f.push(peer)) =~= lane_texts(lanes, f).push(
                    lane_text(lanes, peer),
                ));
                assert(peers@.contains(peer));
                assert(state.expected_peers@.contains(peer));
            }
        }
        i = i + 1;
    }
    assert(peers@.take(i as int) =~= peers@);
    if missing.len() == 0 {
        proof {
            assert forall|peer: u128| #[trigger] state.expected_peers@.contains(peer) implies
                status_of(lanes, peer).raft && status_of(lanes, peer).data by {
                assert(peers@.to_set().contains(peer));
                let k = choose|k: int| 0 <= k < peers@.len() && peers@[k] == peer;
                assert(status_of(lanes, peers@[k]).raft);
            }
        }
        Ok(())
    } else {
        Err(
            BootstrapError::from_source(
                BootstrapPhase::EstablishPools,
                counted_text(" peer(s) missing lane(s): ", missing.as_slice()),
            ),
        )
    }
}

/// The pools stand where both lanes to every expected peer are known to be live; a peer
/// lacks a lane where it is unknown or one of the two is not.
pub proof fn both_lanes_count(
    expected: Set<u128>,
    lanes: Map<u128, PeerLaneStatus>,
    peer: u128,
)
    ensures
        all_connected(expected, lanes) <==> forall|x: u128| #[trigger]
            expected.contains(x) ==> lanes.contains_key(x) && lanes[x].raft && lanes[x].data,
        lacks_lane(lanes)(peer) <==> !lanes.contains_key(peer) || !lanes[peer].raft
            || !lanes[peer].data,
{
}

/// A peer is listed with its host id and both of its lanes.
pub proof fn lanes_are_listed_by_peer(lanes: Map<u128, PeerLaneStatus>, peers: Seq<u128>, i: int)
    requires
        0 <= i < peers.len(),
        lanes.contains_key(peers[i]),
    ensures
        lane_texts(lanes, peers).len() == peers.len(),
        lane_texts(lanes, peers)[i] == "("@ + crate::text::host_text(peers[i])
            + ", PeerLaneStatus { raft: "@ + (if lanes[peers[i]].raft {
            "true"@
        } else {
            "false"@
        }) + ", data: "@ + (if lanes[peers[i]].data {
            "true"@
        } else {
            "false"@
        }) + " })"@,
{
}

} // verus!
