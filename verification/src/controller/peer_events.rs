//! What connecting and vanishing peers mean for a node.

use vstd::prelude::*;

use crate::address::{Peer, PeerAddr};
use crate::collections::str_equal;
use crate::mode::DeploymentMode;

verus! {

/// Most peers that are tracked.
pub const MAX_CONNECTED_PEERS: usize = 1000;

/// Is a host at this position, and at none before?
pub open spec fn first_at(peers: Seq<crate::address::PeerView>, host_id: u128, i: int) -> bool {
    &&& 0 <= i < peers.len()
    &&& peers[i].host_id == host_id
    &&& forall|k: int| 0 <= k < i ==> (#[trigger] peers[k]).host_id != host_id
}

/// The tracked peers with one more: a known peer gets its new address in its
/// place; else it comes last, and the oldest goes where the list is full.
pub open spec fn noted(
    peers: Seq<crate::address::PeerView>,
    host_id: u128,
    addr: crate::address::AddrView,
    capacity: usize,
) -> Seq<crate::address::PeerView> {
    let peer = crate::address::PeerView { host_id, addr };
    if crate::address::lists_host(peers, host_id) {
        peers.update(choose|i: int| first_at(peers, host_id, i), peer)
    } else if peers.len() >= capacity {
        peers.drop_first().push(peer)
    } else {
        peers.push(peer)
    }
}

/// Track a peer.
pub fn track_connected_peer(peers: &mut Vec<Peer>, host_id: u128, addr: &PeerAddr, capacity: usize)
    requires
        capacity > 0 || old(peers)@.len() > 0,
    ensures
        crate::address::peer_views(final(peers)@) == noted(
            crate::address::peer_views(old(peers)@),
            host_id,
            addr@,
            capacity,
        ),
{
    let ghost all = crate::address::peer_views(peers@);
    let peer = Peer::new(host_id, addr.copied());
    let ghost pv = peer@;
    let n: usize = peers.len();
    let mut i: usize = 0;
    while i < n
        invariant
            i <= n,
            n == peers@.len(),
            peers@ == old(peers)@,
            all == crate::address::peer_views(peers@),
            pv == peer@,
            pv == (crate::address::PeerView { host_id, addr: addr@ }),
            forall|k: int| 0 <= k < i ==> (#[trigger] all[k]).host_id != host_id,
        decreases n - i,
    {
        if peers[i].host_id == host_id {
            proof {
                assert(first_at(all, host_id, i as int));
                let j = choose|j: int| first_at(all, host_id, j);
                assert(first_at(all, host_id, j));
                assert(j == i);
                assert(all[i as int].host_id == host_id);
            }
            peers.set(i, peer);
            assert(crate::address::peer_views(peers@) =~= all.update(i as int, pv));
            return;
        }
        assert(all[i as int].host_id != host_id);
        i = i + 1;
    }
    assert(!crate::address::lists_host(all, host_id));
    if peers.len() >= capacity {
        let _ = peers.remove(0);
        assert(crate::address::peer_views(peers@) =~= all.drop_first());
    }
    proof {
        crate::address::lemma_peer_views_push(peers@, peer);
    }
    peers.push(peer);
}

/// Does a list name no host twice?
pub open spec fn hosts_distinct(peers: Seq<crate::address::PeerView>) -> bool {
    forall|i: int, j: int|
        0 <= i < j < peers.len() ==> (#[trigger] peers[i]).host_id != (#[trigger] peers[j]).host_id
}

/// The tracked peers stay few, none is listed twice, and the latest address of
/// a peer is the one that is known.
pub proof fn tracking_keeps_peers_distinct(
    peers: Seq<crate::address::PeerView>,
    host_id: u128,
    addr: crate::address::AddrView,
    capacity: usize,
)
    requires
        hosts_distinct(peers),
        peers.len() <= capacity,
        capacity > 0,
    ensures
        hosts_distinct(noted(peers, host_id, addr, capacity)),
        noted(peers, host_id, addr, capacity).len() <= capacity,
        noted(peers, host_id, addr, capacity).contains(
            crate::address::PeerView { host_id, addr },
        ),
{
    let peer = crate::address::PeerView { host_id, addr };
    let t = noted(peers, host_id, addr, capacity);
    if crate::address::lists_host(peers, host_id) {
        lemma_first_exists(peers, host_id);
        let i = choose|i: int| first_at(peers, host_id, i);
        assert(first_at(peers, host_id, i));
        assert(t[i] == peer);
        assert forall|a: int, b: int| 0 <= a < b < t.len() implies (#[trigger] t[a]).host_id != (
        #[trigger] t[b]).host_id by {
            assert(peers[a].host_id != peers[b].host_id);
        }
    } else {
        assert(t.last() == peer);
        assert forall|a: int, b: int| 0 <= a < b < t.len() implies (#[trigger] t[a]).host_id != (
        #[trigger] t[b]).host_id by {
            let shift: int = if peers.len() >= capacity {
                1
            } else {
                0
            };
            assert(t[a] == peers[a + shift]);
            if b < t.len() - 1 {
                assert(t[b] == peers[b + shift]);
            }
        }
    }
}

/// Noting a peer brings in no other host.
pub proof fn lemma_noted_hosts(
    peers: Seq<crate::address::PeerView>,
    host_id: u128,
    addr: crate::address::AddrView,
    capacity: usize,
    other: u128,
)
    requires
        capacity > 0,
        host_id != other,
        !crate::address::lists_host(peers, other),
    ensures
        !crate::address::lists_host(noted(peers, host_id, addr, capacity), other),
{
    let t = noted(peers, host_id, addr, capacity);
    if crate::address::lists_host(peers, host_id) {
        lemma_first_exists(peers, host_id);
        let i = choose|i: int| first_at(peers, host_id, i);
        assert(first_at(peers, host_id, i));
        assert forall|k: int| 0 <= k < t.len() implies (#[trigger] t[k]).host_id != other by {
            assert(peers[k].host_id != other);
        }
    } else {
        assert forall|k: int| 0 <= k < t.len() implies (#[trigger] t[k]).host_id != other by {
            if k < t.len() - 1 {
                if peers.len() >= capacity {
                    assert(peers[k + 1].host_id != other);
                } else {
                    assert(peers[k].host_id != other);
                }
            }
        }
    }
}

proof fn lemma_first_exists(peers: Seq<crate::address::PeerView>, host_id: u128)
    requires
        crate::address::lists_host(peers, host_id),
    ensures
        exists|i: int| first_at(peers, host_id, i),
    decreases peers.len(),
{
    let j = choose|j: int| 0 <= j < peers.len() && (#[trigger] peers[j]).host_id == host_id;
    let head = peers.take(j);
    if crate::address::lists_host(head, host_id) {
        lemma_first_exists(head, host_id);
        let i = choose|i: int| first_at(head, host_id, i);
        assert(first_at(head, host_id, i));
        assert(head[i] == peers[i]);
        assert forall|k: int| 0 <= k < i implies (#[trigger] peers[k]).host_id != host_id by {
            assert(head[k] == peers[k]);
        }
        assert(first_at(peers, host_id, i));
    } else {
        assert forall|k: int| 0 <= k < j implies (#[trigger] peers[k]).host_id != host_id by {
            assert(head[k] == peers[k]);
        }
        assert(first_at(peers, host_id, j));
    }
}

/// Peers other than a host.
pub open spec fn not_host(host_id: u128) -> spec_fn(crate::address::PeerView) -> bool {
    |p: crate::address::PeerView| p.host_id != host_id
}

/// Track a peer no longer.
pub fn untrack_peer(peers: &mut Vec<Peer>, host_id: u128)
    ensures
        crate::address::peer_views(final(peers)@) == crate::address::peer_views(
            old(peers)@,
        ).filter(not_host(host_id)),
{
    let ghost all = crate::address::peer_views(peers@);
    let ghost p = not_host(host_id);
    let mut kept: Vec<Peer> = Vec::new();
    let mut i: usize = 0;
    proof {
        reveal(Seq::filter);
        assert(crate::address::peer_views(kept@) =~= all.take(0).filter(p));
    }
    while i < peers.len()
        invariant
            i <= peers.len(),
            all == crate::address::peer_views(peers@),
            p == not_host(host_id),
            crate::address::peer_views(kept@) == all.take(i as int).filter(p),
        decreases peers.len() - i,
    {
        proof {
            crate::collections::lemma_filter_step(all, i as int, p);
        }
        if peers[i].host_id != host_id {
            let q = peers[i].copied();
            proof {
                crate::address::lemma_peer_views_push(kept@, q);
            }
            kept.push(q);
        }
        i = i + 1;
    }
    assert(all.take(i as int) =~= all);
    *peers = kept;
}

/// Where to reach a peer that connected: at the address that its announced
/// name resolves to, or else at the port for nodes of the host it came from.
pub open spec fn reverse_addr(
    observed: crate::address::AddrView,
    port: u16,
    resolved: Option<crate::address::AddrView>,
) -> crate::address::AddrView {
    match resolved {
        Some(a) => a,
        None => observed.at_port(port),
    }
}

/// Where to reach a peer that connected.
pub fn resolve_inbound_reverse_addr(
    observed_addr: &PeerAddr,
    local_internode_port: u16,
    resolved_broadcast: Option<&PeerAddr>,
) -> (a: PeerAddr)
    ensures
        a@ == reverse_addr(
            observed_addr@,
            local_internode_port,
            crate::controller::invite::addr_view(resolved_broadcast),
        ),
{
    match resolved_broadcast {
        Some(a) => a.copied(),
        None => observed_addr.at_port(local_internode_port),
    }
}

/// Must the connection to a peer that connected be made anew? It must, unless
/// one is live at the address where the peer is reached.
pub fn should_refresh_outbound_peer_for_inbound(
    known_addr: Option<&str>,
    live: bool,
    inbound_reverse_addr: &PeerAddr,
) -> (b: bool)
    ensures
        b == !(live && crate::raft::str_view(known_addr) == Some(inbound_reverse_addr@.text())),
{
    match known_addr {
        Some(known) => {
            let desired = inbound_reverse_addr.text();
            !(live && str_equal(known, desired.as_str()))
        },
        None => true,
    }
}

/// May a new connection be put in place? Not if the known address changed while
/// it was made.
pub fn should_install_refreshed_outbound_peer(
    observed_addr: Option<&str>,
    current_addr: Option<&str>,
) -> (b: bool)
    ensures
        b == (crate::raft::str_view(observed_addr) == crate::raft::str_view(current_addr)),
{
    match (observed_addr, current_addr) {
        (Some(a), Some(b)) => str_equal(a, b),
        (None, None) => true,
        _ => false,
    }
}

/// How many members a cluster counts: those it was formed with, or else those
/// that are connected and this node.
pub open spec fn member_count(committed: usize, connected: nat) -> nat {
    if committed > 0 {
        committed as nat
    } else {
        connected + 1
    }
}

/// Is a majority of the members connected, this node with them?
pub open spec fn has_quorum(committed: usize, connected: nat) -> bool {
    connected + 1 >= member_count(committed, connected) / 2 + 1
}

/// Is a majority of the members connected, this node with them?
pub fn quorum_connected(committed: usize, connected: usize) -> (b: bool)
    requires
        connected < usize::MAX,
    ensures
        b == has_quorum(committed, connected as nat),
{
    let total: usize = if committed > 0 {
        committed
    } else {
        connected + 1
    };
    connected + 1 >= total / 2 + 1
}

/// Two parts of a cluster never both have a quorum: where one side has, the
/// nodes that it does not reach are too few.
pub proof fn partitions_do_not_both_have_quorum(committed: usize, side: nat, other: nat)
    requires
        committed > 0,
        side + 1 + other + 1 <= committed,
    ensures
        !(has_quorum(committed, side) && has_quorum(committed, other)),
{
}

/// More connected peers never lose a quorum.
pub proof fn quorum_is_monotone(committed: usize, fewer: nat, more: nat)
    requires
        fewer <= more,
        committed > 0,
        has_quorum(committed, fewer),
    ensures
        has_quorum(committed, more),
{
}

/// What a peer event leads to.
#[derive(Debug)]
pub enum PeerEventAction {
    /// Become a pair with the peer.
    TransitionToPair { peer: Peer, inbound: bool },
    /// Form a cluster with all peers.
    TransitionToForming,
    /// Let the peer join.
    TriggerClusterJoin { peer: Peer },
    /// Invite the peer.
    SendClusterInvite { host_id: u128 },
    /// Start consensus from what is on disk.
    RejoinClusterWithRaftInit,
    /// Be a cluster again.
    RestoreClusterMode,
    /// Send what was kept for the peer.
    DeliverHints { host_id: u128 },
}

/// Model of [`PeerEventAction`].
pub enum PeerActionView {
    TransitionToPair { peer: crate::address::PeerView, inbound: bool },
    TransitionToForming,
    TriggerClusterJoin { peer: crate::address::PeerView },
    SendClusterInvite { host_id: u128 },
    RejoinClusterWithRaftInit,
    RestoreClusterMode,
    DeliverHints { host_id: u128 },
}

impl View for PeerEventAction {
    type V = PeerActionView;

    open spec fn view(&self) -> PeerActionView {
        match self {
            PeerEventAction::TransitionToPair { peer, inbound } => {
                PeerActionView::TransitionToPair { peer: peer@, inbound: *inbound }
            },
            PeerEventAction::TransitionToForming => PeerActionView::TransitionToForming,
            PeerEventAction::TriggerClusterJoin { peer } => PeerActionView::TriggerClusterJoin {
                peer: peer@,
            },
            PeerEventAction::SendClusterInvite { host_id } => PeerActionView::SendClusterInvite {
                host_id: *host_id,
            },
            PeerEventAction::RejoinClusterWithRaftInit => PeerActionView::RejoinClusterWithRaftInit,
            PeerEventAction::RestoreClusterMode => PeerActionView::RestoreClusterMode,
            PeerEventAction::DeliverHints { host_id } => PeerActionView::DeliverHints {
                host_id: *host_id,
            },
        }
    }
}

/// Models of a list of actions.
pub open spec fn peer_action_views(actions: Seq<PeerEventAction>) -> Seq<PeerActionView> {
    Seq::new(actions.len(), |i: int| actions[i]@)
}

/// What a connected peer leads to. `connected` counts the tracked peers, this
/// one with them.
pub open spec fn connect_actions(
    mode: DeploymentMode,
    peer: crate::address::PeerView,
    inbound: bool,
    connected: nat,
    committed: usize,
    raft_initialized: bool,
) -> Seq<PeerActionView> {
    match mode {
        DeploymentMode::Standalone | DeploymentMode::DegradedPair => seq![
            PeerActionView::TransitionToPair { peer, inbound },
        ],
        DeploymentMode::Pair => if connected >= 2 {
            seq![PeerActionView::TransitionToForming]
        } else {
            Seq::empty()
        },
        DeploymentMode::Forming => Seq::empty(),
        DeploymentMode::Cluster => seq![
            PeerActionView::TriggerClusterJoin { peer },
            PeerActionView::SendClusterInvite { host_id: peer.host_id },
        ],
        DeploymentMode::DegradedCluster => if !has_quorum(committed, connected) {
            Seq::empty()
        } else if raft_initialized {
            seq![PeerActionView::RestoreClusterMode]
        } else {
            seq![PeerActionView::RejoinClusterWithRaftInit]
        },
    }
}

/// What a connected peer leads to.
pub fn plan_peer_connected(
    mode: DeploymentMode,
    peer: &Peer,
    inbound: bool,
    connected: usize,
    committed: usize,
    raft_initialized: bool,
) -> (actions: Vec<PeerEventAction>)
    requires
        connected < usize::MAX,
    ensures
        peer_action_views(actions@) == connect_actions(
            mode,
            peer@,
            inbound,
            connected as nat,
            committed,
            raft_initialized,
        ),
{
    let mut actions: Vec<PeerEventAction> = Vec::new();
    match mode {
        DeploymentMode::Standalone | DeploymentMode::DegradedPair => {
            actions.push(PeerEventAction::TransitionToPair { peer: peer.copied(), inbound });
        },
        DeploymentMode::Pair => {
            if connected >= 2 {
                actions.push(PeerEventAction::TransitionToForming);
            }
        },
        DeploymentMode::Forming => {},
        DeploymentMode::Cluster => {
            actions.push(PeerEventAction::TriggerClusterJoin { peer: peer.copied() });
            actions.push(PeerEventAction::SendClusterInvite { host_id: peer.host_id });
        },
        DeploymentMode::DegradedCluster => {
            if quorum_connected(committed, connected) {
                if raft_initialized {
                    actions.push(PeerEventAction::RestoreClusterMode);
                } else {
                    actions.push(PeerEventAction::RejoinClusterWithRaftInit);
                }
            }
        },
    }
    assert(peer_action_views(actions@) =~= connect_actions(
        mode,
        peer@,
        inbound,
        connected as nat,
        committed,
        raft_initialized,
    ));
    actions
}

/// What a recovered peer leads to: in a cluster it is invited, and what was
/// kept for it is sent where the network is up.
pub open spec fn recover_actions(
    mode: DeploymentMode,
    host_id: u128,
    pending_hints: nat,
    has_network: bool,
) -> Seq<PeerActionView> {
    let invite = if mode == DeploymentMode::Cluster {
        seq![PeerActionView::SendClusterInvite { host_id }]
    } else {
        Seq::empty()
    };
    if pending_hints > 0 && has_network {
        invite.push(PeerActionView::DeliverHints { host_id })
    } else {
        invite
    }
}

/// What a recovered peer leads to.
pub fn plan_peer_recovered(
    mode: DeploymentMode,
    host_id: u128,
    pending_hints: usize,
    has_network: bool,
) -> (actions: Vec<PeerEventAction>)
    ensures
        peer_action_views(actions@) == recover_actions(
            mode,
            host_id,
            pending_hints as nat,
            has_network,
        ),
{
    let mut actions: Vec<PeerEventAction> = Vec::new();
    if mode == DeploymentMode::Cluster {
        actions.push(PeerEventAction::SendClusterInvite { host_id });
    }
    if pending_hints > 0 && has_network {
        actions.push(PeerEventAction::DeliverHints { host_id });
    }
    assert(peer_action_views(actions@) =~= recover_actions(
        mode,
        host_id,
        pending_hints as nat,
        has_network,
    ));
    actions
}

/// Tracking a known peer replaces its address in its place and changes no other. A peer
/// that is new comes last; where there is no room the oldest makes it.
pub proof fn tracking_replaces_or_appends(
    peers: Seq<crate::address::PeerView>,
    host_id: u128,
    addr: crate::address::AddrView,
    capacity: usize,
    i: int,
)
    ensures
        ({
            let after = noted(peers, host_id, addr, capacity);
            let peer = crate::address::PeerView { host_id, addr };
            let known = exists|k: int|
                0 <= k < peers.len() && (#[trigger] peers[k]).host_id == host_id;
            &&& 0 <= i < peers.len() && peers[i].host_id == host_id && (forall|k: int|
                0 <= k < i ==> (#[trigger] peers[k]).host_id != host_id) ==> after == peers.update(
                i,
                peer,
            )
            &&& !known && peers.len() < capacity ==> after == peers.push(peer)
            &&& !known && peers.len() >= capacity && peers.len() > 0 ==> after == peers.subrange(
                1,
                peers.len() as int,
            ).push(peer)
        }),
{
    if 0 <= i < peers.len() && peers[i].host_id == host_id && (forall|k: int|
        0 <= k < i ==> (#[trigger] peers[k]).host_id != host_id) {
        assert(first_at(peers, host_id, i));
        let j = choose|j: int| first_at(peers, host_id, j);
        assert(first_at(peers, host_id, j));
        assert(i == j);
        assert(crate::address::lists_host(peers, host_id));
    }
    if peers.len() > 0 {
        assert(peers.drop_first() =~= peers.subrange(1, peers.len() as int));
    }
}

/// Untracking a peer takes off every entry of its host and keeps every other, in order.
pub proof fn untracking_keeps_the_others(
    peers: Seq<crate::address::PeerView>,
    host_id: u128,
    peer: crate::address::PeerView,
)
    ensures
        peers.filter(not_host(host_id)).contains(peer) <==> peers.contains(peer) && peer.host_id
            != host_id,
        !crate::address::lists_host(peers, host_id) ==> peers.filter(not_host(host_id)) == peers,
{
    crate::collections::lemma_filter_membership(peers, not_host(host_id), peer);
    if !crate::address::lists_host(peers, host_id) {
        crate::collections::lemma_filter_passes(peers, not_host(host_id));
    }
}

/// A peer that connected is reached where its announced name resolves to, and else on the
/// host that it came from, at the port for nodes.
pub proof fn peers_are_reached_where_they_say(
    observed: crate::address::AddrView,
    port: u16,
    a: crate::address::AddrView,
)
    ensures
        reverse_addr(observed, port, Some(a)) == a,
        reverse_addr(observed, port, None).host == observed.host,
        reverse_addr(observed, port, None).port == port,
{
}

/// A cluster of a known size has a quorum exactly where more than half of its members are
/// connected, this node with them; one of no known size always has.
pub proof fn quorums_are_majorities(committed: usize, connected: nat)
    ensures
        committed > 0 ==> (has_quorum(committed, connected) <==> 2 * (connected + 1) > committed),
        has_quorum(0, connected),
{
}

/// What a connected peer leads to, in each mode: a node that is alone, or whose pair is
/// degraded, becomes a pair with it; a pair with two peers forms a cluster; a cluster lets
/// it join and invites it; a degraded cluster that has its quorum again is a cluster again,
/// by starting consensus where it does not run. Nothing else is done.
pub proof fn connected_peers_lead_on(
    peer: crate::address::PeerView,
    inbound: bool,
    connected: nat,
    committed: usize,
    raft: bool,
)
    ensures
        connect_actions(DeploymentMode::Standalone, peer, inbound, connected, committed, raft)
            == seq![PeerActionView::TransitionToPair { peer, inbound }],
        connect_actions(DeploymentMode::DegradedPair, peer, inbound, connected, committed, raft)
            == seq![PeerActionView::TransitionToPair { peer, inbound }],
        connected >= 2 ==> connect_actions(
            DeploymentMode::Pair,
            peer,
            inbound,
            connected,
            committed,
            raft,
        ) == seq![PeerActionView::TransitionToForming],
        connected < 2 ==> connect_actions(
            DeploymentMode::Pair,
            peer,
            inbound,
            connected,
            committed,
            raft,
        ).len() == 0,
        connect_actions(DeploymentMode::Forming, peer, inbound, connected, committed, raft).len()
            == 0,
        connect_actions(DeploymentMode::Cluster, peer, inbound, connected, committed, raft)
            == seq![
            PeerActionView::TriggerClusterJoin { peer },
            PeerActionView::SendClusterInvite { host_id: peer.host_id },
        ],
        ({
            let degraded = connect_actions(
                DeploymentMode::DegradedCluster,
                peer,
                inbound,
                connected,
                committed,
                raft,
            );
            let back = committed == 0 || 2 * (connected + 1) > committed;
            &&& !back ==> degraded.len() == 0
            &&& back && raft ==> degraded == seq![PeerActionView::RestoreClusterMode]
            &&& back && !raft ==> degraded == seq![PeerActionView::RejoinClusterWithRaftInit]
        }),
{
}

/// A recovered peer is invited by a cluster and by nobody else, and gets what was kept for
/// it where there is any and the network is up.
pub proof fn recovered_peers_get_their_hints(
    mode: DeploymentMode,
    host_id: u128,
    hints: nat,
    network: bool,
)
    ensures
        ({
            let a = recover_actions(mode, host_id, hints, network);
            let invited = mode == DeploymentMode::Cluster;
            let delivered = hints > 0 && network;
            &&& a.contains(PeerActionView::SendClusterInvite { host_id }) <==> invited
            &&& a.contains(PeerActionView::DeliverHints { host_id }) <==> delivered
            &&& a.len() == (if invited {
                1int
            } else {
                0
            }) + (if delivered {
                1int
            } else {
                0
            })
            &&& invited ==> a[0] == (PeerActionView::SendClusterInvite { host_id })
        }),
{
    let a = recover_actions(mode, host_id, hints, network);
    if hints > 0 && network {
        assert(a.last() == (PeerActionView::DeliverHints { host_id }));
    }
    if mode == DeploymentMode::Cluster {
        assert(a[0] == (PeerActionView::SendClusterInvite { host_id }));
    }
}

/// An action is modelled as it is, with the same peer.
pub proof fn models_say_what_peers_lead_to(action: PeerEventAction)
    ensures
        action matches PeerEventAction::TransitionToPair { peer, inbound } ==> action@ == (
        PeerActionView::TransitionToPair { peer: peer@, inbound }),
        action is TransitionToForming <==> action@ is TransitionToForming,
        action matches PeerEventAction::TriggerClusterJoin { peer } ==> action@ == (
        PeerActionView::TriggerClusterJoin { peer: peer@ }),
        action matches PeerEventAction::SendClusterInvite { host_id } ==> action@ == (
        PeerActionView::SendClusterInvite { host_id }),
        action is RejoinClusterWithRaftInit <==> action@ is RejoinClusterWithRaftInit,
        action is RestoreClusterMode <==> action@ is RestoreClusterMode,
        action matches PeerEventAction::DeliverHints { host_id } ==> action@ == (
        PeerActionView::DeliverHints { host_id }),
{
}

/// A list of actions is modelled item by item.
pub proof fn action_lists_are_modelled(actions: Seq<PeerEventAction>, i: int)
    ensures
        peer_action_views(actions).len() == actions.len(),
        0 <= i < actions.len() ==> peer_action_views(actions)[i] == actions[i]@,
{
}

} // verus!
