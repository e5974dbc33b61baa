//! What holds of a node over several events.

use vstd::prelude::*;

use crate::controller::events::EventContext;
use crate::controller::membership::JoinCandidate;
use crate::controller::mode_controller::{
    ActionView, ControllerView, DdlPath, PairContextView, WritePath,
};
use crate::mode::{DeploymentMode, PairRole};

verus! {

/// A node that has just started is in a sound state.
pub proof fn starting_states_are_sound(
    mode: DeploymentMode,
    write_path: WritePath,
    ddl_path: DdlPath,
    local: u128,
)
    ensures
        ControllerView::started(mode, write_path, ddl_path).wf(local),
{
}

/// A peer that vanishes leaves a sound state, and is a peer no longer.
pub proof fn disconnects_keep_the_state_sound(v: ControllerView, local: u128, host_id: u128)
    requires
        v.wf(local),
    ensures
        v.disconnected(host_id).wf(local),
        !crate::address::lists_host(v.disconnected(host_id).connected, host_id),
        v.disconnected(host_id).connected == v.connected.filter(
            crate::controller::peer_events::not_host(host_id),
        ),
{
    lemma_without_host(v.connected, host_id, local);
    crate::collections::lemma_filter_shortens(
        v.connected,
        crate::controller::peer_events::not_host(host_id),
    );
}

proof fn lemma_without_host(peers: Seq<crate::address::PeerView>, host_id: u128, other: u128)
    ensures
        ({
            let left = peers.filter(crate::controller::peer_events::not_host(host_id));
            &&& !crate::address::lists_host(left, host_id)
            &&& crate::controller::peer_events::hosts_distinct(peers)
                ==> crate::controller::peer_events::hosts_distinct(left)
            &&& !crate::address::lists_host(peers, other) ==> !crate::address::lists_host(
                left,
                other,
            )
            &&& forall|k: int| 0 <= k < left.len() ==> peers.contains(#[trigger] left[k])
        }),
    decreases peers.len(),
{
    reveal(Seq::filter);
    let p = crate::controller::peer_events::not_host(host_id);
    let left = peers.filter(p);
    if peers.len() > 0 {
        let head = peers.drop_last();
        lemma_without_host(head, host_id, other);
        let l = head.filter(p);
        assert forall|k: int| 0 <= k < left.len() implies peers.contains(#[trigger] left[k])
            && left[k].host_id != host_id by {
            if k < l.len() {
                assert(l[k] == left[k]);
                assert(head.contains(l[k]));
                let j = choose|j: int| 0 <= j < head.len() && head[j] == l[k];
                assert(peers[j] == left[k]);
                assert(!crate::address::lists_host(l, host_id));
            } else {
                assert(left[k] == peers.last());
                assert(peers[peers.len() - 1] == left[k]);
            }
        }
        if crate::controller::peer_events::hosts_distinct(peers) {
            assert forall|a: int, b: int| 0 <= a < b < head.len() implies (
            #[trigger] head[a]).host_id != (#[trigger] head[b]).host_id by {
                assert(peers[a].host_id != peers[b].host_id);
            }
            assert forall|a: int, b: int| 0 <= a < b < left.len() implies (
            #[trigger] left[a]).host_id != (#[trigger] left[b]).host_id by {
                if b < l.len() {
                    assert(l[a].host_id != l[b].host_id);
                } else {
                    assert(left[a] == l[a]);
                    assert(head.contains(l[a]));
                    let j = choose|j: int| 0 <= j < head.len() && head[j] == l[a];
                    assert(peers[j].host_id != peers[peers.len() - 1].host_id);
                }
            }
        }
        if !crate::address::lists_host(peers, other) {
            assert forall|k: int| 0 <= k < left.len() implies (#[trigger] left[k]).host_id
                != other by {
                assert(peers.contains(left[k]));
                let j = choose|j: int| 0 <= j < peers.len() && peers[j] == left[k];
                assert(peers[j].host_id != other);
            }
        }
    }
}

/// A pair that loses its peer takes no writes, still serves reads, and keeps
/// what it knows of the peer.
pub proof fn lost_peer_is_remembered(v: ControllerView, host_id: u128)
    requires
        v.mode == DeploymentMode::Pair,
    ensures
        v.disconnected(host_id).mode == DeploymentMode::DegradedPair,
        v.disconnected(host_id).write_path == WritePath::Unavailable,
        v.disconnected(host_id).ddl_path == DdlPath::Unavailable,
        v.disconnected(host_id).pair == v.pair,
        v.disconnected(host_id).serves_clients(),
{
}

/// When the peer of a pair comes back, the pair is restored with the roles it
/// had.
pub proof fn returning_peer_restores_the_pair(
    ctx: EventContext,
    v: ControllerView,
    peer: crate::address::PeerView,
    raft_initialized: bool,
    candidate: JoinCandidate,
)
    requires
        v.mode == DeploymentMode::Pair,
        v.has_network,
        !v.force_promoted,
        v.pair is Some,
        v.pair->0.role == crate::controller::pair::pair_role(
            ctx.facts.local_host_id,
            peer.host_id,
            false,
            v.promote_epoch,
            ctx.known,
        ),
    ensures
        ({
            let lost = v.disconnected(peer.host_id);
            let back = crate::controller::events::outbound_run(
                ctx,
                lost,
                peer,
                raft_initialized,
                candidate,
            ).v;
            &&& back.mode == DeploymentMode::Pair
            &&& back.write_path == WritePath::Pair
            &&& back.ddl_path == DdlPath::Pair
            &&& back.pair == Some(PairContextView { role: v.pair->0.role, peer })
        }),
{
    reveal_with_fuel(crate::controller::events::RunView::after_all, 3);
}

/// A promoted node stays primary when its peer comes back, and brings it up to
/// date, whatever the host ids and whoever connected; the promotion is used up by
/// that. The one peer that it yields to is one that is known to have been promoted
/// meanwhile too and to have the higher count, or the same count and the lower host
/// id; to that one it sends nothing.
pub proof fn promotion_lasts_until_the_peer_is_back(
    ctx: EventContext,
    v: ControllerView,
    peer: crate::address::PeerView,
    reverse: crate::address::AddrView,
    raft_initialized: bool,
    candidate: JoinCandidate,
)
    requires
        v.has_network,
    ensures
        v.promoted().serves_clients(),
        ({
            let p = v.promoted();
            let dialed = crate::controller::events::outbound_run(
                ctx,
                p,
                peer,
                raft_initialized,
                candidate,
            );
            let called = crate::controller::events::inbound_run(
                ctx,
                p,
                peer,
                reverse,
                raft_initialized,
                candidate,
            );
            let yields = ctx.known matches Some(k) && k.pending && (k.epoch > p.promote_epoch || (
            k.epoch == p.promote_epoch && peer.host_id < ctx.facts.local_host_id));
            let role = if yields {
                PairRole::Secondary
            } else {
                PairRole::Primary
            };
            &&& paired_after_promotion(dialed, p, peer, role)
            &&& paired_after_promotion(called, p, peer, role)
        }),
{
    reveal_with_fuel(crate::controller::events::RunView::after_all, 3);
    crate::controller::pair::promoted_node_is_primary(
        ctx.facts.local_host_id,
        peer.host_id,
        v.promoted().promote_epoch,
        ctx.known,
    );
}

/// An event left a node that had been promoted in a pair with `peer`, in that role:
/// the promotion is used up, and the peer is brought up to date as the role asks.
pub open spec fn paired_after_promotion(
    end: crate::controller::events::RunView,
    before: ControllerView,
    peer: crate::address::PeerView,
    role: PairRole,
) -> bool {
    &&& end.v.mode == DeploymentMode::Pair
    &&& end.v.pair == Some(PairContextView { role, peer })
    &&& end.v.serves_clients() == (role == PairRole::Primary)
    &&& !end.v.force_promoted
    &&& end.v.promote_epoch >= before.promote_epoch
    &&& end.out.last() matches ActionView::EnterPair { plan } && plan.was_promoted && plan.role
        == role && plan.catch_up == crate::controller::pair::catch_up_steps(role, true)
}

/// A node that starts alone becomes a pair with the first peer it connects to
/// and forms a cluster with the first two, which count three members with it.
pub proof fn two_peers_form_a_cluster(
    ctx: EventContext,
    v: ControllerView,
    first: crate::address::PeerView,
    second: crate::address::PeerView,
    candidate: JoinCandidate,
)
    requires
        v == (ControllerView {
            has_network: true,
            ..ControllerView::started(
                DeploymentMode::Standalone,
                WritePath::Direct,
                DdlPath::Direct,
            )
        }),
        first.host_id != second.host_id,
        !ctx.enters_cluster,
    ensures
        ({
            let one = crate::controller::events::outbound_run(ctx, v, first, false, candidate);
            let two = crate::controller::events::outbound_run(
                ctx,
                one.v,
                second,
                false,
                candidate,
            );
            &&& one.v.mode == DeploymentMode::Pair
            &&& two.v.mode == DeploymentMode::Forming
            &&& two.v.committed == 3
            &&& !two.v.serves_clients()
            &&& two.v.ddl_path == DdlPath::Forming
            &&& two.out.last() == (ActionView::FormCluster { peers: seq![first, second] })
            &&& two.v.in_cluster().mode == DeploymentMode::Cluster
            &&& two.v.in_cluster().serves_clients()
        }),
{
    reveal_with_fuel(crate::controller::events::RunView::after_all, 3);
    let one = crate::controller::events::outbound_run(ctx, v, first, false, candidate);
    assert(!crate::address::lists_host(v.connected, first.host_id));
    assert(v.with_peer(first.host_id, first.addr).connected =~= seq![first]);
    assert(one.v.connected =~= seq![first]);
    assert(one.v.connected[0] == first);
    assert(!crate::address::lists_host(one.v.connected, second.host_id));
    assert(one.v.with_peer(second.host_id, second.addr).connected =~= seq![first, second]);
}

/// A cluster that loses its quorum takes no writes and no schema changes; it is
/// judged by the members it was formed with, not by those it still sees.
pub proof fn lost_quorum_stops_writes(v: ControllerView, host_id: u128)
    requires
        v.mode == DeploymentMode::Cluster,
        v.committed > 0,
        v.disconnected(host_id).connected.len() + 1 < v.committed / 2 + 1,
    ensures
        v.disconnected(host_id).mode == DeploymentMode::DegradedCluster,
        v.disconnected(host_id).write_path == WritePath::Unavailable,
        v.disconnected(host_id).ddl_path == DdlPath::Unavailable,
{
}

/// A cluster with a quorum goes on without a lost peer.
pub proof fn kept_quorum_changes_nothing(v: ControllerView, host_id: u128)
    requires
        v.mode == DeploymentMode::Cluster,
        crate::controller::peer_events::has_quorum(
            v.committed,
            v.connected.filter(crate::controller::peer_events::not_host(host_id)).len(),
        ),
    ensures
        v.disconnected(host_id).mode == v.mode,
        v.disconnected(host_id).write_path == v.write_path,
        v.disconnected(host_id).ddl_path == v.ddl_path,
{
}

/// Of two nodes in a pair that was made without promotions, exactly one serves
/// clients.
pub proof fn one_of_a_pair_serves_clients(
    a: ControllerView,
    b: ControllerView,
    id_a: u128,
    id_b: u128,
)
    requires
        id_a != id_b,
        a.mode == DeploymentMode::Pair,
        b.mode == DeploymentMode::Pair,
        a.pair is Some,
        b.pair is Some,
        a.pair->0.role == crate::controller::pair::pair_role(
            id_a,
            id_b,
            false,
            a.promote_epoch,
            None,
        ),
        b.pair->0.role == crate::controller::pair::pair_role(
            id_b,
            id_a,
            false,
            b.promote_epoch,
            None,
        ),
    ensures
        a.serves_clients() != b.serves_clients(),
{
}

/// A member that returns without consensus starts it once a quorum is
/// connected, and does nothing before.
pub proof fn returning_member_waits_for_quorum(
    ctx: EventContext,
    v: ControllerView,
    peer: crate::address::PeerView,
    candidate: JoinCandidate,
)
    requires
        v.mode == DeploymentMode::DegradedCluster,
        v.has_network,
    ensures
        ({
            let known = v.with_peer(peer.host_id, peer.addr);
            let end = crate::controller::events::outbound_run(ctx, v, peer, false, candidate);
            &&& end.v == known
            &&& end.out == (if crate::controller::peer_events::has_quorum(
                known.committed,
                known.connected.len(),
            ) {
                seq![
                    ActionView::RegisterPeer { host_id: peer.host_id },
                    ActionView::FormCluster { peers: known.connected },
                ]
            } else {
                seq![ActionView::RegisterPeer { host_id: peer.host_id }]
            })
        }),
{
    reveal_with_fuel(crate::controller::events::RunView::after_all, 3);
    let known = v.with_peer(peer.host_id, peer.addr);
    let end = crate::controller::events::outbound_run(ctx, v, peer, false, candidate);
    if crate::controller::peer_events::has_quorum(known.committed, known.connected.len()) {
        assert(end.out =~= seq![
            ActionView::RegisterPeer { host_id: peer.host_id },
            ActionView::FormCluster { peers: known.connected },
        ]);
    }
}

/// After the nodes of a pair have swapped roles, exactly one of them is primary and
/// serves clients, namely the one that both were told of; swapping again undoes it,
/// and the pair goes on as before.
pub proof fn swapped_pair_has_one_primary(
    a: ControllerView,
    b: ControllerView,
    id_a: u128,
    id_b: u128,
    new_primary: u128,
    next_primary: u128,
)
    requires
        id_a != id_b,
        new_primary == id_a || new_primary == id_b,
        a.mode == DeploymentMode::Pair,
        b.mode == DeploymentMode::Pair,
        a.pair is Some,
        b.pair is Some,
    ensures
        ({
            let a2 = a.with_primary(id_a, new_primary);
            let b2 = b.with_primary(id_b, new_primary);
            &&& a2.serves_clients() <==> new_primary == id_a
            &&& b2.serves_clients() <==> new_primary == id_b
            &&& a2.serves_clients() != b2.serves_clients()
            &&& a2.pair->0.peer == a.pair->0.peer
            &&& a2.mode == a.mode && a2.write_path == a.write_path && a2.ddl_path == a.ddl_path
            &&& a2.with_primary(id_a, next_primary) == a.with_primary(id_a, next_primary)
            &&& a2.wf(id_a) == a.wf(id_a)
        }),
{
}

} // verus!
