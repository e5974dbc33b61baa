//! What each change of a node's state sets and keeps, and what each event leads to.

use vstd::prelude::*;

use crate::controller::events::{EventContext, PeerFacts};
use crate::controller::membership::{JoinCandidate, JoinDecision};
use crate::controller::mode_controller::{
    ActionView, ClusterStateHolder, ControllerAction, ControllerView, DdlPath, ModeController,
    NodeFacts, WritePath,
};
use crate::controller::pair::PeerPromotion;
use crate::mode::{DeploymentMode, PairRole};

verus! {

/// Two states differ at most in the mode, the paths, the cluster state, the pair and the
/// promotions.
pub open spec fn same_surroundings(a: ControllerView, b: ControllerView) -> bool {
    &&& a.has_network == b.has_network
    &&& a.connected == b.connected
    &&& a.peer_dcs == b.peer_dcs
    &&& a.approved == b.approved
    &&& a.pending == b.pending
    &&& a.recent_invites == b.recent_invites
    &&& a.recent_connects == b.recent_connects
}

/// A node in a pair sends writes and schema changes to the pair, knows its role and its
/// peer, has used up its promotion, and is not behind the peer's count.
pub proof fn pairs_route_through_the_primary(
    v: ControllerView,
    role: PairRole,
    peer: crate::address::PeerView,
    known: Option<PeerPromotion>,
)
    ensures
        ({
            let after = v.in_pair(role, peer, known);
            &&& after.mode == DeploymentMode::Pair
            &&& after.write_path == WritePath::Pair
            &&& after.ddl_path == DdlPath::Pair
            &&& after.cluster_state == ClusterStateHolder::Pair
            &&& after.pair is Some && after.pair->0.role == role && after.pair->0.peer == peer
            &&& !after.force_promoted
            &&& after.promote_epoch >= v.promote_epoch
            &&& known matches Some(p) ==> after.promote_epoch >= p.epoch
            &&& known matches Some(p) ==> after.promote_epoch == v.promote_epoch
                || after.promote_epoch == p.epoch
            &&& known is None ==> after.promote_epoch == v.promote_epoch
            &&& after.committed == v.committed
            &&& same_surroundings(after, v)
        }),
{
}

/// A pair without its peer takes no writes and no schema changes, and changes in nothing
/// else.
pub proof fn degraded_pairs_take_no_writes(v: ControllerView)
    ensures
        ({
            let after = v.degraded();
            &&& after.mode == DeploymentMode::DegradedPair
            &&& after.write_path == WritePath::Unavailable
            &&& after.ddl_path == DdlPath::Unavailable
            &&& after.pair == v.pair && after.cluster_state == v.cluster_state
            &&& after.force_promoted == v.force_promoted && after.promote_epoch == v.promote_epoch
            &&& after.committed == v.committed
            &&& same_surroundings(after, v)
        }),
{
}

/// A node that forms a cluster queues schema changes and counts the peers and itself; it
/// writes as it did before.
pub proof fn forming_clusters_queue_schema_changes(v: ControllerView, peers: nat)
    requires
        peers < usize::MAX,
    ensures
        ({
            let after = v.forming(peers);
            &&& after.mode == DeploymentMode::Forming
            &&& after.ddl_path == DdlPath::Forming
            &&& after.committed == peers + 1
            &&& after.write_path == v.write_path && after.cluster_state == v.cluster_state
            &&& after.pair == v.pair
            &&& after.force_promoted == v.force_promoted && after.promote_epoch == v.promote_epoch
            &&& same_surroundings(after, v)
        }),
{
}

/// A node in a cluster writes to the replicas, changes the schema directly until consensus
/// runs, and is in a pair no longer.
pub proof fn clusters_write_to_replicas(v: ControllerView)
    ensures
        ({
            let after = v.in_cluster();
            &&& after.mode == DeploymentMode::Cluster
            &&& after.write_path == WritePath::Cluster
            &&& after.ddl_path == DdlPath::Direct
            &&& after.cluster_state == ClusterStateHolder::Cluster
            &&& after.pair is None
            &&& after.committed == v.committed
            &&& after.force_promoted == v.force_promoted && after.promote_epoch == v.promote_epoch
            &&& same_surroundings(after, v)
        }),
{
}

/// A promoted node stands alone: it writes and changes the schema directly, knows no peer,
/// and remembers that it was promoted, once more than before.
pub proof fn promoted_nodes_stand_alone(v: ControllerView)
    ensures
        ({
            let after = v.promoted();
            &&& after.mode == DeploymentMode::Standalone
            &&& after.write_path == WritePath::Direct
            &&& after.ddl_path == DdlPath::Direct
            &&& after.cluster_state == ClusterStateHolder::Standalone
            &&& after.pair is None
            &&& after.force_promoted
            &&& v.promote_epoch < u64::MAX ==> after.promote_epoch == v.promote_epoch + 1
            &&& v.promote_epoch == u64::MAX ==> after.promote_epoch == 0
            &&& after.connected.len() == 0
            &&& after.has_network == v.has_network && after.peer_dcs == v.peer_dcs
            &&& after.approved == v.approved && after.pending == v.pending
            &&& after.recent_invites == v.recent_invites
            &&& after.recent_connects == v.recent_connects
            &&& after.committed == v.committed
        }),
{
}

/// Naming a primary sets the role of this node in its pair, and nothing else; without a
/// pair it does nothing.
pub proof fn the_named_node_is_primary(v: ControllerView, local: u128, primary: u128)
    ensures
        ({
            let after = v.with_primary(local, primary);
            &&& v.pair is None ==> after == v
            &&& v.pair is Some ==> after.pair is Some && after.pair->0.peer == v.pair->0.peer
            &&& v.pair is Some ==> (after.pair->0.role == PairRole::Primary <==> primary == local)
            &&& after.mode == v.mode && after.write_path == v.write_path
            &&& after.ddl_path == v.ddl_path && after.cluster_state == v.cluster_state
            &&& after.force_promoted == v.force_promoted && after.promote_epoch == v.promote_epoch
            &&& after.committed == v.committed
            &&& same_surroundings(after, v)
        }),
{
}

/// A peer that vanishes is a peer no longer, and every other still is. A pair is degraded
/// by it; a cluster is where fewer than a majority of its members are left; any other node
/// goes on.
pub proof fn vanished_peers_are_forgotten(
    v: ControllerView,
    host_id: u128,
    peer: crate::address::PeerView,
)
    ensures
        ({
            let after = v.disconnected(host_id);
            let left = after.connected.len();
            let lost = v.mode == DeploymentMode::Pair || v.mode == DeploymentMode::Cluster
                && v.committed > 0 && 2 * (left + 1) <= v.committed;
            &&& after.connected.contains(peer) <==> v.connected.contains(peer) && peer.host_id
                != host_id
            &&& !lost ==> after.mode == v.mode && after.write_path == v.write_path
                && after.ddl_path == v.ddl_path
            &&& lost ==> after.write_path == WritePath::Unavailable && after.ddl_path
                == DdlPath::Unavailable
            &&& v.mode == DeploymentMode::Pair ==> after.mode == DeploymentMode::DegradedPair
            &&& v.mode == DeploymentMode::Cluster && lost ==> after.mode
                == DeploymentMode::DegradedCluster
            &&& after.pair == v.pair && after.cluster_state == v.cluster_state
            &&& after.force_promoted == v.force_promoted && after.promote_epoch == v.promote_epoch
            &&& after.committed == v.committed && after.has_network == v.has_network
            &&& after.peer_dcs == v.peer_dcs && after.approved == v.approved
            &&& after.pending == v.pending && after.recent_invites == v.recent_invites
            &&& after.recent_connects == v.recent_connects
        }),
{
    crate::controller::peer_events::untracking_keeps_the_others(v.connected, host_id, peer);
    crate::controller::peer_events::quorums_are_majorities(
        v.committed,
        v.disconnected(host_id).connected.len(),
    );
}

/// A peer that connects is known at its latest address, in its place where it was known and
/// last where it was not; of a thousand that are known the oldest makes room.
pub proof fn connected_peers_are_known(
    v: ControllerView,
    host_id: u128,
    addr: crate::address::AddrView,
    i: int,
)
    ensures
        ({
            let after = v.with_peer(host_id, addr);
            let peer = crate::address::PeerView { host_id, addr };
            let known = exists|k: int|
                0 <= k < v.connected.len() && (#[trigger] v.connected[k]).host_id == host_id;
            &&& 0 <= i < v.connected.len() && v.connected[i].host_id == host_id && (forall|k: int|
                0 <= k < i ==> (#[trigger] v.connected[k]).host_id != host_id) ==> after.connected
                == v.connected.update(i, peer)
            &&& !known && v.connected.len() < 1000 ==> after.connected == v.connected.push(peer)
            &&& !known && v.connected.len() >= 1000 ==> after.connected == v.connected.subrange(
                1,
                v.connected.len() as int,
            ).push(peer)
            &&& after == (ControllerView { connected: after.connected, ..v })
        }),
{
    crate::controller::peer_events::tracking_replaces_or_appends(
        v.connected,
        host_id,
        addr,
        crate::controller::peer_events::MAX_CONNECTED_PEERS,
        i,
    );
}

/// Clients are served in every mode but two: while a cluster forms by nobody, and in a pair
/// by the primary alone.
pub proof fn clients_are_served_by_mode(v: ControllerView)
    ensures
        v.mode == DeploymentMode::Forming ==> !v.serves_clients(),
        v.mode == DeploymentMode::Pair ==> (v.serves_clients() <==> v.pair is Some && v.pair->0.role
            == PairRole::Primary),
        v.mode != DeploymentMode::Forming && v.mode != DeploymentMode::Pair ==> v.serves_clients(),
{
}

/// A node starts in the given mode with the given paths, knowing nobody.
pub proof fn nodes_start_knowing_nobody(
    mode: DeploymentMode,
    write_path: WritePath,
    ddl_path: DdlPath,
)
    ensures
        ({
            let v = ControllerView::started(mode, write_path, ddl_path);
            &&& v.mode == mode && v.write_path == write_path && v.ddl_path == ddl_path
            &&& v.cluster_state == ClusterStateHolder::Standalone
            &&& !v.has_network && v.pair is None
            &&& !v.force_promoted && v.promote_epoch == 0 && v.committed == 0
            &&& v.connected.len() == 0 && v.pending.len() == 0
            &&& forall|h: u128| !#[trigger] v.approved.contains(h)
            &&& forall|h: u128| !#[trigger] v.peer_dcs.contains_key(h)
            &&& forall|h: u128| !#[trigger] v.recent_invites.contains_key(h)
            &&& forall|h: u128| !#[trigger] v.recent_connects.contains_key(h)
        }),
{
}

/// The model of a node has each part of its state in its own place.
pub proof fn models_say_how_a_node_is(c: ModeController)
    ensures
        c@.mode == c.mode && c@.write_path == c.write_path && c@.ddl_path == c.ddl_path,
        c@.cluster_state == c.cluster_state && c@.has_network == c.has_network,
        c.pair_context matches Some(p) ==> c@.pair is Some && c@.pair->0.role == p.role
            && c@.pair->0.peer == p.peer@,
        c.pair_context is None ==> c@.pair is None,
        c@.force_promoted == c.force_promoted && c@.promote_epoch == c.promote_epoch,
        c@.connected == crate::address::peer_views(c.connected_peers@),
        c@.peer_dcs == c.peer_dcs@ && c@.approved == c.approved_nodes@,
        c@.pending == c.pending_joins@,
        c@.recent_invites == c.recent_reconnect_invites@,
        c@.recent_connects == c.recent_invite_connects@,
        c@.committed == c.committed_cluster_size,
        c.facts().config == c.config && c.facts().local_host_id == c.local_host_id,
        c.facts().internode_port == c.internode_port,
        c.facts().broadcast_addr == c.broadcast_addr@,
{
}

/// An action is modelled as it is, with the same peers and times.
pub proof fn models_say_what_is_asked_for(a: ControllerAction)
    ensures
        a matches ControllerAction::RegisterPeer { host_id } ==> a@ == (ActionView::RegisterPeer {
            host_id,
        }),
        a matches ControllerAction::RefreshOutbound { peer } ==> a@ == (
        ActionView::RefreshOutbound { peer: peer@ }),
        a matches ControllerAction::EnterPair { plan } ==> a@ == (ActionView::EnterPair {
            plan: plan@,
        }),
        a matches ControllerAction::FormCluster { peers } ==> a@ == (ActionView::FormCluster {
            peers: crate::address::peer_views(peers@),
        }),
        a matches ControllerAction::BeginJoin { candidate } ==> a@ == (ActionView::BeginJoin {
            candidate,
        }),
        a matches ControllerAction::SendInvite { plan, reserved_at } ==> a@ == (
        ActionView::SendInvite {
            recipient: plan.recipient,
            initiator: plan.initiator,
            peers: crate::address::peer_views(plan.peers@),
            reserved_at,
        }),
        a matches ControllerAction::DeliverHints { host_id } ==> a@ == (ActionView::DeliverHints {
            host_id,
        }),
{
}

/// An invite is sent where the network is up and the peer was not invited within half a
/// minute. It is to that peer, from this node, names the other peers and this node, and its
/// time is noted; nothing else changes. Otherwise nothing is sent and nothing changes.
pub proof fn invites_are_sent_and_noted(
    facts: NodeFacts,
    v: ControllerView,
    host_id: u128,
    now: u64,
    peer: crate::address::PeerView,
)
    ensures
        ({
            let (after, sent) = crate::controller::mode_controller::invite_outcome(
                facts,
                v,
                host_id,
                now,
            );
            let waits = v.recent_invites.contains_key(host_id) && now < v.recent_invites[host_id]
                + 30_000;
            &&& sent is Some <==> v.has_network && !waits
            &&& sent is None ==> after == v
            &&& sent matches Some(a) ==> {
                &&& a matches ActionView::SendInvite { recipient, initiator, peers, reserved_at }
                &&& recipient == host_id
                &&& initiator == facts.local_host_id
                &&& reserved_at == now
                &&& peers.contains(peer) <==> (v.connected.contains(peer) && peer.host_id
                    != host_id && peer.host_id != facts.local_host_id) || (peer.host_id
                    == facts.local_host_id && peer.addr == facts.broadcast_addr)
                &&& after.recent_invites.contains_key(host_id)
                &&& after.recent_invites[host_id] == now
                &&& after == (ControllerView { recent_invites: after.recent_invites, ..v })
                &&& v.recent_invites.len() < 1000 ==> after.recent_invites
                    == v.recent_invites.insert(host_id, now)
            }
        }),
{
    crate::controller::invite::invites_name_everybody_else(
        facts.local_host_id,
        Some(facts.broadcast_addr),
        host_id,
        v.connected,
        peer,
    );
}

/// A node that is alone, or whose pair is degraded, becomes a pair with the peer that it
/// connects to, where the network is up: with the plan for that peer, and in the role that
/// the plan gives it. Without the network it takes note of the peer and no more.
pub proof fn lone_nodes_pair_up(
    ctx: EventContext,
    v: ControllerView,
    peer: crate::address::PeerView,
    raft: bool,
    c: JoinCandidate,
)
    requires
        v.mode == DeploymentMode::Standalone || v.mode == DeploymentMode::DegradedPair,
    ensures
        ({
            let known = v.with_peer(peer.host_id, peer.addr);
            let end = crate::controller::events::outbound_run(ctx, v, peer, raft, c);
            &&& end.out[0] == (ActionView::RegisterPeer { host_id: peer.host_id })
            &&& !v.has_network ==> end.v == known && end.out.len() == 1
            &&& v.has_network ==> {
                &&& end.out.len() == 2
                &&& end.out[1] matches ActionView::EnterPair { plan }
                &&& plan.peer == peer && plan.reverse is None
                &&& plan.was_promoted == v.force_promoted
                &&& plan.role == crate::controller::pair::pair_role(
                    ctx.facts.local_host_id,
                    peer.host_id,
                    v.force_promoted,
                    v.promote_epoch,
                    ctx.known,
                )
                &&& end.v == known.in_pair(plan.role, peer, ctx.known)
            }
        }),
{
    reveal_with_fuel(crate::controller::events::RunView::after_all, 3);
}

/// A pair that connects to a second peer forms a cluster with all that it is connected to,
/// where the network is up; with one peer it stays a pair.
pub proof fn second_peers_make_a_cluster(
    ctx: EventContext,
    v: ControllerView,
    peer: crate::address::PeerView,
    raft: bool,
    c: JoinCandidate,
)
    requires
        v.mode == DeploymentMode::Pair,
        !ctx.enters_cluster,
    ensures
        ({
            let known = v.with_peer(peer.host_id, peer.addr);
            let end = crate::controller::events::outbound_run(ctx, v, peer, raft, c);
            let forms = v.has_network && known.connected.len() >= 2;
            &&& end.out[0] == (ActionView::RegisterPeer { host_id: peer.host_id })
            &&& !forms ==> end.v == known && end.out.len() == 1
            &&& forms ==> end.out.len() == 2 && end.out[1] == (ActionView::FormCluster {
                peers: known.connected,
            }) && end.v == known.forming(known.connected.len())
        }),
{
    reveal_with_fuel(crate::controller::events::RunView::after_all, 3);
}

/// A node that forms a cluster takes note of a peer that it connects to, and no more.
pub proof fn forming_nodes_take_note(
    ctx: EventContext,
    v: ControllerView,
    peer: crate::address::PeerView,
    raft: bool,
    c: JoinCandidate,
)
    requires
        v.mode == DeploymentMode::Forming,
    ensures
        ({
            let end = crate::controller::events::outbound_run(ctx, v, peer, raft, c);
            &&& end.v == v.with_peer(peer.host_id, peer.addr)
            &&& end.out == seq![ActionView::RegisterPeer { host_id: peer.host_id }]
        }),
{
    reveal_with_fuel(crate::controller::events::RunView::after_all, 3);
}

/// A cluster lets a peer that it connects to join, where a join is due, and invites it, once,
/// where an invite is due. The join is tracked, and both are asked for in this order.
pub proof fn clusters_admit_and_invite(
    ctx: EventContext,
    v: ControllerView,
    peer: crate::address::PeerView,
    raft: bool,
    c: JoinCandidate,
)
    requires
        v.mode == DeploymentMode::Cluster,
    ensures
        ({
            let known = v.with_peer(peer.host_id, peer.addr);
            let end = crate::controller::events::outbound_run(ctx, v, peer, raft, c);
            let joins = crate::controller::membership::join_decision(
                c,
                ctx.facts.config.auto_join,
                v.approved,
                v.pending,
            ) == JoinDecision::Begin;
            let (invited, sent) = crate::controller::mode_controller::invite_outcome(
                ctx.facts,
                known,
                peer.host_id,
                ctx.now,
            );
            let register = seq![ActionView::RegisterPeer { host_id: peer.host_id }];
            let joining = if joins {
                register.push(ActionView::BeginJoin { candidate: c })
            } else {
                register
            };
            &&& end.out == match sent {
                Some(a) => joining.push(a),
                None => joining,
            }
            &&& end.v.pending == if joins {
                crate::controller::membership::with_pending(v.pending, c.host_id)
            } else {
                v.pending
            }
            &&& end.v == (ControllerView { pending: end.v.pending, ..invited })
        }),
{
    reveal_with_fuel(crate::controller::events::RunView::after_all, 3);
    let known = v.with_peer(peer.host_id, peer.addr);
    let start = crate::controller::events::begun(
        known,
        seq![ActionView::RegisterPeer { host_id: peer.host_id }],
        Some(c),
    );
    let actions = crate::controller::peer_events::connect_actions(
        known.mode,
        peer,
        false,
        known.connected.len(),
        known.committed,
        raft,
    );
    let one = start.after(ctx, actions[0]);
    assert(actions.drop_first()[0] == actions[1]);
    assert(actions.drop_first().drop_first().len() == 0);
    assert(start.after_all(ctx, actions) == one.after_all(ctx, actions.drop_first()));
    assert(one.after_all(ctx, actions.drop_first()) == one.after(ctx, actions[1]).after_all(
        ctx,
        actions.drop_first().drop_first(),
    ));
}

/// A degraded cluster that has its quorum again is a cluster again where consensus runs, and
/// prepares to form where it does not and the network is up; without its quorum it takes
/// note of the peer and no more.
pub proof fn quorums_restore_clusters(
    ctx: EventContext,
    v: ControllerView,
    peer: crate::address::PeerView,
    raft: bool,
    c: JoinCandidate,
)
    requires
        v.mode == DeploymentMode::DegradedCluster,
    ensures
        ({
            let known = v.with_peer(peer.host_id, peer.addr);
            let end = crate::controller::events::outbound_run(ctx, v, peer, raft, c);
            let back = known.committed == 0 || 2 * (known.connected.len() + 1) > known.committed;
            let register = seq![ActionView::RegisterPeer { host_id: peer.host_id }];
            &&& !back ==> end.v == known && end.out == register
            &&& back && raft ==> end.v == (ControllerView {
                mode: DeploymentMode::Cluster,
                ..known
            }) && end.out == register
            &&& back && !raft ==> end.v == known
            &&& back && !raft && v.has_network ==> end.out == register.push(
                ActionView::FormCluster { peers: known.connected },
            )
            &&& back && !raft && !v.has_network ==> end.out == register
        }),
{
    reveal_with_fuel(crate::controller::events::RunView::after_all, 3);
    crate::controller::peer_events::quorums_are_majorities(
        v.committed,
        v.with_peer(peer.host_id, peer.addr).connected.len(),
    );
}

/// A peer that connects to this node is known where it can be reached, and a connection to
/// that place is asked for where the network is up. A node that is alone becomes a pair with
/// it, connecting back to the host that it came from at the port for nodes.
pub proof fn inbound_peers_are_connected_back(
    ctx: EventContext,
    v: ControllerView,
    peer: crate::address::PeerView,
    reverse: crate::address::AddrView,
    raft: bool,
    c: JoinCandidate,
)
    requires
        v.mode == DeploymentMode::Standalone || v.mode == DeploymentMode::DegradedPair,
    ensures
        ({
            let known = v.with_peer(peer.host_id, reverse);
            let end = crate::controller::events::inbound_run(ctx, v, peer, reverse, raft, c);
            &&& end.out[0] == (ActionView::RegisterPeer { host_id: peer.host_id })
            &&& !v.has_network ==> end.v == known && end.out.len() == 1
            &&& v.has_network ==> {
                &&& end.out.len() == 3
                &&& end.out[1] == (ActionView::RefreshOutbound {
                    peer: crate::address::PeerView { host_id: peer.host_id, addr: reverse },
                })
                &&& end.out[2] matches ActionView::EnterPair { plan }
                &&& plan.peer == peer
                &&& plan.reverse is Some && plan.reverse->0.host == peer.addr.host
                    && plan.reverse->0.port == ctx.facts.internode_port
                &&& plan.was_promoted == v.force_promoted
                &&& plan.role == crate::controller::pair::pair_role(
                    ctx.facts.local_host_id,
                    peer.host_id,
                    v.force_promoted,
                    v.promote_epoch,
                    ctx.known,
                )
                &&& end.v == known.in_pair(plan.role, peer, ctx.known)
            }
        }),
{
    reveal_with_fuel(crate::controller::events::RunView::after_all, 3);
}

/// A pair that a second peer connects to prepares to form a cluster with all that it is
/// connected to, and enters it directly: its mode is not changed before.
pub proof fn second_inbound_peers_make_a_cluster(
    ctx: EventContext,
    v: ControllerView,
    peer: crate::address::PeerView,
    reverse: crate::address::AddrView,
    raft: bool,
    c: JoinCandidate,
)
    requires
        v.mode == DeploymentMode::Pair,
        ctx.enters_cluster,
    ensures
        ({
            let known = v.with_peer(peer.host_id, reverse);
            let end = crate::controller::events::inbound_run(ctx, v, peer, reverse, raft, c);
            let forms = v.has_network && known.connected.len() >= 2;
            &&& end.v == known
            &&& forms <==> end.out.last() == (ActionView::FormCluster { peers: known.connected })
        }),
{
    reveal_with_fuel(crate::controller::events::RunView::after_all, 3);
}

/// A cluster that a peer connects to lets it join and invites it as where it connected to
/// the peer itself, with the connection to the peer asked for in between where the network
/// is up.
pub proof fn clusters_admit_inbound_peers(
    ctx: EventContext,
    v: ControllerView,
    peer: crate::address::PeerView,
    reverse: crate::address::AddrView,
    raft: bool,
    c: JoinCandidate,
)
    requires
        v.mode == DeploymentMode::Cluster,
    ensures
        ({
            let known = v.with_peer(peer.host_id, reverse);
            let end = crate::controller::events::inbound_run(ctx, v, peer, reverse, raft, c);
            let joins = crate::controller::membership::join_decision(
                c,
                ctx.facts.config.auto_join,
                v.approved,
                v.pending,
            ) == JoinDecision::Begin;
            let (invited, sent) = crate::controller::mode_controller::invite_outcome(
                ctx.facts,
                known,
                peer.host_id,
                ctx.now,
            );
            let register = seq![ActionView::RegisterPeer { host_id: peer.host_id }];
            let reached = if v.has_network {
                register.push(
                    ActionView::RefreshOutbound {
                        peer: crate::address::PeerView { host_id: peer.host_id, addr: reverse },
                    },
                )
            } else {
                register
            };
            let joining = if joins {
                reached.push(ActionView::BeginJoin { candidate: c })
            } else {
                reached
            };
            &&& end.out == match sent {
                Some(a) => joining.push(a),
                None => joining,
            }
            &&& end.v.pending == if joins {
                crate::controller::membership::with_pending(v.pending, c.host_id)
            } else {
                v.pending
            }
            &&& end.v == (ControllerView { pending: end.v.pending, ..invited })
        }),
{
    reveal_with_fuel(crate::controller::events::RunView::after_all, 3);
    let known = v.with_peer(peer.host_id, reverse);
    let reached = crate::address::PeerView { host_id: peer.host_id, addr: reverse };
    let register = ActionView::RegisterPeer { host_id: peer.host_id };
    let out = if v.has_network {
        seq![register, ActionView::RefreshOutbound { peer: reached }]
    } else {
        seq![register]
    };
    assert(v.has_network ==> out =~= seq![register].push(
        ActionView::RefreshOutbound { peer: reached },
    ));
    let start = crate::controller::events::begun(known, out, Some(c));
    let actions = crate::controller::peer_events::connect_actions(
        known.mode,
        reached,
        true,
        known.connected.len(),
        known.committed,
        raft,
    );
    let one = start.after(ctx, actions[0]);
    assert(actions.drop_first()[0] == actions[1]);
    assert(actions.drop_first().drop_first().len() == 0);
    assert(start.after_all(ctx, actions) == one.after_all(ctx, actions.drop_first()));
    assert(one.after_all(ctx, actions.drop_first()) == one.after(ctx, actions[1]).after_all(
        ctx,
        actions.drop_first().drop_first(),
    ));
}

/// A peer that recovers is invited by a cluster, where an invite is due, and then gets what
/// was kept for it, where there is any and the network is up.
pub proof fn recovered_peers_are_served(
    ctx: EventContext,
    v: ControllerView,
    host_id: u128,
    hints: nat,
)
    ensures
        ({
            let end = crate::controller::events::begun(v, Seq::empty(), None).after_all(
                ctx,
                crate::controller::peer_events::recover_actions(
                    v.mode,
                    host_id,
                    hints,
                    v.has_network,
                ),
            ).ended(ctx);
            let (invited, sent) = crate::controller::mode_controller::invite_outcome(
                ctx.facts,
                v,
                host_id,
                ctx.now,
            );
            let first = if v.mode == DeploymentMode::Cluster && sent is Some {
                seq![sent->0]
            } else {
                Seq::empty()
            };
            &&& end.v == if v.mode == DeploymentMode::Cluster {
                invited
            } else {
                v
            }
            &&& end.out == if hints > 0 && v.has_network {
                first.push(ActionView::DeliverHints { host_id })
            } else {
                first
            }
        }),
{
    reveal_with_fuel(crate::controller::events::RunView::after_all, 3);
    let start = crate::controller::events::begun(v, Seq::empty(), None);
    let actions = crate::controller::peer_events::recover_actions(
        v.mode,
        host_id,
        hints,
        v.has_network,
    );
    let (invited, sent) = crate::controller::mode_controller::invite_outcome(
        ctx.facts,
        v,
        host_id,
        ctx.now,
    );
    if sent is Some {
        assert(Seq::<ActionView>::empty().push(sent->0) =~= seq![sent->0]);
    }
    if actions.len() == 2 {
        let one = start.after(ctx, actions[0]);
        assert(actions.drop_first()[0] == actions[1]);
        assert(actions.drop_first().drop_first().len() == 0);
        assert(start.after_all(ctx, actions) == one.after_all(ctx, actions.drop_first()));
        assert(one.after_all(ctx, actions.drop_first()) == one.after(ctx, actions[1]).after_all(
            ctx,
            actions.drop_first().drop_first(),
        ));
    }
}

/// A candidate is the peer with what is known of it, each part in its own place.
pub proof fn candidates_are_described_in_full(
    facts: PeerFacts,
    c: JoinCandidate,
    host_id: u128,
    addr: crate::address::AddrView,
)
    requires
        facts.describes(c, host_id, addr),
    ensures
        c.host_id == host_id,
        c.addr.host@ == addr.host,
        c.addr.port == addr.port,
        c.cql_broadcast == facts.cql_broadcast,
        c.internode_broadcast == facts.internode_broadcast,
        c.existing == facts.existing,
        c.has_outbound == facts.has_outbound,
{
}

/// A node that forms a cluster takes note of a peer that connects to it, and asks for the
/// connection back where the network is up. A degraded cluster does what it does for a peer
/// that it connects to, besides.
pub proof fn inbound_peers_of_waiting_nodes(
    ctx: EventContext,
    v: ControllerView,
    peer: crate::address::PeerView,
    reverse: crate::address::AddrView,
    raft: bool,
    c: JoinCandidate,
)
    requires
        v.mode == DeploymentMode::Forming || v.mode == DeploymentMode::DegradedCluster,
    ensures
        ({
            let known = v.with_peer(peer.host_id, reverse);
            let end = crate::controller::events::inbound_run(ctx, v, peer, reverse, raft, c);
            let back = v.mode == DeploymentMode::DegradedCluster && (known.committed == 0 || 2 * (
            known.connected.len() + 1) > known.committed);
            let register = seq![ActionView::RegisterPeer { host_id: peer.host_id }];
            let reached = if v.has_network {
                register.push(
                    ActionView::RefreshOutbound {
                        peer: crate::address::PeerView { host_id: peer.host_id, addr: reverse },
                    },
                )
            } else {
                register
            };
            &&& !back ==> end.v == known && end.out == reached
            &&& back && raft ==> end.v == (ControllerView {
                mode: DeploymentMode::Cluster,
                ..known
            }) && end.out == reached
            &&& back && !raft ==> end.v == known
            &&& back && !raft && v.has_network ==> end.out == reached.push(
                ActionView::FormCluster { peers: known.connected },
            )
            &&& back && !raft && !v.has_network ==> end.out == reached
        }),
{
    reveal_with_fuel(crate::controller::events::RunView::after_all, 3);
    crate::controller::peer_events::quorums_are_majorities(
        v.committed,
        v.with_peer(peer.host_id, reverse).connected.len(),
    );
    let register = ActionView::RegisterPeer { host_id: peer.host_id };
    let refresh = ActionView::RefreshOutbound {
        peer: crate::address::PeerView { host_id: peer.host_id, addr: reverse },
    };
    assert(seq![register, refresh] =~= seq![register].push(refresh));
}

/// An event at a node runs with the node's own facts, and with the time and the promotions
/// that come with it.
pub proof fn events_run_at_their_node(
    c: ModeController,
    enters: bool,
    now: u64,
    known: Option<PeerPromotion>,
)
    ensures
        c.context(enters, now, known).facts == c.facts(),
        c.context(enters, now, known).enters_cluster == enters,
        c.context(enters, now, known).now == now,
        c.context(enters, now, known).known == known,
{
}

/// A list of actions is modelled item by item.
pub proof fn asked_actions_are_modelled(actions: Seq<ControllerAction>, i: int)
    ensures
        crate::controller::mode_controller::action_views(actions).len() == actions.len(),
        0 <= i < actions.len() ==> crate::controller::mode_controller::action_views(actions)[i]
            == actions[i]@,
{
}

/// A state is sound exactly where no more than a thousand peers are followed, none of them
/// twice and not this node itself, and no more than a hundred joins wait, none of them twice.
pub proof fn lists_stay_short(c: ControllerView, local: u128)
    ensures
        c.wf(local) <==> {
            &&& c.connected.len() <= 1_000
            &&& c.pending.len() <= 100
            &&& forall|i: int, j: int|
                0 <= i < j < c.connected.len() ==> (#[trigger] c.connected[i]).host_id != (
                #[trigger] c.connected[j]).host_id
            &&& forall|i: int| 0 <= i < c.connected.len() ==> (#[trigger] c.connected[i]).host_id
                != local
            &&& forall|i: int, j: int|
                0 <= i < j < c.pending.len() ==> #[trigger] c.pending[i] != #[trigger] c.pending[j]
        },
{
}

} // verus!
