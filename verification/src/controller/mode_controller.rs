//! The controller: which mode a node is in, and what each event changes.
//!
//! Events come in as method calls. Each changes the state and returns what has
//! to be done outside, in order.

use std::collections::{BTreeMap, BTreeSet, HashMap};

use vstd::prelude::*;

use crate::address::{Peer, PeerAddr};
use crate::config::ClusterConfig;
use crate::controller::invite::{
    plan_reconnect_invite, release_reconnect_invite, reserve_reconnect_invite, ReconnectInvitePlan,
};
use crate::controller::membership::{clear_pending_join, plan_join_request, JoinCandidate};
use crate::controller::pair::{meet_epoch, plan_pair, PairPlan, PeerPromotion};
use crate::controller::peer_events::{quorum_connected, untrack_peer, MAX_CONNECTED_PEERS};
use crate::controller::streaming::{plan_decommission, DecommissionStep, TablePlacement};
use crate::error::ClusterError;
use crate::mode::{DeploymentMode, PairRole};
use crate::raft::RaftOp;

verus! {

broadcast use {
    vstd::std_specs::btree::group_btree_axioms,
    vstd::std_specs::hash::group_hash_axioms,
};

/// Shortest time between two invites to a peer that reconnects, in
/// milliseconds.
pub const CLUSTER_RECONNECT_INVITE_COOLDOWN: u64 = 30_000;

/// Where writes go.
#[derive(Clone, Copy, Debug, PartialEq, Eq, Structural)]
pub enum WritePath {
    /// To the local storage.
    Direct,
    /// To the primary of the pair.
    Pair,
    /// To the replicas.
    Cluster,
    /// Nowhere.
    Unavailable,
}

/// Where schema changes go.
#[derive(Clone, Copy, Debug, PartialEq, Eq, Structural)]
pub enum DdlPath {
    /// To the local schema.
    Direct,
    /// To the primary of the pair.
    Pair,
    /// Into a queue.
    Forming,
    /// Through consensus.
    Cluster,
    /// Nowhere.
    Unavailable,
}

/// Where the view of other nodes comes from.
#[derive(Clone, Copy, Debug, PartialEq, Eq, Structural)]
pub enum ClusterStateHolder {
    /// There are none.
    Standalone,
    /// From the pair.
    Pair,
    /// From consensus.
    Cluster,
}

/// The pair that a node is in.
#[derive(Debug)]
pub struct PairContext {
    pub role: PairRole,
    pub peer: Peer,
}

/// Model of [`PairContext`].
pub struct PairContextView {
    pub role: PairRole,
    pub peer: crate::address::PeerView,
}

/// View of an optional pair.
pub open spec fn pair_view(p: Option<PairContext>) -> Option<PairContextView> {
    match p {
        Some(c) => Some(PairContextView { role: c.role, peer: c.peer@ }),
        None => None,
    }
}

/// The state of a node.
#[derive(Debug)]
pub struct ModeController {
    pub config: ClusterConfig,
    pub local_host_id: u128,
    /// Port that nodes talk to each other on.
    pub internode_port: u16,
    /// Address that others reach this node at.
    pub broadcast_addr: PeerAddr,
    pub mode: DeploymentMode,
    pub write_path: WritePath,
    pub ddl_path: DdlPath,
    pub cluster_state: ClusterStateHolder,
    /// Is the network up?
    pub has_network: bool,
    pub pair_context: Option<PairContext>,
    /// Was this node promoted since it was last in a pair?
    pub force_promoted: bool,
    /// Counts promotions: one more with each of this node, and never behind a peer
    /// that it has been in a pair with.
    pub promote_epoch: u64,
    /// Peers that are connected, the oldest first.
    pub connected_peers: Vec<Peer>,
    /// Data centers that peers announced.
    pub peer_dcs: HashMap<u128, String>,
    pub approved_nodes: BTreeSet<u128>,
    /// Peers that are about to join, the oldest first.
    pub pending_joins: Vec<u128>,
    /// When peers were last invited.
    pub recent_reconnect_invites: BTreeMap<u128, u64>,
    /// When peers named in invites were last connected to.
    pub recent_invite_connects: BTreeMap<u128, u64>,
    /// Members that the cluster was formed with; zero before.
    pub committed_cluster_size: usize,
}

/// Model of what changes in a [`ModeController`].
pub struct ControllerView {
    pub mode: DeploymentMode,
    pub write_path: WritePath,
    pub ddl_path: DdlPath,
    pub cluster_state: ClusterStateHolder,
    pub has_network: bool,
    pub pair: Option<PairContextView>,
    pub force_promoted: bool,
    pub promote_epoch: u64,
    pub connected: Seq<crate::address::PeerView>,
    pub peer_dcs: Map<u128, String>,
    pub approved: Set<u128>,
    pub pending: Seq<u128>,
    pub recent_invites: Map<u128, u64>,
    pub recent_connects: Map<u128, u64>,
    pub committed: usize,
}

impl View for ModeController {
    type V = ControllerView;

    open spec fn view(&self) -> ControllerView {
        ControllerView {
            mode: self.mode,
            write_path: self.write_path,
            ddl_path: self.ddl_path,
            cluster_state: self.cluster_state,
            has_network: self.has_network,
            pair: pair_view(self.pair_context),
            force_promoted: self.force_promoted,
            promote_epoch: self.promote_epoch,
            connected: crate::address::peer_views(self.connected_peers@),
            peer_dcs: self.peer_dcs@,
            approved: self.approved_nodes@,
            pending: self.pending_joins@,
            recent_invites: self.recent_reconnect_invites@,
            recent_connects: self.recent_invite_connects@,
            committed: self.committed_cluster_size,
        }
    }
}

/// What never changes in a [`ModeController`].
pub struct NodeFacts {
    pub config: ClusterConfig,
    pub local_host_id: u128,
    pub internode_port: u16,
    pub broadcast_addr: crate::address::AddrView,
}

impl ControllerView {
    /// What holds of every state: few peers are known, none of them twice and
    /// this node not among them, and few joins are under way, none of them
    /// twice.
    pub open spec fn wf(self, local_host_id: u128) -> bool {
        &&& self.connected.len() <= MAX_CONNECTED_PEERS
        &&& crate::controller::peer_events::hosts_distinct(self.connected)
        &&& !crate::address::lists_host(self.connected, local_host_id)
        &&& self.pending.len() <= crate::controller::membership::MAX_PENDING_JOINS
        &&& self.pending.no_duplicates()
    }

    /// The state of a node that has just started.
    pub open spec fn started(mode: DeploymentMode, write_path: WritePath, ddl_path: DdlPath) -> ControllerView {
        ControllerView {
            mode,
            write_path,
            ddl_path,
            cluster_state: ClusterStateHolder::Standalone,
            has_network: false,
            pair: None,
            force_promoted: false,
            promote_epoch: 0,
            connected: Seq::empty(),
            peer_dcs: Map::empty(),
            approved: Set::empty(),
            pending: Seq::empty(),
            recent_invites: Map::empty(),
            recent_connects: Map::empty(),
            committed: 0,
        }
    }

    /// In a pair.
    pub open spec fn in_pair(
        self,
        role: PairRole,
        peer: crate::address::PeerView,
        known: Option<PeerPromotion>,
    ) -> ControllerView {
        ControllerView {
            mode: DeploymentMode::Pair,
            write_path: WritePath::Pair,
            ddl_path: DdlPath::Pair,
            cluster_state: ClusterStateHolder::Pair,
            pair: Some(PairContextView { role, peer }),
            force_promoted: false,
            promote_epoch: crate::controller::pair::met_epoch(self.promote_epoch, known),
            ..self
        }
    }

    /// In a pair whose peer is gone: what is known of the peer is kept.
    pub open spec fn degraded(self) -> ControllerView {
        ControllerView {
            mode: DeploymentMode::DegradedPair,
            write_path: WritePath::Unavailable,
            ddl_path: DdlPath::Unavailable,
            ..self
        }
    }

    /// Forming a cluster with so many peers.
    pub open spec fn forming(self, peers: nat) -> ControllerView {
        ControllerView {
            mode: DeploymentMode::Forming,
            ddl_path: DdlPath::Forming,
            committed: (peers + 1) as usize,
            ..self
        }
    }

    /// In a cluster whose consensus is about to start.
    pub open spec fn in_cluster(self) -> ControllerView {
        ControllerView {
            mode: DeploymentMode::Cluster,
            write_path: WritePath::Cluster,
            ddl_path: DdlPath::Direct,
            cluster_state: ClusterStateHolder::Cluster,
            pair: None,
            ..self
        }
    }

    /// Promoted by an operator.
    pub open spec fn promoted(self) -> ControllerView {
        ControllerView {
            mode: DeploymentMode::Standalone,
            write_path: WritePath::Direct,
            ddl_path: DdlPath::Direct,
            cluster_state: ClusterStateHolder::Standalone,
            pair: None,
            force_promoted: true,
            promote_epoch: crate::controller::metrics::wrapped_sum(self.promote_epoch, 1),
            connected: Seq::empty(),
            ..self
        }
    }

    /// With a node as the primary of the pair: this node is it exactly where it is
    /// the one named.
    pub open spec fn with_primary(self, local_host_id: u128, new_primary: u128) -> ControllerView {
        match self.pair {
            Some(c) => ControllerView {
                pair: Some(
                    PairContextView {
                        role: if new_primary == local_host_id {
                            PairRole::Primary
                        } else {
                            PairRole::Secondary
                        },
                        ..c
                    },
                ),
                ..self
            },
            None => self,
        }
    }

    /// Without a peer.
    pub open spec fn disconnected(self, host_id: u128) -> ControllerView {
        let left = ControllerView {
            connected: self.connected.filter(crate::controller::peer_events::not_host(host_id)),
            ..self
        };
        match self.mode {
            DeploymentMode::Pair => left.degraded(),
            DeploymentMode::Cluster => if crate::controller::peer_events::has_quorum(
                self.committed,
                left.connected.len(),
            ) {
                left
            } else {
                ControllerView {
                    mode: DeploymentMode::DegradedCluster,
                    write_path: WritePath::Unavailable,
                    ddl_path: DdlPath::Unavailable,
                    ..left
                }
            },
            _ => left,
        }
    }

    /// With a peer, at its latest address.
    pub open spec fn with_peer(self, host_id: u128, addr: crate::address::AddrView) -> ControllerView {
        ControllerView {
            connected: crate::controller::peer_events::noted(
                self.connected,
                host_id,
                addr,
                MAX_CONNECTED_PEERS,
            ),
            ..self
        }
    }

    /// Are clients served? In a pair only by the primary; while a cluster forms
    /// not at all.
    pub open spec fn serves_clients(self) -> bool {
        match self.mode {
            DeploymentMode::Pair => self.pair is Some && self.pair->0.role == PairRole::Primary,
            DeploymentMode::Forming => false,
            _ => true,
        }
    }
}

/// What has to be done outside.
#[derive(Debug)]
pub enum ControllerAction {
    /// Let consensus know of a peer.
    RegisterPeer { host_id: u128 },
    /// Make sure that a peer can be reached at an address.
    RefreshOutbound { peer: Peer },
    /// Set up a pair.
    EnterPair { plan: PairPlan },
    /// Prepare to form a cluster with these peers, and enter it on success.
    FormCluster { peers: Vec<Peer> },
    /// Let a peer join.
    BeginJoin { candidate: JoinCandidate },
    /// Send an invite; its reservation was made at this time.
    SendInvite { plan: ReconnectInvitePlan, reserved_at: u64 },
    /// Send what was kept for a peer.
    DeliverHints { host_id: u128 },
}

/// Model of [`ControllerAction`].
pub enum ActionView {
    RegisterPeer { host_id: u128 },
    RefreshOutbound { peer: crate::address::PeerView },
    EnterPair { plan: crate::controller::pair::PairPlanView },
    FormCluster { peers: Seq<crate::address::PeerView> },
    BeginJoin { candidate: JoinCandidate },
    SendInvite {
        recipient: u128,
        initiator: u128,
        peers: Seq<crate::address::PeerView>,
        reserved_at: u64,
    },
    DeliverHints { host_id: u128 },
}

impl View for ControllerAction {
    type V = ActionView;

    open spec fn view(&self) -> ActionView {
        match self {
            ControllerAction::RegisterPeer { host_id } => ActionView::RegisterPeer {
                host_id: *host_id,
            },
            ControllerAction::RefreshOutbound { peer } => ActionView::RefreshOutbound {
                peer: peer@,
            },
            ControllerAction::EnterPair { plan } => ActionView::EnterPair { plan: plan@ },
            ControllerAction::FormCluster { peers } => ActionView::FormCluster {
                peers: crate::address::peer_views(peers@),
            },
            ControllerAction::BeginJoin { candidate } => ActionView::BeginJoin {
                candidate: *candidate,
            },
            ControllerAction::SendInvite { plan, reserved_at } => ActionView::SendInvite {
                recipient: plan.recipient,
                initiator: plan.initiator,
                peers: crate::address::peer_views(plan.peers@),
                reserved_at: *reserved_at,
            },
            ControllerAction::DeliverHints { host_id } => ActionView::DeliverHints {
                host_id: *host_id,
            },
        }
    }
}

/// Models of a list of actions.
pub open spec fn action_views(actions: Seq<ControllerAction>) -> Seq<ActionView> {
    Seq::new(actions.len(), |i: int| actions[i]@)
}

/// Pushing onto a list pushes onto its model.
pub proof fn lemma_action_views_push(actions: Seq<ControllerAction>, a: ControllerAction)
    ensures
        action_views(actions.push(a)) == action_views(actions).push(a@),
{
    assert(action_views(actions.push(a)) =~= action_views(actions).push(a@));
}

/// What an invite to a host changes and sends: nothing where the network is
/// down, where there is nobody to name, or within the cooldown.
pub open spec fn invite_outcome(
    facts: NodeFacts,
    v: ControllerView,
    host_id: u128,
    now: u64,
) -> (ControllerView, Option<ActionView>) {
    let peers = crate::controller::invite::invite_peers(
        facts.local_host_id,
        Some(facts.broadcast_addr),
        host_id,
        v.connected,
    );
    if !v.has_network || peers.len() == 0 || crate::controller::invite::cooling(
        v.recent_invites,
        host_id,
        now,
        CLUSTER_RECONNECT_INVITE_COOLDOWN,
    ) {
        (v, None)
    } else {
        (
            ControllerView {
                recent_invites: crate::controller::invite::reserved(
                    v.recent_invites,
                    host_id,
                    now,
                    CLUSTER_RECONNECT_INVITE_COOLDOWN,
                    MAX_CONNECTED_PEERS,
                ),
                ..v
            },
            Some(
                ActionView::SendInvite {
                    recipient: host_id,
                    initiator: facts.local_host_id,
                    peers,
                    reserved_at: now,
                },
            ),
        )
    }
}

impl ModeController {
    /// What never changes.
    pub open spec fn facts(self) -> NodeFacts {
        NodeFacts {
            config: self.config,
            local_host_id: self.local_host_id,
            internode_port: self.internode_port,
            broadcast_addr: self.broadcast_addr@,
        }
    }

    fn with_state(
        config: ClusterConfig,
        local_host_id: u128,
        internode_port: u16,
        broadcast_addr: PeerAddr,
        mode: DeploymentMode,
        write_path: WritePath,
        ddl_path: DdlPath,
    ) -> (c: ModeController)
        ensures
            c.facts() == (NodeFacts {
                config,
                local_host_id,
                internode_port,
                broadcast_addr: broadcast_addr@,
            }),
            c@ == ControllerView::started(mode, write_path, ddl_path),
    {
        let c = ModeController {
            config,
            local_host_id,
            internode_port,
            broadcast_addr,
            mode,
            write_path,
            ddl_path,
            cluster_state: ClusterStateHolder::Standalone,
            has_network: false,
            pair_context: None,
            force_promoted: false,
            promote_epoch: 0,
            connected_peers: Vec::new(),
            peer_dcs: HashMap::new(),
            approved_nodes: BTreeSet::new(),
            pending_joins: Vec::new(),
            recent_reconnect_invites: BTreeMap::new(),
            recent_invite_connects: BTreeMap::new(),
            committed_cluster_size: 0,
        };
        assert(c@.connected =~= Seq::empty());
        c
    }

    /// A node that starts alone: it writes and changes its schema directly.
    pub fn new(
        config: ClusterConfig,
        local_host_id: u128,
        internode_port: u16,
        broadcast_addr: PeerAddr,
    ) -> (c: ModeController)
        ensures
            c.facts() == (NodeFacts {
                config,
                local_host_id,
                internode_port,
                broadcast_addr: broadcast_addr@,
            }),
            c@ == ControllerView::started(
                DeploymentMode::Standalone,
                WritePath::Direct,
                DdlPath::Direct,
            ),
    {
        ModeController::with_state(
            config,
            local_host_id,
            internode_port,
            broadcast_addr,
            DeploymentMode::Standalone,
            WritePath::Direct,
            DdlPath::Direct,
        )
    }

    /// A node that was a cluster member before it started: it takes no writes
    /// until it has found its cluster.
    pub fn returning_member(
        config: ClusterConfig,
        local_host_id: u128,
        internode_port: u16,
        broadcast_addr: PeerAddr,
    ) -> (c: ModeController)
        ensures
            c.facts() == (NodeFacts {
                config,
                local_host_id,
                internode_port,
                broadcast_addr: broadcast_addr@,
            }),
            c@ == ControllerView::started(
                DeploymentMode::DegradedCluster,
                WritePath::Unavailable,
                DdlPath::Unavailable,
            ),
    {
        ModeController::with_state(
            config,
            local_host_id,
            internode_port,
            broadcast_addr,
            DeploymentMode::DegradedCluster,
            WritePath::Unavailable,
            DdlPath::Unavailable,
        )
    }

    /// The network is up.
    pub fn set_peer_manager(&mut self)
        ensures
            final(self).facts() == old(self).facts(),
            final(self)@ == (ControllerView { has_network: true, ..old(self)@ }),
    {
        self.has_network = true;
    }

    /// The mode.
    pub fn mode(&self) -> (m: DeploymentMode)
        ensures
            m == self@.mode,
    {
        self.mode
    }

    /// The role in a pair.
    pub fn role(&self) -> (r: Option<PairRole>)
        ensures
            r == match self@.pair {
                Some(c) => Some(c.role),
                None => None,
            },
    {
        match &self.pair_context {
            Some(c) => Some(c.role),
            None => None,
        }
    }

    /// The host id.
    pub fn host_id(&self) -> (id: u128)
        ensures
            id == self.local_host_id,
    {
        self.local_host_id
    }

    /// Are clients served?
    pub fn is_cql_ready(&self) -> (b: bool)
        ensures
            b == self@.serves_clients(),
    {
        match self.mode {
            DeploymentMode::Pair => match &self.pair_context {
                Some(c) => match c.role {
                    PairRole::Primary => true,
                    PairRole::Secondary => false,
                },
                None => false,
            },
            DeploymentMode::Forming => false,
            _ => true,
        }
    }

    /// Note the data center that a peer announced; the latest counts.
    pub fn record_peer_dc(&mut self, host_id: u128, dc_name: String)
        ensures
            final(self).facts() == old(self).facts(),
            final(self)@ == (ControllerView {
                peer_dcs: old(self)@.peer_dcs.insert(host_id, dc_name),
                ..old(self)@
            }),
    {
        self.peer_dcs.insert(host_id, dc_name);
    }

    /// The data center that a peer announced.
    pub fn peer_dc(&self, host_id: u128) -> (r: Option<&String>)
        ensures
            match r {
                Some(dc) => self@.peer_dcs.contains_key(host_id) && *dc == self@.peer_dcs[host_id],
                None => !self@.peer_dcs.contains_key(host_id),
            },
    {
        self.peer_dcs.get(&host_id)
    }

    /// Approve a node.
    pub fn approve_node(&mut self, host_id: u128)
        ensures
            final(self).facts() == old(self).facts(),
            final(self)@ == (ControllerView {
                approved: old(self)@.approved.insert(host_id),
                ..old(self)@
            }),
    {
        self.approved_nodes.insert(host_id);
    }

    /// Answer a request to join: the changes to propose, in order.
    pub fn handle_join_request(
        &self,
        peer_host_id: u128,
        peer_node_id: u64,
        raft_ready: bool,
    ) -> (r: Result<Vec<RaftOp>, ClusterError>)
        ensures
            match r {
                Ok(ops) => {
                    &&& crate::controller::membership::may_join(
                        self.config.auto_join,
                        self@.approved,
                        peer_host_id,
                    )
                    &&& raft_ready
                    &&& crate::raft::op_views(ops@) == seq![
                        crate::raft::OpView::JoinNode(
                            crate::controller::membership::requested_record(
                                peer_host_id,
                                self.config.data_center@,
                                self.config.rack@,
                            ),
                        ),
                        crate::controller::membership::assignment_of(
                            peer_node_id,
                            self.config.num_tokens,
                        ),
                    ]
                },
                Err(e) => if !crate::controller::membership::may_join(
                    self.config.auto_join,
                    self@.approved,
                    peer_host_id,
                ) {
                    e@ == crate::error::ErrorView::NotApproved(peer_host_id)
                } else {
                    !raft_ready && e@ == crate::error::ErrorView::Internal("raft not initialized"@)
                },
            },
    {
        plan_join_request(&self.config, &self.approved_nodes, raft_ready, peer_host_id, peer_node_id)
    }

    /// Take a node out of the cluster: the steps, in order.
    pub fn initiate_decommission(
        &self,
        raft_ready: bool,
        node_id: u64,
        ring: Option<&[TablePlacement]>,
    ) -> (r: Result<Vec<DecommissionStep>, ClusterError>)
        requires
            ring matches Some(tables) ==> crate::controller::streaming::partition_count(tables@)
                < u64::MAX,
        ensures
            crate::controller::streaming::is_decommission(
                r,
                raft_ready,
                node_id,
                ring,
                self@.has_network,
            ),
    {
        plan_decommission(raft_ready, node_id, ring, self.has_network)
    }

    /// Make this node a standalone primary, whatever it is. When its peer comes
    /// back, it stays primary, unless the peer has been promoted meanwhile too.
    pub fn force_promote(&mut self) -> (r: Result<(), ClusterError>)
        ensures
            r is Ok,
            final(self).facts() == old(self).facts(),
            final(self)@ == old(self)@.promoted(),
    {
        self.write_path = WritePath::Direct;
        self.ddl_path = DdlPath::Direct;
        self.cluster_state = ClusterStateHolder::Standalone;
        self.mode = DeploymentMode::Standalone;
        self.force_promoted = true;
        self.promote_epoch = self.promote_epoch.wrapping_add(1);
        self.pair_context = None;
        self.connected_peers.clear();
        assert(self@.connected =~= Seq::empty());
        Ok(())
    }

    /// What this node announces of its promotions.
    pub fn promotion(&self) -> (p: PeerPromotion)
        ensures
            p == (PeerPromotion { epoch: self@.promote_epoch, pending: self@.force_promoted }),
    {
        PeerPromotion { epoch: self.promote_epoch, pending: self.force_promoted }
    }

    /// Begin to swap roles with the peer: the peer to swap with. It takes a
    /// pair and a network.
    pub fn switchover(&self) -> (r: Result<u128, ClusterError>)
        ensures
            match r {
                Ok(peer) => self@.pair is Some && self@.has_network && peer
                    == self@.pair->0.peer.host_id,
                Err(e) => if self@.pair is None {
                    e@ == crate::error::ErrorView::ModeTransitionRejected(
                        "switchover requires pair mode; current node is standalone"@,
                    )
                } else {
                    !self@.has_network && e@ == crate::error::ErrorView::ModeTransitionRejected(
                        "peer manager not initialized; peer may be disconnected"@,
                    )
                },
            },
    {
        match &self.pair_context {
            None => Err(
                ClusterError::ModeTransitionRejected(
                    "switchover requires pair mode; current node is standalone".to_owned(),
                ),
            ),
            Some(c) => {
                if !self.has_network {
                    return Err(
                        ClusterError::ModeTransitionRejected(
                            "peer manager not initialized; peer may be disconnected".to_owned(),
                        ),
                    );
                }
                Ok(c.peer.host_id)
            },
        }
    }

    /// The roles of the pair have been swapped, and this is its primary now. There
    /// is nothing to do where the node is in no pair.
    pub fn set_primary(&mut self, new_primary: u128)
        ensures
            final(self).facts() == old(self).facts(),
            final(self)@ == old(self)@.with_primary(old(self).local_host_id, new_primary),
    {
        let local: u128 = self.local_host_id;
        match &mut self.pair_context {
            Some(c) => {
                c.role = if new_primary == local {
                    PairRole::Primary
                } else {
                    PairRole::Secondary
                };
            },
            None => {},
        }
    }

    /// Writes stop; what is known of the pair is kept.
    pub fn transition_to_degraded(&mut self)
        ensures
            final(self).facts() == old(self).facts(),
            final(self)@ == old(self)@.degraded(),
    {
        self.write_path = WritePath::Unavailable;
        self.ddl_path = DdlPath::Unavailable;
        self.mode = DeploymentMode::DegradedPair;
    }

    /// Become a pair with a peer, where the network is up. A promotion is used up by
    /// it: the node is primary, unless the peer is known to have been promoted too.
    pub fn transition_to_pair(
        &mut self,
        peer: &Peer,
        inbound: bool,
        known: Option<PeerPromotion>,
    ) -> (plan: Option<PairPlan>)
        ensures
            final(self).facts() == old(self).facts(),
            match plan {
                Some(p) => {
                    let made = crate::controller::pair::pair_plan(
                        old(self).local_host_id,
                        peer@,
                        inbound,
                        old(self)@.force_promoted,
                        old(self)@.promote_epoch,
                        known,
                        old(self).internode_port,
                    );
                    &&& old(self)@.has_network
                    &&& p@ == made
                    &&& final(self)@ == old(self)@.in_pair(made.role, peer@, known)
                    &&& old(self)@.force_promoted && !(known matches Some(k) && k.pending)
                        ==> p.role == PairRole::Primary
                },
                None => !old(self)@.has_network && final(self)@ == old(self)@,
            },
    {
        if !self.has_network {
            return None;
        }
        let plan = plan_pair(
            self.local_host_id,
            peer,
            inbound,
            self.force_promoted,
            self.promote_epoch,
            known,
            self.internode_port,
        );
        self.force_promoted = false;
        self.promote_epoch = meet_epoch(self.promote_epoch, known);
        self.ddl_path = DdlPath::Pair;
        self.write_path = WritePath::Pair;
        self.cluster_state = ClusterStateHolder::Pair;
        self.pair_context = Some(PairContext { role: plan.role, peer: peer.copied() });
        self.mode = DeploymentMode::Pair;
        Some(plan)
    }

    /// Begin to form a cluster with all connected peers, where the network is
    /// up: schema changes are queued, and the members are counted.
    pub fn transition_to_forming(&mut self) -> (started: bool)
        requires
            old(self)@.connected.len() < usize::MAX,
        ensures
            final(self).facts() == old(self).facts(),
            started == old(self)@.has_network,
            final(self)@ == (if started {
                old(self)@.forming(old(self)@.connected.len())
            } else {
                old(self)@
            }),
    {
        if !self.has_network {
            return false;
        }
        self.mode = DeploymentMode::Forming;
        self.committed_cluster_size = self.connected_peers.len() + 1;
        self.ddl_path = DdlPath::Forming;
        true
    }

    /// Enter the cluster, now that its log is ready and where the network is
    /// up.
    pub fn transition_to_cluster(&mut self) -> (entered: bool)
        ensures
            final(self).facts() == old(self).facts(),
            entered == old(self)@.has_network,
            final(self)@ == (if entered {
                old(self)@.in_cluster()
            } else {
                old(self)@
            }),
    {
        if !self.has_network {
            return false;
        }
        self.write_path = WritePath::Cluster;
        self.ddl_path = DdlPath::Direct;
        self.cluster_state = ClusterStateHolder::Cluster;
        self.pair_context = None;
        self.mode = DeploymentMode::Cluster;
        true
    }

    /// A leader is known: schema changes go through consensus.
    pub fn route_ddl_through_raft(&mut self)
        ensures
            final(self).facts() == old(self).facts(),
            final(self)@ == (ControllerView { ddl_path: DdlPath::Cluster, ..old(self)@ }),
    {
        self.ddl_path = DdlPath::Cluster;
    }

    /// No leader was elected in time: the node is a pair again and changes its
    /// schema directly.
    pub fn revert_to_pair(&mut self)
        ensures
            final(self).facts() == old(self).facts(),
            final(self)@ == (ControllerView {
                mode: DeploymentMode::Pair,
                ddl_path: DdlPath::Direct,
                ..old(self)@
            }),
    {
        self.mode = DeploymentMode::Pair;
        self.ddl_path = DdlPath::Direct;
    }

    /// A join is over.
    pub fn finish_join(&mut self, host_id: u128)
        ensures
            final(self).facts() == old(self).facts(),
            final(self)@ == (ControllerView {
                pending: old(self)@.pending.filter(
                    crate::controller::membership::other_host(host_id),
                ),
                ..old(self)@
            }),
    {
        clear_pending_join(&mut self.pending_joins, host_id);
    }

    /// An invite could not be delivered: its reservation is given back.
    pub fn invite_failed(&mut self, host_id: u128, reserved_at: u64)
        ensures
            final(self).facts() == old(self).facts(),
            final(self)@ == (ControllerView {
                recent_invites: crate::controller::invite::released(
                    old(self)@.recent_invites,
                    host_id,
                    reserved_at,
                ),
                ..old(self)@
            }),
    {
        release_reconnect_invite(&mut self.recent_reconnect_invites, host_id, reserved_at);
    }

    /// Invite a peer, where that is in order.
    pub fn send_cluster_invite_to(&mut self, recipient: u128, now: u64) -> (action: Option<ControllerAction>)
        ensures
            final(self).facts() == old(self).facts(),
            ({
                let (v, sent) = invite_outcome(old(self).facts(), old(self)@, recipient, now);
                &&& final(self)@ == v
                &&& match action {
                    Some(a) => sent == Some(a@),
                    None => sent is None,
                }
            }),
    {
        if !self.has_network {
            return None;
        }
        let plan = plan_reconnect_invite(
            self.local_host_id,
            Some(&self.broadcast_addr),
            recipient,
            self.connected_peers.as_slice(),
        );
        match plan {
            None => None,
            Some(plan) => {
                assert(crate::address::peer_views(plan.peers@).len() > 0);
                if !reserve_reconnect_invite(
                    &mut self.recent_reconnect_invites,
                    recipient,
                    now,
                    CLUSTER_RECONNECT_INVITE_COOLDOWN,
                    MAX_CONNECTED_PEERS,
                ) {
                    return None;
                }
                Some(ControllerAction::SendInvite { plan, reserved_at: now })
            },
        }
    }

    /// A peer is gone.
    pub fn on_peer_disconnected(&mut self, host_id: u128)
        requires
            old(self)@.connected.len() < usize::MAX,
        ensures
            final(self).facts() == old(self).facts(),
            final(self)@ == old(self)@.disconnected(host_id),
    {
        proof {
            crate::collections::lemma_filter_shortens(
                self@.connected,
                crate::controller::peer_events::not_host(host_id),
            );
        }
        untrack_peer(&mut self.connected_peers, host_id);
        match self.mode {
            DeploymentMode::Pair => {
                self.transition_to_degraded();
            },
            DeploymentMode::Cluster => {
                assert(self@.connected.len() == self.connected_peers@.len());
                if !quorum_connected(self.committed_cluster_size, self.connected_peers.len()) {
                    self.mode = DeploymentMode::DegradedCluster;
                    self.write_path = WritePath::Unavailable;
                    self.ddl_path = DdlPath::Unavailable;
                }
            },
            _ => {},
        }
    }
}

} // verus!
