//! Forming a cluster: what is decided before consensus starts, and what is done
//! once a leader is known or the time is over.

use std::collections::{BTreeSet, HashMap};

use vstd::prelude::*;

use crate::address::Peer;
use crate::collections::VecMap;
use crate::controller::retry::promotion_timeout_secs;
use crate::controller::token::deterministic_tokens_for_node;
use crate::controller::topology::{
    build_raft_members_from_node_info, build_recovered_topology_refresh_plan,
    build_recovered_topology_token_repair_plan, partition_peers_by_dc, peer_node_info,
};
use crate::raft::{borrowed_text, NodeInfo, NodeState, RaftOp};

verus! {

broadcast use {
    vstd::std_specs::hash::group_hash_axioms,
    vstd::std_specs::btree::group_btree_axioms,
};

/// A peer at the port that nodes talk to each other on.
pub open spec fn at_port(port: u16) -> spec_fn(crate::address::PeerView) -> crate::address::PeerView {
    |p: crate::address::PeerView|
        crate::address::PeerView { host_id: p.host_id, addr: p.addr.at_port(port) }
}

/// Peers at the port that nodes talk to each other on.
pub open spec fn normalized(
    peers: Seq<crate::address::PeerView>,
    port: u16,
) -> Seq<crate::address::PeerView> {
    Seq::new(peers.len(), |i: int| at_port(port)(peers[i]))
}

/// Peers at the port that nodes talk to each other on.
pub fn normalize_cluster_peers(peers: &[Peer], port: u16) -> (v: Vec<Peer>)
    ensures
        crate::address::peer_views(v@) == normalized(crate::address::peer_views(peers@), port),
{
    let mut v: Vec<Peer> = Vec::new();
    let mut i: usize = 0;
    while i < peers.len()
        invariant
            i <= peers.len(),
            v@.len() == i,
            forall|k: int|
                0 <= k < i ==> (#[trigger] v@[k])@ == at_port(port)(
                    crate::address::peer_views(peers@)[k],
                ),
        decreases peers.len() - i,
    {
        v.push(Peer::new(peers[i].host_id, peers[i].addr.at_port(port)));
        i = i + 1;
    }
    assert(crate::address::peer_views(v@) =~= normalized(
        crate::address::peer_views(peers@),
        port,
    ));
    v
}

/// Is this node the one that writes the first membership? It is if no peer has
/// a higher host id.
pub open spec fn is_seed(local_host_id: u128, peers: Seq<crate::address::PeerView>) -> bool {
    forall|i: int| 0 <= i < peers.len() ==> (#[trigger] peers[i]).host_id <= local_host_id
}

/// Is this node the one that writes the first membership?
pub fn is_seed_node(local_host_id: u128, peers: &[Peer]) -> (b: bool)
    ensures
        b == is_seed(local_host_id, crate::address::peer_views(peers@)),
{
    let mut i: usize = 0;
    while i < peers.len()
        invariant
            i <= peers.len(),
            forall|k: int|
                0 <= k < i ==> (#[trigger] crate::address::peer_views(peers@)[k]).host_id
                    <= local_host_id,
        decreases peers.len() - i,
    {
        if peers[i].host_id > local_host_id {
            assert(crate::address::peer_views(peers@)[i as int].host_id > local_host_id);
            return false;
        }
        i = i + 1;
    }
    true
}

/// Does a node with these peers see exactly these members?
pub open spec fn sees(
    local_host_id: u128,
    peers: Seq<crate::address::PeerView>,
    members: Set<u128>,
) -> bool {
    crate::address::host_ids(peers).to_set().insert(local_host_id) == members
}

/// Nodes that see the same members agree on the seed: no two of them are it.
pub proof fn seed_is_unique(
    a: u128,
    peers_of_a: Seq<crate::address::PeerView>,
    b: u128,
    peers_of_b: Seq<crate::address::PeerView>,
    members: Set<u128>,
)
    requires
        sees(a, peers_of_a, members),
        sees(b, peers_of_b, members),
        is_seed(a, peers_of_a),
        is_seed(b, peers_of_b),
    ensures
        a == b,
{
    assert(members.contains(a));
    assert(members.contains(b));
    if a != b {
        lemma_sees_peer(a, peers_of_a, members, b);
        lemma_sees_peer(b, peers_of_b, members, a);
    }
}

/// Another member is among the peers.
proof fn lemma_sees_peer(
    local: u128,
    peers: Seq<crate::address::PeerView>,
    members: Set<u128>,
    other: u128,
)
    requires
        sees(local, peers, members),
        members.contains(other),
        other != local,
    ensures
        exists|i: int| 0 <= i < peers.len() && (#[trigger] peers[i]).host_id == other,
{
    let ids = crate::address::host_ids(peers);
    assert(ids.to_set().contains(other));
    let i = choose|i: int| 0 <= i < ids.len() && ids[i] == other;
    assert(peers[i].host_id == other);
}

/// Some member is the seed: the one with the highest host id, as every node
/// that sees the members decides.
pub proof fn some_member_is_seed(members: Set<u128>) -> (seed: u128)
    requires
        members.finite(),
        members.len() > 0,
    ensures
        members.contains(seed),
        forall|peers: Seq<crate::address::PeerView>| #[trigger]
            sees(seed, peers, members) ==> is_seed(seed, peers),
{
    let seed = lemma_highest_member(members);
    assert forall|peers: Seq<crate::address::PeerView>| #[trigger]
        sees(seed, peers, members) implies is_seed(seed, peers) by {
        assert forall|i: int| 0 <= i < peers.len() implies (#[trigger] peers[i]).host_id <= seed by {
            let ids = crate::address::host_ids(peers);
            assert(ids[i] == peers[i].host_id);
            assert(ids.contains(peers[i].host_id));
            assert(ids.to_set().contains(peers[i].host_id));
            assert(members.contains(peers[i].host_id));
        }
    }
    seed
}

proof fn lemma_highest_member(members: Set<u128>) -> (top: u128)
    requires
        members.finite(),
        members.len() > 0,
    ensures
        members.contains(top),
        forall|m: u128| #[trigger] members.contains(m) ==> m <= top,
    decreases members.len(),
{
    let x = members.choose();
    let rest = members.remove(x);
    let top = if rest.len() == 0 {
        x
    } else {
        let y = lemma_highest_member(rest);
        if y > x {
            y
        } else {
            x
        }
    };
    assert forall|m: u128| #[trigger] members.contains(m) implies m <= top by {
        if m != x {
            assert(rest.contains(m));
            if rest.len() == 0 {
                assert(rest =~= Set::empty());
            }
        }
    }
    top
}

/// What is decided before consensus starts.
#[derive(Debug)]
pub struct TransitionPlan {
    /// Peers of the local data center, which vote.
    pub voters: Vec<Peer>,
    /// Peers of other data centers, which do not, by data center.
    pub observers: VecMap<String, Vec<Peer>>,
    /// Does this node write the first membership?
    pub was_seed: bool,
    /// Voters to connect to.
    pub connect: Vec<Peer>,
    /// Voters and this node.
    pub cluster_size: usize,
    /// Are there fewer nodes than replicas are asked for?
    pub reduced_durability: bool,
}

/// Peers without a live connection.
pub open spec fn unconnected(live: Set<u128>) -> spec_fn(crate::address::PeerView) -> bool {
    |p: crate::address::PeerView| !live.contains(p.host_id)
}

/// The voters: the peers of the local data center, at the port for nodes.
pub open spec fn voters_of(
    peers: Seq<crate::address::PeerView>,
    peer_dcs: Map<u128, String>,
    local_dc: Seq<char>,
    port: u16,
) -> Seq<crate::address::PeerView> {
    crate::controller::topology::dc_peers(normalized(peers, port), peer_dcs, local_dc, local_dc)
}

/// Decide what forming a cluster with these peers takes.
pub fn plan_cluster_transition(
    local_host_id: u128,
    local_dc: &str,
    internode_port: u16,
    peers: &[Peer],
    peer_dcs: &HashMap<u128, String>,
    live_peers: &BTreeSet<u128>,
    initial_rf: usize,
) -> (plan: TransitionPlan)
    requires
        peers@.len() < usize::MAX,
    ensures
        ({
            let all = crate::address::peer_views(peers@);
            let voters = voters_of(all, peer_dcs@, local_dc@, internode_port);
            &&& crate::address::peer_views(plan.voters@) == voters
            &&& plan.observers.wf()
            &&& crate::controller::topology::groups_peers(
                plan.observers@,
                normalized(all, internode_port),
                peer_dcs@,
                local_dc@,
            )
            &&& plan.was_seed == is_seed(local_host_id, voters)
            &&& crate::address::peer_views(plan.connect@) == voters.filter(
                unconnected(live_peers@),
            )
            &&& plan.cluster_size == voters.len() + 1
            &&& plan.reduced_durability == (initial_rf > voters.len() + 1)
        }),
{
    let at_internode_port = normalize_cluster_peers(peers, internode_port);
    let (voters, observers) = partition_peers_by_dc(
        at_internode_port.as_slice(),
        peer_dcs,
        local_dc,
    );
    let ghost vs = crate::address::peer_views(voters@);
    let ghost p = unconnected(live_peers@);
    proof {
        let n = normalized(crate::address::peer_views(peers@), internode_port);
        crate::collections::lemma_filter_shortens(
            n,
            crate::controller::topology::in_dc(peer_dcs@, local_dc@, local_dc@),
        );
    }
    let mut connect: Vec<Peer> = Vec::new();
    let mut i: usize = 0;
    proof {
        reveal(Seq::filter);
        assert(crate::address::peer_views(connect@) =~= vs.take(0).filter(p));
    }
    while i < voters.len()
        invariant
            i <= voters.len(),
            vs == crate::address::peer_views(voters@),
            p == unconnected(live_peers@),
            crate::address::peer_views(connect@) == vs.take(i as int).filter(p),
        decreases voters.len() - i,
    {
        proof {
            crate::collections::lemma_filter_step(vs, i as int, p);
        }
        if !live_peers.contains(&voters[i].host_id) {
            let q = voters[i].copied();
            proof {
                crate::address::lemma_peer_views_push(connect@, q);
            }
            connect.push(q);
        }
        i = i + 1;
    }
    assert(vs.take(i as int) =~= vs);
    let was_seed: bool = is_seed_node(local_host_id, voters.as_slice());
    let cluster_size: usize = voters.len() + 1;
    TransitionPlan {
        voters,
        observers,
        was_seed,
        connect,
        cluster_size,
        reduced_durability: initial_rf > cluster_size,
    }
}

/// What the local log and state machine say of each other.
#[derive(Clone, Copy, Debug, PartialEq, Eq, Structural)]
pub enum LocalRaftState {
    /// They agree.
    Usable,
    /// The log begins after entries that the state machine has not seen but
    /// need not.
    NeedsPurgePointBaseline,
    /// Entries were purged before they were applied; no copy is left here.
    StrandedBehindPurge { last_applied: u64, last_purged: u64 },
}

/// What to do about it.
#[derive(Clone, Copy, Debug, PartialEq, Eq, Structural)]
pub enum LocalRecovery {
    /// Go on.
    Keep,
    /// Let the state machine begin at the purge point.
    AdoptPurgePoint,
    /// Set the local state aside and take the leader's.
    Reset,
}

/// What to do about the local state.
pub fn plan_local_recovery(state: LocalRaftState) -> (r: LocalRecovery)
    ensures
        r == match state {
            LocalRaftState::Usable => LocalRecovery::Keep,
            LocalRaftState::NeedsPurgePointBaseline => LocalRecovery::AdoptPurgePoint,
            LocalRaftState::StrandedBehindPurge { .. } => LocalRecovery::Reset,
        },
{
    match state {
        LocalRaftState::Usable => LocalRecovery::Keep,
        LocalRaftState::NeedsPurgePointBaseline => LocalRecovery::AdoptPurgePoint,
        LocalRaftState::StrandedBehindPurge { .. } => LocalRecovery::Reset,
    }
}

/// Is the topology in the log taken? Only where the state machine has none and
/// the log has some.
pub fn takes_topology_from_log(has_topology: bool, members: usize, tokens: usize) -> (b: bool)
    ensures
        b == (!has_topology && (members > 0 || tokens > 0)),
{
    !has_topology && (members > 0 || tokens > 0)
}

/// Was a membership recovered: from the log, where it could be read, or else
/// from the topology?
pub fn has_recovered_membership(found_in_log: Option<bool>, recovered_from_topology: bool) -> (b: bool)
    ensures
        b == (found_in_log == Some(true) || recovered_from_topology),
{
    match found_in_log {
        Some(found) => found || recovered_from_topology,
        None => recovered_from_topology,
    }
}

/// A cluster in formation.
#[derive(Debug)]
pub struct Formation {
    /// This node.
    pub local: NodeInfo,
    pub local_node_id: u64,
    /// The other voters.
    pub peers: Vec<Peer>,
    /// Node id of every host.
    pub node_ids: HashMap<u128, u64>,
    /// Addresses for clients that peers announced.
    pub cql_broadcasts: HashMap<u128, String>,
    /// Addresses for nodes that peers announced.
    pub internode_broadcasts: HashMap<u128, String>,
    pub num_tokens: usize,
    /// The topology was there before.
    pub recovered_topology: bool,
    /// This node wrote the first membership.
    pub initialized_seed_membership: bool,
    /// Configured time for formation.
    pub formation_timeout_secs: Option<u64>,
}

/// The ring before consensus runs: the members are known, but only this node
/// owns tokens. The others get theirs through consensus.
#[derive(Debug)]
pub struct InitialRing {
    /// Records of all members, this node first.
    pub records: Vec<NodeInfo>,
    /// This node.
    pub owner: u64,
    /// Its tokens.
    pub tokens: Vec<i64>,
}

/// What is done after the election, in order.
#[derive(Debug)]
pub enum FormationStep {
    /// Watch the recorded addresses, and repair them to these.
    WatchAddresses { desired: VecMap<u64, String> },
    /// Propose changes, in order.
    Propose { ops: Vec<RaftOp> },
    /// Send schema changes through consensus from now on.
    RouteDdlThroughRaft,
    /// Replay the schema changes that were queued.
    DrainQueuedDdl,
    /// Bring the local schema to the leader.
    ReplaySchema { leader: u64 },
    /// Send data to the owners of its tokens.
    StreamToOwners,
    /// Tell the leader that the data is sent.
    ReportBootstrapComplete { leader: u64 },
    /// Wait for so many nodes to tell that theirs is.
    AwaitReports { expected: usize, timeout_secs: u64 },
    /// Count an election that came to nothing.
    CountElectionTimeout,
    /// Be a pair again.
    RevertToPair,
    /// Apply schema changes directly from now on.
    RouteDdlDirect,
    /// Ask the existing cluster for admission.
    StartRejoin,
    /// Make the consensus instance available.
    PublishRaft,
}

/// Model of [`FormationStep`].
pub enum StepView {
    WatchAddresses { desired: Map<u64, Seq<char>> },
    Propose { ops: Seq<crate::raft::OpView> },
    RouteDdlThroughRaft,
    DrainQueuedDdl,
    ReplaySchema { leader: u64 },
    StreamToOwners,
    ReportBootstrapComplete { leader: u64 },
    AwaitReports { expected: nat, timeout_secs: u64 },
    CountElectionTimeout,
    RevertToPair,
    RouteDdlDirect,
    StartRejoin,
    PublishRaft,
}

impl View for FormationStep {
    type V = StepView;

    open spec fn view(&self) -> StepView {
        match self {
            FormationStep::WatchAddresses { desired } => StepView::WatchAddresses {
                desired: crate::controller::topology::member_texts(desired@),
            },
            FormationStep::Propose { ops } => StepView::Propose {
                ops: crate::raft::op_views(ops@),
            },
            FormationStep::RouteDdlThroughRaft => StepView::RouteDdlThroughRaft,
            FormationStep::DrainQueuedDdl => StepView::DrainQueuedDdl,
            FormationStep::ReplaySchema { leader } => StepView::ReplaySchema { leader: *leader },
            FormationStep::StreamToOwners => StepView::StreamToOwners,
            FormationStep::ReportBootstrapComplete { leader } => {
                StepView::ReportBootstrapComplete { leader: *leader }
            },
            FormationStep::AwaitReports { expected, timeout_secs } => StepView::AwaitReports {
                expected: *expected as nat,
                timeout_secs: *timeout_secs,
            },
            FormationStep::CountElectionTimeout => StepView::CountElectionTimeout,
            FormationStep::RevertToPair => StepView::RevertToPair,
            FormationStep::RouteDdlDirect => StepView::RouteDdlDirect,
            FormationStep::StartRejoin => StepView::StartRejoin,
            FormationStep::PublishRaft => StepView::PublishRaft,
        }
    }
}

/// Models of a list of steps.
pub open spec fn step_views(steps: Seq<FormationStep>) -> Seq<StepView> {
    Seq::new(steps.len(), |i: int| steps[i]@)
}

impl Formation {
    /// Every member has a node id.
    pub open spec fn wf(self) -> bool {
        &&& self.node_ids@.contains_key(self.local.host_id)
        &&& self.node_ids@[self.local.host_id] == self.local_node_id
        &&& forall|i: int|
            0 <= i < self.peers@.len() ==> self.node_ids@.contains_key(
                (#[trigger] self.peers@[i]).host_id,
            )
        &&& self.local.state == NodeState::Normal
    }

    /// The other voters.
    pub open spec fn spec_peers(self) -> Seq<crate::address::PeerView> {
        crate::address::peer_views(self.peers@)
    }

    /// The records of all members.
    pub open spec fn records(self) -> Seq<crate::raft::NodeInfoView> {
        crate::controller::topology::refresh_plan(
            self.local@,
            self.spec_peers(),
            self.cql_broadcasts@,
            self.internode_broadcasts@,
        )
    }

    /// The tokens of a member.
    pub open spec fn assignment(self, record: crate::raft::NodeInfoView) -> crate::raft::OpView {
        crate::raft::OpView::AssignTokens {
            node_id: self.node_ids@[record.host_id],
            tokens: crate::controller::token::tokens_of(
                self.node_ids@[record.host_id],
                self.num_tokens as nat,
            ),
        }
    }

    /// Bring recovered records up to date: all records, then all tokens.
    pub open spec fn refresh_ops(self) -> Seq<crate::raft::OpView> {
        let r = self.records();
        Seq::new(r.len(), |i: int| crate::raft::OpView::UpdateNodeInfo(r[i])) + Seq::new(
            r.len(),
            |i: int| self.assignment(r[i]),
        )
    }

    /// Add members with their tokens, one after the other.
    pub open spec fn join_ops(self, records: Seq<crate::raft::NodeInfoView>) -> Seq<
        crate::raft::OpView,
    >
        decreases records.len(),
    {
        if records.len() == 0 {
            Seq::empty()
        } else {
            self.join_ops(records.drop_last()) + seq![
                crate::raft::OpView::JoinNode(records.last()),
                self.assignment(records.last()),
            ]
        }
    }

    /// Node ids of the other voters that are not this node's.
    pub open spec fn joiner_ids(self) -> Seq<u64> {
        Seq::new(self.peers@.len(), |i: int| self.node_ids@[self.peers@[i].host_id]).filter(
            crate::controller::formation::other_id(self.local_node_id),
        )
    }

    /// Let every other node serve.
    pub open spec fn promote_ops(self) -> Seq<crate::raft::OpView> {
        let ids = self.joiner_ids();
        Seq::new(
            ids.len(),
            |i: int|
                crate::raft::OpView::SetNodeState { node_id: ids[i], state: NodeState::Normal },
        )
    }

    /// What brings recovered members up to date.
    pub open spec fn recovery_part(self, leader: u64) -> Seq<StepView> {
        if !self.recovered_topology {
            Seq::empty()
        } else {
            let watch = seq![
                StepView::WatchAddresses {
                    desired: crate::controller::topology::listed_members(
                        crate::controller::topology::info_entries(self.records(), self.node_ids@),
                    ),
                },
            ];
            if leader == self.local_node_id {
                watch + seq![StepView::Propose { ops: self.refresh_ops() }]
            } else {
                watch
            }
        }
    }

    /// What the seed adds.
    pub open spec fn seed_part(self) -> Seq<StepView> {
        if self.initialized_seed_membership {
            seq![StepView::Propose { ops: self.join_ops(self.records()) }]
        } else {
            Seq::empty()
        }
    }

    /// How the schema catches up.
    pub open spec fn schema_part(self, leader: u64) -> Seq<StepView> {
        seq![
            StepView::RouteDdlThroughRaft,
            StepView::DrainQueuedDdl,
            StepView::ReplaySchema { leader },
        ]
    }

    /// How data moves and nodes begin to serve.
    pub open spec fn stream_part(self, leader: u64) -> Seq<StepView> {
        if self.recovered_topology {
            Seq::empty()
        } else if leader != self.local_node_id {
            seq![StepView::StreamToOwners, StepView::ReportBootstrapComplete { leader }]
        } else {
            seq![
                StepView::StreamToOwners,
                StepView::AwaitReports {
                    expected: self.joiner_ids().len(),
                    timeout_secs: crate::controller::retry::promotion_secs(
                        self.formation_timeout_secs,
                    ),
                },
                StepView::Propose { ops: self.promote_ops() },
            ]
        }
    }

    /// All that is done after the election.
    pub open spec fn script(self, leader: Option<u64>) -> Seq<StepView> {
        match leader {
            Some(id) => self.recovery_part(id) + self.seed_part() + self.schema_part(id)
                + self.stream_part(id) + seq![StepView::PublishRaft],
            None => seq![
                StepView::CountElectionTimeout,
                StepView::RevertToPair,
                StepView::RouteDdlDirect,
                StepView::StartRejoin,
                StepView::PublishRaft,
            ],
        }
    }
}

/// Ids other than this one.
pub open spec fn other_id(id: u64) -> spec_fn(u64) -> bool {
    |x: u64| x != id
}

impl Formation {
    /// The records of all members.
    fn build_records(&self) -> (v: Vec<NodeInfo>)
        requires
            self.wf(),
        ensures
            crate::raft::info_views(v@) == self.records(),
            crate::controller::topology::knows_ids(
                self.node_ids@,
                crate::raft::info_views(v@),
            ),
    {
        let v = build_recovered_topology_refresh_plan(
            self.local.host_id,
            self.local.addr.as_str(),
            borrowed_text(&self.local.cql_broadcast),
            self.local.data_center.as_str(),
            self.local.rack.as_str(),
            self.peers.as_slice(),
            &self.cql_broadcasts,
            &self.internode_broadcasts,
        );
        proof {
            let r = self.records();
            assert forall|i: int| 0 <= i < r.len() implies self.node_ids@.contains_key(
                (#[trigger] r[i]).host_id,
            ) by {
                if i > 0 {
                    assert(r[i].host_id == self.peers@[i - 1].host_id);
                }
            }
        }
        v
    }

    /// The ring before consensus runs.
    pub fn build_initial_ring(&self) -> (ring: InitialRing)
        requires
            self.wf(),
        ensures
            crate::raft::info_views(ring.records@) == self.records(),
            ring.owner == self.local_node_id,
            ring.tokens@ == crate::controller::token::tokens_of(
                self.local_node_id,
                self.num_tokens as nat,
            ),
    {
        InitialRing {
            records: self.build_records(),
            owner: self.local_node_id,
            tokens: deterministic_tokens_for_node(self.local_node_id, self.num_tokens),
        }
    }

    fn build_refresh_ops(&self, records: &[NodeInfo]) -> (ops: Vec<RaftOp>)
        requires
            self.wf(),
            crate::raft::info_views(records@) == self.records(),
            crate::controller::topology::knows_ids(
                self.node_ids@,
                crate::raft::info_views(records@),
            ),
        ensures
            crate::raft::op_views(ops@) == self.refresh_ops(),
    {
        let ghost r = self.records();
        let n: usize = records.len();
        let mut ops: Vec<RaftOp> = Vec::new();
        let mut i: usize = 0;
        while i < n
            invariant
                i <= n,
                n == records@.len(),
                n == r.len(),
                r == crate::raft::info_views(records@),
                ops@.len() == i,
                forall|k: int|
                    0 <= k < i ==> (#[trigger] ops@[k])@ == crate::raft::OpView::UpdateNodeInfo(r[k]),
            decreases n - i,
        {
            ops.push(RaftOp::UpdateNodeInfo(records[i].copied()));
            i = i + 1;
        }
        let mut plan = build_recovered_topology_token_repair_plan(
            records,
            &self.node_ids,
            self.num_tokens,
        );
        let ghost all = plan@;
        while plan.len() > 0
            invariant
                n == r.len(),
                r == crate::raft::info_views(records@),
                all.len() == n,
                forall|k: int|
                    0 <= k < n ==> (#[trigger] all[k]).0 == self.node_ids@[records@[k].host_id]
                        && all[k].1@ == crate::controller::token::tokens_of(
                        all[k].0,
                        self.num_tokens as nat,
                    ),
                plan@.len() <= n,
                ops@.len() == n + (n - plan@.len()),
                plan@ == all.skip(n - plan@.len()),
                forall|k: int|
                    0 <= k < n ==> (#[trigger] ops@[k])@ == crate::raft::OpView::UpdateNodeInfo(r[k]),
                forall|k: int|
                    n <= k < ops@.len() ==> (#[trigger] ops@[k])@ == self.assignment(r[k - n]),
            decreases plan.len(),
        {
            let ghost k = n - plan@.len();
            let (node_id, tokens) = plan.remove(0);
            assert((node_id, tokens) == all[k]);
            assert(r[k].host_id == records@[k].host_id);
            ops.push(RaftOp::AssignTokens { node_id, tokens });
            assert(plan@ =~= all.skip(k + 1));
        }
        assert(crate::raft::op_views(ops@) =~= self.refresh_ops());
        ops
    }

    /// Add members with their tokens.
    fn build_join_ops(&self, records: &[NodeInfo]) -> (ops: Vec<RaftOp>)
        requires
            self.wf(),
            crate::controller::topology::knows_ids(
                self.node_ids@,
                crate::raft::info_views(records@),
            ),
        ensures
            crate::raft::op_views(ops@) == self.join_ops(crate::raft::info_views(records@)),
    {
        let ghost r = crate::raft::info_views(records@);
        let mut ops: Vec<RaftOp> = Vec::new();
        let mut i: usize = 0;
        assert(crate::raft::op_views(ops@) =~= self.join_ops(r.take(0)));
        while i < records.len()
            invariant
                i <= records.len(),
                r == crate::raft::info_views(records@),
                crate::controller::topology::knows_ids(self.node_ids@, r),
                crate::raft::op_views(ops@) == self.join_ops(r.take(i as int)),
            decreases records.len() - i,
        {
            assert(self.node_ids@.contains_key(r[i as int].host_id));
            let node_id: u64 = *self.node_ids.get(&records[i].host_id).unwrap();
            let join = RaftOp::JoinNode(records[i].copied());
            let assign = RaftOp::AssignTokens {
                node_id,
                tokens: deterministic_tokens_for_node(node_id, self.num_tokens),
            };
            proof {
                crate::raft::lemma_op_views_push(ops@, join);
                crate::raft::lemma_op_views_push(ops@.push(join), assign);
                assert(r.take(i + 1).drop_last() =~= r.take(i as int));
                assert(r.take(i + 1).last() == records@[i as int]@);
                assert(crate::raft::op_views(ops@).push(join@).push(assign@) =~= self.join_ops(
                    r.take(i + 1),
                ));
            }
            ops.push(join);
            ops.push(assign);
            i = i + 1;
        }
        assert(r.take(i as int) =~= r);
        ops
    }

    /// Let every other node serve.
    fn build_promote_ops(&self) -> (ops: Vec<RaftOp>)
        requires
            self.wf(),
        ensures
            crate::raft::op_views(ops@) == self.promote_ops(),
    {
        let ghost ids = Seq::new(
            self.peers@.len(),
            |i: int| self.node_ids@[self.peers@[i].host_id],
        );
        let ghost p = other_id(self.local_node_id);
        let mut ops: Vec<RaftOp> = Vec::new();
        let mut i: usize = 0;
        proof {
            reveal(Seq::filter);
        }
        while i < self.peers.len()
            invariant
                self.wf(),
                i <= self.peers.len(),
                ids.len() == self.peers@.len(),
                forall|k: int| 0 <= k < ids.len() ==> #[trigger] ids[k]
                    == self.node_ids@[self.peers@[k].host_id],
                p == other_id(self.local_node_id),
                ops@.len() == ids.take(i as int).filter(p).len(),
                forall|k: int|
                    0 <= k < ops@.len() ==> (#[trigger] ops@[k])@
                        == (crate::raft::OpView::SetNodeState {
                        node_id: ids.take(i as int).filter(p)[k],
                        state: NodeState::Normal,
                    }),
            decreases self.peers.len() - i,
        {
            proof {
                crate::collections::lemma_filter_step(ids, i as int, p);
            }
            let node_id: u64 = *self.node_ids.get(&self.peers[i].host_id).unwrap();
            assert(ids[i as int] == node_id);
            if node_id != self.local_node_id {
                ops.push(RaftOp::SetNodeState { node_id, state: NodeState::Normal });
            }
            i = i + 1;
        }
        assert(ids.take(i as int) =~= ids);
        assert(ids =~= Seq::new(
            self.peers@.len(),
            |i: int| self.node_ids@[self.peers@[i].host_id],
        ));
        assert(crate::raft::op_views(ops@) =~= self.promote_ops());
        ops
    }

    /// What is done after the election, in order.
    pub fn plan_after_election(&self, leader: Option<u64>) -> (steps: Vec<FormationStep>)
        requires
            self.wf(),
        ensures
            step_views(steps@) == self.script(leader),
    {
        let mut steps: Vec<FormationStep> = Vec::new();
        match leader {
            Some(lid) => {
                let records = self.build_records();
                if self.recovered_topology {
                    steps.push(
                        FormationStep::WatchAddresses {
                            desired: build_raft_members_from_node_info(
                                records.as_slice(),
                                &self.node_ids,
                            ),
                        },
                    );
                    if lid == self.local_node_id {
                        steps.push(
                            FormationStep::Propose { ops: self.build_refresh_ops(records.as_slice()) },
                        );
                    }
                }
                assert(step_views(steps@) =~= self.recovery_part(lid));
                if self.initialized_seed_membership {
                    steps.push(
                        FormationStep::Propose { ops: self.build_join_ops(records.as_slice()) },
                    );
                }
                assert(step_views(steps@) =~= self.recovery_part(lid) + self.seed_part());
                steps.push(FormationStep::RouteDdlThroughRaft);
                steps.push(FormationStep::DrainQueuedDdl);
                steps.push(FormationStep::ReplaySchema { leader: lid });
                assert(step_views(steps@) =~= self.recovery_part(lid) + self.seed_part()
                    + self.schema_part(lid));
                if !self.recovered_topology {
                    steps.push(FormationStep::StreamToOwners);
                    if lid != self.local_node_id {
                        steps.push(FormationStep::ReportBootstrapComplete { leader: lid });
                    } else {
                        let ops = self.build_promote_ops();
                        assert(crate::raft::op_views(ops@).len() == self.joiner_ids().len());
                        steps.push(
                            FormationStep::AwaitReports {
                                expected: ops.len(),
                                timeout_secs: promotion_timeout_secs(self.formation_timeout_secs),
                            },
                        );
                        steps.push(FormationStep::Propose { ops });
                    }
                }
                assert(step_views(steps@) =~= self.recovery_part(lid) + self.seed_part()
                    + self.schema_part(lid) + self.stream_part(lid));
                steps.push(FormationStep::PublishRaft);
            },
            None => {
                steps.push(FormationStep::CountElectionTimeout);
                steps.push(FormationStep::RevertToPair);
                steps.push(FormationStep::RouteDdlDirect);
                steps.push(FormationStep::StartRejoin);
                steps.push(FormationStep::PublishRaft);
            },
        }
        assert(step_views(steps@) =~= self.script(leader));
        steps
    }
}

/// Position of a step in a script.
pub open spec fn at(script: Seq<StepView>, i: int, step: StepView) -> bool {
    0 <= i < script.len() && script[i] == step
}

/// Without a leader nothing is proposed and no data moves: the node goes back
/// to being a pair, applies schema changes directly, and asks for admission.
pub proof fn no_leader_no_proposals(f: Formation)
    ensures
        forall|i: int|
            0 <= i < f.script(None).len() ==> !(#[trigger] f.script(None)[i] is Propose) && !(
            f.script(None)[i] is StreamToOwners) && !(f.script(None)[i] is RouteDdlThroughRaft),
        f.script(None).contains(StepView::RevertToPair),
        f.script(None).contains(StepView::RouteDdlDirect),
        f.script(None).contains(StepView::StartRejoin),
        f.script(None).last() == StepView::PublishRaft,
{
    let s = f.script(None);
    assert(s[1] == StepView::RevertToPair);
    assert(s[2] == StepView::RouteDdlDirect);
    assert(s[3] == StepView::StartRejoin);
}

/// With a leader, queued schema changes are replayed, and only after new ones
/// go through consensus, so that none is lost between the two; the consensus
/// instance is made available last.
pub proof fn queued_changes_are_replayed(f: Formation, leader: u64)
    ensures
        ({
            let s = f.script(Some(leader));
            let k = (f.recovery_part(leader) + f.seed_part()).len() as int;
            &&& at(s, k, StepView::RouteDdlThroughRaft)
            &&& at(s, k + 1, StepView::DrainQueuedDdl)
            &&& at(s, k + 2, StepView::ReplaySchema { leader })
            &&& s.last() == StepView::PublishRaft
        }),
{
}

/// Does a step add a node?
pub open spec fn adds_a_node(step: StepView) -> bool {
    step is Propose && exists|j: int|
        0 <= j < step->Propose_ops.len() && (#[trigger] step->Propose_ops[j]) is JoinNode
}

/// Where the topology was recovered, no data moves and no node is added: the
/// cluster is back as it was.
pub proof fn recovered_clusters_do_not_move_data(f: Formation, leader: u64)
    requires
        f.recovered_topology,
        !f.initialized_seed_membership,
    ensures
        forall|i: int|
            0 <= i < f.script(Some(leader)).len() ==> !(#[trigger] f.script(Some(leader))[i] is StreamToOwners)
                && !(f.script(Some(leader))[i] is AwaitReports),
        forall|i: int|
            0 <= i < f.script(Some(leader)).len() ==> !adds_a_node(
                #[trigger] f.script(Some(leader))[i],
            ),
{
    let ops = f.refresh_ops();
    assert forall|j: int| 0 <= j < ops.len() implies !(#[trigger] ops[j] is JoinNode) by {}
}

/// Nodes that join begin to serve only after the leader has waited for their
/// reports, and only the leader lets them.
pub proof fn promotion_follows_reports(f: Formation, leader: u64)
    requires
        !f.recovered_topology,
        leader == f.local_node_id,
    ensures
        ({
            let s = f.script(Some(leader));
            let n = s.len() as int;
            &&& s[n - 4] == StepView::StreamToOwners
            &&& s[n - 3] is AwaitReports
            &&& s[n - 2] == (StepView::Propose { ops: f.promote_ops() })
        }),
{
}

/// The seed's own record and tokens are proposed with those of its peers, so
/// that every node learns of every member.
pub proof fn seed_announces_every_member(f: Formation, i: int)
    requires
        0 <= i < f.records().len(),
    ensures
        f.join_ops(f.records()).contains(crate::raft::OpView::JoinNode(f.records()[i])),
        f.join_ops(f.records()).contains(f.assignment(f.records()[i])),
{
    lemma_join_ops_cover(f, f.records(), i);
}

proof fn lemma_join_ops_cover(f: Formation, records: Seq<crate::raft::NodeInfoView>, i: int)
    requires
        0 <= i < records.len(),
    ensures
        f.join_ops(records).contains(crate::raft::OpView::JoinNode(records[i])),
        f.join_ops(records).contains(f.assignment(records[i])),
    decreases records.len(),
{
    let head = f.join_ops(records.drop_last());
    let all = f.join_ops(records);
    let n = head.len() as int;
    if i == records.len() - 1 {
        assert(all[n] == crate::raft::OpView::JoinNode(records[i]));
        assert(all[n + 1] == f.assignment(records[i]));
    } else {
        lemma_join_ops_cover(f, records.drop_last(), i);
        let a = choose|a: int|
            0 <= a < head.len() && head[a] == crate::raft::OpView::JoinNode(records[i]);
        let b = choose|b: int| 0 <= b < head.len() && head[b] == f.assignment(records[i]);
        assert(all[a] == head[a]);
        assert(all[b] == head[b]);
    }
}

/// The tokens that the seed assigns to itself through consensus are those that it
/// owned before consensus ran.
pub proof fn consensus_keeps_the_initial_tokens(f: Formation)
    requires
        f.wf(),
    ensures
        f.records()[0] == f.local@,
        f.assignment(f.records()[0]) == (crate::raft::OpView::AssignTokens {
            node_id: f.local_node_id,
            tokens: crate::controller::token::tokens_of(f.local_node_id, f.num_tokens as nat),
        }),
        f.join_ops(f.records()).contains(f.assignment(f.local@)),
{
    seed_announces_every_member(f, 0);
}

/// The seed is the member with the highest host id: a node is it exactly where no peer has
/// a higher one.
pub proof fn the_highest_host_is_the_seed(
    local_host_id: u128,
    peers: Seq<crate::address::PeerView>,
    i: int,
)
    ensures
        is_seed(local_host_id, peers) && 0 <= i < peers.len() ==> peers[i].host_id <= local_host_id,
        0 <= i < peers.len() && peers[i].host_id > local_host_id ==> !is_seed(local_host_id, peers),
        !is_seed(local_host_id, peers) ==> exists|k: int|
            0 <= k < peers.len() && (#[trigger] peers[k]).host_id > local_host_id,
{
}

/// The voters are the peers of the local data center, each on its own host at the port for
/// nodes: a peer that announced no data center or the local one is among them, and nobody
/// else is. Those to connect to are the voters without a live connection.
pub proof fn voters_are_the_local_peers(
    peers: Seq<crate::address::PeerView>,
    peer_dcs: Map<u128, String>,
    local_dc: Seq<char>,
    port: u16,
    live: Set<u128>,
    i: int,
)
    requires
        0 <= i < peers.len(),
    ensures
        ({
            let voters = voters_of(peers, peer_dcs, local_dc, port);
            let voter = crate::address::PeerView {
                host_id: peers[i].host_id,
                addr: crate::address::AddrView { host: peers[i].addr.host, port },
            };
            let is_local = !peer_dcs.contains_key(peers[i].host_id)
                || peer_dcs[peers[i].host_id]@ == local_dc;
            &&& is_local <==> voters.contains(voter)
            &&& voters.filter(unconnected(live)).contains(voter) <==> is_local && !live.contains(
                peers[i].host_id,
            )
            &&& voters.len() <= peers.len()
            &&& forall|k: int|
                0 <= k < voters.len() ==> (#[trigger] voters[k]).addr.port == port && exists|m: int|
                    0 <= m < peers.len() && (#[trigger] peers[m]).host_id == voters[k].host_id
                        && peers[m].addr.host == voters[k].addr.host
        }),
{
    let n = normalized(peers, port);
    let voters = voters_of(peers, peer_dcs, local_dc, port);
    let voter = crate::address::PeerView {
        host_id: peers[i].host_id,
        addr: crate::address::AddrView { host: peers[i].addr.host, port },
    };
    let p = crate::controller::topology::in_dc(peer_dcs, local_dc, local_dc);
    assert(n[i] == voter);
    assert(n.contains(voter));
    crate::controller::topology::peers_are_grouped_where_they_are(
        n,
        peer_dcs,
        local_dc,
        local_dc,
        voter,
    );
    crate::collections::lemma_filter_shortens(n, p);
    assert forall|k: int| 0 <= k < voters.len() implies (#[trigger] voters[k]).addr.port == port
        && exists|m: int|
        0 <= m < peers.len() && (#[trigger] peers[m]).host_id == voters[k].host_id
            && peers[m].addr.host == voters[k].addr.host by {
        crate::collections::lemma_filter_from(n, p, k);
        let m = choose|m: int| 0 <= m < n.len() && n[m] == voters[k];
        assert(peers[m].host_id == voters[k].host_id);
    }
    let q = unconnected(live);
    let connect = voters.filter(q);
    if voters.contains(voter) && q(voter) {
        let k = choose|k: int| 0 <= k < voters.len() && voters[k] == voter;
        voters.lemma_filter_contains(q, k);
    }
    if connect.contains(voter) {
        let k = choose|k: int| 0 <= k < connect.len() && connect[k] == voter;
        voters.lemma_filter_pred(q, k);
        crate::collections::lemma_filter_from(voters, q, k);
    }
}

/// Peers at the port for nodes are the same peers on the same hosts, in order.
pub proof fn normalizing_changes_the_port_only(
    peers: Seq<crate::address::PeerView>,
    port: u16,
    i: int,
)
    requires
        0 <= i < peers.len(),
    ensures
        normalized(peers, port).len() == peers.len(),
        normalized(peers, port)[i].host_id == peers[i].host_id,
        normalized(peers, port)[i].addr.host == peers[i].addr.host,
        normalized(peers, port)[i].addr.port == port,
{
}

/// The members of a cluster in formation are recorded as they are known: this node as
/// given, and each peer, in order, as a serving node of this node's data center and rack,
/// at the name for nodes that it announced or else at its address, with the address for
/// clients that it announced.
pub proof fn members_are_recorded_as_known(f: Formation, i: int)
    requires
        0 <= i < f.peers@.len(),
    ensures
        ({
            let r = f.records();
            let h = f.peers@[i].host_id;
            &&& r.len() == f.peers@.len() + 1
            &&& r[0].host_id == f.local.host_id && r[0].addr == f.local.addr@
            &&& r[0].data_center == f.local.data_center@ && r[0].rack == f.local.rack@
            &&& r[0].state == f.local.state
            &&& r[i + 1].host_id == h
            &&& f.internode_broadcasts@.contains_key(h) ==> r[i + 1].addr
                == f.internode_broadcasts@[h]@
            &&& !f.internode_broadcasts@.contains_key(h) ==> r[i + 1].addr
                == f.peers@[i].addr.host@ + ":"@ + crate::text::decimal_text(
                f.peers@[i].addr.port as nat,
            )
            &&& r[i + 1].data_center == f.local.data_center@ && r[i + 1].rack == f.local.rack@
            &&& r[i + 1].state == NodeState::Normal
            &&& f.cql_broadcasts@.contains_key(h) ==> r[i + 1].cql_broadcast == Some(
                f.cql_broadcasts@[h]@,
            )
            &&& !f.cql_broadcasts@.contains_key(h) ==> r[i + 1].cql_broadcast is None
        }),
{
}

/// What is done after an election, step by step. Members of a recovered cluster have their
/// addresses watched, and the leader brings their records up to date. The node that wrote
/// the first membership proposes the members. Then schema changes go through consensus,
/// those that were queued are replayed, and the schema is brought to the leader. In a new
/// cluster data is sent to its owners, after which the leader waits for the others and lets
/// them serve, while the others report to it. Last, consensus is made available.
pub proof fn steps_follow_in_order(f: Formation, leader: u64)
    ensures
        ({
            let s = f.script(Some(leader));
            let mine = leader == f.local_node_id;
            let a: int = if !f.recovered_topology {
                0
            } else if mine {
                2
            } else {
                1
            };
            let b: int = if f.initialized_seed_membership {
                a + 1
            } else {
                a
            };
            let c: int = if f.recovered_topology {
                b + 3
            } else if mine {
                b + 6
            } else {
                b + 5
            };
            &&& s.len() == c + 1
            &&& f.recovered_topology ==> s[0] is WatchAddresses
            &&& f.recovered_topology && mine ==> s[1] is Propose
            &&& f.initialized_seed_membership ==> s[a] is Propose
            &&& s[b] == StepView::RouteDdlThroughRaft
            &&& s[b + 1] == StepView::DrainQueuedDdl
            &&& s[b + 2] == (StepView::ReplaySchema { leader })
            &&& !f.recovered_topology ==> s[b + 3] == StepView::StreamToOwners
            &&& !f.recovered_topology && !mine ==> s[b + 4] == (StepView::ReportBootstrapComplete {
                leader,
            })
            &&& !f.recovered_topology && mine ==> s[b + 4] is AwaitReports && s[b + 5] is Propose
            &&& s[c] == StepView::PublishRaft
        }),
{
}

/// What the leader proposes after it has waited for reports lets every other voter serve:
/// for each peer whose node id is not the leader's there is a change that sets that node,
/// and no other, to serving; there is no other change, and none names the leader. It waits
/// for as many reports as it lets nodes serve.
pub proof fn every_other_voter_is_promoted(f: Formation, i: int)
    requires
        !f.recovered_topology,
        0 <= i < f.peers@.len(),
    ensures
        ({
            let s = f.script(Some(f.local_node_id));
            let n = s.len() as int;
            let id = f.node_ids@[f.peers@[i].host_id];
            &&& s[n - 3] matches StepView::AwaitReports { expected, .. }
            &&& s[n - 2] matches StepView::Propose { ops }
            &&& ops.len() == expected
            &&& id != f.local_node_id ==> ops.contains(
                crate::raft::OpView::SetNodeState { node_id: id, state: NodeState::Normal },
            )
            &&& forall|j: int|
                0 <= j < ops.len() ==> {
                    &&& (#[trigger] ops[j]) matches crate::raft::OpView::SetNodeState {
                        node_id,
                        state,
                    }
                    &&& state == NodeState::Normal
                    &&& node_id != f.local_node_id
                    &&& exists|k: int|
                        0 <= k < f.peers@.len() && f.node_ids@[(#[trigger] f.peers@[k]).host_id]
                            == node_id
                }
            &&& (forall|k: int, m: int|
                0 <= k < m < f.peers@.len() ==> f.node_ids@[(#[trigger] f.peers@[k]).host_id]
                    != f.node_ids@[(#[trigger] f.peers@[m]).host_id]) ==> ops.no_duplicates()
        }),
{
    let ids = Seq::new(f.peers@.len(), |k: int| f.node_ids@[f.peers@[k].host_id]);
    let p = other_id(f.local_node_id);
    let kept = f.joiner_ids();
    let ops = f.promote_ops();
    assert(kept == ids.filter(p));
    assert(ids[i] == f.node_ids@[f.peers@[i].host_id]);
    if p(ids[i]) {
        ids.lemma_filter_contains(p, i);
        let k = choose|k: int| 0 <= k < kept.len() && kept[k] == ids[i];
        assert(ops[k] == (crate::raft::OpView::SetNodeState {
            node_id: ids[i],
            state: NodeState::Normal,
        }));
    }
    assert forall|j: int| 0 <= j < ops.len() implies {
        &&& (#[trigger] ops[j]) matches crate::raft::OpView::SetNodeState { node_id, state }
        &&& state == NodeState::Normal
        &&& node_id != f.local_node_id
        &&& exists|k: int|
            0 <= k < f.peers@.len() && f.node_ids@[(#[trigger] f.peers@[k]).host_id] == node_id
    } by {
        ids.lemma_filter_pred(p, j);
        crate::collections::lemma_filter_from(ids, p, j);
        let k = choose|k: int| 0 <= k < ids.len() && ids[k] == kept[j];
        assert(f.node_ids@[f.peers@[k].host_id] == kept[j]);
    }
    if forall|k: int, m: int|
        0 <= k < m < f.peers@.len() ==> f.node_ids@[(#[trigger] f.peers@[k]).host_id]
            != f.node_ids@[(#[trigger] f.peers@[m]).host_id] {
        assert forall|k: int, m: int| 0 <= k < ids.len() && 0 <= m < ids.len() && k != m implies ids[k]
            != ids[m] by {
            if k < m {
                assert(f.node_ids@[f.peers@[k].host_id] != f.node_ids@[f.peers@[m].host_id]);
            } else {
                assert(f.node_ids@[f.peers@[m].host_id] != f.node_ids@[f.peers@[k].host_id]);
            }
        }
        crate::collections::lemma_filter_distinct(ids, p);
        assert forall|k: int, m: int| 0 <= k < ops.len() && 0 <= m < ops.len() && k != m implies ops[k]
            != ops[m] by {
            assert(kept[k] != kept[m]);
        }
    }
}

/// Where this node has no peer, the leader waits for nobody and lets nobody serve.
pub proof fn nobody_is_promoted_alone(f: Formation)
    requires
        !f.recovered_topology,
        f.peers@.len() == 0,
    ensures
        ({
            let s = f.script(Some(f.local_node_id));
            let n = s.len() as int;
            &&& s[n - 3] matches StepView::AwaitReports { expected, .. }
            &&& s[n - 2] matches StepView::Propose { ops }
            &&& expected == 0 && ops.len() == 0
        }),
{
    crate::collections::lemma_filter_shortens(
        Seq::new(f.peers@.len(), |k: int| f.node_ids@[f.peers@[k].host_id]),
        other_id(f.local_node_id),
    );
}

proof fn lemma_join_ops_at(f: Formation, records: Seq<crate::raft::NodeInfoView>, i: int)
    requires
        0 <= i < records.len(),
    ensures
        f.join_ops(records).len() == 2 * records.len(),
        f.join_ops(records)[2 * i] == crate::raft::OpView::JoinNode(records[i]),
        f.join_ops(records)[2 * i + 1] == f.assignment(records[i]),
    decreases records.len(),
{
    let head = records.drop_last();
    if i < head.len() {
        lemma_join_ops_at(f, head, i);
    } else if head.len() > 0 {
        lemma_join_ops_at(f, head, 0);
    }
}

/// The node that wrote the first membership proposes, member after member and itself first,
/// that the member joins with its record and then that it owns its tokens, under its own
/// node id.
pub proof fn the_seed_adds_each_member_with_its_tokens(f: Formation, i: int, leader: u64)
    requires
        f.initialized_seed_membership,
        0 <= i < f.records().len(),
    ensures
        ({
            let s = f.script(Some(leader));
            let a: int = if !f.recovered_topology {
                0
            } else if leader == f.local_node_id {
                2
            } else {
                1
            };
            let r = f.records()[i];
            &&& s[a] matches StepView::Propose { ops }
            &&& ops.len() == 2 * (f.peers@.len() + 1)
            &&& ops[2 * i] == crate::raft::OpView::JoinNode(r)
            &&& ops[2 * i + 1] matches crate::raft::OpView::AssignTokens { node_id, tokens }
            &&& node_id == f.node_ids@[r.host_id]
            &&& tokens.len() == f.num_tokens
            &&& forall|k: int|
                0 <= k < tokens.len() ==> #[trigger] tokens[k]
                    == crate::controller::token::token_of(node_id, k as u64)
        }),
{
    lemma_join_ops_at(f, f.records(), i);
}

/// The leader of a recovered cluster proposes the record of every member and then the
/// tokens of every member, each under its own node id.
pub proof fn recovered_members_are_brought_up_to_date(f: Formation, i: int)
    requires
        f.recovered_topology,
        0 <= i < f.records().len(),
    ensures
        ({
            let s = f.script(Some(f.local_node_id));
            let r = f.records()[i];
            let n = f.peers@.len() + 1;
            &&& s[1] matches StepView::Propose { ops }
            &&& ops.len() == 2 * n
            &&& ops[i] == crate::raft::OpView::UpdateNodeInfo(r)
            &&& ops[n + i] matches crate::raft::OpView::AssignTokens { node_id, tokens }
            &&& node_id == f.node_ids@[r.host_id]
            &&& tokens.len() == f.num_tokens
            &&& forall|k: int|
                0 <= k < tokens.len() ==> #[trigger] tokens[k]
                    == crate::controller::token::token_of(node_id, k as u64)
        }),
{
}

/// Where members have distinct node ids, the addresses that are watched in a recovered
/// cluster are those of the records, each under its member's node id.
pub proof fn recorded_addresses_are_watched(f: Formation, leader: u64, i: int)
    requires
        f.recovered_topology,
        0 <= i < f.records().len(),
        forall|k: int, m: int|
            0 <= k < m < f.records().len() ==> f.node_ids@[(#[trigger] f.records()[k]).host_id]
                != f.node_ids@[(#[trigger] f.records()[m]).host_id],
    ensures
        f.script(Some(leader))[0] matches StepView::WatchAddresses { desired }
            && desired.contains_key(f.node_ids@[f.records()[i].host_id])
            && desired[f.node_ids@[f.records()[i].host_id]] == f.records()[i].addr,
{
    crate::controller::topology::recorded_members_are_at_their_addresses(
        f.records(),
        f.node_ids@,
        i,
        f.node_ids@[f.records()[i].host_id],
    );
}

/// Steps are modelled as they are: a model is of the same step, with the same leader, the
/// same changes in order and the same counts.
pub proof fn models_say_what_is_done(step: FormationStep, steps: Seq<FormationStep>, i: int)
    ensures
        step_views(steps).len() == steps.len(),
        0 <= i < steps.len() ==> step_views(steps)[i] == steps[i]@,
        step matches FormationStep::Propose { ops } ==> step@ == (StepView::Propose {
            ops: crate::raft::op_views(ops@),
        }),
        step is Propose <==> step@ is Propose,
        step is RouteDdlThroughRaft <==> step@ is RouteDdlThroughRaft,
        step is DrainQueuedDdl <==> step@ is DrainQueuedDdl,
        step matches FormationStep::ReplaySchema { leader } ==> step@ == (StepView::ReplaySchema {
            leader,
        }),
        step is StreamToOwners <==> step@ is StreamToOwners,
        step matches FormationStep::ReportBootstrapComplete { leader } ==> step@ == (
        StepView::ReportBootstrapComplete { leader }),
        step matches FormationStep::AwaitReports { expected, timeout_secs } ==> step@ == (
        StepView::AwaitReports { expected: expected as nat, timeout_secs }),
        step is CountElectionTimeout <==> step@ is CountElectionTimeout,
        step is RevertToPair <==> step@ is RevertToPair,
        step is RouteDdlDirect <==> step@ is RouteDdlDirect,
        step is StartRejoin <==> step@ is StartRejoin,
        step is PublishRaft <==> step@ is PublishRaft,
{
}

} // verus!
