//! Joining and leaving a cluster.

use std::collections::BTreeSet;

use vstd::prelude::*;

use crate::address::PeerAddr;
use crate::collections::str_equal;
use crate::config::ClusterConfig;
use crate::controller::retry::{poll_backoff, JOIN_POLLS};
use crate::controller::token::deterministic_tokens_for_node;
use crate::controller::topology::node_info_addr;
use crate::error::ClusterError;
use crate::raft::{borrowed_text, copied_text, NodeInfo, NodeState, RaftOp};

verus! {

broadcast use vstd::std_specs::btree::group_btree_axioms;

/// Most joins that are tracked at a time.
pub const MAX_PENDING_JOINS: usize = 100;

/// Is what is known of a member out of date? It is if its address changed, or
/// if it announces an address for clients that is not the known one.
pub open spec fn metadata_changed(
    current: crate::raft::NodeInfoView,
    addr: Seq<char>,
    cql_broadcast: Option<Seq<char>>,
) -> bool {
    ||| current.addr != addr
    ||| cql_broadcast is Some && current.cql_broadcast != cql_broadcast
}

/// Is what is known of a member out of date?
pub fn cluster_member_metadata_changed(
    current: &NodeInfo,
    addr: &str,
    cql_broadcast: Option<&str>,
) -> (b: bool)
    ensures
        b == metadata_changed(current@, addr@, crate::raft::str_view(cql_broadcast)),
{
    if !str_equal(current.addr.as_str(), addr) {
        return true;
    }
    match (borrowed_text(&current.cql_broadcast), cql_broadcast) {
        (Some(known), Some(new)) => !str_equal(known, new),
        (None, Some(_)) => true,
        _ => false,
    }
}

/// May a host join?
pub open spec fn may_join(auto_join: bool, approved: Set<u128>, host_id: u128) -> bool {
    auto_join || approved.contains(host_id)
}

/// The record of a node that asked to join; its address comes with its
/// connection.
pub open spec fn requested_record(
    host_id: u128,
    data_center: Seq<char>,
    rack: Seq<char>,
) -> crate::raft::NodeInfoView {
    crate::raft::NodeInfoView {
        host_id,
        addr: Seq::empty(),
        data_center,
        rack,
        state: NodeState::Normal,
        cql_broadcast: None,
    }
}

/// The tokens of a node.
pub open spec fn assignment_of(node_id: u64, num_tokens: u32) -> crate::raft::OpView {
    crate::raft::OpView::AssignTokens {
        node_id,
        tokens: crate::controller::token::tokens_of(node_id, num_tokens as nat),
    }
}

/// Answer a request to join: the changes to propose, in order. A host that is
/// not approved is refused before anything else is looked at.
pub fn plan_join_request(
    config: &ClusterConfig,
    approved: &BTreeSet<u128>,
    raft_ready: bool,
    peer_host_id: u128,
    peer_node_id: u64,
) -> (r: Result<Vec<RaftOp>, ClusterError>)
    ensures
        match r {
            Ok(ops) => {
                &&& may_join(config.auto_join, approved@, peer_host_id)
                &&& raft_ready
                &&& crate::raft::op_views(ops@) == seq![
                    crate::raft::OpView::JoinNode(
                        requested_record(peer_host_id, config.data_center@, config.rack@),
                    ),
                    assignment_of(peer_node_id, config.num_tokens),
                ]
            },
            Err(e) => if !may_join(config.auto_join, approved@, peer_host_id) {
                e@ == crate::error::ErrorView::NotApproved(peer_host_id)
            } else {
                !raft_ready && e@ == crate::error::ErrorView::Internal("raft not initialized"@)
            },
        },
{
    if !config.auto_join {
        if !approved.contains(&peer_host_id) {
            return Err(ClusterError::NotApproved(peer_host_id));
        }
    }
    if !raft_ready {
        return Err(ClusterError::Internal("raft not initialized".to_owned()));
    }
    proof {
        reveal_strlit("");
    }
    let addr = "".to_owned();
    assert(addr@ =~= Seq::<char>::empty());
    let info = NodeInfo {
        host_id: peer_host_id,
        addr,
        data_center: config.data_center.as_str().to_owned(),
        rack: config.rack.as_str().to_owned(),
        state: NodeState::Normal,
        cql_broadcast: None,
    };
    let mut ops: Vec<RaftOp> = Vec::new();
    ops.push(RaftOp::JoinNode(info));
    ops.push(
        RaftOp::AssignTokens {
            node_id: peer_node_id,
            tokens: deterministic_tokens_for_node(peer_node_id, config.num_tokens as usize),
        },
    );
    assert(crate::raft::op_views(ops@) =~= seq![
        crate::raft::OpView::JoinNode(
            requested_record(peer_host_id, config.data_center@, config.rack@),
        ),
        assignment_of(peer_node_id, config.num_tokens),
    ]);
    Ok(ops)
}

/// What the log calls a change.
pub open spec fn op_name(op: crate::raft::OpView) -> Seq<char> {
    match op {
        crate::raft::OpView::JoinNode(_) => "JoinNode proposal failed: "@,
        crate::raft::OpView::UpdateNodeInfo(_) => "UpdateNodeInfo proposal failed: "@,
        crate::raft::OpView::AssignTokens { .. } => "AssignTokens proposal failed: "@,
        crate::raft::OpView::SetNodeState { .. } => "SetNodeState failed: "@,
        crate::raft::OpView::LeaveNode { .. } => "LeaveNode proposal failed: "@,
    }
}

/// The error for a change that consensus refused.
pub fn proposal_error(op: &RaftOp, reason: &str) -> (e: ClusterError)
    ensures
        e@ == crate::error::ErrorView::RaftError(op_name(op@) + reason@),
{
    let mut m = match op {
        RaftOp::JoinNode(_) => "JoinNode proposal failed: ".to_owned(),
        RaftOp::UpdateNodeInfo(_) => "UpdateNodeInfo proposal failed: ".to_owned(),
        RaftOp::AssignTokens { .. } => "AssignTokens proposal failed: ".to_owned(),
        RaftOp::SetNodeState { .. } => "SetNodeState failed: ".to_owned(),
        RaftOp::LeaveNode { .. } => "LeaveNode proposal failed: ".to_owned(),
    };
    m.append(reason);
    ClusterError::RaftError(m)
}

/// Is a host in a list?
pub fn contains_host(list: &[u128], host_id: u128) -> (b: bool)
    ensures
        b == list@.contains(host_id),
{
    let mut i: usize = 0;
    while i < list.len()
        invariant
            i <= list.len(),
            forall|k: int| 0 <= k < i ==> list@[k] != host_id,
        decreases list.len() - i,
    {
        if list[i] == host_id {
            return true;
        }
        i = i + 1;
    }
    false
}

/// Hosts other than this one.
pub open spec fn other_host(host_id: u128) -> spec_fn(u128) -> bool {
    |x: u128| x != host_id
}

/// The pending joins without one host.
pub fn clear_pending_join(pending: &mut Vec<u128>, host_id: u128)
    ensures
        final(pending)@ == old(pending)@.filter(other_host(host_id)),
{
    let ghost all = pending@;
    let ghost p = other_host(host_id);
    let mut kept: Vec<u128> = Vec::new();
    let mut i: usize = 0;
    proof {
        reveal(Seq::filter);
        assert(kept@ =~= all.take(0).filter(p));
    }
    while i < pending.len()
        invariant
            i <= pending.len(),
            pending@ == all,
            p == other_host(host_id),
            kept@ == all.take(i as int).filter(p),
        decreases pending.len() - i,
    {
        proof {
            crate::collections::lemma_filter_step(all, i as int, p);
        }
        if pending[i] != host_id {
            kept.push(pending[i]);
        }
        i = i + 1;
    }
    assert(all.take(i as int) =~= all);
    *pending = kept;
}

/// The pending joins with one more; the oldest goes where the list is full.
pub open spec fn with_pending(pending: Seq<u128>, host_id: u128) -> Seq<u128> {
    if pending.len() >= MAX_PENDING_JOINS {
        pending.drop_first().push(host_id)
    } else {
        pending.push(host_id)
    }
}

/// What is known of a peer that connected to a cluster.
#[derive(Debug)]
pub struct JoinCandidate {
    pub host_id: u128,
    pub addr: PeerAddr,
    pub cql_broadcast: Option<String>,
    pub internode_broadcast: Option<String>,
    /// What the topology says of it, where it is a member.
    pub existing: Option<NodeInfo>,
    /// Can it be reached?
    pub has_outbound: bool,
}

impl JoinCandidate {
    /// The address to record.
    pub open spec fn recorded(self) -> Seq<char> {
        crate::controller::topology::recorded_addr(
            self.addr@,
            crate::raft::text_view(self.internode_broadcast),
        )
    }

    /// Is there nothing to do? A member with current records that can be
    /// reached is left alone.
    pub open spec fn is_current(self) -> bool {
        self.existing is Some && self.has_outbound && !metadata_changed(
            self.existing->0@,
            self.recorded(),
            crate::raft::text_view(self.cql_broadcast),
        )
    }

    /// The address to record.
    pub fn recorded_addr(&self) -> (t: String)
        ensures
            t@ == self.recorded(),
    {
        node_info_addr(&self.addr, borrowed_text(&self.internode_broadcast))
    }

    /// Is there nothing to do?
    pub fn needs_nothing(&self) -> (b: bool)
        ensures
            b == self.is_current(),
    {
        match &self.existing {
            Some(info) => {
                let addr = self.recorded_addr();
                self.has_outbound && !cluster_member_metadata_changed(
                    info,
                    addr.as_str(),
                    borrowed_text(&self.cql_broadcast),
                )
            },
            None => false,
        }
    }

    /// The change that brings a member up to date: its address and what it
    /// announces are new, the rest stays.
    pub open spec fn refresh_op(self) -> crate::raft::OpView
        recommends
            self.existing is Some,
    {
        let known = self.existing->0@;
        crate::raft::OpView::UpdateNodeInfo(
            crate::raft::NodeInfoView {
                host_id: self.host_id,
                addr: self.recorded(),
                data_center: known.data_center,
                rack: known.rack,
                state: known.state,
                cql_broadcast: match crate::raft::text_view(self.cql_broadcast) {
                    Some(b) => Some(b),
                    None => known.cql_broadcast,
                },
            },
        )
    }

    /// The change that adds a node.
    pub open spec fn join_op(self, data_center: Seq<char>, rack: Seq<char>) -> crate::raft::OpView {
        crate::raft::OpView::JoinNode(
            crate::raft::NodeInfoView {
                host_id: self.host_id,
                addr: self.recorded(),
                data_center,
                rack,
                state: NodeState::Normal,
                cql_broadcast: crate::raft::text_view(self.cql_broadcast),
            },
        )
    }

    /// The change that brings a member up to date.
    pub fn build_refresh_op(&self) -> (op: Option<RaftOp>)
        ensures
            match op {
                Some(op) => self.existing is Some && op@ == self.refresh_op(),
                None => self.existing is None,
            },
            op matches Some(op) ==> (op matches RaftOp::UpdateNodeInfo(info) && info.host_id
                == self.host_id && info.addr@ == self.recorded() && info.data_center@
                == self.existing->0.data_center@ && info.rack@ == self.existing->0.rack@
                && info.state == self.existing->0.state),
    {
        match &self.existing {
            Some(known) => {
                let cql_broadcast = match &self.cql_broadcast {
                    Some(b) => Some(b.as_str().to_owned()),
                    None => copied_text(borrowed_text(&known.cql_broadcast)),
                };
                Some(
                    RaftOp::UpdateNodeInfo(
                        NodeInfo {
                            host_id: self.host_id,
                            addr: self.recorded_addr(),
                            data_center: known.data_center.as_str().to_owned(),
                            rack: known.rack.as_str().to_owned(),
                            state: known.state,
                            cql_broadcast,
                        },
                    ),
                )
            },
            None => None,
        }
    }

    /// The change that adds the node.
    pub fn build_join_op(&self, config: &ClusterConfig) -> (op: RaftOp)
        ensures
            op@ == self.join_op(config.data_center@, config.rack@),
            op matches RaftOp::JoinNode(info) && info.host_id == self.host_id && info.addr@
                == self.recorded() && info.data_center@ == config.data_center@ && info.rack@
                == config.rack@ && info.state == NodeState::Normal,
    {
        RaftOp::JoinNode(
            NodeInfo {
                host_id: self.host_id,
                addr: self.recorded_addr(),
                data_center: config.data_center.as_str().to_owned(),
                rack: config.rack.as_str().to_owned(),
                state: NodeState::Normal,
                cql_broadcast: copied_text(borrowed_text(&self.cql_broadcast)),
            },
        )
    }

    /// The change that gives the node its tokens.
    pub fn build_assign_op(&self, config: &ClusterConfig, node_id: u64) -> (op: RaftOp)
        ensures
            op@ == assignment_of(node_id, config.num_tokens),
    {
        RaftOp::AssignTokens {
            node_id,
            tokens: deterministic_tokens_for_node(node_id, config.num_tokens as usize),
        }
    }
}

/// What becomes of a candidate.
#[derive(Clone, Copy, Debug, PartialEq, Eq, Structural)]
pub enum JoinDecision {
    /// There is nothing to do.
    AlreadyCurrent,
    /// It is not approved.
    NotApproved,
    /// Its join is under way.
    AlreadyPending,
    /// Its join begins.
    Begin,
}

/// What becomes of a candidate.
pub open spec fn join_decision(
    candidate: JoinCandidate,
    auto_join: bool,
    approved: Set<u128>,
    pending: Seq<u128>,
) -> JoinDecision {
    if candidate.is_current() {
        JoinDecision::AlreadyCurrent
    } else if !may_join(auto_join, approved, candidate.host_id) {
        JoinDecision::NotApproved
    } else if pending.contains(candidate.host_id) {
        JoinDecision::AlreadyPending
    } else {
        JoinDecision::Begin
    }
}

/// Decide on a candidate; a join that begins is tracked.
pub fn decide_join(
    candidate: &JoinCandidate,
    auto_join: bool,
    approved: &BTreeSet<u128>,
    pending: &mut Vec<u128>,
) -> (d: JoinDecision)
    ensures
        d == join_decision(*candidate, auto_join, approved@, old(pending)@),
        final(pending)@ == (if d == JoinDecision::Begin {
            with_pending(old(pending)@, candidate.host_id)
        } else {
            old(pending)@
        }),
{
    if candidate.needs_nothing() {
        return JoinDecision::AlreadyCurrent;
    }
    if !auto_join {
        if !approved.contains(&candidate.host_id) {
            return JoinDecision::NotApproved;
        }
    }
    if contains_host(pending.as_slice(), candidate.host_id) {
        return JoinDecision::AlreadyPending;
    }
    if pending.len() >= MAX_PENDING_JOINS {
        pending.remove(0);
        assert(pending@ =~= old(pending)@.drop_first());
    }
    pending.push(candidate.host_id);
    JoinDecision::Begin
}

/// The tracked joins stay few, and no host is tracked twice.
pub proof fn pending_joins_stay_bounded(pending: Seq<u128>, host_id: u128)
    requires
        pending.len() <= MAX_PENDING_JOINS,
        pending.no_duplicates(),
        !pending.contains(host_id),
    ensures
        with_pending(pending, host_id).len() <= MAX_PENDING_JOINS,
        with_pending(pending, host_id).no_duplicates(),
        with_pending(pending, host_id).contains(host_id),
{
    let w = with_pending(pending, host_id);
    assert(w.last() == host_id);
    assert forall|i: int, j: int| 0 <= i < w.len() && 0 <= j < w.len() && i != j implies w[i]
        != w[j] by {
        if pending.len() >= MAX_PENDING_JOINS {
            if i < w.len() - 1 {
                assert(w[i] == pending[i + 1]);
                assert(pending.contains(w[i]));
            }
            if j < w.len() - 1 {
                assert(w[j] == pending[j + 1]);
                assert(pending.contains(w[j]));
            }
        } else {
            if i < w.len() - 1 {
                assert(pending.contains(w[i]));
            }
            if j < w.len() - 1 {
                assert(pending.contains(w[j]));
            }
        }
    }
}

/// A join that ended can begin again: it is tracked no longer.
pub proof fn ended_join_can_begin_again(pending: Seq<u128>, host_id: u128)
    ensures
        !pending.filter(other_host(host_id)).contains(host_id),
    decreases pending.len(),
{
    reveal(Seq::filter);
    if pending.len() > 0 {
        ended_join_can_begin_again(pending.drop_last(), host_id);
        let f = pending.drop_last().filter(other_host(host_id));
        assert(forall|i: int| 0 <= i < f.len() ==> f[i] != host_id) by {
            assert forall|i: int| 0 <= i < f.len() implies f[i] != host_id by {
                assert(f.contains(f[i]));
            }
        }
    }
}

/// How far a join has come.
#[derive(Clone, Copy, Debug, PartialEq, Eq, Structural)]
pub enum JoinStage {
    /// Connecting to the node.
    Connecting,
    /// Looking for the consensus instance, counted from zero.
    AwaitingRaft { attempt: u32 },
    /// Looking for a leader, counted from zero.
    AwaitingLeader { attempt: u32 },
    /// Bringing a member up to date.
    Refreshing,
    /// Handing that change to the leader; the join is tracked no longer.
    Forwarding,
    /// Adding the node.
    Joining,
    /// Giving the node its tokens.
    Assigning,
    /// Over.
    Ended { admitted: bool },
}

/// What came of a proposal.
#[derive(Clone, Copy, Debug, PartialEq, Eq, Structural)]
pub enum ProposalResult {
    /// It was agreed on.
    Done,
    /// This node does not lead; the leader has to be asked.
    AskLeader { leader: u64 },
    /// It failed otherwise.
    Failed,
}

/// What came of it.
#[derive(Clone, Copy, Debug, PartialEq, Eq, Structural)]
pub enum JoinEvent {
    /// The attempt to connect.
    Connection { ok: bool },
    /// The look for what is awaited.
    Look { found: bool },
    /// The proposal, or its hand-over.
    Proposal { result: ProposalResult },
}

/// What to do next.
#[derive(Clone, Copy, Debug, PartialEq, Eq, Structural)]
pub enum JoinAction {
    /// Connect.
    Connect,
    /// Look for the consensus instance, after a pause.
    LookForRaft { after_ms: u64 },
    /// Look for a leader, after a pause.
    LookForLeader { after_ms: u64 },
    /// Propose to bring the member up to date.
    ProposeRefresh,
    /// Track the join no longer, and hand that proposal to the leader.
    ForwardRefresh { leader: u64 },
    /// Propose to add the node.
    ProposeJoin,
    /// Propose its tokens.
    ProposeTokens,
    /// Stop; from here on at the latest the join is tracked no longer.
    Stop,
}

/// Is a join at this stage tracked, so that another for the same node is refused?
/// It is until its last proposal on this node has come back.
pub open spec fn holds_place(stage: JoinStage) -> bool {
    !(stage is Ended || stage is Forwarding)
}

/// Does this event belong to the stage?
pub open spec fn expects(stage: JoinStage, event: JoinEvent) -> bool {
    match stage {
        JoinStage::Connecting => event is Connection,
        JoinStage::AwaitingRaft { attempt } => event is Look && attempt < JOIN_POLLS,
        JoinStage::AwaitingLeader { attempt } => event is Look && attempt < JOIN_POLLS,
        JoinStage::Ended { .. } => false,
        _ => event is Proposal,
    }
}

/// Where a join goes from a stage, and what is done there. `is_member` tells a
/// node whose records are brought up to date from one that is added.
pub open spec fn join_step(stage: JoinStage, event: JoinEvent, is_member: bool) -> (
    JoinStage,
    JoinAction,
) {
    let failed = (JoinStage::Ended { admitted: false }, JoinAction::Stop);
    let admitted = (JoinStage::Ended { admitted: true }, JoinAction::Stop);
    let ok = match event {
        JoinEvent::Connection { ok } => ok,
        JoinEvent::Look { found } => found,
        JoinEvent::Proposal { result } => result == ProposalResult::Done,
    };
    match stage {
        JoinStage::Connecting => if ok {
            (JoinStage::AwaitingRaft { attempt: 0 }, JoinAction::LookForRaft { after_ms: 0 })
        } else {
            failed
        },
        JoinStage::AwaitingRaft { attempt } => if ok {
            (JoinStage::AwaitingLeader { attempt: 0 }, JoinAction::LookForLeader { after_ms: 0 })
        } else if attempt + 1 < JOIN_POLLS {
            (
                JoinStage::AwaitingRaft { attempt: (attempt + 1) as u32 },
                JoinAction::LookForRaft { after_ms: crate::controller::retry::poll_pause(attempt) },
            )
        } else {
            failed
        },
        JoinStage::AwaitingLeader { attempt } => if ok {
            if is_member {
                (JoinStage::Refreshing, JoinAction::ProposeRefresh)
            } else {
                (JoinStage::Joining, JoinAction::ProposeJoin)
            }
        } else if attempt + 1 < JOIN_POLLS {
            (
                JoinStage::AwaitingLeader { attempt: (attempt + 1) as u32 },
                JoinAction::LookForLeader {
                    after_ms: crate::controller::retry::poll_pause(attempt),
                },
            )
        } else {
            failed
        },
        JoinStage::Refreshing => match event {
            JoinEvent::Proposal { result: ProposalResult::AskLeader { leader } } => (
                JoinStage::Forwarding,
                JoinAction::ForwardRefresh { leader },
            ),
            _ => if ok {
                admitted
            } else {
                failed
            },
        },
        JoinStage::Forwarding => if ok {
            admitted
        } else {
            failed
        },
        JoinStage::Joining => if ok {
            (JoinStage::Assigning, JoinAction::ProposeTokens)
        } else {
            failed
        },
        JoinStage::Assigning => if ok {
            admitted
        } else {
            failed
        },
        JoinStage::Ended { .. } => (stage, JoinAction::Stop),
    }
}

/// A join under way.
#[derive(Clone, Copy, Debug, PartialEq, Eq, Structural)]
pub struct JoinTask {
    pub stage: JoinStage,
    /// Is the node a member whose records are brought up to date?
    pub is_member: bool,
}

/// Must the node be connected to first? It must where the network is up and
/// the node is not connected at the desired address.
pub fn needs_reverse_refresh(
    has_network: bool,
    live: bool,
    current_addr: Option<&str>,
    desired_addr: &str,
) -> (b: bool)
    ensures
        b == (has_network && !(live && crate::raft::str_view(current_addr) == Some(desired_addr@))),
{
    let same: bool = match current_addr {
        Some(a) => str_equal(a, desired_addr),
        None => false,
    };
    has_network && !(live && same)
}

impl JoinTask {
    /// Begin.
    pub fn start(is_member: bool, connect_first: bool) -> (r: (JoinTask, JoinAction))
        ensures
            r.0.is_member == is_member,
            r.0.stage == (if connect_first {
                JoinStage::Connecting
            } else {
                JoinStage::AwaitingRaft { attempt: 0 }
            }),
            r.1 == (if connect_first {
                JoinAction::Connect
            } else {
                JoinAction::LookForRaft { after_ms: 0 }
            }),
    {
        if connect_first {
            (JoinTask { stage: JoinStage::Connecting, is_member }, JoinAction::Connect)
        } else {
            (
                JoinTask { stage: JoinStage::AwaitingRaft { attempt: 0 }, is_member },
                JoinAction::LookForRaft { after_ms: 0 },
            )
        }
    }

    /// Is the join tracked still?
    pub fn is_tracked(&self) -> (b: bool)
        ensures
            b == holds_place(self.stage),
    {
        match self.stage {
            JoinStage::Ended { .. } | JoinStage::Forwarding => false,
            _ => true,
        }
    }

    /// Record what came of the last action, and say what comes next.
    pub fn record(&mut self, event: JoinEvent) -> (action: JoinAction)
        requires
            expects(old(self).stage, event),
        ensures
            (final(self).stage, action) == join_step(old(self).stage, event, old(self).is_member),
            final(self).is_member == old(self).is_member,
    {
        let ok: bool = match event {
            JoinEvent::Connection { ok } => ok,
            JoinEvent::Look { found } => found,
            JoinEvent::Proposal { result } => result == ProposalResult::Done,
        };
        let (stage, action) = match self.stage {
            JoinStage::Connecting if ok => (
                JoinStage::AwaitingRaft { attempt: 0 },
                JoinAction::LookForRaft { after_ms: 0 },
            ),
            JoinStage::AwaitingRaft { .. } if ok => (
                JoinStage::AwaitingLeader { attempt: 0 },
                JoinAction::LookForLeader { after_ms: 0 },
            ),
            JoinStage::AwaitingRaft { attempt } if attempt + 1 < JOIN_POLLS => (
                JoinStage::AwaitingRaft { attempt: attempt + 1 },
                JoinAction::LookForRaft { after_ms: poll_backoff(attempt) },
            ),
            JoinStage::AwaitingLeader { .. } if ok && self.is_member => (
                JoinStage::Refreshing,
                JoinAction::ProposeRefresh,
            ),
            JoinStage::AwaitingLeader { .. } if ok => (JoinStage::Joining, JoinAction::ProposeJoin),
            JoinStage::AwaitingLeader { attempt } if attempt + 1 < JOIN_POLLS => (
                JoinStage::AwaitingLeader { attempt: attempt + 1 },
                JoinAction::LookForLeader { after_ms: poll_backoff(attempt) },
            ),
            JoinStage::Joining if ok => (JoinStage::Assigning, JoinAction::ProposeTokens),
            JoinStage::Refreshing => match event {
                JoinEvent::Proposal { result: ProposalResult::AskLeader { leader } } => (
                    JoinStage::Forwarding,
                    JoinAction::ForwardRefresh { leader },
                ),
                _ => (JoinStage::Ended { admitted: ok }, JoinAction::Stop),
            },
            JoinStage::Forwarding | JoinStage::Assigning => (
                JoinStage::Ended { admitted: ok },
                JoinAction::Stop,
            ),
            _ => (JoinStage::Ended { admitted: false }, JoinAction::Stop),
        };
        self.stage = stage;
        action
    }
}

/// An upper bound on the steps that a join still takes.
pub open spec fn steps_left(stage: JoinStage) -> nat {
    match stage {
        JoinStage::Connecting => 125,
        JoinStage::AwaitingRaft { attempt } => if attempt < JOIN_POLLS {
            (64 + JOIN_POLLS - attempt) as nat
        } else {
            64
        },
        JoinStage::AwaitingLeader { attempt } => if attempt < JOIN_POLLS {
            (3 + JOIN_POLLS - attempt) as nat
        } else {
            3
        },
        JoinStage::Refreshing => 2,
        JoinStage::Joining => 2,
        JoinStage::Forwarding => 1,
        JoinStage::Assigning => 1,
        JoinStage::Ended { .. } => 0,
    }
}

/// Every join ends, whatever comes of its actions, and has stopped being tracked by
/// then, once and for all: where a refresh is handed to the leader, before that. It
/// is handed on only where the answer asks for it, and to the leader that it names.
/// A node gets its tokens only after it was added, and nothing is proposed without a
/// leader.
pub proof fn joins_end(stage: JoinStage, event: JoinEvent, is_member: bool)
    requires
        expects(stage, event),
    ensures
        ({
            let (next, action) = join_step(stage, event, is_member);
            &&& steps_left(next) < steps_left(stage)
            &&& action == JoinAction::Stop <==> next is Ended
            &&& !holds_place(next) <==> action is Stop || action is ForwardRefresh
            &&& action matches JoinAction::ForwardRefresh { leader } ==> stage is Refreshing
                && event == (JoinEvent::Proposal { result: ProposalResult::AskLeader { leader } })
            &&& !holds_place(stage) ==> !holds_place(next)
            &&& action == JoinAction::ProposeTokens ==> stage == JoinStage::Joining && event == (
                JoinEvent::Proposal { result: ProposalResult::Done })
            &&& action == JoinAction::ProposeJoin || action == JoinAction::ProposeRefresh
                ==> stage is AwaitingLeader && event == (JoinEvent::Look { found: true })
        }),
{
}

/// A node that joins is recorded as configured: under its own host id, at its recorded
/// address, in the data center and the rack of the configuration, serving, with the address
/// for clients that it announced.
pub proof fn joining_nodes_are_recorded_as_configured(
    c: JoinCandidate,
    data_center: Seq<char>,
    rack: Seq<char>,
)
    ensures
        c.join_op(data_center, rack) matches crate::raft::OpView::JoinNode(info) && info.host_id
            == c.host_id && info.data_center == data_center && info.rack == rack && info.state
            == NodeState::Normal && info.addr == c.recorded() && (
        c.cql_broadcast matches Some(t) ==> info.cql_broadcast == Some(t@)) && (c.cql_broadcast is None
            ==> info.cql_broadcast is None),
{
}

/// The address that is recorded of a candidate is the name that it announced for nodes, or
/// else the host and the port that it connected from.
pub proof fn announced_names_are_recorded(c: JoinCandidate)
    ensures
        c.internode_broadcast matches Some(name) ==> c.recorded() == name@,
        c.internode_broadcast is None ==> c.recorded() == c.addr.host@ + ":"@
            + crate::text::decimal_text(c.addr.port as nat),
{
}

/// Bringing a member up to date changes its address and, where it announced one, its
/// address for clients; its data center, its rack and its state stay as they were known.
pub proof fn refreshed_members_keep_their_place(c: JoinCandidate)
    requires
        c.existing is Some,
    ensures
        ({
            let known = c.existing->0;
            &&& c.refresh_op() matches crate::raft::OpView::UpdateNodeInfo(info)
            &&& info.host_id == c.host_id
            &&& info.addr == c.recorded()
            &&& info.data_center == known.data_center@
            &&& info.rack == known.rack@
            &&& info.state == known.state
            &&& c.cql_broadcast matches Some(t) ==> info.cql_broadcast == Some(t@)
            &&& c.cql_broadcast is None ==> info.cql_broadcast == known@.cql_broadcast
        }),
{
}

/// A member is out of date exactly where its address is not the known one, or it announces
/// an address for clients that is not the known one; announcing none changes nothing.
pub proof fn changes_are_seen(
    current: crate::raft::NodeInfoView,
    addr: Seq<char>,
    cql: Seq<char>,
)
    ensures
        metadata_changed(current, addr, None) <==> current.addr != addr,
        metadata_changed(current, addr, Some(cql)) <==> current.addr != addr
            || current.cql_broadcast is None || current.cql_broadcast->0 != cql,
{
}

/// A node that asks to join is recorded under its host id in the given data center and
/// rack, serving and without an address, and gets as many tokens as are asked for, each the
/// one of its node id at its index.
pub proof fn requested_joins_are_recorded_as_configured(
    host_id: u128,
    data_center: Seq<char>,
    rack: Seq<char>,
    node_id: u64,
    num_tokens: u32,
)
    ensures
        ({
            let r = requested_record(host_id, data_center, rack);
            &&& r.host_id == host_id
            &&& r.data_center == data_center
            &&& r.rack == rack
            &&& r.addr.len() == 0
            &&& r.state == NodeState::Normal
            &&& r.cql_broadcast is None
        }),
        ({
            &&& assignment_of(node_id, num_tokens) matches crate::raft::OpView::AssignTokens {
                node_id: id,
                tokens,
            }
            &&& id == node_id
            &&& tokens.len() == num_tokens
            &&& forall|k: int|
                0 <= k < tokens.len() ==> #[trigger] tokens[k]
                    == crate::controller::token::token_of(node_id, k as u64)
        }),
{
}

/// A candidate is left alone where it is a member that can be reached and whose records are
/// current. Otherwise it is refused where joining is not automatic and it is not approved,
/// or where its join is under way; in every other case its join begins.
pub proof fn candidates_are_decided_in_order(
    c: JoinCandidate,
    auto_join: bool,
    approved: Set<u128>,
    pending: Seq<u128>,
)
    ensures
        ({
            let d = join_decision(c, auto_join, approved, pending);
            let current = c.existing is Some && c.has_outbound && c.existing->0.addr@
                == c.recorded() && (c.cql_broadcast is None || (c.existing->0.cql_broadcast is Some
                && c.existing->0.cql_broadcast->0@ == c.cql_broadcast->0@));
            let allowed = auto_join || approved.contains(c.host_id);
            &&& d == JoinDecision::AlreadyCurrent <==> current
            &&& d == JoinDecision::NotApproved <==> !current && !allowed
            &&& d == JoinDecision::AlreadyPending <==> !current && allowed && pending.contains(
                c.host_id,
            )
            &&& d == JoinDecision::Begin <==> !current && allowed && !pending.contains(c.host_id)
        }),
{
}

/// A host may join where joining is automatic or where it is approved, and not otherwise.
pub proof fn approval_admits_hosts(approved: Set<u128>, host_id: u128)
    ensures
        may_join(true, approved, host_id),
        may_join(false, approved.insert(host_id), host_id),
        !approved.contains(host_id) ==> !may_join(false, approved, host_id),
{
}

/// Tracking a join adds its host behind the others. Of a hundred that are tracked already
/// the oldest goes, and no other.
pub proof fn the_oldest_join_makes_room(pending: Seq<u128>, host_id: u128, i: int)
    ensures
        with_pending(pending, host_id).last() == host_id,
        pending.len() < 100 ==> with_pending(pending, host_id).drop_last() == pending,
        pending.len() >= 100 ==> with_pending(pending, host_id).len() == pending.len() && (1 <= i
            < pending.len() ==> with_pending(pending, host_id)[i - 1] == pending[i]),
{
    assert(pending.push(host_id).drop_last() =~= pending);
}

/// Ending a join takes its host off the list and leaves every other, in order.
pub proof fn ending_a_join_keeps_the_others(pending: Seq<u128>, host_id: u128, other: u128)
    ensures
        ({
            let after = pending.filter(other_host(host_id));
            &&& after.contains(other) <==> other != host_id && pending.contains(other)
            &&& !pending.contains(host_id) ==> after == pending
            &&& pending.no_duplicates() ==> after.no_duplicates()
        }),
{
    let p = other_host(host_id);
    let after = pending.filter(p);
    if after.contains(other) {
        let k = choose|k: int| 0 <= k < after.len() && after[k] == other;
        pending.lemma_filter_pred(p, k);
        crate::collections::lemma_filter_from(pending, p, k);
    }
    if other != host_id && pending.contains(other) {
        let i = choose|i: int| 0 <= i < pending.len() && pending[i] == other;
        pending.lemma_filter_contains(p, i);
    }
    if !pending.contains(host_id) {
        assert forall|i: int| 0 <= i < pending.len() implies p(#[trigger] pending[i]) by {
            assert(pending.contains(pending[i]));
        }
        crate::collections::lemma_filter_passes(pending, p);
    }
    if pending.no_duplicates() {
        crate::collections::lemma_filter_distinct(pending, p);
    }
}

/// The change that was refused is named in the error, each by its own name.
pub proof fn refused_changes_are_named(
    n: crate::raft::NodeInfoView,
    node_id: u64,
    tokens: Seq<i64>,
    state: NodeState,
)
    ensures
        op_name(crate::raft::OpView::JoinNode(n)) == "JoinNode proposal failed: "@,
        op_name(crate::raft::OpView::UpdateNodeInfo(n)) == "UpdateNodeInfo proposal failed: "@,
        op_name(crate::raft::OpView::AssignTokens { node_id, tokens })
            == "AssignTokens proposal failed: "@,
        op_name(crate::raft::OpView::SetNodeState { node_id, state }) == "SetNodeState failed: "@,
        op_name(crate::raft::OpView::LeaveNode { node_id }) == "LeaveNode proposal failed: "@,
{
}

/// A join whose every step succeeds connects, finds consensus and then a leader, and is
/// admitted once its changes are agreed on: a member's record in one, a new node's record
/// and its tokens in two. A step that fails ends it without admission, but for a look,
/// which is repeated up to sixty times.
pub proof fn joins_go_step_by_step(attempt: u32, is_member: bool)
    requires
        attempt < 60,
    ensures
        ({
            let yes = JoinEvent::Look { found: true };
            let no = JoinEvent::Look { found: false };
            let done = JoinEvent::Proposal { result: ProposalResult::Done };
            let lost = JoinEvent::Proposal { result: ProposalResult::Failed };
            let end = (JoinStage::Ended { admitted: false }, JoinAction::Stop);
            let admitted = (JoinStage::Ended { admitted: true }, JoinAction::Stop);
            let raft = JoinStage::AwaitingRaft { attempt };
            let leader = JoinStage::AwaitingLeader { attempt };
            &&& join_step(JoinStage::Connecting, JoinEvent::Connection { ok: true }, is_member) == (
                JoinStage::AwaitingRaft { attempt: 0 },
                JoinAction::LookForRaft { after_ms: 0 },
            )
            &&& join_step(JoinStage::Connecting, JoinEvent::Connection { ok: false }, is_member)
                == end
            &&& join_step(raft, yes, is_member) == (
                JoinStage::AwaitingLeader { attempt: 0 },
                JoinAction::LookForLeader { after_ms: 0 },
            )
            &&& join_step(raft, no, is_member).0 == if attempt < 59 {
                JoinStage::AwaitingRaft { attempt: (attempt + 1) as u32 }
            } else {
                JoinStage::Ended { admitted: false }
            }
            &&& attempt < 59 ==> join_step(raft, no, is_member).1 is LookForRaft
            &&& join_step(leader, yes, true) == (JoinStage::Refreshing, JoinAction::ProposeRefresh)
            &&& join_step(leader, yes, false) == (JoinStage::Joining, JoinAction::ProposeJoin)
            &&& join_step(leader, no, is_member).0 == if attempt < 59 {
                JoinStage::AwaitingLeader { attempt: (attempt + 1) as u32 }
            } else {
                JoinStage::Ended { admitted: false }
            }
            &&& attempt < 59 ==> join_step(leader, no, is_member).1 is LookForLeader
            &&& join_step(JoinStage::Refreshing, done, is_member) == admitted
            &&& join_step(JoinStage::Refreshing, lost, is_member) == end
            &&& join_step(JoinStage::Forwarding, done, is_member) == admitted
            &&& join_step(JoinStage::Forwarding, lost, is_member) == end
            &&& join_step(JoinStage::Joining, done, is_member) == (
                JoinStage::Assigning,
                JoinAction::ProposeTokens,
            )
            &&& join_step(JoinStage::Joining, lost, is_member) == end
            &&& join_step(JoinStage::Assigning, done, is_member) == admitted
            &&& join_step(JoinStage::Assigning, lost, is_member) == end
        }),
{
}

} // verus!
