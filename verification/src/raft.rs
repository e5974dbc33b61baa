//! Topology records and the commands that change them through consensus.

use vstd::prelude::*;

verus! {

/// Whether a node serves its ranges.
#[derive(Clone, Copy, Debug, PartialEq, Eq, Structural)]
pub enum NodeState {
    /// Not serving.
    Joining,
    /// Serving.
    Normal,
}

/// What the cluster knows of a node.
#[derive(Debug, PartialEq, Eq)]
pub struct NodeInfo {
    pub host_id: u128,
    pub addr: String,
    pub data_center: String,
    pub rack: String,
    pub state: NodeState,
    pub cql_broadcast: Option<String>,
}

/// Model of [`NodeInfo`].
pub struct NodeInfoView {
    pub host_id: u128,
    pub addr: Seq<char>,
    pub data_center: Seq<char>,
    pub rack: Seq<char>,
    pub state: NodeState,
    pub cql_broadcast: Option<Seq<char>>,
}

/// View of an optional text.
pub open spec fn text_view(t: Option<String>) -> Option<Seq<char>> {
    match t {
        Some(s) => Some(s@),
        None => None,
    }
}

/// View of an optional borrowed text.
pub open spec fn str_view(t: Option<&str>) -> Option<Seq<char>> {
    match t {
        Some(s) => Some(s@),
        None => None,
    }
}

/// A copy of an optional text.
pub fn copied_text(t: Option<&str>) -> (r: Option<String>)
    ensures
        text_view(r) == str_view(t),
{
    match t {
        Some(s) => Some(s.to_owned()),
        None => None,
    }
}

/// An optional text, borrowed.
pub fn borrowed_text(t: &Option<String>) -> (r: Option<&str>)
    ensures
        str_view(r) == text_view(*t),
{
    match t {
        Some(s) => Some(s.as_str()),
        None => None,
    }
}

impl View for NodeInfo {
    type V = NodeInfoView;

    open spec fn view(&self) -> NodeInfoView {
        NodeInfoView {
            host_id: self.host_id,
            addr: self.addr@,
            data_center: self.data_center@,
            rack: self.rack@,
            state: self.state,
            cql_broadcast: text_view(self.cql_broadcast),
        }
    }
}

impl NodeInfo {
    /// A copy.
    pub fn copied(&self) -> (n: NodeInfo)
        ensures
            n@ == self@,
    {
        NodeInfo {
            host_id: self.host_id,
            addr: self.addr.as_str().to_owned(),
            data_center: self.data_center.as_str().to_owned(),
            rack: self.rack.as_str().to_owned(),
            state: self.state,
            cql_broadcast: copied_text(borrowed_text(&self.cql_broadcast)),
        }
    }
}

/// Models of a list of records.
pub open spec fn info_views(nodes: Seq<NodeInfo>) -> Seq<NodeInfoView> {
    Seq::new(nodes.len(), |i: int| nodes[i]@)
}

/// A change of the topology.
#[derive(Debug, PartialEq, Eq)]
pub enum RaftOp {
    /// Add a node.
    JoinNode(NodeInfo),
    /// Replace what is known of a node.
    UpdateNodeInfo(NodeInfo),
    /// Give a node its tokens.
    AssignTokens { node_id: u64, tokens: Vec<i64> },
    /// Set whether a node serves.
    SetNodeState { node_id: u64, state: NodeState },
    /// Remove a node and its tokens.
    LeaveNode { node_id: u64 },
}

/// Model of [`RaftOp`].
pub enum OpView {
    JoinNode(NodeInfoView),
    UpdateNodeInfo(NodeInfoView),
    AssignTokens { node_id: u64, tokens: Seq<i64> },
    SetNodeState { node_id: u64, state: NodeState },
    LeaveNode { node_id: u64 },
}

impl View for RaftOp {
    type V = OpView;

    open spec fn view(&self) -> OpView {
        match self {
            RaftOp::JoinNode(n) => OpView::JoinNode(n@),
            RaftOp::UpdateNodeInfo(n) => OpView::UpdateNodeInfo(n@),
            RaftOp::AssignTokens { node_id, tokens } => OpView::AssignTokens {
                node_id: *node_id,
                tokens: tokens@,
            },
            RaftOp::SetNodeState { node_id, state } => OpView::SetNodeState {
                node_id: *node_id,
                state: *state,
            },
            RaftOp::LeaveNode { node_id } => OpView::LeaveNode { node_id: *node_id },
        }
    }
}

/// Models of a list of changes.
pub open spec fn op_views(ops: Seq<RaftOp>) -> Seq<OpView> {
    Seq::new(ops.len(), |i: int| ops[i]@)
}

/// Pushing onto a list pushes onto its model.
pub proof fn lemma_op_views_push(ops: Seq<RaftOp>, op: RaftOp)
    ensures
        op_views(ops.push(op)) == op_views(ops).push(op@),
{
    assert(op_views(ops.push(op)) =~= op_views(ops).push(op@));
}

/// The consensus node id of a host: the number that the first eight bytes of its
/// host id form.
pub fn node_id(host_id: u128) -> (n: u64)
    ensures
        n == host_id / 0x1_0000_0000_0000_0000,
{
    (host_id / 0x1_0000_0000_0000_0000) as u64
}

/// The model of a record has each field of the record in its own place, and the model of a
/// change is the same change to the same node.
pub proof fn models_say_what_is_recorded(n: NodeInfo, op: RaftOp)
    ensures
        n@.host_id == n.host_id,
        n@.addr == n.addr@,
        n@.data_center == n.data_center@,
        n@.rack == n.rack@,
        n@.state == n.state,
        n.cql_broadcast matches Some(t) ==> n@.cql_broadcast == Some(t@),
        n.cql_broadcast is None ==> n@.cql_broadcast is None,
        op matches RaftOp::JoinNode(x) ==> op@ == OpView::JoinNode(x@),
        op matches RaftOp::UpdateNodeInfo(x) ==> op@ == OpView::UpdateNodeInfo(x@),
        op matches RaftOp::AssignTokens { node_id, tokens } ==> op@ == (OpView::AssignTokens {
            node_id,
            tokens: tokens@,
        }),
        op matches RaftOp::SetNodeState { node_id, state } ==> op@ == (OpView::SetNodeState {
            node_id,
            state,
        }),
        op matches RaftOp::LeaveNode { node_id } ==> op@ == (OpView::LeaveNode { node_id }),
{
}

/// Lists of records and of changes are modelled item by item.
pub proof fn lists_are_modelled_item_by_item(nodes: Seq<NodeInfo>, ops: Seq<RaftOp>, i: int)
    ensures
        info_views(nodes).len() == nodes.len(),
        op_views(ops).len() == ops.len(),
        0 <= i < nodes.len() ==> info_views(nodes)[i] == nodes[i]@,
        0 <= i < ops.len() ==> op_views(ops)[i] == ops[i]@,
{
}

/// An optional text is modelled by what it says.
pub proof fn optional_texts_are_modelled(t: Option<String>, s: Option<&str>)
    ensures
        t matches Some(x) ==> text_view(t) == Some(x@),
        t is None ==> text_view(t) is None,
        s matches Some(x) ==> str_view(s) == Some(x@),
        s is None ==> str_view(s) is None,
{
}

} // verus!
