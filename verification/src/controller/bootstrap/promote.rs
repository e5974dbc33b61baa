//! Marking every node as serving.
//!
//! The data has been sent before; afterwards every member serves.

use std::collections::BTreeMap;

use vstd::prelude::*;

use super::phase::{BootstrapError, BootstrapPhase};
use super::util::counted_text;
use crate::ordered::map_keys_u64;
use crate::raft::NodeState;
use crate::text::append_decimal;

verus! {

broadcast use vstd::std_specs::btree::group_btree_axioms;

/// The members and their states.
#[derive(Debug)]
pub struct PromoteState {
    pub member_states: BTreeMap<u64, NodeState>,
}

impl Default for PromoteState {
    /// No members.
    fn default() -> (s: Self)
        ensures
            s.member_states@ == Map::<u64, NodeState>::empty(),
    {
        PromoteState { member_states: BTreeMap::new() }
    }
}

/// The name of a state.
pub open spec fn state_text(s: NodeState) -> Seq<char> {
    match s {
        NodeState::Joining => "Joining"@,
        NodeState::Normal => "Normal"@,
    }
}

fn state_name(s: NodeState) -> (t: &'static str)
    ensures
        t@ == state_text(s),
{
    match s {
        NodeState::Joining => "Joining",
        NodeState::Normal => "Normal",
    }
}

/// Members that do not serve.
pub open spec fn not_serving(m: Map<u64, NodeState>) -> spec_fn(u64) -> bool {
    |node: u64| m[node] != NodeState::Normal
}

/// A member and its state as text.
pub open spec fn member_text(m: Map<u64, NodeState>, node: u64) -> Seq<char> {
    "("@ + crate::text::decimal_text(node as nat) + ", "@ + state_text(m[node]) + ")"@
}

/// Members and their states as text.
pub open spec fn member_texts(m: Map<u64, NodeState>, nodes: Seq<u64>) -> Seq<Seq<char>> {
    Seq::new(nodes.len(), |i: int| member_text(m, nodes[i]))
}

/// Does every member serve?
pub open spec fn all_serving(m: Map<u64, NodeState>) -> bool {
    forall|node: u64| #[trigger] m.contains_key(node) ==> m[node] == NodeState::Normal
}

/// The data must have been sent.
pub fn precondition(stream_completed: bool) -> (r: Result<(), BootstrapError>)
    ensures
        match r {
            Ok(()) => stream_completed,
            Err(e) => !stream_completed && e.says(
                BootstrapPhase::Promote,
                "BootstrapStream post-condition not satisfied"@,
            ),
        },
{
    if stream_completed {
        Ok(())
    } else {
        Err(
            BootstrapError::phase(
                BootstrapPhase::Promote,
                "BootstrapStream post-condition not satisfied",
            ),
        )
    }
}

/// There must be members, and all must serve.
pub fn postcondition(state: &PromoteState) -> (r: Result<(), BootstrapError>)
    ensures
        match r {
            Ok(()) => state.member_states@.len() > 0 && all_serving(state.member_states@),
            Err(e) => if state.member_states@.len() == 0 {
                e.says(BootstrapPhase::Promote, "member map is empty"@)
            } else {
                &&& !all_serving(state.member_states@)
                &&& e.says(
                    BootstrapPhase::Promote,
                    super::util::counted_list(
                        " member(s) not Normal: "@,
                        member_texts(
                            state.member_states@,
                            crate::ordered::ascending_u64(state.member_states@.dom()).filter(
                                not_serving(state.member_states@),
                            ),
                        ),
                    ),
                )
            },
        },
{
    if state.member_states.len() == 0 {
        return Err(BootstrapError::phase(BootstrapPhase::Promote, "member map is empty"));
    }
    let nodes = map_keys_u64(&state.member_states);
    let ghost m = state.member_states@;
    let ghost p = not_serving(m);
    let mut not_normal: Vec<String> = Vec::new();
    let mut i: usize = 0;
    proof {
        reveal(Seq::filter);
        assert(crate::text::text_views(not_normal@) =~= member_texts(m, nodes@.take(0).filter(p)));
    }
    while i < nodes.len()
        invariant
            i <= nodes.len(),
            m == state.member_states@,
            p == not_serving(m),
            nodes@.to_set() == m.dom(),
            crate::text::text_views(not_normal@) == member_texts(
                m,
                nodes@.take(i as int).filter(p),
            ),
            not_normal@.len() == 0 ==> forall|k: int|
                0 <= k < i ==> m[#[trigger] nodes@[k]] == NodeState::Normal,
            not_normal@.len() > 0 ==> !all_serving(m),
        decreases nodes.len() - i,
    {
        proof {
            crate::collections::lemma_filter_step(nodes@, i as int, p);
            assert(nodes@.contains(nodes@[i as int]));
            assert(m.dom().contains(nodes@[i as int]));
        }
        let node: u64 = nodes[i];
        let st: NodeState = *state.member_states.get(&node).unwrap();
        if !matches!(st, NodeState::Normal) {
            let mut t = "(".to_owned();
            append_decimal(&mut t, node);
            t.append(", ");
            t.append(state_name(st));
            t.append(")");
            let ghost before = not_normal@;
            not_normal.push(t);
            proof {
                assert(crate::text::text_views(not_normal@) =~= crate::text::text_views(
                    before,
                ).push(member_text(m, node)));
                let f = nodes@.take(i as int).filter(p);
                assert(member_texts(m, f.push(node)) =~= member_texts(m, f).push(
                    member_text(m, node),
                ));
                assert(m.contains_key(node));
            }
        }
        i = i + 1;
    }
    assert(nodes@.take(i as int) =~= nodes@);
    if not_normal.len() == 0 {
        proof {
            assert forall|node: u64| #[trigger] m.contains_key(node) implies m[node]
                == NodeState::Normal by {
                assert(nodes@.to_set().contains(node));
                let k = choose|k: int| 0 <= k < nodes@.len() && nodes@[k] == node;
                assert(m[nodes@[k]] == NodeState::Normal);
            }
        }
        Ok(())
    } else {
        Err(
            BootstrapError::from_source(
                BootstrapPhase::Promote,
                counted_text(" member(s) not Normal: ", not_normal.as_slice()),
            ),
        )
    }
}

/// Every member serves where none is in another state than serving.
pub proof fn serving_members_are_normal(m: Map<u64, NodeState>, node: u64)
    ensures
        all_serving(m) <==> forall|x: u64| #[trigger]
            m.contains_key(x) ==> m[x] == NodeState::Normal,
        m.contains_key(node) && m[node] == NodeState::Joining ==> !all_serving(m) && not_serving(
            m,
        )(node),
        m.contains_key(node) && m[node] == NodeState::Normal ==> !not_serving(m)(node),
        state_text(NodeState::Joining) == "Joining"@,
        state_text(NodeState::Normal) == "Normal"@,
        member_text(m, node) == "("@ + crate::text::decimal_text(node as nat) + ", "@ + state_text(
            m[node],
        ) + ")"@,
{
}

/// Members are listed in order, each with its state.
pub proof fn members_are_listed_with_their_state(m: Map<u64, NodeState>, nodes: Seq<u64>, i: int)
    requires
        0 <= i < nodes.len(),
    ensures
        member_texts(m, nodes).len() == nodes.len(),
        member_texts(m, nodes)[i] == member_text(m, nodes[i]),
{
}

} // verus!
