//! Bringing every node to the leader's schema version.
//!
//! The leader is known before; afterwards every node reports its version.

use std::collections::BTreeMap;

use vstd::prelude::*;

use super::phase::{BootstrapError, BootstrapPhase};
use super::util::counted_text;
use crate::ordered::map_keys_u64;
use crate::text::{append_decimal, append_host};

verus! {

broadcast use vstd::std_specs::btree::group_btree_axioms;

/// The schema versions that nodes report.
#[derive(Debug)]
pub struct ReplaySchemaState {
    pub leader_node_id: u64,
    /// Version of each node, the leader's with them.
    pub node_schema_versions: BTreeMap<u64, u128>,
}

/// Nodes whose version is another.
pub open spec fn diverges(m: Map<u64, u128>, version: u128) -> spec_fn(u64) -> bool {
    |node: u64| m[node] != version
}

/// A node and its version as text.
pub open spec fn version_text(m: Map<u64, u128>, node: u64) -> Seq<char> {
    "("@ + crate::text::decimal_text(node as nat) + ", "@ + crate::text::host_text(m[node]) + ")"@
}

/// Nodes and their versions as text.
pub open spec fn version_texts(m: Map<u64, u128>, nodes: Seq<u64>) -> Seq<Seq<char>> {
    Seq::new(nodes.len(), |i: int| version_text(m, nodes[i]))
}

/// Does every node report this version?
pub open spec fn all_at(m: Map<u64, u128>, version: u128) -> bool {
    forall|node: u64| #[trigger] m.contains_key(node) ==> m[node] == version
}

/// The leader must report a version.
pub fn precondition(state: &ReplaySchemaState) -> (r: Result<(), BootstrapError>)
    ensures
        match r {
            Ok(()) => state.node_schema_versions@.contains_key(state.leader_node_id),
            Err(e) => !state.node_schema_versions@.contains_key(state.leader_node_id) && e.says(
                BootstrapPhase::ReplaySchema,
                "leader node_id "@ + crate::text::decimal_text(state.leader_node_id as nat)
                    + " missing from schema-version map"@,
            ),
        },
{
    if !state.node_schema_versions.contains_key(&state.leader_node_id) {
        let mut m = "leader node_id ".to_owned();
        append_decimal(&mut m, state.leader_node_id);
        m.append(" missing from schema-version map");
        return Err(BootstrapError::from_source(BootstrapPhase::ReplaySchema, m));
    }
    Ok(())
}

/// Every node must report the leader's version.
pub fn postcondition(state: &ReplaySchemaState) -> (r: Result<(), BootstrapError>)
    ensures
        ({
            let m = state.node_schema_versions@;
            let leader = state.leader_node_id;
            match r {
                Ok(()) => m.contains_key(leader) && all_at(m, m[leader]),
                Err(e) => if !m.contains_key(leader) {
                    e.says(
                        BootstrapPhase::ReplaySchema,
                        "leader version vanished between pre and post"@,
                    )
                } else {
                    &&& !all_at(m, m[leader])
                    &&& e.says(
                        BootstrapPhase::ReplaySchema,
                        super::util::counted_list(
                            " node(s) diverged from leader: "@,
                            version_texts(
                                m,
                                crate::ordered::ascending_u64(m.dom()).filter(
                                    diverges(m, m[leader]),
                                ),
                            ),
                        ),
                    )
                },
            }
        }),
{
    let leader_version: u128 = match state.node_schema_versions.get(&state.leader_node_id) {
        Some(v) => *v,
        None => {
            return Err(
                BootstrapError::phase(
                    BootstrapPhase::ReplaySchema,
                    "leader version vanished between pre and post",
                ),
            );
        },
    };
    let nodes = map_keys_u64(&state.node_schema_versions);
    let ghost m = state.node_schema_versions@;
    let ghost p = diverges(m, leader_version);
    let mut divergent: Vec<String> = Vec::new();
    let mut i: usize = 0;
    proof {
        reveal(Seq::filter);
        assert(crate::text::text_views(divergent@) =~= version_texts(m, nodes@.take(0).filter(p)));
    }
    while i < nodes.len()
        invariant
            i <= nodes.len(),
            m == state.node_schema_versions@,
            p == diverges(m, leader_version),
            nodes@.to_set() == m.dom(),
            crate::text::text_views(divergent@) == version_texts(
                m,
                nodes@.take(i as int).filter(p),
            ),
            divergent@.len() == 0 ==> forall|k: int|
                0 <= k < i ==> m[#[trigger] nodes@[k]] == leader_version,
            divergent@.len() > 0 ==> !all_at(m, leader_version),
        decreases nodes.len() - i,
    {
        proof {
            crate::collections::lemma_filter_step(nodes@, i as int, p);
            assert(nodes@.contains(nodes@[i as int]));
            assert(m.dom().contains(nodes@[i as int]));
        }
        let node: u64 = nodes[i];
        let ver: u128 = *state.node_schema_versions.get(&node).unwrap();
        if ver != leader_version {
            let mut t = "(".to_owned();
            append_decimal(&mut t, node);
            t.append(", ");
            append_host(&mut t, ver);
            t.append(")");
            let ghost before = divergent@;
            divergent.push(t);
            proof {
                assert(crate::text::text_views(divergent@) =~= crate::text::text_views(
                    before,
                ).push(version_text(m, node)));
                let f = nodes@.take(i as int).filter(p);
                assert(version_texts(m, f.push(node)) =~= version_texts(m, f).push(
                    version_text(m, node),
                ));
                assert(m.contains_key(node));
            }
        }
        i = i + 1;
    }
    assert(nodes@.take(i as int) =~= nodes@);
    if divergent.len() == 0 {
        proof {
            assert forall|node: u64| #[trigger] m.contains_key(node) implies m[node]
                == leader_version by {
                assert(nodes@.to_set().contains(node));
                let k = choose|k: int| 0 <= k < nodes@.len() && nodes@[k] == node;
                assert(m[nodes@[k]] == leader_version);
            }
        }
        Ok(())
    } else {
        Err(
            BootstrapError::from_source(
                BootstrapPhase::ReplaySchema,
                counted_text(" node(s) diverged from leader: ", divergent.as_slice()),
            ),
        )
    }
}

/// The schema is replayed where every node reports the leader's version.
pub proof fn diverging_versions_are_seen(m: Map<u64, u128>, version: u128, node: u64)
    ensures
        all_at(m, version) <==> forall|x: u64| #[trigger] m.contains_key(x) ==> m[x] == version,
        m.contains_key(node) && m[node] != version ==> !all_at(m, version),
        diverges(m, version)(node) <==> m[node] != version,
        version_text(m, node) == "("@ + crate::text::decimal_text(node as nat) + ", "@
            + crate::text::host_text(m[node]) + ")"@,
{
}

/// Nodes are listed in order, each with its version.
pub proof fn nodes_are_listed_with_their_version(m: Map<u64, u128>, nodes: Seq<u64>, i: int)
    requires
        0 <= i < nodes.len(),
    ensures
        version_texts(m, nodes).len() == nodes.len(),
        version_texts(m, nodes)[i] == version_text(m, nodes[i]),
{
}

} // verus!
