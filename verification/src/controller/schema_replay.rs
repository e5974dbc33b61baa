//! Bringing the local schema to a cluster that has just formed.

use vstd::prelude::*;

use crate::controller::cluster::keyspace_needs_cluster_replay;

verus! {

/// A table by name.
#[derive(Debug, PartialEq, Eq)]
pub struct TableName {
    pub keyspace: String,
    pub table: String,
}

/// Keyspace names of tables.
pub open spec fn table_keyspaces(tables: Seq<TableName>) -> Seq<Seq<char>> {
    Seq::new(tables.len(), |i: int| tables[i].keyspace@)
}

/// Positions of the names that are not built in.
pub open spec fn user_positions(names: Seq<Seq<char>>, system: Seq<String>) -> Seq<usize>
    decreases names.len(),
{
    if names.len() == 0 {
        Seq::empty()
    } else {
        let head = user_positions(names.drop_last(), system);
        if crate::controller::cluster::names(system, names.last()) {
            head
        } else {
            head.push((names.len() - 1) as usize)
        }
    }
}

/// What to do with the local schema. Keyspaces and tables are given by their
/// positions.
#[derive(Debug, PartialEq, Eq)]
pub enum SchemaReplay {
    /// There is none to bring.
    Nothing,
    /// Propose it: keyspaces, then tables.
    Propose { keyspaces: Vec<usize>, tables: Vec<usize> },
    /// Send it to the leader: keyspaces, then tables.
    Forward { leader: u128, keyspaces: Vec<usize>, tables: Vec<usize> },
    /// The leader cannot be reached.
    LeaderUnknown,
}

fn user_keyspaces(keyspaces: &[String], system: &[String]) -> (v: Vec<usize>)
    ensures
        v@ == user_positions(crate::text::text_views(keyspaces@), system@),
{
    let ghost all = crate::text::text_views(keyspaces@);
    let mut v: Vec<usize> = Vec::new();
    let mut i: usize = 0;
    while i < keyspaces.len()
        invariant
            i <= keyspaces.len(),
            all == crate::text::text_views(keyspaces@),
            v@ == user_positions(all.take(i as int), system@),
        decreases keyspaces.len() - i,
    {
        proof {
            assert(all.take(i + 1).drop_last() =~= all.take(i as int));
            assert(all.take(i + 1).last() == keyspaces@[i as int]@);
        }
        if keyspace_needs_cluster_replay(keyspaces[i].as_str(), system) {
            v.push(i);
        }
        i = i + 1;
    }
    assert(all.take(i as int) =~= all);
    v
}

fn user_tables(tables: &[TableName], system: &[String]) -> (v: Vec<usize>)
    ensures
        v@ == user_positions(table_keyspaces(tables@), system@),
{
    let ghost all = table_keyspaces(tables@);
    let mut v: Vec<usize> = Vec::new();
    let mut i: usize = 0;
    while i < tables.len()
        invariant
            i <= tables.len(),
            all == table_keyspaces(tables@),
            v@ == user_positions(all.take(i as int), system@),
        decreases tables.len() - i,
    {
        proof {
            assert(all.take(i + 1).drop_last() =~= all.take(i as int));
            assert(all.take(i + 1).last() == tables@[i as int].keyspace@);
        }
        if keyspace_needs_cluster_replay(tables[i].keyspace.as_str(), system) {
            v.push(i);
        }
        i = i + 1;
    }
    assert(all.take(i as int) =~= all);
    v
}

/// Decide what to do with the local schema: the leader proposes it, the others
/// send it to the leader. What is built in is left out.
pub fn plan_schema_replay(
    keyspaces: &[String],
    tables: &[TableName],
    system_keyspaces: &[String],
    is_leader: bool,
    leader_host: Option<u128>,
) -> (plan: SchemaReplay)
    ensures
        ({
            let ks = user_positions(crate::text::text_views(keyspaces@), system_keyspaces@);
            let ts = user_positions(table_keyspaces(tables@), system_keyspaces@);
            match plan {
                SchemaReplay::Nothing => ks.len() == 0 && ts.len() == 0,
                SchemaReplay::Propose { keyspaces: k, tables: t } => {
                    (ks.len() > 0 || ts.len() > 0) && is_leader && k@ == ks && t@ == ts
                },
                SchemaReplay::Forward { leader, keyspaces: k, tables: t } => {
                    (ks.len() > 0 || ts.len() > 0) && !is_leader && leader_host == Some(leader)
                        && k@ == ks && t@ == ts
                },
                SchemaReplay::LeaderUnknown => {
                    (ks.len() > 0 || ts.len() > 0) && !is_leader && leader_host is None
                },
            }
        }),
{
    let ks = user_keyspaces(keyspaces, system_keyspaces);
    let ts = user_tables(tables, system_keyspaces);
    if ks.len() == 0 && ts.len() == 0 {
        return SchemaReplay::Nothing;
    }
    if is_leader {
        return SchemaReplay::Propose { keyspaces: ks, tables: ts };
    }
    match leader_host {
        Some(leader) => SchemaReplay::Forward { leader, keyspaces: ks, tables: ts },
        None => SchemaReplay::LeaderUnknown,
    }
}

/// Every keyspace that is not built in is brought, and no other.
pub proof fn user_keyspaces_are_replayed(names: Seq<Seq<char>>, system: Seq<String>, i: int)
    requires
        0 <= i < names.len() <= usize::MAX,
    ensures
        user_positions(names, system).contains(i as usize)
            <==> !crate::controller::cluster::names(system, names[i]),
    decreases names.len(),
{
    let head = names.drop_last();
    let p = user_positions(head, system);
    let q = user_positions(names, system);
    lemma_user_positions_below(head, system);
    if i < head.len() {
        user_keyspaces_are_replayed(head, system, i);
        if p.contains(i as usize) {
            let k = choose|k: int| 0 <= k < p.len() && p[k] == i as usize;
            assert(q[k] == i as usize);
        }
        if q.contains(i as usize) && !p.contains(i as usize) {
            let k = choose|k: int| 0 <= k < q.len() && q[k] == i as usize;
            assert(k == p.len());
        }
    } else if !crate::controller::cluster::names(system, names[i]) {
        assert(q.last() == i as usize);
    } else if q.contains(i as usize) {
        let k = choose|k: int| 0 <= k < q.len() && q[k] == i as usize;
        assert(p[k] < head.len());
    }
}

proof fn lemma_user_positions_below(names: Seq<Seq<char>>, system: Seq<String>)
    requires
        names.len() <= usize::MAX,
    ensures
        forall|k: int|
            0 <= k < user_positions(names, system).len() ==> #[trigger] user_positions(
                names,
                system,
            )[k] < names.len(),
    decreases names.len(),
{
    if names.len() > 0 {
        let head = user_positions(names.drop_last(), system);
        lemma_user_positions_below(names.drop_last(), system);
        assert forall|k: int| 0 <= k < user_positions(names, system).len() implies
            #[trigger] user_positions(names, system)[k] < names.len() by {
            if k < head.len() {
                assert(head[k] < names.drop_last().len());
            }
        }
    }
}

/// What is brought is listed once and in order, and is there to be brought.
pub proof fn replayed_positions_are_in_order(names: Seq<Seq<char>>, system: Seq<String>)
    requires
        names.len() <= usize::MAX,
    ensures
        ({
            let v = user_positions(names, system);
            &&& forall|k: int, m: int| 0 <= k < m < v.len() ==> (#[trigger] v[k]) < (#[trigger] v[m])
            &&& forall|k: int| 0 <= k < v.len() ==> #[trigger] v[k] < names.len()
        }),
    decreases names.len(),
{
    lemma_user_positions_below(names, system);
    if names.len() > 0 {
        let head = names.drop_last();
        replayed_positions_are_in_order(head, system);
        let h = user_positions(head, system);
        let v = user_positions(names, system);
        assert forall|k: int, m: int| 0 <= k < m < v.len() implies (#[trigger] v[k]) < (
        #[trigger] v[m]) by {
            assert(v[k] == h[k]);
            if m < h.len() {
                assert(v[m] == h[m]);
            }
        }
    }
}

/// A keyspace is brought exactly where no built-in name is its whole name, and a table
/// exactly where its keyspace is.
pub proof fn schemas_are_brought_by_keyspace(
    keyspaces: Seq<String>,
    tables: Seq<TableName>,
    system: Seq<String>,
    i: int,
    j: int,
)
    requires
        0 <= i < keyspaces.len() <= usize::MAX,
        0 <= j < tables.len() <= usize::MAX,
    ensures
        user_positions(crate::text::text_views(keyspaces), system).contains(i as usize)
            <==> forall|k: int|
            0 <= k < system.len() ==> (#[trigger] system[k])@ != keyspaces[i]@,
        user_positions(table_keyspaces(tables), system).contains(j as usize) <==> forall|k: int|
            0 <= k < system.len() ==> (#[trigger] system[k])@ != tables[j].keyspace@,
{
    user_keyspaces_are_replayed(crate::text::text_views(keyspaces), system, i);
    user_keyspaces_are_replayed(table_keyspaces(tables), system, j);
}

} // verus!
