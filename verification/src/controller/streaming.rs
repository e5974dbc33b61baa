//! Which data moves to which node.

use vstd::prelude::*;

use crate::collections::VecMap;
use crate::error::ClusterError;
use crate::raft::{NodeState, RaftOp};

verus! {

/// Does a text begin with another?
pub open spec fn has_prefix(s: Seq<char>, prefix: Seq<char>) -> bool {
    s.len() >= prefix.len() && s.take(prefix.len() as int) == prefix
}

/// Is a keyspace left where it is? Keyspaces of the system are, by their names.
pub fn is_local_keyspace(name: &str) -> (b: bool)
    ensures
        b == has_prefix(name@, "system"@),
{
    let prefix = "system";
    let n: usize = prefix.unicode_len();
    if name.unicode_len() < n {
        return false;
    }
    let mut i: usize = 0;
    while i < n
        invariant
            i <= n,
            prefix@ == "system"@,
            n == prefix@.len(),
            n <= name@.len(),
            forall|k: int| 0 <= k < i ==> name@[k] == #[trigger] prefix@[k],
        decreases n - i,
    {
        if name.get_char(i) != prefix.get_char(i) {
            assert(name@.take(n as int)[i as int] != prefix@[i as int]);
            return false;
        }
        i = i + 1;
    }
    assert(name@.take(n as int) =~= prefix@);
    true
}

/// The node that a partition belongs to; one without an owner stays.
pub open spec fn owner_or(owner: Option<u64>, local: u64) -> u64 {
    match owner {
        Some(id) => id,
        None => local,
    }
}

/// Positions of the partitions of a node.
pub open spec fn owned_positions(owners: Seq<Option<u64>>, local: u64, node: u64) -> Seq<usize>
    decreases owners.len(),
{
    if owners.len() == 0 {
        Seq::empty()
    } else {
        let head = owned_positions(owners.drop_last(), local, node);
        if owner_or(owners.last(), local) == node {
            head.push((owners.len() - 1) as usize)
        } else {
            head
        }
    }
}

/// Are these the partitions to send, by node?
pub open spec fn groups_partitions(
    groups: Map<u64, Vec<usize>>,
    owners: Seq<Option<u64>>,
    local: u64,
) -> bool {
    &&& forall|node: u64| #[trigger]
        groups.contains_key(node) <==> node != local && owned_positions(owners, local, node).len()
            > 0
    &&& forall|node: u64| #[trigger]
        groups.contains_key(node) ==> groups[node]@ == owned_positions(owners, local, node)
}

/// Partitions to send, by the node that owns them: those of other nodes, each
/// group in order.
pub fn group_by_owner(owners: &[Option<u64>], local: u64) -> (groups: VecMap<u64, Vec<usize>>)
    ensures
        groups.wf(),
        groups_partitions(groups@, owners@, local),
{
    let mut groups: VecMap<u64, Vec<usize>> = VecMap::new();
    let mut i: usize = 0;
    while i < owners.len()
        invariant
            i <= owners.len(),
            groups.wf(),
            groups_partitions(groups@, owners@.take(i as int), local),
        decreases owners.len() - i,
    {
        let ghost before = groups@;
        let owner: u64 = match owners[i] {
            Some(id) => id,
            None => local,
        };
        proof {
            assert(owners@.take(i + 1).drop_last() =~= owners@.take(i as int));
            assert forall|node: u64| #[trigger]
                owned_positions(owners@.take(i + 1), local, node) == (if node == owner {
                    owned_positions(owners@.take(i as int), local, node).push(i)
                } else {
                    owned_positions(owners@.take(i as int), local, node)
                }) by {}
        }
        if owner != local {
            match groups.position(&owner) {
                Some(k) => {
                    groups.value_mut(k).push(i);
                },
                None => {
                    let mut list: Vec<usize> = Vec::new();
                    list.push(i);
                    assert(list@ =~= owned_positions(owners@.take(i + 1), local, owner)) by {
                        assert(owned_positions(owners@.take(i as int), local, owner)
                            =~= Seq::<usize>::empty());
                    }
                    groups.insert(owner, list);
                },
            }
        }
        i = i + 1;
        assert(groups_partitions(groups@, owners@.take(i as int), local));
    }
    assert(owners@.take(i as int) =~= owners@);
    groups
}

/// No partition of this node is sent, and every other one is, to its owner and
/// to nobody else.
pub proof fn partitions_go_to_their_owner(
    owners: Seq<Option<u64>>,
    local: u64,
    node: u64,
    i: int,
)
    requires
        0 <= i < owners.len() <= usize::MAX,
    ensures
        owned_positions(owners, local, node).contains(i as usize) <==> owner_or(owners[i], local)
            == node,
    decreases owners.len(),
{
    let head = owners.drop_last();
    let p = owned_positions(head, local, node);
    let q = owned_positions(owners, local, node);
    lemma_positions_below(head, local, node);
    if i < head.len() {
        partitions_go_to_their_owner(head, local, node, i);
        if p.contains(i as usize) {
            let k = choose|k: int| 0 <= k < p.len() && p[k] == i as usize;
            assert(q[k] == i as usize);
        }
        if q.contains(i as usize) && !p.contains(i as usize) {
            let k = choose|k: int| 0 <= k < q.len() && q[k] == i as usize;
            assert(k == p.len());
        }
    } else {
        if owner_or(owners[i], local) == node {
            assert(q.last() == i as usize);
        } else if q.contains(i as usize) {
            let k = choose|k: int| 0 <= k < q.len() && q[k] == i as usize;
            assert(q[k] < head.len());
        }
    }
}

proof fn lemma_positions_below(owners: Seq<Option<u64>>, local: u64, node: u64)
    requires
        owners.len() <= usize::MAX,
    ensures
        forall|k: int|
            0 <= k < owned_positions(owners, local, node).len() ==> #[trigger] owned_positions(
                owners,
                local,
                node,
            )[k] < owners.len(),
    decreases owners.len(),
{
    if owners.len() > 0 {
        let head = owned_positions(owners.drop_last(), local, node);
        lemma_positions_below(owners.drop_last(), local, node);
        assert forall|k: int| 0 <= k < owned_positions(owners, local, node).len() implies
            #[trigger] owned_positions(owners, local, node)[k] < owners.len() by {
            if k < head.len() {
                assert(head[k] < owners.drop_last().len());
            }
        }
    }
}

/// A file transfer.
#[derive(Clone, Copy, Debug, PartialEq, Eq, Structural)]
pub struct FileSession {
    pub session_id: u64,
    /// Position of the directory.
    pub dir: usize,
    pub target: u64,
}

/// Transfers of one directory to all nodes but this one.
pub open spec fn dir_sessions(dir: nat, targets: Seq<u64>, local: u64) -> Seq<(nat, u64)>
    decreases targets.len(),
{
    if targets.len() == 0 {
        Seq::empty()
    } else {
        let head = dir_sessions(dir, targets.drop_last(), local);
        if targets.last() == local {
            head
        } else {
            head.push((dir, targets.last()))
        }
    }
}

/// Transfers of the first directories, one directory after the other.
pub open spec fn file_sessions(dirs: nat, targets: Seq<u64>, local: u64) -> Seq<(nat, u64)>
    decreases dirs,
{
    if dirs == 0 {
        Seq::empty()
    } else {
        file_sessions((dirs - 1) as nat, targets, local) + dir_sessions(
            (dirs - 1) as nat,
            targets,
            local,
        )
    }
}

/// Are these the transfers, numbered on from a session?
pub open spec fn numbers_sessions(
    sessions: Seq<FileSession>,
    plan: Seq<(nat, u64)>,
    last_session: u64,
) -> bool {
    &&& sessions.len() == plan.len()
    &&& forall|k: int|
        0 <= k < sessions.len() ==> (#[trigger] sessions[k]).dir as nat == plan[k].0
            && sessions[k].target == plan[k].1 && sessions[k].session_id == last_session + 1 + k
}

/// The transfers of a table's files: every directory to every other node, each
/// in a session of its own.
pub fn plan_file_sessions(
    dirs: usize,
    targets: &[u64],
    local: u64,
    last_session: u64,
) -> (sessions: Vec<FileSession>)
    requires
        last_session + dirs * targets@.len() < u64::MAX,
    ensures
        numbers_sessions(
            sessions@,
            file_sessions(dirs as nat, targets@, local),
            last_session,
        ),
{
    let mut sessions: Vec<FileSession> = Vec::new();
    let mut session_id: u64 = last_session;
    let mut dir: usize = 0;
    while dir < dirs
        invariant
            dir <= dirs,
            last_session + dirs * targets@.len() < u64::MAX,
            sessions@.len() <= dir * targets@.len(),
            session_id == last_session + sessions@.len(),
            numbers_sessions(
                sessions@,
                file_sessions(dir as nat, targets@, local),
                last_session,
            ),
        decreases dirs - dir,
    {
        let ghost done = file_sessions(dir as nat, targets@, local);
        let ghost before = sessions@.len();
        let mut t: usize = 0;
        assert(done =~= done + dir_sessions(dir as nat, targets@.take(0), local));
        while t < targets.len()
            invariant
                dir < dirs,
                t <= targets.len(),
                last_session + dirs * targets@.len() < u64::MAX,
                before <= dir * targets@.len(),
                sessions@.len() <= before + t,
                session_id == last_session + sessions@.len(),
                done == file_sessions(dir as nat, targets@, local),
                numbers_sessions(
                    sessions@,
                    done + dir_sessions(dir as nat, targets@.take(t as int), local),
                    last_session,
                ),
            decreases targets.len() - t,
        {
            proof {
                let n = targets@.len() as int;
                assert(dir * n + n <= dirs * n) by (nonlinear_arith)
                    requires
                        dir + 1 <= dirs,
                        n >= 0,
                ;
                assert(targets@.take(t + 1).drop_last() =~= targets@.take(t as int));
                assert(targets@.take(t + 1).last() == targets@[t as int]);
            }
            let target: u64 = targets[t];
            if target != local {
                session_id = session_id + 1;
                sessions.push(FileSession { session_id, dir, target });
                proof {
                    let a = dir_sessions(dir as nat, targets@.take(t as int), local);
                    assert(done + a.push((dir as nat, target)) =~= (done + a).push(
                        (dir as nat, target),
                    ));
                }
            }
            t = t + 1;
        }
        proof {
            assert(targets@.take(t as int) =~= targets@);
            let n = targets@.len() as int;
            assert(dir * n + n == (dir + 1) * n) by (nonlinear_arith);
        }
        dir = dir + 1;
    }
    sessions
}

/// A transfer of partitions to the node that owns them.
#[derive(Debug, PartialEq, Eq)]
pub struct RowSession {
    pub session_id: u64,
    pub target: u64,
    /// Positions of the partitions.
    pub partitions: Vec<usize>,
}

/// Other nodes that own a partition.
pub open spec fn owns_some(owners: Seq<Option<u64>>, local: u64) -> spec_fn(u64) -> bool {
    |node: u64| node != local && owned_positions(owners, local, node).len() > 0
}

/// Are these the transfers to the given nodes, numbered on from a session?
pub open spec fn numbers_row_sessions(
    sessions: Seq<RowSession>,
    targets: Seq<u64>,
    owners: Seq<Option<u64>>,
    local: u64,
    last_session: u64,
) -> bool {
    &&& sessions.len() == targets.len()
    &&& forall|k: int|
        0 <= k < sessions.len() ==> (#[trigger] sessions[k]).target == targets[k]
            && sessions[k].session_id == last_session + 1 + k && sessions[k].partitions@
            == owned_positions(owners, local, targets[k])
}

/// The transfers of a table's rows: each reachable node gets the partitions that
/// it owns, in a session of its own. Nodes that own none are left out, and so is
/// this one.
pub fn plan_row_sessions(
    owners: &[Option<u64>],
    targets: &[u64],
    local: u64,
    last_session: u64,
) -> (sessions: Vec<RowSession>)
    requires
        last_session + targets@.len() < u64::MAX,
    ensures
        numbers_row_sessions(
            sessions@,
            targets@.filter(owns_some(owners@, local)),
            owners@,
            local,
            last_session,
        ),
{
    let groups = group_by_owner(owners, local);
    let ghost p = owns_some(owners@, local);
    let mut sessions: Vec<RowSession> = Vec::new();
    let mut t: usize = 0;
    proof {
        reveal(Seq::filter);
        assert(targets@.take(0).filter(p) =~= Seq::<u64>::empty());
    }
    while t < targets.len()
        invariant
            t <= targets.len(),
            last_session + targets@.len() < u64::MAX,
            sessions@.len() <= t,
            groups.wf(),
            groups_partitions(groups@, owners@, local),
            p == owns_some(owners@, local),
            numbers_row_sessions(
                sessions@,
                targets@.take(t as int).filter(p),
                owners@,
                local,
                last_session,
            ),
        decreases targets.len() - t,
    {
        let target: u64 = targets[t];
        proof {
            crate::collections::lemma_filter_step(targets@, t as int, p);
        }
        match groups.get(&target) {
            Some(list) => {
                let partitions = list.clone();
                assert(partitions@ =~= list@);
                let n: u64 = sessions.len() as u64;
                sessions.push(RowSession { session_id: last_session + 1 + n, target, partitions });
            },
            None => {},
        }
        t = t + 1;
    }
    assert(targets@.take(t as int) =~= targets@);
    sessions
}

/// A partition goes out in the session of its owner and in no other, where its
/// owner is another node and can be reached.
pub proof fn rows_go_to_their_owner(
    sessions: Seq<RowSession>,
    targets: Seq<u64>,
    owners: Seq<Option<u64>>,
    local: u64,
    last_session: u64,
    i: int,
    k: int,
)
    requires
        0 <= i < owners.len() <= usize::MAX,
        0 <= k < sessions.len(),
        numbers_row_sessions(
            sessions,
            targets.filter(owns_some(owners, local)),
            owners,
            local,
            last_session,
        ),
    ensures
        sessions[k].partitions@.contains(i as usize) <==> owner_or(owners[i], local)
            == sessions[k].target,
        sessions[k].target != local,
        targets.contains(sessions[k].target),
{
    let p = owns_some(owners, local);
    partitions_go_to_their_owner(owners, local, sessions[k].target, i);
    targets.lemma_filter_contains_rev(p, targets.filter(p)[k]);
}

/// Where a partition lies.
#[derive(Debug, PartialEq, Eq)]
pub struct PartitionPlacement {
    /// The node that owns it first.
    pub primary_owner: Option<u64>,
    /// The first two of its replicas.
    pub replicas: Vec<u64>,
}

/// A table and its partitions.
#[derive(Debug, PartialEq, Eq)]
pub struct TablePlacement {
    pub keyspace: String,
    pub partitions: Vec<PartitionPlacement>,
}

/// The first node of a list that is not this one.
pub open spec fn first_other(nodes: Seq<u64>, node: u64) -> Option<u64>
    decreases nodes.len(),
{
    if nodes.len() == 0 {
        None
    } else if nodes[0] != node {
        Some(nodes[0])
    } else {
        first_other(nodes.drop_first(), node)
    }
}

/// Where a partition goes when a node leaves: that node's own go to their next
/// replica.
pub open spec fn heir(p: PartitionPlacement, node: u64) -> Option<u64> {
    if p.primary_owner == Some(node) {
        first_other(p.replicas@, node)
    } else {
        None
    }
}

/// What a leaving node sends: table, partition, and to whom.
pub struct Departure {
    pub table: nat,
    pub partition: nat,
    pub target: u64,
}

/// What a leaving node sends of one table.
pub open spec fn table_departures(
    table: nat,
    partitions: Seq<PartitionPlacement>,
    node: u64,
) -> Seq<Departure>
    decreases partitions.len(),
{
    if partitions.len() == 0 {
        Seq::empty()
    } else {
        let head = table_departures(table, partitions.drop_last(), node);
        match heir(partitions.last(), node) {
            Some(target) => head.push(
                Departure { table, partition: (partitions.len() - 1) as nat, target },
            ),
            None => head,
        }
    }
}

/// What a leaving node sends, table by table; system keyspaces stay.
pub open spec fn departures(tables: Seq<TablePlacement>, node: u64) -> Seq<Departure>
    decreases tables.len(),
{
    if tables.len() == 0 {
        Seq::empty()
    } else {
        let head = departures(tables.drop_last(), node);
        if has_prefix(tables.last().keyspace@, "system"@) {
            head
        } else {
            head + table_departures(
                (tables.len() - 1) as nat,
                tables.last().partitions@,
                node,
            )
        }
    }
}

/// A partition to send.
#[derive(Clone, Copy, Debug, PartialEq, Eq, Structural)]
pub struct PartitionSession {
    pub session_id: u64,
    /// Position of the table.
    pub table: usize,
    /// Position of the partition in its table.
    pub partition: usize,
    pub target: u64,
}

/// Are these what a leaving node sends, numbered from one?
pub open spec fn numbers_departures(
    sessions: Seq<PartitionSession>,
    plan: Seq<Departure>,
) -> bool {
    &&& sessions.len() == plan.len()
    &&& forall|k: int|
        0 <= k < sessions.len() ==> (#[trigger] sessions[k]).session_id == k + 1
            && sessions[k].table as nat == plan[k].table && sessions[k].partition as nat
            == plan[k].partition && sessions[k].target == plan[k].target
}

fn find_heir(p: &PartitionPlacement, node: u64) -> (r: Option<u64>)
    ensures
        r == heir(*p, node),
{
    match p.primary_owner {
        Some(owner) => {
            if owner != node {
                return None;
            }
        },
        None => {
            return None;
        },
    }
    let mut i: usize = 0;
    assert(p.replicas@.skip(0) =~= p.replicas@);
    while i < p.replicas.len()
        invariant
            i <= p.replicas.len(),
            p.primary_owner == Some(node),
            first_other(p.replicas@, node) == first_other(p.replicas@.skip(i as int), node),
        decreases p.replicas.len() - i,
    {
        if p.replicas[i] != node {
            assert(p.replicas@.skip(i as int)[0] == p.replicas@[i as int]);
            return Some(p.replicas[i]);
        }
        assert(p.replicas@.skip(i as int).drop_first() =~= p.replicas@.skip(i + 1));
        i = i + 1;
    }
    None
}

/// How many partitions the tables have in all.
pub open spec fn partition_count(tables: Seq<TablePlacement>) -> nat
    decreases tables.len(),
{
    if tables.len() == 0 {
        0
    } else {
        partition_count(tables.drop_last()) + tables.last().partitions@.len()
    }
}

proof fn lemma_count_grows(tables: Seq<TablePlacement>, i: int)
    requires
        0 <= i <= tables.len(),
    ensures
        partition_count(tables.take(i)) <= partition_count(tables),
    decreases tables.len() - i,
{
    if i == tables.len() {
        assert(tables.take(i) =~= tables);
    } else {
        lemma_count_grows(tables, i + 1);
        assert(tables.take(i + 1).drop_last() =~= tables.take(i));
    }
}

/// What a leaving node sends, each partition in a session of its own.
pub fn plan_departures(tables: &[TablePlacement], node: u64) -> (sessions: Vec<PartitionSession>)
    requires
        partition_count(tables@) < u64::MAX,
    ensures
        numbers_departures(sessions@, departures(tables@, node)),
{
    let mut sessions: Vec<PartitionSession> = Vec::new();
    let mut counter: u64 = 0;
    let mut t: usize = 0;
    while t < tables.len()
        invariant
            t <= tables.len(),
            partition_count(tables@) < u64::MAX,
            counter == sessions@.len(),
            sessions@.len() <= partition_count(tables@.take(t as int)),
            numbers_departures(sessions@, departures(tables@.take(t as int), node)),
        decreases tables.len() - t,
    {
        proof {
            assert(tables@.take(t + 1).drop_last() =~= tables@.take(t as int));
            assert(tables@.take(t + 1).last() == tables@[t as int]);
            lemma_count_grows(tables@, t + 1);
        }
        let table = &tables[t];
        if !is_local_keyspace(table.keyspace.as_str()) {
            let ghost head = departures(tables@.take(t as int), node);
            let ghost before = sessions@.len();
            let ghost ps = table.partitions@;
            let mut p: usize = 0;
            assert(head =~= head + table_departures(t as nat, ps.take(0), node));
            while p < table.partitions.len()
                invariant
                    p <= table.partitions.len(),
                    ps == table.partitions@,
                    counter == sessions@.len(),
                    sessions@.len() <= before + p,
                    before + ps.len() < u64::MAX,
                    numbers_departures(
                        sessions@,
                        head + table_departures(t as nat, ps.take(p as int), node),
                    ),
                decreases table.partitions.len() - p,
            {
                proof {
                    assert(ps.take(p + 1).drop_last() =~= ps.take(p as int));
                    assert(ps.take(p + 1).last() == ps[p as int]);
                }
                match find_heir(&table.partitions[p], node) {
                    Some(target) => {
                        counter = counter + 1;
                        sessions.push(
                            PartitionSession { session_id: counter, table: t, partition: p, target },
                        );
                        proof {
                            let a = table_departures(t as nat, ps.take(p as int), node);
                            let d = Departure { table: t as nat, partition: p as nat, target };
                            assert(head + a.push(d) =~= (head + a).push(d));
                        }
                    },
                    None => {},
                }
                p = p + 1;
            }
            assert(ps.take(p as int) =~= ps);
        }
        t = t + 1;
    }
    assert(tables@.take(t as int) =~= tables@);
    sessions
}

/// A leaving node sends nothing to itself.
pub proof fn leaving_node_keeps_nothing(tables: Seq<TablePlacement>, node: u64)
    ensures
        forall|k: int|
            0 <= k < departures(tables, node).len() ==> (#[trigger] departures(
                tables,
                node,
            )[k]).target != node,
    decreases tables.len(),
{
    if tables.len() > 0 {
        leaving_node_keeps_nothing(tables.drop_last(), node);
        lemma_heirs_are_others((tables.len() - 1) as nat, tables.last().partitions@, node);
        let head = departures(tables.drop_last(), node);
        let tail = table_departures((tables.len() - 1) as nat, tables.last().partitions@, node);
        assert forall|k: int| 0 <= k < departures(tables, node).len() implies (
        #[trigger] departures(tables, node)[k]).target != node by {
            if k < head.len() {
                assert(head[k].target != node);
            } else {
                assert(tail[k - head.len()].target != node);
            }
        }
    }
}

proof fn lemma_heirs_are_others(table: nat, partitions: Seq<PartitionPlacement>, node: u64)
    ensures
        forall|k: int|
            0 <= k < table_departures(table, partitions, node).len() ==> (
            #[trigger] table_departures(table, partitions, node)[k]).target != node,
    decreases partitions.len(),
{
    if partitions.len() > 0 {
        lemma_heirs_are_others(table, partitions.drop_last(), node);
        lemma_first_other(partitions.last().replicas@, node);
        let head = table_departures(table, partitions.drop_last(), node);
        assert forall|k: int| 0 <= k < table_departures(table, partitions, node).len() implies (
        #[trigger] table_departures(table, partitions, node)[k]).target != node by {
            if k < head.len() {
                assert(head[k].target != node);
            }
        }
    }
}

proof fn lemma_first_other(nodes: Seq<u64>, node: u64)
    ensures
        first_other(nodes, node) != Some(node),
    decreases nodes.len(),
{
    if nodes.len() > 0 {
        lemma_first_other(nodes.drop_first(), node);
    }
}

/// A step of taking a node out of the cluster.
#[derive(Debug)]
pub enum DecommissionStep {
    /// Propose a change.
    Propose { op: RaftOp },
    /// Send partitions.
    Stream { sessions: Vec<PartitionSession> },
    /// Give up.
    Fail { error: ClusterError },
}

/// Are these the steps of taking a node out? It stops serving, sends its data,
/// and leaves. Without a ring there is no data to send. With a ring but no
/// network the node stops serving and the rest fails.
pub open spec fn is_decommission(
    r: Result<Vec<DecommissionStep>, ClusterError>,
    raft_ready: bool,
    node_id: u64,
    ring: Option<&[TablePlacement]>,
    has_network: bool,
) -> bool {
    match r {
        Err(e) => !raft_ready && e@ == crate::error::ErrorView::Internal(
            "raft not initialized"@,
        ),
        Ok(steps) => {
            &&& raft_ready
            &&& steps@.len() >= 2
            &&& steps@[0] matches DecommissionStep::Propose { op } && op@
                == (crate::raft::OpView::SetNodeState {
                node_id,
                state: NodeState::Joining,
            })
            &&& match ring {
                None => {
                    &&& steps@.len() == 2
                    &&& steps@[1] matches DecommissionStep::Propose { op } && op@
                        == (crate::raft::OpView::LeaveNode { node_id })
                },
                Some(tables) => if has_network {
                    &&& steps@.len() == 3
                    &&& steps@[1] matches DecommissionStep::Stream { sessions }
                        && numbers_departures(sessions@, departures(tables@, node_id))
                    &&& steps@[2] matches DecommissionStep::Propose { op } && op@
                        == (crate::raft::OpView::LeaveNode { node_id })
                } else {
                    &&& steps@.len() == 2
                    &&& steps@[1] matches DecommissionStep::Fail { error } && error@
                        == crate::error::ErrorView::Internal("peer_manager not set"@)
                },
            }
        },
    }
}

/// The steps of taking a node out, in order: it stops serving, sends its data,
/// and leaves. Without a ring there is no data to send. With a ring but no
/// network the node stops serving and the rest fails.
pub fn plan_decommission(
    raft_ready: bool,
    node_id: u64,
    ring: Option<&[TablePlacement]>,
    has_network: bool,
) -> (r: Result<Vec<DecommissionStep>, ClusterError>)
    requires
        ring matches Some(tables) ==> partition_count(tables@) < u64::MAX,
    ensures
        is_decommission(r, raft_ready, node_id, ring, has_network),
{
    if !raft_ready {
        return Err(ClusterError::Internal("raft not initialized".to_owned()));
    }
    let mut steps: Vec<DecommissionStep> = Vec::new();
    steps.push(
        DecommissionStep::Propose {
            op: RaftOp::SetNodeState { node_id, state: NodeState::Joining },
        },
    );
    match ring {
        Some(tables) => {
            if !has_network {
                steps.push(
                    DecommissionStep::Fail {
                        error: ClusterError::Internal("peer_manager not set".to_owned()),
                    },
                );
                return Ok(steps);
            }
            steps.push(DecommissionStep::Stream { sessions: plan_departures(tables, node_id) });
        },
        None => {},
    }
    steps.push(DecommissionStep::Propose { op: RaftOp::LeaveNode { node_id } });
    Ok(steps)
}

/// A text begins with another exactly where it is that one with something behind it.
pub proof fn prefixes_are_beginnings(prefix: Seq<char>, rest: Seq<char>, s: Seq<char>)
    ensures
        has_prefix(prefix + rest, prefix),
        has_prefix(s, prefix) ==> s == prefix + s.skip(prefix.len() as int),
        s.len() < prefix.len() ==> !has_prefix(s, prefix),
{
    assert((prefix + rest).take(prefix.len() as int) =~= prefix);
    if has_prefix(s, prefix) {
        assert(s =~= s.take(prefix.len() as int) + s.skip(prefix.len() as int));
    }
}

/// Does a list have a node other than this one, with no other such before it?
pub open spec fn is_first_other(nodes: Seq<u64>, node: u64, j: int) -> bool {
    0 <= j < nodes.len() && nodes[j] != node && forall|i: int| 0 <= i < j ==> nodes[i] == node
}

proof fn lemma_first_other_at(nodes: Seq<u64>, node: u64)
    ensures
        first_other(nodes, node) matches Some(x) ==> exists|j: int| #[trigger]
            is_first_other(nodes, node, j) && nodes[j] == x,
        first_other(nodes, node) is None <==> forall|j: int|
            0 <= j < nodes.len() ==> nodes[j] == node,
    decreases nodes.len(),
{
    if nodes.len() > 0 {
        let rest = nodes.drop_first();
        lemma_first_other_at(rest, node);
        if nodes[0] != node {
            assert(is_first_other(nodes, node, 0));
        } else {
            match first_other(nodes, node) {
                Some(x) => {
                    let j = choose|j: int| #[trigger]
                        is_first_other(rest, node, j) && rest[j] == x;
                    assert(forall|i: int| 0 <= i < j ==> rest[i] == nodes[i + 1]);
                    assert forall|i: int| 0 <= i < j + 1 implies nodes[i] == node by {
                        if i > 0 {
                            assert(rest[i - 1] == node);
                        }
                    }
                    assert(is_first_other(nodes, node, j + 1));
                },
                None => {
                    assert forall|j: int| 0 <= j < nodes.len() implies nodes[j] == node by {
                        if j > 0 {
                            assert(rest[j - 1] == node);
                        }
                    }
                },
            }
            if forall|j: int| 0 <= j < nodes.len() ==> nodes[j] == node {
                assert forall|j: int| 0 <= j < rest.len() implies rest[j] == node by {
                    assert(nodes[j + 1] == node);
                }
            }
        }
    }
}

proof fn lemma_table_departures(table: nat, partitions: Seq<PartitionPlacement>, node: u64)
    ensures
        ({
            let d = table_departures(table, partitions, node);
            &&& forall|k: int|
                0 <= k < d.len() ==> {
                    &&& (#[trigger] d[k]).table == table
                    &&& d[k].partition < partitions.len()
                    &&& heir(partitions[d[k].partition as int], node) == Some(d[k].target)
                }
            &&& forall|p: int|
                0 <= p < partitions.len() && heir(#[trigger] partitions[p], node) is Some
                    ==> exists|k: int| 0 <= k < d.len() && (#[trigger] d[k]).partition == p
            &&& forall|k: int, m: int|
                0 <= k < m < d.len() ==> (#[trigger] d[k]).partition < (#[trigger] d[m]).partition
        }),
    decreases partitions.len(),
{
    if partitions.len() > 0 {
        let head = partitions.drop_last();
        lemma_table_departures(table, head, node);
        let h = table_departures(table, head, node);
        let d = table_departures(table, partitions, node);
        assert(forall|k: int| 0 <= k < h.len() ==> d[k] == h[k]);
        assert forall|p: int|
            0 <= p < partitions.len() && heir(#[trigger] partitions[p], node) is Some implies exists|
            k: int,
        | 0 <= k < d.len() && (#[trigger] d[k]).partition == p by {
            if p < head.len() {
                assert(head[p] == partitions[p]);
                let k = choose|k: int| 0 <= k < h.len() && (#[trigger] h[k]).partition == p;
                assert(d[k].partition == p);
            } else {
                assert(d[h.len() as int].partition == p);
            }
        }
    }
}

proof fn lemma_departures(tables: Seq<TablePlacement>, node: u64)
    ensures
        ({
            let d = departures(tables, node);
            &&& forall|k: int|
                0 <= k < d.len() ==> {
                    &&& (#[trigger] d[k]).table < tables.len()
                    &&& d[k].partition < tables[d[k].table as int].partitions@.len()
                    &&& !has_prefix(tables[d[k].table as int].keyspace@, "system"@)
                    &&& heir(
                        tables[d[k].table as int].partitions@[d[k].partition as int],
                        node,
                    ) == Some(d[k].target)
                }
            &&& forall|t: int, p: int|
                0 <= t < tables.len() && !has_prefix(tables[t].keyspace@, "system"@) && 0 <= p
                    < tables[t].partitions@.len() && heir(
                    #[trigger] tables[t].partitions@[p],
                    node,
                ) is Some ==> exists|k: int|
                    0 <= k < d.len() && (#[trigger] d[k]).table == t && d[k].partition == p
            &&& forall|k: int, m: int|
                0 <= k < m < d.len() ==> (#[trigger] d[k]).table < (#[trigger] d[m]).table
                    || d[k].table == d[m].table && d[k].partition < d[m].partition
        }),
    decreases tables.len(),
{
    if tables.len() > 0 {
        let head = tables.drop_last();
        let last = (tables.len() - 1) as nat;
        lemma_departures(head, node);
        lemma_table_departures(last, tables.last().partitions@, node);
        let h = departures(head, node);
        let own = table_departures(last, tables.last().partitions@, node);
        let d = departures(tables, node);
        assert(forall|k: int| 0 <= k < h.len() ==> d[k] == h[k]);
        if !has_prefix(tables.last().keyspace@, "system"@) {
            assert(forall|k: int| h.len() <= k < d.len() ==> d[k] == own[k - h.len()]);
        }
        assert forall|k: int| 0 <= k < d.len() implies {
            &&& (#[trigger] d[k]).table < tables.len()
            &&& d[k].partition < tables[d[k].table as int].partitions@.len()
            &&& !has_prefix(tables[d[k].table as int].keyspace@, "system"@)
            &&& heir(tables[d[k].table as int].partitions@[d[k].partition as int], node) == Some(
                d[k].target,
            )
        } by {
            if k < h.len() {
                assert(head[h[k].table as int] == tables[h[k].table as int]);
            } else {
                assert(d[k] == own[k - h.len()]);
            }
        }
        assert forall|t: int, p: int|
            0 <= t < tables.len() && !has_prefix(tables[t].keyspace@, "system"@) && 0 <= p
                < tables[t].partitions@.len() && heir(
                #[trigger] tables[t].partitions@[p],
                node,
            ) is Some implies exists|k: int|
            0 <= k < d.len() && (#[trigger] d[k]).table == t && d[k].partition == p by {
            if t < head.len() {
                assert(head[t] == tables[t]);
                assert(heir(head[t].partitions@[p], node) is Some);
                let k = choose|k: int|
                    0 <= k < h.len() && (#[trigger] h[k]).table == t && h[k].partition == p;
                assert(d[k] == h[k]);
            } else {
                let k = choose|k: int| 0 <= k < own.len() && (#[trigger] own[k]).partition == p;
                assert(d[h.len() + k] == own[k]);
            }
        }
        assert forall|k: int, m: int| 0 <= k < m < d.len() implies (#[trigger] d[k]).table < (
        #[trigger] d[m]).table || d[k].table == d[m].table && d[k].partition < d[m].partition by {
            if m < h.len() {
                assert(d[k] == h[k] && d[m] == h[m]);
            } else if k < h.len() {
                assert(d[k] == h[k] && d[m] == own[m - h.len()]);
            } else {
                assert(d[k] == own[k - h.len()] && d[m] == own[m - h.len()]);
            }
        }
    }
}

/// A leaving node hands on, in exactly one session each, every partition that it owns
/// first and that another node has a replica of, of every table outside the system's
/// keyspaces. The partition goes to the first of its replicas that is not the leaving
/// node.
pub proof fn every_owned_partition_is_handed_on_once(
    tables: Seq<TablePlacement>,
    node: u64,
    sessions: Seq<PartitionSession>,
    t: int,
    p: int,
)
    requires
        numbers_departures(sessions, departures(tables, node)),
        0 <= t < tables.len(),
        0 <= p < tables[t].partitions@.len(),
    ensures
        !has_prefix(tables[t].keyspace@, "system"@) && tables[t].partitions@[p].primary_owner
            == Some(node) && (exists|j: int|
            0 <= j < tables[t].partitions@[p].replicas@.len()
                && tables[t].partitions@[p].replicas@[j] != node) <==> exists|k: int|
            0 <= k < sessions.len() && (#[trigger] sessions[k]).table == t && sessions[k].partition
                == p,
        forall|k: int|
            0 <= k < sessions.len() && (#[trigger] sessions[k]).table == t && sessions[k].partition
                == p ==> exists|j: int| #[trigger]
                is_first_other(tables[t].partitions@[p].replicas@, node, j) && sessions[k].target
                    == tables[t].partitions@[p].replicas@[j],
        forall|k: int, m: int|
            0 <= k < sessions.len() && 0 <= m < sessions.len() && (#[trigger] sessions[k]).table
                == t && (#[trigger] sessions[m]).table == t && sessions[k].partition == p
                && sessions[m].partition == p ==> k == m,
{
    let d = departures(tables, node);
    let place = tables[t].partitions@[p];
    lemma_departures(tables, node);
    lemma_first_other_at(place.replicas@, node);
    assert(heir(place, node) is Some <==> place.primary_owner == Some(node) && exists|j: int|
        0 <= j < place.replicas@.len() && place.replicas@[j] != node);
    if !has_prefix(tables[t].keyspace@, "system"@) && heir(place, node) is Some {
        assert(heir(tables[t].partitions@[p], node) is Some);
        let k = choose|k: int|
            0 <= k < d.len() && (#[trigger] d[k]).table == t && d[k].partition == p;
        assert(sessions[k].table == t && sessions[k].partition == p);
    }
    assert forall|k: int|
        0 <= k < sessions.len() && (#[trigger] sessions[k]).table == t && sessions[k].partition
            == p implies heir(place, node) == Some(sessions[k].target) && !has_prefix(
        tables[t].keyspace@,
        "system"@,
    ) by {
        assert(d[k].table == t && d[k].partition == p);
    }
    assert forall|k: int, m: int|
        0 <= k < sessions.len() && 0 <= m < sessions.len() && (#[trigger] sessions[k]).table == t
            && (#[trigger] sessions[m]).table == t && sessions[k].partition == p
            && sessions[m].partition == p implies k == m by {
        assert(d[k].table == t && d[m].table == t);
        if k < m {
            assert(d[k].partition < d[m].partition);
        } else if m < k {
            assert(d[m].partition < d[k].partition);
        }
    }
}

/// Every session of a leaving node is about a partition that there is, and sessions are
/// numbered from one in the order of tables and of partitions in a table.
pub proof fn departures_are_numbered_in_order(
    tables: Seq<TablePlacement>,
    node: u64,
    sessions: Seq<PartitionSession>,
    k: int,
)
    requires
        numbers_departures(sessions, departures(tables, node)),
        0 <= k < sessions.len(),
    ensures
        sessions[k].session_id == k + 1,
        sessions[k].table < tables.len(),
        sessions[k].partition < tables[sessions[k].table as int].partitions@.len(),
        sessions[k].target != node,
        k + 1 < sessions.len() ==> sessions[k].table < sessions[k + 1].table || sessions[k].table
            == sessions[k + 1].table && sessions[k].partition < sessions[k + 1].partition,
{
    let d = departures(tables, node);
    lemma_departures(tables, node);
    leaving_node_keeps_nothing(tables, node);
    assert(d[k].target != node);
    if k + 1 < sessions.len() {
        assert(d[k].table < d[k + 1].table || d[k].table == d[k + 1].table && d[k].partition < d[k
            + 1].partition);
    }
}

/// A node is taken out by three changes in this order: it is marked as joining, so that it
/// no longer serves; its partitions are sent; it leaves. What is proposed names that node
/// and no other. Nothing is proposed without consensus, and a node with data that cannot
/// be sent does not leave.
pub proof fn nodes_leave_after_their_data(
    r: Result<Vec<DecommissionStep>, ClusterError>,
    raft_ready: bool,
    node_id: u64,
    ring: Option<&[TablePlacement]>,
    has_network: bool,
)
    requires
        is_decommission(r, raft_ready, node_id, ring, has_network),
    ensures
        r is Ok <==> raft_ready,
        r matches Ok(steps) ==> steps@.len() >= 2 && (steps@[0] matches DecommissionStep::Propose {
            op,
        } && (op matches RaftOp::SetNodeState { node_id: n, state } && n == node_id && state
            == NodeState::Joining)),
        r matches Ok(steps) ==> (ring is None || has_network) ==> (
        steps@.last() matches DecommissionStep::Propose { op } && (op matches RaftOp::LeaveNode {
            node_id: n,
        } && n == node_id)),
        r matches Ok(steps) ==> ring is Some && !has_network ==> forall|i: int|
            0 < i < steps@.len() ==> (#[trigger] steps@[i]) is Fail,
        r matches Ok(steps) ==> ring is Some && has_network ==> steps@.len() == 3 && (
        steps@[1] matches DecommissionStep::Stream { sessions } && numbers_departures(
            sessions@,
            departures(ring->0@, node_id),
        )),
        r matches Ok(steps) ==> ring is None ==> steps@.len() == 2,
{
}

proof fn lemma_owned(owners: Seq<Option<u64>>, local: u64, node: u64)
    requires
        owners.len() <= usize::MAX,
    ensures
        ({
            let v = owned_positions(owners, local, node);
            &&& forall|k: int|
                0 <= k < v.len() ==> (#[trigger] v[k]) < owners.len() && owner_or(
                    owners[v[k] as int],
                    local,
                ) == node
            &&& forall|i: int|
                0 <= i < owners.len() && owner_or(#[trigger] owners[i], local) == node
                    ==> exists|k: int| 0 <= k < v.len() && #[trigger] v[k] == i
            &&& forall|k: int, m: int|
                0 <= k < m < v.len() ==> (#[trigger] v[k]) < (#[trigger] v[m])
        }),
    decreases owners.len(),
{
    if owners.len() > 0 {
        let head = owners.drop_last();
        lemma_owned(head, local, node);
        let h = owned_positions(head, local, node);
        let v = owned_positions(owners, local, node);
        assert(forall|k: int| 0 <= k < h.len() ==> v[k] == h[k]);
        assert forall|i: int|
            0 <= i < owners.len() && owner_or(#[trigger] owners[i], local) == node implies exists|
            k: int,
        | 0 <= k < v.len() && #[trigger] v[k] == i by {
            if i < head.len() {
                assert(head[i] == owners[i]);
                let k = choose|k: int| 0 <= k < h.len() && #[trigger] h[k] == i;
                assert(v[k] == i);
            } else {
                assert(v[h.len() as int] == i);
            }
        }
    }
}

/// The partitions grouped under another node are exactly those that it owns, each once
/// and in order; a partition without an owner, and one of this node, is in no group.
pub proof fn groups_hold_what_the_node_owns(
    groups: Map<u64, Vec<usize>>,
    owners: Seq<Option<u64>>,
    local: u64,
    node: u64,
)
    requires
        owners.len() <= usize::MAX,
        groups_partitions(groups, owners, local),
    ensures
        groups.contains_key(node) <==> node != local && exists|i: int|
            0 <= i < owners.len() && #[trigger] owners[i] == Some(node),
        groups.contains_key(node) ==> {
            &&& forall|i: int|
                0 <= i < owners.len() ==> (#[trigger] owners[i] == Some(node) <==> exists|k: int|
                    0 <= k < groups[node]@.len() && #[trigger] groups[node]@[k] == i)
            &&& forall|k: int| 0 <= k < groups[node]@.len() ==> #[trigger] groups[node]@[k] < owners.len()
            &&& forall|k: int, m: int|
                0 <= k < m < groups[node]@.len() ==> (#[trigger] groups[node]@[k]) < (
                #[trigger] groups[node]@[m])
        },
{
    lemma_owned(owners, local, node);
    let v = owned_positions(owners, local, node);
    if node != local {
        assert forall|i: int| 0 <= i < owners.len() implies (#[trigger] owners[i] == Some(node)
            <==> exists|k: int| 0 <= k < v.len() && #[trigger] v[k] == i) by {
            if owners[i] == Some(node) {
                assert(owner_or(owners[i], local) == node);
            }
        }
        if v.len() > 0 {
            assert(owners[v[0] as int] == Some(node));
        }
    }
}

/// Row sessions are numbered on without a gap. Each is to a reachable node other than
/// this one and carries exactly the partitions that this node owns, in order.
pub proof fn row_sessions_carry_what_the_target_owns(
    sessions: Seq<RowSession>,
    targets: Seq<u64>,
    owners: Seq<Option<u64>>,
    local: u64,
    last_session: u64,
    k: int,
)
    requires
        owners.len() <= usize::MAX,
        numbers_row_sessions(
            sessions,
            targets.filter(owns_some(owners, local)),
            owners,
            local,
            last_session,
        ),
        0 <= k < sessions.len(),
    ensures
        sessions[k].session_id == last_session + 1 + k,
        sessions[k].target != local,
        targets.contains(sessions[k].target),
        forall|i: int|
            0 <= i < owners.len() ==> (#[trigger] owners[i] == Some(sessions[k].target) <==> exists|
                j: int,
            | 0 <= j < sessions[k].partitions@.len() && #[trigger] sessions[k].partitions@[j] == i),
        forall|i: int, j: int|
            0 <= i < j < sessions[k].partitions@.len() ==> (#[trigger] sessions[k].partitions@[i])
                < (#[trigger] sessions[k].partitions@[j]),
{
    let p = owns_some(owners, local);
    let kept = targets.filter(p);
    targets.lemma_filter_contains_rev(p, kept[k]);
    targets.lemma_filter_pred(p, k);
    lemma_owned(owners, local, sessions[k].target);
    let v = owned_positions(owners, local, sessions[k].target);
    assert forall|i: int| 0 <= i < owners.len() implies (#[trigger] owners[i] == Some(
        sessions[k].target,
    ) <==> exists|j: int| 0 <= j < v.len() && #[trigger] v[j] == i) by {
        if owners[i] == Some(sessions[k].target) {
            assert(owner_or(owners[i], local) == sessions[k].target);
        }
    }
}

/// Every reachable node other than this one that owns a partition gets a session; no other
/// does.
pub proof fn every_reachable_owner_gets_a_session(
    sessions: Seq<RowSession>,
    targets: Seq<u64>,
    owners: Seq<Option<u64>>,
    local: u64,
    last_session: u64,
    node: u64,
)
    requires
        owners.len() <= usize::MAX,
        numbers_row_sessions(
            sessions,
            targets.filter(owns_some(owners, local)),
            owners,
            local,
            last_session,
        ),
    ensures
        node != local && targets.contains(node) && owners.contains(Some(node)) <==> exists|m: int|
            0 <= m < sessions.len() && (#[trigger] sessions[m]).target == node,
        targets.no_duplicates() ==> forall|k: int, m: int|
            0 <= k < m < sessions.len() ==> (#[trigger] sessions[k]).target != (
            #[trigger] sessions[m]).target,
{
    let p = owns_some(owners, local);
    let kept = targets.filter(p);
    lemma_owned(owners, local, node);
    let v = owned_positions(owners, local, node);
    if node != local && targets.contains(node) && owners.contains(Some(node)) {
        let i = choose|i: int| 0 <= i < owners.len() && owners[i] == Some(node);
        assert(owner_or(owners[i], local) == node);
        assert(p(node));
        let t = choose|t: int| 0 <= t < targets.len() && targets[t] == node;
        targets.lemma_filter_contains(p, t);
        let m = choose|m: int| 0 <= m < kept.len() && kept[m] == node;
        assert(sessions[m].target == node);
    }
    if exists|m: int| 0 <= m < sessions.len() && (#[trigger] sessions[m]).target == node {
        let m = choose|m: int| 0 <= m < sessions.len() && (#[trigger] sessions[m]).target == node;
        targets.lemma_filter_pred(p, m);
        crate::collections::lemma_filter_from(targets, p, m);
        assert(p(node));
        assert(owners[v[0] as int] == Some(node));
    }
    if targets.no_duplicates() {
        crate::collections::lemma_filter_distinct(targets, p);
        assert forall|k: int, m: int| 0 <= k < m < sessions.len() implies (
        #[trigger] sessions[k]).target != (#[trigger] sessions[m]).target by {
            assert(kept[k] != kept[m]);
        }
    }
}

proof fn lemma_dir_sessions(dir: nat, targets: Seq<u64>, local: u64)
    ensures
        ({
            let d = dir_sessions(dir, targets, local);
            &&& forall|k: int|
                0 <= k < d.len() ==> (#[trigger] d[k]).0 == dir && d[k].1 != local
                    && targets.contains(d[k].1)
            &&& forall|i: int|
                0 <= i < targets.len() && #[trigger] targets[i] != local ==> d.contains(
                    (dir, targets[i]),
                )
            &&& targets.no_duplicates() ==> d.no_duplicates()
        }),
    decreases targets.len(),
{
    if targets.len() > 0 {
        let head = targets.drop_last();
        lemma_dir_sessions(dir, head, local);
        let h = dir_sessions(dir, head, local);
        let d = dir_sessions(dir, targets, local);
        assert(forall|k: int| 0 <= k < h.len() ==> d[k] == h[k]);
        assert forall|k: int| 0 <= k < d.len() implies (#[trigger] d[k]).0 == dir && d[k].1 != local
            && targets.contains(d[k].1) by {
            if k < h.len() {
                let i = choose|i: int| 0 <= i < head.len() && head[i] == h[k].1;
                assert(targets[i] == d[k].1);
            } else {
                assert(targets[targets.len() - 1] == d[k].1);
            }
        }
        assert forall|i: int| 0 <= i < targets.len() && #[trigger] targets[i] != local implies d.contains(
            (dir, targets[i]),
        ) by {
            if i < head.len() {
                assert(head[i] == targets[i]);
                let k = choose|k: int| 0 <= k < h.len() && h[k] == (dir, targets[i]);
                assert(d[k] == (dir, targets[i]));
            } else {
                assert(d[h.len() as int] == (dir, targets[i]));
            }
        }
        if targets.no_duplicates() {
            assert(head.no_duplicates());
            assert forall|a: int, b: int| 0 <= a < d.len() && 0 <= b < d.len() && a != b implies d[a]
                != d[b] by {
                if a == h.len() || b == h.len() {
                    let c = if a == h.len() {
                        b
                    } else {
                        a
                    };
                    let i = choose|i: int| 0 <= i < head.len() && head[i] == h[c].1;
                    assert(targets[i] == d[c].1);
                }
            }
        }
    }
}

proof fn lemma_file_sessions(dirs: nat, targets: Seq<u64>, local: u64)
    ensures
        ({
            let d = file_sessions(dirs, targets, local);
            &&& forall|k: int|
                0 <= k < d.len() ==> (#[trigger] d[k]).0 < dirs && d[k].1 != local
                    && targets.contains(d[k].1)
            &&& forall|n: nat, i: int|
                n < dirs && 0 <= i < targets.len() && targets[i] != local
                    ==> #[trigger] d.contains((n, targets[i]))
            &&& targets.no_duplicates() ==> d.no_duplicates()
        }),
    decreases dirs,
{
    if dirs > 0 {
        let n1 = (dirs - 1) as nat;
        lemma_file_sessions(n1, targets, local);
        lemma_dir_sessions(n1, targets, local);
        let h = file_sessions(n1, targets, local);
        let own = dir_sessions(n1, targets, local);
        let d = file_sessions(dirs, targets, local);
        assert(forall|k: int| 0 <= k < h.len() ==> d[k] == h[k]);
        assert(forall|k: int| h.len() <= k < d.len() ==> d[k] == own[k - h.len()]);
        assert forall|n: nat, i: int|
            n < dirs && 0 <= i < targets.len() && targets[i] != local implies #[trigger] d.contains(
            (n, targets[i]),
        ) by {
            if n < n1 {
                assert(h.contains((n, targets[i])));
                let k = choose|k: int| 0 <= k < h.len() && h[k] == (n, targets[i]);
                assert(d[k] == (n, targets[i]));
            } else {
                let k = choose|k: int| 0 <= k < own.len() && own[k] == (n, targets[i]);
                assert(d[h.len() + k] == (n, targets[i]));
            }
        }
        if targets.no_duplicates() {
            assert forall|a: int, b: int| 0 <= a < d.len() && 0 <= b < d.len() && a != b implies d[a]
                != d[b] by {
                if a < h.len() && b < h.len() {
                    assert(h[a] != h[b]);
                } else if a >= h.len() && b >= h.len() {
                    assert(own[a - h.len()] != own[b - h.len()]);
                } else if a < h.len() {
                    assert(h[a].0 < n1 && own[b - h.len()].0 == n1);
                } else {
                    assert(h[b].0 < n1 && own[a - h.len()].0 == n1);
                }
            }
        }
    }
}

/// Every directory is sent to every target but this node, and nothing else is sent; once
/// each, where no target is listed twice. Sessions are numbered on without a gap.
pub proof fn every_directory_goes_to_every_other_node(
    sessions: Seq<FileSession>,
    dirs: nat,
    targets: Seq<u64>,
    local: u64,
    last_session: u64,
    dir: nat,
    target: u64,
)
    requires
        numbers_sessions(sessions, file_sessions(dirs, targets, local), last_session),
    ensures
        dir < dirs && target != local && targets.contains(target) <==> exists|k: int|
            0 <= k < sessions.len() && (#[trigger] sessions[k]).dir == dir && sessions[k].target
                == target,
        targets.no_duplicates() ==> forall|k: int, m: int|
            0 <= k < m < sessions.len() ==> (#[trigger] sessions[k]).dir != (
            #[trigger] sessions[m]).dir || sessions[k].target != sessions[m].target,
        forall|k: int|
            0 <= k < sessions.len() ==> (#[trigger] sessions[k]).session_id == last_session + 1 + k,
{
    let d = file_sessions(dirs, targets, local);
    lemma_file_sessions(dirs, targets, local);
    if dir < dirs && target != local && targets.contains(target) {
        let i = choose|i: int| 0 <= i < targets.len() && targets[i] == target;
        assert(d.contains((dir, targets[i])));
        let k = choose|k: int| 0 <= k < d.len() && d[k] == (dir, target);
        assert(sessions[k].dir == dir && sessions[k].target == target);
    }
    if targets.no_duplicates() {
        assert forall|k: int, m: int| 0 <= k < m < sessions.len() implies (#[trigger] sessions[k]).dir
            != (#[trigger] sessions[m]).dir || sessions[k].target != sessions[m].target by {
            assert(d[k] != d[m]);
        }
    }
}

} // verus!
