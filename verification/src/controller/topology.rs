//! Who belongs to a cluster, where, and with which tokens.

use std::collections::HashMap;

use vstd::prelude::*;

use crate::address::{Peer, PeerAddr};
use crate::collections::{str_equal, VecMap};
use crate::controller::token::deterministic_tokens_for_node;
use crate::raft::{borrowed_text, copied_text, NodeInfo, NodeState};

verus! {

broadcast use vstd::std_specs::hash::group_hash_axioms;

/// The data center of a host: the announced one, or else the local one.
pub open spec fn dc_of(dcs: Map<u128, String>, local_dc: Seq<char>, host_id: u128) -> Seq<char> {
    if dcs.contains_key(host_id) {
        dcs[host_id]@
    } else {
        local_dc
    }
}

/// Peers of a data center.
pub open spec fn in_dc(dcs: Map<u128, String>, local_dc: Seq<char>, dc: Seq<char>) -> spec_fn(
    crate::address::PeerView,
) -> bool {
    |p: crate::address::PeerView| dc_of(dcs, local_dc, p.host_id) == dc
}

/// The peers of a data center, in order.
pub open spec fn dc_peers(
    peers: Seq<crate::address::PeerView>,
    dcs: Map<u128, String>,
    local_dc: Seq<char>,
    dc: Seq<char>,
) -> Seq<crate::address::PeerView> {
    peers.filter(in_dc(dcs, local_dc, dc))
}

/// Are these the groups of peers outside the local data center?
pub open spec fn groups_peers(
    others: Map<Seq<char>, Vec<Peer>>,
    peers: Seq<crate::address::PeerView>,
    dcs: Map<u128, String>,
    local_dc: Seq<char>,
) -> bool {
    &&& forall|dc: Seq<char>| #[trigger]
        others.contains_key(dc) <==> dc != local_dc && dc_peers(peers, dcs, local_dc, dc).len() > 0
    &&& forall|dc: Seq<char>| #[trigger]
        others.contains_key(dc) ==> crate::address::peer_views(others[dc]@) == dc_peers(
            peers,
            dcs,
            local_dc,
            dc,
        )
}

/// Peers by data center: those of the local one, and the others by name. Peers
/// that announced no data center count as local.
pub fn partition_peers_by_dc(
    peers: &[Peer],
    dcs: &HashMap<u128, String>,
    local_dc: &str,
) -> (r: (Vec<Peer>, VecMap<String, Vec<Peer>>))
    ensures
        crate::address::peer_views(r.0@) == dc_peers(
            crate::address::peer_views(peers@),
            dcs@,
            local_dc@,
            local_dc@,
        ),
        r.1.wf(),
        groups_peers(r.1@, crate::address::peer_views(peers@), dcs@, local_dc@),
{
    let ghost all = crate::address::peer_views(peers@);
    let mut local: Vec<Peer> = Vec::new();
    let mut others: VecMap<String, Vec<Peer>> = VecMap::new();
    let mut i: usize = 0;
    proof {
        reveal(Seq::filter);
        assert(crate::address::peer_views(local@) =~= dc_peers(
            all.take(0),
            dcs@,
            local_dc@,
            local_dc@,
        ));
        assert forall|dc: Seq<char>| dc_peers(all.take(0), dcs@, local_dc@, dc).len() == 0 by {}
    }
    while i < peers.len()
        invariant
            i <= peers.len(),
            all == crate::address::peer_views(peers@),
            crate::address::peer_views(local@) == dc_peers(
                all.take(i as int),
                dcs@,
                local_dc@,
                local_dc@,
            ),
            others.wf(),
            groups_peers(others@, all.take(i as int), dcs@, local_dc@),
        decreases peers.len() - i,
    {
        let p = peers[i].copied();
        let ghost pv = p@;
        let ghost before = others@;
        let dc: &str = match dcs.get(&p.host_id) {
            Some(name) => name.as_str(),
            None => local_dc,
        };
        assert(dc@ == dc_of(dcs@, local_dc@, p.host_id));
        assert(all[i as int] == pv);
        proof {
            assert forall|d: Seq<char>| #[trigger]
                dc_peers(all.take(i + 1), dcs@, local_dc@, d) == (if d == dc@ {
                    dc_peers(all.take(i as int), dcs@, local_dc@, d).push(pv)
                } else {
                    dc_peers(all.take(i as int), dcs@, local_dc@, d)
                }) by {
                crate::collections::lemma_filter_step(all, i as int, in_dc(dcs@, local_dc@, d));
            }
        }
        if str_equal(dc, local_dc) {
            proof {
                crate::address::lemma_peer_views_push(local@, p);
            }
            local.push(p);
        } else {
            match others.position(dc) {
                Some(k) => {
                    let group = others.value_mut(k);
                    proof {
                        crate::address::lemma_peer_views_push(group@, p);
                    }
                    group.push(p);
                },
                None => {
                    let mut group: Vec<Peer> = Vec::new();
                    proof {
                        assert(crate::address::peer_views(group@) =~= Seq::<
                            crate::address::PeerView,
                        >::empty());
                        crate::address::lemma_peer_views_push(group@, p);
                        assert(dc_peers(all.take(i as int), dcs@, local_dc@, dc@) =~= Seq::<
                            crate::address::PeerView,
                        >::empty());
                    }
                    group.push(p);
                    others.insert(dc.to_owned(), group);
                },
            }
        }
        i = i + 1;
        proof {
            assert(groups_peers(others@, all.take(i as int), dcs@, local_dc@));
        }
    }
    assert(all.take(i as int) =~= all);
    (local, others)
}

/// Without announced data centers every peer is local: a cluster in one data
/// center keeps all its peers.
pub proof fn unannounced_peers_are_local(
    peers: Seq<crate::address::PeerView>,
    dcs: Map<u128, String>,
    local_dc: Seq<char>,
)
    requires
        forall|i: int| 0 <= i < peers.len() ==> !dcs.contains_key((#[trigger] peers[i]).host_id),
    ensures
        dc_peers(peers, dcs, local_dc, local_dc) == peers,
    decreases peers.len(),
{
    reveal(Seq::filter);
    if peers.len() > 0 {
        unannounced_peers_are_local(peers.drop_last(), dcs, local_dc);
        assert(peers =~= peers.drop_last().push(peers.last()));
        assert(in_dc(dcs, local_dc, local_dc)(peers.last()));
    } else {
        assert(dc_peers(peers, dcs, local_dc, local_dc) =~= peers);
    }
}

/// The address to record for a node: the name it announced, which can be
/// resolved again, or else the address it connected from.
pub open spec fn recorded_addr(
    addr: crate::address::AddrView,
    internode_broadcast: Option<Seq<char>>,
) -> Seq<char> {
    match internode_broadcast {
        Some(name) => name,
        None => addr.text(),
    }
}

/// The address to record for a node.
pub fn node_info_addr(addr: &PeerAddr, internode_broadcast: Option<&str>) -> (t: String)
    ensures
        t@ == recorded_addr(addr@, crate::raft::str_view(internode_broadcast)),
{
    match internode_broadcast {
        Some(name) => name.to_owned(),
        None => addr.text(),
    }
}

/// What a map says of a host.
pub open spec fn announced(m: Map<u128, String>, host_id: u128) -> Option<Seq<char>> {
    if m.contains_key(host_id) {
        Some(m[host_id]@)
    } else {
        None
    }
}

fn announced_text<'a>(m: &'a HashMap<u128, String>, host_id: u128) -> (t: Option<&'a str>)
    ensures
        crate::raft::str_view(t) == announced(m@, host_id),
{
    match m.get(&host_id) {
        Some(s) => Some(s.as_str()),
        None => None,
    }
}

/// The record of a peer: a serving node of the local data center and rack.
pub open spec fn peer_record(
    peer: crate::address::PeerView,
    data_center: Seq<char>,
    rack: Seq<char>,
    cql_broadcasts: Map<u128, String>,
    internode_broadcasts: Map<u128, String>,
) -> crate::raft::NodeInfoView {
    crate::raft::NodeInfoView {
        host_id: peer.host_id,
        addr: recorded_addr(peer.addr, announced(internode_broadcasts, peer.host_id)),
        data_center,
        rack,
        state: NodeState::Normal,
        cql_broadcast: announced(cql_broadcasts, peer.host_id),
    }
}

/// The record of the local node.
pub open spec fn local_record(
    host_id: u128,
    addr: Seq<char>,
    cql_broadcast: Option<Seq<char>>,
    data_center: Seq<char>,
    rack: Seq<char>,
) -> crate::raft::NodeInfoView {
    crate::raft::NodeInfoView {
        host_id,
        addr,
        data_center,
        rack,
        state: NodeState::Normal,
        cql_broadcast,
    }
}

/// The record of a peer.
pub fn peer_node_info(
    peer: &Peer,
    data_center: &str,
    rack: &str,
    cql_broadcasts: &HashMap<u128, String>,
    internode_broadcasts: &HashMap<u128, String>,
) -> (n: NodeInfo)
    ensures
        n@ == peer_record(
            peer@,
            data_center@,
            rack@,
            cql_broadcasts@,
            internode_broadcasts@,
        ),
{
    NodeInfo {
        host_id: peer.host_id,
        addr: node_info_addr(&peer.addr, announced_text(internode_broadcasts, peer.host_id)),
        data_center: data_center.to_owned(),
        rack: rack.to_owned(),
        state: NodeState::Normal,
        cql_broadcast: copied_text(announced_text(cql_broadcasts, peer.host_id)),
    }
}

/// The records to write once a cluster is back: the local node, then every
/// peer.
pub open spec fn refresh_plan(
    local: crate::raft::NodeInfoView,
    peers: Seq<crate::address::PeerView>,
    cql_broadcasts: Map<u128, String>,
    internode_broadcasts: Map<u128, String>,
) -> Seq<crate::raft::NodeInfoView> {
    seq![local] + Seq::new(
        peers.len(),
        |i: int|
            peer_record(
                peers[i],
                local.data_center,
                local.rack,
                cql_broadcasts,
                internode_broadcasts,
            ),
    )
}

/// The records to write once a cluster is back.
pub fn build_recovered_topology_refresh_plan(
    local_host_id: u128,
    local_addr: &str,
    local_cql_broadcast: Option<&str>,
    data_center: &str,
    rack: &str,
    peers: &[Peer],
    peer_cql_broadcasts: &HashMap<u128, String>,
    peer_internode_broadcasts: &HashMap<u128, String>,
) -> (plan: Vec<NodeInfo>)
    ensures
        crate::raft::info_views(plan@) == refresh_plan(
            local_record(
                local_host_id,
                local_addr@,
                crate::raft::str_view(local_cql_broadcast),
                data_center@,
                rack@,
            ),
            crate::address::peer_views(peers@),
            peer_cql_broadcasts@,
            peer_internode_broadcasts@,
        ),
{
    let ghost all = crate::address::peer_views(peers@);
    let local = NodeInfo {
        host_id: local_host_id,
        addr: local_addr.to_owned(),
        data_center: data_center.to_owned(),
        rack: rack.to_owned(),
        state: NodeState::Normal,
        cql_broadcast: copied_text(local_cql_broadcast),
    };
    let ghost lv = local@;
    let mut plan: Vec<NodeInfo> = Vec::new();
    plan.push(local);
    let mut i: usize = 0;
    assert(crate::raft::info_views(plan@) =~= refresh_plan(
        lv,
        all.take(0),
        peer_cql_broadcasts@,
        peer_internode_broadcasts@,
    ));
    while i < peers.len()
        invariant
            i <= peers.len(),
            all == crate::address::peer_views(peers@),
            lv.data_center == data_center@,
            lv.rack == rack@,
            crate::raft::info_views(plan@) == refresh_plan(
                lv,
                all.take(i as int),
                peer_cql_broadcasts@,
                peer_internode_broadcasts@,
            ),
        decreases peers.len() - i,
    {
        let ghost before = plan@;
        plan.push(
            peer_node_info(
                &peers[i],
                data_center,
                rack,
                peer_cql_broadcasts,
                peer_internode_broadcasts,
            ),
        );
        i = i + 1;
        proof {
            assert(crate::raft::info_views(plan@) =~= crate::raft::info_views(before).push(
                plan@.last()@,
            ));
            assert(crate::raft::info_views(plan@) =~= refresh_plan(
                lv,
                all.take(i as int),
                peer_cql_broadcasts@,
                peer_internode_broadcasts@,
            ));
        }
    }
    assert(all.take(i as int) =~= all);
    plan
}

/// Are the node ids of all these hosts known?
pub open spec fn knows_ids(ids: Map<u128, u64>, nodes: Seq<crate::raft::NodeInfoView>) -> bool {
    forall|i: int| 0 <= i < nodes.len() ==> ids.contains_key((#[trigger] nodes[i]).host_id)
}

/// The tokens of every node of a plan, in its order.
pub fn build_recovered_topology_token_repair_plan(
    refresh_plan: &[NodeInfo],
    node_ids: &HashMap<u128, u64>,
    num_tokens: usize,
) -> (plan: Vec<(u64, Vec<i64>)>)
    requires
        knows_ids(node_ids@, crate::raft::info_views(refresh_plan@)),
    ensures
        plan@.len() == refresh_plan@.len(),
        forall|i: int|
            0 <= i < plan@.len() ==> (#[trigger] plan@[i]).0 == node_ids@[refresh_plan@[i].host_id]
                && plan@[i].1@ == crate::controller::token::tokens_of(
                plan@[i].0,
                num_tokens as nat,
            ),
{
    let mut plan: Vec<(u64, Vec<i64>)> = Vec::new();
    let mut i: usize = 0;
    while i < refresh_plan.len()
        invariant
            i <= refresh_plan.len(),
            knows_ids(node_ids@, crate::raft::info_views(refresh_plan@)),
            plan@.len() == i,
            forall|k: int|
                0 <= k < plan@.len() ==> (#[trigger] plan@[k]).0
                    == node_ids@[refresh_plan@[k].host_id] && plan@[k].1@
                    == crate::controller::token::tokens_of(plan@[k].0, num_tokens as nat),
        decreases refresh_plan.len() - i,
    {
        let host_id: u128 = refresh_plan[i].host_id;
        assert(node_ids@.contains_key(
            crate::raft::info_views(refresh_plan@)[i as int].host_id,
        ));
        let node_id: u64 = *node_ids.get(&host_id).unwrap();
        plan.push((node_id, deterministic_tokens_for_node(node_id, num_tokens)));
        i = i + 1;
    }
    plan
}

/// Addresses by node id, as text.
pub open spec fn member_texts(m: Map<u64, String>) -> Map<u64, Seq<char>> {
    m.map_values(|s: String| s@)
}

/// Addresses by node id; of two hosts with one id the later stays.
pub open spec fn listed_members(entries: Seq<(u64, Seq<char>)>) -> Map<u64, Seq<char>>
    decreases entries.len(),
{
    if entries.len() == 0 {
        Map::empty()
    } else {
        listed_members(entries.drop_last()).insert(entries.last().0, entries.last().1)
    }
}

/// The first membership: the local node, then every peer.
pub open spec fn initial_entries(
    local: crate::address::PeerView,
    peers: Seq<crate::address::PeerView>,
    ids: Map<u128, u64>,
) -> Seq<(u64, Seq<char>)> {
    seq![(ids[local.host_id], local.addr.text())] + Seq::new(
        peers.len(),
        |i: int| (ids[peers[i].host_id], peers[i].addr.text()),
    )
}

/// The membership that records give.
pub open spec fn info_entries(
    nodes: Seq<crate::raft::NodeInfoView>,
    ids: Map<u128, u64>,
) -> Seq<(u64, Seq<char>)> {
    Seq::new(nodes.len(), |i: int| (ids[nodes[i].host_id], nodes[i].addr))
}

/// Inserting a text inserts its view.
proof fn lemma_member_insert(m: Map<u64, String>, id: u64, text: String)
    ensures
        member_texts(m.insert(id, text)) == member_texts(m).insert(id, text@),
{
    assert(member_texts(m.insert(id, text)) =~= member_texts(m).insert(id, text@));
}

/// The first membership: the local node and every peer, each with its address.
pub fn build_initial_raft_members(
    local: &Peer,
    peers: &[Peer],
    node_ids: &HashMap<u128, u64>,
) -> (members: VecMap<u64, String>)
    requires
        node_ids@.contains_key(local.host_id),
        forall|i: int|
            0 <= i < peers@.len() ==> node_ids@.contains_key((#[trigger] peers@[i]).host_id),
    ensures
        members.wf(),
        member_texts(members@) == listed_members(
            initial_entries(local@, crate::address::peer_views(peers@), node_ids@),
        ),
{
    let ghost all = crate::address::peer_views(peers@);
    let mut members: VecMap<u64, String> = VecMap::new();
    let local_id: u64 = *node_ids.get(&local.host_id).unwrap();
    let local_text = local.addr.text();
    proof {
        lemma_member_insert(members@, local_id, local_text);
        let first = initial_entries(local@, all.take(0), node_ids@);
        assert(first.drop_last() =~= Seq::<(u64, Seq<char>)>::empty());
        assert(first.last() == (local_id, local_text@));
        reveal_with_fuel(listed_members, 2);
        assert(member_texts(members@) =~= Map::<u64, Seq<char>>::empty());
    }
    members.insert(local_id, local_text);
    let mut i: usize = 0;
    while i < peers.len()
        invariant
            i <= peers.len(),
            all == crate::address::peer_views(peers@),
            forall|k: int|
                0 <= k < peers@.len() ==> node_ids@.contains_key((#[trigger] peers@[k]).host_id),
            members.wf(),
            member_texts(members@) == listed_members(
                initial_entries(local@, all.take(i as int), node_ids@),
            ),
        decreases peers.len() - i,
    {
        let peer_id: u64 = *node_ids.get(&peers[i].host_id).unwrap();
        let text = peers[i].addr.text();
        proof {
            lemma_member_insert(members@, peer_id, text);
            let next = initial_entries(local@, all.take(i + 1), node_ids@);
            assert(next.drop_last() =~= initial_entries(local@, all.take(i as int), node_ids@));
            assert(next.last() == (peer_id, text@));
        }
        members.insert(peer_id, text);
        i = i + 1;
    }
    assert(all.take(i as int) =~= all);
    members
}

/// The membership that records give.
pub fn build_raft_members_from_node_info(
    nodes: &[NodeInfo],
    node_ids: &HashMap<u128, u64>,
) -> (members: VecMap<u64, String>)
    requires
        knows_ids(node_ids@, crate::raft::info_views(nodes@)),
    ensures
        members.wf(),
        member_texts(members@) == listed_members(
            info_entries(crate::raft::info_views(nodes@), node_ids@),
        ),
{
    let ghost all = crate::raft::info_views(nodes@);
    let mut members: VecMap<u64, String> = VecMap::new();
    let mut i: usize = 0;
    assert(member_texts(members@) =~= Map::<u64, Seq<char>>::empty());
    while i < nodes.len()
        invariant
            i <= nodes.len(),
            all == crate::raft::info_views(nodes@),
            knows_ids(node_ids@, all),
            members.wf(),
            member_texts(members@) == listed_members(info_entries(all.take(i as int), node_ids@)),
        decreases nodes.len() - i,
    {
        assert(node_ids@.contains_key(all[i as int].host_id));
        let node_id: u64 = *node_ids.get(&nodes[i].host_id).unwrap();
        let text = nodes[i].addr.as_str().to_owned();
        proof {
            lemma_member_insert(members@, node_id, text);
            let next = info_entries(all.take(i + 1), node_ids@);
            assert(next.drop_last() =~= info_entries(all.take(i as int), node_ids@));
            assert(next.last() == (node_id, text@));
        }
        members.insert(node_id, text);
        i = i + 1;
    }
    assert(all.take(i as int) =~= all);
    members
}

/// Is the recorded address of a desired member wrong or missing?
pub open spec fn misplaced(
    current: Map<u64, Seq<char>>,
    desired: Map<u64, Seq<char>>,
    id: u64,
) -> bool {
    &&& desired.contains_key(id)
    &&& desired[id].len() > 0
    &&& !(current.contains_key(id) && current[id] == desired[id])
}

/// Must the recorded addresses be repaired?
pub open spec fn needs_repair(current: Map<u64, Seq<char>>, desired: Map<u64, Seq<char>>) -> bool {
    exists|id: u64| #[trigger] misplaced(current, desired, id)
}

/// Must the recorded addresses be repaired? A desired address that is empty
/// asks for nothing.
pub fn membership_addresses_need_repair(
    current: &VecMap<u64, String>,
    desired: &VecMap<u64, String>,
) -> (b: bool)
    requires
        current.wf(),
        desired.wf(),
    ensures
        b == needs_repair(member_texts(current@), member_texts(desired@)),
{
    let ghost cur = member_texts(current@);
    let ghost des = member_texts(desired@);
    let n: usize = desired.len();
    let mut i: usize = 0;
    while i < n
        invariant
            i <= n,
            n == desired.spec_entries().len(),
            current.wf(),
            desired.wf(),
            cur == member_texts(current@),
            des == member_texts(desired@),
            forall|k: int|
                0 <= k < i ==> !misplaced(cur, des, (#[trigger] desired.spec_entries()[k]).0@),
        decreases n - i,
    {
        let id: u64 = *desired.key_at(i);
        let want = desired.value_at(i);
        proof {
            desired.lemma_entries();
        }
        let empty: bool = want.as_str().unicode_len() == 0;
        let same: bool = match current.get(&id) {
            Some(have) => str_equal(have.as_str(), want.as_str()),
            None => false,
        };
        if !empty && !same {
            assert(misplaced(cur, des, id));
            return true;
        }
        i = i + 1;
    }
    proof {
        desired.lemma_entries();
        assert forall|id: u64| !#[trigger] misplaced(cur, des, id) by {
            if desired@.contains_key(id) {
                let k = choose|k: int|
                    0 <= k < desired.spec_entries().len() && (#[trigger] desired.spec_entries()[k]).0@
                        == id;
                assert(!misplaced(cur, des, desired.spec_entries()[k].0@));
            }
        }
    }
    false
}

/// A repaired membership needs no repair.
pub proof fn repair_settles(desired: Map<u64, Seq<char>>)
    ensures
        !needs_repair(desired, desired),
{
}

/// The first membership of a seed names every member with its address: none is
/// recorded without one.
pub proof fn initial_members_have_addresses(
    local: crate::address::PeerView,
    peers: Seq<crate::address::PeerView>,
    ids: Map<u128, u64>,
)
    ensures
        forall|id: u64| #[trigger]
            listed_members(initial_entries(local, peers, ids)).contains_key(id)
                ==> listed_members(initial_entries(local, peers, ids))[id].len() > 0,
        listed_members(initial_entries(local, peers, ids)).contains_key(ids[local.host_id]),
        forall|i: int|
            0 <= i < peers.len() ==> listed_members(
                initial_entries(local, peers, ids),
            ).contains_key(ids[(#[trigger] peers[i]).host_id]),
    decreases peers.len(),
{
    let entries = initial_entries(local, peers, ids);
    reveal_strlit(":");
    reveal_with_fuel(listed_members, 2);
    if peers.len() == 0 {
        assert(local.addr.text().len() > 0);
        assert(entries.drop_last() =~= Seq::<(u64, Seq<char>)>::empty());
        assert(entries.last() == (ids[local.host_id], local.addr.text()));
    } else {
        let head = peers.drop_last();
        assert(peers.last().addr.text().len() > 0);
        initial_members_have_addresses(local, head, ids);
        assert(entries.drop_last() =~= initial_entries(local, head, ids));
        assert(entries.last() == (ids[peers.last().host_id], peers.last().addr.text()));
        assert forall|i: int| 0 <= i < peers.len() implies listed_members(entries).contains_key(
            ids[(#[trigger] peers[i]).host_id],
        ) by {
            if i < head.len() {
                assert(head[i] == peers[i]);
            }
        }
    }
}

/// A peer is in the group of the data center that it announced, or in the local one where
/// it announced none, and in no other; and no group has anybody else.
pub proof fn peers_are_grouped_where_they_are(
    peers: Seq<crate::address::PeerView>,
    dcs: Map<u128, String>,
    local_dc: Seq<char>,
    dc: Seq<char>,
    peer: crate::address::PeerView,
)
    ensures
        dc_peers(peers, dcs, local_dc, dc).contains(peer) <==> peers.contains(peer) && (
        dcs.contains_key(peer.host_id) && dcs[peer.host_id]@ == dc || !dcs.contains_key(
            peer.host_id,
        ) && dc == local_dc),
        peers.no_duplicates() ==> dc_peers(peers, dcs, local_dc, dc).no_duplicates(),
{
    let p = in_dc(dcs, local_dc, dc);
    let kept = peers.filter(p);
    if kept.contains(peer) {
        let k = choose|k: int| 0 <= k < kept.len() && kept[k] == peer;
        peers.lemma_filter_pred(p, k);
        crate::collections::lemma_filter_from(peers, p, k);
    }
    if peers.contains(peer) && p(peer) {
        let i = choose|i: int| 0 <= i < peers.len() && peers[i] == peer;
        peers.lemma_filter_contains(p, i);
    }
    if peers.no_duplicates() {
        crate::collections::lemma_filter_distinct(peers, p);
    }
}

/// The groups outside the local data center hold every peer that announced another one,
/// under its name, and nobody else.
pub proof fn other_data_centers_hold_their_peers(
    others: Map<Seq<char>, Vec<Peer>>,
    peers: Seq<crate::address::PeerView>,
    dcs: Map<u128, String>,
    local_dc: Seq<char>,
    i: int,
    dc: Seq<char>,
)
    requires
        groups_peers(others, peers, dcs, local_dc),
        0 <= i < peers.len(),
    ensures
        others.contains_key(dc) && crate::address::peer_views(others[dc]@).contains(peers[i]) <==> dc
            != local_dc && dcs.contains_key(peers[i].host_id) && dcs[peers[i].host_id]@ == dc,
        !others.contains_key(local_dc),
        others.contains_key(dc) ==> others[dc]@.len() > 0 && forall|k: int|
            0 <= k < others[dc]@.len() ==> peers.contains(
                #[trigger] crate::address::peer_views(others[dc]@)[k],
            ),
{
    assert(peers.contains(peers[i]));
    peers_are_grouped_where_they_are(peers, dcs, local_dc, dc, peers[i]);
    let kept = dc_peers(peers, dcs, local_dc, dc);
    if kept.contains(peers[i]) {
        assert(kept.len() > 0);
    }
    if others.contains_key(dc) {
        let v = crate::address::peer_views(others[dc]@);
        assert(v == kept);
        assert forall|k: int| 0 <= k < others[dc]@.len() implies peers.contains(#[trigger] v[k]) by {
            crate::collections::lemma_filter_from(peers, in_dc(dcs, local_dc, dc), k);
        }
    }
}

/// The records of a cluster are the local node's, as given, and one of every peer in order:
/// a serving node of the local data center and rack, at the name that it announced for
/// nodes or else at its address, with the address for clients that it announced.
pub proof fn records_describe_every_member(
    local: crate::raft::NodeInfoView,
    peers: Seq<crate::address::PeerView>,
    cql_broadcasts: Map<u128, String>,
    internode_broadcasts: Map<u128, String>,
    i: int,
)
    requires
        0 <= i < peers.len(),
    ensures
        ({
            let r = refresh_plan(local, peers, cql_broadcasts, internode_broadcasts);
            let h = peers[i].host_id;
            &&& r.len() == peers.len() + 1
            &&& r[0] == local
            &&& r[i + 1].host_id == h
            &&& internode_broadcasts.contains_key(h) ==> r[i + 1].addr == internode_broadcasts[h]@
            &&& !internode_broadcasts.contains_key(h) ==> r[i + 1].addr == peers[i].addr.host
                + ":"@ + crate::text::decimal_text(peers[i].addr.port as nat)
            &&& r[i + 1].data_center == local.data_center
            &&& r[i + 1].rack == local.rack
            &&& r[i + 1].state == NodeState::Normal
            &&& cql_broadcasts.contains_key(h) ==> r[i + 1].cql_broadcast == Some(
                cql_broadcasts[h]@,
            )
            &&& !cql_broadcasts.contains_key(h) ==> r[i + 1].cql_broadcast is None
        }),
{
}

/// The local node is recorded as a serving node with what is given of it, and a peer with
/// the data center and the rack that are given for it.
pub proof fn records_keep_what_is_given(
    host_id: u128,
    addr: Seq<char>,
    cql_broadcast: Option<Seq<char>>,
    data_center: Seq<char>,
    rack: Seq<char>,
    peer: crate::address::PeerView,
    cql_broadcasts: Map<u128, String>,
    internode_broadcasts: Map<u128, String>,
)
    ensures
        ({
            let n = local_record(host_id, addr, cql_broadcast, data_center, rack);
            &&& n.host_id == host_id
            &&& n.addr == addr
            &&& n.cql_broadcast == cql_broadcast
            &&& n.data_center == data_center
            &&& n.rack == rack
            &&& n.state == NodeState::Normal
        }),
        ({
            let n = peer_record(peer, data_center, rack, cql_broadcasts, internode_broadcasts);
            &&& n.host_id == peer.host_id
            &&& n.data_center == data_center
            &&& n.rack == rack
            &&& n.state == NodeState::Normal
            &&& n.addr == if internode_broadcasts.contains_key(peer.host_id) {
                internode_broadcasts[peer.host_id]@
            } else {
                peer.addr.text()
            }
            &&& n.cql_broadcast == if cql_broadcasts.contains_key(peer.host_id) {
                Some(cql_broadcasts[peer.host_id]@)
            } else {
                None
            }
        }),
{
}

/// A list of addresses has an entry for every id that is listed and for no other, and the
/// entry is the last one listed for that id.
pub proof fn last_listed_address_counts(entries: Seq<(u64, Seq<char>)>, id: u64, i: int)
    ensures
        listed_members(entries).contains_key(id) <==> exists|k: int|
            0 <= k < entries.len() && (#[trigger] entries[k]).0 == id,
        0 <= i < entries.len() && (forall|k: int|
            i < k < entries.len() ==> (#[trigger] entries[k]).0 != entries[i].0) ==> listed_members(
            entries,
        )[entries[i].0] == entries[i].1,
    decreases entries.len(),
{
    if entries.len() > 0 {
        let head = entries.drop_last();
        last_listed_address_counts(head, id, i);
        if listed_members(head).contains_key(id) {
            let k = choose|k: int| 0 <= k < head.len() && (#[trigger] head[k]).0 == id;
            assert(entries[k].0 == id);
        }
        if entries.last().0 == id {
            assert(entries[entries.len() - 1].0 == id);
        }
        if exists|k: int| 0 <= k < entries.len() && (#[trigger] entries[k]).0 == id {
            let k = choose|k: int| 0 <= k < entries.len() && (#[trigger] entries[k]).0 == id;
            if k < head.len() {
                assert(head[k].0 == id);
            }
        }
        if 0 <= i < head.len() && (forall|k: int|
            i < k < entries.len() ==> (#[trigger] entries[k]).0 != entries[i].0) {
            assert(entries[entries.len() - 1].0 != entries[i].0);
            assert forall|k: int| i < k < head.len() implies (#[trigger] head[k]).0 != head[i].0 by {
                assert(entries[k].0 != entries[i].0);
            }
        }
    }
}

/// Where hosts have distinct node ids, the first membership has every peer and the local
/// node under its own id, at its own address, and nobody else.
pub proof fn first_members_are_at_their_addresses(
    local: crate::address::PeerView,
    peers: Seq<crate::address::PeerView>,
    ids: Map<u128, u64>,
    i: int,
    id: u64,
)
    requires
        0 <= i < peers.len(),
        forall|k: int| 0 <= k < peers.len() ==> ids[(#[trigger] peers[k]).host_id] != ids[local.host_id],
        forall|k: int, m: int|
            0 <= k < m < peers.len() ==> ids[(#[trigger] peers[k]).host_id] != ids[(
            #[trigger] peers[m]).host_id],
    ensures
        ({
            let m = listed_members(initial_entries(local, peers, ids));
            &&& m[ids[local.host_id]] == local.addr.host + ":"@ + crate::text::decimal_text(
                local.addr.port as nat,
            )
            &&& m[ids[peers[i].host_id]] == peers[i].addr.host + ":"@ + crate::text::decimal_text(
                peers[i].addr.port as nat,
            )
            &&& m.contains_key(ids[local.host_id]) && m.contains_key(ids[peers[i].host_id])
            &&& m.contains_key(id) ==> id == ids[local.host_id] || exists|k: int|
                0 <= k < peers.len() && ids[(#[trigger] peers[k]).host_id] == id
        }),
{
    let e = initial_entries(local, peers, ids);
    assert(forall|k: int| 0 < k < e.len() ==> e[k].0 == ids[peers[k - 1].host_id]);
    last_listed_address_counts(e, ids[local.host_id], 0);
    last_listed_address_counts(e, ids[peers[i].host_id], i + 1);
    assert(e[0].0 == ids[local.host_id]);
    assert(e[i + 1].0 == ids[peers[i].host_id]);
    assert forall|k: int| i + 1 < k < e.len() implies (#[trigger] e[k]).0 != e[i + 1].0 by {
        assert(ids[peers[i].host_id] != ids[peers[k - 1].host_id]);
    }
    last_listed_address_counts(e, id, 0);
    if listed_members(e).contains_key(id) {
        let k = choose|k: int| 0 <= k < e.len() && (#[trigger] e[k]).0 == id;
        if k > 0 {
            assert(ids[peers[k - 1].host_id] == id);
        }
    }
}

/// Where hosts have distinct node ids, the membership that records give has the address of
/// every record under the id of its host, and nobody else.
pub proof fn recorded_members_are_at_their_addresses(
    nodes: Seq<crate::raft::NodeInfoView>,
    ids: Map<u128, u64>,
    i: int,
    id: u64,
)
    requires
        0 <= i < nodes.len(),
        forall|k: int, m: int|
            0 <= k < m < nodes.len() ==> ids[(#[trigger] nodes[k]).host_id] != ids[(
            #[trigger] nodes[m]).host_id],
    ensures
        ({
            let m = listed_members(info_entries(nodes, ids));
            &&& m.contains_key(ids[nodes[i].host_id])
            &&& m[ids[nodes[i].host_id]] == nodes[i].addr
            &&& m.contains_key(id) ==> exists|k: int|
                0 <= k < nodes.len() && ids[(#[trigger] nodes[k]).host_id] == id
        }),
{
    let e = info_entries(nodes, ids);
    last_listed_address_counts(e, ids[nodes[i].host_id], i);
    assert(e[i].0 == ids[nodes[i].host_id]);
    assert forall|k: int| i < k < e.len() implies (#[trigger] e[k]).0 != e[i].0 by {
        assert(ids[nodes[i].host_id] != ids[nodes[k].host_id]);
    }
    last_listed_address_counts(e, id, i);
    if listed_members(e).contains_key(id) {
        let k = choose|k: int| 0 <= k < e.len() && (#[trigger] e[k]).0 == id;
        assert(ids[nodes[k].host_id] == id);
    }
}

/// The recorded addresses must be repaired exactly where some member that is wanted at an
/// address is not recorded, or is recorded at another.
pub proof fn wrong_addresses_are_repaired(
    current: Map<u64, Seq<char>>,
    desired: Map<u64, Seq<char>>,
)
    ensures
        needs_repair(current, desired) <==> exists|id: u64| #[trigger]
            desired.contains_key(id) && desired[id].len() > 0 && (!current.contains_key(id)
                || current[id] != desired[id]),
{
    if exists|id: u64| #[trigger]
        desired.contains_key(id) && desired[id].len() > 0 && (!current.contains_key(id)
            || current[id] != desired[id]) {
        let id = choose|id: u64| #[trigger]
            desired.contains_key(id) && desired[id].len() > 0 && (!current.contains_key(id)
                || current[id] != desired[id]);
        assert(misplaced(current, desired, id));
    }
    if needs_repair(current, desired) {
        let id = choose|id: u64| #[trigger] misplaced(current, desired, id);
        assert(desired.contains_key(id));
    }
}

/// A node is recorded at the name that it announced, and else at the host and the port that
/// it connected from. What a map says of a host is what stands in it under its id.
pub proof fn announced_names_come_first(
    addr: crate::address::AddrView,
    name: Seq<char>,
    m: Map<u128, String>,
    host_id: u128,
)
    ensures
        recorded_addr(addr, Some(name)) == name,
        recorded_addr(addr, None) == addr.host + ":"@ + crate::text::decimal_text(addr.port as nat),
        m.contains_key(host_id) ==> announced(m, host_id) == Some(m[host_id]@),
        !m.contains_key(host_id) ==> announced(m, host_id) is None,
{
}

/// Addresses by node id are modelled under the same ids, each by what it says.
pub proof fn member_lists_are_modelled(m: Map<u64, String>, id: u64)
    ensures
        member_texts(m).contains_key(id) <==> m.contains_key(id),
        m.contains_key(id) ==> member_texts(m)[id] == m[id]@,
{
}

} // verus!
