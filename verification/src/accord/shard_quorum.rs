//! Per-shard quorums for transactions that span several shards.
//!
//! A transaction is durable only when a slow quorum of every shard has
//! acknowledged it, independently of the other shards: a total over all shards
//! could hide a shard in which only a minority has acknowledged.

use std::collections::HashMap;
use vstd::prelude::*;

use crate::collections::VecMap;
use crate::ordered::{insert_sorted_u128, sorted_distinct_u128, sorted_distinct_u64};

verus! {

/// Identifies a shard of a transaction.
pub type ShardId = u64;

/// Smallest number of acknowledgements that is a majority of `rf` replicas.
pub open spec fn spec_slow_quorum_size(rf: nat) -> nat {
    rf / 2 + 1
}

/// Smallest number of acknowledgements that is a majority of `rf` replicas.
pub fn slow_quorum_size(rf: usize) -> (q: usize)
    ensures
        q == spec_slow_quorum_size(rf as nat),
{
    rf / 2 + 1
}

/// The acknowledgements of one shard.
#[verifier::ext_equal]
pub struct ShardView {
    /// The shard's replicas.
    pub replicas: Set<u128>,
    /// Those that have acknowledged.
    pub acked: Set<u128>,
}

impl ShardView {
    /// A slow quorum of the replicas has acknowledged.
    pub open spec fn reached(self) -> bool {
        self.acked.len() >= spec_slow_quorum_size(self.replicas.len())
    }

    /// After an acknowledgement: it counts where `node` is a replica.
    pub open spec fn acked_by(self, node: u128) -> ShardView {
        if self.replicas.contains(node) {
            ShardView { acked: self.acked.insert(node), ..self }
        } else {
            self
        }
    }
}

struct ShardAcks {
    replicas: Vec<u128>,
    acked: Vec<u128>,
}

impl View for ShardAcks {
    type V = ShardView;

    closed spec fn view(&self) -> ShardView {
        ShardView { replicas: self.replicas@.to_set(), acked: self.acked@.to_set() }
    }
}

impl ShardAcks {
    spec fn wf(&self) -> bool {
        &&& crate::ordered::increasing_u128(self.replicas@)
        &&& crate::ordered::increasing_u128(self.acked@)
        &&& self@.acked.subset_of(self@.replicas)
    }

    fn is_replica(&self, node: u128) -> (b: bool)
        ensures
            b == self@.replicas.contains(node),
    {
        let mut i: usize = 0;
        while i < self.replicas.len()
            invariant
                i <= self.replicas.len(),
                forall|j: int| 0 <= j < i ==> self.replicas@[j] != node,
            decreases self.replicas.len() - i,
        {
            if self.replicas[i] == node {
                assert(self.replicas@.contains(node));
                return true;
            }
            i += 1;
        }
        false
    }

    fn has_quorum(&self) -> (b: bool)
        requires
            self.wf(),
        ensures
            b == self@.reached(),
    {
        proof {
            self.replicas@.unique_seq_to_set();
            self.acked@.unique_seq_to_set();
        }
        self.acked.len() >= slow_quorum_size(self.replicas.len())
    }
}

/// Tracks per-shard acknowledgements of a transaction.
pub struct ShardQuorum {
    shards: VecMap<ShardId, ShardAcks>,
}

impl View for ShardQuorum {
    type V = Map<ShardId, ShardView>;

    closed spec fn view(&self) -> Map<ShardId, ShardView> {
        self.shards@.map_values(|a: ShardAcks| a@)
    }
}

/// A tracker before any acknowledgement.
pub open spec fn untouched(participants: Map<ShardId, Vec<u128>>) -> Map<ShardId, ShardView> {
    participants.map_values(
        |r: Vec<u128>| ShardView { replicas: r@.to_set(), acked: Set::empty() },
    )
}

/// A tracker after an acknowledgement by `node`.
pub open spec fn after_ack(q: Map<ShardId, ShardView>, node: u128) -> Map<ShardId, ShardView> {
    q.map_values(|s: ShardView| s.acked_by(node))
}

/// A tracker after several acknowledgements, in order.
pub open spec fn after_acks(q: Map<ShardId, ShardView>, nodes: Seq<u128>) -> Map<ShardId, ShardView>
    decreases nodes.len(),
{
    if nodes.len() == 0 {
        q
    } else {
        after_ack(after_acks(q, nodes.drop_last()), nodes.last())
    }
}

/// Every shard has reached its quorum.
pub open spec fn every_shard_reached(q: Map<ShardId, ShardView>) -> bool {
    forall|id: ShardId| #[trigger] q.contains_key(id) ==> q[id].reached()
}

/// The shards that have not reached their quorum.
pub open spec fn unmet_shards(q: Map<ShardId, ShardView>) -> Set<ShardId> {
    Set::new(|id: ShardId| q.contains_key(id) && !q[id].reached())
}

impl ShardQuorum {
    /// In each shard only replicas have acknowledged.
    pub closed spec fn wf(&self) -> bool {
        &&& self.shards.wf()
        &&& forall|id: ShardId| #[trigger] self.shards@.contains_key(id) ==> self.shards@[id].wf()
    }

    /// A tracker for the given shards and their replicas.
    pub fn new(participants: &HashMap<ShardId, Vec<u128>>) -> (q: ShardQuorum)
        requires
            participants@.len() > 0,
            forall|id: ShardId| #[trigger]
                participants@.contains_key(id) ==> participants@[id]@.len() > 0,
        ensures
            q.wf(),
            q@ == untouched(participants@),
    {
        let ids = shard_ids(participants);
        let mut shards: VecMap<ShardId, ShardAcks> = VecMap::new();
        let mut i: usize = 0;
        while i < ids.len()
            invariant
                i <= ids.len(),
                shards.wf(),
                ids@.to_set() == participants@.dom(),
                crate::ordered::increasing_u64(ids@),
                shards@.dom() == ids@.take(i as int).to_set(),
                forall|id: ShardId| #[trigger]
                    shards@.contains_key(id) ==> shards@[id].wf() && participants@.contains_key(id)
                        && shards@[id]@ == untouched(participants@)[id],
            decreases ids.len() - i,
        {
            let id = ids[i];
            assert(participants@.contains_key(id)) by {
                assert(ids@.contains(id));
                assert(ids@.to_set().contains(id));
            }
            proof {
                assert(ids@.take(i + 1) =~= ids@.take(i as int).push(id));
                crate::accord::types::lemma_push_to_set(ids@.take(i as int), id);
            }
            match participants.get(&id) {
                Some(replicas) => {
                    let acks = ShardAcks {
                        replicas: sorted_distinct_u128(replicas.as_slice()),
                        acked: Vec::new(),
                    };
                    assert(acks@.acked =~= Set::empty());
                    assert(acks@ =~= untouched(participants@)[id]);
                    shards.insert(id, acks);
                },
                None => {},
            }
            i += 1;
        }
        let q = ShardQuorum { shards };
        proof {
            assert(ids@.take(ids@.len() as int) =~= ids@);
            assert(q@ =~= untouched(participants@));
        }
        q
    }

    /// Record an acknowledgement by `node`: it counts toward every shard that
    /// `node` is a replica of, once.
    pub fn record_node_ack(&mut self, node: u128)
        requires
            old(self).wf(),
        ensures
            final(self).wf(),
            final(self)@ == after_ack(old(self)@, node),
    {
        let ghost before = self.shards@;
        let ghost list = self.shards.spec_entries();
        let n: usize = self.shards.len();
        let mut i: usize = 0;
        proof {
            self.shards.lemma_entries();
        }
        while i < n
            invariant
                i <= n,
                n == list.len(),
                n == self.shards.spec_entries().len(),
                self.wf(),
                self.shards@.dom() == before.dom(),
                list == old(self).shards.spec_entries(),
                before == old(self).shards@,
                old(self).wf(),
                forall|j: int| 0 <= j < n ==> (#[trigger] self.shards.spec_entries()[j]).0 == list[j].0,
                forall|j: int|
                    0 <= j < i ==> (#[trigger] self.shards.spec_entries()[j]).1@
                        == list[j].1@.acked_by(node),
                forall|j: int| i <= j < n ==> (#[trigger] self.shards.spec_entries()[j]) == list[j],
            decreases n - i,
        {
            proof {
                self.shards.lemma_entries();
                old(self).shards.lemma_entries();
            }
            let ghost pre = self.shards;
            let ghost k = self.shards.spec_entries()[i as int].0;
            assert(self.shards@.contains_key(self.shards.spec_entries()[i as int].0@));
            if self.shards.value_at(i).is_replica(node) {
                let acks = self.shards.value_mut(i);
                insert_sorted_u128(&mut acks.acked, node);
                assert(self.shards@.dom() =~= pre@.dom());
                assert(self.shards.spec_entries()[i as int].1@ =~= list[i as int].1@.acked_by(node));
            }
            i += 1;
        }
        proof {
            self.shards.lemma_entries();
            old(self).shards.lemma_entries();
            assert forall|id: ShardId| #[trigger] self@.contains_key(id) implies self@[id]
                == after_ack(old(self)@, node)[id] by {
                assert(self.shards@.contains_key(id));
                let j = choose|j: int|
                    0 <= j < self.shards.spec_entries().len() && (
                    #[trigger] self.shards.spec_entries()[j]).0@ == id;
                assert(self.shards.spec_entries()[j].1 == self.shards@[id]);
                assert(old(self).shards.spec_entries()[j].0@ == id);
                assert(old(self).shards@[id] == list[j].1);
            }
            assert(self@ =~= after_ack(old(self)@, node));
        }
    }

    /// Whether every shard has independently reached its slow quorum.
    pub fn all_reached(&self) -> (b: bool)
        requires
            self.wf(),
        ensures
            b == every_shard_reached(self@),
    {
        let u = self.unmet();
        proof {
            if u@.len() > 0 {
                assert(u@.contains(u@[0]));
                assert(unmet_shards(self@).contains(u@[0]));
            } else {
                assert forall|id: ShardId| #[trigger] self@.contains_key(id) implies self@[id].reached() by {
                    if !self@[id].reached() {
                        assert(unmet_shards(self@).contains(id));
                        assert(u@.contains(id));
                    }
                }
            }
        }
        u.len() == 0
    }

    /// The shards that have not reached their quorum, in increasing order.
    pub fn unmet(&self) -> (out: Vec<ShardId>)
        requires
            self.wf(),
        ensures
            crate::ordered::increasing_u64(out@),
            out@.to_set() == unmet_shards(self@),
    {
        let mut out: Vec<ShardId> = Vec::new();
        let n: usize = self.shards.len();
        let mut i: usize = 0;
        proof {
            self.shards.lemma_entries();
        }
        while i < n
            invariant
                self.wf(),
                i <= n,
                n == self.shards.spec_entries().len(),
                crate::ordered::increasing_u64(out@),
                forall|id: ShardId| #[trigger]
                    out@.to_set().contains(id) <==> exists|j: int|
                        0 <= j < i && (#[trigger] self.shards.spec_entries()[j]).0 == id
                            && !self.shards.spec_entries()[j].1@.reached(),
            decreases n - i,
        {
            proof {
                self.shards.lemma_entries();
            }
            let ghost before = out@.to_set();
            assert(self.shards@.contains_key(self.shards.spec_entries()[i as int].0@));
            let met: bool = self.shards.value_at(i).has_quorum();
            let id = *self.shards.key_at(i);
            if !met {
                crate::ordered::insert_sorted_u64(&mut out, id);
            }
            assert forall|x: ShardId| #[trigger] out@.to_set().contains(x) <==> exists|j: int|
                0 <= j < i + 1 && (#[trigger] self.shards.spec_entries()[j]).0 == x
                    && !self.shards.spec_entries()[j].1@.reached() by {
                if before.contains(x) {
                    let j = choose|j: int|
                        0 <= j < i && (#[trigger] self.shards.spec_entries()[j]).0 == x
                            && !self.shards.spec_entries()[j].1@.reached();
                    assert(self.shards.spec_entries()[j].0 == x);
                }
                if !met && x == id {
                    assert(self.shards.spec_entries()[i as int].0 == x);
                }
            }
            i += 1;
        }
        proof {
            self.shards.lemma_entries();
            assert forall|id: ShardId| out@.to_set().contains(id) == unmet_shards(self@).contains(id) by {
                if out@.to_set().contains(id) {
                    let j = choose|j: int|
                        0 <= j < n && (#[trigger] self.shards.spec_entries()[j]).0 == id
                            && !self.shards.spec_entries()[j].1@.reached();
                    assert(self.shards.spec_entries()[j].0@ == id);
                }
                if unmet_shards(self@).contains(id) {
                    assert(self.shards@.contains_key(id));
                    let j = choose|j: int|
                        0 <= j < self.shards.spec_entries().len() && (
                        #[trigger] self.shards.spec_entries()[j]).0@ == id;
                    assert(self.shards.spec_entries()[j].0 == id);
                }
            }
            assert(out@.to_set() =~= unmet_shards(self@));
        }
        out
    }
}

/// The shard ids of a participant map, in increasing order.
fn shard_ids(participants: &HashMap<ShardId, Vec<u128>>) -> (ids: Vec<ShardId>)
    ensures
        crate::ordered::increasing_u64(ids@),
        ids@.to_set() == participants@.dom(),
{
    let mut ids: Vec<ShardId> = Vec::new();
    let ghost all = vstd::std_specs::iter::IteratorSpec::remaining(
        &vstd::std_specs::hash::spec_keys_iter(participants),
    );
    for id in it: participants.keys()
        invariant
            it.seq() == all,
            ids@ == all.take(it.index()).unref(),
    {
        ids.push(*id);
        assert(ids@ =~= all.take(it.index() + 1).unref());
    }
    assert(all.take(all.len() as int) =~= all);
    sorted_distinct_u64(ids.as_slice())
}

/// Acknowledgements accumulate per shard: after any of them, in any order and
/// with repetitions, a shard has been acknowledged by exactly those of its
/// replicas that are among the senders.
pub proof fn acks_accumulate_per_shard(q: Map<ShardId, ShardView>, nodes: Seq<u128>, id: ShardId)
    requires
        q.contains_key(id),
        q[id].acked == Set::<u128>::empty(),
    ensures
        after_acks(q, nodes).contains_key(id),
        after_acks(q, nodes)[id].replicas == q[id].replicas,
        after_acks(q, nodes)[id].acked == q[id].replicas.intersect(nodes.to_set()),
    decreases nodes.len(),
{
    if nodes.len() == 0 {
        assert(q[id].replicas.intersect(nodes.to_set()) =~= Set::<u128>::empty());
    } else {
        let init = nodes.drop_last();
        acks_accumulate_per_shard(q, init, id);
        assert(nodes =~= init.push(nodes.last()));
        crate::accord::types::lemma_push_to_set(init, nodes.last());
        assert(after_acks(q, nodes)[id].acked =~= q[id].replicas.intersect(nodes.to_set()));
    }
}

/// A repeated acknowledgement changes nothing, and the order of two does not
/// matter.
pub proof fn acks_are_idempotent_and_commute(q: Map<ShardId, ShardView>, a: u128, b: u128)
    ensures
        after_ack(after_ack(q, a), a) == after_ack(q, a),
        after_ack(after_ack(q, a), b) == after_ack(after_ack(q, b), a),
{
    assert forall|id: ShardId| q.contains_key(id) implies #[trigger] q[id].acked_by(a).acked_by(b)
        == q[id].acked_by(b).acked_by(a) by {
        assert(q[id].acked_by(a).acked_by(b) =~= q[id].acked_by(b).acked_by(a));
    }
    assert forall|id: ShardId| q.contains_key(id) implies #[trigger] q[id].acked_by(a).acked_by(a)
        == q[id].acked_by(a) by {
        assert(q[id].acked_by(a).acked_by(a) =~= q[id].acked_by(a));
    }
    assert(after_ack(after_ack(q, a), a) =~= after_ack(q, a));
    assert(after_ack(after_ack(q, a), b) =~= after_ack(after_ack(q, b), a));
}

/// An acknowledgement by a node that is a replica of no shard is ignored.
pub proof fn stray_acks_are_ignored(q: Map<ShardId, ShardView>, node: u128)
    requires
        forall|id: ShardId| #[trigger] q.contains_key(id) ==> !q[id].replicas.contains(node),
    ensures
        after_ack(q, node) == q,
{
    assert(after_ack(q, node) =~= q);
}

/// Further acknowledgements never undo a quorum.
pub proof fn quorums_are_kept(q: Map<ShardId, ShardView>, node: u128)
    requires
        every_shard_reached(q),
        forall|id: ShardId| #[trigger] q.contains_key(id) ==> q[id].acked.finite(),
    ensures
        every_shard_reached(after_ack(q, node)),
{
}

/// No shard is unmet exactly when every shard has reached its quorum; one shard
/// below its quorum is enough to hold back the transaction.
pub proof fn one_unmet_shard_blocks(q: Map<ShardId, ShardView>, id: ShardId)
    ensures
        unmet_shards(q) == Set::<ShardId>::empty() <==> every_shard_reached(q),
        q.contains_key(id) && !q[id].reached() ==> !every_shard_reached(q),
{
    if every_shard_reached(q) {
        assert(unmet_shards(q) =~= Set::<ShardId>::empty());
    }
    if unmet_shards(q) == Set::<ShardId>::empty() {
        assert forall|x: ShardId| #[trigger] q.contains_key(x) implies q[x].reached() by {
            assert(!unmet_shards(q).contains(x));
        }
    }
}

/// Any two slow quorums of one shard have a replica in common.
pub proof fn slow_quorums_intersect(replicas: Set<u128>, a: Set<u128>, b: Set<u128>) -> (common: u128)
    requires
        replicas.finite(),
        a.subset_of(replicas),
        b.subset_of(replicas),
        a.len() >= spec_slow_quorum_size(replicas.len()),
        b.len() >= spec_slow_quorum_size(replicas.len()),
    ensures
        a.contains(common) && b.contains(common),
{
    vstd::set_lib::lemma_len_subset(a, replicas);
    vstd::set_lib::lemma_len_subset(b, replicas);
    if a.disjoint(b) {
        vstd::set_lib::lemma_set_disjoint_lens(a, b);
        vstd::set_lib::lemma_len_subset(a.union(b), replicas);
        assert(a.len() + b.len() <= replicas.len());
        assert(false);
    }
    choose|x: u128| a.contains(x) && b.contains(x)
}

/// Lexicographic order on lists: at the first difference the smaller value
/// decides, and a proper prefix is smaller.
pub open spec fn list_less(a: Seq<u128>, b: Seq<u128>) -> bool
    decreases a.len(),
{
    if b.len() == 0 {
        false
    } else if a.len() == 0 {
        true
    } else if a[0] != b[0] {
        a[0] < b[0]
    } else {
        list_less(a.drop_first(), b.drop_first())
    }
}

/// The order on lists is a strict total order.
pub proof fn list_order_is_total(a: Seq<u128>, b: Seq<u128>, c: Seq<u128>)
    ensures
        !list_less(a, a),
        list_less(a, b) && list_less(b, c) ==> list_less(a, c),
        list_less(a, b) || list_less(b, a) || a == b,
        !(list_less(a, b) && list_less(b, a)),
    decreases a.len() + b.len() + c.len(),
{
    if a.len() > 0 && b.len() > 0 && c.len() > 0 {
        list_order_is_total(a.drop_first(), b.drop_first(), c.drop_first());
        if a[0] == b[0] && a.drop_first() == b.drop_first() {
            assert(a =~= seq![a[0]] + a.drop_first());
            assert(b =~= seq![b[0]] + b.drop_first());
        }
    } else if a.len() > 0 && b.len() > 0 {
        list_order_is_total(a.drop_first(), b.drop_first(), c);
        if a[0] == b[0] && a.drop_first() == b.drop_first() {
            assert(a =~= seq![a[0]] + a.drop_first());
            assert(b =~= seq![b[0]] + b.drop_first());
        }
    } else if a.len() > 0 {
        list_order_is_total(a.drop_first(), b, if c.len() > 0 { c.drop_first() } else { c });
    } else {
        if b.len() == 0 {
            assert(a =~= b);
        }
    }
}

/// Whether list `a` is before list `b`.
fn is_list_less(a: &Vec<u128>, b: &Vec<u128>) -> (r: bool)
    ensures
        r == list_less(a@, b@),
{
    let mut i: usize = 0;
    assert(a@.skip(0) =~= a@);
    assert(b@.skip(0) =~= b@);
    while i < a.len() && i < b.len() && a[i] == b[i]
        invariant
            i <= a.len(),
            i <= b.len(),
            list_less(a@, b@) == list_less(a@.skip(i as int), b@.skip(i as int)),
        decreases a.len() - i,
    {
        assert(a@.skip(i as int).drop_first() =~= a@.skip(i + 1));
        assert(b@.skip(i as int).drop_first() =~= b@.skip(i + 1));
        i += 1;
    }
    if i >= b.len() {
        return false;
    }
    if i >= a.len() {
        return true;
    }
    a[i] < b[i]
}

/// Whether two lists are equal.
fn is_list_equal(a: &Vec<u128>, b: &Vec<u128>) -> (r: bool)
    ensures
        r == (a@ == b@),
{
    if a.len() != b.len() {
        return false;
    }
    let mut i: usize = 0;
    while i < a.len()
        invariant
            i <= a.len(),
            a.len() == b.len(),
            forall|j: int| 0 <= j < i ==> a@[j] == b@[j],
        decreases a.len() - i,
    {
        if a[i] != b[i] {
            return false;
        }
        i += 1;
    }
    assert(a@ =~= b@);
    true
}

fn copy_list(a: &Vec<u128>) -> (r: Vec<u128>)
    ensures
        r@ == a@,
{
    let mut r: Vec<u128> = Vec::new();
    let mut i: usize = 0;
    while i < a.len()
        invariant
            i <= a.len(),
            r@ == a@.take(i as int),
        decreases a.len() - i,
    {
        r.push(a[i]);
        assert(r@ =~= a@.take(i + 1));
        i += 1;
    }
    assert(r@ =~= a@);
    r
}

/// The participants of a transaction: which shards its keys fall into, and the
/// replicas of each shard.
#[derive(Debug, PartialEq, Eq)]
pub struct ParticipantSet {
    /// Replicas of each shard, increasing.
    pub shards: HashMap<ShardId, Vec<u128>>,
    /// For each key, by position, the shard that owns it.
    pub key_shard: Vec<ShardId>,
}

/// `shards` and `key_shard` lay out keys with the given replica sets: shards are
/// numbered from zero by their replica lists in lexicographic order, each list is
/// increasing, each key falls into the shard with its own replicas, and there is
/// no shard without a key.
pub open spec fn lays_out(
    shards: Map<ShardId, Seq<u128>>,
    key_shard: Seq<ShardId>,
    sets: Seq<Set<u128>>,
) -> bool {
    &&& key_shard.len() == sets.len()
    &&& forall|id: ShardId| #[trigger] shards.contains_key(id) <==> id < shards.len()
    &&& shards.dom().finite()
    &&& forall|id: ShardId| #[trigger]
        shards.contains_key(id) ==> crate::ordered::increasing_u128(shards[id])
    &&& forall|a: ShardId, b: ShardId|
        #![trigger shards[a], shards[b]]
        a < b && shards.contains_key(a) && shards.contains_key(b) ==> list_less(shards[a], shards[b])
    &&& forall|k: int|
        #![trigger key_shard[k]]
        0 <= k < sets.len() ==> shards.contains_key(key_shard[k]) && shards[key_shard[k]].to_set()
            == sets[k]
    &&& forall|id: ShardId| #[trigger]
        shards.contains_key(id) ==> exists|k: int| 0 <= k < sets.len() && #[trigger] key_shard[k] == id
}

/// The replica sets of a list of replica lists.
pub open spec fn replica_sets(per_key: Seq<Vec<u128>>) -> Seq<Set<u128>> {
    per_key.map_values(|r: Vec<u128>| r@.to_set())
}

/// `replicas_of` may answer `r` for `key`.
pub open spec fn resolves<F: Fn(&[u8]) -> Vec<u128>>(
    replicas_of: F,
    key: Seq<u8>,
    r: Vec<u128>,
) -> bool {
    exists|k: &[u8]| k@ == key && #[trigger] call_ensures(replicas_of, (k,), r)
}

impl ParticipantSet {
    /// The shards as a mathematical map.
    pub open spec fn shard_lists(&self) -> Map<ShardId, Seq<u128>> {
        self.shards@.map_values(|r: Vec<u128>| r@)
    }

    /// There is a shard, and no shard is without replicas.
    pub open spec fn seeds_quorum(&self) -> bool {
        &&& self.shards@.len() > 0
        &&& forall|id: ShardId| #[trigger]
            self.shards@.contains_key(id) ==> self.shards@[id]@.len() > 0
    }

    /// The participants for keys whose replicas have been resolved, by position.
    pub fn from_replicas(per_key: &Vec<Vec<u128>>) -> (ps: ParticipantSet)
        requires
            per_key@.len() > 0,
            forall|i: int| 0 <= i < per_key@.len() ==> (#[trigger] per_key@[i])@.len() > 0,
        ensures
            lays_out(ps.shard_lists(), ps.key_shard@, replica_sets(per_key@)),
            ps.seeds_quorum(),
    {
        let (canonical, distinct) = canonical_replicas(per_key);
        let mut shards: HashMap<ShardId, Vec<u128>> = HashMap::new();
        let mut i: usize = 0;
        while i < distinct.len()
            invariant
                i <= distinct.len(),
                forall|id: ShardId| #[trigger] shards@.contains_key(id) <==> id < i,
                forall|id: ShardId| #[trigger]
                    shards@.contains_key(id) ==> shards@[id]@ == distinct@[id as int]@,
            decreases distinct.len() - i,
        {
            shards.insert(i as u64, copy_list(&distinct[i]));
            i += 1;
        }
        let mut key_shard: Vec<ShardId> = Vec::new();
        let mut k: usize = 0;
        while k < canonical.len()
            invariant
                k <= canonical.len(),
                key_shard@.len() == k,
                sorted_lists(distinct@),
                forall|c: int|
                    0 <= c < canonical@.len() ==> listed(distinct@, (#[trigger] canonical@[c])@),
                forall|c: int|
                    0 <= c < k ==> (#[trigger] key_shard@[c]) < distinct@.len()
                        && distinct@[key_shard@[c] as int]@ == canonical@[c]@,
            decreases canonical.len() - k,
        {
            let n: usize = list_position(&distinct, &canonical[k]);
            key_shard.push(n as u64);
            k += 1;
        }
        let ps = ParticipantSet { shards, key_shard };
        proof {
            let lists = ps.shard_lists();
            let sets = replica_sets(per_key@);
            let n = distinct@.len();
            assert forall|id: ShardId| #[trigger] lists.contains_key(id) <==> id < n by {
                assert(ps.shards@.contains_key(id) <==> id < n);
            }
            let ids = Seq::new(n, |i: int| i as u64);
            assert(lists.dom() =~= ids.to_set()) by {
                assert forall|id: ShardId| lists.dom().contains(id) implies ids.to_set().contains(id) by {
                    assert(lists.contains_key(id));
                    assert(ids[id as int] == id);
                }
                assert forall|id: ShardId| ids.to_set().contains(id) implies lists.dom().contains(id) by {
                    let j = choose|j: int| 0 <= j < ids.len() && ids[j] == id;
                    assert(lists.contains_key(id));
                }
            }
            ids.unique_seq_to_set();
            vstd::seq_lib::seq_to_set_is_finite(ids);
            assert(lists.len() == n);
            assert forall|id: ShardId| #[trigger] lists.contains_key(id) implies exists|k: int|
                0 <= k < sets.len() && #[trigger] ps.key_shard@[k] == id by {
                let d = distinct@[id as int]@;
                let c = choose|c: int| 0 <= c < canonical@.len() && (#[trigger] canonical@[c])@ == d;
                let other = ps.key_shard@[c] as int;
                assert(distinct@[other]@ == d);
                list_order_is_total(d, d, d);
                if other != id {
                    if other < id {
                        assert(list_less(distinct@[other]@, distinct@[id as int]@));
                    } else {
                        assert(list_less(distinct@[id as int]@, distinct@[other]@));
                    }
                }
                assert(ps.key_shard@[c] == id);
            }
            assert forall|a: ShardId, b: ShardId|
                #![trigger lists[a], lists[b]]
                a < b && lists.contains_key(a) && lists.contains_key(b) implies list_less(
                lists[a],
                lists[b],
            ) by {
                assert(list_less(distinct@[a as int]@, distinct@[b as int]@));
            }
            assert(ps.shards@.dom() =~= lists.dom());
            assert(lists.contains_key(ps.key_shard@[0]));
            assert forall|id: ShardId| #[trigger] ps.shards@.contains_key(id) implies ps.shards@[id]@.len()
                > 0 by {
                assert(lists.contains_key(id));
                let k = choose|k: int| 0 <= k < sets.len() && #[trigger] ps.key_shard@[k] == id;
                assert(lists[ps.key_shard@[k]].to_set() == sets[k]);
                assert(sets[k].contains(per_key@[k]@[0])) by {
                    assert(per_key@[k]@.contains(per_key@[k]@[0]));
                }
                assert(lists[id].to_set().contains(per_key@[k]@[0]));
            }
        }
        ps
    }

    /// The participants of a transaction that writes `keys`, with
    /// `replicas_of(key)` naming the replicas of a key.
    pub fn build<F: Fn(&[u8]) -> Vec<u128>>(keys: &[Vec<u8>], replicas_of: F) -> (ps: ParticipantSet)
        requires
            keys@.len() > 0,
            forall|i: int| #![trigger keys@[i]] 0 <= i < keys@.len() ==> forall|k: &[u8]|
                k@ == keys@[i]@ ==> #[trigger] call_requires(replicas_of, (k,)),
            forall|i: int, k: &[u8], r: Vec<u128>|
                #![trigger keys@[i], call_ensures(replicas_of, (k,), r)]
                0 <= i < keys@.len() && k@ == keys@[i]@ && call_ensures(replicas_of, (k,), r)
                    ==> r@.len() > 0,
        ensures
            exists|per_key: Seq<Vec<u128>>|
                {
                    &&& per_key.len() == keys@.len()
                    &&& forall|i: int|
                        #![trigger per_key[i]]
                        0 <= i < keys@.len() ==> resolves(replicas_of, keys@[i]@, per_key[i])
                    &&& #[trigger] lays_out(ps.shard_lists(), ps.key_shard@, replica_sets(per_key))
                },
            ps.seeds_quorum(),
    {
        let mut per_key: Vec<Vec<u128>> = Vec::new();
        let mut i: usize = 0;
        while i < keys.len()
            invariant
                i <= keys.len(),
                per_key@.len() == i,
                forall|i: int| #![trigger keys@[i]] 0 <= i < keys@.len() ==> forall|k: &[u8]|
                    k@ == keys@[i]@ ==> #[trigger] call_requires(replicas_of, (k,)),
                forall|i: int, k: &[u8], r: Vec<u128>|
                    #![trigger keys@[i], call_ensures(replicas_of, (k,), r)]
                    0 <= i < keys@.len() && k@ == keys@[i]@ && call_ensures(replicas_of, (k,), r)
                        ==> r@.len() > 0,
                forall|j: int|
                    #![trigger per_key@[j]]
                    0 <= j < i ==> per_key@[j]@.len() > 0 && resolves(
                        replicas_of,
                        keys@[j]@,
                        per_key@[j],
                    ),
            decreases keys.len() - i,
        {
            let key: &[u8] = keys[i].as_slice();
            assert(key@ == keys@[i as int]@);
            let r = replicas_of(key);
            assert(resolves(replicas_of, keys@[i as int]@, r));
            per_key.push(r);
            i += 1;
        }
        let ps = ParticipantSet::from_replicas(&per_key);
        assert(lays_out(ps.shard_lists(), ps.key_shard@, replica_sets(per_key@)));
        ps
    }

    /// A quorum tracker for these participants.
    pub fn quorum(&self) -> (q: ShardQuorum)
        requires
            self.seeds_quorum(),
        ensures
            q.wf(),
            q@ == untouched(self.shards@),
    {
        ShardQuorum::new(&self.shards)
    }
}

/// Increasing in the order on lists.
spec fn sorted_lists(d: Seq<Vec<u128>>) -> bool {
    forall|i: int, j: int|
        #![trigger d[i], d[j]]
        0 <= i < j < d.len() ==> list_less(d[i]@, d[j]@)
}

/// The list occurs in `d`.
spec fn listed(d: Seq<Vec<u128>>, l: Seq<u128>) -> bool {
    exists|i: int| 0 <= i < d.len() && (#[trigger] d[i])@ == l
}

fn list_position(d: &Vec<Vec<u128>>, l: &Vec<u128>) -> (n: usize)
    requires
        listed(d@, l@),
    ensures
        n < d@.len(),
        d@[n as int]@ == l@,
{
    let mut n: usize = 0;
    while n < d.len()
        invariant
            n <= d.len(),
            listed(d@, l@),
            forall|j: int| 0 <= j < n ==> (#[trigger] d@[j])@ != l@,
        decreases d.len() - n,
    {
        if is_list_equal(&d[n], l) {
            return n;
        }
        n += 1;
    }
    assert(false);
    0
}

/// Add a list to an increasing list of lists, unless it occurs.
fn insert_list(d: &mut Vec<Vec<u128>>, l: Vec<u128>)
    requires
        sorted_lists(old(d)@),
    ensures
        sorted_lists(final(d)@),
        forall|x: Seq<u128>| #[trigger]
            listed(final(d)@, x) <==> listed(old(d)@, x) || x == l@,
        forall|p: int| 0 <= p < final(d)@.len() ==> (#[trigger] final(d)@[p])@ == l@ || exists|q: int|
            0 <= q < old(d)@.len() && (#[trigger] old(d)@[q])@ == final(d)@[p]@,
{
    let mut i: usize = 0;
    while i < d.len() && is_list_less(&d[i], &l)
        invariant
            *d == *old(d),
            i <= d.len(),
            forall|j: int| 0 <= j < i ==> list_less((#[trigger] d@[j])@, l@),
        decreases d.len() - i,
    {
        i += 1;
    }
    let ghost before = d@;
    if i < d.len() && is_list_equal(&d[i], &l) {
        assert(before[i as int]@ == l@);
        assert(listed(before, l@));
        return;
    }
    let ghost lv = l@;
    d.insert(i, l);
    proof {
        let after = d@;
        if i < before.len() {
            list_order_is_total(lv, before[i as int]@, lv);
            assert(list_less(lv, before[i as int]@));
        }
        assert forall|a: int, b: int|
            #![trigger after[a], after[b]]
            0 <= a < b < after.len() implies list_less(after[a]@, after[b]@) by {
            let a2 = if a < i { a } else { a - 1 };
            let b2 = if b < i { b } else { b - 1 };
            if a != i && b != i {
                assert(after[a] == before[a2] && after[b] == before[b2]);
            } else if a == i {
                assert(after[b] == before[b2]);
                if b2 > i {
                    assert(list_less(before[i as int]@, before[b2]@));
                    list_order_is_total(lv, before[i as int]@, before[b2]@);
                }
            } else {
                assert(after[a] == before[a2]);
            }
        }
        assert forall|x: Seq<u128>| #[trigger] listed(after, x) <==> listed(before, x) || x == lv by {
            if listed(after, x) && x != lv {
                let k = choose|k: int| 0 <= k < after.len() && (#[trigger] after[k])@ == x;
                let k2 = if k < i { k } else { k - 1 };
                assert(before[k2]@ == x);
            }
            if listed(before, x) {
                let k = choose|k: int| 0 <= k < before.len() && (#[trigger] before[k])@ == x;
                let k2 = if k < i { k } else { k + 1 };
                assert(after[k2]@ == x);
            }
            if x == lv {
                assert(after[i as int]@ == x);
            }
        }
        assert forall|p: int| 0 <= p < after.len() implies (#[trigger] after[p])@ == lv || exists|q: int|
            0 <= q < before.len() && (#[trigger] before[q])@ == after[p]@ by {
            if p != i {
                let q = if p < i { p } else { p - 1 };
                assert(before[q]@ == after[p]@);
            }
        }
    }
}

/// Each key's replicas in increasing order, and the distinct lists in order.
fn canonical_replicas(per_key: &Vec<Vec<u128>>) -> (r: (Vec<Vec<u128>>, Vec<Vec<u128>>))
    ensures
        r.0@.len() == per_key@.len(),
        forall|k: int|
            0 <= k < r.0@.len() ==> crate::ordered::increasing_u128((#[trigger] r.0@[k])@)
                && r.0@[k]@.to_set() == per_key@[k]@.to_set(),
        sorted_lists(r.1@),
        forall|k: int| 0 <= k < r.0@.len() ==> listed(r.1@, (#[trigger] r.0@[k])@),
        forall|d: int|
            0 <= d < r.1@.len() ==> crate::ordered::increasing_u128((#[trigger] r.1@[d])@)
                && listed(r.0@, r.1@[d]@),
{
    let mut canonical: Vec<Vec<u128>> = Vec::new();
    let mut distinct: Vec<Vec<u128>> = Vec::new();
    let mut i: usize = 0;
    while i < per_key.len()
        invariant
            i <= per_key.len(),
            canonical@.len() == i,
            forall|k: int|
                0 <= k < i ==> crate::ordered::increasing_u128((#[trigger] canonical@[k])@)
                    && canonical@[k]@.to_set() == per_key@[k]@.to_set(),
            sorted_lists(distinct@),
            forall|k: int| 0 <= k < i ==> listed(distinct@, (#[trigger] canonical@[k])@),
            forall|d: int|
                0 <= d < distinct@.len() ==> crate::ordered::increasing_u128(
                    (#[trigger] distinct@[d])@,
                ) && listed(canonical@, distinct@[d]@),
        decreases per_key.len() - i,
    {
        let list = sorted_distinct_u128(per_key[i].as_slice());
        let ghost c0 = canonical@;
        let ghost d0 = distinct@;
        insert_list(&mut distinct, copy_list(&list));
        canonical.push(list);
        proof {
            let c1 = canonical@;
            assert(c1[i as int]@ == list@);
            assert forall|d: int| 0 <= d < distinct@.len() implies crate::ordered::increasing_u128(
                (#[trigger] distinct@[d])@,
            ) && listed(c1, distinct@[d]@) by {
                if distinct@[d]@ == list@ {
                    assert(listed(c1, list@));
                } else {
                    let q = choose|q: int| 0 <= q < d0.len() && (#[trigger] d0[q])@ == distinct@[d]@;
                    assert(listed(c0, d0[q]@));
                    let k = choose|k: int| 0 <= k < c0.len() && (#[trigger] c0[k])@ == d0[q]@;
                    assert(c1[k]@ == distinct@[d]@);
                }
            }
            assert forall|k: int| 0 <= k < i + 1 implies listed(distinct@, (#[trigger] c1[k])@) by {
                if k < i {
                    assert(c1[k] == c0[k]);
                    assert(listed(d0, c0[k]@));
                }
            }
        }
        i += 1;
    }
    (canonical, distinct)
}

/// A shard of one layout occurs in the other.
proof fn lemma_same_list(
    s1: Map<ShardId, Seq<u128>>,
    k1: Seq<ShardId>,
    sets1: Seq<Set<u128>>,
    s2: Map<ShardId, Seq<u128>>,
    k2: Seq<ShardId>,
    sets2: Seq<Set<u128>>,
    id: ShardId,
) -> (other: ShardId)
    requires
        lays_out(s1, k1, sets1),
        lays_out(s2, k2, sets2),
        sets1.to_set() == sets2.to_set(),
        s1.contains_key(id),
    ensures
        s2.contains_key(other),
        s2[other] == s1[id],
{
    let k = choose|k: int| 0 <= k < sets1.len() && #[trigger] k1[k] == id;
    assert(sets1.to_set().contains(sets1[k]));
    let j = choose|j: int| 0 <= j < sets2.len() && sets2[j] == sets1[k];
    let other = k2[j];
    assert(s1[k1[k]].to_set() == sets1[k]);
    assert(s2[other].to_set() == sets2[j]);
    crate::ordered::increasing_u128_is_canonical(s1[id], s2[other]);
    other
}

/// Layouts of the same replica sets agree at every shard.
proof fn lemma_layouts_agree_at(
    s1: Map<ShardId, Seq<u128>>,
    k1: Seq<ShardId>,
    sets1: Seq<Set<u128>>,
    s2: Map<ShardId, Seq<u128>>,
    k2: Seq<ShardId>,
    sets2: Seq<Set<u128>>,
    id: ShardId,
)
    requires
        lays_out(s1, k1, sets1),
        lays_out(s2, k2, sets2),
        sets1.to_set() == sets2.to_set(),
        s1.contains_key(id),
    ensures
        s2.contains_key(id),
        s2[id] == s1[id],
    decreases id,
{
    let x = s1[id];
    list_order_is_total(x, x, x);
    let j = lemma_same_list(s1, k1, sets1, s2, k2, sets2, id);
    if j < id {
        assert(s1.contains_key(j)) by {
            assert(id < s1.len());
        }
        lemma_layouts_agree_at(s1, k1, sets1, s2, k2, sets2, j);
        assert(list_less(s1[j], s1[id]));
    } else if j > id {
        assert(s2.contains_key(id)) by {
            assert(j < s2.len());
        }
        assert(list_less(s2[id], s2[j]));
        let m = lemma_same_list(s2, k2, sets2, s1, k1, sets1, id);
        if m < id {
            lemma_layouts_agree_at(s1, k1, sets1, s2, k2, sets2, m);
            assert(list_less(s2[m], s2[id]));
            list_order_is_total(s2[id], s2[id], s2[id]);
        } else if m > id {
            assert(list_less(s1[id], s1[m]));
            list_order_is_total(s1[id], s2[id], s1[id]);
        }
    }
}

/// The shards do not depend on the order in which the keys are listed, nor on
/// how often: what counts is which replica sets occur. A key falls into the
/// shard of the same number in either listing.
pub proof fn layout_ignores_order_and_repetition(
    s1: Map<ShardId, Seq<u128>>,
    k1: Seq<ShardId>,
    sets1: Seq<Set<u128>>,
    s2: Map<ShardId, Seq<u128>>,
    k2: Seq<ShardId>,
    sets2: Seq<Set<u128>>,
)
    requires
        lays_out(s1, k1, sets1),
        lays_out(s2, k2, sets2),
        sets1.to_set() == sets2.to_set(),
    ensures
        s1 == s2,
        forall|i: int, j: int|
            #![trigger k1[i], k2[j]]
            0 <= i < sets1.len() && 0 <= j < sets2.len() && sets1[i] == sets2[j] ==> k1[i] == k2[j],
{
    assert forall|id: ShardId| s1.contains_key(id) implies s2.contains_key(id) && s2[id] == s1[id] by {
        lemma_layouts_agree_at(s1, k1, sets1, s2, k2, sets2, id);
    }
    assert forall|id: ShardId| s2.contains_key(id) implies s1.contains_key(id) && s2[id] == s1[id] by {
        lemma_layouts_agree_at(s2, k2, sets2, s1, k1, sets1, id);
    }
    assert(s1 =~= s2);
    assert forall|i: int, j: int|
        #![trigger k1[i], k2[j]]
        0 <= i < sets1.len() && 0 <= j < sets2.len() && sets1[i] == sets2[j] implies k1[i]
        == k2[j] by {
        let a = k1[i];
        let b = k2[j];
        assert(s1[a].to_set() == sets1[i]);
        assert(s2[b].to_set() == sets2[j]);
        crate::ordered::increasing_u128_is_canonical(s1[a], s1[b]);
        list_order_is_total(s1[a], s1[a], s1[a]);
        if a < b {
            assert(list_less(s1[a], s1[b]));
        } else if b < a {
            assert(list_less(s1[b], s1[a]));
        }
    }
}

/// The layout is a function of the keys' replica sets: shard numbers and lists
/// come out the same however the replicas were listed.
pub proof fn layout_is_deterministic(
    s1: Map<ShardId, Seq<u128>>,
    k1: Seq<ShardId>,
    s2: Map<ShardId, Seq<u128>>,
    k2: Seq<ShardId>,
    sets: Seq<Set<u128>>,
)
    requires
        lays_out(s1, k1, sets),
        lays_out(s2, k2, sets),
    ensures
        s1 == s2,
        k1 == k2,
{
    layout_ignores_order_and_repetition(s1, k1, sets, s2, k2, sets);
    assert forall|k: int| 0 <= k < sets.len() implies k1[k] == k2[k] by {
        assert(sets[k] == sets[k]);
    }
    assert(k1 =~= k2);
}

/// A transaction has its quorum exactly when, for each of its keys, a majority of
/// that key's own replicas has acknowledged.
pub proof fn every_key_needs_its_quorum(ps: ParticipantSet, sets: Seq<Set<u128>>, nodes: Seq<u128>)
    requires
        lays_out(ps.shard_lists(), ps.key_shard@, sets),
    ensures
        every_shard_reached(after_acks(untouched(ps.shards@), nodes)) <==> forall|k: int|
            0 <= k < sets.len() ==> (#[trigger] sets[k]).intersect(nodes.to_set()).len()
                >= spec_slow_quorum_size(sets[k].len()),
{
    let q = untouched(ps.shards@);
    let end = after_acks(q, nodes);
    let lists = ps.shard_lists();
    assert forall|k: int| 0 <= k < sets.len() implies {
        let id = #[trigger] ps.key_shard@[k];
        &&& end.contains_key(id)
        &&& end[id].reached() <==> sets[k].intersect(nodes.to_set()).len()
            >= spec_slow_quorum_size(sets[k].len())
    } by {
        let id = ps.key_shard@[k];
        assert(lists.contains_key(id) && lists[id].to_set() == sets[k]);
        assert(q.contains_key(id) && q[id].replicas == sets[k]);
        acks_accumulate_per_shard(q, nodes, id);
    }
    lemma_acks_keep_shards(q, nodes);
    if every_shard_reached(end) {
        assert forall|k: int| 0 <= k < sets.len() implies (#[trigger] sets[k]).intersect(
            nodes.to_set(),
        ).len() >= spec_slow_quorum_size(sets[k].len()) by {
            assert(end.contains_key(ps.key_shard@[k]));
        }
    } else {
        let id = choose|id: ShardId| #[trigger] end.contains_key(id) && !end[id].reached();
        assert(lists.contains_key(id));
        let k = choose|k: int| 0 <= k < sets.len() && #[trigger] ps.key_shard@[k] == id;
        assert(!(sets[k].intersect(nodes.to_set()).len() >= spec_slow_quorum_size(sets[k].len())));
    }
}

/// Acknowledgements add no shard.
proof fn lemma_acks_keep_shards(q: Map<ShardId, ShardView>, nodes: Seq<u128>)
    ensures
        after_acks(q, nodes).dom() == q.dom(),
    decreases nodes.len(),
{
    if nodes.len() > 0 {
        lemma_acks_keep_shards(q, nodes.drop_last());
        assert(after_acks(q, nodes).dom() =~= q.dom());
    }
}

/// Two keys share a shard exactly when they have the same replicas.
pub proof fn keys_share_shard_iff_same_replicas(
    shards: Map<ShardId, Seq<u128>>,
    key_shard: Seq<ShardId>,
    sets: Seq<Set<u128>>,
    a: int,
    b: int,
)
    requires
        lays_out(shards, key_shard, sets),
        0 <= a < sets.len(),
        0 <= b < sets.len(),
    ensures
        key_shard[a] == key_shard[b] <==> sets[a] == sets[b],
{
    let x = key_shard[a];
    let y = key_shard[b];
    assert(shards[x].to_set() == sets[a]);
    assert(shards[y].to_set() == sets[b]);
    if sets[a] == sets[b] {
        crate::ordered::increasing_u128_is_canonical(shards[x], shards[y]);
        list_order_is_total(shards[x], shards[x], shards[x]);
        if x < y {
            assert(list_less(shards[x], shards[y]));
        } else if y < x {
            assert(list_less(shards[y], shards[x]));
        }
    }
}

/// The quorum of a shard is the smallest majority of its replicas.
pub proof fn quorums_are_the_smallest_majority(rf: nat)
    ensures
        2 * spec_slow_quorum_size(rf) > rf,
        2 * (spec_slow_quorum_size(rf) - 1) <= rf,
{
}

/// A shard has its quorum exactly where more than half of its replicas have acknowledged.
/// An acknowledgement counts for the shards that the node is a replica of, and changes
/// nothing else.
pub proof fn replicas_acknowledge_their_shards(
    q: Map<ShardId, ShardView>,
    id: ShardId,
    node: u128,
    other: u128,
)
    requires
        q.contains_key(id),
    ensures
        q[id].reached() <==> 2 * q[id].acked.len() > q[id].replicas.len(),
        ({
            let after = after_ack(q, node);
            &&& after.contains_key(id)
            &&& after[id].replicas == q[id].replicas
            &&& after[id].acked.contains(other) <==> q[id].acked.contains(other) || (other == node
                && q[id].replicas.contains(node))
        }),
        forall|x: ShardId| #[trigger]
            after_ack(q, node).contains_key(x) <==> q.contains_key(x),
{
}

/// A tracker begins with every shard of the participants, its own replicas and no
/// acknowledgement.
pub proof fn trackers_begin_without_acknowledgements(
    participants: Map<ShardId, Vec<u128>>,
    id: ShardId,
    node: u128,
)
    ensures
        untouched(participants).contains_key(id) <==> participants.contains_key(id),
        participants.contains_key(id) ==> {
            &&& untouched(participants)[id].replicas.contains(node) <==> participants[id]@.contains(
                node,
            )
            &&& !untouched(participants)[id].acked.contains(node)
            &&& untouched(participants)[id].acked.len() == 0
        },
{
}

/// The shards that hold a transaction back are those of which at most half of the replicas
/// have acknowledged.
pub proof fn unmet_shards_lack_a_majority(q: Map<ShardId, ShardView>, id: ShardId)
    ensures
        unmet_shards(q).contains(id) <==> q.contains_key(id) && 2 * q[id].acked.len()
            <= q[id].replicas.len(),
        every_shard_reached(q) <==> forall|x: ShardId| #[trigger]
            q.contains_key(x) ==> 2 * q[x].acked.len() > q[x].replicas.len(),
{
}

/// Lists are ordered by their first difference, and a list that another goes on from comes
/// before it.
pub proof fn first_differences_order_lists(
    common: Seq<u128>,
    x: u128,
    a: Seq<u128>,
    y: u128,
    b: Seq<u128>,
)
    ensures
        x < y ==> list_less(common + seq![x] + a, common + seq![y] + b),
        list_less(common, common + seq![y] + b),
        !list_less(common + seq![y] + b, common),
    decreases common.len(),
{
    let l = common + seq![x] + a;
    let r = common + seq![y] + b;
    if common.len() > 0 {
        let rest = common.drop_first();
        first_differences_order_lists(rest, x, a, y, b);
        assert(l.drop_first() =~= rest + seq![x] + a);
        assert(r.drop_first() =~= rest + seq![y] + b);
        assert(l[0] == common[0] && r[0] == common[0]);
    } else {
        assert(l[0] == x && r[0] == y);
    }
}

/// A layout puts each key into the shard that lists exactly its replicas, in increasing
/// order. Shards are numbered from zero without a gap, in the order of their lists, and each
/// has a key.
pub proof fn layouts_follow_the_replicas(
    shards: Map<ShardId, Seq<u128>>,
    key_shard: Seq<ShardId>,
    sets: Seq<Set<u128>>,
    k: int,
    id: ShardId,
    node: u128,
)
    requires
        lays_out(shards, key_shard, sets),
        0 <= k < sets.len(),
    ensures
        key_shard.len() == sets.len(),
        shards.contains_key(key_shard[k]),
        shards[key_shard[k]].contains(node) <==> sets[k].contains(node),
        shards.contains_key(id) <==> id < shards.len(),
        shards.contains_key(id) ==> forall|i: int, j: int|
            0 <= i < j < shards[id].len() ==> shards[id][i] < shards[id][j],
        shards.contains_key(id) ==> exists|m: int| 0 <= m < sets.len() && #[trigger] key_shard[m] == id,
        id > 0 && shards.contains_key(id) ==> list_less(shards[(id - 1) as u64], shards[id]),
{
    assert(shards[key_shard[k]].to_set() == sets[k]);
    assert(shards[key_shard[k]].to_set().contains(node) <==> sets[k].contains(node));
    if id > 0 && shards.contains_key(id) {
        assert(shards.contains_key((id - 1) as u64));
    }
}

/// The replica sets of a list are those of its items, by position.
pub proof fn replica_sets_are_by_position(per_key: Seq<Vec<u128>>, i: int, node: u128)
    requires
        0 <= i < per_key.len(),
    ensures
        replica_sets(per_key).len() == per_key.len(),
        replica_sets(per_key)[i].contains(node) <==> per_key[i]@.contains(node),
{
}

/// Participants that can be waited for have a shard, and each of their shards has a replica.
pub proof fn participants_have_replicas(ps: ParticipantSet, id: ShardId)
    requires
        ps.seeds_quorum(),
    ensures
        ps.shards@.len() > 0,
        ps.shards@.contains_key(id) ==> ps.shards@[id]@.len() > 0,
{
}

/// A key is resolved to a list only where that is an answer to a question for that very key.
pub proof fn keys_are_resolved_by_asking<F: Fn(&[u8]) -> Vec<u128>>(
    replicas_of: F,
    key: Seq<u8>,
    r: Vec<u128>,
)
    requires
        resolves(replicas_of, key, r),
    ensures
        exists|k: &[u8]| k@ == key && #[trigger] call_ensures(replicas_of, (k,), r),
{
}

} // verus!
