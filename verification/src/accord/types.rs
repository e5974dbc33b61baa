//! Timestamps, ballots and per-transaction consensus state.

use core::cmp::Ordering;
use vstd::prelude::*;

use crate::collections::Lookup;

verus! {

/// A hybrid logical timestamp, ordered by epoch, time, sequence and node.
#[derive(Clone, Copy, Debug, PartialEq, Eq, Structural, Ord, Hash)]
pub struct Timestamp {
    /// Configuration epoch.
    pub epoch: u64,
    /// Wall-clock microseconds.
    pub time: u64,
    /// Tie breaker within one microsecond.
    pub seq: u32,
    /// Node that created the timestamp.
    pub node: u64,
}

impl Timestamp {
    /// Strict lexicographic order.
    pub open spec fn precedes(self, other: Timestamp) -> bool {
        ||| self.epoch < other.epoch
        ||| self.epoch == other.epoch && self.time < other.time
        ||| self.epoch == other.epoch && self.time == other.time && self.seq < other.seq
        ||| self.epoch == other.epoch && self.time == other.time && self.seq == other.seq
            && self.node < other.node
    }

    /// The largest clock reading: no later one can be minted.
    pub open spec fn exhausted(self) -> bool {
        self.epoch == u64::MAX && self.time == u64::MAX && self.seq == u32::MAX
    }

    /// The smallest reading of `node`'s clock that is past `self`.
    pub open spec fn spec_past(self, node: u64) -> Timestamp {
        if self.seq < u32::MAX {
            Timestamp { epoch: self.epoch, time: self.time, seq: (self.seq + 1) as u32, node }
        } else if self.time < u64::MAX {
            Timestamp { epoch: self.epoch, time: (self.time + 1) as u64, seq: 0, node }
        } else if self.epoch < u64::MAX {
            Timestamp { epoch: (self.epoch + 1) as u64, time: 0, seq: 0, node }
        } else {
            Timestamp { epoch: self.epoch, time: self.time, seq: self.seq, node }
        }
    }

    /// A timestamp with the given wall-clock microseconds and nothing else set.
    pub fn synthetic(micros: u64) -> (t: Timestamp)
        ensures
            t == (Timestamp { epoch: 0, time: micros, seq: 0, node: 0 }),
    {
        Timestamp { epoch: 0, time: micros, seq: 0, node: 0 }
    }

    /// Whether `self` is strictly before `other`.
    pub fn is_before(&self, other: &Timestamp) -> (b: bool)
        ensures
            b == self.precedes(*other),
    {
        if self.epoch != other.epoch {
            self.epoch < other.epoch
        } else if self.time != other.time {
            self.time < other.time
        } else if self.seq != other.seq {
            self.seq < other.seq
        } else {
            self.node < other.node
        }
    }

    /// A timestamp of `node` that is past the conflicting timestamp `conflict`.
    pub fn bump_past(&self, conflict: &Timestamp, node: u64) -> (t: Timestamp)
        ensures
            t == conflict.spec_past(node),
            !conflict.exhausted() ==> conflict.precedes(t),
    {
        if conflict.seq < u32::MAX {
            Timestamp { epoch: conflict.epoch, time: conflict.time, seq: conflict.seq + 1, node }
        } else if conflict.time < u64::MAX {
            Timestamp { epoch: conflict.epoch, time: conflict.time + 1, seq: 0, node }
        } else if conflict.epoch < u64::MAX {
            Timestamp { epoch: conflict.epoch + 1, time: 0, seq: 0, node }
        } else {
            Timestamp { epoch: conflict.epoch, time: conflict.time, seq: conflict.seq, node }
        }
    }
}

impl PartialOrd for Timestamp {
    fn partial_cmp(&self, other: &Self) -> (r: Option<Ordering>) {
        if self.is_before(other) {
            Some(Ordering::Less)
        } else if other.is_before(self) {
            Some(Ordering::Greater)
        } else {
            Some(Ordering::Equal)
        }
    }
}

impl vstd::std_specs::cmp::PartialOrdSpecImpl for Timestamp {
    open spec fn obeys_partial_cmp_spec() -> bool {
        true
    }

    open spec fn partial_cmp_spec(&self, other: &Self) -> Option<Ordering> {
        if self.precedes(*other) {
            Some(Ordering::Less)
        } else if other.precedes(*self) {
            Some(Ordering::Greater)
        } else {
            Some(Ordering::Equal)
        }
    }
}

/// The order on timestamps is a strict total order.
pub proof fn timestamp_order_is_total(a: Timestamp, b: Timestamp, c: Timestamp)
    ensures
        !a.precedes(a),
        a.precedes(b) && b.precedes(c) ==> a.precedes(c),
        a.precedes(b) || b.precedes(a) || a == b,
        !(a.precedes(b) && b.precedes(a)),
{
}

/// Timestamps are ordered by epoch first, then by time, then by sequence, and by node
/// only where all of these are equal.
pub proof fn earlier_fields_decide_the_order(a: Timestamp, b: Timestamp)
    ensures
        a.epoch != b.epoch ==> (a.precedes(b) <==> a.epoch < b.epoch),
        a.epoch == b.epoch && a.time != b.time ==> (a.precedes(b) <==> a.time < b.time),
        a.epoch == b.epoch && a.time == b.time && a.seq != b.seq ==> (a.precedes(b) <==> a.seq
            < b.seq),
        a.epoch == b.epoch && a.time == b.time && a.seq == b.seq ==> (a.precedes(b) <==> a.node
            < b.node),
{
}

/// A timestamp past another is a reading of the given node's clock, is after the other
/// unless that one is the last there is, and no reading between them is skipped: every
/// reading of that clock that is greater than the other's is at or after it.
pub proof fn the_next_reading_is_taken(conflict: Timestamp, node: u64, other: Timestamp)
    ensures
        conflict.spec_past(node).node == node,
        !(conflict.epoch == u64::MAX && conflict.time == u64::MAX && conflict.seq == u32::MAX)
            ==> conflict.precedes(conflict.spec_past(node)),
        other.node == node && (conflict.epoch < other.epoch || conflict.epoch == other.epoch && (
        conflict.time < other.time || conflict.time == other.time && conflict.seq < other.seq))
            ==> !other.precedes(conflict.spec_past(node)),
{
}

/// A transaction goes from pre-accepted to accepted to committed to applied.
pub proof fn phases_are_ordered()
    ensures
        TxnPhase::PreAccepted.spec_rank() < TxnPhase::Accepted.spec_rank(),
        TxnPhase::Accepted.spec_rank() < TxnPhase::Committed.spec_rank(),
        TxnPhase::Committed.spec_rank() < TxnPhase::Applied.spec_rank(),
{
}

/// Identity of a transaction: the timestamp at which it was proposed.
#[derive(Clone, Copy, Debug, PartialEq, Eq, Structural, PartialOrd, Ord, Hash)]
pub struct TxnId(pub Timestamp);

impl View for TxnId {
    type V = TxnId;

    open spec fn view(&self) -> TxnId {
        *self
    }
}

impl Lookup<TxnId> for TxnId {
    fn matches_key(&self, probe: &TxnId) -> (b: bool) {
        *self == *probe
    }
}

impl TxnId {
    /// The transaction that `node` proposes at `t0`.
    pub fn new(node: u64, t0: Timestamp) -> (id: TxnId)
        ensures
            id == TxnId((Timestamp { node, ..t0 })),
    {
        TxnId(Timestamp { epoch: t0.epoch, time: t0.time, seq: t0.seq, node })
    }
}

/// A ballot.
#[derive(Clone, Copy, Debug, PartialEq, Eq, Structural, PartialOrd, Ord, Hash)]
pub struct BallotNumber(pub u64);

/// The highest ballot that a replica has promised.
#[derive(Clone, Copy, Debug, PartialEq, Eq, Structural, PartialOrd, Ord, Hash)]
pub struct PromisedBallot(pub BallotNumber);

/// The ballot at which a replica last accepted a value.
#[derive(Clone, Copy, Debug, PartialEq, Eq, Structural, PartialOrd, Ord, Hash)]
pub struct AcceptedBallot(pub BallotNumber);

impl Default for PromisedBallot {
    /// The ballot below which nothing is refused.
    fn default() -> (b: Self)
        ensures
            b == PromisedBallot(BallotNumber(0)),
    {
        PromisedBallot(BallotNumber(0))
    }
}

impl Default for AcceptedBallot {
    /// Nothing accepted.
    fn default() -> (b: Self)
        ensures
            b == AcceptedBallot(BallotNumber(0)),
    {
        AcceptedBallot(BallotNumber(0))
    }
}

/// Progress of a transaction on one replica.
#[derive(Clone, Copy, Debug, PartialEq, Eq, Structural, Hash)]
pub enum TxnPhase {
    PreAccepted,
    Accepted,
    Committed,
    Applied,
}

impl TxnPhase {
    /// Position in the order of phases.
    pub open spec fn spec_rank(self) -> int {
        match self {
            TxnPhase::PreAccepted => 0,
            TxnPhase::Accepted => 1,
            TxnPhase::Committed => 2,
            TxnPhase::Applied => 3,
        }
    }

    /// Position in the order of phases.
    pub fn rank(&self) -> (r: u8)
        ensures
            r == self.spec_rank(),
    {
        match self {
            TxnPhase::PreAccepted => 0,
            TxnPhase::Accepted => 1,
            TxnPhase::Committed => 2,
            TxnPhase::Applied => 3,
        }
    }
}

/// A set of transactions, without repetition.
#[derive(Debug)]
pub struct TxnSet {
    items: Vec<TxnId>,
}

impl View for TxnSet {
    type V = Set<TxnId>;

    closed spec fn view(&self) -> Set<TxnId> {
        self.items@.to_set()
    }
}

impl TxnSet {
    /// No transaction is listed twice.
    pub closed spec fn wf(&self) -> bool {
        self.items@.no_duplicates()
    }

    /// The empty set.
    pub fn new() -> (s: TxnSet)
        ensures
            s.wf(),
            s@ == Set::<TxnId>::empty(),
    {
        let s = TxnSet { items: Vec::new() };
        assert(s@ =~= Set::<TxnId>::empty());
        s
    }

    /// Number of members.
    pub fn len(&self) -> (n: usize)
        requires
            self.wf(),
        ensures
            n == self@.len(),
            self@.finite(),
    {
        proof {
            self.items@.unique_seq_to_set();
            vstd::seq_lib::seq_to_set_is_finite(self.items@);
        }
        self.items.len()
    }

    /// Whether there is no member.
    pub fn is_empty(&self) -> (b: bool)
        ensures
            b == (self@ == Set::<TxnId>::empty()),
    {
        proof {
            if self.items@.len() == 0 {
                assert(self@ =~= Set::<TxnId>::empty());
            } else {
                assert(self@.contains(self.items@[0]));
            }
        }
        self.items.len() == 0
    }

    fn index_of(&self, id: &TxnId) -> (r: Option<usize>)
        ensures
            match r {
                Some(i) => i < self.items@.len() && self.items@[i as int] == *id && self@.contains(
                    *id,
                ),
                None => !self@.contains(*id),
            },
    {
        let mut i: usize = 0;
        while i < self.items.len()
            invariant
                i <= self.items.len(),
                forall|j: int| 0 <= j < i ==> self.items@[j] != *id,
            decreases self.items.len() - i,
        {
            if self.items[i] == *id {
                assert(self.items@.contains(self.items@[i as int]));
                return Some(i);
            }
            i += 1;
        }
        None
    }

    /// Whether the transaction is a member.
    pub fn contains(&self, id: &TxnId) -> (b: bool)
        ensures
            b == self@.contains(*id),
    {
        self.index_of(id).is_some()
    }

    /// Add a member; says whether it was absent.
    pub fn insert(&mut self, id: TxnId) -> (fresh: bool)
        requires
            old(self).wf(),
        ensures
            final(self).wf(),
            final(self)@ == old(self)@.insert(id),
            fresh == !old(self)@.contains(id),
    {
        match self.index_of(&id) {
            Some(_) => {
                assert(self@ =~= old(self)@.insert(id));
                false
            },
            None => {
                let ghost before = self.items@;
                self.items.push(id);
                assert(self.items@.to_set() =~= before.to_set().insert(id)) by {
                    assert forall|x: TxnId| before.to_set().insert(id).contains(x) implies self.items@.contains(x) by {
                        if x == id {
                            assert(self.items@[before.len() as int] == id);
                        } else {
                            let j = choose|j: int| 0 <= j < before.len() && before[j] == x;
                            assert(self.items@[j] == x);
                        }
                    }
                }
                true
            },
        }
    }

    /// Drop a member; says whether it was present.
    pub fn remove(&mut self, id: &TxnId) -> (present: bool)
        requires
            old(self).wf(),
        ensures
            final(self).wf(),
            final(self)@ == old(self)@.remove(*id),
            present == old(self)@.contains(*id),
    {
        match self.index_of(id) {
            Some(i) => {
                let ghost before = self.items@;
                self.items.remove(i);
                let ghost after = self.items@;
                assert(after =~= before.remove(i as int));
                assert forall|a: int, b: int| 0 <= a < after.len() && 0 <= b < after.len() && a != b implies after[a] != after[b] by {
                    let a2 = if a < i { a } else { a + 1 };
                    let b2 = if b < i { b } else { b + 1 };
                    assert(after[a] == before[a2] && after[b] == before[b2]);
                }
                assert(after.to_set() =~= before.to_set().remove(*id)) by {
                    assert forall|x: TxnId| after.contains(x) == (before.contains(x) && x != *id) by {
                        if after.contains(x) {
                            let j = choose|j: int| 0 <= j < after.len() && after[j] == x;
                            let j2 = if j < i { j } else { j + 1 };
                            assert(before[j2] == x);
                        }
                        if before.contains(x) && x != *id {
                            let j = choose|j: int| 0 <= j < before.len() && before[j] == x;
                            let j2 = if j < i { j } else { j - 1 };
                            assert(after[j2] == x);
                        }
                    }
                }
                true
            },
            None => {
                assert(self@ =~= old(self)@.remove(*id));
                false
            },
        }
    }

    fn is_within(&self, other: &TxnSet) -> (b: bool)
        ensures
            b == self@.subset_of(other@),
    {
        let mut i: usize = 0;
        while i < self.items.len()
            invariant
                i <= self.items.len(),
                forall|j: int| 0 <= j < i ==> other@.contains(#[trigger] self.items@[j]),
            decreases self.items.len() - i,
        {
            if !other.contains(&self.items[i]) {
                assert(self@.contains(self.items@[i as int]));
                return false;
            }
            i += 1;
        }
        true
    }

    /// Whether the two sets have the same members.
    pub fn same_as(&self, other: &TxnSet) -> (b: bool)
        ensures
            b == (self@ == other@),
    {
        let b = self.is_within(other) && other.is_within(self);
        assert(b ==> self@ =~= other@);
        b
    }

    /// The set of the listed transactions.
    pub fn from_slice(ids: &[TxnId]) -> (s: TxnSet)
        ensures
            s.wf(),
            s@ == ids@.to_set(),
    {
        let mut s = TxnSet::new();
        let mut i: usize = 0;
        assert(ids@.take(0).to_set() =~= Set::<TxnId>::empty());
        while i < ids.len()
            invariant
                i <= ids.len(),
                s.wf(),
                s@ == ids@.take(i as int).to_set(),
            decreases ids.len() - i,
        {
            s.insert(ids[i]);
            proof {
                let a = ids@.take(i as int);
                let b = ids@.take(i + 1);
                assert(b =~= a.push(ids@[i as int]));
                lemma_push_to_set(a, ids@[i as int]);
            }
            i += 1;
        }
        assert(ids@.take(ids@.len() as int) =~= ids@);
        s
    }

    /// The members, each once.
    pub fn to_vec(&self) -> (v: Vec<TxnId>)
        requires
            self.wf(),
        ensures
            v@.no_duplicates(),
            v@.to_set() == self@,
    {
        let mut items: Vec<TxnId> = Vec::new();
        let mut i: usize = 0;
        while i < self.items.len()
            invariant
                i <= self.items.len(),
                items@ == self.items@.take(i as int),
            decreases self.items.len() - i,
        {
            items.push(self.items[i]);
            assert(items@ =~= self.items@.take(i + 1));
            i += 1;
        }
        assert(items@ =~= self.items@);
        items
    }

    /// A copy of the set.
    pub fn copied(&self) -> (s: TxnSet)
        requires
            self.wf(),
        ensures
            s.wf(),
            s@ == self@,
    {
        TxnSet { items: self.to_vec() }
    }
}

/// Appending to a sequence inserts into its set.
pub proof fn lemma_push_to_set<A>(s: Seq<A>, a: A)
    ensures
        s.push(a).to_set() == s.to_set().insert(a),
{
    let t = s.push(a);
    assert forall|x: A| s.to_set().insert(a).contains(x) implies t.contains(x) by {
        if x == a {
            assert(t[s.len() as int] == a);
        } else {
            let j = choose|j: int| 0 <= j < s.len() && s[j] == x;
            assert(t[j] == x);
        }
    }
    assert(t.to_set() =~= s.to_set().insert(a));
}

/// Comparing two timestamps says that one is less where it precedes the other, greater where
/// the other precedes it, and equal where they are the same.
pub proof fn comparisons_follow_the_order(a: Timestamp, b: Timestamp)
    ensures
        ({
            let r = vstd::std_specs::cmp::PartialOrdSpec::partial_cmp_spec(&a, &b);
            &&& r == Some(Ordering::Less) <==> a.precedes(b)
            &&& r == Some(Ordering::Greater) <==> b.precedes(a)
            &&& r == Some(Ordering::Equal) <==> a == b
        }),
{
    timestamp_order_is_total(a, b, a);
}

} // verus!
