//! Which in-flight transactions touch which keys and token ranges.

use vstd::prelude::*;

use crate::accord::types::{Timestamp, TxnId, TxnSet};
use crate::collections::bytes_equal;
use crate::text::copy_bytes;

verus! {

/// Progress of an in-flight write.
#[derive(Clone, Copy, Debug, PartialEq, Eq, Structural)]
pub enum TxnStatus {
    PreAccepted,
    Accepted,
    Committed,
    Applied,
}

/// A transaction that writes some key.
#[derive(Clone, Copy, Debug, PartialEq, Eq, Structural)]
pub struct InFlightWrite {
    /// The transaction.
    pub txn_id: TxnId,
    /// Timestamp at which it was proposed.
    pub t0: Timestamp,
    /// Agreed execution timestamp, once known.
    pub accord_ts: Option<Timestamp>,
    /// Progress.
    pub status: TxnStatus,
}

/// An inclusive range of tokens.
#[derive(Clone, Copy, Debug, PartialEq, Eq, Structural)]
pub struct TokenRange {
    pub start: i64,
    pub end: i64,
}

impl TokenRange {
    /// Whether the two ranges share a token.
    pub open spec fn spec_overlaps(self, other: TokenRange) -> bool {
        self.start <= other.end && other.start <= self.end
    }

    /// Whether the two ranges share a token.
    pub fn overlaps(&self, other: &TokenRange) -> (b: bool)
        ensures
            b == self.spec_overlaps(*other),
    {
        self.start <= other.end && other.start <= self.end
    }
}

/// The index holds as many entries as it was made for.
#[derive(Clone, Copy, Debug, PartialEq, Eq, Structural)]
pub struct ConflictIndexFull;

/// In-flight writes by key and in-flight range reads, up to a capacity each.
#[derive(Debug)]
pub struct ConflictIndex {
    capacity: usize,
    writes: Vec<(Vec<u8>, InFlightWrite)>,
    ranges: Vec<(TokenRange, Timestamp, TxnId)>,
}

/// The abstract index.
#[verifier::ext_equal]
pub struct ConflictIndexView {
    /// Most entries of each sort.
    pub capacity: nat,
    /// Registered writes with their keys, oldest first.
    pub writes: Seq<(Seq<u8>, InFlightWrite)>,
    /// Registered ranges, oldest first.
    pub ranges: Seq<(TokenRange, Timestamp, TxnId)>,
}

/// Whether the `i`th registered write is on `key`.
pub open spec fn write_on(writes: Seq<(Seq<u8>, InFlightWrite)>, key: Seq<u8>, i: int) -> bool {
    0 <= i < writes.len() && writes[i].0 == key
}

/// Whether `m` is the latest of the timestamps of the entries that `on` selects
/// among the first `n`; `None` where it selects none.
pub open spec fn latest_of(n: nat, on: spec_fn(int) -> bool, ts: spec_fn(int) -> Timestamp, m: Option<Timestamp>) -> bool {
    match m {
        Some(t) => {
            &&& exists|i: int| 0 <= i < n && #[trigger] on(i) && ts(i) == t
            &&& forall|i: int| 0 <= i < n && #[trigger] on(i) ==> !t.precedes(ts(i))
        },
        None => forall|i: int| 0 <= i < n ==> !#[trigger] on(i),
    }
}

/// Selects the entries on `key`.
pub open spec fn on_key(key: Seq<u8>) -> spec_fn((Seq<u8>, InFlightWrite)) -> bool {
    |e: (Seq<u8>, InFlightWrite)| e.0 == key
}

impl ConflictIndexView {
    /// Transactions registered on `key` that were proposed before `t0`.
    pub open spec fn deps_before(self, key: Seq<u8>, t0: Timestamp) -> Set<TxnId> {
        Set::new(
            |id: TxnId|
                exists|i: int| #[trigger]
                    write_on(self.writes, key, i) && self.writes[i].1.t0.precedes(t0)
                        && self.writes[i].1.txn_id == id,
        )
    }

    /// The writes registered on `key`, oldest first.
    pub open spec fn writes_on(self, key: Seq<u8>) -> Seq<InFlightWrite> {
        self.writes.filter(on_key(key)).map_values(|e: (Seq<u8>, InFlightWrite)| e.1)
    }

    /// `m` is the latest proposal timestamp registered on `key`.
    pub open spec fn latest_on(self, key: Seq<u8>, m: Option<Timestamp>) -> bool {
        latest_of(
            self.writes.len(),
            |i: int| write_on(self.writes, key, i),
            |i: int| self.writes[i].1.t0,
            m,
        )
    }

    /// The latest proposal timestamp registered on `key`.
    pub open spec fn latest(self, key: Seq<u8>) -> Option<Timestamp> {
        choose|m: Option<Timestamp>| self.latest_on(key, m)
    }

    /// `m` is the latest timestamp among the ranges that overlap `range`.
    pub open spec fn latest_range(self, range: TokenRange, m: Option<Timestamp>) -> bool {
        latest_of(
            self.ranges.len(),
            |i: int| 0 <= i < self.ranges.len() && self.ranges[i].0.spec_overlaps(range),
            |i: int| self.ranges[i].1,
            m,
        )
    }

    /// After registering a write.
    pub open spec fn registered(self, key: Seq<u8>, entry: InFlightWrite) -> ConflictIndexView {
        if self.writes.len() < self.capacity {
            ConflictIndexView { writes: self.writes.push((key, entry)), ..self }
        } else {
            self
        }
    }

    /// After marking a transaction applied.
    pub open spec fn with_applied(self, id: TxnId) -> ConflictIndexView {
        ConflictIndexView {
            writes: Seq::new(
                self.writes.len(),
                |i: int|
                    if self.writes[i].1.txn_id == id {
                        (
                            self.writes[i].0,
                            InFlightWrite { status: TxnStatus::Applied, ..self.writes[i].1 },
                        )
                    } else {
                        self.writes[i]
                    },
            ),
            ..self
        }
    }

    /// After dropping the writes that are applied.
    pub open spec fn collected(self) -> ConflictIndexView {
        ConflictIndexView {
            writes: self.writes.filter(
                |e: (Seq<u8>, InFlightWrite)| e.1.status != TxnStatus::Applied,
            ),
            ..self
        }
    }
}

/// The view of a list of keyed writes.
pub open spec fn writes_view(w: Seq<(Vec<u8>, InFlightWrite)>) -> Seq<(Seq<u8>, InFlightWrite)> {
    Seq::new(w.len(), |i: int| (w[i].0@, w[i].1))
}

impl View for ConflictIndex {
    type V = ConflictIndexView;

    closed spec fn view(&self) -> ConflictIndexView {
        ConflictIndexView {
            capacity: self.capacity as nat,
            writes: writes_view(self.writes@),
            ranges: self.ranges@,
        }
    }
}

/// At most one value is the latest.
pub proof fn latest_is_unique(n: nat, on: spec_fn(int) -> bool, ts: spec_fn(int) -> Timestamp, a: Option<Timestamp>, b: Option<Timestamp>)
    requires
        latest_of(n, on, ts, a),
        latest_of(n, on, ts, b),
    ensures
        a == b,
{
    match (a, b) {
        (Some(x), Some(y)) => {
            let i = choose|i: int| 0 <= i < n && #[trigger] on(i) && ts(i) == x;
            let j = choose|j: int| 0 <= j < n && #[trigger] on(j) && ts(j) == y;
            assert(on(i) && on(j));
            assert(!x.precedes(y) && !y.precedes(x));
        },
        (Some(x), None) => {
            let i = choose|i: int| 0 <= i < n && #[trigger] on(i) && ts(i) == x;
            assert(on(i));
        },
        (None, Some(y)) => {
            let j = choose|j: int| 0 <= j < n && #[trigger] on(j) && ts(j) == y;
            assert(on(j));
        },
        (None, None) => {},
    }
}

/// There is always a latest value, or nothing is selected.
pub proof fn latest_exists(n: nat, on: spec_fn(int) -> bool, ts: spec_fn(int) -> Timestamp) -> (m:
    Option<Timestamp>)
    ensures
        latest_of(n, on, ts, m),
    decreases n,
{
    if n == 0 {
        None
    } else {
        let k = (n - 1) as nat;
        let m0 = latest_exists(k, on, ts);
        let m = if on(k as int) {
            match m0 {
                Some(t) => Some(if t.precedes(ts(k as int)) { ts(k as int) } else { t }),
                None => Some(ts(k as int)),
            }
        } else {
            m0
        };
        lemma_latest_step(k, on, ts, m0, m);
        m
    }
}

impl ConflictIndex {
    /// An empty index.
    pub fn new(capacity: usize) -> (x: ConflictIndex)
        ensures
            x@ == (ConflictIndexView {
                capacity: capacity as nat,
                writes: Seq::empty(),
                ranges: Seq::empty(),
            }),
    {
        let x = ConflictIndex { capacity, writes: Vec::new(), ranges: Vec::new() };
        assert(x@.writes =~= Seq::empty());
        assert(x@.ranges =~= Seq::empty());
        x
    }

    /// Whether nothing is registered.
    pub fn is_empty(&self) -> (b: bool)
        ensures
            b == (self@.writes.len() == 0 && self@.ranges.len() == 0),
    {
        self.writes.len() == 0 && self.ranges.len() == 0
    }

    /// Transactions registered on `key` that were proposed before `t0`.
    pub fn deps_before_t0(&self, key: &[u8], t0: &Timestamp) -> (deps: TxnSet)
        ensures
            deps.wf(),
            deps@ == self@.deps_before(key@, *t0),
            // Every earlier writer of the key is there, and nobody else.
            forall|i: int|
                0 <= i < self@.writes.len() && (#[trigger] self@.writes[i]).0 == key@
                    && self@.writes[i].1.t0.precedes(*t0) ==> deps@.contains(
                    self@.writes[i].1.txn_id,
                ),
            forall|id: TxnId| #[trigger]
                deps@.contains(id) ==> exists|i: int|
                    0 <= i < self@.writes.len() && (#[trigger] self@.writes[i]).0 == key@
                        && self@.writes[i].1.t0.precedes(*t0) && self@.writes[i].1.txn_id == id,
    {
        let mut deps = TxnSet::new();
        let mut i: usize = 0;
        let ghost all = self@.writes;
        while i < self.writes.len()
            invariant
                i <= self.writes.len(),
                all == self@.writes,
                all == writes_view(self.writes@),
                deps.wf(),
                forall|id: TxnId| #[trigger]
                    deps@.contains(id) <==> exists|j: int| #[trigger]
                        write_on(all, key@, j) && j < i && all[j].1.t0.precedes(*t0)
                            && all[j].1.txn_id == id,
            decreases self.writes.len() - i,
        {
            let ghost before = deps@;
            let e = &self.writes[i];
            let hit: bool = bytes_equal(e.0.as_slice(), key) && e.1.t0.is_before(t0);
            if hit {
                deps.insert(e.1.txn_id);
            }
            assert forall|id: TxnId| #[trigger] deps@.contains(id) <==> exists|j: int| #[trigger]
                write_on(all, key@, j) && j < i + 1 && all[j].1.t0.precedes(*t0) && all[j].1.txn_id
                    == id by {
                if before.contains(id) {
                    let j = choose|j: int| #[trigger]
                        write_on(all, key@, j) && j < i && all[j].1.t0.precedes(*t0)
                            && all[j].1.txn_id == id;
                    assert(write_on(all, key@, j) && j < i + 1);
                }
                if hit && id == e.1.txn_id {
                    assert(write_on(all, key@, i as int));
                }
            }
            i += 1;
        }
        assert(deps@ =~= self@.deps_before(key@, *t0));
        proof {
            assert forall|j: int|
                0 <= j < self@.writes.len() && (#[trigger] self@.writes[j]).0 == key@
                    && self@.writes[j].1.t0.precedes(*t0) implies deps@.contains(
                self@.writes[j].1.txn_id,
            ) by {
                assert(write_on(all, key@, j));
            }
            assert forall|id: TxnId| #[trigger] deps@.contains(id) implies exists|j: int|
                0 <= j < self@.writes.len() && (#[trigger] self@.writes[j]).0 == key@
                    && self@.writes[j].1.t0.precedes(*t0) && self@.writes[j].1.txn_id == id by {
                let j = choose|j: int| #[trigger]
                    write_on(all, key@, j) && j < all.len() && all[j].1.t0.precedes(*t0)
                        && all[j].1.txn_id == id;
                assert(self@.writes[j].0 == key@);
            }
        }
        deps
    }

    /// The writes registered on `key`, oldest first.
    pub fn writes_on(&self, key: &[u8]) -> (found: Vec<InFlightWrite>)
        ensures
            found@ == self@.writes_on(key@),
    {
        let ghost all = self@.writes;
        let ghost on = on_key(key@);
        let ghost entry = |e: (Seq<u8>, InFlightWrite)| e.1;
        let mut found: Vec<InFlightWrite> = Vec::new();
        let mut i: usize = 0;
        assert(found@ =~= all.take(0).filter(on).map_values(entry)) by {
            reveal(Seq::filter);
        }
        while i < self.writes.len()
            invariant
                i <= self.writes.len(),
                all == writes_view(self.writes@),
                on == on_key(key@),
                entry == (|e: (Seq<u8>, InFlightWrite)| e.1),
                found@ == all.take(i as int).filter(on).map_values(entry),
            decreases self.writes.len() - i,
        {
            proof {
                crate::collections::lemma_filter_step(all, i as int, on);
            }
            let e = &self.writes[i];
            let ghost f0 = all.take(i as int).filter(on);
            if bytes_equal(e.0.as_slice(), key) {
                found.push(e.1);
                assert(found@ =~= f0.push(all[i as int]).map_values(entry));
            }
            i += 1;
        }
        assert(all.take(all.len() as int) =~= all);
        found
    }

    /// The latest proposal timestamp registered on `key`.
    pub fn max_conflicting_timestamp(&self, key: &[u8]) -> (m: Option<Timestamp>)
        ensures
            self@.latest_on(key@, m),
            m == self@.latest(key@),
    {
        let mut m: Option<Timestamp> = None;
        let mut i: usize = 0;
        let ghost all = self@.writes;
        let ghost on = |j: int| write_on(all, key@, j);
        let ghost ts = |j: int| all[j].1.t0;
        while i < self.writes.len()
            invariant
                i <= self.writes.len(),
                all == writes_view(self.writes@),
                on == (|j: int| write_on(all, key@, j)),
                ts == (|j: int| all[j].1.t0),
                latest_of(i as nat, on, ts, m),
            decreases self.writes.len() - i,
        {
            let e = &self.writes[i];
            let ghost m0 = m;
            if bytes_equal(e.0.as_slice(), key) {
                assert(on(i as int) && ts(i as int) == e.1.t0);
                match m {
                    Some(t) => {
                        if t.is_before(&e.1.t0) {
                            m = Some(e.1.t0);
                        }
                    },
                    None => {
                        m = Some(e.1.t0);
                    },
                }
            } else {
                assert(!on(i as int));
            }
            proof {
                lemma_latest_step(i as nat, on, ts, m0, m);
            }
            i += 1;
        }
        proof {
            assert(self@.latest_on(key@, m));
            latest_is_unique(all.len(), on, ts, m, self@.latest(key@));
        }
        m
    }

    /// Register a write on `key`; refused once the index is full.
    pub fn register(&mut self, key: &[u8], entry: InFlightWrite) -> (r: Result<(), ConflictIndexFull>)
        ensures
            final(self)@ == old(self)@.registered(key@, entry),
            r is Ok <==> old(self)@.writes.len() < old(self)@.capacity,
    {
        if self.writes.len() >= self.capacity {
            return Err(ConflictIndexFull);
        }
        self.writes.push((copy_bytes(key), entry));
        assert(self@.writes =~= old(self)@.writes.push((key@, entry)));
        Ok(())
    }

    /// Mark every write of a transaction applied.
    pub fn mark_applied(&mut self, id: &TxnId)
        ensures
            final(self)@ == old(self)@.with_applied(*id),
    {
        let mut i: usize = 0;
        let ghost before = self.writes@;
        while i < self.writes.len()
            invariant
                i <= self.writes.len(),
                self.writes@.len() == before.len(),
                self.capacity == old(self).capacity,
                self.ranges@ == old(self).ranges@,
                before == old(self).writes@,
                forall|j: int| i <= j < before.len() ==> self.writes@[j] == before[j],
                forall|j: int|
                    0 <= j < i ==> (#[trigger] self.writes@[j]).0@ == before[j].0@
                        && self.writes@[j].1 == (if before[j].1.txn_id == *id {
                        InFlightWrite { status: TxnStatus::Applied, ..before[j].1 }
                    } else {
                        before[j].1
                    }),
            decreases self.writes.len() - i,
        {
            if self.writes[i].1.txn_id == *id {
                self.writes[i].1.status = TxnStatus::Applied;
            }
            i += 1;
        }
        assert(self@.writes =~= old(self)@.with_applied(*id).writes);
    }

    /// Drop the writes that are applied.
    pub fn gc_applied(&mut self)
        ensures
            final(self)@ == old(self)@.collected(),
    {
        let mut kept: Vec<(Vec<u8>, InFlightWrite)> = Vec::new();
        let ghost all = self@.writes;
        let ghost live = |e: (Seq<u8>, InFlightWrite)| e.1.status != TxnStatus::Applied;
        let mut i: usize = 0;
        assert(writes_view(kept@) =~= all.take(0).filter(live)) by {
            reveal(Seq::filter);
        }
        while i < self.writes.len()
            invariant
                i <= self.writes.len(),
                *self == *old(self),
                all == writes_view(self.writes@),
                live == (|e: (Seq<u8>, InFlightWrite)| e.1.status != TxnStatus::Applied),
                writes_view(kept@) == all.take(i as int).filter(live),
            decreases self.writes.len() - i,
        {
            let e = &self.writes[i];
            let ghost k0 = kept@;
            proof {
                crate::collections::lemma_filter_step(all, i as int, live);
            }
            if e.1.status != TxnStatus::Applied {
                kept.push((copy_bytes(e.0.as_slice()), e.1));
                assert(writes_view(kept@) =~= writes_view(k0).push(all[i as int]));
            }
            i += 1;
        }
        assert(all.take(all.len() as int) =~= all);
        self.writes = kept;
        assert(self@ =~= old(self)@.collected());
    }

    /// Register a range read; refused once the index is full.
    pub fn register_range(&mut self, range: TokenRange, t0: Timestamp, id: TxnId) -> (r: Result<
        (),
        ConflictIndexFull,
    >)
        ensures
            r is Ok <==> old(self)@.ranges.len() < old(self)@.capacity,
            final(self)@ == (ConflictIndexView {
                ranges: if r is Ok {
                    old(self)@.ranges.push((range, t0, id))
                } else {
                    old(self)@.ranges
                },
                ..old(self)@
            }),
    {
        if self.ranges.len() >= self.capacity {
            return Err(ConflictIndexFull);
        }
        self.ranges.push((range, t0, id));
        Ok(())
    }

    /// The latest timestamp among the registered ranges that overlap `range`.
    pub fn max_conflicting_range_timestamp(&self, range: &TokenRange) -> (m: Option<Timestamp>)
        ensures
            self@.latest_range(*range, m),
    {
        let mut m: Option<Timestamp> = None;
        let mut i: usize = 0;
        let ghost all = self@.ranges;
        let ghost on = |j: int| 0 <= j < all.len() && all[j].0.spec_overlaps(*range);
        let ghost ts = |j: int| all[j].1;
        while i < self.ranges.len()
            invariant
                i <= self.ranges.len(),
                all == self.ranges@,
                on == (|j: int| 0 <= j < all.len() && all[j].0.spec_overlaps(*range)),
                ts == (|j: int| all[j].1),
                latest_of(i as nat, on, ts, m),
            decreases self.ranges.len() - i,
        {
            let e = self.ranges[i];
            let ghost m0 = m;
            if e.0.overlaps(range) {
                assert(on(i as int) && ts(i as int) == e.1);
                match m {
                    Some(t) => {
                        if t.is_before(&e.1) {
                            m = Some(e.1);
                        }
                    },
                    None => {
                        m = Some(e.1);
                    },
                }
            } else {
                assert(!on(i as int));
            }
            proof {
                lemma_latest_step(i as nat, on, ts, m0, m);
            }
            i += 1;
        }
        m
    }
}

/// One more entry: the latest is kept, or replaced by a later one.
proof fn lemma_latest_step(n: nat, on: spec_fn(int) -> bool, ts: spec_fn(int) -> Timestamp, m0: Option<Timestamp>, m: Option<Timestamp>)
    requires
        latest_of(n, on, ts, m0),
        on(n as int) ==> match m0 {
            Some(t) => m == Some(if t.precedes(ts(n as int)) { ts(n as int) } else { t }),
            None => m == Some(ts(n as int)),
        },
        !on(n as int) ==> m == m0,
    ensures
        latest_of(n + 1, on, ts, m),
{
    if m is Some {
        if m0 is Some {
            let i = choose|i: int| 0 <= i < n && #[trigger] on(i) && ts(i) == m0->0;
            assert(on(i));
        }
        let t = m->0;
        assert forall|i: int| 0 <= i < n + 1 && #[trigger] on(i) implies !t.precedes(ts(i)) by {
            if i < n {
                assert(m0 is Some);
                assert(!(m0->0).precedes(ts(i)));
            }
        }
        assert(exists|i: int| 0 <= i < n + 1 && #[trigger] on(i) && ts(i) == t);
    }
}

/// The writes listed for a key are the registered writes on that key: each of them,
/// and nothing else.
pub proof fn listed_writes_are_those_on_the_key(x: ConflictIndexView, key: Seq<u8>, w: InFlightWrite)
    ensures
        x.writes_on(key).contains(w) <==> exists|i: int|
            0 <= i < x.writes.len() && #[trigger] x.writes[i] == (key, w),
{
    let on = on_key(key);
    let kept = x.writes.filter(on);
    let listed = x.writes_on(key);
    if listed.contains(w) {
        let j = choose|j: int| 0 <= j < listed.len() && listed[j] == w;
        x.writes.lemma_filter_pred(on, j);
        crate::collections::lemma_filter_from(x.writes, on, j);
        let i = choose|i: int| 0 <= i < x.writes.len() && x.writes[i] == kept[j];
        assert(x.writes[i] == (key, w));
    }
    if exists|i: int| 0 <= i < x.writes.len() && #[trigger] x.writes[i] == (key, w) {
        let i = choose|i: int| 0 <= i < x.writes.len() && #[trigger] x.writes[i] == (key, w);
        x.writes.lemma_filter_contains(on, i);
        let j = choose|j: int| 0 <= j < kept.len() && kept[j] == x.writes[i];
        assert(listed[j] == w);
    }
}

/// Registering a write adds it after all others where there is room, and changes
/// nothing where there is none.
pub proof fn registering_adds_one_write(x: ConflictIndexView, key: Seq<u8>, entry: InFlightWrite)
    ensures
        ({
            let after = x.registered(key, entry);
            &&& x.writes.len() >= x.capacity ==> after == x
            &&& x.writes.len() < x.capacity ==> after.writes.len() == x.writes.len() + 1
                && after.writes.last() == (key, entry) && after.writes.drop_last() == x.writes
            &&& after.capacity == x.capacity && after.ranges == x.ranges
        }),
{
    assert(x.writes.len() < x.capacity ==> x.writes.push((key, entry)).drop_last() =~= x.writes);
}

/// Two ranges conflict exactly where some token lies in both, each taken with both of
/// its ends, unless one of them is turned round.
pub proof fn overlapping_ranges_share_a_token(a: TokenRange, b: TokenRange, token: i64)
    requires
        a.start <= a.end,
        b.start <= b.end,
    ensures
        a.start <= token <= a.end && b.start <= token <= b.end ==> a.spec_overlaps(b),
        a.spec_overlaps(b) ==> exists|t: i64|
            a.start <= t && t <= a.end && b.start <= t && #[trigger] token_at_most(t, b.end),
        a.spec_overlaps(b) == b.spec_overlaps(a),
{
    let t = if a.start < b.start {
        b.start
    } else {
        a.start
    };
    assert(a.spec_overlaps(b) ==> token_at_most(t, b.end));
}

/// Whether a token is not past another.
pub open spec fn token_at_most(t: i64, end: i64) -> bool {
    t <= end
}

/// The latest conflicting range timestamp is the timestamp of a registered range that
/// overlaps the given one, and none of those is later; it is absent exactly where no
/// registered range overlaps.
pub proof fn latest_range_is_registered(
    x: ConflictIndexView,
    range: TokenRange,
    m: Option<Timestamp>,
    i: int,
)
    requires
        x.latest_range(range, m),
        0 <= i < x.ranges.len(),
        x.ranges[i].0.spec_overlaps(range),
    ensures
        m matches Some(t) && !t.precedes(x.ranges[i].1) && exists|j: int|
            0 <= j < x.ranges.len() && (#[trigger] x.ranges[j]).1 == t
                && x.ranges[j].0.spec_overlaps(range),
{
    let on = |j: int| 0 <= j < x.ranges.len() && x.ranges[j].0.spec_overlaps(range);
    assert(on(i));
    if m is Some {
        let j = choose|j: int|
            0 <= j < x.ranges.len() && #[trigger] on(j) && x.ranges[j].1 == m->0;
        assert(x.ranges[j].1 == m->0);
    }
}

/// The latest timestamp on a key is that of a write registered on it, and none of those is
/// later; there is none exactly where no write is registered on it.
pub proof fn latest_write_is_registered(x: ConflictIndexView, key: Seq<u8>, i: int)
    ensures
        0 <= i < x.writes.len() && x.writes[i].0 == key ==> x.latest(key) is Some && !x.latest(
            key,
        )->0.precedes(x.writes[i].1.t0),
        x.latest(key) matches Some(t) ==> exists|j: int|
            0 <= j < x.writes.len() && (#[trigger] x.writes[j]).0 == key && x.writes[j].1.t0 == t,
{
    let on = |j: int| write_on(x.writes, key, j);
    let some = latest_exists(x.writes.len(), on, |j: int| x.writes[j].1.t0);
    assert(x.latest_on(key, some));
    assert(x.latest_on(key, x.latest(key)));
    if 0 <= i < x.writes.len() && x.writes[i].0 == key {
        assert(on(i));
    }
    if x.latest(key) is Some {
        let j = choose|j: int|
            0 <= j < x.writes.len() && #[trigger] on(j) && x.writes[j].1.t0 == x.latest(key)->0;
        assert(on(j) && x.writes[j].0 == key);
    }
}

/// Marking a transaction applied marks each of its writes and no other; dropping what is
/// applied drops those writes and no other.
pub proof fn applied_writes_are_marked_and_dropped(x: ConflictIndexView, id: TxnId, i: int)
    requires
        0 <= i < x.writes.len(),
    ensures
        ({
            let m = x.with_applied(id);
            &&& m.writes.len() == x.writes.len()
            &&& m.writes[i].0 == x.writes[i].0 && m.writes[i].1.txn_id == x.writes[i].1.txn_id
            &&& m.writes[i].1.t0 == x.writes[i].1.t0
            &&& x.writes[i].1.txn_id == id ==> m.writes[i].1.status == TxnStatus::Applied
            &&& x.writes[i].1.txn_id != id ==> m.writes[i] == x.writes[i]
            &&& m.ranges == x.ranges && m.capacity == x.capacity
        }),
        x.collected().writes.contains(x.writes[i]) <==> x.writes[i].1.status != TxnStatus::Applied,
        x.collected().ranges == x.ranges && x.collected().capacity == x.capacity,
{
    let live = |e: (Seq<u8>, InFlightWrite)| e.1.status != TxnStatus::Applied;
    crate::collections::lemma_filter_membership(x.writes, live, x.writes[i]);
    assert(x.writes.contains(x.writes[i]));
}

} // verus!
