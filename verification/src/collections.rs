//! Small association structures with mathematical views.
//!
//! Keys are compared by their view, so a lookup may use a borrowed form of the
//! key (`&str` for `String`, `&[u8]` for `Vec<u8>`).

use vstd::prelude::*;

verus! {

/// A key that can be compared with a (possibly borrowed) probe.
pub trait Lookup<Q: View<V = <Self as View>::V> + ?Sized>: View {
    /// Whether the key and the probe denote the same abstract key.
    fn matches_key(&self, probe: &Q) -> (b: bool)
        ensures
            b == (self@ == probe@),
    ;
}

impl Lookup<u64> for u64 {
    fn matches_key(&self, probe: &u64) -> (b: bool) {
        *self == *probe
    }
}

impl Lookup<u128> for u128 {
    fn matches_key(&self, probe: &u128) -> (b: bool) {
        *self == *probe
    }
}

/// Whether two byte strings are equal.
pub fn bytes_equal(a: &[u8], b: &[u8]) -> (r: bool)
    ensures
        r == (a@ == b@),
{
    if a.len() != b.len() {
        return false;
    }
    let mut i: usize = 0;
    while i < a.len()
        invariant
            i <= a.len(),
            a.len() == b.len(),
            forall|j: int| 0 <= j < i ==> a@[j] == b@[j],
        decreases a.len() - i,
    {
        if a[i] != b[i] {
            assert(a@[i as int] != b@[i as int]);
            return false;
        }
        i += 1;
    }
    assert(a@ =~= b@);
    true
}

impl Lookup<[u8]> for Vec<u8> {
    fn matches_key(&self, probe: &[u8]) -> (b: bool) {
        bytes_equal(self.as_slice(), probe)
    }
}

impl Lookup<Vec<u8>> for Vec<u8> {
    fn matches_key(&self, probe: &Vec<u8>) -> (b: bool) {
        bytes_equal(self.as_slice(), probe.as_slice())
    }
}

/// Whether two strings are equal.
pub fn str_equal(a: &str, b: &str) -> (r: bool)
    ensures
        r == (a@ == b@),
{
    let r = bytes_equal(a.as_bytes(), b.as_bytes());
    proof {
        vstd::utf8::encode_utf8_decode_utf8(a@);
        vstd::utf8::encode_utf8_decode_utf8(b@);
    }
    r
}

impl Lookup<str> for String {
    fn matches_key(&self, probe: &str) -> (b: bool) {
        str_equal(self.as_str(), probe)
    }
}

impl Lookup<String> for String {
    fn matches_key(&self, probe: &String) -> (b: bool) {
        str_equal(self.as_str(), probe.as_str())
    }
}

/// The abstract keys of a list of entries, in order.
pub open spec fn entry_keys<K: View, V>(entries: Seq<(K, V)>) -> Seq<K::V> {
    Seq::new(entries.len(), |i: int| entries[i].0@)
}

/// The position of the entry that holds `k`.
pub open spec fn entry_position<K: View, V>(entries: Seq<(K, V)>, k: K::V) -> int {
    choose|i: int| 0 <= i < entries.len() && entries[i].0@ == k
}

/// The map that a list of entries denotes.
pub open spec fn entries_map<K: View, V>(entries: Seq<(K, V)>) -> Map<K::V, V> {
    Map::new(
        |k: K::V| entry_keys(entries).contains(k),
        |k: K::V| entries[entry_position(entries, k)].1,
    )
}

/// A map held as a list of entries with pairwise distinct keys, in the order in
/// which the keys were first inserted.
#[derive(Debug)]
pub struct VecMap<K: View, V> {
    entries: Vec<(K, V)>,
}

impl<K: View, V> View for VecMap<K, V> {
    type V = Map<K::V, V>;

    closed spec fn view(&self) -> Map<K::V, V> {
        entries_map(self.entries@)
    }
}

impl<K: View, V> VecMap<K, V> {
    /// Keys are pairwise distinct.
    pub closed spec fn wf(&self) -> bool {
        entry_keys(self.entries@).no_duplicates()
    }

    /// The entries, in insertion order.
    pub closed spec fn spec_entries(&self) -> Seq<(K, V)> {
        self.entries@
    }

    /// The entry list and the map agree.
    pub proof fn lemma_entries(&self)
        requires
            self.wf(),
        ensures
            self@ == entries_map(self.spec_entries()),
            self@.dom().finite(),
            self@.len() == self.spec_entries().len(),
            forall|i: int|
                #![trigger self.spec_entries()[i]]
                0 <= i < self.spec_entries().len() ==> self@.contains_key(
                    self.spec_entries()[i].0@,
                ) && self@[self.spec_entries()[i].0@] == self.spec_entries()[i].1,
            forall|i: int, j: int|
                #![trigger self.spec_entries()[i], self.spec_entries()[j]]
                0 <= i < j < self.spec_entries().len() ==> self.spec_entries()[i].0@
                    != self.spec_entries()[j].0@,
            forall|k: K::V| #[trigger]
                self@.contains_key(k) ==> exists|i: int|
                    0 <= i < self.spec_entries().len() && (#[trigger] self.spec_entries()[i]).0@
                        == k,
    {
        let s = self.entries@;
        let keys = entry_keys(s);
        assert forall|i: int| 0 <= i < s.len() implies self@.contains_key(#[trigger] s[i].0@)
            && self@[s[i].0@] == s[i].1 by {
            assert(keys[i] == s[i].0@);
            let p = entry_position(s, s[i].0@);
            assert(0 <= p < s.len() && s[p].0@ == s[i].0@);
            assert(keys[p] == keys[i]);
        }
        assert forall|i: int, j: int| 0 <= i < j < s.len() implies #[trigger] s[i].0@
            != #[trigger] s[j].0@ by {
            assert(keys[i] != keys[j]);
        }
        assert forall|k: K::V| #[trigger] self@.contains_key(k) implies exists|i: int|
            0 <= i < self.spec_entries().len() && (#[trigger] self.spec_entries()[i]).0@ == k by {
            let i = choose|i: int| 0 <= i < keys.len() && keys[i] == k;
            assert(self.spec_entries()[i].0@ == k);
        }
        assert(self@.dom() =~= keys.to_set());
        keys.unique_seq_to_set();
        vstd::seq_lib::seq_to_set_is_finite(keys);
    }

    /// The empty map.
    pub fn new() -> (m: Self)
        ensures
            m.wf(),
            m@ == Map::<K::V, V>::empty(),
    {
        let m = VecMap { entries: Vec::new() };
        assert(m@ =~= Map::<K::V, V>::empty());
        m
    }

    /// Number of keys.
    pub fn len(&self) -> (n: usize)
        requires
            self.wf(),
        ensures
            n == self@.len(),
            n == self.spec_entries().len(),
    {
        proof {
            self.lemma_entries();
        }
        self.entries.len()
    }

    /// Whether no key is present.
    pub fn is_empty(&self) -> (b: bool)
        requires
            self.wf(),
        ensures
            b == (self@ == Map::<K::V, V>::empty()),
            b == (self@.len() == 0),
    {
        proof {
            self.lemma_entries();
            if self@.len() == 0 {
                assert(self@.dom() =~= Set::empty());
                assert(self@ =~= Map::<K::V, V>::empty());
            }
        }
        self.entries.len() == 0
    }

    /// Position of the entry with the given key.
    pub fn position<Q: View<V = K::V> + ?Sized>(&self, key: &Q) -> (r: Option<usize>) where
        K: Lookup<Q>,

        requires
            self.wf(),
        ensures
            match r {
                Some(i) => i < self.spec_entries().len() && self.spec_entries()[i as int].0@ == key@
                    && self@.contains_key(key@) && self@[key@] == self.spec_entries()[i as int].1,
                None => !self@.contains_key(key@),
            },
    {
        proof {
            self.lemma_entries();
        }
        let mut i: usize = 0;
        while i < self.entries.len()
            invariant
                self.wf(),
                i <= self.entries.len(),
                forall|j: int| 0 <= j < i ==> #[trigger] self.entries@[j].0@ != key@,
            decreases self.entries.len() - i,
        {
            if self.entries[i].0.matches_key(key) {
                proof {
                    self.lemma_entries();
                    assert(self.spec_entries()[i as int].0@ == key@);
                }
                return Some(i);
            }
            i += 1;
        }
        proof {
            self.lemma_entries();
            if self@.contains_key(key@) {
                let j = choose|j: int|
                    0 <= j < self.spec_entries().len() && self.spec_entries()[j].0@ == key@;
                assert(self.entries@[j].0@ == key@);
            }
        }
        None
    }

    /// Whether the key is present.
    pub fn contains_key<Q: View<V = K::V> + ?Sized>(&self, key: &Q) -> (b: bool) where K: Lookup<Q>
        requires
            self.wf(),
        ensures
            b == self@.contains_key(key@),
    {
        self.position(key).is_some()
    }

    /// The value stored for the key, if any.
    pub fn get<Q: View<V = K::V> + ?Sized>(&self, key: &Q) -> (r: Option<&V>) where K: Lookup<Q>
        requires
            self.wf(),
        ensures
            match r {
                Some(v) => self@.contains_key(key@) && *v == self@[key@],
                None => !self@.contains_key(key@),
            },
    {
        match self.position(key) {
            Some(i) => Some(&self.entries[i].1),
            None => None,
        }
    }

    /// The key at a position.
    pub fn key_at(&self, i: usize) -> (k: &K)
        requires
            i < self.spec_entries().len(),
        ensures
            *k == self.spec_entries()[i as int].0,
    {
        &self.entries[i].0
    }

    /// The value at a position.
    pub fn value_at(&self, i: usize) -> (v: &V)
        requires
            i < self.spec_entries().len(),
        ensures
            *v == self.spec_entries()[i as int].1,
    {
        &self.entries[i].1
    }

    /// The value at a position, for update in place.
    pub fn value_mut(&mut self, i: usize) -> (v: &mut V)
        requires
            old(self).wf(),
            i < old(self).spec_entries().len(),
        ensures
            *v == old(self).spec_entries()[i as int].1,
            final(self).wf(),
            final(self)@ == old(self)@.insert(old(self).spec_entries()[i as int].0@, *final(v)),
            final(self).spec_entries() == old(self).spec_entries().update(
                i as int,
                (old(self).spec_entries()[i as int].0, *final(v)),
            ),
    {
        let ghost s = self.entries@;
        proof {
            assert forall|v: V|
                {
                    let t = #[trigger] s.update(i as int, (s[i as int].0, v));
                    entry_keys(t).no_duplicates() && entries_map(t) == entries_map(s).insert(
                        s[i as int].0@,
                        v,
                    )
                } by {
                lemma_update_entry(s, i as int, v);
            }
        }
        &mut self.entries[i].1
    }

    /// Insert or overwrite; the previous value is returned.
    pub fn insert(&mut self, key: K, value: V) -> (r: Option<V>) where K: Lookup<K>
        requires
            old(self).wf(),
        ensures
            final(self).wf(),
            final(self)@ == old(self)@.insert(key@, value),
            match r {
                Some(v) => old(self)@.contains_key(key@) && v == old(self)@[key@],
                None => !old(self)@.contains_key(key@),
            },
    {
        match self.position(&key) {
            Some(i) => {
                let mut slot = value;
                let ghost before = *self;
                let ghost v0 = value;
                core::mem::swap(&mut self.entries[i].1, &mut slot);
                proof {
                    assert(self.entries@ =~= before.entries@.update(
                        i as int,
                        (before.entries@[i as int].0, v0),
                    ));
                    lemma_update_entry(before.entries@, i as int, v0);
                }
                Some(slot)
            },
            None => {
                let ghost before = *self;
                let ghost kv = key@;
                self.entries.push((key, value));
                proof {
                    before.lemma_entries();
                    lemma_push_entry(before.entries@, key, value);
                }
                None
            },
        }
    }

    /// Remove the key; its value is returned.
    pub fn remove<Q: View<V = K::V> + ?Sized>(&mut self, key: &Q) -> (r: Option<V>) where K: Lookup<Q>
        requires
            old(self).wf(),
        ensures
            final(self).wf(),
            final(self)@ == old(self)@.remove(key@),
            match r {
                Some(v) => old(self)@.contains_key(key@) && v == old(self)@[key@],
                None => !old(self)@.contains_key(key@),
            },
    {
        match self.position(key) {
            Some(i) => {
                let ghost before = *self;
                let (_k, v) = self.entries.remove(i);
                proof {
                    before.lemma_entries();
                    lemma_remove_entry(before.entries@, i as int);
                }
                Some(v)
            },
            None => {
                assert(self@ =~= old(self)@.remove(key@));
                None
            },
        }
    }
}

/// Overwriting the value of an entry overwrites the value of its key.
proof fn lemma_update_entry<K: View, V>(s: Seq<(K, V)>, n: int, value: V)
    requires
        entry_keys(s).no_duplicates(),
        0 <= n < s.len(),
    ensures
        entry_keys(s.update(n, (s[n].0, value))).no_duplicates(),
        entries_map(s.update(n, (s[n].0, value))) == entries_map(s).insert(s[n].0@, value),
{
    let t = s.update(n, (s[n].0, value));
    let ks = entry_keys(s);
    assert(entry_keys(t) =~= ks);
    assert(ks[n] == s[n].0@);
    let a = entries_map(t);
    let b = entries_map(s).insert(s[n].0@, value);
    assert(a.dom() =~= b.dom());
    assert forall|k: K::V| a.dom().contains(k) implies #[trigger] a[k] == b[k] by {
        let i = choose|i: int| 0 <= i < ks.len() && ks[i] == k;
        assert(t[i].0@ == k && s[i].0@ == k);
        let p = entry_position(t, k);
        assert(0 <= p < t.len() && t[p].0@ == k);
        assert(ks[p] == ks[i]);
        let q = entry_position(s, k);
        assert(0 <= q < s.len() && s[q].0@ == k);
        assert(ks[q] == ks[i]);
    }
    assert(a =~= b);
}

/// Appending an entry with a fresh key inserts it.
proof fn lemma_push_entry<K: View, V>(s: Seq<(K, V)>, key: K, value: V)
    requires
        entry_keys(s).no_duplicates(),
        !entries_map(s).contains_key(key@),
    ensures
        entry_keys(s.push((key, value))).no_duplicates(),
        entries_map(s.push((key, value))) == entries_map(s).insert(key@, value),
{
    let t = s.push((key, value));
    let ks = entry_keys(s);
    let kt = entry_keys(t);
    assert(kt =~= ks.push(key@));
    assert(!ks.contains(key@));
    assert(kt.no_duplicates());
    let a = entries_map(t);
    let b = entries_map(s).insert(key@, value);
    assert forall|k: K::V| a.dom().contains(k) == b.dom().contains(k) by {
        if ks.contains(k) {
            let i = choose|i: int| 0 <= i < ks.len() && ks[i] == k;
            assert(kt[i] == k);
        }
        if k == key@ {
            assert(kt[s.len() as int] == k);
        }
        if kt.contains(k) {
            let i = choose|i: int| 0 <= i < kt.len() && kt[i] == k;
            if i < s.len() {
                assert(ks[i] == k);
            }
        }
    }
    assert forall|k: K::V| a.dom().contains(k) implies #[trigger] a[k] == b[k] by {
        let i = choose|i: int| 0 <= i < kt.len() && kt[i] == k;
        assert(t[i].0@ == k);
        let p = entry_position(t, k);
        assert(0 <= p < t.len() && t[p].0@ == k);
        assert(kt[p] == kt[i]);
        if k != key@ {
            assert(s[i].0@ == k);
            let q = entry_position(s, k);
            assert(0 <= q < s.len() && s[q].0@ == k);
            assert(ks[q] == ks[i]);
            assert(ks.contains(k));
        }
    }
    assert(a =~= b);
}

/// Dropping an entry removes its key.
proof fn lemma_remove_entry<K: View, V>(s: Seq<(K, V)>, n: int)
    requires
        entry_keys(s).no_duplicates(),
        0 <= n < s.len(),
    ensures
        entry_keys(s.remove(n)).no_duplicates(),
        entries_map(s.remove(n)) == entries_map(s).remove(s[n].0@),
{
    let t = s.remove(n);
    let ks = entry_keys(s);
    let kt = entry_keys(t);
    assert(kt =~= ks.remove(n));
    assert forall|i: int, j: int| 0 <= i < kt.len() && 0 <= j < kt.len() && i != j implies kt[i]
        != kt[j] by {
        let i2 = if i < n { i } else { i + 1 };
        let j2 = if j < n { j } else { j + 1 };
        assert(kt[i] == ks[i2] && kt[j] == ks[j2]);
    }
    let a = entries_map(t);
    let b = entries_map(s).remove(s[n].0@);
    assert forall|k: K::V| a.dom().contains(k) == b.dom().contains(k) by {
        if kt.contains(k) {
            let i = choose|i: int| 0 <= i < kt.len() && kt[i] == k;
            let i2 = if i < n { i } else { i + 1 };
            assert(ks[i2] == k);
            assert(ks[n] == s[n].0@);
        }
        if ks.contains(k) && k != s[n].0@ {
            let i = choose|i: int| 0 <= i < ks.len() && ks[i] == k;
            assert(i != n);
            let i2 = if i < n { i } else { i - 1 };
            assert(kt[i2] == k);
        }
    }
    assert forall|k: K::V| a.dom().contains(k) implies #[trigger] a[k] == b[k] by {
        let i = choose|i: int| 0 <= i < kt.len() && kt[i] == k;
        assert(t[i].0@ == k);
        let p = entry_position(t, k);
        assert(0 <= p < t.len() && t[p].0@ == k);
        assert(kt[p] == kt[i]);
        let p2 = if p < n { p } else { p + 1 };
        assert(s[p2].0@ == k);
        let q = entry_position(s, k);
        assert(0 <= q < s.len() && s[q].0@ == k);
        assert(ks[q] == ks[p2]);
    }
    assert(a =~= b);
}

/// Filtering one element more.
pub proof fn lemma_filter_step<A>(s: Seq<A>, i: int, p: spec_fn(A) -> bool)
    requires
        0 <= i < s.len(),
    ensures
        s.take(i + 1).filter(p) == (if p(s[i]) {
            s.take(i).filter(p).push(s[i])
        } else {
            s.take(i).filter(p)
        }),
{
    reveal(Seq::filter);
    assert(s.take(i + 1).drop_last() =~= s.take(i));
    assert(s.take(i + 1).last() == s[i]);
}

/// Filtering keeps no more than there was.
pub proof fn lemma_filter_shortens<A>(s: Seq<A>, p: spec_fn(A) -> bool)
    ensures
        s.filter(p).len() <= s.len(),
    decreases s.len(),
{
    reveal(Seq::filter);
    if s.len() > 0 {
        lemma_filter_shortens(s.drop_last(), p);
    }
}

/// A filter that every element passes keeps the sequence.
pub proof fn lemma_filter_passes<A>(s: Seq<A>, pred: spec_fn(A) -> bool)
    requires
        forall|i: int| 0 <= i < s.len() ==> pred(#[trigger] s[i]),
    ensures
        s.filter(pred) == s,
    decreases s.len(),
{
    reveal(Seq::filter);
    if s.len() > 0 {
        lemma_filter_passes(s.drop_last(), pred);
        assert(pred(s.last()));
        assert(s.drop_last().push(s.last()) =~= s);
    }
}

/// What a filter keeps is in the list.
pub proof fn lemma_filter_from<A>(s: Seq<A>, p: spec_fn(A) -> bool, j: int)
    requires
        0 <= j < s.filter(p).len(),
    ensures
        s.contains(s.filter(p)[j]),
    decreases s.len(),
{
    reveal(Seq::filter);
    if s.len() > 0 {
        let head = s.drop_last();
        if p(s.last()) && j == head.filter(p).len() {
            assert(s[s.len() - 1] == s.filter(p)[j]);
        } else {
            lemma_filter_from(head, p, j);
            let i = choose|i: int| 0 <= i < head.len() && head[i] == head.filter(p)[j];
            assert(s[i] == s.filter(p)[j]);
        }
    }
}

/// A filter keeps a list without repetition so.
pub proof fn lemma_filter_distinct<A>(s: Seq<A>, p: spec_fn(A) -> bool)
    requires
        s.no_duplicates(),
    ensures
        s.filter(p).no_duplicates(),
    decreases s.len(),
{
    reveal(Seq::filter);
    if s.len() > 0 {
        let head = s.drop_last();
        assert(head.no_duplicates());
        lemma_filter_distinct(head, p);
        let h = head.filter(p);
        assert forall|a: int, b: int|
            0 <= a < s.filter(p).len() && 0 <= b < s.filter(p).len() && a != b implies s.filter(
            p,
        )[a] != s.filter(p)[b] by {
            if a == h.len() {
                lemma_filter_from(head, p, b);
            } else if b == h.len() {
                lemma_filter_from(head, p, a);
            }
        }
    }
}

/// A filter keeps exactly those items of a list that pass.
pub proof fn lemma_filter_membership<A>(s: Seq<A>, p: spec_fn(A) -> bool, x: A)
    ensures
        s.filter(p).contains(x) <==> s.contains(x) && p(x),
{
    let kept = s.filter(p);
    if kept.contains(x) {
        let k = choose|k: int| 0 <= k < kept.len() && kept[k] == x;
        s.lemma_filter_pred(p, k);
        lemma_filter_from(s, p, k);
    }
    if s.contains(x) && p(x) {
        let i = choose|i: int| 0 <= i < s.len() && s[i] == x;
        s.lemma_filter_contains(p, i);
    }
}

} // verus!
