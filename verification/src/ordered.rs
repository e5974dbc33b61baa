//! Sorted enumerations of sets of integers.

use std::collections::{BTreeMap, BTreeSet};
use vstd::prelude::*;

verus! {

/// Strictly increasing.
pub open spec fn increasing_u64(s: Seq<u64>) -> bool {
    forall|i: int, j: int| 0 <= i < j < s.len() ==> s[i] < s[j]
}

/// Add `x` to an increasing list, unless it is listed.
pub fn insert_sorted_u64(v: &mut Vec<u64>, x: u64)
    requires
        increasing_u64(old(v)@),
    ensures
        increasing_u64(final(v)@),
        final(v)@.to_set() == old(v)@.to_set().insert(x),
{
    let mut i: usize = 0;
    while i < v.len() && v[i] < x
        invariant
            *v == *old(v),
            i <= v.len(),
            forall|j: int| 0 <= j < i ==> v@[j] < x,
        decreases v.len() - i,
    {
        i += 1;
    }
    let ghost before = v@;
    if i < v.len() && v[i] == x {
        assert(before.contains(before[i as int]));
        assert(before.to_set() =~= before.to_set().insert(x));
        return;
    }
    v.insert(i, x);
    proof {
        let after = v@;
        assert forall|a: int, b: int| 0 <= a < b < after.len() implies after[a] < after[b] by {
            let a2 = if a < i { a } else { a - 1 };
            let b2 = if b < i { b } else { b - 1 };
            if a != i {
                assert(after[a] == before[a2]);
            }
            if b != i {
                assert(after[b] == before[b2]);
            }
        }
        assert forall|y: u64| after.contains(y) == (before.contains(y) || y == x) by {
            if after.contains(y) && y != x {
                let k = choose|k: int| 0 <= k < after.len() && after[k] == y;
                let k2 = if k < i { k } else { k - 1 };
                assert(before[k2] == y);
            }
            if before.contains(y) {
                let k = choose|k: int| 0 <= k < before.len() && before[k] == y;
                let k2 = if k < i { k } else { k + 1 };
                assert(after[k2] == y);
            }
            if y == x {
                assert(after[i as int] == y);
            }
        }
        assert(after.to_set() =~= before.to_set().insert(x));
    }
}

/// The listed values in increasing order, each once.
pub fn sorted_distinct_u64(items: &[u64]) -> (v: Vec<u64>)
    ensures
        increasing_u64(v@),
        v@.to_set() == items@.to_set(),
{
    let mut v: Vec<u64> = Vec::new();
    let mut i: usize = 0;
    assert(v@.to_set() =~= items@.take(0).to_set());
    while i < items.len()
        invariant
            i <= items.len(),
            increasing_u64(v@),
            v@.to_set() == items@.take(i as int).to_set(),
        decreases items.len() - i,
    {
        insert_sorted_u64(&mut v, items[i]);
        proof {
            assert(items@.take(i + 1) =~= items@.take(i as int).push(items@[i as int]));
            crate::accord::types::lemma_push_to_set(items@.take(i as int), items@[i as int]);
        }
        i += 1;
    }
    assert(items@.take(items@.len() as int) =~= items@);
    v
}

/// The members of a set in increasing order.
pub fn set_members_u64(set: &BTreeSet<u64>) -> (v: Vec<u64>)
    ensures
        increasing_u64(v@),
        v@.to_set() == set@,
{
    let mut items: Vec<u64> = Vec::new();
    let ghost all = vstd::std_specs::iter::IteratorSpec::remaining(
        &vstd::std_specs::btree::spec_btree_keys_iter(set),
    );
    for x in it: set.iter()
        invariant
            it.seq() == all,
            items@ == all.take(it.index()).unref(),
    {
        items.push(*x);
        assert(items@ =~= all.take(it.index() + 1).unref());
    }
    assert(all.take(all.len() as int) =~= all);
    sorted_distinct_u64(items.as_slice())
}

/// Increasing lists of the same values are equal.
pub proof fn increasing_u64_is_canonical(a: Seq<u64>, b: Seq<u64>)
    requires
        increasing_u64(a),
        increasing_u64(b),
        a.to_set() == b.to_set(),
    ensures
        a == b,
    decreases a.len(),
{
    if a.len() == 0 {
        if b.len() > 0 {
            assert(a.to_set().contains(b[0])) by {
                assert(b.contains(b[0]));
            }
        }
        assert(a =~= b);
    } else {
        assert(a.contains(a.last()));
        assert(b.to_set().contains(a.last()));
        let k = choose|k: int| 0 <= k < b.len() && b[k] == a.last();
        assert(b.contains(b.last()));
        assert(a.to_set().contains(b.last()));
        let m = choose|m: int| 0 <= m < a.len() && a[m] == b.last();
        assert(a.last() == b.last());
        let a2 = a.drop_last();
        let b2 = b.drop_last();
        assert forall|x: u64| a2.contains(x) == b2.contains(x) by {
            if a2.contains(x) {
                let i = choose|i: int| 0 <= i < a2.len() && a2[i] == x;
                assert(a[i] == x && x < a.last());
                assert(a.contains(x));
                assert(b.to_set().contains(x));
                let j = choose|j: int| 0 <= j < b.len() && b[j] == x;
                assert(b2[j] == x);
            }
            if b2.contains(x) {
                let i = choose|i: int| 0 <= i < b2.len() && b2[i] == x;
                assert(b[i] == x && x < b.last());
                assert(b.contains(x));
                assert(a.to_set().contains(x));
                let j = choose|j: int| 0 <= j < a.len() && a[j] == x;
                assert(a2[j] == x);
            }
        }
        assert(a2.to_set() =~= b2.to_set());
        increasing_u64_is_canonical(a2, b2);
        assert(a =~= a2.push(a.last()));
        assert(b =~= b2.push(b.last()));
    }
}

/// Strictly increasing.
pub open spec fn increasing_u128(s: Seq<u128>) -> bool {
    forall|i: int, j: int| 0 <= i < j < s.len() ==> s[i] < s[j]
}

/// Add `x` to an increasing list, unless it is listed.
pub fn insert_sorted_u128(v: &mut Vec<u128>, x: u128)
    requires
        increasing_u128(old(v)@),
    ensures
        increasing_u128(final(v)@),
        final(v)@.to_set() == old(v)@.to_set().insert(x),
{
    let mut i: usize = 0;
    while i < v.len() && v[i] < x
        invariant
            *v == *old(v),
            i <= v.len(),
            forall|j: int| 0 <= j < i ==> v@[j] < x,
        decreases v.len() - i,
    {
        i += 1;
    }
    let ghost before = v@;
    if i < v.len() && v[i] == x {
        assert(before.contains(before[i as int]));
        assert(before.to_set() =~= before.to_set().insert(x));
        return;
    }
    v.insert(i, x);
    proof {
        let after = v@;
        assert forall|a: int, b: int| 0 <= a < b < after.len() implies after[a] < after[b] by {
            let a2 = if a < i { a } else { a - 1 };
            let b2 = if b < i { b } else { b - 1 };
            if a != i {
                assert(after[a] == before[a2]);
            }
            if b != i {
                assert(after[b] == before[b2]);
            }
        }
        assert forall|y: u128| after.contains(y) == (before.contains(y) || y == x) by {
            if after.contains(y) && y != x {
                let k = choose|k: int| 0 <= k < after.len() && after[k] == y;
                let k2 = if k < i { k } else { k - 1 };
                assert(before[k2] == y);
            }
            if before.contains(y) {
                let k = choose|k: int| 0 <= k < before.len() && before[k] == y;
                let k2 = if k < i { k } else { k + 1 };
                assert(after[k2] == y);
            }
            if y == x {
                assert(after[i as int] == y);
            }
        }
        assert(after.to_set() =~= before.to_set().insert(x));
    }
}

/// The listed values in increasing order, each once.
pub fn sorted_distinct_u128(items: &[u128]) -> (v: Vec<u128>)
    ensures
        increasing_u128(v@),
        v@.to_set() == items@.to_set(),
{
    let mut v: Vec<u128> = Vec::new();
    let mut i: usize = 0;
    assert(v@.to_set() =~= items@.take(0).to_set());
    while i < items.len()
        invariant
            i <= items.len(),
            increasing_u128(v@),
            v@.to_set() == items@.take(i as int).to_set(),
        decreases items.len() - i,
    {
        insert_sorted_u128(&mut v, items[i]);
        proof {
            assert(items@.take(i + 1) =~= items@.take(i as int).push(items@[i as int]));
            crate::accord::types::lemma_push_to_set(items@.take(i as int), items@[i as int]);
        }
        i += 1;
    }
    assert(items@.take(items@.len() as int) =~= items@);
    v
}

/// The members of a set in increasing order.
pub fn set_members_u128(set: &BTreeSet<u128>) -> (v: Vec<u128>)
    ensures
        increasing_u128(v@),
        v@.to_set() == set@,
{
    let mut items: Vec<u128> = Vec::new();
    let ghost all = vstd::std_specs::iter::IteratorSpec::remaining(
        &vstd::std_specs::btree::spec_btree_keys_iter(set),
    );
    for x in it: set.iter()
        invariant
            it.seq() == all,
            items@ == all.take(it.index()).unref(),
    {
        items.push(*x);
        assert(items@ =~= all.take(it.index() + 1).unref());
    }
    assert(all.take(all.len() as int) =~= all);
    sorted_distinct_u128(items.as_slice())
}

/// Increasing lists of the same values are equal.
pub proof fn increasing_u128_is_canonical(a: Seq<u128>, b: Seq<u128>)
    requires
        increasing_u128(a),
        increasing_u128(b),
        a.to_set() == b.to_set(),
    ensures
        a == b,
    decreases a.len(),
{
    if a.len() == 0 {
        if b.len() > 0 {
            assert(a.to_set().contains(b[0])) by {
                assert(b.contains(b[0]));
            }
        }
        assert(a =~= b);
    } else {
        assert(a.contains(a.last()));
        assert(b.to_set().contains(a.last()));
        let k = choose|k: int| 0 <= k < b.len() && b[k] == a.last();
        assert(b.contains(b.last()));
        assert(a.to_set().contains(b.last()));
        let m = choose|m: int| 0 <= m < a.len() && a[m] == b.last();
        assert(a.last() == b.last());
        let a2 = a.drop_last();
        let b2 = b.drop_last();
        assert forall|x: u128| a2.contains(x) == b2.contains(x) by {
            if a2.contains(x) {
                let i = choose|i: int| 0 <= i < a2.len() && a2[i] == x;
                assert(a[i] == x && x < a.last());
                assert(a.contains(x));
                assert(b.to_set().contains(x));
                let j = choose|j: int| 0 <= j < b.len() && b[j] == x;
                assert(b2[j] == x);
            }
            if b2.contains(x) {
                let i = choose|i: int| 0 <= i < b2.len() && b2[i] == x;
                assert(b[i] == x && x < b.last());
                assert(b.contains(x));
                assert(a.to_set().contains(x));
                let j = choose|j: int| 0 <= j < a.len() && a[j] == x;
                assert(a2[j] == x);
            }
        }
        assert(a2.to_set() =~= b2.to_set());
        increasing_u128_is_canonical(a2, b2);
        assert(a =~= a2.push(a.last()));
        assert(b =~= b2.push(b.last()));
    }
}

/// The values of a set in increasing order.
pub open spec fn ascending_u64(s: Set<u64>) -> Seq<u64> {
    choose|v: Seq<u64>| #![auto] increasing_u64(v) && v.to_set() == s
}

/// An increasing list is the ordered enumeration of its values.
pub proof fn lemma_ascending_u64(v: Seq<u64>)
    requires
        increasing_u64(v),
    ensures
        ascending_u64(v.to_set()) == v,
{
    let s = v.to_set();
    assert(increasing_u64(v) && v.to_set() == s);
    let w = ascending_u64(s);
    assert(increasing_u64(w) && w.to_set() == s);
    increasing_u64_is_canonical(v, w);
}

/// The members of one set that another lacks, in increasing order.
pub fn difference_u64(expected: &BTreeSet<u64>, observed: &BTreeSet<u64>) -> (v: Vec<u64>)
    ensures
        increasing_u64(v@),
        v@.to_set() == expected@.difference(observed@),
        v@ == ascending_u64(expected@.difference(observed@)),
{
    let all = set_members_u64(expected);
    let mut v: Vec<u64> = Vec::new();
    let mut i: usize = 0;
    while i < all.len()
        invariant
            i <= all.len(),
            increasing_u64(all@),
            increasing_u64(v@),
            forall|k: int| 0 <= k < v@.len() ==> all@.take(i as int).contains(#[trigger] v@[k]),
            forall|x: u64| #[trigger]
                v@.contains(x) <==> all@.take(i as int).contains(x) && !observed@.contains(x),
        decreases all.len() - i,
    {
        let ghost before = v@;
        let x: u64 = all[i];
        proof {
            assert(all@.take(i + 1) =~= all@.take(i as int).push(x));
            assert forall|y: u64| #[trigger]
                all@.take(i + 1).contains(y) <==> (all@.take(i as int).contains(y) || y == x) by {
                if all@.take(i as int).contains(y) {
                    let k = choose|k: int| 0 <= k < i && all@.take(i as int)[k] == y;
                    assert(all@.take(i + 1)[k] == y);
                }
                assert(all@.take(i + 1)[i as int] == x);
            }
        }
        if !observed.contains(&x) {
            v.push(x);
            proof {
                assert forall|y: u64| #[trigger]
                    v@.contains(y) <==> (before.contains(y) || y == x) by {
                    if before.contains(y) {
                        let k = choose|k: int| 0 <= k < before.len() && before[k] == y;
                        assert(v@[k] == y);
                    }
                    assert(v@[before.len() as int] == x);
                }
                assert forall|k: int| 0 <= k < v@.len() implies all@.take(i + 1).contains(
                    #[trigger] v@[k],
                ) by {
                    if k < before.len() {
                        assert(all@.take(i as int).contains(before[k]));
                    }
                }
                assert forall|a: int, b: int| 0 <= a < b < v@.len() implies v@[a] < v@[b] by {
                    if b == before.len() {
                        assert(all@.take(i as int).contains(before[a]));
                        let k = choose|k: int|
                            0 <= k < i && all@.take(i as int)[k] == before[a];
                        assert(all@[k] < all@[i as int]);
                    }
                }
            }
        } else {
            assert forall|k: int| 0 <= k < v@.len() implies all@.take(i + 1).contains(
                #[trigger] v@[k],
            ) by {
                assert(all@.take(i as int).contains(v@[k]));
            }
        }
        i = i + 1;
    }
    proof {
        assert(all@.take(i as int) =~= all@);
        assert forall|x: u64| v@.to_set().contains(x) == expected@.difference(observed@).contains(
            x,
        ) by {
            assert(v@.contains(x) <==> all@.contains(x) && !observed@.contains(x));
            assert(all@.to_set().contains(x) == expected@.contains(x));
        }
        assert(v@.to_set() =~= expected@.difference(observed@));
        lemma_ascending_u64(v@);
    }
    v
}

/// The keys of a map in increasing order.
pub fn map_keys_u64<V>(map: &BTreeMap<u64, V>) -> (v: Vec<u64>)
    ensures
        increasing_u64(v@),
        v@.to_set() == map@.dom(),
        v@ == ascending_u64(map@.dom()),
{
    let mut items: Vec<u64> = Vec::new();
    let ghost all = vstd::std_specs::iter::IteratorSpec::remaining(
        &vstd::std_specs::btree::spec_keys_iter(map),
    );
    for x in it: map.keys()
        invariant
            it.seq() == all,
            items@ == all.take(it.index()).unref(),
    {
        items.push(*x);
        assert(items@ =~= all.take(it.index() + 1).unref());
    }
    assert(all.take(all.len() as int) =~= all);
    let v = sorted_distinct_u64(items.as_slice());
    proof {
        lemma_ascending_u64(v@);
    }
    v
}

/// The values of a set in increasing order.
pub open spec fn ascending_u128(s: Set<u128>) -> Seq<u128> {
    choose|v: Seq<u128>| #![auto] increasing_u128(v) && v.to_set() == s
}

/// An increasing list is the ordered enumeration of its values.
pub proof fn lemma_ascending_u128(v: Seq<u128>)
    requires
        increasing_u128(v),
    ensures
        ascending_u128(v.to_set()) == v,
{
    let s = v.to_set();
    assert(increasing_u128(v) && v.to_set() == s);
    let w = ascending_u128(s);
    assert(increasing_u128(w) && w.to_set() == s);
    increasing_u128_is_canonical(v, w);
}

/// The members of one set that another lacks, in increasing order.
pub fn difference_u128(expected: &BTreeSet<u128>, observed: &BTreeSet<u128>) -> (v: Vec<u128>)
    ensures
        increasing_u128(v@),
        v@.to_set() == expected@.difference(observed@),
        v@ == ascending_u128(expected@.difference(observed@)),
{
    let all = set_members_u128(expected);
    let mut v: Vec<u128> = Vec::new();
    let mut i: usize = 0;
    while i < all.len()
        invariant
            i <= all.len(),
            increasing_u128(all@),
            increasing_u128(v@),
            forall|k: int| 0 <= k < v@.len() ==> all@.take(i as int).contains(#[trigger] v@[k]),
            forall|x: u128| #[trigger]
                v@.contains(x) <==> all@.take(i as int).contains(x) && !observed@.contains(x),
        decreases all.len() - i,
    {
        let ghost before = v@;
        let x: u128 = all[i];
        proof {
            assert(all@.take(i + 1) =~= all@.take(i as int).push(x));
            assert forall|y: u128| #[trigger]
                all@.take(i + 1).contains(y) <==> (all@.take(i as int).contains(y) || y == x) by {
                if all@.take(i as int).contains(y) {
                    let k = choose|k: int| 0 <= k < i && all@.take(i as int)[k] == y;
                    assert(all@.take(i + 1)[k] == y);
                }
                assert(all@.take(i + 1)[i as int] == x);
            }
        }
        if !observed.contains(&x) {
            v.push(x);
            proof {
                assert forall|y: u128| #[trigger]
                    v@.contains(y) <==> (before.contains(y) || y == x) by {
                    if before.contains(y) {
                        let k = choose|k: int| 0 <= k < before.len() && before[k] == y;
                        assert(v@[k] == y);
                    }
                    assert(v@[before.len() as int] == x);
                }
                assert forall|k: int| 0 <= k < v@.len() implies all@.take(i + 1).contains(
                    #[trigger] v@[k],
                ) by {
                    if k < before.len() {
                        assert(all@.take(i as int).contains(before[k]));
                    }
                }
                assert forall|a: int, b: int| 0 <= a < b < v@.len() implies v@[a] < v@[b] by {
                    if b == before.len() {
                        assert(all@.take(i as int).contains(before[a]));
                        let k = choose|k: int|
                            0 <= k < i && all@.take(i as int)[k] == before[a];
                        assert(all@[k] < all@[i as int]);
                    }
                }
            }
        } else {
            assert forall|k: int| 0 <= k < v@.len() implies all@.take(i + 1).contains(
                #[trigger] v@[k],
            ) by {
                assert(all@.take(i as int).contains(v@[k]));
            }
        }
        i = i + 1;
    }
    proof {
        assert(all@.take(i as int) =~= all@);
        assert forall|x: u128| v@.to_set().contains(x) == expected@.difference(observed@).contains(
            x,
        ) by {
            assert(v@.contains(x) <==> all@.contains(x) && !observed@.contains(x));
            assert(all@.to_set().contains(x) == expected@.contains(x));
        }
        assert(v@.to_set() =~= expected@.difference(observed@));
        lemma_ascending_u128(v@);
    }
    v
}

} // verus!
