//! What several phases share: who is missing.

use std::collections::BTreeSet;

use vstd::prelude::*;

use super::phase::{BootstrapError, BootstrapPhase};
use crate::ordered::difference_u64;
use crate::text::{append_bracketed, append_decimal, decimal_list};

verus! {

/// A count, a noun and a list.
pub open spec fn counted_list(noun: Seq<char>, items: Seq<Seq<char>>) -> Seq<char> {
    crate::text::decimal_text(items.len()) + noun + crate::text::bracketed(items)
}

/// A count, a noun and a list.
pub fn counted_text(noun: &str, items: &[String]) -> (t: String)
    ensures
        t@ == counted_list(noun@, crate::text::text_views(items@)),
{
    let mut t = "".to_owned();
    proof {
        reveal_strlit("");
    }
    append_decimal(&mut t, items.len() as u64);
    t.append(noun);
    append_bracketed(&mut t, items);
    assert(t@ =~= counted_list(noun@, crate::text::text_views(items@)));
    t
}

/// Who is expected and not observed, in increasing order; none where all are
/// there.
pub fn missing(expected: &BTreeSet<u64>, observed: &BTreeSet<u64>) -> (r: Option<Vec<u64>>)
    ensures
        match r {
            Some(v) => {
                &&& v@.len() > 0
                &&& crate::ordered::increasing_u64(v@)
                &&& v@.to_set() == expected@.difference(observed@)
                &&& v@ == crate::ordered::ascending_u64(expected@.difference(observed@))
            },
            None => expected@.subset_of(observed@),
        },
{
    let diff = difference_u64(expected, observed);
    if diff.len() == 0 {
        proof {
            assert forall|x: u64| expected@.contains(x) implies observed@.contains(x) by {
                if !observed@.contains(x) {
                    assert(expected@.difference(observed@).contains(x));
                    assert(diff@.contains(x));
                }
            }
        }
        None
    } else {
        Some(diff)
    }
}

/// The failure of a phase for what is missing.
pub fn missing_error(phase: BootstrapPhase, kind: &str, missing: Vec<u64>) -> (e: BootstrapError)
    ensures
        e.says(
            phase,
            counted_list(
                " "@ + kind@ + "(s) missing: "@,
                crate::text::decimal_texts(missing@),
            ),
        ),
{
    let mut noun = " ".to_owned();
    noun.append(kind);
    noun.append("(s) missing: ");
    let items = decimal_list(missing.as_slice());
    BootstrapError::from_source(phase, counted_text(noun.as_str(), items.as_slice()))
}

/// A list is given with its length, what it is of, and its items.
pub proof fn lists_are_given_with_their_length(noun: Seq<char>, items: Seq<Seq<char>>)
    ensures
        counted_list(noun, items) == crate::text::decimal_text(items.len()) + noun
            + crate::text::bracketed(items),
{
}

} // verus!
