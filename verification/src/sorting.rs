//! Ascending order of a window's samples.

use std::collections::VecDeque;
use vstd::prelude::*;
use vstd::relations::{sorted_by, total_ordering};
use vstd::seq_lib::lemma_sorted_unique;

verus! {

/// The order on samples: `a` comes no later than `b`.
pub open spec fn at_most() -> spec_fn(i32, i32) -> bool {
    |a: i32, b: i32| a <= b
}

/// No sample of `s` is followed by a smaller one.
pub open spec fn is_ascending(s: Seq<i32>) -> bool {
    forall|i: int, j: int| 0 <= i <= j < s.len() ==> s[i] <= s[j]
}

/// The samples of `s`, each as often as in `s`, in ascending order.
pub open spec fn ascending(s: Seq<i32>) -> Seq<i32> {
    s.sort_by(at_most())
}

/// `ascending(s)` is in ascending order and rearranges `s`.
pub proof fn lemma_ascending(s: Seq<i32>)
    ensures
        is_ascending(ascending(s)),
        ascending(s).to_multiset() == s.to_multiset(),
        ascending(s).len() == s.len(),
{
    assert(total_ordering(at_most()));
    s.lemma_sort_by_ensures(at_most());
    let t = ascending(s);
    vstd::seq_lib::to_multiset_len(s);
    vstd::seq_lib::to_multiset_len(t);
    assert forall|i: int, j: int| 0 <= i <= j < t.len() implies t[i] <= t[j] by {
        if i < j {
            assert(at_most()(t[i], t[j]));
        }
    }
}

/// Only one rearrangement of `s` is in ascending order.
pub proof fn lemma_ascending_unique(s: Seq<i32>, t: Seq<i32>)
    requires
        is_ascending(t),
        t.to_multiset() == s.to_multiset(),
    ensures
        t == ascending(s),
{
    assert(total_ordering(at_most()));
    s.lemma_sort_by_ensures(at_most());
    assert(sorted_by(t, at_most()));
    lemma_sorted_unique(t, ascending(s), at_most());
}

/// Equal samples are in ascending order as they stand.
pub proof fn lemma_ascending_of_equal(s: Seq<i32>)
    requires
        forall|i: int, j: int| 0 <= i < s.len() && 0 <= j < s.len() ==> s[i] == s[j],
    ensures
        ascending(s) == s,
{
    lemma_ascending_unique(s, s);
}

/// Sorts `v` in place with `slice::sort_unstable`. Trusted: afterwards `v`
/// is in ascending order and holds the samples it held before, each as often.
#[verifier::external_body]
fn sort_in_place(v: &mut Vec<i32>)
    ensures
        is_ascending(final(v)@),
        final(v)@.to_multiset() == old(v)@.to_multiset(),
{
    v.sort_unstable();
}

/// A copy of the window's samples in ascending order.
pub fn sorted_copy(buffer: &VecDeque<i32>) -> (sorted: Vec<i32>)
    ensures
        sorted@ == ascending(buffer@),
{
    let mut sorted: Vec<i32> = Vec::new();
    let mut i: usize = 0;
    while i < buffer.len()
        invariant
            i <= buffer@.len(),
            sorted@ == buffer@.take(i as int),
        decreases buffer@.len() - i,
    {
        sorted.push(buffer[i]);
        i += 1;
    }
    assert(sorted@ == buffer@);
    sort_in_place(&mut sorted);
    proof {
        lemma_ascending_unique(buffer@, sorted@);
    }
    sorted
}

} // verus!
