//! The outlier filter: samples outside the fences around the quartiles are
//! left out before the window is averaged.
//!
//! The quartiles are taken by index from the window in ascending order, the
//! first at a quarter of the count (rounded down) and the third at three
//! times that index; nothing is interpolated.

use crate::sorting::{ascending, lemma_ascending, lemma_ascending_of_equal, sorted_copy};
use crate::stats::all_equal;
use std::collections::VecDeque;
use vstd::prelude::*;

verus! {

/// Where the first quartile of `count` samples stands in ascending order.
pub open spec fn first_quartile_index(count: nat) -> int {
    (count / 4) as int
}

/// Where the third quartile of `count` samples stands in ascending order.
pub open spec fn third_quartile_index(count: nat) -> int {
    3 * first_quartile_index(count)
}

/// The first quartile of the samples.
pub open spec fn first_quartile(s: Seq<i32>) -> int
    recommends
        s.len() > 0,
{
    ascending(s)[first_quartile_index(s.len())] as int
}

/// The third quartile of the samples.
pub open spec fn third_quartile(s: Seq<i32>) -> int
    recommends
        s.len() > 0,
{
    ascending(s)[third_quartile_index(s.len())] as int
}

/// The distance from the first quartile to the third.
pub open spec fn interquartile_range(s: Seq<i32>) -> int {
    third_quartile(s) - first_quartile(s)
}

/// The least value that the filter keeps.
pub open spec fn lower_fence(s: Seq<i32>) -> int {
    first_quartile(s) - interquartile_range(s)
}

/// The greatest value that the filter keeps.
pub open spec fn upper_fence(s: Seq<i32>) -> int {
    third_quartile(s) + interquartile_range(s)
}

/// `x` lies within the fences of `s`.
pub open spec fn is_inlier(s: Seq<i32>, x: i32) -> bool {
    lower_fence(s) <= x <= upper_fence(s)
}

/// The samples of `s` within its fences, in the order they have in `s`.
pub open spec fn inliers(s: Seq<i32>) -> Seq<i32> {
    s.filter(|x: i32| is_inlier(s, x))
}

/// `at` gives, for each position of `part`, a position of `whole` that holds
/// the same sample, and later positions of `part` go to later ones of `whole`.
pub open spec fn embeds(part: Seq<i32>, whole: Seq<i32>, at: Seq<int>) -> bool {
    &&& at.len() == part.len()
    &&& forall|k: int| 0 <= k < at.len() ==> 0 <= #[trigger] at[k] < whole.len() && part[k] == whole[at[k]]
    &&& forall|k: int, l: int| 0 <= k < l < at.len() ==> at[k] < at[l]
}

/// `part` is what is left of `whole` when some of its samples are taken out.
pub open spec fn is_subsequence(part: Seq<i32>, whole: Seq<i32>) -> bool {
    exists|at: Seq<int>| embeds(part, whole, at)
}

/// The quartile indices lie in the window, the first no later than the third.
pub proof fn lemma_quartile_indices(count: nat)
    requires
        count > 0,
    ensures
        0 <= first_quartile_index(count) <= third_quartile_index(count) < count,
{
}

proof fn lemma_filter_embeds(s: Seq<i32>, keep: spec_fn(i32) -> bool) -> (at: Seq<int>)
    ensures
        embeds(s.filter(keep), s, at),
    decreases s.len(),
{
    reveal(Seq::filter);
    if s.len() == 0 {
        Seq::empty()
    } else {
        let rest = s.drop_last();
        let before = lemma_filter_embeds(rest, keep);
        if keep(s.last()) {
            let at = before.push(s.len() - 1);
            assert forall|k: int| 0 <= k < at.len() implies 0 <= #[trigger] at[k] < s.len()
                && s.filter(keep)[k] == s[at[k]] by {
                if k < before.len() {
                    assert(at[k] == before[k]);
                    assert(rest[before[k]] == s[before[k]]);
                }
            }
            assert forall|k: int, l: int| 0 <= k < l < at.len() implies at[k] < at[l] by {
                assert(at[k] == before[k]);
                if l < before.len() {
                    assert(at[l] == before[l]);
                }
            }
            at
        } else {
            assert forall|k: int| 0 <= k < before.len() implies 0 <= #[trigger] before[k] < s.len()
                && s.filter(keep)[k] == s[before[k]] by {
                assert(rest[before[k]] == s[before[k]]);
            }
            before
        }
    }
}

proof fn lemma_filter_submultiset(s: Seq<i32>, keep: spec_fn(i32) -> bool)
    ensures
        s.filter(keep).to_multiset().subset_of(s.to_multiset()),
    decreases s.len(),
{
    broadcast use vstd::seq_lib::group_to_multiset_ensures;
    broadcast use vstd::multiset::group_multiset_axioms;

    reveal(Seq::filter);
    if s.len() > 0 {
        let rest = s.drop_last();
        lemma_filter_submultiset(rest, keep);
        assert(s == rest.push(s.last()));
    }
}

/// The fences enclose the quartiles: the interquartile range is never
/// negative.
pub proof fn lemma_fences(s: Seq<i32>)
    requires
        s.len() > 0,
    ensures
        lower_fence(s) <= first_quartile(s) <= third_quartile(s) <= upper_fence(s),
        s.contains(first_quartile(s) as i32),
        s.contains(third_quartile(s) as i32),
{
    broadcast use vstd::seq_lib::group_to_multiset_ensures;

    let sorted = ascending(s);
    lemma_ascending(s);
    lemma_quartile_indices(s.len());
    let q1 = sorted[first_quartile_index(s.len())];
    let q3 = sorted[third_quartile_index(s.len())];
    assert(sorted.to_multiset().count(q1) > 0 && sorted.to_multiset().count(q3) > 0);
}

/// Of a window that is not empty the filter keeps at least the first
/// quartile, and what it keeps is a part of the window in the window's order.
pub proof fn lemma_inliers(s: Seq<i32>)
    requires
        s.len() > 0,
    ensures
        inliers(s).len() >= 1,
        inliers(s).len() <= s.len(),
        inliers(s).to_multiset().subset_of(s.to_multiset()),
        is_subsequence(inliers(s), s),
        forall|k: int| 0 <= k < inliers(s).len() ==> is_inlier(s, #[trigger] inliers(s)[k]),
{
    let keep = |x: i32| is_inlier(s, x);
    lemma_fences(s);
    let q1 = first_quartile(s) as i32;
    let i = choose|i: int| 0 <= i < s.len() && s[i] == q1;
    s.lemma_filter_contains(keep, i);
    s.lemma_filter_len(keep);
    assert(inliers(s).len() >= 1) by {
        let j = choose|j: int| 0 <= j < inliers(s).len() && inliers(s)[j] == q1;
    }
    lemma_filter_submultiset(s, keep);
    let at = lemma_filter_embeds(s, keep);
    assert forall|k: int| 0 <= k < inliers(s).len() implies is_inlier(s, #[trigger] inliers(s)[k]) by {
        s.lemma_filter_pred(keep, k);
    }
}

/// The filter keeps every sample of a window whose samples are all equal.
pub proof fn lemma_inliers_of_equal(s: Seq<i32>)
    requires
        s.len() > 0,
        all_equal(s),
    ensures
        inliers(s) == s,
{
    lemma_ascending_of_equal(s);
    lemma_quartile_indices(s.len());
    let keep = |x: i32| is_inlier(s, x);
    assert forall|i: int| 0 <= i < s.len() implies keep(#[trigger] s[i]) by {
        assert(s[i] == s[0]);
    }
    lemma_filter_keeps_all(s, keep);
}

proof fn lemma_filter_keeps_all(s: Seq<i32>, keep: spec_fn(i32) -> bool)
    requires
        forall|i: int| 0 <= i < s.len() ==> keep(#[trigger] s[i]),
    ensures
        s.filter(keep) == s,
    decreases s.len(),
{
    reveal(Seq::filter);
    if s.len() > 0 {
        let rest = s.drop_last();
        assert forall|i: int| 0 <= i < rest.len() implies keep(#[trigger] rest[i]) by {
            assert(rest[i] == s[i]);
        }
        lemma_filter_keeps_all(rest, keep);
    }
}

/// The window without its outliers: the samples within the fences, in
/// their order of arrival. At least the first quartile is among them.
pub fn filter_outliers(buffer: &VecDeque<i32>) -> (kept: VecDeque<i32>)
    requires
        buffer@.len() > 0,
    ensures
        kept@ == inliers(buffer@),
        kept@.len() >= 1,
        kept@.to_multiset().subset_of(buffer@.to_multiset()),
        is_subsequence(kept@, buffer@),
{
    let sorted = sorted_copy(buffer);
    proof {
        lemma_ascending(buffer@);
        lemma_inliers(buffer@);
    }
    let q1_index = sorted.len() / 4;
    let q3_index = q1_index * 3;
    let q1 = sorted[q1_index] as i64;
    let q3 = sorted[q3_index] as i64;
    let iqr = q3 - q1;
    let lower_bound = q1 - iqr;
    let upper_bound = q3 + iqr;
    let ghost keep = |x: i32| is_inlier(buffer@, x);
    let mut kept: VecDeque<i32> = VecDeque::new();
    let mut i: usize = 0;
    while i < buffer.len()
        invariant
            i <= buffer@.len(),
            lower_bound == lower_fence(buffer@),
            upper_bound == upper_fence(buffer@),
            keep == |x: i32| is_inlier(buffer@, x),
            kept@ == buffer@.take(i as int).filter(keep),
        decreases buffer@.len() - i,
    {
        let x = buffer[i];
        proof {
            reveal(Seq::filter);
            assert(buffer@.take(i + 1).drop_last() == buffer@.take(i as int));
        }
        if x as i64 >= lower_bound && x as i64 <= upper_bound {
            kept.push_back(x);
        }
        i += 1;
    }
    assert(buffer@.take(i as int) == buffer@);
    kept
}

} // verus!
