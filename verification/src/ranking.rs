//! Ordering of scored items from the highest score down.

use vstd::prelude::*;
use crate::measure::Measure;

verus! {

/// Whether none of `scores` is a NaN.
pub open spec fn all_numbers(scores: Seq<Measure>) -> bool {
    forall|i: int| 0 <= i < scores.len() ==> !(#[trigger] scores[i]).is_nan()
}

/// Whether item `a` comes before item `b`: it has the higher score, or the
/// same score and the lower position.
pub open spec fn comes_before(scores: Seq<Measure>, a: int, b: int) -> bool {
    scores[a].rank() > scores[b].rank() || (scores[a].rank() == scores[b].rank() && a < b)
}

/// Whether `order` lists each of the positions `0..n` exactly once.
pub open spec fn is_arrangement(order: Seq<usize>, n: nat) -> bool {
    &&& order.len() == n
    &&& forall|i: int| 0 <= i < order.len() ==> (#[trigger] order[i]) < n
    &&& forall|i: int, j: int| 0 <= i < j < order.len() ==> order[i] != order[j]
}

/// Whether `order` runs from the highest score down, items of equal score
/// in the order in which they were given.
pub open spec fn is_descending(scores: Seq<Measure>, order: Seq<usize>) -> bool {
    forall|i: int, j: int|
        0 <= i < j < order.len() ==> comes_before(scores, #[trigger] order[i] as int, #[trigger] order[j] as int)
}

/// The positions of `scores` from the highest score down. Items of equal
/// score keep their order. Where a score is a NaN the result is still an
/// arrangement of all positions, in an order that says nothing.
pub fn order_descending(scores: &Vec<Measure>) -> (order: Vec<usize>)
    ensures
        is_arrangement(order@, scores@.len()),
        all_numbers(scores@) ==> is_descending(scores@, order@),
{
    let n: usize = scores.len();
    let mut order: Vec<usize> = Vec::new();
    let mut k: usize = 0;
    while k < n
        invariant
            k <= n,
            n == scores@.len(),
            order@.len() == k,
            forall|i: int| 0 <= i < order@.len() ==> (#[trigger] order@[i]) < k,
            forall|i: int, j: int| 0 <= i < j < order@.len() ==> order@[i] != order@[j],
            all_numbers(scores@) ==> is_descending(scores@, order@),
        decreases n - k,
    {
        let mut pos: usize = 0;
        while pos < order.len() && !scores[order[pos]].lt(&scores[k])
            invariant
                pos <= order@.len(),
                order@.len() == k,
                k < n,
                n == scores@.len(),
                forall|i: int| 0 <= i < order@.len() ==> (#[trigger] order@[i]) < k,
                forall|i: int| 0 <= i < pos ==> !scores@[(#[trigger] order@[i]) as int].spec_lt(scores@[k as int]),
            decreases order@.len() - pos,
        {
            pos += 1;
        }
        let ghost before = order@;
        order.insert(pos, k);
        proof {
            let after = order@;
            assert(after == before.insert(pos as int, k));
            assert forall|i: int| 0 <= i < after.len() implies (#[trigger] after[i]) < k + 1 by {
                if i < pos {
                    assert(after[i] == before[i]);
                } else if i > pos {
                    assert(after[i] == before[i - 1]);
                }
            }
            assert forall|i: int, j: int| 0 <= i < j < after.len() implies after[i] != after[j] by {
                if i < pos {
                    assert(after[i] == before[i]);
                } else if i > pos {
                    assert(after[i] == before[i - 1]);
                }
                if j < pos {
                    assert(after[j] == before[j]);
                } else if j > pos {
                    assert(after[j] == before[j - 1]);
                }
            }
            if all_numbers(scores@) {
                assert forall|i: int, j: int| 0 <= i < j < after.len() implies comes_before(
                    scores@,
                    #[trigger] after[i] as int,
                    #[trigger] after[j] as int,
                ) by {
                    if i < pos {
                        assert(after[i] == before[i]);
                    } else if i > pos {
                        assert(after[i] == before[i - 1]);
                    }
                    if j < pos {
                        assert(after[j] == before[j]);
                    } else if j > pos {
                        assert(after[j] == before[j - 1]);
                    }
                    if i == pos {
                        assert(scores@[before[pos as int] as int].spec_lt(scores@[k as int]));
                        if j - 1 > pos {
                            assert(comes_before(scores@, before[pos as int] as int, before[j - 1] as int));
                        }
                    } else if j == pos {
                        assert(!scores@[before[i] as int].spec_lt(scores@[k as int]));
                    } else {
                        if i < pos && j > pos {
                            assert(comes_before(scores@, before[i] as int, before[j - 1] as int));
                        }
                    }
                }
            }
        }
        k += 1;
    }
    order
}

/// Which of `scores` are above `threshold`, position by position. A NaN is
/// above nothing, and nothing is above a NaN.
pub fn flag_above(scores: &Vec<Measure>, threshold: Measure) -> (flags: Vec<bool>)
    ensures
        flags@.len() == scores@.len(),
        forall|i: int| 0 <= i < scores@.len() ==> #[trigger] flags@[i] == scores@[i].spec_gt(threshold),
{
    let mut flags: Vec<bool> = Vec::new();
    let mut i: usize = 0;
    while i < scores.len()
        invariant
            i <= scores@.len(),
            flags@.len() == i,
            forall|j: int| 0 <= j < i ==> #[trigger] flags@[j] == scores@[j].spec_gt(threshold),
        decreases scores@.len() - i,
    {
        flags.push(scores[i].gt(&threshold));
        i += 1;
    }
    flags
}

/// Two descending arrangements of the same scores are the same: the order
/// is fully determined.
pub proof fn lemma_descending_is_unique(scores: Seq<Measure>, a: Seq<usize>, b: Seq<usize>)
    requires
        is_arrangement(a, scores.len()),
        is_arrangement(b, scores.len()),
        is_descending(scores, a),
        is_descending(scores, b),
    ensures
        a == b,
{
    assert forall|i: int| 0 <= i < a.len() implies a[i] == b[i] by {
        lemma_same_place(scores, a, b, i);
    }
    assert(a =~= b);
}

/// Whether position `y` is listed among the first `upto` entries of `a`.
pub open spec fn occurs(a: Seq<usize>, upto: int, y: int) -> bool {
    exists|q: int| 0 <= q < upto && q < a.len() && #[trigger] a[q] == y
}

/// The items that come before item `x`.
pub open spec fn preceders(scores: Seq<Measure>, x: int) -> Set<int> {
    Set::new(|y: int| 0 <= y < scores.len() && comes_before(scores, y, x))
}

/// In a descending arrangement the items before place `i` are exactly the
/// items that come before the item at place `i`.
pub proof fn lemma_place_counts_preceders(scores: Seq<Measure>, a: Seq<usize>, i: int)
    requires
        is_arrangement(a, scores.len()),
        is_descending(scores, a),
        0 <= i < a.len(),
    ensures
        preceders(scores, a[i] as int) =~= Set::new(|y: int| occurs(a, i, y)),
        preceders(scores, a[i] as int).finite(),
        preceders(scores, a[i] as int).len() == i,
{
    let n = scores.len() as int;
    let listed = Set::new(|y: int| occurs(a, i, y));
    lemma_arrangement_covers(a, scores.len());
    assert forall|y: int| preceders(scores, a[i] as int).contains(y) implies listed.contains(y) by {
        assert(occurs(a, a.len() as int, y));
        let q = choose|q: int| 0 <= q < a.len() && q < a.len() && #[trigger] a[q] == y;
        if q > i {
            assert(comes_before(scores, a[i] as int, a[q] as int));
        }
        assert(q != i);
    }
    assert forall|y: int| listed.contains(y) implies preceders(scores, a[i] as int).contains(y) by {
        let q = choose|q: int| 0 <= q < i && q < a.len() && #[trigger] a[q] == y;
        assert(comes_before(scores, a[q] as int, a[i] as int));
    }
    assert(preceders(scores, a[i] as int) =~= listed);
    lemma_prefix_set_size(a, i);
}

/// An arrangement lists every position.
pub proof fn lemma_arrangement_covers(a: Seq<usize>, n: nat)
    requires
        is_arrangement(a, n),
    ensures
        forall|y: int| 0 <= y < n ==> #[trigger] occurs(a, a.len() as int, y),
{
    let values = a.map_values(|v: usize| v as int);
    assert(values.no_duplicates()) by {
        assert forall|i: int, j: int| 0 <= i < values.len() && 0 <= j < values.len() && i != j implies values[i]
            != values[j] by {
            if i < j {
                assert(a[i] != a[j]);
            } else {
                assert(a[j] != a[i]);
            }
        }
    }
    values.unique_seq_to_set();
    let all = Set::new(|y: int| 0 <= y < n);
    vstd::set_lib::lemma_int_range(0, n as int);
    assert(vstd::set_lib::set_int_range(0, n as int) =~= all);
    assert(values.to_set().subset_of(all)) by {
        assert forall|y: int| values.to_set().contains(y) implies all.contains(y) by {
            let q = choose|q: int| 0 <= q < values.len() && values[q] == y;
            assert(a[q] < n);
        }
    }
    vstd::set_lib::lemma_subset_equality(values.to_set(), all);
    assert forall|y: int| 0 <= y < n implies #[trigger] occurs(a, a.len() as int, y) by {
        assert(all.contains(y));
        assert(values.to_set().contains(y));
        let q = choose|q: int| 0 <= q < values.len() && values[q] == y;
        assert(a[q] == y);
    }
}

/// The first `i` entries of an arrangement are `i` different positions.
pub proof fn lemma_prefix_set_size(a: Seq<usize>, i: int)
    requires
        0 <= i <= a.len(),
        forall|p: int, q: int| 0 <= p < q < a.len() ==> a[p] != a[q],
    ensures
        Set::new(|y: int| occurs(a, i, y)).finite(),
        Set::new(|y: int| occurs(a, i, y)).len() == i,
    decreases i,
{
    let listed = Set::new(|y: int| occurs(a, i, y));
    if i == 0 {
        assert(listed =~= Set::<int>::empty());
    } else {
        lemma_prefix_set_size(a, i - 1);
        let front = Set::new(|y: int| occurs(a, i - 1, y));
        let last = a[i - 1] as int;
        assert(!front.contains(last)) by {
            if front.contains(last) {
                let q = choose|q: int| 0 <= q < i - 1 && q < a.len() && #[trigger] a[q] == last;
                assert(a[q] != a[i - 1]);
            }
        }
        assert(listed =~= front.insert(last)) by {
            assert forall|y: int| listed.contains(y) implies front.insert(last).contains(y) by {
                let q = choose|q: int| 0 <= q < i && q < a.len() && #[trigger] a[q] == y;
                if q < i - 1 {
                    assert(front.contains(y));
                }
            }
            assert forall|y: int| front.insert(last).contains(y) implies listed.contains(y) by {
                if y == last {
                    assert(a[i - 1] == y);
                } else {
                    let q = choose|q: int| 0 <= q < i - 1 && q < a.len() && #[trigger] a[q] == y;
                    assert(a[q] == y);
                }
            }
        }
    }
}

/// Two descending arrangements hold the same item at every place.
pub proof fn lemma_same_place(scores: Seq<Measure>, a: Seq<usize>, b: Seq<usize>, i: int)
    requires
        is_arrangement(a, scores.len()),
        is_arrangement(b, scores.len()),
        is_descending(scores, a),
        is_descending(scores, b),
        0 <= i < a.len(),
    ensures
        a[i] == b[i],
{
    lemma_arrangement_covers(b, scores.len());
    let x = a[i] as int;
    assert(occurs(b, b.len() as int, x));
    let q = choose|q: int| 0 <= q < b.len() && q < b.len() && #[trigger] b[q] == x;
    lemma_place_counts_preceders(scores, a, i);
    lemma_place_counts_preceders(scores, b, q);
    assert(q == i);
}

} // verus!
