//! Median of a sample of values.

use vstd::prelude::*;

use vstd::relations::sorted_by;
use vstd::relations::total_ordering;
use vstd::seq_lib::lemma_sorted_unique;

use crate::ValueType;

verus! {

/// The median of a sample: the middle element of the sorted sample for odd
/// length, the two middle elements for even length.
#[derive(Clone, Copy, PartialEq, Eq, Debug)]
pub enum Median {
    Value(ValueType),
    Pair(ValueType, ValueType),
}

/// The order the median sorts by.
pub open spec fn value_leq() -> spec_fn(ValueType, ValueType) -> bool {
    |a: ValueType, b: ValueType| a <= b
}

/// `value_leq` is a total order, as the sorting lemmas require.
pub proof fn lemma_value_leq_total()
    ensures
        total_ordering(value_leq()),
{
}

/// The sample in ascending order.
pub open spec fn sorted_of(s: Seq<ValueType>) -> Seq<ValueType> {
    s.sort_by(value_leq())
}

/// The median of a sample, if it has at least two elements.
pub open spec fn median_of(s: Seq<ValueType>) -> Option<Median> {
    let t = sorted_of(s);
    if s.len() <= 1 {
        None
    } else if s.len() % 2 == 0 {
        Some(Median::Pair(t[s.len() / 2 - 1], t[s.len() as int / 2]))
    } else {
        Some(Median::Value(t[s.len() as int / 2]))
    }
}

/// The median depends only on the multiset of the sample, not on its order.
pub proof fn lemma_median_permutation(s1: Seq<ValueType>, s2: Seq<ValueType>)
    requires
        s1.to_multiset() == s2.to_multiset(),
    ensures
        median_of(s1) == median_of(s2),
{
    broadcast use vstd::seq_lib::group_to_multiset_ensures;

    lemma_value_leq_total();
    s1.lemma_sort_by_ensures(value_leq());
    s2.lemma_sort_by_ensures(value_leq());
    assert(s1.len() == s1.to_multiset().len());
    assert(s2.len() == s2.to_multiset().len());
    assert(sorted_of(s1).to_multiset() == sorted_of(s2).to_multiset());
    lemma_sorted_unique(sorted_of(s1), sorted_of(s2), value_leq());
}

/// Index of a least element of `v`.
fn min_index(v: &Vec<ValueType>) -> (m: usize)
    requires
        v@.len() > 0,
    ensures
        m < v@.len(),
        forall|j: int| 0 <= j < v@.len() ==> v@[m as int] <= v@[j],
{
    let mut m: usize = 0;
    let mut j: usize = 1;
    while j < v.len()
        invariant
            m < j <= v@.len(),
            forall|k: int| 0 <= k < j ==> v@[m as int] <= v@[k],
        decreases v@.len() - j,
    {
        if v[j] < v[m] {
            m = j;
        }
        j = j + 1;
    }
    m
}

/// Sorts the sample into ascending order; the result is exactly the
/// canonical sorted permutation `sorted_of`.
fn sort_values(values: Vec<ValueType>) -> (r: Vec<ValueType>)
    ensures
        r@ == sorted_of(values@),
        r@.len() == values@.len(),
{
    broadcast use vstd::seq_lib::group_to_multiset_ensures;
    broadcast use vstd::multiset::group_multiset_axioms;

    let ghost all = values@;
    let mut src = values;
    let mut out: Vec<ValueType> = Vec::new();
    while src.len() > 0
        invariant
            out@.to_multiset().add(src@.to_multiset()) == all.to_multiset(),
            sorted_by(out@, value_leq()),
            forall|i: int, j: int|
                0 <= i < out@.len() && 0 <= j < src@.len() ==> out@[i] <= src@[j],
        decreases src@.len(),
    {
        let m = min_index(&src);
        let ghost src0 = src@;
        let x = src.remove(m);
        proof {
            src0.to_multiset_ensures();
            assert(src@ == src0.remove(m as int));
            assert(src0.remove(m as int).to_multiset() == src0.to_multiset().remove(src0[m as int]));
        }
        let ghost out0 = out@;
        out.push(x);
        proof {
            broadcast use vstd::multiset::group_multiset_axioms;

            out0.to_multiset_ensures();
            assert(out@ == out0.push(x));
            assert(out0.push(x).to_multiset() == out0.to_multiset().insert(x));
            assert(out@.to_multiset().add(src@.to_multiset()) =~= all.to_multiset()) by {
                assert(src0.to_multiset().count(x) > 0) by {
                    src0.to_multiset_ensures();
                    assert(src0[m as int] == x);
                    assert(src0.contains(x));
                }
            }
            let leq = value_leq();
            assert forall|i: int, j: int| 0 <= i < j < out@.len() implies #[trigger] leq(
                out@[i],
                out@[j],
            ) by {
                if j < out0.len() {
                    assert(leq(out0[i], out0[j]));
                } else {
                    assert(out@[j] == x);
                    assert(out0[i] <= src0[m as int]);
                }
            }
            assert(sorted_by(out@, value_leq()));
            assert forall|i: int, j: int|
                0 <= i < out@.len() && 0 <= j < src@.len() implies out@[i] <= src@[j] by {
                let jj: int = if j < m { j } else { j + 1 };
                assert(src@[j] == src0[jj]);
                if i < out0.len() {
                    assert(out0[i] <= src0[jj]);
                } else {
                    assert(out@[i] == src0[m as int]);
                }
            }
        }
    }
    proof {
        lemma_value_leq_total();
        all.lemma_sort_by_ensures(value_leq());
        assert(out@.to_multiset() =~= all.to_multiset());
        assert(all.len() == all.to_multiset().len());
        assert(out@.len() == out@.to_multiset().len());
        lemma_sorted_unique(out@, all.sort_by(value_leq()), value_leq());
    }
    out
}

/// The median of the sample: `None` for fewer than two elements, the middle
/// element for odd length, the two middle elements for even length.
pub fn get_median(values: Vec<ValueType>) -> (r: Option<Median>)
    ensures
        r == median_of(values@),
{
    let ghost input = values@;
    let sorted = sort_values(values);
    let len = sorted.len();
    let middle = len / 2;
    if len <= 1 {
        None
    } else if len % 2 == 0 {
        Some(Median::Pair(sorted[middle - 1], sorted[middle]))
    } else {
        Some(Median::Value(sorted[middle]))
    }
}

} // verus!
