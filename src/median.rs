use vstd::prelude::*;
use vstd::relations::sorted_by;
use vstd::seq_lib::{group_to_multiset_ensures, lemma_sorted_unique};

verus! {

/// The order in which values are sorted before the middle is taken.
pub open spec fn value_order() -> spec_fn(i128, i128) -> bool {
    |a: i128, b: i128| a <= b
}

/// The values in ascending order.
pub open spec fn sorted_values(s: Seq<i128>) -> Seq<i128> {
    s.sort_by(value_order())
}

/// The lower of the two middle elements of the sorted values (the middle one for odd length).
pub open spec fn median_lower(s: Seq<i128>) -> i128 {
    sorted_values(s)[(s.len() - 1) / 2]
}

/// The upper of the two middle elements of the sorted values (the middle one for odd length).
pub open spec fn median_upper(s: Seq<i128>) -> i128 {
    sorted_values(s)[s.len() as int / 2]
}

/// The median of a non-empty sequence, held exactly: its value is `(lower + upper) / 2`.
/// For an odd number of values both fields are the middle element.
pub struct Median {
    pub lower: i128,
    pub upper: i128,
}

/// Ascending order on values is a total order.
pub proof fn lemma_value_order_total()
    ensures
        vstd::relations::total_ordering(value_order()),
{
    let leq = value_order();
    assert(vstd::relations::reflexive(leq));
    assert(vstd::relations::antisymmetric(leq));
    assert(vstd::relations::transitive(leq));
    assert(vstd::relations::strongly_connected(leq));
}

/// A copy of the values in ascending order.
pub fn sorted_copy(v: &Vec<i128>) -> (r: Vec<i128>)
    ensures
        r@ == sorted_values(v@),
{
    broadcast use group_to_multiset_ensures;

    let mut r: Vec<i128> = Vec::new();
    let mut i: usize = 0;
    while i < v.len()
        invariant
            0 <= i <= v.len(),
            sorted_by(r@, value_order()),
            r@.to_multiset() == v@.take(i as int).to_multiset(),
        decreases v.len() - i,
    {
        let x = v[i];
        let mut j: usize = 0;
        while j < r.len() && r[j] <= x
            invariant
                0 <= j <= r.len(),
                forall|k: int| 0 <= k < j ==> r@[k] <= x,
            decreases r.len() - j,
        {
            j += 1;
        }
        let ghost before = r@;
        r.insert(j, x);
        proof {
            assert(r@ == before.insert(j as int, x));
            assert forall|a: int, b: int| 0 <= a < b < r@.len() implies (value_order())(
                r@[a],
                r@[b],
            ) by {
                if b < j {
                } else if a < j && b == j {
                } else if a < j {
                    assert((value_order())(before[a], before[b - 1]));
                } else if a == j {
                    if j < b - 1 {
                        assert((value_order())(before[j as int], before[b - 1]));
                    }
                } else {
                    assert((value_order())(before[a - 1], before[b - 1]));
                }
            }
            assert(v@.take(i + 1) == v@.take(i as int).push(x));
            vstd::seq_lib::to_multiset_insert(before, j as int, x);
            vstd::seq_lib::to_multiset_build(v@.take(i as int), x);
        }
        i += 1;
    }
    proof {
        assert(v@.take(v.len() as int) == v@);
        lemma_value_order_total();
        v@.lemma_sort_by_ensures(value_order());
        lemma_sorted_unique(r@, sorted_values(v@), value_order());
    }
    r
}

/// The median of a non-empty sequence of values.
pub fn median(values: &Vec<i128>) -> (r: Median)
    requires
        values.len() >= 1,
    ensures
        r.lower == median_lower(values@),
        r.upper == median_upper(values@),
{
    let sorted = sorted_copy(values);
    proof {
        lemma_value_order_total();
        values@.lemma_sort_by_ensures(value_order());
        vstd::seq_lib::to_multiset_len(values@);
        vstd::seq_lib::to_multiset_len(sorted@);
    }
    let n = sorted.len();
    Median { lower: sorted[(n - 1) / 2], upper: sorted[n / 2] }
}

} // verus!
