use crate::median::{lemma_value_order_total, median_lower, median_upper, sorted_values, value_order};
use crate::sketch::{
    lemma_signed_sum_concat, lemma_signed_sum_reorder, power_sum, signed_sum, AMSSketch,
};
use vstd::arithmetic::power::pow;
use vstd::prelude::*;

verus! {

proof fn lemma_pow_zero(j: nat)
    ensures
        pow(0, j) == if j == 0 {
            1int
        } else {
            0int
        },
{
    reveal(pow);
}

proof fn lemma_power_sum_zeros(v: Seq<int>, k: nat)
    requires
        k >= 1,
        forall|i: int| 0 <= i < v.len() ==> v[i] == 0,
    ensures
        power_sum(v, k) == 0,
    decreases v.len(),
{
    if v.len() > 0 {
        lemma_pow_zero(k);
        lemma_power_sum_zeros(v.drop_last(), k);
    }
}

/// Two sketches with the same seeds whose estimators hold the same counters have the
/// same sums of k-th powers, and can compute them alike.
proof fn lemma_same_counters_same_sums(s: &AMSSketch, t: &AMSSketch)
    requires
        s.wf(),
        t.wf(),
        s.same_seeds(t),
        forall|r: int, c: int|
            0 <= r < s.depth() && 0 <= c < s.width() ==> #[trigger] s.counter(r, c) == t.counter(r, c),
    ensures
        s.row_sums() == t.row_sums(),
        s.estimate_fits() == t.estimate_fits(),
{
    assert forall|r: int| 0 <= r < s.depth() implies #[trigger] s.row(r) == t.row(r) by {
        assert(s.row(r) =~= t.row(r));
    }
    assert(s.row_sums() =~= t.row_sums());
    assert forall|r: int| 0 <= r < s.depth() implies #[trigger] s.row_fits(r) == t.row_fits(r) by {
        assert(s.row(r) == t.row(r));
    }
    if s.estimate_fits() {
        assert forall|r: int| 0 <= r < t.depth() implies #[trigger] t.row_fits(r) by {
            assert(s.row_fits(r));
        }
    }
    if t.estimate_fits() {
        assert forall|r: int| 0 <= r < s.depth() implies #[trigger] s.row_fits(r) by {
            assert(t.row_fits(r));
        }
    }
}

/// A sketch that has seen no item estimates zero: every counter is zero, so every
/// estimator's sum of k-th powers is zero, and so is their median.
pub proof fn lemma_fresh_estimate_is_zero(s: &AMSSketch)
    requires
        s.wf(),
        s.stream().len() == 0,
    ensures
        s.estimate_fits(),
        median_lower(s.row_sums()) == 0,
        median_upper(s.row_sums()) == 0,
{
    assert forall|r: int| 0 <= r < s.depth() implies #[trigger] s.row_fits(r) by {
        assert forall|c: int, j: nat| 0 <= c < s.row(r).len() && j <= s.order() implies
            crate::sketch::fits_i128(#[trigger] pow(s.row(r)[c], j)) by {
            assert(s.counter(r, c) == signed_sum(s.seed(r, c), s.stream()));
            lemma_pow_zero(j);
        }
        assert forall|n: int| 0 <= n <= s.width() implies crate::sketch::fits_i128(
            #[trigger] power_sum(s.row(r).take(n), s.order()),
        ) by {
            assert forall|i: int| 0 <= i < s.row(r).take(n).len() implies s.row(r).take(n)[i] == 0 by {
                assert(s.counter(r, i) == signed_sum(s.seed(r, i), s.stream()));
            }
            lemma_power_sum_zeros(s.row(r).take(n), s.order());
        }
    }
    let sums = s.row_sums();
    assert forall|r: int| 0 <= r < sums.len() implies sums[r] == 0 by {
        assert forall|i: int| 0 <= i < s.row(r).len() implies s.row(r)[i] == 0 by {
            assert(s.counter(r, i) == signed_sum(s.seed(r, i), s.stream()));
        }
        lemma_power_sum_zeros(s.row(r), s.order());
    }
    lemma_value_order_total();
    sums.lemma_sort_by_ensures(value_order());
    broadcast use vstd::seq_lib::group_to_multiset_ensures;

    vstd::seq_lib::to_multiset_len(sums);
    vstd::seq_lib::to_multiset_len(sorted_values(sums));
    let lo = (sums.len() - 1) / 2;
    let hi = sums.len() as int / 2;
    assert(sorted_values(sums).contains(sorted_values(sums)[lo]));
    assert(sorted_values(sums).contains(sorted_values(sums)[hi]));
}

/// Linearity: merging a sketch that saw `x`'s stream with one of the same seeds that
/// saw `y`'s gives each counter the sum of the two, and leaves the counters, and so the
/// estimate, of a sketch with those seeds that saw the two streams interleaved in any
/// order.
pub proof fn lemma_merge_matches_interleaving(
    x: &AMSSketch,
    y: &AMSSketch,
    merged: &AMSSketch,
    single: &AMSSketch,
)
    requires
        x.wf(),
        y.wf(),
        merged.wf(),
        single.wf(),
        x.same_seeds(y),
        merged.same_seeds(x),
        single.same_seeds(x),
        merged.stream() == x.stream() + y.stream(),
        single.stream().to_multiset() == (x.stream() + y.stream()).to_multiset(),
    ensures
        forall|r: int, c: int|
            0 <= r < merged.depth() && 0 <= c < merged.width() ==> #[trigger] merged.counter(r, c)
                == x.counter(r, c) + y.counter(r, c) && merged.counter(r, c) == single.counter(
                r,
                c,
            ),
        merged.row_sums() == single.row_sums(),
        merged.estimate_fits() == single.estimate_fits(),
{
    assert forall|r: int, c: int| 0 <= r < merged.depth() && 0 <= c < merged.width() implies #[trigger] merged.counter(r, c)
        == x.counter(r, c) + y.counter(r, c) && merged.counter(r, c) == single.counter(r, c) by {
        let seed = merged.seed(r, c);
        assert(x.seed(r, c) == seed);
        assert(y.seed(r, c) == x.seed(r, c));
        assert(single.seed(r, c) == seed);
        assert(x.counter(r, c) == signed_sum(seed, x.stream()));
        assert(y.counter(r, c) == signed_sum(seed, y.stream()));
        assert(single.counter(r, c) == signed_sum(seed, single.stream()));
        lemma_signed_sum_concat(seed, x.stream(), y.stream());
        lemma_signed_sum_reorder(seed, single.stream(), x.stream() + y.stream());
    }
    assert(merged.same_seeds(single));
    lemma_same_counters_same_sums(merged, single);
}

/// Determinism: two sketches with the same order, grid and seeds that saw the same
/// stream hold the same counters and the same sums of k-th powers, so their estimates
/// are the same.
pub proof fn lemma_same_seeds_same_state(s: &AMSSketch, t: &AMSSketch)
    requires
        s.wf(),
        t.wf(),
        s.same_seeds(t),
        s.stream() == t.stream(),
    ensures
        forall|r: int, c: int|
            0 <= r < s.depth() && 0 <= c < s.width() ==> #[trigger] s.counter(r, c) == t.counter(r, c),
        s.row_sums() == t.row_sums(),
        s.estimate_fits() == t.estimate_fits(),
{
    assert forall|r: int, c: int| 0 <= r < s.depth() && 0 <= c < s.width() implies #[trigger] s.counter(r, c)
        == t.counter(r, c) by {
        assert(s.counter(r, c) == signed_sum(s.seed(r, c), s.stream()));
        assert(t.counter(r, c) == signed_sum(t.seed(r, c), t.stream()));
    }
    lemma_same_counters_same_sums(s, t);
}

} // verus!
