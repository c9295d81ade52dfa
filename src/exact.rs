use crate::sketch::{fits_i128, power_sum, SketchError};
use std::collections::HashMap;
use vstd::arithmetic::power::pow;
use vstd::prelude::*;

verus! {

broadcast use vstd::std_specs::hash::group_hash_axioms;

/// An exact frequency table: how often each item occurred, and the k-th moment of
/// those frequencies. It keeps one entry per distinct item.
pub struct Tester {
    counts: HashMap<usize, u64>,
    items: Vec<usize>,
    k: u32,
    stream: Ghost<Seq<usize>>,
}

/// An element is in a sequence with one more element pushed when it was in the
/// sequence or is the one pushed.
proof fn lemma_push_contains(s: Seq<usize>, a: usize)
    ensures
        forall|i: usize| #[trigger] s.push(a).contains(i) <==> s.contains(i) || i == a,
{
    assert forall|i: usize| #[trigger] s.push(a).contains(i) <==> s.contains(i) || i == a by {
        if s.contains(i) {
            let j = choose|j: int| 0 <= j < s.len() && s[j] == i;
            assert(s.push(a)[j] == i);
        }
        if i == a {
            assert(s.push(a)[s.len() as int] == i);
        }
        if s.push(a).contains(i) && i != a {
            let j = choose|j: int| 0 <= j < s.len() + 1 && s.push(a)[j] == i;
            assert(s[j] == i);
        }
    }
}

impl Tester {
    /// The moment order k.
    pub closed spec fn order(&self) -> nat {
        self.k as nat
    }

    /// The items seen so far, in order.
    pub closed spec fn stream(&self) -> Seq<usize> {
        self.stream@
    }

    /// The distinct items seen so far, in the order of their first occurrence.
    pub closed spec fn distinct_items(&self) -> Seq<usize> {
        self.items@
    }

    /// The recorded number of occurrences of `item`.
    pub closed spec fn count(&self, item: usize) -> nat {
        if self.counts@.contains_key(item) {
            self.counts@[item] as nat
        } else {
            0
        }
    }

    /// The table is well formed: it lists each item seen exactly once, and records for
    /// every item the number of times it occurs in the stream.
    pub open spec fn wf(&self) -> bool {
        &&& self.inner()
        &&& self.distinct_items().no_duplicates()
        &&& forall|i: usize| #[trigger] self.distinct_items().contains(i) <==> self.stream().contains(i)
        &&& forall|i: usize| #[trigger] self.count(i) == self.stream().to_multiset().count(i)
    }

    /// The map's keys are the listed items.
    pub closed spec fn inner(&self) -> bool {
        forall|i: usize| #[trigger] self.counts@.contains_key(i) <==> self.items@.contains(i)
    }

    /// The frequencies of the distinct items, in the order of `distinct_items`.
    pub open spec fn frequencies(&self) -> Seq<int> {
        Seq::new(self.distinct_items().len(), |j: int| self.count(self.distinct_items()[j]) as int)
    }

    /// The k-th frequency moment of the stream: the sum of the k-th powers of the
    /// frequencies of the distinct items.
    pub open spec fn moment(&self) -> int {
        power_sum(self.frequencies(), self.order())
    }

    /// An empty table for the moment of order `k`.
    pub fn new(k: u32) -> (r: Tester)
        ensures
            r.wf(),
            r.order() == k,
            r.stream().len() == 0,
    {
        let r = Tester { counts: HashMap::new(), items: Vec::new(), k, stream: Ghost(Seq::empty()) };
        assert(r.stream().to_multiset() =~= vstd::multiset::Multiset::empty()) by {
            broadcast use vstd::seq_lib::group_to_multiset_ensures;
            vstd::seq_lib::to_multiset_len(r.stream());
        }
        r
    }

    /// Records one more occurrence of `item`. Refused, with the table unchanged, when the
    /// item's count has reached `u64::MAX`.
    pub fn update(&mut self, item: usize) -> (res: Result<(), SketchError>)
        requires
            old(self).wf(),
        ensures
            final(self).wf(),
            final(self).order() == old(self).order(),
            res is Ok <==> old(self).count(item) < u64::MAX,
            res is Err ==> res == Err::<(), SketchError>(SketchError::AccumulatorOverflow)
                && *final(self) == *old(self),
            res is Ok ==> final(self).stream() == old(self).stream().push(item),
    {
        broadcast use vstd::seq_lib::group_to_multiset_ensures;

        let current: u64 = match self.counts.get(&item) {
            Some(c) => *c,
            None => 0,
        };
        if current == u64::MAX {
            return Err(SketchError::AccumulatorOverflow);
        }
        let ghost old_self = *self;
        let fresh = !self.counts.contains_key(&item);
        if fresh {
            self.items.push(item);
        }
        self.counts.insert(item, current + 1);
        let ghost new_stream = old_self.stream@.push(item);
        self.stream = Ghost(new_stream);
        proof {
            vstd::seq_lib::to_multiset_build(old_self.stream@, item);
            lemma_push_contains(old_self.stream@, item);
            if fresh {
                lemma_push_contains(old_self.items@, item);
                assert(!old_self.items@.contains(item));
                assert forall|a: int, b: int|
                    0 <= a < b < self.items@.len() implies self.items@[a] != self.items@[b] by {
                    if b == self.items@.len() - 1 {
                        assert(old_self.items@.contains(self.items@[a]));
                    }
                }
            } else {
                assert(self.items@ == old_self.items@);
                assert(old_self.items@.contains(item));
            }
            assert(self.count(item) == old_self.count(item) + 1);
            assert forall|i: usize| #[trigger] self.count(i) == self.stream().to_multiset().count(i) by {
                if i != item {
                    assert(self.count(i) == old_self.count(i));
                }
            }
        }
        Ok(())
    }

    /// The k-th frequency moment, if every power and partial sum fits in `i128`.
    pub fn estimate(&self) -> (res: Option<i128>)
        requires
            self.wf(),
        ensures
            res is Some <==> crate::sketch::power_sum_fits(self.frequencies(), self.order()),
            res matches Some(v) ==> v == self.moment(),
    {
        let ghost values = self.frequencies();
        let mut sum: i128 = 0;
        let mut j: usize = 0;
        assert(values.take(0) =~= Seq::<int>::empty());
        while j < self.items.len()
            invariant
                self.wf(),
                values == self.frequencies(),
                0 <= j <= values.len(),
                values.len() == self.items@.len(),
                sum == power_sum(values.take(j as int), self.order()),
                forall|c2: int, e: nat|
                    0 <= c2 < j && e <= self.order() ==> fits_i128(#[trigger] pow(values[c2], e)),
                forall|n: int|
                    0 <= n <= j ==> fits_i128(#[trigger] power_sum(values.take(n), self.order())),
            decreases values.len() - j,
        {
            let item = self.items[j];
            let c: u64 = match self.counts.get(&item) {
                Some(c) => *c,
                None => 0,
            };
            assert(values[j as int] == c as int);
            assert(values.take(j + 1).drop_last() =~= values.take(j as int));
            assert(values.take(j + 1).last() == c as int);
            match crate::sketch::checked_power(c as i128, self.k) {
                Some(p) => match sum.checked_add(p) {
                    Some(t) => {
                        sum = t;
                    },
                    None => {
                        assert(power_sum(values.take(j + 1), self.order()) == sum + p);
                        return None;
                    },
                },
                None => {
                    return None;
                },
            }
            j += 1;
        }
        assert(values.take(j as int) =~= values);
        Some(sum)
    }
}

} // verus!
