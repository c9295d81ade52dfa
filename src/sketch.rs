use crate::hashing::{encode_item, hash_encoded, item_bytes, item_hash, random_seed};
use crate::median::{median, median_lower, median_upper};
use vstd::arithmetic::power::pow;
use vstd::prelude::*;

verus! {

/// Why a sketch could not be built or could not take more input.
#[derive(Debug, Clone, Copy, PartialEq, Eq, Structural)]
pub enum SketchError {
    /// The moment order or a dimension of the grid is zero, or the rows differ in width.
    InvalidParameter,
    /// A counter could leave the range of its 64-bit accumulator.
    AccumulatorOverflow,
}

/// The sign a counter with this seed gives an item: +1 when the hash is odd, -1 when even.
pub open spec fn sign_of(seed: u32, item: usize) -> int {
    if item_hash(seed, item) % 2 == 1 {
        1
    } else {
        -1
    }
}

/// The value a counter with this seed holds after seeing `stream`.
pub open spec fn signed_sum(seed: u32, stream: Seq<usize>) -> int
    decreases stream.len(),
{
    if stream.len() == 0 {
        0
    } else {
        signed_sum(seed, stream.drop_last()) + sign_of(seed, stream.last())
    }
}

/// A counter never moves further from zero than the number of items it saw.
pub proof fn lemma_signed_sum_bound(seed: u32, stream: Seq<usize>)
    ensures
        -stream.len() <= signed_sum(seed, stream) <= stream.len(),
    decreases stream.len(),
{
    if stream.len() > 0 {
        lemma_signed_sum_bound(seed, stream.drop_last());
    }
}

/// A counter's sum over two streams, one after the other, is the sum of its sums over each.
pub proof fn lemma_signed_sum_concat(seed: u32, a: Seq<usize>, b: Seq<usize>)
    ensures
        signed_sum(seed, a + b) == signed_sum(seed, a) + signed_sum(seed, b),
    decreases b.len(),
{
    if b.len() == 0 {
        assert(a + b =~= a);
    } else {
        assert((a + b).drop_last() =~= a + b.drop_last());
        lemma_signed_sum_concat(seed, a, b.drop_last());
    }
}

/// A counter's sum depends only on how often each item occurs, not on their order.
pub proof fn lemma_signed_sum_reorder(seed: u32, s: Seq<usize>, t: Seq<usize>)
    requires
        s.to_multiset() == t.to_multiset(),
    ensures
        signed_sum(seed, s) == signed_sum(seed, t),
    decreases s.len(),
{
    broadcast use vstd::seq_lib::group_to_multiset_ensures;

    if s.len() == 0 {
        vstd::seq_lib::to_multiset_len(t);
        vstd::seq_lib::to_multiset_len(s);
    } else {
        let x = s.last();
        let rest = s.drop_last();
        assert(s =~= rest.push(x));
        vstd::seq_lib::to_multiset_build(rest, x);
        assert(t.to_multiset().count(x) > 0);
        assert(t.contains(x));
        let i = choose|i: int| 0 <= i < t.len() && t[i] == x;
        let t2 = t.remove(i);
        vstd::seq_lib::to_multiset_remove(t, i);
        assert(rest.to_multiset() =~= t2.to_multiset());
        lemma_signed_sum_reorder(seed, rest, t2);
        assert(t =~= t.take(i) + (seq![x] + t.skip(i + 1)));
        assert(t2 =~= t.take(i) + t.skip(i + 1));
        lemma_signed_sum_concat(seed, t.take(i), seq![x] + t.skip(i + 1));
        lemma_signed_sum_concat(seed, seq![x], t.skip(i + 1));
        lemma_signed_sum_concat(seed, t.take(i), t.skip(i + 1));
        assert(seq![x].drop_last() =~= Seq::<usize>::empty());
        assert(seq![x].last() == x);
        assert(signed_sum(seed, Seq::<usize>::empty()) == 0);
        assert(signed_sum(seed, seq![x]) == sign_of(seed, x));
    }
}

/// Whether `x` lies in the range of `i128`.
pub open spec fn fits_i128(x: int) -> bool {
    i128::MIN <= x <= i128::MAX
}

/// The sum of the `k`-th powers of the values.
pub open spec fn power_sum(values: Seq<int>, k: nat) -> int
    decreases values.len(),
{
    if values.len() == 0 {
        0
    } else {
        power_sum(values.drop_last(), k) + pow(values.last(), k)
    }
}

/// Whether the sum of `k`-th powers of the values can be computed within `i128`:
/// every power up to the `k`-th of every value, and every partial sum, fits.
pub open spec fn power_sum_fits(values: Seq<int>, k: nat) -> bool {
    &&& forall|c: int, j: nat|
        0 <= c < values.len() && j <= k ==> fits_i128(#[trigger] pow(values[c], j))
    &&& forall|n: int| 0 <= n <= values.len() ==> fits_i128(#[trigger] power_sum(values.take(n), k))
}

/// The estimate of a sketch, held exactly: the median of the estimators' means is
/// `(lower + upper) / (2 * width)`, where `lower` and `upper` are the two middle sums
/// of k-th powers over the estimators (the same one when there are an odd number of
/// estimators). Dividing every sum by the common width keeps their order, so the
/// median of the sums over the width is the median of the means.
pub struct Estimate {
    pub lower: i128,
    pub upper: i128,
    pub width: usize,
}

/// `x` raised to the powers `0..=k`, each within `i128`, or `None` if one is not.
pub(crate) fn checked_power(x: i128, k: u32) -> (r: Option<i128>)
    ensures
        r is Some <==> forall|j: nat| j <= k ==> fits_i128(#[trigger] pow(x as int, j)),
        r matches Some(v) ==> v == pow(x as int, k as nat),
{
    let mut acc: i128 = 1;
    let mut j: u32 = 0;
    assert(pow(x as int, 0) == 1) by {
        vstd::arithmetic::power::lemma_pow0(x as int);
    }
    while j < k
        invariant
            0 <= j <= k,
            acc == pow(x as int, j as nat),
            forall|i: nat| i <= j ==> fits_i128(#[trigger] pow(x as int, i)),
        decreases k - j,
    {
        let ghost next = (j + 1) as nat;
        assert(pow(x as int, next) == acc * x) by {
            reveal(pow);
            assert(x * acc == acc * x) by (nonlinear_arith);
        }
        match acc.checked_mul(x) {
            Some(v) => {
                acc = v;
            },
            None => {
                assert(!fits_i128(pow(x as int, next)));
                return None;
            },
        }
        j += 1;
    }
    Some(acc)
}

/// A grid of `depth` estimators, each of `width` counters; a counter is a random seed
/// and the sum of the signs that seed gives the items seen so far.
pub struct AMSSketch {
    k: u32,
    data: Vec<Vec<(u32, i64)>>,
    updates: u64,
    stream: Ghost<Seq<usize>>,
}

impl AMSSketch {
    /// The moment order k.
    pub closed spec fn order(&self) -> nat {
        self.k as nat
    }

    /// The number of estimators.
    pub closed spec fn depth(&self) -> nat {
        self.data@.len()
    }

    /// The number of counters in each estimator.
    pub closed spec fn width(&self) -> nat {
        self.data@[0]@.len()
    }

    /// The seed of counter `c` of estimator `r`.
    pub closed spec fn seed(&self, r: int, c: int) -> u32 {
        self.data@[r]@[c].0
    }

    /// The signed sum held by counter `c` of estimator `r`.
    pub closed spec fn counter(&self, r: int, c: int) -> int {
        self.data@[r]@[c].1 as int
    }

    /// The items seen so far, in order.
    pub closed spec fn stream(&self) -> Seq<usize> {
        self.stream@
    }

    /// Every row has the common width and the update count matches the stream.
    pub closed spec fn shaped(&self) -> bool {
        &&& forall|r: int| 0 <= r < self.data@.len() ==> #[trigger] self.data@[r]@.len() == self.width()
        &&& self.updates as int == self.stream@.len()
    }

    /// The sketch is well formed: a non-empty grid whose every counter holds the
    /// signed sum of its seed over the stream seen so far.
    pub open spec fn wf(&self) -> bool {
        &&& self.shaped()
        &&& self.order() >= 1
        &&& self.depth() >= 1
        &&& self.width() >= 1
        &&& self.stream().len() <= i64::MAX
        &&& forall|r: int, c: int|
            0 <= r < self.depth() && 0 <= c < self.width() ==> #[trigger] self.counter(r, c)
                == signed_sum(self.seed(r, c), self.stream())
    }

    /// The signed sums of estimator `r`.
    pub open spec fn row(&self, r: int) -> Seq<int> {
        Seq::new(self.width(), |c: int| self.counter(r, c))
    }

    /// Whether the sum of k-th powers of estimator `r` can be computed within `i128`.
    pub open spec fn row_fits(&self, r: int) -> bool {
        power_sum_fits(self.row(r), self.order())
    }

    /// Whether every estimator's sum of k-th powers can be computed within `i128`.
    pub open spec fn estimate_fits(&self) -> bool {
        forall|r: int| 0 <= r < self.depth() ==> #[trigger] self.row_fits(r)
    }

    /// The sum of k-th powers of the counters of each estimator.
    pub open spec fn row_sums(&self) -> Seq<i128> {
        Seq::new(self.depth(), |r: int| power_sum(self.row(r), self.order()) as i128)
    }

    /// Whether two sketches have the same moment order, the same grid and the same seeds.
    pub open spec fn same_seeds(&self, other: &AMSSketch) -> bool {
        &&& self.order() == other.order()
        &&& self.depth() == other.depth()
        &&& self.width() == other.width()
        &&& forall|r: int, c: int|
            0 <= r < self.depth() && 0 <= c < self.width() ==> #[trigger] self.seed(r, c)
                == other.seed(r, c)
    }

    /// Whether `seeds` is a valid grid of seeds: non-empty, with non-empty rows of one width.
    pub open spec fn valid_seeds(seeds: Seq<Vec<u32>>) -> bool {
        &&& seeds.len() >= 1
        &&& seeds[0]@.len() >= 1
        &&& forall|r: int| 0 <= r < seeds.len() ==> #[trigger] seeds[r]@.len() == seeds[0]@.len()
    }

    /// Builds a sketch for the moment of order `k` whose counter `c` of estimator `r`
    /// has the seed `seeds[r][c]`; every counter starts at zero.
    pub fn with_seeds(k: u32, seeds: Vec<Vec<u32>>) -> (res: Result<AMSSketch, SketchError>)
        ensures
            res is Ok <==> k >= 1 && Self::valid_seeds(seeds@),
            res is Err ==> res == Err::<AMSSketch, SketchError>(SketchError::InvalidParameter),
            res matches Ok(s) ==> {
                &&& s.wf()
                &&& s.order() == k
                &&& s.depth() == seeds@.len()
                &&& s.width() == seeds@[0]@.len()
                &&& s.stream().len() == 0
                &&& forall|r: int, c: int|
                    0 <= r < s.depth() && 0 <= c < s.width() ==> #[trigger] s.seed(r, c)
                        == seeds@[r]@[c]
            },
    {
        if k == 0 || seeds.len() == 0 || seeds[0].len() == 0 {
            return Err(SketchError::InvalidParameter);
        }
        let width = seeds[0].len();
        let mut data: Vec<Vec<(u32, i64)>> = Vec::new();
        let mut r: usize = 0;
        while r < seeds.len()
            invariant
                0 <= r <= seeds.len(),
                width == seeds@[0]@.len(),
                width >= 1,
                data@.len() == r,
                forall|q: int| 0 <= q < r ==> #[trigger] seeds@[q]@.len() == width,
                forall|q: int| 0 <= q < r ==> #[trigger] data@[q]@.len() == width,
                forall|q: int, c: int|
                    0 <= q < r && 0 <= c < width ==> #[trigger] data@[q]@[c] == (
                    seeds@[q]@[c],
                    0i64,
                ),
            decreases seeds.len() - r,
        {
            if seeds[r].len() != width {
                return Err(SketchError::InvalidParameter);
            }
            let mut row: Vec<(u32, i64)> = Vec::new();
            let mut c: usize = 0;
            while c < width
                invariant
                    0 <= c <= width,
                    r < seeds@.len(),
                    seeds@[r as int]@.len() == width,
                    row@.len() == c,
                    forall|j: int| 0 <= j < c ==> #[trigger] row@[j] == (seeds@[r as int]@[j], 0i64),
                decreases width - c,
            {
                row.push((seeds[r][c], 0i64));
                c += 1;
            }
            data.push(row);
            r += 1;
        }
        let s = AMSSketch { k, data, updates: 0, stream: Ghost(Seq::empty()) };
        assert(s.width() == width);
        Ok(s)
    }

    /// Builds a sketch for the moment of order `k` with `depth` estimators of `width`
    /// counters, each seeded by an independent random draw; every counter starts at zero.
    /// Invalid parameters are refused before any seed is drawn.
    pub fn new(k: u32, width: usize, depth: usize) -> (res: Result<AMSSketch, SketchError>)
        ensures
            res is Ok <==> k >= 1 && width >= 1 && depth >= 1,
            res is Err ==> res == Err::<AMSSketch, SketchError>(SketchError::InvalidParameter),
            res matches Ok(s) ==> {
                &&& s.wf()
                &&& s.order() == k
                &&& s.depth() == depth
                &&& s.width() == width
                &&& s.stream().len() == 0
            },
    {
        if k == 0 || width == 0 || depth == 0 {
            return Err(SketchError::InvalidParameter);
        }
        let mut seeds: Vec<Vec<u32>> = Vec::new();
        let mut r: usize = 0;
        while r < depth
            invariant
                0 <= r <= depth,
                seeds@.len() == r,
                forall|q: int| 0 <= q < r ==> #[trigger] seeds@[q]@.len() == width,
            decreases depth - r,
        {
            let mut row: Vec<u32> = Vec::new();
            let mut c: usize = 0;
            while c < width
                invariant
                    0 <= c <= width,
                    row@.len() == c,
                decreases width - c,
            {
                row.push(random_seed());
                c += 1;
            }
            seeds.push(row);
            r += 1;
        }
        Self::with_seeds(k, seeds)
    }

    /// Feeds one item into the sketch: every counter adds the sign its seed gives the
    /// item. Refused, with the sketch unchanged, once the stream has reached `i64::MAX`
    /// items, beyond which a counter could overflow.
    pub fn update(&mut self, index: usize) -> (res: Result<(), SketchError>)
        requires
            old(self).wf(),
        ensures
            final(self).wf(),
            res is Ok <==> old(self).stream().len() < i64::MAX,
            res is Err ==> res == Err::<(), SketchError>(SketchError::AccumulatorOverflow)
                && *final(self) == *old(self),
            res is Ok ==> final(self).stream() == old(self).stream().push(index),
            final(self).order() == old(self).order(),
            final(self).depth() == old(self).depth(),
            final(self).width() == old(self).width(),
            forall|r: int, c: int|
                0 <= r < old(self).depth() && 0 <= c < old(self).width() ==> #[trigger] final(self).seed(r, c)
                    == old(self).seed(r, c),
    {
        if self.updates >= i64::MAX as u64 {
            return Err(SketchError::AccumulatorOverflow);
        }
        let bytes = encode_item(index);
        let ghost old_stream = self.stream@;
        let ghost new_stream = old_stream.push(index);
        let ghost old_data = self.data@;
        assert(new_stream.drop_last() == old_stream);
        let width = self.data[0].len();
        assert forall|q: int, c: int|
            0 <= q < old_data.len() && 0 <= c < width implies #[trigger] old_data[q]@[c].1
            == signed_sum(old_data[q]@[c].0, old_stream) by {
            assert(self.counter(q, c) == signed_sum(self.seed(q, c), self.stream()));
        }
        let mut r: usize = 0;
        while r < self.data.len()
            invariant
                0 <= r <= self.data@.len(),
                self.data@.len() == old_data.len(),
                width == old_data[0]@.len(),
                old_stream.len() < i64::MAX,
                bytes@ == item_bytes(index),
                self.k == old(self).k,
                self.updates == old(self).updates,
                self.updates as int == old_stream.len(),
                self.stream@ == old_stream,
                new_stream == old_stream.push(index),
                forall|q: int| 0 <= q < old_data.len() ==> #[trigger] old_data[q]@.len() == width,
                forall|q: int| 0 <= q < self.data@.len() ==> #[trigger] self.data@[q]@.len() == width,
                forall|q: int, c: int|
                    0 <= q < old_data.len() && 0 <= c < width ==> #[trigger] self.data@[q]@[c].0
                        == old_data[q]@[c].0,
                forall|q: int, c: int|
                    0 <= q < old_data.len() && 0 <= c < width ==> #[trigger] old_data[q]@[c].1
                        == signed_sum(old_data[q]@[c].0, old_stream),
                forall|q: int, c: int|
                    0 <= q < r && 0 <= c < width ==> #[trigger] self.data@[q]@[c].1 == signed_sum(
                        old_data[q]@[c].0,
                        new_stream,
                    ),
                forall|q: int, c: int|
                    r <= q < old_data.len() && 0 <= c < width ==> #[trigger] self.data@[q]@[c]
                        == old_data[q]@[c],
            decreases old_data.len() - r,
        {
            let mut c: usize = 0;
            while c < width
                invariant
                    0 <= c <= width,
                    r < self.data@.len(),
                    self.data@.len() == old_data.len(),
                    width == old_data[0]@.len(),
                    old_stream.len() < i64::MAX,
                    bytes@ == item_bytes(index),
                    self.k == old(self).k,
                    self.updates == old(self).updates,
                    self.updates as int == old_stream.len(),
                    self.stream@ == old_stream,
                    new_stream == old_stream.push(index),
                new_stream == old_stream.push(index),
                bytes@ == item_bytes(index),
                self.k == old(self).k,
                self.updates == old(self).updates,
                self.updates as int == old_stream.len(),
                self.stream@ == old_stream,
                new_stream == old_stream.push(index),
                    forall|q: int| 0 <= q < old_data.len() ==> #[trigger] old_data[q]@.len() == width,
                    forall|q: int| 0 <= q < self.data@.len() ==> #[trigger] self.data@[q]@.len() == width,
                    forall|q: int, c2: int|
                        0 <= q < old_data.len() && 0 <= c2 < width ==> #[trigger] self.data@[q]@[c2].0
                            == old_data[q]@[c2].0,
                    forall|q: int, c2: int|
                        0 <= q < old_data.len() && 0 <= c2 < width ==> #[trigger] old_data[q]@[c2].1
                            == signed_sum(old_data[q]@[c2].0, old_stream),
                    forall|q: int, c2: int|
                        (0 <= q < r && 0 <= c2 < width) || (q == r && 0 <= c2 < c) ==> #[trigger] self.data@[q]@[c2].1
                            == signed_sum(old_data[q]@[c2].0, new_stream),
                    forall|q: int, c2: int|
                        (r < q < old_data.len() && 0 <= c2 < width) || (q == r && c <= c2 < width)
                            ==> #[trigger] self.data@[q]@[c2] == old_data[q]@[c2],
                decreases width - c,
            {
                let (seed, sum) = self.data[r][c];
                let h = hash_encoded(seed, &bytes, Ghost(index));
                proof {
                    lemma_signed_sum_bound(seed, old_stream);
                    assert(new_stream.drop_last() == old_stream);
                    assert(signed_sum(seed, new_stream) == signed_sum(seed, old_stream) + sign_of(
                        seed,
                        index,
                    ));
                }
                let next: i64 = if h % 2 == 1 {
                    sum + 1
                } else {
                    sum - 1
                };
                self.data[r][c] = (seed, next);
                c += 1;
            }
            r += 1;
        }
        self.updates = self.updates + 1;
        self.stream = Ghost(new_stream);
        Ok(())
    }

    /// The sum of k-th powers of the counters of estimator `r`, if it fits in `i128`.
    fn row_power_sum(&self, r: usize) -> (res: Option<i128>)
        requires
            self.wf(),
            r < self.depth(),
        ensures
            res is Some <==> self.row_fits(r as int),
            res matches Some(v) ==> v == power_sum(self.row(r as int), self.order()),
    {
        let row = &self.data[r];
        let ghost values = self.row(r as int);
        let mut sum: i128 = 0;
        let mut c: usize = 0;
        assert(values.take(0) =~= Seq::<int>::empty());
        while c < row.len()
            invariant
                self.wf(),
                r < self.depth(),
                row == self.data@[r as int],
                values == self.row(r as int),
                row@.len() == self.width(),
                0 <= c <= row@.len(),
                sum == power_sum(values.take(c as int), self.order()),
                forall|c2: int, j: nat|
                    0 <= c2 < c && j <= self.order() ==> fits_i128(#[trigger] pow(values[c2], j)),
                forall|n: int|
                    0 <= n <= c ==> fits_i128(#[trigger] power_sum(values.take(n), self.order())),
            decreases row@.len() - c,
        {
            let x = row[c].1;
            assert(values.take(c + 1).drop_last() =~= values.take(c as int));
            assert(values.take(c + 1).last() == x as int);
            assert(self.counter(r as int, c as int) == x as int);
            match checked_power(x as i128, self.k) {
                Some(p) => match sum.checked_add(p) {
                    Some(t) => {
                        sum = t;
                    },
                    None => {
                        assert(power_sum(values.take(c + 1), self.order()) == sum + p);
                        return None;
                    },
                },
                None => {
                    return None;
                },
            }
            c += 1;
        }
        assert(values.take(c as int) =~= values);
        Some(sum)
    }

    /// The estimate of the k-th frequency moment: the median over the estimators of
    /// the mean k-th power of their counters. Refused when a sum of k-th powers does
    /// not fit in `i128`.
    pub fn estimate(&self) -> (res: Result<Estimate, SketchError>)
        requires
            self.wf(),
        ensures
            res is Ok <==> self.estimate_fits(),
            res is Err ==> res == Err::<Estimate, SketchError>(SketchError::AccumulatorOverflow),
            res matches Ok(e) ==> {
                &&& e.lower == median_lower(self.row_sums())
                &&& e.upper == median_upper(self.row_sums())
                &&& e.width == self.width()
            },
    {
        let mut sums: Vec<i128> = Vec::new();
        let mut r: usize = 0;
        while r < self.data.len()
            invariant
                self.wf(),
                0 <= r <= self.depth(),
                self.data@.len() == self.depth(),
                sums@ =~= self.row_sums().take(r as int),
                forall|q: int| 0 <= q < r ==> #[trigger] self.row_fits(q),
            decreases self.depth() - r,
        {
            match self.row_power_sum(r) {
                Some(v) => {
                    sums.push(v);
                },
                None => {
                    return Err(SketchError::AccumulatorOverflow);
                },
            }
            r += 1;
        }
        assert(sums@ =~= self.row_sums());
        let m = median(&sums);
        Ok(Estimate { lower: m.lower, upper: m.upper, width: self.data[0].len() })
    }

    /// Adds the counters of `other` to the corresponding counters of this sketch, which
    /// then holds what it would hold after seeing its own stream followed by that of
    /// `other`. Refused, with this sketch unchanged, when the two differ in order, grid
    /// or seeds, or when the combined stream would exceed `i64::MAX` items.
    pub fn merge(&mut self, other: &AMSSketch) -> (res: Result<(), SketchError>)
        requires
            old(self).wf(),
            other.wf(),
        ensures
            final(self).wf(),
            res is Ok <==> old(self).same_seeds(other) && old(self).stream().len()
                + other.stream().len() <= i64::MAX,
            res is Err && !old(self).same_seeds(other) ==> res == Err::<(), SketchError>(
                SketchError::InvalidParameter,
            ),
            res is Err && old(self).same_seeds(other) ==> res == Err::<(), SketchError>(
                SketchError::AccumulatorOverflow,
            ),
            res is Err ==> *final(self) == *old(self),
            res is Ok ==> final(self).stream() == old(self).stream() + other.stream(),
            final(self).same_seeds(old(self)),
    {
        if self.k != other.k || self.data.len() != other.data.len() || self.data[0].len()
            != other.data[0].len() {
            return Err(SketchError::InvalidParameter);
        }
        let width = self.data[0].len();
        let mut r: usize = 0;
        while r < self.data.len()
            invariant
                self.wf(),
                other.wf(),
                self.order() == other.order(),
                self.depth() == other.depth(),
                width == self.width(),
                width == other.width(),
                0 <= r <= self.depth(),
                forall|q: int, c: int|
                    0 <= q < r && 0 <= c < width ==> #[trigger] self.seed(q, c) == other.seed(q, c),
            decreases self.depth() - r,
        {
            let mut c: usize = 0;
            while c < width
                invariant
                    self.wf(),
                    other.wf(),
                    self.depth() == other.depth(),
                    width == self.width(),
                    width == other.width(),
                    0 <= r < self.depth(),
                    0 <= c <= width,
                    forall|q: int, c2: int|
                        (0 <= q < r && 0 <= c2 < width) || (q == r && 0 <= c2 < c) ==> #[trigger] self.seed(q, c2)
                            == other.seed(q, c2),
                decreases width - c,
            {
                assert(self.data@[r as int]@.len() == width);
                assert(other.data@[r as int]@.len() == width);
                if self.data[r][c].0 != other.data[r][c].0 {
                    assert(self.seed(r as int, c as int) != other.seed(r as int, c as int));
                    return Err(SketchError::InvalidParameter);
                }
                c += 1;
            }
            r += 1;
        }
        if other.updates > i64::MAX as u64 - self.updates {
            return Err(SketchError::AccumulatorOverflow);
        }
        let ghost a = self.stream@;
        let ghost b = other.stream@;
        let ghost old_data = self.data@;
        assert forall|q: int, c: int| 0 <= q < old_data.len() && 0 <= c < width implies #[trigger] self.data@[q]@[c].0
            == old_data[q]@[c].0 && old_data[q]@[c].0 == other.seed(q, c) && old_data[q]@[c].1
            == signed_sum(old_data[q]@[c].0, a) by {
            assert(self.counter(q, c) == signed_sum(self.seed(q, c), self.stream()));
            assert(self.seed(q, c) == other.seed(q, c));
        }
        let mut r: usize = 0;
        while r < self.data.len()
            invariant
                other.wf(),
                0 <= r <= self.data@.len(),
                self.data@.len() == old_data.len(),
                old_data.len() == other.depth(),
                width == other.width(),
                a.len() + b.len() <= i64::MAX,
                self.k == other.k,
                self.updates as int == a.len(),
                self.stream@ == a,
                b == other.stream(),
                forall|q: int| 0 <= q < old_data.len() ==> #[trigger] old_data[q]@.len() == width,
                forall|q: int| 0 <= q < self.data@.len() ==> #[trigger] self.data@[q]@.len() == width,
                forall|q: int, c: int|
                    0 <= q < old_data.len() && 0 <= c < width ==> #[trigger] self.data@[q]@[c].0
                        == old_data[q]@[c].0 && old_data[q]@[c].0 == other.seed(q, c)
                        && old_data[q]@[c].1 == signed_sum(old_data[q]@[c].0, a),
                forall|q: int, c: int|
                    0 <= q < r && 0 <= c < width ==> #[trigger] self.data@[q]@[c].1 == signed_sum(
                        old_data[q]@[c].0,
                        a + b,
                    ),
                forall|q: int, c: int|
                    r <= q < old_data.len() && 0 <= c < width ==> #[trigger] self.data@[q]@[c]
                        == old_data[q]@[c],
            decreases old_data.len() - r,
        {
            let mut c: usize = 0;
            while c < width
                invariant
                    other.wf(),
                    0 <= r < self.data@.len(),
                    0 <= c <= width,
                    self.data@.len() == old_data.len(),
                    old_data.len() == other.depth(),
                    width == other.width(),
                    a.len() + b.len() <= i64::MAX,
                    self.k == other.k,
                    self.updates as int == a.len(),
                    self.stream@ == a,
                    b == other.stream(),
                b == other.stream(),
                    forall|q: int| 0 <= q < old_data.len() ==> #[trigger] old_data[q]@.len() == width,
                    forall|q: int| 0 <= q < self.data@.len() ==> #[trigger] self.data@[q]@.len() == width,
                    forall|q: int, c2: int|
                        0 <= q < old_data.len() && 0 <= c2 < width ==> #[trigger] self.data@[q]@[c2].0
                            == old_data[q]@[c2].0 && old_data[q]@[c2].0 == other.seed(q, c2)
                            && old_data[q]@[c2].1 == signed_sum(old_data[q]@[c2].0, a),
                    forall|q: int, c2: int|
                        (0 <= q < r && 0 <= c2 < width) || (q == r && 0 <= c2 < c) ==> #[trigger] self.data@[q]@[c2].1
                            == signed_sum(old_data[q]@[c2].0, a + b),
                    forall|q: int, c2: int|
                        (r < q < old_data.len() && 0 <= c2 < width) || (q == r && c <= c2 < width)
                            ==> #[trigger] self.data@[q]@[c2] == old_data[q]@[c2],
                decreases width - c,
            {
                let (seed, sum) = self.data[r][c];
                let ghost seed_g = seed;
                assert(other.data@[r as int]@.len() == width);
                let add = other.data[r][c].1;
                proof {
                    assert(other.counter(r as int, c as int) == signed_sum(other.seed(r as int, c as int), b));
                    lemma_signed_sum_concat(seed_g, a, b);
                    lemma_signed_sum_bound(seed_g, a + b);
                }
                self.data[r][c] = (seed, sum + add);
                c += 1;
            }
            r += 1;
        }
        self.updates = self.updates + other.updates;
        self.stream = Ghost(a + b);
        Ok(())
    }

    /// The moment order k.
    pub fn moment_order(&self) -> (r: u32)
        ensures
            r == self.order(),
    {
        self.k
    }

    /// The grid's dimensions: counters per estimator, then number of estimators.
    pub fn dimensions(&self) -> (r: (usize, usize))
        requires
            self.wf(),
        ensures
            r.0 == self.width(),
            r.1 == self.depth(),
    {
        (self.data[0].len(), self.data.len())
    }

    /// The signed sum of counter `c` of estimator `r`.
    pub fn counter_at(&self, r: usize, c: usize) -> (v: i64)
        requires
            self.wf(),
            r < self.depth(),
            c < self.width(),
        ensures
            v == self.counter(r as int, c as int),
    {
        assert(self.data@[r as int]@.len() == self.width());
        self.data[r][c].1
    }

    /// The seed of counter `c` of estimator `r`.
    pub fn seed_at(&self, r: usize, c: usize) -> (v: u32)
        requires
            self.wf(),
            r < self.depth(),
            c < self.width(),
        ensures
            v == self.seed(r as int, c as int),
    {
        assert(self.data@[r as int]@.len() == self.width());
        self.data[r][c].0
    }
}

} // verus!
