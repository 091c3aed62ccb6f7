//! Nucleus (top-p) sampling over a fixed-point probability distribution.
//!
//! A probability vector is a `Vec<u64>` of fixed-point values (`SCALE`
//! represents `1.0`), index-aligned with token ids. Sampling pairs every
//! token id with its probability, sorts the pairs in descending probability
//! order (ties broken by ascending id), admits the shortest prefix whose
//! running sum stays within `top_p` (the element that crosses the threshold
//! is the last one admitted), and then picks the first admitted entry whose
//! renormalized cumulative weight reaches the random draw.
//!
//! Renormalization is expressed without division: an entry's cumulative
//! weight reaches a draw `d / SCALE` exactly when
//! `prefix_sum * SCALE >= d * total`.
use vstd::prelude::*;
use vstd::relations::{sorted_by, total_ordering};
use vstd::seq_lib::*;

use crate::SCALE;

verus! {

/// Sampling configuration, all fields fixed-point scaled by `SCALE`:
/// `top_p` and `temp` stand for values in `(0, 1]` and `(0, inf)`;
/// the penalties are nonnegative logit offsets.
#[derive(Clone, Copy, Debug)]
pub struct Sampler {
    pub top_p: u64,
    pub temp: u64,
    pub presence_penalty: u64,
    pub frequency_penalty: u64,
}

impl Sampler {
    /// A well-formed configuration: `top_p` in `(0, 1]`, positive temperature.
    pub open spec fn wf(&self) -> bool {
        &&& 1 <= self.top_p <= SCALE
        &&& 1 <= self.temp
    }
}

impl Default for Sampler {
    /// The default configuration: `top_p = 0.5`, `temp = 1.0`, and both
    /// penalties `0.3`.
    fn default() -> (s: Sampler)
        ensures
            s.top_p == 500_000u64,
            s.temp == SCALE,
            s.presence_penalty == 300_000u64,
            s.frequency_penalty == 300_000u64,
            s.wf(),
    {
        Sampler { top_p: 500_000, temp: SCALE, presence_penalty: 300_000, frequency_penalty: 300_000 }
    }
}

/// Order on (probability, id) pairs: higher probability first,
/// ties broken by lower id. A total order, so a sorted permutation is unique.
pub open spec fn pair_leq(a: (u64, u16), b: (u64, u16)) -> bool {
    a.0 > b.0 || (a.0 == b.0 && a.1 <= b.1)
}

/// `pair_leq` as a first-class relation, for `sorted_by` and `sort_by`.
pub open spec fn pair_order() -> spec_fn((u64, u16), (u64, u16)) -> bool {
    |a: (u64, u16), b: (u64, u16)| pair_leq(a, b)
}

pub proof fn lemma_pair_order_total()
    ensures
        total_ordering(pair_order()),
{
}

/// Every vocabulary index paired with its probability.
pub open spec fn pairs_of(probs: Seq<u64>) -> Seq<(u64, u16)> {
    Seq::new(probs.len(), |i: int| (probs[i], i as u16))
}

/// The probability/id pairs of `probs`, in descending probability order.
pub open spec fn sorted_pairs(probs: Seq<u64>) -> Seq<(u64, u16)> {
    pairs_of(probs).sort_by(pair_order())
}

/// Sum of the probabilities of the first `k` pairs.
pub open spec fn prefix_total(s: Seq<(u64, u16)>, k: int) -> int
    decreases k,
{
    if k <= 0 {
        0
    } else {
        prefix_total(s, k - 1) + s[k - 1].0
    }
}

/// How many of the descending-sorted pairs the nucleus admits: a pair is
/// admitted exactly when the sum of the strictly higher-ranked probabilities
/// (before adding its own) has not yet exceeded `top_p`. The first pair is
/// always admitted, and the pair whose own probability pushes the running sum
/// past `top_p` is the last one admitted.
pub open spec fn nucleus_size(s: Seq<(u64, u16)>, budget: int) -> int
    decreases s.len(),
{
    if s.len() == 0 || budget < 0 {
        0
    } else {
        1 + nucleus_size(s.drop_first(), budget - s[0].0)
    }
}

/// Whether entry `i` of the weight sequence is reached by the draw: its
/// renormalized cumulative weight `prefix / total` is at least `draw / SCALE`.
pub open spec fn reaches_draw(s: Seq<(u64, u16)>, draw: int, total: int, i: int) -> bool {
    prefix_total(s, i + 1) * SCALE >= draw * total
}

/// The first entry reached by the draw, scanning from `i`; `0` (the first
/// entry) when none is, as a numerical fallback.
pub open spec fn first_reached_from(s: Seq<(u64, u16)>, draw: int, total: int, i: int) -> int
    decreases s.len() - i,
{
    if i < 0 || i >= s.len() {
        0
    } else if reaches_draw(s, draw, total, i) {
        i
    } else {
        first_reached_from(s, draw, total, i + 1)
    }
}

/// The index of the weighted entry that the draw selects.
pub open spec fn selected_index(s: Seq<(u64, u16)>, draw: int) -> int {
    first_reached_from(s, draw, prefix_total(s, s.len() as int), 0)
}

/// The token id that nucleus sampling yields for `probs`, `top_p` and `draw`,
/// at temperature `1.0` (identity weights).
pub open spec fn sample_spec(probs: Seq<u64>, top_p: int, draw: int) -> u16 {
    let sorted = sorted_pairs(probs);
    let nucleus = sorted.take(nucleus_size(sorted, top_p));
    nucleus[selected_index(nucleus, draw)].1
}

/// A valid fixed-point probability vector over a vocabulary whose ids fit
/// in a `u16`: nonempty, and every entry at most `1.0`.
pub open spec fn valid_probs(probs: Seq<u64>) -> bool {
    &&& 1 <= probs.len() <= 0x10000
    &&& forall|i: int| 0 <= i < probs.len() ==> probs[i] <= SCALE
}

/// Relies on itertools' `sorted_unstable_by_key` (which collects and calls
/// `slice::sort_unstable_by_key`): the result holds the same pairs, in
/// ascending key order, here keyed by `(Reverse(probability), id)`, that is
/// descending probability with ties broken by ascending id.
#[verifier::external_body]
fn sort_pairs_desc(v: Vec<(u64, u16)>) -> (r: Vec<(u64, u16)>)
    ensures
        sorted_by(r@, pair_order()),
        r@.to_multiset() == v@.to_multiset(),
{
    itertools::Itertools::sorted_unstable_by_key(
        v.into_iter(),
        |&(p, id)| (std::cmp::Reverse(p), id),
    ).collect()
}

/// What holds of the descending-sorted pairs of a probability vector:
/// same length, sorted, a permutation of `pairs_of`, and every pair is
/// some vocabulary index paired with its own probability.
pub proof fn lemma_sorted_pairs_facts(probs: Seq<u64>)
    requires
        probs.len() <= 0x10000,
    ensures
        sorted_pairs(probs).len() == probs.len(),
        sorted_by(sorted_pairs(probs), pair_order()),
        sorted_pairs(probs).to_multiset() == pairs_of(probs).to_multiset(),
        forall|i: int| 0 <= i < probs.len() ==> (#[trigger] sorted_pairs(probs)[i]).1 < probs.len()
            && sorted_pairs(probs)[i].0 == probs[sorted_pairs(probs)[i].1 as int],
{
    broadcast use vstd::seq_lib::group_to_multiset_ensures;

    let pairs = pairs_of(probs);
    let sorted = sorted_pairs(probs);
    lemma_pair_order_total();
    pairs.lemma_sort_by_ensures(pair_order());
    assert(pairs.to_multiset() =~= sorted.to_multiset());
    to_multiset_len(pairs);
    to_multiset_len(sorted);
    assert forall|i: int| 0 <= i < probs.len() implies (#[trigger] sorted[i]).1 < probs.len()
        && sorted[i].0 == probs[sorted[i].1 as int] by {
        let x = sorted[i];
        assert(sorted.contains(x));
        assert(pairs.contains(x));
        let j = choose|j: int| 0 <= j < pairs.len() && pairs[j] == x;
        assert(x == (probs[j], j as u16));
        assert(x.1 as int == j);
    }
}

/// `prefix_total` grows with the prefix length (probabilities are nonnegative).
pub proof fn lemma_prefix_mono(s: Seq<(u64, u16)>, a: int, b: int)
    requires
        0 <= a <= b,
    ensures
        prefix_total(s, a) <= prefix_total(s, b),
    decreases b - a,
{
    if a < b {
        lemma_prefix_mono(s, a, b - 1);
    }
}

/// A prefix sum of values bounded by `SCALE` is bounded by `k * SCALE`.
pub proof fn lemma_prefix_bound(s: Seq<(u64, u16)>, k: int)
    requires
        0 <= k <= s.len(),
        forall|i: int| 0 <= i < s.len() ==> (#[trigger] s[i]).0 <= SCALE,
    ensures
        0 <= prefix_total(s, k) <= k * SCALE,
    decreases k,
{
    if k > 0 {
        lemma_prefix_bound(s, k - 1);
    }
}

/// The total fixed-point probability mass of a distribution.
pub open spec fn probs_total(probs: Seq<u64>) -> int {
    prefix_total(pairs_of(probs), probs.len() as int)
}

/// Adding a pair's probability into an accumulator, as a fold operator.
pub open spec fn weight_fold() -> spec_fn((u64, u16), int) -> int {
    |x: (u64, u16), acc: int| acc + x.0
}

/// Dropping the last element leaves earlier prefix sums unchanged.
pub proof fn lemma_prefix_drop_last(s: Seq<(u64, u16)>, k: int)
    requires
        0 <= k <= s.len() - 1,
    ensures
        prefix_total(s.drop_last(), k) == prefix_total(s, k),
    decreases k,
{
    if k > 0 {
        lemma_prefix_drop_last(s, k - 1);
    }
}

/// Dropping the first element shifts prefix sums by that element's weight.
pub proof fn lemma_prefix_drop_first(s: Seq<(u64, u16)>, k: int)
    requires
        0 <= k <= s.len() - 1,
    ensures
        prefix_total(s.drop_first(), k) == prefix_total(s, k + 1) - s[0].0,
    decreases k,
{
    if k == 0 {
        assert(prefix_total(s, 1) == prefix_total(s, 0) + s[0].0);
    } else {
        lemma_prefix_drop_first(s, k - 1);
        assert(s.drop_first()[k - 1] == s[k]);
        assert(prefix_total(s.drop_first(), k) == prefix_total(s.drop_first(), k - 1)
            + s.drop_first()[k - 1].0);
        assert(prefix_total(s, k + 1) == prefix_total(s, k) + s[k].0);
    }
}

/// A sequence's total weight, written as a fold.
pub proof fn lemma_prefix_is_fold(s: Seq<(u64, u16)>, b: int)
    ensures
        s.fold_right(weight_fold(), b) == prefix_total(s, s.len() as int) + b,
    decreases s.len(),
{
    if s.len() > 0 {
        lemma_prefix_is_fold(s.drop_last(), b + s.last().0);
        lemma_prefix_drop_last(s, s.len() - 1);
    }
}

/// A permutation leaves the total weight unchanged.
pub proof fn lemma_total_permutation(a: Seq<(u64, u16)>, b: Seq<(u64, u16)>)
    requires
        a.to_multiset() == b.to_multiset(),
    ensures
        prefix_total(a, a.len() as int) == prefix_total(b, b.len() as int),
{
    assert(commutative_foldr(weight_fold()));
    lemma_fold_right_permutation(a, b, weight_fold(), 0);
    lemma_prefix_is_fold(a, 0);
    lemma_prefix_is_fold(b, 0);
}

/// A budget that covers the whole weight admits every element.
pub proof fn lemma_nucleus_all(s: Seq<(u64, u16)>, budget: int)
    requires
        prefix_total(s, s.len() as int) <= budget,
    ensures
        nucleus_size(s, budget) == s.len(),
    decreases s.len(),
{
    if s.len() > 0 {
        lemma_prefix_mono(s, 0, s.len() as int);
        lemma_prefix_drop_first(s, s.len() - 1);
        lemma_nucleus_all(s.drop_first(), budget - s[0].0);
    }
}

/// Law: when the whole probability mass lies within `top_p` — in particular
/// for `top_p = 1.0` (`SCALE`) and a distribution whose mass is at most `1.0`
/// — the nucleus is the full vocabulary: nothing is truncated.
pub proof fn lemma_nucleus_full_vocabulary(probs: Seq<u64>, top_p: int)
    requires
        probs.len() <= 0x10000,
        probs_total(probs) <= top_p,
    ensures
        nucleus_size(sorted_pairs(probs), top_p) == probs.len(),
{
    lemma_sorted_pairs_facts(probs);
    lemma_total_permutation(sorted_pairs(probs), pairs_of(probs));
    lemma_nucleus_all(sorted_pairs(probs), top_p);
}

/// Law: for a distribution already sorted in descending order with a strict
/// unique maximum, any `top_p` below that maximum probability admits exactly
/// the argmax, and sampling returns it whatever the draw was.
pub proof fn lemma_greedy_argmax(probs: Seq<u64>, top_p: int, draw: int)
    requires
        valid_probs(probs),
        forall|i: int| 1 <= i < probs.len() ==> #[trigger] probs[i] < probs[0],
        0 <= top_p < probs[0],
        0 <= draw < SCALE,
    ensures
        nucleus_size(sorted_pairs(probs), top_p) == 1,
        sample_spec(probs, top_p, draw) == 0u16,
{
    broadcast use vstd::seq_lib::group_to_multiset_ensures;

    lemma_sorted_pairs_facts(probs);
    let sorted = sorted_pairs(probs);
    let top = (probs[0], 0u16);
    assert(pairs_of(probs)[0] == top);
    assert(pairs_of(probs).contains(top));
    assert(pairs_of(probs).to_multiset().contains(top));
    assert(sorted.to_multiset().contains(top));
    assert(sorted.contains(top));
    let k = choose|k: int| 0 <= k < sorted.len() && sorted[k] == top;
    if k > 0 {
        assert(pair_order()(sorted[0], sorted[k]));
        assert(pair_leq(sorted[0], sorted[k]));
    }
    assert(sorted[0] == top) by {
        assert(sorted[0].0 == probs[sorted[0].1 as int]);
        if sorted[0].1 != 0u16 {
            assert(probs[sorted[0].1 as int] < probs[0]);
        }
    }
    // the first pair alone exhausts the budget
    assert(nucleus_size(sorted.drop_first(), top_p - sorted[0].0) == 0);
    assert(nucleus_size(sorted, top_p) == 1);
    let nucleus = sorted.take(1);
    assert(nucleus.len() == 1);
    assert(nucleus[0] == top);
    let total = prefix_total(nucleus, 1);
    assert(prefix_total(nucleus, 1) == prefix_total(nucleus, 0) + nucleus[0].0);
    assert(total == probs[0]);
    assert(draw * total <= SCALE * total) by (nonlinear_arith)
        requires
            draw <= SCALE,
            total >= 0,
    ;
    assert(prefix_total(nucleus, 1) * SCALE == SCALE * total) by (nonlinear_arith)
        requires
            total == prefix_total(nucleus, 1),
    ;
    assert(reaches_draw(nucleus, draw, total, 0));
    assert(selected_index(nucleus, draw) == 0);
}

/// The product of two `u64` values always fits in a `u128`.
pub proof fn lemma_u64_mul_fits(a: u64, b: u64)
    ensures
        (a as int) * (b as int) < 0x100000000000000000000000000000000,
{
    assert((a as int) * (b as int) < 0x100000000000000000000000000000000) by (nonlinear_arith)
        requires
            a < 0x10000000000000000,
            b < 0x10000000000000000,
    ;
}

/// The selected index always lies inside a nonempty weight sequence.
pub proof fn lemma_first_reached_in_range(s: Seq<(u64, u16)>, draw: int, total: int, i: int)
    requires
        s.len() >= 1,
    ensures
        0 <= first_reached_from(s, draw, total, i) < s.len(),
    decreases s.len() - i,
{
    if 0 <= i < s.len() && !reaches_draw(s, draw, total, i) {
        lemma_first_reached_in_range(s, draw, total, i + 1);
    }
}

impl Sampler {
    /// Builds the nucleus: the pairs of `probs` in descending probability
    /// order, truncated to the admitted prefix for this `top_p`.
    pub fn nucleus(&self, probs: &Vec<u64>) -> (r: Vec<(u64, u16)>)
        requires
            self.wf(),
            valid_probs(probs@),
        ensures
            r@ == sorted_pairs(probs@).take(nucleus_size(sorted_pairs(probs@), self.top_p as int)),
            r@.len() == nucleus_size(sorted_pairs(probs@), self.top_p as int),
            1 <= r@.len() <= probs@.len(),
            forall|i: int| 0 <= i < r@.len() ==> #[trigger] r@[i] == sorted_pairs(probs@)[i],
    {
        let ghost sp = sorted_pairs(probs@);
        proof {
            lemma_sorted_pairs_facts(probs@);
        }
        let mut pairs: Vec<(u64, u16)> = Vec::new();
        let mut i: usize = 0;
        while i < probs.len()
            invariant
                i <= probs@.len() <= 0x10000,
                pairs@ =~= pairs_of(probs@).take(i as int),
            decreases probs@.len() - i,
        {
            pairs.push((probs[i], i as u16));
            i += 1;
        }
        assert(pairs@ =~= pairs_of(probs@));
        let mut sorted = sort_pairs_desc(pairs);
        proof {
            lemma_pair_order_total();
            lemma_sorted_unique(sorted@, sp, pair_order());
            assert(sorted@ == sp);
        }
        let n = sorted.len();
        let mut k: usize = 0;
        let mut cum: u64 = 0;
        proof {
            assert(sp.skip(0) =~= sp);
        }
        while k < n && cum <= self.top_p
            invariant
                sorted@ == sp,
                n == sp.len(),
                sp.len() == probs@.len(),
                valid_probs(probs@),
                forall|i2: int| 0 <= i2 < sp.len() ==> (#[trigger] sp[i2]).0 <= SCALE,
                k <= n,
                cum == prefix_total(sp, k as int),
                cum <= k * SCALE,
                nucleus_size(sp, self.top_p as int)
                    == k + nucleus_size(sp.skip(k as int), self.top_p - cum),
            decreases n - k,
        {
            proof {
                let tail = sp.skip(k as int);
                assert(tail.len() > 0);
                assert(tail[0] == sp[k as int]);
                assert(tail.drop_first() =~= sp.skip(k as int + 1));
                assert(nucleus_size(tail, self.top_p - cum)
                    == 1 + nucleus_size(tail.drop_first(), self.top_p - cum - tail[0].0));
            }
            cum = cum + sorted[k].0;
            k += 1;
        }
        proof {
            if k < n {
                // the running sum has exceeded top_p: nothing more is admitted
                assert(nucleus_size(sp.skip(k as int), self.top_p - cum) == 0);
            } else {
                assert(sp.skip(k as int).len() == 0);
                assert(nucleus_size(sp.skip(k as int), self.top_p - cum) == 0);
            }
            assert(nucleus_size(sp, self.top_p as int) == k as int);
        }
        sorted.truncate(k);
        assert(sorted@ =~= sp.take(nucleus_size(sp, self.top_p as int)));
        sorted
    }
}

/// Picks the entry of the descending-sorted, fixed-point weight sequence
/// whose renormalized cumulative weight first reaches `draw / SCALE`; falls
/// back to the first entry when none does.
pub fn select(weights: &Vec<(u64, u16)>, draw: u64) -> (token: u16)
    requires
        1 <= weights@.len() <= 0x10000,
        forall|i: int| 0 <= i < weights@.len() ==> (#[trigger] weights@[i]).0 <= SCALE,
        draw < SCALE,
    ensures
        token == weights@[selected_index(weights@, draw as int)].1,
{
    let ghost w = weights@;
    let n = weights.len();
    let mut total: u64 = 0;
    let mut i: usize = 0;
    while i < n
        invariant
            n == w.len() <= 0x10000,
            forall|i2: int| 0 <= i2 < w.len() ==> (#[trigger] w[i2]).0 <= SCALE,
            weights@ == w,
            i <= n,
            total == prefix_total(w, i as int),
            total <= i * SCALE,
        decreases n - i,
    {
        proof {
            lemma_prefix_bound(w, i + 1);
        }
        total = total + weights[i].0;
        i += 1;
    }
    let ghost t = prefix_total(w, w.len() as int);
    let mut cum: u64 = 0;
    let mut j: usize = 0;
    while j < n
        invariant
            n == w.len() <= 0x10000,
            forall|i2: int| 0 <= i2 < w.len() ==> (#[trigger] w[i2]).0 <= SCALE,
            weights@ == w,
            draw < SCALE,
            j <= n,
            cum == prefix_total(w, j as int),
            total == prefix_total(w, w.len() as int),
            t == total,
            first_reached_from(w, draw as int, t, 0) == first_reached_from(w, draw as int, t, j as int),
        decreases n - j,
    {
        proof {
            lemma_prefix_bound(w, j + 1);
            lemma_prefix_mono(w, j + 1, w.len() as int);
        }
        cum = cum + weights[j].0;
        proof {
            lemma_u64_mul_fits(cum, SCALE);
            lemma_u64_mul_fits(draw, total);
        }
        if (cum as u128) * (SCALE as u128) >= (draw as u128) * (total as u128) {
            assert(reaches_draw(w, draw as int, t, j as int));
            assert(first_reached_from(w, draw as int, t, j as int) == j as int);
            return weights[j].1;
        }
        proof {
            assert(!reaches_draw(w, draw as int, t, j as int));
            assert(first_reached_from(w, draw as int, t, j as int)
                == first_reached_from(w, draw as int, t, j as int + 1));
        }
        j += 1;
    }
    assert(first_reached_from(w, draw as int, t, n as int) == 0);
    weights[0].1
}

impl Sampler {
    /// Nucleus sampling at temperature `1.0` (the identity weight
    /// transform): the token id whose renormalized cumulative weight inside
    /// the nucleus first reaches the draw. The returned id is always a valid
    /// index into `probs`. Temperature exponentiation is real-valued, so
    /// other temperatures go through [`Sampler::nucleus`] and [`select`]
    /// with caller-transformed weights, as the generation loop does.
    pub fn sample(&self, probs: &Vec<u64>, rng_draw: u64) -> (token: u16)
        requires
            self.wf(),
            self.temp == SCALE,
            valid_probs(probs@),
            rng_draw < SCALE,
        ensures
            token == sample_spec(probs@, self.top_p as int, rng_draw as int),
            (token as int) < probs@.len(),
    {
        let ghost sp = sorted_pairs(probs@);
        let nuc = self.nucleus(probs);
        proof {
            lemma_sorted_pairs_facts(probs@);
            assert forall|i: int| 0 <= i < nuc@.len() implies (#[trigger] nuc@[i]).0 <= SCALE by {
                assert(nuc@[i] == sp[i]);
            }
            lemma_first_reached_in_range(
                nuc@,
                rng_draw as int,
                prefix_total(nuc@, nuc@.len() as int),
                0,
            );
        }
        let token = select(&nuc, rng_draw);
        proof {
            let sel = selected_index(nuc@, rng_draw as int);
            assert(0 <= sel < nuc@.len());
            assert(nuc@[sel] == sp[sel]);
            assert((sp[sel].1 as int) < probs@.len());
        }
        token
    }
}

} // verus!

