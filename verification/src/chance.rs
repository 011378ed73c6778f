//! Random draws, made with `rand`'s thread-local generator.
//!
//! Each draw depends on chance: the contracts state only what holds of every
//! outcome.

use vstd::prelude::*;
use rand::Rng;
use rand::seq::SliceRandom;
use rand::distributions::Distribution;

verus! {

/// `Rng::gen_range` on `lo..=hi`: some value of the range.
#[verifier::external_body]
pub(crate) fn draw_u64_between(lo: u64, hi: u64) -> (r: u64)
    requires
        lo <= hi,
    ensures
        lo <= r <= hi,
{
    rand::thread_rng().gen_range(lo..=hi)
}

/// `Rng::gen_range` on `lo..=hi`: some value of the range.
#[verifier::external_body]
pub(crate) fn draw_usize_between(lo: usize, hi: usize) -> (r: usize)
    requires
        lo <= hi,
    ensures
        lo <= r <= hi,
{
    rand::thread_rng().gen_range(lo..=hi)
}

/// `rand::random::<usize>()`: some number; nothing is promised of which.
#[verifier::external_body]
pub(crate) fn random_usize() -> usize {
    rand::random::<usize>()
}

/// `Rng::gen_range` on `0..n`: some index below `n`.
#[verifier::external_body]
pub(crate) fn draw_index(n: usize) -> (r: usize)
    requires
        n > 0,
    ensures
        r < n,
{
    rand::thread_rng().gen_range(0..n)
}

/// `Rng::gen_ratio`: `true` with chance `numerator / denominator`; always
/// `true` where the two are equal and always `false` where the numerator is 0.
#[verifier::external_body]
pub(crate) fn draw_ratio(numerator: u32, denominator: u32) -> (r: bool)
    requires
        0 < denominator,
        numerator <= denominator,
    ensures
        numerator == denominator ==> r,
        numerator == 0 ==> !r,
{
    rand::thread_rng().gen_ratio(numerator, denominator)
}

/// `SliceRandom::shuffle`: the same elements in a random order.
#[verifier::external_body]
pub(crate) fn shuffle_indices(v: &mut Vec<usize>)
    ensures
        final(v)@.to_multiset() == old(v)@.to_multiset(),
{
    v.shuffle(&mut rand::thread_rng());
}

/// `WeightedIndex::new` and `sample`: an index drawn with chance proportional
/// to its weight. `new` refuses an empty list and one whose weights are all zero
/// (`None` here); a zero weight is never drawn (the sample is the first index
/// whose running total exceeds a value drawn below the total).
#[verifier::external_body]
pub(crate) fn draw_weighted(weights: &Vec<u128>) -> (r: Option<usize>)
    requires
        weights_sum(weights@) <= u128::MAX,
    ensures
        r is None <==> forall|i: int| 0 <= i < weights@.len() ==> weights@[i] == 0,
        r matches Some(i) ==> i < weights@.len() && weights@[i as int] > 0,
{
    match rand::distributions::WeightedIndex::new(weights) {
        Ok(d) => Some(d.sample(&mut rand::thread_rng())),
        Err(_) => None,
    }
}

/// The total of a list of weights.
pub open spec fn weights_sum(w: Seq<u128>) -> int
    decreases w.len(),
{
    if w.len() == 0 {
        0
    } else {
        weights_sum(w.drop_last()) + w.last()
    }
}

/// A total of weights that are each at most `b` is at most `b` times their number.
pub proof fn lemma_weights_sum_bound(w: Seq<u128>, b: int)
    requires
        b >= 0,
        forall|j: int| 0 <= j < w.len() ==> w[j] <= b,
    ensures
        weights_sum(w) <= w.len() * b,
    decreases w.len(),
{
    if w.len() > 0 {
        lemma_weights_sum_bound(w.drop_last(), b);
        assert(weights_sum(w) <= (w.len() - 1) * b + b) by (nonlinear_arith)
            requires
                weights_sum(w) == weights_sum(w.drop_last()) + w.last(),
                weights_sum(w.drop_last()) <= w.drop_last().len() * b,
                w.drop_last().len() == w.len() - 1,
                w.last() <= b,
        ;
        assert((w.len() - 1) * b + b == w.len() * b) by (nonlinear_arith);
    }
}

/// The indices `0..n` in order.
pub open spec fn index_range(n: nat) -> Seq<usize> {
    Seq::new(n, |i: int| i as usize)
}

/// A shuffled range holds every index below its length once.
pub proof fn lemma_shuffled_range(s: Seq<usize>, n: nat)
    requires
        n <= usize::MAX + 1,
        s.to_multiset() == index_range(n).to_multiset(),
    ensures
        s.len() == n,
        s.no_duplicates(),
        forall|i: int| 0 <= i < s.len() ==> s[i] < n,
{
    broadcast use vstd::seq_lib::group_to_multiset_ensures;
    let r = index_range(n);
    s.to_multiset_ensures();
    r.to_multiset_ensures();
    assert(r.no_duplicates());
    r.lemma_multiset_has_no_duplicates();
    s.lemma_multiset_has_no_duplicates_conv();
    assert forall|i: int| 0 <= i < s.len() implies s[i] < n by {
        assert(s.contains(s[i]));
        assert(s.to_multiset().count(s[i]) > 0);
        assert(r.contains(s[i]));
        let k = choose|k: int| 0 <= k < r.len() && r[k] == s[i];
        assert(r[k] == k as usize);
    }
}

/// The indices `0..n` in a random order.
pub fn shuffled_range(n: usize) -> (r: Vec<usize>)
    ensures
        r@.len() == n,
        r@.no_duplicates(),
        forall|i: int| 0 <= i < n ==> r@[i] < n,
{
    let mut v: Vec<usize> = Vec::new();
    let mut i: usize = 0;
    while i < n
        invariant
            i <= n,
            v@ == index_range(i as nat),
        decreases n - i,
    {
        v.push(i);
        assert(v@ =~= index_range((i + 1) as nat));
        i = i + 1;
    }
    shuffle_indices(&mut v);
    proof {
        lemma_shuffled_range(v@, n as nat);
    }
    v
}

} // verus!
