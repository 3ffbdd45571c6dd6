//! The random choices that the games make, through the `rand` crate. Every outcome depends on
//! the generator's state, so each contract states only what holds of every outcome.

use rand::rngs::StdRng;
use rand::seq::SliceRandom;
use rand::Rng;
use vstd::prelude::*;

verus! {

#[verifier::external_type_specification]
#[verifier::external_body]
pub struct ExStdRng(StdRng);

/// `Rng::gen_range` over the inclusive range `low..=high` of `u64`: a value in that range.
/// rand panics on an empty range, so `low <= high` is required.
#[verifier::external_body]
pub(crate) fn gen_range_inclusive(rng: &mut StdRng, low: u64, high: u64) -> (r: u64)
    requires
        low <= high,
    ensures
        low <= r <= high,
{
    rng.gen_range(low..=high)
}

/// `Rng::gen_ratio`: `true` with probability numerator/denominator. rand panics when the
/// denominator is 0 or below the numerator; it returns `false` for a numerator of 0 and `true`
/// when the two are equal.
#[verifier::external_body]
pub(crate) fn gen_ratio(rng: &mut StdRng, numerator: u32, denominator: u32) -> (r: bool)
    requires
        0 < denominator,
        numerator <= denominator,
    ensures
        numerator == 0 ==> !r,
        numerator == denominator ==> r,
{
    rng.gen_ratio(numerator, denominator)
}

/// `SliceRandom::shuffle`: puts the items of `v` in a random order. It only swaps items, so the
/// vector keeps its length and its items.
#[verifier::external_body]
pub(crate) fn shuffle<T>(rng: &mut StdRng, v: &mut Vec<T>)
    ensures
        final(v)@.len() == old(v)@.len(),
        final(v)@.to_multiset() == old(v)@.to_multiset(),
{
    v.shuffle(rng)
}

/// `SliceRandom::choose`: one item of `v` picked at random, `None` when `v` is empty.
#[verifier::external_body]
pub(crate) fn choose_item<T: Copy>(rng: &mut StdRng, v: &Vec<T>) -> (r: Option<T>)
    ensures
        r is None <==> v@.len() == 0,
        r matches Some(item) ==> v@.contains(item),
{
    v.as_slice().choose(rng).copied()
}

/// A random index below `n`, drawn with `Rng::gen_range`.
pub fn random_index(rng: &mut StdRng, n: usize) -> (r: usize)
    requires
        0 < n,
    ensures
        r < n,
{
    gen_range_inclusive(rng, 0, (n - 1) as u64) as usize
}

/// No item occurs twice in `s`.
pub open spec fn all_distinct<A>(s: Seq<A>) -> bool {
    forall|i: int, j: int| 0 <= i < s.len() && 0 <= j < s.len() && i != j ==> s[i] != s[j]
}

proof fn lemma_two_positions_count<A>(s: Seq<A>, i: int, j: int)
    requires
        0 <= i < s.len(),
        0 <= j < s.len(),
        i != j,
        s[i] == s[j],
    ensures
        s.to_multiset().count(s[i]) >= 2,
    decreases s.len(),
{
    broadcast use vstd::multiset::group_multiset_axioms;
    broadcast use vstd::seq_lib::group_to_multiset_ensures;
    let last = s.len() - 1;
    vstd::seq_lib::lemma_multiset_commutative(s.drop_last(), seq![s.last()]);
    assert(s.drop_last() + seq![s.last()] =~= s);
    if i == last || j == last {
        let other = if i == last { j } else { i };
        assert(s.drop_last().contains(s[i])) by {
            assert(s.drop_last()[other] == s[i]);
        }
        assert(s.drop_last().to_multiset().count(s[i]) >= 1);
    } else {
        lemma_two_positions_count(s.drop_last(), i, j);
    }
}

proof fn lemma_distinct_count<A>(s: Seq<A>, v: A)
    requires
        all_distinct(s),
    ensures
        s.to_multiset().count(v) <= 1,
    decreases s.len(),
{
    broadcast use vstd::multiset::group_multiset_axioms;
    broadcast use vstd::seq_lib::group_to_multiset_ensures;
    if s.len() > 0 {
        let t = s.drop_last();
        vstd::seq_lib::lemma_multiset_commutative(t, seq![s.last()]);
        assert(t + seq![s.last()] =~= s);
        lemma_distinct_count(t, v);
        if v == s.last() {
            assert(!t.contains(v)) by {
                if t.contains(v) {
                    let w = choose|w: int| 0 <= w < t.len() && t[w] == v;
                    assert(s[w] == s[s.len() - 1]);
                }
            }
        }
    }
}

/// A reordering (same items, as a multiset) of a sequence without repeats has no repeats, and
/// holds exactly the items it had before.
pub proof fn lemma_reordered<A>(before: Seq<A>, after: Seq<A>)
    requires
        after.to_multiset() == before.to_multiset(),
        all_distinct(before),
    ensures
        all_distinct(after),
        forall|x: A| after.contains(x) <==> before.contains(x),
{
    broadcast use vstd::seq_lib::group_to_multiset_ensures;
    assert forall|i: int, j: int| 0 <= i < after.len() && 0 <= j < after.len() && i != j implies after[i] != after[j] by {
        if after[i] == after[j] {
            lemma_two_positions_count(after, i, j);
            lemma_distinct_count(before, after[i]);
        }
    }
    assert forall|x: A| after.contains(x) <==> before.contains(x) by {
        after.to_multiset_ensures();
        before.to_multiset_ensures();
        assert(after.to_multiset().count(x) == before.to_multiset().count(x));
        assert(after.contains(x) <==> after.to_multiset().count(x) > 0);
        assert(before.contains(x) <==> before.to_multiset().count(x) > 0);
    }
}

} // verus!
