//! The order in which a question's four choices are shown: the right one comes first in the
//! list that the question draws, and a random order then places every choice.

use crate::random::{all_distinct, lemma_reordered, shuffle};
use rand::rngs::StdRng;
use vstd::prelude::*;

verus! {

/// `order` places four choices: every one of 0..4 appears once.
pub open spec fn is_order(order: Seq<usize>) -> bool {
    &&& order.len() == 4
    &&& forall|k: int| 0 <= k < 4 ==> #[trigger] order[k] < 4
    &&& all_distinct(order)
    &&& forall|v: usize| v < 4 ==> order.contains(v)
}

/// The position that `order` gives the first choice (the right one).
pub open spec fn first_position(order: Seq<usize>) -> int {
    if order[0] == 0 {
        0
    } else if order[1] == 0 {
        1
    } else if order[2] == 0 {
        2
    } else {
        3
    }
}

/// The four choices `listed` put in `order`: position `k` shows `listed[order[k]]`.
pub open spec fn arranged<T>(listed: Seq<T>, order: Seq<usize>) -> Seq<T> {
    Seq::new(4, |k: int| listed[order[k] as int])
}

/// A random order of four choices: 0, 1, 2, 3 shuffled with `SliceRandom::shuffle`.
pub fn draw_order(rng: &mut StdRng) -> (r: [usize; 4])
    ensures
        is_order(r@),
{
    let mut v: Vec<usize> = vec![0, 1, 2, 3];
    let ghost before = v@;
    assert(all_distinct(before));
    shuffle(rng, &mut v);
    proof {
        lemma_reordered(before, v@);
        assert(v@.len() == 4);
        assert forall|k: int| 0 <= k < 4 implies #[trigger] v@[k] < 4 by {
            assert(v@.contains(v@[k]));
            assert(before.contains(v@[k]));
        }
        assert forall|x: usize| x < 4 implies v@.contains(x) by {
            assert(before[x as int] == x);
            assert(before.contains(x));
        }
    }
    let r = [v[0], v[1], v[2], v[3]];
    proof {
        assert(r@ =~= v@);
    }
    r
}

/// The four choices `listed` in `order`, and where the first of them (the right one) went.
pub fn arrange<T: Copy>(listed: [T; 4], order: [usize; 4]) -> (r: ([T; 4], usize))
    requires
        is_order(order@),
    ensures
        r.0@ == arranged(listed@, order@),
        r.1 == first_position(order@),
{
    let placed = [listed[order[0]], listed[order[1]], listed[order[2]], listed[order[3]]];
    let position: usize = if order[0] == 0 {
        0
    } else if order[1] == 0 {
        1
    } else if order[2] == 0 {
        2
    } else {
        3
    };
    assert(placed@ =~= arranged(listed@, order@));
    (placed, position)
}

/// Choices without repeats stay without repeats in any order, the same ones are shown, and the
/// first of them stands at `first_position`.
pub proof fn lemma_arranged<T>(listed: Seq<T>, order: Seq<usize>)
    requires
        listed.len() == 4,
        is_order(order),
        all_distinct(listed),
    ensures
        all_distinct(arranged(listed, order)),
        0 <= first_position(order) < 4,
        arranged(listed, order)[first_position(order)] == listed[0],
        forall|x: T| arranged(listed, order).contains(x) <==> listed.contains(x),
{
    let a = arranged(listed, order);
    assert(order.contains(0usize));
    let z = choose|z: int| 0 <= z < 4 && order[z] == 0usize;
    assert(first_position(order) <= z);
    assert forall|i: int, j: int| 0 <= i < 4 && 0 <= j < 4 && i != j implies a[i] != a[j] by {
        assert(order[i] != order[j]);
    }
    assert forall|x: T| a.contains(x) <==> listed.contains(x) by {
        if a.contains(x) {
            let i = choose|i: int| 0 <= i < 4 && a[i] == x;
            assert(listed[order[i] as int] == x);
        }
        if listed.contains(x) {
            let m = choose|m: int| 0 <= m < 4 && listed[m] == x;
            assert(order.contains(m as usize));
            let i = choose|i: int| 0 <= i < 4 && order[i] == m as usize;
            assert(a[i] == x);
        }
    }
}

} // verus!
