//! The two places where chance enters: the order in which stored lines are
//! tried, and the names and passwords of new accounts.

use vstd::prelude::*;
use rand::seq::SliceRandom;
use rand::Rng;

verus! {

/// Whether `c` is an ASCII letter or digit.
pub open spec fn is_alphanumeric(c: char) -> bool {
    ||| 0x30 <= c as u32 <= 0x39
    ||| 0x41 <= c as u32 <= 0x5a
    ||| 0x61 <= c as u32 <= 0x7a
}

/// Reorders `order` at random.
///
/// Trusted: this is `rand::seq::SliceRandom::shuffle` on a slice, driven by
/// `rand::thread_rng()`. Its source is a run of swaps between positions of the
/// slice, so the items afterwards are the items before, each as often as before.
/// Which arrangement comes out is left open.
#[verifier::external_body]
pub(crate) fn shuffle(order: &mut Vec<usize>)
    ensures
        final(order)@.to_multiset() == old(order)@.to_multiset(),
{
    order.shuffle(&mut rand::thread_rng());
}

/// A random string of `n` ASCII letters and digits.
///
/// Trusted: this is `Rng::sample_iter` with `rand::distributions::Alphanumeric`
/// on `rand::thread_rng()`, cut off after `n` items and collected. Every sample
/// of that distribution is taken from the 62 characters `A-Z`, `a-z`, `0-9`.
/// Which ones come out is left open.
#[verifier::external_body]
pub(crate) fn random_string(n: usize) -> (s: String)
    ensures
        s@.len() == n,
        forall|i: int| 0 <= i < n ==> is_alphanumeric(#[trigger] s@[i]),
{
    rand::thread_rng().sample_iter(&rand::distributions::Alphanumeric).take(n).collect()
}

/// The indices `0, 1, ..`, `n` of them.
pub open spec fn indices(n: nat) -> Seq<usize> {
    Seq::new(n, |i: int| i as usize)
}

/// Whether `order` holds the first `n` indices, each of them once.
pub open spec fn is_arrangement(order: Seq<usize>, n: nat) -> bool {
    order.to_multiset() == indices(n).to_multiset()
}

/// An arrangement of `n` indices has `n` entries, each below `n`, and every index
/// below `n` stands somewhere in it.
pub proof fn lemma_arrangement(order: Seq<usize>, n: nat)
    requires
        is_arrangement(order, n),
        n <= usize::MAX,
    ensures
        order.len() == n,
        forall|k: int| 0 <= k < order.len() ==> #[trigger] order[k] < n,
        forall|i: usize| i < n ==> #[trigger] order.contains(i),
{
    broadcast use vstd::seq_lib::group_to_multiset_ensures;

    let base = indices(n);
    assert(order.len() == order.to_multiset().len());
    assert(base.len() == base.to_multiset().len());
    assert forall|k: int| 0 <= k < order.len() implies #[trigger] order[k] < n by {
        assert(order.contains(order[k]));
        assert(order.to_multiset().count(order[k]) > 0);
        assert(base.contains(order[k]));
        let j = choose|j: int| 0 <= j < base.len() && base[j] == order[k];
        assert(base[j] == j);
    }
    assert forall|i: usize| i < n implies #[trigger] order.contains(i) by {
        assert(base[i as int] == i);
        assert(base.contains(i));
        assert(base.to_multiset().count(i) > 0);
    }
}

/// The first `n` indices in a random order.
pub fn shuffled_indices(n: usize) -> (order: Vec<usize>)
    ensures
        is_arrangement(order@, n as nat),
{
    let mut order: Vec<usize> = Vec::new();
    let mut i: usize = 0;
    while i < n
        invariant
            i <= n,
            order@ == indices(i as nat),
        decreases n - i,
    {
        order.push(i);
        assert(order@ =~= indices((i + 1) as nat));
        i += 1;
    }
    shuffle(&mut order);
    order
}

} // verus!
