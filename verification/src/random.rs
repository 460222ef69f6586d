use vstd::prelude::*;
use rand::Rng;
use rand_chacha::ChaCha8Rng;

verus! {

#[verifier::external_type_specification]
#[verifier::external_body]
pub struct ExChaCha8Rng(ChaCha8Rng);

/// Draws an index in `0..=upper` from the generator through
/// `rand::Rng::gen_range` on an inclusive range. The contract claims only
/// that the index lies in that range, which the method documents; which index
/// comes out depends on the generator's state and is not stated.
#[verifier::external_body]
pub(crate) fn random_index_through(rng: &mut ChaCha8Rng, upper: usize) -> (index: usize)
    ensures
        index <= upper,
{
    rng.gen_range(0..=upper)
}

/// `order` lists each of `0..n` exactly once.
pub open spec fn is_index_permutation(order: Seq<usize>, n: nat) -> bool {
    &&& order.len() == n
    &&& forall|i: int| 0 <= i < n ==> #[trigger] order[i] < n
    &&& order.no_duplicates()
}

/// The positions `0..n` in order.
pub open spec fn identity_order(n: nat) -> Seq<usize> {
    Seq::new(n, |i: int| i as usize)
}

/// `s` with the entries at `i` and `j` exchanged.
pub open spec fn swapped(s: Seq<usize>, i: int, j: int) -> Seq<usize> {
    s.update(i, s[j]).update(j, s[i])
}

/// The draws a Fisher-Yates shuffle of `n` positions makes: one for each
/// position from the last down to the second, the draw for position
/// `n - 1 - k` lying in `0..=n - 1 - k`.
pub open spec fn fisher_yates_draws(draws: Seq<usize>, n: nat) -> bool {
    &&& draws.len() == (if n <= 1 { 0 } else { (n - 1) as nat })
    &&& forall|k: int| 0 <= k < draws.len() ==> #[trigger] draws[k] <= n - 1 - k
}

/// The order after the first `k` Fisher-Yates steps: starting from `0..n`,
/// step `k` exchanges position `n - 1 - k` with position `draws[k]`.
pub open spec fn fisher_yates_steps(n: nat, draws: Seq<usize>, k: nat) -> Seq<usize>
    decreases k,
{
    if k == 0 {
        identity_order(n)
    } else {
        swapped(fisher_yates_steps(n, draws, (k - 1) as nat), n - k, draws[k - 1] as int)
    }
}

/// The order a Fisher-Yates shuffle of `n` positions gives for `draws`.
pub open spec fn fisher_yates(n: nat, draws: Seq<usize>) -> Seq<usize> {
    fisher_yates_steps(n, draws, draws.len())
}

/// Exchanging two entries of a permutation gives a permutation.
proof fn lemma_swapped_permutation(s: Seq<usize>, n: nat, i: int, j: int)
    requires
        is_index_permutation(s, n),
        0 <= i < n,
        0 <= j < n,
    ensures
        is_index_permutation(swapped(s, i, j), n),
{
    let t = swapped(s, i, j);
    assert forall|x: int, y: int| 0 <= x < t.len() && 0 <= y < t.len() && x != y implies t[x] != t[y] by {
        let sx = if x == j { i } else if x == i { j } else { x };
        let sy = if y == j { i } else if y == i { j } else { y };
        assert(t[x] == s[sx]);
        assert(t[y] == s[sy]);
    }
    assert forall|x: int| 0 <= x < n implies #[trigger] t[x] < n by {
        let sx = if x == j { i } else if x == i { j } else { x };
        assert(t[x] == s[sx]);
    }
}

proof fn lemma_fisher_yates_steps_permutation(n: nat, draws: Seq<usize>, k: nat)
    requires
        n <= usize::MAX,
        fisher_yates_draws(draws, n),
        k <= draws.len(),
    ensures
        is_index_permutation(fisher_yates_steps(n, draws, k), n),
    decreases k,
{
    if k == 0 {
        let id = identity_order(n);
        assert forall|x: int, y: int| 0 <= x < id.len() && 0 <= y < id.len() && x != y implies id[x] != id[y] by {
            assert(id[x] == x as usize && id[y] == y as usize);
        }
    } else {
        lemma_fisher_yates_steps_permutation(n, draws, (k - 1) as nat);
        assert(draws[k - 1] <= n - 1 - (k - 1));
        lemma_swapped_permutation(fisher_yates_steps(n, draws, (k - 1) as nat), n, n - k, draws[k - 1] as int);
    }
}

/// Whatever the draws, a Fisher-Yates shuffle lists each position exactly
/// once.
pub proof fn lemma_fisher_yates_is_permutation(n: nat, draws: Seq<usize>)
    requires
        n <= usize::MAX,
        fisher_yates_draws(draws, n),
    ensures
        is_index_permutation(fisher_yates(n, draws), n),
{
    lemma_fisher_yates_steps_permutation(n, draws, draws.len());
}

/// The order of `0..n` that Fisher-Yates gives for the given draws: from
/// the last position down to the second, each position is exchanged with the
/// position drawn for it.
pub fn fisher_yates_order(n: usize, draws: &Vec<usize>) -> (order: Vec<usize>)
    requires
        fisher_yates_draws(draws@, n as nat),
    ensures
        order@ == fisher_yates(n as nat, draws@),
        is_index_permutation(order@, n as nat),
{
    let mut order: Vec<usize> = Vec::new();
    let mut i: usize = 0;
    while i < n
        invariant
            i <= n,
            order@.len() == i,
            forall|j: int| 0 <= j < i ==> #[trigger] order@[j] == j,
        decreases n - i,
    {
        order.push(i);
        i = i + 1;
    }
    assert(order@ =~= identity_order(n as nat));
    let mut k: usize = 0;
    while k < draws.len()
        invariant
            k <= draws@.len(),
            fisher_yates_draws(draws@, n as nat),
            order@ == fisher_yates_steps(n as nat, draws@, k as nat),
            order@.len() == n,
        decreases draws@.len() - k,
    {
        let position = n - 1 - k;
        let drawn = draws[k];
        assert(drawn <= n - 1 - k);
        let a = order[position];
        let b = order[drawn];
        order.set(position, b);
        order.set(drawn, a);
        k = k + 1;
        assert(order@ =~= fisher_yates_steps(n as nat, draws@, k as nat));
    }
    proof {
        lemma_fisher_yates_is_permutation(n as nat, draws@);
    }
    order
}

/// A uniformly shuffled order of `0..n` (Fisher-Yates: from the last
/// position down to the second, each position is exchanged with a position
/// drawn from the generator at or before it). Which order comes out depends
/// on the generator; the bounds of the draws and what is done with them are
/// stated.
pub fn shuffled_indices(n: usize, rng: &mut ChaCha8Rng) -> (order: Vec<usize>)
    ensures
        exists|draws: Seq<usize>|
            #![trigger fisher_yates_draws(draws, n as nat)]
            fisher_yates_draws(draws, n as nat) && order@ == fisher_yates(n as nat, draws),
        is_index_permutation(order@, n as nat),
{
    let mut draws: Vec<usize> = Vec::new();
    let mut current: usize = n;
    while current > 1
        invariant
            current <= n,
            n > 1 ==> current >= 1,
            n > 1 ==> draws@.len() == n - current,
            n <= 1 ==> draws@.len() == 0,
            forall|k: int| 0 <= k < draws@.len() ==> #[trigger] draws@[k] <= n - 1 - k,
        decreases current,
    {
        current = current - 1;
        let drawn = random_index_through(rng, current);
        draws.push(drawn);
    }
    assert(fisher_yates_draws(draws@, n as nat));
    fisher_yates_order(n, &draws)
}

/// The items in a shuffled order: the item at position `i` is a clone of
/// `items[order[i]]`, where `order` is the Fisher-Yates order of the
/// positions for the draws the generator made.
pub fn shuffled_by<T: Clone>(items: &[T], rng: &mut ChaCha8Rng) -> (shuffled: Vec<T>)
    ensures
        shuffled@.len() == items@.len(),
        exists|draws: Seq<usize>|
            #![trigger fisher_yates_draws(draws, items@.len())]
            fisher_yates_draws(draws, items@.len()) && forall|i: int|
                0 <= i < items@.len() ==> cloned::<T>(
                    items@[fisher_yates(items@.len(), draws)[i] as int],
                    #[trigger] shuffled@[i],
                ),
{
    let order = shuffled_indices(items.len(), rng);
    let mut shuffled: Vec<T> = Vec::new();
    let mut i: usize = 0;
    while i < order.len()
        invariant
            i <= order.len(),
            is_index_permutation(order@, items@.len()),
            shuffled@.len() == i,
            forall|k: int| 0 <= k < i ==> cloned::<T>(items@[order@[k] as int], #[trigger] shuffled@[k]),
        decreases order.len() - i,
    {
        let item = items[order[i]].clone();
        shuffled.push(item);
        i = i + 1;
    }
    shuffled
}

} // verus!
