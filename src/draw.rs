use vstd::prelude::*;
use rand::seq::SliceRandom;

verus! {

/// Relies on rand's `SliceRandom::choose_multiple` with the thread-local
/// generator: it picks `amount` elements of the slice (all of them if there
/// are fewer), at random and without repetition, each position at most once.
#[verifier::external_body]
pub(crate) fn draw_without_replacement(pool: &Vec<usize>, amount: usize) -> (r: Vec<usize>)
    ensures
        r@.len() == if amount < pool@.len() { amount as int } else { pool@.len() as int },
        forall|k: int| 0 <= k < r@.len() ==> pool@.contains(#[trigger] r@[k]),
        pool@.no_duplicates() ==> r@.no_duplicates(),
{
    let mut rng = rand::thread_rng();
    pool.choose_multiple(&mut rng, amount).copied().collect()
}

} // verus!
