//! Random choices, drawn from the generator that `rand` keeps for each thread.
//!
//! Nothing is claimed of which value is drawn, only of the range it lies in:
//! two calls with the same arguments may return different results.

use rand::seq::SliceRandom;
use rand::Rng;
use vstd::prelude::*;

verus! {

/// Whether `picked` lists the items of `items` at pairwise distinct positions.
pub open spec fn is_selection<T>(picked: Seq<T>, items: Seq<T>) -> bool {
    exists|at: Seq<int>|
        {
            &&& at.len() == picked.len()
            &&& forall|i: int| 0 <= i < at.len() ==> 0 <= #[trigger] at[i] < items.len() && picked[i] == items[at[i]]
            &&& forall|i: int, j: int| 0 <= i < j < at.len() ==> #[trigger] at[i] != #[trigger] at[j]
        }
}

/// Items taken from distinct positions of a list without repetitions are
/// themselves without repetitions, and each is in the list.
pub proof fn lemma_selection_distinct<T>(picked: Seq<T>, items: Seq<T>)
    requires
        is_selection(picked, items),
        items.no_duplicates(),
    ensures
        picked.no_duplicates(),
        forall|i: int| 0 <= i < picked.len() ==> items.contains(#[trigger] picked[i]),
{
    let at = choose|at: Seq<int>|
        {
            &&& at.len() == picked.len()
            &&& forall|i: int|
                0 <= i < at.len() ==> 0 <= #[trigger] at[i] < items.len() && picked[i]
                    == items[at[i]]
            &&& forall|i: int, j: int|
                0 <= i < j < at.len() ==> #[trigger] at[i] != #[trigger] at[j]
        };
    assert forall|i: int, j: int| 0 <= i < picked.len() && 0 <= j < picked.len() && i != j implies picked[i] != picked[j] by {
        assert(at[i] != at[j]);
    }
    assert forall|i: int| 0 <= i < picked.len() implies items.contains(#[trigger] picked[i]) by {
        assert(items[at[i]] == picked[i]);
    }
}

/// `Rng::gen_range` over `0..n`: some index below `n`.  The range must not be
/// empty.
#[verifier::external_body]
pub(crate) fn random_index(n: usize) -> (i: usize)
    requires
        n > 0,
    ensures
        i < n,
{
    rand::thread_rng().gen_range(0..n)
}

/// `Rng::gen` for `u32`: any value.
#[verifier::external_body]
pub(crate) fn random_u32() -> u32 {
    rand::thread_rng().gen()
}

/// `SliceRandom::choose`: one of the items, or `None` where there is none.
#[verifier::external_body]
pub(crate) fn choose_one<T: Copy>(items: &Vec<T>) -> (r: Option<T>)
    ensures
        items@.len() == 0 ==> r is None,
        items@.len() > 0 ==> r is Some && items@.contains(r->0),
{
    items.choose(&mut rand::thread_rng()).copied()
}

/// `SliceRandom::choose_multiple`, collected: `amount` of the items, or all of
/// them where there are fewer, taken from distinct positions, in any order.
#[verifier::external_body]
pub(crate) fn choose_several<T: Copy>(items: &Vec<T>, amount: usize) -> (r: Vec<T>)
    ensures
        r@.len() == (if amount <= items@.len() {
            amount as int
        } else {
            items@.len() as int
        }),
        is_selection(r@, items@),
{
    items.choose_multiple(&mut rand::thread_rng(), amount).copied().collect()
}

} // verus!
