//! Random choices, drawn by the crate `rand` from the generator of the
//! current thread.

use vstd::prelude::*;
use vstd::seq_lib::{to_multiset_build, to_multiset_contains, to_multiset_len, to_multiset_remove};
use crate::text::texts;

verus! {

/// `order` holds the items of `items`, each as often as `items` does.
pub open spec fn is_arrangement_of<A>(order: Seq<A>, items: Seq<A>) -> bool {
    order.to_multiset() == items.to_multiset()
}

/// `SliceRandom::choose`: one of the items, picked at random; `None` where
/// there is none to pick.
#[verifier::external_body]
pub(crate) fn pick_one<'a>(choices: &'a Vec<String>) -> (r: Option<&'a String>)
    ensures
        choices@.len() == 0 ==> r is None,
        choices@.len() > 0 ==> r is Some && choices@.contains(*r.unwrap()),
{
    rand::seq::SliceRandom::choose(choices.as_slice(), &mut rand::thread_rng())
}

/// `SliceRandom::shuffle`: the items in a random order. It swaps items in
/// place, so none is lost, added or changed.
#[verifier::external_body]
pub(crate) fn shuffle(items: &mut Vec<String>)
    ensures
        is_arrangement_of(final(items)@, old(items)@),
{
    rand::seq::SliceRandom::shuffle(items.as_mut_slice(), &mut rand::thread_rng());
}

/// An arrangement has as many items as what it arranges.
pub proof fn lemma_arrangement_len<A>(order: Seq<A>, items: Seq<A>)
    requires
        is_arrangement_of(order, items),
    ensures
        order.len() == items.len(),
{
    to_multiset_len(order);
    to_multiset_len(items);
}

/// What is done to every item alike does not undo an arrangement.
pub proof fn lemma_arrangement_mapped<A, B>(order: Seq<A>, items: Seq<A>, f: spec_fn(A) -> B)
    requires
        is_arrangement_of(order, items),
    ensures
        is_arrangement_of(order.map_values(f), items.map_values(f)),
    decreases order.len(),
{
    lemma_arrangement_len(order, items);
    if order.len() == 0 {
        assert(order.map_values(f) =~= items.map_values(f));
    } else {
        let x = order.last();
        let rest = order.drop_last();
        assert(rest.push(x) =~= order);
        to_multiset_build(rest, x);
        assert(order.to_multiset().count(x) > 0);
        to_multiset_contains(items, x);
        let j = choose|j: int| 0 <= j < items.len() && items[j] == x;
        let others = items.remove(j);
        to_multiset_remove(items, j);
        assert(rest.to_multiset() =~= others.to_multiset());
        lemma_arrangement_mapped(rest, others, f);
        assert(order.map_values(f) =~= rest.map_values(f).push(f(x)));
        to_multiset_build(rest.map_values(f), f(x));
        assert(items.map_values(f).remove(j) =~= others.map_values(f));
        to_multiset_remove(items.map_values(f), j);
        to_multiset_contains(items.map_values(f), f(x));
        assert(items.map_values(f).contains(f(x))) by {
            assert(items.map_values(f)[j] == f(x));
        }
        assert(order.map_values(f).to_multiset() =~= items.map_values(f).to_multiset());
    }
}

/// Shuffled strings hold the shuffled texts.
pub proof fn lemma_arrangement_texts(order: Seq<String>, items: Seq<String>)
    requires
        is_arrangement_of(order, items),
    ensures
        is_arrangement_of(texts(order), texts(items)),
{
    lemma_arrangement_mapped(order, items, |s: String| s@);
}

} // verus!
