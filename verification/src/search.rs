//! The position of the first item of a sequence that meets a condition.

use vstd::prelude::*;

verus! {

/// The least index at which `items` holds an item that `wanted` accepts, if
/// there is one.
pub open spec fn first_match<T>(items: Seq<T>, wanted: spec_fn(T) -> bool) -> Option<int>
    decreases items.len(),
{
    if items.len() == 0 {
        None
    } else {
        match first_match(items.drop_last(), wanted) {
            Some(i) => Some(i),
            None => if wanted(items.last()) {
                Some(items.len() - 1)
            } else {
                None
            },
        }
    }
}

/// `at` is what [`first_match`] gives: either an index whose item is wanted
/// while no earlier one is, or nothing while no item is wanted.
pub open spec fn is_first_match<T>(
    items: Seq<T>,
    wanted: spec_fn(T) -> bool,
    at: Option<int>,
) -> bool {
    match at {
        Some(i) => {
            &&& 0 <= i < items.len()
            &&& wanted(items[i])
            &&& forall|j: int| 0 <= j < i ==> !wanted(#[trigger] items[j])
        },
        None => forall|j: int| 0 <= j < items.len() ==> !wanted(#[trigger] items[j]),
    }
}

/// [`first_match`] finds the least index of a wanted item, and finds nothing
/// only where nothing is wanted.
pub proof fn lemma_first_match<T>(items: Seq<T>, wanted: spec_fn(T) -> bool)
    ensures
        is_first_match(items, wanted, first_match(items, wanted)),
    decreases items.len(),
{
    if items.len() > 0 {
        let front = items.drop_last();
        lemma_first_match(front, wanted);
        assert forall|j: int| 0 <= j < front.len() implies front[j] == items[j] by {}
        match first_match(front, wanted) {
            Some(i) => {
                assert(front[i] == items[i]);
                assert forall|j: int| 0 <= j < i implies !wanted(#[trigger] items[j]) by {
                    assert(front[j] == items[j]);
                }
            },
            None => {
                assert forall|j: int| 0 <= j < front.len() implies !wanted(
                    #[trigger] items[j],
                ) by {
                    assert(front[j] == items[j]);
                }
            },
        }
    }
}

/// Only one answer fits [`is_first_match`], so whatever fits is what
/// [`first_match`] gives.
pub proof fn lemma_first_match_unique<T>(
    items: Seq<T>,
    wanted: spec_fn(T) -> bool,
    at: Option<int>,
)
    requires
        is_first_match(items, wanted, at),
    ensures
        first_match(items, wanted) == at,
{
    lemma_first_match(items, wanted);
    match (first_match(items, wanted), at) {
        (Some(a), Some(b)) => {
            if a < b {
                assert(!wanted(items[a]));
            } else if b < a {
                assert(!wanted(items[b]));
            }
        },
        (Some(a), None) => {
            assert(!wanted(items[a]));
        },
        (None, Some(b)) => {
            assert(!wanted(items[b]));
        },
        (None, None) => {},
    }
}

} // verus!
