//! What a reader yields, call after call: a sequence of outcomes, each one an
//! item or a failure.

use vstd::prelude::*;

verus! {

/// The items of a stream in order. Where an outcome is a failure, the item at
/// its place is arbitrary.
pub open spec fn read_items<T>(stream: Seq<Option<T>>) -> Seq<T> {
    Seq::new(stream.len(), |i: int| stream[i]->0)
}

/// `at` is the least number below `count` that is wanted.
pub open spec fn is_first(count: int, wanted: spec_fn(int) -> bool, at: int) -> bool {
    &&& 0 <= at < count
    &&& wanted(at)
    &&& forall|i: int| 0 <= i < at ==> !#[trigger] wanted(i)
}

/// The least number below `count` that is wanted, if one is.
pub open spec fn first_where(count: int, wanted: spec_fn(int) -> bool) -> Option<int> {
    if exists|at: int| is_first(count, wanted, at) {
        Some(choose|at: int| is_first(count, wanted, at))
    } else {
        None
    }
}

/// There is one least wanted number at most, and there is one where any number
/// below `count` is wanted.
pub proof fn lemma_first_where(count: int, wanted: spec_fn(int) -> bool)
    ensures
        forall|at: int| is_first(count, wanted, at) <==> first_where(count, wanted) == Some(at),
        first_where(count, wanted) is None <==> forall|i: int|
            0 <= i < count ==> !#[trigger] wanted(i),
{
    if first_where(count, wanted) is None {
        assert forall|i: int| 0 <= i < count implies !#[trigger] wanted(i) by {
            if wanted(i) {
                lemma_wanted_has_first(count, wanted, i);
            }
        }
    }
}

proof fn lemma_wanted_has_first(count: int, wanted: spec_fn(int) -> bool, at: int)
    requires
        0 <= at < count,
        wanted(at),
    ensures
        exists|first: int| is_first(count, wanted, first),
    decreases at,
{
    if exists|i: int| 0 <= i < at && #[trigger] wanted(i) {
        let earlier = choose|i: int| 0 <= i < at && #[trigger] wanted(i);
        lemma_wanted_has_first(count, wanted, earlier);
    } else {
        assert(is_first(count, wanted, at));
    }
}

} // verus!
