//! The first place in a sequence at which something holds.

use vstd::prelude::*;

verus! {

/// The first place at which `holds` holds, or the length where there is none.
pub open spec fn first_place<A>(items: Seq<A>, holds: spec_fn(A) -> bool) -> int
    decreases items.len(),
{
    if items.len() == 0 {
        0
    } else {
        let before = first_place(items.drop_last(), holds);
        if before < items.len() - 1 || holds(items.last()) {
            before
        } else {
            before + 1
        }
    }
}

/// What `first_place` says, place by place.
pub proof fn lemma_first_place<A>(items: Seq<A>, holds: spec_fn(A) -> bool)
    ensures
        0 <= first_place(items, holds) <= items.len(),
        first_place(items, holds) < items.len() ==> holds(items[first_place(items, holds)]),
        forall|i: int| 0 <= i < first_place(items, holds) ==> !holds(#[trigger] items[i]),
    decreases items.len(),
{
    if items.len() > 0 {
        let rest = items.drop_last();
        lemma_first_place(rest, holds);
        assert forall|i: int| 0 <= i < first_place(items, holds) implies !holds(
            #[trigger] items[i],
        ) by {
            if i < rest.len() {
                assert(items[i] == rest[i]);
            }
        }
    }
}

/// A place with these properties is the first one.
pub proof fn lemma_first_place_is<A>(items: Seq<A>, holds: spec_fn(A) -> bool, place: int)
    requires
        0 <= place <= items.len(),
        place < items.len() ==> holds(items[place]),
        forall|i: int| 0 <= i < place ==> !holds(#[trigger] items[i]),
    ensures
        first_place(items, holds) == place,
{
    lemma_first_place(items, holds);
    let found = first_place(items, holds);
    if found < place {
        assert(!holds(items[found]));
    }
}

} // verus!
