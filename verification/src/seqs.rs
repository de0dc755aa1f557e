//! Joining a sequence of pieces into one sequence.

use vstd::prelude::*;

verus! {

/// The elements of `pieces`, piece after piece.
pub open spec fn joined<A>(pieces: Seq<Seq<A>>) -> Seq<A>
    decreases pieces.len(),
{
    if pieces.len() == 0 {
        Seq::empty()
    } else {
        joined(pieces.drop_last()) + pieces.last()
    }
}

/// A single piece joins to itself.
pub proof fn lemma_joined_one<A>(piece: Seq<A>)
    ensures
        joined(seq![piece]) == piece,
{
    let one = seq![piece];
    assert(joined(one.drop_last()) == Seq::<A>::empty());
}

} // verus!
