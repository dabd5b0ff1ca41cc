//! Facts about sequences that the proofs of several modules share.

use vstd::prelude::*;

verus! {

/// A sequence taken up to `i + 1` is the sequence taken up to `i` with the
/// element at `i` after it.
pub proof fn lemma_take_next<A>(s: Seq<A>, i: int)
    requires
        0 <= i < s.len(),
    ensures
        s.take(i + 1) == s.take(i).push(s[i]),
{
    assert(s.take(i + 1) =~= s.take(i).push(s[i]));
}

} // verus!
