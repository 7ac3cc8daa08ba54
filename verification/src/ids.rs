//! Transaction identifiers and their byte order.
//!
//! Identifiers cross the boundary in display order and are stored in the
//! ledger's internal order; the two differ by a byte reversal.

use vstd::prelude::*;

verus! {

/// The reversal of a byte sequence.
pub open spec fn seq_reversed<A>(s: Seq<A>) -> Seq<A> {
    Seq::new(s.len(), |i: int| s[s.len() - 1 - i])
}

/// Reversal is involutive: reversing twice returns the original bytes.
pub proof fn lemma_reverse_involutive<A>(s: Seq<A>)
    ensures
        seq_reversed(seq_reversed(s)) == s,
{
    assert(seq_reversed(seq_reversed(s)) =~= s);
}

/// A copy of `bytes` with the byte order reversed.
pub fn reversed(bytes: &Vec<u8>) -> (r: Vec<u8>)
    ensures
        r@ == seq_reversed(bytes@),
{
    let mut out: Vec<u8> = Vec::new();
    let mut i: usize = bytes.len();
    while i > 0
        invariant
            i <= bytes.len(),
            out@.len() == bytes@.len() - i,
            forall|k: int| 0 <= k < out@.len() ==> out@[k] == bytes@[bytes@.len() - 1 - k],
        decreases i,
    {
        i = i - 1;
        out.push(bytes[i]);
    }
    proof {
        assert(out@ =~= seq_reversed(bytes@));
    }
    out
}

} // verus!
