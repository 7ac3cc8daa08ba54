//! The standard pay-to-public-key-hash locking script.

use vstd::prelude::*;

verus! {

/// The canonical pay-to-public-key-hash locking script for a 20-byte key
/// hash: OP_DUP OP_HASH160, a 20-byte push, OP_EQUALVERIFY OP_CHECKSIG.
pub open spec fn p2pkh_script(hash: Seq<u8>) -> Seq<u8> {
    seq![0x76u8, 0xa9u8, 0x14u8] + hash + seq![0x88u8, 0xacu8]
}

/// Build the canonical locking script from a 20-byte public-key hash,
/// always from this one template. A hash of any other length is a caller
/// error, not a runtime condition.
pub fn build_p2pkh(hash: &Vec<u8>) -> (r: Vec<u8>)
    requires
        hash@.len() == 20,
    ensures
        r@ == p2pkh_script(hash@),
        r@.len() == 25,
{
    let mut out: Vec<u8> = Vec::new();
    out.push(0x76);
    out.push(0xa9);
    out.push(0x14);
    let mut i: usize = 0;
    while i < hash.len()
        invariant
            i <= hash@.len(),
            hash@.len() == 20,
            out@ == seq![0x76u8, 0xa9u8, 0x14u8] + hash@.take(i as int),
        decreases hash@.len() - i,
    {
        out.push(hash[i]);
        i = i + 1;
        proof {
            assert(seq![0x76u8, 0xa9u8, 0x14u8] + hash@.take(i as int) =~= (seq![
                0x76u8,
                0xa9u8,
                0x14u8,
            ] + hash@.take(i - 1)).push(hash@[i - 1]));
        }
    }
    out.push(0x88);
    out.push(0xac);
    proof {
        assert(hash@.take(20) =~= hash@);
        assert(out@ =~= p2pkh_script(hash@));
    }
    out
}

} // verus!
