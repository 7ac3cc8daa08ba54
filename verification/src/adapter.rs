//! The boundary: byte-order normalization, serialization to wire bytes,
//! and the plain-value halves of the operations that talk to the outside.

use vstd::prelude::*;

use crate::assemble::{
    built_output, default_sequence, do_create_pay2phone_transaction, first_output_err,
};
use crate::chain::{OutPointV, TransactionInputV, TransactionV};
use crate::ids::{lemma_reverse_involutive, reversed, seq_reversed};
use crate::seq_views;
use crate::types::{InputReqV, OutputReqV, TransactionInput, TransactionOutputs};
use crate::wire::{serialize_transaction, ser_tx};
use crate::TxError;

verus! {

/// The ledger input as it leaves the boundary: the adapter reverses the
/// caller's identifier once, and the assembler reverses it once more into
/// internal order, so the stored bytes equal the caller's bytes.
pub open spec fn boundary_built_input(i: InputReqV, lock_time: u32) -> TransactionInputV {
    TransactionInputV {
        previous_output: OutPointV { hash: i.txid, index: i.vout },
        script_sig: Seq::<u8>::empty(),
        sequence: match i.sequence {
            Some(s) => s,
            None => default_sequence(lock_time),
        },
    }
}

/// The transaction whose wire bytes the boundary returns.
pub open spec fn boundary_tx(
    inputs: Seq<InputReqV>,
    outputs: Seq<OutputReqV>,
    lock_time: u32,
) -> TransactionV {
    TransactionV {
        version: 1,
        inputs: Seq::new(inputs.len(), |i: int| boundary_built_input(inputs[i], lock_time)),
        outputs: Seq::new(outputs.len(), |i: int| built_output(outputs[i])),
        lock_time: lock_time,
    }
}

/// Build an unsigned pay-to-phone transaction and serialize it to wire
/// bytes: reverse each caller identifier once at the boundary, assemble,
/// and encode. The first failing output's error is returned instead.
pub fn create_pay2phone_transaction(
    inputs: Vec<TransactionInput>,
    outputs: TransactionOutputs,
    lock_time: Option<u32>,
) -> (r: Result<Vec<u8>, TxError>)
    requires
        forall|i: int| 0 <= i < inputs@.len() ==> (#[trigger] inputs@[i]).txid@.len() == 32,
    ensures
        ({
            let lt = match lock_time {
                Some(l) => l,
                None => 0u32,
            };
            match r {
                Ok(b) => first_output_err(outputs@) is None && b@ == ser_tx(
                    boundary_tx(seq_views(inputs@), outputs@, lt),
                ),
                Err(e) => first_output_err(outputs@) == Some(e),
            }
        }),
{
    let ghost orig = seq_views(inputs@);
    let mut rev: Vec<TransactionInput> = Vec::new();
    let mut i: usize = 0;
    while i < inputs.len()
        invariant
            0 <= i <= inputs@.len(),
            orig == seq_views(inputs@),
            orig.len() == inputs@.len(),
            forall|k: int| 0 <= k < inputs@.len() ==> (#[trigger] inputs@[k]).txid@.len() == 32,
            rev@.len() == i,
            forall|k: int| 0 <= k < i ==> (#[trigger] rev@[k])@ == (InputReqV {
                txid: seq_reversed(orig[k].txid),
                vout: orig[k].vout,
                sequence: orig[k].sequence,
            }),
            forall|k: int| 0 <= k < i ==> (#[trigger] rev@[k]).txid@.len() == 32,
        decreases inputs@.len() - i,
    {
        let inp: &TransactionInput = &inputs[i];
        let txid = reversed(&inp.txid);
        rev.push(TransactionInput { txid, vout: inp.vout, sequence: inp.sequence });
        proof {
            assert(orig[i as int] == inp@);
            assert(rev@[i as int]@ =~= InputReqV {
                txid: seq_reversed(orig[i as int].txid),
                vout: orig[i as int].vout,
                sequence: orig[i as int].sequence,
            });
        }
        i = i + 1;
    }
    let ghost lt = match lock_time {
        Some(l) => l,
        None => 0u32,
    };
    let t = match do_create_pay2phone_transaction(rev, outputs, lock_time) {
        Ok(t) => t,
        Err(e) => {
            return Err(e);
        },
    };
    let bytes = serialize_transaction(&t);
    proof {
        assert forall|k: int| 0 <= k < orig.len() implies seq_reversed(
            seq_reversed(orig[k].txid),
        ) == orig[k].txid by {
            lemma_reverse_involutive(orig[k].txid);
        }
        assert(t@ =~= boundary_tx(orig, outputs@, lt));
    }
    Ok(bytes)
}

/// Whether a byte is an ASCII hexadecimal digit.
pub open spec fn is_hex_digit(b: u8) -> bool {
    (0x30 <= b <= 0x39) || (0x61 <= b <= 0x66) || (0x41 <= b <= 0x46)
}

pub open spec fn all_hex(s: Seq<u8>) -> bool {
    forall|i: int| 0 <= i < s.len() ==> is_hex_digit(s[i])
}

/// The value of one hexadecimal digit byte.
pub open spec fn hex_val(b: u8) -> u8 {
    if 0x30 <= b <= 0x39 {
        (b - 0x30) as u8
    } else if 0x61 <= b <= 0x66 {
        (b - 0x61 + 10) as u8
    } else {
        (b - 0x41 + 10) as u8
    }
}

/// Parse a 64-digit hexadecimal transaction identifier, as an external
/// wallet prints one, into its 32 bytes. Succeeds exactly on 64
/// hexadecimal digits.
pub fn parse_txid_hex(s: &Vec<u8>) -> (r: Option<Vec<u8>>)
    ensures
        r is Some <==> s@.len() == 64 && all_hex(s@),
        r matches Some(v) ==> v@.len() == 32 && forall|k: int|
            0 <= k < 32 ==> v@[k] == hex_val(s@[2 * k]) * 16 + hex_val(s@[2 * k + 1]),
{
    if s.len() != 64 {
        return None;
    }
    let mut out: Vec<u8> = Vec::new();
    let mut k: usize = 0;
    while k < 32
        invariant
            0 <= k <= 32,
            s@.len() == 64,
            out@.len() == k,
            forall|j: int| 0 <= j < 2 * k ==> is_hex_digit(#[trigger] s@[j]),
            forall|j: int|
                0 <= j < k ==> out@[j] == hex_val(s@[2 * j]) * 16 + hex_val(s@[2 * j + 1]),
        decreases 32 - k,
    {
        let hi = s[2 * k];
        let lo = s[2 * k + 1];
        let hv: u8 = if 0x30 <= hi && hi <= 0x39 {
            hi - 0x30
        } else if 0x61 <= hi && hi <= 0x66 {
            hi - 0x61 + 10
        } else if 0x41 <= hi && hi <= 0x46 {
            hi - 0x41 + 10
        } else {
            proof {
                assert(!is_hex_digit(s@[2 * (k as int)]));
            }
            return None;
        };
        let lv: u8 = if 0x30 <= lo && lo <= 0x39 {
            lo - 0x30
        } else if 0x61 <= lo && lo <= 0x66 {
            lo - 0x61 + 10
        } else if 0x41 <= lo && lo <= 0x46 {
            lo - 0x41 + 10
        } else {
            proof {
                assert(!is_hex_digit(s@[2 * (k as int) + 1]));
            }
            return None;
        };
        out.push(hv * 16 + lv);
        k = k + 1;
    }
    Some(out)
}

/// The length of `s` without its trailing newline bytes.
pub open spec fn trimmed_len(s: Seq<u8>) -> int
    decreases s.len(),
{
    if s.len() > 0 && s.last() == 0x0au8 {
        trimmed_len(s.drop_last())
    } else {
        s.len() as int
    }
}

/// Where the trailing newlines start, read off from a scan from the end.
proof fn lemma_trimmed_at(s: Seq<u8>, e: int)
    requires
        0 <= e <= s.len(),
        e > 0 ==> s[e - 1] != 0x0au8,
        forall|k: int| e <= k < s.len() ==> s[k] == 0x0au8,
    ensures
        trimmed_len(s) == e,
    decreases s.len(),
{
    if s.len() == 0 {
    } else if s.last() == 0x0au8 {
        assert(e < s.len());
        lemma_trimmed_at(s.drop_last(), e);
    } else {
        assert(e == s.len());
    }
}

/// A copy of `s` with every trailing newline removed, as an external
/// wallet's printed output is cleaned before use.
pub fn trim_trailing_newlines(s: &Vec<u8>) -> (r: Vec<u8>)
    ensures
        r@ == s@.take(trimmed_len(s@)),
{
    let mut end = s.len();
    while end > 0 && s[end - 1] == 0x0a
        invariant
            0 <= end <= s@.len(),
            forall|k: int| end <= k < s@.len() ==> s@[k] == 0x0au8,
        decreases end,
    {
        end = end - 1;
    }
    proof {
        lemma_trimmed_at(s@, end as int);
    }
    let mut out: Vec<u8> = Vec::new();
    let mut i: usize = 0;
    while i < end
        invariant
            0 <= i <= end <= s@.len(),
            out@ == s@.take(i as int),
        decreases end - i,
    {
        out.push(s[i]);
        i = i + 1;
        proof {
            assert(s@.take(i as int) =~= s@.take(i - 1).push(s@[i - 1]));
        }
    }
    out
}

} // verus!
