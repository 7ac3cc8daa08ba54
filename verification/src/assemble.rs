//! Assembly of an unsigned transaction from caller-supplied inputs and
//! typed outputs.

use vstd::prelude::*;

use crate::amount::{amount_base_units, amount_wf, parse_coin_amount};
use crate::chain;
use crate::chain::{OutPointV, TransactionInputV, TransactionOutputV, TransactionV, SEQUENCE_FINAL};
use crate::hashes::{pubkey_of, secret_valid};
use crate::ids::{reversed, seq_reversed};
use crate::phonekey::{gen_keypair_from_phone, hash160_of, phone_seed};
use crate::script::{build_p2pkh, p2pkh_script};
use crate::types::{InputReqV, OutputReqV, TransactionInput, TransactionOutput, TransactionOutputs};
use crate::seq_views;
use crate::TxError;

verus! {

/// The sequence applied to every input that supplied none of its own: final
/// when lock_time is zero, final minus one otherwise, so that the lock time
/// can take effect.
pub open spec fn default_sequence(lock_time: u32) -> u32 {
    if lock_time != 0 {
        0xffff_fffeu32
    } else {
        SEQUENCE_FINAL
    }
}

/// Why one output cannot be built, if it cannot: unsupported variants are
/// refused, then the phone's derived scalar is checked, then the amount.
pub open spec fn output_err(o: OutputReqV) -> Option<TxError> {
    match o {
        OutputReqV::Address { .. } => Some(TxError::NotImplemented),
        OutputReqV::ScriptData { .. } => Some(TxError::NotImplemented),
        OutputReqV::Phone { phone, amount } => {
            if !secret_valid(phone_seed(phone)) {
                Some(TxError::DerivationFailed)
            } else if !(amount_wf(amount) && amount_base_units(amount) <= u64::MAX) {
                Some(TxError::InvalidAmount)
            } else {
                None
            }
        },
    }
}

/// The first error among the outputs, in order, or none.
pub open spec fn first_output_err(outs: Seq<OutputReqV>) -> Option<TxError>
    decreases outs.len(),
{
    if outs.len() == 0 {
        None
    } else if output_err(outs[0]) is Some {
        output_err(outs[0])
    } else {
        first_output_err(outs.skip(1))
    }
}

/// The ledger input built from a request input: identifier reversed into
/// internal order, empty unlocking script, explicit or default sequence.
pub open spec fn built_input(i: InputReqV, lock_time: u32) -> TransactionInputV {
    TransactionInputV {
        previous_output: OutPointV { hash: seq_reversed(i.txid), index: i.vout },
        script_sig: Seq::<u8>::empty(),
        sequence: match i.sequence {
            Some(s) => s,
            None => default_sequence(lock_time),
        },
    }
}

/// The ledger output built from a phone output: the amount in base units
/// and the locking script for the key derived from the phone number.
/// Meaningful only where `output_err` is none.
pub open spec fn built_output(o: OutputReqV) -> TransactionOutputV {
    match o {
        OutputReqV::Phone { phone, amount } => TransactionOutputV {
            value: amount_base_units(amount) as u64,
            script_pubkey: p2pkh_script(hash160_of(pubkey_of(phone_seed(phone)))),
        },
        _ => TransactionOutputV { value: 0, script_pubkey: Seq::<u8>::empty() },
    }
}

/// The transaction the assembler returns when every output can be built.
pub open spec fn assembled_tx(
    inputs: Seq<InputReqV>,
    outputs: Seq<OutputReqV>,
    lock_time: u32,
) -> TransactionV {
    TransactionV {
        version: 1,
        inputs: Seq::new(inputs.len(), |i: int| built_input(inputs[i], lock_time)),
        outputs: Seq::new(outputs.len(), |i: int| built_output(outputs[i])),
        lock_time: lock_time,
    }
}

/// The lock-time and sequence policy: every input that supplied no explicit
/// sequence is assembled final when the lock time is zero, and final minus
/// one when it is not, so a nonzero lock time can take effect; an explicit
/// sequence is kept as supplied.
pub proof fn lemma_default_sequence_policy(
    inputs: Seq<InputReqV>,
    outputs: Seq<OutputReqV>,
    lock_time: u32,
    i: int,
)
    requires
        0 <= i < inputs.len(),
    ensures
        inputs[i].sequence is None ==> assembled_tx(inputs, outputs, lock_time).inputs[i].sequence
            == (if lock_time != 0 {
            0xffff_fffeu32
        } else {
            SEQUENCE_FINAL
        }),
        inputs[i].sequence matches Some(s) ==> assembled_tx(
            inputs,
            outputs,
            lock_time,
        ).inputs[i].sequence == s,
{
}

/// Skipping outputs known to be error-free does not change the first error.
proof fn lemma_first_err_skip(outs: Seq<OutputReqV>, i: int)
    requires
        0 <= i <= outs.len(),
        forall|j: int| 0 <= j < i ==> output_err(#[trigger] outs[j]) is None,
    ensures
        first_output_err(outs) == first_output_err(outs.skip(i)),
    decreases i,
{
    if i > 0 {
        assert(output_err(outs[0]) is None);
        assert(forall|j: int| 0 <= j < i - 1 ==> output_err(#[trigger] outs.skip(1)[j]) is None)
            by {
            assert(forall|j: int| 0 <= j < i - 1 ==> outs.skip(1)[j] == outs[j + 1]);
        }
        lemma_first_err_skip(outs.skip(1), i - 1);
        assert(outs.skip(1).skip(i - 1) =~= outs.skip(i));
    } else {
        assert(outs.skip(0) =~= outs);
    }
}

/// Assemble an unsigned transaction. The lock time defaults to zero.
/// Every input's identifier, supplied in display order, is reversed into
/// internal order exactly once; inputs without an explicit sequence get the
/// default for the lock time. Each phone output becomes a base-unit value
/// and a pay-to-public-key-hash script for the derived key; the first
/// failing output's error is returned and no partial transaction exists.
pub fn do_create_pay2phone_transaction(
    inputs: Vec<TransactionInput>,
    outputs: TransactionOutputs,
    lock_time: Option<u32>,
) -> (r: Result<chain::Transaction, TxError>)
    requires
        forall|i: int| 0 <= i < inputs@.len() ==> (#[trigger] inputs@[i]).txid@.len() == 32,
    ensures
        ({
            let lt = match lock_time {
                Some(l) => l,
                None => 0u32,
            };
            match r {
                Ok(t) => {
                    &&& first_output_err(outputs@) is None
                    &&& t@ == assembled_tx(seq_views(inputs@), outputs@, lt)
                    &&& t@.wf()
                },
                Err(e) => first_output_err(outputs@) == Some(e),
            }
        }),
{
    let lt: u32 = match lock_time {
        Some(l) => l,
        None => 0u32,
    };
    let default_seq: u32 = if lt != 0 {
        0xffff_fffe
    } else {
        SEQUENCE_FINAL
    };

    // Build the outputs first: the first failing one decides the result.
    let ghost outs_seq = outputs@;
    let mut touts: Vec<chain::TransactionOutput> = Vec::new();
    let mut oi: usize = 0;
    while oi < outputs.outputs.len()
        invariant
            0 <= oi <= outs_seq.len(),
            outs_seq == outputs@,
            outs_seq.len() == outputs.outputs@.len(),
            touts@.len() == oi,
            forall|j: int| 0 <= j < oi ==> output_err(#[trigger] outs_seq[j]) is None,
            forall|j: int| 0 <= j < oi ==> (#[trigger] touts@[j])@ == built_output(outs_seq[j]),
            forall|j: int| 0 <= j < oi ==> (#[trigger] touts@[j])@.wf(),
        decreases outs_seq.len() - oi,
    {
        let o: &TransactionOutput = &outputs.outputs[oi];
        proof {
            assert(outs_seq[oi as int] == o@);
        }
        match o {
            TransactionOutput::Address { .. } => {
                proof {
                    lemma_first_err_skip(outs_seq, oi as int);
                    assert(outs_seq.skip(oi as int)[0] == outs_seq[oi as int]);
                }
                return Err(TxError::NotImplemented);
            },
            TransactionOutput::ScriptData { .. } => {
                proof {
                    lemma_first_err_skip(outs_seq, oi as int);
                    assert(outs_seq.skip(oi as int)[0] == outs_seq[oi as int]);
                }
                return Err(TxError::NotImplemented);
            },
            TransactionOutput::Phone { phone, amount } => {
                proof {
                    assert(outs_seq[oi as int] == OutputReqV::Phone { phone: phone@, amount: amount@ });
                }
                let kp = match gen_keypair_from_phone(phone) {
                    Ok(kp) => kp,
                    Err(e) => {
                        proof {
                            lemma_first_err_skip(outs_seq, oi as int);
                            assert(outs_seq.skip(oi as int)[0] == outs_seq[oi as int]);
                        }
                        return Err(e);
                    },
                };
                let units = match parse_coin_amount(amount) {
                    Ok(u) => u,
                    Err(e) => {
                        proof {
                            lemma_first_err_skip(outs_seq, oi as int);
                            assert(outs_seq.skip(oi as int)[0] == outs_seq[oi as int]);
                        }
                        return Err(e);
                    },
                };
                let addr = kp.address();
                let script = build_p2pkh(&addr.hash);
                touts.push(chain::TransactionOutput { value: units, script_pubkey: script });
                proof {
                    assert(output_err(outs_seq[oi as int]) is None);
                    assert(touts@[oi as int]@ =~= built_output(outs_seq[oi as int]));
                    assert(touts@[oi as int]@.script_pubkey.len() == 25);
                }
            },
        }
        oi = oi + 1;
    }
    proof {
        lemma_first_err_skip(outs_seq, outs_seq.len() as int);
        assert(outs_seq.skip(outs_seq.len() as int) =~= Seq::<OutputReqV>::empty());
    }

    // Build the inputs: reverse each identifier into internal order once.
    let ghost ins_seq = seq_views(inputs@);
    let mut tins: Vec<chain::TransactionInput> = Vec::new();
    let mut ii: usize = 0;
    while ii < inputs.len()
        invariant
            0 <= ii <= ins_seq.len(),
            ins_seq == seq_views(inputs@),
            ins_seq.len() == inputs@.len(),
            default_seq == default_sequence(lt),
            forall|i: int| 0 <= i < inputs@.len() ==> (#[trigger] inputs@[i]).txid@.len() == 32,
            tins@.len() == ii,
            forall|j: int| 0 <= j < ii ==> (#[trigger] tins@[j])@ == built_input(ins_seq[j], lt),
        decreases ins_seq.len() - ii,
    {
        let inp: &TransactionInput = &inputs[ii];
        let hash = reversed(&inp.txid);
        let sequence: u32 = match inp.sequence {
            Some(s) => s,
            None => default_seq,
        };
        tins.push(
            chain::TransactionInput {
                previous_output: chain::OutPoint { hash, index: inp.vout },
                script_sig: Vec::new(),
                sequence,
            },
        );
        proof {
            assert(ins_seq[ii as int] == inp@);
            assert(tins@[ii as int]@ =~= built_input(ins_seq[ii as int], lt));
        }
        ii = ii + 1;
    }

    let t = chain::Transaction { version: 1, inputs: tins, outputs: touts, lock_time: lt };
    proof {
        assert(t@ =~= assembled_tx(ins_seq, outs_seq, lt));
        assert forall|i: int| 0 <= i < t@.inputs.len() implies t@.inputs[i].wf() by {
            assert(t@.inputs[i] == built_input(ins_seq[i], lt));
            assert(ins_seq[i].txid.len() == 32);
        }
        assert forall|i: int| 0 <= i < t@.outputs.len() implies t@.outputs[i].wf() by {
            assert(t@.outputs[i] == touts@[i]@);
        }
    }
    Ok(t)
}

} // verus!
