//! The caller-facing request types.

use vstd::prelude::*;

verus! {

/// A caller-supplied input: a previous transaction identifier in display
/// byte order, an output index, and an optional explicit sequence number.
#[derive(Debug, PartialEq, Eq, Clone)]
pub struct TransactionInput {
    pub txid: Vec<u8>,
    pub vout: u32,
    pub sequence: Option<u32>,
}

/// A caller-supplied typed output. Only the phone variant is supported in
/// this version; the amount is a decimal numeral in coin units.
#[derive(Debug, PartialEq, Eq, Clone)]
pub enum TransactionOutput {
    Address { address: Vec<u8>, amount: Vec<u8> },
    ScriptData { script_data: Vec<u8> },
    Phone { phone: Vec<u8>, amount: Vec<u8> },
}

/// The ordered outputs of a request.
#[derive(Debug, PartialEq, Eq, Clone)]
pub struct TransactionOutputs {
    pub outputs: Vec<TransactionOutput>,
}

#[verifier::ext_equal]
pub struct InputReqV {
    pub txid: Seq<u8>,
    pub vout: u32,
    pub sequence: Option<u32>,
}

#[verifier::ext_equal]
pub enum OutputReqV {
    Address { address: Seq<u8>, amount: Seq<u8> },
    ScriptData { script_data: Seq<u8> },
    Phone { phone: Seq<u8>, amount: Seq<u8> },
}

impl View for TransactionInput {
    type V = InputReqV;

    open spec fn view(&self) -> InputReqV {
        InputReqV { txid: self.txid@, vout: self.vout, sequence: self.sequence }
    }
}

impl View for TransactionOutput {
    type V = OutputReqV;

    open spec fn view(&self) -> OutputReqV {
        match self {
            TransactionOutput::Address { address, amount } => OutputReqV::Address {
                address: address@,
                amount: amount@,
            },
            TransactionOutput::ScriptData { script_data } => OutputReqV::ScriptData {
                script_data: script_data@,
            },
            TransactionOutput::Phone { phone, amount } => OutputReqV::Phone {
                phone: phone@,
                amount: amount@,
            },
        }
    }
}

impl View for TransactionOutputs {
    type V = Seq<OutputReqV>;

    open spec fn view(&self) -> Seq<OutputReqV> {
        Seq::new(self.outputs@.len(), |i: int| self.outputs@[i]@)
    }
}

} // verus!
