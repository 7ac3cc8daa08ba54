//! The in-memory ledger transaction model.

use vstd::prelude::*;

verus! {

/// A sequence value that makes an input final; lock_time only takes effect
/// when some input carries a smaller sequence.
pub const SEQUENCE_FINAL: u32 = 0xffff_ffff;

/// A reference to the output of a previous transaction, by identifier (in
/// the ledger's internal byte order) and output index.
#[derive(Debug, PartialEq, Eq, Clone)]
pub struct OutPoint {
    pub hash: Vec<u8>,
    pub index: u32,
}

/// One transaction input: the spent outpoint, an unlocking script (left
/// empty here, the transaction is returned unsigned), and a sequence number.
#[derive(Debug, PartialEq, Eq, Clone)]
pub struct TransactionInput {
    pub previous_output: OutPoint,
    pub script_sig: Vec<u8>,
    pub sequence: u32,
}

/// One transaction output: a value in base units and a locking script.
#[derive(Debug, PartialEq, Eq, Clone)]
pub struct TransactionOutput {
    pub value: u64,
    pub script_pubkey: Vec<u8>,
}

/// An assembled transaction. Immutable once assembled.
#[derive(Debug, PartialEq, Eq, Clone)]
pub struct Transaction {
    pub version: u32,
    pub inputs: Vec<TransactionInput>,
    pub outputs: Vec<TransactionOutput>,
    pub lock_time: u32,
}

#[verifier::ext_equal]
pub struct OutPointV {
    pub hash: Seq<u8>,
    pub index: u32,
}

#[verifier::ext_equal]
pub struct TransactionInputV {
    pub previous_output: OutPointV,
    pub script_sig: Seq<u8>,
    pub sequence: u32,
}

#[verifier::ext_equal]
pub struct TransactionOutputV {
    pub value: u64,
    pub script_pubkey: Seq<u8>,
}

#[verifier::ext_equal]
pub struct TransactionV {
    pub version: u32,
    pub inputs: Seq<TransactionInputV>,
    pub outputs: Seq<TransactionOutputV>,
    pub lock_time: u32,
}

impl View for OutPoint {
    type V = OutPointV;

    open spec fn view(&self) -> OutPointV {
        OutPointV { hash: self.hash@, index: self.index }
    }
}

impl View for TransactionInput {
    type V = TransactionInputV;

    open spec fn view(&self) -> TransactionInputV {
        TransactionInputV {
            previous_output: self.previous_output@,
            script_sig: self.script_sig@,
            sequence: self.sequence,
        }
    }
}

impl View for TransactionOutput {
    type V = TransactionOutputV;

    open spec fn view(&self) -> TransactionOutputV {
        TransactionOutputV { value: self.value, script_pubkey: self.script_pubkey@ }
    }
}

impl View for Transaction {
    type V = TransactionV;

    open spec fn view(&self) -> TransactionV {
        TransactionV {
            version: self.version,
            inputs: Seq::new(self.inputs@.len(), |i: int| self.inputs@[i]@),
            outputs: Seq::new(self.outputs@.len(), |i: int| self.outputs@[i]@),
            lock_time: self.lock_time,
        }
    }
}

impl TransactionInputV {
    /// A 32-byte previous identifier and a script whose length has a wire
    /// representation.
    pub open spec fn wf(self) -> bool {
        &&& self.previous_output.hash.len() == 32
        &&& self.script_sig.len() <= u64::MAX
    }
}

impl TransactionOutputV {
    pub open spec fn wf(self) -> bool {
        self.script_pubkey.len() <= u64::MAX
    }
}

impl TransactionV {
    pub open spec fn wf(self) -> bool {
        &&& self.inputs.len() <= u64::MAX
        &&& self.outputs.len() <= u64::MAX
        &&& forall|i: int| 0 <= i < self.inputs.len() ==> self.inputs[i].wf()
        &&& forall|i: int| 0 <= i < self.outputs.len() ==> self.outputs[i].wf()
    }
}

} // verus!
