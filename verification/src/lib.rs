//! Pay-to-phone transaction construction.
//!
//! A recipient is identified by a phone number: a key pair is derived
//! deterministically from the phone number's hash, a standard
//! pay-to-public-key-hash locking script is built from the derived key, and
//! caller-supplied inputs and outputs are assembled into an unsigned
//! transaction and serialized to wire bytes.

use vstd::prelude::*;

pub mod adapter;
pub mod amount;
pub mod assemble;
pub mod chain;
pub mod hashes;
pub mod ids;
pub mod phonekey;
pub mod script;
pub mod types;
pub mod wire;

verus! {

/// The views of a sequence of viewable values, in order.
pub open spec fn seq_views<T: View>(s: Seq<T>) -> Seq<T::V> {
    Seq::new(s.len(), |i: int| s[i]@)
}

/// Errors the key deriver and transaction assembler can report.
#[derive(Clone, Copy, PartialEq, Eq, Structural, Debug)]
pub enum TxError {
    /// The bytes derived from the phone hash are not a valid secret scalar.
    DerivationFailed,
    /// The caller requested an output variant this version does not support.
    NotImplemented,
    /// An output's coin amount is not a decimal numeral, or its base-unit
    /// value does not fit in 64 bits.
    InvalidAmount,
}

} // verus!
