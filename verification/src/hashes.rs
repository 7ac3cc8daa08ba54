//! Trusted wrappers around the outside cryptographic primitives.
//!
//! Each digest is named by an uninterpreted spec function: the contracts of
//! the rest of the library speak of those names, and nothing here claims to
//! know a digest's value on any particular input.

use ripemd::Digest;
use vstd::prelude::*;

verus! {

/// The 64-byte SHA-512 digest of a byte sequence.
pub uninterp spec fn sha512_of(data: Seq<u8>) -> Seq<u8>;

/// The 32-byte SHA-256 digest of a byte sequence.
pub uninterp spec fn sha256_of(data: Seq<u8>) -> Seq<u8>;

/// The 20-byte RIPEMD-160 digest of a byte sequence.
pub uninterp spec fn ripemd160_of(data: Seq<u8>) -> Seq<u8>;

/// The base58 rendering of a byte sequence.
pub uninterp spec fn base58_of(data: Seq<u8>) -> Seq<char>;

/// Whether 32 bytes form a valid secret scalar: nonzero and below the
/// secp256k1 group order.
pub uninterp spec fn secret_valid(secret: Seq<u8>) -> bool;

/// The 65-byte uncompressed secp256k1 public key of a valid secret scalar.
pub uninterp spec fn pubkey_of(secret: Seq<u8>) -> Seq<u8>;

/// Relies on ring::digest::digest with SHA512: a 64-byte digest that depends
/// on the input bytes alone.
#[verifier::external_body]
pub(crate) fn sha512(data: &Vec<u8>) -> (r: Vec<u8>)
    ensures
        r@ == sha512_of(data@),
        r@.len() == 64,
{
    ring::digest::digest(&ring::digest::SHA512, data.as_slice())
        .as_ref()
        .to_vec()
}

/// Relies on ring::digest::digest with SHA256: a 32-byte digest that depends
/// on the input bytes alone.
#[verifier::external_body]
pub(crate) fn sha256(data: &Vec<u8>) -> (r: Vec<u8>)
    ensures
        r@ == sha256_of(data@),
        r@.len() == 32,
{
    ring::digest::digest(&ring::digest::SHA256, data.as_slice())
        .as_ref()
        .to_vec()
}

/// Relies on ripemd::Ripemd160 (the Digest trait's digest method): a 20-byte
/// digest that depends on the input bytes alone.
#[verifier::external_body]
pub(crate) fn ripemd160(data: &Vec<u8>) -> (r: Vec<u8>)
    ensures
        r@ == ripemd160_of(data@),
        r@.len() == 20,
{
    ripemd::Ripemd160::digest(data.as_slice()).to_vec()
}

/// Relies on bs58::encode: base58 text that depends on the input bytes alone.
#[verifier::external_body]
pub(crate) fn base58_encode(data: &Vec<u8>) -> (r: String)
    ensures
        r@ == base58_of(data@),
{
    bs58::encode(data.as_slice()).into_string()
}

/// Relies on libsecp256k1: SecretKey::parse accepts exactly the nonzero
/// scalars below the group order, and PublicKey::from_secret_key with
/// PublicKey::serialize gives the 65-byte uncompressed public key, which
/// depends on the secret bytes alone.
#[verifier::external_body]
pub(crate) fn secp_pubkey_uncompressed(secret: &Vec<u8>) -> (r: Option<Vec<u8>>)
    requires
        secret@.len() == 32,
    ensures
        r is Some <==> secret_valid(secret@),
        r matches Some(pk) ==> pk@ == pubkey_of(secret@) && pk@.len() == 65,
{
    let mut buf = [0u8; 32];
    buf.copy_from_slice(secret.as_slice());
    match libsecp256k1::SecretKey::parse(&buf) {
        Ok(sk) => {
            let pk = libsecp256k1::PublicKey::from_secret_key(&sk);
            Some(pk.serialize().to_vec())
        }
        Err(_) => None,
    }
}

} // verus!
