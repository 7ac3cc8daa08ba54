//! Deterministic derivation of a key pair from a phone number.
//!
//! The secret scalar is the first 32 bytes of the SHA-512 digest of the phone
//! number's text bytes; the key is uncompressed and tagged for the test
//! network. The address is the base58-check rendering of the public key's
//! two-stage digest.

use vstd::prelude::*;

use crate::hashes::{
    base58_encode, base58_of, pubkey_of, ripemd160, ripemd160_of, secp_pubkey_uncompressed,
    secret_valid, sha256, sha256_of, sha512, sha512_of,
};
use crate::TxError;

verus! {

/// The ledger network a key or address belongs to.
#[derive(Clone, Copy, PartialEq, Eq, Structural, Debug)]
pub enum Network {
    Mainnet,
    Testnet,
}

/// The version byte that prefixes a pay-to-public-key-hash address payload.
pub open spec fn network_version_byte(n: Network) -> u8 {
    match n {
        Network::Mainnet => 0u8,
        Network::Testnet => 111u8,
    }
}

/// The two-stage public-key digest: RIPEMD-160 over SHA-256.
pub open spec fn hash160_of(data: Seq<u8>) -> Seq<u8> {
    ripemd160_of(sha256_of(data))
}

/// The bytes a base58-check address encodes: version byte, 20-byte key hash,
/// and the first four bytes of the double SHA-256 checksum of the two.
pub open spec fn address_payload(n: Network, hash: Seq<u8>) -> Seq<u8> {
    let body = seq![network_version_byte(n)] + hash;
    body + sha256_of(sha256_of(body)).take(4)
}

/// The address text for a key hash on a network.
pub open spec fn address_chars(n: Network, hash: Seq<u8>) -> Seq<char> {
    base58_of(address_payload(n, hash))
}

/// The secret scalar derived from a phone number's text bytes: the first 32
/// bytes of their SHA-512 digest.
pub open spec fn phone_seed(phone: Seq<u8>) -> Seq<u8> {
    sha512_of(phone).take(32)
}

/// A derived key pair.
pub struct KeyPair {
    pub network: Network,
    pub secret: Vec<u8>,
    pub public: Vec<u8>,
    pub compressed: bool,
}

impl KeyPair {
    /// The secret is a valid scalar and the public key is derived from it.
    pub open spec fn wf(self) -> bool {
        &&& self.secret@.len() == 32
        &&& secret_valid(self.secret@)
        &&& self.public@ == pubkey_of(self.secret@)
    }

    /// The 20-byte public-key hash and network tag of this key pair.
    pub fn address(&self) -> (r: Address)
        ensures
            r.network == self.network,
            r.hash@ == hash160_of(self.public@),
            r.hash@.len() == 20,
    {
        let first = sha256(&self.public);
        let hash = ripemd160(&first);
        Address { network: self.network, hash }
    }
}

/// A pay-to-public-key-hash address: a network tag and a 20-byte key hash.
pub struct Address {
    pub network: Network,
    pub hash: Vec<u8>,
}

impl Address {
    /// The base58-check text of this address.
    pub fn encoded(&self) -> (r: String)
        ensures
            r@ == address_chars(self.network, self.hash@),
    {
        let version: u8 = match self.network {
            Network::Mainnet => 0u8,
            Network::Testnet => 111u8,
        };
        let mut body: Vec<u8> = Vec::new();
        body.push(version);
        let mut i: usize = 0;
        while i < self.hash.len()
            invariant
                i <= self.hash@.len(),
                body@ == seq![network_version_byte(self.network)] + self.hash@.take(i as int),
            decreases self.hash@.len() - i,
        {
            body.push(self.hash[i]);
            i = i + 1;
            proof {
                assert(seq![network_version_byte(self.network)] + self.hash@.take(i as int)
                    =~= (seq![network_version_byte(self.network)]
                        + self.hash@.take(i - 1)).push(self.hash@[i - 1]));
            }
        }
        proof {
            assert(self.hash@.take(self.hash@.len() as int) =~= self.hash@);
        }
        let c1 = sha256(&body);
        let c2 = sha256(&c1);
        let mut payload = body;
        payload.push(c2[0]);
        payload.push(c2[1]);
        payload.push(c2[2]);
        payload.push(c2[3]);
        proof {
            assert(payload@ =~= address_payload(self.network, self.hash@));
        }
        base58_encode(&payload)
    }
}

/// Derive a key pair from a phone number's text bytes: SHA-512 the bytes,
/// take the first 32 bytes as the secret scalar, fix the test network and an
/// uncompressed key. Fails with DerivationFailed exactly when those bytes are
/// not a valid scalar.
pub fn gen_keypair_from_phone(phone: &Vec<u8>) -> (r: Result<KeyPair, TxError>)
    ensures
        match r {
            Ok(kp) => {
                &&& secret_valid(phone_seed(phone@))
                &&& kp.wf()
                &&& kp.secret@ == phone_seed(phone@)
                &&& kp.network == Network::Testnet
                &&& !kp.compressed
            },
            Err(e) => e == TxError::DerivationFailed && !secret_valid(phone_seed(phone@)),
        },
{
    let digest = sha512(phone);
    let mut secret: Vec<u8> = Vec::new();
    let mut i: usize = 0;
    while i < 32
        invariant
            i <= 32,
            digest@ == sha512_of(phone@),
            digest@.len() == 64,
            secret@ == sha512_of(phone@).take(i as int),
        decreases 32 - i,
    {
        secret.push(digest[i]);
        i = i + 1;
        proof {
            assert(sha512_of(phone@).take(i as int)
                =~= sha512_of(phone@).take(i - 1).push(sha512_of(phone@)[i - 1]));
        }
    }
    match secp_pubkey_uncompressed(&secret) {
        Some(public) => Ok(KeyPair { network: Network::Testnet, secret, public, compressed: false }),
        None => Err(TxError::DerivationFailed),
    }
}

/// The address text of the key pair derived from a phone number: what a payer
/// to that phone number would pay to.
pub fn get_phone_pub_address(phone: &Vec<u8>) -> (r: Result<String, TxError>)
    ensures
        match r {
            Ok(a) => secret_valid(phone_seed(phone@)) && a@ == address_chars(
                Network::Testnet,
                hash160_of(pubkey_of(phone_seed(phone@))),
            ),
            Err(e) => e == TxError::DerivationFailed && !secret_valid(phone_seed(phone@)),
        },
{
    match gen_keypair_from_phone(phone) {
        Ok(kp) => Ok(kp.address().encoded()),
        Err(e) => Err(e),
    }
}

/// Derivation is deterministic: the same phone bytes give the same seed, the
/// same public key, and so the same key pair and address, every time.
pub proof fn lemma_derivation_deterministic(p1: Seq<u8>, p2: Seq<u8>)
    requires
        p1 == p2,
    ensures
        phone_seed(p1) == phone_seed(p2),
        pubkey_of(phone_seed(p1)) == pubkey_of(phone_seed(p2)),
        address_chars(Network::Testnet, hash160_of(pubkey_of(phone_seed(p1)))) == address_chars(
            Network::Testnet,
            hash160_of(pubkey_of(phone_seed(p2))),
        ),
{
}

} // verus!
