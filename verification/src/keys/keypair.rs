//! Key material for signing: a secp256k1 key pair, the private scalar held
//! as its 32 raw bytes and the public half as its 33-byte compressed SEC1
//! encoding.

use vstd::prelude::*;

use crate::crypto::{
    calculate_p2pkh_hash, ecdsa_sig_ok, ecdsa_sig_valid, ecdsa_verifies, ecdsa_verify,
    sec1_pubkey_ok, spec_p2pkh_hash,
};
use crate::keys::PublicKeyHash;
use k256::ecdsa::signature::Signer;

verus! {

/// Whether 32 bytes encode a valid non-zero secp256k1 scalar, as decided by
/// `k256::ecdsa::SigningKey::from_slice`.
pub uninterp spec fn ecdsa_scalar_ok(secret: Seq<u8>) -> bool;

/// The compressed SEC1 encoding of the public point derived from a secret
/// scalar, as computed by `SigningKey::verifying_key` and
/// `VerifyingKey::to_encoded_point(true)`: a function of the scalar alone.
pub uninterp spec fn pubkey_of_secret(secret: Seq<u8>) -> Seq<u8>;

/// The signature bytes that RFC 6979 deterministic ECDSA over secp256k1
/// produces for a message under the key pair with the given compressed
/// public key. Signing is deterministic and the public encoding determines
/// the key pair, so the bytes are a function of key and message alone.
pub uninterp spec fn ecdsa_sign_of(pubkey: Seq<u8>, msg: Seq<u8>) -> Seq<u8>;

/// Whether RFC 6979 signing succeeds for a message under the key pair
/// with the given compressed public key, as decided by
/// `SigningKey::try_sign`. Success is as deterministic as the signature
/// itself, so it too is a function of key and message alone.
pub uninterp spec fn ecdsa_sign_some(pubkey: Seq<u8>, msg: Seq<u8>) -> bool;

/// Relies on `k256::ecdsa::SigningKey::random` (drawing from the operating
/// system's generator) and `SigningKey::to_bytes`: the serialized scalar of
/// a freshly drawn key is 32 bytes and parses back.
#[verifier::external_body]
fn random_secret_bytes() -> (r: Vec<u8>)
    ensures
        r@.len() == 32,
        ecdsa_scalar_ok(r@),
{
    k256::ecdsa::SigningKey::random(&mut rand::rngs::OsRng).to_bytes().to_vec()
}

/// Relies on `k256::ecdsa::SigningKey::from_slice` (the `requires` keeps out
/// bytes it rejects, so the unwrap cannot fire), `SigningKey::verifying_key`
/// and `VerifyingKey::to_encoded_point(true)`: the compressed encoding of
/// the derived public point is 33 bytes and parses back as a valid point.
#[verifier::external_body]
fn pubkey_bytes_of_secret(secret: &[u8]) -> (r: Vec<u8>)
    requires
        ecdsa_scalar_ok(secret@),
    ensures
        r@ == pubkey_of_secret(secret@),
        r@.len() == 33,
        sec1_pubkey_ok(r@),
{
    let sk = k256::ecdsa::SigningKey::from_slice(secret).unwrap();
    sk.verifying_key().to_encoded_point(true).as_bytes().to_vec()
}

/// Relies on `k256::ecdsa::SigningKey::from_slice` (kept total by the
/// `requires`) and `SigningKey::try_sign` (RFC 6979 deterministic ECDSA with
/// low-S normalization), and on `VerifyingKey::verify` accepting its output:
/// on success the 64 signature bytes parse back and verify the message
/// under the public key derived from the same scalar.
#[verifier::external_body]
fn ecdsa_sign(secret: &[u8], msg: &[u8]) -> (r: Option<Vec<u8>>)
    requires
        ecdsa_scalar_ok(secret@),
    ensures
        r is Some <==> ecdsa_sign_some(pubkey_of_secret(secret@), msg@),
        r matches Some(sig) ==> {
            &&& sig@.len() == 64
            &&& ecdsa_sig_ok(sig@)
            &&& ecdsa_verifies(pubkey_of_secret(secret@), msg@, sig@)
            &&& sig@ == ecdsa_sign_of(pubkey_of_secret(secret@), msg@)
        },
{
    let sk = k256::ecdsa::SigningKey::from_slice(secret).unwrap();
    let sig: Option<k256::ecdsa::Signature> = sk.try_sign(msg).ok();
    sig.map(|s| s.to_vec())
}

/// A private scalar on secp256k1, held as its 32 raw bytes. Its view is
/// that byte sequence.
pub struct SecretKey {
    bytes: Vec<u8>,
}

impl View for SecretKey {
    type V = Seq<u8>;

    closed spec fn view(&self) -> Seq<u8> {
        self.bytes@
    }
}

impl SecretKey {
    /// Every value holds 32 bytes that parse as a valid non-zero scalar.
    #[verifier::type_invariant]
    pub open spec fn wf(self) -> bool {
        self@.len() == 32 && ecdsa_scalar_ok(self@)
    }
}

/// A secp256k1 public key, kept in its 33-byte compressed SEC1 encoding.
/// Its view is that byte sequence.
pub struct PublicKey {
    bytes: Vec<u8>,
}

impl View for PublicKey {
    type V = Seq<u8>;

    closed spec fn view(&self) -> Seq<u8> {
        self.bytes@
    }
}

impl Clone for PublicKey {
    fn clone(&self) -> (r: Self)
        ensures
            r@ == self@,
    {
        proof {
            use_type_invariant(self);
        }
        let bytes = self.bytes.clone();
        assert(bytes@ =~= self.bytes@);
        PublicKey { bytes }
    }
}

impl PublicKey {
    /// Every value holds a 33-byte encoding that parses as a point.
    #[verifier::type_invariant]
    pub open spec fn wf(self) -> bool {
        self@.len() == 33 && sec1_pubkey_ok(self@)
    }

    pub(crate) fn from_bytes(bytes: Vec<u8>) -> (r: Self)
        requires
            bytes@.len() == 33,
            sec1_pubkey_ok(bytes@),
        ensures
            r@ == bytes@,
    {
        PublicKey { bytes }
    }

    /// The compressed SEC1 encoding of the key.
    pub fn to_bytes(&self) -> (r: Vec<u8>)
        ensures
            r@ == self@,
    {
        proof {
            use_type_invariant(self);
        }
        let bytes = self.bytes.clone();
        assert(bytes@ =~= self.bytes@);
        bytes
    }

    /// The P2PKH address of this key: RIPEMD-160(SHA-256(encoding)).
    pub fn to_address(&self) -> (r: PublicKeyHash)
        ensures
            r@ == spec_p2pkh_hash(self@),
    {
        calculate_p2pkh_hash(self.bytes.as_slice())
    }
}

/// A private scalar and its derived public point. The view of a key pair is
/// the compressed encoding of its public key.
pub struct KeyPair {
    secret_key: SecretKey,
    public_key: PublicKey,
}

impl View for KeyPair {
    type V = Seq<u8>;

    closed spec fn view(&self) -> Seq<u8> {
        self.public_key@
    }
}

impl KeyPair {
    /// The stored public encoding is the one derived from the stored scalar.
    #[verifier::type_invariant]
    closed spec fn linked(self) -> bool {
        self.public_key@ == pubkey_of_secret(self.secret_key@)
    }

    /// Draws a fresh key pair from the system's randomness.
    pub fn generate() -> (r: Self)
        ensures
            r@.len() == 33,
            sec1_pubkey_ok(r@),
    {
        let secret = random_secret_bytes();
        let pk_bytes = pubkey_bytes_of_secret(secret.as_slice());
        let public_key = PublicKey::from_bytes(pk_bytes);
        KeyPair { secret_key: SecretKey { bytes: secret }, public_key }
    }

    /// The public half of the pair.
    pub fn public_key(&self) -> (r: &PublicKey)
        ensures
            r@ == self@,
    {
        &self.public_key
    }

    /// Signs a message; signing succeeds exactly on the deterministic
    /// domain of the underlying scheme, and the result verifies under the
    /// pair's public key.
    pub fn sign(&self, message: &[u8]) -> (r: Result<Vec<u8>, String>)
        ensures
            r is Ok <==> ecdsa_sign_some(self@, message@),
            r matches Ok(sig) ==> {
                &&& sig@.len() == 64
                &&& ecdsa_sig_ok(sig@)
                &&& ecdsa_verifies(self@, message@, sig@)
                &&& sig@ == ecdsa_sign_of(self@, message@)
            },
    {
        proof {
            use_type_invariant(self);
            use_type_invariant(&self.secret_key);
        }
        match ecdsa_sign(self.secret_key.bytes.as_slice(), message) {
            Some(sig) => Ok(sig),
            None => Err("Signing failed".to_string()),
        }
    }

    /// Checks a signature over a message under this pair's public key.
    pub fn verify(&self, message: &[u8], signature: &[u8]) -> (r: bool)
        ensures
            r == (ecdsa_sig_ok(signature@) && ecdsa_verifies(self@, message@, signature@)),
    {
        proof {
            use_type_invariant(&self.public_key);
        }
        if !ecdsa_sig_valid(signature) {
            return false;
        }
        ecdsa_verify(self.public_key.bytes.as_slice(), message, signature)
    }
}

} // verus!
