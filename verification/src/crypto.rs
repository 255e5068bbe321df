//! Cryptographic primitives: double-SHA-256 hashing, P2PKH address
//! derivation, script-sig parsing, and ECDSA over secp256k1.

use vstd::prelude::*;

use crate::keys::PublicKeyHash;
use sha2::Digest;
use k256::ecdsa::signature::Verifier;

verus! {

/// The SHA-256 digest of a byte sequence. The digest is a pure function of
/// the input alone; its value is not modeled here.
pub uninterp spec fn sha256_of(data: Seq<u8>) -> Seq<u8>;

/// The RIPEMD-160 digest of a byte sequence, a pure function of the input.
pub uninterp spec fn ripemd160_of(data: Seq<u8>) -> Seq<u8>;

/// Whether a byte sequence is a valid SEC1 encoding of a secp256k1 public
/// key, as decided by `k256::ecdsa::VerifyingKey::from_sec1_bytes`.
pub uninterp spec fn sec1_pubkey_ok(pubkey: Seq<u8>) -> bool;

/// Whether a byte sequence is a well-formed 64-byte ECDSA signature over
/// secp256k1, as decided by `k256::ecdsa::Signature::from_slice`.
pub uninterp spec fn ecdsa_sig_ok(sig: Seq<u8>) -> bool;

/// Whether `sig` is a valid ECDSA signature of `msg` under `pubkey` (all in
/// byte form), as decided by `k256::ecdsa::VerifyingKey::verify`.
pub uninterp spec fn ecdsa_verifies(pubkey: Seq<u8>, msg: Seq<u8>, sig: Seq<u8>) -> bool;

/// SHA-256 applied twice: the chain's hash for transaction ids and block
/// header hashes.
pub open spec fn spec_double_sha256(data: Seq<u8>) -> Seq<u8> {
    sha256_of(sha256_of(data))
}

/// The P2PKH address of a public key: RIPEMD-160 of its SHA-256 digest.
pub open spec fn spec_p2pkh_hash(pubkey: Seq<u8>) -> Seq<u8> {
    ripemd160_of(sha256_of(pubkey))
}

/// Relies on `sha2::Sha256::digest`: a 32-byte digest that depends on the
/// input bytes alone.
#[verifier::external_body]
pub(crate) fn sha256(data: &[u8]) -> (r: Vec<u8>)
    ensures
        r@ == sha256_of(data@),
        r@.len() == 32,
{
    sha2::Sha256::digest(data).to_vec()
}

/// Relies on `ripemd::Ripemd160::digest`: a 20-byte digest that depends on
/// the input bytes alone.
#[verifier::external_body]
pub(crate) fn ripemd160(data: &[u8]) -> (r: Vec<u8>)
    ensures
        r@ == ripemd160_of(data@),
        r@.len() == 20,
{
    ripemd::Ripemd160::digest(data).to_vec()
}

/// Relies on `k256::ecdsa::VerifyingKey::from_sec1_bytes`: whether the bytes
/// encode a secp256k1 public key is a pure function of the bytes.
#[verifier::external_body]
pub(crate) fn sec1_pubkey_valid(pubkey: &[u8]) -> (r: bool)
    ensures
        r == sec1_pubkey_ok(pubkey@),
{
    k256::ecdsa::VerifyingKey::from_sec1_bytes(pubkey).is_ok()
}

/// Relies on `k256::ecdsa::Signature::from_slice`: whether the bytes form a
/// well-formed signature is a pure function of the bytes.
#[verifier::external_body]
pub(crate) fn ecdsa_sig_valid(sig: &[u8]) -> (r: bool)
    ensures
        r == ecdsa_sig_ok(sig@),
{
    k256::ecdsa::Signature::from_slice(sig).is_ok()
}

/// Relies on `k256::ecdsa::VerifyingKey::verify`: acceptance of a signature
/// is a pure function of public key, message and signature bytes. The
/// `requires` keeps out bytes the two parsers reject, so the unwraps below
/// cannot fire.
#[verifier::external_body]
pub(crate) fn ecdsa_verify(pubkey: &[u8], msg: &[u8], sig: &[u8]) -> (r: bool)
    requires
        sec1_pubkey_ok(pubkey@),
        ecdsa_sig_ok(sig@),
    ensures
        r == ecdsa_verifies(pubkey@, msg@, sig@),
{
    let vk = k256::ecdsa::VerifyingKey::from_sec1_bytes(pubkey).unwrap();
    let s = k256::ecdsa::Signature::from_slice(sig).unwrap();
    vk.verify(msg, &s).is_ok()
}

/// SHA-256(SHA-256(data)), the hash under which chain data is identified.
pub fn double_sha256(data: &[u8]) -> (r: Vec<u8>)
    ensures
        r@ == spec_double_sha256(data@),
        r@.len() == 32,
{
    let first = sha256(data);
    sha256(first.as_slice())
}

/// Calculates the Bitcoin-style P2PKH hash (RIPEMD160(SHA256(PublicKey))).
/// Takes the raw public key bytes (33 bytes for a compressed key).
pub fn calculate_p2pkh_hash(public_key_bytes: &[u8]) -> (r: PublicKeyHash)
    ensures
        r@ == spec_p2pkh_hash(public_key_bytes@),
{
    let sha = sha256(public_key_bytes);
    let rip = ripemd160(sha.as_slice());
    PublicKeyHash::new(rip)
}

/// Parses a P2PKH script-sig: the final 33 bytes are the compressed public
/// key, everything before them is the signature.
pub fn parse_p2pkh_script_sig_k256(script_sig_bytes: &[u8]) -> (r: Result<
    (Vec<u8>, Vec<u8>),
    String,
>)
    ensures
        r is Ok <==> script_sig_bytes@.len() >= 33,
        r matches Ok(p) ==> {
            &&& p.0@ == script_sig_bytes@.take(script_sig_bytes@.len() - 33)
            &&& p.1@ == script_sig_bytes@.skip(script_sig_bytes@.len() - 33)
        },
{
    let n = script_sig_bytes.len();
    if n < 33 {
        return Err("ScriptSig too short for P2PKH (k256)".to_string());
    }
    let signature = vstd::slice::slice_to_vec(
        vstd::slice::slice_subrange(script_sig_bytes, 0, n - 33),
    );
    let public_key = vstd::slice::slice_to_vec(
        vstd::slice::slice_subrange(script_sig_bytes, n - 33, n),
    );
    assert(signature@ =~= script_sig_bytes@.take(script_sig_bytes@.len() - 33));
    assert(public_key@ =~= script_sig_bytes@.skip(script_sig_bytes@.len() - 33));
    Ok((signature, public_key))
}

} // verus!
