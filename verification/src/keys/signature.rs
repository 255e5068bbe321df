//! Script signatures: the byte string `[signature || compressed pubkey]`
//! attached to a transaction input, and its parsed, checkable form.

use vstd::prelude::*;

use crate::crypto::{
    calculate_p2pkh_hash, ecdsa_sig_ok, ecdsa_sig_valid, ecdsa_verifies, ecdsa_verify,
    parse_p2pkh_script_sig_k256, sec1_pubkey_ok, sec1_pubkey_valid, spec_p2pkh_hash,
};
use crate::keys::keypair::PublicKey;
use crate::keys::PublicKeyHash;

verus! {

/// Why a script signature was rejected.
#[derive(Debug)]
pub enum SignatureError {
    ScriptSigParseError(String),
    InvalidSignatureFormat(String),
    InvalidPublicKeyFormat(String),
    InvalidScript(String),
}

/// A script-sig as stored in a transaction input. For P2PKH spends it holds
/// a 64-byte ECDSA signature followed by a 33-byte compressed public key;
/// a coinbase input holds arbitrary bytes. Its view is the byte sequence.
#[derive(Debug)]
pub struct Signature {
    bytes: Vec<u8>,
}

impl View for Signature {
    type V = Seq<u8>;

    closed spec fn view(&self) -> Seq<u8> {
        self.bytes@
    }
}

impl DeepView for Signature {
    type V = Seq<u8>;

    open spec fn deep_view(&self) -> Seq<u8> {
        self.view()
    }
}

impl Clone for Signature {
    fn clone(&self) -> (r: Self)
        ensures
            r@ == self@,
    {
        let bytes = self.bytes.clone();
        assert(bytes@ =~= self.bytes@);
        Signature { bytes }
    }
}

impl PartialEq for Signature {
    fn eq(&self, other: &Self) -> (r: bool) {
        let r = self.bytes == other.bytes;
        proof {
            if self.bytes@ =~= other.bytes@ {
            }
        }
        r
    }
}

impl vstd::std_specs::cmp::PartialEqSpecImpl for Signature {
    open spec fn obeys_eq_spec() -> bool {
        true
    }

    open spec fn eq_spec(&self, other: &Self) -> bool {
        self@ == other@
    }
}

impl Eq for Signature {

}

/// The portion of a script-sig that holds the ECDSA signature: everything
/// before the trailing 33 pubkey bytes.
pub open spec fn spec_sig_part(script_sig: Seq<u8>) -> Seq<u8> {
    script_sig.take(script_sig.len() - 33)
}

/// The trailing 33 bytes of a script-sig: the compressed public key.
pub open spec fn spec_pubkey_part(script_sig: Seq<u8>) -> Seq<u8> {
    script_sig.skip(script_sig.len() - 33)
}

/// Whether a script-sig parses into a well-formed signature and public key.
pub open spec fn spec_script_sig_ok(script_sig: Seq<u8>) -> bool {
    &&& script_sig.len() >= 33
    &&& sec1_pubkey_ok(spec_pubkey_part(script_sig))
    &&& ecdsa_sig_ok(spec_sig_part(script_sig))
}

impl Signature {
    /// Builds a script-sig from raw signature bytes and a public key:
    /// `[signature || compressed pubkey]`.
    pub fn build(signature: Vec<u8>, public_key: &PublicKey) -> (r: Self)
        ensures
            r@ == signature@ + public_key@,
    {
        let mut bytes = signature;
        let mut pk = public_key.to_bytes();
        bytes.append(&mut pk);
        Signature { bytes }
    }

    pub fn from_bytes(bytes: &[u8]) -> (r: Self)
        ensures
            r@ == bytes@,
    {
        Signature { bytes: vstd::slice::slice_to_vec(bytes) }
    }

    /// The raw script-sig bytes.
    pub fn to_vec(&self) -> (r: Vec<u8>)
        ensures
            r@ == self@,
    {
        let bytes = self.bytes.clone();
        assert(bytes@ =~= self.bytes@);
        bytes
    }

    /// Splits the script-sig and checks both halves, yielding a verifier
    /// that carries the derived P2PKH address.
    pub fn get_verifier(&self) -> (r: Result<PublicKeyWithSignature, SignatureError>)
        ensures
            r is Ok <==> spec_script_sig_ok(self@),
            r matches Ok(v) ==> {
                &&& v@.pub_key_hash == spec_p2pkh_hash(spec_pubkey_part(self@))
                &&& v@.public_key == spec_pubkey_part(self@)
                &&& v@.signature == spec_sig_part(self@)
            },
            r matches Err(e) ==> {
                &&& e is ScriptSigParseError <==> self@.len() < 33
                &&& e is InvalidPublicKeyFormat <==> (self@.len() >= 33 && !sec1_pubkey_ok(
                    spec_pubkey_part(self@),
                ))
                &&& e is InvalidSignatureFormat <==> (self@.len() >= 33 && sec1_pubkey_ok(
                    spec_pubkey_part(self@),
                ) && !ecdsa_sig_ok(spec_sig_part(self@)))
            },
    {
        let parsed = match parse_p2pkh_script_sig_k256(self.bytes.as_slice()) {
            Ok(p) => p,
            Err(e) => {
                return Err(SignatureError::ScriptSigParseError(e));
            },
        };
        let (signature_bytes, public_key_bytes) = parsed;
        let derived_pub_key_hash = calculate_p2pkh_hash(public_key_bytes.as_slice());
        if !sec1_pubkey_valid(public_key_bytes.as_slice()) {
            return Err(
                SignatureError::InvalidPublicKeyFormat("Invalid public key format".to_string()),
            );
        }
        if !ecdsa_sig_valid(signature_bytes.as_slice()) {
            return Err(
                SignatureError::InvalidSignatureFormat("Invalid signature format".to_string()),
            );
        }
        Ok(
            PublicKeyWithSignature {
                pub_key_hash: derived_pub_key_hash,
                public_key: public_key_bytes,
                signature: signature_bytes,
            },
        )
    }
}

/// The view of a parsed script-sig: address, public key and signature, all
/// as byte sequences.
pub ghost struct PublicKeyWithSignatureV {
    pub pub_key_hash: Seq<u8>,
    pub public_key: Seq<u8>,
    pub signature: Seq<u8>,
}

/// A parsed script-sig: the P2PKH address derived from the public key, the
/// key itself, and the signature, ready for verification.
pub struct PublicKeyWithSignature {
    pub pub_key_hash: PublicKeyHash,
    public_key: Vec<u8>,
    signature: Vec<u8>,
}

impl View for PublicKeyWithSignature {
    type V = PublicKeyWithSignatureV;

    closed spec fn view(&self) -> PublicKeyWithSignatureV {
        PublicKeyWithSignatureV {
            pub_key_hash: self.pub_key_hash@,
            public_key: self.public_key@,
            signature: self.signature@,
        }
    }
}

impl PublicKeyWithSignature {
    /// Both halves parsed successfully when this value was built.
    #[verifier::type_invariant]
    pub open spec fn wf(self) -> bool {
        sec1_pubkey_ok(self@.public_key) && ecdsa_sig_ok(self@.signature)
    }

    /// The P2PKH address derived from the carried public key.
    pub fn pub_key_hash(&self) -> (r: &PublicKeyHash)
        ensures
            r@ == self@.pub_key_hash,
    {
        &self.pub_key_hash
    }

    /// Checks the carried signature against a message.
    pub fn verify(&self, msg: &[u8]) -> (r: Result<(), SignatureError>)
        ensures
            r is Ok <==> ecdsa_verifies(self@.public_key, msg@, self@.signature),
            r matches Err(e) ==> e is InvalidScript,
    {
        proof {
            use_type_invariant(self);
        }
        if ecdsa_verify(self.public_key.as_slice(), msg, self.signature.as_slice()) {
            Ok(())
        } else {
            Err(
                SignatureError::InvalidScript(
                    "Invalid signature for transaction input".to_string(),
                ),
            )
        }
    }
}

} // verus!
