//! A wallet: one key pair with address derivation and message signing.

use vstd::prelude::*;

use crate::crypto::{ecdsa_sig_ok, ecdsa_sig_valid, ecdsa_verifies, ecdsa_verify, spec_p2pkh_hash};
use crate::keys::keypair::{ecdsa_sign_of, ecdsa_sign_some};
use crate::keys::{BlockchainHash, KeyPair, PublicKeyHash};

verus! {

/// A key pair under a friendlier name. Its view is the compressed
/// encoding of its public key.
pub struct Wallet {
    keypair: KeyPair,
}

impl View for Wallet {
    type V = Seq<u8>;

    closed spec fn view(&self) -> Seq<u8> {
        self.keypair@
    }
}

impl Wallet {
    /// Draws a fresh key pair.
    pub fn new() -> (r: Self)
        ensures
            r@.len() == 33,
            crate::crypto::sec1_pubkey_ok(r@),
    {
        Wallet { keypair: KeyPair::generate() }
    }

    /// The compressed public key bytes.
    pub fn get_public_key_bytes(&self) -> (r: Vec<u8>)
        ensures
            r@ == self@,
    {
        self.keypair.public_key().to_bytes()
    }

    /// The wallet's P2PKH address.
    pub fn get_public_key_hash(&self) -> (r: PublicKeyHash)
        ensures
            r@ == spec_p2pkh_hash(self@),
    {
        self.keypair.public_key().to_address()
    }

    /// Signs a 32-byte digest.
    pub fn sign_message(&self, message_hash: &BlockchainHash) -> (r: Result<Vec<u8>, String>)
        ensures
            r is Ok <==> ecdsa_sign_some(self@, message_hash@),
            r matches Ok(sig) ==> {
                &&& ecdsa_sig_ok(sig@)
                &&& ecdsa_verifies(self@, message_hash@, sig@)
                &&& sig@ == ecdsa_sign_of(self@, message_hash@)
            },
    {
        self.keypair.sign(message_hash.as_ref())
    }

    /// Signs arbitrary message bytes.
    pub fn sign(&self, message: &[u8]) -> (r: Result<Vec<u8>, String>)
        ensures
            r is Ok <==> ecdsa_sign_some(self@, message@),
            r matches Ok(sig) ==> {
                &&& ecdsa_sig_ok(sig@)
                &&& ecdsa_verifies(self@, message@, sig@)
                &&& sig@ == ecdsa_sign_of(self@, message@)
            },
    {
        self.keypair.sign(message)
    }

    /// Checks a signature over a message under this wallet's key.
    pub fn verify(&self, message: &[u8], signature: &[u8]) -> (r: bool)
        ensures
            r == (ecdsa_sig_ok(signature@) && ecdsa_verifies(self@, message@, signature@)),
    {
        let key_public = self.keypair.public_key();
        proof {
            use_type_invariant(key_public);
        }
        if !ecdsa_sig_valid(signature) {
            return false;
        }
        let pk = key_public.to_bytes();
        ecdsa_verify(pk.as_slice(), message, signature)
    }
}

} // verus!
