//! Locking scripts. Only pay-to-public-key-hash exists today; the tagged
//! form lets new variants arrive without changing callers.

use vstd::prelude::*;

use crate::keys::PublicKeyHash;

verus! {

/// The view of a script: the same tags over plain byte sequences.
#[verifier::ext_equal]
pub ghost enum ScriptV {
    PayToPublicKeyHash { pub_key_hash: Seq<u8> },
}

/// A locking script placed on a transaction output.
#[derive(Debug)]
pub enum Script {
    PayToPublicKeyHash { pub_key_hash: PublicKeyHash },
}

impl View for Script {
    type V = ScriptV;

    open spec fn view(&self) -> ScriptV {
        match self {
            Script::PayToPublicKeyHash { pub_key_hash } => ScriptV::PayToPublicKeyHash {
                pub_key_hash: pub_key_hash@,
            },
        }
    }
}

impl Clone for Script {
    fn clone(&self) -> (r: Self)
        ensures
            r@ == self@,
    {
        match self {
            Script::PayToPublicKeyHash { pub_key_hash } => Script::PayToPublicKeyHash {
                pub_key_hash: pub_key_hash.clone(),
            },
        }
    }
}

} // verus!
