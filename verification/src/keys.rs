//! Hashes, signatures and key material used throughout the chain.

pub mod blockchain_hash;
pub mod keypair;
pub mod public_key_hash;
pub mod signature;

pub use blockchain_hash::BlockchainHash;
pub use keypair::{KeyPair, PublicKey, SecretKey};
pub use public_key_hash::PublicKeyHash;
pub use signature::{PublicKeyWithSignature, Signature, SignatureError};
