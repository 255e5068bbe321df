//! Core of a UTXO-model blockchain node: transaction and block validation,
//! a UTXO set with mempool reservations, and a persistent block store
//! abstraction, with the central invariants machine-checked.

pub mod api_types;
pub mod block;
pub mod blockchain;
pub mod clock;
pub mod codec;
pub mod crypto;
pub mod hex_str;
pub mod keys;
pub mod laws;
pub mod node_client;
pub mod scripts;
pub mod storage;
pub mod transaction;
pub mod transfer;
pub mod utxo_set;
pub mod wallet;
