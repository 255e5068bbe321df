//! Plain request bodies of the node's HTTP API. The embedding carries
//! copies with its serialization derives and converts at the boundary.

use vstd::prelude::*;

verus! {

/// A transfer as submitted over the wire.
pub struct NewTransaction {
    pub sender: String,
    pub recipient: String,
    pub amount: u64,
    pub timestamp: u128,
    pub signature: Option<Vec<u8>>,
}

} // verus!
