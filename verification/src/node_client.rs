//! A handle to a remote node's HTTP API. The network calls themselves
//! live with the embedding; the library holds the handle's state.

use vstd::prelude::*;

verus! {

/// Where a node listens, and a counter for request ids.
pub struct NodeClient {
    pub base_url: String,
    pub next_request_id: u64,
}

impl NodeClient {
    pub fn new(base_url: &str) -> (r: Self)
        ensures
            r.base_url@ == base_url@,
            r.next_request_id == 1,
    {
        NodeClient { base_url: base_url.to_string(), next_request_id: 1 }
    }
}

} // verus!
