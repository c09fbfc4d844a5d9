//! The host interface: chain data, oracle queries and contract sources.
use vstd::prelude::*;

verus! {

/// What the machine asks of its host. Native execution answers from a
/// node process; proof execution from merkle-proven data.
pub trait BlockUtilInterface {
    /// The source text of the contract stored at `location`.
    fn read_contract(&mut self, location: u64) -> Result<String, String>;

    /// The number of blocks in the chain.
    fn get_blockchain_len(&mut self) -> u64;

    /// That the host went from `self` to `after` by answering one oracle
    /// query of type `query_type` with body `body`. A host that gives no
    /// account of its queries promises nothing of it.
    open spec fn queried(&self, after: &Self, query_type: u64, body: Seq<u8>) -> bool {
        true
    }

    /// The host oracle's answer to a query, and whether it gave one.
    fn query_oracle(&mut self, query_type: u64, query_body: Vec<u8>) -> (r: (Vec<u8>, bool))
        ensures
            old(self).queried(final(self), query_type, query_body@),
    ;
}

} // verus!
