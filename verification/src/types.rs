//! The requests and responses of the node's web API, as plain values.
use crate::blockchain::Chain;
use crate::sorted_set::SortedSet;
use crate::transaction::Transaction;
use vstd::prelude::*;

verus! {

/// The nodes to register: URLs as text.
pub struct NodeList {
    pub nodes: Vec<String>,
}

/// The answer to mining: the forged block's parts.
pub struct MineResult {
    pub message: String,
    pub index: usize,
    pub transactions: SortedSet<Transaction>,
    pub proof: u64,
    pub previous_hash: String,
}

/// The whole chain and its length.
pub struct ChainResult<'a> {
    pub chain: &'a Chain,
    pub length: usize,
}

/// The answer to registering nodes: how many are known now.
pub struct RegisterNodeResponse {
    pub message: String,
    pub total_nodes: usize,
}

/// The answer to consensus: the chain, under `new_chain` when it was
/// replaced and under `chain` when it was kept.
pub struct ConsensusReponse<'a> {
    pub message: String,
    pub chain: Option<&'a Chain>,
    pub new_chain: Option<&'a Chain>,
}

} // verus!
