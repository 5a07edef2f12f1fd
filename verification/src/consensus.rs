//! Consensus: a node takes the longest valid chain among its neighbours'
//! when it is longer than its own.
use crate::block::BlockView;
use crate::blockchain::{Blockchain, Chain, is_valid_chain};
use vstd::prelude::*;

verus! {

/// Resolves conflicts between a node's chain and its neighbours' chains.
pub struct Consensus;

/// A neighbour chain can replace ours: it is longer and valid at our
/// difficulty.
pub open spec fn can_replace(chain: Seq<BlockView>, own_len: nat, difficulty: u64) -> bool {
    chain.len() > own_len && is_valid_chain(chain, difficulty)
}

/// `chains[k]` is the one taken: it can replace ours, no chain that can is
/// longer, and every one before it that can is shorter.
pub open spec fn is_authoritative(
    chains: Seq<Seq<BlockView>>,
    k: int,
    own_len: nat,
    difficulty: u64,
) -> bool {
    &&& 0 <= k < chains.len()
    &&& can_replace(chains[k], own_len, difficulty)
    &&& forall|j: int|
        0 <= j < chains.len() && can_replace(#[trigger] chains[j], own_len, difficulty)
            ==> chains[j].len() <= chains[k].len()
    &&& forall|j: int|
        0 <= j < k && can_replace(#[trigger] chains[j], own_len, difficulty) ==> chains[j].len()
            < chains[k].len()
}

/// The views of some chains.
pub open spec fn chain_views(chains: Seq<Chain>) -> Seq<Seq<BlockView>> {
    chains.map_values(|c: Chain| c@)
}

impl Consensus {
    /// Replaces the blockchain's chain with the longest valid neighbour chain
    /// that is longer than it (the first such, on a tie); returns whether it
    /// did.
    pub fn take_authoritive(blockchain: &mut Blockchain, chains: Vec<Chain>) -> (is_replaced: bool)
        ensures
            is_replaced == exists|j: int|
                0 <= j < chains@.len() && can_replace(
                    #[trigger] chain_views(chains@)[j],
                    old(blockchain)@.chain.len(),
                    old(blockchain)@.difficulty,
                ),
            !is_replaced ==> final(blockchain)@ == old(blockchain)@,
            is_replaced ==> exists|k: int|
                is_authoritative(
                    chain_views(chains@),
                    k,
                    old(blockchain)@.chain.len(),
                    old(blockchain)@.difficulty,
                ) && final(blockchain)@.chain == #[trigger] chain_views(chains@)[k],
            final(blockchain)@.chain.len() >= old(blockchain)@.chain.len(),
            is_replaced ==> final(blockchain)@.chain.len() > old(blockchain)@.chain.len()
                && is_valid_chain(final(blockchain)@.chain, final(blockchain)@.difficulty),
            final(blockchain)@.current_transactions == old(blockchain)@.current_transactions,
            final(blockchain)@.nodes == old(blockchain)@.nodes,
            final(blockchain)@.difficulty == old(blockchain)@.difficulty,
    {
        let ghost cs = chain_views(chains@);
        let ghost own = blockchain@.chain.len();
        let ghost d = blockchain@.difficulty;
        let mut chains = chains;
        let mut new_chain: Option<usize> = None;
        let mut max_length = blockchain.len();
        let n = chains.len();
        let mut i: usize = 0;
        while i < n
            invariant
                n == chains@.len(),
                cs == chain_views(chains@),
                own == blockchain@.chain.len(),
                d == blockchain@.difficulty,
                i <= n,
                own <= max_length,
                new_chain is None ==> max_length == own,
                new_chain is None ==> forall|j: int|
                    0 <= j < i ==> !can_replace(#[trigger] cs[j], own, d),
                new_chain matches Some(k) ==> k < i && can_replace(cs[k as int], own, d)
                    && max_length == cs[k as int].len(),
                new_chain matches Some(k) ==> forall|j: int|
                    0 <= j < i && can_replace(#[trigger] cs[j], own, d) ==> cs[j].len()
                        <= cs[k as int].len(),
                new_chain matches Some(k) ==> forall|j: int|
                    0 <= j < k && can_replace(#[trigger] cs[j], own, d) ==> cs[j].len()
                        < cs[k as int].len(),
            decreases n - i,
        {
            let chain = &chains[i];
            assert(chain@ == cs[i as int]);
            if chain.len() > max_length && blockchain.valid_chain(chain) {
                max_length = chain.len();
                new_chain = Some(i);
            }
            i = i + 1;
        }
        match new_chain {
            Some(k) => {
                let longest_chain = chains.remove(k);
                assert(longest_chain@ == cs[k as int]);
                blockchain.replace(longest_chain);
                assert(is_authoritative(cs, k as int, own, d));
                true
            },
            None => false,
        }
    }
}

} // verus!
