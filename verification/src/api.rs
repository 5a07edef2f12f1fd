//! What the node's web API does with a blockchain: mine, take a
//! transaction, show the chain, register nodes, and reach consensus. The
//! answers are plain values; serving them is left to the caller.
use crate::blockchain::{Blockchain, Chain, mined_from, mining_fails, no_proof_message};
use crate::consensus::{Consensus, can_replace, chain_views, is_authoritative};
use crate::sorted_set::{Ordered, insert_all, sorted_insert};
use crate::text::{concat, decimal_text, push_decimal_text};
use crate::transaction::Transaction;
use crate::types::{ChainResult, ConsensusReponse, MineResult, NodeList, RegisterNodeResponse};
use vstd::prelude::*;

verus! {

/// How Rust's `Debug` writes a string: quoted, with escapes.
pub uninterp spec fn debug_text(s: Seq<char>) -> Seq<char>;

/// Trusted: `format!("{:?}", s)` writes `s` with `str`'s `Debug`; the result
/// depends on `s` alone.
#[verifier::external_body]
fn debug_string(s: &str) -> (r: String)
    ensures
        r@ == debug_text(s@),
{
    format!("{:?}", s)
}

/// The serialization of the URL that `url::Url::parse` reads from some text,
/// or `None` when the text is not a URL.
pub uninterp spec fn url_parse(input: Seq<char>) -> Option<Seq<char>>;

/// Trusted: `url::Url::parse`, and on success the URL's serialization
/// (`String::from(url)`); the result depends on the input alone.
#[verifier::external_body]
fn parse_url(input: &str) -> (r: Option<String>)
    ensures
        r is Some == url_parse(input@) is Some,
        r matches Some(u) ==> u@ == url_parse(input@)->0,
{
    match url::Url::parse(input) {
        Ok(url) => Some(String::from(url)),
        Err(_) => None,
    }
}

/// Every node text parses as a URL.
pub open spec fn all_parse(nodes: Seq<String>) -> bool {
    forall|i: int| 0 <= i < nodes.len() ==> (#[trigger] url_parse(nodes[i]@)) is Some
}

/// The URL serializations of the node texts.
pub open spec fn parsed_urls(nodes: Seq<String>) -> Seq<Seq<char>> {
    nodes.map_values(|n: String| url_parse(n@)->0)
}

/// Mines a block and describes it.
pub fn mine(b: &mut Blockchain) -> (r: Result<MineResult, String>)
    requires
        old(b)@.chain.len() > 0,
        old(b)@.chain.len() < usize::MAX,
        old(b)@.chain.last().index < usize::MAX,
    ensures
        r is Err <==> mining_fails(old(b)@),
        r matches Err(e) ==> e@ == "Failed to mind block. "@ + debug_text(no_proof_message()),
        r is Err ==> final(b)@ == old(b)@,
        r is Ok ==> mined_from(old(b)@, final(b)@),
        r matches Ok(m) ==> {
            &&& final(b)@.chain.len() > 0
            &&& m.message@ == "New Block Forged"@
            &&& m.index == final(b)@.chain.last().index
            &&& m.transactions@ == final(b)@.chain.last().transactions
            &&& m.proof == final(b)@.chain.last().proof
            &&& m.previous_hash@ == final(b)@.chain.last().previous_hash
        },
{
    match b.mine() {
        Ok(mined_block) => Ok(
            MineResult {
                message: "New Block Forged".to_owned(),
                index: mined_block.index,
                transactions: mined_block.transactions.duplicate(),
                proof: mined_block.proof,
                previous_hash: mined_block.previous_hash.clone(),
            },
        ),
        Err(e) => Err(concat("Failed to mind block. ", debug_string(e.as_str()).as_str())),
    }
}

/// Adds a transaction, to go into the next block; says which block.
pub fn new_transaction(transaction: &Transaction, b: &mut Blockchain) -> (r: String)
    requires
        old(b)@.chain.len() > 0,
        old(b)@.chain.last().index < usize::MAX,
    ensures
        final(b)@.current_transactions == sorted_insert(
            old(b)@.current_transactions,
            transaction@,
            Transaction::order(),
        ),
        final(b)@.chain == old(b)@.chain,
        final(b)@.nodes == old(b)@.nodes,
        final(b)@.difficulty == old(b)@.difficulty,
        r@ == "Transaction added at block "@ + decimal_text(
            (old(b)@.chain.last().index + 1) as nat,
        ),
{
    let index = b.new_transaction(transaction.duplicate());
    let mut message = "Transaction added at block ".to_owned();
    push_decimal_text(&mut message, index as u64);
    message
}

/// The whole chain (not the waiting transactions) and its length.
pub fn chain(b: &Blockchain) -> (r: ChainResult)
    ensures
        r.chain@ == b@.chain,
        r.length == b@.chain.len(),
{
    let chain = b.chain();
    ChainResult { chain: chain, length: chain.len() }
}

/// Registers nodes, all or none: every text must parse as a URL, and then
/// each URL is added. Says how many nodes are known.
pub fn register_node(node_list: &NodeList, b: &mut Blockchain) -> (r: Result<
    RegisterNodeResponse,
    String,
>)
    ensures
        r is Ok <==> all_parse(node_list.nodes@),
        r matches Err(e) ==> e@ == "Failed to parse at least one node. All nodes must be valid"@,
        r is Err ==> final(b)@ == old(b)@,
        r is Ok ==> final(b)@.nodes == insert_all(
            old(b)@.nodes,
            parsed_urls(node_list.nodes@),
            String::order(),
        ),
        r is Ok ==> final(b)@.chain == old(b)@.chain,
        r is Ok ==> final(b)@.current_transactions == old(b)@.current_transactions,
        r is Ok ==> final(b)@.difficulty == old(b)@.difficulty,
        r matches Ok(resp) ==> resp.message@ == "New nodes have been added"@ && resp.total_nodes
            == final(b)@.nodes.len(),
{
    let nodes = &node_list.nodes;
    let n = nodes.len();
    let mut node_urls: Vec<String> = Vec::new();
    let mut i: usize = 0;
    while i < n
        invariant
            nodes@ == node_list.nodes@,
            n == nodes@.len(),
            i <= n,
            node_urls@.len() == i,
            forall|k: int| 0 <= k < i ==> (#[trigger] url_parse(nodes@[k]@)) is Some,
            forall|k: int| 0 <= k < i ==> #[trigger] node_urls@[k]@ == url_parse(nodes@[k]@)->0,
        decreases n - i,
    {
        match parse_url(nodes[i].as_str()) {
            Some(url) => {
                node_urls.push(url);
            },
            None => {
                assert(!all_parse(nodes@)) by {
                    assert(url_parse(nodes@[i as int]@) is None);
                }
                return Err(
                    "Failed to parse at least one node. All nodes must be valid".to_owned(),
                );
            },
        }
        i = i + 1;
    }
    let ghost urls = parsed_urls(nodes@);
    let ghost start = b@.nodes;
    let mut node_urls = node_urls;
    proof {
        assert(node_urls@.map_values(|u: String| u@) =~= urls);
        assert(urls.skip(0) =~= urls);
    }
    while node_urls.len() > 0
        invariant
            urls.len() == n,
            node_urls@.len() <= n,
            node_urls@.map_values(|u: String| u@) =~= urls.skip(n - node_urls@.len()),
            insert_all(start, urls, String::order()) == insert_all(
                b@.nodes,
                node_urls@.map_values(|u: String| u@),
                String::order(),
            ),
            b@.chain == old(b)@.chain,
            b@.current_transactions == old(b)@.current_transactions,
            b@.difficulty == old(b)@.difficulty,
        decreases node_urls@.len(),
    {
        let ghost before = node_urls@.map_values(|u: String| u@);
        let node_url = node_urls.remove(0);
        proof {
            assert(before[0] == node_url@);
            assert(node_urls@.map_values(|u: String| u@) =~= before.drop_first());
        }
        b.register_node(node_url);
    }
    proof {
        assert(node_urls@.map_values(|u: String| u@) =~= Seq::<Seq<char>>::empty());
    }
    Ok(
        RegisterNodeResponse {
            message: "New nodes have been added".to_owned(),
            total_nodes: b.nodes().len(),
        },
    )
}

/// Takes the longest valid neighbour chain that is longer than ours, and
/// answers with the chain kept or taken.
pub fn consensus<'a>(b: &'a mut Blockchain, chains: Vec<Chain>) -> (r: ConsensusReponse<'a>)
    ensures
        ({
            let replaced = exists|j: int|
                0 <= j < chains@.len() && can_replace(
                    #[trigger] chain_views(chains@)[j],
                    old(b)@.chain.len(),
                    old(b)@.difficulty,
                );
            &&& !replaced ==> final(b)@ == old(b)@
            &&& replaced ==> exists|k: int|
                is_authoritative(
                    chain_views(chains@),
                    k,
                    old(b)@.chain.len(),
                    old(b)@.difficulty,
                ) && final(b)@.chain == #[trigger] chain_views(chains@)[k]
            &&& replaced ==> (r.message@ == "Our chain was replaced"@ && r.chain is None
                && (r.new_chain matches Some(c) && c@ == final(b)@.chain))
            &&& !replaced ==> (r.message@ == "Our chain is authoritative"@ && r.new_chain is None
                && (r.chain matches Some(c) && c@ == final(b)@.chain))
        }),
        final(b)@.current_transactions == old(b)@.current_transactions,
        final(b)@.nodes == old(b)@.nodes,
        final(b)@.difficulty == old(b)@.difficulty,
{
    let replaced = Consensus::take_authoritive(b, chains);
    if replaced {
        ConsensusReponse {
            message: "Our chain was replaced".to_owned(),
            chain: None,
            new_chain: Some(b.chain()),
        }
    } else {
        ConsensusReponse {
            message: "Our chain is authoritative".to_owned(),
            chain: Some(b.chain()),
            new_chain: None,
        }
    }
}

} // verus!
