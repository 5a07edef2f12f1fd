use learnnet::api;
use learnnet::blockchain::Blockchain;

#[test]
fn mine() {
    let mut blockchain = Blockchain::new_with(1);
    let result = api::mine(&mut blockchain);
    assert!(result.is_ok(), "Failed to mine");
    let result = result.unwrap();
    println!("mine response: {} {} {}", result.message, result.index, result.proof);
}

use learnnet::blockchain::Chain;
use learnnet::transaction::Transaction;
use learnnet::types::NodeList;

#[test]
fn new_transaction_names_the_next_block() {
    let mut blockchain = Blockchain::new_with(1);
    let txn = Transaction::new(String::from("a"), String::from("b"), 3);
    assert_eq!(api::new_transaction(&txn, &mut blockchain), "Transaction added at block 2");
    assert_eq!(blockchain.current_transactions().len(), 1);
}

#[test]
fn mine_describes_the_last_block() {
    let mut blockchain = Blockchain::new_with(1);
    let genesis_hash = blockchain.hash_last_block().unwrap();
    let result = api::mine(&mut blockchain).unwrap();
    assert_eq!(result.message, "New Block Forged");
    assert_eq!(result.index, 2);
    assert_eq!(result.previous_hash, genesis_hash);
    assert_eq!(result.transactions.len(), 1);
    assert_eq!(result.transactions.get(0).sender, "0");
    assert_eq!(result.transactions.get(0).recipient, "my node address");
    assert_eq!(result.transactions.get(0).amount, 1);
    let last = blockchain.last_block();
    assert_eq!(last.proof, result.proof);
}

#[test]
fn chain_reports_its_length() {
    let mut blockchain = Blockchain::new_with(1);
    blockchain.mine().unwrap();
    let result = api::chain(&blockchain);
    assert_eq!(result.length, 2);
    assert_eq!(result.chain.len(), 2);
}

#[test]
fn register_node_parses_every_url() {
    let mut blockchain = Blockchain::new_with(1);
    let list = NodeList {
        nodes: vec![String::from("http://localhost:9000"), String::from("http://example.com:5000/a")],
    };
    let response = api::register_node(&list, &mut blockchain).unwrap();
    assert_eq!(response.message, "New nodes have been added");
    assert_eq!(response.total_nodes, 2);
    let nodes = blockchain.nodes();
    assert_eq!(nodes.get(0), "http://example.com:5000/a");
    assert_eq!(nodes.get(1), "http://localhost:9000/");
    let again = api::register_node(&list, &mut blockchain).unwrap();
    assert_eq!(again.total_nodes, 2);
}

#[test]
fn register_node_is_all_or_nothing() {
    let mut blockchain = Blockchain::new_with(1);
    let list = NodeList {
        nodes: vec![String::from("http://localhost:9000"), String::from("not a url")],
    };
    let err = api::register_node(&list, &mut blockchain).err().unwrap();
    assert_eq!(err, "Failed to parse at least one node. All nodes must be valid");
    assert_eq!(blockchain.nodes().len(), 0);
}

#[test]
fn consensus_keeps_or_replaces() {
    let mut ours = Blockchain::new_with(1);
    let mut theirs = Blockchain::new_with(1);
    theirs.mine().unwrap();
    let kept = {
        let response = api::consensus(&mut ours, Vec::<Chain>::new());
        assert_eq!(response.message, "Our chain is authoritative");
        assert!(response.new_chain.is_none());
        response.chain.unwrap().len()
    };
    assert_eq!(kept, 1);
    let response = api::consensus(&mut ours, vec![theirs.into_chain()]);
    assert_eq!(response.message, "Our chain was replaced");
    assert!(response.chain.is_none());
    assert_eq!(response.new_chain.unwrap().len(), 2);
}
