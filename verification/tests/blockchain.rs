use learnnet::blockchain::Blockchain;
use learnnet::transaction::Transaction;

#[test]
fn blockchain_new_transaction() {
    let mut blockchain = Blockchain::new();
    let txn = Transaction::new(String::from("a"), String::from("b"), 100);
    let _idx = blockchain.new_transaction(txn);
    let current = blockchain.current_transactions();
    assert!(current.len() > 0, "expected a txn");
    let last_txn = current.get(current.len() - 1);
    assert_eq!(last_txn.sender, String::from("a"));
    assert_eq!(last_txn.recipient, String::from("b"));
    assert_eq!(last_txn.amount, 100);
}

#[test]
fn blockchain_new_block() {
    let mut blockchain = Blockchain::new();
    let txn = Transaction::new(String::from("a"), String::from("b"), 100);
    blockchain.new_transaction(txn);

    let a = blockchain.current_transactions().len();
    assert_eq!(1, a, "1 transaction");

    blockchain.new_block(2, String::from("abc"));

    let b = blockchain.current_transactions().len();
    assert_eq!(0, b, "New block should clear transactions (which were on the previous block");
}

#[test]
fn blockchain_hash() {
    let mut blockchain = Blockchain::new();
    blockchain.new_block(2, String::from("abc"));
    let block = blockchain.last_block();
    let hash = Blockchain::hash(block);
    let hash2 = Blockchain::hash(block);
    println!("{:?}", hash);
    assert!(hash.is_ok());
    assert_eq!(hash.unwrap(), hash2.unwrap(), "Expected same block to hash to the same value");
}

#[test]
fn valid_proof_false() {
    assert_eq!(Blockchain::valid_proof(100, 1, 3, &String::from("some hash")), false);
}

#[test]
fn proof_of_work() {
    let difficulty = 2;
    let blockchain = Blockchain::new_with(difficulty);
    println!("Starting proof of work... (long running)");
    let proof = blockchain.proof_of_work().unwrap();
    println!("Finished proof of work: {}", proof);
    assert!(proof > 1, "expected a higher proof");
    let previous_hash = blockchain.hash_last_block().unwrap();
    assert!(Blockchain::valid_proof(100, proof, difficulty, &previous_hash));
    assert!(!Blockchain::valid_proof(100, proof, difficulty, &String::from("invalid hash")));
}

#[test]
fn chain() {
    let mut blockchain = Blockchain::new();

    assert_eq!(blockchain.chain().len(), 1, "Expected 1 block (genesis)");
    blockchain.new_block(100, "abc".into());
    assert_eq!(blockchain.chain().len(), 2, "Expected 2 blocks");
}

#[test]
fn register_node() {
    let mut blockchain = Blockchain::new();
    let test_local_url = String::from("http://localhost:9000/");
    blockchain.register_node(test_local_url.clone());
    assert_eq!(blockchain.nodes().len(), 1, "Expected 1 node");
    blockchain.register_node(test_local_url);
    assert_eq!(blockchain.nodes().len(), 1, "Expected 1 node after dupe add (idempotent)");
}

#[test]
fn valid_chain_invalid_hash() {
    let mut blockchain = Blockchain::new();
    let txn = Transaction::new(String::from("a"), String::from("b"), 100);
    blockchain.new_transaction(txn);
    //invalid hash
    blockchain.new_block(2, String::from("abc"));
    assert!(!blockchain.valid_chain(blockchain.chain()), "blockchain not valid (hash mismatch)");
}

#[test]
fn valid_chain_invalid_proof() {
    let mut blockchain = Blockchain::new();
    let txn = Transaction::new(String::from("a"), String::from("b"), 100);
    blockchain.new_transaction(txn);
    //valid hash, invalid proof
    let hash = blockchain.hash_last_block().unwrap();
    blockchain.new_block(2, hash);

    assert!(!blockchain.valid_chain(blockchain.chain()), "blockchain not valid (proof mismatch)");
}

#[test]
fn valid_chain_ok() {
    let mut blockchain = Blockchain::new();
    let txn = Transaction::new(String::from("a"), String::from("b"), 100);
    blockchain.new_transaction(txn);
    //valid hash, invalid proof
    assert!(blockchain.mine().is_ok());
    assert!(blockchain.valid_chain(blockchain.chain()), "blockchain should be valid with a mined block");
}
