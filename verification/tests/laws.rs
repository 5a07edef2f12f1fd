use learnnet::blockchain::Blockchain;
use learnnet::consensus::Consensus;
use learnnet::transaction::Transaction;

#[test]
fn genesis_block() {
    let blockchain = Blockchain::new_with(2);
    assert_eq!(blockchain.len(), 1);
    let genesis = blockchain.last_block();
    assert_eq!(genesis.index, 1);
    assert_eq!(genesis.proof, 100);
    assert_eq!(genesis.previous_hash, "Genesis block.");
    assert_eq!(genesis.transactions.len(), 0);
    assert_eq!(blockchain.current_transactions().len(), 0);
    assert_eq!(blockchain.nodes().len(), 0);
    assert!(blockchain.valid_chain(blockchain.chain()));
}

#[test]
fn mining_keeps_the_chain_valid() {
    let mut blockchain = Blockchain::new_with(1);
    for round in 0..3 {
        let previous_hash = blockchain.hash_last_block().unwrap();
        blockchain
            .new_transaction(Transaction::new(String::from("x"), String::from("y"), round));
        let block = blockchain.mine().unwrap();
        assert_eq!(block.previous_hash, previous_hash);
        assert_eq!(block.transactions.len(), 2);
        assert_eq!(blockchain.len(), round as usize + 2);
        assert_eq!(blockchain.last_block().index, round as usize + 2);
        assert!(blockchain.valid_chain(blockchain.chain()));
        assert_eq!(blockchain.current_transactions().len(), 0);
    }
}

#[test]
fn proof_of_work_finds_the_least_proof() {
    let blockchain = Blockchain::new_with(1);
    let proof = blockchain.proof_of_work().unwrap();
    let previous_hash = blockchain.hash_last_block().unwrap();
    let last_proof = blockchain.last_block().proof;
    assert!(Blockchain::valid_proof(last_proof, proof, 1, &previous_hash));
    for q in 0..proof {
        assert!(!Blockchain::valid_proof(last_proof, q, 1, &previous_hash));
    }
}

#[test]
fn difficulty_zero_accepts_any_proof() {
    assert!(Blockchain::valid_proof(1, 2, 0, &String::from("h")));
    assert!(!Blockchain::valid_proof(1, 2, 45, &String::from("h")));
}

#[test]
fn duplicate_transactions_are_kept_once() {
    let mut blockchain = Blockchain::new_with(1);
    let a = blockchain.new_transaction(Transaction::new(String::from("a"), String::from("b"), 1));
    let b = blockchain.new_transaction(Transaction::new(String::from("a"), String::from("b"), 1));
    assert_eq!(a, 2);
    assert_eq!(b, 2);
    assert_eq!(blockchain.current_transactions().len(), 1);
}

#[test]
fn consensus_takes_the_first_longest_valid_chain() {
    let mut ours = Blockchain::new_with(1);
    let mut two_a = Blockchain::new_with(1);
    two_a.mine().unwrap();
    two_a.mine().unwrap();
    let first_hash = two_a.hash_last_block().unwrap();
    let mut two_b = Blockchain::new_with(1);
    two_b.mine().unwrap();
    two_b.mine().unwrap();
    let mut one = Blockchain::new_with(1);
    one.mine().unwrap();
    let replaced = Consensus::take_authoritive(
        &mut ours,
        vec![one.into_chain(), two_a.into_chain(), two_b.into_chain()],
    );
    assert!(replaced);
    assert_eq!(ours.len(), 3);
    assert_eq!(ours.hash_last_block().unwrap(), first_hash);
}

#[test]
fn consensus_ignores_invalid_chains() {
    let mut ours = Blockchain::new_with(1);
    let mut forged = Blockchain::new_with(1);
    forged.new_block(2, String::from("not the hash"));
    forged.new_block(3, String::from("not the hash either"));
    assert!(!forged.valid_chain(forged.chain()));
    assert!(!Consensus::take_authoritive(&mut ours, vec![forged.into_chain()]));
    assert_eq!(ours.len(), 1);
}

#[test]
fn replace_swaps_the_chain() {
    let mut ours = Blockchain::new_with(1);
    let mut theirs = Blockchain::new_with(1);
    theirs.mine().unwrap();
    ours.replace(theirs.into_chain());
    assert_eq!(ours.len(), 2);
}

#[test]
fn block_hash_is_base64_of_32_bytes() {
    let blockchain = Blockchain::new();
    let hash = Blockchain::hash(blockchain.last_block()).unwrap();
    assert_eq!(hash.chars().count(), 44);
    assert!(hash.ends_with('='));
    assert!(!hash.ends_with("=="));
    assert!(hash[..43]
        .chars()
        .all(|c| c.is_ascii_alphanumeric() || c == '+' || c == '/'));
}
