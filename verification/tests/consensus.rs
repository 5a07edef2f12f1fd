use learnnet::blockchain::Blockchain;
use learnnet::consensus::Consensus;

#[test]
fn take_authoritive() {
    //Same or less blocks we keep our own. Longer we replace
    let mut blockchain_1 = Blockchain::new_with(1);
    let mut blockchain_2 = Blockchain::new_with(1);

    blockchain_1.mine().unwrap();
    assert!(!Consensus::take_authoritive(&mut blockchain_1, vec![blockchain_2.into_chain()]), "1 block vs 0 blocks (don't replace)");

    blockchain_1 = Blockchain::new_with(1);
    blockchain_2 = Blockchain::new_with(1);
    blockchain_1.mine().unwrap();
    blockchain_2.mine().unwrap();
    assert!(!Consensus::take_authoritive(&mut blockchain_1, vec![blockchain_2.into_chain()]), "1 block vs 1 blocks (don't replace)");

    blockchain_1 = Blockchain::new_with(1);
    blockchain_2 = Blockchain::new_with(1);
    blockchain_1.mine().unwrap();
    blockchain_2.mine().unwrap();
    blockchain_2.mine().unwrap();
    assert!(Consensus::take_authoritive(&mut blockchain_1, vec![blockchain_2.into_chain()]), "1 block vs 2 blocks (replace)");
}
