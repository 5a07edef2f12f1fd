use learnnet::order::{compare_bytes, compare_str, Order};
use learnnet::sorted_set::SortedSet;
use learnnet::transaction::Transaction;

fn txn(s: &str, r: &str, a: i64) -> Transaction {
    Transaction::new(String::from(s), String::from(r), a)
}

#[test]
fn insert_keeps_one_of_each_in_order() {
    let mut set = SortedSet::new();
    assert!(set.insert(txn("b", "x", 1)));
    assert!(set.insert(txn("a", "y", 5)));
    assert!(set.insert(txn("a", "x", 9)));
    assert!(set.insert(txn("a", "x", -9)));
    assert!(!set.insert(txn("b", "x", 1)));
    assert_eq!(set.len(), 4);
    let order: Vec<(String, String, i64)> = (0..set.len())
        .map(|i| {
            let t = set.get(i);
            (t.sender.clone(), t.recipient.clone(), t.amount)
        })
        .collect();
    assert_eq!(
        order,
        vec![
            (String::from("a"), String::from("x"), -9),
            (String::from("a"), String::from("x"), 9),
            (String::from("a"), String::from("y"), 5),
            (String::from("b"), String::from("x"), 1),
        ]
    );
}

#[test]
fn strings_compare_by_bytes() {
    assert_eq!(compare_str("B", "a"), Order::Less);
    assert_eq!(compare_str("a", "aa"), Order::Less);
    assert_eq!(compare_str("ab", "ab"), Order::Equal);
    assert_eq!(compare_str("\u{e9}", "z"), Order::Greater);
    assert_eq!(compare_bytes(&[1, 2], &[1]), Order::Greater);
}

#[test]
fn from_vec_sorts_and_drops_duplicates() {
    let set = SortedSet::from_vec(vec![txn("c", "c", 3), txn("a", "a", 1), txn("c", "c", 3)]);
    assert_eq!(set.len(), 2);
    assert_eq!(set.get(0).sender, "a");
    assert_eq!(set.get(1).sender, "c");
}

#[test]
fn take_all_empties_the_set() {
    let mut set = SortedSet::from_vec(vec![txn("c", "c", 3), txn("a", "a", 1)]);
    let taken = set.take_all();
    assert_eq!(set.len(), 0);
    assert_eq!(taken.len(), 2);
    let copy = taken.duplicate();
    assert_eq!(copy.compare_with(&taken), Order::Equal);
    assert_eq!(set.compare_with(&taken), Order::Less);
}
