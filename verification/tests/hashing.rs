use learnnet::block::Block;
use learnnet::blockchain::Blockchain;
use learnnet::hasher::{hash_bytes, hash_string};
use learnnet::json::{push_decimal, push_json_string, push_signed_decimal};
use learnnet::sorted_set::SortedSet;
use learnnet::transaction::Transaction;

#[test]
fn hash_string_is_base64_of_sha256() {
    assert_eq!(hash_string("abc"), "ungWv48Bz+pBQUDeXa4iI7ADYaOWF3qctBD/YfIAFa0=");
    assert_eq!(hash_bytes(&[]), "47DEQpj8HBSa+/TImW+5JCeuQeRkm5NMpJWZG3hSuFU=");
}

#[test]
fn json_strings_are_escaped_as_serde_json_does() {
    let samples = [
        "",
        "plain",
        "quote \" and backslash \\",
        "tab\tnew\nline\rreturn",
        "\u{8}\u{c}\u{0}\u{1f}\u{7f}",
        "caf\u{e9} \u{1F600}",
        "/slash/",
    ];
    for s in samples.iter() {
        let mut out = Vec::new();
        push_json_string(&mut out, s);
        assert_eq!(String::from_utf8(out).unwrap(), serde_json::to_string(s).unwrap());
    }
}

#[test]
fn decimals_match_rust_formatting() {
    for n in [0u64, 7, 10, 99, 100, 12345, u64::MAX].iter() {
        let mut out = Vec::new();
        push_decimal(&mut out, *n);
        assert_eq!(String::from_utf8(out).unwrap(), n.to_string());
    }
    for x in [0i64, -1, 42, -1000, i64::MIN, i64::MAX].iter() {
        let mut out = Vec::new();
        push_signed_decimal(&mut out, *x);
        assert_eq!(String::from_utf8(out).unwrap(), x.to_string());
    }
}

fn sample_block() -> Block {
    Block {
        index: 5,
        timestamp: -3,
        proof: 42,
        previous_hash: String::from("x\"y"),
        transactions: SortedSet::from_vec(vec![
            Transaction::new(String::from("b"), String::from("c"), 1),
            Transaction::new(String::from("a"), String::from("z"), -2),
        ]),
    }
}

#[test]
fn block_json_is_compact_and_in_field_order() {
    let json = String::from_utf8(sample_block().to_json()).unwrap();
    assert_eq!(
        json,
        "{\"index\":5,\"timestamp\":-3,\"proof\":42,\"previous_hash\":\"x\\\"y\",\"transactions\":[{\"sender\":\"a\",\"recipient\":\"z\",\"amount\":-2},{\"sender\":\"b\",\"recipient\":\"c\",\"amount\":1}]}"
    );
    let empty = Block {
        index: 1,
        timestamp: 0,
        proof: 100,
        previous_hash: String::from("Genesis block."),
        transactions: SortedSet::new(),
    };
    assert_eq!(
        String::from_utf8(empty.to_json()).unwrap(),
        "{\"index\":1,\"timestamp\":0,\"proof\":100,\"previous_hash\":\"Genesis block.\",\"transactions\":[]}"
    );
}

#[test]
fn block_hash_is_hash_of_its_json() {
    let block = sample_block();
    let json = block.to_json();
    assert_eq!(Blockchain::hash(&block).unwrap(), hash_bytes(&json));
    let mut other = sample_block();
    other.proof = 43;
    assert_ne!(Blockchain::hash(&block).unwrap(), Blockchain::hash(&other).unwrap());
}
