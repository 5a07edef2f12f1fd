//! A block of the chain: its position, when it was forged, the proof of
//! work, the hash of the block before it, and the transactions it records.
use crate::json::{decimal, json_string, push_decimal, push_json_string, push_signed_decimal, push_str, signed_decimal};
use crate::order::{Order, compare_i64, compare_str, compare_u64, int_order, is_total_order, lemma_lex_total, lemma_str_order, lex_order, str_order, then_order};
use crate::sorted_set::{Ordered, SortedSet};
use crate::transaction::{Transaction, TxnView, txn_json};
use vstd::prelude::*;
use vstd::utf8::encode_utf8;

verus! {

/// A forged block.
pub struct Block {
    pub index: usize,
    pub timestamp: i64,
    pub proof: u64,
    pub previous_hash: String,
    pub transactions: SortedSet<Transaction>,
}

/// What a block holds, as plain values; its transactions in ascending order.
pub struct BlockView {
    pub index: usize,
    pub timestamp: i64,
    pub proof: u64,
    pub previous_hash: Seq<char>,
    pub transactions: Seq<TxnView>,
}

impl View for Block {
    type V = BlockView;

    open spec fn view(&self) -> BlockView {
        BlockView {
            index: self.index,
            timestamp: self.timestamp,
            proof: self.proof,
            previous_hash: self.previous_hash@,
            transactions: self.transactions@,
        }
    }
}

/// Blocks are ordered field by field in declaration order: index, timestamp,
/// proof, previous hash, then their transaction sets lexicographically.
pub open spec fn block_order(a: BlockView, b: BlockView) -> Order {
    then_order(
        int_order(a.index as int, b.index as int),
        then_order(
            int_order(a.timestamp as int, b.timestamp as int),
            then_order(
                int_order(a.proof as int, b.proof as int),
                then_order(
                    str_order(a.previous_hash, b.previous_hash),
                    lex_order(a.transactions, b.transactions, Transaction::order()),
                ),
            ),
        ),
    )
}

/// The transactions of a block as a JSON array, in ascending order.
pub open spec fn txns_json(ts: Seq<TxnView>) -> Seq<u8> {
    seq![91u8] + txn_items_json(ts) + seq![93u8]
}

/// The transactions as JSON, separated by commas.
pub open spec fn txn_items_json(ts: Seq<TxnView>) -> Seq<u8>
    decreases ts.len(),
{
    if ts.len() == 0 {
        Seq::empty()
    } else if ts.len() == 1 {
        txn_json(ts[0])
    } else {
        txn_items_json(ts.drop_last()) + seq![44u8] + txn_json(ts.last())
    }
}

/// The items of a JSON array join: the items of two nonempty runs of
/// transactions, one after the other, are the items of the first, a comma,
/// and the items of the second. So every two neighbouring transactions are
/// parted by exactly one comma, and one transaction alone is just its JSON.
pub proof fn lemma_txn_items_join(a: Seq<TxnView>, b: Seq<TxnView>)
    requires
        a.len() > 0,
        b.len() > 0,
    ensures
        txn_items_json(a + b) == txn_items_json(a) + seq![44u8] + txn_items_json(b),
        txn_items_json(seq![a[0]]) == txn_json(a[0]),
    decreases b.len(),
{
    let ab = a + b;
    assert(seq![a[0]].len() == 1);
    if b.len() == 1 {
        assert(ab.drop_last() =~= a);
        assert(ab.last() == b[0]);
    } else {
        lemma_txn_items_join(a, b.drop_last());
        assert(ab.drop_last() =~= a + b.drop_last());
        assert(ab.last() == b.last());
        assert(txn_items_json(ab) =~= txn_items_json(a) + seq![44u8] + txn_items_json(b));
    }
}

/// A block as compact JSON, fields in declaration order, the text its hash
/// is taken over.
pub open spec fn block_json(b: BlockView) -> Seq<u8> {
    encode_utf8("{\"index\":"@) + decimal(b.index as nat) + encode_utf8(",\"timestamp\":"@)
        + signed_decimal(b.timestamp as int) + encode_utf8(",\"proof\":"@) + decimal(
        b.proof as nat,
    ) + encode_utf8(",\"previous_hash\":"@) + json_string(b.previous_hash) + encode_utf8(
        ",\"transactions\":"@,
    ) + txns_json(b.transactions) + encode_utf8("}"@)
}

impl Block {
    /// The block as compact JSON bytes.
    pub fn to_json(&self) -> (r: Vec<u8>)
        ensures
            r@ == block_json(self@),
    {
        let mut out: Vec<u8> = Vec::new();
        push_str(&mut out, "{\"index\":");
        push_decimal(&mut out, self.index as u64);
        push_str(&mut out, ",\"timestamp\":");
        push_signed_decimal(&mut out, self.timestamp);
        push_str(&mut out, ",\"proof\":");
        push_decimal(&mut out, self.proof);
        push_str(&mut out, ",\"previous_hash\":");
        push_json_string(&mut out, self.previous_hash.as_str());
        push_str(&mut out, ",\"transactions\":");
        let ghost before_txns = out@;
        out.push(91u8);
        let n = self.transactions.len();
        let ghost ts = self.transactions@;
        let mut i: usize = 0;
        while i < n
            invariant
                n == ts.len(),
                ts == self.transactions@,
                i <= n,
                out@ == before_txns + seq![91u8] + txn_items_json(ts.take(i as int)),
            decreases n - i,
        {
            let ghost mid = out@;
            if i > 0 {
                out.push(44u8);
            }
            self.transactions.get(i).write_json(&mut out);
            proof {
                let t = ts.take(i + 1);
                assert(t.drop_last() =~= ts.take(i as int));
                assert(t.last() == ts[i as int]);
                if i == 0 {
                    assert(t.len() == 1);
                    assert(txn_items_json(ts.take(0)) =~= Seq::<u8>::empty());
                }
            }
            i = i + 1;
            assert(out@ =~= before_txns + seq![91u8] + txn_items_json(ts.take(i as int)));
        }
        out.push(93u8);
        push_str(&mut out, "}");
        assert(ts.take(n as int) =~= ts);
        assert(out@ =~= block_json(self@));
        out
    }
}

impl Ordered for Block {
    open spec fn order() -> spec_fn(BlockView, BlockView) -> Order {
        |a: BlockView, b: BlockView| block_order(a, b)
    }

    proof fn lemma_order_total() {
        Transaction::lemma_order_total();
        lemma_lex_total(Transaction::order());
        let g = |a: Seq<TxnView>, b: Seq<TxnView>| lex_order(a, b, Transaction::order());
        let f = Self::order();
        assert forall|x: BlockView, y: BlockView| #[trigger] f(x, y) == Order::Equal <==> x == y by {
            lemma_str_order(x.previous_hash, y.previous_hash, x.previous_hash);
            assert(g(x.transactions, y.transactions) == Order::Equal <==> x.transactions
                == y.transactions);
        }
        assert forall|x: BlockView, y: BlockView| #[trigger] f(x, y) == f(y, x).flip() by {
            lemma_str_order(x.previous_hash, y.previous_hash, x.previous_hash);
            assert(g(x.transactions, y.transactions) == g(y.transactions, x.transactions).flip());
        }
        assert forall|x: BlockView, y: BlockView, z: BlockView|
            #[trigger] f(x, y) == Order::Less && #[trigger] f(y, z) == Order::Less implies f(x, z)
            == Order::Less by {
            lemma_str_order(x.previous_hash, y.previous_hash, z.previous_hash);
            lemma_str_order(y.previous_hash, z.previous_hash, x.previous_hash);
            assert(g(x.transactions, y.transactions) == Order::Equal <==> x.transactions
                == y.transactions);
            assert(g(y.transactions, z.transactions) == Order::Equal <==> y.transactions
                == z.transactions);
            assert(g(x.transactions, y.transactions) == Order::Less && g(
                y.transactions,
                z.transactions,
            ) == Order::Less ==> g(x.transactions, z.transactions) == Order::Less);
        }
        assert(is_total_order(f));
    }

    fn compare(&self, other: &Self) -> (o: Order) {
        let a = compare_u64(self.index as u64, other.index as u64);
        if a != Order::Equal {
            return a;
        }
        let b = compare_i64(self.timestamp, other.timestamp);
        if b != Order::Equal {
            return b;
        }
        let c = compare_u64(self.proof, other.proof);
        if c != Order::Equal {
            return c;
        }
        let d = compare_str(self.previous_hash.as_str(), other.previous_hash.as_str());
        if d != Order::Equal {
            return d;
        }
        self.transactions.compare_with(&other.transactions)
    }

    fn duplicate(&self) -> (r: Self) {
        Block {
            index: self.index,
            timestamp: self.timestamp,
            proof: self.proof,
            previous_hash: self.previous_hash.clone(),
            transactions: self.transactions.duplicate(),
        }
    }
}

} // verus!
