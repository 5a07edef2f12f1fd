//! A transfer of an amount from a sender to a recipient.
use crate::order::{Order, compare_i64, compare_str, int_order, is_total_order, lemma_str_order, str_order, then_order};
use crate::json::{json_string, push_json_string, push_signed_decimal, push_str, signed_decimal};
use crate::sorted_set::Ordered;
use vstd::prelude::*;
use vstd::utf8::encode_utf8;

verus! {

/// An address: any string that names an account.
pub type Address = String;

/// An amount of coin.
pub type Amount = i64;

/// A transaction, to be recorded in the next mined block.
pub struct Transaction {
    pub sender: Address,
    pub recipient: Address,
    pub amount: Amount,
}

/// What a transaction holds, as plain values.
pub struct TxnView {
    pub sender: Seq<char>,
    pub recipient: Seq<char>,
    pub amount: i64,
}

impl View for Transaction {
    type V = TxnView;

    open spec fn view(&self) -> TxnView {
        TxnView { sender: self.sender@, recipient: self.recipient@, amount: self.amount }
    }
}

/// Transactions are ordered by sender, then recipient, then amount.
pub open spec fn txn_order(a: TxnView, b: TxnView) -> Order {
    then_order(
        str_order(a.sender, b.sender),
        then_order(str_order(a.recipient, b.recipient), int_order(a.amount as int, b.amount as int)),
    )
}

/// A transaction as compact JSON, fields in declaration order:
/// `{"sender":..,"recipient":..,"amount":..}`.
pub open spec fn txn_json(t: TxnView) -> Seq<u8> {
    encode_utf8("{\"sender\":"@) + json_string(t.sender) + encode_utf8(",\"recipient\":"@)
        + json_string(t.recipient) + encode_utf8(",\"amount\":"@) + signed_decimal(t.amount as int)
        + encode_utf8("}"@)
}

impl Transaction {
    /// Appends the transaction as compact JSON.
    pub fn write_json(&self, out: &mut Vec<u8>)
        ensures
            final(out)@ == old(out)@ + txn_json(self@),
    {
        let ghost start = out@;
        push_str(out, "{\"sender\":");
        push_json_string(out, self.sender.as_str());
        push_str(out, ",\"recipient\":");
        push_json_string(out, self.recipient.as_str());
        push_str(out, ",\"amount\":");
        push_signed_decimal(out, self.amount);
        push_str(out, "}");
        assert(out@ =~= start + txn_json(self@));
    }

    /// A transaction of `amount` from `sender` to `recipient`.
    pub fn new(sender: Address, recipient: Address, amount: Amount) -> (t: Transaction)
        ensures
            t@ == (TxnView { sender: sender@, recipient: recipient@, amount }),
    {
        Transaction { sender: sender, recipient: recipient, amount: amount }
    }
}

impl Ordered for Transaction {
    open spec fn order() -> spec_fn(TxnView, TxnView) -> Order {
        |a: TxnView, b: TxnView| txn_order(a, b)
    }

    proof fn lemma_order_total() {
        let f = Self::order();
        assert forall|x: TxnView, y: TxnView| #[trigger] f(x, y) == Order::Equal <==> x == y by {
            lemma_str_order(x.sender, y.sender, x.sender);
            lemma_str_order(x.recipient, y.recipient, x.recipient);
        }
        assert forall|x: TxnView, y: TxnView| #[trigger] f(x, y) == f(y, x).flip() by {
            lemma_str_order(x.sender, y.sender, x.sender);
            lemma_str_order(x.recipient, y.recipient, x.recipient);
        }
        assert forall|x: TxnView, y: TxnView, z: TxnView|
            #[trigger] f(x, y) == Order::Less && #[trigger] f(y, z) == Order::Less implies f(x, z)
            == Order::Less by {
            lemma_str_order(x.sender, y.sender, z.sender);
            lemma_str_order(x.recipient, y.recipient, z.recipient);
            lemma_str_order(y.sender, z.sender, x.sender);
            lemma_str_order(y.recipient, z.recipient, x.recipient);
        }
        assert(is_total_order(f));
    }

    fn compare(&self, other: &Self) -> (o: Order) {
        let s = compare_str(self.sender.as_str(), other.sender.as_str());
        if s != Order::Equal {
            return s;
        }
        let r = compare_str(self.recipient.as_str(), other.recipient.as_str());
        if r != Order::Equal {
            return r;
        }
        compare_i64(self.amount, other.amount)
    }

    fn duplicate(&self) -> (r: Self) {
        Transaction {
            sender: self.sender.clone(),
            recipient: self.recipient.clone(),
            amount: self.amount,
        }
    }
}

} // verus!
