//! Three-way comparison and the lexicographic orders the library sorts by.
//!
//! Blocks and transactions are kept in sorted sets ordered field by field,
//! strings compared by their UTF-8 bytes, as Rust orders `String`.
use vstd::prelude::*;
use vstd::utf8::*;

verus! {

/// The outcome of comparing two values.
#[derive(PartialEq, Eq, Structural, Clone, Copy, Debug)]
pub enum Order {
    Less,
    Equal,
    Greater,
}

impl Order {
    /// The outcome of the comparison with its two sides swapped.
    pub open spec fn flip(self) -> Order {
        match self {
            Order::Less => Order::Greater,
            Order::Equal => Order::Equal,
            Order::Greater => Order::Less,
        }
    }
}

/// Compares by a first key, falling back to a second key on a tie.
pub open spec fn then_order(first: Order, second: Order) -> Order {
    if first == Order::Equal {
        second
    } else {
        first
    }
}

/// The usual order of integers.
pub open spec fn int_order(a: int, b: int) -> Order {
    if a < b {
        Order::Less
    } else if a == b {
        Order::Equal
    } else {
        Order::Greater
    }
}

/// Lexicographic order of two sequences under an order of their elements;
/// a proper prefix comes first.
pub open spec fn lex_order<V>(a: Seq<V>, b: Seq<V>, f: spec_fn(V, V) -> Order) -> Order
    decreases a.len(),
{
    if a.len() == 0 {
        if b.len() == 0 {
            Order::Equal
        } else {
            Order::Less
        }
    } else if b.len() == 0 {
        Order::Greater
    } else {
        then_order(f(a[0], b[0]), lex_order(a.drop_first(), b.drop_first(), f))
    }
}

/// `f` is a total order: it answers `Equal` exactly on equal values, swapping
/// the sides flips the answer, and `Less` is transitive.
pub open spec fn is_total_order<V>(f: spec_fn(V, V) -> Order) -> bool {
    &&& forall|x: V, y: V| #[trigger] f(x, y) == Order::Equal <==> x == y
    &&& forall|x: V, y: V| #[trigger] f(x, y) == f(y, x).flip()
    &&& forall|x: V, y: V, z: V|
        #[trigger] f(x, y) == Order::Less && #[trigger] f(y, z) == Order::Less ==> f(x, z)
            == Order::Less
}

/// The order of bytes by value.
pub open spec fn byte_order() -> spec_fn(u8, u8) -> Order {
    |x: u8, y: u8| int_order(x as int, y as int)
}

/// The order of strings: lexicographic on their UTF-8 encodings.
pub open spec fn str_order(a: Seq<char>, b: Seq<char>) -> Order {
    lex_order(encode_utf8(a), encode_utf8(b), byte_order())
}

pub proof fn lemma_lex_equal<V>(a: Seq<V>, b: Seq<V>, f: spec_fn(V, V) -> Order)
    requires
        is_total_order(f),
    ensures
        lex_order(a, b, f) == Order::Equal <==> a == b,
    decreases a.len(),
{
    if a.len() > 0 && b.len() > 0 {
        lemma_lex_equal(a.drop_first(), b.drop_first(), f);
        if a == b {
            assert(a.drop_first() == b.drop_first());
        }
        if lex_order(a, b, f) == Order::Equal {
            assert(a =~= seq![a[0]] + a.drop_first());
            assert(b =~= seq![b[0]] + b.drop_first());
        }
    } else if a.len() == 0 && b.len() == 0 {
        assert(a =~= b);
    }
}

pub proof fn lemma_lex_flip<V>(a: Seq<V>, b: Seq<V>, f: spec_fn(V, V) -> Order)
    requires
        is_total_order(f),
    ensures
        lex_order(a, b, f) == lex_order(b, a, f).flip(),
    decreases a.len(),
{
    if a.len() > 0 && b.len() > 0 {
        lemma_lex_flip(a.drop_first(), b.drop_first(), f);
        assert(f(a[0], b[0]) == f(b[0], a[0]).flip());
    }
}

pub proof fn lemma_lex_trans<V>(a: Seq<V>, b: Seq<V>, c: Seq<V>, f: spec_fn(V, V) -> Order)
    requires
        is_total_order(f),
        lex_order(a, b, f) == Order::Less,
        lex_order(b, c, f) == Order::Less,
    ensures
        lex_order(a, c, f) == Order::Less,
    decreases a.len(),
{
    if a.len() > 0 && b.len() > 0 && c.len() > 0 {
        let fab = f(a[0], b[0]);
        let fbc = f(b[0], c[0]);
        if fab == Order::Equal && fbc == Order::Equal {
            lemma_lex_trans(a.drop_first(), b.drop_first(), c.drop_first(), f);
        } else if fab == Order::Equal {
            assert(a[0] == b[0]);
        } else if fbc == Order::Equal {
            assert(b[0] == c[0]);
        } else {
            assert(f(a[0], c[0]) == Order::Less);
        }
    }
}

/// Lexicographic extension keeps a total order total.
pub proof fn lemma_lex_total<V>(f: spec_fn(V, V) -> Order)
    requires
        is_total_order(f),
    ensures
        is_total_order(|a: Seq<V>, b: Seq<V>| lex_order(a, b, f)),
{
    let g = |a: Seq<V>, b: Seq<V>| lex_order(a, b, f);
    assert forall|x: Seq<V>, y: Seq<V>| #[trigger] g(x, y) == Order::Equal <==> x == y by {
        lemma_lex_equal(x, y, f);
    }
    assert forall|x: Seq<V>, y: Seq<V>| #[trigger] g(x, y) == g(y, x).flip() by {
        lemma_lex_flip(x, y, f);
    }
    assert forall|x: Seq<V>, y: Seq<V>, z: Seq<V>|
        #[trigger] g(x, y) == Order::Less && #[trigger] g(y, z) == Order::Less implies g(x, z)
        == Order::Less by {
        lemma_lex_trans(x, y, z, f);
    }
}

pub proof fn lemma_byte_order_total()
    ensures
        is_total_order(byte_order()),
{
}

/// The string order answers `Equal` exactly on equal strings, swaps
/// consistently, and is transitive.
pub proof fn lemma_str_order(a: Seq<char>, b: Seq<char>, c: Seq<char>)
    ensures
        str_order(a, b) == Order::Equal <==> a == b,
        str_order(a, b) == str_order(b, a).flip(),
        str_order(a, b) == Order::Less && str_order(b, c) == Order::Less ==> str_order(a, c)
            == Order::Less,
{
    lemma_byte_order_total();
    lemma_lex_equal(encode_utf8(a), encode_utf8(b), byte_order());
    lemma_lex_flip(encode_utf8(a), encode_utf8(b), byte_order());
    if str_order(a, b) == Order::Less && str_order(b, c) == Order::Less {
        lemma_lex_trans(encode_utf8(a), encode_utf8(b), encode_utf8(c), byte_order());
    }
    if encode_utf8(a) == encode_utf8(b) {
        encode_utf8_decode_utf8(a);
        encode_utf8_decode_utf8(b);
    }
}

/// Compares two integers.
pub fn compare_u64(a: u64, b: u64) -> (o: Order)
    ensures
        o == int_order(a as int, b as int),
{
    if a < b {
        Order::Less
    } else if a == b {
        Order::Equal
    } else {
        Order::Greater
    }
}

/// Compares two signed integers.
pub fn compare_i64(a: i64, b: i64) -> (o: Order)
    ensures
        o == int_order(a as int, b as int),
{
    if a < b {
        Order::Less
    } else if a == b {
        Order::Equal
    } else {
        Order::Greater
    }
}

/// Compares two byte strings lexicographically.
pub fn compare_bytes(a: &[u8], b: &[u8]) -> (o: Order)
    ensures
        o == lex_order(a@, b@, byte_order()),
{
    let mut i: usize = 0;
    assert(a@.skip(0) =~= a@);
    assert(b@.skip(0) =~= b@);
    while i < a.len() && i < b.len()
        invariant
            i <= a@.len(),
            i <= b@.len(),
            lex_order(a@, b@, byte_order()) == lex_order(
                a@.skip(i as int),
                b@.skip(i as int),
                byte_order(),
            ),
        decreases a@.len() - i,
    {
        let x = a[i];
        let y = b[i];
        assert(a@.skip(i as int)[0] == x);
        assert(b@.skip(i as int)[0] == y);
        if x < y {
            return Order::Less;
        } else if x > y {
            return Order::Greater;
        }
        assert(a@.skip(i as int).drop_first() =~= a@.skip(i + 1));
        assert(b@.skip(i as int).drop_first() =~= b@.skip(i + 1));
        i = i + 1;
    }
    if i < a.len() {
        Order::Greater
    } else if i < b.len() {
        Order::Less
    } else {
        Order::Equal
    }
}

/// Compares two strings as Rust orders them: by their UTF-8 bytes.
pub fn compare_str(a: &str, b: &str) -> (o: Order)
    ensures
        o == str_order(a@, b@),
{
    compare_bytes(a.as_bytes(), b.as_bytes())
}

} // verus!
