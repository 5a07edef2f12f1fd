//! An ordered set kept as a strictly increasing vector.
//!
//! It gives the library what a `BTreeSet` gives: each value at most once,
//! iteration in ascending order, and the last element the greatest.
use crate::order::{Order, compare_str, is_total_order, lemma_str_order, lex_order, str_order};
use vstd::prelude::*;

verus! {

/// Values that can be kept in a `SortedSet`: their views carry a total order,
/// which `compare` computes.
pub trait Ordered: View + Sized {
    /// The order of views.
    spec fn order() -> spec_fn(Self::V, Self::V) -> Order;

    proof fn lemma_order_total()
        ensures
            is_total_order(Self::order()),
    ;

    fn compare(&self, other: &Self) -> (o: Order)
        ensures
            o == (Self::order())(self@, other@),
    ;

    fn duplicate(&self) -> (r: Self)
        ensures
            r@ == self@,
    ;
}

/// Every element is below every later one.
pub open spec fn sorted_by<V>(s: Seq<V>, f: spec_fn(V, V) -> Order) -> bool {
    forall|i: int, j: int| 0 <= i < j < s.len() ==> #[trigger] f(s[i], s[j]) == Order::Less
}

/// Inserting `x` into a sorted sequence: before the first element above it,
/// and not at all if an equal element is there.
pub open spec fn sorted_insert<V>(s: Seq<V>, x: V, f: spec_fn(V, V) -> Order) -> Seq<V>
    decreases s.len(),
{
    if s.len() == 0 {
        seq![x]
    } else if f(x, s[0]) == Order::Less {
        seq![x] + s
    } else if f(x, s[0]) == Order::Equal {
        s
    } else {
        seq![s[0]] + sorted_insert(s.drop_first(), x, f)
    }
}

/// Inserting each of `xs` in turn.
pub open spec fn insert_all<V>(s: Seq<V>, xs: Seq<V>, f: spec_fn(V, V) -> Order) -> Seq<V>
    decreases xs.len(),
{
    if xs.len() == 0 {
        s
    } else {
        insert_all(sorted_insert(s, xs[0], f), xs.drop_first(), f)
    }
}

/// Where `x` goes: every element before `i` is below it, and the element at
/// `i`, if any, is not.
pub open spec fn insertion_point<V>(s: Seq<V>, x: V, i: int, f: spec_fn(V, V) -> Order) -> bool {
    &&& 0 <= i <= s.len()
    &&& forall|k: int| 0 <= k < i ==> #[trigger] f(s[k], x) == Order::Less
    &&& i < s.len() ==> f(s[i], x) != Order::Less
}

pub proof fn lemma_sorted_insert_at<V>(s: Seq<V>, x: V, i: int, f: spec_fn(V, V) -> Order)
    requires
        is_total_order(f),
        insertion_point(s, x, i, f),
    ensures
        sorted_insert(s, x, f) == if i < s.len() && s[i] == x {
            s
        } else {
            s.insert(i, x)
        },
    decreases i,
{
    if s.len() == 0 {
        assert(s.insert(i, x) =~= seq![x]);
    } else if i == 0 {
        assert(f(x, s[0]) == f(s[0], x).flip());
        if s[0] == x {
        } else {
            assert(s.insert(0, x) =~= seq![x] + s);
        }
    } else {
        assert(f(s[0], x) == Order::Less);
        assert(f(x, s[0]) == f(s[0], x).flip());
        let t = s.drop_first();
        assert forall|k: int| 0 <= k < i - 1 implies #[trigger] f(t[k], x) == Order::Less by {
            assert(t[k] == s[k + 1]);
        }
        lemma_sorted_insert_at(t, x, i - 1, f);
        if i < s.len() && s[i] == x {
            assert(seq![s[0]] + t =~= s);
        } else {
            assert(seq![s[0]] + t.insert(i - 1, x) =~= s.insert(i, x));
        }
    }
}

/// What inserting into a sorted sequence does: it stays sorted, it holds
/// what it held and the new value, and it grows by one exactly when the value
/// was not there.
pub proof fn lemma_sorted_insert<V>(s: Seq<V>, x: V, f: spec_fn(V, V) -> Order)
    requires
        is_total_order(f),
        sorted_by(s, f),
    ensures
        sorted_by(sorted_insert(s, x, f), f),
        forall|y: V| sorted_insert(s, x, f).contains(y) <==> (s.contains(y) || y == x),
        sorted_insert(s, x, f).len() == if s.contains(x) {
            s.len()
        } else {
            s.len() + 1
        },
    decreases s.len(),
{
    let r = sorted_insert(s, x, f);
    if s.len() == 0 {
        assert(r =~= seq![x]);
        assert(forall|y: V| r.contains(y) <==> y == x) by {
            assert(r[0] == x);
        }
    } else {
        let t = s.drop_first();
        assert(sorted_by(t, f)) by {
            assert forall|i: int, j: int| 0 <= i < j < t.len() implies #[trigger] f(t[i], t[j])
                == Order::Less by {
                assert(t[i] == s[i + 1] && t[j] == s[j + 1]);
            }
        }
        assert(s =~= seq![s[0]] + t);
        assert forall|y: V| s.contains(y) <==> (y == s[0] || t.contains(y)) by {
            if s.contains(y) {
                let k = choose|k: int| 0 <= k < s.len() && s[k] == y;
                if k > 0 {
                    assert(t[k - 1] == y);
                }
            }
            if t.contains(y) {
                let k = choose|k: int| 0 <= k < t.len() && t[k] == y;
                assert(s[k + 1] == y);
            }
        }
        if f(x, s[0]) == Order::Less {
            assert(r =~= seq![x] + s);
            assert forall|i: int, j: int| 0 <= i < j < r.len() implies #[trigger] f(r[i], r[j])
                == Order::Less by {
                if i == 0 {
                    if j > 1 {
                        assert(f(s[0], s[j - 1]) == Order::Less);
                    }
                } else {
                    assert(r[i] == s[i - 1] && r[j] == s[j - 1]);
                }
            }
            assert forall|y: V| r.contains(y) <==> (s.contains(y) || y == x) by {
                if r.contains(y) {
                    let k = choose|k: int| 0 <= k < r.len() && r[k] == y;
                    if k > 0 {
                        assert(s[k - 1] == y);
                    }
                }
                if s.contains(y) {
                    let k = choose|k: int| 0 <= k < s.len() && s[k] == y;
                    assert(r[k + 1] == y);
                }
                if y == x {
                    assert(r[0] == y);
                }
            }
            assert(!s.contains(x)) by {
                if s.contains(x) {
                    let k = choose|k: int| 0 <= k < s.len() && s[k] == x;
                    if k > 0 {
                        assert(f(s[0], s[k]) == Order::Less);
                        assert(f(x, s[0]) == f(s[0], x).flip());
                    }
                }
            }
        } else if f(x, s[0]) == Order::Equal {
            assert(x == s[0]);
            assert(s.contains(x)) by {
                assert(s[0] == x);
            }
        } else {
            lemma_sorted_insert(t, x, f);
            let rt = sorted_insert(t, x, f);
            assert(r =~= seq![s[0]] + rt);
            assert(f(s[0], x) == Order::Less) by {
                assert(f(x, s[0]) == f(s[0], x).flip());
            }
            assert forall|i: int, j: int| 0 <= i < j < r.len() implies #[trigger] f(r[i], r[j])
                == Order::Less by {
                if i == 0 {
                    assert(r[j] == rt[j - 1]);
                    assert(rt.contains(rt[j - 1]));
                    if t.contains(rt[j - 1]) {
                        let k = choose|k: int| 0 <= k < t.len() && t[k] == rt[j - 1];
                        assert(f(s[0], s[k + 1]) == Order::Less);
                    }
                } else {
                    assert(r[i] == rt[i - 1] && r[j] == rt[j - 1]);
                }
            }
            assert forall|y: V| r.contains(y) <==> (s.contains(y) || y == x) by {
                if r.contains(y) {
                    let k = choose|k: int| 0 <= k < r.len() && r[k] == y;
                    if k > 0 {
                        assert(rt[k - 1] == y);
                    }
                }
                if rt.contains(y) {
                    let k = choose|k: int| 0 <= k < rt.len() && rt[k] == y;
                    assert(r[k + 1] == y);
                }
                if y == s[0] {
                    assert(r[0] == y);
                }
            }
            assert(s.contains(x) <==> t.contains(x)) by {
                assert(x != s[0]);
            }
        }
    }
}

/// After inserting a value, it is there.
pub proof fn lemma_sorted_insert_contains<V>(s: Seq<V>, x: V, f: spec_fn(V, V) -> Order)
    requires
        is_total_order(f),
    ensures
        sorted_insert(s, x, f).contains(x),
    decreases s.len(),
{
    let r = sorted_insert(s, x, f);
    if s.len() == 0 {
        assert(r[0] == x);
    } else if f(x, s[0]) == Order::Less {
        assert(r[0] == x);
    } else if f(x, s[0]) == Order::Equal {
        assert(r[0] == x);
    } else {
        lemma_sorted_insert_contains(s.drop_first(), x, f);
        let rt = sorted_insert(s.drop_first(), x, f);
        let k = choose|k: int| 0 <= k < rt.len() && rt[k] == x;
        assert(r[k + 1] == x);
    }
}

/// Inserting a value that is already there changes nothing.
pub proof fn lemma_sorted_insert_present<V>(s: Seq<V>, x: V, f: spec_fn(V, V) -> Order)
    requires
        is_total_order(f),
        sorted_by(s, f),
        s.contains(x),
    ensures
        sorted_insert(s, x, f) == s,
{
    let k = choose|k: int| 0 <= k < s.len() && s[k] == x;
    assert forall|j: int| 0 <= j < k implies #[trigger] f(s[j], x) == Order::Less by {
        assert(f(s[j], s[k]) == Order::Less);
    }
    assert(f(s[k], x) == Order::Equal);
    lemma_sorted_insert_at(s, x, k, f);
}

/// Inserting the same value twice is inserting it once.
pub proof fn lemma_insert_idempotent<V>(s: Seq<V>, x: V, f: spec_fn(V, V) -> Order)
    requires
        is_total_order(f),
        sorted_by(s, f),
    ensures
        sorted_insert(sorted_insert(s, x, f), x, f) == sorted_insert(s, x, f),
{
    lemma_sorted_insert(s, x, f);
    lemma_sorted_insert_present(sorted_insert(s, x, f), x, f);
}

/// A set of values with distinct views, held in ascending order.
pub struct SortedSet<T: Ordered> {
    items: Vec<T>,
}

impl<T: Ordered> View for SortedSet<T> {
    type V = Seq<T::V>;

    closed spec fn view(&self) -> Seq<T::V> {
        self.items@.map_values(|t: T| t@)
    }
}

impl<T: Ordered> SortedSet<T> {
    #[verifier::type_invariant]
    spec fn is_sorted(self) -> bool {
        sorted_by(self@, T::order())
    }

    /// The empty set.
    pub fn new() -> (s: Self)
        ensures
            s@ == Seq::<T::V>::empty(),
    {
        let s = SortedSet { items: Vec::new() };
        assert(s@ =~= Seq::<T::V>::empty());
        s
    }

    /// The number of elements.
    pub fn len(&self) -> (n: usize)
        ensures
            n == self@.len(),
            sorted_by(self@, T::order()),
    {
        proof {
            use_type_invariant(self);
        }
        self.items.len()
    }

    /// The element at position `i` in ascending order.
    pub fn get(&self, i: usize) -> (r: &T)
        requires
            i < self@.len(),
        ensures
            r@ == self@[i as int],
    {
        &self.items[i]
    }

    /// Adds `x` unless an equal element is there; returns whether it was added.
    pub fn insert(&mut self, x: T) -> (added: bool)
        ensures
            final(self)@ == sorted_insert(old(self)@, x@, T::order()),
            final(self)@.contains(x@),
            added == !old(self)@.contains(x@),
            !added ==> final(self)@ == old(self)@,
    {
        proof {
            use_type_invariant(&*self);
            T::lemma_order_total();
            if self@.contains(x@) {
                lemma_sorted_insert_present(self@, x@, T::order());
            }
        }
        let ghost s = self@;
        let ghost f = T::order();
        let n = self.items.len();
        let mut i: usize = 0;
        while i < n
            invariant
                n == self.items@.len(),
                s == self@,
                f == T::order(),
                i <= n,
                forall|k: int| 0 <= k < i ==> #[trigger] f(s[k], x@) == Order::Less,
            ensures
                i <= n,
                forall|k: int| 0 <= k < i ==> #[trigger] f(s[k], x@) == Order::Less,
                i < n ==> f(s[i as int], x@) != Order::Less,
            decreases n - i,
        {
            let o = self.items[i].compare(&x);
            if o != Order::Less {
                break;
            }
            i = i + 1;
        }
        proof {
            lemma_sorted_insert(s, x@, f);
        }
        if i < n {
            let o = self.items[i].compare(&x);
            if o == Order::Equal {
                proof {
                    assert(insertion_point(s, x@, i as int, f));
                    lemma_sorted_insert_at(s, x@, i as int, f);
                    assert(s.contains(x@)) by {
                        assert(s[i as int] == x@);
                    }
                }
                return false;
            }
        }
        proof {
            assert(insertion_point(s, x@, i as int, f));
            lemma_sorted_insert_at(s, x@, i as int, f);
            if i < n {
                assert(f(s[i as int], x@) == Order::Greater);
            }
        }
        let ghost old_items = self.items@;
        let mut items: Vec<T> = Vec::new();
        std::mem::swap(&mut items, &mut self.items);
        items.insert(i, x);
        proof {
            assert(items@ == old_items.insert(i as int, x));
            assert(items@.map_values(|t: T| t@) =~= s.insert(i as int, x@));
        }
        self.items = items;
        proof {
            assert(self@ =~= s.insert(i as int, x@));
            assert(!s.contains(x@)) by {
                if s.contains(x@) {
                    assert(sorted_insert(s, x@, f).len() == s.len());
                }
            }
        }
        true
    }

    /// Moves every element out, leaving the set empty.
    pub fn take_all(&mut self) -> (r: Self)
        ensures
            r@ == old(self)@,
            final(self)@ == Seq::<T::V>::empty(),
    {
        let mut items: Vec<T> = Vec::new();
        proof {
            use_type_invariant(&*self);
        }
        std::mem::swap(&mut items, &mut self.items);
        proof {
            assert(self@ =~= Seq::<T::V>::empty());
        }
        SortedSet { items }
    }

    /// The set holding the values of `values`, inserted in turn.
    pub fn from_vec(values: Vec<T>) -> (s: Self)
        ensures
            s@ == insert_all(Seq::empty(), values@.map_values(|t: T| t@), T::order()),
    {
        let mut s = Self::new();
        let mut values = values;
        let ghost xs = values@.map_values(|t: T| t@);
        let ghost n = values@.len();
        proof {
            assert(values@.map_values(|t: T| t@).skip(0) =~= xs);
        }
        while values.len() > 0
            invariant
                xs.len() == n,
                values@.len() <= n,
                values@.map_values(|t: T| t@) =~= xs.skip(n - values@.len()),
                insert_all(Seq::empty(), xs, T::order()) == insert_all(
                    s@,
                    values@.map_values(|t: T| t@),
                    T::order(),
                ),
            decreases values@.len(),
        {
            let ghost before = values@.map_values(|t: T| t@);
            let x = values.remove(0);
            proof {
                assert(before[0] == x@);
                assert(values@.map_values(|t: T| t@) =~= before.drop_first());
            }
            s.insert(x);
        }
        s
    }

    /// A copy holding elements with the same views.
    pub fn duplicate(&self) -> (r: Self)
        ensures
            r@ == self@,
    {
        proof {
            use_type_invariant(self);
        }
        let mut items: Vec<T> = Vec::new();
        let n = self.items.len();
        let mut i: usize = 0;
        while i < n
            invariant
                n == self.items@.len(),
                i <= n,
                items@.len() == i,
                forall|k: int| 0 <= k < i ==> #[trigger] items@[k]@ == self.items@[k]@,
            decreases n - i,
        {
            items.push(self.items[i].duplicate());
            i = i + 1;
        }
        proof {
            assert(items@.map_values(|t: T| t@) =~= self@);
        }
        SortedSet { items }
    }

    /// Compares two sets lexicographically, element by element in ascending
    /// order, as `BTreeSet` values are ordered.
    pub fn compare_with(&self, other: &Self) -> (o: Order)
        ensures
            o == lex_order(self@, other@, T::order()),
    {
        let ghost a = self@;
        let ghost b = other@;
        let n = self.items.len();
        let m = other.items.len();
        let mut i: usize = 0;
        proof {
            assert(a.skip(0) =~= a);
            assert(b.skip(0) =~= b);
        }
        while i < n && i < m
            invariant
                a == self@,
                b == other@,
                n == a.len(),
                m == b.len(),
                i <= n,
                i <= m,
                lex_order(a, b, T::order()) == lex_order(
                    a.skip(i as int),
                    b.skip(i as int),
                    T::order(),
                ),
            decreases n - i,
        {
            let o = self.items[i].compare(&other.items[i]);
            assert(a.skip(i as int)[0] == a[i as int]);
            assert(b.skip(i as int)[0] == b[i as int]);
            if o != Order::Equal {
                return o;
            }
            assert(a.skip(i as int).drop_first() =~= a.skip(i + 1));
            assert(b.skip(i as int).drop_first() =~= b.skip(i + 1));
            i = i + 1;
        }
        if i < n {
            Order::Greater
        } else if i < m {
            Order::Less
        } else {
            Order::Equal
        }
    }
}

/// Strings are kept in the order Rust gives them: by their UTF-8 bytes.
impl Ordered for String {
    open spec fn order() -> spec_fn(Seq<char>, Seq<char>) -> Order {
        |a: Seq<char>, b: Seq<char>| str_order(a, b)
    }

    proof fn lemma_order_total() {
        let f = Self::order();
        assert forall|x: Seq<char>, y: Seq<char>| #[trigger] f(x, y) == Order::Equal <==> x == y by {
            lemma_str_order(x, y, x);
        }
        assert forall|x: Seq<char>, y: Seq<char>| #[trigger] f(x, y) == f(y, x).flip() by {
            lemma_str_order(x, y, x);
        }
        assert forall|x: Seq<char>, y: Seq<char>, z: Seq<char>|
            #[trigger] f(x, y) == Order::Less && #[trigger] f(y, z) == Order::Less implies f(x, z)
            == Order::Less by {
            lemma_str_order(x, y, z);
        }
    }

    fn compare(&self, other: &Self) -> (o: Order) {
        compare_str(self.as_str(), other.as_str())
    }

    fn duplicate(&self) -> (r: Self) {
        self.clone()
    }
}

} // verus!
