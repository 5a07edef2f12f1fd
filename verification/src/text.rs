//! Building strings from pieces.
use crate::json::decimal;
use vstd::prelude::*;
use vstd::string::StringExecFns;

verus! {

/// Trusted: `String::push` appends one character.
#[verifier::external_body]
fn push_char(s: &mut String, c: char)
    ensures
        final(s)@ == old(s)@.push(c),
{
    s.push(c);
}

/// The decimal digits of `n` as characters.
pub open spec fn decimal_text(n: nat) -> Seq<char> {
    decimal(n).map_values(|b: u8| b as char)
}

/// The number that decimal digits stand for, read most significant first.
pub open spec fn digits_value(s: Seq<char>) -> int
    decreases s.len(),
{
    if s.len() == 0 {
        0
    } else {
        digits_value(s.drop_last()) * 10 + (s.last() as int - 48)
    }
}

/// A decimal digit character, `0` to `9`.
pub open spec fn is_digit(c: char) -> bool {
    '0' <= c <= '9'
}

/// The decimal text of `n` is `n` written as Rust writes it: digits only,
/// most significant first, no leading zero (but for `0` itself), and read
/// back it is `n`. Past one digit, it is the text of `n / 10` followed by
/// the digit of `n % 10`.
pub proof fn lemma_decimal_text(n: nat)
    ensures
        decimal_text(n).len() >= 1,
        forall|i: int| 0 <= i < decimal_text(n).len() ==> is_digit(#[trigger] decimal_text(n)[i]),
        digits_value(decimal_text(n)) == n,
        decimal_text(n)[0] == '0' ==> n == 0,
        n < 10 ==> decimal_text(n) == seq![(48 + n) as char],
        n >= 10 ==> decimal_text(n) == decimal_text(n / 10).push((48 + n % 10) as char),
    decreases n,
{
    let t = decimal_text(n);
    if n < 10 {
        assert(t =~= seq![(48 + n) as char]);
        assert(t.drop_last() =~= Seq::<char>::empty());
        assert(t.last() as int == 48 + n);
        assert(digits_value(t) == digits_value(t.drop_last()) * 10 + (t.last() as int - 48));
    } else {
        lemma_decimal_text(n / 10);
        let u = decimal_text(n / 10);
        let c = (48 + n % 10) as char;
        assert(decimal(n) == decimal(n / 10).push((48 + n % 10) as u8));
        assert(t =~= u.push(c));
        assert(t.drop_last() =~= u);
        assert(t.last() as int == 48 + n % 10);
        assert(digits_value(t) == digits_value(u) * 10 + (t.last() as int - 48));
        assert(n == (n / 10) * 10 + n % 10);
        assert(t[0] == u[0]);
        assert forall|i: int| 0 <= i < t.len() implies is_digit(#[trigger] t[i]) by {
            if i < u.len() {
                assert(t[i] == u[i]);
            }
        }
    }
}

/// Appends the decimal digits of `n`.
pub fn push_decimal_text(s: &mut String, n: u64)
    ensures
        final(s)@ == old(s)@ + decimal_text(n as nat),
    decreases n,
{
    if n >= 10 {
        push_decimal_text(s, n / 10);
    }
    let d: u8 = (n % 10) as u8;
    let c: char = (48 + d) as char;
    push_char(s, c);
    proof {
        if n >= 10 {
            assert(decimal(n as nat) == decimal((n / 10) as nat).push((48 + n % 10) as u8));
            assert(decimal_text(n as nat) =~= decimal_text((n / 10) as nat).push(c));
        } else {
            assert(decimal_text(n as nat) =~= seq![c]);
        }
    }
    assert(final(s)@ =~= old(s)@ + decimal_text(n as nat));
}

/// `a` followed by `b`.
pub fn concat(a: &str, b: &str) -> (r: String)
    ensures
        r@ == a@ + b@,
{
    let mut s = a.to_owned();
    s.append(b);
    s
}

} // verus!
