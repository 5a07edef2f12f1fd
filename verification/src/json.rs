//! The pieces of compact JSON text that blocks are hashed over: decimal
//! integers and quoted, escaped strings, written as UTF-8 bytes.
use vstd::prelude::*;
use vstd::utf8::encode_utf8;

verus! {

/// The decimal digits of `n`, without leading zeros.
pub open spec fn decimal(n: nat) -> Seq<u8>
    decreases n,
{
    if n < 10 {
        seq![(48 + n) as u8]
    } else {
        decimal(n / 10).push((48 + n % 10) as u8)
    }
}

/// The decimal text of `x`, with a leading `-` when it is negative.
pub open spec fn signed_decimal(x: int) -> Seq<u8> {
    if x < 0 {
        seq![45u8] + decimal((-x) as nat)
    } else {
        decimal(x as nat)
    }
}

/// A lower-case hexadecimal digit.
pub open spec fn hex_digit(v: int) -> u8 {
    if v < 10 {
        (48 + v) as u8
    } else {
        (97 + v - 10) as u8
    }
}

/// How one byte of a string is written inside JSON quotes: quote and
/// backslash are escaped, the control bytes below 0x20 take their short
/// escape or `\u00XX`, and every other byte stands as it is.
pub open spec fn escape_byte(c: u8) -> Seq<u8> {
    if c == 34 {
        seq![92u8, 34u8]
    } else if c == 92 {
        seq![92u8, 92u8]
    } else if c == 8 {
        seq![92u8, 98u8]
    } else if c == 9 {
        seq![92u8, 116u8]
    } else if c == 10 {
        seq![92u8, 110u8]
    } else if c == 12 {
        seq![92u8, 102u8]
    } else if c == 13 {
        seq![92u8, 114u8]
    } else if c < 32 {
        seq![92u8, 117u8, 48u8, 48u8, hex_digit(c as int / 16), hex_digit(c as int % 16)]
    } else {
        seq![c]
    }
}

/// Escapes each byte in turn.
pub open spec fn escape(b: Seq<u8>) -> Seq<u8>
    decreases b.len(),
{
    if b.len() == 0 {
        Seq::empty()
    } else {
        escape(b.drop_last()) + escape_byte(b.last())
    }
}

/// A string as a JSON string literal: its UTF-8 bytes, escaped, in quotes.
pub open spec fn json_string(s: Seq<char>) -> Seq<u8> {
    seq![34u8] + escape(encode_utf8(s)) + seq![34u8]
}

/// Appends the decimal digits of `n`.
pub fn push_decimal(out: &mut Vec<u8>, n: u64)
    ensures
        final(out)@ == old(out)@ + decimal(n as nat),
    decreases n,
{
    if n >= 10 {
        push_decimal(out, n / 10);
    }
    let d: u8 = (n % 10) as u8;
    out.push(48 + d);
    proof {
        if n >= 10 {
            assert(decimal(n as nat) == decimal((n / 10) as nat).push((48 + n % 10) as u8));
        }
    }
    assert(final(out)@ =~= old(out)@ + decimal(n as nat));
}

/// Appends the decimal text of `x`, signed.
pub fn push_signed_decimal(out: &mut Vec<u8>, x: i64)
    ensures
        final(out)@ == old(out)@ + signed_decimal(x as int),
{
    if x < 0 {
        out.push(45u8);
        let magnitude: u64 = ((-(x + 1)) as u64) + 1;
        push_decimal(out, magnitude);
        assert(final(out)@ =~= old(out)@ + signed_decimal(x as int));
    } else {
        push_decimal(out, x as u64);
    }
}

/// Appends bytes.
pub fn push_bytes(out: &mut Vec<u8>, bytes: &[u8])
    ensures
        final(out)@ == old(out)@ + bytes@,
{
    let ghost start = out@;
    let n = bytes.len();
    let mut i: usize = 0;
    while i < n
        invariant
            n == bytes@.len(),
            i <= n,
            out@ == start + bytes@.take(i as int),
        decreases n - i,
    {
        out.push(bytes[i]);
        i = i + 1;
        assert(out@ =~= start + bytes@.take(i as int));
    }
    assert(bytes@.take(n as int) =~= bytes@);
}

/// Appends the UTF-8 bytes of `s`.
pub fn push_str(out: &mut Vec<u8>, s: &str)
    ensures
        final(out)@ == old(out)@ + encode_utf8(s@),
{
    push_bytes(out, s.as_bytes());
}

/// Appends `s` as a JSON string literal.
pub fn push_json_string(out: &mut Vec<u8>, s: &str)
    ensures
        final(out)@ == old(out)@ + json_string(s@),
{
    let ghost start = out@;
    let bytes = s.as_bytes();
    out.push(34u8);
    let n = bytes.len();
    let mut i: usize = 0;
    while i < n
        invariant
            n == bytes@.len(),
            i <= n,
            out@ == start + seq![34u8] + escape(bytes@.take(i as int)),
        decreases n - i,
    {
        let c = bytes[i];
        if c == 34 {
            out.push(92u8);
            out.push(34u8);
        } else if c == 92 {
            out.push(92u8);
            out.push(92u8);
        } else if c == 8 {
            out.push(92u8);
            out.push(98u8);
        } else if c == 9 {
            out.push(92u8);
            out.push(116u8);
        } else if c == 10 {
            out.push(92u8);
            out.push(110u8);
        } else if c == 12 {
            out.push(92u8);
            out.push(102u8);
        } else if c == 13 {
            out.push(92u8);
            out.push(114u8);
        } else if c < 32 {
            out.push(92u8);
            out.push(117u8);
            out.push(48u8);
            out.push(48u8);
            let hi: u8 = c / 16;
            let lo: u8 = c % 16;
            out.push(if hi < 10 { 48 + hi } else { 87 + hi });
            out.push(if lo < 10 { 48 + lo } else { 87 + lo });
        } else {
            out.push(c);
        }
        proof {
            let t = bytes@.take(i + 1);
            assert(t.drop_last() =~= bytes@.take(i as int));
            assert(t.last() == c);
        }
        i = i + 1;
        assert(out@ =~= start + seq![34u8] + escape(bytes@.take(i as int)));
    }
    out.push(34u8);
    assert(bytes@.take(n as int) =~= bytes@);
    assert(out@ =~= start + json_string(s@));
}

} // verus!
