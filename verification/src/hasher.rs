//! Digests as text: SHA-256 of some bytes, written in standard base64.
use vstd::prelude::*;
use vstd::utf8::encode_utf8;
use sha2::Digest;
use base64::Engine;

verus! {

/// The SHA-256 digest of `data`.
pub uninterp spec fn sha256(data: Seq<u8>) -> Seq<u8>;

/// Trusted: `sha2::Sha256::digest` returns the SHA-256 digest of its input,
/// which is 32 bytes long.
#[verifier::external_body]
fn sha256_digest(data: &[u8]) -> (r: Vec<u8>)
    ensures
        r@ == sha256(data@),
        r@.len() == 32,
{
    sha2::Sha256::digest(data).to_vec()
}

/// The character of the standard base64 alphabet (RFC 4648) for a 6-bit value.
pub open spec fn base64_digit(v: int) -> char {
    if v < 26 {
        (65 + v) as char
    } else if v < 52 {
        (97 + v - 26) as char
    } else if v < 62 {
        (48 + v - 52) as char
    } else if v == 62 {
        '+'
    } else {
        '/'
    }
}

/// Standard base64 with padding: each group of three bytes becomes four
/// characters; a last group of one or two bytes is padded with `=`.
#[verifier::opaque]
pub open spec fn base64_standard(b: Seq<u8>) -> Seq<char>
    decreases b.len(),
{
    if b.len() == 0 {
        Seq::empty()
    } else {
        let b0 = b[0] as int;
        let b1 = if b.len() > 1 { b[1] as int } else { 0 };
        let b2 = if b.len() > 2 { b[2] as int } else { 0 };
        let c0 = base64_digit(b0 / 4);
        let c1 = base64_digit((b0 % 4) * 16 + b1 / 16);
        let c2 = base64_digit((b1 % 16) * 4 + b2 / 64);
        let c3 = base64_digit(b2 % 64);
        if b.len() == 1 {
            seq![c0, c1, '=', '=']
        } else if b.len() == 2 {
            seq![c0, c1, c2, '=']
        } else {
            seq![c0, c1, c2, c3] + base64_standard(b.skip(3))
        }
    }
}

/// Trusted: `base64`'s `STANDARD` engine encodes with the RFC 4648 standard
/// alphabet and `=` padding. It panics only when the output length overflows
/// `usize`, which the bound on the input rules out.
#[verifier::external_body]
fn base64_encode(data: &[u8]) -> (r: String)
    requires
        data@.len() < usize::MAX / 2,
    ensures
        r@ == base64_standard(data@),
{
    base64::engine::general_purpose::STANDARD.encode(data)
}

/// The hash text of some bytes: their SHA-256 digest in standard base64.
pub open spec fn digest_text(data: Seq<u8>) -> Seq<char> {
    base64_standard(sha256(data))
}

/// A character of the standard base64 alphabet: `A`-`Z`, `a`-`z`, `0`-`9`,
/// `+` or `/` (not the padding `=`).
pub open spec fn is_base64_char(c: char) -> bool {
    ||| 'A' <= c <= 'Z'
    ||| 'a' <= c <= 'z'
    ||| '0' <= c <= '9'
    ||| c == '+'
    ||| c == '/'
}

/// The shape of the base64 text of `3k + 2` bytes: `4k + 4` characters,
/// all of the alphabet but the last, which is a single `=`.
pub open spec fn padded_once(s: Seq<char>, k: nat) -> bool {
    &&& s.len() == 4 * k + 4
    &&& s.last() == '='
    &&& forall|i: int| 0 <= i < s.len() - 1 ==> is_base64_char(#[trigger] s[i])
}

proof fn lemma_base64_digit(v: int)
    requires
        0 <= v < 64,
    ensures
        is_base64_char(base64_digit(v)),
{
}

/// Bytes whose count is two more than a multiple of three encode to text
/// padded with a single `=`.
pub proof fn lemma_base64_padded_once(b: Seq<u8>)
    requires
        b.len() % 3 == 2,
    ensures
        padded_once(base64_standard(b), b.len() / 3),
    decreases b.len(),
{
    reveal(base64_standard);
    let b0 = b[0] as int;
    let b1 = b[1] as int;
    let b2 = if b.len() > 2 { b[2] as int } else { 0 };
    lemma_base64_digit(b0 / 4);
    lemma_base64_digit((b0 % 4) * 16 + b1 / 16);
    lemma_base64_digit((b1 % 16) * 4 + b2 / 64);
    lemma_base64_digit(b2 % 64);
    if b.len() > 2 {
        let rest = b.skip(3);
        lemma_base64_padded_once(rest);
        let head = seq![
            base64_digit(b0 / 4),
            base64_digit((b0 % 4) * 16 + b1 / 16),
            base64_digit((b1 % 16) * 4 + b2 / 64),
            base64_digit(b2 % 64),
        ];
        let s = head + base64_standard(rest);
        assert(base64_standard(b) == s);
        assert forall|i: int| 0 <= i < s.len() - 1 implies is_base64_char(#[trigger] s[i]) by {
            if i >= 4 {
                assert(s[i] == base64_standard(rest)[i - 4]);
            }
        }
    }
}

/// A hash text is 44 characters of the base64 alphabet ending in a single
/// `=`: the 32 bytes of a SHA-256 digest, padded once.
pub open spec fn is_hash_text(s: Seq<char>) -> bool {
    &&& s.len() == 44
    &&& s[43] == '='
    &&& forall|i: int| 0 <= i < 43 ==> is_base64_char(#[trigger] s[i])
}

/// Hashes bytes to text.
pub fn hash_bytes(data: &[u8]) -> (r: String)
    ensures
        r@ == digest_text(data@),
        sha256(data@).len() == 32,
        is_hash_text(r@),
{
    let digest = sha256_digest(data);
    let r = base64_encode(digest.as_slice());
    proof {
        lemma_base64_padded_once(digest@);
    }
    r
}

/// Hashes a string, by its UTF-8 bytes.
pub fn hash_string(s: &str) -> (r: String)
    ensures
        r@ == digest_text(encode_utf8(s@)),
        is_hash_text(r@),
{
    hash_bytes(s.as_bytes())
}

} // verus!
