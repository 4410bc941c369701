//! SHA-256 digests rendered as lowercase hexadecimal.

use crate::text::push_char;
use sha2::Digest;
use vstd::prelude::*;

verus! {

/// The SHA-256 digest of a byte sequence.
pub uninterp spec fn sha256_spec(data: Seq<u8>) -> Seq<u8>;

/// `sha2::Sha256::digest`: the digest of `data`, which is 32 bytes long.
/// Trusted: the result is taken to be `sha256_spec(data)`, a function of
/// `data` alone, and its length to be the 32 bytes that SHA-256 produces.
#[verifier::external_body]
fn sha256(data: &[u8]) -> (r: Vec<u8>)
    ensures
        r@ == sha256_spec(data@),
        r@.len() == 32,
{
    sha2::Sha256::digest(data).to_vec()
}

/// The lowercase hex digit for `d` (0..=15).
pub open spec fn hex_digit(d: nat) -> char {
    if d < 10 {
        crate::text::digit_char(d)
    } else if d == 10 {
        'a'
    } else if d == 11 {
        'b'
    } else if d == 12 {
        'c'
    } else if d == 13 {
        'd'
    } else if d == 14 {
        'e'
    } else {
        'f'
    }
}

/// Two lowercase hex digits per byte, most significant nibble first.
pub open spec fn hex_lower(data: Seq<u8>) -> Seq<char>
    decreases data.len(),
{
    if data.len() == 0 {
        Seq::empty()
    } else {
        seq![hex_digit((data[0] / 16) as nat), hex_digit((data[0] % 16) as nat)] + hex_lower(
            data.drop_first(),
        )
    }
}

fn hex_digit_of(d: u8) -> (c: char)
    requires
        d < 16,
    ensures
        c == hex_digit(d as nat),
{
    if d < 10 {
        if d == 0 {
            '0'
        } else if d == 1 {
            '1'
        } else if d == 2 {
            '2'
        } else if d == 3 {
            '3'
        } else if d == 4 {
            '4'
        } else if d == 5 {
            '5'
        } else if d == 6 {
            '6'
        } else if d == 7 {
            '7'
        } else if d == 8 {
            '8'
        } else {
            '9'
        }
    } else if d == 10 {
        'a'
    } else if d == 11 {
        'b'
    } else if d == 12 {
        'c'
    } else if d == 13 {
        'd'
    } else if d == 14 {
        'e'
    } else {
        'f'
    }
}

/// Lowercase hex rendering of bytes (`format!("{:x}", ..)` of a digest).
pub fn to_hex_lower(data: &[u8]) -> (r: String)
    ensures
        r@ == hex_lower(data@),
{
    let mut r = String::new();
    let n = data.len();
    assert(data@.skip(0) == data@);
    for i in 0..n
        invariant
            n == data@.len(),
            hex_lower(data@) == r@ + hex_lower(data@.skip(i as int)),
    {
        let b = data[i];
        let ghost before = r@;
        push_char(&mut r, hex_digit_of(b / 16));
        push_char(&mut r, hex_digit_of(b % 16));
        assert(data@.skip(i as int).drop_first() == data@.skip(i + 1));
        assert(data@.skip(i as int)[0] == b);
        assert(r@ == before + seq![hex_digit((b / 16) as nat), hex_digit((b % 16) as nat)]);
    }
    assert(data@.skip(n as int).len() == 0);
    r
}

/// The SHA-256 digest of the UTF-8 encoding of a text, as lowercase hex.
pub open spec fn sha256_hex_of_text(t: Seq<char>) -> Seq<char> {
    hex_lower(sha256_spec(vstd::utf8::encode_utf8(t)))
}

/// Lowercase hex SHA-256 of the UTF-8 bytes of `s`.
pub fn sha256_hex(s: &str) -> (r: String)
    ensures
        r@ == sha256_hex_of_text(s@),
        r@.len() == 64,
{
    let d = sha256(s.as_bytes());
    proof {
        lemma_hex_len(d@);
    }
    to_hex_lower(d.as_slice())
}

/// Lowercase hex SHA-256 of a byte sequence.
pub fn sha256_hex_of_bytes(data: &[u8]) -> (r: String)
    ensures
        r@ == hex_lower(sha256_spec(data@)),
        r@.len() == 64,
{
    let d = sha256(data);
    proof {
        lemma_hex_len(d@);
    }
    to_hex_lower(d.as_slice())
}

proof fn lemma_hex_len(data: Seq<u8>)
    ensures
        hex_lower(data).len() == 2 * data.len(),
    decreases data.len(),
{
    if data.len() > 0 {
        lemma_hex_len(data.drop_first());
    }
}

} // verus!
