//! Percent-encoding of storage keys, as done by the `urlencoding` crate, and
//! the checked decoding of a key taken from a request path.
use vstd::prelude::*;
use vstd::utf8::{
    decode_utf8, decode_utf8_encode_utf8, encode_utf8, encode_utf8_decode_utf8,
    encode_utf8_valid_utf8, partial_valid_utf8_extend_ascii_block, valid_utf8,
};

verus! {



/// Bytes that `urlencoding` leaves as they are: ASCII letters, digits and `-._~`.
pub open spec fn is_unreserved(b: u8) -> bool {
    (48 <= b <= 57) || (65 <= b <= 90) || (97 <= b <= 122) || b == 45 || b == 46 || b == 95
        || b == 126
}

/// The upper-case hexadecimal digit for a value below 16.
pub open spec fn hex_digit(d: u8) -> u8 {
    if d < 10 {
        (48 + d) as u8
    } else {
        (55 + d) as u8
    }
}

/// A hexadecimal digit in either case.
pub open spec fn is_hex(b: u8) -> bool {
    (48 <= b <= 57) || (65 <= b <= 70) || (97 <= b <= 102)
}

pub open spec fn hex_value(b: u8) -> int {
    if 48 <= b <= 57 {
        b - 48
    } else if 65 <= b <= 70 {
        b - 55
    } else {
        b - 87
    }
}

/// Percent-encoding of a byte string: unreserved bytes stay, every other byte
/// becomes `%` and two upper-case hex digits.
pub open spec fn pct_encode(b: Seq<u8>) -> Seq<u8>
    decreases b.len(),
{
    if b.len() == 0 {
        Seq::empty()
    } else {
        let rest = pct_encode(b.drop_first());
        if is_unreserved(b[0]) {
            seq![b[0]] + rest
        } else {
            seq![37u8, hex_digit(b[0] / 16), hex_digit(b[0] % 16)] + rest
        }
    }
}

/// Percent-decoding of a byte string: `%` and two hex digits give one byte;
/// any other byte, a stray `%` included, is kept.
pub open spec fn pct_decode(b: Seq<u8>) -> Seq<u8>
    decreases b.len(),
{
    if b.len() == 0 {
        Seq::empty()
    } else if b[0] == 37 && b.len() >= 3 && is_hex(b[1]) && is_hex(b[2]) {
        seq![(hex_value(b[1]) * 16 + hex_value(b[2])) as u8] + pct_decode(b.subrange(3, b.len() as int))
    } else {
        seq![b[0]] + pct_decode(b.drop_first())
    }
}

/// Every `%` in the bytes starts a complete escape of two hex digits.
pub open spec fn escapes_well_formed(b: Seq<u8>) -> bool
    decreases b.len(),
{
    if b.len() == 0 {
        true
    } else if b[0] == 37 {
        b.len() >= 3 && is_hex(b[1]) && is_hex(b[2]) && escapes_well_formed(
            b.subrange(3, b.len() as int),
        )
    } else {
        escapes_well_formed(b.drop_first())
    }
}

/// The encoded form of a key, as text.
pub open spec fn encoded_key(k: Seq<char>) -> Seq<char> {
    decode_utf8(pct_encode(encode_utf8(k)))
}

/// The key that an encoded path segment stands for, or `None` where its escapes
/// are malformed or the decoded bytes are not UTF-8.
pub open spec fn decoded_key(raw: Seq<char>) -> Option<Seq<char>> {
    let b = encode_utf8(raw);
    if escapes_well_formed(b) && valid_utf8(pct_decode(b)) {
        Some(decode_utf8(pct_decode(b)))
    } else {
        None
    }
}

/// Relies on urlencoding::encode: percent-encodes the UTF-8 bytes of the key.
#[verifier::external_body]
fn url_encode(key: &str) -> (r: String)
    ensures
        encode_utf8(r@) == pct_encode(encode_utf8(key@)),
{
    urlencoding::encode(key).into_owned()
}

/// Relies on urlencoding::decode: percent-decodes the bytes of `raw` and fails
/// exactly when the decoded bytes are not UTF-8.
#[verifier::external_body]
fn url_decode(raw: &str) -> (r: Option<String>)
    ensures
        r is Some <==> valid_utf8(pct_decode(encode_utf8(raw@))),
        r is Some ==> encode_utf8(r->Some_0@) == pct_decode(encode_utf8(raw@)),
{
    match urlencoding::decode(raw) {
        Ok(s) => Some(s.into_owned()),
        Err(_) => None,
    }
}

/// Percent-encodes a storage key for use in a URL path.
pub fn encode_key(key: &str) -> (r: String)
    ensures
        r@ == encoded_key(key@),
{
    let r = url_encode(key);
    proof {
        encode_utf8_decode_utf8(r@);
    }
    r
}

/// Checks that every `%` in the bytes starts a complete two-digit escape.
pub fn check_escapes(b: &[u8]) -> (r: bool)
    ensures
        r == escapes_well_formed(b@),
{
    let n = b.len();
    let mut i: usize = 0;
    assert(b@.subrange(0, n as int) =~= b@);
    while i < n
        invariant
            n == b@.len(),
            i <= n,
            escapes_well_formed(b@) == escapes_well_formed(b@.subrange(i as int, n as int)),
        decreases n - i,
    {
        let rest = Ghost(b@.subrange(i as int, n as int));
        if b[i] == 37 {
            if n - i > 2 && is_hex_byte(b[i + 1]) && is_hex_byte(b[i + 2]) {
                assert(rest@.subrange(3, rest@.len() as int) =~= b@.subrange(
                    i + 3,
                    n as int,
                ));
                i = i + 3;
            } else {
                return false;
            }
        } else {
            assert(rest@.drop_first() =~= b@.subrange(i + 1, n as int));
            i = i + 1;
        }
    }
    true
}

fn is_hex_byte(b: u8) -> (r: bool)
    ensures
        r == is_hex(b),
{
    (48 <= b && b <= 57) || (65 <= b && b <= 70) || (97 <= b && b <= 102)
}

/// Decodes a key taken from a request path. Fails where an escape is
/// malformed or the decoded bytes are not UTF-8.
pub fn decode_key(raw: &str) -> (r: Option<String>)
    ensures
        r is Some <==> decoded_key(raw@) is Some,
        r is Some ==> r->Some_0@ == decoded_key(raw@)->Some_0,
{
    if !check_escapes(raw.as_bytes()) {
        return None;
    }
    let d = url_decode(raw);
    match d {
        Some(k) => {
            proof {
                encode_utf8_decode_utf8(k@);
            }
            Some(k)
        },
        None => None,
    }
}

proof fn lemma_hex_digit(d: u8)
    requires
        d < 16,
    ensures
        is_hex(hex_digit(d)),
        hex_value(hex_digit(d)) == d,
        hex_digit(d) < 128,
        hex_digit(d) != 37,
{
}

/// The encoding of any bytes is ASCII, has only complete escapes, and
/// decodes back to those bytes.
proof fn lemma_pct_encode(b: Seq<u8>)
    ensures
        forall|i: int| 0 <= i < pct_encode(b).len() ==> #[trigger] pct_encode(b)[i] < 128,
        escapes_well_formed(pct_encode(b)),
        pct_decode(pct_encode(b)) == b,
    decreases b.len(),
{
    if b.len() > 0 {
        let rest = b.drop_first();
        lemma_pct_encode(rest);
        let e = pct_encode(b);
        let re = pct_encode(rest);
        if is_unreserved(b[0]) {
            assert(e.drop_first() =~= re);
            assert(pct_decode(e) =~= seq![b[0]] + pct_decode(re));
        } else {
            let hi = b[0] / 16;
            let lo = b[0] % 16;
            lemma_hex_digit(hi);
            lemma_hex_digit(lo);
            assert(e.subrange(3, e.len() as int) =~= re);
            assert((hex_value(e[1]) * 16 + hex_value(e[2])) as u8 == b[0]);
            assert(pct_decode(e) =~= seq![b[0]] + pct_decode(re));
        }
        assert(b =~= seq![b[0]] + rest);
    }
}

/// Decoding an encoded key gives the key back: for every key `k`, the path
/// segment `encode_key(k)` is accepted by `decode_key` and yields `k`.
pub proof fn lemma_key_round_trip(k: Seq<char>)
    ensures
        decoded_key(encoded_key(k)) == Some(k),
{
    let e = pct_encode(encode_utf8(k));
    lemma_pct_encode(encode_utf8(k));
    assert(e.subrange(0, 0) =~= Seq::<u8>::empty());
    partial_valid_utf8_extend_ascii_block(e, 0, e.len() as int);
    assert(e.subrange(0, e.len() as int) =~= e);
    decode_utf8_encode_utf8(e);
    encode_utf8_valid_utf8(k);
    encode_utf8_decode_utf8(k);
}

} // verus!
