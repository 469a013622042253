//! Hex encoding and decoding of ciphertext bytes, with exact meanings for
//! both directions and a round-trip law.
//!
//! The encoding itself is done by the `hex` crate; this module pins down what
//! that crate computes.

use vstd::prelude::*;
use crate::naming::spec_digit_char;

verus! {

/// Whether `c` is a hex digit in either case.
pub open spec fn is_hex_digit(c: char) -> bool {
    ||| ('0' <= c && c <= '9')
    ||| ('a' <= c && c <= 'f')
    ||| ('A' <= c && c <= 'F')
}

/// The numeric value of a hex digit.
pub open spec fn hex_val(c: char) -> int {
    if '0' <= c && c <= '9' {
        c as int - '0' as int
    } else if 'a' <= c && c <= 'f' {
        c as int - 'a' as int + 10
    } else {
        c as int - 'A' as int + 10
    }
}

/// The lowercase hex digit for a value below 16.
pub open spec fn hex_char_lower(d: int) -> char {
    if d < 10 {
        spec_digit_char(d as nat)
    } else if d == 10 {
        'a'
    } else if d == 11 {
        'b'
    } else if d == 12 {
        'c'
    } else if d == 13 {
        'd'
    } else if d == 14 {
        'e'
    } else {
        'f'
    }
}

/// A string decodes as hex exactly when its length is even and every
/// character is a hex digit.
pub open spec fn valid_hex(s: Seq<char>) -> bool {
    &&& s.len() % 2 == 0
    &&& forall|i: int| 0 <= i < s.len() ==> is_hex_digit(#[trigger] s[i])
}

/// The bytes an (even-length) hex string stands for, two digits per byte.
pub open spec fn spec_hex_decode(s: Seq<char>) -> Seq<u8>
    decreases s.len(),
{
    if s.len() < 2 {
        Seq::<u8>::empty()
    } else {
        seq![(16 * hex_val(s[0]) + hex_val(s[1])) as u8] + spec_hex_decode(s.skip(2))
    }
}

/// The lowercase hex rendering of a byte string, two digits per byte.
pub open spec fn spec_hex_encode(b: Seq<u8>) -> Seq<char>
    decreases b.len(),
{
    if b.len() == 0 {
        Seq::<char>::empty()
    } else {
        seq![hex_char_lower(b[0] as int / 16), hex_char_lower(b[0] as int % 16)]
            + spec_hex_encode(b.drop_first())
    }
}

pub proof fn lemma_spec_hex_encode_len(b: Seq<u8>)
    ensures
        spec_hex_encode(b).len() == 2 * b.len(),
    decreases b.len(),
{
    if b.len() > 0 {
        lemma_spec_hex_encode_len(b.drop_first());
    }
}

/// Encoding always yields a decodable string, and decoding it gives the
/// original bytes back.
pub proof fn lemma_hex_round_trip(b: Seq<u8>)
    ensures
        valid_hex(spec_hex_encode(b)),
        spec_hex_decode(spec_hex_encode(b)) == b,
    decreases b.len(),
{
    lemma_spec_hex_encode_len(b);
    if b.len() == 0 {
        assert(spec_hex_decode(spec_hex_encode(b)) =~= b);
    } else {
        let e = spec_hex_encode(b);
        let rest = spec_hex_encode(b.drop_first());
        lemma_hex_round_trip(b.drop_first());
        let hi = b[0] as int / 16;
        let lo = b[0] as int % 16;
        assert(0 <= hi < 16 && 0 <= lo < 16);
        assert(is_hex_digit(hex_char_lower(hi)));
        assert(is_hex_digit(hex_char_lower(lo)));
        assert(e[0] == hex_char_lower(hi));
        assert(e[1] == hex_char_lower(lo));
        assert forall|i: int| 0 <= i < e.len() implies is_hex_digit(#[trigger] e[i]) by {
            if i >= 2 {
                assert(e[i] == rest[i - 2]);
            }
        }
        assert(hex_val(hex_char_lower(hi)) == hi);
        assert(hex_val(hex_char_lower(lo)) == lo);
        assert(16 * hi + lo == b[0] as int);
        assert(e.skip(2) =~= rest);
        assert(spec_hex_decode(e) == seq![b[0]] + spec_hex_decode(rest));
        assert(seq![b[0]] + b.drop_first() =~= b);
    }
}

/// Relies on `hex::encode`: each input byte becomes two lowercase hex
/// digits, in input order.
#[verifier::external_body]
pub fn hex_encode(b: &Vec<u8>) -> (r: String)
    ensures
        r@ == spec_hex_encode(b@),
{
    hex::encode(b)
}

/// Relies on `hex::decode`: it succeeds exactly on even-length strings of
/// hex digits (either case) and then yields one byte per digit pair.
#[verifier::external_body]
pub fn hex_decode(s: &str) -> (r: Option<Vec<u8>>)
    ensures
        match r {
            Some(v) => valid_hex(s@) && v@ == spec_hex_decode(s@),
            None => !valid_hex(s@),
        },
{
    hex::decode(s).ok()
}

} // verus!
