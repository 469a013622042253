//! Small executable helpers for moving between `String`, `&str` and
//! `Vec<char>`, plus ASCII lowercasing.

use vstd::prelude::*;
use vstd::string::StrSliceExecFns;

verus! {

/// The characters of `s` as a vector.
pub fn str_to_chars(s: &str) -> (r: Vec<char>)
    ensures
        r@ == s@,
{
    let len = s.unicode_len();
    let mut r: Vec<char> = Vec::new();
    let mut i: usize = 0;
    while i < len
        invariant
            len == s@.len(),
            i <= len,
            r@ =~= s@.subrange(0, i as int),
        decreases len - i,
    {
        r.push(s.get_char(i));
        i = i + 1;
    }
    assert(r@ =~= s@);
    r
}

/// Relies on `String: FromIterator<char>`: collecting an iterator of
/// characters yields the string with exactly those characters in order.
#[verifier::external_body]
pub fn chars_to_string(v: &Vec<char>) -> (r: String)
    ensures
        r@ == v@,
{
    v.iter().collect()
}

/// ASCII lowercasing of a single character; everything else is untouched.
pub open spec fn spec_lower_char(c: char) -> char {
    if 'A' <= c && c <= 'Z' {
        ((c as u8) + 32) as char
    } else {
        c
    }
}

/// ASCII lowercasing of a whole string, character by character.
pub open spec fn spec_lower(s: Seq<char>) -> Seq<char> {
    s.map_values(|c: char| spec_lower_char(c))
}

/// Lowercases the ASCII letters of `s`.
pub fn lower_chars(s: &Vec<char>) -> (r: Vec<char>)
    ensures
        r@ == spec_lower(s@),
{
    let mut r: Vec<char> = Vec::new();
    let mut i: usize = 0;
    while i < s.len()
        invariant
            i <= s@.len(),
            r@ =~= s@.subrange(0, i as int).map_values(|c: char| spec_lower_char(c)),
        decreases s@.len() - i,
    {
        let c = s[i];
        if 'A' <= c && c <= 'Z' {
            r.push(((c as u8) + 32) as char);
        } else {
            r.push(c);
        }
        assert(s@.subrange(0, i + 1 as int).drop_last() =~= s@.subrange(0, i as int));
        i = i + 1;
    }
    assert(s@.subrange(0, s@.len() as int) =~= s@);
    r
}

} // verus!
