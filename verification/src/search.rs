//! The search compiler: turns a free-text query into a safely escaped LIKE
//! pattern, and gives LIKE matching itself a meaning so that searched fetches
//! can promise exactly which rows they return.
//!
//! The pattern language is the one the generated SQL uses: `%` matches any
//! run of characters, `_` matches one character, and `!` escapes the
//! character after it.  A trailing lone `!` matches a literal `!`; compiled
//! patterns never end in a lone `!`.

use vstd::prelude::*;
use crate::strutil;

verus! {

/// How one query character is escaped: `!`, `%`, `_` and `[` are neutralized
/// (each in the style its pattern dialect demands), everything else is
/// kept as it is.
pub open spec fn spec_escape_char(c: char) -> Seq<char> {
    if c == '!' {
        seq!['!', '!']
    } else if c == '%' {
        seq!['%', '%']
    } else if c == '_' {
        seq!['!', '_']
    } else if c == '[' {
        seq!['!', '[']
    } else {
        seq![c]
    }
}

/// The whole query, escaped character by character.
pub open spec fn spec_escaped(s: Seq<char>) -> Seq<char>
    decreases s.len(),
{
    if s.len() == 0 {
        Seq::<char>::empty()
    } else {
        spec_escape_char(s[0]) + spec_escaped(s.drop_first())
    }
}

/// The compiled pattern: the escaped query wrapped in `%`...`%`.
pub open spec fn spec_search_pattern(q: Seq<char>) -> Seq<char> {
    seq!['%'] + spec_escaped(q) + seq!['%']
}

proof fn lemma_spec_escaped_push(s: Seq<char>, c: char)
    ensures
        spec_escaped(s.push(c)) == spec_escaped(s) + spec_escape_char(c),
    decreases s.len(),
{
    if s.len() == 0 {
        let sc = s.push(c);
        assert(sc[0] == c);
        assert(sc.drop_first() =~= s);
        assert(spec_escaped(s) =~= Seq::<char>::empty());
        assert(spec_escaped(sc) == spec_escape_char(c) + spec_escaped(s));
        assert(spec_escape_char(c) + spec_escaped(s) =~= spec_escape_char(c));
        assert(spec_escaped(s) + spec_escape_char(c) =~= spec_escape_char(c));
    } else {
        assert(s.push(c)[0] == s[0]);
        assert(s.push(c).drop_first() =~= s.drop_first().push(c));
        lemma_spec_escaped_push(s.drop_first(), c);
        assert(spec_escaped(s.push(c)) == spec_escape_char(s[0]) + spec_escaped(
            s.drop_first().push(c),
        ));
        assert(spec_escape_char(s[0]) + (spec_escaped(s.drop_first()) + spec_escape_char(c))
            =~= (spec_escape_char(s[0]) + spec_escaped(s.drop_first())) + spec_escape_char(c));
    }
}

/// Compiles a free-text query into the escaped, `%`-wrapped LIKE pattern.
pub fn gen_search_string(query: &str) -> (r: String)
    ensures
        r@ == spec_search_pattern(query@),
{
    let chars = strutil::str_to_chars(query);
    let mut out: Vec<char> = Vec::new();
    out.push('%');
    let mut i: usize = 0;
    while i < chars.len()
        invariant
            chars@ == query@,
            i <= chars@.len(),
            out@ =~= seq!['%'] + spec_escaped(chars@.subrange(0, i as int)),
        decreases chars@.len() - i,
    {
        let c = chars[i];
        if c == '!' {
            out.push('!');
            out.push('!');
        } else if c == '%' {
            out.push('%');
            out.push('%');
        } else if c == '_' {
            out.push('!');
            out.push('_');
        } else if c == '[' {
            out.push('!');
            out.push('[');
        } else {
            out.push(c);
        }
        proof {
            let pre = chars@.subrange(0, i as int);
            assert(chars@.subrange(0, i + 1 as int) =~= pre.push(chars@[i as int]));
            lemma_spec_escaped_push(pre, chars@[i as int]);
            assert(out@ =~= seq!['%'] + spec_escaped(chars@.subrange(0, i + 1 as int)));
        }
        i = i + 1;
    }
    out.push('%');
    proof {
        assert(chars@.subrange(0, chars@.len() as int) =~= chars@);
        assert(out@ =~= spec_search_pattern(query@));
    }
    strutil::chars_to_string(&out)
}

/// What it means for pattern `p` to match text `t`: `%` matches any run,
/// `_` matches one character, `!` makes the next character literal.
pub open spec fn spec_like_match(p: Seq<char>, t: Seq<char>) -> bool
    decreases p.len(), t.len(),
{
    if p.len() == 0 {
        t.len() == 0
    } else if p[0] == '%' {
        spec_like_match(p.drop_first(), t) || (t.len() > 0 && spec_like_match(p, t.drop_first()))
    } else if p[0] == '!' && p.len() >= 2 {
        t.len() > 0 && t[0] == p[1] && spec_like_match(p.skip(2), t.drop_first())
    } else if p[0] == '_' {
        t.len() > 0 && spec_like_match(p.drop_first(), t.drop_first())
    } else {
        t.len() > 0 && t[0] == p[0] && spec_like_match(p.drop_first(), t.drop_first())
    }
}

fn like_match_at(p: &Vec<char>, t: &Vec<char>, pi: usize, ti: usize) -> (r: bool)
    requires
        pi <= p@.len(),
        ti <= t@.len(),
    ensures
        r == spec_like_match(p@.skip(pi as int), t@.skip(ti as int)),
    decreases p@.len() - pi, t@.len() - ti,
{
    let ghost sp = p@.skip(pi as int);
    let ghost st = t@.skip(ti as int);
    if pi == p.len() {
        proof {
            assert(sp.len() == 0);
        }
        ti == t.len()
    } else {
        proof {
            assert(sp[0] == p@[pi as int]);
            assert(sp.drop_first() =~= p@.skip(pi + 1 as int));
            if pi + 2 <= p@.len() {
                assert(sp.skip(2) =~= p@.skip(pi + 2 as int));
            }
            if ti < t@.len() {
                assert(st[0] == t@[ti as int]);
                assert(st.drop_first() =~= t@.skip(ti + 1 as int));
            }
        }
        let pc = p[pi];
        if pc == '%' {
            if like_match_at(p, t, pi + 1, ti) {
                true
            } else if ti < t.len() {
                like_match_at(p, t, pi, ti + 1)
            } else {
                false
            }
        } else if pc == '!' && pi + 1 < p.len() {
            if ti < t.len() && t[ti] == p[pi + 1] {
                like_match_at(p, t, pi + 2, ti + 1)
            } else {
                false
            }
        } else if pc == '_' {
            if ti < t.len() {
                like_match_at(p, t, pi + 1, ti + 1)
            } else {
                false
            }
        } else {
            if ti < t.len() && t[ti] == pc {
                like_match_at(p, t, pi + 1, ti + 1)
            } else {
                false
            }
        }
    }
}

/// Whether `pattern` matches `text`, exactly as `spec_like_match` says.
pub fn like_match(pattern: &Vec<char>, text: &Vec<char>) -> (r: bool)
    ensures
        r == spec_like_match(pattern@, text@),
{
    let r = like_match_at(pattern, text, 0, 0);
    proof {
        assert(pattern@.skip(0) =~= pattern@);
        assert(text@.skip(0) =~= text@);
    }
    r
}

/// The search semantics of a fetch: the compiled pattern of the query,
/// matched case-insensitively (ASCII) against the key.
pub open spec fn spec_search_matches(query: Seq<char>, key: Seq<char>) -> bool {
    spec_like_match(strutil::spec_lower(spec_search_pattern(query)), strutil::spec_lower(key))
}

/// Whether the key of a row matches a free-text query, case-insensitively.
pub fn search_matches(query: &str, key: &str) -> (r: bool)
    ensures
        r == spec_search_matches(query@, key@),
{
    let pattern = gen_search_string(query);
    let pchars = strutil::lower_chars(&strutil::str_to_chars(pattern.as_str()));
    let kchars = strutil::lower_chars(&strutil::str_to_chars(key));
    like_match(&pchars, &kchars)
}

} // verus!
