//! CSV reading and writing, and the CSV bridge over the vault table
//! manager: export of a fetched table and import into an existing table's
//! shape.
//!
//! The format is the usual comma-separated one: fields that hold a comma, a
//! quote or a line break are wrapped in double quotes with inner quotes
//! doubled; records end in a line feed (a carriage-return line feed is
//! accepted when reading).  Both directions are given exact meanings here,
//! and proved to invert each other.

use vstd::prelude::*;
use crate::crypt::{spec_decrypt, DecryptionError, KeyPair};
use crate::data::VaultTable;
use crate::database::{StoredRow, StoredTable, VaultDb};
use crate::errors::VaultError;
use crate::strutil;

verus! {

/// Whether a field must be quoted when written.
pub open spec fn spec_csv_needs_quote(f: Seq<char>) -> bool {
    f.contains(',') || f.contains('"') || f.contains('\n') || f.contains('\r')
}

/// One field character as written inside quotes: a quote is doubled.
pub open spec fn spec_csv_qchar(c: char) -> Seq<char> {
    if c == '"' {
        seq!['"', '"']
    } else {
        seq![c]
    }
}

/// A field's characters as written inside quotes.
pub open spec fn spec_csv_escape(f: Seq<char>) -> Seq<char>
    decreases f.len(),
{
    if f.len() == 0 {
        Seq::<char>::empty()
    } else {
        spec_csv_qchar(f[0]) + spec_csv_escape(f.drop_first())
    }
}

/// A field as written: quoted and escaped when it needs quoting, bare
/// otherwise.
pub open spec fn spec_csv_field(f: Seq<char>) -> Seq<char> {
    if spec_csv_needs_quote(f) {
        seq!['"'] + spec_csv_escape(f) + seq!['"']
    } else {
        f
    }
}

/// A record as written: its fields joined by commas, without a terminator.
pub open spec fn spec_csv_record(r: Seq<Seq<char>>) -> Seq<char>
    decreases r.len(),
{
    if r.len() == 0 {
        Seq::<char>::empty()
    } else if r.len() == 1 {
        spec_csv_field(r[0])
    } else {
        spec_csv_field(r[0]) + seq![','] + spec_csv_record(r.drop_first())
    }
}

/// A whole CSV text: each record followed by a line feed.
pub open spec fn spec_csv_encode(rs: Seq<Seq<Seq<char>>>) -> Seq<char>
    decreases rs.len(),
{
    if rs.len() == 0 {
        Seq::<char>::empty()
    } else {
        spec_csv_record(rs[0]) + seq!['\n'] + spec_csv_encode(rs.drop_first())
    }
}

/// Whether a field must be quoted.
fn field_needs_quote(f: &String) -> (r: bool)
    ensures
        r == spec_csv_needs_quote(f@),
{
    let chars = strutil::str_to_chars(f.as_str());
    let mut i: usize = 0;
    while i < chars.len()
        invariant
            chars@ == f@,
            i <= chars@.len(),
            forall|m: int|
                0 <= m < i ==> {
                    let c = #[trigger] chars@[m];
                    c != ',' && c != '"' && c != '\n' && c != '\r'
                },
        decreases chars@.len() - i,
    {
        let c = chars[i];
        if c == ',' || c == '"' || c == '\n' || c == '\r' {
            assert(f@.contains(c));
            return true;
        }
        i = i + 1;
    }
    proof {
        if spec_csv_needs_quote(f@) {
            assert(false) by {
                if f@.contains(',') {
                    let m = choose|m: int| 0 <= m < f@.len() && f@[m] == ',';
                    assert(chars@[m] == ',');
                } else if f@.contains('"') {
                    let m = choose|m: int| 0 <= m < f@.len() && f@[m] == '"';
                    assert(chars@[m] == '"');
                } else if f@.contains('\n') {
                    let m = choose|m: int| 0 <= m < f@.len() && f@[m] == '\n';
                    assert(chars@[m] == '\n');
                } else {
                    let m = choose|m: int| 0 <= m < f@.len() && f@[m] == '\r';
                    assert(chars@[m] == '\r');
                }
            }
        }
    }
    false
}

/// Appends one written field to `out`.
fn encode_field(f: &String, out: &mut Vec<char>)
    ensures
        final(out)@ == old(out)@ + spec_csv_field(f@),
{
    let chars = strutil::str_to_chars(f.as_str());
    if field_needs_quote(f) {
        out.push('"');
        let mut i: usize = 0;
        proof {
            assert(chars@.skip(0) =~= chars@);
        }
        while i < chars.len()
            invariant
                chars@ == f@,
                i <= chars@.len(),
                out@ == old(out)@ + seq!['"'] + spec_csv_escape(chars@.subrange(0, i as int)),
                spec_csv_escape(f@) == spec_csv_escape(chars@.subrange(0, i as int))
                    + spec_csv_escape(chars@.skip(i as int)),
            decreases chars@.len() - i,
        {
            let ghost pre = chars@.subrange(0, i as int);
            let ghost suf = chars@.skip(i as int);
            proof {
                assert(suf[0] == chars@[i as int]);
                assert(suf.drop_first() =~= chars@.skip(i + 1 as int));
                assert(chars@.subrange(0, i + 1 as int) =~= pre + spec_seq_one(chars@[i as int]));
                lemma_csv_escape_append(pre, spec_seq_one(chars@[i as int]));
                assert(spec_seq_one(chars@[i as int])[0] == chars@[i as int]);
                assert(spec_seq_one(chars@[i as int]).drop_first() =~= Seq::<char>::empty());
                assert(spec_csv_escape(Seq::<char>::empty()) =~= Seq::<char>::empty());
                assert(spec_csv_escape(spec_seq_one(chars@[i as int])) =~= spec_csv_qchar(
                    chars@[i as int],
                ));
            }
            let c = chars[i];
            if c == '"' {
                out.push('"');
                out.push('"');
            } else {
                out.push(c);
            }
            proof {
                assert(out@ =~= old(out)@ + seq!['"'] + spec_csv_escape(
                    chars@.subrange(0, i + 1 as int),
                ));
            }
            i = i + 1;
        }
        out.push('"');
        proof {
            assert(chars@.subrange(0, chars@.len() as int) =~= chars@);
            assert(chars@.skip(chars@.len() as int).len() == 0);
            assert(spec_csv_escape(chars@.skip(chars@.len() as int)) =~= Seq::<char>::empty());
            assert(spec_csv_escape(f@) =~= spec_csv_escape(chars@));
            assert(final(out)@ =~= old(out)@ + spec_csv_field(f@));
        }
    } else {
        let mut i: usize = 0;
        while i < chars.len()
            invariant
                chars@ == f@,
                i <= chars@.len(),
                out@ == old(out)@ + chars@.subrange(0, i as int),
            decreases chars@.len() - i,
        {
            out.push(chars[i]);
            proof {
                assert(out@ =~= old(out)@ + chars@.subrange(0, i + 1 as int));
            }
            i = i + 1;
        }
        proof {
            assert(chars@.subrange(0, chars@.len() as int) =~= chars@);
            assert(final(out)@ =~= old(out)@ + spec_csv_field(f@));
        }
    }
}

/// A one-character sequence.
pub open spec fn spec_seq_one(c: char) -> Seq<char> {
    seq![c]
}

/// Escaping distributes over concatenation.
pub proof fn lemma_csv_escape_append(a: Seq<char>, b: Seq<char>)
    ensures
        spec_csv_escape(a + b) == spec_csv_escape(a) + spec_csv_escape(b),
    decreases a.len(),
{
    if a.len() == 0 {
        assert(a + b =~= b);
        assert(spec_csv_escape(a) =~= Seq::<char>::empty());
        assert(spec_csv_escape(a) + spec_csv_escape(b) =~= spec_csv_escape(b));
    } else {
        assert((a + b)[0] == a[0]);
        assert((a + b).drop_first() =~= a.drop_first() + b);
        lemma_csv_escape_append(a.drop_first(), b);
        assert(spec_csv_escape(a + b) == spec_csv_qchar(a[0]) + (spec_csv_escape(a.drop_first())
            + spec_csv_escape(b)));
        assert(spec_csv_qchar(a[0]) + (spec_csv_escape(a.drop_first()) + spec_csv_escape(b)) =~= (
        spec_csv_qchar(a[0]) + spec_csv_escape(a.drop_first())) + spec_csv_escape(b));
    }
}

/// The written form of one record of `String` fields.
pub open spec fn spec_record_view(r: Vec<String>) -> Seq<Seq<char>> {
    r@.map_values(|f: String| f@)
}

/// The written form of a list of records of `String` fields.
pub open spec fn spec_records_view(v: Seq<Vec<String>>) -> Seq<Seq<Seq<char>>> {
    v.map_values(|r: Vec<String>| spec_record_view(r))
}

/// Appends one written record (without terminator) to `out`.
fn encode_record(r: &Vec<String>, out: &mut Vec<char>)
    requires
        r@.len() > 0,
    ensures
        final(out)@ == old(out)@ + spec_csv_record(spec_record_view(*r)),
{
    let ghost rv = spec_record_view(*r);
    let ghost base = old(out)@.len() as int;
    let mut i: usize = 0;
    while i < r.len()
        invariant
            rv == spec_record_view(*r),
            base == old(out)@.len() as int,
            rv.len() == r@.len(),
            r@.len() > 0,
            i <= r@.len(),
            out@.len() >= old(out)@.len(),
            out@.subrange(0, base) == old(out)@,
            i == 0 ==> out@ == old(out)@,
            1 <= i < r@.len() ==> spec_csv_record(rv) == out@.skip(base) + seq![',']
                + spec_csv_record(rv.skip(i as int)),
            i == r@.len() ==> out@ == old(out)@ + spec_csv_record(rv),
        decreases r@.len() - i,
    {
        let ghost suf = rv.skip(i as int);
        let ghost out0 = out@;
        let ghost emitted0 = out@.skip(base);
        proof {
            assert(suf[0] == rv[i as int]);
            assert(rv[i as int] == r@[i as int]@);
            assert(suf.drop_first() =~= rv.skip(i + 1 as int));
            assert(out0 =~= old(out)@ + emitted0);
        }
        if i > 0 {
            out.push(',');
        }
        encode_field(&r[i], out);
        proof {
            let fld = spec_csv_field(rv[i as int]);
            if i == 0 {
                assert(rv.skip(0) =~= rv);
                assert(out@ =~= old(out)@ + fld);
                if r@.len() == 1 {
                    assert(spec_csv_record(rv) == fld);
                } else {
                    assert(spec_csv_record(rv) == fld + seq![','] + spec_csv_record(
                        rv.drop_first(),
                    ));
                    assert(rv.drop_first() =~= rv.skip(1));
                    assert(out@.skip(base) =~= fld);
                }
            } else {
                assert(out@ =~= out0 + seq![','] + fld);
                assert(out@.skip(base) =~= emitted0 + seq![','] + fld);
                assert(out@.subrange(0, base) =~= old(out)@);
                if i + 1 == r@.len() {
                    assert(suf.len() == 1);
                    assert(spec_csv_record(suf) == spec_csv_field(suf[0]));
                    assert(spec_csv_record(rv) =~= emitted0 + seq![','] + fld);
                    assert(out@ =~= old(out)@ + (emitted0 + seq![','] + fld));
                } else {
                    assert(spec_csv_record(suf) == spec_csv_field(suf[0]) + seq![',']
                        + spec_csv_record(suf.drop_first()));
                    assert(spec_csv_record(rv) =~= (emitted0 + seq![','] + fld) + seq![',']
                        + spec_csv_record(rv.skip(i + 1 as int)));
                }
            }
        }
        i = i + 1;
    }
    proof {
        assert(final(out)@ == old(out)@ + spec_csv_record(spec_record_view(*r)));
    }
}

/// Builds the whole CSV text for a list of records.
pub fn encode_records(records: &Vec<Vec<String>>) -> (r: Vec<char>)
    requires
        forall|a: int| 0 <= a < records@.len() ==> (#[trigger] records@[a])@.len() > 0,
    ensures
        r@ == spec_csv_encode(spec_records_view(records@)),
{
    let ghost rsv = spec_records_view(records@);
    let mut out: Vec<char> = Vec::new();
    let mut i: usize = 0;
    proof {
        assert(rsv.skip(0) =~= rsv);
    }
    while i < records.len()
        invariant
            rsv == spec_records_view(records@),
            rsv.len() == records@.len(),
            forall|a: int| 0 <= a < records@.len() ==> (#[trigger] records@[a])@.len() > 0,
            i <= records@.len(),
            spec_csv_encode(rsv) == out@ + spec_csv_encode(rsv.skip(i as int)),
        decreases records@.len() - i,
    {
        let ghost suf = rsv.skip(i as int);
        proof {
            assert(suf[0] == rsv[i as int]);
            assert(rsv[i as int] == spec_record_view(records@[i as int]));
            assert(suf.drop_first() =~= rsv.skip(i + 1 as int));
        }
        encode_record(&records[i], &mut out);
        out.push('\n');
        proof {
            assert(spec_csv_encode(suf) == spec_csv_record(suf[0]) + seq!['\n'] + spec_csv_encode(
                suf.drop_first(),
            ));
            assert(spec_csv_encode(rsv) =~= out@ + spec_csv_encode(rsv.skip(i + 1 as int)));
        }
        i = i + 1;
    }
    proof {
        assert(rsv.skip(rsv.len() as int).len() == 0);
        assert(spec_csv_encode(rsv.skip(rsv.len() as int)) =~= Seq::<char>::empty());
        assert(spec_csv_encode(rsv) =~= out@);
    }
    out
}

/// Whether a suffix starts at a field boundary: the end of the text, a
/// comma, a line feed, or a carriage-return line feed.
pub open spec fn spec_csv_boundary(s: Seq<char>) -> bool {
    ||| s.len() == 0
    ||| s[0] == ','
    ||| s[0] == '\n'
    ||| (s[0] == '\r' && s.len() > 1 && s[1] == '\n')
}

/// Reads an unquoted field: everything up to the next boundary.  A lone
/// carriage return that is not followed by a line feed is field data.
pub open spec fn spec_parse_unquoted(s: Seq<char>) -> (Seq<char>, Seq<char>)
    decreases s.len(),
{
    if spec_csv_boundary(s) {
        (Seq::<char>::empty(), s)
    } else {
        let (f, r) = spec_parse_unquoted(s.drop_first());
        (seq![s[0]] + f, r)
    }
}

/// Reads the inside of a quoted field, starting after the opening quote:
/// a doubled quote is one literal quote, a single quote closes the field,
/// and an unclosed field is an error.
pub open spec fn spec_parse_quoted(s: Seq<char>) -> Option<(Seq<char>, Seq<char>)>
    decreases s.len(),
{
    if s.len() == 0 {
        Option::None
    } else if s[0] == '"' {
        if s.len() >= 2 && s[1] == '"' {
            match spec_parse_quoted(s.skip(2)) {
                Option::Some((f, r)) => Option::Some((seq!['"'] + f, r)),
                Option::None => Option::None,
            }
        } else {
            Option::Some((Seq::<char>::empty(), s.drop_first()))
        }
    } else {
        match spec_parse_quoted(s.drop_first()) {
            Option::Some((f, r)) => Option::Some((seq![s[0]] + f, r)),
            Option::None => Option::None,
        }
    }
}

/// Reads one field.  A field that starts with a quote is quoted and must
/// be followed by a boundary once it closes; anything else (and a quote in
/// the middle of an unquoted field, kept literally) is unquoted.
pub open spec fn spec_parse_field(s: Seq<char>) -> Option<(Seq<char>, Seq<char>)> {
    if s.len() > 0 && s[0] == '"' {
        match spec_parse_quoted(s.drop_first()) {
            Option::Some((f, r)) => if spec_csv_boundary(r) {
                Option::Some((f, r))
            } else {
                Option::None
            },
            Option::None => Option::None,
        }
    } else {
        Option::Some(spec_parse_unquoted(s))
    }
}

/// Reads one record: fields separated by commas, ended by a line feed, a
/// carriage-return line feed, or the end of the text (terminator
/// consumed).  In the comma case the alternative branch of `next` only
/// serves the termination measure: a field parse never hands back more
/// text than it was given.
pub open spec fn spec_parse_record(s: Seq<char>) -> Option<(Seq<Seq<char>>, Seq<char>)>
    decreases s.len(),
{
    match spec_parse_field(s) {
        Option::None => Option::None,
        Option::Some((f, r)) => {
            if r.len() == 0 {
                Option::Some((seq![f], r))
            } else if r[0] == ',' {
                let next = if r.len() <= s.len() {
                    r.drop_first()
                } else {
                    s.drop_first()
                };
                match spec_parse_record(next) {
                    Option::Some((fs, r2)) => Option::Some((seq![f] + fs, r2)),
                    Option::None => Option::None,
                }
            } else if r[0] == '\n' {
                Option::Some((seq![f], r.drop_first()))
            } else if r[0] == '\r' && r.len() > 1 && r[1] == '\n' {
                Option::Some((seq![f], r.skip(2)))
            } else {
                Option::None
            }
        },
    }
}

/// Reads the whole text: the records up to the first malformed one, and
/// whether a malformed one was hit.  The alternative branch of `next` only
/// serves the termination measure: a record parse of a non-empty text
/// always consumes something.
pub open spec fn spec_parse_all(s: Seq<char>) -> (Seq<Seq<Seq<char>>>, bool)
    decreases s.len(),
{
    if s.len() == 0 {
        (Seq::<Seq<Seq<char>>>::empty(), false)
    } else {
        match spec_parse_record(s) {
            Option::None => (Seq::<Seq<Seq<char>>>::empty(), true),
            Option::Some((fs, r)) => {
                let next = if r.len() < s.len() {
                    r
                } else {
                    s.drop_first()
                };
                let (rs, e) = spec_parse_all(next);
                (seq![fs] + rs, e)
            },
        }
    }
}

/// Whether the text at position `i` is a field boundary.
fn boundary_at(text: &Vec<char>, i: usize) -> (r: bool)
    requires
        i <= text@.len(),
    ensures
        r == spec_csv_boundary(text@.skip(i as int)),
{
    let ghost s = text@.skip(i as int);
    proof {
        if i < text@.len() {
            assert(s[0] == text@[i as int]);
            if i + 1 < text@.len() {
                assert(s[1] == text@[i + 1]);
            }
        }
    }
    if i >= text.len() {
        true
    } else {
        let c = text[i];
        c == ',' || c == '\n' || (c == '\r' && i + 1 < text.len() && text[i + 1] == '\n')
    }
}

/// Reads one field starting at position `i`; on success, the field and the
/// position of the boundary (or, for a quoted field, of what follows the
/// closing quote).
#[verifier::loop_isolation(false)]
fn parse_field_at(text: &Vec<char>, i: usize) -> (r: Option<(String, usize)>)
    requires
        i <= text@.len(),
    ensures
        match r {
            Some(p) => {
                &&& i <= p.1 <= text@.len()
                &&& spec_parse_field(text@.skip(i as int)) == Option::Some(
                    (p.0@, text@.skip(p.1 as int)),
                )
            },
            None => spec_parse_field(text@.skip(i as int)) is None,
        },
{
    let ghost s0 = text@.skip(i as int);
    if i < text.len() && text[i] == '"' {
        proof {
            assert(s0[0] == text@[i as int]);
            assert(s0.drop_first() =~= text@.skip(i + 1 as int));
        }
        let mut cur: usize = i + 1;
        let mut acc: Vec<char> = Vec::new();
        loop
            invariant
                i + 1 <= cur <= text@.len(),
                spec_parse_quoted(text@.skip(i + 1 as int)) == match spec_parse_quoted(
                    text@.skip(cur as int),
                ) {
                    Option::Some((f, r)) => Option::Some((acc@ + f, r)),
                    Option::None => Option::<(Seq<char>, Seq<char>)>::None,
                },
            decreases text@.len() - cur,
        {
            let ghost s = text@.skip(cur as int);
            if cur >= text.len() {
                proof {
                    assert(s.len() == 0);
                }
                return None;
            }
            proof {
                assert(s[0] == text@[cur as int]);
                assert(s.drop_first() =~= text@.skip(cur + 1 as int));
                if cur + 2 <= text@.len() {
                    assert(s.skip(2) =~= text@.skip(cur + 2 as int));
                }
                if cur + 1 < text@.len() {
                    assert(s[1] == text@[cur + 1]);
                }
            }
            let ghost acc0 = acc@;
            let c = text[cur];
            if c == '"' {
                if cur + 1 < text.len() && text[cur + 1] == '"' {
                    acc.push('"');
                    cur = cur + 2;
                    proof {
                        match spec_parse_quoted(text@.skip(cur as int)) {
                            Option::Some((f, r)) => {
                                assert(acc0 + (seq!['"'] + f) =~= acc@ + f);
                            },
                            Option::None => {},
                        }
                    }
                } else {
                    // Closing quote; a boundary must follow.
                    let next = cur + 1;
                    proof {
                        assert(spec_parse_quoted(s) == Option::Some(
                            (Seq::<char>::empty(), text@.skip(next as int)),
                        ));
                        assert(acc@ + Seq::<char>::empty() =~= acc@);
                    }
                    if boundary_at(text, next) {
                        let f = strutil::chars_to_string(&acc);
                        return Some((f, next));
                    } else {
                        return None;
                    }
                }
            } else {
                acc.push(c);
                cur = cur + 1;
                proof {
                    match spec_parse_quoted(text@.skip(cur as int)) {
                        Option::Some((f, r)) => {
                            assert(acc0 + (seq![c] + f) =~= acc@ + f);
                        },
                        Option::None => {},
                    }
                }
            }
        }
    } else {
        let mut cur: usize = i;
        let mut acc: Vec<char> = Vec::new();
        proof {
            assert(text@.skip(i as int) =~= text@.skip(cur as int));
        }
        while !boundary_at(text, cur)
            invariant
                i <= cur <= text@.len(),
                spec_parse_unquoted(text@.skip(i as int)) == {
                    let p = spec_parse_unquoted(text@.skip(cur as int));
                    (acc@ + p.0, p.1)
                },
            decreases text@.len() - cur,
        {
            let ghost s = text@.skip(cur as int);
            proof {
                assert(!spec_csv_boundary(s));
                assert(s.len() > 0);
                assert(s[0] == text@[cur as int]);
                assert(s.drop_first() =~= text@.skip(cur + 1 as int));
            }
            acc.push(text[cur]);
            cur = cur + 1;
        }
        proof {
            let s = text@.skip(cur as int);
            assert(spec_csv_boundary(s));
            assert(spec_parse_unquoted(s) == (Seq::<char>::empty(), s));
            assert(acc@ + Seq::<char>::empty() =~= acc@);
        }
        let f = strutil::chars_to_string(&acc);
        Some((f, cur))
    }
}

/// Reads one record starting at position `i`; on success, the record's
/// fields and the position after the consumed terminator (or the end of
/// the text).
#[verifier::loop_isolation(false)]
fn parse_record_at(text: &Vec<char>, i: usize) -> (r: Option<(Vec<String>, usize)>)
    requires
        i <= text@.len(),
    ensures
        match r {
            Some(p) => {
                &&& i < p.1 <= text@.len() || (i == p.1 && i == text@.len())
                &&& spec_parse_record(text@.skip(i as int)) == Option::Some(
                    (spec_record_view(p.0), text@.skip(p.1 as int)),
                )
            },
            None => spec_parse_record(text@.skip(i as int)) is None,
        },
{
    let mut fields: Vec<String> = Vec::new();
    let mut cur: usize = i;
    loop
        invariant
            i <= cur <= text@.len(),
            cur > i || fields@.len() == 0,
            spec_parse_record(text@.skip(i as int)) == match spec_parse_record(
                text@.skip(cur as int),
            ) {
                Option::Some((fs2, r2)) => Option::Some((spec_record_view(fields) + fs2, r2)),
                Option::None => Option::<(Seq<Seq<char>>, Seq<char>)>::None,
            },
        decreases text@.len() - cur,
    {
        let ghost s = text@.skip(cur as int);
        match parse_field_at(text, cur) {
            None => {
                return None;
            },
            Some((f, n)) => {
                let ghost fields0 = spec_record_view(fields);
                fields.push(f);
                proof {
                    assert(spec_record_view(fields) =~= fields0.push(f@));
                }
                if n >= text.len() {
                    proof {
                        assert(text@.skip(n as int).len() == 0);
                        assert(spec_parse_record(s) == Option::Some(
                            (seq![f@], text@.skip(n as int)),
                        ));
                        assert(fields0 + seq![f@] =~= spec_record_view(fields));
                    }
                    return Some((fields, n));
                }
                let c = text[n];
                proof {
                    assert(text@.skip(n as int)[0] == text@[n as int]);
                    assert(text@.skip(n as int).drop_first() =~= text@.skip(n + 1 as int));
                    if n + 2 <= text@.len() {
                        assert(text@.skip(n as int).skip(2) =~= text@.skip(n + 2 as int));
                    }
                    if n + 1 < text@.len() {
                        assert(text@.skip(n as int)[1] == text@[n + 1]);
                    }
                }
                if c == ',' {
                    proof {
                        assert(text@.skip(n as int).len() <= s.len());
                        match spec_parse_record(text@.skip(n + 1 as int)) {
                            Option::Some((fs, r2)) => {
                                assert(spec_parse_record(s) == Option::Some((seq![f@] + fs, r2)));
                                assert(fields0 + (seq![f@] + fs) =~= spec_record_view(fields)
                                    + fs);
                            },
                            Option::None => {
                                assert(spec_parse_record(s) is None);
                            },
                        }
                    }
                    cur = n + 1;
                } else if c == '\n' {
                    proof {
                        assert(spec_parse_record(s) == Option::Some(
                            (seq![f@], text@.skip(n + 1 as int)),
                        ));
                        assert(fields0 + seq![f@] =~= spec_record_view(fields));
                    }
                    return Some((fields, n + 1));
                } else if c == '\r' && n + 1 < text.len() && text[n + 1] == '\n' {
                    proof {
                        assert(spec_parse_record(s) == Option::Some(
                            (seq![f@], text@.skip(n + 2 as int)),
                        ));
                        assert(fields0 + seq![f@] =~= spec_record_view(fields));
                    }
                    return Some((fields, n + 2));
                } else {
                    proof {
                        assert(spec_parse_record(s) is None);
                    }
                    return None;
                }
            },
        }
    }
}

/// Reads a whole CSV text into records, stopping at the first malformed
/// record; the flag says whether one was hit.
#[verifier::loop_isolation(false)]
pub fn parse_csv(text: &Vec<char>) -> (r: (Vec<Vec<String>>, bool))
    ensures
        (spec_records_view(r.0@), r.1) == spec_parse_all(text@),
{
    let mut records: Vec<Vec<String>> = Vec::new();
    let mut cur: usize = 0;
    proof {
        assert(text@.skip(0) =~= text@);
        assert(spec_records_view(records@) =~= Seq::<Seq<Seq<char>>>::empty());
        let (rs, e) = spec_parse_all(text@);
        assert(spec_records_view(records@) + rs =~= rs);
    }
    loop
        invariant
            cur <= text@.len(),
            spec_parse_all(text@) == {
                let (rs, e) = spec_parse_all(text@.skip(cur as int));
                (spec_records_view(records@) + rs, e)
            },
        decreases text@.len() - cur,
    {
        let ghost s = text@.skip(cur as int);
        if cur >= text.len() {
            proof {
                assert(s.len() == 0);
                assert(spec_records_view(records@) + Seq::<Seq<Seq<char>>>::empty()
                    =~= spec_records_view(records@));
            }
            return (records, false);
        }
        match parse_record_at(text, cur) {
            None => {
                proof {
                    assert(spec_parse_all(s) == (Seq::<Seq<Seq<char>>>::empty(), true));
                    assert(spec_records_view(records@) + Seq::<Seq<Seq<char>>>::empty()
                        =~= spec_records_view(records@));
                }
                return (records, true);
            },
            Some((rec, n)) => {
                let ghost records0 = spec_records_view(records@);
                proof {
                    assert(text@.skip(n as int).len() < s.len());
                    let (rs, e) = spec_parse_all(text@.skip(n as int));
                    assert(spec_parse_all(s) == (seq![spec_record_view(rec)] + rs, e));
                }
                records.push(rec);
                proof {
                    assert(spec_records_view(records@) =~= records0.push(spec_record_view(rec)));
                    let (rs, e) = spec_parse_all(text@.skip(n as int));
                    assert(records0 + (seq![spec_record_view(rec)] + rs) =~= spec_records_view(
                        records@,
                    ) + rs);
                }
                cur = n;
            },
        }
    }
}

/// The records a table exports: the header of human labels, then each
/// row's cell texts, in column order.
pub open spec fn spec_export_records(t: VaultTable) -> Seq<Seq<Seq<char>>> {
    seq![t.columns@.map_values(|c: crate::data::ColumnIndexEntry| c.ui_name@)]
        + t.rows@.map_values(
        |r: crate::data::TableRow| r.cells@.map_values(|c: crate::data::TableCell| c.data@),
    )
}

impl VaultTable {
    /// Exports this table as CSV text: the header row of human labels,
    /// then one row per table row with each cell's text as it stands (no
    /// decryption happens here).
    #[verifier::loop_isolation(false)]
    pub fn export_csv(&self) -> (r: String)
        requires
            self.columns@.len() > 0,
            forall|i: int|
                0 <= i < self.rows@.len() ==> (#[trigger] self.rows@[i]).cells@.len()
                    == self.columns@.len(),
        ensures
            r@ == spec_csv_encode(spec_export_records(*self)),
    {
        let mut records: Vec<Vec<String>> = Vec::new();
        let mut header: Vec<String> = Vec::new();
        let mut j: usize = 0;
        while j < self.columns.len()
            invariant
                j <= self.columns@.len(),
                header@.len() == j,
                forall|m: int| 0 <= m < j ==> (#[trigger] header@[m])@ == self.columns@[m].ui_name@,
            decreases self.columns@.len() - j,
        {
            header.push(self.columns[j].ui_name.clone());
            j = j + 1;
        }
        records.push(header);
        let mut i: usize = 0;
        while i < self.rows.len()
            invariant
                i <= self.rows@.len(),
                records@.len() == i + 1,
                records@[0]@.len() == self.columns@.len(),
                forall|m: int|
                    0 <= m < self.columns@.len() ==> (#[trigger] records@[0]@[m])@
                        == self.columns@[m].ui_name@,
                forall|a: int|
                    0 <= a < i ==> (#[trigger] records@[a + 1])@.len() == self.rows@[a].cells@.len(),
                forall|a: int, m: int|
                    0 <= a < i && 0 <= m < self.rows@[a].cells@.len() ==> ((#[trigger] records@[a
                        + 1])@[m])@ == (#[trigger] self.rows@[a].cells@[m]).data@,
            decreases self.rows@.len() - i,
        {
            let row = &self.rows[i];
            let mut fields: Vec<String> = Vec::new();
            let mut m: usize = 0;
            while m < row.cells.len()
                invariant
                    m <= row.cells@.len(),
                    fields@.len() == m,
                    forall|b: int|
                        0 <= b < m ==> (#[trigger] fields@[b])@ == row.cells@[b].data@,
                decreases row.cells@.len() - m,
            {
                fields.push(row.cells[m].data.clone());
                m = m + 1;
            }
            records.push(fields);
            i = i + 1;
        }
        proof {
            let lhs = spec_records_view(records@);
            let rhs = spec_export_records(*self);
            assert(lhs.len() == rhs.len());
            assert forall|x: int| 0 <= x < lhs.len() implies lhs[x] =~~= rhs[x] by {
                assert(lhs[x] == spec_record_view(records@[x]));
                if x == 0 {
                    assert forall|m: int| 0 <= m < self.columns@.len() implies lhs[0][m]
                        =~= rhs[0][m] by {
                        assert(lhs[0][m] == records@[0]@[m]@);
                        assert(rhs[0][m] == self.columns@[m].ui_name@);
                    }
                } else {
                    let a = x - 1;
                    assert(rhs[x] == self.rows@.map_values(
                        |r2: crate::data::TableRow| r2.cells@.map_values(
                            |c2: crate::data::TableCell| c2.data@,
                        ),
                    )[a]);
                    assert forall|m: int| 0 <= m < self.rows@[a].cells@.len() implies lhs[x][m]
                        =~= rhs[x][m] by {
                        assert(lhs[x][m] == records@[a + 1]@[m]@);
                        assert(rhs[x][m] == self.rows@[a].cells@[m].data@);
                    }
                }
            }
            assert(lhs =~~= rhs);
            assert forall|a: int| 0 <= a < records@.len() implies (#[trigger] records@[a])@.len()
                > 0 by {
                if a > 0 {
                    let b = a - 1;
                    assert(records@[b + 1]@.len() == self.rows@[b].cells@.len());
                }
            }
        }
        let out = encode_records(&records);
        strutil::chars_to_string(&out)
    }
}

/// How many leading records have exactly `ncols` fields.
pub open spec fn spec_good_prefix(records: Seq<Seq<Seq<char>>>, ncols: int) -> int
    decreases records.len(),
{
    if records.len() == 0 || records[0].len() != ncols {
        0
    } else {
        1 + spec_good_prefix(records.drop_first(), ncols)
    }
}

pub proof fn lemma_good_prefix_le_len(records: Seq<Seq<Seq<char>>>, ncols: int)
    ensures
        0 <= spec_good_prefix(records, ncols) <= records.len(),
    decreases records.len(),
{
    if records.len() > 0 && records[0].len() == ncols {
        lemma_good_prefix_le_len(records.drop_first(), ncols);
    }
}

pub proof fn lemma_good_prefix_of_good(records: Seq<Seq<Seq<char>>>, ncols: int, a: int)
    requires
        0 <= a <= records.len(),
        forall|b: int| 0 <= b < a ==> (#[trigger] records[b]).len() == ncols,
    ensures
        spec_good_prefix(records, ncols) >= a,
    decreases a,
{
    lemma_good_prefix_le_len(records, ncols);
    if a > 0 {
        assert(records[0].len() == ncols);
        assert forall|b: int| 0 <= b < a - 1 implies (#[trigger] records.drop_first()[b]).len()
            == ncols by {
            assert(records.drop_first()[b] == records[b + 1]);
        }
        lemma_good_prefix_of_good(records.drop_first(), ncols, a - 1);
        assert(spec_good_prefix(records, ncols) == 1 + spec_good_prefix(
            records.drop_first(),
            ncols,
        ));
    }
}

pub proof fn lemma_good_prefix_stops(records: Seq<Seq<Seq<char>>>, ncols: int, a: int)
    requires
        0 <= a < records.len(),
        forall|b: int| 0 <= b < a ==> (#[trigger] records[b]).len() == ncols,
        records[a].len() != ncols,
    ensures
        spec_good_prefix(records, ncols) == a,
    decreases a,
{
    if a == 0 {
    } else {
        assert(records[0].len() == ncols);
        assert forall|b: int| 0 <= b < a - 1 implies (#[trigger] records.drop_first()[b]).len()
            == ncols by {
            assert(records.drop_first()[b] == records[b + 1]);
        }
        assert(records.drop_first()[a - 1] == records[a]);
        lemma_good_prefix_stops(records.drop_first(), ncols, a - 1);
    }
}

/// What one imported row's stored values must be: for each column, the
/// record's field, encrypted (so that it decrypts back to the field) when
/// the column demands it.
pub open spec fn spec_imported_row_ok(
    key_id: Seq<char>,
    record: Seq<Seq<char>>,
    cols: Seq<crate::data::ColumnIndexEntry>,
    values: Seq<String>,
) -> bool {
    &&& values.len() == cols.len()
    &&& record.len() == cols.len()
    &&& forall|j: int|
        0 <= j < cols.len() ==> if cols[j].encrypted {
            spec_decrypt(key_id, (#[trigger] values[j])@) == Ok::<_, DecryptionError>(record[j])
        } else {
            values[j]@ == record[j]
        }
}

/// Everything `import_csv` promises about the state after the call and
/// its result, given the parsed text.  Reading stops at the first record
/// whose shape does not match (`ColumnMismatch`), at an exhausted row-id
/// counter (`StorageError`) or at a failed encryption (`CryptoError`);
/// rows already inserted stay.  Malformed text surfaces as
/// `ValidationError` after the records before the flaw were inserted.
pub open spec fn spec_import_outcome(
    db0: VaultDb,
    db1: VaultDb,
    key_id: Seq<char>,
    table_id: u64,
    text: Seq<char>,
    r: Result<(), VaultError>,
) -> bool {
    let parsed = spec_parse_all(text);
    let records = parsed.0;
    let perr = parsed.1;
    match r {
        Err(VaultError::NotFound) => !db0.spec_has_table(table_id) && db1 == db0,
        _ => exists|k: int|
            {
                &&& 0 <= k < db0.tables@.len()
                &&& (#[trigger] db0.tables@[k]).index.id == table_id
                &&& db1.tables@.len() == db0.tables@.len()
                &&& db1.next_table_id == db0.next_table_id
                &&& db1.next_column_id == db0.next_column_id
                &&& forall|l: int|
                    0 <= l < db0.tables@.len() && l != k ==> db1.tables@[l] == db0.tables@[l]
                &&& {
                    let t0 = db0.tables@[k];
                    let t1 = db1.tables@[k];
                    let ncols = t0.columns@.len() as int;
                    let p = spec_good_prefix(records, ncols);
                    &&& t1.index == t0.index
                    &&& t1.columns == t0.columns
                    &&& {
                        let m = t1.rows@.len() - t0.rows@.len();
                        {
                            &&& 0 <= m <= p
                            &&& t1.rows@.len() == t0.rows@.len() + m
                            &&& t1.rows@.subrange(0, t0.rows@.len() as int) == t0.rows@
                            &&& t1.next_row_id == t0.next_row_id + m
                            &&& forall|a: int|
                                0 <= a < m ==> {
                                    let nr = #[trigger] t1.rows@[t0.rows@.len() + a];
                                    &&& nr.id == t0.next_row_id + a
                                    &&& spec_imported_row_ok(
                                        key_id,
                                        records[a],
                                        t0.columns@,
                                        nr.values@,
                                    )
                                }
                            &&& match r {
                                Ok(_) => m == records.len() && p == records.len() && !perr,
                                Err(VaultError::ColumnMismatch) => m == p && p < records.len(),
                                Err(VaultError::ValidationError) => m == p && p == records.len()
                                    && perr,
                                Err(VaultError::CryptoError) => m < p && exists|j: int|
                                    0 <= j < t0.columns@.len() && (
                                    #[trigger] t0.columns@[j]).encrypted
                                        && !crate::crypt::spec_can_encrypt(key_id, records[m][j]),
                                Err(VaultError::StorageError) => m < p && t0.next_row_id + m
                                    == u64::MAX,
                                Err(VaultError::NotFound) => false,
                            }
                        }
                    }
                }
            },
    }
}

/// The shape-mismatch law of the import: when the target table exists,
/// the parsed records begin with a well-shaped prefix and then one of the
/// wrong width, every encrypted field of that prefix fits the key and the
/// row ids do not run out, the import must answer `ColumnMismatch`, with
/// exactly the rows of the prefix committed and nothing after touched.
pub proof fn lemma_import_shape_mismatch(
    db0: VaultDb,
    db1: VaultDb,
    key_id: Seq<char>,
    table_id: u64,
    text: Seq<char>,
    r: Result<(), VaultError>,
)
    requires
        spec_import_outcome(db0, db1, key_id, table_id, text, r),
        db0.spec_has_table(table_id),
        forall|k: int|
            0 <= k < db0.tables@.len() && (#[trigger] db0.tables@[k]).index.id == table_id ==> {
                let t0 = db0.tables@[k];
                let ncols = t0.columns@.len() as int;
                let records = spec_parse_all(text).0;
                let p = spec_good_prefix(records, ncols);
                &&& p < records.len()
                &&& t0.next_row_id + p <= u64::MAX
                &&& forall|a: int, j: int|
                    0 <= a < p && 0 <= j < ncols && (#[trigger] t0.columns@[j]).encrypted
                        ==> crate::crypt::spec_can_encrypt(key_id, (#[trigger] records[a])[j])
            },
    ensures
        r == Err::<(), VaultError>(VaultError::ColumnMismatch),
        exists|k: int|
            {
                &&& 0 <= k < db0.tables@.len()
                &&& (#[trigger] db0.tables@[k]).index.id == table_id
                &&& db1.tables@[k].rows@.len() == db0.tables@[k].rows@.len() + spec_good_prefix(
                    spec_parse_all(text).0,
                    db0.tables@[k].columns@.len() as int,
                )
                &&& db1.tables@[k].rows@.subrange(0, db0.tables@[k].rows@.len() as int)
                    == db0.tables@[k].rows@
            },
{
    let records = spec_parse_all(text).0;
    if r == Err::<(), VaultError>(VaultError::NotFound) {
        assert(!db0.spec_has_table(table_id));
        assert(false);
    }
    let k = choose|k: int|
        {
            &&& 0 <= k < db0.tables@.len()
            &&& (#[trigger] db0.tables@[k]).index.id == table_id
            &&& db1.tables@.len() == db0.tables@.len()
            &&& db1.next_table_id == db0.next_table_id
            &&& db1.next_column_id == db0.next_column_id
            &&& forall|l: int|
                0 <= l < db0.tables@.len() && l != k ==> db1.tables@[l] == db0.tables@[l]
            &&& {
                let t0 = db0.tables@[k];
                let t1 = db1.tables@[k];
                let ncols = t0.columns@.len() as int;
                let p = spec_good_prefix(records, ncols);
                &&& t1.index == t0.index
                &&& t1.columns == t0.columns
                &&& {
                    let m = t1.rows@.len() - t0.rows@.len();
                    {
                        &&& 0 <= m <= p
                        &&& t1.rows@.len() == t0.rows@.len() + m
                        &&& t1.rows@.subrange(0, t0.rows@.len() as int) == t0.rows@
                        &&& t1.next_row_id == t0.next_row_id + m
                        &&& forall|a: int|
                            0 <= a < m ==> {
                                let nr = #[trigger] t1.rows@[t0.rows@.len() + a];
                                &&& nr.id == t0.next_row_id + a
                                &&& spec_imported_row_ok(
                                    key_id,
                                    records[a],
                                    t0.columns@,
                                    nr.values@,
                                )
                            }
                        &&& match r {
                            Ok(_) => m == records.len() && p == records.len() && !spec_parse_all(
                                text,
                            ).1,
                            Err(VaultError::ColumnMismatch) => m == p && p < records.len(),
                            Err(VaultError::ValidationError) => m == p && p == records.len()
                                && spec_parse_all(text).1,
                            Err(VaultError::CryptoError) => m < p && exists|j: int|
                                0 <= j < t0.columns@.len() && (
                                #[trigger] t0.columns@[j]).encrypted
                                    && !crate::crypt::spec_can_encrypt(key_id, records[m][j]),
                            Err(VaultError::StorageError) => m < p && t0.next_row_id + m
                                == u64::MAX,
                            Err(VaultError::NotFound) => false,
                        }
                    }
                }
            }
        };
    let t0 = db0.tables@[k];
    let t1 = db1.tables@[k];
    let ncols = t0.columns@.len() as int;
    let p = spec_good_prefix(records, ncols);
    let m = t1.rows@.len() - t0.rows@.len();
    lemma_good_prefix_le_len(records, ncols);
    match r {
        Ok(_) => {
            assert(false);
        },
        Err(e) => {
            match e {
                VaultError::CryptoError => {
                    let jw = choose|j: int|
                        0 <= j < t0.columns@.len() && (#[trigger] t0.columns@[j]).encrypted
                            && !crate::crypt::spec_can_encrypt(key_id, records[m][j]);
                    assert(crate::crypt::spec_can_encrypt(key_id, records[m][jw]));
                    assert(false);
                },
                VaultError::StorageError => {
                    assert(t0.next_row_id + m < u64::MAX);
                    assert(false);
                },
                VaultError::ValidationError => {
                    assert(false);
                },
                VaultError::NotFound => {
                    assert(false);
                },
                VaultError::ColumnMismatch => {},
            }
        },
    }
}

/// The malformed-text law of the import: when the target table exists,
/// the text breaks off in a malformed record after well-shaped ones whose
/// encrypted fields all fit the key, and the row ids do not run out, the
/// import must answer `ValidationError`, with every record before the
/// flaw committed.
pub proof fn lemma_import_malformed_is_validation_error(
    db0: VaultDb,
    db1: VaultDb,
    key_id: Seq<char>,
    table_id: u64,
    text: Seq<char>,
    r: Result<(), VaultError>,
)
    requires
        spec_import_outcome(db0, db1, key_id, table_id, text, r),
        db0.spec_has_table(table_id),
        spec_parse_all(text).1,
        forall|k: int|
            0 <= k < db0.tables@.len() && (#[trigger] db0.tables@[k]).index.id == table_id ==> {
                let t0 = db0.tables@[k];
                let ncols = t0.columns@.len() as int;
                let records = spec_parse_all(text).0;
                &&& spec_good_prefix(records, ncols) == records.len()
                &&& t0.next_row_id + records.len() <= u64::MAX
                &&& forall|a: int, j: int|
                    0 <= a < records.len() && 0 <= j < ncols && (
                    #[trigger] t0.columns@[j]).encrypted ==> crate::crypt::spec_can_encrypt(
                        key_id,
                        (#[trigger] records[a])[j],
                    )
            },
    ensures
        r == Err::<(), VaultError>(VaultError::ValidationError),
        exists|k: int|
            {
                &&& 0 <= k < db0.tables@.len()
                &&& (#[trigger] db0.tables@[k]).index.id == table_id
                &&& db1.tables@[k].rows@.len() == db0.tables@[k].rows@.len() + spec_parse_all(
                    text,
                ).0.len()
                &&& db1.tables@[k].rows@.subrange(0, db0.tables@[k].rows@.len() as int)
                    == db0.tables@[k].rows@
            },
{
    let records = spec_parse_all(text).0;
    if r == Err::<(), VaultError>(VaultError::NotFound) {
        assert(!db0.spec_has_table(table_id));
        assert(false);
    }
    let k = choose|k: int|
        {
            &&& 0 <= k < db0.tables@.len()
            &&& (#[trigger] db0.tables@[k]).index.id == table_id
            &&& db1.tables@.len() == db0.tables@.len()
            &&& db1.next_table_id == db0.next_table_id
            &&& db1.next_column_id == db0.next_column_id
            &&& forall|l: int|
                0 <= l < db0.tables@.len() && l != k ==> db1.tables@[l] == db0.tables@[l]
            &&& {
                let t0 = db0.tables@[k];
                let t1 = db1.tables@[k];
                let ncols = t0.columns@.len() as int;
                let p = spec_good_prefix(records, ncols);
                &&& t1.index == t0.index
                &&& t1.columns == t0.columns
                &&& {
                    let m = t1.rows@.len() - t0.rows@.len();
                    {
                        &&& 0 <= m <= p
                        &&& t1.rows@.len() == t0.rows@.len() + m
                        &&& t1.rows@.subrange(0, t0.rows@.len() as int) == t0.rows@
                        &&& t1.next_row_id == t0.next_row_id + m
                        &&& forall|a: int|
                            0 <= a < m ==> {
                                let nr = #[trigger] t1.rows@[t0.rows@.len() + a];
                                &&& nr.id == t0.next_row_id + a
                                &&& spec_imported_row_ok(
                                    key_id,
                                    records[a],
                                    t0.columns@,
                                    nr.values@,
                                )
                            }
                        &&& match r {
                            Ok(_) => m == records.len() && p == records.len() && !spec_parse_all(
                                text,
                            ).1,
                            Err(VaultError::ColumnMismatch) => m == p && p < records.len(),
                            Err(VaultError::ValidationError) => m == p && p == records.len()
                                && spec_parse_all(text).1,
                            Err(VaultError::CryptoError) => m < p && exists|j: int|
                                0 <= j < t0.columns@.len() && (
                                #[trigger] t0.columns@[j]).encrypted
                                    && !crate::crypt::spec_can_encrypt(key_id, records[m][j]),
                            Err(VaultError::StorageError) => m < p && t0.next_row_id + m
                                == u64::MAX,
                            Err(VaultError::NotFound) => false,
                        }
                    }
                }
            }
        };
    let t0 = db0.tables@[k];
    let t1 = db1.tables@[k];
    let ncols = t0.columns@.len() as int;
    let p = spec_good_prefix(records, ncols);
    let m = t1.rows@.len() - t0.rows@.len();
    match r {
        Ok(_) => {
            assert(false);
        },
        Err(e) => {
            match e {
                VaultError::CryptoError => {
                    let jw = choose|j: int|
                        0 <= j < t0.columns@.len() && (#[trigger] t0.columns@[j]).encrypted
                            && !crate::crypt::spec_can_encrypt(key_id, records[m][j]);
                    assert(crate::crypt::spec_can_encrypt(key_id, records[m][jw]));
                    assert(false);
                },
                VaultError::StorageError => {
                    assert(t0.next_row_id + m < u64::MAX);
                    assert(false);
                },
                VaultError::ColumnMismatch => {
                    assert(false);
                },
                VaultError::NotFound => {
                    assert(false);
                },
                VaultError::ValidationError => {},
            }
        },
    }
}

proof fn lemma_table_after_append_wf(t0: StoredTable, t1: StoredTable, m: int)
    requires
        t0.wf(),
        t1.index == t0.index,
        t1.columns == t0.columns,
        m >= 0,
        t1.rows@.len() == t0.rows@.len() + m,
        t1.rows@.subrange(0, t0.rows@.len() as int) == t0.rows@,
        t1.next_row_id == t0.next_row_id + m,
        forall|b: int|
            0 <= b < m ==> {
                let nr = #[trigger] t1.rows@[t0.rows@.len() + b];
                &&& nr.id == t0.next_row_id + b
                &&& nr.values@.len() == t0.columns@.len()
            },
    ensures
        t1.wf(),
{
    assert forall|i: int| 0 <= i < t1.rows@.len() implies (#[trigger] t1.rows@[i]).values.len()
        == t1.columns.len() && t1.rows@[i].id < t1.next_row_id by {
        if i < t0.rows@.len() {
            assert(t1.rows@[i] == t1.rows@.subrange(0, t0.rows@.len() as int)[i]);
        } else {
            assert(t1.rows@[i] == t1.rows@[t0.rows@.len() + (i - t0.rows@.len())]);
        }
    }
    assert forall|i: int, j: int| 0 <= i < j < t1.rows@.len() implies (#[trigger] t1.rows@[i]).id
        != (#[trigger] t1.rows@[j]).id by {
        if i < t0.rows@.len() {
            assert(t1.rows@[i] == t1.rows@.subrange(0, t0.rows@.len() as int)[i]);
        } else {
            assert(t1.rows@[i] == t1.rows@[t0.rows@.len() + (i - t0.rows@.len())]);
        }
        if j < t0.rows@.len() {
            assert(t1.rows@[j] == t1.rows@.subrange(0, t0.rows@.len() as int)[j]);
        } else {
            assert(t1.rows@[j] == t1.rows@[t0.rows@.len() + (j - t0.rows@.len())]);
        }
    }
}

proof fn lemma_db_update_wf(db0: VaultDb, db1: VaultDb, k: int)
    requires
        db0.wf(),
        0 <= k < db0.tables@.len(),
        db1.tables@ == db0.tables@.update(k, db1.tables@[k]),
        db1.tables@.len() == db0.tables@.len(),
        db1.tables@[k].wf(),
        db1.tables@[k].index == db0.tables@[k].index,
        db1.next_table_id == db0.next_table_id,
        db1.next_column_id == db0.next_column_id,
    ensures
        db1.wf(),
{
    assert forall|l: int| 0 <= l < db1.tables@.len() implies (#[trigger] db1.tables@[l]).wf()
        && db1.tables@[l].index.id < db1.next_table_id by {
        if l != k {
            assert(db1.tables@[l] == db0.tables@[l]);
        }
    }
    assert forall|l: int, m: int| 0 <= l < m < db1.tables@.len() implies (
    #[trigger] db1.tables@[l]).index.id != (#[trigger] db1.tables@[m]).index.id && db1.tables@[
        l
    ].index.ui_name@ != db1.tables@[m].index.ui_name@ by {
        assert(db1.tables@[l].index == db0.tables@[l].index);
        assert(db1.tables@[m].index == db0.tables@[m].index);
    }
}

/// The stored values for one imported record: each field as it stands for
/// a plain column, encrypted for an encrypted column.  Succeeds exactly
/// when every field bound for an encrypted column fits the key.
pub fn encrypt_record(
    keypair: &KeyPair,
    cols: &Vec<crate::data::ColumnIndexEntry>,
    rec: &Vec<String>,
) -> (r: Result<Vec<String>, VaultError>)
    requires
        rec@.len() == cols@.len(),
    ensures
        r is Ok <==> forall|j: int|
            0 <= j < cols@.len() && (#[trigger] cols@[j]).encrypted
                ==> crate::crypt::spec_can_encrypt(keypair.key_id(), rec@[j]@),
        match r {
            Ok(values) => spec_imported_row_ok(
                keypair.key_id(),
                spec_record_view(*rec),
                cols@,
                values@,
            ),
            Err(e) => {
                &&& e == VaultError::CryptoError
                &&& exists|j: int|
                    0 <= j < cols@.len() && (#[trigger] cols@[j]).encrypted
                        && !crate::crypt::spec_can_encrypt(keypair.key_id(), rec@[j]@)
            },
        },
{
    let mut values: Vec<String> = Vec::new();
    let mut j: usize = 0;
    while j < cols.len()
        invariant
            rec@.len() == cols@.len(),
            j <= cols@.len(),
            values@.len() == j,
            forall|m: int|
                0 <= m < j && (#[trigger] cols@[m]).encrypted ==> crate::crypt::spec_can_encrypt(
                    keypair.key_id(),
                    rec@[m]@,
                ),
            forall|m: int|
                0 <= m < j ==> if cols@[m].encrypted {
                    spec_decrypt(keypair.key_id(), (#[trigger] values@[m])@) == Ok::<
                        _,
                        DecryptionError,
                    >(rec@[m]@)
                } else {
                    values@[m]@ == rec@[m]@
                },
        decreases cols@.len() - j,
    {
        if cols[j].encrypted {
            match keypair.encrypt_string_to_hex(rec[j].as_str()) {
                Ok(h) => values.push(h),
                Err(_) => {
                    return Err(VaultError::CryptoError);
                },
            }
        } else {
            values.push(rec[j].clone());
        }
        j = j + 1;
    }
    proof {
        assert forall|m: int| 0 <= m < cols@.len() implies spec_record_view(*rec)[m] == rec@[m]@
            by {}
    }
    Ok(values)
}

/// Imports CSV text into the vault table with the given id.  Every record
/// is data (no header is skipped); records are handled in order and each
/// one whose shape matches is inserted through the same path as a row
/// insert, with encrypted columns encrypted; the first flaw stops the
/// import and leaves the rows already inserted in place.
#[verifier::loop_isolation(false)]
pub fn import_csv(db: &mut VaultDb, keypair: &KeyPair, table_id: u64, text: &str) -> (r: Result<
    (),
    VaultError,
>)
    requires
        old(db).wf(),
    ensures
        final(db).wf(),
        spec_import_outcome(
            *old(db),
            *final(db),
            keypair.key_id(),
            table_id,
            text@,
            r,
        ),
{
    let k = match db.find_table(table_id) {
        Some(k) => k,
        None => {
            return Err(VaultError::NotFound);
        },
    };
    let chars = strutil::str_to_chars(text);
    let parsed = parse_csv(&chars);
    let records = parsed.0;
    let perr = parsed.1;
    let ghost recs = spec_parse_all(text@).0;
    proof {
        assert(recs == spec_records_view(records@));
    }
    let mut t = db.tables.remove(k);
    let ghost t0 = t;
    let ncols = t.columns.len();
    let ghost p = spec_good_prefix(recs, ncols as int);
    proof {
        lemma_good_prefix_le_len(recs, ncols as int);
    }
    let mut a: usize = 0;
    while a < records.len()
        invariant
            a <= records@.len(),
            recs.len() == records@.len(),
            db.tables@ == old(db).tables@.remove(k as int),
            db.next_table_id == old(db).next_table_id,
            db.next_column_id == old(db).next_column_id,
            t.index == t0.index,
            t.columns == t0.columns,
            t.rows@.len() == t0.rows@.len() + a,
            t.rows@.subrange(0, t0.rows@.len() as int) == t0.rows@,
            t.next_row_id == t0.next_row_id + a,
            forall|b: int| 0 <= b < a ==> (#[trigger] recs[b]).len() == ncols as int,
            forall|b: int|
                0 <= b < a ==> {
                    let nr = #[trigger] t.rows@[t0.rows@.len() + b];
                    &&& nr.id == t0.next_row_id + b
                    &&& spec_imported_row_ok(keypair.key_id(), recs[b], t0.columns@, nr.values@)
                },
        decreases records@.len() - a,
    {
        proof {
            assert(recs[a as int] == spec_record_view(records@[a as int]));
        }
        let rec = &records[a];
        if rec.len() != ncols {
            proof {
                lemma_good_prefix_stops(recs, ncols as int, a as int);
            }
            let ghost t1 = t;
            db.tables.insert(k, t);
            proof {
                assert(final(db).tables@ =~= old(db).tables@.update(k as int, t1));
                lemma_table_after_append_wf(t0, t1, a as int);
                lemma_db_update_wf(*old(db), *final(db), k as int);
            }
            return Err(VaultError::ColumnMismatch);
        }
        proof {
            lemma_good_prefix_of_good(recs, ncols as int, a + 1 as int);
        }
        if t.next_row_id == u64::MAX {
            let ghost t1 = t;
            db.tables.insert(k, t);
            proof {
                assert(final(db).tables@ =~= old(db).tables@.update(k as int, t1));
                lemma_table_after_append_wf(t0, t1, a as int);
                lemma_db_update_wf(*old(db), *final(db), k as int);
            }
            return Err(VaultError::StorageError);
        }
        let values = match encrypt_record(keypair, &t.columns, rec) {
            Ok(values) => values,
            Err(_) => {
                let ghost t1 = t;
                db.tables.insert(k, t);
                proof {
                    assert(final(db).tables@ =~= old(db).tables@.update(k as int, t1));
                    lemma_table_after_append_wf(t0, t1, a as int);
                    lemma_db_update_wf(*old(db), *final(db), k as int);
                    let jw = choose|j: int|
                        0 <= j < t.columns@.len() && (#[trigger] t.columns@[j]).encrypted
                            && !crate::crypt::spec_can_encrypt(keypair.key_id(), rec@[j]@);
                    assert(recs[a as int][jw] == rec@[jw]@);
                    assert(t0.columns@[jw].encrypted && !crate::crypt::spec_can_encrypt(
                        keypair.key_id(),
                        recs[a as int][jw],
                    ));
                }
                return Err(VaultError::CryptoError);
            },
        };
        let row_id = t.next_row_id;
        t.rows.push(StoredRow { id: row_id, values });
        t.next_row_id = row_id + 1;
        proof {
            assert(t.rows@.subrange(0, t0.rows@.len() as int) =~= t0.rows@);
            assert(spec_imported_row_ok(
                keypair.key_id(),
                recs[a as int],
                t0.columns@,
                t.rows@[t0.rows@.len() + a].values@,
            ));
        }
        a = a + 1;
    }
    proof {
        lemma_good_prefix_of_good(recs, ncols as int, recs.len() as int);
    }
    let ghost t1 = t;
    db.tables.insert(k, t);
    proof {
        assert(final(db).tables@ =~= old(db).tables@.update(k as int, t1));
        lemma_table_after_append_wf(t0, t1, records@.len() as int);
        lemma_db_update_wf(*old(db), *final(db), k as int);
    }
    if perr {
        Err(VaultError::ValidationError)
    } else {
        Ok(())
    }
}

/// Imports CSV bytes: text that is not valid UTF-8 is a
/// `ValidationError`; valid text behaves exactly like `import_csv` on it.
pub fn import_csv_bytes(db: &mut VaultDb, keypair: &KeyPair, table_id: u64, bytes: &Vec<u8>) -> (r:
    Result<(), VaultError>)
    requires
        old(db).wf(),
    ensures
        final(db).wf(),
        match crate::crypt::utf8_decode_of(bytes@) {
            Option::Some(text) => spec_import_outcome(
                *old(db),
                *final(db),
                keypair.key_id(),
                table_id,
                text,
                r,
            ),
            Option::None => r == Err::<(), VaultError>(VaultError::ValidationError) && *final(db)
                == *old(db),
        },
{
    match crate::crypt::bytes_to_string(bytes) {
        Some(text) => import_csv(db, keypair, table_id, text.as_str()),
        None => Err(VaultError::ValidationError),
    }
}

proof fn lemma_drop_first_no_special(f: Seq<char>)
    requires
        f.len() > 0,
        !spec_csv_needs_quote(f),
    ensures
        !spec_csv_needs_quote(f.drop_first()),
{
    let d = f.drop_first();
    if d.contains(',') {
        let i = choose|i: int| 0 <= i < d.len() && d[i] == ',';
        assert(f[i + 1] == ',');
        assert(f.contains(','));
    }
    if d.contains('"') {
        let i = choose|i: int| 0 <= i < d.len() && d[i] == '"';
        assert(f[i + 1] == '"');
        assert(f.contains('"'));
    }
    if d.contains('\n') {
        let i = choose|i: int| 0 <= i < d.len() && d[i] == '\n';
        assert(f[i + 1] == '\n');
        assert(f.contains('\n'));
    }
    if d.contains('\r') {
        let i = choose|i: int| 0 <= i < d.len() && d[i] == '\r';
        assert(f[i + 1] == '\r');
        assert(f.contains('\r'));
    }
}

/// Reading an unquoted field back: a field without special characters
/// followed by a boundary parses to exactly itself.
proof fn lemma_parse_unquoted_of_plain(f: Seq<char>, t: Seq<char>)
    requires
        !spec_csv_needs_quote(f),
        spec_csv_boundary(t),
    ensures
        spec_parse_unquoted(f + t) == (f, t),
    decreases f.len(),
{
    let s = f + t;
    if f.len() == 0 {
        assert(s =~= t);
        assert(spec_parse_unquoted(t) == (Seq::<char>::empty(), t));
        assert(f =~= Seq::<char>::empty());
    } else {
        assert(s[0] == f[0]);
        if f[0] == ',' {
            assert(f.contains(','));
        }
        if f[0] == '\n' {
            assert(f.contains('\n'));
        }
        if f[0] == '\r' {
            assert(f.contains('\r'));
        }
        assert(!spec_csv_boundary(s));
        assert(s.drop_first() =~= f.drop_first() + t);
        lemma_drop_first_no_special(f);
        lemma_parse_unquoted_of_plain(f.drop_first(), t);
        let (f2, r2) = spec_parse_unquoted(s.drop_first());
        assert(seq![s[0]] + f2 =~= f);
    }
}

/// Reading a quoted field back: the escaped field, the closing quote and
/// a boundary parse to exactly the field.
proof fn lemma_parse_quoted_of_escape(f: Seq<char>, t: Seq<char>)
    requires
        spec_csv_boundary(t),
    ensures
        spec_parse_quoted(spec_csv_escape(f) + seq!['"'] + t) == Option::Some((f, t)),
    decreases f.len(),
{
    let s = spec_csv_escape(f) + seq!['"'] + t;
    if f.len() == 0 {
        assert(spec_csv_escape(f) =~= Seq::<char>::empty());
        assert(s =~= seq!['"'] + t);
        assert(s[0] == '"');
        if s.len() >= 2 {
            assert(s[1] == t[0]);
            assert(t[0] != '"');
        }
        assert(s.drop_first() =~= t);
        assert(f =~= Seq::<char>::empty());
    } else {
        assert(spec_csv_escape(f) == spec_csv_qchar(f[0]) + spec_csv_escape(f.drop_first()));
        lemma_parse_quoted_of_escape(f.drop_first(), t);
        let rest = spec_csv_escape(f.drop_first()) + seq!['"'] + t;
        if f[0] == '"' {
            assert(s[0] == '"');
            assert(s[1] == '"');
            assert(s.len() >= 2);
            assert(s.skip(2) =~= rest);
            assert(seq!['"'] + f.drop_first() =~= f);
        } else {
            assert(s[0] == f[0]);
            assert(s.drop_first() =~= rest);
            assert(seq![f[0]] + f.drop_first() =~= f);
        }
    }
}

/// Reading a written field back: the written form followed by a boundary
/// parses to exactly the field.
proof fn lemma_parse_field_of_encoded(f: Seq<char>, t: Seq<char>)
    requires
        spec_csv_boundary(t),
    ensures
        spec_parse_field(spec_csv_field(f) + t) == Option::Some((f, t)),
{
    let s = spec_csv_field(f) + t;
    if spec_csv_needs_quote(f) {
        assert(s =~= seq!['"'] + (spec_csv_escape(f) + seq!['"'] + t));
        assert(s[0] == '"');
        assert(s.drop_first() =~= spec_csv_escape(f) + seq!['"'] + t);
        lemma_parse_quoted_of_escape(f, t);
    } else {
        assert(s =~= f + t);
        if s.len() > 0 && s[0] == '"' {
            if f.len() > 0 {
                assert(f[0] == '"');
                assert(f.contains('"'));
            } else {
                assert(s =~= t);
                assert(t[0] != '"');
            }
            assert(false);
        }
        lemma_parse_unquoted_of_plain(f, t);
    }
}

/// Reading a written record back: the written form followed by a line
/// feed (or the end of the text) parses to exactly the record.
proof fn lemma_parse_record_of_encoded(r: Seq<Seq<char>>, t: Seq<char>)
    requires
        r.len() >= 1,
        t.len() == 0 || t[0] == '\n',
    ensures
        spec_parse_record(spec_csv_record(r) + t) == Option::Some(
            (
                r,
                if t.len() == 0 {
                    t
                } else {
                    t.drop_first()
                },
            ),
        ),
    decreases r.len(),
{
    let s = spec_csv_record(r) + t;
    assert(spec_csv_boundary(t));
    if r.len() == 1 {
        assert(s =~= spec_csv_field(r[0]) + t);
        lemma_parse_field_of_encoded(r[0], t);
        assert(seq![r[0]] =~= r);
    } else {
        let t2 = seq![','] + spec_csv_record(r.drop_first()) + t;
        assert(spec_csv_record(r) == spec_csv_field(r[0]) + seq![','] + spec_csv_record(
            r.drop_first(),
        ));
        assert(s =~= spec_csv_field(r[0]) + t2);
        assert(spec_csv_boundary(t2));
        lemma_parse_field_of_encoded(r[0], t2);
        assert(t2.len() <= s.len());
        assert(t2.drop_first() =~= spec_csv_record(r.drop_first()) + t);
        lemma_parse_record_of_encoded(r.drop_first(), t);
        assert(seq![r[0]] + r.drop_first() =~= r);
    }
}

/// The round-trip law of the CSV codec: parsing what the writer produced
/// yields exactly the written records, with no error.
pub proof fn lemma_csv_round_trip(rs: Seq<Seq<Seq<char>>>)
    requires
        forall|i: int| 0 <= i < rs.len() ==> (#[trigger] rs[i]).len() >= 1,
    ensures
        spec_parse_all(spec_csv_encode(rs)) == (rs, false),
    decreases rs.len(),
{
    let s = spec_csv_encode(rs);
    if rs.len() == 0 {
        assert(s.len() == 0);
        assert(rs =~= Seq::<Seq<Seq<char>>>::empty());
    } else {
        let t = seq!['\n'] + spec_csv_encode(rs.drop_first());
        assert(s =~= spec_csv_record(rs[0]) + t);
        assert(t[0] == '\n');
        assert(s.len() > 0) by {
            assert(s.len() == spec_csv_record(rs[0]).len() + t.len());
            assert(t.len() >= 1);
        }
        lemma_parse_record_of_encoded(rs[0], t);
        assert(t.drop_first() =~= spec_csv_encode(rs.drop_first()));
        assert(spec_csv_encode(rs.drop_first()).len() < s.len());
        lemma_csv_round_trip(rs.drop_first());
        assert(seq![rs[0]] + rs.drop_first() =~= rs);
        let (rs2, e2) = spec_parse_all(spec_csv_encode(rs.drop_first()));
        assert(spec_parse_all(s) == (seq![rs[0]] + rs2, e2));
    }
}

/// The export/import round-trip law: when the text a table exported is
/// imported into a table of the same width, every record lands as one
/// stored row whose values reproduce the record — as they stand for plain
/// columns, and decrypting back to them for encrypted columns.  (The
/// header travels as the first record: a reader that does not want it as
/// data strips it before importing.)
pub proof fn lemma_import_of_export_reproduces(
    db0: VaultDb,
    db1: VaultDb,
    key_id: Seq<char>,
    table_id: u64,
    vt: VaultTable,
    r: Result<(), VaultError>,
)
    requires
        db0.wf(),
        spec_import_outcome(
            db0,
            db1,
            key_id,
            table_id,
            spec_csv_encode(spec_export_records(vt)),
            r,
        ),
        vt.columns@.len() > 0,
        forall|i: int|
            0 <= i < vt.rows@.len() ==> (#[trigger] vt.rows@[i]).cells@.len()
                == vt.columns@.len(),
        db0.spec_has_table(table_id),
        forall|k: int|
            0 <= k < db0.tables@.len() && (#[trigger] db0.tables@[k]).index.id == table_id ==> {
                let t0 = db0.tables@[k];
                &&& t0.columns@.len() == vt.columns@.len()
                &&& t0.next_row_id + 1 + vt.rows@.len() <= u64::MAX
                &&& forall|j: int|
                    0 <= j < t0.columns@.len() && (#[trigger] t0.columns@[j]).encrypted ==> {
                        &&& crate::crypt::spec_can_encrypt(key_id, vt.columns@[j].ui_name@)
                        &&& forall|a: int|
                            0 <= a < vt.rows@.len() ==> crate::crypt::spec_can_encrypt(
                                key_id,
                                (#[trigger] vt.rows@[a]).cells@[j].data@,
                            )
                    }
            },
    ensures
        r is Ok,
        exists|k: int|
            {
                &&& 0 <= k < db0.tables@.len()
                &&& (#[trigger] db0.tables@[k]).index.id == table_id
                &&& {
                    let t0 = db0.tables@[k];
                    let t1 = db1.tables@[k];
                    &&& t1.rows@.len() == t0.rows@.len() + 1 + vt.rows@.len()
                    &&& forall|a: int|
                        0 <= a < vt.rows@.len() ==> spec_imported_row_ok(
                            key_id,
                            (#[trigger] vt.rows@[a]).cells@.map_values(
                                |c: crate::data::TableCell| c.data@,
                            ),
                            t0.columns@,
                            t1.rows@[t0.rows@.len() + 1 + a].values@,
                        )
                }
            },
{
    let records = spec_export_records(vt);
    assert forall|i: int| 0 <= i < records.len() implies (#[trigger] records[i]).len() >= 1 by {
        if i > 0 {
            assert(records[i] == vt.rows@.map_values(
                |r2: crate::data::TableRow| r2.cells@.map_values(
                    |c2: crate::data::TableCell| c2.data@,
                ),
            )[i - 1]);
        }
    }
    lemma_csv_round_trip(records);
    if r == Err::<(), VaultError>(VaultError::NotFound) {
        assert(!db0.spec_has_table(table_id));
        assert(false);
    }
    let k = choose|k: int|
        {
            &&& 0 <= k < db0.tables@.len()
            &&& (#[trigger] db0.tables@[k]).index.id == table_id
            &&& db1.tables@.len() == db0.tables@.len()
            &&& db1.next_table_id == db0.next_table_id
            &&& db1.next_column_id == db0.next_column_id
            &&& forall|l: int|
                0 <= l < db0.tables@.len() && l != k ==> db1.tables@[l] == db0.tables@[l]
            &&& {
                let t0 = db0.tables@[k];
                let t1 = db1.tables@[k];
                let ncols = t0.columns@.len() as int;
                let p = spec_good_prefix(records, ncols);
                &&& t1.index == t0.index
                &&& t1.columns == t0.columns
                &&& {
                    let m = t1.rows@.len() - t0.rows@.len();
                    {
                        &&& 0 <= m <= p
                        &&& t1.rows@.len() == t0.rows@.len() + m
                        &&& t1.rows@.subrange(0, t0.rows@.len() as int) == t0.rows@
                        &&& t1.next_row_id == t0.next_row_id + m
                        &&& forall|a: int|
                            0 <= a < m ==> {
                                let nr = #[trigger] t1.rows@[t0.rows@.len() + a];
                                &&& nr.id == t0.next_row_id + a
                                &&& spec_imported_row_ok(
                                    key_id,
                                    records[a],
                                    t0.columns@,
                                    nr.values@,
                                )
                            }
                        &&& match r {
                            Ok(_) => m == records.len() && p == records.len() && !spec_parse_all(
                                spec_csv_encode(spec_export_records(vt)),
                            ).1,
                            Err(VaultError::ColumnMismatch) => m == p && p < records.len(),
                            Err(VaultError::ValidationError) => m == p && p == records.len()
                                && spec_parse_all(spec_csv_encode(spec_export_records(vt))).1,
                            Err(VaultError::CryptoError) => m < p && exists|j: int|
                                0 <= j < t0.columns@.len() && (
                                #[trigger] t0.columns@[j]).encrypted
                                    && !crate::crypt::spec_can_encrypt(key_id, records[m][j]),
                            Err(VaultError::StorageError) => m < p && t0.next_row_id + m
                                == u64::MAX,
                            Err(VaultError::NotFound) => false,
                        }
                    }
                }
            }
        };
    let t0 = db0.tables@[k];
    let t1 = db1.tables@[k];
    let ncols = t0.columns@.len() as int;
    let p = spec_good_prefix(records, ncols);
    let m = t1.rows@.len() - t0.rows@.len();
    assert(records.len() == 1 + vt.rows@.len());
    let rowviews = vt.rows@.map_values(
        |r2: crate::data::TableRow| r2.cells@.map_values(|c2: crate::data::TableCell| c2.data@),
    );
    assert forall|a: int| 0 <= a < records.len() implies (#[trigger] records[a]).len() == ncols
        by {
        if a == 0 {
            assert(records[0] == vt.columns@.map_values(
                |c: crate::data::ColumnIndexEntry| c.ui_name@,
            ));
        } else {
            assert(records[a] == rowviews[a - 1]);
        }
    }
    lemma_good_prefix_of_good(records, ncols, records.len() as int);
    lemma_good_prefix_le_len(records, ncols);
    assert(p == records.len());
    match r {
        Ok(_) => {},
        Err(e) => {
            match e {
                VaultError::CryptoError => {
                    let jw = choose|j: int|
                        0 <= j < t0.columns@.len() && (#[trigger] t0.columns@[j]).encrypted
                            && !crate::crypt::spec_can_encrypt(key_id, records[m][j]);
                    if m == 0 {
                        assert(records[0][jw] == vt.columns@[jw].ui_name@);
                    } else {
                        assert(records[m] == rowviews[m - 1]);
                        assert(records[m][jw] == vt.rows@[m - 1].cells@[jw].data@);
                    }
                    assert(false);
                },
                VaultError::StorageError => {
                    assert(m <= vt.rows@.len());
                    assert(t0.next_row_id + m < u64::MAX);
                    assert(false);
                },
                _ => {
                    assert(false);
                },
            }
        },
    }
    assert(r is Ok);
    assert forall|a: int| 0 <= a < vt.rows@.len() implies spec_imported_row_ok(
        key_id,
        (#[trigger] vt.rows@[a]).cells@.map_values(|c: crate::data::TableCell| c.data@),
        t0.columns@,
        t1.rows@[t0.rows@.len() + 1 + a].values@,
    ) by {
        let nr = t1.rows@[t0.rows@.len() + (a + 1)];
        assert(spec_imported_row_ok(key_id, records[a + 1], t0.columns@, nr.values@));
        assert(records[a + 1] == vt.rows@.map_values(
            |r2: crate::data::TableRow| r2.cells@.map_values(
                |c2: crate::data::TableCell| c2.data@,
            ),
        )[a]);
    }
}

} // verus!
