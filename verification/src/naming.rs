//! Deterministic naming of physical identifiers.
//!
//! Every identifier that is ever spliced into a generated SQL statement comes
//! from this module: the table name `vault_<id>`, the two mandatory column
//! names `key_` and `password`, the extra column names `extra_<n>`, and the
//! fixed `id` column.  Nothing here is ever derived from user text.

use vstd::prelude::*;

verus! {

/// The character for a single decimal digit.
pub open spec fn spec_digit_char(d: nat) -> char {
    if d == 0 {
        '0'
    } else if d == 1 {
        '1'
    } else if d == 2 {
        '2'
    } else if d == 3 {
        '3'
    } else if d == 4 {
        '4'
    } else if d == 5 {
        '5'
    } else if d == 6 {
        '6'
    } else if d == 7 {
        '7'
    } else if d == 8 {
        '8'
    } else {
        '9'
    }
}

/// The usual base-10 rendering of `n`, most significant digit first.
pub open spec fn spec_digits(n: nat) -> Seq<char>
    decreases n,
{
    if n < 10 {
        seq![spec_digit_char(n)]
    } else {
        spec_digits(n / 10) + seq![spec_digit_char(n % 10)]
    }
}

pub proof fn lemma_spec_digits_len(n: nat)
    ensures
        spec_digits(n).len() >= 1,
        n >= 10 ==> spec_digits(n).len() >= 2,
    decreases n,
{
    if n >= 10 {
        lemma_spec_digits_len(n / 10);
    }
}

proof fn lemma_digit_char_injective(a: nat, b: nat)
    requires
        a < 10,
        b < 10,
        spec_digit_char(a) == spec_digit_char(b),
    ensures
        a == b,
{
}

/// Base-10 rendering never maps two numbers to the same string.
pub proof fn lemma_spec_digits_injective(a: nat, b: nat)
    requires
        spec_digits(a) == spec_digits(b),
    ensures
        a == b,
    decreases a,
{
    lemma_spec_digits_len(a);
    lemma_spec_digits_len(b);
    if a < 10 && b < 10 {
        assert(spec_digits(a) == seq![spec_digit_char(a)]);
        assert(spec_digits(b) == seq![spec_digit_char(b)]);
        assert(seq![spec_digit_char(a)][0] == spec_digit_char(a));
        assert(seq![spec_digit_char(b)][0] == spec_digit_char(b));
        lemma_digit_char_injective(a, b);
    } else if a < 10 {
        assert(spec_digits(a).len() == 1);
        assert(spec_digits(b).len() >= 2);
    } else if b < 10 {
        assert(spec_digits(a).len() >= 2);
        assert(spec_digits(b).len() == 1);
    } else {
        let da = spec_digits(a / 10);
        let db = spec_digits(b / 10);
        assert(spec_digits(a).len() == da.len() + 1);
        assert(spec_digits(b).len() == db.len() + 1);
        assert(da.len() == db.len());
        assert(spec_digits(a).last() == spec_digit_char(a % 10));
        assert(spec_digits(b).last() == spec_digit_char(b % 10));
        lemma_digit_char_injective(a % 10, b % 10);
        assert(da =~= db) by {
            assert forall|i: int| 0 <= i < da.len() implies da[i] == db[i] by {
                assert(spec_digits(a)[i] == da[i]);
                assert(spec_digits(b)[i] == db[i]);
            }
        }
        lemma_spec_digits_injective(a / 10, b / 10);
        assert(a == 10 * (a / 10) + a % 10);
        assert(b == 10 * (b / 10) + b % 10);
    }
}

/// A single decimal digit as a string slice.
fn digit_str(d: u64) -> (r: &'static str)
    requires
        d < 10,
    ensures
        r@ =~= seq![spec_digit_char(d as nat)],
{
    proof {
        reveal_strlit("0");
        reveal_strlit("1");
        reveal_strlit("2");
        reveal_strlit("3");
        reveal_strlit("4");
        reveal_strlit("5");
        reveal_strlit("6");
        reveal_strlit("7");
        reveal_strlit("8");
        reveal_strlit("9");
    }
    if d == 0 {
        "0"
    } else if d == 1 {
        "1"
    } else if d == 2 {
        "2"
    } else if d == 3 {
        "3"
    } else if d == 4 {
        "4"
    } else if d == 5 {
        "5"
    } else if d == 6 {
        "6"
    } else if d == 7 {
        "7"
    } else if d == 8 {
        "8"
    } else {
        "9"
    }
}

/// Renders `n` in base 10.
pub fn u64_to_decimal(n: u64) -> (r: String)
    ensures
        r@ == spec_digits(n as nat),
{
    let mut num: u64 = n;
    let mut acc = String::new();
    if num == 0 {
        let r = String::from_str(digit_str(0));
        assert(r@ =~= spec_digits(0));
        return r;
    }
    while num > 0
        invariant
            num > 0 ==> spec_digits(n as nat) =~= spec_digits(num as nat) + acc@,
            num == 0 ==> spec_digits(n as nat) =~= acc@,
        decreases num,
    {
        let d = num % 10;
        let rest = num / 10;
        let next = String::from_str(digit_str(d)).concat(acc.as_str());
        proof {
            if rest > 0 {
                assert(spec_digits(num as nat) =~= spec_digits(rest as nat) + seq![
                    spec_digit_char((d as nat)),
                ]);
                assert(spec_digits(n as nat) =~= spec_digits(rest as nat) + next@);
            } else {
                assert(num < 10);
                assert(spec_digits(num as nat) =~= seq![spec_digit_char(num as nat)]);
                assert(spec_digits(n as nat) =~= next@);
            }
        }
        acc = next;
        num = rest;
    }
    acc
}

/// The physical name of the vault table with the given id: `vault_` followed
/// by the id in base 10.
pub open spec fn spec_vault_table_name(id: u64) -> Seq<char> {
    "vault_"@ + spec_digits(id as nat)
}

/// Generates the physical table name for a vault table id.
pub fn gen_vault_table_name(id: u64) -> (r: String)
    ensures
        r@ == spec_vault_table_name(id),
        is_allowed_identifier(r@),
{
    let r = String::from_str("vault_").concat(u64_to_decimal(id).as_str());
    proof {
        assert(exists|id2: u64| r@ == spec_vault_table_name(id2)) by {
            assert(r@ == spec_vault_table_name(id));
        }
    }
    r
}

/// The physical name of the extra column at position `n`: `extra_<n>`.
pub open spec fn spec_extra_column_name(n: nat) -> Seq<char> {
    "extra_"@ + spec_digits(n)
}

/// Generates the physical column name for the extra column at position `n`.
pub fn gen_extra_column_name(n: u64) -> (r: String)
    ensures
        r@ == spec_extra_column_name(n as nat),
        is_allowed_identifier(r@),
{
    let r = String::from_str("extra_").concat(u64_to_decimal(n).as_str());
    proof {
        assert(exists|n2: nat| r@ == spec_extra_column_name(n2)) by {
            assert(r@ == spec_extra_column_name(n as nat));
        }
    }
    r
}

/// No two table ids ever share a physical table name.
pub proof fn lemma_vault_table_name_injective(a: u64, b: u64)
    requires
        spec_vault_table_name(a) == spec_vault_table_name(b),
    ensures
        a == b,
{
    let pre = "vault_"@;
    let da = spec_digits(a as nat);
    let db = spec_digits(b as nat);
    assert(pre + da == pre + db);
    assert((pre + da).len() == pre.len() + da.len());
    assert((pre + db).len() == pre.len() + db.len());
    assert(da =~= db) by {
        assert forall|i: int| 0 <= i < da.len() implies da[i] == db[i] by {
            assert((pre + da)[pre.len() + i] == da[i]);
            assert((pre + db)[pre.len() + i] == db[i]);
        }
    }
    lemma_spec_digits_injective(a as nat, b as nat);
}

/// The identifiers that may ever be composed into a SQL statement.
pub open spec fn is_allowed_identifier(s: Seq<char>) -> bool {
    ||| s == "id"@
    ||| s == "key_"@
    ||| s == "password"@
    ||| (exists|id: u64| s == spec_vault_table_name(id))
    ||| (exists|n: nat| s == spec_extra_column_name(n))
}

/// A sound runtime gate for the allow-list: `true` only for an allowed
/// identifier.  A numeric suffix is not parsed on trust — the candidate
/// value is re-rendered through the generator and compared, so anything
/// non-canonical (a leading zero, an overflowing number) falls out.
pub fn identifier_is_allowed(name: &String) -> (r: bool)
    ensures
        r ==> is_allowed_identifier(name@),
{
    if *name == String::from_str("id") || *name == String::from_str("key_") || *name
        == String::from_str("password") {
        return true;
    }
    let chars = crate::strutil::str_to_chars(name.as_str());
    if chars.len() < 7 {
        return false;
    }
    let is_extra = chars[0] == 'e' && chars[1] == 'x' && chars[2] == 't' && chars[3] == 'r'
        && chars[4] == 'a' && chars[5] == '_';
    let is_vault = chars[0] == 'v' && chars[1] == 'a' && chars[2] == 'u' && chars[3] == 'l'
        && chars[4] == 't' && chars[5] == '_';
    if !is_extra && !is_vault {
        return false;
    }
    let mut value: u64 = 0;
    let mut i: usize = 6;
    while i < chars.len()
        invariant
            6 <= i <= chars@.len(),
        decreases chars@.len() - i,
    {
        let c = chars[i];
        if c < '0' || c > '9' {
            return false;
        }
        let digit = (c as u8 - 48) as u64;
        value = match value.checked_mul(10) {
            Some(x) => match x.checked_add(digit) {
                Some(y) => y,
                None => {
                    return false;
                },
            },
            None => {
                return false;
            },
        };
        i = i + 1;
    }
    if is_extra {
        let regen = gen_extra_column_name(value);
        if regen == *name {
            proof {
                assert(name@ == spec_extra_column_name(value as nat));
            }
            true
        } else {
            false
        }
    } else {
        let regen = gen_vault_table_name(value);
        if regen == *name {
            proof {
                assert(name@ == spec_vault_table_name(value));
            }
            true
        } else {
            false
        }
    }
}

} // verus!
