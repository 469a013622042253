use password_vault::naming::{gen_extra_column_name, gen_vault_table_name, identifier_is_allowed, u64_to_decimal};
use password_vault::search::{gen_search_string, like_match, search_matches};
use password_vault::strutil::{chars_to_string, lower_chars, str_to_chars};

#[test]
fn table_name_follows_id() {
    assert_eq!(gen_vault_table_name(0), "vault_0");
    assert_eq!(gen_vault_table_name(7), "vault_7");
    assert_eq!(gen_vault_table_name(1234567890), "vault_1234567890");
    assert_eq!(gen_vault_table_name(u64::MAX), "vault_18446744073709551615");
}

#[test]
fn table_names_do_not_collide() {
    let mut seen = Vec::new();
    for id in [0u64, 1, 2, 9, 10, 11, 99, 100, 101, 1000, 10000] {
        let name = gen_vault_table_name(id);
        assert!(!seen.contains(&name));
        seen.push(name);
    }
}

#[test]
fn decimal_rendering() {
    assert_eq!(u64_to_decimal(0), "0");
    assert_eq!(u64_to_decimal(10), "10");
    assert_eq!(u64_to_decimal(90210), "90210");
}

#[test]
fn extra_column_names() {
    assert_eq!(gen_extra_column_name(0), "extra_0");
    assert_eq!(gen_extra_column_name(15), "extra_15");
}

#[test]
fn identifier_gate_admits_only_the_allow_list() {
    for good in ["id", "key_", "password", "extra_0", "extra_42", "vault_7", "vault_0"] {
        assert!(identifier_is_allowed(&good.to_string()), "{}", good);
    }
    for bad in [
        "", "key", "password; DROP TABLE x", "extra_", "extra_01", "extra_1x",
        "vault_", "vault_-1", "vault_18446744073709551616", "users", "extra_ 1",
    ] {
        assert!(!identifier_is_allowed(&bad.to_string()), "{}", bad);
    }
}

#[test]
fn search_pattern_is_escaped_and_wrapped() {
    assert_eq!(gen_search_string("100%_off[x]"), "%100%%!_off![x]%");
}

#[test]
fn search_pattern_plain_query() {
    assert_eq!(gen_search_string(""), "%%");
    assert_eq!(gen_search_string("alice"), "%alice%");
    assert_eq!(gen_search_string("a!b"), "%a!!b%");
}

#[test]
fn like_matching() {
    let p = |s: &str| str_to_chars(s);
    // `%` spans anything, `_` one character, `!` escapes.
    assert!(like_match(&p("%al%"), &p("alice")));
    assert!(like_match(&p("a_ice"), &p("alice")));
    assert!(!like_match(&p("a_ice"), &p("ace")));
    assert!(like_match(&p("!%"), &p("%")));
    assert!(!like_match(&p("!%"), &p("x")));
    assert!(like_match(&p("%"), &p("")));
    assert!(!like_match(&p("abc"), &p("abd")));
}

#[test]
fn search_matches_is_case_insensitive_substring() {
    assert!(search_matches("LICE", "Alice"));
    assert!(search_matches("alice", "ALICE"));
    assert!(!search_matches("bob", "Alice"));
    // An underscore in the query is literal, not a wildcard.
    assert!(search_matches("a_b", "xa_by"));
    assert!(!search_matches("a_b", "xaxby"));
}

#[test]
fn char_utilities_round_trip() {
    let chars = str_to_chars("héllo, wörld");
    assert_eq!(chars_to_string(&chars), "héllo, wörld");
    let lowered = lower_chars(&str_to_chars("MiXeD 123"));
    assert_eq!(chars_to_string(&lowered), "mixed 123");
}
