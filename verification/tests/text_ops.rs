use netblocker::text::{lex_le_exec, str_eq};

#[test]
fn string_equality_compares_contents() {
    assert!(str_eq("", ""));
    assert!(str_eq("abc", "abc"));
    assert!(!str_eq("abc", "abd"));
    assert!(!str_eq("abc", "abcd"));
    assert!(!str_eq("Abc", "abc"));
}

#[test]
fn lexicographic_order_follows_code_points() {
    assert!(lex_le_exec("", ""));
    assert!(lex_le_exec("", "a"));
    assert!(!lex_le_exec("a", ""));
    assert!(lex_le_exec("abc", "abc"));
    assert!(lex_le_exec("abc", "abd"));
    assert!(!lex_le_exec("abd", "abc"));
    assert!(lex_le_exec("ab", "abc"));
    assert!(!lex_le_exec("abc", "ab"));
    // upper-case letters precede lower-case ones by code point
    assert!(lex_le_exec("B", "a"));
}
