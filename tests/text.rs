use graphrag_search::text::{canonicalize, collapse_whitespace, normalize_text_for_dedupe, truncate_to_token_limit};

#[test]
fn test_canonicalization() {
    assert_eq!(canonicalize("  John   DOE  "), "john doe");
    assert_eq!(canonicalize("Machine Learning"), "machine learning");
}

#[test]
fn canonicalize_lowers_beyond_ascii() {
    assert_eq!(canonicalize("ÉCOLE  Normale"), "école normale");
}

#[test]
fn collapse_whitespace_joins_words() {
    assert_eq!(collapse_whitespace("\t a \n b  c "), "a b c");
    assert_eq!(collapse_whitespace("   "), "");
}

#[test]
fn normalization_collapses_and_lowercases() {
    assert_eq!(normalize_text_for_dedupe("  Hello, World!! 42 "), "hello world 42");
    assert_eq!(normalize_text_for_dedupe("Alpha beta gamma"), normalize_text_for_dedupe("alpha   BETA\ngamma."));
    assert_eq!(normalize_text_for_dedupe("ÀB c"), "b c");
    assert_eq!(normalize_text_for_dedupe("!!!"), "");
    assert_eq!(normalize_text_for_dedupe(""), "");
}

#[test]
fn token_limit_keeps_short_text_whole() {
    assert_eq!(truncate_to_token_limit("a  b\tc", 5), ("a b c".to_string(), 3, false));
    assert_eq!(truncate_to_token_limit("a b c", 3), ("a b c".to_string(), 3, false));
}

#[test]
fn token_limit_cuts_and_marks() {
    assert_eq!(
        truncate_to_token_limit("one two three four five six", 4),
        ("one two three four ...".to_string(), 4, true)
    );
    assert_eq!(truncate_to_token_limit(" x\u{3000}y ", 1), ("x ...".to_string(), 1, true));
}

#[test]
fn token_limit_edge_cases() {
    assert_eq!(truncate_to_token_limit("", 3), (String::new(), 0, false));
    assert_eq!(truncate_to_token_limit(" \n ", 3), (String::new(), 0, false));
    assert_eq!(truncate_to_token_limit("x y", 0), (String::new(), 0, false));
}
