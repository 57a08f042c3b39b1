//! Checks of the pattern table and of single-word classification.

use mcc::tokenizer::get_token;
use mcc::tokenizer::patterns::load_patterns;

#[test]
fn table_starts_with_keywords_and_ends_with_whitespace() {
    let pats = load_patterns();
    assert_eq!(pats.len(), 88);
    assert_eq!(pats[0].name, "auto");
    assert_eq!(pats[36].name, "while");
    assert_eq!(pats[37].name, "ident");
    assert_eq!(pats[38].name, "decimal");
    assert_eq!(pats[39].name, "integer");
    assert_eq!(pats[40].name, "string_literal");
    assert_eq!(pats[41].name, "character_literal");
    assert_eq!(pats[42].name, "shift_right_assign");
    assert_eq!(pats[87].name, "whitespace");
}

#[test]
fn get_token_strips_keyword_prefix() {
    let pats = load_patterns();
    let t = get_token("int;", &pats).unwrap();
    assert_eq!(t.name, "int");
    assert_eq!(t.lexeme, "int");
}

#[test]
fn get_token_longest_identifier_prefix() {
    let pats = load_patterns();
    let t = get_token("abc12+", &pats).unwrap();
    assert_eq!(t.name, "ident");
    assert_eq!(t.lexeme, "abc12");
}

#[test]
fn get_token_none_on_unrecognized_start() {
    let pats = load_patterns();
    assert!(get_token("@x", &pats).is_none());
}

#[test]
fn get_token_whitespace_run() {
    let pats = load_patterns();
    let t = get_token(" \t x", &pats).unwrap();
    assert_eq!(t.name, "whitespace");
    assert_eq!(t.lexeme, " \t ");
}

#[test]
fn get_token_string_literal_stops_at_first_close() {
    let pats = load_patterns();
    let t = get_token("\"ab\"cd", &pats).unwrap();
    assert_eq!(t.name, "string_literal");
    assert_eq!(t.lexeme, "\"ab\"");
}
