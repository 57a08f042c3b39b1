//! End-to-end checks of the scanner on concrete source fragments.

use mcc::tokenizer::{run, split_whitespace_and_strings, ScanError};

fn pairs(input: &str) -> Vec<(String, String)> {
    run(input)
        .expect("scan should succeed")
        .into_iter()
        .map(|t| (t.name, t.lexeme))
        .collect()
}

#[test]
fn keyword_int_is_one_keyword_token() {
    let toks = pairs("int");
    assert_eq!(toks, vec![("int".to_string(), "int".to_string())]);
}

#[test]
fn identifier_integer_is_one_ident_token() {
    let toks = pairs("integer");
    assert_eq!(toks, vec![("ident".to_string(), "integer".to_string())]);
}

#[test]
fn keyword_prefix_with_ident_tail_is_one_ident() {
    let toks = pairs("intx");
    assert_eq!(toks, vec![("ident".to_string(), "intx".to_string())]);
}

#[test]
fn keyword_followed_by_punctuation_splits() {
    let toks = pairs("int;");
    assert_eq!(
        toks,
        vec![
            ("int".to_string(), "int".to_string()),
            ("semicolon".to_string(), ";".to_string()),
        ]
    );
}

#[test]
fn keyword_do_does_not_shadow_double() {
    assert_eq!(pairs("double"), vec![("double".to_string(), "double".to_string())]);
    assert_eq!(pairs("doubles"), vec![("ident".to_string(), "doubles".to_string())]);
    assert_eq!(pairs("do"), vec![("do".to_string(), "do".to_string())]);
}

#[test]
fn shift_right_assign_is_one_token() {
    let toks = pairs(">>=");
    assert_eq!(toks, vec![("shift_right_assign".to_string(), ">>=".to_string())]);
}

#[test]
fn shift_right_is_one_token() {
    let toks = pairs(">>");
    assert_eq!(toks, vec![("shift_right".to_string(), ">>".to_string())]);
}

#[test]
fn greater_than_is_one_token() {
    let toks = pairs(">");
    assert_eq!(toks, vec![("gt".to_string(), ">".to_string())]);
}

#[test]
fn decimal_literal_is_not_split() {
    let toks = pairs("3.14");
    assert_eq!(toks, vec![("decimal".to_string(), "3.14".to_string())]);
}

#[test]
fn integer_literal() {
    let toks = pairs("314");
    assert_eq!(toks, vec![("integer".to_string(), "314".to_string())]);
}

#[test]
fn decimal_with_no_fraction_digits() {
    let toks = pairs("3.");
    assert_eq!(toks, vec![("decimal".to_string(), "3.".to_string())]);
}

#[test]
fn string_literal_with_whitespace_and_escapes_is_one_word() {
    let words = split_whitespace_and_strings("printf(\"a \\\"b\\\" c\");").unwrap();
    assert_eq!(
        words,
        vec![
            "printf(".to_string(),
            "\"a \\\"b\\\" c\"".to_string(),
            ");".to_string(),
        ]
    );
}

#[test]
fn string_literal_line_tokens() {
    let toks = pairs("printf(\"a \\\"b\\\" c\");");
    assert_eq!(
        toks,
        vec![
            ("ident".to_string(), "printf".to_string()),
            ("open_paren".to_string(), "(".to_string()),
            ("string_literal".to_string(), "\"a \\\"b\\\" c\"".to_string()),
            ("close_paren".to_string(), ")".to_string()),
            ("semicolon".to_string(), ";".to_string()),
        ]
    );
}

#[test]
fn line_comment_is_one_token() {
    let toks = pairs("// hello world");
    assert_eq!(toks, vec![("comment".to_string(), "// hello world".to_string())]);
}

#[test]
fn line_comment_is_trimmed() {
    let toks = pairs("   // padded  ");
    assert_eq!(toks, vec![("comment".to_string(), "// padded".to_string())]);
}

#[test]
fn block_comment_over_three_lines() {
    let toks = pairs("/* start\nmiddle\nend */ int x;");
    assert_eq!(
        toks,
        vec![
            ("comment".to_string(), "/* start\nmiddle\nend */".to_string()),
            ("int".to_string(), "int".to_string()),
            ("ident".to_string(), "x".to_string()),
            ("semicolon".to_string(), ";".to_string()),
        ]
    );
}

#[test]
fn block_comment_on_one_line_keeps_rest_of_line() {
    let toks = pairs("/* c */ int");
    assert_eq!(
        toks,
        vec![
            ("comment".to_string(), "/* c */".to_string()),
            ("int".to_string(), "int".to_string()),
        ]
    );
}

#[test]
fn unterminated_block_comment_is_dropped() {
    let toks = pairs("/* never closed\nstill inside");
    assert_eq!(toks, vec![]);
}

#[test]
fn comment_close_line_rechecks_for_line_comment() {
    let toks = pairs("/* a\nb */ // tail");
    assert_eq!(
        toks,
        vec![
            ("comment".to_string(), "/* a\nb */".to_string()),
            ("comment".to_string(), "// tail".to_string()),
        ]
    );
}

#[test]
fn odd_quote_count_aborts_run() {
    match run("\"") {
        Err(ScanError::MalformedQuoting { line }) => assert_eq!(line, "\""),
        _ => panic!("expected a quoting error"),
    }
}

#[test]
fn odd_quote_count_aborts_split() {
    assert!(split_whitespace_and_strings("a \" b").is_err());
}

#[test]
fn balanced_quotes_split() {
    let words = split_whitespace_and_strings("a \"x y\" b").unwrap();
    assert_eq!(
        words,
        vec!["a".to_string(), "\"x y\"".to_string(), "b".to_string()]
    );
}

#[test]
fn escaped_quote_is_no_delimiter() {
    let words = split_whitespace_and_strings("a\\\" b").unwrap();
    assert_eq!(words, vec!["a\\\"".to_string(), "b".to_string()]);
}

#[test]
fn quoted_char_literal_is_no_delimiter() {
    let toks = pairs("'\"'");
    assert_eq!(toks, vec![("character_literal".to_string(), "'\"'".to_string())]);
}

#[test]
fn char_literals_plain_and_escaped() {
    let toks = pairs("'a' '\\n'");
    assert_eq!(
        toks,
        vec![
            ("character_literal".to_string(), "'a'".to_string()),
            ("character_literal".to_string(), "'\\n'".to_string()),
        ]
    );
}

#[test]
fn unknown_character_is_consumed_one_at_a_time() {
    let toks = pairs("@@");
    assert_eq!(
        toks,
        vec![
            ("unknown".to_string(), "@".to_string()),
            ("unknown".to_string(), "@".to_string()),
        ]
    );
}

#[test]
fn statement_with_operators() {
    let toks = pairs("while (i <= 10) { i += 1; }");
    let expected = vec![
        ("while", "while"),
        ("open_paren", "("),
        ("ident", "i"),
        ("le", "<="),
        ("integer", "10"),
        ("close_paren", ")"),
        ("open_brace", "{"),
        ("ident", "i"),
        ("add_assign", "+="),
        ("integer", "1"),
        ("semicolon", ";"),
        ("close_brace", "}"),
    ];
    let expected: Vec<(String, String)> = expected
        .into_iter()
        .map(|(a, b)| (a.to_string(), b.to_string()))
        .collect();
    assert_eq!(toks, expected);
}

#[test]
fn lexemes_rebuild_line_without_gaps() {
    let toks = pairs("int x = \"a b\";");
    let rebuilt: String = toks.iter().map(|(_, l)| l.as_str()).collect();
    assert_eq!(rebuilt, "intx=\"a b\";");
}

#[test]
fn carriage_return_line_endings() {
    let toks = pairs("int\r\nx");
    assert_eq!(
        toks,
        vec![
            ("int".to_string(), "int".to_string()),
            ("ident".to_string(), "x".to_string()),
        ]
    );
}

#[test]
fn no_whitespace_tokens_appear() {
    let toks = pairs("int  x");
    assert!(toks.iter().all(|(n, _)| n != "whitespace"));
    assert_eq!(toks.len(), 2);
}

#[test]
fn arrow_and_decrement_before_dash() {
    let toks = pairs("p->q--");
    assert_eq!(
        toks,
        vec![
            ("ident".to_string(), "p".to_string()),
            ("deference_member".to_string(), "->".to_string()),
            ("ident".to_string(), "q".to_string()),
            ("decrement".to_string(), "--".to_string()),
        ]
    );
}

#[test]
fn block_comment_ends_at_first_close() {
    let toks = pairs("/* a */ b */");
    assert_eq!(
        toks,
        vec![
            ("comment".to_string(), "/* a */".to_string()),
            ("ident".to_string(), "b".to_string()),
            ("asterisk".to_string(), "*".to_string()),
            ("forward_slash".to_string(), "/".to_string()),
        ]
    );
}

#[test]
fn empty_input_yields_no_tokens() {
    assert_eq!(pairs(""), vec![]);
}

#[test]
fn dotted_number_splits_after_decimal() {
    let toks = pairs("3.14.5");
    assert_eq!(
        toks,
        vec![
            ("decimal".to_string(), "3.14".to_string()),
            ("period".to_string(), ".".to_string()),
            ("integer".to_string(), "5".to_string()),
        ]
    );
}

#[test]
fn underscore_keywords_match_their_spelling() {
    let toks = pairs("_Bool _Complex _Imaginary");
    assert_eq!(
        toks,
        vec![
            ("bool".to_string(), "_Bool".to_string()),
            ("complex".to_string(), "_Complex".to_string()),
            ("imaginary".to_string(), "_Imaginary".to_string()),
        ]
    );
}
