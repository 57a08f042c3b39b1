//! The pattern table: the closed, ordered set of lexical categories.
//!
//! Order in the table is the disambiguation rule of the whole lexer: when
//! a word is classified, the first pattern in table order that matches a
//! prefix of the word wins.  Keywords therefore stand before `ident`,
//! `decimal` before `integer`, and every multi-character operator before
//! each of its single-character prefixes.

use vstd::prelude::*;

use crate::text::{
    chars_to_string, digit_char, ident_char, is_digit, is_ident_char, is_letter, is_space,
    letter_char, space_char, str_to_chars,
};

verus! {

/// How one lexical category recognizes a prefix of a word.
///
/// `Keyword` matches its exact spelling only when the next character could
/// not continue an identifier, so a keyword never swallows the front of a
/// longer identifier.  `Exact` matches its spelling unconditionally and
/// serves for operators and punctuation.  The remaining matchers recognize
/// the variable-length categories.
#[derive(Debug)]
pub enum Matcher {
    Keyword(Vec<char>),
    Exact(Vec<char>),
    Ident,
    Decimal,
    Integer,
    StringLit,
    CharLit,
    Whitespace,
}

/// The mathematical value of a [`Matcher`].
pub ghost enum MatcherModel {
    Keyword(Seq<char>),
    Exact(Seq<char>),
    Ident,
    Decimal,
    Integer,
    StringLit,
    CharLit,
    Whitespace,
}

impl View for Matcher {
    type V = MatcherModel;

    open spec fn view(&self) -> MatcherModel {
        match self {
            Matcher::Keyword(lit) => MatcherModel::Keyword(lit@),
            Matcher::Exact(lit) => MatcherModel::Exact(lit@),
            Matcher::Ident => MatcherModel::Ident,
            Matcher::Decimal => MatcherModel::Decimal,
            Matcher::Integer => MatcherModel::Integer,
            Matcher::StringLit => MatcherModel::StringLit,
            Matcher::CharLit => MatcherModel::CharLit,
            Matcher::Whitespace => MatcherModel::Whitespace,
        }
    }
}

/// One entry of the table: a category label and its matcher.
#[derive(Debug)]
pub struct Pattern {
    pub name: String,
    pub matcher: Matcher,
}

/// The mathematical value of a [`Pattern`].
pub ghost struct PatternModel {
    pub name: Seq<char>,
    pub matcher: MatcherModel,
}

impl View for Pattern {
    type V = PatternModel;

    open spec fn view(&self) -> PatternModel {
        PatternModel { name: self.name@, matcher: self.matcher@ }
    }
}

/// The models of a vector of patterns.
pub open spec fn models(ps: Seq<Pattern>) -> Seq<PatternModel> {
    ps.map_values(|p: Pattern| p@)
}

/// Length of the run of decimal digits in `w` starting at `i`.
pub open spec fn digit_run(w: Seq<char>, i: int) -> nat
    decreases w.len() - i,
{
    if i < 0 || i >= w.len() || !is_digit(w[i]) {
        0
    } else {
        1 + digit_run(w, i + 1)
    }
}

/// Length of the run of identifier characters in `w` starting at `i`.
pub open spec fn ident_run(w: Seq<char>, i: int) -> nat
    decreases w.len() - i,
{
    if i < 0 || i >= w.len() || !is_ident_char(w[i]) {
        0
    } else {
        1 + ident_run(w, i + 1)
    }
}

/// Length of the run of whitespace characters in `w` starting at `i`.
pub open spec fn space_run(w: Seq<char>, i: int) -> nat
    decreases w.len() - i,
{
    if i < 0 || i >= w.len() || !is_space(w[i]) {
        0
    } else {
        1 + space_run(w, i + 1)
    }
}

/// Index of the quote that closes a string literal whose content starts at
/// `i`: scanning forward, a backslash skips the following (escaped)
/// character, and the first unescaped `"` closes the literal.  `None` when
/// the literal never closes.
pub open spec fn string_close(w: Seq<char>, i: int) -> Option<int>
    decreases w.len() - i,
{
    if i < 0 || i >= w.len() {
        None
    } else if w[i] == '"' {
        Some(i)
    } else if w[i] == '\\' {
        if i + 1 < w.len() {
            string_close(w, i + 2)
        } else {
            None
        }
    } else {
        string_close(w, i + 1)
    }
}

/// What a matcher recognizes at the front of the word `w`: `Some(l)` when
/// it matches the prefix of length `l`, `None` when it does not match at
/// the start of `w`.
pub open spec fn match_len(m: MatcherModel, w: Seq<char>) -> Option<int> {
    match m {
        MatcherModel::Keyword(lit) => if 1 <= lit.len() <= w.len() && w.take(lit.len() as int)
            == lit && (w.len() == lit.len() || !is_ident_char(w[lit.len() as int])) {
            Some(lit.len() as int)
        } else {
            None
        },
        MatcherModel::Exact(lit) => if 1 <= lit.len() <= w.len() && w.take(lit.len() as int)
            == lit {
            Some(lit.len() as int)
        } else {
            None
        },
        MatcherModel::Ident => if w.len() > 0 && is_letter(w[0]) {
            Some(1 + ident_run(w, 1) as int)
        } else {
            None
        },
        MatcherModel::Decimal => {
            let d = digit_run(w, 0) as int;
            if 0 < d < w.len() && w[d] == '.' {
                Some(d + 1 + digit_run(w, d + 1))
            } else {
                None
            }
        },
        MatcherModel::Integer => if w.len() > 0 && is_digit(w[0]) {
            Some(digit_run(w, 0) as int)
        } else {
            None
        },
        MatcherModel::StringLit => if w.len() > 0 && w[0] == '"' {
            match string_close(w, 1) {
                Some(e) => Some(e + 1),
                None => None,
            }
        } else {
            None
        },
        MatcherModel::CharLit => if w.len() >= 3 && w[0] == '\'' && w[1] != '\'' && w[1] != '\\'
            && w[1] != '\n' && w[2] == '\'' {
            Some(3)
        } else if w.len() >= 4 && w[0] == '\'' && w[1] == '\\' && w[2] != '\n' && w[3] == '\'' {
            Some(4)
        } else {
            None
        },
        MatcherModel::Whitespace => if w.len() > 0 && is_space(w[0]) {
            Some(space_run(w, 0) as int)
        } else {
            None
        },
    }
}

/// A digit run starting inside `w` ends inside `w`.
pub proof fn lemma_digit_run_bound(w: Seq<char>, i: int)
    requires
        0 <= i <= w.len(),
    ensures
        i + digit_run(w, i) <= w.len(),
    decreases w.len() - i,
{
    if i < w.len() && is_digit(w[i]) {
        lemma_digit_run_bound(w, i + 1);
    }
}

/// An identifier run starting inside `w` ends inside `w`.
pub proof fn lemma_ident_run_bound(w: Seq<char>, i: int)
    requires
        0 <= i <= w.len(),
    ensures
        i + ident_run(w, i) <= w.len(),
    decreases w.len() - i,
{
    if i < w.len() && is_ident_char(w[i]) {
        lemma_ident_run_bound(w, i + 1);
    }
}

/// A whitespace run starting inside `w` ends inside `w`.
pub proof fn lemma_space_run_bound(w: Seq<char>, i: int)
    requires
        0 <= i <= w.len(),
    ensures
        i + space_run(w, i) <= w.len(),
    decreases w.len() - i,
{
    if i < w.len() && is_space(w[i]) {
        lemma_space_run_bound(w, i + 1);
    }
}

/// The closing quote found by [`string_close`] lies inside `w`, at or
/// after the start of the search.
pub proof fn lemma_string_close_bound(w: Seq<char>, i: int)
    requires
        0 <= i,
    ensures
        string_close(w, i) matches Some(e) ==> i <= e < w.len(),
    decreases w.len() - i,
{
    if i < w.len() && w[i] != '"' {
        if w[i] == '\\' {
            if i + 1 < w.len() {
                lemma_string_close_bound(w, i + 2);
            }
        } else {
            lemma_string_close_bound(w, i + 1);
        }
    }
}

/// Every successful match consumes at least one character and no more
/// than the whole word.
pub proof fn lemma_match_len_bounds(m: MatcherModel, w: Seq<char>)
    ensures
        match_len(m, w) matches Some(l) ==> 1 <= l <= w.len(),
{
    match m {
        MatcherModel::Ident => {
            if w.len() > 0 && is_letter(w[0]) {
                lemma_ident_run_bound(w, 1);
            }
        },
        MatcherModel::Decimal => {
            let d = digit_run(w, 0) as int;
            if 0 < d < w.len() && w[d] == '.' {
                lemma_digit_run_bound(w, d + 1);
            }
        },
        MatcherModel::Integer => {
            if w.len() > 0 && is_digit(w[0]) {
                lemma_digit_run_bound(w, 0);
            }
        },
        MatcherModel::StringLit => {
            if w.len() > 0 && w[0] == '"' {
                lemma_string_close_bound(w, 1);
            }
        },
        MatcherModel::Whitespace => {
            if w.len() > 0 && is_space(w[0]) {
                lemma_space_run_bound(w, 0);
            }
        },
        _ => {},
    }
}

/// A table entry whose category name is its own spelling.
pub open spec fn kw(s: Seq<char>) -> PatternModel {
    PatternModel { name: s, matcher: MatcherModel::Keyword(s) }
}

/// A keyword entry whose category name differs from its spelling.
pub open spec fn named_kw(name: Seq<char>, lit: Seq<char>) -> PatternModel {
    PatternModel { name: name, matcher: MatcherModel::Keyword(lit) }
}

/// An operator or punctuation entry: name and exact spelling.
pub open spec fn op(name: Seq<char>, lit: Seq<char>) -> PatternModel {
    PatternModel { name: name, matcher: MatcherModel::Exact(lit) }
}

/// The external-linkage keyword, spelled out character by character.
pub open spec fn linkage_kw() -> Seq<char> {
    seq!['e', 'x', 't', 'e', 'r', 'n']
}

/// The keyword entries, in table order.
pub open spec fn keyword_patterns() -> Seq<PatternModel> {
    seq![
        kw("auto"@),
        named_kw("bool"@, "_Bool"@),
        kw("break"@),
        kw("case"@),
        kw("char"@),
        named_kw("complex"@, "_Complex"@),
        kw("const"@),
        kw("continue"@),
        kw("default"@),
        kw("do"@),
        kw("double"@),
        kw("else"@),
        kw("enum"@),
        kw(linkage_kw()),
        kw("float"@),
        kw("for"@),
        kw("goto"@),
        kw("if"@),
        named_kw("imaginary"@, "_Imaginary"@),
        kw("inline"@),
        kw("int"@),
        kw("long"@),
        kw("register"@),
        kw("restrict"@),
        kw("return"@),
        kw("short"@),
        kw("signed"@),
        kw("sizeof"@),
        kw("static"@),
        kw("struct"@),
        kw("switch"@),
        kw("typedef"@),
        kw("union"@),
        kw("unsigned"@),
        kw("void"@),
        kw("volatile"@),
        kw("while"@),
    ]
}

/// The identifier and literal entries, in table order: `ident`, then
/// `decimal` before `integer`, then the quoted literals.
pub open spec fn class_patterns() -> Seq<PatternModel> {
    seq![
        PatternModel { name: "ident"@, matcher: MatcherModel::Ident },
        PatternModel { name: "decimal"@, matcher: MatcherModel::Decimal },
        PatternModel { name: "integer"@, matcher: MatcherModel::Integer },
        PatternModel { name: "string_literal"@, matcher: MatcherModel::StringLit },
        PatternModel { name: "character_literal"@, matcher: MatcherModel::CharLit },
    ]
}

/// The multi-character operator entries, each before every entry that
/// spells one of its prefixes.
pub open spec fn operator_patterns() -> Seq<PatternModel> {
    seq![
        op("shift_right_assign"@, ">>="@),
        op("shift_left_assign"@, "<<="@),
        op("add_assign"@, "+="@),
        op("sub_assign"@, "-="@),
        op("mul_assign"@, "*="@),
        op("div_assign"@, "/="@),
        op("mod_assign"@, "%="@),
        op("and_assign"@, "&="@),
        op("xor_assign"@, "^="@),
        op("or_assign"@, "|="@),
        op("shift_right"@, ">>"@),
        op("shift_left"@, "<<"@),
        op("increment"@, "++"@),
        op("decrement"@, "--"@),
        op("deference_member"@, "->"@),
        op("and"@, "&&"@),
        op("or"@, "||"@),
        op("le"@, "<="@),
        op("ge"@, ">="@),
        op("eq"@, "=="@),
        op("ne"@, "!="@),
    ]
}

/// The single-character punctuation and operator entries.
pub open spec fn punct_patterns() -> Seq<PatternModel> {
    seq![
        op("semicolon"@, ";"@),
        op("open_brace"@, "{"@),
        op("close_brace"@, "}"@),
        op("comma"@, ","@),
        op("colon"@, ":"@),
        op("equals"@, "="@),
        op("open_paren"@, "("@),
        op("close_paren"@, ")"@),
        op("open_bracket"@, "["@),
        op("close_bracket"@, "]"@),
        op("period"@, "."@),
        op("ampersand"@, "&"@),
        op("bang"@, "!"@),
        op("tilde"@, "~"@),
        op("dash"@, "-"@),
        op("plus"@, "+"@),
        op("asterisk"@, "*"@),
        op("forward_slash"@, "/"@),
        op("percent"@, "%"@),
        op("lt"@, "<"@),
        op("gt"@, ">"@),
        op("caret"@, "^"@),
        op("bar"@, "|"@),
        op("question_mark"@, "?"@),
    ]
}

/// The whole pattern table, in the order that decides every
/// classification: keywords, identifier and literal classes,
/// multi-character operators, single-character operators and punctuation,
/// and whitespace last.
pub open spec fn catalog() -> Seq<PatternModel> {
    keyword_patterns() + class_patterns() + operator_patterns() + punct_patterns() + seq![
        PatternModel { name: "whitespace"@, matcher: MatcherModel::Whitespace },
    ]
}

/// Executable test whether `lit` is a prefix of `w`.
fn has_prefix(w: &Vec<char>, lit: &Vec<char>) -> (r: bool)
    ensures
        r == (lit@.len() <= w@.len() && w@.take(lit@.len() as int) == lit@),
{
    let n = lit.len();
    if n > w.len() {
        return false;
    }
    let mut i: usize = 0;
    while i < n
        invariant
            i <= n == lit@.len() <= w@.len(),
            forall|j: int| 0 <= j < i ==> w@[j] == lit@[j],
        decreases n - i,
    {
        if w[i] != lit[i] {
            assert(w@.take(lit@.len() as int)[i as int] != lit@[i as int]);
            return false;
        }
        i = i + 1;
    }
    proof {
        assert(w@.take(lit@.len() as int) =~= lit@);
    }
    true
}

/// Executable length of the digit run starting at `from`.
fn digit_run_len(w: &Vec<char>, from: usize) -> (r: usize)
    requires
        from <= w@.len(),
    ensures
        r == digit_run(w@, from as int),
        from + r <= w@.len(),
{
    let mut i: usize = from;
    while i < w.len() && digit_char(w[i])
        invariant
            from <= i <= w@.len(),
            digit_run(w@, from as int) == i - from + digit_run(w@, i as int),
        decreases w@.len() - i,
    {
        i = i + 1;
    }
    i - from
}

/// Executable length of the identifier-character run starting at `from`.
fn ident_run_len(w: &Vec<char>, from: usize) -> (r: usize)
    requires
        from <= w@.len(),
    ensures
        r == ident_run(w@, from as int),
        from + r <= w@.len(),
{
    let mut i: usize = from;
    while i < w.len() && ident_char(w[i])
        invariant
            from <= i <= w@.len(),
            ident_run(w@, from as int) == i - from + ident_run(w@, i as int),
        decreases w@.len() - i,
    {
        i = i + 1;
    }
    i - from
}

/// Executable length of the whitespace run starting at `from`.
pub(crate) fn space_run_len(w: &Vec<char>, from: usize) -> (r: usize)
    requires
        from <= w@.len(),
    ensures
        r == space_run(w@, from as int),
        from + r <= w@.len(),
{
    let mut i: usize = from;
    while i < w.len() && space_char(w[i])
        invariant
            from <= i <= w@.len(),
            space_run(w@, from as int) == i - from + space_run(w@, i as int),
        decreases w@.len() - i,
    {
        i = i + 1;
    }
    i - from
}

/// Executable search for the closing quote of a string literal.
fn find_string_close(w: &Vec<char>, from: usize) -> (r: Option<usize>)
    requires
        from <= w@.len(),
    ensures
        match r {
            Some(e) => string_close(w@, from as int) == Some(e as int) && from <= e < w@.len(),
            None => string_close(w@, from as int) is None,
        },
{
    let mut i: usize = from;
    while i < w.len()
        invariant
            from <= i,
            string_close(w@, from as int) == string_close(w@, i as int),
        decreases w@.len() - i,
    {
        if w[i] == '"' {
            proof {
                lemma_string_close_bound(w@, from as int);
            }
            return Some(i);
        } else if w[i] == '\\' {
            if i + 1 < w.len() {
                i = i + 2;
            } else {
                return None;
            }
        } else {
            i = i + 1;
        }
    }
    None
}

impl Matcher {
    /// What this matcher recognizes at the front of `w`, as
    /// [`match_len`] states it.
    pub fn try_match(&self, w: &Vec<char>) -> (r: Option<usize>)
        ensures
            match r {
                Some(l) => match_len(self@, w@) == Some(l as int) && 1 <= l <= w@.len(),
                None => match_len(self@, w@) is None,
            },
    {
        proof {
            lemma_match_len_bounds(self@, w@);
        }
        match self {
            Matcher::Keyword(lit) => {
                if lit.len() >= 1 && has_prefix(w, lit) && (w.len() == lit.len() || !ident_char(
                    w[lit.len()],
                )) {
                    Some(lit.len())
                } else {
                    None
                }
            },
            Matcher::Exact(lit) => {
                if lit.len() >= 1 && has_prefix(w, lit) {
                    Some(lit.len())
                } else {
                    None
                }
            },
            Matcher::Ident => {
                if w.len() > 0 && letter_char(w[0]) {
                    Some(1 + ident_run_len(w, 1))
                } else {
                    None
                }
            },
            Matcher::Decimal => {
                let d = digit_run_len(w, 0);
                if 0 < d && d < w.len() && w[d] == '.' {
                    Some(d + 1 + digit_run_len(w, d + 1))
                } else {
                    None
                }
            },
            Matcher::Integer => {
                if w.len() > 0 && digit_char(w[0]) {
                    Some(digit_run_len(w, 0))
                } else {
                    None
                }
            },
            Matcher::StringLit => {
                if w.len() > 0 && w[0] == '"' {
                    match find_string_close(w, 1) {
                        Some(e) => Some(e + 1),
                        None => None,
                    }
                } else {
                    None
                }
            },
            Matcher::CharLit => {
                if w.len() >= 3 && w[0] == '\'' && w[1] != '\'' && w[1] != '\\' && w[1] != '\n'
                    && w[2] == '\'' {
                    Some(3)
                } else if w.len() >= 4 && w[0] == '\'' && w[1] == '\\' && w[2] != '\n' && w[3]
                    == '\'' {
                    Some(4)
                } else {
                    None
                }
            },
            Matcher::Whitespace => {
                if w.len() > 0 && space_char(w[0]) {
                    Some(space_run_len(w, 0))
                } else {
                    None
                }
            },
        }
    }
}

/// Builds a keyword entry named by its own spelling.
fn kw_pattern(s: &str) -> (p: Pattern)
    ensures
        p@ == kw(s@),
{
    Pattern { name: s.to_owned(), matcher: Matcher::Keyword(str_to_chars(s)) }
}

/// Builds a keyword entry whose name differs from its spelling.
fn named_kw_pattern(name: &str, lit: &str) -> (p: Pattern)
    ensures
        p@ == named_kw(name@, lit@),
{
    Pattern { name: name.to_owned(), matcher: Matcher::Keyword(str_to_chars(lit)) }
}

/// Builds an operator or punctuation entry.
fn op_pattern(name: &str, lit: &str) -> (p: Pattern)
    ensures
        p@ == op(name@, lit@),
{
    Pattern { name: name.to_owned(), matcher: Matcher::Exact(str_to_chars(lit)) }
}

/// Builds the entry for the external-linkage keyword.
fn linkage_kw_pattern() -> (p: Pattern)
    ensures
        p@ == kw(linkage_kw()),
{
    let mut v: Vec<char> = Vec::new();
    v.push('e');
    v.push('x');
    v.push('t');
    v.push('e');
    v.push('r');
    v.push('n');
    proof {
        assert(v@ =~= linkage_kw());
    }
    let name = chars_to_string(&v, 0, 6);
    proof {
        assert(name@ =~= linkage_kw());
    }
    Pattern { name, matcher: Matcher::Keyword(v) }
}

/// Builds an entry that carries no spelling of its own.
fn class_pattern(name: &str, m: Matcher) -> (p: Pattern)
    ensures
        p@ == (PatternModel { name: name@, matcher: m@ }),
{
    Pattern { name: name.to_owned(), matcher: m }
}

/// Appends the keyword entries.
#[verifier::rlimit(60)]
fn push_keywords(v: &mut Vec<Pattern>)
    ensures
        models(final(v)@) == models(old(v)@) + keyword_patterns(),
{
    v.push(kw_pattern("auto"));
    v.push(named_kw_pattern("bool", "_Bool"));
    v.push(kw_pattern("break"));
    v.push(kw_pattern("case"));
    v.push(kw_pattern("char"));
    v.push(named_kw_pattern("complex", "_Complex"));
    v.push(kw_pattern("const"));
    v.push(kw_pattern("continue"));
    v.push(kw_pattern("default"));
    v.push(kw_pattern("do"));
    v.push(kw_pattern("double"));
    v.push(kw_pattern("else"));
    v.push(kw_pattern("enum"));
    v.push(linkage_kw_pattern());
    v.push(kw_pattern("float"));
    v.push(kw_pattern("for"));
    v.push(kw_pattern("goto"));
    v.push(kw_pattern("if"));
    v.push(named_kw_pattern("imaginary", "_Imaginary"));
    v.push(kw_pattern("inline"));
    v.push(kw_pattern("int"));
    v.push(kw_pattern("long"));
    v.push(kw_pattern("register"));
    v.push(kw_pattern("restrict"));
    v.push(kw_pattern("return"));
    v.push(kw_pattern("short"));
    v.push(kw_pattern("signed"));
    v.push(kw_pattern("sizeof"));
    v.push(kw_pattern("static"));
    v.push(kw_pattern("struct"));
    v.push(kw_pattern("switch"));
    v.push(kw_pattern("typedef"));
    v.push(kw_pattern("union"));
    v.push(kw_pattern("unsigned"));
    v.push(kw_pattern("void"));
    v.push(kw_pattern("volatile"));
    v.push(kw_pattern("while"));
    proof {
        assert(models(v@) =~= models(old(v)@) + keyword_patterns());
    }
}

/// Appends the identifier and literal entries.
fn push_classes(v: &mut Vec<Pattern>)
    ensures
        models(final(v)@) == models(old(v)@) + class_patterns(),
{
    v.push(class_pattern("ident", Matcher::Ident));
    v.push(class_pattern("decimal", Matcher::Decimal));
    v.push(class_pattern("integer", Matcher::Integer));
    v.push(class_pattern("string_literal", Matcher::StringLit));
    v.push(class_pattern("character_literal", Matcher::CharLit));
    proof {
        assert(models(v@) =~= models(old(v)@) + class_patterns());
    }
}

/// Appends the multi-character operator entries.
#[verifier::rlimit(60)]
fn push_operators(v: &mut Vec<Pattern>)
    ensures
        models(final(v)@) == models(old(v)@) + operator_patterns(),
{
    v.push(op_pattern("shift_right_assign", ">>="));
    v.push(op_pattern("shift_left_assign", "<<="));
    v.push(op_pattern("add_assign", "+="));
    v.push(op_pattern("sub_assign", "-="));
    v.push(op_pattern("mul_assign", "*="));
    v.push(op_pattern("div_assign", "/="));
    v.push(op_pattern("mod_assign", "%="));
    v.push(op_pattern("and_assign", "&="));
    v.push(op_pattern("xor_assign", "^="));
    v.push(op_pattern("or_assign", "|="));
    v.push(op_pattern("shift_right", ">>"));
    v.push(op_pattern("shift_left", "<<"));
    v.push(op_pattern("increment", "++"));
    v.push(op_pattern("decrement", "--"));
    v.push(op_pattern("deference_member", "->"));
    v.push(op_pattern("and", "&&"));
    v.push(op_pattern("or", "||"));
    v.push(op_pattern("le", "<="));
    v.push(op_pattern("ge", ">="));
    v.push(op_pattern("eq", "=="));
    v.push(op_pattern("ne", "!="));
    proof {
        assert(models(v@) =~= models(old(v)@) + operator_patterns());
    }
}

/// Appends the single-character operator and punctuation entries.
#[verifier::rlimit(60)]
fn push_punctuation(v: &mut Vec<Pattern>)
    ensures
        models(final(v)@) == models(old(v)@) + punct_patterns(),
{
    v.push(op_pattern("semicolon", ";"));
    v.push(op_pattern("open_brace", "{"));
    v.push(op_pattern("close_brace", "}"));
    v.push(op_pattern("comma", ","));
    v.push(op_pattern("colon", ":"));
    v.push(op_pattern("equals", "="));
    v.push(op_pattern("open_paren", "("));
    v.push(op_pattern("close_paren", ")"));
    v.push(op_pattern("open_bracket", "["));
    v.push(op_pattern("close_bracket", "]"));
    v.push(op_pattern("period", "."));
    v.push(op_pattern("ampersand", "&"));
    v.push(op_pattern("bang", "!"));
    v.push(op_pattern("tilde", "~"));
    v.push(op_pattern("dash", "-"));
    v.push(op_pattern("plus", "+"));
    v.push(op_pattern("asterisk", "*"));
    v.push(op_pattern("forward_slash", "/"));
    v.push(op_pattern("percent", "%"));
    v.push(op_pattern("lt", "<"));
    v.push(op_pattern("gt", ">"));
    v.push(op_pattern("caret", "^"));
    v.push(op_pattern("bar", "|"));
    v.push(op_pattern("question_mark", "?"));
    proof {
        assert(models(v@) =~= models(old(v)@) + punct_patterns());
    }
}

/// Builds the pattern table, exactly in [`catalog`] order.
pub fn load_patterns() -> (r: Vec<Pattern>)
    ensures
        models(r@) == catalog(),
{
    let mut v: Vec<Pattern> = Vec::new();
    push_keywords(&mut v);
    push_classes(&mut v);
    push_operators(&mut v);
    push_punctuation(&mut v);
    v.push(class_pattern("whitespace", Matcher::Whitespace));
    proof {
        assert(models(v@) =~= catalog());
    }
    v
}

} // verus!
