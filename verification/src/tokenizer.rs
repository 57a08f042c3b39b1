//! The scanner: turns one source text into an ordered sequence of tokens.

pub mod patterns;
pub mod splitter;

use vstd::prelude::*;

use crate::text::{append_range, chars_to_string, is_space, str_to_chars, vec_range};
use crate::tokenizer::patterns::{
    catalog, lemma_match_len_bounds, load_patterns, match_len, models, space_run, space_run_len,
    Pattern, PatternModel,
};
use crate::tokenizer::splitter::{
    concat_words, kept_chars, lemma_words_rebuild_line, split_words, split_words_spec, word_views,
};

verus! {

/// One classified fragment of source text: the name of the pattern that
/// recognized it, and the exact characters it consumed.
#[derive(Debug)]
pub struct Token {
    pub name: String,
    pub lexeme: String,
}

/// The mathematical value of a [`Token`].
pub ghost struct TokenModel {
    pub name: Seq<char>,
    pub lexeme: Seq<char>,
}

impl View for Token {
    type V = TokenModel;

    open spec fn view(&self) -> TokenModel {
        TokenModel { name: self.name@, lexeme: self.lexeme@ }
    }
}

/// The models of a vector of tokens.
pub open spec fn token_models(ts: Seq<Token>) -> Seq<TokenModel> {
    ts.map_values(|t: Token| t@)
}

/// The error that stops a scan: a line whose recognized string delimiters
/// do not pair up, carried for diagnosis.
#[derive(Debug)]
pub enum ScanError {
    MalformedQuoting { line: String },
}

impl View for ScanError {
    type V = Seq<char>;

    open spec fn view(&self) -> Seq<char> {
        match self {
            ScanError::MalformedQuoting { line } => line@,
        }
    }
}

/// The token of the first pattern in `cat` whose matcher recognizes a
/// prefix of `w`: its category name, and the prefix it consumed.
pub open spec fn first_match(cat: Seq<PatternModel>, w: Seq<char>) -> Option<TokenModel>
    decreases cat.len(),
{
    if cat.len() == 0 {
        None
    } else {
        match match_len(cat[0].matcher, w) {
            Some(l) => Some(TokenModel { name: cat[0].name, lexeme: w.take(l) }),
            None => first_match(cat.drop_first(), w),
        }
    }
}

/// A matched lexeme is a non-empty prefix of the word.
pub proof fn lemma_first_match_lexeme(cat: Seq<PatternModel>, w: Seq<char>)
    ensures
        first_match(cat, w) matches Some(t) ==> 1 <= t.lexeme.len() <= w.len() && t.lexeme
            == w.take(t.lexeme.len() as int),
    decreases cat.len(),
{
    if cat.len() > 0 {
        lemma_match_len_bounds(cat[0].matcher, w);
        lemma_first_match_lexeme(cat.drop_first(), w);
    }
}

/// The token of category `unknown` that the classifier emits, consuming
/// one character, when no pattern matches the front of the word.
pub open spec fn unknown_token(w: Seq<char>) -> TokenModel {
    TokenModel { name: "unknown"@, lexeme: w.take(1) }
}

/// The tokens of one word: repeatedly, the first pattern that matches a
/// prefix of the remainder wins and its lexeme is stripped; when no
/// pattern matches, one character leaves as an `unknown` token, so the
/// loop always advances.
pub open spec fn tokenize_word(cat: Seq<PatternModel>, w: Seq<char>) -> Seq<TokenModel>
    decreases w.len(),
    via tokenize_word_decreases
{
    if w.len() == 0 {
        seq![]
    } else {
        match first_match(cat, w) {
            Some(t) => seq![t] + tokenize_word(cat, w.skip(t.lexeme.len() as int)),
            None => seq![unknown_token(w)] + tokenize_word(cat, w.skip(1)),
        }
    }
}

#[via_fn]
proof fn tokenize_word_decreases(cat: Seq<PatternModel>, w: Seq<char>) {
    lemma_first_match_lexeme(cat, w);
}

/// The tokens of a sequence of words, in order.
pub open spec fn tokenize_words(cat: Seq<PatternModel>, ws: Seq<Seq<char>>) -> Seq<TokenModel>
    decreases ws.len(),
{
    if ws.len() == 0 {
        seq![]
    } else {
        tokenize_word(cat, ws.first()) + tokenize_words(cat, ws.drop_first())
    }
}

/// The tokens of one stretch of code text, or the text itself when its
/// quotes do not pair up.
pub open spec fn classify_text(cat: Seq<PatternModel>, s: Seq<char>) -> Result<
    Seq<TokenModel>,
    Seq<char>,
> {
    match split_words_spec(s) {
        None => Err(s),
        Some(ws) => Ok(tokenize_words(cat, ws)),
    }
}

/// Classifies the front of one word against the table: the first pattern
/// whose matcher recognizes a prefix of `w` yields the token.
fn get_token_core(w: &Vec<char>, patterns: &Vec<Pattern>) -> (r: Option<Token>)
    ensures
        match r {
            Some(t) => first_match(models(patterns@), w@) == Some(t@),
            None => first_match(models(patterns@), w@) is None,
        },
{
    let ghost cat = models(patterns@);
    proof {
        assert(cat.skip(0) =~= cat);
    }
    let mut i: usize = 0;
    while i < patterns.len()
        invariant
            i <= patterns@.len(),
            cat == models(patterns@),
            first_match(cat, w@) == first_match(cat.skip(i as int), w@),
        decreases patterns@.len() - i,
    {
        let ghost tail = cat.skip(i as int);
        proof {
            assert(tail[0] == cat[i as int]);
            assert(cat[i as int] == patterns@[i as int]@);
        }
        match patterns[i].matcher.try_match(w) {
            Some(l) => {
                let name = patterns[i].name.clone();
                let lexeme = chars_to_string(w, 0, l);
                proof {
                    assert(w@.subrange(0, l as int) =~= w@.take(l as int));
                    assert(first_match(tail, w@) == Some(
                        TokenModel { name: tail[0].name, lexeme: w@.take(l as int) },
                    ));
                }
                return Some(Token { name, lexeme });
            },
            None => {
                proof {
                    assert(tail.drop_first() =~= cat.skip(i + 1));
                }
                i = i + 1;
            },
        }
    }
    proof {
        assert(cat.skip(cat.len() as int).len() == 0);
    }
    None
}

/// Classifies the front of one word: the first pattern in `pattern_vec`
/// order whose matcher recognizes a prefix of `word` yields the token,
/// and `None` means no pattern matches at the start of `word`.
pub fn get_token(word: &str, pattern_vec: &Vec<Pattern>) -> (r: Option<Token>)
    ensures
        match r {
            Some(t) => first_match(models(pattern_vec@), word@) == Some(t@),
            None => first_match(models(pattern_vec@), word@) is None,
        },
{
    let w = str_to_chars(word);
    get_token_core(&w, pattern_vec)
}

/// Reduces one word to tokens, appending them to `tokens`: each round
/// strips the winning lexeme from the front of the remainder, or one
/// character as `unknown` when nothing matches.
fn classify_word(word: &Vec<char>, patterns: &Vec<Pattern>, tokens: &mut Vec<Token>)
    ensures
        token_models(final(tokens)@) == token_models(old(tokens)@) + tokenize_word(
            models(patterns@),
            word@,
        ),
{
    let ghost cat = models(patterns@);
    let mut cur: Vec<char> = vec_range(word, 0, word.len());
    proof {
        assert(cur@ =~= word@);
    }
    while cur.len() > 0
        invariant
            cat == models(patterns@),
            token_models(old(tokens)@) + tokenize_word(cat, word@) == token_models(tokens@)
                + tokenize_word(cat, cur@),
        decreases cur@.len(),
    {
        let ghost cur0 = cur@;
        proof {
            lemma_first_match_lexeme(cat, cur@);
        }
        match get_token_core(&cur, patterns) {
            Some(t) => {
                let l = t.lexeme.as_str().unicode_len();
                proof {
                    assert(l == t@.lexeme.len());
                    assert(1 <= l <= cur@.len());
                }
                let rest = vec_range(&cur, l, cur.len());
                tokens.push(t);
                proof {
                    assert(rest@ =~= cur0.skip(l as int));
                    assert(token_models(tokens@) =~= token_models(tokens@.drop_last()) + seq![
                        tokens@.last()@,
                    ]);
                    assert(tokenize_word(cat, cur0) == seq![tokens@.last()@] + tokenize_word(
                        cat,
                        cur0.skip(l as int),
                    ));
                }
                cur = rest;
            },
            None => {
                let t = Token {
                    name: "unknown".to_owned(),
                    lexeme: chars_to_string(&cur, 0, 1),
                };
                let rest = vec_range(&cur, 1, cur.len());
                tokens.push(t);
                proof {
                    assert(rest@ =~= cur0.skip(1));
                    assert(tokens@.last()@ == unknown_token(cur0));
                    assert(token_models(tokens@) =~= token_models(tokens@.drop_last()) + seq![
                        tokens@.last()@,
                    ]);
                    assert(tokenize_word(cat, cur0) == seq![unknown_token(cur0)] + tokenize_word(
                        cat,
                        cur0.skip(1),
                    ));
                }
                cur = rest;
            },
        }
    }
    proof {
        assert(tokenize_word(cat, cur@).len() == 0);
        assert(token_models(tokens@) =~= token_models(tokens@) + tokenize_word(cat, cur@));
    }
}

/// Splits one stretch of code text into words and classifies each; the
/// error reports the text when its quotes do not pair up.
fn classify_rest(text: &Vec<char>, patterns: &Vec<Pattern>, tokens: &mut Vec<Token>) -> (r:
    Option<ScanError>)
    ensures
        match r {
            None => classify_text(models(patterns@), text@) matches Ok(toks) && token_models(
                final(tokens)@,
            ) == token_models(old(tokens)@) + toks,
            Some(e) => classify_text(models(patterns@), text@) == Err::<Seq<TokenModel>, _>(e@)
                && final(tokens)@ == old(tokens)@,
        },
{
    let ghost cat = models(patterns@);
    match split_words(text) {
        None => {
            let line = chars_to_string(text, 0, text.len());
            proof {
                assert(line@ =~= text@);
            }
            Some(ScanError::MalformedQuoting { line })
        },
        Some(words) => {
            let ghost ws = word_views(words@);
            proof {
                assert(ws.skip(0) =~= ws);
            }
            let mut i: usize = 0;
            while i < words.len()
                invariant
                    i <= words@.len(),
                    cat == models(patterns@),
                    ws == word_views(words@),
                    token_models(old(tokens)@) + tokenize_words(cat, ws) == token_models(
                        tokens@,
                    ) + tokenize_words(cat, ws.skip(i as int)),
                decreases words@.len() - i,
            {
                let w = str_to_chars(words[i].as_str());
                proof {
                    let tail = ws.skip(i as int);
                    assert(tail.first() == ws[i as int]);
                    assert(tail.drop_first() =~= ws.skip(i + 1));
                    assert(w@ == ws[i as int]);
                }
                classify_word(&w, patterns, tokens);
                i = i + 1;
            }
            proof {
                assert(tokenize_words(cat, ws.skip(ws.len() as int)).len() == 0);
                assert(token_models(tokens@) + tokenize_words(cat, ws.skip(ws.len() as int))
                    =~= token_models(tokens@));
            }
            None
        },
    }
}

/// Splits one line of code into words on whitespace, keeping each
/// double-quoted string literal one word; the error reports a line whose
/// recognized quotes do not pair up, which stops a scan.
pub fn split_whitespace_and_strings(input: &str) -> (r: Result<Vec<String>, ScanError>)
    ensures
        match r {
            Ok(ws) => split_words_spec(input@) == Some(word_views(ws@)),
            Err(e) => split_words_spec(input@) is None && e@ == input@,
        },
{
    let chars = str_to_chars(input);
    match split_words(&chars) {
        Some(ws) => Ok(ws),
        None => Err(ScanError::MalformedQuoting { line: input.to_owned() }),
    }
}

/// The concatenation of the lexemes of a sequence of tokens.
pub open spec fn lexemes(ts: Seq<TokenModel>) -> Seq<char>
    decreases ts.len(),
{
    if ts.len() == 0 {
        Seq::empty()
    } else {
        ts.first().lexeme + lexemes(ts.drop_first())
    }
}

/// Lexeme concatenation distributes over appending token sequences.
pub proof fn lemma_lexemes_add(a: Seq<TokenModel>, b: Seq<TokenModel>)
    ensures
        lexemes(a + b) == lexemes(a) + lexemes(b),
    decreases a.len(),
{
    if a.len() == 0 {
        assert(a + b =~= b);
        assert(lexemes(a) + lexemes(b) =~= lexemes(b));
    } else {
        lemma_lexemes_add(a.drop_first(), b);
        assert((a + b).drop_first() =~= a.drop_first() + b);
        assert((a + b).first() == a.first());
        assert(a.first().lexeme + (lexemes(a.drop_first()) + lexemes(b)) =~= (a.first().lexeme
            + lexemes(a.drop_first())) + lexemes(b));
    }
}

/// Law: the lexemes of the tokens of one word, concatenated, rebuild the
/// word exactly — classification loses no character and adds none.
pub proof fn lemma_word_tokens_rebuild(cat: Seq<PatternModel>, w: Seq<char>)
    ensures
        lexemes(tokenize_word(cat, w)) == w,
    decreases w.len(),
{
    if w.len() > 0 {
        lemma_first_match_lexeme(cat, w);
        match first_match(cat, w) {
            Some(t) => {
                let l = t.lexeme.len() as int;
                lemma_word_tokens_rebuild(cat, w.skip(l));
                lemma_lexemes_add(seq![t], tokenize_word(cat, w.skip(l)));
                assert(seq![t].drop_first() =~= Seq::<TokenModel>::empty());
                assert(lexemes(Seq::<TokenModel>::empty()) == Seq::<char>::empty());
                assert(t.lexeme + Seq::<char>::empty() =~= t.lexeme);
                assert(w.take(l) + w.skip(l) =~= w);
            },
            None => {
                let t = unknown_token(w);
                lemma_word_tokens_rebuild(cat, w.skip(1));
                lemma_lexemes_add(seq![t], tokenize_word(cat, w.skip(1)));
                assert(seq![t].drop_first() =~= Seq::<TokenModel>::empty());
                assert(lexemes(Seq::<TokenModel>::empty()) == Seq::<char>::empty());
                assert(t.lexeme + Seq::<char>::empty() =~= t.lexeme);
                assert(w.take(1) + w.skip(1) =~= w);
            },
        }
    }
}

/// The lexemes of the tokens of a word sequence rebuild its
/// concatenation.
pub proof fn lemma_words_tokens_rebuild(cat: Seq<PatternModel>, ws: Seq<Seq<char>>)
    ensures
        lexemes(tokenize_words(cat, ws)) == concat_words(ws),
    decreases ws.len(),
{
    if ws.len() > 0 {
        lemma_word_tokens_rebuild(cat, ws.first());
        lemma_words_tokens_rebuild(cat, ws.drop_first());
        lemma_lexemes_add(tokenize_word(cat, ws.first()), tokenize_words(cat, ws.drop_first()));
    }
}

/// Law: the lexemes of all tokens of one stretch of code, concatenated,
/// rebuild the stretch's surviving characters in their original order —
/// whitespace between words disappears, every other character (embedded
/// whitespace of a string literal included) stays.  No whitespace token
/// takes part, because no word the splitter hands over carries splittable
/// whitespace.
pub proof fn lemma_tokens_rebuild_text(cat: Seq<PatternModel>, s: Seq<char>)
    ensures
        classify_text(cat, s) matches Ok(toks) ==> lexemes(toks) == kept_chars(s),
{
    lemma_words_rebuild_line(s);
    match split_words_spec(s) {
        Some(ws) => lemma_words_tokens_rebuild(cat, ws),
        None => {},
    }
}

/// The comment machine's state between lines: whether a block comment is
/// open, and the comment text accumulated so far.  The accumulator is
/// non-empty only while a block comment is open.
pub ghost struct ScanState {
    pub in_comment: bool,
    pub acc: Seq<char>,
}

/// The state outside any block comment.
pub open spec fn normal_state() -> ScanState {
    ScanState { in_comment: false, acc: Seq::empty() }
}

/// A token of category `comment` with the given text.
pub open spec fn comment_token(text: Seq<char>) -> TokenModel {
    TokenModel { name: "comment"@, lexeme: text }
}

/// The length of `s` without its trailing whitespace.
pub open spec fn trim_end_idx(s: Seq<char>) -> int
    decreases s.len(),
{
    if s.len() > 0 && is_space(s.last()) {
        trim_end_idx(s.drop_last())
    } else {
        s.len() as int
    }
}

/// `s` without leading and trailing whitespace.
pub open spec fn trimmed(s: Seq<char>) -> Seq<char> {
    let a = space_run(s, 0) as int;
    let b = trim_end_idx(s);
    if a <= b {
        s.subrange(a, b)
    } else {
        Seq::empty()
    }
}

/// [`trim_end_idx`] cuts exactly the trailing whitespace: everything at
/// or beyond it is whitespace, and the character just before it is not.
pub proof fn lemma_trim_end_idx(s: Seq<char>)
    ensures
        0 <= trim_end_idx(s) <= s.len(),
        forall|j: int| trim_end_idx(s) <= j < s.len() ==> is_space(#[trigger] s[j]),
        trim_end_idx(s) > 0 ==> !is_space(s[trim_end_idx(s) - 1]),
    decreases s.len(),
{
    if s.len() > 0 && is_space(s.last()) {
        lemma_trim_end_idx(s.drop_last());
        assert forall|j: int| trim_end_idx(s) <= j < s.len() implies is_space(
            #[trigger] s[j],
        ) by {
            if j < s.len() - 1 {
                assert(s.drop_last()[j] == s[j]);
            }
        }
    }
}

/// The position of the first block-comment close `*/` at or after `from`.
pub open spec fn find_close(line: Seq<char>, from: int) -> Option<int>
    decreases line.len() - from,
{
    if from < 0 || from + 2 > line.len() {
        None
    } else if line[from] == '*' && line[from + 1] == '/' {
        Some(from)
    } else {
        find_close(line, from + 1)
    }
}

/// One line handled from the normal state.  A line whose first
/// non-whitespace characters are `//` is one comment token, the trimmed
/// line.  One that starts a block comment either closes it on the same
/// line — one comment token from `/*` through the first `*/`, and the
/// remainder classified as plain code — or opens the accumulator on the
/// text from `/*` to the end of the line plus a newline.  Any other line
/// is classified as plain code.
pub open spec fn step_normal(cat: Seq<PatternModel>, line: Seq<char>) -> Result<
    (Seq<TokenModel>, ScanState),
    Seq<char>,
> {
    let a = space_run(line, 0) as int;
    if a + 2 <= line.len() && line[a] == '/' && line[a + 1] == '/' {
        Ok((seq![comment_token(trimmed(line))], normal_state()))
    } else if a + 2 <= line.len() && line[a] == '/' && line[a + 1] == '*' {
        match find_close(line, a + 2) {
            Some(e) => match classify_text(cat, line.skip(e + 2)) {
                Ok(toks) => Ok(
                    (seq![comment_token(line.subrange(a, e + 2))] + toks, normal_state()),
                ),
                Err(t) => Err(t),
            },
            None => Ok((seq![], ScanState { in_comment: true, acc: line.skip(a).push('\n') })),
        }
    } else {
        match classify_text(cat, line) {
            Ok(toks) => Ok((toks, normal_state())),
            Err(t) => Err(t),
        }
    }
}

/// One line handled in either state.  Inside a block comment, a line with
/// a `*/` flushes the accumulator — extended through the first `*/` —
/// into one comment token and hands the remainder to the normal state; a
/// line without one is appended whole to the accumulator, plus a newline.
pub open spec fn step_line(cat: Seq<PatternModel>, st: ScanState, line: Seq<char>) -> Result<
    (Seq<TokenModel>, ScanState),
    Seq<char>,
> {
    if st.in_comment {
        match find_close(line, 0) {
            Some(e) => match step_normal(cat, line.skip(e + 2)) {
                Ok((toks, st2)) => Ok(
                    (seq![comment_token(st.acc + line.take(e + 2))] + toks, st2),
                ),
                Err(t) => Err(t),
            },
            None => Ok(
                (seq![], ScanState { in_comment: true, acc: st.acc + line.push('\n') }),
            ),
        }
    } else {
        step_normal(cat, line)
    }
}

/// All lines scanned in order from state `st`.  A malformed line stops
/// the scan with its text; a block comment still open when the lines end
/// is dropped without a token.
pub open spec fn scan_lines(cat: Seq<PatternModel>, st: ScanState, ls: Seq<Seq<char>>) -> Result<
    Seq<TokenModel>,
    Seq<char>,
>
    decreases ls.len(),
{
    if ls.len() == 0 {
        Ok(seq![])
    } else {
        match step_line(cat, st, ls.first()) {
            Err(t) => Err(t),
            Ok((toks, st2)) => match scan_lines(cat, st2, ls.drop_first()) {
                Err(t) => Err(t),
                Ok(rest) => Ok(toks + rest),
            },
        }
    }
}

/// The position of the first occurrence of `c` in `s` at or after `from`.
pub open spec fn find_char(s: Seq<char>, c: char, from: int) -> Option<int>
    decreases s.len() - from,
{
    if from < 0 || from >= s.len() {
        None
    } else if s[from] == c {
        Some(from)
    } else {
        find_char(s, c, from + 1)
    }
}

/// A found character lies between `from` and the end of `s`.
pub proof fn lemma_find_char_bound(s: Seq<char>, c: char, from: int)
    ensures
        find_char(s, c, from) matches Some(i) ==> from <= i < s.len() && s[i] == c,
    decreases s.len() - from,
{
    if 0 <= from && from < s.len() && s[from] != c {
        lemma_find_char_bound(s, c, from + 1);
    }
}

/// A line terminated by a newline loses one carriage return before it.
pub open spec fn strip_cr(l: Seq<char>) -> Seq<char> {
    if l.len() > 0 && l.last() == '\r' {
        l.drop_last()
    } else {
        l
    }
}

/// The lines of a text: the stretches between newlines, without the
/// newline itself and without a carriage return just before it.  A final
/// newline ends the last line rather than opening an empty one.
pub open spec fn split_lines(s: Seq<char>) -> Seq<Seq<char>>
    decreases s.len(),
    via split_lines_decreases
{
    if s.len() == 0 {
        seq![]
    } else {
        match find_char(s, '\n', 0) {
            None => seq![s],
            Some(i) => seq![strip_cr(s.take(i))] + split_lines(s.skip(i + 1)),
        }
    }
}

#[via_fn]
proof fn split_lines_decreases(s: Seq<char>) {
    lemma_find_char_bound(s, '\n', 0);
}

/// The whole scan of one source text: its lines run through the comment
/// machine and the classifier, starting outside any comment, against the
/// full pattern table.
pub open spec fn scan(s: Seq<char>) -> Result<Seq<TokenModel>, Seq<char>> {
    scan_lines(catalog(), normal_state(), split_lines(s))
}

/// The views of a vector of lines.
pub open spec fn line_views(ls: Seq<Vec<char>>) -> Seq<Seq<char>> {
    ls.map_values(|l: Vec<char>| l@)
}

/// Executable search for the first block-comment close at or after `from`.
fn find_close_exec(line: &Vec<char>, from: usize) -> (r: Option<usize>)
    ensures
        match r {
            Some(e) => find_close(line@, from as int) == Some(e as int) && from <= e && e + 2
                <= line@.len(),
            None => find_close(line@, from as int) is None,
        },
{
    let n = line.len();
    if n < 2 {
        return None;
    }
    let mut i: usize = from;
    while i < n - 1
        invariant
            from <= i,
            2 <= n == line@.len(),
            find_close(line@, from as int) == find_close(line@, i as int),
        decreases n - i,
    {
        if line[i] == '*' && line[i + 1] == '/' {
            return Some(i);
        }
        i = i + 1;
    }
    None
}

/// Cuts the trailing whitespace of the line: returns the index the
/// trimmed line ends at.
fn trim_end(line: &Vec<char>) -> (b: usize)
    ensures
        b as int == trim_end_idx(line@),
{
    proof {
        lemma_trim_end_idx(line@);
    }
    let mut b: usize = line.len();
    while b > 0 && (line[b - 1] == ' ' || line[b - 1] == '\t')
        invariant
            b <= line@.len(),
            forall|j: int| b <= j < line@.len() ==> is_space(#[trigger] line@[j]),
        decreases b,
    {
        b = b - 1;
    }
    proof {
        let te = trim_end_idx(line@);
        if te < b {
            assert(is_space(line@[b - 1]));
        }
        if b < te {
            assert(is_space(line@[te - 1]));
        }
    }
    b
}

/// Handles one line from the normal state, appending its tokens and
/// updating the comment state as [`step_normal`] says.
fn scan_normal_line(
    line: &Vec<char>,
    patterns: &Vec<Pattern>,
    in_comment: &mut bool,
    acc: &mut Vec<char>,
    tokens: &mut Vec<Token>,
) -> (r: Option<ScanError>)
    requires
        *old(in_comment) == false,
        old(acc)@.len() == 0,
    ensures
        match r {
            None => step_normal(models(patterns@), line@) matches Ok((toks, st))
                && token_models(final(tokens)@) == token_models(old(tokens)@) + toks
                && *final(in_comment) == st.in_comment && final(acc)@ == st.acc
                && (!st.in_comment ==> final(acc)@.len() == 0),
            Some(e) => step_normal(models(patterns@), line@) == Err::<
                (Seq<TokenModel>, ScanState),
                _,
            >(e@),
        },
{
    let ghost cat = models(patterns@);
    let n = line.len();
    let a = space_run_len(line, 0);
    if a < n && a + 1 < n && line[a] == '/' && line[a + 1] == '/' {
        let b = trim_end(line);
        proof {
            lemma_trim_end_idx(line@);
            assert(!is_space(line@[a as int]));
            assert(a < trim_end_idx(line@));
            assert(trimmed(line@) == line@.subrange(a as int, b as int));
        }
        let lexeme = chars_to_string(line, a, b);
        tokens.push(Token { name: "comment".to_owned(), lexeme });
        proof {
            assert(token_models(tokens@) =~= token_models(old(tokens)@) + seq![
                comment_token(trimmed(line@)),
            ]);
        }
        None
    } else if a < n && a + 1 < n && line[a] == '/' && line[a + 1] == '*' {
        match find_close_exec(line, a + 2) {
            Some(e) => {
                let lexeme = chars_to_string(line, a, e + 2);
                tokens.push(Token { name: "comment".to_owned(), lexeme });
                let ghost mid = tokens@;
                proof {
                    assert(token_models(mid) =~= token_models(old(tokens)@) + seq![
                        comment_token(line@.subrange(a as int, e + 2)),
                    ]);
                }
                let rest = vec_range(line, e + 2, n);
                proof {
                    assert(rest@ =~= line@.skip(e + 2));
                }
                match classify_rest(&rest, patterns, tokens) {
                    None => {
                        proof {
                            let toks2 = classify_text(cat, line@.skip(e + 2))->Ok_0;
                            assert(token_models(tokens@) =~= token_models(old(tokens)@) + (seq![
                                comment_token(line@.subrange(a as int, e + 2)),
                            ] + toks2));
                        }
                        None
                    },
                    Some(err) => Some(err),
                }
            },
            None => {
                *in_comment = true;
                append_range(acc, line, a, n);
                acc.push('\n');
                proof {
                    assert(acc@ =~= line@.skip(a as int).push('\n'));
                    assert(token_models(tokens@) =~= token_models(old(tokens)@)
                        + Seq::<TokenModel>::empty());
                }
                None
            },
        }
    } else {
        classify_rest(line, patterns, tokens)
    }
}

/// Handles one line in either state, appending its tokens and updating
/// the comment state as [`step_line`] says.
fn scan_line_exec(
    line: &Vec<char>,
    patterns: &Vec<Pattern>,
    in_comment: &mut bool,
    acc: &mut Vec<char>,
    tokens: &mut Vec<Token>,
) -> (r: Option<ScanError>)
    requires
        !*old(in_comment) ==> old(acc)@.len() == 0,
    ensures
        match r {
            None => step_line(
                models(patterns@),
                ScanState { in_comment: *old(in_comment), acc: old(acc)@ },
                line@,
            ) matches Ok((toks, st)) && token_models(final(tokens)@)
                == token_models(old(tokens)@) + toks
                && *final(in_comment) == st.in_comment && final(acc)@ == st.acc
                && (!st.in_comment ==> final(acc)@.len() == 0),
            Some(e) => step_line(
                models(patterns@),
                ScanState { in_comment: *old(in_comment), acc: old(acc)@ },
                line@,
            ) == Err::<(Seq<TokenModel>, ScanState), _>(e@),
        },
{
    let ghost cat = models(patterns@);
    let ghost st0 = ScanState { in_comment: *in_comment, acc: acc@ };
    if *in_comment {
        match find_close_exec(line, 0) {
            Some(e) => {
                let n = line.len();
                append_range(acc, line, 0, e + 2);
                proof {
                    assert(acc@ =~= st0.acc + line@.take(e + 2));
                    assert(acc@.subrange(0, acc@.len() as int) =~= acc@);
                }
                let lexeme = chars_to_string(acc, 0, acc.len());
                tokens.push(Token { name: "comment".to_owned(), lexeme });
                let ghost mid = tokens@;
                proof {
                    assert(token_models(mid) =~= token_models(old(tokens)@) + seq![
                        comment_token(st0.acc + line@.take(e + 2)),
                    ]);
                }
                acc.clear();
                *in_comment = false;
                let rest = vec_range(line, e + 2, line.len());
                proof {
                    assert(rest@ =~= line@.skip(e + 2));
                }
                match scan_normal_line(&rest, patterns, in_comment, acc, tokens) {
                    None => {
                        proof {
                            let toks2 = step_normal(cat, line@.skip(e + 2))->Ok_0.0;
                            assert(token_models(tokens@) =~= token_models(old(tokens)@) + (seq![
                                comment_token(st0.acc + line@.take(e + 2)),
                            ] + toks2));
                        }
                        None
                    },
                    Some(err) => Some(err),
                }
            },
            None => {
                append_range(acc, line, 0, line.len());
                acc.push('\n');
                proof {
                    assert(line@.subrange(0, line@.len() as int) =~= line@);
                    assert(acc@ =~= st0.acc + line@.push('\n'));
                    assert(token_models(tokens@) =~= token_models(old(tokens)@)
                        + Seq::<TokenModel>::empty());
                }
                None
            },
        }
    } else {
        scan_normal_line(line, patterns, in_comment, acc, tokens)
    }
}

/// Cuts a text into its lines.
fn split_lines_exec(s: &Vec<char>) -> (r: Vec<Vec<char>>)
    ensures
        line_views(r@) == split_lines(s@),
{
    let n = s.len();
    let mut out: Vec<Vec<char>> = Vec::new();
    let mut pos: usize = 0;
    proof {
        assert(s@.skip(0) =~= s@);
        assert(line_views(out@) + split_lines(s@) =~= split_lines(s@));
    }
    while pos < n
        invariant
            pos <= n == s@.len(),
            line_views(out@) + split_lines(s@.skip(pos as int)) == split_lines(s@),
        decreases n - pos,
    {
        let ghost suffix = s@.skip(pos as int);
        let ghost out0 = out@;
        let mut j: usize = pos;
        while j < n && s[j] != '\n'
            invariant
                pos <= j <= n == s@.len(),
                suffix == s@.skip(pos as int),
                find_char(suffix, '\n', 0) == find_char(suffix, '\n', j - pos),
            decreases n - j,
        {
            j = j + 1;
        }
        if j < n {
            proof {
                assert(find_char(suffix, '\n', 0) == Some(j - pos));
            }
            let end = if j > pos && s[j - 1] == '\r' {
                j - 1
            } else {
                j
            };
            let seg = vec_range(s, pos, end);
            proof {
                assert(suffix.take(j - pos) =~= s@.subrange(pos as int, j as int));
                if j > pos && s@[j - 1] == '\r' {
                    assert(suffix.take(j - pos).drop_last() =~= s@.subrange(
                        pos as int,
                        j - 1,
                    ));
                }
                assert(seg@ == strip_cr(suffix.take(j - pos)));
            }
            out.push(seg);
            proof {
                assert(suffix.skip(j - pos + 1) =~= s@.skip(j + 1));
                assert(line_views(out@) =~= line_views(out0) + seq![
                    strip_cr(suffix.take(j - pos)),
                ]);
                assert(line_views(out@) + split_lines(s@.skip(j + 1)) =~= line_views(out0)
                    + split_lines(suffix));
            }
            pos = j + 1;
        } else {
            proof {
                assert(find_char(suffix, '\n', 0) is None);
                assert(suffix =~= s@.subrange(pos as int, n as int));
            }
            let seg = vec_range(s, pos, n);
            out.push(seg);
            proof {
                assert(line_views(out@) =~= line_views(out0) + seq![suffix]);
                assert(split_lines(suffix) == seq![suffix]);
                assert(s@.skip(n as int).len() == 0);
                assert(line_views(out@) + split_lines(s@.skip(n as int)) =~= line_views(out0)
                    + split_lines(suffix));
            }
            pos = n;
        }
    }
    proof {
        assert(split_lines(s@.skip(pos as int)).len() == 0);
        assert(line_views(out@) + split_lines(s@.skip(pos as int)) =~= line_views(out@));
    }
    out
}

/// Scans one source text and returns its tokens in order, or the error
/// that stopped the scan, exactly as [`scan`] states it.
pub fn run(input: &str) -> (r: Result<Vec<Token>, ScanError>)
    ensures
        match r {
            Ok(ts) => scan(input@) == Ok::<_, Seq<char>>(token_models(ts@)),
            Err(e) => scan(input@) == Err::<Seq<TokenModel>, _>(e@),
        },
{
    let chars = str_to_chars(input);
    let lines = split_lines_exec(&chars);
    let pattern_vec = load_patterns();
    let mut tokens: Vec<Token> = Vec::new();
    let mut in_comment = false;
    let mut acc: Vec<char> = Vec::new();
    let mut i: usize = 0;
    proof {
        assert(line_views(lines@).skip(0) =~= line_views(lines@));
        assert(ScanState { in_comment: false, acc: acc@ } == normal_state());
        assert(token_models(tokens@) + scan(input@)->Ok_0 =~= scan(input@)->Ok_0);
    }
    while i < lines.len()
        invariant
            i <= lines@.len(),
            models(pattern_vec@) == catalog(),
            !in_comment ==> acc@.len() == 0,
            line_views(lines@) == split_lines(chars@),
            chars@ == input@,
            match scan_lines(
                catalog(),
                ScanState { in_comment, acc: acc@ },
                line_views(lines@).skip(i as int),
            ) {
                Ok(rest) => scan(input@) == Ok::<_, Seq<char>>(token_models(tokens@) + rest),
                Err(t) => scan(input@) == Err::<Seq<TokenModel>, _>(t),
            },
        decreases lines@.len() - i,
    {
        let ghost st = ScanState { in_comment, acc: acc@ };
        let ghost ls = line_views(lines@).skip(i as int);
        let ghost toks0 = tokens@;
        proof {
            assert(ls.first() == line_views(lines@)[i as int]);
            assert(ls.drop_first() =~= line_views(lines@).skip(i + 1));
            assert(lines@[i as int]@ == line_views(lines@)[i as int]);
        }
        match scan_line_exec(&lines[i], &pattern_vec, &mut in_comment, &mut acc, &mut tokens) {
            Some(e) => {
                return Err(e);
            },
            None => {
                proof {
                    let toks = step_line(catalog(), st, ls.first())->Ok_0.0;
                    match scan_lines(
                        catalog(),
                        ScanState { in_comment, acc: acc@ },
                        ls.drop_first(),
                    ) {
                        Ok(rest) => {
                            assert(scan_lines(catalog(), st, ls) == Ok::<_, Seq<char>>(
                                toks + rest,
                            ));
                            assert(token_models(toks0) + (toks + rest) =~= token_models(
                                tokens@,
                            ) + rest);
                        },
                        Err(t) => {
                            assert(scan_lines(catalog(), st, ls) == Err::<Seq<TokenModel>, _>(
                                t,
                            ));
                        },
                    }
                }
                i = i + 1;
            },
        }
    }
    proof {
        assert(scan_lines(
            catalog(),
            ScanState { in_comment, acc: acc@ },
            line_views(lines@).skip(i as int),
        ) == Ok::<Seq<TokenModel>, Seq<char>>(seq![]));
        assert(token_models(tokens@) + Seq::<TokenModel>::empty() =~= token_models(tokens@));
    }
    Ok(tokens)
}

} // verus!
