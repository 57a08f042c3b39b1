//! The literal-aware word splitter.
//!
//! A line of code is split into words on whitespace, except that a
//! double-quoted string literal is one indivisible word however much
//! whitespace it contains.  A `"` does not count as a delimiter when it is
//! escaped (`\"`) or when it is the quoted character literal `'"'`.  The
//! remaining delimiters must pair up: a line with an odd number of them is
//! malformed and stops the whole scan.

use vstd::prelude::*;

use crate::text::{chars_to_string, is_space, space_char};

verus! {

/// Whether the quote at position `i` is exempt from being a string
/// delimiter: it is preceded by a backslash, or it forms the character
/// literal `'"'`.
pub open spec fn quote_exempt(line: Seq<char>, i: int) -> bool {
    (i >= 1 && line[i - 1] == '\\') || (i >= 1 && i + 1 < line.len() && line[i - 1] == '\''
        && line[i + 1] == '\'')
}

/// Whether position `i` holds a recognized string delimiter.
pub open spec fn is_quote_delim(line: Seq<char>, i: int) -> bool {
    0 <= i < line.len() && line[i] == '"' && !quote_exempt(line, i)
}

/// The recognized delimiter positions among the first `n` characters, in
/// increasing order.
pub open spec fn quote_positions_up_to(line: Seq<char>, n: int) -> Seq<int>
    decreases n,
{
    if n <= 0 {
        Seq::empty()
    } else if is_quote_delim(line, n - 1) {
        quote_positions_up_to(line, n - 1).push(n - 1)
    } else {
        quote_positions_up_to(line, n - 1)
    }
}

/// All recognized string-delimiter positions of the line, in increasing
/// order.
pub open spec fn quote_positions(line: Seq<char>) -> Seq<int> {
    quote_positions_up_to(line, line.len() as int)
}

/// Every recorded position is a delimiter below `n`, and the record is
/// strictly increasing.
pub proof fn lemma_quote_positions_sorted(line: Seq<char>, n: int)
    ensures
        forall|k: int|
            0 <= k < quote_positions_up_to(line, n).len() ==> is_quote_delim(
                line,
                #[trigger] quote_positions_up_to(line, n)[k],
            ) && quote_positions_up_to(line, n)[k] < n,
        forall|k: int, j: int|
            0 <= k < j < quote_positions_up_to(line, n).len() ==> quote_positions_up_to(line, n)[k]
                < quote_positions_up_to(line, n)[j],
    decreases n,
{
    if n > 0 {
        lemma_quote_positions_sorted(line, n - 1);
        let prev = quote_positions_up_to(line, n - 1);
        let cur = quote_positions_up_to(line, n);
        assert forall|k: int| 0 <= k < cur.len() implies is_quote_delim(line, #[trigger] cur[k])
            && cur[k] < n by {
            if k < prev.len() {
                assert(cur[k] == prev[k]);
            }
        }
        assert forall|k: int, j: int| 0 <= k < j < cur.len() implies cur[k] < cur[j] by {
            if j < prev.len() {
                assert(cur[k] == prev[k] && cur[j] == prev[j]);
            } else {
                assert(cur[k] == prev[k] && prev[k] < n - 1);
            }
        }
    }
}

/// Length of the run of non-whitespace characters in `s` starting at `i`.
pub open spec fn word_run(s: Seq<char>, i: int) -> nat
    decreases s.len() - i,
{
    if i < 0 || i >= s.len() || is_space(s[i]) {
        0
    } else {
        1 + word_run(s, i + 1)
    }
}

/// A word run starting inside `s` ends inside `s`.
pub proof fn lemma_word_run_bound(s: Seq<char>, i: int)
    requires
        0 <= i <= s.len(),
    ensures
        i + word_run(s, i) <= s.len(),
    decreases s.len() - i,
{
    if i < s.len() && !is_space(s[i]) {
        lemma_word_run_bound(s, i + 1);
    }
}

/// Plain whitespace splitting: the maximal non-whitespace runs of `s`, in
/// order.
pub open spec fn ws_split(s: Seq<char>) -> Seq<Seq<char>>
    decreases s.len(),
    via ws_split_decreases
{
    if s.len() == 0 {
        seq![]
    } else if is_space(s[0]) {
        ws_split(s.skip(1))
    } else {
        seq![s.take(word_run(s, 0) as int)] + ws_split(s.skip(word_run(s, 0) as int))
    }
}

#[via_fn]
proof fn ws_split_decreases(s: Seq<char>) {
    if s.len() > 0 && !is_space(s[0]) {
        lemma_word_run_bound(s, 0);
    }
}

/// The words of a line whose recognized quotes are the sorted positions
/// `qs`, taken from `from` on: the text before each quoted span is split
/// on whitespace, each span (both quotes included) is one word, and so is
/// the text after the last span.
pub open spec fn split_with_quotes(line: Seq<char>, qs: Seq<int>, from: int) -> Seq<Seq<char>>
    decreases qs.len(),
{
    if qs.len() < 2 {
        ws_split(line.subrange(from, line.len() as int))
    } else {
        ws_split(line.subrange(from, qs[0])) + seq![line.subrange(qs[0], qs[1] + 1)]
            + split_with_quotes(line, qs.skip(2), qs[1] + 1)
    }
}

/// The words of one line of code, or `None` when the recognized quotes do
/// not pair up.
pub open spec fn split_words_spec(line: Seq<char>) -> Option<Seq<Seq<char>>> {
    if quote_positions(line).len() % 2 != 0 {
        None
    } else {
        Some(split_with_quotes(line, quote_positions(line), 0))
    }
}

/// Law: the splitter rejects a line exactly when the line's recognized
/// quote delimiters are odd in number; with balanced quotes their count is
/// even and splitting succeeds.
pub proof fn lemma_split_fails_iff_odd_quotes(line: Seq<char>)
    ensures
        split_words_spec(line) is None <==> quote_positions(line).len() % 2 == 1,
{
}

/// The concatenation of a sequence of words.
pub open spec fn concat_words(ws: Seq<Seq<char>>) -> Seq<char>
    decreases ws.len(),
{
    if ws.len() == 0 {
        Seq::empty()
    } else {
        ws.first() + concat_words(ws.drop_first())
    }
}

/// Concatenation distributes over appending word sequences.
pub proof fn lemma_concat_words_add(a: Seq<Seq<char>>, b: Seq<Seq<char>>)
    ensures
        concat_words(a + b) == concat_words(a) + concat_words(b),
    decreases a.len(),
{
    if a.len() == 0 {
        assert(a + b =~= b);
        assert(concat_words(a) + concat_words(b) =~= concat_words(b));
    } else {
        lemma_concat_words_add(a.drop_first(), b);
        assert((a + b).drop_first() =~= a.drop_first() + b);
        assert((a + b).first() == a.first());
        assert(a.first() + (concat_words(a.drop_first()) + concat_words(b)) =~= (a.first()
            + concat_words(a.drop_first())) + concat_words(b));
    }
}

/// A single word concatenates to itself.
proof fn lemma_concat_singleton(w: Seq<char>)
    ensures
        concat_words(seq![w]) == w,
{
    assert(seq![w].drop_first() =~= Seq::<Seq<char>>::empty());
    assert(concat_words(Seq::<Seq<char>>::empty()) == Seq::<char>::empty());
    assert(w + Seq::<char>::empty() =~= w);
}

/// The characters of `s` outside whitespace.
pub open spec fn spaces_removed(s: Seq<char>) -> Seq<char>
    decreases s.len(),
{
    if s.len() == 0 {
        Seq::empty()
    } else if is_space(s.first()) {
        spaces_removed(s.drop_first())
    } else {
        seq![s.first()] + spaces_removed(s.drop_first())
    }
}

/// No character of a word run is whitespace.
pub proof fn lemma_word_run_chars(s: Seq<char>, i: int)
    requires
        0 <= i <= s.len(),
    ensures
        forall|j: int| i <= j < i + word_run(s, i) ==> !is_space(#[trigger] s[j]),
    decreases s.len() - i,
{
    if i < s.len() && !is_space(s[i]) {
        lemma_word_run_chars(s, i + 1);
    }
}

/// Splitting off a whitespace-free prefix commutes with removing spaces.
proof fn lemma_spaces_removed_word(s: Seq<char>, k: int)
    requires
        0 <= k <= s.len(),
        forall|j: int| 0 <= j < k ==> !is_space(#[trigger] s[j]),
    ensures
        spaces_removed(s) == s.take(k) + spaces_removed(s.skip(k)),
    decreases k,
{
    if k == 0 {
        assert(s.skip(0) =~= s);
        assert(s.take(0) + spaces_removed(s) =~= spaces_removed(s));
    } else {
        let rest = s.drop_first();
        assert(!is_space(s.first()));
        lemma_spaces_removed_word(rest, k - 1);
        assert(s.take(k) =~= seq![s.first()] + rest.take(k - 1));
        assert(s.skip(k) =~= rest.skip(k - 1));
        assert((seq![s.first()] + rest.take(k - 1)) + spaces_removed(rest.skip(k - 1))
            =~= seq![s.first()] + (rest.take(k - 1) + spaces_removed(rest.skip(k - 1))));
    }
}

/// The words of a plain whitespace split, concatenated, are the
/// non-whitespace characters of the text, in order.
pub proof fn lemma_concat_ws_split(s: Seq<char>)
    ensures
        concat_words(ws_split(s)) == spaces_removed(s),
    decreases s.len(),
{
    if s.len() == 0 {
    } else if is_space(s[0]) {
        lemma_concat_ws_split(s.skip(1));
        assert(s.skip(1) =~= s.drop_first());
    } else {
        let k = word_run(s, 0) as int;
        lemma_word_run_bound(s, 0);
        lemma_word_run_chars(s, 0);
        lemma_concat_ws_split(s.skip(k));
        lemma_spaces_removed_word(s, k);
        lemma_concat_words_add(seq![s.take(k)], ws_split(s.skip(k)));
        lemma_concat_singleton(s.take(k));
    }
}

/// The characters of the line that survive splitting: outside the quoted
/// spans whitespace disappears, and each span survives whole, embedded
/// whitespace included.
pub open spec fn kept_with_quotes(line: Seq<char>, qs: Seq<int>, from: int) -> Seq<char>
    decreases qs.len(),
{
    if qs.len() < 2 {
        spaces_removed(line.subrange(from, line.len() as int))
    } else {
        spaces_removed(line.subrange(from, qs[0])) + line.subrange(qs[0], qs[1] + 1)
            + kept_with_quotes(line, qs.skip(2), qs[1] + 1)
    }
}

/// The surviving characters of a whole line.
pub open spec fn kept_chars(line: Seq<char>) -> Seq<char> {
    kept_with_quotes(line, quote_positions(line), 0)
}

proof fn lemma_concat_split_with_quotes(line: Seq<char>, qs: Seq<int>, from: int)
    ensures
        concat_words(split_with_quotes(line, qs, from)) == kept_with_quotes(line, qs, from),
    decreases qs.len(),
{
    if qs.len() < 2 {
        lemma_concat_ws_split(line.subrange(from, line.len() as int));
    } else {
        lemma_concat_split_with_quotes(line, qs.skip(2), qs[1] + 1);
        lemma_concat_ws_split(line.subrange(from, qs[0]));
        let gap = ws_split(line.subrange(from, qs[0]));
        let span = seq![line.subrange(qs[0], qs[1] + 1)];
        let rest = split_with_quotes(line, qs.skip(2), qs[1] + 1);
        lemma_concat_words_add(gap + span, rest);
        lemma_concat_words_add(gap, span);
        lemma_concat_singleton(line.subrange(qs[0], qs[1] + 1));
        assert(split_with_quotes(line, qs, from) == (gap + span) + rest);
        assert(kept_with_quotes(line, qs, from) == (spaces_removed(
            line.subrange(from, qs[0]),
        ) + line.subrange(qs[0], qs[1] + 1)) + kept_with_quotes(line, qs.skip(2), qs[1] + 1));
    }
}

/// Law: the words of a line, concatenated, rebuild exactly the line's
/// surviving characters, in order — whitespace between words disappears,
/// every character of a quoted span (its whitespace included) stays.
pub proof fn lemma_words_rebuild_line(line: Seq<char>)
    ensures
        split_words_spec(line) matches Some(ws) ==> concat_words(ws) == kept_chars(line),
{
    if quote_positions(line).len() % 2 == 0 {
        lemma_concat_split_with_quotes(line, quote_positions(line), 0);
    }
}

/// The views of a vector of words.
pub open spec fn word_views(ws: Seq<String>) -> Seq<Seq<char>> {
    ws.map_values(|w: String| w@)
}

/// Collects the recognized string-delimiter positions of the line.
fn find_quote_positions(line: &Vec<char>) -> (q: Vec<usize>)
    ensures
        q@.map_values(|u: usize| u as int) == quote_positions(line@),
        forall|k: int| 0 <= k < q@.len() ==> #[trigger] q@[k] < line@.len(),
{
    let n = line.len();
    let mut q: Vec<usize> = Vec::new();
    let mut i: usize = 0;
    while i < n
        invariant
            i <= n == line@.len(),
            q@.map_values(|u: usize| u as int) == quote_positions_up_to(line@, i as int),
            forall|k: int| 0 <= k < q@.len() ==> #[trigger] q@[k] < line@.len(),
        decreases n - i,
    {
        if line[i] == '"' {
            let escaped = i >= 1 && line[i - 1] == '\\';
            let char_lit = i >= 1 && i + 1 < n && line[i - 1] == '\'' && line[i + 1] == '\'';
            if !escaped && !char_lit {
                q.push(i);
            }
        }
        proof {
            assert(q@.map_values(|u: usize| u as int) =~= quote_positions_up_to(
                line@,
                i + 1,
            ));
        }
        i = i + 1;
    }
    q
}

/// Appends the whitespace-split words of `line[from..to]` to `out`.
fn push_plain_words(line: &Vec<char>, from: usize, to: usize, out: &mut Vec<String>)
    requires
        from <= to <= line@.len(),
    ensures
        word_views(final(out)@) == word_views(old(out)@) + ws_split(
            line@.subrange(from as int, to as int),
        ),
{
    let mut i: usize = from;
    while i < to
        invariant
            from <= i <= to <= line@.len(),
            word_views(old(out)@) + ws_split(line@.subrange(from as int, to as int)) == word_views(
                out@,
            ) + ws_split(line@.subrange(i as int, to as int)),
        decreases to - i,
    {
        let ghost rest = line@.subrange(i as int, to as int);
        if space_char(line[i]) {
            proof {
                assert(rest.skip(1) =~= line@.subrange(i + 1, to as int));
            }
            i = i + 1;
        } else {
            // Find the end of the maximal non-whitespace run.
            let mut j: usize = i;
            while j < to && !space_char(line[j])
                invariant
                    i <= j <= to <= line@.len(),
                    word_run(rest, 0) == j - i + word_run(rest, j - i),
                    rest == line@.subrange(i as int, to as int),
                decreases to - j,
            {
                j = j + 1;
            }
            proof {
                assert(word_run(rest, j - i) == 0);
                assert(rest.take(word_run(rest, 0) as int) =~= line@.subrange(
                    i as int,
                    j as int,
                ));
                assert(rest.skip(word_run(rest, 0) as int) =~= line@.subrange(
                    j as int,
                    to as int,
                ));
            }
            let w = chars_to_string(line, i, j);
            out.push(w);
            proof {
                assert(word_views(out@) =~= word_views(out@.drop_last()) + seq![
                    line@.subrange(i as int, j as int),
                ]);
            }
            i = j;
        }
    }
    proof {
        assert(ws_split(line@.subrange(to as int, to as int)) =~= Seq::<Seq<char>>::empty());
    }
}

/// Splits one line of code into words, protecting string literals; `None`
/// when the recognized quotes do not pair up.
pub fn split_words(line: &Vec<char>) -> (r: Option<Vec<String>>)
    ensures
        match r {
            Some(ws) => split_words_spec(line@) == Some(word_views(ws@)),
            None => split_words_spec(line@) is None,
        },
{
    let q = find_quote_positions(line);
    if q.len() % 2 != 0 {
        return None;
    }
    let ghost qs = quote_positions(line@);
    proof {
        lemma_quote_positions_sorted(line@, line@.len() as int);
    }
    let mut out: Vec<String> = Vec::new();
    let mut k: usize = 0;
    let mut from: usize = 0;
    proof {
        assert(qs.skip(0) =~= qs);
        assert(word_views(out@) + split_with_quotes(line@, qs, 0) =~= split_with_quotes(
            line@,
            qs,
            0,
        ));
    }
    while k < q.len()
        invariant
            k % 2 == 0,
            k <= q.len(),
            q@.map_values(|u: usize| u as int) == qs,
            qs == quote_positions(line@),
            qs.len() % 2 == 0,
            forall|a: int, b: int| 0 <= a < b < qs.len() ==> qs[a] < qs[b],
            forall|a: int| 0 <= a < qs.len() ==> 0 <= #[trigger] qs[a] < line@.len(),
            from <= line@.len(),
            k == 0 ==> from == 0,
            k > 0 ==> from == qs[k - 1] + 1,
            word_views(out@) + split_with_quotes(line@, qs.skip(k as int), from as int)
                == split_with_quotes(line@, qs, 0),
        decreases q@.len() - k,
    {
        proof {
            assert(k + 2 <= qs.len());
            assert(qs[k as int] == q@[k as int] && qs[k + 1] == q@[k + 1]);
            if k > 0 {
                assert(qs[k - 1] < qs[k as int]);
            }
            assert(qs[k as int] < qs[k + 1]);
        }
        let a = q[k];
        let b = q[k + 1];
        let n = line.len();
        assert(a < n && b < n);
        let ghost out0 = out@;
        push_plain_words(line, from, a, &mut out);
        let span = chars_to_string(line, a, b + 1);
        out.push(span);
        proof {
            let tail = qs.skip(k as int);
            assert(tail.len() >= 2);
            assert(tail[0] == qs[k as int]);
            assert(tail[1] == qs[k + 1]);
            assert(tail.skip(2) =~= qs.skip(k + 2));
            assert(word_views(out@) =~= word_views(out0) + ws_split(
                line@.subrange(from as int, a as int),
            ) + seq![line@.subrange(a as int, b + 1)]);
            assert(split_with_quotes(line@, tail, from as int) == ws_split(
                line@.subrange(from as int, a as int),
            ) + seq![line@.subrange(a as int, b + 1)] + split_with_quotes(
                line@,
                qs.skip(k + 2),
                b + 1,
            ));
            assert(word_views(out@) + split_with_quotes(line@, qs.skip(k + 2), b + 1)
                =~= word_views(out0) + split_with_quotes(line@, tail, from as int));
        }
        from = b + 1;
        k = k + 2;
    }
    proof {
        assert(qs.skip(qs.len() as int).len() < 2);
    }
    push_plain_words(line, from, line.len(), &mut out);
    proof {
        assert(split_words_spec(line@) == Some(word_views(out@)));
    }
    Some(out)
}

} // verus!
