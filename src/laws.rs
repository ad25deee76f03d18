//! General laws of tokenization, proved over the model in [`crate::lexer`].

use vstd::prelude::*;
use crate::charclass::{
    is_double_symbol, is_single_symbol, is_stray, is_word_char, whitespace_char,
};
use crate::lexer::{
    classify, halt_from, lemma_scan_advances, lemma_skip_ws, lemma_word_end, prepend, scan, skip_ws, tokenize,
    tokenize_from, word_end, LexError, Lexer, TokenView,
};

verus! {

/// Whitespace that runs to the end of `s` is skipped to the end.
proof fn lemma_skip_blank_tail(s: Seq<char>, p: int)
    requires
        0 <= p <= s.len(),
        forall|i: int| p <= i < s.len() ==> whitespace_char(#[trigger] s[i]),
    ensures
        skip_ws(s, p) == s.len(),
    decreases s.len() - p,
{
    if p < s.len() {
        lemma_skip_blank_tail(s, p + 1);
    }
}

/// Every character that `skip_ws` passes over is whitespace.
proof fn lemma_skipped_are_whitespace(s: Seq<char>, p: int, i: int)
    requires
        0 <= p <= i < skip_ws(s, p),
    ensures
        whitespace_char(s[i]),
    decreases s.len() - p,
{
    if p < i {
        lemma_skipped_are_whitespace(s, p + 1, i);
    }
}

/// Source text made only of whitespace has no tokens.
pub proof fn lemma_blank_source_has_no_tokens(s: Seq<char>)
    requires
        forall|i: int| 0 <= i < s.len() ==> whitespace_char(#[trigger] s[i]),
    ensures
        tokenize(s) == Ok::<Seq<TokenView>, LexError>(Seq::empty()),
{
    lemma_skip_blank_tail(s, 0);
}

/// A two-character operator is taken whole: where the scanner stands on one,
/// it yields that operator as a single `Symbol` and goes on after both
/// characters. (An operator character is never whitespace.)
pub proof fn lemma_two_char_operator_is_one_token(s: Seq<char>, p: int)
    requires
        0 <= p,
        p + 1 < s.len(),
        is_double_symbol(s[p], s[p + 1]),
        !whitespace_char(s[p]),
    ensures
        tokenize_from(s, p) == prepend(
            seq![TokenView::Symbol(seq![s[p], s[p + 1]])],
            tokenize_from(s, p + 2),
        ),
{
    assert(s.subrange(p, p + 2) =~= seq![s[p], s[p + 1]]);
}

/// A source of one character that is an operator or a word character
/// (and not whitespace) gives exactly one token: running out of input after
/// it is no error.
pub proof fn lemma_single_character_source(c: char)
    requires
        is_single_symbol(c) || is_word_char(c),
        !whitespace_char(c),
    ensures
        tokenize(seq![c]) == Ok::<Seq<TokenView>, LexError>(
            seq![
                if is_single_symbol(c) {
                    TokenView::Symbol(seq![c])
                } else {
                    TokenView::Word(seq![c])
                },
            ],
        ),
{
    let s = seq![c];
    assert(skip_ws(s, 0) == 0);
    assert(skip_ws(s, 1) == 1);
    assert(tokenize_from(s, 1) == Ok::<Seq<TokenView>, LexError>(Seq::empty()));
    if !is_single_symbol(c) {
        assert(word_end(s, 1) == 1);
        assert(s.subrange(0, 1) =~= seq![c]);
    }
    assert(seq![scan(s, 0)->Ok_0.0] + Seq::<TokenView>::empty() =~= seq![scan(s, 0)->Ok_0.0]);
}

/// Scanning fails exactly on a character that starts no token: every failure
/// names the character at which the scan halts, and that character is stray.
/// An end of input is never an error.
pub proof fn lemma_failure_is_a_stray_character(s: Seq<char>, p: int)
    requires
        0 <= p <= s.len(),
        tokenize_from(s, p) is Err,
    ensures
        0 <= halt_from(s, p) < s.len(),
        is_stray(s[halt_from(s, p)]),
        tokenize_from(s, p) == Err::<Seq<TokenView>, LexError>(
            LexError::UnexpectedCharacter(s[halt_from(s, p)]),
        ),
    decreases s.len() - p,
{
    lemma_scan_advances(s, p);
    lemma_skip_ws(s, p);
    let q = skip_ws(s, p);
    if let Ok((_, e)) = scan(s, q) {
        lemma_failure_is_a_stray_character(s, e);
    }
}

/// Source text that holds a stray character anywhere cannot be tokenized.
pub proof fn lemma_stray_character_fails(s: Seq<char>, i: int)
    requires
        0 <= i < s.len(),
        is_stray(s[i]),
    ensures
        tokenize(s) is Err,
{
    lemma_stray_ahead_fails(s, 0, i);
}

proof fn lemma_stray_ahead_fails(s: Seq<char>, p: int, i: int)
    requires
        0 <= p <= i < s.len(),
        is_stray(s[i]),
    ensures
        tokenize_from(s, p) is Err,
    decreases s.len() - p,
{
    lemma_skip_ws(s, p);
    lemma_scan_advances(s, p);
    let q = skip_ws(s, p);
    if q > i {
        lemma_skipped_are_whitespace(s, p, i);
    } else if q < i {
        if let Ok((_, e)) = scan(s, q) {
            if e > i {
                assert(!is_double_symbol(s[q], s[q + 1]) || q + 1 != i);
                lemma_word_run(s, q, i);
            }
            lemma_stray_ahead_fails(s, e, i);
        }
    }
}

/// Every character of the word run that starts at `q` is a word character.
proof fn lemma_word_run(s: Seq<char>, q: int, i: int)
    requires
        0 <= q <= i < word_end(s, q),
    ensures
        is_word_char(s[i]),
    decreases s.len() - q,
{
    if q < i {
        lemma_word_run(s, q + 1, i);
    }
}


/// The scan only looks forward: skipping whitespace in `b` is the same
/// whether or not `a` stands in front of it.
proof fn lemma_shift_skip_ws(a: Seq<char>, b: Seq<char>, i: int)
    requires
        0 <= i <= b.len(),
    ensures
        skip_ws(a + b, a.len() + i) == a.len() + skip_ws(b, i),
    decreases b.len() - i,
{
    if i < b.len() {
        assert((a + b)[a.len() + i] == b[i]);
        lemma_shift_skip_ws(a, b, i + 1);
    }
}

proof fn lemma_shift_word_end(a: Seq<char>, b: Seq<char>, i: int)
    requires
        0 <= i <= b.len(),
    ensures
        word_end(a + b, a.len() + i) == a.len() + word_end(b, i),
    decreases b.len() - i,
{
    if i < b.len() {
        assert((a + b)[a.len() + i] == b[i]);
        lemma_shift_word_end(a, b, i + 1);
    }
}

proof fn lemma_shift_scan(a: Seq<char>, b: Seq<char>, i: int)
    requires
        0 <= i <= b.len(),
    ensures
        scan(a + b, a.len() + i) == match scan(b, i) {
            Ok((t, e)) => Ok::<(TokenView, int), LexError>((t, a.len() + e)),
            Err(x) => Err::<(TokenView, int), LexError>(x),
        },
{
    let s = a + b;
    let k = a.len() + i;
    if i < b.len() {
        assert(s[k] == b[i]);
        if i + 1 < b.len() {
            assert(s[k + 1] == b[i + 1]);
            assert(s.subrange(k, k + 2) =~= b.subrange(i, i + 2));
        }
        lemma_shift_word_end(a, b, i);
        lemma_word_end(b, i);
        assert(s.subrange(k, a.len() + word_end(b, i)) =~= b.subrange(i, word_end(b, i)));
    }
}

/// Tokenizing the tail `b` of `a + b` does not depend on `a`.
proof fn lemma_shift_tokenize(a: Seq<char>, b: Seq<char>, i: int)
    requires
        0 <= i <= b.len(),
    ensures
        tokenize_from(a + b, a.len() + i) == tokenize_from(b, i),
    decreases b.len() - i,
{
    lemma_shift_skip_ws(a, b, i);
    lemma_skip_ws(b, i);
    let q = skip_ws(b, i);
    if q < b.len() {
        lemma_shift_scan(a, b, q);
        lemma_scan_advances(b, i);
        if let Ok((_, e)) = scan(b, q) {
            lemma_shift_tokenize(a, b, e);
        }
    }
}

/// A run of word characters from `p` to `e` that nothing extends ends at `e`.
proof fn lemma_word_end_at(s: Seq<char>, p: int, e: int)
    requires
        0 <= p <= e <= s.len(),
        forall|i: int| p <= i < e ==> is_word_char(#[trigger] s[i]),
        e == s.len() || !is_word_char(s[e]),
    ensures
        word_end(s, p) == e,
    decreases e - p,
{
    if p < e {
        lemma_word_end_at(s, p + 1, e);
    }
}

/// A word as it is typed: word characters only, starting with a character
/// that is neither whitespace nor an operator.
pub open spec fn is_plain_word(w: Seq<char>) -> bool {
    &&& w.len() > 0
    &&& forall|i: int| 0 <= i < w.len() ==> is_word_char(#[trigger] w[i])
    &&& !whitespace_char(w[0])
    &&& !is_single_symbol(w[0])
}

/// `words` written one after another with the character `gap` between each
/// two of them.
pub open spec fn spaced(words: Seq<Seq<char>>, gap: char) -> Seq<char>
    decreases words.len(),
{
    if words.len() <= 1 {
        if words.len() == 0 {
            Seq::empty()
        } else {
            words[0]
        }
    } else {
        words[0] + seq![gap] + spaced(words.drop_first(), gap)
    }
}

/// Words separated by whitespace come out one token each, in order: a
/// reserved word as a `Keyword`, any other word as a `Word` with its exact
/// text.
pub proof fn lemma_spaced_words(words: Seq<Seq<char>>, gap: char)
    requires
        whitespace_char(gap),
        !is_word_char(gap),
        forall|k: int| 0 <= k < words.len() ==> is_plain_word(#[trigger] words[k]),
    ensures
        tokenize(spaced(words, gap)) == Ok::<Seq<TokenView>, LexError>(
            words.map_values(|w: Seq<char>| classify(w)),
        ),
    decreases words.len(),
{
    let s = spaced(words, gap);
    let classified = words.map_values(|w: Seq<char>| classify(w));
    if words.len() == 0 {
        assert(classified =~= Seq::<TokenView>::empty());
        return;
    }
    let w = words[0];
    let n = w.len() as int;
    assert(is_plain_word(w));
    let rest = words.drop_first();
    assert(forall|k: int| 0 <= k < rest.len() ==> rest[k] == words[k + 1]);
    assert(forall|k: int| 0 <= k < w.len() ==> s[k] == w[k]);
    assert(s[0] == w[0]);
    assert(skip_ws(s, 0) == 0);
    if words.len() == 1 {
        lemma_word_end_at(s, 0, n);
        assert(s.subrange(0, n) =~= w);
        lemma_skip_ws(s, n);
        assert(tokenize_from(s, n) == Ok::<Seq<TokenView>, LexError>(Seq::empty()));
        assert(classified =~= seq![classify(w)] + Seq::<TokenView>::empty());
    } else {
        let tail = spaced(rest, gap);
        let head = w + seq![gap];
        assert(s == head + tail);
        assert(s[n] == gap);
        lemma_word_end_at(s, 0, n);
        assert(s.subrange(0, n) =~= w);
        assert(skip_ws(s, n) == skip_ws(s, n + 1));
        lemma_shift_skip_ws(head, tail, 0);
        lemma_shift_tokenize(head, tail, 0);
        lemma_spaced_words(rest, gap);
        assert(tokenize_from(s, n) == tokenize_from(s, n + 1));
        assert(classified =~= seq![classify(w)] + rest.map_values(|w: Seq<char>| classify(w)));
    }
}

/// Two fresh scanners over the same source text produce the same tokens,
/// or fail with the same error at the same place.
pub proof fn lemma_fresh_scanners_agree(a: Lexer, b: Lexer)
    requires
        a.source() == b.source(),
        a.cursor() == 0,
        b.cursor() == 0,
    ensures
        tokenize_from(a.source(), a.cursor()) == tokenize_from(b.source(), b.cursor()),
        halt_from(a.source(), a.cursor()) == halt_from(b.source(), b.cursor()),
{
}

/// A scan that succeeds halts at the end of the source, and scanning again
/// from there gives no tokens.
pub proof fn lemma_finished_scan_is_empty(s: Seq<char>, p: int)
    requires
        0 <= p <= s.len(),
        tokenize_from(s, p) is Ok,
    ensures
        halt_from(s, p) == s.len(),
        tokenize_from(s, s.len() as int) == Ok::<Seq<TokenView>, LexError>(Seq::empty()),
    decreases s.len() - p,
{
    lemma_scan_advances(s, p);
    lemma_skip_ws(s, p);
    let q = skip_ws(s, p);
    if q < s.len() {
        if let Ok((_, e)) = scan(s, q) {
            lemma_finished_scan_is_empty(s, e);
        }
    }
}

} // verus!
