//! Character classes and the fixed tables of the language: operator
//! spellings, reserved words, whitespace and word characters.

use vstd::prelude::*;

verus! {

/// What `char::is_whitespace` answers for `c`.
pub uninterp spec fn whitespace_char(c: char) -> bool;

/// What `char::is_alphanumeric` answers for `c`.
pub uninterp spec fn alphanumeric_char(c: char) -> bool;

/// Relies on `char::is_whitespace`: true exactly for the characters with the
/// Unicode `White_Space` property, an answer that depends on `c` alone.
#[verifier::external_body]
pub(crate) fn is_whitespace(c: char) -> (r: bool)
    ensures
        r == whitespace_char(c),
{
    c.is_whitespace()
}

/// Relies on `char::is_alphanumeric`: true exactly for the characters that are
/// Unicode alphabetic or numeric, an answer that depends on `c` alone.
#[verifier::external_body]
pub(crate) fn is_alphanumeric(c: char) -> (r: bool)
    ensures
        r == alphanumeric_char(c),
{
    c.is_alphanumeric()
}

/// A character that may stand inside a word: alphanumeric in any script, or `_`.
pub open spec fn is_word_char(c: char) -> bool {
    alphanumeric_char(c) || c == '_'
}

/// A character that starts no token: not whitespace, not an operator, and
/// not a word character.
pub open spec fn is_stray(c: char) -> bool {
    !whitespace_char(c) && !is_single_symbol(c) && !is_word_char(c)
}

/// The two-character operators: `>> << >& <& `> >| && ||`.
pub open spec fn is_double_symbol(a: char, b: char) -> bool {
    ||| a == '>' && b == '>'
    ||| a == '<' && b == '<'
    ||| a == '>' && b == '&'
    ||| a == '<' && b == '&'
    ||| a == '`' && b == '>'
    ||| a == '>' && b == '|'
    ||| a == '&' && b == '&'
    ||| a == '|' && b == '|'
}

/// The one-character operators: `! ; & | < > ( ) { } ' " ` \ # * ? [ ]`.
pub open spec fn is_single_symbol(c: char) -> bool {
    c == '!' || c == ';' || c == '&' || c == '|' || c == '<' || c == '>' || c == '('
        || c == ')' || c == '{' || c == '}' || c == '\'' || c == '"' || c == '`' || c == '\\'
        || c == '#' || c == '*' || c == '?' || c == '[' || c == ']'
}

/// The reserved words, matched exactly and case-sensitively.
pub open spec fn is_keyword(w: Seq<char>) -> bool {
    ||| w == seq!['c', 'a', 's', 'e']
    ||| w == seq!['d', 'o']
    ||| w == seq!['d', 'o', 'n', 'e']
    ||| w == seq!['e', 'l', 'i', 'f']
    ||| w == seq!['e', 'l', 's', 'e']
    ||| w == seq!['e', 's', 'a', 'c']
    ||| w == seq!['f', 'i']
    ||| w == seq!['f', 'o', 'r']
    ||| w == seq!['i', 'f']
    ||| w == seq!['i', 'n']
    ||| w == seq!['t', 'h', 'e', 'n']
    ||| w == seq!['w', 'h', 'i', 'l', 'e']
    ||| w == seq!['f', 'u', 'n', 'c', 't', 'i', 'o', 'n']
}

/// Whether `c` may stand inside a word.
pub(crate) fn is_word_character(c: char) -> (r: bool)
    ensures
        r == is_word_char(c),
{
    c == '_' || is_alphanumeric(c)
}

/// Whether `a` followed by `b` spells a two-character operator.
pub(crate) fn is_two_char_operator(a: char, b: char) -> (r: bool)
    ensures
        r == is_double_symbol(a, b),
{
    match (a, b) {
        ('>', '>') | ('<', '<') | ('>', '&') | ('<', '&') | ('`', '>') | ('>', '|') | ('&', '&')
        | ('|', '|') => true,
        _ => false,
    }
}

/// Whether `c` is a one-character operator.
pub(crate) fn is_one_char_operator(c: char) -> (r: bool)
    ensures
        r == is_single_symbol(c),
{
    match c {
        '!' | ';' | '&' | '|' | '<' | '>' | '(' | ')' | '{' | '}' | '\'' | '"' | '`' | '\\'
        | '#' | '*' | '?' | '[' | ']' => true,
        _ => false,
    }
}

/// Whether `s[start..end]` spells `k`.
fn spells(s: &Vec<char>, start: usize, end: usize, k: &[char]) -> (r: bool)
    requires
        start <= end <= s.len(),
    ensures
        r == (s@.subrange(start as int, end as int) == k@),
{
    if end - start != k.len() {
        return false;
    }
    let mut i: usize = 0;
    while i < k.len()
        invariant
            start <= end <= s.len(),
            end - start == k.len(),
            0 <= i <= k.len(),
            forall|j: int| 0 <= j < i ==> s@[start + j] == k@[j],
        decreases k.len() - i,
    {
        if s[start + i] != k[i] {
            assert(s@.subrange(start as int, end as int)[i as int] != k@[i as int]);
            return false;
        }
        i += 1;
    }
    assert(s@.subrange(start as int, end as int) =~= k@);
    true
}

/// Whether `s[start..end]` is a reserved word.
pub(crate) fn is_reserved(s: &Vec<char>, start: usize, end: usize) -> (r: bool)
    requires
        start <= end <= s.len(),
    ensures
        r == is_keyword(s@.subrange(start as int, end as int)),
{
    spells(s, start, end, &['c', 'a', 's', 'e'])
        || spells(s, start, end, &['d', 'o'])
        || spells(s, start, end, &['d', 'o', 'n', 'e'])
        || spells(s, start, end, &['e', 'l', 'i', 'f'])
        || spells(s, start, end, &['e', 'l', 's', 'e'])
        || spells(s, start, end, &['e', 's', 'a', 'c'])
        || spells(s, start, end, &['f', 'i'])
        || spells(s, start, end, &['f', 'o', 'r'])
        || spells(s, start, end, &['i', 'f'])
        || spells(s, start, end, &['i', 'n'])
        || spells(s, start, end, &['t', 'h', 'e', 'n'])
        || spells(s, start, end, &['w', 'h', 'i', 'l', 'e'])
        || spells(s, start, end, &['f', 'u', 'n', 'c', 't', 'i', 'o', 'n'])
}

} // verus!
