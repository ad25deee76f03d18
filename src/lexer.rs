//! The scanner: tokens, lexical errors, the mathematical model of
//! tokenization, and the executable lexer that is proved to follow it.

use vstd::prelude::*;
use crate::charclass::{
    is_double_symbol, is_keyword, is_one_char_operator, is_reserved, is_single_symbol,
    is_two_char_operator, is_whitespace, is_word_char, is_word_character, whitespace_char,
};

verus! {

/// A classified lexical unit. Tokens own their text and carry no position.
#[derive(Debug, PartialEq, Eq, Clone)]
pub enum Token {
    /// An operator; its text is one of the fixed operator spellings.
    Symbol(String),
    /// A reserved word; its text is one of the fixed reserved words.
    Keyword(String),
    /// Any other maximal run of word characters.
    Word(String),
}

/// The mathematical value of a [`Token`]: its variant and its characters.
pub enum TokenView {
    /// An operator and its spelling.
    Symbol(Seq<char>),
    /// A reserved word and its spelling.
    Keyword(Seq<char>),
    /// Any other word and its text.
    Word(Seq<char>),
}

impl View for Token {
    type V = TokenView;

    open spec fn view(&self) -> TokenView {
        match self {
            Token::Symbol(t) => TokenView::Symbol(t@),
            Token::Keyword(t) => TokenView::Keyword(t@),
            Token::Word(t) => TokenView::Word(t@),
        }
    }
}

/// Errors that can occur while lexing source code.
#[derive(Debug, Clone, Copy, PartialEq, Eq)]
pub enum LexError {
    /// A character that starts no token (e.g. `@` in plain source).
    UnexpectedCharacter(char),
    /// The input ended where a character was needed. A whole scan never
    /// reports it: running out of input after a complete token is no error.
    UnexpectedEOF,
}

impl LexError {
    /// The text that reports this error to a user.
    pub fn message(&self) -> (r: String)
        ensures
            r@ == match *self {
                LexError::UnexpectedCharacter(c) => "Unexpected character: "@.push(c),
                LexError::UnexpectedEOF => "Unexpected End Of File"@,
            },
    {
        match *self {
            LexError::UnexpectedCharacter(c) => {
                let mut text = String::from_str("Unexpected character: ");
                push_char(&mut text, c);
                text
            },
            LexError::UnexpectedEOF => String::from_str("Unexpected End Of File"),
        }
    }
}

/// The outcome of a lexing step: a value, or the error that stopped it.
pub type LexResult<T> = Result<T, LexError>;

/// The values of a sequence of tokens.
pub open spec fn views(ts: Seq<Token>) -> Seq<TokenView> {
    ts.map_values(|t: Token| t@)
}

/// `pre` put in front of a successful result; an error is passed on as it is.
pub open spec fn prepend(pre: Seq<TokenView>, r: LexResult<Seq<TokenView>>) -> LexResult<
    Seq<TokenView>,
> {
    match r {
        Ok(ts) => Ok(pre + ts),
        Err(e) => Err(e),
    }
}

/// The first position at or after `p` that does not hold whitespace.
pub open spec fn skip_ws(s: Seq<char>, p: int) -> int
    decreases s.len() - p,
{
    if 0 <= p < s.len() && whitespace_char(s[p]) {
        skip_ws(s, p + 1)
    } else {
        p
    }
}

/// The end of the run of word characters that starts at `p`.
pub open spec fn word_end(s: Seq<char>, p: int) -> int
    decreases s.len() - p,
{
    if 0 <= p < s.len() && is_word_char(s[p]) {
        word_end(s, p + 1)
    } else {
        p
    }
}

/// A word's token: a reserved word becomes a `Keyword`, any other a `Word`.
pub open spec fn classify(w: Seq<char>) -> TokenView {
    if is_keyword(w) {
        TokenView::Keyword(w)
    } else {
        TokenView::Word(w)
    }
}

/// The token that starts at `q`, with the position just after it.
/// A two-character operator wins over a one-character one; then come the
/// one-character operators; then a maximal word.
pub open spec fn scan(s: Seq<char>, q: int) -> LexResult<(TokenView, int)> {
    if !(0 <= q < s.len()) {
        Err(LexError::UnexpectedEOF)
    } else if q + 1 < s.len() && is_double_symbol(s[q], s[q + 1]) {
        Ok((TokenView::Symbol(s.subrange(q, q + 2)), q + 2))
    } else if is_single_symbol(s[q]) {
        Ok((TokenView::Symbol(seq![s[q]]), q + 1))
    } else if is_word_char(s[q]) {
        Ok((classify(s.subrange(q, word_end(s, q))), word_end(s, q)))
    } else {
        Err(LexError::UnexpectedCharacter(s[q]))
    }
}

/// The tokens of `s` from position `p` on, or the first error met.
pub open spec fn tokenize_from(s: Seq<char>, p: int) -> LexResult<Seq<TokenView>>
    decreases s.len() - p,
{
    let q = skip_ws(s, p);
    if q >= s.len() {
        Ok(Seq::empty())
    } else {
        match scan(s, q) {
            Err(e) => Err(e),
            Ok((t, e)) => {
                proof {
                    lemma_scan_advances(s, p);
                }
                prepend(seq![t], tokenize_from(s, e))
            },
        }
    }
}

/// The tokens of the whole of `s`, or the first error met.
pub open spec fn tokenize(s: Seq<char>) -> LexResult<Seq<TokenView>> {
    tokenize_from(s, 0)
}

/// Where scanning from `p` stops: the end of `s` after success, the first
/// character that starts no token after a failure.
pub open spec fn halt_from(s: Seq<char>, p: int) -> int
    decreases s.len() - p,
{
    let q = skip_ws(s, p);
    if q >= s.len() {
        q
    } else {
        match scan(s, q) {
            Err(_) => q,
            Ok((_, e)) => {
                proof {
                    lemma_scan_advances(s, p);
                }
                halt_from(s, e)
            },
        }
    }
}

/// `skip_ws` moves forward, stays within `s`, and stops on a non-whitespace
/// character or at the end.
pub proof fn lemma_skip_ws(s: Seq<char>, p: int)
    requires
        0 <= p <= s.len(),
    ensures
        p <= skip_ws(s, p) <= s.len(),
        skip_ws(s, p) == s.len() || !whitespace_char(s[skip_ws(s, p)]),
        skip_ws(s, skip_ws(s, p)) == skip_ws(s, p),
    decreases s.len() - p,
{
    if p < s.len() && whitespace_char(s[p]) {
        lemma_skip_ws(s, p + 1);
    }
}

/// `word_end` moves forward and stays within `s`.
pub proof fn lemma_word_end(s: Seq<char>, p: int)
    requires
        0 <= p <= s.len(),
    ensures
        p <= word_end(s, p) <= s.len(),
    decreases s.len() - p,
{
    if p < s.len() && is_word_char(s[p]) {
        lemma_word_end(s, p + 1);
    }
}

/// Scanning from `p` and from the first non-whitespace position after it
/// gives the same tokens and stops at the same place.
pub proof fn lemma_resume_after_whitespace(s: Seq<char>, p: int)
    requires
        0 <= p <= s.len(),
    ensures
        tokenize_from(s, skip_ws(s, p)) == tokenize_from(s, p),
        halt_from(s, skip_ws(s, p)) == halt_from(s, p),
{
    lemma_skip_ws(s, p);
}

/// A scanned token ends after the position that scanning started from.
pub proof fn lemma_scan_advances(s: Seq<char>, p: int)
    ensures
        0 <= p <= s.len() ==> skip_ws(s, p) >= p,
        scan(s, skip_ws(s, p)) matches Ok((_, e)) ==> e > skip_ws(s, p) && e <= s.len(),
{
    let q = skip_ws(s, p);
    if 0 <= p <= s.len() {
        lemma_skip_ws(s, p);
    }
    if 0 <= q < s.len() && is_word_char(s[q]) {
        lemma_word_end(s, q + 1);
    }
}


/// Relies on `String::push`: appends `c` to the end of `s`.
#[verifier::external_body]
fn push_char(s: &mut String, c: char)
    ensures
        final(s)@ == old(s)@.push(c),
{
    s.push(c);
}

/// A scanner over a fixed source text with a single cursor, counted in
/// characters from the start of the text.
pub struct Lexer {
    input: Vec<char>,
    position: usize,
}

impl Lexer {
    /// The source text.
    pub closed spec fn source(&self) -> Seq<char> {
        self.input@
    }

    /// The cursor: the number of characters consumed so far.
    pub closed spec fn cursor(&self) -> int {
        self.position as int
    }

    /// The cursor lies within the source.
    pub closed spec fn wf(&self) -> bool {
        self.position <= self.input.len()
    }

    /// Creates a new lexer from some source code, with its cursor at the start.
    pub fn new(input: &str) -> (l: Lexer)
        ensures
            l.wf(),
            l.source() == input@,
            l.cursor() == 0,
    {
        let mut chars: Vec<char> = Vec::new();
        for c in it: input.chars()
            invariant
                chars@ == it.seq().take(it.index() as int),
        {
            chars.push(c);
        }
        Lexer { input: chars, position: 0 }
    }

    /// The character at the cursor.
    fn peek(&self) -> (r: LexResult<char>)
        requires
            self.wf(),
        ensures
            r == (if self.cursor() < self.source().len() {
                Ok::<char, LexError>(self.source()[self.cursor()])
            } else {
                Err::<char, LexError>(LexError::UnexpectedEOF)
            }),
    {
        self.peek_ahead(0)
    }

    /// The character `offset` places after the cursor.
    fn peek_ahead(&self, offset: usize) -> (r: LexResult<char>)
        requires
            self.wf(),
        ensures
            r == (if self.cursor() + offset < self.source().len() {
                Ok::<char, LexError>(self.source()[self.cursor() + offset])
            } else {
                Err::<char, LexError>(LexError::UnexpectedEOF)
            }),
    {
        if offset < self.input.len() - self.position {
            Ok(self.input[self.position + offset])
        } else {
            Err(LexError::UnexpectedEOF)
        }
    }

    /// The two characters at the cursor.
    fn peek2(&self) -> (r: LexResult<(char, char)>)
        requires
            self.wf(),
        ensures
            r == (if self.cursor() + 1 < self.source().len() {
                Ok::<(char, char), LexError>(
                    (self.source()[self.cursor()], self.source()[self.cursor() + 1]),
                )
            } else {
                Err::<(char, char), LexError>(LexError::UnexpectedEOF)
            }),
    {
        let first = match self.peek() {
            Ok(c) => c,
            Err(e) => return Err(e),
        };
        let second = match self.peek_ahead(1) {
            Ok(c) => c,
            Err(e) => return Err(e),
        };
        Ok((first, second))
    }

    /// Moves the cursor one character on.
    fn advance(&mut self)
        requires
            old(self).wf(),
            old(self).cursor() < old(self).source().len(),
        ensures
            final(self).wf(),
            final(self).source() == old(self).source(),
            final(self).cursor() == old(self).cursor() + 1,
    {
        self.position += 1;
    }

    /// Moves the cursor past any whitespace.
    fn skip_whitespace(&mut self)
        requires
            old(self).wf(),
        ensures
            final(self).wf(),
            final(self).source() == old(self).source(),
            final(self).cursor() == skip_ws(old(self).source(), old(self).cursor()),
    {
        loop
            invariant
                self.wf(),
                self.source() == old(self).source(),
                skip_ws(self.source(), self.cursor()) == skip_ws(
                    old(self).source(),
                    old(self).cursor(),
                ),
            ensures
                self.wf(),
                self.source() == old(self).source(),
                self.cursor() == skip_ws(old(self).source(), old(self).cursor()),
            decreases self.source().len() - self.cursor(),
        {
            match self.peek() {
                Ok(ch) => {
                    if !is_whitespace(ch) {
                        break;
                    }
                    self.advance();
                },
                Err(_) => break,
            }
        }
    }

    /// Consumes the maximal run of word characters at the cursor and returns it.
    fn get_word(&mut self) -> (word: String)
        requires
            old(self).wf(),
        ensures
            final(self).wf(),
            final(self).source() == old(self).source(),
            old(self).cursor() <= final(self).cursor(),
            final(self).cursor() == word_end(old(self).source(), old(self).cursor()),
            word@ == old(self).source().subrange(old(self).cursor(), final(self).cursor()),
    {
        let mut word = String::new();
        loop
            invariant
                self.wf(),
                self.source() == old(self).source(),
                old(self).cursor() <= self.cursor(),
                word_end(self.source(), self.cursor()) == word_end(
                    old(self).source(),
                    old(self).cursor(),
                ),
                word@ == self.source().subrange(old(self).cursor(), self.cursor()),
            ensures
                self.wf(),
                self.source() == old(self).source(),
                old(self).cursor() <= self.cursor(),
                self.cursor() == word_end(old(self).source(), old(self).cursor()),
                word@ == self.source().subrange(old(self).cursor(), self.cursor()),
            decreases self.source().len() - self.cursor(),
        {
            match self.peek() {
                Ok(ch) => {
                    if !is_word_character(ch) {
                        break;
                    }
                    push_char(&mut word, ch);
                    self.advance();
                    assert(word@ =~= self.source().subrange(old(self).cursor(), self.cursor()));
                },
                Err(_) => break,
            }
        }
        word
    }

    /// Extracts the next token, and moves the cursor past it and past the
    /// whitespace that follows it.
    fn next(&mut self) -> (r: LexResult<Token>)
        requires
            old(self).wf(),
        ensures
            final(self).wf(),
            final(self).source() == old(self).source(),
            ({
                let s = old(self).source();
                let q = skip_ws(s, old(self).cursor());
                match r {
                    Ok(t) => scan(s, q) matches Ok((v, e)) && t@ == v && final(self).cursor()
                        == skip_ws(s, e),
                    Err(err) => scan(s, q) == Err::<(TokenView, int), LexError>(err)
                        && final(self).cursor() == q,
                }
            }),
    {
        let ghost s = self.source();
        self.skip_whitespace();
        proof {
            lemma_skip_ws(s, old(self).cursor());
        }
        let start = self.position;
        if let Ok((first, second)) = self.peek2() {
            if is_two_char_operator(first, second) {
                self.advance();
                self.advance();
                self.skip_whitespace();
                let mut text = String::new();
                push_char(&mut text, first);
                push_char(&mut text, second);
                assert(text@ =~= s.subrange(start as int, start + 2));
                return Ok(Token::Symbol(text));
            }
        }
        let peeked = match self.peek() {
            Ok(c) => c,
            Err(e) => return Err(e),
        };
        if is_one_char_operator(peeked) {
            self.advance();
            self.skip_whitespace();
            let mut text = String::new();
            push_char(&mut text, peeked);
            assert(text@ =~= seq![peeked]);
            return Ok(Token::Symbol(text));
        }
        if is_word_character(peeked) {
            let word = self.get_word();
            let end = self.position;
            self.skip_whitespace();
            if is_reserved(&self.input, start, end) {
                return Ok(Token::Keyword(word));
            }
            return Ok(Token::Word(word));
        }
        Err(LexError::UnexpectedCharacter(peeked))
    }

    /// Extracts every token from the cursor to the end of the source.
    /// The first failure aborts the scan: no partial list is returned, and the
    /// cursor is left on the character that starts no token.
    pub fn tokens(&mut self) -> (r: LexResult<Vec<Token>>)
        requires
            old(self).wf(),
        ensures
            final(self).wf(),
            final(self).source() == old(self).source(),
            final(self).cursor() == halt_from(old(self).source(), old(self).cursor()),
            match r {
                Ok(ts) => tokenize_from(old(self).source(), old(self).cursor()) == Ok::<
                    Seq<TokenView>,
                    LexError,
                >(views(ts@)),
                Err(e) => tokenize_from(old(self).source(), old(self).cursor()) == Err::<
                    Seq<TokenView>,
                    LexError,
                >(e),
            },
    {
        let ghost s = self.source();
        let ghost p0 = self.cursor();
        let mut tokens: Vec<Token> = Vec::new();
        self.skip_whitespace();
        proof {
            lemma_skip_ws(s, p0);
        }
        while self.position < self.input.len()
            invariant
                self.wf(),
                self.source() == s,
                s == old(self).source(),
                p0 == old(self).cursor(),
                self.cursor() == skip_ws(s, self.cursor()),
                tokenize_from(s, p0) == prepend(views(tokens@), tokenize_from(s, self.cursor())),
                halt_from(s, p0) == halt_from(s, self.cursor()),
            decreases s.len() - self.cursor(),
        {
            let ghost p = self.cursor();
            let step = self.next();
            match step {
                Ok(t) => {
                    proof {
                        lemma_scan_advances(s, p);
                        let e = scan(s, p)->Ok_0.1;
                        lemma_skip_ws(s, e);
                        lemma_resume_after_whitespace(s, e);
                        assert(views(tokens@.push(t)) =~= views(tokens@) + seq![t@]);
                        match tokenize_from(s, e) {
                            Ok(rest) => {
                                assert(views(tokens@) + (seq![t@] + rest) =~= views(
                                    tokens@.push(t),
                                ) + rest);
                            },
                            Err(_) => {},
                        }
                    }
                    tokens.push(t);
                },
                Err(e) => {
                    return Err(e);
                },
            }
        }
        proof {
            assert(views(tokens@) + Seq::<TokenView>::empty() =~= views(tokens@));
        }
        Ok(tokens)
    }
}

} // verus!
