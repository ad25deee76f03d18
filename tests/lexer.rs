use shell_lexer::{LexError, Lexer, Token};

fn lex(src: &str) -> Result<Vec<Token>, LexError> {
    Lexer::new(src).tokens()
}

fn sym(s: &str) -> Token {
    Token::Symbol(s.to_string())
}

fn kw(s: &str) -> Token {
    Token::Keyword(s.to_string())
}

fn word(s: &str) -> Token {
    Token::Word(s.to_string())
}

#[test]
fn whitespace_only_gives_no_tokens() {
    assert_eq!(lex("").unwrap(), vec![]);
    assert_eq!(lex(" ").unwrap(), vec![]);
    assert_eq!(lex(" \t\n  \r\n").unwrap(), vec![]);
}

#[test]
fn two_char_operator_is_one_symbol() {
    assert_eq!(lex("&&").unwrap(), vec![sym("&&")]);
    for op in [">>", "<<", ">&", "<&", "`>", ">|", "&&", "||"] {
        assert_eq!(lex(op).unwrap(), vec![sym(op)]);
    }
}

#[test]
fn two_char_operator_wins_over_single() {
    assert_eq!(lex("a>>b").unwrap(), vec![word("a"), sym(">>"), word("b")]);
    assert_eq!(lex(">>>").unwrap(), vec![sym(">>"), sym(">")]);
    assert_eq!(lex("> >").unwrap(), vec![sym(">"), sym(">")]);
    assert_eq!(lex("&|").unwrap(), vec![sym("&"), sym("|")]);
}

#[test]
fn every_single_char_operator() {
    for op in ["!", ";", "&", "|", "<", ">", "(", ")", "{", "}", "'", "\"", "`", "\\", "#", "*", "?", "[", "]"] {
        assert_eq!(lex(op).unwrap(), vec![sym(op)]);
    }
}

#[test]
fn reserved_words_are_keywords() {
    assert_eq!(lex("if then fi").unwrap(), vec![kw("if"), kw("then"), kw("fi")]);
    for k in ["case", "do", "done", "elif", "else", "esac", "fi", "for", "if", "in", "then", "while", "function"] {
        assert_eq!(lex(k).unwrap(), vec![kw(k)]);
    }
}

#[test]
fn other_words_are_words() {
    assert_eq!(lex("foo_1 bar").unwrap(), vec![word("foo_1"), word("bar")]);
    assert_eq!(lex("If iff fi_ _").unwrap(), vec![word("If"), word("iff"), word("fi_"), word("_")]);
    assert_eq!(lex("héllo 数字 ٣").unwrap(), vec![word("héllo"), word("数字"), word("٣")]);
}

#[test]
fn fresh_scanners_agree() {
    let src = "while true; do echo hi >> log; done";
    let first = lex(src).unwrap();
    let second = lex(src).unwrap();
    assert_eq!(first, second);
    assert_eq!(
        first,
        vec![
            kw("while"),
            word("true"),
            sym(";"),
            kw("do"),
            word("echo"),
            word("hi"),
            sym(">>"),
            word("log"),
            sym(";"),
            kw("done"),
        ]
    );
}

#[test]
fn single_trailing_character_is_a_token() {
    assert_eq!(lex("a").unwrap(), vec![word("a")]);
    assert_eq!(lex(";").unwrap(), vec![sym(";")]);
    assert_eq!(lex("ls ;").unwrap(), vec![word("ls"), sym(";")]);
    assert_eq!(lex("echo x").unwrap(), vec![word("echo"), word("x")]);
    assert_eq!(lex("  a  ").unwrap(), vec![word("a")]);
}

#[test]
fn stray_character_fails() {
    assert_eq!(lex("@"), Err(LexError::UnexpectedCharacter('@')));
    assert_eq!(lex("echo a@b"), Err(LexError::UnexpectedCharacter('@')));
    assert_eq!(lex("x $y @"), Err(LexError::UnexpectedCharacter('$')));
    assert_eq!(lex("-"), Err(LexError::UnexpectedCharacter('-')));
}

#[test]
fn error_leaves_no_tokens_and_second_call_resumes_nowhere() {
    let mut l = Lexer::new("ok fine @ more");
    assert_eq!(l.tokens(), Err(LexError::UnexpectedCharacter('@')));
    assert_eq!(l.tokens(), Err(LexError::UnexpectedCharacter('@')));
}

#[test]
fn finished_scanner_gives_nothing_more() {
    let mut l = Lexer::new("a | b");
    assert_eq!(l.tokens().unwrap(), vec![word("a"), sym("|"), word("b")]);
    assert_eq!(l.tokens().unwrap(), vec![]);
}

#[test]
fn error_messages() {
    assert_eq!(LexError::UnexpectedCharacter('@').message(), "Unexpected character: @");
    assert_eq!(LexError::UnexpectedEOF.message(), "Unexpected End Of File");
}

#[test]
fn unicode_whitespace_separates_words() {
    assert_eq!(lex("a\u{3000}b\u{a0}c").unwrap(), vec![word("a"), word("b"), word("c")]);
    assert_eq!(lex("echo\tx\n|\r\ny").unwrap(), vec![word("echo"), word("x"), sym("|"), word("y")]);
}

#[test]
fn operators_need_no_spaces() {
    assert_eq!(
        lex("cat<in>out&&x||y;").unwrap(),
        vec![
            word("cat"),
            sym("<"),
            kw("in"),
            sym(">"),
            word("out"),
            sym("&&"),
            word("x"),
            sym("||"),
            word("y"),
            sym(";"),
        ]
    );
    assert_eq!(lex("a>|b").unwrap(), vec![word("a"), sym(">|"), word("b")]);
    assert_eq!(lex("`>x").unwrap(), vec![sym("`>"), word("x")]);
}
