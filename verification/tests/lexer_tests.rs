use lib::{LangToken, Lexer, Span, TokenType};

fn lex_all(src: &str) -> Vec<LangToken> {
    let mut lexer = Lexer::init(src.to_string().into_boxed_str());
    let mut out = Vec::new();
    loop {
        let t = lexer.emit_token().unwrap();
        out.push(t);
        if t.ttype == TokenType::EOF {
            return out;
        }
    }
}

fn kinds(src: &str) -> Vec<TokenType> {
    lex_all(src).into_iter().map(|t| t.ttype).collect()
}

#[test]
fn simple_expression_tokens() {
    let toks = lex_all("2 + 2");
    assert_eq!(toks.len(), 4);
    assert_eq!(toks[0], LangToken::new(TokenType::Num, Span::init(0, 1)));
    assert_eq!(toks[1], LangToken::new(TokenType::Plus, Span::init(2, 1)));
    assert_eq!(toks[2], LangToken::new(TokenType::Num, Span::init(4, 1)));
    assert_eq!(toks[3], LangToken::new(TokenType::EOF, Span::init(5, 0)));
}

#[test]
fn operators_and_groups() {
    assert_eq!(
        kinds("+-*/^()"),
        vec![
            TokenType::Plus,
            TokenType::Minus,
            TokenType::Star,
            TokenType::Slash,
            TokenType::Caret,
            TokenType::LParen,
            TokenType::RParen,
            TokenType::EOF
        ]
    );
}

#[test]
fn one_or_two_byte_operators() {
    assert_eq!(
        kinds("! != < <= > >= = =="),
        vec![
            TokenType::Bang,
            TokenType::BangEq,
            TokenType::Lthen,
            TokenType::LthenEq,
            TokenType::Gthen,
            TokenType::GthenEq,
            TokenType::Eq,
            TokenType::EqEq,
            TokenType::EOF
        ]
    );
    let toks = lex_all("a<=b");
    assert_eq!(toks[1], LangToken::new(TokenType::LthenEq, Span::init(1, 2)));
}

#[test]
fn numbers_with_fraction() {
    let toks = lex_all("12.75 3");
    assert_eq!(toks[0], LangToken::new(TokenType::Num, Span::init(0, 5)));
    assert_eq!(toks[1], LangToken::new(TokenType::Num, Span::init(6, 1)));
}

#[test]
fn dot_without_digit_is_not_part_of_number() {
    let mut lexer = Lexer::init("1.".to_string().into_boxed_str());
    let t = lexer.emit_token().unwrap();
    assert_eq!(t, LangToken::new(TokenType::Num, Span::init(0, 1)));
    let e = lexer.emit_token().unwrap_err();
    assert_eq!(e.message(), "Invalid character: '.'");
    assert_eq!(e.span(), Span::init(2, 1));
}

#[test]
fn keywords_only_in_full() {
    assert_eq!(
        kinds("true false nil tomato fig name tree nilly falsey tru x_1 _y"),
        vec![
            TokenType::True,
            TokenType::False,
            TokenType::NIL,
            TokenType::Identifier,
            TokenType::Identifier,
            TokenType::Identifier,
            TokenType::Identifier,
            TokenType::Identifier,
            TokenType::Identifier,
            TokenType::Identifier,
            TokenType::Identifier,
            TokenType::Identifier,
            TokenType::EOF
        ]
    );
    let toks = lex_all("  abc9 ");
    assert_eq!(toks[0], LangToken::new(TokenType::Identifier, Span::init(2, 4)));
    let toks = lex_all("tree");
    assert_eq!(toks[0], LangToken::new(TokenType::Identifier, Span::init(0, 4)));
    let toks = lex_all("true");
    assert_eq!(toks[0], LangToken::new(TokenType::True, Span::init(0, 4)));
}

#[test]
fn whitespace_is_skipped() {
    let toks = lex_all("\t\x0B\x0C 7");
    assert_eq!(toks[0], LangToken::new(TokenType::Num, Span::init(4, 1)));
    assert_eq!(toks[1], LangToken::new(TokenType::EOF, Span::init(5, 0)));
}

#[test]
fn line_breaks_are_tokens() {
    assert_eq!(lex_all("\n")[0], LangToken::new(TokenType::NL, Span::init(0, 1)));
    assert_eq!(lex_all("\r")[0], LangToken::new(TokenType::NL, Span::init(0, 1)));
    assert_eq!(
        kinds("1\n 2\r\n"),
        vec![
            TokenType::Num,
            TokenType::NL,
            TokenType::Num,
            TokenType::NL,
            TokenType::NL,
            TokenType::EOF
        ]
    );
}

#[test]
fn token_texts_lex_back() {
    let all = [
        TokenType::Plus,
        TokenType::Minus,
        TokenType::Star,
        TokenType::Slash,
        TokenType::Caret,
        TokenType::Bang,
        TokenType::BangEq,
        TokenType::Eq,
        TokenType::EqEq,
        TokenType::Lthen,
        TokenType::LthenEq,
        TokenType::Gthen,
        TokenType::GthenEq,
        TokenType::LParen,
        TokenType::RParen,
        TokenType::True,
        TokenType::False,
        TokenType::NIL,
    ];
    for t in all {
        let text = t.to_string();
        let toks = lex_all(&text);
        assert_eq!(toks.len(), 2);
        assert_eq!(toks[0], LangToken::new(t, Span::init(0, text.len())));
        assert_eq!(toks[1].ttype, TokenType::EOF);
    }
}

#[test]
fn eof_repeats() {
    let mut lexer = Lexer::init("  ".to_string().into_boxed_str());
    for _ in 0..3 {
        let t = lexer.emit_token().unwrap();
        assert_eq!(t, LangToken::new(TokenType::EOF, Span::init(2, 0)));
    }
}

#[test]
fn zero_byte_ends_input() {
    let toks = lex_all("1\0+2");
    assert_eq!(toks.len(), 2);
    assert_eq!(toks[1], LangToken::new(TokenType::EOF, Span::init(1, 0)));
}

#[test]
fn invalid_character() {
    let mut lexer = Lexer::init("1 @".to_string().into_boxed_str());
    lexer.emit_token().unwrap();
    let e = lexer.emit_token().unwrap_err();
    assert_eq!(e.message(), "Invalid character: '@'");
    assert_eq!(e.span(), Span::init(3, 1));
    assert_eq!(e.exit_code(), 65);
}

#[test]
fn non_ascii_is_rejected() {
    let mut lexer = Lexer::init("é".to_string().into_boxed_str());
    let e = lexer.emit_token().unwrap_err();
    assert_eq!(e.message(), "Invalid character: 'Ã'");
}
