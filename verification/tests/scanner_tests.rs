use lib::{LangToken, Scanner, Span, TokenType};

fn scanner(src: &str) -> Scanner {
    Scanner::init(src.to_string().into_boxed_str())
}

fn at(t: TokenType, pos: usize) -> LangToken {
    LangToken::new(t, Span::init(pos, 0))
}

#[test]
fn scanner_tokens_record_positions() {
    let mut s = scanner("1+2\0");
    assert_eq!(s.emit_token().unwrap(), at(TokenType::Num, 0));
    assert_eq!(s.emit_token().unwrap(), at(TokenType::Plus, 1));
    assert_eq!(s.emit_token().unwrap(), at(TokenType::Num, 2));
    assert_eq!(s.emit_token().unwrap(), at(TokenType::EOF, 3));
    assert_eq!(s.emit_token().unwrap(), at(TokenType::EOF, 3));
}

#[test]
fn scanner_skips_blanks_and_reads_operators() {
    let mut s = scanner(" \t( 3 ) < > * / -\0");
    let kinds: Vec<TokenType> = (0..9).map(|_| s.emit_token().unwrap().ttype).collect();
    assert_eq!(
        kinds,
        vec![
            TokenType::LParen,
            TokenType::Num,
            TokenType::RParen,
            TokenType::Lthen,
            TokenType::Gthen,
            TokenType::Star,
            TokenType::Slash,
            TokenType::Minus,
            TokenType::EOF
        ]
    );
}

#[test]
fn scanner_equals() {
    let mut s = scanner("== =\0");
    assert_eq!(s.emit_token().unwrap(), at(TokenType::EqEq, 0));
    assert_eq!(s.emit_token().unwrap(), at(TokenType::Eq, 3));
}

#[test]
fn scanner_unexpected_token() {
    let mut s = scanner("a\0");
    let e = s.emit_token().unwrap_err();
    assert_eq!(e.message(), "Unexpected Token: 'a'");
    assert_eq!(e.span(), Span::init(1, 0));
}

#[test]
fn scanner_operator_at_its_start() {
    let mut s = scanner("+\0");
    assert_eq!(s.emit_token().unwrap(), at(TokenType::Plus, 0));
}

#[test]
fn scanner_reads_digit_runs() {
    let mut s = scanner("123 45+6\0");
    assert_eq!(s.emit_token().unwrap(), at(TokenType::Num, 0));
    assert_eq!(s.emit_token().unwrap(), at(TokenType::Num, 4));
    assert_eq!(s.emit_token().unwrap(), at(TokenType::Plus, 6));
    assert_eq!(s.emit_token().unwrap(), at(TokenType::Num, 7));
    assert_eq!(s.emit_token().unwrap(), at(TokenType::EOF, 8));
}

#[test]
fn scanner_stops_blanks_at_line_break() {
    let mut s = scanner("  \n1\0");
    let e = s.emit_token().unwrap_err();
    assert_eq!(e.message(), "Unexpected Token: '\n'");
    assert_eq!(e.span(), Span::init(3, 0));
}
