use lib::{ErrorType, LangToken, Span, TokenType};

#[test]
fn token_texts() {
    assert_eq!(TokenType::Plus.to_string(), "+");
    assert_eq!(TokenType::GthenEq.to_string(), ">=");
    assert_eq!(TokenType::Caret.as_str(), "^");
    assert_eq!(TokenType::Num.to_string(), "<num>");
    assert_eq!(TokenType::Identifier.to_string(), "<identifier>");
    assert_eq!(TokenType::NIL.to_string(), "nil");
    assert_eq!(TokenType::EOF.to_string(), "<eof>");
    assert_eq!(TokenType::NL.to_string(), "<nl>");
}

#[test]
fn invalid_token_message() {
    let t = LangToken::new(TokenType::Star, Span::init(3, 1));
    let e = t.invalid_token_x("operand");
    assert_eq!(e.message(), "Invalid operand: *");
    assert_eq!(e.span(), Span::init(3, 1));
    assert_eq!(e.error_type(), ErrorType::CompileError);
}

#[test]
fn token_debug_text() {
    let t = LangToken::new(TokenType::Num, Span::init(12, 3));
    assert_eq!(t.debug_string(), "LangToken { ttype: Num, tspan: Span(12, 3) }");
    assert_eq!(t.debug_string(), format!("{:?}", t));
}
