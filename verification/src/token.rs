use vstd::prelude::*;
use vstd::string::*;

use crate::error::{ErrorType, ErrorView, LangError};
use crate::span::Span;
use crate::text::{decimal, push_decimal};

verus! {

/// The kind of a token.
///
/// Only the kind is stored; the text of a number or a name is read back
/// from the source through the token's span.
#[derive(Debug, Clone, Copy, PartialEq, Eq, Structural)]
pub enum TokenType {
    /// `+`
    Plus,
    /// `-`
    Minus,
    /// `*`
    Star,
    /// `/`
    Slash,
    /// `^`
    Caret,
    /// `!`
    Bang,
    /// `!=`
    BangEq,
    /// `=`
    Eq,
    /// `==`
    EqEq,
    /// `<`
    Lthen,
    /// `<=`
    LthenEq,
    /// `>`
    Gthen,
    /// `>=`
    GthenEq,
    /// `(`
    LParen,
    /// `)`
    RParen,
    /// Number literal; its value is read by the compiler.
    Num,
    /// A name that is not a keyword.
    Identifier,
    /// Boolean `true`
    True,
    /// Boolean `false`
    False,
    /// `nil`, which counts as false in boolean checks.
    NIL,
    /// End of the input.
    EOF,
    /// End of a line.
    NL,
}

/// How a token kind is written when it is shown to the user.
pub open spec fn token_text(t: TokenType) -> Seq<char> {
    match t {
        TokenType::Plus => "+"@,
        TokenType::Minus => "-"@,
        TokenType::Star => "*"@,
        TokenType::Slash => "/"@,
        TokenType::Caret => "^"@,
        TokenType::Bang => "!"@,
        TokenType::BangEq => "!="@,
        TokenType::Eq => "="@,
        TokenType::EqEq => "=="@,
        TokenType::Lthen => "<"@,
        TokenType::LthenEq => "<="@,
        TokenType::Gthen => ">"@,
        TokenType::GthenEq => ">="@,
        TokenType::LParen => "("@,
        TokenType::RParen => ")"@,
        TokenType::Num => "<num>"@,
        TokenType::Identifier => "<identifier>"@,
        TokenType::True => "true"@,
        TokenType::False => "false"@,
        TokenType::NIL => "nil"@,
        TokenType::EOF => "<eof>"@,
        TokenType::NL => "<nl>"@,
    }
}

/// The name of a token kind as written in the source of this library,
/// which is how a token's debug text shows it.
pub open spec fn token_type_name(t: TokenType) -> Seq<char> {
    match t {
        TokenType::Plus => "Plus"@,
        TokenType::Minus => "Minus"@,
        TokenType::Star => "Star"@,
        TokenType::Slash => "Slash"@,
        TokenType::Caret => "Caret"@,
        TokenType::Bang => "Bang"@,
        TokenType::BangEq => "BangEq"@,
        TokenType::Eq => "Eq"@,
        TokenType::EqEq => "EqEq"@,
        TokenType::Lthen => "Lthen"@,
        TokenType::LthenEq => "LthenEq"@,
        TokenType::Gthen => "Gthen"@,
        TokenType::GthenEq => "GthenEq"@,
        TokenType::LParen => "LParen"@,
        TokenType::RParen => "RParen"@,
        TokenType::Num => "Num"@,
        TokenType::Identifier => "Identifier"@,
        TokenType::True => "True"@,
        TokenType::False => "False"@,
        TokenType::NIL => "NIL"@,
        TokenType::EOF => "EOF"@,
        TokenType::NL => "NL"@,
    }
}

impl TokenType {
    /// The name of this kind (see [`token_type_name`]).
    pub fn debug_name(&self) -> (s: &'static str)
        ensures
            s@ == token_type_name(*self),
    {
        match self {
            TokenType::Plus => "Plus",
            TokenType::Minus => "Minus",
            TokenType::Star => "Star",
            TokenType::Slash => "Slash",
            TokenType::Caret => "Caret",
            TokenType::Bang => "Bang",
            TokenType::BangEq => "BangEq",
            TokenType::Eq => "Eq",
            TokenType::EqEq => "EqEq",
            TokenType::Lthen => "Lthen",
            TokenType::LthenEq => "LthenEq",
            TokenType::Gthen => "Gthen",
            TokenType::GthenEq => "GthenEq",
            TokenType::LParen => "LParen",
            TokenType::RParen => "RParen",
            TokenType::Num => "Num",
            TokenType::Identifier => "Identifier",
            TokenType::True => "True",
            TokenType::False => "False",
            TokenType::NIL => "NIL",
            TokenType::EOF => "EOF",
            TokenType::NL => "NL",
        }
    }

    /// The text under which this kind is shown to the user.
    pub fn as_str(&self) -> (s: &'static str)
        ensures
            s@ == token_text(*self),
    {
        match self {
            TokenType::Plus => "+",
            TokenType::Minus => "-",
            TokenType::Star => "*",
            TokenType::Slash => "/",
            TokenType::Caret => "^",
            TokenType::Bang => "!",
            TokenType::BangEq => "!=",
            TokenType::Eq => "=",
            TokenType::EqEq => "==",
            TokenType::Lthen => "<",
            TokenType::LthenEq => "<=",
            TokenType::Gthen => ">",
            TokenType::GthenEq => ">=",
            TokenType::LParen => "(",
            TokenType::RParen => ")",
            TokenType::Num => "<num>",
            TokenType::Identifier => "<identifier>",
            TokenType::True => "true",
            TokenType::False => "false",
            TokenType::NIL => "nil",
            TokenType::EOF => "<eof>",
            TokenType::NL => "<nl>",
        }
    }

    /// The same text as [`TokenType::as_str`], as an owned string.
    pub fn to_string(&self) -> (s: String)
        ensures
            s@ == token_text(*self),
    {
        String::from_str(self.as_str())
    }
}

/// A single token produced by the lexer.
#[derive(Debug, Clone, Copy, PartialEq, Eq, Structural)]
pub struct LangToken {
    /// The kind of this token.
    pub ttype: TokenType,
    /// Where the token stands in the source.
    pub tspan: Span,
}

/// The debug text of a token, in the form
/// `LangToken { ttype: Num, tspan: Span(0, 1) }`.
pub open spec fn token_debug(t: LangToken) -> Seq<char> {
    "LangToken { ttype: "@ + token_type_name(t.ttype) + ", tspan: Span("@ + decimal(t.tspan.0 as nat)
        + ", "@ + decimal(t.tspan.1 as nat) + ") }"@
}

impl LangToken {
    /// The debug text of this token (see [`token_debug`]).
    pub fn debug_string(&self) -> (s: String)
        ensures
            s@ == token_debug(*self),
    {
        let mut s = String::from_str("LangToken { ttype: ");
        s.append(self.ttype.debug_name());
        s.append(", tspan: Span(");
        push_decimal(&mut s, self.tspan.0);
        s.append(", ");
        push_decimal(&mut s, self.tspan.1 as u32);
        s.append(") }");
        s
    }

    pub fn new(ttype: TokenType, tspan: Span) -> (t: LangToken)
        ensures
            t == (LangToken { ttype, tspan }),
    {
        LangToken { ttype, tspan }
    }

    /// A compile error at this token: `Invalid <filler>: <token text>`.
    pub fn invalid_token_x(&self, filler: &str) -> (e: LangError)
        ensures
            e@ == (ErrorView {
                span: self.tspan,
                msg: "Invalid "@ + filler@ + ": "@ + token_text(self.ttype),
                etype: ErrorType::CompileError,
            }),
    {
        let mut msg = String::from_str("Invalid ");
        msg.append(filler);
        msg.append(": ");
        msg.append(self.ttype.as_str());
        LangError::compile(self.tspan, msg)
    }
}

} // verus!
