use vstd::prelude::*;
use vstd::string::*;

use crate::error::{result_view, ErrorType, ErrorView, LangError};
use crate::lexer::{digit_byte, digits_end};
use crate::span::Span;
use crate::text::push_char;
use crate::token::{LangToken, TokenType};

verus! {

/// The blanks that the scanner skips: space, tab, vertical tab and form feed.
pub open spec fn blank_byte(c: u8) -> bool {
    c == 32 || c == 9 || c == 11 || c == 12
}

/// The first index at or after `i` that holds no blank.
pub open spec fn skip_blanks_from(src: Seq<u8>, i: int) -> int
    decreases src.len() - i,
{
    if 0 <= i < src.len() && blank_byte(src[i]) {
        skip_blanks_from(src, i + 1)
    } else {
        i
    }
}

proof fn lemma_skip_blanks_bounds(src: Seq<u8>, i: int)
    requires
        0 <= i <= src.len(),
    ensures
        i <= skip_blanks_from(src, i) <= src.len(),
    decreases src.len() - i,
{
    if i < src.len() && blank_byte(src[i]) {
        lemma_skip_blanks_bounds(src, i + 1);
    }
}

/// The token of kind `t` that the scanner records at position `at`: it keeps
/// a position only, as a span of length zero.
pub open spec fn token_at_position(t: TokenType, at: int) -> LangToken {
    LangToken { ttype: t, tspan: Span(at as u32, 0) }
}

/// The kinds of the tokens that are one byte long for the scanner.
pub open spec fn scanner_single_byte(c: u8) -> Option<TokenType> {
    if c == 43u8 {
        Some(TokenType::Plus)
    } else if c == 45u8 {
        Some(TokenType::Minus)
    } else if c == 42u8 {
        Some(TokenType::Star)
    } else if c == 47u8 {
        Some(TokenType::Slash)
    } else if c == 60u8 {
        Some(TokenType::Lthen)
    } else if c == 62u8 {
        Some(TokenType::Gthen)
    } else if c == 40u8 {
        Some(TokenType::LParen)
    } else if c == 41u8 {
        Some(TokenType::RParen)
    } else {
        None
    }
}

/// Whether the scanner can take its next token from `ptr` without reading
/// past the source: after the blanks there is a byte; a run of digits is
/// followed by another byte, and so is `=`.
pub open spec fn scan_defined(src: Seq<u8>, ptr: int) -> bool {
    let s = skip_blanks_from(src, ptr);
    &&& 0 <= ptr
    &&& s < src.len()
    &&& (src[s] != 0u8 && digit_byte(src[s])) ==> digits_end(src, s) < src.len()
    &&& (src[s] != 0u8 && src[s] == 61u8) ==> s + 1 < src.len()
}

/// The next token of the scanner standing at `ptr`, and where it stands afterwards.
///
/// A zero byte ends the input. A run of digits is a number token; operators
/// and parentheses are one byte; `==` and `=` are told apart. Every token is
/// recorded at the byte where it starts. Any other byte is an error.
pub open spec fn scan_token(src: Seq<u8>, ptr: int) -> (Result<LangToken, ErrorView>, int) {
    let s = skip_blanks_from(src, ptr);
    let c = src[s];
    if c == 0u8 {
        (Ok(token_at_position(TokenType::EOF, s)), s)
    } else if digit_byte(c) {
        (Ok(token_at_position(TokenType::Num, s)), digits_end(src, s))
    } else if scanner_single_byte(c) is Some {
        (Ok(token_at_position(scanner_single_byte(c)->0, s)), s + 1)
    } else if c == 61u8 {
        if src[s + 1] != 0u8 && src[s + 1] == 61u8 {
            (Ok(token_at_position(TokenType::EqEq, s)), s + 2)
        } else {
            (Ok(token_at_position(TokenType::Eq, s)), s + 1)
        }
    } else {
        (
            Err(
                ErrorView {
                    span: Span((s + 1) as u32, 0),
                    msg: "Unexpected Token: '"@ + seq![c as char] + "'"@,
                    etype: ErrorType::CompileError,
                },
            ),
            s + 1,
        )
    }
}

/// Byte-based lexical scanner, the first and simpler form of the [`crate::lexer::Lexer`].
///
/// Consumes a source string and produces [`LangToken`]s through
/// [`emit_token`](Self::emit_token); its tokens record a position only.
/// It works on raw bytes and supports ASCII input only.
pub struct Scanner {
    /// Source code being scanned.
    src: Box<str>,
    /// Current position (byte index) in the source.
    ptr: usize,
}

impl Scanner {
    /// The bytes of the source.
    pub closed spec fn source(&self) -> Seq<u8> {
        self.src.spec_bytes()
    }

    /// The byte index at which the scanner stands.
    pub closed spec fn pos(&self) -> int {
        self.ptr as int
    }

    pub open spec fn wf(&self) -> bool {
        self.pos() <= self.source().len() < usize::MAX
    }

    /// A scanner at the start of `src`.
    pub fn init(src: Box<str>) -> (s: Scanner)
        requires
            src.spec_bytes().len() < usize::MAX,
        ensures
            s.wf(),
            s.source() == src.spec_bytes(),
            s.pos() == 0,
    {
        Scanner { src, ptr: 0 }
    }

    /// Steps past the current byte and returns it.
    fn advance(&mut self) -> (c: u8)
        requires
            old(self).wf(),
            old(self).ptr < old(self).source().len(),
        ensures
            final(self).wf(),
            final(self).src == old(self).src,
            final(self).ptr == old(self).ptr + 1,
            c == old(self).source()[old(self).ptr as int],
    {
        self.ptr += 1;
        self.src.as_bytes()[self.ptr - 1]
    }

    /// Consumes the rest of a run of digits and returns a number token
    /// recorded at `start_ptr`, where the run starts. The run must be followed
    /// by another byte.
    fn number(&mut self, start_ptr: usize) -> (t: LangToken)
        requires
            old(self).wf(),
            digits_end(old(self).source(), old(self).ptr as int) < old(self).source().len(),
        ensures
            final(self).wf(),
            final(self).src == old(self).src,
            final(self).ptr == digits_end(old(self).source(), old(self).ptr as int),
            t == token_at_position(TokenType::Num, start_ptr as int),
    {
        loop
            invariant_except_break
                self.wf(),
                self.src == old(self).src,
                digits_end(self.source(), self.ptr as int) == digits_end(
                    old(self).source(),
                    old(self).ptr as int,
                ),
                digits_end(self.source(), self.ptr as int) < self.source().len(),
            ensures
                self.wf(),
                self.src == old(self).src,
                self.ptr == digits_end(old(self).source(), old(self).ptr as int),
            decreases self.source().len() - self.ptr,
        {
            let c = self.src.as_bytes()[self.ptr];
            if !(48 <= c && c <= 57) {
                break;
            }
            self.ptr += 1;
        }
        LangToken::new(TokenType::Num, Span::init(start_ptr, 0))
    }

    /// Emits the next token of the input (see [`scan_token`]).
    pub fn emit_token(&mut self) -> (r: Result<LangToken, LangError>)
        requires
            old(self).wf(),
            scan_defined(old(self).source(), old(self).pos()),
        ensures
            final(self).wf(),
            final(self).source() == old(self).source(),
            result_view(r) == scan_token(old(self).source(), old(self).pos()).0,
            final(self).pos() == scan_token(old(self).source(), old(self).pos()).1,
    {
        self.skip_whitespace();

        let start = self.ptr;
        if self.is_at_end() {
            return Ok(self.make_token(TokenType::EOF, start));
        }

        let c = self.advance();
        let res = match c {
            48u8..=57u8 => self.number(start),
            43u8 => self.make_token(TokenType::Plus, start),
            45u8 => self.make_token(TokenType::Minus, start),
            42u8 => self.make_token(TokenType::Star, start),
            47u8 => self.make_token(TokenType::Slash, start),
            60u8 => self.make_token(TokenType::Lthen, start),
            62u8 => self.make_token(TokenType::Gthen, start),
            40u8 => self.make_token(TokenType::LParen, start),
            41u8 => self.make_token(TokenType::RParen, start),
            61u8 => {
                if self.match_current('=') {
                    self.make_token(TokenType::EqEq, start)
                } else {
                    self.make_token(TokenType::Eq, start)
                }
            },
            t => {
                let mut msg = String::from_str("Unexpected Token: '");
                push_char(&mut msg, t as char);
                msg.append("'");
                assert(msg@ =~= "Unexpected Token: '"@ + seq![t as char] + "'"@);
                return Err(LangError::compile(Span::init(self.ptr, 0), msg));
            },
        };
        Ok(res)
    }

    /// The token of kind `ttype`, recorded at `start`, where it starts.
    fn make_token(&self, ttype: TokenType, start: usize) -> (t: LangToken)
        ensures
            t == token_at_position(ttype, start as int),
    {
        LangToken::new(ttype, Span::init(start, 0))
    }

    /// Whether the current byte is the zero byte that ends the input.
    fn is_at_end(&self) -> (r: bool)
        requires
            self.wf(),
            self.ptr < self.source().len(),
        ensures
            r == (self.source()[self.ptr as int] == 0u8),
    {
        self.src.as_bytes()[self.ptr] == 0u8
    }

    /// Consumes the current byte and returns true when it is `expected`.
    fn match_current(&mut self, expected: char) -> (r: bool)
        requires
            old(self).wf(),
            old(self).ptr < old(self).source().len(),
        ensures
            final(self).wf(),
            final(self).src == old(self).src,
            r == (old(self).source()[old(self).ptr as int] != 0u8 && old(self).source()[old(
                self,
            ).ptr as int] == (expected as u8)),
            final(self).ptr == old(self).ptr + if r { 1int } else { 0int },
    {
        if self.is_at_end() || self.src.as_bytes()[self.ptr] != expected as u8 {
            return false;
        }
        self.ptr += 1;
        true
    }

    /// The current byte.
    fn peek(&self) -> (c: u8)
        requires
            self.wf(),
            self.ptr < self.source().len(),
        ensures
            c == self.source()[self.ptr as int],
    {
        self.src.as_bytes()[self.ptr]
    }

    /// The byte after the current one.
    fn peek_next(&self) -> (c: u8)
        requires
            self.wf(),
            self.ptr + 1 < self.source().len(),
        ensures
            c == self.source()[self.ptr + 1],
    {
        self.src.as_bytes()[self.ptr + 1]
    }

    /// Skips blanks: space, tab, vertical tab and form feed, and stops at
    /// any other byte. The blanks must end before the end of the source.
    fn skip_whitespace(&mut self)
        requires
            old(self).wf(),
            skip_blanks_from(old(self).source(), old(self).pos()) < old(self).source().len(),
        ensures
            final(self).wf(),
            final(self).src == old(self).src,
            final(self).ptr == skip_blanks_from(old(self).source(), old(self).pos()),
    {
        proof {
            lemma_skip_blanks_bounds(self.source(), self.pos());
        }
        loop
            invariant
                self.wf(),
                self.src == old(self).src,
                old(self).ptr <= self.ptr,
                self.pos() <= skip_blanks_from(old(self).source(), old(self).pos()),
                skip_blanks_from(old(self).source(), old(self).pos()) < old(self).source().len(),
                skip_blanks_from(self.source(), self.pos()) == skip_blanks_from(
                    old(self).source(),
                    old(self).pos(),
                ),
            decreases self.source().len() - self.ptr,
        {
            proof {
                lemma_skip_blanks_bounds(self.source(), self.pos() + 1);
            }
            let c = self.peek();
            if c == 32u8 || c == 9u8 || c == 11u8 || c == 12u8 {
                self.ptr += 1;
            } else {
                return;
            }
        }
    }
}

} // verus!
