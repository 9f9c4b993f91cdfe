use vstd::prelude::*;
use vstd::string::*;

use crate::error::{result_view, ErrorType, ErrorView, LangError};
use crate::span::Span;
use crate::text::push_char;
use crate::token::{token_text, LangToken, TokenType};

verus! {

/// Whitespace that the lexer skips: `' '`, `'\t'`, vertical tab and form
/// feed. Line breaks are not skipped: they are tokens.
pub open spec fn whitespace_byte(c: u8) -> bool {
    c == 32 || c == 9 || c == 11 || c == 12
}

/// `'0'` to `'9'`.
pub open spec fn digit_byte(c: u8) -> bool {
    48 <= c <= 57
}

/// Letters, digits and `'_'`: the bytes that may continue a name.
pub open spec fn alphanumeric_byte(c: u8) -> bool {
    (97 <= c <= 122) || (65 <= c <= 90) || c == 95 || digit_byte(c)
}

/// The first index at or after `i` that does not hold whitespace.
pub open spec fn skip_whitespace_from(src: Seq<u8>, i: int) -> int
    decreases src.len() - i,
{
    if 0 <= i < src.len() && whitespace_byte(src[i]) {
        skip_whitespace_from(src, i + 1)
    } else {
        i
    }
}

/// The first index at or after `i` that does not hold a digit.
pub open spec fn digits_end(src: Seq<u8>, i: int) -> int
    decreases src.len() - i,
{
    if 0 <= i < src.len() && digit_byte(src[i]) {
        digits_end(src, i + 1)
    } else {
        i
    }
}

/// The first index at or after `i` that does not hold a letter, digit or `'_'`.
pub open spec fn alphanumeric_end(src: Seq<u8>, i: int) -> int
    decreases src.len() - i,
{
    if 0 <= i < src.len() && alphanumeric_byte(src[i]) {
        alphanumeric_end(src, i + 1)
    } else {
        i
    }
}

/// Where a number ends whose first digit stands just before `i`: after the
/// digits, and, when a `'.'` follows them and a digit follows the `'.'`,
/// after the digits that follow the `'.'`.
pub open spec fn number_end(src: Seq<u8>, i: int) -> int {
    let k = digits_end(src, i);
    if 0 <= k && k + 1 < src.len() && src[k] == 46u8 && digit_byte(src[k + 1]) {
        digits_end(src, k + 1)
    } else {
        k
    }
}

/// Whether the lexer stands at the end of its input: past the last byte, or on a zero byte.
pub open spec fn at_end(src: Seq<u8>, i: int) -> bool {
    i + 1 > src.len() || src[i] == 0u8
}

/// The bytes of `true`.
pub open spec fn true_bytes() -> Seq<u8> {
    seq![116u8, 114u8, 117u8, 101u8]
}

/// The bytes of `false`.
pub open spec fn false_bytes() -> Seq<u8> {
    seq![102u8, 97u8, 108u8, 115u8, 101u8]
}

/// The bytes of `nil`.
pub open spec fn nil_bytes() -> Seq<u8> {
    seq![110u8, 105u8, 108u8]
}

/// The kind of a name: `True`, `False` or `NIL` when it is that keyword in
/// full, `Identifier` otherwise.
pub open spec fn keyword_type(name: Seq<u8>) -> TokenType {
    if name == true_bytes() {
        TokenType::True
    } else if name == false_bytes() {
        TokenType::False
    } else if name == nil_bytes() {
        TokenType::NIL
    } else {
        TokenType::Identifier
    }
}

/// The keyword check for the rest of a name: `res_type` when the name is
/// `len` bytes long, one more than `rest`, and the bytes from `start` on are
/// those of `rest`; `Identifier` otherwise.
pub open spec fn keyword_rest(
    src: Seq<u8>,
    start: int,
    len: int,
    rest: Seq<u8>,
    res_type: TokenType,
) -> TokenType {
    if len == rest.len() + 1 && 0 <= start && start + rest.len() <= src.len() && src.subrange(
        start,
        start + rest.len(),
    ) == rest {
        res_type
    } else {
        TokenType::Identifier
    }
}

/// The kind of the name covered by `span`, as the lexer decides it: its first
/// byte picks the keyword it may be, and the rest of the name must match the
/// rest of that keyword (see [`keyword_rest`]).
pub open spec fn name_type(src: Seq<u8>, span: Span) -> TokenType {
    let st = span.0 as int;
    let len = span.1 as int;
    if st < src.len() {
        if src[st] == 116u8 {
            keyword_rest(src, st + 1, len, true_bytes().drop_first(), TokenType::True)
        } else if src[st] == 102u8 {
            keyword_rest(src, st + 1, len, false_bytes().drop_first(), TokenType::False)
        } else if src[st] == 110u8 {
            keyword_rest(src, st + 1, len, nil_bytes().drop_first(), TokenType::NIL)
        } else {
            TokenType::Identifier
        }
    } else {
        TokenType::Identifier
    }
}

/// The kind of a token that is always one byte long.
pub open spec fn single_byte_token(c: u8) -> Option<TokenType> {
    if c == 43u8 {
        Some(TokenType::Plus)
    } else if c == 45u8 {
        Some(TokenType::Minus)
    } else if c == 42u8 {
        Some(TokenType::Star)
    } else if c == 47u8 {
        Some(TokenType::Slash)
    } else if c == 94u8 {
        Some(TokenType::Caret)
    } else if c == 40u8 {
        Some(TokenType::LParen)
    } else if c == 41u8 {
        Some(TokenType::RParen)
    } else if c == 10u8 || c == 13u8 {
        Some(TokenType::NL)
    } else {
        None
    }
}

/// For the bytes that start a token of one or two bytes, the kind with a
/// following `'='` and the kind without: `!`, `<`, `>` and `=`.
pub open spec fn two_byte_token(c: u8) -> Option<(TokenType, TokenType)> {
    if c == 33u8 {
        Some((TokenType::BangEq, TokenType::Bang))
    } else if c == 60u8 {
        Some((TokenType::LthenEq, TokenType::Lthen))
    } else if c == 62u8 {
        Some((TokenType::GthenEq, TokenType::Gthen))
    } else if c == 61u8 {
        Some((TokenType::EqEq, TokenType::Eq))
    } else {
        None
    }
}

/// The span from `start` to `end`, as the lexer stores it (truncated to the field widths).
pub open spec fn span_between(start: int, end: int) -> Span {
    Span(start as u32, (end - start) as u16)
}

/// The token of kind `t` that covers `start..end`.
pub open spec fn token_at(t: TokenType, start: int, end: int) -> LangToken {
    LangToken { ttype: t, tspan: span_between(start, end) }
}

/// The error for a byte that starts no token. Its span starts one byte after
/// the offending byte, where the lexer stands once it has read it.
pub open spec fn invalid_character(at: int, c: u8) -> ErrorView {
    ErrorView {
        span: Span((at + 1) as u32, 1),
        msg: "Invalid character: '"@ + seq![c as char] + "'"@,
        etype: ErrorType::CompileError,
    }
}

/// One step of the lexer: the token (or error), where its text starts and
/// where the lexer stands afterwards.
pub struct Lexed {
    pub token: Result<LangToken, ErrorView>,
    pub start: int,
    pub end: int,
}

/// What the lexer emits when it stands at `pos` in `src`.
///
/// Whitespace is skipped first. At the end of the input it emits `EOF`
/// (of length zero) and stays where it is. A digit starts a number, another
/// letter or `'_'` a name (see [`name_type`]); a line break (`'\n'` or
/// `'\r'`) is an `NL` token of one byte; operators and parentheses are one
/// byte, or two when one of `! < > =` is followed by `'='`. Any other byte,
/// including every byte outside ASCII, is an error.
pub open spec fn lex_token(src: Seq<u8>, pos: int) -> Lexed {
    let s = skip_whitespace_from(src, pos);
    if at_end(src, s) {
        Lexed { token: Ok(token_at(TokenType::EOF, s, s)), start: s, end: s }
    } else {
        let c = src[s];
        if digit_byte(c) {
            let e = number_end(src, s + 1);
            Lexed { token: Ok(token_at(TokenType::Num, s, e)), start: s, end: e }
        } else if alphanumeric_byte(c) {
            let e = alphanumeric_end(src, s + 1);
            Lexed {
                token: Ok(token_at(name_type(src, span_between(s, e)), s, e)),
                start: s,
                end: e,
            }
        } else if single_byte_token(c) is Some {
            Lexed { token: Ok(token_at(single_byte_token(c)->0, s, s + 1)), start: s, end: s + 1 }
        } else if two_byte_token(c) is Some {
            let (matched, single) = two_byte_token(c)->0;
            if s + 1 < src.len() && src[s + 1] == 61u8 {
                Lexed { token: Ok(token_at(matched, s, s + 2)), start: s, end: s + 2 }
            } else {
                Lexed { token: Ok(token_at(single, s, s + 1)), start: s, end: s + 1 }
            }
        } else {
            Lexed { token: Err(invalid_character(s, c)), start: s, end: s + 1 }
        }
    }
}

/// The bytes of the keyword rests that the lexer compares.
proof fn lemma_keyword_rests()
    ensures
        "rue".spec_bytes() == true_bytes().drop_first(),
        "alse".spec_bytes() == false_bytes().drop_first(),
        "il".spec_bytes() == nil_bytes().drop_first(),
{
    broadcast use vstd::string::is_ascii_spec_bytes;

    reveal_strlit("rue");
    reveal_strlit("alse");
    reveal_strlit("il");
    assert(is_ascii("rue"));
    assert(is_ascii("alse"));
    assert(is_ascii("il"));
    assert("rue".spec_bytes() =~= true_bytes().drop_first());
    assert("alse".spec_bytes() =~= false_bytes().drop_first());
    assert("il".spec_bytes() =~= nil_bytes().drop_first());
}

proof fn lemma_skip_whitespace_bounds(src: Seq<u8>, i: int)
    requires
        0 <= i <= src.len(),
    ensures
        i <= skip_whitespace_from(src, i) <= src.len(),
    decreases src.len() - i,
{
    if i < src.len() && whitespace_byte(src[i]) {
        lemma_skip_whitespace_bounds(src, i + 1);
    }
}

proof fn lemma_digits_end_bounds(src: Seq<u8>, i: int)
    requires
        0 <= i <= src.len(),
    ensures
        i <= digits_end(src, i) <= src.len(),
    decreases src.len() - i,
{
    if i < src.len() && digit_byte(src[i]) {
        lemma_digits_end_bounds(src, i + 1);
    }
}

proof fn lemma_alphanumeric_end_bounds(src: Seq<u8>, i: int)
    requires
        0 <= i <= src.len(),
    ensures
        i <= alphanumeric_end(src, i) <= src.len(),
    decreases src.len() - i,
{
    if i < src.len() && alphanumeric_byte(src[i]) {
        lemma_alphanumeric_end_bounds(src, i + 1);
    }
}

/// Each step of the lexer starts its token at or after where the lexer stood,
/// never reads past the input, and a token other than `EOF` is at least one byte long.
pub proof fn lemma_lex_progress(src: Seq<u8>, pos: int)
    requires
        0 <= pos <= src.len(),
    ensures
        pos <= lex_token(src, pos).start <= lex_token(src, pos).end <= src.len(),
        lex_token(src, pos).token matches Ok(t) ==> (t.ttype == TokenType::EOF <==> lex_token(
            src,
            pos,
        ).start == lex_token(src, pos).end),
        lex_token(src, pos).token is Err ==> lex_token(src, pos).end == lex_token(src, pos).start
            + 1,
{
    let s = skip_whitespace_from(src, pos);
    lemma_skip_whitespace_bounds(src, pos);
    if !at_end(src, s) {
        lemma_alphanumeric_end_bounds(src, s + 1);
        lemma_digits_end_bounds(src, s + 1);
        let k = digits_end(src, s + 1);
        if 0 <= k && k + 1 < src.len() {
            lemma_digits_end_bounds(src, k + 1);
        }
    }
}

/// In a source shorter than 2^32 bytes, a token's span starts exactly where
/// its text starts, and its start plus its (possibly truncated) length does
/// not pass the position after it.
pub proof fn lemma_lex_token_span(src: Seq<u8>, pos: int)
    requires
        0 <= pos <= src.len(),
        src.len() < 0x1_0000_0000,
    ensures
        lex_token(src, pos).token matches Ok(t) ==> t.tspan.0 == lex_token(src, pos).start
            && t.tspan.0 + t.tspan.1 <= lex_token(src, pos).end,
{
    lemma_lex_progress(src, pos);
    let lx = lex_token(src, pos);
    let d = lx.end - lx.start;
    assert(0 <= d);
    if d < 0x1_0000 {
        assert(d as u16 == d);
    }
    assert((d as u16) <= d);
    assert(lx.start as u32 == lx.start);
}

/// Once the lexer has emitted `EOF`, it stays where it is and emits `EOF` again.
pub proof fn lemma_eof_is_final(src: Seq<u8>, pos: int)
    requires
        0 <= pos <= src.len(),
        lex_token(src, pos).token matches Ok(t) && t.ttype == TokenType::EOF,
    ensures
        lex_token(src, lex_token(src, pos).end) == lex_token(src, pos),
{
    lemma_skip_whitespace_bounds(src, pos);
}

/// A byte outside ASCII where a token starts is an invalid character.
pub proof fn lemma_non_ascii_rejected(src: Seq<u8>, pos: int)
    requires
        0 <= pos <= src.len(),
        skip_whitespace_from(src, pos) < src.len(),
        src[skip_whitespace_from(src, pos)] >= 128,
    ensures
        lex_token(src, pos).token == Err::<LangToken, ErrorView>(
            invalid_character(skip_whitespace_from(src, pos), src[skip_whitespace_from(src, pos)]),
        ),
{
}

/// Whitespace before a token does not change it: lexing from anywhere in the
/// whitespace run gives the same step as lexing from its end.
pub proof fn lemma_whitespace_skipped(src: Seq<u8>, pos: int)
    requires
        0 <= pos <= src.len(),
    ensures
        lex_token(src, pos) == lex_token(src, skip_whitespace_from(src, pos)),
{
    lemma_skip_whitespace_bounds(src, pos);
    lemma_skip_whitespace_idempotent(src, pos);
}

proof fn lemma_skip_whitespace_idempotent(src: Seq<u8>, i: int)
    requires
        0 <= i <= src.len(),
    ensures
        skip_whitespace_from(src, skip_whitespace_from(src, i)) == skip_whitespace_from(src, i),
    decreases src.len() - i,
{
    if i < src.len() && whitespace_byte(src[i]) {
        lemma_skip_whitespace_idempotent(src, i + 1);
    }
}

proof fn lemma_match_keyword(src: Seq<u8>, s: int, e: int, kw: Seq<u8>)
    requires
        0 <= s < e <= src.len(),
        kw.len() >= 1,
    ensures
        (src[s] == kw[0] && e - s == kw.drop_first().len() + 1 && src.subrange(
            s + 1,
            s + 1 + kw.drop_first().len(),
        ) == kw.drop_first()) <==> src.subrange(s, e) == kw,
{
    if src.subrange(s, e) == kw {
        assert(src.subrange(s + 1, e) =~= kw.drop_first());
        assert(src.subrange(s, e)[0] == src[s]);
    }
    if src[s] == kw[0] && e - s == kw.drop_first().len() + 1 && src.subrange(
        s + 1,
        s + 1 + kw.drop_first().len(),
    ) == kw.drop_first() {
        assert forall|k: int| 0 <= k < kw.len() implies src.subrange(s, e)[k] == kw[k] by {
            if k > 0 {
                assert(src.subrange(s + 1, s + 1 + kw.drop_first().len())[k - 1] == kw.drop_first()[k
                    - 1]);
            }
        }
        assert(src.subrange(s, e) =~= kw);
    }
}

/// A name is `true`, `false` or `nil` only when it is that keyword in full;
/// every other name, such as `tree` or `nilly`, is an identifier (for names
/// and sources short enough that their span is stored without truncation).
pub proof fn lemma_name_is_keyword_in_full(src: Seq<u8>, s: int, e: int)
    requires
        0 <= s < e <= src.len(),
        src.len() < 0x1_0000_0000,
        e - s < 0x1_0000,
    ensures
        name_type(src, span_between(s, e)) == keyword_type(src.subrange(s, e)),
{
    let sp = span_between(s, e);
    assert(sp.0 as int == s);
    assert(sp.1 as int == e - s);
    lemma_match_keyword(src, s, e, true_bytes());
    lemma_match_keyword(src, s, e, false_bytes());
    lemma_match_keyword(src, s, e, nil_bytes());
}

/// The bytes of a text written in ASCII.
pub open spec fn text_bytes(text: Seq<char>) -> Seq<u8> {
    Seq::new(text.len(), |i: int| text[i] as u8)
}

/// The token kinds that stand for one fixed text: operators, parentheses and keywords.
pub open spec fn has_fixed_text(t: TokenType) -> bool {
    !(t is Num || t is Identifier || t is EOF || t is NL)
}

/// Lexing `src` gives one token of kind `t` over all of it, and then `EOF`.
pub open spec fn lexes_to_one(src: Seq<u8>, t: TokenType) -> bool {
    &&& lex_token(src, 0) == (Lexed {
        token: Ok(token_at(t, 0, src.len() as int)),
        start: 0,
        end: src.len() as int,
    })
    &&& lex_token(src, src.len() as int).token == Ok::<LangToken, ErrorView>(
        token_at(TokenType::EOF, src.len() as int, src.len() as int),
    )
}

proof fn lemma_one_byte_text(c: u8)
    requires
        single_byte_token(c) is Some,
        c != 10u8,
        c != 13u8,
    ensures
        lexes_to_one(seq![c], single_byte_token(c)->0),
{
    let b = seq![c];
    assert(skip_whitespace_from(b, 0) == 0);
    assert(skip_whitespace_from(b, 1) == 1);
}

proof fn lemma_two_byte_text(c: u8)
    requires
        two_byte_token(c) is Some,
    ensures
        ({
            let (matched, single) = two_byte_token(c)->0;
            lexes_to_one(seq![c], single) && lexes_to_one(seq![c, 61u8], matched)
        }),
{
    let b = seq![c];
    assert(skip_whitespace_from(b, 0) == 0);
    assert(skip_whitespace_from(b, 1) == 1);
    let b2 = seq![c, 61u8];
    assert(skip_whitespace_from(b2, 0) == 0);
    assert(skip_whitespace_from(b2, 2) == 2);
}

proof fn lemma_keyword_text(kw: Seq<u8>)
    requires
        kw == true_bytes() || kw == false_bytes() || kw == nil_bytes(),
    ensures
        lexes_to_one(kw, keyword_type(kw)),
{
    assert(skip_whitespace_from(kw, 0) == 0);
    assert(skip_whitespace_from(kw, kw.len() as int) == kw.len());
    reveal_with_fuel(alphanumeric_end, 6);
    assert(alphanumeric_end(kw, 1) == kw.len());
    lemma_name_is_keyword_in_full(kw, 0, kw.len() as int);
    assert(kw.subrange(0, kw.len() as int) =~= kw);
}

/// Lexing the text under which a token kind is shown gives that kind back,
/// as one token over the whole text, followed by `EOF`.
pub proof fn lemma_token_text_lexes_back(t: TokenType)
    requires
        has_fixed_text(t),
    ensures
        lexes_to_one(text_bytes(token_text(t)), t),
{
    let b = text_bytes(token_text(t));
    match t {
        TokenType::Plus => {
            reveal_strlit("+");
            assert(b =~= seq![43u8]);
            lemma_one_byte_text(43u8);
        },
        TokenType::Minus => {
            reveal_strlit("-");
            assert(b =~= seq![45u8]);
            lemma_one_byte_text(45u8);
        },
        TokenType::Star => {
            reveal_strlit("*");
            assert(b =~= seq![42u8]);
            lemma_one_byte_text(42u8);
        },
        TokenType::Slash => {
            reveal_strlit("/");
            assert(b =~= seq![47u8]);
            lemma_one_byte_text(47u8);
        },
        TokenType::Caret => {
            reveal_strlit("^");
            assert(b =~= seq![94u8]);
            lemma_one_byte_text(94u8);
        },
        TokenType::Bang => {
            reveal_strlit("!");
            assert(b =~= seq![33u8]);
            lemma_two_byte_text(33u8);
        },
        TokenType::BangEq => {
            reveal_strlit("!=");
            assert(b =~= seq![33u8, 61u8]);
            lemma_two_byte_text(33u8);
        },
        TokenType::Eq => {
            reveal_strlit("=");
            assert(b =~= seq![61u8]);
            lemma_two_byte_text(61u8);
        },
        TokenType::EqEq => {
            reveal_strlit("==");
            assert(b =~= seq![61u8, 61u8]);
            lemma_two_byte_text(61u8);
        },
        TokenType::Lthen => {
            reveal_strlit("<");
            assert(b =~= seq![60u8]);
            lemma_two_byte_text(60u8);
        },
        TokenType::LthenEq => {
            reveal_strlit("<=");
            assert(b =~= seq![60u8, 61u8]);
            lemma_two_byte_text(60u8);
        },
        TokenType::Gthen => {
            reveal_strlit(">");
            assert(b =~= seq![62u8]);
            lemma_two_byte_text(62u8);
        },
        TokenType::GthenEq => {
            reveal_strlit(">=");
            assert(b =~= seq![62u8, 61u8]);
            lemma_two_byte_text(62u8);
        },
        TokenType::LParen => {
            reveal_strlit("(");
            assert(b =~= seq![40u8]);
            lemma_one_byte_text(40u8);
        },
        TokenType::RParen => {
            reveal_strlit(")");
            assert(b =~= seq![41u8]);
            lemma_one_byte_text(41u8);
        },
        TokenType::True => {
            reveal_strlit("true");
            assert(b =~= seq![116u8, 114u8, 117u8, 101u8]);
            lemma_keyword_text(seq![116u8, 114u8, 117u8, 101u8]);
        },
        TokenType::False => {
            reveal_strlit("false");
            assert(b =~= seq![102u8, 97u8, 108u8, 115u8, 101u8]);
            lemma_keyword_text(seq![102u8, 97u8, 108u8, 115u8, 101u8]);
        },
        TokenType::NIL => {
            reveal_strlit("nil");
            assert(b =~= seq![110u8, 105u8, 108u8]);
            lemma_keyword_text(seq![110u8, 105u8, 108u8]);
        },
        _ => {},
    }
}

proof fn lemma_digits_end_run(src: Seq<u8>, x: int, e: int)
    requires
        0 <= x <= e <= src.len(),
        forall|y: int| x <= y < e ==> digit_byte(#[trigger] src[y]),
        e == src.len() || !digit_byte(src[e]),
    ensures
        digits_end(src, x) == e,
    decreases e - x,
{
    if x < e {
        lemma_digits_end_run(src, x + 1, e);
    }
}

/// A number with a fraction is one token: digits, a `'.'` and at least one
/// digit after it (up to the next byte that is no digit, or the end of the
/// input) lex as a single `Num` that covers all of them.
pub proof fn lemma_fraction_is_one_number(src: Seq<u8>, p: int, i: int, k: int)
    requires
        0 <= p < i,
        i + 1 < k <= src.len(),
        forall|y: int| p <= y < i ==> digit_byte(#[trigger] src[y]),
        src[i] == 46u8,
        forall|y: int| i < y < k ==> digit_byte(#[trigger] src[y]),
        k == src.len() || !digit_byte(src[k]),
    ensures
        lex_token(src, p) == (Lexed { token: Ok(token_at(TokenType::Num, p, k)), start: p, end: k }),
{
    assert(digit_byte(src[p]));
    assert(skip_whitespace_from(src, p) == p);
    lemma_digits_end_run(src, p + 1, i);
    assert(digit_byte(src[i + 1]));
    lemma_digits_end_run(src, i + 1, k);
}

/// A run of digits that is not followed by a `'.'` and a digit is one `Num`
/// token over exactly those digits.
pub proof fn lemma_whole_number(src: Seq<u8>, p: int, i: int)
    requires
        0 <= p < i <= src.len(),
        forall|y: int| p <= y < i ==> digit_byte(#[trigger] src[y]),
        i == src.len() || !digit_byte(src[i]),
        !(i + 1 < src.len() && src[i] == 46u8 && digit_byte(src[i + 1])),
    ensures
        lex_token(src, p) == (Lexed { token: Ok(token_at(TokenType::Num, p, i)), start: p, end: i }),
{
    assert(digit_byte(src[p]));
    assert(skip_whitespace_from(src, p) == p);
    lemma_digits_end_run(src, p + 1, i);
}

/// Byte-based lexer.
///
/// Consumes a source string and produces a stream of [`LangToken`] through
/// [`emit_token`](Self::emit_token). It works on raw bytes and supports
/// ASCII input only.
pub struct Lexer {
    /// Source code being scanned.
    pub src: Box<str>,
    /// Start of the current token.
    start: usize,
    /// Current position (byte index) in the source.
    current: usize,
}

impl Lexer {
    /// The bytes of the source.
    pub closed spec fn source(&self) -> Seq<u8> {
        self.src.spec_bytes()
    }

    /// The byte index at which the lexer stands.
    pub closed spec fn pos(&self) -> int {
        self.current as int
    }

    /// The byte index at which the last token (or error) started.
    pub closed spec fn token_start(&self) -> int {
        self.start as int
    }

    /// The lexer stands inside its source, after the start of the last token.
    pub open spec fn wf(&self) -> bool {
        &&& 0 <= self.token_start() <= self.pos()
        &&& self.pos() <= self.source().len()
        &&& self.source().len() < usize::MAX
    }

    /// A lexer at the start of `src`.
    pub fn init(src: Box<str>) -> (l: Lexer)
        requires
            src.spec_bytes().len() < usize::MAX,
        ensures
            l.wf(),
            l.source() == src.spec_bytes(),
            l.pos() == 0,
            l.token_start() == 0,
    {
        Lexer { src, start: 0, current: 0 }
    }

    /// Steps past the current byte and returns it.
    fn advance(&mut self) -> (c: u8)
        requires
            old(self).wf(),
            old(self).current < old(self).source().len(),
        ensures
            final(self).wf(),
            final(self).src == old(self).src,
            final(self).start == old(self).start,
            final(self).current == old(self).current + 1,
            c == old(self).source()[old(self).current as int],
    {
        self.current += 1;
        self.src.as_bytes()[self.current - 1]
    }

    fn is_digit(&self, c: u8) -> (r: bool)
        ensures
            r == digit_byte(c),
    {
        48 <= c && c <= 57
    }

    /// Letters, underscores and digits.
    fn is_alphanumeric(&self, c: u8) -> (r: bool)
        ensures
            r == alphanumeric_byte(c),
    {
        (97 <= c && c <= 122) || (65 <= c && c <= 90) || c == 95 || (48 <= c && c <= 57)
    }

    /// Reads the rest of a name whose first byte has been consumed.
    fn identifier(&mut self) -> (t: LangToken)
        requires
            old(self).wf(),
            old(self).start < old(self).current,
        ensures
            final(self).wf(),
            final(self).src == old(self).src,
            final(self).start == old(self).start,
            final(self).current == alphanumeric_end(old(self).source(), old(self).current as int),
            t == token_at(
                name_type(
                    old(self).source(),
                    span_between(old(self).start as int, final(self).current as int),
                ),
                old(self).start as int,
                final(self).current as int,
            ),
    {
        loop
            invariant_except_break
                self.wf(),
                self.src == old(self).src,
                self.start == old(self).start,
                old(self).current <= self.current,
                alphanumeric_end(self.source(), self.current as int) == alphanumeric_end(
                    old(self).source(),
                    old(self).current as int,
                ),
            ensures
                self.wf(),
                self.src == old(self).src,
                self.start == old(self).start,
                old(self).current <= self.current,
                self.current == alphanumeric_end(old(self).source(), old(self).current as int),
            decreases self.source().len() - self.current,
        {
            match self.peek() {
                Some(c) => {
                    if self.is_alphanumeric(c) {
                        self.advance();
                    } else {
                        break;
                    }
                },
                None => {
                    break;
                },
            }
        }
        let span = Span::start_end(self.start, self.current);
        LangToken::new(self.identifier_type(&span), span)
    }

    /// The kind of the name covered by `span` (see [`name_type`]): its first
    /// byte picks the keyword it may be, and [`Lexer::check_keyword`] compares the rest.
    fn identifier_type(&self, span: &Span) -> (t: TokenType)
        requires
            self.wf(),
            (span.0 as int) < self.source().len(),
        ensures
            t == name_type(self.source(), *span),
    {
        proof {
            lemma_keyword_rests();
        }
        let start = span.start() + 1;
        let len = span.len();
        let ttype = match self.src.as_bytes()[span.start()] {
            116u8 => self.check_keyword(start, len, "rue", TokenType::True),
            102u8 => self.check_keyword(start, len, "alse", TokenType::False),
            110u8 => self.check_keyword(start, len, "il", TokenType::NIL),
            _ => TokenType::Identifier,
        };
        ttype
    }

    /// Matches the rest of a name against the rest of a keyword: `res_type`
    /// when the name is `len` bytes long, one more than `rest` (its first byte
    /// has already been matched), and the bytes from `start` on are those of
    /// `rest`; `Identifier` otherwise.
    fn check_keyword(&self, start: usize, len: usize, rest: &str, res_type: TokenType) -> (t:
        TokenType)
        requires
            self.wf(),
        ensures
            t == keyword_rest(self.source(), start as int, len as int, rest.spec_bytes(), res_type),
    {
        let rb = rest.as_bytes();
        let bytes = self.src.as_bytes();
        if len == 0 || len - 1 != rb.len() {
            return TokenType::Identifier;
        }
        if start > bytes.len() || rb.len() > bytes.len() - start {
            return TokenType::Identifier;
        }
        let mut i: usize = 0;
        while i < rb.len()
            invariant
                self.wf(),
                i <= rb@.len(),
                start + rb@.len() <= bytes@.len(),
                rb@ == rest.spec_bytes(),
                bytes@ == self.source(),
                forall|k: int| 0 <= k < i ==> bytes@[start + k] == rb@[k],
            decreases rb.len() - i,
        {
            if bytes[start + i] != rb[i] {
                assert(self.source().subrange(start as int, start + rb@.len())[i as int]
                    != rb@[i as int]);
                return TokenType::Identifier;
            }
            i += 1;
        }
        assert(self.source().subrange(start as int, start + rb@.len()) =~= rb@);
        res_type
    }

    /// Steps over digits until the current byte is no digit. Does not skip dots.
    fn skip_digits(&mut self)
        requires
            old(self).wf(),
        ensures
            final(self).wf(),
            final(self).src == old(self).src,
            final(self).start == old(self).start,
            final(self).current == digits_end(old(self).source(), old(self).current as int),
    {
        loop
            invariant_except_break
                self.wf(),
                self.src == old(self).src,
                self.start == old(self).start,
                digits_end(self.source(), self.current as int) == digits_end(
                    old(self).source(),
                    old(self).current as int,
                ),
            ensures
                self.wf(),
                self.src == old(self).src,
                self.start == old(self).start,
                self.current == digits_end(old(self).source(), old(self).current as int),
            decreases self.source().len() - self.current,
        {
            match self.peek() {
                Some(c) => {
                    if !self.is_digit(c) {
                        break;
                    }
                    self.advance();
                },
                None => {
                    break;
                },
            }
        }
    }

    /// Reads the rest of a number whose first digit has been consumed.
    fn number(&mut self) -> (t: LangToken)
        requires
            old(self).wf(),
            old(self).start < old(self).current,
        ensures
            final(self).wf(),
            final(self).src == old(self).src,
            final(self).start == old(self).start,
            final(self).current == number_end(old(self).source(), old(self).current as int),
            t == token_at(TokenType::Num, old(self).start as int, final(self).current as int),
    {
        self.skip_digits();
        let dot = match self.peek() {
            Some(c) => c == 46u8,
            None => false,
        };
        let digit_after = match self.peek_next() {
            Some(c) => self.is_digit(c),
            None => false,
        };
        if dot && digit_after {
            self.advance();
            self.skip_digits();
        }
        LangToken::new(TokenType::Num, Span::start_end(self.start, self.current))
    }

    /// Emits the next [`LangToken`] of the input (see [`lex_token`]).
    ///
    /// Skips whitespace, emits `EOF` at the end of the input, and otherwise
    /// reads the next token. A byte that starts no token is an error.
    pub fn emit_token(&mut self) -> (r: Result<LangToken, LangError>)
        requires
            old(self).wf(),
        ensures
            final(self).wf(),
            final(self).source() == old(self).source(),
            result_view(r) == lex_token(old(self).source(), old(self).pos()).token,
            final(self).token_start() == lex_token(old(self).source(), old(self).pos()).start,
            final(self).pos() == lex_token(old(self).source(), old(self).pos()).end,
    {
        self.skip_whitespace();
        self.start = self.current;

        if self.is_at_end() {
            return Ok(self.make_token(TokenType::EOF));
        }

        let c = self.advance();

        if self.is_digit(c) {
            return Ok(self.number());
        }

        if self.is_alphanumeric(c) {
            return Ok(self.identifier());
        }

        let res = match c {
            43u8 => self.make_token(TokenType::Plus),
            45u8 => self.make_token(TokenType::Minus),
            42u8 => self.make_token(TokenType::Star),
            47u8 => self.make_token(TokenType::Slash),
            94u8 => self.make_token(TokenType::Caret),
            33u8 => self.two_char_token('=', TokenType::BangEq, TokenType::Bang),
            60u8 => self.two_char_token('=', TokenType::LthenEq, TokenType::Lthen),
            62u8 => self.two_char_token('=', TokenType::GthenEq, TokenType::Gthen),
            61u8 => self.two_char_token('=', TokenType::EqEq, TokenType::Eq),
            40u8 => self.make_token(TokenType::LParen),
            41u8 => self.make_token(TokenType::RParen),
            10u8 | 13u8 => self.make_token(TokenType::NL),
            c => {
                let mut msg = String::from_str("Invalid character: '");
                push_char(&mut msg, c as char);
                msg.append("'");
                assert(msg@ =~= "Invalid character: '"@ + seq![c as char] + "'"@);
                return Err(LangError::compile(Span::start_len(self.current, 1), msg));
            },
        };
        Ok(res)
    }

    /// The token of kind `matched` when the current byte is `expected`
    /// (which is then consumed), else the token of kind `single`.
    fn two_char_token(&mut self, expected: char, matched: TokenType, single: TokenType) -> (t:
        LangToken)
        requires
            old(self).wf(),
            (expected as u8) != 0u8,
        ensures
            final(self).wf(),
            final(self).src == old(self).src,
            final(self).start == old(self).start,
            ({
                let src = old(self).source();
                let i = old(self).current as int;
                if i < src.len() && src[i] == (expected as u8) {
                    final(self).current == i + 1 && t == token_at(matched, old(self).start as int, i + 1)
                } else {
                    final(self).current == i && t == token_at(single, old(self).start as int, i)
                }
            }),
    {
        if self.match_current(expected) {
            self.make_token(matched)
        } else {
            self.make_token(single)
        }
    }

    /// The token of kind `ttype` covering the bytes from the token start to the current position.
    fn make_token(&self, ttype: TokenType) -> (t: LangToken)
        requires
            self.wf(),
        ensures
            t == token_at(ttype, self.start as int, self.current as int),
    {
        LangToken::new(ttype, Span::start_end(self.start, self.current))
    }

    /// Whether the current position is past the input or on a zero byte.
    fn is_at_end(&self) -> (r: bool)
        requires
            self.wf(),
        ensures
            r == at_end(self.source(), self.current as int),
    {
        self.current + 1 > self.src.len() || self.src.as_bytes()[self.current] == 0u8
    }

    /// Consumes the current byte and returns true when it is `expected`.
    fn match_current(&mut self, expected: char) -> (r: bool)
        requires
            old(self).wf(),
        ensures
            final(self).wf(),
            final(self).src == old(self).src,
            final(self).start == old(self).start,
            ({
                let src = old(self).source();
                let i = old(self).current as int;
                r == (!at_end(src, i) && src[i] == (expected as u8))
            }),
            final(self).current == old(self).current + if r { 1int } else { 0int },
    {
        if self.is_at_end() || self.src.as_bytes()[self.current] != expected as u8 {
            return false;
        }
        self.current += 1;
        true
    }

    /// The byte at the current position, if there is one.
    fn peek(&self) -> (r: Option<u8>)
        requires
            self.wf(),
        ensures
            r == if (self.current as int) < self.source().len() {
                Some(self.source()[self.current as int])
            } else {
                None::<u8>
            },
    {
        let bytes = self.src.as_bytes();
        if self.current < bytes.len() {
            Some(bytes[self.current])
        } else {
            None
        }
    }

    /// The byte after the current position, if there is one.
    fn peek_next(&self) -> (r: Option<u8>)
        requires
            self.wf(),
        ensures
            r == if self.current + 1 < self.source().len() {
                Some(self.source()[self.current + 1])
            } else {
                None::<u8>
            },
    {
        let bytes = self.src.as_bytes();
        if self.current + 1 < bytes.len() {
            Some(bytes[self.current + 1])
        } else {
            None
        }
    }

    /// Skips ASCII whitespace only: space, tab, vertical tab and form feed.
    /// Line breaks are left for [`Lexer::emit_token`], which makes them `NL` tokens.
    fn skip_whitespace(&mut self)
        requires
            old(self).wf(),
        ensures
            final(self).wf(),
            final(self).src == old(self).src,
            final(self).start == old(self).start,
            final(self).current == skip_whitespace_from(old(self).source(), old(self).current as int),
    {
        loop
            invariant_except_break
                self.wf(),
                self.src == old(self).src,
                self.start == old(self).start,
                skip_whitespace_from(self.source(), self.current as int) == skip_whitespace_from(
                    old(self).source(),
                    old(self).current as int,
                ),
            ensures
                self.wf(),
                self.src == old(self).src,
                self.start == old(self).start,
                self.current == skip_whitespace_from(old(self).source(), old(self).current as int),
            decreases self.source().len() - self.current,
        {
            match self.peek() {
                Some(c) => {
                    if c == 32u8 || c == 9u8 || c == 11u8 || c == 12u8 {
                        self.current += 1;
                    } else {
                        break;
                    }
                },
                None => {
                    break;
                },
            }
        }
    }
}

} // verus!
