use vstd::prelude::*;
use vstd::string::*;

use crate::bytecode::{
    binary_opcode, lemma_xy_fields, lemma_xyz_fields, opcode_byte, opcode_of_byte, word_opcode,
    word_xy, word_xyz, word_yz, Instruction, OpCode,
};
use crate::chunk::{loads_in_range, opcodes_known, Chunk};
use crate::error::{ErrorType, ErrorView, LangError};
use crate::lexer::{lemma_lex_progress, lex_token, span_between, Lexer};
use crate::span::Span;
use crate::token::{token_debug, token_text, LangToken, TokenType};
use crate::value::Value;

verus! {

/// The state of the compiler between two steps, as mathematical values.
pub struct ParseState {
    /// Where the lexer stands in the source.
    pub pos: int,
    /// The token before `current`.
    pub previous: LangToken,
    /// The token the compiler looks at next.
    pub current: LangToken,
    /// The instruction words emitted so far.
    pub code: Seq<u32>,
    /// The constants collected so far; numbers are kept as the span of their literal.
    pub constants: Seq<Value<Span>>,
    /// The span of each emitted instruction.
    pub spans: Seq<Span>,
    /// The first free register.
    pub top: int,
}

/// The outcome of a compiler step: the new state and a result, a compile
/// error, or a stop where the compiler would overflow an integer: more than
/// 255 live registers (`Overflow`), or a span that cannot be formed (`Aborted`).
pub enum Parsed<T> {
    Done(ParseState, T),
    Failed(ErrorView),
    Overflow,
    Aborted,
}

/// A compile error with the given span and message.
pub open spec fn compile_failure(span: Span, msg: Seq<char>) -> ErrorView {
    ErrorView { span, msg, etype: ErrorType::CompileError }
}

/// Takes the next token from the lexer: `current` becomes `previous`.
pub open spec fn spec_advance(src: Seq<u8>, st: ParseState) -> Parsed<()> {
    let lx = lex_token(src, st.pos);
    match lx.token {
        Ok(t) => Parsed::Done(ParseState { pos: lx.end, previous: st.current, current: t, ..st }, ()),
        Err(e) => Parsed::Failed(e),
    }
}

/// Takes the next two tokens from the lexer as `previous` and `current`.
pub open spec fn spec_advance_twice(src: Seq<u8>, st: ParseState) -> Parsed<()> {
    let lx1 = lex_token(src, st.pos);
    match lx1.token {
        Ok(t1) => {
            let lx2 = lex_token(src, lx1.end);
            match lx2.token {
                Ok(t2) => Parsed::Done(
                    ParseState { pos: lx2.end, previous: t1, current: t2, ..st },
                    (),
                ),
                Err(e) => Parsed::Failed(e),
            }
        },
        Err(e) => Parsed::Failed(e),
    }
}

/// Steps past `current` when it has the expected kind; else the error `msg` at `span`.
pub open spec fn spec_consume(
    src: Seq<u8>,
    st: ParseState,
    expected: TokenType,
    span: Span,
    msg: Seq<char>,
) -> Parsed<()> {
    if st.current.ttype == expected {
        spec_advance(src, st)
    } else {
        Parsed::Failed(compile_failure(span, msg))
    }
}

/// Appends one instruction with its span.
pub open spec fn spec_emit(st: ParseState, word: u32, span: Span) -> ParseState {
    ParseState { code: st.code.push(word), spans: st.spans.push(span), ..st }
}

/// Adds a constant and a `Load` of it into a newly allocated register.
pub open spec fn spec_load_constant(st: ParseState, value: Value<Span>, span: Span) -> Parsed<u8> {
    let constants = st.constants.push(value);
    let idx = (constants.len() - 1) as u16;
    if st.top >= 255 {
        Parsed::Overflow
    } else {
        let reg = st.top as u8;
        Parsed::Done(
            spec_emit(
                ParseState { constants, top: st.top + 1, ..st },
                word_xy(opcode_byte(OpCode::Load), reg, idx),
                span,
            ),
            reg,
        )
    }
}

/// The binding power of a prefix operator.
pub open spec fn spec_prefix_bp(t: TokenType) -> Option<u8> {
    match t {
        TokenType::Plus | TokenType::Minus | TokenType::Bang => Some(8),
        _ => None,
    }
}

/// Left and right binding power of an infix operator, and whether its
/// operands are swapped (`a > b` is compiled as `b < a`).
pub open spec fn spec_infix_bp(t: TokenType) -> Option<(u8, u8, bool)> {
    match t {
        TokenType::Eq => Some((2, 1, false)),
        TokenType::EqEq | TokenType::Lthen | TokenType::LthenEq | TokenType::BangEq => Some(
            (3, 4, false),
        ),
        TokenType::Gthen | TokenType::GthenEq => Some((3, 4, true)),
        TokenType::Plus | TokenType::Minus => Some((5, 6, false)),
        TokenType::Star | TokenType::Slash => Some((7, 8, false)),
        TokenType::Caret => Some((9, 10, false)),
        _ => None,
    }
}

/// 1 for a token other than `EOF`, 0 for `EOF`.
pub open spec fn live(t: LangToken) -> int {
    if t.ttype == TokenType::EOF {
        0
    } else {
        1
    }
}

/// A quantity that every step that takes tokens makes smaller.
pub open spec fn parse_measure(src: Seq<u8>, st: ParseState) -> int {
    3 * (src.len() - st.pos) + live(st.previous) + live(st.current)
}

/// The opcode of a prefix operator as the compiler chooses it: `-` negates,
/// every other prefix operator (`!`, and also `+`) is a logical `Not`.
pub open spec fn prefix_opcode(t: TokenType) -> OpCode {
    if t == TokenType::Minus {
        OpCode::Neg
    } else {
        OpCode::Not
    }
}

/// The instruction of a binary operation into `lhs`.
pub open spec fn binary_word(op: OpCode, lhs: u8, rhs: u8, invert: bool) -> u32 {
    if invert {
        word_xyz(opcode_byte(op), lhs, rhs, lhs)
    } else {
        word_xyz(opcode_byte(op), lhs, lhs, rhs)
    }
}

/// The expression that the compiler has read, as a tree.
pub enum Expr {
    /// A literal: a number (by its span) or a boolean; `nil` is read as `false`.
    Const(Value<Span>),
    /// A prefix operation: `Neg` or `Not`.
    Unary(OpCode, Box<Expr>),
    /// An infix operation on a left and a right operand; when the flag is
    /// set the operands are given to the operation the other way round.
    Binary(OpCode, Box<Expr>, Box<Expr>, bool),
}

/// The outcome without the expression tree.
pub open spec fn drop_tree(p: Parsed<(u8, Expr)>) -> Parsed<u8> {
    match p {
        Parsed::Done(st, (reg, _)) => Parsed::Done(st, reg),
        Parsed::Failed(e) => Parsed::Failed(e),
        Parsed::Aborted => Parsed::Aborted,
        Parsed::Overflow => Parsed::Overflow,
    }
}

/// The expression tree of an outcome that succeeded.
pub open spec fn tree_of(p: Parsed<(u8, Expr)>) -> Expr {
    match p {
        Parsed::Done(_, (_, t)) => t,
        _ => Expr::Const(Value::NIL),
    }
}

/// The operand's register and tree, or the outcome that stopped it.
pub open spec fn with_const(p: Parsed<u8>, value: Value<Span>) -> Parsed<(u8, Expr)> {
    match p {
        Parsed::Done(st, reg) => Parsed::Done(st, (reg, Expr::Const(value))),
        Parsed::Failed(e) => Parsed::Failed(e),
        Parsed::Aborted => Parsed::Aborted,
        Parsed::Overflow => Parsed::Overflow,
    }
}

/// Compiles an expression whose first token is `previous`, with operators
/// that bind at least `min_bp` (Pratt parsing). The result is the register
/// that holds the value of the expression, and the expression read.
pub open spec fn parse_expr(src: Seq<u8>, st: ParseState, min_bp: u8) -> Parsed<(u8, Expr)>
    decreases parse_measure(src, st), 1int,
{
    let prev = st.previous;
    let operand: Parsed<(u8, Expr)> = if prev.ttype == TokenType::Num {
        with_const(spec_load_constant(st, Value::Num(prev.tspan), prev.tspan), Value::Num(prev.tspan))
    } else if prev.ttype == TokenType::True || prev.ttype == TokenType::False || prev.ttype
        == TokenType::NIL {
        let v = Value::Bool(prev.ttype == TokenType::True);
        with_const(spec_load_constant(st, v, prev.tspan), v)
    } else if prev.ttype == TokenType::LParen {
        match spec_advance(src, st) {
            Parsed::Done(st1, _) => if 0 <= parse_measure(src, st1) < parse_measure(src, st) {
                match parse_expr(src, st1, 0) {
                    Parsed::Done(st2, inner) => match spec_consume(
                        src,
                        st2,
                        TokenType::RParen,
                        prev.tspan,
                        "Unmatched closing delimiter '('"@,
                    ) {
                        Parsed::Done(st3, _) => Parsed::Done(st3, inner),
                        Parsed::Failed(e) => Parsed::Failed(e),
                        Parsed::Aborted => Parsed::Aborted,
                        Parsed::Overflow => Parsed::Overflow,
                    },
                    Parsed::Failed(e) => Parsed::Failed(e),
                    Parsed::Aborted => Parsed::Aborted,
                    Parsed::Overflow => Parsed::Overflow,
                }
            } else {
                Parsed::Aborted
            },
            Parsed::Failed(e) => Parsed::Failed(e),
            Parsed::Aborted => Parsed::Aborted,
            Parsed::Overflow => Parsed::Overflow,
        }
    } else {
        match spec_prefix_bp(prev.ttype) {
            None => Parsed::Failed(
                compile_failure(prev.tspan, "Unexpected start of expression: "@ + token_debug(prev)),
            ),
            Some(r_bp) => match spec_advance(src, st) {
                Parsed::Done(st1, _) => if 0 <= parse_measure(src, st1) < parse_measure(src, st) {
                    match parse_expr(src, st1, r_bp) {
                        Parsed::Done(st2, (rhs, tree)) => {
                            let op = prefix_opcode(prev.ttype);
                            Parsed::Done(
                                spec_emit(
                                    st2,
                                    word_xyz(opcode_byte(op), rhs, rhs, 0),
                                    st2.previous.tspan,
                                ),
                                (rhs, Expr::Unary(op, Box::new(tree))),
                            )
                        },
                        Parsed::Failed(e) => Parsed::Failed(e),
                        Parsed::Aborted => Parsed::Aborted,
                        Parsed::Overflow => Parsed::Overflow,
                    }
                } else {
                    Parsed::Aborted
                },
                Parsed::Failed(e) => Parsed::Failed(e),
                Parsed::Aborted => Parsed::Aborted,
                Parsed::Overflow => Parsed::Overflow,
            },
        }
    };
    match operand {
        Parsed::Done(st1, (lhs, tree)) => if 0 <= parse_measure(src, st1) <= parse_measure(src, st) {
            parse_infix(src, st1, lhs, tree, min_bp)
        } else {
            Parsed::Aborted
        },
        Parsed::Failed(e) => Parsed::Failed(e),
        Parsed::Aborted => Parsed::Aborted,
        Parsed::Overflow => Parsed::Overflow,
    }
}

/// Compiles the infix operators that follow an operand `tree` held in `lhs`,
/// as long as they bind at least `min_bp`; each operation leaves its result
/// in `lhs` and takes the expression read so far as its left operand.
pub open spec fn parse_infix(
    src: Seq<u8>,
    st: ParseState,
    lhs: u8,
    tree: Expr,
    min_bp: u8,
) -> Parsed<(u8, Expr)>
    decreases parse_measure(src, st), 0int,
{
    match spec_infix_bp(st.current.ttype) {
        None => Parsed::Done(st, (lhs, tree)),
        Some((l_bp, r_bp, invert)) => if l_bp < min_bp {
            Parsed::Done(st, (lhs, tree))
        } else {
            let expr_start = st.previous.tspan.0 as int;
            match binary_opcode(st.current.ttype) {
                None => Parsed::Failed(
                    compile_failure(
                        st.current.tspan,
                        "Failed to convert binary operator '"@ + token_text(st.current.ttype)
                            + "' to bytecode"@,
                    ),
                ),
                Some(op) => match spec_advance_twice(src, st) {
                    Parsed::Done(st1, _) => if 0 <= parse_measure(src, st1) < parse_measure(
                        src,
                        st,
                    ) {
                        match parse_expr(src, st1, r_bp) {
                            Parsed::Done(st2, (rhs, rtree)) => {
                                let end = st2.previous.tspan.0 + st2.previous.tspan.1;
                                if end > usize::MAX || end < expr_start || st2.top < 1 {
                                    Parsed::Aborted
                                } else {
                                    let st3 = ParseState {
                                        top: st2.top - 1,
                                        ..spec_emit(
                                            st2,
                                            binary_word(op, lhs, rhs, invert),
                                            span_between(expr_start, end),
                                        )
                                    };
                                    if 0 <= parse_measure(src, st3) < parse_measure(src, st) {
                                        parse_infix(
                                            src,
                                            st3,
                                            lhs,
                                            Expr::Binary(op, Box::new(tree), Box::new(rtree), invert),
                                            min_bp,
                                        )
                                    } else {
                                        Parsed::Aborted
                                    }
                                }
                            },
                            Parsed::Failed(e) => Parsed::Failed(e),
                            Parsed::Aborted => Parsed::Aborted,
                            Parsed::Overflow => Parsed::Overflow,
                        }
                    } else {
                        Parsed::Aborted
                    },
                    Parsed::Failed(e) => Parsed::Failed(e),
                    Parsed::Aborted => Parsed::Aborted,
                    Parsed::Overflow => Parsed::Overflow,
                },
            }
        },
    }
}

/// The state after reading the first two tokens of `src`, or the error that
/// stops it: an empty source, or a lexing error.
pub open spec fn initial_state(src: Seq<u8>) -> Result<ParseState, ErrorView> {
    if src.len() < 1 {
        Err(compile_failure(Span(0, 0), "Tried to compile empty file"@))
    } else {
        let lx1 = lex_token(src, 0);
        match lx1.token {
            Ok(t1) => {
                let lx2 = lex_token(src, lx1.end);
                match lx2.token {
                    Ok(t2) => Ok(
                        ParseState {
                            pos: lx2.end,
                            previous: t1,
                            current: t2,
                            code: Seq::empty(),
                            constants: Seq::empty(),
                            spans: Seq::empty(),
                            top: 0,
                        },
                    ),
                    Err(e) => Err(e),
                }
            },
            Err(e) => Err(e),
        }
    }
}

/// Compiles one expression and then expects the end of the input.
pub open spec fn compile_from(src: Seq<u8>, st: ParseState) -> Parsed<()> {
    match parse_expr(src, st, 0) {
        Parsed::Done(st1, _) => spec_consume(
            src,
            st1,
            TokenType::EOF,
            st1.current.tspan,
            "Expect end of expression."@,
        ),
        Parsed::Failed(e) => Parsed::Failed(e),
        Parsed::Aborted => Parsed::Aborted,
        Parsed::Overflow => Parsed::Overflow,
    }
}

/// The whole compilation of a source text.
pub open spec fn compile_source(src: Seq<u8>) -> Parsed<()> {
    match initial_state(src) {
        Ok(st) => compile_from(src, st),
        Err(e) => Parsed::Failed(e),
    }
}

} // verus!

verus! {

/// Why the compiler stopped: a compile error, a register overflow, or an
/// abort (see [`Parsed`]).
pub enum Fail {
    Lang(LangError),
    Overflow,
    Aborted,
}

/// An executable outcome taken as a [`Parsed`] value, with `st` the state reached.
pub open spec fn outcome<T>(r: Result<T, Fail>, st: ParseState) -> Parsed<T> {
    match r {
        Ok(v) => Parsed::Done(st, v),
        Err(Fail::Lang(e)) => Parsed::Failed(e@),
        Err(Fail::Overflow) => Parsed::Overflow,
        Err(Fail::Aborted) => Parsed::Aborted,
    }
}

/// Lexing steps never make the compiler's measure grow, and taking a token
/// past a token other than `EOF` makes it shrink.
pub(crate) proof fn lemma_advance_measure(src: Seq<u8>, st: ParseState)
    requires
        0 <= st.pos <= src.len(),
    ensures
        spec_advance(src, st) matches Parsed::Done(st1, _) ==> 0 <= st1.pos <= src.len()
            && parse_measure(src, st1) <= parse_measure(src, st) && (live(st.previous) == 1
            ==> parse_measure(src, st1) < parse_measure(src, st)),
        spec_advance_twice(src, st) matches Parsed::Done(st1, _) ==> 0 <= st1.pos <= src.len() && (
        live(st.current) == 1 ==> parse_measure(src, st1) < parse_measure(src, st)),
{
    lemma_lex_progress(src, st.pos);
    let lx1 = lex_token(src, st.pos);
    if lx1.token is Ok {
        lemma_lex_progress(src, lx1.end);
    }
}

/// `after` continues `before`: the lexer has not moved back, the measure has
/// not grown, and code, spans and constants have only been appended to, one
/// span per instruction.
pub open spec fn extends(src: Seq<u8>, before: ParseState, after: ParseState) -> bool {
    &&& 0 <= after.pos <= src.len()
    &&& parse_measure(src, after) <= parse_measure(src, before)
    &&& before.code.len() <= after.code.len()
    &&& after.code.subrange(0, before.code.len() as int) == before.code
    &&& after.spans.len() - before.spans.len() == after.code.len() - before.code.len()
    &&& after.spans.subrange(0, before.spans.len() as int) == before.spans
    &&& before.constants.len() <= after.constants.len()
    &&& after.constants.subrange(0, before.constants.len() as int) == before.constants
}

pub(crate) proof fn lemma_extends_trans(src: Seq<u8>, a: ParseState, b: ParseState, c: ParseState)
    requires
        extends(src, a, b),
        extends(src, b, c),
    ensures
        extends(src, a, c),
{
    assert(c.code.subrange(0, a.code.len() as int) =~= c.code.subrange(0, b.code.len() as int).subrange(
        0,
        a.code.len() as int,
    ));
    assert(c.spans.subrange(0, a.spans.len() as int) =~= c.spans.subrange(
        0,
        b.spans.len() as int,
    ).subrange(0, a.spans.len() as int));
    assert(c.constants.subrange(0, a.constants.len() as int) =~= c.constants.subrange(
        0,
        b.constants.len() as int,
    ).subrange(0, a.constants.len() as int));
}

pub(crate) proof fn lemma_extends_refl(src: Seq<u8>, a: ParseState)
    requires
        0 <= a.pos <= src.len(),
    ensures
        extends(src, a, a),
{
    assert(a.code.subrange(0, a.code.len() as int) =~= a.code);
    assert(a.spans.subrange(0, a.spans.len() as int) =~= a.spans);
    assert(a.constants.subrange(0, a.constants.len() as int) =~= a.constants);
}

pub(crate) proof fn lemma_emit_extends(src: Seq<u8>, a: ParseState, word: u32, span: Span)
    requires
        0 <= a.pos <= src.len(),
    ensures
        extends(src, a, spec_emit(a, word, span)),
{
    let b = spec_emit(a, word, span);
    assert(b.code.subrange(0, a.code.len() as int) =~= a.code);
    assert(b.spans.subrange(0, a.spans.len() as int) =~= a.spans);
    assert(b.constants.subrange(0, a.constants.len() as int) =~= a.constants);
}

pub(crate) proof fn lemma_advance_extends(src: Seq<u8>, a: ParseState)
    requires
        0 <= a.pos <= src.len(),
    ensures
        spec_advance(src, a) matches Parsed::Done(b, _) ==> extends(src, a, b),
        spec_advance_twice(src, a) matches Parsed::Done(b, _) ==> extends(src, a, b)
            || live(a.current) == 0,
{
    lemma_advance_measure(src, a);
    lemma_extends_refl(src, a);
}

/// Every word of `code` has a known opcode, and every `Load` names one of `constants`.
pub open spec fn code_valid(code: Seq<u32>, constants: Seq<Value<Span>>) -> bool {
    opcodes_known(code) && loads_in_range(code, constants.len() as int)
}

proof fn lemma_code_valid_push(code: Seq<u32>, constants: Seq<Value<Span>>, w: u32)
    requires
        code_valid(code, constants),
        word_opcode(w) == opcode_byte(OpCode::Load) ==> (word_yz(w) as int) < constants.len(),
        opcode_of_byte(word_opcode(w)) is Ok,
    ensures
        code_valid(code.push(w), constants),
{
    assert forall|i: int|
        0 <= i < code.push(w).len() && word_opcode(#[trigger] code.push(w)[i]) == opcode_byte(
            OpCode::Load,
        ) implies (word_yz(code.push(w)[i]) as int) < constants.len() by {
        if i < code.len() {
            assert(code.push(w)[i] == code[i]);
        }
    }
    assert forall|i: int| 0 <= i < code.push(w).len() implies opcode_of_byte(
        word_opcode(#[trigger] code.push(w)[i]),
    ) is Ok by {
        if i < code.len() {
            assert(code.push(w)[i] == code[i]);
        }
    }
}

proof fn lemma_code_valid_step(a: ParseState, b: ParseState)
    requires
        code_valid(a.code, a.constants),
        b.code == a.code,
        a.constants.len() <= b.constants.len(),
    ensures
        code_valid(b.code, b.constants),
{
}

proof fn lemma_prefix_word_not_load(op: OpCode, r: u8)
    requires
        op == OpCode::Neg || op == OpCode::Not,
    ensures
        word_opcode(word_xyz(opcode_byte(op), r, r, 0)) != opcode_byte(OpCode::Load),
        opcode_of_byte(word_opcode(word_xyz(opcode_byte(op), r, r, 0))) is Ok,
{
    lemma_xyz_fields(opcode_byte(op), r, r, 0);
}

proof fn lemma_binary_word_not_load(op: OpCode, lhs: u8, rhs: u8, invert: bool)
    requires
        op != OpCode::Load,
    ensures
        word_opcode(binary_word(op, lhs, rhs, invert)) != opcode_byte(OpCode::Load),
        opcode_of_byte(word_opcode(binary_word(op, lhs, rhs, invert))) is Ok,
{
    lemma_xyz_fields(opcode_byte(op), lhs, rhs, lhs);
    lemma_xyz_fields(opcode_byte(op), lhs, lhs, rhs);
}

/// Compiling an expression leaves its value in the register that was first
/// free, and the first free register is then the next one: every register
/// below it is kept. Code, spans and constants are only appended to, with
/// one span per instruction, and the lexer only moves forward.
pub proof fn lemma_parse_expr_stack(src: Seq<u8>, st: ParseState, min_bp: u8)
    requires
        0 <= st.pos <= src.len(),
        0 <= st.top,
    ensures
        parse_expr(src, st, min_bp) matches Parsed::Done(st1, (reg, _)) ==> reg == st.top
            && st1.top == st.top + 1 && extends(src, st, st1) && (code_valid(st.code, st.constants)
            ==> code_valid(st1.code, st1.constants)),
    decreases parse_measure(src, st), 1int,
{
    let prev = st.previous;
    lemma_advance_measure(src, st);
    lemma_extends_refl(src, st);
    if prev.ttype == TokenType::Num || prev.ttype == TokenType::True || prev.ttype
        == TokenType::False || prev.ttype == TokenType::NIL {
        let v = if prev.ttype == TokenType::Num {
            Value::Num(prev.tspan)
        } else {
            Value::Bool(prev.ttype == TokenType::True)
        };
        if let Parsed::Done(st1, reg) = spec_load_constant(st, v, prev.tspan) {
            let mid = ParseState { constants: st.constants.push(v), top: st.top + 1, ..st };
            assert(mid.constants.subrange(0, st.constants.len() as int) =~= st.constants);
            lemma_extends_refl(src, mid);
            assert(extends(src, st, mid));
            let idx = (mid.constants.len() - 1) as u16;
            lemma_emit_extends(src, mid, word_xy(opcode_byte(OpCode::Load), reg, idx), prev.tspan);
            lemma_extends_trans(src, st, mid, st1);
            lemma_xy_fields(opcode_byte(OpCode::Load), reg, idx);
            if code_valid(st.code, st.constants) {
                lemma_code_valid_step(st, mid);
                lemma_code_valid_push(
                    mid.code,
                    mid.constants,
                    word_xy(opcode_byte(OpCode::Load), reg, idx),
                );
            }
            lemma_parse_infix_stack(src, st1, reg, Expr::Const(v), min_bp);
            if let Parsed::Done(st2, _) = parse_expr(src, st, min_bp) {
                lemma_extends_trans(src, st, st1, st2);
            }
        }
    } else if prev.ttype == TokenType::LParen {
        if let Parsed::Done(st1, _) = spec_advance(src, st) {
            lemma_parse_expr_stack(src, st1, 0);
            if let Parsed::Done(st2, (reg, tree)) = parse_expr(src, st1, 0) {
                lemma_extends_trans(src, st, st1, st2);
                lemma_advance_measure(src, st2);
                lemma_extends_refl(src, st2);
                if let Parsed::Done(st3, _) = spec_consume(
                    src,
                    st2,
                    TokenType::RParen,
                    prev.tspan,
                    "Unmatched closing delimiter '('"@,
                ) {
                    lemma_extends_trans(src, st, st2, st3);
                    lemma_parse_infix_stack(src, st3, reg, tree, min_bp);
                    if let Parsed::Done(st4, _) = parse_expr(src, st, min_bp) {
                        lemma_extends_trans(src, st, st3, st4);
                    }
                }
            }
        }
    } else if let Some(r_bp) = spec_prefix_bp(prev.ttype) {
        if let Parsed::Done(st1, _) = spec_advance(src, st) {
            lemma_parse_expr_stack(src, st1, r_bp);
            if let Parsed::Done(st2, (rhs, tree)) = parse_expr(src, st1, r_bp) {
                lemma_extends_trans(src, st, st1, st2);
                let op = prefix_opcode(prev.ttype);
                let word = word_xyz(opcode_byte(op), rhs, rhs, 0);
                let st3 = spec_emit(st2, word, st2.previous.tspan);
                lemma_emit_extends(src, st2, word, st2.previous.tspan);
                lemma_extends_trans(src, st, st2, st3);
                lemma_prefix_word_not_load(op, rhs);
                if code_valid(st2.code, st2.constants) {
                    lemma_code_valid_push(st2.code, st2.constants, word);
                }
                lemma_parse_infix_stack(src, st3, rhs, Expr::Unary(op, Box::new(tree)), min_bp);
                if let Parsed::Done(st4, _) = parse_expr(src, st, min_bp) {
                    lemma_extends_trans(src, st, st3, st4);
                }
            }
        }
    }
}

/// Compiling the infix operators after an operand in `lhs` keeps the result
/// in `lhs` and leaves the first free register where it was.
pub proof fn lemma_parse_infix_stack(
    src: Seq<u8>,
    st: ParseState,
    lhs: u8,
    tree: Expr,
    min_bp: u8,
)
    requires
        0 <= st.pos <= src.len(),
        0 <= st.top,
    ensures
        parse_infix(src, st, lhs, tree, min_bp) matches Parsed::Done(st1, (reg, _)) ==> reg == lhs
            && st1.top == st.top && extends(src, st, st1) && (code_valid(st.code, st.constants)
            ==> code_valid(st1.code, st1.constants)),
    decreases parse_measure(src, st), 0int,
{
    lemma_extends_refl(src, st);
    if let Some((l_bp, r_bp, invert)) = spec_infix_bp(st.current.ttype) {
        if l_bp >= min_bp {
            if let Some(op) = binary_opcode(st.current.ttype) {
                lemma_advance_extends(src, st);
                if let Parsed::Done(st1, _) = spec_advance_twice(src, st) {
                    if 0 <= parse_measure(src, st1) < parse_measure(src, st) {
                        lemma_parse_expr_stack(src, st1, r_bp);
                        if let Parsed::Done(st2, (rhs, rtree)) = parse_expr(src, st1, r_bp) {
                            let expr_start = st.previous.tspan.0 as int;
                            let end = st2.previous.tspan.0 + st2.previous.tspan.1;
                            if !(end > usize::MAX || end < expr_start || st2.top < 1) {
                                let word = binary_word(op, lhs, rhs, invert);
                                let span = span_between(expr_start, end);
                                let e = spec_emit(st2, word, span);
                                let st3 = ParseState { top: st2.top - 1, ..e };
                                lemma_extends_trans(src, st, st1, st2);
                                lemma_emit_extends(src, st2, word, span);
                                lemma_extends_trans(src, st, st2, e);
                                lemma_binary_word_not_load(op, lhs, rhs, invert);
                                if code_valid(st2.code, st2.constants) {
                                    lemma_code_valid_push(st2.code, st2.constants, word);
                                }
                                let t3 = Expr::Binary(op, Box::new(tree), Box::new(rtree), invert);
                                if 0 <= parse_measure(src, st3) < parse_measure(src, st) {
                                    lemma_parse_infix_stack(src, st3, lhs, t3, min_bp);
                                    if let Parsed::Done(st4, _) = parse_infix(
                                        src,
                                        st3,
                                        lhs,
                                        t3,
                                        min_bp,
                                    ) {
                                        lemma_extends_trans(src, st, st3, st4);
                                    }
                                }
                            }
                        }
                    }
                }
            }
        }
    }
}

/// The two tokens of the state stand in order, each at its exact position,
/// within the part of the source read so far; the source is shorter than
/// 2^32 bytes, so that every position fits a span.
pub open spec fn tokens_in_order(src: Seq<u8>, st: ParseState) -> bool {
    &&& src.len() < 0x1_0000_0000
    &&& 0 <= st.pos <= src.len()
    &&& st.previous.tspan.0 <= st.current.tspan.0
    &&& st.previous.tspan.0 + st.previous.tspan.1 <= st.pos
    &&& st.current.tspan.0 + st.current.tspan.1 <= st.pos
}

proof fn lemma_advance_in_order(src: Seq<u8>, st: ParseState)
    requires
        tokens_in_order(src, st),
    ensures
        spec_advance(src, st) matches Parsed::Done(st1, _) ==> tokens_in_order(src, st1)
            && st1.previous == st.current,
        spec_advance_twice(src, st) matches Parsed::Done(st1, _) ==> tokens_in_order(src, st1)
            && st1.previous.tspan.0 >= st.pos,
{
    lemma_lex_progress(src, st.pos);
    crate::lexer::lemma_lex_token_span(src, st.pos);
    let lx1 = lex_token(src, st.pos);
    if lx1.token is Ok {
        lemma_lex_progress(src, lx1.end);
        crate::lexer::lemma_lex_token_span(src, lx1.end);
    }
}

/// In a source shorter than 2^32 bytes, compiling an expression never stops
/// on a span that cannot be formed: the only stop without a result is a
/// register overflow.
pub proof fn lemma_parse_expr_no_abort(src: Seq<u8>, st: ParseState, min_bp: u8)
    requires
        tokens_in_order(src, st),
        0 <= st.top,
    ensures
        !(parse_expr(src, st, min_bp) is Aborted),
        parse_expr(src, st, min_bp) matches Parsed::Done(st1, _) ==> tokens_in_order(src, st1)
            && st1.previous.tspan.0 >= st.previous.tspan.0,
    decreases parse_measure(src, st), 1int,
{
    let prev = st.previous;
    lemma_advance_measure(src, st);
    lemma_advance_in_order(src, st);
    lemma_parse_expr_stack(src, st, min_bp);
    if prev.ttype == TokenType::Num || prev.ttype == TokenType::True || prev.ttype
        == TokenType::False || prev.ttype == TokenType::NIL {
        let v = if prev.ttype == TokenType::Num {
            Value::Num(prev.tspan)
        } else {
            Value::Bool(prev.ttype == TokenType::True)
        };
        if let Parsed::Done(st1, reg) = spec_load_constant(st, v, prev.tspan) {
            lemma_parse_infix_stack(src, st1, reg, Expr::Const(v), min_bp);
            lemma_parse_infix_no_abort(src, st1, reg, Expr::Const(v), min_bp);
        }
    } else if prev.ttype == TokenType::LParen {
        if let Parsed::Done(st1, _) = spec_advance(src, st) {
            lemma_parse_expr_stack(src, st1, 0);
            lemma_parse_expr_no_abort(src, st1, 0);
            if let Parsed::Done(st2, (reg, tree)) = parse_expr(src, st1, 0) {
                lemma_advance_measure(src, st2);
                lemma_advance_in_order(src, st2);
                if let Parsed::Done(st3, _) = spec_consume(
                    src,
                    st2,
                    TokenType::RParen,
                    prev.tspan,
                    "Unmatched closing delimiter '('"@,
                ) {
                    lemma_parse_infix_stack(src, st3, reg, tree, min_bp);
                    lemma_parse_infix_no_abort(src, st3, reg, tree, min_bp);
                }
            }
        }
    } else if let Some(r_bp) = spec_prefix_bp(prev.ttype) {
        if let Parsed::Done(st1, _) = spec_advance(src, st) {
            lemma_parse_expr_stack(src, st1, r_bp);
            lemma_parse_expr_no_abort(src, st1, r_bp);
            if let Parsed::Done(st2, (rhs, tree)) = parse_expr(src, st1, r_bp) {
                let op = prefix_opcode(prev.ttype);
                let st3 = spec_emit(st2, word_xyz(opcode_byte(op), rhs, rhs, 0), st2.previous.tspan);
                let t3 = Expr::Unary(op, Box::new(tree));
                lemma_parse_infix_stack(src, st3, rhs, t3, min_bp);
                lemma_parse_infix_no_abort(src, st3, rhs, t3, min_bp);
            }
        }
    }
}

/// The infix part of [`lemma_parse_expr_no_abort`].
pub proof fn lemma_parse_infix_no_abort(
    src: Seq<u8>,
    st: ParseState,
    lhs: u8,
    tree: Expr,
    min_bp: u8,
)
    requires
        tokens_in_order(src, st),
        0 <= st.top,
    ensures
        !(parse_infix(src, st, lhs, tree, min_bp) is Aborted),
        parse_infix(src, st, lhs, tree, min_bp) matches Parsed::Done(st1, _) ==> tokens_in_order(
            src,
            st1,
        ) && st1.previous.tspan.0 >= st.previous.tspan.0,
    decreases parse_measure(src, st), 0int,
{
    lemma_parse_infix_stack(src, st, lhs, tree, min_bp);
    if let Some((l_bp, r_bp, invert)) = spec_infix_bp(st.current.ttype) {
        if l_bp >= min_bp {
            if let Some(op) = binary_opcode(st.current.ttype) {
                lemma_advance_measure(src, st);
                lemma_advance_in_order(src, st);
                if let Parsed::Done(st1, _) = spec_advance_twice(src, st) {
                    lemma_parse_expr_stack(src, st1, r_bp);
                    lemma_parse_expr_no_abort(src, st1, r_bp);
                    if let Parsed::Done(st2, (rhs, rtree)) = parse_expr(src, st1, r_bp) {
                        let expr_start = st.previous.tspan.0 as int;
                        let end = st2.previous.tspan.0 + st2.previous.tspan.1;
                        assert(end >= expr_start);
                        assert(end <= usize::MAX);
                        let st3 = ParseState {
                            top: st2.top - 1,
                            ..spec_emit(
                                st2,
                                binary_word(op, lhs, rhs, invert),
                                span_between(expr_start, end),
                            )
                        };
                        let t3 = Expr::Binary(op, Box::new(tree), Box::new(rtree), invert);
                        lemma_parse_infix_stack(src, st3, lhs, t3, min_bp);
                        lemma_parse_infix_no_abort(src, st3, lhs, t3, min_bp);
                    }
                }
            }
        }
    }
}

/// A source shorter than 2^32 bytes compiles to a result or a compile error,
/// unless an expression needs more than 255 live registers.
pub proof fn lemma_only_overflow_stops(src: Seq<u8>)
    requires
        src.len() < 0x1_0000_0000,
    ensures
        !(compile_source(src) is Aborted),
{
    if let Ok(st0) = initial_state(src) {
        lemma_lex_progress(src, 0);
        crate::lexer::lemma_lex_token_span(src, 0);
        lemma_lex_progress(src, lex_token(src, 0).end);
        crate::lexer::lemma_lex_token_span(src, lex_token(src, 0).end);
        assert(tokens_in_order(src, st0));
        lemma_parse_expr_no_abort(src, st0, 0);
    }
}

/// A successful compilation leaves the value of the whole expression in
/// register 0, with register 1 the first free one; every instruction has its
/// span and a known opcode, and every `Load` names a constant that exists.
pub proof fn lemma_compile_result(src: Seq<u8>)
    ensures
        compile_source(src) matches Parsed::Done(st, _) ==> st.top == 1 && st.code.len()
            == st.spans.len() && code_valid(st.code, st.constants),
        compile_source(src) matches Parsed::Done(st, _) ==> parse_expr(
            src,
            initial_state(src)->Ok_0,
            0,
        ) matches Parsed::Done(_, (reg, _)) && reg == 0,
{
    if let Ok(st0) = initial_state(src) {
        lemma_lex_progress(src, 0);
        lemma_lex_progress(src, lex_token(src, 0).end);
        lemma_parse_expr_stack(src, st0, 0);
        if let Parsed::Done(st1, _) = parse_expr(src, st0, 0) {
            lemma_advance_measure(src, st1);
        }
    }
}

/// Parser that turns source text into bytecode.
///
/// It draws tokens from the [`Lexer`] as it needs them and writes the
/// instructions into a [`Chunk`]. It tracks the top of the register stack,
/// which always points at the first free register.
pub struct Parser {
    lexer: Lexer,
    previous: LangToken,
    current: LangToken,
    chunk: Chunk<Span>,
    stack_top: u8,
}

impl Parser {
    /// The bytes of the source being compiled.
    pub closed spec fn source(&self) -> Seq<u8> {
        self.lexer.source()
    }

    /// The compiler's state as mathematical values.
    pub closed spec fn state(&self) -> ParseState {
        ParseState {
            pos: self.lexer.pos(),
            previous: self.previous,
            current: self.current,
            code: self.chunk.code(),
            constants: self.chunk.constants@,
            spans: self.chunk.ispan@,
            top: self.stack_top as int,
        }
    }

    /// The lexer is well formed and every instruction has its span.
    pub closed spec fn wf(&self) -> bool {
        self.lexer.wf() && self.chunk.wf()
    }

    /// Creates a compiler for `src` and reads its first two tokens into
    /// `previous` and `current`. An empty source is a compile error, and so
    /// is a lexing error in those two tokens (see [`initial_state`]).
    pub fn init(src: Box<str>) -> (r: Result<Parser, LangError>)
        requires
            src.spec_bytes().len() < usize::MAX,
        ensures
            match r {
                Ok(p) => p.wf() && p.source() == src.spec_bytes() && initial_state(src.spec_bytes())
                    == Ok::<ParseState, ErrorView>(p.state()),
                Err(e) => initial_state(src.spec_bytes()) == Err::<ParseState, ErrorView>(e@),
            },
    {
        if src.len() < 1 {
            return Err(
                LangError::compile(Span::zero(), String::from_str("Tried to compile empty file")),
            );
        }
        let mut lexer = Lexer::init(src);
        let previous = match lexer.emit_token() {
            Ok(t) => t,
            Err(e) => return Err(e),
        };
        let current = match lexer.emit_token() {
            Ok(t) => t,
            Err(e) => return Err(e),
        };
        let p = Parser { lexer, previous, current, chunk: Chunk::init(), stack_top: 0 };
        assert(p.chunk.code() =~= Seq::<u32>::empty());
        assert(p.chunk.constants@ =~= Seq::<Value<Span>>::empty());
        assert(p.chunk.ispan@ =~= Seq::<Span>::empty());
        Ok(p)
    }
}


impl Parser {
    /// Replaces `previous` with `current`, and `current` with the next token.
    fn advance(&mut self) -> (r: Result<(), Fail>)
        requires
            old(self).wf(),
        ensures
            final(self).wf(),
            final(self).source() == old(self).source(),
            outcome(r, final(self).state()) == spec_advance(old(self).source(), old(self).state()),
    {
        match self.lexer.emit_token() {
            Ok(t) => {
                self.previous = self.current;
                self.current = t;
                Ok(())
            },
            Err(e) => Err(Fail::Lang(e)),
        }
    }

    /// Takes the next two tokens as `previous` and `current`, so that after
    /// an operator has been read, `previous` is the start of its right operand.
    fn advance_twice(&mut self) -> (r: Result<(), Fail>)
        requires
            old(self).wf(),
        ensures
            final(self).wf(),
            final(self).source() == old(self).source(),
            outcome(r, final(self).state()) == spec_advance_twice(
                old(self).source(),
                old(self).state(),
            ),
    {
        match self.lexer.emit_token() {
            Ok(t) => {
                self.previous = t;
            },
            Err(e) => {
                return Err(Fail::Lang(e));
            },
        }
        match self.lexer.emit_token() {
            Ok(t) => {
                self.current = t;
                Ok(())
            },
            Err(e) => Err(Fail::Lang(e)),
        }
    }

    /// Steps past `current` if it has the kind `expected`; else a compile
    /// error with `message` at `span`.
    fn consume(&mut self, expected: TokenType, span: Span, message: &str) -> (r: Result<(), Fail>)
        requires
            old(self).wf(),
        ensures
            final(self).wf(),
            final(self).source() == old(self).source(),
            outcome(r, final(self).state()) == spec_consume(
                old(self).source(),
                old(self).state(),
                expected,
                span,
                message@,
            ),
    {
        if self.current.ttype == expected {
            self.advance()
        } else {
            Err(Fail::Lang(LangError::compile(span, String::from_str(message))))
        }
    }

    /// Returns the first free register and moves the top past it.
    /// With all 256 registers in use there is none, and the compiler aborts.
    fn alloc_register(&mut self) -> (r: Result<u8, Fail>)
        ensures
            match r {
                Ok(reg) => old(self).stack_top < 255 && reg == old(self).stack_top
                    && final(self).stack_top == old(self).stack_top + 1,
                Err(f) => f is Overflow && old(self).stack_top >= 255,
            },
            final(self).lexer == old(self).lexer,
            final(self).previous == old(self).previous,
            final(self).current == old(self).current,
            final(self).chunk == old(self).chunk,
    {
        if self.stack_top >= 255 {
            return Err(Fail::Overflow);
        }
        let reg = self.stack_top;
        self.stack_top += 1;
        Ok(reg)
    }

    /// Lowers the top of the register stack by one; the register freed is
    /// overwritten by its next use.
    fn free_register(&mut self)
        requires
            old(self).stack_top >= 1,
        ensures
            final(self).stack_top == old(self).stack_top - 1,
            final(self).lexer == old(self).lexer,
            final(self).previous == old(self).previous,
            final(self).current == old(self).current,
            final(self).chunk == old(self).chunk,
    {
        self.stack_top -= 1;
    }

    /// Adds `value` to the constants and a `Load` of it into a new register,
    /// which is returned.
    fn load_constant(&mut self, value: Value<Span>, span: Span) -> (r: Result<u8, Fail>)
        requires
            old(self).wf(),
        ensures
            final(self).wf(),
            final(self).source() == old(self).source(),
            outcome(r, final(self).state()) == spec_load_constant(old(self).state(), value, span),
    {
        let const_idx = self.chunk.add_constant(value);
        let reg = match self.alloc_register() {
            Ok(reg) => reg,
            Err(f) => return Err(f),
        };
        self.chunk.add_instruction(
            Instruction::make_xy(OpCode::Load.to_byte(), reg, const_idx),
            span,
        );
        assert(self.chunk.code() =~= old(self).chunk.code().push(
            word_xy(opcode_byte(OpCode::Load), reg, const_idx),
        ));
        Ok(reg)
    }

    /// Compiles the number literal at `span` into a new register. The number
    /// is kept as the span of its literal; its value is read when the code runs.
    fn number(&mut self, span: Span) -> (r: Result<u8, Fail>)
        requires
            old(self).wf(),
        ensures
            final(self).wf(),
            final(self).source() == old(self).source(),
            outcome(r, final(self).state()) == spec_load_constant(
                old(self).state(),
                Value::Num(span),
                span,
            ),
    {
        self.load_constant(Value::Num(span), span)
    }

    /// Compiles `true`, `false` or `nil` at `span` into a new register: the
    /// value is `true` exactly when `previous` is `true`, so `nil` loads `false`.
    fn boolean(&mut self, span: Span) -> (r: Result<u8, Fail>)
        requires
            old(self).wf(),
        ensures
            final(self).wf(),
            final(self).source() == old(self).source(),
            outcome(r, final(self).state()) == spec_load_constant(
                old(self).state(),
                Value::Bool(old(self).previous.ttype == TokenType::True),
                span,
            ),
    {
        let val = match self.previous.ttype {
            TokenType::True => true,
            _ => false,
        };
        self.load_constant(Value::Bool(val), span)
    }

    /// Binding powers of `current` as an infix operator (see [`spec_infix_bp`]).
    fn infix_bp(&self) -> (r: Option<(u8, u8, bool)>)
        ensures
            r == spec_infix_bp(self.current.ttype),
    {
        match self.current.ttype {
            TokenType::Eq => Some((2, 1, false)),
            TokenType::EqEq | TokenType::Lthen | TokenType::LthenEq | TokenType::BangEq => Some(
                (3, 4, false),
            ),
            TokenType::Gthen | TokenType::GthenEq => Some((3, 4, true)),
            TokenType::Plus | TokenType::Minus => Some((5, 6, false)),
            TokenType::Star | TokenType::Slash => Some((7, 8, false)),
            TokenType::Caret => Some((9, 10, false)),
            _ => None,
        }
    }

    /// The right binding power of `previous` as a prefix operator, or `None`
    /// when it cannot start an expression.
    fn prefix_bp(&self) -> (r: Option<((), u8)>)
        ensures
            r == match spec_prefix_bp(self.previous.ttype) {
                Some(b) => Some(((), b)),
                None => None,
            },
    {
        match self.previous.ttype {
            TokenType::Plus | TokenType::Minus | TokenType::Bang => Some(((), 8)),
            _ => None,
        }
    }

    /// Emits `op` applied to `lhs_reg` and `rhs_reg` into `lhs_reg`, with
    /// the operands swapped when `invert` is set; returns `lhs_reg`.
    fn binary_op(&mut self, op: OpCode, lhs_reg: u8, rhs_reg: u8, span: Span, invert: bool) -> (r:
        u8)
        requires
            old(self).wf(),
        ensures
            final(self).wf(),
            final(self).source() == old(self).source(),
            final(self).state() == spec_emit(
                old(self).state(),
                binary_word(op, lhs_reg, rhs_reg, invert),
                span,
            ),
            r == lhs_reg,
    {
        if invert {
            self.chunk.add_instruction(
                Instruction::make_xyz(op.to_byte(), lhs_reg, rhs_reg, lhs_reg),
                span,
            );
        } else {
            self.chunk.add_instruction(
                Instruction::make_xyz(op.to_byte(), lhs_reg, lhs_reg, rhs_reg),
                span,
            );
        }
        assert(self.chunk.code() =~= old(self).chunk.code().push(
            binary_word(op, lhs_reg, rhs_reg, invert),
        ));
        assert(self.chunk.ispan@ =~= old(self).chunk.ispan@.push(span));
        lhs_reg
    }

    /// Emits `op` on register `reg` in place; returns `reg`.
    fn unary_op(&mut self, op: OpCode, reg: u8, span: Span) -> (r: u8)
        requires
            old(self).wf(),
        ensures
            final(self).wf(),
            final(self).source() == old(self).source(),
            final(self).state() == spec_emit(
                old(self).state(),
                word_xyz(opcode_byte(op), reg, reg, 0),
                span,
            ),
            r == reg,
    {
        self.chunk.add_instruction(Instruction::make_xx(op.to_byte(), reg), span);
        assert(self.chunk.code() =~= old(self).chunk.code().push(
            word_xyz(opcode_byte(op), reg, reg, 0),
        ));
        reg
    }
}


impl Parser {
    /// Compiles an expression starting at `previous` with Pratt parsing:
    /// first its operand (a literal, a parenthesized expression or a prefix
    /// operator with its operand), then every following infix operator whose
    /// left binding power is at least `min_bp`. Returns the register that holds
    /// the result, which is the register that was first free on entry.
    fn expression_bp(&mut self, min_bp: u8) -> (r: Result<u8, Fail>)
        requires
            old(self).wf(),
        ensures
            final(self).wf(),
            final(self).source() == old(self).source(),
            outcome(r, final(self).state()) == drop_tree(
                parse_expr(old(self).source(), old(self).state(), min_bp),
            ),
            r is Ok ==> parse_measure(final(self).source(), final(self).state()) <= parse_measure(
                old(self).source(),
                old(self).state(),
            ),
        decreases parse_measure(old(self).source(), old(self).state()), 1int,
    {
        let ghost src = self.source();
        let ghost st0 = self.state();
        let ghost target = parse_expr(src, st0, min_bp);
        let ghost prev = self.previous;
        let ghost mut lhs_tree = Expr::Const(Value::Bool(prev.ttype == TokenType::True));
        let mut lhs_reg = match self.previous.ttype {
            TokenType::Num => {
                proof {
                    lhs_tree = Expr::Const(Value::Num(prev.tspan));
                }
                match self.number(self.previous.tspan) {
                    Ok(reg) => reg,
                    Err(f) => return Err(f),
                }
            },
            TokenType::True | TokenType::False | TokenType::NIL => {
                match self.boolean(self.previous.tspan) {
                    Ok(reg) => reg,
                    Err(f) => return Err(f),
                }
            },
            TokenType::LParen => {
                let l_span = self.previous.tspan;
                proof {
                    lemma_advance_measure(src, st0);
                }
                match self.advance() {
                    Ok(()) => {},
                    Err(f) => return Err(f),
                }
                let ghost st1 = self.state();
                let res = match self.expression_bp(0) {
                    Ok(reg) => reg,
                    Err(f) => return Err(f),
                };
                proof {
                    lhs_tree = tree_of(parse_expr(src, st1, 0));
                }
                let ghost st2 = self.state();
                proof {
                    lemma_advance_measure(src, st2);
                }
                match self.consume(TokenType::RParen, l_span, "Unmatched closing delimiter '('") {
                    Ok(()) => {},
                    Err(f) => return Err(f),
                }
                res
            },
            _ => {
                let r_bp = match self.prefix_bp() {
                    Some(((), b)) => b,
                    None => {
                        let mut msg = String::from_str("Unexpected start of expression: ");
                        msg.append(self.previous.debug_string().as_str());
                        return Err(Fail::Lang(LangError::compile(self.previous.tspan, msg)));
                    },
                };
                let opcode = match self.previous.ttype {
                    TokenType::Minus => OpCode::Neg,
                    _ => OpCode::Not,
                };
                proof {
                    lemma_advance_measure(src, st0);
                }
                match self.advance() {
                    Ok(()) => {},
                    Err(f) => return Err(f),
                }
                let ghost st1 = self.state();
                let rhs = match self.expression_bp(r_bp) {
                    Ok(reg) => reg,
                    Err(f) => return Err(f),
                };
                proof {
                    lhs_tree = Expr::Unary(opcode, Box::new(tree_of(parse_expr(src, st1, r_bp))));
                }
                self.unary_op(opcode, rhs, self.previous.tspan)
            },
        };
        assert(target == parse_infix(src, self.state(), lhs_reg, lhs_tree, min_bp));
        loop
            invariant
                self.wf(),
                self.source() == src,
                0 <= parse_measure(src, self.state()) <= parse_measure(src, st0),
                parse_infix(src, self.state(), lhs_reg, lhs_tree, min_bp) == target,
                target == parse_expr(old(self).source(), old(self).state(), min_bp),
                src == old(self).source(),
                st0 == old(self).state(),
            ensures
                self.wf(),
                self.source() == src,
                0 <= parse_measure(src, self.state()) <= parse_measure(src, st0),
                target == Parsed::Done(self.state(), (lhs_reg, lhs_tree)),
            decreases parse_measure(src, self.state()),
        {
            let ghost st = self.state();
            let (l_bp, r_bp, invert) = match self.infix_bp() {
                Some(bp) => bp,
                None => break,
            };
            if l_bp < min_bp {
                break;
            }
            let expr_start = self.previous.tspan.start();
            let opcode = match OpCode::bin_op2opcode(&self.current) {
                Ok(op) => op,
                Err(e) => return Err(Fail::Lang(e)),
            };
            proof {
                lemma_advance_measure(src, st);
            }
            match self.advance_twice() {
                Ok(()) => {},
                Err(f) => return Err(f),
            }
            let ghost st1 = self.state();
            let rhs_reg = match self.expression_bp(r_bp) {
                Ok(reg) => reg,
                Err(f) => return Err(f),
            };
            let ghost rtree = tree_of(parse_expr(src, st1, r_bp));
            let last = self.previous.tspan;
            if last.0 as usize > usize::MAX - last.1 as usize {
                return Err(Fail::Aborted);
            }
            let end = last.end();
            if end < expr_start || self.stack_top < 1 {
                return Err(Fail::Aborted);
            }
            let expr_span = Span::start_end(expr_start, end);
            lhs_reg = self.binary_op(opcode, lhs_reg, rhs_reg, expr_span, invert);
            self.free_register();
            proof {
                lhs_tree = Expr::Binary(opcode, Box::new(lhs_tree), Box::new(rtree), invert);
            }
        }
        Ok(lhs_reg)
    }

    /// Compiles one expression, starting with minimum binding power 0.
    fn expression(&mut self) -> (r: Result<(), Fail>)
        requires
            old(self).wf(),
        ensures
            final(self).wf(),
            final(self).source() == old(self).source(),
            outcome(r, final(self).state()) == match parse_expr(
                old(self).source(),
                old(self).state(),
                0,
            ) {
                Parsed::Done(st, _) => Parsed::Done(st, ()),
                Parsed::Failed(e) => Parsed::Failed(e),
                Parsed::Aborted => Parsed::Aborted,
                Parsed::Overflow => Parsed::Overflow,
            },
    {
        match self.expression_bp(0) {
            Ok(_) => Ok(()),
            Err(f) => Err(f),
        }
    }

    /// Compiles the source, or says that compiling it would overflow.
    ///
    /// Returns `None` exactly when the compilation stops on an overflow or an
    /// abort (see [`Parsed`]), and otherwise what [`Parser::compile`] returns.
    pub fn try_compile(self) -> (r: Option<Result<Chunk<Span>, LangError>>)
        requires
            self.wf(),
        ensures
            match compile_from(self.source(), self.state()) {
                Parsed::Done(st, _) => r matches Some(Ok(chunk)) && chunk.wf() && chunk.code()
                    == st.code && chunk.constants@ == st.constants && chunk.ispan@ == st.spans,
                Parsed::Failed(e) => r matches Some(Err(err)) && err@ == e,
                Parsed::Overflow | Parsed::Aborted => r is None,
            },
    {
        let mut p = self;
        match p.expression() {
            Ok(()) => {},
            Err(Fail::Lang(e)) => return Some(Err(e)),
            Err(_) => return None,
        }
        let span = p.current.tspan;
        match p.consume(TokenType::EOF, span, "Expect end of expression.") {
            Ok(()) => {},
            Err(Fail::Lang(e)) => return Some(Err(e)),
            Err(_) => return None,
        }
        Some(Ok(p.chunk))
    }

    /// Compiles the source: one expression, followed by the end of the input.
    /// The source must not make the compilation overflow or abort.
    pub fn compile(self) -> (r: Result<Chunk<Span>, LangError>)
        requires
            self.wf(),
            compile_from(self.source(), self.state()) is Done || compile_from(
                self.source(),
                self.state(),
            ) is Failed,
        ensures
            match compile_from(self.source(), self.state()) {
                Parsed::Done(st, _) => r matches Ok(chunk) && chunk.wf() && chunk.code() == st.code
                    && chunk.constants@ == st.constants && chunk.ispan@ == st.spans,
                Parsed::Failed(e) => r matches Err(err) && err@ == e,
                Parsed::Overflow | Parsed::Aborted => false,
            },
    {
        match self.try_compile() {
            Some(r) => r,
            None => {
                assert(false);
                Err(LangError::compile(Span::zero(), String::new()))
            },
        }
    }
}

} // verus!
