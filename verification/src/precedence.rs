use vstd::prelude::*;

use crate::bytecode::{binary_opcode, OpCode};
use crate::error::ErrorView;
use crate::lexer::{lemma_eof_is_final, lemma_lex_progress, lemma_lex_token_span, lex_token};
use crate::lexer::span_between;
use crate::parser::{
    binary_word, compile_failure, compile_from, compile_source, initial_state, parse_expr, parse_infix,
    parse_measure, prefix_opcode, spec_advance, spec_advance_twice, spec_emit, spec_infix_bp,
    spec_load_constant, spec_prefix_bp, Expr, ParseState, Parsed,
};
use crate::bytecode::{opcode_byte, word_xyz};
use crate::semantics::compiled_expr;
use crate::span::Span;
use crate::token::{LangToken, TokenType};
use crate::value::Value;

verus! {

/// Lexing `src` from `pos` on gives the tokens `toks`, one after the other.
pub open spec fn lexes_tokens(src: Seq<u8>, pos: int, toks: Seq<LangToken>) -> bool
    decreases toks.len(),
{
    if toks.len() == 0 {
        true
    } else {
        &&& lex_token(src, pos).token == Ok::<LangToken, ErrorView>(toks[0])
        &&& lexes_tokens(src, lex_token(src, pos).end, toks.drop_first())
    }
}

/// How tightly an infix operator binds: its left binding power.
pub open spec fn precedence(t: TokenType) -> int {
    match spec_infix_bp(t) {
        Some((l, _, _)) => l as int,
        None => 0,
    }
}

/// Whether an infix operator takes its operands the other way round (`>` and `>=`).
pub open spec fn swaps_operands(t: TokenType) -> bool {
    match spec_infix_bp(t) {
        Some((_, _, inv)) => inv,
        None => false,
    }
}

/// The tree of a number literal.
pub open spec fn leaf(t: LangToken) -> Expr {
    Expr::Const(Value::Num(t.tspan))
}

/// The tree of the infix operator `o` on `l` and `r`.
pub open spec fn infix_node(o: LangToken, l: Expr, r: Expr) -> Expr {
    Expr::Binary(binary_opcode(o.ttype)->0, Box::new(l), Box::new(r), swaps_operands(o.ttype))
}

/// The operators that the compiler turns into an instruction.
pub open spec fn compiled_operator(t: TokenType) -> bool {
    binary_opcode(t) is Some
}

/// The state after loading the number literal `previous` into a new register.
pub open spec fn after_load(st: ParseState) -> ParseState {
    spec_load_constant(st, Value::Num(st.previous.tspan), st.previous.tspan)->Done_0
}

/// The state after the infix operation `op` on `lhs` and `rhs`, whose
/// expression starts at `start` and ends at `end`.
pub open spec fn after_infix(st: ParseState, op: OpCode, lhs: u8, rhs: u8, invert: bool, start: int, end: int) -> ParseState {
    ParseState { top: st.top - 1, ..spec_emit(st, binary_word(op, lhs, rhs, invert), span_between(start, end)) }
}

proof fn lemma_number_operand(src: Seq<u8>, st: ParseState, min_bp: u8)
    requires
        st.previous.ttype == TokenType::Num,
        0 <= st.top < 255,
        0 <= st.pos <= src.len(),
    ensures
        spec_load_constant(st, Value::Num(st.previous.tspan), st.previous.tspan) == Parsed::Done(
            after_load(st),
            st.top as u8,
        ),
        after_load(st).top == st.top + 1,
        after_load(st).pos == st.pos,
        after_load(st).previous == st.previous,
        after_load(st).current == st.current,
        parse_expr(src, st, min_bp) == parse_infix(
            src,
            after_load(st),
            st.top as u8,
            leaf(st.previous),
            min_bp,
        ),
{
    assert(parse_measure(src, after_load(st)) == parse_measure(src, st));
}

proof fn lemma_infix_stop(src: Seq<u8>, st: ParseState, lhs: u8, tree: Expr, min_bp: u8)
    requires
        spec_infix_bp(st.current.ttype) is None || precedence(st.current.ttype) < min_bp,
    ensures
        parse_infix(src, st, lhs, tree, min_bp) == Parsed::Done(st, (lhs, tree)),
{
}

proof fn lemma_infix_step(
    src: Seq<u8>,
    st: ParseState,
    lhs: u8,
    tree: Expr,
    min_bp: u8,
    st1: ParseState,
    rhs: u8,
    rtree: Expr,
    st2: ParseState,
)
    requires
        compiled_operator(st.current.ttype),
        precedence(st.current.ttype) >= min_bp,
        spec_advance_twice(src, st) == Parsed::Done(st1, ()),
        0 <= parse_measure(src, st1) < parse_measure(src, st),
        parse_expr(src, st1, (precedence(st.current.ttype) + 1) as u8) == Parsed::Done(
            st2,
            (rhs, rtree),
        ),
        st2.previous.tspan.0 + st2.previous.tspan.1 <= usize::MAX,
        st2.previous.tspan.0 + st2.previous.tspan.1 >= st.previous.tspan.0,
        st2.top >= 1,
        0 <= parse_measure(src, st2) < parse_measure(src, st),
    ensures
        parse_infix(src, st, lhs, tree, min_bp) == parse_infix(
            src,
            after_infix(
                st2,
                binary_opcode(st.current.ttype)->0,
                lhs,
                rhs,
                swaps_operands(st.current.ttype),
                st.previous.tspan.0 as int,
                st2.previous.tspan.0 + st2.previous.tspan.1,
            ),
            lhs,
            infix_node(st.current, tree, rtree),
            min_bp,
        ),
{
    let (l, r, inv) = spec_infix_bp(st.current.ttype)->0;
    assert(r == l + 1);
    let st3 = after_infix(
        st2,
        binary_opcode(st.current.ttype)->0,
        lhs,
        rhs,
        inv,
        st.previous.tspan.0 as int,
        st2.previous.tspan.0 + st2.previous.tspan.1,
    );
    assert(parse_measure(src, st3) == parse_measure(src, st2));
}

/// Lexing from `pos` gives `t1` and then `t2`, and leaves the lexer at `end`.
pub open spec fn two_tokens(src: Seq<u8>, pos: int, t1: LangToken, t2: LangToken, end: int) -> bool {
    &&& lex_token(src, pos).token == Ok::<LangToken, ErrorView>(t1)
    &&& lex_token(src, lex_token(src, pos).end).token == Ok::<LangToken, ErrorView>(t2)
    &&& lex_token(src, lex_token(src, pos).end).end == end
}

proof fn lemma_advance_twice_by(src: Seq<u8>, st: ParseState, t1: LangToken, t2: LangToken, end: int)
    requires
        two_tokens(src, st.pos, t1, t2, end),
    ensures
        spec_advance_twice(src, st) == Parsed::Done(
            ParseState { pos: end, previous: t1, current: t2, ..st },
            (),
        ),
{
}

/// What the compiler needs to know of the tokens of `a o1 b o2 c`, where
/// `p2`, `p4` and `p6` are the lexer's positions after `o1`, `o2` and `EOF`.
pub open spec fn three_operands(
    src: Seq<u8>,
    a: LangToken,
    o1: LangToken,
    b: LangToken,
    o2: LangToken,
    c: LangToken,
    eof: LangToken,
    p2: int,
    p4: int,
    p6: int,
) -> bool {
    &&& src.len() < 0x1_0000_0000
    &&& 0 < p2 < p4 < p6 <= src.len()
    &&& initial_state(src) == Ok::<ParseState, ErrorView>(
        ParseState {
            pos: p2,
            previous: a,
            current: o1,
            code: Seq::empty(),
            constants: Seq::empty(),
            spans: Seq::empty(),
            top: 0,
        },
    )
    &&& two_tokens(src, p2, b, o2, p4)
    &&& two_tokens(src, p4, c, eof, p6)
    &&& lex_token(src, p6).token is Ok
    &&& a.ttype == TokenType::Num && b.ttype == TokenType::Num && c.ttype == TokenType::Num
    &&& eof.ttype == TokenType::EOF
    &&& compiled_operator(o1.ttype) && compiled_operator(o2.ttype)
    &&& a.tspan.0 <= b.tspan.0 <= c.tspan.0
    &&& b.tspan.0 + b.tspan.1 <= p4
    &&& c.tspan.0 + c.tspan.1 <= p6
}

/// The first state of the compiler for `a o1 b o2 c`.
pub open spec fn first_state(a: LangToken, o1: LangToken, p2: int) -> ParseState {
    ParseState {
        pos: p2,
        previous: a,
        current: o1,
        code: Seq::empty(),
        constants: Seq::empty(),
        spans: Seq::empty(),
        top: 0,
    }
}

#[verifier::rlimit(30)]
proof fn lemma_tighter_second(
    src: Seq<u8>,
    a: LangToken,
    o1: LangToken,
    b: LangToken,
    o2: LangToken,
    c: LangToken,
    eof: LangToken,
    p2: int,
    p4: int,
    p6: int,
)
    requires
        three_operands(src, a, o1, b, o2, c, eof, p2, p4, p6),
        precedence(o2.ttype) > precedence(o1.ttype),
    ensures
        compile_source(src) is Done,
        compiled_expr(src) == infix_node(o1, leaf(a), infix_node(o2, leaf(b), leaf(c))),
{
    let op1 = binary_opcode(o1.ttype)->0;
    let op2 = binary_opcode(o2.ttype)->0;
    let r1 = (precedence(o1.ttype) + 1) as u8;
    let r2 = (precedence(o2.ttype) + 1) as u8;
    let i1 = swaps_operands(o1.ttype);
    let i2 = swaps_operands(o2.ttype);
    let st0 = first_state(a, o1, p2);
    lemma_number_operand(src, st0, 0);
    let sa = after_load(st0);
    lemma_advance_twice_by(src, sa, b, o2, p4);
    let s1 = ParseState { pos: p4, previous: b, current: o2, ..sa };
    lemma_number_operand(src, s1, r1);
    let sb = after_load(s1);
    lemma_advance_twice_by(src, sb, c, eof, p6);
    let s2 = ParseState { pos: p6, previous: c, current: eof, ..sb };
    lemma_number_operand(src, s2, r2);
    let sc = after_load(s2);
    let c_end = c.tspan.0 + c.tspan.1;
    lemma_infix_stop(src, sc, 2u8, leaf(c), r2);
    lemma_infix_step(src, sb, 1u8, leaf(b), r1, s2, 2u8, leaf(c), sc);
    let s3 = after_infix(sc, op2, 1u8, 2u8, i2, b.tspan.0 as int, c_end);
    let n2 = infix_node(o2, leaf(b), leaf(c));
    lemma_infix_stop(src, s3, 1u8, n2, r1);
    lemma_infix_step(src, sa, 0u8, leaf(a), 0, s1, 1u8, n2, s3);
    let s4 = after_infix(s3, op1, 0u8, 1u8, i1, a.tspan.0 as int, c_end);
    lemma_infix_stop(src, s4, 0u8, infix_node(o1, leaf(a), n2), 0);
    assert(spec_advance(src, s4) is Done);
}

#[verifier::rlimit(30)]
proof fn lemma_looser_second(
    src: Seq<u8>,
    a: LangToken,
    o1: LangToken,
    b: LangToken,
    o2: LangToken,
    c: LangToken,
    eof: LangToken,
    p2: int,
    p4: int,
    p6: int,
)
    requires
        three_operands(src, a, o1, b, o2, c, eof, p2, p4, p6),
        precedence(o2.ttype) <= precedence(o1.ttype),
    ensures
        compile_source(src) is Done,
        compiled_expr(src) == infix_node(o2, infix_node(o1, leaf(a), leaf(b)), leaf(c)),
{
    let op1 = binary_opcode(o1.ttype)->0;
    let op2 = binary_opcode(o2.ttype)->0;
    let r1 = (precedence(o1.ttype) + 1) as u8;
    let r2 = (precedence(o2.ttype) + 1) as u8;
    let i1 = swaps_operands(o1.ttype);
    let i2 = swaps_operands(o2.ttype);
    let st0 = first_state(a, o1, p2);
    lemma_number_operand(src, st0, 0);
    let sa = after_load(st0);
    lemma_advance_twice_by(src, sa, b, o2, p4);
    let s1 = ParseState { pos: p4, previous: b, current: o2, ..sa };
    lemma_number_operand(src, s1, r1);
    let sb = after_load(s1);
    let b_end = b.tspan.0 + b.tspan.1;
    let c_end = c.tspan.0 + c.tspan.1;
    lemma_infix_stop(src, sb, 1u8, leaf(b), r1);
    lemma_infix_step(src, sa, 0u8, leaf(a), 0, s1, 1u8, leaf(b), sb);
    let s3 = after_infix(sb, op1, 0u8, 1u8, i1, a.tspan.0 as int, b_end);
    let n1 = infix_node(o1, leaf(a), leaf(b));
    lemma_advance_twice_by(src, s3, c, eof, p6);
    let s4 = ParseState { pos: p6, previous: c, current: eof, ..s3 };
    lemma_number_operand(src, s4, r2);
    let sc = after_load(s4);
    lemma_infix_stop(src, sc, 1u8, leaf(c), r2);
    lemma_infix_step(src, s3, 0u8, n1, 0, s4, 1u8, leaf(c), sc);
    let s5 = after_infix(sc, op2, 0u8, 1u8, i2, b.tspan.0 as int, c_end);
    lemma_infix_stop(src, s5, 0u8, infix_node(o2, n1, leaf(c)), 0);
    assert(spec_advance(src, s5) is Done);
}

/// Precedence and associativity: in `a o1 b o2 c`, the second operator takes
/// `b` as its left operand when it binds more tightly than the first;
/// otherwise (same or lower precedence) the first operation is done first and
/// is the left operand of the second, so operators of equal precedence group
/// to the left.
pub proof fn lemma_precedence(
    src: Seq<u8>,
    a: LangToken,
    o1: LangToken,
    b: LangToken,
    o2: LangToken,
    c: LangToken,
    eof: LangToken,
)
    requires
        src.len() < 0x1_0000_0000,
        lexes_tokens(src, 0, seq![a, o1, b, o2, c, eof]),
        a.ttype == TokenType::Num,
        b.ttype == TokenType::Num,
        c.ttype == TokenType::Num,
        eof.ttype == TokenType::EOF,
        compiled_operator(o1.ttype),
        compiled_operator(o2.ttype),
    ensures
        compile_source(src) is Done,
        compiled_expr(src) == if precedence(o2.ttype) > precedence(o1.ttype) {
            infix_node(o1, leaf(a), infix_node(o2, leaf(b), leaf(c)))
        } else {
            infix_node(o2, infix_node(o1, leaf(a), leaf(b)), leaf(c))
        },
{
    let (p2, p4, p6) = lemma_stream_positions(src, a, o1, b, o2, c, eof);
    if precedence(o2.ttype) > precedence(o1.ttype) {
        lemma_tighter_second(src, a, o1, b, o2, c, eof, p2, p4, p6);
    } else {
        lemma_looser_second(src, a, o1, b, o2, c, eof, p2, p4, p6);
    }
}

/// The positions at which the lexer stands in `a o1 b o2 c`, and what holds of them.
proof fn lemma_stream_positions(
    src: Seq<u8>,
    a: LangToken,
    o1: LangToken,
    b: LangToken,
    o2: LangToken,
    c: LangToken,
    eof: LangToken,
) -> (ps: (int, int, int))
    requires
        src.len() < 0x1_0000_0000,
        lexes_tokens(src, 0, seq![a, o1, b, o2, c, eof]),
        a.ttype == TokenType::Num,
        b.ttype == TokenType::Num,
        c.ttype == TokenType::Num,
        eof.ttype == TokenType::EOF,
        compiled_operator(o1.ttype),
        compiled_operator(o2.ttype),
    ensures
        three_operands(src, a, o1, b, o2, c, eof, ps.0, ps.1, ps.2),
{
    reveal_with_fuel(lexes_tokens, 7);
    let p1 = lex_token(src, 0).end;
    let p2 = lex_token(src, p1).end;
    let p3 = lex_token(src, p2).end;
    let p4 = lex_token(src, p3).end;
    let p5 = lex_token(src, p4).end;
    let p6 = lex_token(src, p5).end;
    let toks = seq![a, o1, b, o2, c, eof];
    assert(toks.drop_first() =~= seq![o1, b, o2, c, eof]);
    assert(toks.drop_first().drop_first() =~= seq![b, o2, c, eof]);
    assert(toks.drop_first().drop_first().drop_first() =~= seq![o2, c, eof]);
    assert(toks.drop_first().drop_first().drop_first().drop_first() =~= seq![c, eof]);
    assert(toks.drop_first().drop_first().drop_first().drop_first().drop_first() =~= seq![eof]);
    lemma_lex_progress(src, 0);
    lemma_lex_progress(src, p1);
    lemma_lex_progress(src, p2);
    lemma_lex_progress(src, p3);
    lemma_lex_progress(src, p4);
    lemma_lex_progress(src, p5);
    lemma_lex_token_span(src, 0);
    lemma_lex_token_span(src, p2);
    lemma_lex_token_span(src, p4);
    lemma_eof_is_final(src, p5);
    (p2, p4, p6)
}

/// The state after the prefix operation `op` on the register `reg`.
pub open spec fn after_prefix(st: ParseState, op: OpCode, reg: u8) -> ParseState {
    spec_emit(st, word_xyz(opcode_byte(op), reg, reg, 0), st.previous.tspan)
}

proof fn lemma_prefix_operand(
    src: Seq<u8>,
    st: ParseState,
    min_bp: u8,
    st1: ParseState,
    rhs: u8,
    tree: Expr,
    st2: ParseState,
)
    requires
        spec_prefix_bp(st.previous.ttype) is Some,
        st.previous.ttype != TokenType::Num,
        st.previous.ttype != TokenType::True,
        st.previous.ttype != TokenType::False,
        st.previous.ttype != TokenType::NIL,
        st.previous.ttype != TokenType::LParen,
        spec_advance(src, st) == Parsed::Done(st1, ()),
        0 <= parse_measure(src, st1) < parse_measure(src, st),
        parse_expr(src, st1, spec_prefix_bp(st.previous.ttype)->0) == Parsed::Done(st2, (rhs, tree)),
        0 <= parse_measure(src, st2) <= parse_measure(src, st),
    ensures
        parse_expr(src, st, min_bp) == parse_infix(
            src,
            after_prefix(st2, prefix_opcode(st.previous.ttype), rhs),
            rhs,
            Expr::Unary(prefix_opcode(st.previous.ttype), Box::new(tree)),
            min_bp,
        ),
{
}

/// Lexing from `pos` gives `t`, and leaves the lexer at `end`.
pub open spec fn one_token(src: Seq<u8>, pos: int, t: LangToken, end: int) -> bool {
    &&& lex_token(src, pos).token == Ok::<LangToken, ErrorView>(t)
    &&& lex_token(src, pos).end == end
}

/// What the compiler needs to know of the tokens of `m a o b`, with `m` a
/// prefix operator; `p2`, `p3` and `p5` are the lexer's positions after `a`,
/// `o` and `EOF`.
pub open spec fn prefix_operands(
    src: Seq<u8>,
    m: LangToken,
    a: LangToken,
    o: LangToken,
    b: LangToken,
    eof: LangToken,
    p2: int,
    p3: int,
    p5: int,
) -> bool {
    &&& src.len() < 0x1_0000_0000
    &&& 0 < p2 < p3 < p5 <= src.len()
    &&& initial_state(src) == Ok::<ParseState, ErrorView>(first_state(m, a, p2))
    &&& one_token(src, p2, o, p3)
    &&& two_tokens(src, p3, b, eof, p5)
    &&& lex_token(src, p5).token is Ok
    &&& a.ttype == TokenType::Num && b.ttype == TokenType::Num
    &&& eof.ttype == TokenType::EOF
    &&& spec_prefix_bp(m.ttype) is Some
    &&& compiled_operator(o.ttype)
    &&& a.tspan.0 <= b.tspan.0
    &&& b.tspan.0 + b.tspan.1 <= p5
}

#[verifier::rlimit(30)]
proof fn lemma_prefix_takes_operation(
    src: Seq<u8>,
    m: LangToken,
    a: LangToken,
    o: LangToken,
    b: LangToken,
    eof: LangToken,
    p2: int,
    p3: int,
    p5: int,
)
    requires
        prefix_operands(src, m, a, o, b, eof, p2, p3, p5),
        precedence(o.ttype) >= spec_prefix_bp(m.ttype)->0,
    ensures
        compile_source(src) is Done,
        compiled_expr(src) == Expr::Unary(
            prefix_opcode(m.ttype),
            Box::new(infix_node(o, leaf(a), leaf(b))),
        ),
{
    let r = spec_prefix_bp(m.ttype)->0;
    let rb = (precedence(o.ttype) + 1) as u8;
    let op = binary_opcode(o.ttype)->0;
    let st0 = first_state(m, a, p2);
    let st1 = ParseState { pos: p3, previous: a, current: o, ..st0 };
    assert(spec_advance(src, st0) == Parsed::Done(st1, ()));
    lemma_number_operand(src, st1, r);
    let sa = after_load(st1);
    lemma_advance_twice_by(src, sa, b, eof, p5);
    let s2 = ParseState { pos: p5, previous: b, current: eof, ..sa };
    lemma_number_operand(src, s2, rb);
    let sb = after_load(s2);
    lemma_infix_stop(src, sb, 1u8, leaf(b), rb);
    lemma_infix_step(src, sa, 0u8, leaf(a), r, s2, 1u8, leaf(b), sb);
    let node = infix_node(o, leaf(a), leaf(b));
    let s3 = after_infix(sb, op, 0u8, 1u8, swaps_operands(o.ttype), a.tspan.0 as int, b.tspan.0 + b.tspan.1);
    lemma_infix_stop(src, s3, 0u8, node, r);
    lemma_prefix_operand(src, st0, 0, st1, 0u8, node, s3);
    let s4 = after_prefix(s3, prefix_opcode(m.ttype), 0u8);
    let t = Expr::Unary(prefix_opcode(m.ttype), Box::new(node));
    lemma_infix_stop(src, s4, 0u8, t, 0);
    assert(spec_advance(src, s4) is Done);
}

#[verifier::rlimit(30)]
proof fn lemma_prefix_takes_operand(
    src: Seq<u8>,
    m: LangToken,
    a: LangToken,
    o: LangToken,
    b: LangToken,
    eof: LangToken,
    p2: int,
    p3: int,
    p5: int,
)
    requires
        prefix_operands(src, m, a, o, b, eof, p2, p3, p5),
        precedence(o.ttype) < spec_prefix_bp(m.ttype)->0,
    ensures
        compile_source(src) is Done,
        compiled_expr(src) == infix_node(
            o,
            Expr::Unary(prefix_opcode(m.ttype), Box::new(leaf(a))),
            leaf(b),
        ),
{
    let r = spec_prefix_bp(m.ttype)->0;
    let rb = (precedence(o.ttype) + 1) as u8;
    let op = binary_opcode(o.ttype)->0;
    let st0 = first_state(m, a, p2);
    let st1 = ParseState { pos: p3, previous: a, current: o, ..st0 };
    assert(spec_advance(src, st0) == Parsed::Done(st1, ()));
    lemma_number_operand(src, st1, r);
    let sa = after_load(st1);
    lemma_infix_stop(src, sa, 0u8, leaf(a), r);
    lemma_prefix_operand(src, st0, 0, st1, 0u8, leaf(a), sa);
    let s3 = after_prefix(sa, prefix_opcode(m.ttype), 0u8);
    let u = Expr::Unary(prefix_opcode(m.ttype), Box::new(leaf(a)));
    lemma_advance_twice_by(src, s3, b, eof, p5);
    let s4 = ParseState { pos: p5, previous: b, current: eof, ..s3 };
    lemma_number_operand(src, s4, rb);
    let sb = after_load(s4);
    lemma_infix_stop(src, sb, 1u8, leaf(b), rb);
    lemma_infix_step(src, s3, 0u8, u, 0, s4, 1u8, leaf(b), sb);
    let s5 = after_infix(sb, op, 0u8, 1u8, swaps_operands(o.ttype), a.tspan.0 as int, b.tspan.0 + b.tspan.1);
    lemma_infix_stop(src, s5, 0u8, infix_node(o, u, leaf(b)), 0);
    assert(spec_advance(src, s5) is Done);
}

/// The positions at which the lexer stands in `m a o b`, and what holds of them.
proof fn lemma_prefix_stream_positions(
    src: Seq<u8>,
    m: LangToken,
    a: LangToken,
    o: LangToken,
    b: LangToken,
    eof: LangToken,
) -> (ps: (int, int, int))
    requires
        src.len() < 0x1_0000_0000,
        lexes_tokens(src, 0, seq![m, a, o, b, eof]),
        a.ttype == TokenType::Num,
        b.ttype == TokenType::Num,
        eof.ttype == TokenType::EOF,
        spec_prefix_bp(m.ttype) is Some,
        compiled_operator(o.ttype),
    ensures
        prefix_operands(src, m, a, o, b, eof, ps.0, ps.1, ps.2),
{
    reveal_with_fuel(lexes_tokens, 6);
    let p1 = lex_token(src, 0).end;
    let p2 = lex_token(src, p1).end;
    let p3 = lex_token(src, p2).end;
    let p4 = lex_token(src, p3).end;
    let p5 = lex_token(src, p4).end;
    let toks = seq![m, a, o, b, eof];
    assert(toks.drop_first() =~= seq![a, o, b, eof]);
    assert(toks.drop_first().drop_first() =~= seq![o, b, eof]);
    assert(toks.drop_first().drop_first().drop_first() =~= seq![b, eof]);
    assert(toks.drop_first().drop_first().drop_first().drop_first() =~= seq![eof]);
    lemma_lex_progress(src, 0);
    lemma_lex_progress(src, p1);
    lemma_lex_progress(src, p2);
    lemma_lex_progress(src, p3);
    lemma_lex_progress(src, p4);
    lemma_lex_token_span(src, p1);
    lemma_lex_token_span(src, p3);
    lemma_eof_is_final(src, p4);
    (p2, p3, p5)
}

/// A prefix operator binds more tightly than `*` and `/` but less tightly
/// than `^`: in `m a o b` it applies to the operation `a o b` when `o` binds
/// at least as tightly as the prefix operator, and otherwise only to `a`.
pub proof fn lemma_prefix_precedence(
    src: Seq<u8>,
    m: LangToken,
    a: LangToken,
    o: LangToken,
    b: LangToken,
    eof: LangToken,
)
    requires
        src.len() < 0x1_0000_0000,
        lexes_tokens(src, 0, seq![m, a, o, b, eof]),
        a.ttype == TokenType::Num,
        b.ttype == TokenType::Num,
        eof.ttype == TokenType::EOF,
        spec_prefix_bp(m.ttype) is Some,
        compiled_operator(o.ttype),
    ensures
        compile_source(src) is Done,
        compiled_expr(src) == if precedence(o.ttype) >= spec_prefix_bp(m.ttype)->0 {
            Expr::Unary(prefix_opcode(m.ttype), Box::new(infix_node(o, leaf(a), leaf(b))))
        } else {
            infix_node(o, Expr::Unary(prefix_opcode(m.ttype), Box::new(leaf(a))), leaf(b))
        },
{
    let (p2, p3, p5) = lemma_prefix_stream_positions(src, m, a, o, b, eof);
    if precedence(o.ttype) >= spec_prefix_bp(m.ttype)->0 {
        lemma_prefix_takes_operation(src, m, a, o, b, eof, p2, p3, p5);
    } else {
        lemma_prefix_takes_operand(src, m, a, o, b, eof, p2, p3, p5);
    }
}

/// The operation `op` on `l` and `r`, operands in order.
pub open spec fn bin(op: OpCode, l: Expr, r: Expr) -> Expr {
    Expr::Binary(op, Box::new(l), Box::new(r), false)
}

/// `+` adds and `-` subtracts.
pub open spec fn additive(t: TokenType) -> OpCode {
    if t == TokenType::Plus {
        OpCode::Add
    } else {
        OpCode::Sub
    }
}

/// `*` multiplies and `/` divides.
pub open spec fn multiplicative(t: TokenType) -> OpCode {
    if t == TokenType::Star {
        OpCode::Mul
    } else {
        OpCode::Div
    }
}

/// The order of the operators: `^` binds more tightly than `*` and `/`,
/// which bind more tightly than `+` and `-`, which bind more tightly than
/// the comparisons; operators of one group bind equally, and every infix
/// operator here groups to the left (its right binding power is one more
/// than its left one).
pub proof fn lemma_operator_order()
    ensures
        precedence(TokenType::Caret) > precedence(TokenType::Star),
        precedence(TokenType::Star) == precedence(TokenType::Slash),
        precedence(TokenType::Star) > precedence(TokenType::Plus),
        precedence(TokenType::Plus) == precedence(TokenType::Minus),
        precedence(TokenType::Plus) > precedence(TokenType::EqEq),
        precedence(TokenType::EqEq) == precedence(TokenType::Lthen),
        precedence(TokenType::EqEq) == precedence(TokenType::LthenEq),
        precedence(TokenType::EqEq) == precedence(TokenType::Gthen),
        precedence(TokenType::EqEq) == precedence(TokenType::GthenEq),
        precedence(TokenType::EqEq) > 0,
        spec_prefix_bp(TokenType::Minus) == Some(8u8),
        spec_prefix_bp(TokenType::Bang) == Some(8u8),
        spec_prefix_bp(TokenType::Plus) == Some(8u8),
        precedence(TokenType::Star) < 8 < precedence(TokenType::Caret),
{
}

/// `a * b ^ c` and `a / b ^ c`: the power is taken first, `a * (b ^ c)`.
pub proof fn lemma_power_before_product(
    src: Seq<u8>,
    a: LangToken,
    o1: LangToken,
    b: LangToken,
    o2: LangToken,
    c: LangToken,
    eof: LangToken,
)
    requires
        src.len() < 0x1_0000_0000,
        lexes_tokens(src, 0, seq![a, o1, b, o2, c, eof]),
        a.ttype == TokenType::Num,
        b.ttype == TokenType::Num,
        c.ttype == TokenType::Num,
        eof.ttype == TokenType::EOF,
        o1.ttype == TokenType::Star || o1.ttype == TokenType::Slash,
        o2.ttype == TokenType::Caret,
    ensures
        compile_source(src) is Done,
        compiled_expr(src) == bin(
            multiplicative(o1.ttype),
            leaf(a),
            bin(OpCode::Pow, leaf(b), leaf(c)),
        ),
{
    lemma_precedence(src, a, o1, b, o2, c, eof);
}

/// `a ^ b * c` and `a ^ b / c`: the power is the left operand, `(a ^ b) * c`.
pub proof fn lemma_power_as_left_operand(
    src: Seq<u8>,
    a: LangToken,
    o1: LangToken,
    b: LangToken,
    o2: LangToken,
    c: LangToken,
    eof: LangToken,
)
    requires
        src.len() < 0x1_0000_0000,
        lexes_tokens(src, 0, seq![a, o1, b, o2, c, eof]),
        a.ttype == TokenType::Num,
        b.ttype == TokenType::Num,
        c.ttype == TokenType::Num,
        eof.ttype == TokenType::EOF,
        o1.ttype == TokenType::Caret,
        o2.ttype == TokenType::Star || o2.ttype == TokenType::Slash,
    ensures
        compile_source(src) is Done,
        compiled_expr(src) == bin(
            multiplicative(o2.ttype),
            bin(OpCode::Pow, leaf(a), leaf(b)),
            leaf(c),
        ),
{
    lemma_precedence(src, a, o1, b, o2, c, eof);
}

/// `a + b * c` (any of `+ -` then any of `* /`): the product is taken first.
pub proof fn lemma_product_before_sum(
    src: Seq<u8>,
    a: LangToken,
    o1: LangToken,
    b: LangToken,
    o2: LangToken,
    c: LangToken,
    eof: LangToken,
)
    requires
        src.len() < 0x1_0000_0000,
        lexes_tokens(src, 0, seq![a, o1, b, o2, c, eof]),
        a.ttype == TokenType::Num,
        b.ttype == TokenType::Num,
        c.ttype == TokenType::Num,
        eof.ttype == TokenType::EOF,
        o1.ttype == TokenType::Plus || o1.ttype == TokenType::Minus,
        o2.ttype == TokenType::Star || o2.ttype == TokenType::Slash,
    ensures
        compile_source(src) is Done,
        compiled_expr(src) == bin(
            additive(o1.ttype),
            leaf(a),
            bin(multiplicative(o2.ttype), leaf(b), leaf(c)),
        ),
{
    lemma_precedence(src, a, o1, b, o2, c, eof);
}

/// `a == b + c` (and `<`): the sum is taken first, then compared.
pub proof fn lemma_sum_before_comparison(
    src: Seq<u8>,
    a: LangToken,
    o1: LangToken,
    b: LangToken,
    o2: LangToken,
    c: LangToken,
    eof: LangToken,
)
    requires
        src.len() < 0x1_0000_0000,
        lexes_tokens(src, 0, seq![a, o1, b, o2, c, eof]),
        a.ttype == TokenType::Num,
        b.ttype == TokenType::Num,
        c.ttype == TokenType::Num,
        eof.ttype == TokenType::EOF,
        o1.ttype == TokenType::EqEq || o1.ttype == TokenType::Lthen,
        o2.ttype == TokenType::Plus || o2.ttype == TokenType::Minus,
    ensures
        compile_source(src) is Done,
        compiled_expr(src) == bin(
            if o1.ttype == TokenType::EqEq {
                OpCode::Equal
            } else {
                OpCode::Lthen
            },
            leaf(a),
            bin(additive(o2.ttype), leaf(b), leaf(c)),
        ),
{
    lemma_precedence(src, a, o1, b, o2, c, eof);
}

/// Operators of equal precedence group to the left: `a - b + c` is
/// `(a - b) + c`, `a / b * c` is `(a / b) * c`, and `a ^ b ^ c` is `(a ^ b) ^ c`.
pub proof fn lemma_left_associative(
    src: Seq<u8>,
    a: LangToken,
    o1: LangToken,
    b: LangToken,
    o2: LangToken,
    c: LangToken,
    eof: LangToken,
)
    requires
        src.len() < 0x1_0000_0000,
        lexes_tokens(src, 0, seq![a, o1, b, o2, c, eof]),
        a.ttype == TokenType::Num,
        b.ttype == TokenType::Num,
        c.ttype == TokenType::Num,
        eof.ttype == TokenType::EOF,
        ((o1.ttype == TokenType::Plus || o1.ttype == TokenType::Minus) && (o2.ttype
            == TokenType::Plus || o2.ttype == TokenType::Minus)) || ((o1.ttype == TokenType::Star
            || o1.ttype == TokenType::Slash) && (o2.ttype == TokenType::Star || o2.ttype
            == TokenType::Slash)) || (o1.ttype == TokenType::Caret && o2.ttype == TokenType::Caret),
    ensures
        compile_source(src) is Done,
        compiled_expr(src) == bin(
            binary_opcode(o2.ttype)->0,
            bin(binary_opcode(o1.ttype)->0, leaf(a), leaf(b)),
            leaf(c),
        ),
        o1.ttype == TokenType::Caret ==> compiled_expr(src) == bin(
            OpCode::Pow,
            bin(OpCode::Pow, leaf(a), leaf(b)),
            leaf(c),
        ),
        o1.ttype == TokenType::Minus && o2.ttype == TokenType::Plus ==> compiled_expr(src) == bin(
            OpCode::Add,
            bin(OpCode::Sub, leaf(a), leaf(b)),
            leaf(c),
        ),
{
    lemma_precedence(src, a, o1, b, o2, c, eof);
}

/// `- a ^ b` is the negation of the power: `-(a ^ b)`.
pub proof fn lemma_negation_of_power(
    src: Seq<u8>,
    m: LangToken,
    a: LangToken,
    o: LangToken,
    b: LangToken,
    eof: LangToken,
)
    requires
        src.len() < 0x1_0000_0000,
        lexes_tokens(src, 0, seq![m, a, o, b, eof]),
        m.ttype == TokenType::Minus,
        a.ttype == TokenType::Num,
        o.ttype == TokenType::Caret,
        b.ttype == TokenType::Num,
        eof.ttype == TokenType::EOF,
    ensures
        compile_source(src) is Done,
        compiled_expr(src) == Expr::Unary(OpCode::Neg, Box::new(bin(OpCode::Pow, leaf(a), leaf(b)))),
{
    lemma_prefix_precedence(src, m, a, o, b, eof);
}

/// `- a * b` and `- a / b` negate `a` only: `(-a) * b`.
pub proof fn lemma_negation_before_product(
    src: Seq<u8>,
    m: LangToken,
    a: LangToken,
    o: LangToken,
    b: LangToken,
    eof: LangToken,
)
    requires
        src.len() < 0x1_0000_0000,
        lexes_tokens(src, 0, seq![m, a, o, b, eof]),
        m.ttype == TokenType::Minus,
        a.ttype == TokenType::Num,
        o.ttype == TokenType::Star || o.ttype == TokenType::Slash,
        b.ttype == TokenType::Num,
        eof.ttype == TokenType::EOF,
    ensures
        compile_source(src) is Done,
        compiled_expr(src) == bin(
            multiplicative(o.ttype),
            Expr::Unary(OpCode::Neg, Box::new(leaf(a))),
            leaf(b),
        ),
{
    lemma_prefix_precedence(src, m, a, o, b, eof);
}

/// Only an empty source is refused as empty: a source of at least one byte
/// starts the compiler on its first two tokens, or stops with the lexer's
/// error on one of them.
pub proof fn lemma_only_empty_source_is_empty(src: Seq<u8>)
    ensures
        src.len() == 0 ==> initial_state(src) == Err::<ParseState, ErrorView>(
            compile_failure(Span(0, 0), "Tried to compile empty file"@),
        ),
        src.len() > 0 ==> match lex_token(src, 0).token {
            Err(e) => initial_state(src) == Err::<ParseState, ErrorView>(e),
            Ok(t1) => match lex_token(src, lex_token(src, 0).end).token {
                Err(e) => initial_state(src) == Err::<ParseState, ErrorView>(e),
                Ok(t2) => initial_state(src) matches Ok(st) && st.previous == t1 && st.current == t2
                    && st.pos == lex_token(src, lex_token(src, 0).end).end && st.code.len() == 0
                    && st.constants.len() == 0 && st.spans.len() == 0 && st.top == 0,
            },
        },
{
}

/// A program that is a single number literal compiles to one `Load` of that
/// literal into register 0, and its expression is the literal.
pub proof fn lemma_single_number(src: Seq<u8>, a: LangToken, eof: LangToken)
    requires
        lexes_tokens(src, 0, seq![a, eof]),
        a.ttype == TokenType::Num,
        eof.ttype == TokenType::EOF,
    ensures
        src.len() >= 1,
        compile_source(src) matches Parsed::Done(st, _) && st.code == seq![
            crate::bytecode::word_xy(opcode_byte(OpCode::Load), 0u8, 0u16),
        ] && st.constants == seq![Value::Num(a.tspan)],
        compiled_expr(src) == leaf(a),
{
    reveal_with_fuel(lexes_tokens, 3);
    let p1 = lex_token(src, 0).end;
    let p2 = lex_token(src, p1).end;
    let toks = seq![a, eof];
    assert(toks.drop_first() =~= seq![eof]);
    lemma_lex_progress(src, 0);
    lemma_lex_progress(src, p1);
    lemma_eof_is_final(src, p1);
    let st0 = first_state(a, eof, p2);
    assert(initial_state(src) == Ok::<ParseState, ErrorView>(st0));
    lemma_number_operand(src, st0, 0);
    let sa = after_load(st0);
    lemma_infix_stop(src, sa, 0u8, leaf(a), 0);
    assert(spec_advance(src, sa) is Done);
    assert(sa.code =~= seq![crate::bytecode::word_xy(opcode_byte(OpCode::Load), 0u8, 0u16)]);
    assert(sa.constants =~= seq![Value::Num(a.tspan)]);
}

/// `a o b` with one infix operator compiles to that operation on `a` and
/// `b`. The comparisons `>` and `>=` are `<` and `<=` with their operands
/// given the other way round (`a > b` is `b < a`); every other operator
/// takes them in order.
pub proof fn lemma_single_operation(
    src: Seq<u8>,
    a: LangToken,
    o: LangToken,
    b: LangToken,
    eof: LangToken,
)
    requires
        src.len() < 0x1_0000_0000,
        lexes_tokens(src, 0, seq![a, o, b, eof]),
        a.ttype == TokenType::Num,
        b.ttype == TokenType::Num,
        eof.ttype == TokenType::EOF,
        compiled_operator(o.ttype),
    ensures
        compile_source(src) is Done,
        compiled_expr(src) == infix_node(o, leaf(a), leaf(b)),
        o.ttype == TokenType::Gthen ==> compiled_expr(src) == Expr::Binary(
            OpCode::Lthen,
            Box::new(leaf(a)),
            Box::new(leaf(b)),
            true,
        ),
        o.ttype == TokenType::GthenEq ==> compiled_expr(src) == Expr::Binary(
            OpCode::Lequal,
            Box::new(leaf(a)),
            Box::new(leaf(b)),
            true,
        ),
        o.ttype == TokenType::Lthen ==> compiled_expr(src) == bin(OpCode::Lthen, leaf(a), leaf(b)),
        o.ttype == TokenType::LthenEq ==> compiled_expr(src) == bin(OpCode::Lequal, leaf(a), leaf(b)),
        o.ttype == TokenType::EqEq ==> compiled_expr(src) == bin(OpCode::Equal, leaf(a), leaf(b)),
{
    reveal_with_fuel(lexes_tokens, 5);
    let p1 = lex_token(src, 0).end;
    let p2 = lex_token(src, p1).end;
    let p3 = lex_token(src, p2).end;
    let p4 = lex_token(src, p3).end;
    let toks = seq![a, o, b, eof];
    assert(toks.drop_first() =~= seq![o, b, eof]);
    assert(toks.drop_first().drop_first() =~= seq![b, eof]);
    assert(toks.drop_first().drop_first().drop_first() =~= seq![eof]);
    lemma_lex_progress(src, 0);
    lemma_lex_progress(src, p1);
    lemma_lex_progress(src, p2);
    lemma_lex_progress(src, p3);
    lemma_lex_token_span(src, 0);
    lemma_lex_token_span(src, p2);
    lemma_eof_is_final(src, p3);
    let rb = (precedence(o.ttype) + 1) as u8;
    let st0 = first_state(a, o, p2);
    assert(initial_state(src) == Ok::<ParseState, ErrorView>(st0));
    lemma_number_operand(src, st0, 0);
    let sa = after_load(st0);
    lemma_advance_twice_by(src, sa, b, eof, p4);
    let s1 = ParseState { pos: p4, previous: b, current: eof, ..sa };
    lemma_number_operand(src, s1, rb);
    let sb = after_load(s1);
    lemma_infix_stop(src, sb, 1u8, leaf(b), rb);
    lemma_infix_step(src, sa, 0u8, leaf(a), 0, s1, 1u8, leaf(b), sb);
    let s2 = after_infix(
        sb,
        binary_opcode(o.ttype)->0,
        0u8,
        1u8,
        swaps_operands(o.ttype),
        a.tspan.0 as int,
        b.tspan.0 + b.tspan.1,
    );
    lemma_infix_stop(src, s2, 0u8, infix_node(o, leaf(a), leaf(b)), 0);
    assert(spec_advance(src, s2) is Done);
}

} // verus!
