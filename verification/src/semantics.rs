use vstd::prelude::*;

use crate::bytecode::{
    lemma_xy_fields, lemma_xyz_fields, opcode_byte, word_xy, word_xyz, OpCode,
};
use crate::lexer::{lex_token, span_between};
use crate::parser::{
    binary_word, compile_source, extends, initial_state, lemma_advance_measure, lemma_extends_refl,
    lemma_extends_trans, lemma_parse_expr_stack, lemma_parse_infix_stack, parse_expr, parse_infix,
    parse_measure, prefix_opcode, spec_advance, spec_advance_twice, spec_consume, spec_emit,
    spec_infix_bp, spec_load_constant, spec_prefix_bp, tree_of, Expr, ParseState, Parsed,
};
use crate::span::Span;
use crate::token::TokenType;
use crate::value::{is_falsy, Value};
use crate::vm::{step, Effect, Step};

verus! {

/// A constant of the compiler with its number literals read by `g`.
pub open spec fn lift<N>(v: Value<Span>, g: spec_fn(Span) -> N) -> Value<N> {
    match v {
        Value::Num(s) => Value::Num(g(s)),
        Value::Bool(b) => Value::Bool(b),
        Value::NIL => Value::NIL,
    }
}

/// One instruction run to its end: what the machine does, completed by `f`,
/// which computes an operation on numbers (or gives `None` for a runtime error).
/// `None` when the instruction stops with a runtime error.
pub open spec fn exec_word<N>(
    regs: Seq<Value<N>>,
    consts: Seq<Value<N>>,
    w: u32,
    f: spec_fn(OpCode, N, N) -> Option<Value<N>>,
) -> Option<Seq<Value<N>>> {
    match step(regs, consts, w, Span(0, 0)) {
        Step::Next(r, Effect::Numeric { op, dest, lhs, rhs }) => match f(op, lhs, rhs) {
            Some(v) => Some(r.update(dest as int, v)),
            None => None,
        },
        Step::Next(_, Effect::Mismatch { .. }) => None,
        Step::Next(r, _) => Some(r),
        Step::Fault(_) => None,
    }
}

/// The registers after running `code` from `regs`, or `None` on a runtime error.
pub open spec fn run_code<N>(
    regs: Seq<Value<N>>,
    consts: Seq<Value<N>>,
    code: Seq<u32>,
    f: spec_fn(OpCode, N, N) -> Option<Value<N>>,
) -> Option<Seq<Value<N>>>
    decreases code.len(),
{
    if code.len() == 0 {
        Some(regs)
    } else {
        match exec_word(regs, consts, code[0], f) {
            Some(r) => run_code(r, consts, code.drop_first(), f),
            None => None,
        }
    }
}

/// The value of a prefix operation.
pub open spec fn unary_value<N>(
    op: OpCode,
    v: Value<N>,
    f: spec_fn(OpCode, N, N) -> Option<Value<N>>,
) -> Option<Value<N>> {
    if op == OpCode::Neg {
        match v {
            Value::Num(x) => f(op, x, x),
            _ => None,
        }
    } else {
        Some(Value::Bool(is_falsy(v)))
    }
}

/// The value of an infix operation: arithmetic, powers and orderings take two
/// numbers; `Equal` takes two numbers, two booleans, or a boolean and `nil`
/// (which is then equal to `false`).
pub open spec fn binary_value<N>(
    op: OpCode,
    a: Value<N>,
    b: Value<N>,
    f: spec_fn(OpCode, N, N) -> Option<Value<N>>,
) -> Option<Value<N>> {
    if op == OpCode::Equal {
        match (a, b) {
            (Value::Num(x), Value::Num(y)) => f(op, x, y),
            (Value::Bool(i), Value::Bool(j)) => Some(Value::Bool(i == j)),
            (Value::NIL, Value::Bool(i)) => Some(Value::Bool(i == false)),
            (Value::Bool(i), Value::NIL) => Some(Value::Bool(i == false)),
            _ => None,
        }
    } else {
        match (a, b) {
            (Value::Num(x), Value::Num(y)) => f(op, x, y),
            _ => None,
        }
    }
}

/// The value of an expression, with number literals read by `g` and
/// operations on numbers computed by `f`; `None` on a runtime error.
pub open spec fn eval<N>(
    e: Expr,
    g: spec_fn(Span) -> N,
    f: spec_fn(OpCode, N, N) -> Option<Value<N>>,
) -> Option<Value<N>>
    decreases e,
{
    match e {
        Expr::Const(v) => Some(lift(v, g)),
        Expr::Unary(op, a) => match eval(*a, g, f) {
            Some(v) => unary_value(op, v, f),
            None => None,
        },
        Expr::Binary(op, l, r, invert) => match (eval(*l, g, f), eval(*r, g, f)) {
            (Some(x), Some(y)) => if invert {
                binary_value(op, y, x, f)
            } else {
                binary_value(op, x, y, f)
            },
            _ => None,
        },
    }
}

/// The constants of the machine are those of the compiler, read by `g`.
pub open spec fn consts_agree<N>(
    consts: Seq<Value<N>>,
    constants: Seq<Value<Span>>,
    g: spec_fn(Span) -> N,
) -> bool {
    &&& constants.len() <= consts.len()
    &&& forall|k: int| 0 <= k < constants.len() ==> consts[k] == lift(#[trigger] constants[k], g)
}

proof fn lemma_run_concat<N>(
    regs: Seq<Value<N>>,
    consts: Seq<Value<N>>,
    a: Seq<u32>,
    b: Seq<u32>,
    f: spec_fn(OpCode, N, N) -> Option<Value<N>>,
)
    ensures
        run_code(regs, consts, a + b, f) == match run_code(regs, consts, a, f) {
            Some(r) => run_code(r, consts, b, f),
            None => None,
        },
    decreases a.len(),
{
    if a.len() == 0 {
        assert(a + b =~= b);
    } else {
        assert((a + b).drop_first() =~= a.drop_first() + b);
        assert((a + b)[0] == a[0]);
        if let Some(r) = exec_word(regs, consts, a[0], f) {
            lemma_run_concat(r, consts, a.drop_first(), b, f);
        }
    }
}

proof fn lemma_run_single<N>(
    regs: Seq<Value<N>>,
    consts: Seq<Value<N>>,
    w: u32,
    f: spec_fn(OpCode, N, N) -> Option<Value<N>>,
)
    ensures
        run_code(regs, consts, seq![w], f) == exec_word(regs, consts, w, f),
{
    let code = seq![w];
    assert(code.drop_first() =~= Seq::<u32>::empty());
    assert(code[0] == w);
    if let Some(r) = exec_word(regs, consts, w, f) {
        assert(run_code(r, consts, code.drop_first(), f) == Some(r));
    }
}

/// The code appended from `a` to `b`, for `b` continuing `a`.
pub open spec fn segment(a: ParseState, b: ParseState) -> Seq<u32> {
    b.code.subrange(a.code.len() as int, b.code.len() as int)
}

proof fn lemma_segment_split(src: Seq<u8>, a: ParseState, b: ParseState, c: ParseState)
    requires
        extends(src, a, b),
        extends(src, b, c),
    ensures
        segment(a, c) == segment(a, b) + segment(b, c),
{
    assert(c.code.subrange(0, b.code.len() as int) == b.code);
    assert(segment(a, c) =~= segment(a, b) + segment(b, c));
}

proof fn lemma_segment_empty(a: ParseState, b: ParseState)
    requires
        b.code == a.code,
    ensures
        segment(a, b) == Seq::<u32>::empty(),
{
    assert(segment(a, b) =~= Seq::<u32>::empty());
}

proof fn lemma_segment_emit(a: ParseState, w: u32, span: Span)
    ensures
        segment(a, spec_emit(a, w, span)) == seq![w],
{
    assert(segment(a, spec_emit(a, w, span)) =~= seq![w]);
}

/// Of an infix continuation, the whole expression has no value when its
/// first operand has none.
proof fn lemma_infix_tree_strict<N>(
    src: Seq<u8>,
    st: ParseState,
    lhs: u8,
    tree: Expr,
    min_bp: u8,
    g: spec_fn(Span) -> N,
    f: spec_fn(OpCode, N, N) -> Option<Value<N>>,
)
    requires
        eval(tree, g, f) is None,
    ensures
        parse_infix(src, st, lhs, tree, min_bp) matches Parsed::Done(_, (_, t)) ==> eval(t, g, f)
            is None,
    decreases parse_measure(src, st),
{
    if let Some((l_bp, r_bp, invert)) = spec_infix_bp(st.current.ttype) {
        if l_bp >= min_bp {
            if let Some(op) = crate::bytecode::binary_opcode(st.current.ttype) {
                if let Parsed::Done(st1, _) = spec_advance_twice(src, st) {
                    if 0 <= parse_measure(src, st1) < parse_measure(src, st) {
                        if let Parsed::Done(st2, (rhs, rtree)) = parse_expr(src, st1, r_bp) {
                            let expr_start = st.previous.tspan.0 as int;
                            let end = st2.previous.tspan.0 + st2.previous.tspan.1;
                            if !(end > usize::MAX || end < expr_start || st2.top < 1) {
                                let st3 = ParseState {
                                    top: st2.top - 1,
                                    ..spec_emit(
                                        st2,
                                        binary_word(op, lhs, rhs, invert),
                                        span_between(expr_start, end),
                                    )
                                };
                                let t3 = Expr::Binary(op, Box::new(tree), Box::new(rtree), invert);
                                if 0 <= parse_measure(src, st3) < parse_measure(src, st) {
                                    lemma_infix_tree_strict(src, st3, lhs, t3, min_bp, g, f);
                                }
                            }
                        }
                    }
                }
            }
        }
    }
}


proof fn lemma_exec_load<N>(
    regs: Seq<Value<N>>,
    consts: Seq<Value<N>>,
    reg: u8,
    idx: u16,
    f: spec_fn(OpCode, N, N) -> Option<Value<N>>,
)
    requires
        regs.len() == 256,
        (idx as int) < consts.len(),
    ensures
        exec_word(regs, consts, word_xy(opcode_byte(OpCode::Load), reg, idx), f) == Some(
            regs.update(reg as int, consts[idx as int]),
        ),
{
    lemma_xy_fields(opcode_byte(OpCode::Load), reg, idx);
}

proof fn lemma_exec_unary<N>(
    regs: Seq<Value<N>>,
    consts: Seq<Value<N>>,
    op: OpCode,
    r: u8,
    f: spec_fn(OpCode, N, N) -> Option<Value<N>>,
)
    requires
        regs.len() == 256,
        op == OpCode::Neg || op == OpCode::Not,
    ensures
        exec_word(regs, consts, word_xyz(opcode_byte(op), r, r, 0), f) == match unary_value(
            op,
            regs[r as int],
            f,
        ) {
            Some(v) => Some(regs.update(r as int, v)),
            None => None,
        },
{
    lemma_xyz_fields(opcode_byte(op), r, r, 0);
}

/// The opcodes of infix operations.
pub open spec fn is_binary_op(op: OpCode) -> bool {
    op == OpCode::Add || op == OpCode::Sub || op == OpCode::Mul || op == OpCode::Div || op
        == OpCode::Pow || op == OpCode::Equal || op == OpCode::Lthen || op == OpCode::Lequal
}

proof fn lemma_exec_binary<N>(
    regs: Seq<Value<N>>,
    consts: Seq<Value<N>>,
    op: OpCode,
    lhs: u8,
    rhs: u8,
    invert: bool,
    f: spec_fn(OpCode, N, N) -> Option<Value<N>>,
)
    requires
        regs.len() == 256,
        is_binary_op(op),
    ensures
        exec_word(regs, consts, binary_word(op, lhs, rhs, invert), f) == match (if invert {
            binary_value(op, regs[rhs as int], regs[lhs as int], f)
        } else {
            binary_value(op, regs[lhs as int], regs[rhs as int], f)
        }) {
            Some(v) => Some(regs.update(lhs as int, v)),
            None => None,
        },
{
    lemma_xyz_fields(opcode_byte(op), lhs, rhs, lhs);
    lemma_xyz_fields(opcode_byte(op), lhs, lhs, rhs);
}

proof fn lemma_agree_prefix<N>(
    consts: Seq<Value<N>>,
    small: Seq<Value<Span>>,
    big: Seq<Value<Span>>,
    g: spec_fn(Span) -> N,
)
    requires
        consts_agree(consts, big, g),
        small.len() <= big.len(),
        big.subrange(0, small.len() as int) == small,
    ensures
        consts_agree(consts, small, g),
{
    assert forall|k: int| 0 <= k < small.len() implies consts[k] == lift(#[trigger] small[k], g) by {
        assert(small[k] == big.subrange(0, small.len() as int)[k]);
        assert(consts[k] == lift(big[k], g));
    }
}


/// Running `code` from `regs` succeeds exactly when `value` exists; it then
/// leaves `value` in register `reg` and every register below `reg` as it was.
pub open spec fn computes<N>(
    regs: Seq<Value<N>>,
    consts: Seq<Value<N>>,
    code: Seq<u32>,
    f: spec_fn(OpCode, N, N) -> Option<Value<N>>,
    reg: u8,
    value: Option<Value<N>>,
) -> bool {
    &&& (run_code(regs, consts, code, f) is Some <==> value is Some)
    &&& run_code(regs, consts, code, f) matches Some(r) ==> {
        &&& r.len() == regs.len()
        &&& value == Some(r[reg as int])
        &&& forall|i: int| 0 <= i < reg ==> r[i] == regs[i]
    }
}

/// The code compiled for an expression computes its value into the register
/// that was first free, and keeps every register below it.
pub proof fn lemma_parse_expr_computes<N>(
    src: Seq<u8>,
    st: ParseState,
    min_bp: u8,
    regs: Seq<Value<N>>,
    consts: Seq<Value<N>>,
    g: spec_fn(Span) -> N,
    f: spec_fn(OpCode, N, N) -> Option<Value<N>>,
)
    requires
        0 <= st.pos <= src.len(),
        0 <= st.top,
        regs.len() == 256,
        parse_expr(src, st, min_bp) matches Parsed::Done(st1, _) ==> st1.constants.len() <= 65536
            && consts_agree(consts, st1.constants, g),
    ensures
        parse_expr(src, st, min_bp) matches Parsed::Done(st1, (reg, tree)) ==> computes(
            regs,
            consts,
            segment(st, st1),
            f,
            reg,
            eval(tree, g, f),
        ),
    decreases parse_measure(src, st), 1int,
{
    let prev = st.previous;
    lemma_advance_measure(src, st);
    lemma_extends_refl(src, st);
    lemma_parse_expr_stack(src, st, min_bp);
    if !(parse_expr(src, st, min_bp) is Done) {
        return;
    }
    let stf = parse_expr(src, st, min_bp)->Done_0;
    if prev.ttype == TokenType::Num || prev.ttype == TokenType::True || prev.ttype
        == TokenType::False || prev.ttype == TokenType::NIL {
        let v = if prev.ttype == TokenType::Num {
            Value::Num(prev.tspan)
        } else {
            Value::Bool(prev.ttype == TokenType::True)
        };
        let st1 = spec_load_constant(st, v, prev.tspan)->Done_0;
        let reg = spec_load_constant(st, v, prev.tspan)->Done_1;
        let mid = ParseState { constants: st.constants.push(v), top: st.top + 1, ..st };
        let k = mid.constants.len() - 1;
        let idx = k as u16;
        let word = word_xy(opcode_byte(OpCode::Load), reg, idx);
        assert(st1 == spec_emit(mid, word, prev.tspan));
        assert(mid.constants.subrange(0, st.constants.len() as int) =~= st.constants);
        lemma_extends_refl(src, mid);
        crate::parser::lemma_emit_extends(src, mid, word, prev.tspan);
        lemma_parse_infix_stack(src, st1, reg, Expr::Const(v), min_bp);
        lemma_extends_trans(src, mid, st1, stf);
        lemma_segment_emit(mid, word, prev.tspan);
        assert(segment(st, st1) == segment(mid, st1));
        lemma_extends_trans(src, st, mid, st1);
        lemma_segment_split(src, st, st1, stf);
        // the constant loaded is the one just added
        assert(stf.constants.subrange(0, mid.constants.len() as int) == mid.constants);
        assert(stf.constants[k] == mid.constants[k]);
        assert(idx as int == k);
        assert(consts[k] == lift(v, g));
        lemma_exec_load(regs, consts, reg, idx, f);
        lemma_run_single(regs, consts, word, f);
        let r1 = regs.update(reg as int, lift(v, g));
        lemma_run_concat(regs, consts, seq![word], segment(st1, stf), f);
        lemma_parse_infix_computes(src, st1, reg, Expr::Const(v), min_bp, r1, consts, g, f);
    } else if prev.ttype == TokenType::LParen {
        let st1 = spec_advance(src, st)->Done_0;
        lemma_parse_expr_stack(src, st1, 0);
        let st2 = parse_expr(src, st1, 0)->Done_0;
        let reg = parse_expr(src, st1, 0)->Done_1.0;
        let tree = parse_expr(src, st1, 0)->Done_1.1;
        lemma_advance_measure(src, st2);
        lemma_extends_refl(src, st2);
        let st3 = spec_consume(
            src,
            st2,
            TokenType::RParen,
            prev.tspan,
            "Unmatched closing delimiter '('"@,
        )->Done_0;
        lemma_parse_infix_stack(src, st3, reg, tree, min_bp);
        lemma_extends_trans(src, st2, st3, stf);
        lemma_agree_prefix(consts, st2.constants, stf.constants, g);
        lemma_parse_expr_computes(src, st1, 0, regs, consts, g, f);
        lemma_segment_empty(st, st1);
        lemma_segment_empty(st2, st3);
        lemma_extends_trans(src, st, st1, st2);
        lemma_extends_trans(src, st, st2, st3);
        lemma_segment_split(src, st, st1, st2);
        lemma_segment_split(src, st, st2, st3);
        lemma_segment_split(src, st, st3, stf);
        assert(segment(st, st3) =~= segment(st1, st2));
        lemma_run_concat(regs, consts, segment(st1, st2), segment(st3, stf), f);
        if let Some(r1) = run_code(regs, consts, segment(st1, st2), f) {
            lemma_parse_infix_computes(src, st3, reg, tree, min_bp, r1, consts, g, f);
        } else {
            lemma_infix_tree_strict(src, st3, reg, tree, min_bp, g, f);
        }
    } else {
        let r_bp = spec_prefix_bp(prev.ttype)->0;
        let st1 = spec_advance(src, st)->Done_0;
        lemma_parse_expr_stack(src, st1, r_bp);
        let st2 = parse_expr(src, st1, r_bp)->Done_0;
        let rhs = parse_expr(src, st1, r_bp)->Done_1.0;
        let tree = parse_expr(src, st1, r_bp)->Done_1.1;
        let op = prefix_opcode(prev.ttype);
        let word = word_xyz(opcode_byte(op), rhs, rhs, 0);
        let st3 = spec_emit(st2, word, st2.previous.tspan);
        let t3 = Expr::Unary(op, Box::new(tree));
        crate::parser::lemma_emit_extends(src, st2, word, st2.previous.tspan);
        lemma_parse_infix_stack(src, st3, rhs, t3, min_bp);
        lemma_extends_trans(src, st2, st3, stf);
        lemma_agree_prefix(consts, st2.constants, stf.constants, g);
        lemma_parse_expr_computes(src, st1, r_bp, regs, consts, g, f);
        lemma_segment_empty(st, st1);
        lemma_segment_emit(st2, word, st2.previous.tspan);
        lemma_extends_trans(src, st, st1, st2);
        lemma_extends_trans(src, st, st2, st3);
        lemma_segment_split(src, st, st1, st2);
        lemma_segment_split(src, st, st2, st3);
        lemma_segment_split(src, st, st3, stf);
        assert(segment(st, st2) =~= segment(st1, st2));
        lemma_run_concat(regs, consts, segment(st1, st2), seq![word], f);
        lemma_run_concat(regs, consts, segment(st1, st2) + seq![word], segment(st3, stf), f);
        lemma_run_single(regs, consts, word, f);
        if let Some(r1) = run_code(regs, consts, segment(st1, st2), f) {
            lemma_run_single(r1, consts, word, f);
            lemma_exec_unary(r1, consts, op, rhs, f);
            if let Some(r2) = exec_word(r1, consts, word, f) {
                lemma_parse_infix_computes(src, st3, rhs, t3, min_bp, r2, consts, g, f);
            } else {
                lemma_infix_tree_strict(src, st3, rhs, t3, min_bp, g, f);
            }
        } else {
            lemma_infix_tree_strict(src, st3, rhs, t3, min_bp, g, f);
        }
    }
}

/// The code compiled for the infix operators after an operand computes the
/// value of the whole expression into the operand's register, given that the
/// register holds the operand's value, and keeps every register below it.
pub proof fn lemma_parse_infix_computes<N>(
    src: Seq<u8>,
    st: ParseState,
    lhs: u8,
    tree: Expr,
    min_bp: u8,
    regs: Seq<Value<N>>,
    consts: Seq<Value<N>>,
    g: spec_fn(Span) -> N,
    f: spec_fn(OpCode, N, N) -> Option<Value<N>>,
)
    requires
        0 <= st.pos <= src.len(),
        st.top == lhs + 1,
        regs.len() == 256,
        eval(tree, g, f) == Some(regs[lhs as int]),
        parse_infix(src, st, lhs, tree, min_bp) matches Parsed::Done(st1, _)
            ==> st1.constants.len() <= 65536 && consts_agree(consts, st1.constants, g),
    ensures
        parse_infix(src, st, lhs, tree, min_bp) matches Parsed::Done(st1, (reg, t)) ==> computes(
            regs,
            consts,
            segment(st, st1),
            f,
            lhs,
            eval(t, g, f),
        ),
    decreases parse_measure(src, st), 0int,
{
    lemma_extends_refl(src, st);
    lemma_parse_infix_stack(src, st, lhs, tree, min_bp);
    if !(parse_infix(src, st, lhs, tree, min_bp) is Done) {
        return;
    }
    let stf = parse_infix(src, st, lhs, tree, min_bp)->Done_0;
    let bp = spec_infix_bp(st.current.ttype);
    if bp is None {
        lemma_segment_empty(st, st);
        return;
    }
    let (l_bp, r_bp, invert) = bp->0;
    if l_bp < min_bp {
        lemma_segment_empty(st, st);
        return;
    }
    let op = crate::bytecode::binary_opcode(st.current.ttype)->0;
    crate::parser::lemma_advance_extends(src, st);
    let st1 = spec_advance_twice(src, st)->Done_0;
    lemma_parse_expr_stack(src, st1, r_bp);
    let st2 = parse_expr(src, st1, r_bp)->Done_0;
    let rhs = parse_expr(src, st1, r_bp)->Done_1.0;
    let rtree = parse_expr(src, st1, r_bp)->Done_1.1;
    let expr_start = st.previous.tspan.0 as int;
    let end = st2.previous.tspan.0 + st2.previous.tspan.1;
    let word = binary_word(op, lhs, rhs, invert);
    let span = span_between(expr_start, end);
    let e = spec_emit(st2, word, span);
    let st3 = ParseState { top: st2.top - 1, ..e };
    let t3 = Expr::Binary(op, Box::new(tree), Box::new(rtree), invert);
    crate::parser::lemma_emit_extends(src, st2, word, span);
    assert(extends(src, st2, st3));
    lemma_parse_infix_stack(src, st3, lhs, t3, min_bp);
    lemma_extends_trans(src, st2, st3, stf);
    lemma_agree_prefix(consts, st2.constants, stf.constants, g);
    lemma_parse_expr_computes(src, st1, r_bp, regs, consts, g, f);
    lemma_segment_empty(st, st1);
    lemma_segment_emit(st2, word, span);
    assert(segment(st2, st3) == seq![word]);
    lemma_extends_trans(src, st, st1, st2);
    lemma_extends_trans(src, st, st2, st3);
    lemma_segment_split(src, st, st1, st2);
    lemma_segment_split(src, st, st2, st3);
    lemma_segment_split(src, st, st3, stf);
    assert(segment(st, st2) =~= segment(st1, st2));
    lemma_run_concat(regs, consts, segment(st1, st2), seq![word], f);
    lemma_run_concat(regs, consts, segment(st1, st2) + seq![word], segment(st3, stf), f);
    assert(is_binary_op(op));
    if let Some(r1) = run_code(regs, consts, segment(st1, st2), f) {
        lemma_run_single(r1, consts, word, f);
        lemma_exec_binary(r1, consts, op, lhs, rhs, invert, f);
        assert(r1[lhs as int] == regs[lhs as int]);
        if let Some(r2) = exec_word(r1, consts, word, f) {
            lemma_parse_infix_computes(src, st3, lhs, t3, min_bp, r2, consts, g, f);
        } else {
            lemma_infix_tree_strict(src, st3, lhs, t3, min_bp, g, f);
        }
    } else {
        lemma_infix_tree_strict(src, st3, lhs, t3, min_bp, g, f);
    }
}


/// The expression that a source text compiles from.
pub open spec fn compiled_expr(src: Seq<u8>) -> Expr {
    tree_of(parse_expr(src, initial_state(src)->Ok_0, 0))
}

/// The compiled code computes the value of its expression: running the whole
/// code of a successful compilation succeeds exactly when the expression has a
/// value, and then leaves that value in register 0, whatever the registers
/// held before. Number literals are read by `g` and operations on numbers
/// computed by `f`, as the caller of the machine does; there are at most
/// 65536 constants, so that each `Load` can name its own.
pub proof fn lemma_compiled_code_evaluates<N>(
    src: Seq<u8>,
    regs: Seq<Value<N>>,
    consts: Seq<Value<N>>,
    g: spec_fn(Span) -> N,
    f: spec_fn(OpCode, N, N) -> Option<Value<N>>,
)
    requires
        regs.len() == 256,
        compile_source(src) matches Parsed::Done(st, _) ==> st.constants.len() <= 65536
            && consts_agree(consts, st.constants, g),
    ensures
        compile_source(src) matches Parsed::Done(st, _) ==> computes(
            regs,
            consts,
            st.code,
            f,
            0,
            eval(compiled_expr(src), g, f),
        ),
{
    if let Ok(st0) = initial_state(src) {
        crate::lexer::lemma_lex_progress(src, 0);
        crate::lexer::lemma_lex_progress(src, lex_token(src, 0).end);
        lemma_parse_expr_stack(src, st0, 0);
        if let Parsed::Done(st1, _) = parse_expr(src, st0, 0) {
            if let Parsed::Done(st2, _) = compile_source(src) {
                lemma_advance_measure(src, st1);
                lemma_parse_expr_computes(src, st0, 0, regs, consts, g, f);
                assert(segment(st0, st1) =~= st1.code);
            }
        }
    }
}

} // verus!
