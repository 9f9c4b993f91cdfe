use lib::{Chunk, ErrorType, Instruction, OpCode, Parser, Span, Value};

fn compile(src: &str) -> Result<Chunk<Span>, lib::LangError> {
    let parser = Parser::init(src.to_string().into_boxed_str())?;
    parser.try_compile().expect("compilation aborted")
}

fn words(chunk: &Chunk<Span>) -> Vec<(u8, u8, u8, u8)> {
    chunk
        .instructions
        .iter()
        .map(|i: &Instruction| (i.opcode(), i.x(), i.y(), i.z()))
        .collect()
}

fn num_span(v: &Value<Span>) -> Span {
    match v {
        Value::Num(s) => *s,
        _ => panic!("not a number constant"),
    }
}

#[test]
fn addition_uses_two_registers() {
    let chunk = compile("2 + 2").unwrap();
    assert_eq!(words(&chunk), vec![(1, 0, 0, 0), (1, 1, 0, 1), (4, 0, 0, 1)]);
    assert_eq!(chunk.constants.len(), 2);
    assert_eq!(num_span(&chunk.constants[0]), Span::init(0, 1));
    assert_eq!(num_span(&chunk.constants[1]), Span::init(4, 1));
    assert_eq!(chunk.ispan, vec![Span::init(0, 1), Span::init(4, 1), Span::init(0, 5)]);
}

#[test]
fn precedence_multiplication_first() {
    let chunk = compile("2 + 2 * 2").unwrap();
    assert_eq!(
        words(&chunk),
        vec![(1, 0, 0, 0), (1, 1, 0, 1), (1, 2, 0, 2), (6, 1, 1, 2), (4, 0, 0, 1)]
    );
}

#[test]
fn left_associative_subtraction() {
    let chunk = compile("3 - 2 - 1").unwrap();
    assert_eq!(
        words(&chunk),
        vec![(1, 0, 0, 0), (1, 1, 0, 1), (5, 0, 0, 1), (1, 1, 0, 2), (5, 0, 0, 1)]
    );
}

#[test]
fn greater_swaps_operands() {
    let chunk = compile("2 > 1").unwrap();
    assert_eq!(words(&chunk)[2], (OpCode::Lthen.to_byte(), 0, 1, 0));
    let chunk = compile("2 >= 1").unwrap();
    assert_eq!(words(&chunk)[2], (OpCode::Lequal.to_byte(), 0, 1, 0));
}

#[test]
fn prefix_operators() {
    let chunk = compile("-2").unwrap();
    assert_eq!(words(&chunk), vec![(1, 0, 0, 0), (9, 0, 0, 0)]);
    assert_eq!(chunk.ispan[1], Span::init(1, 1));
    let chunk = compile("!true").unwrap();
    assert_eq!(words(&chunk), vec![(1, 0, 0, 0), (10, 0, 0, 0)]);
    assert_eq!(words(&compile("!!false").unwrap())[1].0, OpCode::Not.to_byte());
}

#[test]
fn unary_plus_compiles_to_not() {
    let chunk = compile("+3").unwrap();
    assert_eq!(words(&chunk), vec![(1, 0, 0, 0), (10, 0, 0, 0)]);
    assert_eq!(words(&chunk)[1].0, OpCode::Not.to_byte());
}

#[test]
fn parentheses_group() {
    let chunk = compile("(2 + 2) * 4").unwrap();
    assert_eq!(
        words(&chunk),
        vec![(1, 0, 0, 0), (1, 1, 0, 1), (4, 0, 0, 1), (1, 1, 0, 2), (6, 0, 0, 1)]
    );
}

#[test]
fn booleans_and_nil_are_constants() {
    let chunk = compile("true == nil").unwrap();
    match (chunk.constants[0], chunk.constants[1]) {
        (Value::Bool(true), Value::Bool(false)) => {}
        _ => panic!("unexpected constants"),
    }
    assert_eq!(words(&chunk)[2], (11, 0, 0, 1));
}

#[test]
fn demo_expressions_compile() {
    for src in [
        "2 + 2",
        "2 + 2 * 2",
        "2 * 2 + 2",
        "2 + 2 == 4",
        "2 + 2 >= 4",
        "--2 + --2 >= 4",
        "(2 + 2) * 4",
        "(2 + 3 == 5) == true",
        "false == !true",
        "999^0",
        "0^999",
        "1 + 2^10",
    ] {
        let chunk = compile(src).unwrap();
        assert_eq!(chunk.instructions.len(), chunk.ispan.len());
    }
}

#[test]
fn empty_source_is_an_error() {
    let e = Parser::init(String::new().into_boxed_str()).err().unwrap();
    assert_eq!(e.message(), "Tried to compile empty file");
    assert_eq!(e.span(), Span::zero());
    assert_eq!(e.error_type(), ErrorType::CompileError);
}

#[test]
fn unmatched_parenthesis() {
    let e = compile("(1 + 2").unwrap_err();
    assert_eq!(e.message(), "Unmatched closing delimiter '('");
    assert_eq!(e.span(), Span::init(0, 1));
}

#[test]
fn unexpected_start() {
    let e = compile("* 2").unwrap_err();
    assert_eq!(
        e.message(),
        "Unexpected start of expression: LangToken { ttype: Star, tspan: Span(0, 1) }"
    );
    assert_eq!(e.span(), Span::init(0, 1));
}

#[test]
fn assignment_operator_is_rejected() {
    let e = compile("1 = 2").unwrap_err();
    assert_eq!(e.message(), "Failed to convert binary operator '=' to bytecode");
    assert_eq!(e.span(), Span::init(2, 1));
    let e = compile("1 != 2").unwrap_err();
    assert_eq!(e.message(), "Failed to convert binary operator '!=' to bytecode");
}

#[test]
fn trailing_tokens() {
    let e = compile("1 2").unwrap_err();
    assert_eq!(e.message(), "Expect end of expression.");
    assert_eq!(e.span(), Span::init(2, 1));
}

#[test]
fn line_break_after_expression() {
    let e = compile("1\n").unwrap_err();
    assert_eq!(e.message(), "Expect end of expression.");
    assert_eq!(e.span(), Span::init(1, 1));
}

#[test]
fn lexing_error_inside_expression() {
    let e = compile("1 + @").unwrap_err();
    assert_eq!(e.message(), "Invalid character: '@'");
    assert_eq!(e.span(), Span::init(5, 1));
}

#[test]
fn lexing_error_in_first_tokens() {
    let e = Parser::init("# 1".to_string().into_boxed_str()).err().unwrap();
    assert_eq!(e.message(), "Invalid character: '#'");
}

#[test]
fn compile_without_abort_matches_try_compile() {
    let p = Parser::init("4 * (1 + 2)".to_string().into_boxed_str()).unwrap();
    let chunk = p.compile().unwrap();
    assert_eq!(chunk.instructions.len(), 5);
}

#[test]
fn too_many_registers_aborts() {
    let mut src = String::new();
    for _ in 0..300 {
        src.push_str("1+(");
    }
    src.push('1');
    for _ in 0..300 {
        src.push(')');
    }
    let p = Parser::init(src.into_boxed_str()).unwrap();
    assert!(p.try_compile().is_none());
}
