use lib::vm::Effect;
use lib::{Chunk, ErrorType, Instruction, OpCode, Parser, Span, Value, VM};

/// Compiles `src` and turns each number literal into its value.
fn compile_numbers(src: &str) -> Chunk<f64> {
    let parser = Parser::init(src.to_string().into_boxed_str()).unwrap();
    let chunk = parser.compile().unwrap();
    let constants = chunk
        .constants
        .iter()
        .map(|c| match *c {
            Value::Num(s) => Value::Num(src[s.start()..s.end()].parse::<f64>().unwrap()),
            Value::Bool(b) => Value::Bool(b),
            Value::NIL => Value::NIL,
        })
        .collect();
    Chunk { instructions: chunk.instructions, constants, ispan: chunk.ispan }
}

fn numeric(op: OpCode, a: f64, b: f64) -> Value<f64> {
    match op {
        OpCode::Add => Value::Num(a + b),
        OpCode::Sub => Value::Num(a - b),
        OpCode::Mul => Value::Num(a * b),
        OpCode::Div => Value::Num(a / b),
        OpCode::Neg => Value::Num(-a),
        OpCode::Pow => Value::Num(a.powf(b)),
        OpCode::Equal => Value::Bool(a == b),
        OpCode::Lthen => Value::Bool(a < b),
        OpCode::Lequal => Value::Bool(a <= b),
        _ => panic!("not numeric"),
    }
}

/// Runs a chunk; the numeric work is done here, as a caller of the machine does.
fn run(chunk: &Chunk<f64>) -> Result<Value<f64>, String> {
    let mut vm: VM<f64> = VM::init();
    while vm.ip() < chunk.instructions.len() {
        assert!(vm.can_run(chunk));
        match vm.exec_current_instr(chunk) {
            Ok(Effect::Numeric { op, dest, lhs, rhs }) => vm.store(dest, numeric(op, lhs, rhs)),
            Ok(Effect::Mismatch { op, .. }) => return Err(format!("mismatch in {:?}", op)),
            Ok(_) => {}
            Err(e) => return Err(e.message().to_string()),
        }
        vm.advance();
    }
    Ok(vm.register(0))
}

fn num(v: Value<f64>) -> f64 {
    match v {
        Value::Num(n) => n,
        other => panic!("expected a number, got {:?}", other),
    }
}

fn boolean(v: Value<f64>) -> bool {
    match v {
        Value::Bool(b) => b,
        other => panic!("expected a boolean, got {:?}", other),
    }
}

#[test]
fn arithmetic_results() {
    assert_eq!(num(run(&compile_numbers("2 + 2")).unwrap()), 4.0);
    assert_eq!(num(run(&compile_numbers("2 + 2 * 2")).unwrap()), 6.0);
    assert_eq!(num(run(&compile_numbers("2 * 2 + 2")).unwrap()), 6.0);
    assert_eq!(num(run(&compile_numbers("(2 + 2) * 4")).unwrap()), 16.0);
    assert_eq!(num(run(&compile_numbers("10 - 4 - 3")).unwrap()), 3.0);
    assert_eq!(num(run(&compile_numbers("1 + 2^10")).unwrap()), 1025.0);
}

#[test]
fn comparison_results() {
    assert!(boolean(run(&compile_numbers("2 + 2 == 4")).unwrap()));
    assert!(boolean(run(&compile_numbers("2 + 2 >= 4")).unwrap()));
    assert!(boolean(run(&compile_numbers("--2 + --2 >= 4")).unwrap()));
    assert!(boolean(run(&compile_numbers("(2 + 3 == 5) == true")).unwrap()));
    assert!(boolean(run(&compile_numbers("false == !true")).unwrap()));
    assert!(!boolean(run(&compile_numbers("3 > 5")).unwrap()));
    assert!(boolean(run(&compile_numbers("3 < 5")).unwrap()));
}

#[test]
fn not_of_values() {
    assert!(!boolean(run(&compile_numbers("!5")).unwrap()));
    assert!(boolean(run(&compile_numbers("!nil")).unwrap()));
    assert!(!boolean(run(&compile_numbers("!true")).unwrap()));
}

fn chunk_of(instrs: Vec<Instruction>) -> Chunk<f64> {
    let mut c: Chunk<f64> = Chunk::init();
    for (i, ins) in instrs.into_iter().enumerate() {
        c.add_instruction(ins, Span::init(i, 1));
    }
    c
}

#[test]
fn nil_equals_false_only() {
    let c = chunk_of(vec![
        Instruction::make_x(3, 0),
        Instruction::make_xyz(2, 1, 0, 0),
        Instruction::make_xyz(11, 2, 0, 1),
    ]);
    let mut vm: VM<f64> = VM::init();
    for _ in 0..3 {
        vm.exec_current_instr(&c).unwrap();
        vm.advance();
    }
    assert!(boolean(vm.register(2)));
    assert!(matches!(vm.register(0), Value::NIL));
}

#[test]
fn nil_equals_nil_is_an_error() {
    let c = chunk_of(vec![Instruction::make_xyz(11, 2, 0, 1)]);
    let mut vm: VM<f64> = VM::init();
    let e = vm.exec_current_instr(&c).unwrap_err();
    assert_eq!(e.message(), "Invalid '==' comparison");
    assert_eq!(e.error_type(), ErrorType::RuntimeError);
    assert_eq!(e.exit_code(), 70);
    assert_eq!(e.span(), Span::init(0, 1));
}

#[test]
fn comparison_type_errors() {
    let c = chunk_of(vec![Instruction::make_xyz(12, 0, 1, 2)]);
    let mut vm: VM<f64> = VM::init();
    assert_eq!(vm.exec_current_instr(&c).unwrap_err().message(), "Invalid '<' comparison");
    let c = chunk_of(vec![Instruction::make_xyz(13, 0, 1, 2)]);
    assert_eq!(vm.exec_current_instr(&c).unwrap_err().message(), "Invalid '>' comparison");
    let c = chunk_of(vec![Instruction::make_xyz(8, 0, 1, 2)]);
    assert_eq!(vm.exec_current_instr(&c).unwrap_err().message(), "Invalid Exponent: {e}");
}

#[test]
fn unknown_opcode() {
    let c = chunk_of(vec![Instruction::make_xyz(200, 0, 0, 0)]);
    let mut vm: VM<f64> = VM::init();
    let e = vm.exec_current_instr(&c).unwrap_err();
    assert_eq!(e.message(), "Invalid OpCode: 200");
}

#[test]
fn arithmetic_on_booleans_is_a_mismatch() {
    assert_eq!(run(&compile_numbers("true + 1")).unwrap_err(), "mismatch in Add");
    assert_eq!(run(&compile_numbers("-false")).unwrap_err(), "mismatch in Neg");
}

#[test]
fn load_bool_and_return() {
    let c = chunk_of(vec![Instruction::make_xyz(2, 4, 7, 0), Instruction::make_x(0, 4)]);
    let mut vm: VM<f64> = VM::init();
    vm.exec_current_instr(&c).unwrap();
    vm.advance();
    match vm.exec_current_instr(&c).unwrap() {
        Effect::Returned(Value::Bool(true)) => {}
        other => panic!("unexpected {:?}", other),
    }
}

#[test]
fn load_out_of_range_cannot_run() {
    let c = chunk_of(vec![Instruction::make_xy(1, 0, 3)]);
    let vm: VM<f64> = VM::init();
    assert!(!vm.can_run(&c));
}

#[test]
fn reset_clears_registers() {
    let c = chunk_of(vec![Instruction::make_xyz(2, 0, 1, 0)]);
    let mut vm: VM<f64> = VM::init();
    vm.exec_current_instr(&c).unwrap();
    vm.advance();
    vm.reset();
    assert_eq!(vm.ip(), 0);
    assert!(matches!(vm.register(0), Value::NIL));
}
