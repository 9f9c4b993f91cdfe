use lib::{Instruction, LangToken, OpCode, Span, TokenType};

#[test]
fn make_xyz_fields() {
    let i = Instruction::make_xyz(4, 1, 2, 3);
    assert_eq!(i.opcode(), 4);
    assert_eq!(i.x(), 1);
    assert_eq!(i.y(), 2);
    assert_eq!(i.z(), 3);
    assert_eq!(i.yz(), 2 * 256 + 3);
}

#[test]
fn make_xy_fields() {
    let i = Instruction::make_xy(1, 7, 0xBEEF);
    assert_eq!(i.opcode(), 1);
    assert_eq!(i.x(), 7);
    assert_eq!(i.yz(), 0xBEEF);
    assert_eq!(i.y(), 0xBE);
    assert_eq!(i.z(), 0xEF);
}

#[test]
fn make_xx_and_make_x() {
    let i = Instruction::make_xx(9, 5);
    assert_eq!((i.opcode(), i.x(), i.y(), i.z()), (9, 5, 5, 0));
    let j = Instruction::make_x(3, 200);
    assert_eq!((j.opcode(), j.x(), j.y(), j.z()), (3, 200, 0, 0));
}

#[test]
fn opcode_bytes_roundtrip() {
    for b in 0u8..=13 {
        let op = OpCode::try_from(b).unwrap();
        assert_eq!(op.to_byte(), b);
    }
    assert_eq!(OpCode::try_from(14).unwrap_err(), 14);
    assert_eq!(OpCode::try_from(255).unwrap_err(), 255);
    assert_eq!(OpCode::try_from(8).unwrap(), OpCode::Pow);
}

#[test]
fn opcode_names() {
    assert_eq!(OpCode::LoadBool.name(), "LoadBool");
    assert_eq!(OpCode::Lequal.name(), "Lequal");
    assert_eq!(OpCode::Lequal.name_len(), 6);
    assert_eq!(format!("{:?}", OpCode::LoadNil), OpCode::LoadNil.name());
}

fn tok(t: TokenType) -> LangToken {
    LangToken::new(t, Span::init(2, 1))
}

#[test]
fn unary_operators() {
    assert_eq!(OpCode::un_op2opcode(&tok(TokenType::Minus)).unwrap(), OpCode::Neg);
    assert_eq!(OpCode::un_op2opcode(&tok(TokenType::Bang)).unwrap(), OpCode::Not);
    let e = OpCode::un_op2opcode(&tok(TokenType::Plus)).unwrap_err();
    assert_eq!(e.message(), "Failed to convert unary operator '+' to bytecode");
    assert_eq!(e.span(), Span::init(2, 1));
}

#[test]
fn binary_operators() {
    let cases = [
        (TokenType::Plus, OpCode::Add),
        (TokenType::Minus, OpCode::Sub),
        (TokenType::Star, OpCode::Mul),
        (TokenType::Slash, OpCode::Div),
        (TokenType::Caret, OpCode::Pow),
        (TokenType::EqEq, OpCode::Equal),
        (TokenType::Lthen, OpCode::Lthen),
        (TokenType::Gthen, OpCode::Lthen),
        (TokenType::LthenEq, OpCode::Lequal),
        (TokenType::GthenEq, OpCode::Lequal),
    ];
    for (t, op) in cases {
        assert_eq!(OpCode::bin_op2opcode(&tok(t)).unwrap(), op);
    }
    let e = OpCode::bin_op2opcode(&tok(TokenType::BangEq)).unwrap_err();
    assert_eq!(e.message(), "Failed to convert binary operator '!=' to bytecode");
}

#[test]
fn instruction_listing() {
    assert_eq!(Instruction::make_xy(1, 0, 1).to_string(), "Load       0   1;");
    assert_eq!(Instruction::make_xy(1, 12, 300).to_string(), "Load      12 300;");
    assert_eq!(Instruction::make_xy(1, 2, 65535).to_string(), "Load       2 65535;");
    assert_eq!(Instruction::make_xyz(4, 0, 0, 1).to_string(), "Add        0   0   1;");
    assert_eq!(Instruction::make_xyz(2, 255, 1, 0).to_string(), "LoadBool 255   1   0;");
}
