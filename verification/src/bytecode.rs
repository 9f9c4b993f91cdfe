use vstd::prelude::*;
use vstd::string::*;

use crate::error::{ErrorType, ErrorView, LangError};
use crate::text::{decimal, pad_left, pad_right, push_padded_decimal};
use crate::token::{token_text, LangToken, TokenType};

verus! {

/// One instruction of the register machine, packed into 32 bits:
///
/// ```text
/// [opcode] [   x  ] [   y  ] [   z  ]
/// 12345678 12345678 12345678 12345678
/// ```
///
/// `y` and `z` together may also be read as one 16-bit operand `yz`.
#[derive(Clone, Copy, Debug)]
pub struct Instruction(u32);

impl View for Instruction {
    type V = u32;

    closed spec fn view(&self) -> u32 {
        self.0
    }
}

/// The opcode byte of an instruction word.
pub open spec fn word_opcode(w: u32) -> u8 {
    (w >> 24) as u8
}

/// The `x` operand byte of an instruction word.
pub open spec fn word_x(w: u32) -> u8 {
    (w >> 16) as u8
}

/// The `y` operand byte of an instruction word.
pub open spec fn word_y(w: u32) -> u8 {
    (w >> 8) as u8
}

/// The `z` operand byte of an instruction word.
pub open spec fn word_z(w: u32) -> u8 {
    w as u8
}

/// The 16-bit operand made of `y` and `z`.
pub open spec fn word_yz(w: u32) -> u16 {
    w as u16
}

/// The word with the given opcode and three operand bytes.
pub open spec fn word_xyz(opcode: u8, x: u8, y: u8, z: u8) -> u32 {
    (opcode as u32) << 24 | (x as u32) << 16 | (y as u32) << 8 | z as u32
}

/// The word with the given opcode, `x` byte and 16-bit `yz` operand.
pub open spec fn word_xy(opcode: u8, x: u8, y: u16) -> u32 {
    (opcode as u32) << 24 | (x as u32) << 16 | y as u32
}

impl Instruction {
    pub fn opcode(self) -> (r: u8)
        ensures
            r == word_opcode(self@),
    {
        (self.0 >> 24) as u8
    }

    pub fn x(self) -> (r: u8)
        ensures
            r == word_x(self@),
    {
        (self.0 >> 16) as u8
    }

    pub fn y(self) -> (r: u8)
        ensures
            r == word_y(self@),
    {
        (self.0 >> 8) as u8
    }

    pub fn z(self) -> (r: u8)
        ensures
            r == word_z(self@),
    {
        self.0 as u8
    }

    pub fn yz(self) -> (r: u16)
        ensures
            r == word_yz(self@),
    {
        self.0 as u16
    }

    /// Opcode with three operand bytes.
    pub fn make_xyz(opcode: u8, x: u8, y: u8, z: u8) -> (i: Instruction)
        ensures
            i@ == word_xyz(opcode, x, y, z),
    {
        Instruction((opcode as u32) << 24 | (x as u32) << 16 | (y as u32) << 8 | z as u32)
    }

    /// Opcode with one operand byte and one 16-bit operand.
    pub fn make_xy(opcode: u8, x: u8, y: u16) -> (i: Instruction)
        ensures
            i@ == word_xy(opcode, x, y),
    {
        Instruction((opcode as u32) << 24 | (x as u32) << 16 | y as u32)
    }

    /// Opcode with `x` given both as `x` and as `y`; `z` is zero.
    pub fn make_xx(opcode: u8, x: u8) -> (i: Instruction)
        ensures
            i@ == word_xyz(opcode, x, x, 0),
    {
        let i = Instruction((opcode as u32) << 24 | (x as u32) << 16 | (x as u32) << 8);
        assert(((opcode as u32) << 24 | (x as u32) << 16 | (x as u32) << 8) == ((opcode as u32)
            << 24 | (x as u32) << 16 | (x as u32) << 8 | 0u8 as u32)) by (bit_vector);
        i
    }

    /// Opcode with one operand byte; `y` and `z` are zero.
    pub fn make_x(opcode: u8, x: u8) -> (i: Instruction)
        ensures
            i@ == word_xyz(opcode, x, 0, 0),
    {
        let i = Instruction((opcode as u32) << 24 | (x as u32) << 16);
        assert(((opcode as u32) << 24 | (x as u32) << 16) == ((opcode as u32) << 24 | (x as u32)
            << 16 | (0u8 as u32) << 8 | 0u8 as u32)) by (bit_vector);
        i
    }
}

/// Reading the fields back from a word built by `make_xyz` gives the bytes it was built from.
pub proof fn lemma_xyz_fields(opcode: u8, x: u8, y: u8, z: u8)
    ensures
        word_opcode(word_xyz(opcode, x, y, z)) == opcode,
        word_x(word_xyz(opcode, x, y, z)) == x,
        word_y(word_xyz(opcode, x, y, z)) == y,
        word_z(word_xyz(opcode, x, y, z)) == z,
        word_yz(word_xyz(opcode, x, y, z)) == (y as u16) * 256 + z as u16,
{
    assert(((((opcode as u32) << 24 | (x as u32) << 16 | (y as u32) << 8 | z as u32) >> 24) as u8)
        == opcode) by (bit_vector);
    assert(((((opcode as u32) << 24 | (x as u32) << 16 | (y as u32) << 8 | z as u32) >> 16) as u8)
        == x) by (bit_vector);
    assert(((((opcode as u32) << 24 | (x as u32) << 16 | (y as u32) << 8 | z as u32) >> 8) as u8)
        == y) by (bit_vector);
    assert((((opcode as u32) << 24 | (x as u32) << 16 | (y as u32) << 8 | z as u32) as u8) == z)
        by (bit_vector);
    assert((((opcode as u32) << 24 | (x as u32) << 16 | (y as u32) << 8 | z as u32) as u16) == (y
        as u16) * 256 + z as u16) by (bit_vector);
}

/// Reading the fields back from a word built by `make_xy` gives the values it was built from.
pub proof fn lemma_xy_fields(opcode: u8, x: u8, y: u16)
    ensures
        word_opcode(word_xy(opcode, x, y)) == opcode,
        word_x(word_xy(opcode, x, y)) == x,
        word_yz(word_xy(opcode, x, y)) == y,
{
    assert(((((opcode as u32) << 24 | (x as u32) << 16 | y as u32) >> 24) as u8) == opcode)
        by (bit_vector);
    assert(((((opcode as u32) << 24 | (x as u32) << 16 | y as u32) >> 16) as u8) == x)
        by (bit_vector);
    assert((((opcode as u32) << 24 | (x as u32) << 16 | y as u32) as u16) == y) by (bit_vector);
}

/// Every word is the packing of its own fields: unpacking loses nothing.
pub proof fn lemma_word_repacks(w: u32)
    ensures
        word_xyz(word_opcode(w), word_x(w), word_y(w), word_z(w)) == w,
        word_xy(word_opcode(w), word_x(w), word_yz(w)) == w,
{
    assert((((w >> 24) as u8) as u32) << 24 | (((w >> 16) as u8) as u32) << 16 | (((w >> 8) as u8)
        as u32) << 8 | ((w as u8) as u32) == w) by (bit_vector);
    assert((((w >> 24) as u8) as u32) << 24 | (((w >> 16) as u8) as u32) << 16 | ((w as u16) as u32)
        == w) by (bit_vector);
}

/// The operations of the register machine.
#[derive(Debug, Clone, Copy, PartialEq, Eq, Structural)]
pub enum OpCode {
    Return,
    Load,
    LoadBool,
    LoadNil,
    Add,
    Sub,
    Mul,
    Div,
    Pow,
    Neg,
    Not,
    Equal,
    Lthen,
    Lequal,
}

/// The byte that encodes an opcode.
pub open spec fn opcode_byte(op: OpCode) -> u8 {
    match op {
        OpCode::Return => 0,
        OpCode::Load => 1,
        OpCode::LoadBool => 2,
        OpCode::LoadNil => 3,
        OpCode::Add => 4,
        OpCode::Sub => 5,
        OpCode::Mul => 6,
        OpCode::Div => 7,
        OpCode::Pow => 8,
        OpCode::Neg => 9,
        OpCode::Not => 10,
        OpCode::Equal => 11,
        OpCode::Lthen => 12,
        OpCode::Lequal => 13,
    }
}

/// The opcode that a byte encodes, or the byte itself when it encodes none.
pub open spec fn opcode_of_byte(b: u8) -> Result<OpCode, u8> {
    if b == 0 {
        Ok(OpCode::Return)
    } else if b == 1 {
        Ok(OpCode::Load)
    } else if b == 2 {
        Ok(OpCode::LoadBool)
    } else if b == 3 {
        Ok(OpCode::LoadNil)
    } else if b == 4 {
        Ok(OpCode::Add)
    } else if b == 5 {
        Ok(OpCode::Sub)
    } else if b == 6 {
        Ok(OpCode::Mul)
    } else if b == 7 {
        Ok(OpCode::Div)
    } else if b == 8 {
        Ok(OpCode::Pow)
    } else if b == 9 {
        Ok(OpCode::Neg)
    } else if b == 10 {
        Ok(OpCode::Not)
    } else if b == 11 {
        Ok(OpCode::Equal)
    } else if b == 12 {
        Ok(OpCode::Lthen)
    } else if b == 13 {
        Ok(OpCode::Lequal)
    } else {
        Err(b)
    }
}

/// The name of an opcode as it is shown in a listing.
pub open spec fn opcode_name(op: OpCode) -> Seq<char> {
    match op {
        OpCode::Return => "Return"@,
        OpCode::Load => "Load"@,
        OpCode::LoadBool => "LoadBool"@,
        OpCode::LoadNil => "LoadNil"@,
        OpCode::Add => "Add"@,
        OpCode::Sub => "Sub"@,
        OpCode::Mul => "Mul"@,
        OpCode::Div => "Div"@,
        OpCode::Pow => "Pow"@,
        OpCode::Neg => "Neg"@,
        OpCode::Not => "Not"@,
        OpCode::Equal => "Equal"@,
        OpCode::Lthen => "Lthen"@,
        OpCode::Lequal => "Lequal"@,
    }
}

/// The opcode of a prefix operator token.
pub open spec fn unary_opcode(t: TokenType) -> Option<OpCode> {
    match t {
        TokenType::Minus => Some(OpCode::Neg),
        TokenType::Bang => Some(OpCode::Not),
        _ => None,
    }
}

/// The opcode of an infix operator token; `>` and `>=` share the opcodes of
/// `<` and `<=` (the compiler swaps the operands).
pub open spec fn binary_opcode(t: TokenType) -> Option<OpCode> {
    match t {
        TokenType::Plus => Some(OpCode::Add),
        TokenType::Minus => Some(OpCode::Sub),
        TokenType::Star => Some(OpCode::Mul),
        TokenType::Slash => Some(OpCode::Div),
        TokenType::Caret => Some(OpCode::Pow),
        TokenType::EqEq => Some(OpCode::Equal),
        TokenType::Lthen | TokenType::Gthen => Some(OpCode::Lthen),
        TokenType::LthenEq | TokenType::GthenEq => Some(OpCode::Lequal),
        _ => None,
    }
}

impl OpCode {
    /// The byte that encodes this opcode.
    pub fn to_byte(self) -> (b: u8)
        ensures
            b == opcode_byte(self),
    {
        match self {
            OpCode::Return => 0,
            OpCode::Load => 1,
            OpCode::LoadBool => 2,
            OpCode::LoadNil => 3,
            OpCode::Add => 4,
            OpCode::Sub => 5,
            OpCode::Mul => 6,
            OpCode::Div => 7,
            OpCode::Pow => 8,
            OpCode::Neg => 9,
            OpCode::Not => 10,
            OpCode::Equal => 11,
            OpCode::Lthen => 12,
            OpCode::Lequal => 13,
        }
    }

    /// Decodes an opcode byte; an unknown byte is handed back as the error.
    pub fn try_from(byte: u8) -> (r: Result<OpCode, u8>)
        ensures
            r == opcode_of_byte(byte),
    {
        match byte {
            0 => Ok(OpCode::Return),
            1 => Ok(OpCode::Load),
            2 => Ok(OpCode::LoadBool),
            3 => Ok(OpCode::LoadNil),
            4 => Ok(OpCode::Add),
            5 => Ok(OpCode::Sub),
            6 => Ok(OpCode::Mul),
            7 => Ok(OpCode::Div),
            8 => Ok(OpCode::Pow),
            9 => Ok(OpCode::Neg),
            10 => Ok(OpCode::Not),
            11 => Ok(OpCode::Equal),
            12 => Ok(OpCode::Lthen),
            13 => Ok(OpCode::Lequal),
            unknown => Err(unknown),
        }
    }

    /// The name of this opcode as it is shown in a listing.
    pub fn name(&self) -> (s: &'static str)
        ensures
            s@ == opcode_name(*self),
    {
        match self {
            OpCode::Return => "Return",
            OpCode::Load => "Load",
            OpCode::LoadBool => "LoadBool",
            OpCode::LoadNil => "LoadNil",
            OpCode::Add => "Add",
            OpCode::Sub => "Sub",
            OpCode::Mul => "Mul",
            OpCode::Div => "Div",
            OpCode::Pow => "Pow",
            OpCode::Neg => "Neg",
            OpCode::Not => "Not",
            OpCode::Equal => "Equal",
            OpCode::Lthen => "Lthen",
            OpCode::Lequal => "Lequal",
        }
    }

    /// The number of characters in [`OpCode::name`].
    pub fn name_len(&self) -> (n: usize)
        ensures
            n == opcode_name(*self).len(),
    {
        proof {
            reveal_strlit("Return");
            reveal_strlit("Load");
            reveal_strlit("LoadBool");
            reveal_strlit("LoadNil");
            reveal_strlit("Add");
            reveal_strlit("Sub");
            reveal_strlit("Mul");
            reveal_strlit("Div");
            reveal_strlit("Pow");
            reveal_strlit("Neg");
            reveal_strlit("Not");
            reveal_strlit("Equal");
            reveal_strlit("Lthen");
            reveal_strlit("Lequal");
        }
        match self {
            OpCode::Return => 6,
            OpCode::Load => 4,
            OpCode::LoadBool => 8,
            OpCode::LoadNil => 7,
            OpCode::Add => 3,
            OpCode::Sub => 3,
            OpCode::Mul => 3,
            OpCode::Div => 3,
            OpCode::Pow => 3,
            OpCode::Neg => 3,
            OpCode::Not => 3,
            OpCode::Equal => 5,
            OpCode::Lthen => 5,
            OpCode::Lequal => 6,
        }
    }

    /// Converts a prefix operator to its opcode: `-` is `Neg`, `!` is `Not`;
    /// any other token is a compile error at the token.
    pub fn un_op2opcode(op: &LangToken) -> (r: Result<OpCode, LangError>)
        ensures
            match r {
                Ok(code) => unary_opcode(op.ttype) == Some(code),
                Err(e) => unary_opcode(op.ttype) is None && e@ == (ErrorView {
                    span: op.tspan,
                    msg: "Failed to convert unary operator '"@ + token_text(op.ttype)
                        + "' to bytecode"@,
                    etype: ErrorType::CompileError,
                }),
            },
    {
        match op.ttype {
            TokenType::Minus => Ok(OpCode::Neg),
            TokenType::Bang => Ok(OpCode::Not),
            _ => {
                let mut msg = String::from_str("Failed to convert unary operator '");
                msg.append(op.ttype.as_str());
                msg.append("' to bytecode");
                Err(LangError::compile(op.tspan, msg))
            },
        }
    }

    /// Converts an infix operator to its opcode (see [`binary_opcode`]);
    /// any other token is a compile error at the token.
    pub fn bin_op2opcode(op: &LangToken) -> (r: Result<OpCode, LangError>)
        ensures
            match r {
                Ok(code) => binary_opcode(op.ttype) == Some(code),
                Err(e) => binary_opcode(op.ttype) is None && e@ == (ErrorView {
                    span: op.tspan,
                    msg: "Failed to convert binary operator '"@ + token_text(op.ttype)
                        + "' to bytecode"@,
                    etype: ErrorType::CompileError,
                }),
            },
    {
        match op.ttype {
            TokenType::Plus => Ok(OpCode::Add),
            TokenType::Minus => Ok(OpCode::Sub),
            TokenType::Star => Ok(OpCode::Mul),
            TokenType::Slash => Ok(OpCode::Div),
            TokenType::Caret => Ok(OpCode::Pow),
            TokenType::EqEq => Ok(OpCode::Equal),
            TokenType::Lthen | TokenType::Gthen => Ok(OpCode::Lthen),
            TokenType::LthenEq | TokenType::GthenEq => Ok(OpCode::Lequal),
            _ => {
                let mut msg = String::from_str("Failed to convert binary operator '");
                msg.append(op.ttype.as_str());
                msg.append("' to bytecode");
                Err(LangError::compile(op.tspan, msg))
            },
        }
    }
}

/// Decoding the byte of an opcode gives the opcode back.
pub proof fn lemma_opcode_byte_roundtrip(op: OpCode)
    ensures
        opcode_of_byte(opcode_byte(op)) == Ok::<OpCode, u8>(op),
{
}

/// A byte decodes to an opcode exactly when it is at most 13, and then it is
/// that opcode's byte.
pub proof fn lemma_opcode_decode(b: u8)
    ensures
        opcode_of_byte(b) is Ok <==> b <= 13,
        opcode_of_byte(b) matches Ok(op) ==> opcode_byte(op) == b,
        opcode_of_byte(b) matches Err(e) ==> e == b,
{
}

/// How an instruction word is listed: the opcode name padded to eight columns,
/// then the operands right-aligned in three columns each, then `;`.
/// A `Load` shows `x` and `yz`; every other opcode shows `x`, `y` and `z`.
pub open spec fn listing(op: OpCode, w: u32) -> Seq<char> {
    if op == OpCode::Load {
        pad_right(opcode_name(op), 8) + " "@ + pad_left(decimal(word_x(w) as nat), 3) + " "@
            + pad_left(decimal(word_yz(w) as nat), 3) + ";"@
    } else {
        pad_right(opcode_name(op), 8) + " "@ + pad_left(decimal(word_x(w) as nat), 3) + " "@
            + pad_left(decimal(word_y(w) as nat), 3) + " "@ + pad_left(
            decimal(word_z(w) as nat),
            3,
        ) + ";"@
    }
}

impl Instruction {
    /// The text of this instruction in a listing (see [`listing`]).
    /// The opcode byte must be a known opcode.
    pub fn to_string(&self) -> (s: String)
        requires
            opcode_of_byte(word_opcode(self@)) is Ok,
        ensures
            s@ == listing(opcode_of_byte(word_opcode(self@))->Ok_0, self@),
    {
        let op = match OpCode::try_from(self.opcode()) {
            Ok(op) => op,
            Err(_) => {
                assert(false);
                OpCode::Return
            },
        };
        let mut s = String::new();
        crate::text::push_padded_right(&mut s, op.name(), op.name_len(), 8);
        s.append(" ");
        push_padded_decimal(&mut s, self.x() as u32, 3);
        s.append(" ");
        if op == OpCode::Load {
            push_padded_decimal(&mut s, self.yz() as u32, 3);
        } else {
            push_padded_decimal(&mut s, self.y() as u32, 3);
            s.append(" ");
            push_padded_decimal(&mut s, self.z() as u32, 3);
        }
        s.append(";");
        s
    }
}

} // verus!
