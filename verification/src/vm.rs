use vstd::prelude::*;
use vstd::string::*;

use crate::bytecode::{
    opcode_byte, opcode_of_byte, word_opcode, word_x, word_y, word_yz, word_z, OpCode,
};
use crate::chunk::{loads_in_range, Chunk};
use crate::error::{ErrorType, ErrorView, LangError};
use crate::span::Span;
use crate::text::{decimal, push_decimal};
use crate::value::{is_falsy, Value};

verus! {

/// The number of registers: a register index is one byte.
pub const MAX_REGISTERS: usize = 256;

/// What remains to be done after the machine has executed one instruction.
///
/// The machine itself decides everything that does not depend on how numbers
/// are computed or shown; the rest it hands to its caller.
#[derive(Debug)]
pub enum Effect<N> {
    /// The instruction is complete.
    Stored,
    /// `Return`: the value to show as returned.
    Returned(Value<N>),
    /// `Load`: the constant that was loaded into a register, to show.
    Loaded(Value<N>),
    /// An operation on two numbers (one, twice, for `Neg`): the caller
    /// computes it and stores the result into register `dest`.
    Numeric { op: OpCode, dest: u8, lhs: N, rhs: N },
    /// An arithmetic operation or negation on a value that is not a number:
    /// a runtime error, whose message shows the operand values.
    Mismatch { op: OpCode, left: Value<N>, right: Value<N> },
}

/// One executed instruction: the new registers and what remains to do, or a runtime error.
pub enum Step<N> {
    Next(Seq<Value<N>>, Effect<N>),
    Fault(ErrorView),
}

/// A runtime error with the given span and message.
pub open spec fn runtime_failure(span: Span, msg: Seq<char>) -> ErrorView {
    ErrorView { span, msg, etype: ErrorType::RuntimeError }
}

/// Arithmetic on two registers: numbers go to the caller, anything else is a mismatch.
pub open spec fn arith_step<N>(regs: Seq<Value<N>>, op: OpCode, dest: u8, a: Value<N>, b: Value<N>) -> Step<N> {
    match (a, b) {
        (Value::Num(x), Value::Num(y)) => Step::Next(regs, Effect::Numeric { op, dest, lhs: x, rhs: y }),
        _ => Step::Next(regs, Effect::Mismatch { op, left: a, right: b }),
    }
}

/// Executes the instruction word `w`, whose span is `span`, on the registers
/// `regs` with the constants `constants`.
///
/// `Load x yz` copies constant `yz` into `x`; `LoadBool x y` stores whether
/// `y` is non-zero; `LoadNil x` stores `nil`; `Not x y` stores whether `y` is
/// false or `nil`. `Equal` compares two numbers (by the caller), two booleans,
/// or a boolean with `nil` (which equals `false`); any other pair, `nil` with
/// `nil` too, is an error. `Lthen` and `Lequal` compare numbers only.
/// `Add`, `Sub`, `Mul`, `Div`, `Neg` work on numbers, and `Pow` on two numbers;
/// an unknown opcode is an error.
pub open spec fn step<N>(regs: Seq<Value<N>>, constants: Seq<Value<N>>, w: u32, span: Span) -> Step<N> {
    let x = word_x(w);
    let y = word_y(w);
    let z = word_z(w);
    let a = regs[y as int];
    let b = regs[z as int];
    match opcode_of_byte(word_opcode(w)) {
        Err(code) => Step::Fault(runtime_failure(span, "Invalid OpCode: "@ + decimal(code as nat))),
        Ok(op) => match op {
            OpCode::Return => Step::Next(regs, Effect::Returned(regs[x as int])),
            OpCode::Load => {
                let c = constants[word_yz(w) as int];
                Step::Next(regs.update(x as int, c), Effect::Loaded(c))
            },
            OpCode::LoadBool => Step::Next(regs.update(x as int, Value::Bool(y != 0)), Effect::Stored),
            OpCode::LoadNil => Step::Next(regs.update(x as int, Value::NIL), Effect::Stored),
            OpCode::Add | OpCode::Sub | OpCode::Mul | OpCode::Div => arith_step(regs, op, x, a, b),
            OpCode::Pow => match (a, b) {
                (Value::Num(p), Value::Num(q)) => Step::Next(
                    regs,
                    Effect::Numeric { op, dest: x, lhs: p, rhs: q },
                ),
                _ => Step::Fault(runtime_failure(span, "Invalid Exponent: {e}"@)),
            },
            OpCode::Neg => match a {
                Value::Num(p) => Step::Next(regs, Effect::Numeric { op, dest: x, lhs: p, rhs: p }),
                _ => Step::Next(regs, Effect::Mismatch { op, left: a, right: a }),
            },
            OpCode::Not => Step::Next(regs.update(x as int, Value::Bool(is_falsy(a))), Effect::Stored),
            OpCode::Equal => match (a, b) {
                (Value::Num(p), Value::Num(q)) => Step::Next(
                    regs,
                    Effect::Numeric { op, dest: x, lhs: p, rhs: q },
                ),
                (Value::Bool(i), Value::Bool(j)) => Step::Next(
                    regs.update(x as int, Value::Bool(i == j)),
                    Effect::Stored,
                ),
                (Value::NIL, Value::Bool(i)) => Step::Next(
                    regs.update(x as int, Value::Bool(i == false)),
                    Effect::Stored,
                ),
                (Value::Bool(i), Value::NIL) => Step::Next(
                    regs.update(x as int, Value::Bool(i == false)),
                    Effect::Stored,
                ),
                _ => Step::Fault(runtime_failure(span, "Invalid '==' comparison"@)),
            },
            OpCode::Lthen => match (a, b) {
                (Value::Num(p), Value::Num(q)) => Step::Next(
                    regs,
                    Effect::Numeric { op, dest: x, lhs: p, rhs: q },
                ),
                _ => Step::Fault(runtime_failure(span, "Invalid '<' comparison"@)),
            },
            OpCode::Lequal => match (a, b) {
                (Value::Num(p), Value::Num(q)) => Step::Next(
                    regs,
                    Effect::Numeric { op, dest: x, lhs: p, rhs: q },
                ),
                _ => Step::Fault(runtime_failure(span, "Invalid '>' comparison"@)),
            },
        },
    }
}

/// An instruction changes at most one register, its destination `x`.
pub proof fn lemma_step_writes_only_destination<N>(
    regs: Seq<Value<N>>,
    constants: Seq<Value<N>>,
    w: u32,
    span: Span,
    i: int,
)
    requires
        0 <= i < regs.len(),
        i != word_x(w) as int,
        word_x(w) < regs.len(),
        word_y(w) < regs.len(),
        word_z(w) < regs.len(),
        opcode_of_byte(word_opcode(w)) == Ok::<OpCode, u8>(OpCode::Load) ==> (word_yz(w) as int)
            < constants.len(),
    ensures
        step(regs, constants, w, span) matches Step::Next(regs1, _) ==> regs1.len() == regs.len()
            && regs1[i] == regs[i],
{
}

/// Whether the instruction at `ip` can run: it exists, and a `Load` names an existing constant.
pub open spec fn runnable<N>(chunk: &Chunk<N>, ip: int) -> bool {
    &&& 0 <= ip < chunk.instructions@.len()
    &&& opcode_of_byte(word_opcode(chunk.code()[ip])) == Ok::<OpCode, u8>(OpCode::Load) ==> (word_yz(
        chunk.code()[ip],
    ) as int) < chunk.constants@.len()
}

/// In code whose every `Load` names an existing constant, every instruction can run.
pub proof fn lemma_loads_in_range_runnable<N>(chunk: &Chunk<N>, ip: int)
    requires
        loads_in_range(chunk.code(), chunk.constants@.len() as int),
        0 <= ip < chunk.instructions@.len(),
    ensures
        runnable(chunk, ip),
{
    assert(chunk.code()[ip] == chunk.instructions@[ip]@);
    if opcode_of_byte(word_opcode(chunk.code()[ip])) == Ok::<OpCode, u8>(OpCode::Load) {
        assert(word_opcode(chunk.code()[ip]) == opcode_byte(OpCode::Load));
    }
}

/// The register machine: 256 registers and an instruction pointer.
pub struct VM<N> {
    registers: Vec<Value<N>>,
    ip: usize,
}

impl<N: Copy> VM<N> {
    /// The registers, in order.
    pub closed spec fn regs(&self) -> Seq<Value<N>> {
        self.registers@
    }

    /// The index of the instruction to execute next.
    pub closed spec fn spec_ip(&self) -> int {
        self.ip as int
    }

    /// There are exactly 256 registers, and the instruction pointer is a valid index.
    pub open spec fn wf(&self) -> bool {
        &&& self.regs().len() == MAX_REGISTERS
        &&& 0 <= self.spec_ip() <= usize::MAX
    }

    /// A machine whose registers all hold `nil`, at the first instruction.
    pub fn init() -> (vm: VM<N>)
        ensures
            vm.wf(),
            vm.regs() == Seq::new(MAX_REGISTERS as nat, |i: int| Value::<N>::NIL),
            vm.spec_ip() == 0,
    {
        let mut registers: Vec<Value<N>> = Vec::new();
        let mut i: usize = 0;
        while i < MAX_REGISTERS
            invariant
                i <= MAX_REGISTERS,
                registers@ == Seq::new(i as nat, |k: int| Value::<N>::NIL),
            decreases MAX_REGISTERS - i,
        {
            registers.push(Value::NIL);
            i += 1;
            assert(registers@ =~= Seq::new(i as nat, |k: int| Value::<N>::NIL));
        }
        VM { registers, ip: 0 }
    }

    /// Sets every register back to `nil` and the instruction pointer to 0.
    pub fn reset(&mut self)
        ensures
            final(self).wf(),
            final(self).regs() == Seq::new(MAX_REGISTERS as nat, |i: int| Value::<N>::NIL),
            final(self).spec_ip() == 0,
    {
        *self = VM::init();
    }

    /// The index of the instruction to execute next.
    pub fn ip(&self) -> (r: usize)
        ensures
            r == self.spec_ip(),
    {
        self.ip
    }

    /// Moves on to the next instruction.
    pub fn advance(&mut self)
        requires
            old(self).spec_ip() < usize::MAX,
        ensures
            final(self).spec_ip() == old(self).spec_ip() + 1,
            final(self).regs() == old(self).regs(),
    {
        self.ip += 1;
    }

    /// The value held by register `reg`.
    pub fn register(&self, reg: u8) -> (v: Value<N>)
        requires
            self.wf(),
        ensures
            v == self.regs()[reg as int],
    {
        self.registers[reg as usize]
    }

    /// Stores `v` into register `reg`; used for the results of numeric operations.
    pub fn store(&mut self, reg: u8, v: Value<N>)
        requires
            old(self).wf(),
        ensures
            final(self).wf(),
            final(self).regs() == old(self).regs().update(reg as int, v),
            final(self).spec_ip() == old(self).spec_ip(),
    {
        self.registers.set(reg as usize, v);
    }

    /// Whether the instruction at the instruction pointer can run (see [`runnable`]).
    pub fn can_run(&self, chunk: &Chunk<N>) -> (r: bool)
        ensures
            r == runnable(chunk, self.spec_ip()),
    {
        if self.ip >= chunk.instructions.len() {
            return false;
        }
        let instr = chunk.instructions[self.ip];
        match OpCode::try_from(instr.opcode()) {
            Ok(OpCode::Load) => (instr.yz() as usize) < chunk.constants.len(),
            _ => true,
        }
    }

    fn err_from_str(&self, espan: Span, msg: &str) -> (e: LangError)
        ensures
            e@ == runtime_failure(espan, msg@),
    {
        LangError::runtime(espan, String::from_str(msg))
    }

    fn err_from_string(&self, espan: Span, msg: String) -> (e: LangError)
        ensures
            e@ == runtime_failure(espan, msg@),
    {
        LangError::runtime(espan, msg)
    }

    /// Executes the instruction at the instruction pointer (see [`step`]).
    /// The instruction pointer itself is not moved.
    pub fn exec_current_instr(&mut self, chunk: &Chunk<N>) -> (r: Result<Effect<N>, LangError>)
        requires
            old(self).wf(),
            runnable(chunk, old(self).spec_ip()),
        ensures
            final(self).wf(),
            final(self).spec_ip() == old(self).spec_ip(),
            match step(
                old(self).regs(),
                chunk.constants@,
                chunk.code()[old(self).spec_ip()],
                chunk.span_at(old(self).spec_ip()),
            ) {
                Step::Next(regs, effect) => r == Ok::<Effect<N>, LangError>(effect) && final(self).regs()
                    == regs,
                Step::Fault(e) => r matches Err(err) && err@ == e && final(self).regs() == old(
                    self,
                ).regs(),
            },
    {
        let instr = chunk.instructions[self.ip];
        let span = chunk.get_span(self.ip);
        let x = instr.x();
        let y = instr.y();
        let z = instr.z();
        let a = self.registers[y as usize];
        let b = self.registers[z as usize];
        match OpCode::try_from(instr.opcode()) {
            Ok(OpCode::Return) => Ok(Effect::Returned(self.registers[x as usize])),
            Ok(OpCode::Load) => {
                let c = chunk.constants[instr.yz() as usize];
                self.registers.set(x as usize, c);
                Ok(Effect::Loaded(c))
            },
            Ok(OpCode::LoadBool) => {
                self.registers.set(x as usize, Value::Bool(y != 0));
                Ok(Effect::Stored)
            },
            Ok(OpCode::LoadNil) => {
                self.registers.set(x as usize, Value::NIL);
                Ok(Effect::Stored)
            },
            Ok(OpCode::Add) => Ok(self.arith(OpCode::Add, x, a, b)),
            Ok(OpCode::Sub) => Ok(self.arith(OpCode::Sub, x, a, b)),
            Ok(OpCode::Mul) => Ok(self.arith(OpCode::Mul, x, a, b)),
            Ok(OpCode::Div) => Ok(self.arith(OpCode::Div, x, a, b)),
            Ok(OpCode::Pow) => match (a, b) {
                (Value::Num(p), Value::Num(q)) => Ok(
                    Effect::Numeric { op: OpCode::Pow, dest: x, lhs: p, rhs: q },
                ),
                _ => Err(self.err_from_str(span, "Invalid Exponent: {e}")),
            },
            Ok(OpCode::Neg) => match a {
                Value::Num(p) => Ok(Effect::Numeric { op: OpCode::Neg, dest: x, lhs: p, rhs: p }),
                _ => Ok(Effect::Mismatch { op: OpCode::Neg, left: a, right: a }),
            },
            Ok(OpCode::Not) => {
                self.registers.set(x as usize, Value::Bool(a.invert_val()));
                Ok(Effect::Stored)
            },
            Ok(OpCode::Equal) => {
                let res_bool = match (a, b) {
                    (Value::Num(p), Value::Num(q)) => {
                        return Ok(Effect::Numeric { op: OpCode::Equal, dest: x, lhs: p, rhs: q });
                    },
                    (Value::Bool(i), Value::Bool(j)) => i == j,
                    (Value::NIL, Value::Bool(i)) | (Value::Bool(i), Value::NIL) => i == false,
                    _ => return Err(self.err_from_str(span, "Invalid '==' comparison")),
                };
                self.registers.set(x as usize, Value::Bool(res_bool));
                Ok(Effect::Stored)
            },
            Ok(OpCode::Lthen) => match (a, b) {
                (Value::Num(p), Value::Num(q)) => Ok(
                    Effect::Numeric { op: OpCode::Lthen, dest: x, lhs: p, rhs: q },
                ),
                _ => Err(self.err_from_str(span, "Invalid '<' comparison")),
            },
            Ok(OpCode::Lequal) => match (a, b) {
                (Value::Num(p), Value::Num(q)) => Ok(
                    Effect::Numeric { op: OpCode::Lequal, dest: x, lhs: p, rhs: q },
                ),
                _ => Err(self.err_from_str(span, "Invalid '>' comparison")),
            },
            Err(code) => {
                let mut msg = String::from_str("Invalid OpCode: ");
                push_decimal(&mut msg, code as u32);
                Err(self.err_from_string(span, msg))
            },
        }
    }

    /// Arithmetic on two values: numbers go to the caller, anything else is a mismatch.
    fn arith(&self, op: OpCode, dest: u8, a: Value<N>, b: Value<N>) -> (e: Effect<N>)
        ensures
            Step::Next(self.regs(), e) == arith_step(self.regs(), op, dest, a, b),
    {
        match (a, b) {
            (Value::Num(x), Value::Num(y)) => Effect::Numeric { op, dest, lhs: x, rhs: y },
            _ => Effect::Mismatch { op, left: a, right: b },
        }
    }
}

} // verus!
