use vstd::prelude::*;

use crate::bytecode::{opcode_byte, opcode_of_byte, word_opcode, word_yz, Instruction, OpCode};
use crate::span::Span;
use crate::value::Value;

verus! {

/// Every `Load` in `code` names a constant below `n_constants`.
pub open spec fn loads_in_range(code: Seq<u32>, n_constants: int) -> bool {
    forall|i: int|
        0 <= i < code.len() && word_opcode(#[trigger] code[i]) == opcode_byte(OpCode::Load) ==> (
        word_yz(code[i]) as int) < n_constants
}

/// Every word of `code` has a known opcode.
pub open spec fn opcodes_known(code: Seq<u32>) -> bool {
    forall|i: int| 0 <= i < code.len() ==> opcode_of_byte(word_opcode(#[trigger] code[i])) is Ok
}

/// A compiled program: the instructions, the constants they load, and for
/// each instruction the span of source it was compiled from.
#[derive(Debug)]
pub struct Chunk<N> {
    /// Opcodes and register indices.
    pub instructions: Vec<Instruction>,
    /// Values loaded from the source.
    pub constants: Vec<Value<N>>,
    /// The span of each instruction, at the same index.
    pub ispan: Vec<Span>,
}

impl<N> Chunk<N> {
    /// The instruction words, in order.
    pub open spec fn code(&self) -> Seq<u32> {
        self.instructions@.map_values(|i: Instruction| i@)
    }

    /// Every instruction has its span.
    pub open spec fn wf(&self) -> bool {
        self.instructions@.len() == self.ispan@.len()
    }

    /// The span of the instruction at `i`, or the zero span when there is none.
    pub open spec fn span_at(&self, i: int) -> Span {
        if 0 <= i < self.ispan@.len() {
            self.ispan@[i]
        } else {
            Span(0, 0)
        }
    }

    /// An empty chunk.
    pub fn init() -> (c: Chunk<N>)
        ensures
            c.wf(),
            c.instructions@.len() == 0,
            c.constants@.len() == 0,
            c.ispan@.len() == 0,
    {
        Chunk { instructions: Vec::new(), constants: Vec::new(), ispan: Vec::new() }
    }

    /// Adds a constant and returns its index (truncated to 16 bits), with
    /// which a `Load` instruction can later load it into a register.
    pub fn add_constant(&mut self, constant: Value<N>) -> (idx: u16)
        ensures
            final(self).constants@ == old(self).constants@.push(constant),
            final(self).instructions@ == old(self).instructions@,
            final(self).ispan@ == old(self).ispan@,
            idx == old(self).constants@.len() as u16,
    {
        self.constants.push(constant);
        (self.constants.len() - 1) as u16
    }

    /// Appends an instruction together with its span.
    pub fn add_instruction(&mut self, instruction: Instruction, pos: Span)
        ensures
            final(self).instructions@ == old(self).instructions@.push(instruction),
            final(self).ispan@ == old(self).ispan@.push(pos),
            final(self).constants@ == old(self).constants@,
            old(self).wf() ==> final(self).wf(),
    {
        self.instructions.push(instruction);
        self.ispan.push(pos);
    }

    /// The span of the instruction at `instr_indx`, or the zero span when there is none.
    pub fn get_span(&self, instr_indx: usize) -> (s: Span)
        ensures
            s == self.span_at(instr_indx as int),
    {
        if instr_indx < self.ispan.len() {
            self.ispan[instr_indx]
        } else {
            Span::zero()
        }
    }
}

} // verus!
