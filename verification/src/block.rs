//! Chunks of bytecode, and what it means for a chunk to be complete: its
//! operands fit its constants, its jumps land in it, and a typing gives
//! the depth of the stack at each of its instructions.
use vstd::prelude::*;
use std::rc::Rc;
use crate::objects::LoxString;
use crate::op::OpCode;
use crate::value::Value;

verus! {

/// The most constants that one chunk can hold: an instruction names a
/// constant by one byte.
pub const MAX_CONSTANTS: usize = 256;

/// A chunk of bytecode: the instructions, the source line of each, and the
/// pool of constants that the instructions refer to.
#[derive(Debug)]
pub struct Block {
    pub code: Vec<OpCode>,
    pub constants: Vec<Value>,
    pub lines: Vec<u16>,
}

/// How many values an instruction needs on the stack of its call.
pub open spec fn takes(op: OpCode) -> int {
    match op {
        OpCode::Pop | OpCode::DefGlobal(_) | OpCode::SetGlobal(_) | OpCode::SetLocal(_) => 1,
        OpCode::Not | OpCode::Negate | OpCode::Print => 1,
        OpCode::JumpIfFalse(_) | OpCode::Return => 1,
        OpCode::Equal | OpCode::Greater | OpCode::Less => 2,
        OpCode::Add | OpCode::Subtract | OpCode::Multiply | OpCode::Divide => 2,
        OpCode::Call(n) => n + 1,
        _ => 0,
    }
}

/// By how many values an instruction lets the stack of its call grow,
/// where execution goes on with the next instruction.
pub open spec fn grows(op: OpCode) -> int {
    match op {
        OpCode::Constant(_) | OpCode::Nil | OpCode::True | OpCode::False => 1,
        OpCode::GetLocal(_) | OpCode::GetGlobal(_) => 1,
        OpCode::Pop | OpCode::DefGlobal(_) | OpCode::Print => -1,
        OpCode::Equal | OpCode::Greater | OpCode::Less => -1,
        OpCode::Add | OpCode::Subtract | OpCode::Multiply | OpCode::Divide => -1,
        OpCode::Call(n) => -n,
        _ => 0,
    }
}

/// Whether execution can go on with the next instruction.
pub open spec fn falls_through(op: OpCode) -> bool {
    !(op is Jump || op is Loop || op is Return)
}

/// Whether an instruction at index `at` fits the heights: `heights[i]` is
/// the number of values that the running call has on the stack before
/// instruction `i`. The values that the instruction takes are there, a
/// local that it names is among them, and the next instruction finds as
/// many values as this one leaves.
pub open spec fn steps(op: OpCode, at: int, heights: Seq<int>) -> bool {
    &&& (takes(op) > 0 ==> heights[at] >= takes(op))
    &&& (op matches OpCode::GetLocal(slot) ==> slot < heights[at])
    &&& (op matches OpCode::SetLocal(slot) ==> slot < heights[at])
    &&& (falls_through(op) ==> heights[at + 1] == heights[at] + grows(op))
}

/// Whether an instruction that stands at index `at` of a chunk of `len`
/// instructions jumps, if it jumps at all, to an instruction of the chunk
/// or to the end of the chunk, where the next instruction will stand.
pub open spec fn lands(op: OpCode, at: int, len: int) -> bool {
    op.is_jump() ==> 0 <= op.target(at) <= len
}

/// Whether every jump from index `from` up to index `to` lands in the
/// code or at its end.
pub open spec fn jumps_land(code: Seq<OpCode>, from: int, to: int) -> bool {
    forall|i: int|
        from <= i < to && 0 <= i < code.len() ==> lands(#[trigger] code[i], i, code.len() as int)
}

/// Whether an instruction at index `at`, if it jumps, finds as many
/// values on the stack where it lands as there are where it stands.
pub open spec fn levels(op: OpCode, at: int, heights: Seq<int>) -> bool {
    op.is_jump() ==> 0 <= op.target(at) < heights.len() && heights[op.target(at)] == heights[at]
}

/// Whether the heights tell for every instruction of the code how many
/// values the running call has on the stack before it, in whatever way
/// execution has come there: a call of a function of that arity starts
/// with the function and its arguments, every instruction finds the
/// values that it takes, and the instruction that is executed next finds
/// as many values as the heights say.
pub open spec fn typing(code: Seq<OpCode>, heights: Seq<int>, arity: int) -> bool {
    &&& heights.len() == code.len() + 1
    &&& heights[0] == arity + 1
    &&& forall|i: int|
        0 <= i < code.len() ==> steps(#[trigger] code[i], i, heights) && levels(
            code[i],
            i,
            heights,
        )
}

/// Whether the code has a typing: the depth of the stack at each
/// instruction is known before the code runs.
pub open spec fn typed(code: Seq<OpCode>, arity: int) -> bool {
    exists|heights: Seq<int>| typing(code, heights, arity)
}

/// Whether the constant that the instruction names exists, and is a
/// string where the instruction takes it for the name of a global.
pub open spec fn operand_fits(op: OpCode, constants: Seq<Value>) -> bool {
    match op {
        OpCode::Constant(k) => k < constants.len(),
        OpCode::GetGlobal(k) => k < constants.len() && constants[k as int] is String,
        OpCode::DefGlobal(k) => k < constants.len() && constants[k as int] is String,
        OpCode::SetGlobal(k) => k < constants.len() && constants[k as int] is String,
        _ => true,
    }
}

impl Block {
    /// Every instruction has its line.
    pub open spec fn wf(&self) -> bool {
        self.code@.len() == self.lines@.len()
    }

    /// Every instruction that names a constant names one that exists and
    /// has the kind that the instruction needs.
    pub open spec fn operands_fit(&self) -> bool {
        forall|i: int|
            0 <= i < self.code@.len() ==> operand_fits(#[trigger] self.code@[i], self.constants@)
    }

    /// The chunk is complete: it is well formed, its pool is not too
    /// large, its operands fit, every jump lands on an instruction of the
    /// chunk, and the last instruction is a return, so that execution
    /// never runs off the end.
    pub open spec fn sound(&self) -> bool {
        &&& self.wf()
        &&& self.constants@.len() <= MAX_CONSTANTS
        &&& self.operands_fit()
        &&& self.code@.len() > 0
        &&& self.code@.last() == OpCode::Return
        &&& forall|i: int|
            0 <= i < self.code@.len() && (#[trigger] self.code@[i]).is_jump() ==> 0
                <= self.code@[i].target(i) < self.code@.len()
    }

    /// An empty chunk.
    pub fn new() -> (b: Block)
        ensures
            b.code@ == Seq::<OpCode>::empty(),
            b.constants@ == Seq::<Value>::empty(),
            b.lines@ == Seq::<u16>::empty(),
            b.wf(),
    {
        Block { code: Vec::new(), constants: Vec::new(), lines: Vec::new() }
    }

    /// Appends an instruction that stems from the given source line, and
    /// returns its index.
    pub fn write(&mut self, byte: OpCode, line: u16) -> (index: usize)
        ensures
            final(self).code@ == old(self).code@.push(byte),
            final(self).lines@ == old(self).lines@.push(line),
            final(self).constants == old(self).constants,
            index == old(self).code@.len(),
    {
        let index: usize = self.code.len();
        self.code.push(byte);
        self.lines.push(line);
        index
    }

    /// Adds a constant to the pool and returns its index, unless the pool
    /// is full: then nothing changes and the result is `None`.
    pub fn add_constant(&mut self, value: Value) -> (index: Option<u8>)
        ensures
            final(self).code == old(self).code,
            final(self).lines == old(self).lines,
            old(self).constants@.len() < MAX_CONSTANTS ==> index == Some(
                old(self).constants@.len() as u8,
            ) && final(self).constants@ == old(self).constants@.push(value),
            old(self).constants@.len() >= MAX_CONSTANTS ==> index.is_none()
                && final(self).constants == old(self).constants,
    {
        let index: usize = self.constants.len();
        if index >= MAX_CONSTANTS {
            return None;
        }
        self.constants.push(value);
        Some(index as u8)
    }

    /// The constant at `index`.
    pub fn read_constant(&self, index: u8) -> (value: &Value)
        requires
            index < self.constants@.len(),
        ensures
            *value == self.constants@[index as int],
    {
        &self.constants[index as usize]
    }

    /// The constant at `index`, which must be a string.
    pub fn read_string(&self, index: u8) -> (s: Rc<LoxString>)
        requires
            index < self.constants@.len(),
            self.constants@[index as int] is String,
        ensures
            Value::String(s) == self.constants@[index as int],
    {
        match self.read_constant(index) {
            Value::String(s) => s.clone(),
            _ => {
                proof {
                    assert(false);
                }
                LoxString::from_bytes(&[])
            },
        }
    }

    /// The constant at `index` if there is one and it is a string.
    pub fn string_at(&self, index: u8) -> (s: Option<Rc<LoxString>>)
        ensures
            s == if index < self.constants@.len() && self.constants@[index as int] is String {
                Some(self.constants@[index as int]->String_0)
            } else {
                None
            },
    {
        if (index as usize) < self.constants.len() {
            match &self.constants[index as usize] {
                Value::String(s) => Some(s.clone()),
                _ => None,
            }
        } else {
            None
        }
    }
}

} // verus!
