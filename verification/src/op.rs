//! The instructions of the virtual machine.
use vstd::prelude::*;

verus! {

/// One instruction of the virtual machine. Operands are part of the
/// instruction, so every index into a chunk's code is the start of one.
#[derive(Debug, Clone, Copy, PartialEq, Eq, Structural)]
pub enum OpCode {
    /// Push the constant at this index of the pool.
    Constant(u8),
    Nil,
    True,
    False,
    Pop,
    /// Push the local in this slot of the running frame.
    GetLocal(u8),
    /// Store the top of the stack in this slot, without popping it.
    SetLocal(u8),
    /// Push the global named by the constant at this index.
    GetGlobal(u8),
    /// Pop the top of the stack into the global named by this constant.
    DefGlobal(u8),
    /// Store the top of the stack in an existing global, without popping it.
    SetGlobal(u8),
    Equal,
    Greater,
    Less,
    Add,
    Subtract,
    Multiply,
    Divide,
    Not,
    Negate,
    Print,
    /// Move forward by this many instructions.
    Jump(u16),
    /// Move forward by this many instructions if the top of the stack is
    /// falsey; the top stays where it is.
    JumpIfFalse(u16),
    /// Move back to the instruction this many places before this one.
    Loop(u16),
    /// Call the value that lies under this many arguments.
    Call(u8),
    Return,
}

impl OpCode {
    /// Whether the instruction carries a jump distance.
    pub open spec fn is_jump(self) -> bool {
        self is Jump || self is JumpIfFalse || self is Loop
    }

    /// Whether the instruction is a forward jump, the kind that is emitted
    /// with a placeholder and patched later.
    pub open spec fn is_forward_jump(self) -> bool {
        self is Jump || self is JumpIfFalse
    }

    /// The index that control reaches when the instruction at `at` jumps:
    /// a forward jump lands `distance` past the next instruction, a loop
    /// lands `distance` before itself. For any other instruction, the next
    /// one.
    pub open spec fn target(self, at: int) -> int {
        match self {
            OpCode::Jump(d) => at + 1 + d,
            OpCode::JumpIfFalse(d) => at + 1 + d,
            OpCode::Loop(d) => at - d,
            _ => at + 1,
        }
    }
}

} // verus!
