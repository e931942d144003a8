//! The virtual machine: the state of a machine as a mathematical value,
//! what one step does to it, and the machine that takes the steps.
//!
//! [`Machine::step`] defines the step. [`VM::step`] is proved to take it.
//! The laws in this module say what holds of every step of a machine that
//! runs code from the compiler: it never leaves its chunk, it finds the
//! stack as deep as the typing of the code says, and it leaves nothing on
//! the stack when the program ends.
use vstd::prelude::*;
use vstd::slice::slice_to_vec;
use vstd::string::StringSliceAdditionalSpecFns;
use std::rc::Rc;
use crate::bytes::{append_bytes, decimal, decimal_digits};
use crate::clock::{lapse, readable, Span, Stopwatch};
use crate::compiler::{compile_with, scope_level};
use crate::grammar::ScopeModel;
use crate::grammar::compiled;
use crate::model::function_model;
use crate::error::{LoxError, TraceLine};
use crate::number::{negate, number_greater, number_less, number_lt, number_neg};
use crate::objects::{fnv1a, Function, LoxString, NativeFunction};
use crate::op::OpCode;
use crate::table::{Key, Table};
use crate::block::{falls_through, grows, levels, steps, takes, typed, typing};
use crate::value::{function_sound, value_eq, Value};

verus! {

/// The most calls that can be active at once.
pub const MAX_FRAMES: usize = 64;

/// The most values that the stack can hold: 256 for every frame.
pub const MAX_STACK: usize = 16384;

/// The number of the native function that the machine registers under
/// the name `clock`.
pub const CLOCK: usize = 0;

/// One active call: the function, the index of its next instruction, and
/// the index on the value stack where its slots start. The first slot
/// holds the function that was called.
#[derive(Debug)]
pub struct CallFrame {
    pub function: Rc<Function>,
    pub ip: usize,
    pub slots: usize,
}

/// Arithmetic on two numbers, which the host of the machine computes.
#[derive(Debug, Clone, Copy, PartialEq, Eq, Structural)]
pub enum Arithmetic {
    Add,
    Subtract,
    Multiply,
    Divide,
}

/// What the host has to do after a step of the machine.
#[derive(Debug)]
pub enum Action {
    /// Nothing: the machine can take its next step.
    Continue,
    /// Nothing: the program has ended.
    Halt,
    /// Print the value and a line feed.
    Print(Value),
    /// Compute the operation on the two numbers, given as bits, and hand
    /// the result to [`VM::resume`].
    Arithmetic(Arithmetic, u64, u64),
    /// Call the native function with the arguments and hand the result
    /// to [`VM::resume`].
    Native(NativeFunction, Vec<Value>),
}

/// An [`Action`] as a mathematical value.
pub enum Effect {
    Continue,
    Halt,
    Print(Value),
    Arithmetic(Arithmetic, u64, u64),
    Native(NativeFunction, Seq<Value>),
}

impl View for Action {
    type V = Effect;

    open spec fn view(&self) -> Effect {
        match self {
            Action::Continue => Effect::Continue,
            Action::Halt => Effect::Halt,
            Action::Print(v) => Effect::Print(*v),
            Action::Arithmetic(op, a, b) => Effect::Arithmetic(*op, *a, *b),
            Action::Native(f, arguments) => Effect::Native(*f, arguments@),
        }
    }
}

/// The state of a machine as a mathematical value: the active calls,
/// outermost first, the value stack, the globals, and whether the
/// machine awaits a result from its host.
pub struct Machine {
    pub frames: Seq<CallFrame>,
    pub stack: Seq<Value>,
    pub globals: Map<Key, Value>,
    pub awaiting: bool,
}

/// The runtime errors. The first group are the errors of programs. The
/// second group are the errors of code that no compiler should emit:
/// code that takes values that were never pushed, names constants or
/// locals that do not exist, or leaves its chunk.
pub enum Fault {
    UndefinedVariable(Seq<u8>),
    Operands,
    AddOperands,
    Operand,
    NotCallable,
    Arity(nat, nat),
    FramesOverflow,
    StackUnderflow,
    StackOverflow,
    NoLocal,
    NoConstant,
    NoName,
    WildJump,
    OffTheEnd,
    Awaiting,
    NothingAwaited,
}

impl Fault {
    /// The message of the error.
    pub open spec fn text(self) -> Seq<u8> {
        match self {
            Fault::UndefinedVariable(name) => "Undefined variable '".spec_bytes() + name
                + "'".spec_bytes(),
            Fault::Operands => "Operands must be numbers".spec_bytes(),
            Fault::AddOperands => "Operands must be two numbers or two strings".spec_bytes(),
            Fault::Operand => "Operand must be a number".spec_bytes(),
            Fault::NotCallable => "Can only call functions".spec_bytes(),
            Fault::Arity(arity, given) => "Expected ".spec_bytes() + decimal_digits(arity)
                + " arguments but got ".spec_bytes() + decimal_digits(given),
            Fault::FramesOverflow => "Stack overflow".spec_bytes(),
            Fault::StackUnderflow => "Stack underflow".spec_bytes(),
            Fault::StackOverflow => "Value stack overflow".spec_bytes(),
            Fault::NoLocal => "No such local".spec_bytes(),
            Fault::NoConstant => "No such constant".spec_bytes(),
            Fault::NoName => "The constant is not a name".spec_bytes(),
            Fault::WildJump => "Jump out of the code".spec_bytes(),
            Fault::OffTheEnd => "Ran off the end of the code".spec_bytes(),
            Fault::Awaiting => "A result is awaited".spec_bytes(),
            Fault::NothingAwaited => "No result is awaited".spec_bytes(),
        }
    }

    /// Whether the error is one of code that leaves its chunk or names a
    /// constant that does not exist or is not of the right kind.
    pub open spec fn malformed(self) -> bool {
        self is NoConstant || self is NoName || self is WildJump || self is OffTheEnd
    }
}

/// What a step of the machine comes to.
pub enum Outcome {
    /// A runtime error; the frames are those that the stack trace lists.
    Fault(Fault, Seq<CallFrame>),
    /// The machine goes to this state, and the host has this to do.
    Goes(Machine, Effect),
    /// The machine goes to this state with a string of this content
    /// pushed on its stack.
    Joins(Machine, Seq<u8>),
}

impl Machine {
    /// The call that is running.
    pub open spec fn frame(self) -> CallFrame {
        self.frames.last()
    }

    /// The code of the function that is running.
    pub open spec fn code(self) -> Seq<OpCode> {
        self.frame().function.block.code@
    }

    /// The constants of the function that is running.
    pub open spec fn constants(self) -> Seq<Value> {
        self.frame().function.block.constants@
    }

    /// Where the slots of the running call start.
    pub open spec fn base(self) -> int {
        self.frame().slots as int
    }

    /// The state with the next instruction of the running call at `ip`.
    pub open spec fn at(self, ip: int) -> Machine {
        Machine {
            frames: self.frames.update(
                self.frames.len() - 1,
                CallFrame {
                    function: self.frame().function,
                    ip: ip as usize,
                    slots: self.frame().slots,
                },
            ),
            ..self
        }
    }

    /// The state with another stack.
    pub open spec fn with_stack(self, stack: Seq<Value>) -> Machine {
        Machine { stack, ..self }
    }

    /// The state after a runtime error: no call is active and the stack
    /// is empty; the globals stay.
    pub open spec fn reset(self) -> Machine {
        Machine {
            frames: Seq::empty(),
            stack: Seq::empty(),
            globals: self.globals,
            awaiting: false,
        }
    }

    /// The state is in order. The stacks are within their bounds. Every
    /// call has its next instruction within its code or at its end, and
    /// its slots start where those of its caller start or above. The
    /// slots of the outermost call start at the bottom of the stack,
    /// those of the running call within the stack. Without a call the
    /// stack is empty. While a result is awaited there is room for it.
    pub open spec fn sane(self) -> bool {
        &&& self.frames.len() <= MAX_FRAMES
        &&& self.stack.len() <= MAX_STACK
        &&& forall|i: int|
            0 <= i < self.frames.len() ==> (#[trigger] self.frames[i]).ip
                <= self.frames[i].function.block.code@.len()
        &&& forall|i: int, j: int|
            0 <= i < j < self.frames.len() ==> (#[trigger] self.frames[i]).slots <= (
            #[trigger] self.frames[j]).slots
        &&& self.frames.len() > 0 ==> self.frames[0].slots == 0 && self.frame().slots
            <= self.stack.len()
        &&& self.frames.len() == 0 ==> self.stack.len() == 0
        &&& self.awaiting ==> self.frames.len() > 0 && self.stack.len() < MAX_STACK
    }

    /// The string that the constant at `k` holds, if it holds one.
    pub open spec fn name_at(self, k: u8) -> Option<Rc<LoxString>> {
        if k < self.constants().len() && self.constants()[k as int] is String {
            Some(self.constants()[k as int]->String_0)
        } else {
            None
        }
    }

    /// What pushing a value comes to.
    pub open spec fn push(self, value: Value) -> Outcome {
        if self.stack.len() >= MAX_STACK {
            Outcome::Fault(Fault::StackOverflow, self.frames)
        } else {
            Outcome::Goes(self.with_stack(self.stack.push(value)), Effect::Continue)
        }
    }

    /// The stack without its top two values.
    pub open spec fn under_two(self) -> Seq<Value> {
        self.stack.take(self.stack.len() - 2)
    }

    /// What calling the value that lies under `n` arguments comes to.
    pub open spec fn call(self, n: u8) -> Outcome {
        if self.stack.len() < self.base() + n + 1 {
            Outcome::Fault(Fault::StackUnderflow, self.frames)
        } else {
            let callee = self.stack.len() - n - 1;
            match self.stack[callee] {
                Value::Function(f) => {
                    if f.arity != n {
                        Outcome::Fault(Fault::Arity(f.arity as nat, n as nat), self.frames)
                    } else if self.frames.len() >= MAX_FRAMES {
                        Outcome::Fault(Fault::FramesOverflow, self.frames)
                    } else {
                        Outcome::Goes(
                            Machine {
                                frames: self.frames.push(
                                    CallFrame { function: f, ip: 0, slots: callee as usize },
                                ),
                                ..self
                            },
                            Effect::Continue,
                        )
                    }
                },
                Value::NativeFunction(f) => Outcome::Goes(
                    Machine { stack: self.stack.take(callee), awaiting: true, ..self },
                    Effect::Native(f, self.stack.skip(callee + 1)),
                ),
                _ => Outcome::Fault(Fault::NotCallable, self.frames),
            }
        }
    }

    /// What returning from the running call comes to: the call is over,
    /// its slots are dropped, and the result is pushed for the caller.
    /// After the outermost call the stack is left empty and the program
    /// has ended.
    pub open spec fn leave(self) -> Outcome {
        if self.stack.len() <= self.base() {
            Outcome::Fault(Fault::StackUnderflow, self.frames)
        } else if self.frames.len() == 1 {
            Outcome::Goes(
                Machine {
                    frames: Seq::empty(),
                    stack: self.stack.take(self.base()),
                    ..self
                },
                Effect::Halt,
            )
        } else {
            Outcome::Goes(
                Machine {
                    frames: self.frames.drop_last(),
                    stack: self.stack.take(self.base()).push(self.stack.last()),
                    ..self
                },
                Effect::Continue,
            )
        }
    }

    /// What an instruction comes to in a state in which it was fetched
    /// already: the next instruction of the running call is the one
    /// after it.
    pub open spec fn execute(self, op: OpCode) -> Outcome {
        let stack = self.stack;
        let top = stack.len() - 1;
        match op {
            OpCode::Constant(k) => if k >= self.constants().len() {
                Outcome::Fault(Fault::NoConstant, self.frames)
            } else {
                self.push(self.constants()[k as int])
            },
            OpCode::Nil => self.push(Value::Nil),
            OpCode::True => self.push(Value::Bool(true)),
            OpCode::False => self.push(Value::Bool(false)),
            OpCode::Pop => if stack.len() <= self.base() {
                Outcome::Fault(Fault::StackUnderflow, self.frames)
            } else {
                Outcome::Goes(self.with_stack(stack.drop_last()), Effect::Continue)
            },
            OpCode::GetLocal(slot) => if self.base() + slot >= stack.len() {
                Outcome::Fault(Fault::NoLocal, self.frames)
            } else {
                self.push(stack[self.base() + slot])
            },
            OpCode::SetLocal(slot) => if self.base() + slot >= stack.len() {
                Outcome::Fault(Fault::NoLocal, self.frames)
            } else {
                Outcome::Goes(
                    self.with_stack(stack.update(self.base() + slot, stack.last())),
                    Effect::Continue,
                )
            },
            OpCode::GetGlobal(k) => match self.name_at(k) {
                None => Outcome::Fault(Fault::NoName, self.frames),
                Some(name) => if self.globals.contains_key(name@) {
                    self.push(self.globals[name@])
                } else {
                    Outcome::Fault(Fault::UndefinedVariable(name.value@), self.frames)
                },
            },
            OpCode::DefGlobal(k) => match self.name_at(k) {
                None => Outcome::Fault(Fault::NoName, self.frames),
                Some(name) => if stack.len() <= self.base() {
                    Outcome::Fault(Fault::StackUnderflow, self.frames)
                } else {
                    Outcome::Goes(
                        Machine {
                            stack: stack.drop_last(),
                            globals: self.globals.insert(name@, stack.last()),
                            ..self
                        },
                        Effect::Continue,
                    )
                },
            },
            OpCode::SetGlobal(k) => match self.name_at(k) {
                None => Outcome::Fault(Fault::NoName, self.frames),
                Some(name) => if stack.len() <= self.base() {
                    Outcome::Fault(Fault::StackUnderflow, self.frames)
                } else if !self.globals.contains_key(name@) {
                    Outcome::Fault(Fault::UndefinedVariable(name.value@), self.frames)
                } else {
                    Outcome::Goes(
                        Machine { globals: self.globals.insert(name@, stack.last()), ..self },
                        Effect::Continue,
                    )
                },
            },
            OpCode::Equal => if stack.len() < self.base() + 2 {
                Outcome::Fault(Fault::StackUnderflow, self.frames)
            } else {
                Outcome::Goes(
                    self.with_stack(
                        self.under_two().push(Value::Bool(value_eq(stack[top - 1], stack[top]))),
                    ),
                    Effect::Continue,
                )
            },
            OpCode::Greater => if stack.len() < self.base() + 2 {
                Outcome::Fault(Fault::StackUnderflow, self.frames)
            } else {
                match (stack[top - 1], stack[top]) {
                    (Value::Number(a), Value::Number(b)) => Outcome::Goes(
                        self.with_stack(self.under_two().push(Value::Bool(number_lt(b, a)))),
                        Effect::Continue,
                    ),
                    _ => Outcome::Fault(Fault::Operands, self.frames),
                }
            },
            OpCode::Less => if stack.len() < self.base() + 2 {
                Outcome::Fault(Fault::StackUnderflow, self.frames)
            } else {
                match (stack[top - 1], stack[top]) {
                    (Value::Number(a), Value::Number(b)) => Outcome::Goes(
                        self.with_stack(self.under_two().push(Value::Bool(number_lt(a, b)))),
                        Effect::Continue,
                    ),
                    _ => Outcome::Fault(Fault::Operands, self.frames),
                }
            },
            OpCode::Add => if stack.len() < self.base() + 2 {
                Outcome::Fault(Fault::StackUnderflow, self.frames)
            } else {
                match (stack[top - 1], stack[top]) {
                    (Value::Number(a), Value::Number(b)) => Outcome::Goes(
                        Machine { stack: self.under_two(), awaiting: true, ..self },
                        Effect::Arithmetic(Arithmetic::Add, a, b),
                    ),
                    (Value::String(a), Value::String(b)) => Outcome::Joins(
                        self.with_stack(self.under_two()),
                        a.value@ + b.value@,
                    ),
                    _ => Outcome::Fault(Fault::AddOperands, self.frames),
                }
            },
            OpCode::Subtract => self.arithmetic(Arithmetic::Subtract),
            OpCode::Multiply => self.arithmetic(Arithmetic::Multiply),
            OpCode::Divide => self.arithmetic(Arithmetic::Divide),
            OpCode::Not => if stack.len() <= self.base() {
                Outcome::Fault(Fault::StackUnderflow, self.frames)
            } else {
                Outcome::Goes(
                    self.with_stack(stack.drop_last().push(Value::Bool(!stack.last().truthy()))),
                    Effect::Continue,
                )
            },
            OpCode::Negate => if stack.len() <= self.base() {
                Outcome::Fault(Fault::StackUnderflow, self.frames)
            } else {
                match stack.last() {
                    Value::Number(a) => Outcome::Goes(
                        self.with_stack(stack.drop_last().push(Value::Number(number_neg(a)))),
                        Effect::Continue,
                    ),
                    _ => Outcome::Fault(Fault::Operand, self.frames),
                }
            },
            OpCode::Print => if stack.len() <= self.base() {
                Outcome::Fault(Fault::StackUnderflow, self.frames)
            } else {
                Outcome::Goes(self.with_stack(stack.drop_last()), Effect::Print(stack.last()))
            },
            OpCode::Jump(d) => if self.frame().ip + d > self.code().len() {
                Outcome::Fault(Fault::WildJump, self.frames)
            } else {
                Outcome::Goes(self.at(self.frame().ip + d), Effect::Continue)
            },
            OpCode::JumpIfFalse(d) => if stack.len() <= self.base() {
                Outcome::Fault(Fault::StackUnderflow, self.frames)
            } else if stack.last().truthy() {
                Outcome::Goes(self, Effect::Continue)
            } else if self.frame().ip + d > self.code().len() {
                Outcome::Fault(Fault::WildJump, self.frames)
            } else {
                Outcome::Goes(self.at(self.frame().ip + d), Effect::Continue)
            },
            OpCode::Loop(d) => if self.frame().ip < d + 1 {
                Outcome::Fault(Fault::WildJump, self.frames)
            } else {
                Outcome::Goes(self.at(self.frame().ip - d - 1), Effect::Continue)
            },
            OpCode::Call(n) => self.call(n),
            OpCode::Return => self.leave(),
        }
    }

    /// What an arithmetic instruction comes to: the host is asked for the
    /// result if both operands are numbers.
    pub open spec fn arithmetic(self, op: Arithmetic) -> Outcome {
        let top = self.stack.len() - 1;
        if self.stack.len() < self.base() + 2 {
            Outcome::Fault(Fault::StackUnderflow, self.frames)
        } else {
            match (self.stack[top - 1], self.stack[top]) {
                (Value::Number(a), Value::Number(b)) => Outcome::Goes(
                    Machine { stack: self.under_two(), awaiting: true, ..self },
                    Effect::Arithmetic(op, a, b),
                ),
                _ => Outcome::Fault(Fault::Operands, self.frames),
            }
        }
    }

    /// What a step comes to. A machine that awaits a result cannot step.
    /// A machine without a call has nothing to do. Else the instruction
    /// of the running call is fetched and executed.
    pub open spec fn step(self) -> Outcome {
        if self.awaiting {
            Outcome::Fault(Fault::Awaiting, self.frames)
        } else if self.frames.len() == 0 {
            Outcome::Goes(self, Effect::Halt)
        } else if self.frame().ip >= self.code().len() {
            Outcome::Fault(Fault::OffTheEnd, self.frames)
        } else {
            self.at(self.frame().ip + 1).execute(self.code()[self.frame().ip as int])
        }
    }
}

/// The line of a stack trace for a call: the source line of the
/// instruction before its next one, and the name of its function.
pub open spec fn trace_line(frame: CallFrame) -> (u16, Seq<u8>) {
    (
        if 0 < frame.ip <= frame.function.block.lines@.len() {
            frame.function.block.lines@[frame.ip - 1]
        } else {
            0u16
        },
        frame.function.name.value@,
    )
}

/// The stack trace for the calls, innermost first.
pub open spec fn trace_of(frames: Seq<CallFrame>) -> Seq<(u16, Seq<u8>)> {
    Seq::new(frames.len(), |i: int| trace_line(frames[frames.len() - 1 - i]))
}

/// Whether a result and a state after a step are what the step should
/// come to.
pub open spec fn realizes(
    result: Result<Action, LoxError>,
    after: Machine,
    before: Machine,
    expected: Outcome,
) -> bool {
    match expected {
        Outcome::Fault(fault, frames) => {
            &&& result matches Err(LoxError::RuntimeError { message, trace })
            &&& message@ == fault.text()
            &&& trace@.map_values(|t: TraceLine| (t.line, t.function@)) == trace_of(frames)
            &&& after == before.reset()
        },
        Outcome::Goes(next, effect) => {
            &&& result matches Ok(action)
            &&& action@ == effect
            &&& after == next
        },
        Outcome::Joins(next, text) => {
            &&& result matches Ok(Action::Continue)
            &&& after.frames == next.frames
            &&& after.globals == next.globals
            &&& after.awaiting == next.awaiting
            &&& after.stack.len() == next.stack.len() + 1
            &&& after.stack.drop_last() == next.stack
            &&& after.stack.last() matches Value::String(s)
            &&& s.value@ == text
            &&& s.wf()
        },
    }
}

/// Whether the value, if it is a function, is a complete one.
pub open spec fn value_sound(v: Value) -> bool {
    v matches Value::Function(f) ==> function_sound(*f)
}

impl Machine {
    /// Every function that the machine holds, in a call, on the stack or
    /// in a global, is complete.
    pub open spec fn holds_sound(self) -> bool {
        &&& forall|i: int|
            0 <= i < self.frames.len() ==> function_sound(*(#[trigger] self.frames[i]).function)
        &&& forall|i: int| 0 <= i < self.stack.len() ==> value_sound(#[trigger] self.stack[i])
        &&& forall|k: Key| #[trigger] self.globals.contains_key(k) ==> value_sound(self.globals[k])
    }

    /// Every call has its next instruction within its code.
    pub open spec fn in_code(self) -> bool {
        forall|i: int|
            0 <= i < self.frames.len() ==> (#[trigger] self.frames[i]).ip
                < self.frames[i].function.block.code@.len()
    }

    /// The machine runs complete functions only, each within its code.
    pub open spec fn trusty(self) -> bool {
        self.holds_sound() && self.in_code()
    }

    /// The state in which the instruction `op` was fetched from a trusty
    /// machine: the running call has moved on past `op`.
    pub open spec fn fetched(self, op: OpCode) -> bool {
        &&& self.sane()
        &&& self.holds_sound()
        &&& !self.awaiting
        &&& self.frames.len() > 0
        &&& 1 <= self.frame().ip <= self.code().len()
        &&& op == self.code()[self.frame().ip - 1]
        &&& forall|i: int|
            0 <= i < self.frames.len() - 1 ==> (#[trigger] self.frames[i]).ip
                < self.frames[i].function.block.code@.len()
    }

    /// What holds of the outcome of a step of a trusty machine: it is no
    /// error of malformed code, and the machine stays trusty.
    pub open spec fn stays_trusty(outcome: Outcome) -> bool {
        match outcome {
            Outcome::Fault(fault, _) => !fault.malformed(),
            Outcome::Goes(after, effect) => after.trusty() && (effect matches Effect::Native(
                _,
                arguments,
            ) ==> forall|i: int| 0 <= i < arguments.len() ==> value_sound(#[trigger] arguments[i])),
            Outcome::Joins(after, _) => after.trusty(),
        }
    }
}

/// An instruction that is not a return is not the last of a complete
/// chunk.
pub proof fn lemma_not_last(m: Machine, op: OpCode)
    requires
        m.fetched(op),
    ensures
        op != OpCode::Return ==> m.frame().ip < m.code().len(),
        function_sound(*m.frame().function),
        m.frame().function.block.sound(),
        op.is_jump() ==> 0 <= op.target(m.frame().ip - 1) < m.code().len(),
        crate::block::operand_fits(op, m.constants()),
{
    let f = m.frame().function;
    assert(m.frames[m.frames.len() - 1] == m.frame());
    assert(function_sound(*f));
    let code = f.block.code@;
    assert(code[m.frame().ip - 1] == op);
    if m.frame().ip == code.len() {
        assert(code.last() == OpCode::Return);
    }
}

/// Pushing a complete value keeps a machine trusty.
pub proof fn lemma_push_trusty(m: Machine, op: OpCode, v: Value)
    requires
        m.fetched(op),
        op != OpCode::Return,
        value_sound(v),
    ensures
        Machine::stays_trusty(m.push(v)),
{
    lemma_not_last(m, op);
    if m.stack.len() < MAX_STACK {
        let after = m.with_stack(m.stack.push(v));
        assert forall|i: int| 0 <= i < after.stack.len() implies value_sound(
            #[trigger] after.stack[i],
        ) by {
            if i < m.stack.len() {
                assert(after.stack[i] == m.stack[i]);
            }
        }
        assert(after.in_code()) by {
            assert forall|i: int| 0 <= i
                < after.frames.len() implies (#[trigger] after.frames[i]).ip
                < after.frames[i].function.block.code@.len() by {
                if i == m.frames.len() - 1 {
                    assert(after.frames[i] == m.frame());
                }
            }
        }
    }
}

/// The instructions that push a value keep a machine trusty.
pub proof fn lemma_loads_trusty(m: Machine, op: OpCode)
    requires
        m.fetched(op),
        op is Constant || op is Nil || op is True || op is False || op is GetLocal
            || op is GetGlobal,
    ensures
        Machine::stays_trusty(m.execute(op)),
{
    lemma_not_last(m, op);
    match op {
        OpCode::Constant(k) => {
            let v = m.constants()[k as int];
            assert(crate::value::constants_sound(m.constants()));
            lemma_push_trusty(m, op, v);
        },
        OpCode::Nil => lemma_push_trusty(m, op, Value::Nil),
        OpCode::True => lemma_push_trusty(m, op, Value::Bool(true)),
        OpCode::False => lemma_push_trusty(m, op, Value::Bool(false)),
        OpCode::GetLocal(slot) => {
            if m.base() + slot < m.stack.len() {
                lemma_push_trusty(m, op, m.stack[m.base() + slot]);
            }
        },
        OpCode::GetGlobal(k) => {
            let name = m.name_at(k).unwrap();
            if m.globals.contains_key(name@) {
                lemma_push_trusty(m, op, m.globals[name@]);
            }
        },
        _ => {},
    }
}

/// A change of the stack that brings no new function keeps a machine
/// trusty.
pub proof fn lemma_restack_trusty(m: Machine, op: OpCode, after: Machine)
    requires
        m.fetched(op),
        op != OpCode::Return,
        after.frames == m.frames,
        forall|k: Key| #[trigger]
            after.globals.contains_key(k) ==> value_sound(after.globals[k]),
        forall|i: int| 0 <= i < after.stack.len() ==> value_sound(#[trigger] after.stack[i]),
    ensures
        after.trusty(),
{
    lemma_not_last(m, op);
    assert forall|i: int| 0 <= i < after.frames.len() implies (#[trigger] after.frames[i]).ip
        < after.frames[i].function.block.code@.len() by {
        if i == m.frames.len() - 1 {
            assert(after.frames[i] == m.frame());
        }
    }
}

/// The instructions that work on the stack and the globals keep a
/// machine trusty.
pub proof fn lemma_stack_ops_trusty(m: Machine, op: OpCode)
    requires
        m.fetched(op),
        op is Pop || op is SetLocal || op is DefGlobal || op is SetGlobal || op is Equal
            || op is Greater || op is Less || op is Not || op is Negate || op is Print,
    ensures
        Machine::stays_trusty(m.execute(op)),
{
    lemma_not_last(m, op);
    match m.execute(op) {
        Outcome::Goes(after, _) => {
            assert forall|i: int| 0 <= i < after.stack.len() implies value_sound(
                #[trigger] after.stack[i],
            ) by {
                if i < m.stack.len() {
                    assert(value_sound(m.stack[i]));
                }
                assert(value_sound(m.stack.last()));
            }
            assert forall|k: Key| #[trigger] after.globals.contains_key(k) implies value_sound(
                after.globals[k],
            ) by {
                assert(value_sound(m.stack.last()));
                if m.globals.contains_key(k) {
                    assert(value_sound(m.globals[k]));
                }
            }
            lemma_restack_trusty(m, op, after);
        },
        _ => {},
    }
}

/// The arithmetic instructions keep a machine trusty.
pub proof fn lemma_arithmetic_trusty(m: Machine, op: OpCode)
    requires
        m.fetched(op),
        op is Add || op is Subtract || op is Multiply || op is Divide,
    ensures
        Machine::stays_trusty(m.execute(op)),
{
    lemma_not_last(m, op);
    match m.execute(op) {
        Outcome::Goes(after, _) => {
            assert forall|i: int| 0 <= i < after.stack.len() implies value_sound(
                #[trigger] after.stack[i],
            ) by {
                assert(value_sound(m.stack[i]));
            }
            lemma_restack_trusty(m, op, after);
        },
        Outcome::Joins(after, _) => {
            assert forall|i: int| 0 <= i < after.stack.len() implies value_sound(
                #[trigger] after.stack[i],
            ) by {
                assert(value_sound(m.stack[i]));
            }
            lemma_restack_trusty(m, op, after);
        },
        _ => {},
    }
}

/// The jumps keep a machine trusty: they land in the code.
pub proof fn lemma_jumps_trusty(m: Machine, op: OpCode)
    requires
        m.fetched(op),
        op.is_jump(),
    ensures
        Machine::stays_trusty(m.execute(op)),
{
    lemma_not_last(m, op);
    match m.execute(op) {
        Outcome::Goes(after, _) => {
            assert(after.stack == m.stack);
            assert(after.globals == m.globals);
            assert forall|i: int| 0 <= i < after.frames.len() implies function_sound(
                *(#[trigger] after.frames[i]).function,
            ) && after.frames[i].ip < after.frames[i].function.block.code@.len() by {
                if i < m.frames.len() - 1 {
                    assert(after.frames[i] == m.frames[i]);
                } else {
                    assert(after.frames[i].function == m.frame().function);
                }
            }
        },
        _ => {},
    }
}

/// Calls and returns keep a machine trusty.
pub proof fn lemma_calls_trusty(m: Machine, op: OpCode)
    requires
        m.fetched(op),
        op is Call || op is Return,
    ensures
        Machine::stays_trusty(m.execute(op)),
{
    lemma_not_last(m, op);
    match op {
        OpCode::Call(n) => {
            match m.execute(op) {
                Outcome::Goes(after, effect) => {
                    let callee = m.stack.len() - n - 1;
                    assert(value_sound(m.stack[callee]));
                    assert forall|i: int| 0 <= i < after.stack.len() implies value_sound(
                        #[trigger] after.stack[i],
                    ) by {
                        assert(value_sound(m.stack[i]));
                    }
                    assert forall|i: int| 0 <= i < after.frames.len() implies function_sound(
                        *(#[trigger] after.frames[i]).function,
                    ) && after.frames[i].ip < after.frames[i].function.block.code@.len() by {
                        if i < m.frames.len() - 1 {
                            assert(after.frames[i] == m.frames[i]);
                        } else if i == m.frames.len() - 1 {
                            assert(after.frames[i] == m.frame());
                        }
                    }
                    match effect {
                        Effect::Native(_, arguments) => {
                            assert forall|i: int| 0 <= i < arguments.len() implies value_sound(
                                #[trigger] arguments[i],
                            ) by {
                                assert(arguments[i] == m.stack[callee + 1 + i]);
                                assert(value_sound(m.stack[callee + 1 + i]));
                            }
                        },
                        _ => {},
                    }
                },
                _ => {},
            }
        },
        _ => {
            match m.execute(op) {
                Outcome::Goes(after, _) => {
                    assert forall|i: int| 0 <= i < after.stack.len() implies value_sound(
                        #[trigger] after.stack[i],
                    ) by {
                        if i < m.base() {
                            assert(value_sound(m.stack[i]));
                        }
                        assert(value_sound(m.stack.last()));
                    }
                    assert forall|i: int| 0 <= i < after.frames.len() implies function_sound(
                        *(#[trigger] after.frames[i]).function,
                    ) && after.frames[i].ip < after.frames[i].function.block.code@.len() by {
                        assert(after.frames[i] == m.frames[i]);
                    }
                },
                _ => {},
            }
        },
    }
}

/// Complete code never leaves its chunk. A machine that runs complete
/// functions only, each within its code, takes no step that ends in an
/// error of malformed code: it never runs off the end of a chunk, never
/// jumps out of one, and never names a constant that does not exist or
/// is not of the right kind. After the step it still runs complete
/// functions only, and the arguments that it hands to a native function
/// are complete as well.
pub proof fn law_sound_code_stays_in_its_chunk(m: Machine)
    requires
        m.sane(),
        m.trusty(),
    ensures
        Machine::stays_trusty(m.step()),
{
    if !m.awaiting && m.frames.len() > 0 {
        assert(m.frames[m.frames.len() - 1] == m.frame());
        let ip = m.frame().ip;
        let op = m.code()[ip as int];
        let fetched = m.at(ip + 1);
        vstd::std_specs::vec::axiom_spec_len(&m.frame().function.block.code);
        assert(fetched.frame().function == m.frame().function);
        assert(fetched.frame().ip == ip + 1);
        assert(fetched.stack == m.stack);
        assert(fetched.globals == m.globals);
        assert(fetched.fetched(op)) by {
            assert forall|i: int| 0 <= i < fetched.frames.len() implies function_sound(
                *(#[trigger] fetched.frames[i]).function,
            ) by {
                if i < m.frames.len() - 1 {
                    assert(fetched.frames[i] == m.frames[i]);
                }
            }
            assert forall|i: int| 0 <= i < fetched.frames.len() - 1 implies (
            #[trigger] fetched.frames[i]).ip < fetched.frames[i].function.block.code@.len() by {
                assert(fetched.frames[i] == m.frames[i]);
            }
            assert forall|i: int| 0 <= i < fetched.frames.len() implies (
            #[trigger] fetched.frames[i]).ip <= fetched.frames[i].function.block.code@.len() by {
                if i < m.frames.len() - 1 {
                    assert(fetched.frames[i] == m.frames[i]);
                }
            }
            assert forall|i: int, j: int| 0 <= i < j < fetched.frames.len() implies (
            #[trigger] fetched.frames[i]).slots <= (#[trigger] fetched.frames[j]).slots by {
                assert(m.frames[i].slots <= m.frames[j].slots);
            }
        }
        if op is Constant || op is Nil || op is True || op is False || op is GetLocal
            || op is GetGlobal {
            lemma_loads_trusty(fetched, op);
        } else if op is Add || op is Subtract || op is Multiply || op is Divide {
            lemma_arithmetic_trusty(fetched, op);
        } else if op.is_jump() {
            lemma_jumps_trusty(fetched, op);
        } else if op is Call || op is Return {
            lemma_calls_trusty(fetched, op);
        } else {
            lemma_stack_ops_trusty(fetched, op);
        }
    }
}

impl Machine {
    /// The depth of the stack of call `i`: the values from its first slot
    /// up to the first slot of the call above it, or up to the top of the
    /// stack for the running call.
    pub open spec fn depth(self, i: int) -> int {
        if i + 1 < self.frames.len() {
            self.frames[i + 1].slots - self.frames[i].slots
        } else {
            self.stack.len() - self.frames[i].slots
        }
    }

    /// Whether call `i` has as many values on the stack as the heights
    /// say for its next instruction. A call that waits for a result, of
    /// a call that it made or of the host, has one value less.
    pub open spec fn fits(self, i: int, heights: Seq<int>) -> bool {
        self.depth(i) == heights[self.frames[i].ip as int] - if i + 1 < self.frames.len()
            || self.awaiting {
            1int
        } else {
            0int
        }
    }

    /// The depth of the stack is static: every call has as many values
    /// on the stack as the heights of its function say for its next
    /// instruction, whatever typing the heights are taken from.
    pub open spec fn measured(self) -> bool {
        forall|i: int, heights: Seq<int>|
            0 <= i < self.frames.len() && #[trigger] typing(
                self.frames[i].function.block.code@,
                heights,
                self.frames[i].function.arity as int,
            ) ==> self.fits(i, heights)
    }

    /// The machine runs complete functions only, each within its code,
    /// and the depth of its stack is static.
    pub open spec fn steady(self) -> bool {
        self.trusty() && self.measured()
    }

    /// The state in which the instruction `op` was fetched from a machine
    /// whose stack is measured: the running call has as many values as
    /// there are before `op`, and the calls below it are measured.
    pub open spec fn poised(self, op: OpCode) -> bool {
        &&& self.fetched(op)
        &&& forall|i: int, heights: Seq<int>|
            0 <= i < self.frames.len() && #[trigger] typing(
                self.frames[i].function.block.code@,
                heights,
                self.frames[i].function.arity as int,
            ) ==> if i + 1 < self.frames.len() {
                self.fits(i, heights)
            } else {
                self.depth(i) == heights[self.frames[i].ip - 1]
            }
    }

    /// What holds of the outcome of a step of a machine whose stack is
    /// measured: the instruction finds the values and the local that it
    /// takes, and the stack stays measured.
    pub open spec fn stays_measured(outcome: Outcome) -> bool {
        match outcome {
            Outcome::Fault(fault, _) => !(fault is StackUnderflow) && !(fault is NoLocal),
            Outcome::Goes(after, _) => after.measured(),
            Outcome::Joins(after, _) => after.frames.len() > 0 && !after.awaiting && (
            Machine { stack: after.stack.push(Value::Nil), ..after }).measured(),
        }
    }
}

/// The instruction that was fetched fits every typing of its function.
pub proof fn lemma_poised(m: Machine, op: OpCode, heights: Seq<int>)
    requires
        m.poised(op),
        typing(m.code(), heights, m.frame().function.arity as int),
    ensures
        steps(op, m.frame().ip - 1, heights),
        levels(op, m.frame().ip - 1, heights),
        m.stack.len() - m.base() == heights[m.frame().ip - 1],
        op != OpCode::Return ==> m.frame().ip < m.code().len(),
{
    lemma_not_last(m, op);
    let top = m.frames.len() - 1;
    assert(m.frames[top] == m.frame());
    assert(m.code()[m.frame().ip - 1] == op);
    assert(typing(
        m.frames[top].function.block.code@,
        heights,
        m.frames[top].function.arity as int,
    ));
}

/// A typing exists for the function that is running.
pub proof fn lemma_typed(m: Machine, op: OpCode) -> (heights: Seq<int>)
    requires
        m.fetched(op),
    ensures
        typing(m.code(), heights, m.frame().function.arity as int),
{
    lemma_not_last(m, op);
    let f = m.frame().function;
    assert(typed(f.block.code@, f.arity as int));
    choose|heights: Seq<int>| typing(m.code(), heights, m.frame().function.arity as int)
}

/// A step within the running call keeps the stack measured if for every
/// typing it leaves as many values as the heights say for the next
/// instruction.
pub proof fn lemma_within_measured(m: Machine, op: OpCode, after: Machine)
    requires
        m.poised(op),
        after.frames.len() == m.frames.len(),
        forall|i: int| 0 <= i < m.frames.len() - 1 ==> #[trigger] after.frames[i] == m.frames[i],
        after.frame().function == m.frame().function,
        after.frame().slots == m.frame().slots,
        forall|heights: Seq<int>| #[trigger]
            typing(m.code(), heights, m.frame().function.arity as int) ==> after.stack.len()
                - after.base() == heights[after.frame().ip as int] - if after.awaiting {
                1int
            } else {
                0int
            },
    ensures
        after.measured(),
{
    let top = m.frames.len() - 1;
    assert(m.frames[top] == m.frame());
    assert(after.frames[top] == after.frame());
    assert forall|i: int, heights: Seq<int>|
        0 <= i < after.frames.len() && #[trigger] typing(
            after.frames[i].function.block.code@,
            heights,
            after.frames[i].function.arity as int,
        ) implies after.fits(i, heights) by {
        if i < top {
            assert(after.frames[i] == m.frames[i]);
            if i + 1 < top {
                assert(after.frames[i + 1] == m.frames[i + 1]);
            }
            assert(typing(
                m.frames[i].function.block.code@,
                heights,
                m.frames[i].function.arity as int,
            ));
            assert(m.fits(i, heights));
        } else {
            assert(typing(m.code(), heights, m.frame().function.arity as int));
        }
    }
}

/// The instructions that neither jump nor call nor return keep the stack
/// measured.
pub proof fn lemma_plain_measured(m: Machine, op: OpCode)
    requires
        m.poised(op),
        !op.is_jump(),
        !(op is Call),
        !(op is Return),
    ensures
        Machine::stays_measured(m.execute(op)),
{
    let some = lemma_typed(m, op);
    lemma_poised(m, op, some);
    assert forall|heights: Seq<int>| #[trigger]
        typing(m.code(), heights, m.frame().function.arity as int) implies steps(
        op,
        m.frame().ip - 1,
        heights,
    ) && m.stack.len() - m.base() == heights[m.frame().ip - 1] by {
        lemma_poised(m, op, heights);
    }
    match m.execute(op) {
        Outcome::Goes(after, _) => {
            lemma_within_measured(m, op, after);
        },
        Outcome::Joins(after, _) => {
            lemma_within_measured(
                m,
                op,
                Machine { stack: after.stack.push(Value::Nil), ..after },
            );
        },
        Outcome::Fault(_, _) => {},
    }
}

/// The jumps keep the stack measured: they land where the stack is as
/// high as where they stand.
pub proof fn lemma_jumps_measured(m: Machine, op: OpCode)
    requires
        m.poised(op),
        op.is_jump(),
    ensures
        Machine::stays_measured(m.execute(op)),
{
    let some = lemma_typed(m, op);
    lemma_poised(m, op, some);
    vstd::std_specs::vec::axiom_spec_len(&m.frame().function.block.code);
    assert forall|heights: Seq<int>| #[trigger]
        typing(m.code(), heights, m.frame().function.arity as int) implies steps(
        op,
        m.frame().ip - 1,
        heights,
    ) && levels(op, m.frame().ip - 1, heights) && m.stack.len() - m.base() == heights[m.frame().ip
        - 1] by {
        lemma_poised(m, op, heights);
    }
    match m.execute(op) {
        Outcome::Goes(after, _) => {
            assert(after.frame().function == m.frame().function);
            assert(after.frame().slots == m.frame().slots);
            assert(after.stack == m.stack);
            assert(after.frame().ip == op.target(m.frame().ip - 1) || after.frame().ip
                == m.frame().ip);
            assert forall|i: int| 0 <= i < m.frames.len() - 1 implies #[trigger] after.frames[i]
                == m.frames[i] by {}
            lemma_within_measured(m, op, after);
        },
        _ => {},
    }
}

/// Calls and returns keep the stack measured.
pub proof fn lemma_calls_measured(m: Machine, op: OpCode)
    requires
        m.poised(op),
        op is Call || op is Return,
    ensures
        Machine::stays_measured(m.execute(op)),
{
    let some = lemma_typed(m, op);
    lemma_poised(m, op, some);
    let top = m.frames.len() - 1;
    assert(m.frames[top] == m.frame());
    assert forall|heights: Seq<int>| #[trigger]
        typing(m.code(), heights, m.frame().function.arity as int) implies steps(
        op,
        m.frame().ip - 1,
        heights,
    ) && m.stack.len() - m.base() == heights[m.frame().ip - 1] by {
        lemma_poised(m, op, heights);
    }
    match op {
        OpCode::Call(n) => {
            match m.execute(op) {
                Outcome::Goes(after, effect) => {
                    let callee = m.stack.len() - n - 1;
                    match m.stack[callee] {
                        Value::Function(f) => {
                            assert(after.frames.len() == m.frames.len() + 1);
                            assert(after.frames[top + 1].function == f);
                            assert forall|i: int, heights: Seq<int>|
                                0 <= i < after.frames.len() && #[trigger] typing(
                                    after.frames[i].function.block.code@,
                                    heights,
                                    after.frames[i].function.arity as int,
                                ) implies after.fits(i, heights) by {
                                if i <= top {
                                    assert(after.frames[i] == m.frames[i]);
                                    if i < top {
                                        assert(after.frames[i + 1] == m.frames[i + 1]);
                                    }
                                    assert(typing(
                                        m.frames[i].function.block.code@,
                                        heights,
                                        m.frames[i].function.arity as int,
                                    ));
                                }
                            }
                        },
                        _ => {
                            lemma_within_measured(m, op, after);
                        },
                    }
                },
                _ => {},
            }
        },
        _ => {
            match m.execute(op) {
                Outcome::Goes(after, _) => {
                    if m.frames.len() > 1 {
                        assert(after.frames == m.frames.drop_last());
                        assert forall|i: int, heights: Seq<int>|
                            0 <= i < after.frames.len() && #[trigger] typing(
                                after.frames[i].function.block.code@,
                                heights,
                                after.frames[i].function.arity as int,
                            ) implies after.fits(i, heights) by {
                            assert(after.frames[i] == m.frames[i]);
                            if i + 1 < after.frames.len() {
                                assert(after.frames[i + 1] == m.frames[i + 1]);
                            }
                            assert(typing(
                                m.frames[i].function.block.code@,
                                heights,
                                m.frames[i].function.arity as int,
                            ));
                            assert(m.fits(i, heights));
                        }
                    }
                },
                _ => {},
            }
        },
    }
}

/// The depth of the stack at every instruction is known before a program
/// runs. A machine that runs complete functions only, and in which every
/// call has as many values on the stack as the heights of its function
/// say for its next instruction, is still so after a step: whatever way
/// execution takes, it finds at an instruction the depth that belongs to
/// the instruction. So no instruction finds values or locals missing,
/// and the stack is as deep behind a statement as it was before it.
pub proof fn law_static_stack_depth(m: Machine)
    requires
        m.sane(),
        m.trusty(),
        m.measured(),
    ensures
        Machine::stays_measured(m.step()),
{
    if !m.awaiting && m.frames.len() > 0 {
        let top = m.frames.len() - 1;
        assert(m.frames[top] == m.frame());
        let ip = m.frame().ip;
        let op = m.code()[ip as int];
        let fetched = m.at(ip + 1);
        vstd::std_specs::vec::axiom_spec_len(&m.frame().function.block.code);
        assert(fetched.frame().function == m.frame().function);
        assert(fetched.frame().ip == ip + 1);
        assert(fetched.stack == m.stack);
        assert(fetched.globals == m.globals);
        assert(fetched.fetched(op)) by {
            assert forall|i: int| 0 <= i < fetched.frames.len() implies function_sound(
                *(#[trigger] fetched.frames[i]).function,
            ) by {
                if i < m.frames.len() - 1 {
                    assert(fetched.frames[i] == m.frames[i]);
                }
            }
            assert forall|i: int| 0 <= i < fetched.frames.len() - 1 implies (
            #[trigger] fetched.frames[i]).ip < fetched.frames[i].function.block.code@.len() by {
                assert(fetched.frames[i] == m.frames[i]);
            }
            assert forall|i: int| 0 <= i < fetched.frames.len() implies (
            #[trigger] fetched.frames[i]).ip <= fetched.frames[i].function.block.code@.len() by {
                if i < m.frames.len() - 1 {
                    assert(fetched.frames[i] == m.frames[i]);
                }
            }
            assert forall|i: int, j: int| 0 <= i < j < fetched.frames.len() implies (
            #[trigger] fetched.frames[i]).slots <= (#[trigger] fetched.frames[j]).slots by {
                assert(m.frames[i].slots <= m.frames[j].slots);
            }
        }
        assert(fetched.poised(op)) by {
            assert forall|i: int, heights: Seq<int>|
                0 <= i < fetched.frames.len() && #[trigger] typing(
                    fetched.frames[i].function.block.code@,
                    heights,
                    fetched.frames[i].function.arity as int,
                ) implies if i + 1 < fetched.frames.len() {
                fetched.fits(i, heights)
            } else {
                fetched.depth(i) == heights[fetched.frames[i].ip - 1]
            } by {
                if i < top {
                    assert(fetched.frames[i] == m.frames[i]);
                    assert(fetched.frames[i + 1].slots == m.frames[i + 1].slots);
                }
                assert(typing(
                    m.frames[i].function.block.code@,
                    heights,
                    m.frames[i].function.arity as int,
                ));
                assert(m.fits(i, heights));
            }
        }
        if op.is_jump() {
            lemma_jumps_measured(fetched, op);
        } else if op is Call || op is Return {
            lemma_calls_measured(fetched, op);
        } else {
            lemma_plain_measured(fetched, op);
        }
    }
}

/// The result that a machine awaits brings the stack of the running call
/// to the depth that belongs to its next instruction.
pub proof fn law_resume_measured(m: Machine, value: Value)
    requires
        m.measured(),
        m.awaiting,
        m.frames.len() > 0,
    ensures
        (Machine { stack: m.stack.push(value), awaiting: false, ..m }).measured(),
{
    let after = Machine { stack: m.stack.push(value), awaiting: false, ..m };
    assert(after.frames == m.frames);
    assert forall|i: int, heights: Seq<int>|
        0 <= i < after.frames.len() && #[trigger] typing(
            after.frames[i].function.block.code@,
            heights,
            after.frames[i].function.arity as int,
        ) implies after.fits(i, heights) by {
        assert(typing(
            m.frames[i].function.block.code@,
            heights,
            m.frames[i].function.arity as int,
        ));
        assert(m.fits(i, heights));
    }
}

/// Wherever execution stands at one instruction of one function, the
/// call has the same number of values on the stack: two machines in
/// which the depth of the stack is static and which run the same
/// function at the same instruction have equally deep stacks for the
/// call.
pub proof fn law_same_instruction_same_depth(first: Machine, second: Machine)
    requires
        first.measured(),
        second.measured(),
        first.frames.len() > 0,
        second.frames.len() > 0,
        !first.awaiting,
        !second.awaiting,
        first.frame().function == second.frame().function,
        first.frame().ip == second.frame().ip,
        typed(first.code(), first.frame().function.arity as int),
    ensures
        first.stack.len() - first.base() == second.stack.len() - second.base(),
{
    let heights = choose|heights: Seq<int>|
        typing(first.code(), heights, first.frame().function.arity as int);
    let i = first.frames.len() - 1;
    let j = second.frames.len() - 1;
    assert(first.frames[i] == first.frame());
    assert(second.frames[j] == second.frame());
    assert(typing(
        first.frames[i].function.block.code@,
        heights,
        first.frames[i].function.arity as int,
    ));
    assert(typing(
        second.frames[j].function.block.code@,
        heights,
        second.frames[j].function.arity as int,
    ));
    assert(first.fits(i, heights));
    assert(second.fits(j, heights));
}

/// The stack is as deep behind a block as it is before it. A call that is
/// about to execute the first instruction of a block has as many values
/// on the stack as a call of the same function that has just left the
/// block, in any two states of machines whose stack depth is static:
/// what the block pushed is gone, and what was there before it is still
/// there.
pub proof fn law_block_keeps_depth(scope: ScopeModel, entering: Machine, leaving: Machine)
    requires
        scope_level(scope),
        entering.measured(),
        leaving.measured(),
        entering.frames.len() > 0,
        leaving.frames.len() > 0,
        !entering.awaiting,
        !leaving.awaiting,
        entering.frame().function == leaving.frame().function,
        entering.code() == scope.code,
        entering.frame().function.arity == scope.arity,
        entering.frame().ip == scope.start,
        leaving.frame().ip == scope.end,
    ensures
        entering.stack.len() - entering.base() == leaving.stack.len() - leaving.base(),
{
    let heights = choose|heights: Seq<int>|
        #![trigger typing(scope.code, heights, scope.arity as int)]
        typing(scope.code, heights, scope.arity as int) && 0 <= scope.start <= scope.end
            <= scope.code.len() && heights[scope.start] == heights[scope.end];
    let i = entering.frames.len() - 1;
    let j = leaving.frames.len() - 1;
    assert(entering.frames[i] == entering.frame());
    assert(leaving.frames[j] == leaving.frame());
    assert(typing(
        entering.frames[i].function.block.code@,
        heights,
        entering.frames[i].function.arity as int,
    ));
    assert(typing(
        leaving.frames[j].function.block.code@,
        heights,
        leaving.frames[j].function.arity as int,
    ));
    assert(entering.fits(i, heights));
    assert(leaving.fits(j, heights));
}

/// When the outermost call returns, the program has ended and nothing is
/// left on the value stack: a step that ends the program leaves a
/// machine without calls and with an empty stack.
pub proof fn law_halt_leaves_nothing(m: Machine)
    requires
        m.sane(),
    ensures
        m.step() matches Outcome::Goes(after, Effect::Halt) ==> after.frames.len() == 0
            && after.stack.len() == 0,
{
    if !m.awaiting && m.frames.len() > 0 && m.frame().ip < m.code().len() {
        let fetched = m.at(m.frame().ip + 1);
        assert(fetched.frame().slots == m.frame().slots);
        if m.frames.len() == 1 {
            assert(m.frames[0].slots == 0);
        }
    }
}

/// A machine that is about to run the empty program, which is the two
/// instructions that return `nil`, takes two steps, asks nothing of its
/// host, and ends with an empty stack.
pub proof fn law_empty_program_ends(m: Machine)
    requires
        m.frames.len() == 1,
        m.frame().ip == 0,
        m.frame().slots == 0,
        m.code() == seq![OpCode::Nil, OpCode::Return],
        m.stack.len() == 1,
        !m.awaiting,
    ensures
        m.step() matches Outcome::Goes(second, Effect::Continue) && (
        second.step() matches Outcome::Goes(last, Effect::Halt) && last.stack.len() == 0
            && last.frames.len() == 0 && last.globals == m.globals),
{
    let fetched = m.at(1);
    assert(fetched.frame().function == m.frame().function);
    let second = fetched.with_stack(m.stack.push(Value::Nil));
    assert(m.step() == Outcome::Goes(second, Effect::Continue));
    let again = second.at(2);
    assert(again.frame().function == m.frame().function);
    assert(second.code()[1] == OpCode::Return);
}

/// The bytes of a text.
fn text(s: &str) -> (bytes: Vec<u8>)
    ensures
        bytes@ == s.spec_bytes(),
{
    slice_to_vec(s.as_bytes())
}

/// The virtual machine. It executes one instruction at a time and leaves
/// to its host what it cannot do itself: arithmetic on numbers, native
/// functions, and printing.
pub struct VM {
    frames: Vec<CallFrame>,
    stack: Vec<Value>,
    strings: Table,
    globals: Table,
    watch: Stopwatch,
    awaiting: bool,
}

impl View for VM {
    type V = Machine;

    closed spec fn view(&self) -> Machine {
        Machine {
            frames: self.frames@,
            stack: self.stack@,
            globals: self.globals@,
            awaiting: self.awaiting,
        }
    }
}

impl VM {
    /// The machine is in order.
    pub closed spec fn wf(&self) -> bool {
        &&& self@.sane()
        &&& self.globals.wf()
        &&& self.strings.wf()
    }

    /// A machine that is in order has a state that is in order: after a
    /// step as after any other call, the slots of the running call start
    /// within the stack, and the stacks are within their bounds.
    pub proof fn law_order(&self)
        requires
            self.wf(),
        ensures
            self@.sane(),
    {
    }

    /// A machine without a program. Its only global is the native
    /// function `clock`.
    pub fn new() -> (vm: VM)
        ensures
            vm.wf(),
            vm@.steady(),
            vm@ == (Machine {
                frames: Seq::empty(),
                stack: Seq::empty(),
                globals: Map::<Key, Value>::empty().insert(
                    ("clock".spec_bytes(), fnv1a("clock".spec_bytes())),
                    Value::NativeFunction(NativeFunction(CLOCK)),
                ),
                awaiting: false,
            }),
    {
        let mut vm = VM {
            frames: Vec::new(),
            stack: Vec::new(),
            strings: Table::new(),
            globals: Table::new(),
            watch: Stopwatch::start(),
            awaiting: false,
        };
        proof {
            assert(vm@.globals =~= Map::<Key, Value>::empty());
        }
        vm.init_vm();
        vm
    }

    /// Registers the native functions that every machine has.
    fn init_vm(&mut self)
        requires
            old(self).wf(),
        ensures
            final(self).wf(),
            old(self)@.steady() ==> final(self)@.steady(),
            final(self)@ == (Machine {
                globals: old(self)@.globals.insert(
                    ("clock".spec_bytes(), fnv1a("clock".spec_bytes())),
                    Value::NativeFunction(NativeFunction(CLOCK)),
                ),
                ..old(self)@
            }),
    {
        self.define_native("clock", NativeFunction(CLOCK));
    }

    /// Defines a global that holds a native function.
    pub fn define_native(&mut self, name: &str, function: NativeFunction)
        requires
            old(self).wf(),
        ensures
            final(self).wf(),
            old(self)@.steady() ==> final(self)@.steady(),
            final(self)@ == (Machine {
                globals: old(self)@.globals.insert(
                    (name.spec_bytes(), fnv1a(name.spec_bytes())),
                    Value::NativeFunction(function),
                ),
                ..old(self)@
            }),
    {
        let name = LoxString::from_string(name);
        self.globals.set(name, Value::NativeFunction(function));
    }

    /// The reading of the clock when the machine was made, or `None` if
    /// the clock could not be read then.
    pub closed spec fn clock_start(&self) -> Option<Span> {
        self.watch.started()
    }

    /// The CPU time that the process has used since the machine was
    /// made: the span from the reading of the clock when the machine was
    /// made to a reading that is taken now. A machine without a reading
    /// from when it was made shows nothing, and so does one for which the
    /// clock cannot be read now.
    pub fn elapsed(&self) -> (span: Option<Span>)
        ensures
            self.clock_start() is None ==> span is None,
            exists|now: Option<Span>|
                readable(now) && span == #[trigger] lapse(self.clock_start(), now),
            readable(span),
            span matches Some(s) ==> s.nanos < 1_000_000_000,
    {
        self.watch.elapsed()
    }

    /// The lines of the stack trace, innermost call first.
    fn stack_trace(&self) -> (trace: Vec<TraceLine>)
        ensures
            trace@.map_values(|t: TraceLine| (t.line, t.function@)) == trace_of(self@.frames),
    {
        let mut trace: Vec<TraceLine> = Vec::new();
        let n: usize = self.frames.len();
        let mut i: usize = 0;
        while i < n
            invariant
                n == self.frames@.len(),
                i <= n,
                trace@.len() == i,
                forall|j: int|
                    0 <= j < i ==> ((#[trigger] trace@[j]).line, trace@[j].function@)
                        == trace_line(self.frames@[n - 1 - j]),
            decreases n - i,
        {
            let frame = &self.frames[n - 1 - i];
            let line: u16 = if 0 < frame.ip && frame.ip <= frame.function.block.lines.len() {
                frame.function.block.lines[frame.ip - 1]
            } else {
                0
            };
            trace.push(
                TraceLine { line, function: slice_to_vec(frame.function.name.value.as_slice()) },
            );
            i += 1;
        }
        proof {
            assert(trace@.map_values(|t: TraceLine| (t.line, t.function@)) =~= trace_of(
                self@.frames,
            ));
        }
        trace
    }

    /// Empties the value stack and ends all calls.
    fn reset_stack(&mut self)
        requires
            old(self).globals.wf(),
            old(self).strings.wf(),
        ensures
            final(self).wf(),
            final(self)@ == old(self)@.reset(),
            final(self).globals == old(self).globals,
            final(self).strings == old(self).strings,
    {
        self.stack.clear();
        self.frames.clear();
        self.awaiting = false;
    }

    /// Ends the run with a runtime error: the result is the error with
    /// the stack trace, and the machine is reset.
    fn fault(&mut self, message: Vec<u8>) -> (error: LoxError)
        requires
            old(self).globals.wf(),
            old(self).strings.wf(),
        ensures
            final(self).wf(),
            final(self)@ == old(self)@.reset(),
            error matches LoxError::RuntimeError { message: m, trace } && m@ == message@
                && trace@.map_values(|t: TraceLine| (t.line, t.function@)) == trace_of(
                old(self)@.frames,
            ),
    {
        let trace = self.stack_trace();
        self.reset_stack();
        LoxError::RuntimeError { message, trace }
    }

    /// Pushes a value, if the stack has room.
    fn push(&mut self, value: Value) -> (result: Result<Action, LoxError>)
        requires
            old(self).wf(),
            old(self)@.frames.len() > 0,
            !old(self)@.awaiting,
        ensures
            final(self).wf(),
            realizes(result, final(self)@, old(self)@, old(self)@.push(value)),
    {
        if self.stack.len() >= MAX_STACK {
            return Err(self.fault(text("Value stack overflow")));
        }
        self.stack.push(value);
        Ok(Action::Continue)
    }

    /// Takes the top value off the stack.
    fn pop(&mut self) -> (value: Value)
        requires
            old(self).stack@.len() > 0,
        ensures
            value == old(self).stack@.last(),
            final(self).stack@ == old(self).stack@.drop_last(),
            final(self).frames == old(self).frames,
            final(self).globals == old(self).globals,
            final(self).strings == old(self).strings,
            final(self).awaiting == old(self).awaiting,
    {
        self.stack.pop().unwrap()
    }

    /// The value that lies `n` below the top of the stack.
    fn peek(&self, n: usize) -> (value: Value)
        requires
            n < self.stack@.len(),
        ensures
            value == self.stack@[self.stack@.len() - 1 - n],
    {
        self.stack[self.stack.len() - 1 - n].duplicate()
    }

    /// The string of that content from the pool of strings, to which it
    /// is added if it is new.
    fn intern(&mut self, content: Vec<u8>) -> (s: Rc<LoxString>)
        requires
            old(self).wf(),
        ensures
            final(self).wf(),
            final(self)@ == old(self)@,
            s.value@ == content@,
            s.wf(),
    {
        let hash: usize = LoxString::hash(content.as_slice());
        match self.strings.find_string(content.as_slice(), hash) {
            Some(known) => known,
            None => {
                let fresh = Rc::new(LoxString { value: content, hash });
                self.strings.set(fresh.clone(), Value::Nil);
                fresh
            },
        }
    }

    /// Takes two numbers off the stack and asks the host for the result
    /// of the operation on them.
    fn binary_op(&mut self, op: Arithmetic) -> (result: Result<Action, LoxError>)
        requires
            old(self).wf(),
            old(self)@.frames.len() > 0,
            !old(self)@.awaiting,
        ensures
            final(self).wf(),
            realizes(result, final(self)@, old(self)@, old(self)@.arithmetic(op)),
    {
        let base: usize = self.frames[self.frames.len() - 1].slots;
        if self.stack.len() < 2 || self.stack.len() - 2 < base {
            return Err(self.fault(text("Stack underflow")));
        }
        let b = self.pop();
        let a = self.pop();
        match (a.as_number(), b.as_number()) {
            (Some(aa), Some(bb)) => {
                self.awaiting = true;
                proof {
                    assert(self.stack@ =~= old(self)@.under_two());
                }
                Ok(Action::Arithmetic(op, aa, bb))
            },
            _ => Err(self.fault(text("Operands must be numbers"))),
        }
    }

    /// Compares the two numbers on top of the stack.
    fn compare(&mut self, greater: bool) -> (result: Result<Action, LoxError>)
        requires
            old(self).wf(),
            old(self)@.frames.len() > 0,
            !old(self)@.awaiting,
        ensures
            final(self).wf(),
            realizes(
                result,
                final(self)@,
                old(self)@,
                old(self)@.execute(
                    if greater {
                        OpCode::Greater
                    } else {
                        OpCode::Less
                    },
                ),
            ),
    {
        let base: usize = self.frames[self.frames.len() - 1].slots;
        if self.stack.len() < 2 || self.stack.len() - 2 < base {
            return Err(self.fault(text("Stack underflow")));
        }
        let b = self.pop();
        let a = self.pop();
        match (a.as_number(), b.as_number()) {
            (Some(aa), Some(bb)) => {
                let r: bool = if greater {
                    number_greater(aa, bb)
                } else {
                    number_less(aa, bb)
                };
                self.stack.push(Value::Bool(r));
                proof {
                    assert(self.stack@ =~= old(self)@.under_two().push(Value::Bool(r)));
                }
                Ok(Action::Continue)
            },
            _ => Err(self.fault(text("Operands must be numbers"))),
        }
    }

    /// Adds the two values on top of the stack: numbers through the
    /// host, strings by joining them.
    fn add(&mut self) -> (result: Result<Action, LoxError>)
        requires
            old(self).wf(),
            old(self)@.frames.len() > 0,
            !old(self)@.awaiting,
        ensures
            final(self).wf(),
            realizes(result, final(self)@, old(self)@, old(self)@.execute(OpCode::Add)),
    {
        let base: usize = self.frames[self.frames.len() - 1].slots;
        if self.stack.len() < 2 || self.stack.len() - 2 < base {
            return Err(self.fault(text("Stack underflow")));
        }
        let b = self.pop();
        let a = self.pop();
        proof {
            assert(self.stack@ =~= old(self)@.under_two());
        }
        match (&a, &b) {
            (Value::Number(x), Value::Number(y)) => {
                self.awaiting = true;
                Ok(Action::Arithmetic(Arithmetic::Add, *x, *y))
            },
            (Value::String(x), Value::String(y)) => {
                let mut joined: Vec<u8> = slice_to_vec(x.value.as_slice());
                append_bytes(&mut joined, y.value.as_slice());
                let s = self.intern(joined);
                self.stack.push(Value::String(s));
                proof {
                    assert(self.stack@.drop_last() =~= old(self)@.under_two());
                }
                Ok(Action::Continue)
            },
            _ => Err(self.fault(text("Operands must be two numbers or two strings"))),
        }
    }

    /// The message for a variable that was not defined.
    fn undefined(name: &LoxString) -> (message: Vec<u8>)
        ensures
            message@ == Fault::UndefinedVariable(name.value@).text(),
    {
        let mut message: Vec<u8> = text("Undefined variable '");
        append_bytes(&mut message, name.value.as_slice());
        append_bytes(&mut message, "'".as_bytes());
        message
    }

    /// Calls the value that lies under `arg_count` arguments.
    fn call_value(&mut self, arg_count: u8) -> (result: Result<Action, LoxError>)
        requires
            old(self).wf(),
            old(self)@.frames.len() > 0,
            !old(self)@.awaiting,
        ensures
            final(self).wf(),
            realizes(result, final(self)@, old(self)@, old(self)@.call(arg_count)),
    {
        let base: usize = self.frames[self.frames.len() - 1].slots;
        let n: usize = arg_count as usize;
        if self.stack.len() < n + 1 || self.stack.len() - n - 1 < base {
            return Err(self.fault(text("Stack underflow")));
        }
        let callee: usize = self.stack.len() - n - 1;
        match &self.stack[callee] {
            Value::Function(f) => {
                let function = f.clone();
                self.call(function, arg_count)
            },
            Value::NativeFunction(nf) => {
                let native = *nf;
                let arguments = self.stack.split_off(callee + 1);
                self.stack.pop();
                self.awaiting = true;
                proof {
                    assert(self.stack@ =~= old(self)@.stack.take(callee as int));
                    assert(arguments@ =~= old(self)@.stack.skip(callee + 1));
                }
                Ok(Action::Native(native, arguments))
            },
            _ => Err(self.fault(text("Can only call functions"))),
        }
    }

    /// Starts a call of `function`, which lies on the stack under its
    /// `arg_count` arguments.
    fn call(&mut self, function: Rc<Function>, arg_count: u8) -> (result: Result<
        Action,
        LoxError,
    >)
        requires
            old(self).wf(),
            old(self)@.frames.len() > 0,
            !old(self)@.awaiting,
            old(self)@.stack.len() >= old(self)@.base() + arg_count + 1,
            old(self)@.stack[old(self)@.stack.len() - arg_count - 1] == Value::Function(function),
        ensures
            final(self).wf(),
            realizes(result, final(self)@, old(self)@, old(self)@.call(arg_count)),
    {
        if function.arity != arg_count as usize {
            let mut message: Vec<u8> = text("Expected ");
            let arity = decimal(function.arity);
            append_bytes(&mut message, arity.as_slice());
            append_bytes(&mut message, " arguments but got ".as_bytes());
            let given = decimal(arg_count as usize);
            append_bytes(&mut message, given.as_slice());
            Err(self.fault(message))
        } else if self.frames.len() >= MAX_FRAMES {
            Err(self.fault(text("Stack overflow")))
        } else {
            let slots: usize = self.stack.len() - arg_count as usize - 1;
            self.frames.push(CallFrame { function, ip: 0, slots });
            Ok(Action::Continue)
        }
    }

    /// Returns from the running call.
    fn leave(&mut self) -> (result: Result<Action, LoxError>)
        requires
            old(self).wf(),
            old(self)@.frames.len() > 0,
            !old(self)@.awaiting,
        ensures
            final(self).wf(),
            realizes(result, final(self)@, old(self)@, old(self)@.leave()),
    {
        let base: usize = self.frames[self.frames.len() - 1].slots;
        if self.stack.len() <= base {
            return Err(self.fault(text("Stack underflow")));
        }
        let value = self.pop();
        self.frames.pop();
        self.stack.truncate(base);
        if self.frames.len() == 0 {
            proof {
                assert(self.stack@ =~= old(self)@.stack.take(base as int));
                assert(self.frames@ =~= Seq::<CallFrame>::empty());
            }
            Ok(Action::Halt)
        } else {
            self.stack.push(value);
            proof {
                assert(self.stack@ =~= old(self)@.stack.take(base as int).push(
                    old(self)@.stack.last(),
                ));
                assert(self.frames@ =~= old(self)@.frames.drop_last());
            }
            Ok(Action::Continue)
        }
    }

    /// Moves the next instruction of the running call to `ip`.
    fn go_to(&mut self, ip: usize)
        requires
            old(self).wf(),
            old(self)@.frames.len() > 0,
            ip <= old(self)@.code().len(),
        ensures
            final(self).wf(),
            final(self)@ == old(self)@.at(ip as int),
    {
        let top: usize = self.frames.len() - 1;
        self.frames[top].ip = ip;
        proof {
            assert(self.frames@ =~= old(self)@.at(ip as int).frames);
        }
    }
    /// Executes an instruction that was fetched.
    fn execute(&mut self, op: OpCode) -> (result: Result<Action, LoxError>)
        requires
            old(self).wf(),
            old(self)@.frames.len() > 0,
            !old(self)@.awaiting,
        ensures
            final(self).wf(),
            realizes(result, final(self)@, old(self)@, old(self)@.execute(op)),
    {
        let top: usize = self.frames.len() - 1;
        let base: usize = self.frames[top].slots;
        match op {
            OpCode::Constant(index) => {
                if (index as usize) >= self.frames[top].function.block.constants.len() {
                    return Err(self.fault(text("No such constant")));
                }
                let value = self.frames[top].function.block.read_constant(index).duplicate();
                self.push(value)
            },
            OpCode::Nil => self.push(Value::Nil),
            OpCode::True => self.push(Value::Bool(true)),
            OpCode::False => self.push(Value::Bool(false)),
            OpCode::Pop => {
                if self.stack.len() <= base {
                    return Err(self.fault(text("Stack underflow")));
                }
                self.pop();
                Ok(Action::Continue)
            },
            OpCode::GetLocal(slot) => {
                if slot as usize >= self.stack.len() || base >= self.stack.len() - slot as usize {
                    return Err(self.fault(text("No such local")));
                }
                let value = self.stack[base + slot as usize].duplicate();
                self.push(value)
            },
            OpCode::SetLocal(slot) => {
                if slot as usize >= self.stack.len() || base >= self.stack.len() - slot as usize {
                    return Err(self.fault(text("No such local")));
                }
                let value = self.peek(0);
                self.stack[base + slot as usize] = value;
                Ok(Action::Continue)
            },
            OpCode::GetGlobal(index) => {
                let name = match self.frames[top].function.block.string_at(index) {
                    Some(name) => name,
                    None => {
                        return Err(self.fault(text("The constant is not a name")));
                    },
                };
                match self.globals.get(&name) {
                    Some(value) => self.push(value),
                    None => Err(self.fault(Self::undefined(&name))),
                }
            },
            OpCode::DefGlobal(index) => {
                let name = match self.frames[top].function.block.string_at(index) {
                    Some(name) => name,
                    None => {
                        return Err(self.fault(text("The constant is not a name")));
                    },
                };
                if self.stack.len() <= base {
                    return Err(self.fault(text("Stack underflow")));
                }
                let value = self.pop();
                self.globals.set(name, value);
                Ok(Action::Continue)
            },
            OpCode::SetGlobal(index) => {
                let name = match self.frames[top].function.block.string_at(index) {
                    Some(name) => name,
                    None => {
                        return Err(self.fault(text("The constant is not a name")));
                    },
                };
                if self.stack.len() <= base {
                    return Err(self.fault(text("Stack underflow")));
                }
                let value = self.peek(0);
                if self.globals.set(name.clone(), value) {
                    self.globals.delete(&name);
                    proof {
                        assert(self.globals@ =~= old(self).globals@);
                    }
                    return Err(self.fault(Self::undefined(&name)));
                }
                Ok(Action::Continue)
            },
            OpCode::Equal => {
                if self.stack.len() < 2 || self.stack.len() - 2 < base {
                    return Err(self.fault(text("Stack underflow")));
                }
                let b = self.pop();
                let a = self.pop();
                let equal: bool = a.equals(&b);
                self.stack.push(Value::Bool(equal));
                proof {
                    assert(self.stack@ =~= old(self)@.under_two().push(Value::Bool(equal)));
                }
                Ok(Action::Continue)
            },
            OpCode::Greater => self.compare(true),
            OpCode::Less => self.compare(false),
            OpCode::Add => self.add(),
            OpCode::Subtract => self.binary_op(Arithmetic::Subtract),
            OpCode::Multiply => self.binary_op(Arithmetic::Multiply),
            OpCode::Divide => self.binary_op(Arithmetic::Divide),
            OpCode::Not => {
                if self.stack.len() <= base {
                    return Err(self.fault(text("Stack underflow")));
                }
                let value = self.pop();
                self.stack.push(Value::Bool(value.is_falsey()));
                Ok(Action::Continue)
            },
            OpCode::Negate => {
                if self.stack.len() <= base {
                    return Err(self.fault(text("Stack underflow")));
                }
                match self.pop().as_number() {
                    Some(number) => {
                        self.stack.push(Value::Number(negate(number)));
                        Ok(Action::Continue)
                    },
                    None => Err(self.fault(text("Operand must be a number"))),
                }
            },
            OpCode::Print => {
                if self.stack.len() <= base {
                    return Err(self.fault(text("Stack underflow")));
                }
                let value = self.pop();
                Ok(Action::Print(value))
            },
            OpCode::Jump(offset) => {
                let ip: usize = self.frames[top].ip;
                if offset as usize > self.frames[top].function.block.code.len() - ip {
                    return Err(self.fault(text("Jump out of the code")));
                }
                self.go_to(ip + offset as usize);
                Ok(Action::Continue)
            },
            OpCode::JumpIfFalse(offset) => {
                if self.stack.len() <= base {
                    return Err(self.fault(text("Stack underflow")));
                }
                if self.stack[self.stack.len() - 1].is_falsey() {
                    let ip: usize = self.frames[top].ip;
                    if offset as usize > self.frames[top].function.block.code.len() - ip {
                        return Err(self.fault(text("Jump out of the code")));
                    }
                    self.go_to(ip + offset as usize);
                }
                Ok(Action::Continue)
            },
            OpCode::Loop(offset) => {
                let ip: usize = self.frames[top].ip;
                if ip < offset as usize + 1 {
                    return Err(self.fault(text("Jump out of the code")));
                }
                self.go_to(ip - offset as usize - 1);
                Ok(Action::Continue)
            },
            OpCode::Call(arg_count) => self.call_value(arg_count),
            OpCode::Return => self.leave(),
        }
    }

    /// Takes one step: fetches the next instruction of the running call
    /// and executes it. The result says what the host has to do before
    /// the next step. A runtime error ends the run: the machine is reset,
    /// and only the globals stay.
    pub fn step(&mut self) -> (result: Result<Action, LoxError>)
        requires
            old(self).wf(),
        ensures
            final(self).wf(),
            realizes(result, final(self)@, old(self)@, old(self)@.step()),
            old(self)@.steady() ==> final(self)@.steady(),
    {
        proof {
            if self@.steady() {
                law_sound_code_stays_in_its_chunk(self@);
                law_static_stack_depth(self@);
            }
        }
        if self.awaiting {
            return Err(self.fault(text("A result is awaited")));
        }
        if self.frames.len() == 0 {
            return Ok(Action::Halt);
        }
        let top: usize = self.frames.len() - 1;
        let ip: usize = self.frames[top].ip;
        if ip >= self.frames[top].function.block.code.len() {
            return Err(self.fault(text("Ran off the end of the code")));
        }
        let op: OpCode = self.frames[top].function.block.code[ip];
        self.go_to(ip + 1);
        let result = self.execute(op);
        proof {
            if old(self)@.steady() {
                match old(self)@.step() {
                    Outcome::Joins(next, _) => {
                        assert(self@.frames == next.frames);
                        assert(self@.stack.len() == next.stack.len() + 1);
                        let pushed = Machine { stack: next.stack.push(Value::Nil), ..next };
                        assert forall|i: int, heights: Seq<int>|
                            0 <= i < self@.frames.len() && #[trigger] typing(
                                self@.frames[i].function.block.code@,
                                heights,
                                self@.frames[i].function.arity as int,
                            ) implies self@.fits(i, heights) by {
                            assert(typing(
                                pushed.frames[i].function.block.code@,
                                heights,
                                pushed.frames[i].function.arity as int,
                            ));
                            assert(pushed.fits(i, heights));
                        }
                        assert forall|i: int| 0 <= i < self@.stack.len() implies value_sound(
                            #[trigger] self@.stack[i],
                        ) by {
                            if i < next.stack.len() {
                                assert(self@.stack[i] == self@.stack.drop_last()[i]);
                                assert(value_sound(next.stack[i]));
                            }
                        }
                        assert(self@.trusty());
                        assert(self@.measured());
                    },
                    Outcome::Fault(_, _) => {
                        assert(self@.trusty());
                        assert(self@.measured());
                    },
                    Outcome::Goes(_, _) => {},
                }
            }
        }
        result
    }

    /// Hands the machine the result that it awaits from its host, and
    /// lets it go on.
    pub fn resume(&mut self, value: Value) -> (result: Result<(), LoxError>)
        requires
            old(self).wf(),
        ensures
            final(self).wf(),
            old(self)@.steady() && value_sound(value) ==> final(self)@.steady(),
            old(self)@.awaiting ==> result is Ok && final(self)@ == (Machine {
                stack: old(self)@.stack.push(value),
                awaiting: false,
                ..old(self)@
            }),
            !old(self)@.awaiting ==> final(self)@ == old(self)@.reset() && (
            result matches Err(LoxError::RuntimeError { message, trace }) && message@
                == Fault::NothingAwaited.text()
                    && trace@.map_values(|t: TraceLine| (t.line, t.function@))
                == trace_of(old(self)@.frames)),
    {
        if !self.awaiting {
            return Err(self.fault(text("No result is awaited")));
        }
        proof {
            if self@.steady() {
                law_resume_measured(self@, value);
            }
        }
        self.stack.push(value);
        self.awaiting = false;
        proof {
            if old(self)@.steady() && value_sound(value) {
                assert forall|i: int| 0 <= i < self@.stack.len() implies value_sound(
                    #[trigger] self@.stack[i],
                ) by {
                    if i < old(self)@.stack.len() {
                        assert(value_sound(old(self)@.stack[i]));
                    }
                }
            }
        }
        Ok(())
    }

    /// Compiles a program and makes the machine ready to run it: the
    /// stacks are emptied, the function that holds the top level of the
    /// program is pushed, and a call of it is started. If the program
    /// does not compile, the machine stays as it is.
    pub fn interpret(&mut self, source: &str, numbers: &[u64]) -> (result: Result<(), LoxError>)
        requires
            old(self).wf(),
        ensures
            final(self).wf(),
            old(self)@.steady() ==> final(self)@.steady(),
            result is Ok == !compiled(source.spec_bytes(), numbers@).had_error,
            result matches Err(error) ==> final(self)@ == old(self)@ && (
            error matches LoxError::CompileError(diagnostics) && diagnostics@.map_values(
                |d: Vec<u8>| d@,
            ) == compiled(source.spec_bytes(), numbers@).messages),
            result is Ok ==> {
                &&& function_model(*final(self)@.frames[0].function) == compiled(
                    source.spec_bytes(),
                    numbers@,
                ).compiler.function
                &&& final(self)@.frames.len() == 1
                &&& final(self)@.frames[0].ip == 0
                &&& final(self)@.frames[0].slots == 0
                &&& function_sound(*final(self)@.frames[0].function)
                &&& final(self)@.stack == seq![Value::Function(final(self)@.frames[0].function)]
                &&& final(self)@.globals == old(self)@.globals
                &&& !final(self)@.awaiting
            },
    {
        let function = match compile_with(source, numbers, &mut self.strings) {
            Ok(function) => function,
            Err(error) => {
                return Err(error);
            },
        };
        self.reset_stack();
        self.stack.push(Value::Function(function.clone()));
        self.frames.push(CallFrame { function, ip: 0, slots: 0 });
        proof {
            assert(self@.frame() == self@.frames[0]);
            if old(self)@.steady() {
                assert(self@.globals == old(self)@.globals);
                assert(self@.trusty());
                assert(self@.measured());
            }
        }
        Ok(())
    }
}

} // verus!
