//! A compiler and a virtual machine for a small scripting language with
//! dynamic types, first-class functions, lexical scopes and the usual
//! control flow.
//!
//! The compiler reads the source once and emits bytecode while it reads:
//! [`scanner`] cuts the source into tokens, [`compiler`] parses them by
//! precedence and emits the code of each function into a [`block`].
//! What the compiler does is laid down in [`grammar`], as functions on
//! the state of a compilation; the compiler is proved to do exactly
//! that, to emit only jumps that land in their chunk, and to know the
//! depth of the stack at every instruction that it emits.
//!
//! The machine in [`vm`] executes one instruction at a time on a stack
//! of values and a stack of calls. Numbers are IEEE-754 doubles, held as
//! their 64 bits: the machine compares and negates them itself and
//! leaves arithmetic, like printing and native functions, to its host,
//! to which every step says what to do. Strings are held once in a
//! [`table`], an open-addressed hash table with tombstones.
pub mod block;
pub mod bytes;
pub mod clock;
pub mod compiler;
pub mod error;
pub mod grammar;
pub mod model;
pub mod number;
pub mod objects;
pub mod op;
pub mod scanner;
pub mod table;
pub mod token;
pub mod value;
pub mod vm;
