//! The errors that end a compilation or a run.
use vstd::prelude::*;

verus! {

/// One line of a runtime stack trace: a live call frame.
#[derive(Debug)]
pub struct TraceLine {
    /// The source line of the instruction that the frame was executing.
    pub line: u16,
    /// The name of the frame's function, as bytes.
    pub function: Vec<u8>,
}

/// What ends an interpretation early.
#[derive(Debug)]
pub enum LoxError {
    /// The source did not compile. Each diagnostic is one rendered line.
    CompileError(Vec<Vec<u8>>),
    /// Execution broke a rule of the language. The trace lists the live
    /// frames, innermost first.
    RuntimeError { message: Vec<u8>, trace: Vec<TraceLine> },
}

} // verus!
