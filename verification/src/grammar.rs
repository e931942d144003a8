//! What the compiler does, as mathematics: the state of a compilation,
//! and for every construct of the language the function that takes the
//! state before the construct was read to the state after it.
//!
//! The functions follow the grammar. A token is read with
//! [`ParserModel::advance`]; an expression is compiled by
//! [`ParserModel::parse_precedence`], which takes an operand and then all
//! operators that bind tightly enough; statements and declarations are
//! compiled by [`ParserModel::statement`] and
//! [`ParserModel::declaration`]. [`compiled`] is the state after the whole
//! of a source was read.
use vstd::prelude::*;
use vstd::string::StringSliceAdditionalSpecFns;
use crate::bytes::decimal_digits;
use crate::compiler::{rule_of, FunctionType, ParseFn, Precedence, MAX_LOCALS};
use crate::block::MAX_CONSTANTS;
use crate::model::{FunctionModel, TokenModel, ValueModel};
use crate::objects::fnv1a;
use crate::op::OpCode;
use crate::scanner::{
    bump, lemma_lex_bounds, lemma_skip_bounds, lex_at, lexeme_at, lines_within, newlines, skip,
};
use crate::token::TokenType;

verus! {

/// A local variable: its name and the depth of the scope that declared
/// it, or -1 while its initializer is being compiled.
pub struct LocalModel {
    pub name: Seq<u8>,
    pub depth: i32,
}

/// The state of compiling one function: the function so far, the locals
/// that are in scope, innermost last, and the depth of the open scope.
#[verifier::ext_equal]
pub struct CompilerModel {
    pub function: FunctionModel,
    pub kind: FunctionType,
    pub locals: Seq<LocalModel>,
    pub depth: i32,
    /// The blocks that were compiled so far: for each `{` ... `}`
    /// statement the index of its first instruction and the index
    /// behind its last.
    pub blocks: Seq<(int, int)>,
}

/// A block of a function that was compiled: the code and the arity of
/// the function, the index of the first instruction of the block, and the
/// index behind its last.
pub struct ScopeModel {
    pub code: Seq<OpCode>,
    pub arity: usize,
    pub start: int,
    pub end: int,
}

/// The blocks of a function whose compilation is over.
pub open spec fn scopes_of(function: FunctionModel, blocks: Seq<(int, int)>) -> Seq<ScopeModel> {
    Seq::new(
        blocks.len(),
        |i: int|
            ScopeModel {
                code: function.code,
                arity: function.arity,
                start: blocks[i].0,
                end: blocks[i].1,
            },
    )
}

/// The state of a compilation: the source and the values of its number
/// literals; how far the source was scanned; the token that comes next
/// and the one before it; what was compiled so far, for the function
/// being compiled and for the functions around it, outermost first; and
/// the errors that were found.
#[verifier::ext_equal]
pub struct ParserModel {
    pub source: Seq<u8>,
    pub numbers: Seq<u64>,
    pub position: int,
    pub line: usize,
    pub current: TokenModel,
    pub previous: TokenModel,
    pub numbers_seen: usize,
    pub current_number: usize,
    pub previous_number: usize,
    pub compiler: CompilerModel,
    pub enclosing: Seq<CompilerModel>,
    pub had_error: bool,
    pub panic_mode: bool,
    pub messages: Seq<Seq<u8>>,
    /// The blocks of the functions whose compilation is over.
    pub scopes: Seq<ScopeModel>,
}

/// The text of a diagnostic: the line, the lexeme of the token at which
/// the error was found, or `end of file`, and the message.
pub open spec fn diagnostic_text(token: TokenModel, message: Seq<u8>) -> Seq<u8> {
    "[line ".spec_bytes() + decimal_digits(token.line as nat) + "] Error at ".spec_bytes() + (
    if token.kind == TokenType::Eof {
        "end of file".spec_bytes()
    } else {
        token.lexeme
    }) + ": ".spec_bytes() + message
}

/// The line of an instruction: the low 16 bits of the line of the token.
pub open spec fn line_of(line: usize) -> u16 {
    (line % 65536) as u16
}

/// The instruction with its jump distance set.
pub open spec fn with_distance(op: OpCode, distance: u16) -> OpCode {
    match op {
        OpCode::Jump(_) => OpCode::Jump(distance),
        OpCode::JumpIfFalse(_) => OpCode::JumpIfFalse(distance),
        _ => op,
    }
}

/// The index of the innermost local of that name among the first `n`:
/// the greatest index below `n` whose local has the name, or -1.
pub open spec fn innermost(locals: Seq<LocalModel>, name: Seq<u8>, n: int) -> int
    decreases n,
{
    if n <= 0 {
        -1
    } else if locals[n - 1].name == name {
        n - 1
    } else {
        innermost(locals, name, n - 1)
    }
}

/// Whether a local of that name was declared in the scope that is open
/// now: among the locals on top that belong to this scope, or are still
/// without a scope.
pub open spec fn declared_here(locals: Seq<LocalModel>, depth: int, name: Seq<u8>, n: int) -> bool
    decreases n,
{
    if n <= 0 {
        false
    } else if locals[n - 1].depth != -1 && locals[n - 1].depth < depth {
        false
    } else if locals[n - 1].name == name {
        true
    } else {
        declared_here(locals, depth, name, n - 1)
    }
}

/// How many of the locals stay when a scope closes and `depth` is the
/// depth of the scope around it: the locals on top that are deeper go.
pub open spec fn kept(locals: Seq<LocalModel>, depth: int) -> int
    decreases locals.len(),
{
    if locals.len() > 0 && locals.last().depth > depth {
        kept(locals.drop_last(), depth)
    } else {
        locals.len() as int
    }
}

/// That many `Pop` instructions.
pub open spec fn pops(n: int) -> Seq<OpCode> {
    Seq::new(n as nat, |i: int| OpCode::Pop)
}

/// That many copies of a line.
pub open spec fn repeated(line: u16, n: int) -> Seq<u16> {
    Seq::new(n as nat, |i: int| line)
}

/// The instructions of a binary operator.
pub open spec fn binary_code(operator: TokenType) -> Seq<OpCode> {
    match operator {
        TokenType::BangEqual => seq![OpCode::Equal, OpCode::Not],
        TokenType::EqualEqual => seq![OpCode::Equal],
        TokenType::Greater => seq![OpCode::Greater],
        TokenType::GreaterEqual => seq![OpCode::Less, OpCode::Not],
        TokenType::Less => seq![OpCode::Less],
        TokenType::LessEqual => seq![OpCode::Greater, OpCode::Not],
        TokenType::Plus => seq![OpCode::Add],
        TokenType::Minus => seq![OpCode::Subtract],
        TokenType::Star => seq![OpCode::Multiply],
        TokenType::Slash => seq![OpCode::Divide],
        _ => seq![],
    }
}

/// The compiler of a new function of that name and kind. Its first local
/// stands for the function itself and has no name.
pub open spec fn new_compiler(name: Seq<u8>, kind: FunctionType) -> CompilerModel {
    CompilerModel {
        function: FunctionModel {
            name: (name, fnv1a(name)),
            arity: 0,
            code: Seq::empty(),
            lines: Seq::empty(),
            constants: Seq::empty(),
        },
        kind,
        locals: seq![LocalModel { name: Seq::empty(), depth: 0 }],
        depth: 0,
        blocks: Seq::empty(),
    }
}

/// The state before anything of the source was read.
pub open spec fn initial(source: Seq<u8>, numbers: Seq<u64>) -> ParserModel {
    let nothing = TokenModel { kind: TokenType::Eof, lexeme: Seq::empty(), line: 0 };
    ParserModel {
        source,
        numbers,
        position: 0,
        line: 1,
        current: nothing,
        previous: nothing,
        numbers_seen: 0,
        current_number: 0,
        previous_number: 0,
        compiler: new_compiler("script".spec_bytes(), FunctionType::Script),
        enclosing: Seq::empty(),
        had_error: false,
        panic_mode: false,
        messages: Seq::empty(),
        scopes: Seq::empty(),
    }
}

/// The state at the end of the compilation of a source. If no error was
/// found, the function being compiled is the program.
pub open spec fn compiled(source: Seq<u8>, numbers: Seq<u64>) -> ParserModel {
    initial(source, numbers).compile()
}

impl ParserModel {
    /// A bound on the tokens still to come: the bytes not yet scanned,
    /// and one more unless the current token is the end of the input.
    pub open spec fn remaining(self) -> nat {
        (if 0 <= self.position <= self.source.len() {
            (self.source.len() - self.position) as nat
        } else {
            0nat
        }) + if self.current.kind != TokenType::Eof {
            1nat
        } else {
            0nat
        }
    }

    /// There is no more to come than in state `bound`. Where the
    /// definitions below go on only under this test, the test always
    /// holds; it stands there to show that the definitions are well
    /// founded.
    pub open spec fn within(self, bound: Self) -> bool {
        self.remaining() <= bound.remaining()
    }

    /// There is less to come than in state `bound`; see [`Self::within`].
    pub open spec fn before(self, bound: Self) -> bool {
        self.remaining() < bound.remaining()
    }

    /// The code of the function being compiled.
    pub open spec fn code(self) -> Seq<OpCode> {
        self.compiler.function.code
    }

    /// The index of the instruction that is emitted next.
    pub open spec fn here(self) -> int {
        self.compiler.function.code.len() as int
    }

    /// The state with another function being compiled.
    pub open spec fn with_function(self, function: FunctionModel) -> Self {
        ParserModel { compiler: CompilerModel { function, ..self.compiler }, ..self }
    }

    /// The state with other locals.
    pub open spec fn with_locals(self, locals: Seq<LocalModel>) -> Self {
        ParserModel { compiler: CompilerModel { locals, ..self.compiler }, ..self }
    }

    /// An error is reported at a token, unless the parser is in panic
    /// mode already: then the error is passed over.
    #[verifier::opaque]
    pub open spec fn report(self, token: TokenModel, message: Seq<u8>) -> Self {
        if self.panic_mode {
            self
        } else {
            ParserModel {
                had_error: true,
                panic_mode: true,
                messages: self.messages.push(diagnostic_text(token, message)),
                ..self
            }
        }
    }

    /// The next token is scanned and becomes the current one. A number
    /// literal gets its place among the number literals.
    #[verifier::opaque]
    pub open spec fn scanned(self) -> Self {
        let start = skip(self.source, self.position);
        let (kind, end) = lex_at(self.source, start);
        let line = bump(self.line as int, newlines(self.source, self.position, start));
        let token = TokenModel { kind, lexeme: lexeme_at(self.source, start), line: line as usize };
        let counted = if kind == TokenType::Number {
            ParserModel {
                current_number: self.numbers_seen,
                numbers_seen: (self.numbers_seen + 1) as usize,
                ..self
            }
        } else {
            self
        };
        ParserModel {
            current: token,
            position: end,
            line: bump(line, lines_within(self.source, start)) as usize,
            ..counted
        }
    }

    /// Tokens are scanned until one is not an error; the errors are
    /// reported.
    #[verifier::opaque]
    pub open spec fn skip_errors(self) -> Self
        decreases self.source.len() - self.position,
    {
        let next = self.scanned();
        if next.current.kind != TokenType::Error {
            next
        } else if self.position < next.position <= self.source.len() {
            proof {
                reveal(ParserModel::report);
                reveal(ParserModel::scanned);
            }
            next.report(next.current, "Unknown token.".spec_bytes()).skip_errors()
        } else {
            next
        }
    }

    /// One step forward in the tokens: the current token becomes the
    /// previous one.
    #[verifier::opaque]
    pub open spec fn advance(self) -> Self {
        ParserModel {
            previous: self.current,
            previous_number: self.current_number,
            ..self
        }.skip_errors()
    }

    /// A step forward if the current token is of the given kind.
    #[verifier::opaque]
    pub open spec fn accept(self, kind: TokenType) -> Self {
        if self.current.kind == kind {
            self.advance()
        } else {
            self
        }
    }

    /// A step forward if the current token is of the expected kind, and
    /// an error at it if not.
    #[verifier::opaque]
    pub open spec fn expect(self, kind: TokenType, message: Seq<u8>) -> Self {
        if self.current.kind == kind {
            self.advance()
        } else {
            self.report(self.current, message)
        }
    }

    /// Whether a statement may start at the current token, as far as
    /// error recovery is concerned.
    #[verifier::opaque]
    pub open spec fn at_statement(self) -> bool {
        ||| self.current.kind == TokenType::Eof
        ||| self.previous.kind == TokenType::Semicolon
        ||| self.current.kind == TokenType::Class
        ||| self.current.kind == TokenType::Fun
        ||| self.current.kind == TokenType::Var
        ||| self.current.kind == TokenType::For
        ||| self.current.kind == TokenType::If
        ||| self.current.kind == TokenType::While
        ||| self.current.kind == TokenType::Print
        ||| self.current.kind == TokenType::Return
    }

    /// Tokens are passed over until a statement may start.
    #[verifier::opaque]
    pub open spec fn resync(self) -> Self
        decreases self.remaining(),
    {
        if self.at_statement() {
            self
        } else {
            let next = self.advance();
            if next.before(self) {
                next.resync()
            } else {
                next
            }
        }
    }

    /// The state when panic mode has ended.
    pub open spec fn sync_start(self) -> Self {
        ParserModel { panic_mode: false, ..self }
    }

    /// Error recovery: panic mode ends, and tokens are passed over until
    /// a statement may start.
    #[verifier::opaque]
    pub open spec fn sync(self) -> Self {
        self.sync_start().resync()
    }

    /// An instruction is appended, on the line of the previous token.
    #[verifier::opaque]
    pub open spec fn emit(self, op: OpCode) -> Self {
        let f = self.compiler.function;
        self.with_function(
            FunctionModel {
                code: f.code.push(op),
                lines: f.lines.push(line_of(self.previous.line)),
                ..f
            },
        )
    }

    /// A jump back to `start` is appended, unless that is too far away.
    #[verifier::opaque]
    pub open spec fn emit_loop(self, start: int) -> Self {
        let distance = self.here() - start;
        if distance > u16::MAX {
            self.report(self.previous, "Loop body too large.".spec_bytes())
        } else {
            self.emit(OpCode::Loop(distance as u16))
        }
    }

    /// The forward jump at `offset` gets the distance with which it
    /// lands where the next instruction will stand. Too long a jump is
    /// an error.
    #[verifier::opaque]
    pub open spec fn patch_jump(self, offset: int) -> Self {
        let f = self.compiler.function;
        let distance = self.here() - offset - 1;
        if distance > u16::MAX {
            self.report(self.previous, "Too much code to jump over.".spec_bytes())
        } else if 0 <= offset < f.code.len() && f.code[offset].is_forward_jump() {
            self.with_function(
                FunctionModel {
                    code: f.code.update(offset, with_distance(f.code[offset], distance as u16)),
                    ..f
                },
            )
        } else {
            self.report(self.previous, "Can only patch jump instructions.".spec_bytes())
        }
    }

    /// A constant is added to the pool of the function; the result is
    /// its index. If the pool is full that is an error, and the result
    /// is 0.
    #[verifier::opaque]
    pub open spec fn make_constant(self, value: ValueModel) -> (Self, u8) {
        let f = self.compiler.function;
        if f.constants.len() < MAX_CONSTANTS {
            (
                self.with_function(FunctionModel { constants: f.constants.push(value), ..f }),
                f.constants.len() as u8,
            )
        } else {
            (self.report(self.previous, "Too many constants in one chunk.".spec_bytes()), 0u8)
        }
    }

    /// A constant is added, and the instruction that loads it appended.
    #[verifier::opaque]
    pub open spec fn emit_constant(self, value: ValueModel) -> Self {
        let (next, index) = self.make_constant(value);
        next.emit(OpCode::Constant(index))
    }

    /// The name of a variable is added to the constants.
    #[verifier::opaque]
    pub open spec fn identifier_constant(self, name: Seq<u8>) -> (Self, u8) {
        self.make_constant(ValueModel::Text(name, fnv1a(name)))
    }

    /// A scope is opened; the result says whether it was. Scopes nested
    /// deeper than a 32-bit number counts are an error.
    #[verifier::opaque]
    pub open spec fn begin_scope(self) -> (Self, bool) {
        if self.compiler.depth == i32::MAX {
            (self.report(self.previous, "Too many nested scopes.".spec_bytes()), false)
        } else {
            (
                ParserModel {
                    compiler: CompilerModel {
                        depth: (self.compiler.depth + 1) as i32,
                        ..self.compiler
                    },
                    ..self
                },
                true,
            )
        }
    }

    /// The open scope is closed: its locals go, and for each of them a
    /// `Pop` is appended that takes its value off the stack.
    #[verifier::opaque]
    pub open spec fn end_scope(self) -> Self {
        let c = self.compiler;
        let keep = kept(c.locals, c.depth - 1);
        let gone = c.locals.len() - keep;
        ParserModel {
            compiler: CompilerModel {
                function: FunctionModel {
                    code: c.function.code + pops(gone),
                    lines: c.function.lines + repeated(line_of(self.previous.line), gone),
                    ..c.function
                },
                locals: c.locals.take(keep),
                depth: (c.depth - 1) as i32,
                ..c
            },
            ..self
        }
    }

    /// A local of that name is added, not yet initialized. More than 256
    /// locals are an error.
    #[verifier::opaque]
    pub open spec fn add_local(self, name: TokenModel) -> Self {
        if self.compiler.locals.len() >= MAX_LOCALS {
            self.report(name, "Too many local variables in scope.".spec_bytes())
        } else {
            self.with_locals(
                self.compiler.locals.push(LocalModel { name: name.lexeme, depth: -1i32 }),
            )
        }
    }

    /// The variable that the previous token names is declared, if a
    /// scope is open; globals are not declared. A second variable of one
    /// name in one scope is an error.
    #[verifier::opaque]
    pub open spec fn declare_variable(self) -> Self {
        let c = self.compiler;
        if c.depth == 0 {
            self
        } else if declared_here(
            c.locals,
            c.depth as int,
            self.previous.lexeme,
            c.locals.len() as int,
        ) {
            self.report(
                self.previous,
                "Already a variable with this name in this scope.".spec_bytes(),
            ).add_local(self.previous)
        } else {
            self.add_local(self.previous)
        }
    }

    /// The name of a variable is read and the variable declared. The
    /// result is the constant that holds the name of a global, and 0 for
    /// a local.
    #[verifier::opaque]
    pub open spec fn parse_variable(self, message: Seq<u8>) -> (Self, u8) {
        let declared = self.expect(TokenType::Identifier, message).declare_variable();
        if declared.compiler.depth > 0 {
            (declared, 0u8)
        } else {
            declared.identifier_constant(declared.previous.lexeme)
        }
    }

    /// The local declared last is marked as initialized, if a scope is
    /// open.
    #[verifier::opaque]
    pub open spec fn mark_initialized(self) -> Self {
        let c = self.compiler;
        if c.depth > 0 {
            self.with_locals(
                c.locals.update(
                    c.locals.len() - 1,
                    LocalModel { name: c.locals.last().name, depth: c.depth },
                ),
            )
        } else {
            self
        }
    }

    /// The variable that was declared last is defined: a local is marked
    /// as initialized, a global gets the instruction that defines it.
    #[verifier::opaque]
    pub open spec fn define_variable(self, global: u8) -> Self {
        if self.compiler.depth > 0 {
            self.mark_initialized()
        } else {
            self.emit(OpCode::DefGlobal(global))
        }
    }

    /// The slot of the innermost local of that name, if there is one. To
    /// name a local in its own initializer is an error.
    #[verifier::opaque]
    pub open spec fn resolve_local(self, name: TokenModel) -> (Self, Option<u8>) {
        let locals = self.compiler.locals;
        let slot = innermost(locals, name.lexeme, locals.len() as int);
        if slot < 0 {
            (self, None)
        } else if locals[slot].depth == -1 {
            (
                self.report(
                    name,
                    "Can't read local variable in its own initializer.".spec_bytes(),
                ),
                Some(slot as u8),
            )
        } else {
            (self, Some(slot as u8))
        }
    }

    /// The compilation of a function begins that is named by the
    /// previous token.
    #[verifier::opaque]
    pub open spec fn compiler_push(self, kind: FunctionType) -> Self {
        ParserModel {
            compiler: new_compiler(self.previous.lexeme, kind),
            enclosing: self.enclosing.push(self.compiler),
            ..self
        }
    }

    /// The compilation of a function ends, which returns `nil` at its
    /// end; the result is the function. The function around it is the
    /// one being compiled again.
    #[verifier::opaque]
    pub open spec fn compiler_pop(self) -> (Self, FunctionModel) {
        let done = self.emit(OpCode::Nil).emit(OpCode::Return);
        (
            ParserModel {
                compiler: done.enclosing.last(),
                enclosing: done.enclosing.drop_last(),
                scopes: done.scopes + scopes_of(done.compiler.function, done.compiler.blocks),
                ..done
            },
            done.compiler.function,
        )
    }

    /// An expression.
    #[verifier::opaque]
    pub open spec fn expression(self) -> Self
        decreases self.remaining(), 9int,
    {
        self.parse_precedence(Precedence::Assignment)
    }

    /// An expression whose operators bind at least as tightly as the
    /// given precedence: the operand that the next token starts, and
    /// then every operator of that precedence or above with its right
    /// operand. An assignment is compiled only where the precedence lets
    /// one stand; a `=` that is left over there is an error.
    #[verifier::opaque]
    pub open spec fn parse_precedence(self, precedence: Precedence) -> Self
        decreases self.remaining(), 8int,
    {
        let first = self.advance();
        let can_assign = precedence.rank() <= Precedence::Assignment.rank();
        match rule_of(first.previous.kind).prefix {
            None => first.report(first.previous, "Expected expression.".spec_bytes()),
            Some(prefix) => {
                if !first.before(self) {
                    first
                } else {
                    let operand = match prefix {
                        ParseFn::Grouping => first.grouping(),
                        ParseFn::Unary => first.unary(),
                        ParseFn::Variable => first.named_variable(first.previous, can_assign),
                        ParseFn::String => first.string(),
                        ParseFn::Number => first.number(),
                        ParseFn::Literal => first.literal(),
                        _ => first,
                    };
                    if !operand.within(first) {
                        operand
                    } else {
                        let whole = operand.operators(precedence, can_assign);
                        if can_assign && whole.current.kind == TokenType::Equal {
                            let after = whole.advance();
                            after.report(after.previous, "Invalid assignment target.".spec_bytes())
                        } else {
                            whole
                        }
                    }
                }
            },
        }
    }

    /// The operators that bind at least as tightly as the given
    /// precedence, each with its right operand, after a left operand.
    #[verifier::opaque]
    pub open spec fn operators(self, precedence: Precedence, can_assign: bool) -> Self
        decreases self.remaining(), 7int,
    {
        if precedence.rank() >= 1 && precedence.rank() <= rule_of(
            self.current.kind,
        ).precedence.rank() {
            let first = self.advance();
            if !first.before(self) {
                first
            } else {
                let applied = match rule_of(first.previous.kind).infix {
                    Some(ParseFn::Call) => first.call(),
                    Some(ParseFn::Binary) => first.binary(),
                    Some(ParseFn::And) => first.and(),
                    Some(ParseFn::Or) => first.or(),
                    _ => first,
                };
                if !applied.within(first) {
                    applied
                } else {
                    applied.operators(precedence, can_assign)
                }
            }
        } else {
            self
        }
    }

    /// A number literal: the constant with its value.
    #[verifier::opaque]
    pub open spec fn number(self) -> Self {
        if self.previous_number < self.numbers.len() {
            self.emit_constant(ValueModel::Number(self.numbers[self.previous_number as int]))
        } else {
            self.report(self.previous, "Number literal without a value.".spec_bytes())
        }
    }

    /// A string literal: the constant with the text between the quotes.
    #[verifier::opaque]
    pub open spec fn string(self) -> Self {
        let inner = self.previous.lexeme.subrange(1, self.previous.lexeme.len() - 1);
        self.emit_constant(ValueModel::Text(inner, fnv1a(inner)))
    }

    /// `true`, `false` or `nil`.
    #[verifier::opaque]
    pub open spec fn literal(self) -> Self {
        match self.previous.kind {
            TokenType::True => self.emit(OpCode::True),
            TokenType::False => self.emit(OpCode::False),
            TokenType::Nil => self.emit(OpCode::Nil),
            _ => self,
        }
    }

    /// An expression in parentheses.
    #[verifier::opaque]
    pub open spec fn grouping(self) -> Self
        decreases self.remaining(), 12int,
    {
        self.expression().expect(TokenType::RightParen, "Expect ')' after expression.".spec_bytes())
    }

    /// `!` or `-` with its operand: the operand first, then the
    /// instruction.
    #[verifier::opaque]
    pub open spec fn unary(self) -> Self
        decreases self.remaining(), 12int,
    {
        let operand = self.parse_precedence(Precedence::Unary);
        if self.previous.kind == TokenType::Bang {
            operand.emit(OpCode::Not)
        } else {
            operand.emit(OpCode::Negate)
        }
    }

    /// A binary operator after its left operand: the right operand,
    /// which takes only operators that bind tighter, and then the
    /// instructions of the operator.
    #[verifier::opaque]
    pub open spec fn binary(self) -> Self
        decreases self.remaining(), 12int,
    {
        let operator = self.previous.kind;
        let operand = self.parse_precedence(rule_of(operator).precedence.successor());
        let code = binary_code(operator);
        if code.len() == 2 {
            operand.emit(code[0]).emit(code[1])
        } else if code.len() == 1 {
            operand.emit(code[0])
        } else {
            operand
        }
    }

    /// The use of a variable: a read, or a write where an assignment may
    /// stand and a `=` follows. If any local has the name, the
    /// instruction names the slot of the innermost one, and else a
    /// global.
    #[verifier::opaque]
    pub open spec fn named_variable(self, name: TokenModel, can_assign: bool) -> Self
        decreases self.remaining(), 12int,
    {
        let (looked, slot) = self.resolve_local(name);
        let (named, get, set) = match slot {
            Some(k) => (looked, OpCode::GetLocal(k), OpCode::SetLocal(k)),
            None => {
                let (next, k) = looked.identifier_constant(name.lexeme);
                (next, OpCode::GetGlobal(k), OpCode::SetGlobal(k))
            },
        };
        if can_assign && named.current.kind == TokenType::Equal {
            let after = named.advance();
            if !after.within(self) {
                after
            } else {
                after.expression().emit(set)
            }
        } else {
            named.emit(get)
        }
    }

    /// `and` after its left operand: if that is falsey it stays as the
    /// result and the right operand is jumped over.
    #[verifier::opaque]
    pub open spec fn and(self) -> Self
        decreases self.remaining(), 12int,
    {
        let jump = self.here();
        proof {
            reveal(ParserModel::emit);
        }
        self.emit(OpCode::JumpIfFalse(0xFFFF)).emit(OpCode::Pop).parse_precedence(
            Precedence::And,
        ).patch_jump(jump)
    }

    /// `or` after its left operand: if that is truthy it stays as the
    /// result and the right operand is jumped over.
    #[verifier::opaque]
    pub open spec fn or(self) -> Self
        decreases self.remaining(), 12int,
    {
        let else_jump = self.here();
        let end_jump = self.here() + 1;
        proof {
            reveal(ParserModel::emit);
            reveal(ParserModel::patch_jump);
            reveal(ParserModel::report);
        }
        self.emit(OpCode::JumpIfFalse(0xFFFF)).emit(OpCode::Jump(0xFFFF)).patch_jump(
            else_jump,
        ).emit(OpCode::Pop).parse_precedence(Precedence::Or).patch_jump(end_jump)
    }

    /// A call after its callee: the arguments, then the instruction that
    /// calls with their number.
    #[verifier::opaque]
    pub open spec fn call(self) -> Self
        decreases self.remaining(), 13int,
    {
        let (after, count) = self.argument_list();
        after.emit(OpCode::Call(count))
    }

    /// The arguments of a call up to the closing parenthesis, and their
    /// number. More than 255 arguments are an error.
    #[verifier::opaque]
    pub open spec fn argument_list(self) -> (Self, u8)
        decreases self.remaining(), 12int,
    {
        let (after, count) = if self.current.kind != TokenType::RightParen {
            self.arguments(0)
        } else {
            (self, 0u8)
        };
        (after.expect(TokenType::RightParen, "Expected ')' after arguments.".spec_bytes()), count)
    }

    /// The arguments from the current token on, after `count` arguments.
    #[verifier::opaque]
    pub open spec fn arguments(self, count: u8) -> (Self, u8)
        decreases self.remaining(), 11int,
    {
        let argument = self.expression();
        let (counted, next) = if count == 255 {
            (
                argument.report(
                    argument.previous,
                    "Can't have more than 255 arguments.".spec_bytes(),
                ),
                count,
            )
        } else {
            (argument, (count + 1) as u8)
        };
        if counted.current.kind == TokenType::Comma {
            let after = counted.advance();
            if !after.before(self) {
                (after, next)
            } else {
                after.arguments(next)
            }
        } else {
            (counted, next)
        }
    }

    /// `print` with its expression.
    #[verifier::opaque]
    pub open spec fn print_statement(self) -> Self {
        self.expression().expect(
            TokenType::Semicolon,
            "Expected semicolon after value.".spec_bytes(),
        ).emit(OpCode::Print)
    }

    /// An expression as a statement: its value is popped.
    #[verifier::opaque]
    pub open spec fn expression_statement(self) -> Self {
        self.expression().expect(
            TokenType::Semicolon,
            "Expected semicolon after expression.".spec_bytes(),
        ).emit(OpCode::Pop)
    }

    /// `return`, with or without a value. At the top level of a program
    /// it is an error.
    #[verifier::opaque]
    pub open spec fn return_statement(self) -> Self {
        let checked = if self.compiler.kind == FunctionType::Script {
            self.report(self.previous, "Can't return from top-level code.".spec_bytes())
        } else {
            self
        };
        if checked.current.kind == TokenType::Semicolon {
            checked.advance().emit(OpCode::Nil).emit(OpCode::Return)
        } else {
            checked.expression().expect(
                TokenType::Semicolon,
                "Expected ';' after return value.".spec_bytes(),
            ).emit(OpCode::Return)
        }
    }

    /// The declaration of a variable: the initializer, or `nil` without
    /// one, and then the definition.
    #[verifier::opaque]
    pub open spec fn var_declaration(self) -> Self {
        let (named, global) = self.parse_variable("Expected variable name.".spec_bytes());
        let valued = if named.current.kind == TokenType::Equal {
            named.advance().expression()
        } else {
            named.emit(OpCode::Nil)
        };
        valued.expect(
            TokenType::Semicolon,
            "Expected semicolon after variable declaration.".spec_bytes(),
        ).define_variable(global)
    }

    /// A declaration or a statement; after an error, what follows is
    /// passed over up to where the next statement may start.
    #[verifier::opaque]
    pub open spec fn declaration(self) -> Self
        decreases self.remaining(), 20int,
    {
        let done = if self.current.kind == TokenType::Fun {
            let after = self.advance();
            if !after.before(self) {
                after
            } else {
                after.fun_declaration()
            }
        } else if self.current.kind == TokenType::Var {
            self.advance().var_declaration()
        } else {
            self.statement()
        };
        if done.panic_mode {
            done.sync()
        } else {
            done
        }
    }

    /// The declaration of a function. The name counts as initialized
    /// before the body is compiled, so that the function can call
    /// itself.
    #[verifier::opaque]
    pub open spec fn fun_declaration(self) -> Self
        decreases self.remaining(), 36int,
    {
        let (named, global) = self.parse_variable("Expected function name.".spec_bytes());
        let marked = named.mark_initialized();
        if !marked.within(self) {
            marked
        } else {
            marked.function(FunctionType::Function).define_variable(global)
        }
    }

    /// The parameters and the body of a function, compiled into a chunk
    /// of its own, and the instruction that loads the function as a
    /// constant.
    #[verifier::opaque]
    pub open spec fn function(self, kind: FunctionType) -> Self
        decreases self.remaining(), 35int,
    {
        let opened = self.compiler_push(kind).begin_scope().0.expect(
            TokenType::LeftParen,
            "Expected '(' after function name.".spec_bytes(),
        );
        let listed = if opened.current.kind != TokenType::RightParen {
            opened.parameters()
        } else {
            opened
        };
        let ready = listed.expect(
            TokenType::RightParen,
            "Expected ')' after parameters.".spec_bytes(),
        ).expect(TokenType::LeftBrace, "Expected '{' before function body.".spec_bytes());
        if !ready.within(self) {
            ready
        } else {
            let (outer, function) = ready.block().compiler_pop();
            let (next, index) = outer.make_constant(ValueModel::Function(Box::new(function)));
            next.emit(OpCode::Constant(index))
        }
    }

    /// The parameters of a function from the current token on. More
    /// than 255 parameters are an error.
    #[verifier::opaque]
    pub open spec fn parameters(self) -> Self
        decreases self.remaining(),
    {
        let c = self.compiler;
        let counted = if c.function.arity == 255 {
            self.report(self.previous, "Can't have more than 255 parameters.".spec_bytes())
        } else {
            self.with_function(
                FunctionModel { arity: (c.function.arity + 1) as usize, ..c.function },
            )
        };
        let (named, global) = counted.parse_variable("Expected parameter name.".spec_bytes());
        let defined = named.define_variable(global);
        if defined.current.kind == TokenType::Comma {
            let after = defined.advance();
            if !after.before(self) {
                after
            } else {
                after.parameters()
            }
        } else {
            defined
        }
    }

    /// The declarations of a block up to its closing brace.
    #[verifier::opaque]
    pub open spec fn block(self) -> Self
        decreases self.remaining(), 30int,
    {
        self.declarations().expect(TokenType::RightBrace, "Expected '}' after block.".spec_bytes())
    }

    /// Declarations up to a closing brace or the end of the input.
    #[verifier::opaque]
    pub open spec fn declarations(self) -> Self
        decreases self.remaining(), 29int,
    {
        if self.current.kind != TokenType::RightBrace && self.current.kind != TokenType::Eof {
            let one = self.declaration();
            if !one.before(self) {
                one
            } else {
                one.declarations()
            }
        } else {
            self
        }
    }

    /// A statement.
    #[verifier::opaque]
    pub open spec fn statement(self) -> Self
        decreases self.remaining(), 17int,
    {
        let kind = self.current.kind;
        if kind == TokenType::Print {
            self.advance().print_statement()
        } else if kind == TokenType::Return {
            self.advance().return_statement()
        } else if kind == TokenType::For || kind == TokenType::If || kind == TokenType::While
            || kind == TokenType::LeftBrace {
            let after = self.advance();
            if !after.before(self) {
                after
            } else if kind == TokenType::For {
                after.for_statement()
            } else if kind == TokenType::If {
                after.if_statement()
            } else if kind == TokenType::While {
                after.while_statement()
            } else {
                proof {
                    reveal(ParserModel::begin_scope);
                    reveal(ParserModel::report);
                }
                let (inner, opened) = after.begin_scope();
                let done = inner.block();
                if opened {
                    done.end_scope().close_block(after.here())
                } else {
                    done
                }
            }
        } else {
            self.expression_statement()
        }
    }

    /// A block that started at index `start` is over: it is added to the
    /// blocks of the function.
    pub open spec fn close_block(self, start: int) -> Self {
        ParserModel {
            compiler: CompilerModel {
                blocks: self.compiler.blocks.push((start, self.here())),
                ..self.compiler
            },
            ..self
        }
    }

    /// `while`: the condition, a jump past the body that is taken if the
    /// condition is falsey, the body, and the jump back to the
    /// condition. The value of the condition is popped on both ways.
    #[verifier::opaque]
    pub open spec fn while_statement(self) -> Self
        decreases self.remaining(), 25int,
    {
        let start = self.here();
        let condition = self.expect(
            TokenType::LeftParen,
            "Expected '(' after 'while'.".spec_bytes(),
        ).expression().expect(TokenType::RightParen, "Expected ')' after condition.".spec_bytes());
        let exit = condition.here();
        let test = condition.emit(OpCode::JumpIfFalse(0xFFFF)).emit(OpCode::Pop);
        if !test.within(self) {
            test
        } else {
            test.statement().emit_loop(start).patch_jump(exit).emit(OpCode::Pop)
        }
    }

    /// `if` with or without `else`: the condition, a jump to the `else`
    /// part that is taken if the condition is falsey, the `then` part,
    /// and a jump past the `else` part. The value of the condition is
    /// popped on both ways.
    #[verifier::opaque]
    pub open spec fn if_statement(self) -> Self
        decreases self.remaining(), 25int,
    {
        let condition = self.expect(
            TokenType::LeftParen,
            "Expected '(' after 'if'.".spec_bytes(),
        ).expression().expect(TokenType::RightParen, "Expected ')' after condition.".spec_bytes());
        let then_jump = condition.here();
        let test = condition.emit(OpCode::JumpIfFalse(0xFFFF)).emit(OpCode::Pop);
        if !test.within(self) {
            test
        } else {
            let then = test.statement();
            let else_jump = then.here();
            let between = then.emit(OpCode::Jump(0xFFFF)).patch_jump(then_jump).emit(OpCode::Pop);
            let other = if between.current.kind == TokenType::Else {
                let after = between.advance();
                if !after.within(self) {
                    after
                } else {
                    after.statement()
                }
            } else {
                between
            };
            other.patch_jump(else_jump)
        }
    }

    /// The condition of a `for` loop, if it has one, with the jump out
    /// of the loop, and the index of that jump.
    #[verifier::opaque]
    pub open spec fn for_condition(self) -> (Self, Option<int>) {
        if self.current.kind != TokenType::Semicolon {
            let condition = self.expression().expect(
                TokenType::Semicolon,
                "Expected ';' after loop condition.".spec_bytes(),
            );
            (
                condition.emit(OpCode::JumpIfFalse(0xFFFF)).emit(OpCode::Pop),
                Some(condition.here()),
            )
        } else {
            (self.advance(), None)
        }
    }

    /// The increment of a `for` loop, if it has one: a jump over it to
    /// the body, the increment, and the jump back to `start`. The
    /// result is the index that the end of the body jumps back to: the
    /// start of the increment, or `start` without one.
    #[verifier::opaque]
    pub open spec fn for_increment(self, start: int) -> (Self, int) {
        if self.current.kind != TokenType::RightParen {
            let body_jump = self.here();
            (
                self.emit(OpCode::Jump(0xFFFF)).expression().emit(OpCode::Pop).expect(
                    TokenType::RightParen,
                    "Expected ')' after for clauses.".spec_bytes(),
                ).emit_loop(start).patch_jump(body_jump),
                body_jump + 1,
            )
        } else {
            (self.advance(), start)
        }
    }

    /// The body of a `for` loop with the jump back; the jump out of the
    /// loop, if there is one, gets its distance.
    #[verifier::opaque]
    pub open spec fn for_body(self, start: int, exit: Option<int>) -> Self
        decreases self.remaining(), 24int,
    {
        let looped = self.statement().emit_loop(start);
        match exit {
            Some(jump) => looped.patch_jump(jump).emit(OpCode::Pop),
            None => looped,
        }
    }

    /// The clauses of a `for` loop: the initializer, the condition and
    /// the increment. The result holds the index that the end of the
    /// body jumps back to, and the index of the jump out of the loop.
    #[verifier::opaque]
    pub open spec fn for_clauses(self) -> (Self, int, Option<int>) {
        let clauses = self.expect(TokenType::LeftParen, "Expected '(' after 'for'.".spec_bytes());
        let initialized = if clauses.current.kind == TokenType::Semicolon {
            clauses.advance()
        } else if clauses.current.kind == TokenType::Var {
            clauses.advance().var_declaration()
        } else {
            clauses.expression_statement()
        };
        let (conditioned, exit) = initialized.for_condition();
        let (incremented, start) = conditioned.for_increment(initialized.here());
        (incremented, start, exit)
    }

    /// `for`, in a scope of its own: the initializer; the condition with
    /// a jump out of the loop; the increment, which is jumped over on
    /// the way in and run after the body; and the body.
    #[verifier::opaque]
    pub open spec fn for_statement(self) -> Self
        decreases self.remaining(), 25int,
    {
        let (scoped, opened) = self.begin_scope();
        let (incremented, start, exit) = scoped.for_clauses();
        if !incremented.within(self) {
            incremented
        } else {
            let done = incremented.for_body(start, exit);
            if opened {
                done.end_scope()
            } else {
                done
            }
        }
    }

    /// The declarations of a program up to the end of the input.
    #[verifier::opaque]
    pub open spec fn program(self) -> Self
        decreases self.remaining(),
    {
        if self.current.kind == TokenType::Eof {
            self.advance()
        } else {
            let one = self.declaration();
            if !one.before(self) {
                one
            } else {
                one.program()
            }
        }
    }

    /// The whole source is compiled: its declarations, and at the end
    /// the instructions that return `nil`.
    #[verifier::opaque]
    pub open spec fn compile(self) -> Self {
        let done = self.advance().program().emit(OpCode::Nil).emit(OpCode::Return);
        ParserModel {
            scopes: done.scopes + scopes_of(done.compiler.function, done.compiler.blocks),
            ..done
        }
    }
}

/// Scanning up to a token that is not an error keeps within the source
/// and takes at least one byte unless the end of the input is reached.
pub proof fn lemma_skip_errors(m: ParserModel)
    requires
        0 <= m.position <= m.source.len(),
    ensures
        m.skip_errors().source == m.source,
        m.position <= m.skip_errors().position <= m.source.len(),
        m.skip_errors().current.kind != TokenType::Eof ==> m.position < m.skip_errors().position,
        m.skip_errors().compiler == m.compiler,
        m.skip_errors().previous == m.previous,
    decreases m.source.len() - m.position,
{
    reveal(ParserModel::skip_errors);
    reveal(ParserModel::scanned);
    reveal(ParserModel::report);
    lemma_skip_bounds(m.source, m.position);
    lemma_lex_bounds(m.source, skip(m.source, m.position));
    let next = m.scanned();
    if next.current.kind == TokenType::Error && m.position < next.position <= m.source.len() {
        lemma_skip_errors(next.report(next.current, "Unknown token.".spec_bytes()));
    }
}

/// After a step forward there is no more to come than before, and less
/// if the current token was not the end of the input. The function
/// being compiled stays as it is.
pub proof fn lemma_advance(m: ParserModel)
    requires
        0 <= m.position <= m.source.len(),
    ensures
        m.advance().within(m),
        m.current.kind != TokenType::Eof ==> m.advance().before(m),
        m.advance().compiler == m.compiler,
        m.advance().previous == m.current,
{
    reveal(ParserModel::advance);
    lemma_skip_errors(
        ParserModel { previous: m.current, previous_number: m.current_number, ..m },
    );
}

/// A variable is read and written in its innermost binding: where a
/// local has the name, the instruction that reads or writes the variable
/// names the slot of the innermost local of that name. A write is
/// compiled where an assignment may stand and `=` follows the name.
pub proof fn law_innermost_binding(m: ParserModel, name: TokenModel, can_assign: bool)
    requires
        0 <= m.position <= m.source.len(),
        innermost(m.compiler.locals, name.lexeme, m.compiler.locals.len() as int) >= 0,
    ensures
        ({
            let slot = innermost(m.compiler.locals, name.lexeme, m.compiler.locals.len() as int);
            let after = m.named_variable(name, can_assign);
            &&& after.code().len() > 0
            &&& after.code().last() == if can_assign && m.current.kind == TokenType::Equal {
                OpCode::SetLocal(slot as u8)
            } else {
                OpCode::GetLocal(slot as u8)
            }
            &&& m.compiler.locals[slot].name == name.lexeme
            &&& forall|j: int|
                slot < j < m.compiler.locals.len() ==> (#[trigger] m.compiler.locals[j]).name
                    != name.lexeme
        }),
{
    reveal(ParserModel::named_variable);
    reveal(ParserModel::resolve_local);
    reveal(ParserModel::report);
    reveal(ParserModel::emit);
    let (looked, slot) = m.resolve_local(name);
    lemma_advance(looked);
    crate::compiler::lemma_innermost(
        m.compiler.locals,
        name.lexeme,
        m.compiler.locals.len() as int,
    );
}

/// The result of a compilation depends on nothing but the source and the
/// values of its number literals: two functions that come out of
/// compiling the same source with the same values are the same, name,
/// arity, code, lines and constants.
pub proof fn law_same_source_same_code(
    source: Seq<u8>,
    numbers: Seq<u64>,
    first: FunctionModel,
    second: FunctionModel,
)
    requires
        first == compiled(source, numbers).compiler.function,
        second == compiled(source, numbers).compiler.function,
    ensures
        first == second,
{
}

/// The empty program compiles to the two instructions that return `nil`
/// and has no constants.
pub proof fn law_empty_program(numbers: Seq<u64>)
    ensures
        !compiled(Seq::empty(), numbers).had_error,
        compiled(Seq::empty(), numbers).compiler.function.code == seq![
            OpCode::Nil,
            OpCode::Return,
        ],
        compiled(Seq::empty(), numbers).compiler.function.constants == Seq::<ValueModel>::empty(),
{
    let start = initial(Seq::empty(), numbers);
    reveal(ParserModel::compile);
    reveal(ParserModel::advance);
    reveal(ParserModel::skip_errors);
    reveal(ParserModel::scanned);
    reveal(ParserModel::program);
    reveal(ParserModel::emit);
    let first = start.advance();
    assert(first.current.kind == TokenType::Eof);
    let second = first.advance();
    assert(second.current.kind == TokenType::Eof);
    assert(compiled(Seq::empty(), numbers).compiler.function.code =~= seq![
        OpCode::Nil,
        OpCode::Return,
    ]);
}

} // verus!
