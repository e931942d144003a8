//! The compiler: a parser that climbs the precedences of the operators
//! and emits the bytecode of a function while it reads the source.
//!
//! Every function of the parser is proved to do to the state of the
//! compilation what the function of the same name in [`crate::grammar`]
//! says. Besides, the parser keeps account of the depth of the stack at
//! every instruction that it emits, and so proves that the code it emits
//! has a typing, that every jump lands in its chunk, and that the stack
//! is as deep behind each block as before it.
use vstd::prelude::*;
use vstd::slice::slice_to_vec;
use vstd::string::StringSliceAdditionalSpecFns;
use std::rc::Rc;
use crate::block::{
    falls_through, grows, jumps_land, lands, levels, operand_fits, steps, takes, typed, typing,
    Block, MAX_CONSTANTS,
};
use crate::bytes::{append_bytes, bytes_equal, decimal, decimal_digits};
use crate::error::LoxError;
use crate::grammar::{
    binary_code, compiled, declared_here, diagnostic_text, innermost, kept, line_of, pops,
    repeated, scopes_of, with_distance, CompilerModel, LocalModel, ParserModel, ScopeModel,
};
use crate::model::{
    constant_models, function_model, lemma_constant_models_push, value_model, FunctionModel,
    ValueModel,
};
use crate::objects::{Function, LoxString};
use crate::op::OpCode;
use crate::scanner::Scanner;
use crate::table::Table;
use crate::token::{Token, TokenType};
use crate::value::{constants_sound, function_sound, Value};

verus! {

/// How tightly an operator binds, from loosest to tightest.
#[derive(Debug, Clone, Copy, PartialEq, Eq, Structural)]
pub enum Precedence {
    Lowest,
    Assignment,
    Or,
    And,
    Equality,
    Comparison,
    Term,
    Factor,
    Unary,
    Call,
    Primary,
}

impl Precedence {
    /// The place of the precedence in the order, from 0 for `Lowest` to 10
    /// for `Primary`.
    pub open spec fn rank(self) -> int {
        match self {
            Precedence::Lowest => 0,
            Precedence::Assignment => 1,
            Precedence::Or => 2,
            Precedence::And => 3,
            Precedence::Equality => 4,
            Precedence::Comparison => 5,
            Precedence::Term => 6,
            Precedence::Factor => 7,
            Precedence::Unary => 8,
            Precedence::Call => 9,
            Precedence::Primary => 10,
        }
    }

    /// The place of the precedence in the order.
    pub fn level(self) -> (r: u8)
        ensures
            r == self.rank(),
    {
        match self {
            Precedence::Lowest => 0,
            Precedence::Assignment => 1,
            Precedence::Or => 2,
            Precedence::And => 3,
            Precedence::Equality => 4,
            Precedence::Comparison => 5,
            Precedence::Term => 6,
            Precedence::Factor => 7,
            Precedence::Unary => 8,
            Precedence::Call => 9,
            Precedence::Primary => 10,
        }
    }

    /// The next tighter precedence; `Primary` is the tightest.
    pub open spec fn successor(self) -> Precedence {
        match self {
            Precedence::Lowest => Precedence::Assignment,
            Precedence::Assignment => Precedence::Or,
            Precedence::Or => Precedence::And,
            Precedence::And => Precedence::Equality,
            Precedence::Equality => Precedence::Comparison,
            Precedence::Comparison => Precedence::Term,
            Precedence::Term => Precedence::Factor,
            Precedence::Factor => Precedence::Unary,
            Precedence::Unary => Precedence::Call,
            Precedence::Call => Precedence::Primary,
            Precedence::Primary => Precedence::Primary,
        }
    }

    /// The next tighter precedence; `Primary` is the tightest.
    pub fn next(self) -> (r: Precedence)
        ensures
            r == self.successor(),
            r.rank() == if self.rank() < 10 {
                self.rank() + 1
            } else {
                10
            },
    {
        match self {
            Precedence::Lowest => Precedence::Assignment,
            Precedence::Assignment => Precedence::Or,
            Precedence::Or => Precedence::And,
            Precedence::And => Precedence::Equality,
            Precedence::Equality => Precedence::Comparison,
            Precedence::Comparison => Precedence::Term,
            Precedence::Term => Precedence::Factor,
            Precedence::Factor => Precedence::Unary,
            Precedence::Unary => Precedence::Call,
            Precedence::Call => Precedence::Primary,
            Precedence::Primary => Precedence::Primary,
        }
    }
}

/// The handlers that compile a token, at the start of an expression or
/// after its left operand.
#[derive(Debug, Clone, Copy, PartialEq, Eq, Structural)]
pub enum ParseFn {
    Grouping,
    Call,
    Unary,
    Binary,
    Variable,
    String,
    Number,
    And,
    Literal,
    Or,
}

/// What the parser does with a kind of token: how it compiles it at the
/// start of an expression, how it compiles it after a left operand, and
/// how tightly it binds there.
#[derive(Debug, Clone, Copy)]
pub struct ParseRule {
    pub prefix: Option<ParseFn>,
    pub infix: Option<ParseFn>,
    pub precedence: Precedence,
}

impl ParseRule {
    pub fn new(prefix: Option<ParseFn>, infix: Option<ParseFn>, precedence: Precedence) -> (r:
        Self)
        ensures
            r == (ParseRule { prefix, infix, precedence }),
    {
        ParseRule { prefix, infix, precedence }
    }
}

/// The table of rules.
pub open spec fn rule_of(token_type: TokenType) -> ParseRule {
    match token_type {
        TokenType::LeftParen => ParseRule {
            prefix: Some(ParseFn::Grouping),
            infix: Some(ParseFn::Call),
            precedence: Precedence::Call,
        },
        TokenType::Minus => ParseRule {
            prefix: Some(ParseFn::Unary),
            infix: Some(ParseFn::Binary),
            precedence: Precedence::Term,
        },
        TokenType::Plus => ParseRule {
            prefix: None,
            infix: Some(ParseFn::Binary),
            precedence: Precedence::Term,
        },
        TokenType::Slash => ParseRule {
            prefix: None,
            infix: Some(ParseFn::Binary),
            precedence: Precedence::Factor,
        },
        TokenType::Star => ParseRule {
            prefix: None,
            infix: Some(ParseFn::Binary),
            precedence: Precedence::Factor,
        },
        TokenType::Bang => ParseRule {
            prefix: Some(ParseFn::Unary),
            infix: None,
            precedence: Precedence::Lowest,
        },
        TokenType::BangEqual => ParseRule {
            prefix: None,
            infix: Some(ParseFn::Binary),
            precedence: Precedence::Equality,
        },
        TokenType::EqualEqual => ParseRule {
            prefix: None,
            infix: Some(ParseFn::Binary),
            precedence: Precedence::Equality,
        },
        TokenType::Greater => ParseRule {
            prefix: None,
            infix: Some(ParseFn::Binary),
            precedence: Precedence::Comparison,
        },
        TokenType::GreaterEqual => ParseRule {
            prefix: None,
            infix: Some(ParseFn::Binary),
            precedence: Precedence::Comparison,
        },
        TokenType::Less => ParseRule {
            prefix: None,
            infix: Some(ParseFn::Binary),
            precedence: Precedence::Comparison,
        },
        TokenType::LessEqual => ParseRule {
            prefix: None,
            infix: Some(ParseFn::Binary),
            precedence: Precedence::Comparison,
        },
        TokenType::Identifier => ParseRule {
            prefix: Some(ParseFn::Variable),
            infix: None,
            precedence: Precedence::Lowest,
        },
        TokenType::String => ParseRule {
            prefix: Some(ParseFn::String),
            infix: None,
            precedence: Precedence::Lowest,
        },
        TokenType::Number => ParseRule {
            prefix: Some(ParseFn::Number),
            infix: None,
            precedence: Precedence::Lowest,
        },
        TokenType::And => ParseRule {
            prefix: None,
            infix: Some(ParseFn::And),
            precedence: Precedence::And,
        },
        TokenType::Or => ParseRule {
            prefix: None,
            infix: Some(ParseFn::Or),
            precedence: Precedence::Or,
        },
        TokenType::False => ParseRule {
            prefix: Some(ParseFn::Literal),
            infix: None,
            precedence: Precedence::Lowest,
        },
        TokenType::Nil => ParseRule {
            prefix: Some(ParseFn::Literal),
            infix: None,
            precedence: Precedence::Lowest,
        },
        TokenType::True => ParseRule {
            prefix: Some(ParseFn::Literal),
            infix: None,
            precedence: Precedence::Lowest,
        },
        _ => ParseRule { prefix: None, infix: None, precedence: Precedence::Lowest },
    }
}

/// The rule for a kind of token.
pub fn get_rule(token_type: TokenType) -> (rule: ParseRule)
    ensures
        rule == rule_of(token_type),
{
    match token_type {
        TokenType::LeftParen => ParseRule::new(
            Some(ParseFn::Grouping),
            Some(ParseFn::Call),
            Precedence::Call,
        ),
        TokenType::Minus => ParseRule::new(
            Some(ParseFn::Unary),
            Some(ParseFn::Binary),
            Precedence::Term,
        ),
        TokenType::Plus => ParseRule::new(None, Some(ParseFn::Binary), Precedence::Term),
        TokenType::Slash => ParseRule::new(None, Some(ParseFn::Binary), Precedence::Factor),
        TokenType::Star => ParseRule::new(None, Some(ParseFn::Binary), Precedence::Factor),
        TokenType::Bang => ParseRule::new(Some(ParseFn::Unary), None, Precedence::Lowest),
        TokenType::BangEqual => ParseRule::new(None, Some(ParseFn::Binary), Precedence::Equality),
        TokenType::EqualEqual => ParseRule::new(None, Some(ParseFn::Binary), Precedence::Equality),
        TokenType::Greater => ParseRule::new(None, Some(ParseFn::Binary), Precedence::Comparison),
        TokenType::GreaterEqual => ParseRule::new(
            None,
            Some(ParseFn::Binary),
            Precedence::Comparison,
        ),
        TokenType::Less => ParseRule::new(None, Some(ParseFn::Binary), Precedence::Comparison),
        TokenType::LessEqual => ParseRule::new(None, Some(ParseFn::Binary), Precedence::Comparison),
        TokenType::Identifier => ParseRule::new(Some(ParseFn::Variable), None, Precedence::Lowest),
        TokenType::String => ParseRule::new(Some(ParseFn::String), None, Precedence::Lowest),
        TokenType::Number => ParseRule::new(Some(ParseFn::Number), None, Precedence::Lowest),
        TokenType::And => ParseRule::new(None, Some(ParseFn::And), Precedence::And),
        TokenType::Or => ParseRule::new(None, Some(ParseFn::Or), Precedence::Or),
        TokenType::False => ParseRule::new(Some(ParseFn::Literal), None, Precedence::Lowest),
        TokenType::Nil => ParseRule::new(Some(ParseFn::Literal), None, Precedence::Lowest),
        TokenType::True => ParseRule::new(Some(ParseFn::Literal), None, Precedence::Lowest),
        _ => ParseRule::new(None, None, Precedence::Lowest),
    }
}

/// A local variable: the token that names it and the depth of the scope
/// that declared it, or -1 while its initializer is being compiled.
#[derive(Debug, Clone, Copy)]
pub struct Local<'a> {
    pub token: Token<'a>,
    pub depth: i32,
}

impl<'a> Local<'a> {
    pub fn new(token: Token<'a>, depth: i32) -> (local: Self)
        ensures
            local.token == token,
            local.depth == depth,
    {
        Local { token, depth }
    }
}

/// Whether code belongs to a function or to the top level of a program.
#[derive(Debug, Clone, Copy, PartialEq, Eq, Structural)]
pub enum FunctionType {
    Function,
    Script,
}

/// The most locals that one function can have: an instruction names a
/// slot by one byte.
pub const MAX_LOCALS: usize = 256;

impl<'a> View for Local<'a> {
    type V = LocalModel;

    open spec fn view(&self) -> LocalModel {
        LocalModel { name: self.token.lexeme@, depth: self.depth }
    }
}

/// The locals as mathematics.
pub open spec fn local_models(locals: Seq<Local>) -> Seq<LocalModel> {
    locals.map_values(|l: Local| l@)
}

/// What the innermost local of a name is: its name is the one asked for,
/// no local above it has that name, and it is found whenever any local
/// has the name.
pub proof fn lemma_innermost(locals: Seq<LocalModel>, name: Seq<u8>, n: int)
    requires
        0 <= n <= locals.len(),
    ensures
        -1 <= innermost(locals, name, n) < n,
        innermost(locals, name, n) >= 0 ==> locals[innermost(locals, name, n)].name == name,
        forall|j: int| innermost(locals, name, n) < j < n ==> (#[trigger] locals[j]).name != name,
    decreases n,
{
    if n > 0 && locals[n - 1].name != name {
        lemma_innermost(locals, name, n - 1);
    }
}

/// The state of compiling one function: the function so far, the locals
/// that are in scope, innermost last, and the depth of the open scope.
/// The first local stands for the function itself and has no name.
pub struct Compiler<'a> {
    pub function: Function,
    pub function_type: FunctionType,
    pub locals: Vec<Local<'a>>,
    pub scope_depth: i32,
    /// For every instruction of the function so far, and for the one
    /// that comes next, the number of values that a call of the function
    /// has on the stack before it.
    pub heights: Ghost<Seq<int>>,
    /// The forward jumps that still await their distance.
    pub pending: Ghost<Set<int>>,
    /// The blocks that were compiled so far, each from the index of its
    /// first instruction to the index behind its last.
    pub blocks: Ghost<Seq<(int, int)>>,
}

/// Whether every instruction of the code fits the heights.
#[verifier::opaque]
pub open spec fn all_step(code: Seq<OpCode>, heights: Seq<int>) -> bool {
    forall|i: int| 0 <= i < code.len() ==> steps(#[trigger] code[i], i, heights)
}

/// Whether the stack is as high behind every block as before it.
#[verifier::opaque]
pub open spec fn all_balanced(heights: Seq<int>, blocks: Seq<(int, int)>) -> bool {
    forall|k: int|
        0 <= k < blocks.len() ==> 0 <= (#[trigger] blocks[k]).0 <= blocks[k].1 < heights.len()
            && heights[blocks[k].0] == heights[blocks[k].1]
}

/// Whether the stack of a call of the function is as high behind the
/// block as before it: the function has a typing whose heights say so.
pub open spec fn scope_level(scope: ScopeModel) -> bool {
    exists|heights: Seq<int>|
        #![trigger typing(scope.code, heights, scope.arity as int)]
        typing(scope.code, heights, scope.arity as int) && 0 <= scope.start <= scope.end
            <= scope.code.len() && heights[scope.start] == heights[scope.end]
}

/// Whether the stack is as high behind each of the blocks as before it.
#[verifier::opaque]
pub open spec fn scopes_level(scopes: Seq<ScopeModel>) -> bool {
    forall|k: int| 0 <= k < scopes.len() ==> scope_level(#[trigger] scopes[k])
}

/// Whether every jump of the code, but those that still await their
/// distance, lands where the stack is as high as where the jump stands.
#[verifier::opaque]
pub open spec fn all_level(code: Seq<OpCode>, heights: Seq<int>, pending: Set<int>) -> bool {
    &&& forall|i: int|
        0 <= i < code.len() && !pending.contains(i) ==> levels(#[trigger] code[i], i, heights)
    &&& forall|i: int| #[trigger] pending.contains(i) ==> 0 <= i < code.len()
}

impl<'a> View for Compiler<'a> {
    type V = CompilerModel;

    open spec fn view(&self) -> CompilerModel {
        CompilerModel {
            function: function_model(self.function),
            kind: self.function_type,
            locals: local_models(self.locals@),
            depth: self.scope_depth,
            blocks: self.blocks@,
        }
    }
}

impl<'a> Compiler<'a> {
    /// There is at least the first local and at most 256, no local is
    /// deeper than the open scope, a local declared later is not in a
    /// scope further out, and the function so far is in order.
    pub open spec fn wf(&self) -> bool {
        &&& 1 <= self.locals@.len() <= MAX_LOCALS
        &&& 0 <= self.scope_depth
        &&& forall|i: int|
            0 <= i < self.locals@.len() ==> -1 <= (#[trigger] self.locals@[i]).depth
                <= self.scope_depth
        &&& self.locals@[0].depth == 0
        &&& forall|i: int, j: int|
            0 <= i < j < self.locals@.len() && (#[trigger] self.locals@[j]).depth != -1
                ==> (#[trigger] self.locals@[i]).depth <= self.locals@[j].depth
        &&& self.function.block.wf()
        &&& self.function.block.constants@.len() <= MAX_CONSTANTS
        &&& self.function.arity <= 255
        &&& self.heights@.len() == self.function.block.code@.len() + 1
    }

    /// Every instruction so far fits the heights.
    pub open spec fn stepwise(&self) -> bool {
        all_step(self.function.block.code@, self.heights@)
    }

    /// The stack is as high behind every block so far as before it.
    pub open spec fn balanced(&self) -> bool {
        all_balanced(self.heights@, self.blocks@)
    }

    /// Every jump so far that has its distance lands where the stack is
    /// as high as where it stands.
    pub open spec fn leveled(&self) -> bool {
        all_level(self.function.block.code@, self.heights@, self.pending@)
    }

    /// Every local was initialized.
    pub open spec fn settled(&self) -> bool {
        forall|i: int| 0 <= i < self.locals@.len() ==> (#[trigger] self.locals@[i]).depth >= 0
    }

    /// A compiler for a new function of that name and kind.
    pub fn new(function_name: Rc<LoxString>, function_type: FunctionType) -> (compiler: Self)
        ensures
            compiler.wf(),
            compiler.settled(),
            compiler.function.name == function_name,
            compiler.function.arity == 0,
            compiler.function.block.code@ == Seq::<OpCode>::empty(),
            compiler.function.block.constants@ == Seq::<Value>::empty(),
            compiler.function.block.lines@ == Seq::<u16>::empty(),
            compiler.function_type == function_type,
            compiler.scope_depth == 0,
            compiler.locals@.len() == 1,
            compiler.locals@[0].depth == 0,
            compiler.locals@[0].token.token_type == TokenType::Eof,
            compiler.locals@[0].token.lexeme@ == Seq::<u8>::empty(),
            compiler.heights@ == seq![1int],
            compiler.pending@ == Set::<int>::empty(),
            compiler.blocks@ == Seq::<(int, int)>::empty(),
            compiler.stepwise(),
            compiler.leveled(),
            compiler.balanced(),
    {
        proof {
            reveal(all_step);
            reveal(all_level);
            reveal(all_balanced);
        }
        let mut locals: Vec<Local<'a>> = Vec::new();
        locals.push(Local::new(Token::default(), 0));
        Compiler {
            function: Function { name: function_name, block: Block::new(), arity: 0 },
            function_type,
            locals,
            scope_depth: 0,
            heights: Ghost(Seq::<int>::empty().push(1int)),
            pending: Ghost(Set::<int>::empty()),
            blocks: Ghost(Seq::<(int, int)>::empty()),
        }
    }

    /// Whether the open scope already declares a local of that name.
    pub fn is_local(&self, name: Token<'a>) -> (r: bool)
        requires
            self.wf(),
        ensures
            r == declared_here(
                local_models(self.locals@),
                self.scope_depth as int,
                name.lexeme@,
                self.locals@.len() as int,
            ),
    {
        let mut i: usize = self.locals.len();
        while i > 0
            invariant
                i <= self.locals@.len(),
                declared_here(
                    local_models(self.locals@),
                    self.scope_depth as int,
                    name.lexeme@,
                    i as int,
                ) == declared_here(
                    local_models(self.locals@),
                    self.scope_depth as int,
                    name.lexeme@,
                    self.locals@.len() as int,
                ),
            decreases i,
        {
            i -= 1;
            let local = &self.locals[i];
            if local.depth != -1 && local.depth < self.scope_depth {
                return false;
            }
            if bytes_equal(name.lexeme, local.token.lexeme) {
                return true;
            }
        }
        false
    }

    /// The slot of the innermost local of that name, if there is one. If
    /// that local is still being initialized, a message is added to
    /// `errors`.
    pub fn resolve_local(&self, name: &Token<'a>, errors: &mut Vec<&'static str>) -> (slot:
        Option<u8>)
        requires
            self.wf(),
        ensures
            slot.is_some() == (innermost(
                local_models(self.locals@),
                name.lexeme@,
                self.locals@.len() as int,
            ) >= 0),
            slot matches Some(k) ==> k == innermost(
                local_models(self.locals@),
                name.lexeme@,
                self.locals@.len() as int,
            ),
            final(errors)@ == if slot.is_some() && self.locals@[slot.unwrap() as int].depth == -1 {
                old(errors)@.push("Can't read local variable in its own initializer.")
            } else {
                old(errors)@
            },
    {
        let mut i: usize = self.locals.len();
        while i > 0
            invariant
                i <= self.locals@.len(),
                self.wf(),
                errors@ == old(errors)@,
                innermost(local_models(self.locals@), name.lexeme@, i as int) == innermost(
                    local_models(self.locals@),
                    name.lexeme@,
                    self.locals@.len() as int,
                ),
            decreases i,
        {
            i -= 1;
            let local = &self.locals[i];
            if bytes_equal(name.lexeme, local.token.lexeme) {
                if local.depth == -1 {
                    errors.push("Can't read local variable in its own initializer.");
                }
                return Some(i as u8);
            }
        }
        None
    }
}

/// Whether `new` is `old` with entries added at the end.
pub open spec fn extends<T>(new: Seq<T>, old: Seq<T>) -> bool {
    old.len() <= new.len() && forall|i: int| 0 <= i < old.len() ==> #[trigger] new[i] == old[i]
}

/// Renders a diagnostic.
pub fn render_diagnostic(token: &Token, message: &str) -> (text: Vec<u8>)
    ensures
        text@ == diagnostic_text(token@, message.spec_bytes()),
{
    let mut text: Vec<u8> = slice_to_vec("[line ".as_bytes());
    let digits = decimal(token.line);
    append_bytes(&mut text, digits.as_slice());
    append_bytes(&mut text, "] Error at ".as_bytes());
    match token.token_type {
        TokenType::Eof => append_bytes(&mut text, "end of file".as_bytes()),
        _ => append_bytes(&mut text, token.lexeme),
    }
    append_bytes(&mut text, ": ".as_bytes());
    append_bytes(&mut text, message.as_bytes());
    text
}

/// When a scope closes, the locals that were declared in it go and the
/// locals from before stay.
pub proof fn lemma_kept(locals: Seq<LocalModel>, outer: int, depth: int)
    requires
        1 <= outer <= locals.len(),
        locals[outer - 1].depth <= depth,
        forall|j: int| outer <= j < locals.len() ==> (#[trigger] locals[j]).depth > depth,
    ensures
        kept(locals, depth) == outer,
    decreases locals.len(),
{
    if locals.len() > outer {
        let rest = locals.drop_last();
        assert forall|j: int| outer <= j < rest.len() implies (#[trigger] rest[j]).depth
            > depth by {
            assert(rest[j] == locals[j]);
        }
        lemma_kept(rest, outer, depth);
    }
}

/// Jumps that land stay landed when the code grows and the instructions
/// in question stay as they are.
pub proof fn lemma_jumps_stay(before: Seq<OpCode>, after: Seq<OpCode>, from: int, to: int)
    requires
        jumps_land(before, from, to),
        before.len() <= after.len(),
        to <= before.len(),
        forall|i: int| from <= i < to && 0 <= i ==> #[trigger] after[i] == before[i],
    ensures
        jumps_land(after, from, to),
{
    assert forall|i: int| from <= i < to && 0 <= i < after.len() implies lands(
        #[trigger] after[i],
        i,
        after.len() as int,
    ) by {
        assert(lands(before[i], i, before.len() as int));
    }
}

/// Jumps that land in two stretches of code that meet land in the whole.
pub proof fn lemma_jumps_join(code: Seq<OpCode>, from: int, mid: int, to: int)
    requires
        jumps_land(code, from, mid),
        jumps_land(code, mid, to),
    ensures
        jumps_land(code, from, to),
{
}

/// A compiler of source text to bytecode. It reads the tokens just once,
/// from first to last, and emits the code of an expression or statement
/// while it reads it.
pub struct Parser<'a> {
    scanner: Scanner<'a>,
    /// The function being compiled.
    compiler: Compiler<'a>,
    /// The functions around it, outermost first.
    enclosing: Vec<Compiler<'a>>,
    current: Token<'a>,
    previous: Token<'a>,
    /// The values of the number literals of the source, in order.
    numbers: &'a [u64],
    numbers_seen: usize,
    current_number: usize,
    previous_number: usize,
    resolve_errors: Vec<&'static str>,
    had_error: bool,
    panic_mode: bool,
    diagnostics: Vec<Vec<u8>>,
    /// The pool of strings: every name and every string literal is held
    /// once.
    strings: Table,
    /// The blocks of the functions whose compilation is over.
    scopes: Ghost<Seq<ScopeModel>>,
}

impl<'a> View for Parser<'a> {
    type V = ParserModel;

    /// The state of the compilation as mathematics.
    closed spec fn view(&self) -> ParserModel {
        ParserModel {
            source: self.scanner.text(),
            numbers: self.numbers@,
            position: self.scanner.position(),
            line: self.scanner.line_number(),
            current: self.current@,
            previous: self.previous@,
            numbers_seen: self.numbers_seen,
            current_number: self.current_number,
            previous_number: self.previous_number,
            compiler: self.compiler@,
            enclosing: self.enclosing@.map_values(|c: Compiler| c@),
            had_error: self.had_error,
            panic_mode: self.panic_mode,
            messages: self.diagnostics@.map_values(|d: Vec<u8>| d@),
            scopes: self.scopes@,
        }
    }
}

impl<'a> Parser<'a> {
    /// The code of the function being compiled.
    spec fn code(&self) -> Seq<OpCode> {
        self.compiler.function.block.code@
    }

    /// The constants of the function being compiled.
    spec fn constants(&self) -> Seq<Value> {
        self.compiler.function.block.constants@
    }

    /// The locals of the function being compiled.
    spec fn locals(&self) -> Seq<Local<'a>> {
        self.compiler.locals@
    }

    /// The heights of the stack at the instructions of the function
    /// being compiled.
    spec fn heights(&self) -> Seq<int> {
        self.compiler.heights@
    }

    /// The forward jumps of the function being compiled that still await
    /// their distance.
    spec fn pending(&self) -> Set<int> {
        self.compiler.pending@
    }

    /// The height of the stack at the instruction that comes next.
    spec fn height(&self) -> int {
        self.compiler.heights@.last()
    }

    /// No jump that is not yet emitted awaits its distance.
    proof fn lemma_not_pending(&self, j: int)
        requires
            self.wf(),
            !self.had_error,
            j >= self.code().len(),
        ensures
            !self.pending().contains(j),
    {
        reveal(all_level);
    }

    /// By the instruction that comes next the stack has grown by `by`
    /// values since state `o`, unless an error was found.
    spec fn raised(&self, o: &Self, by: int) -> bool {
        self.had_error || self.height() == o.height() + by
    }

    /// Every local that was initialized lies on the stack, `margin`
    /// values or more below its top, unless an error was found.
    spec fn clear(&self, margin: int) -> bool {
        self.had_error || forall|i: int|
            0 <= i < self.locals().len() && (#[trigger] self.locals()[i]).depth != -1 ==> i
                + margin < self.height()
    }

    /// The stack holds the locals and nothing else, as it is between
    /// statements, unless an error was found.
    spec fn level(&self) -> bool {
        self.had_error || self.height() == self.locals().len()
    }

    /// The diagnostics so far.
    spec fn messages(&self) -> Seq<Seq<u8>> {
        self.diagnostics@.map_values(|d: Vec<u8>| d@)
    }

    /// Whether an error was found.
    pub closed spec fn failed(&self) -> bool {
        self.had_error
    }

    /// A bound on the tokens still to come: the bytes not yet scanned,
    /// and one more unless the current token is the end of the input.
    spec fn remaining(&self) -> int {
        self@.remaining() as int
    }

    /// The parser is in order.
    spec fn wf(&self) -> bool {
        &&& self.compiler.wf()
        &&& forall|i: int| 0 <= i < self.enclosing@.len() ==> (#[trigger] self.enclosing@[i]).wf()
        &&& 0 <= self.scanner.position() <= self.scanner.text().len()
        &&& self.numbers_seen <= self.scanner.position()
        &&& self.resolve_errors@.len() == 0
        &&& self.strings.wf()
        &&& self.had_error <==> self.diagnostics@.len() > 0
        &&& self.panic_mode ==> self.had_error
        &&& self.current.token_type == TokenType::String ==> self.current.lexeme@.len() >= 2
        &&& self.previous.token_type == TokenType::String ==> self.previous.lexeme@.len() >= 2
        &&& !self.had_error ==> {
            &&& self.compiler.function.block.operands_fit()
            &&& constants_sound(self.compiler.function.block.constants@)
            &&& self.compiler.stepwise()
            &&& self.compiler.leveled()
            &&& self.compiler.balanced()
            &&& scopes_level(self.scopes@)
            &&& forall|i: int|
                0 <= i < self.enclosing@.len()
                    ==> (#[trigger] self.enclosing@[i]).function.block.operands_fit()
                    && constants_sound(self.enclosing@[i].function.block.constants@)
                    && self.enclosing@[i].stepwise() && self.enclosing@[i].leveled()
                    && self.enclosing@[i].balanced()
        }
    }

    spec fn same_cursor(&self, o: &Self) -> bool {
        &&& self.scanner == o.scanner
        &&& self.current == o.current
        &&& self.previous == o.previous
        &&& self.numbers == o.numbers
        &&& self.numbers_seen == o.numbers_seen
        &&& self.current_number == o.current_number
        &&& self.previous_number == o.previous_number
    }

    spec fn same_errors(&self, o: &Self) -> bool {
        &&& self.had_error == o.had_error
        &&& self.panic_mode == o.panic_mode
        &&& self.diagnostics == o.diagnostics
        &&& self.resolve_errors@ == o.resolve_errors@
    }

    spec fn same_output(&self, o: &Self) -> bool {
        &&& self.compiler == o.compiler
        &&& self.enclosing@ == o.enclosing@
    }

    /// Everything about the function being compiled is as before, but
    /// perhaps its code, lines and constants.
    spec fn same_scopes(&self, o: &Self) -> bool {
        &&& self.enclosing@ == o.enclosing@
        &&& self.compiler.locals == o.compiler.locals
        &&& self.compiler.scope_depth == o.compiler.scope_depth
        &&& self.compiler.function_type == o.compiler.function_type
        &&& self.compiler.function.name == o.compiler.function.name
        &&& self.compiler.function.arity == o.compiler.function.arity
    }

    /// The error state after an error at `token` was reported in state
    /// `o`: nothing new while the parser is in panic mode; else the
    /// parser has failed, is in panic mode, and has one more diagnostic.
    spec fn reported(&self, o: &Self, token: Token, message: Seq<u8>) -> bool {
        &&& self.resolve_errors@ == o.resolve_errors@
        &&& if o.panic_mode {
            &&& self.had_error == o.had_error
            &&& self.panic_mode
            &&& self.diagnostics == o.diagnostics
        } else {
            &&& self.had_error
            &&& self.panic_mode
            &&& self.messages() == o.messages().push(diagnostic_text(token@, message))
            &&& self.diagnostics@.len() == o.diagnostics@.len() + 1
        }
    }

    /// The state after one step forward in the tokens from state `o`: the
    /// current token became the previous one. Tokens that are errors
    /// were reported and passed over.
    spec fn stepped(&self, o: &Self) -> bool {
        &&& self.wf()
        &&& self.same_output(o)
        &&& self.scanner.text() == o.scanner.text()
        &&& self.numbers == o.numbers
        &&& self.previous == o.current
        &&& self.previous_number == o.current_number
        &&& self.current.token_type != TokenType::Error
        &&& self.remaining() + (if o.current.token_type != TokenType::Eof {
            1int
        } else {
            0int
        }) <= o.remaining()
        &&& o.had_error ==> self.had_error
        &&& extends(self.messages(), o.messages())
    }

    /// The pool of strings of the parser is in order.
    pub closed spec fn strings_kept(&self) -> bool {
        self.strings.wf()
    }

    /// The parser has not read anything yet: it is about to compile the
    /// top level of a program, named `script`, and has found no error.
    pub closed spec fn fresh(&self) -> bool {
        &&& self.ready()
        &&& self.enclosing@.len() == 0
        &&& self.code().len() == 0
        &&& self.compiler.function_type == FunctionType::Script
        &&& self.compiler.function.arity == 0
        &&& self.compiler.function.name.value@ == "script".spec_bytes()
        &&& self.compiler.function.name.wf()
        &&& !self.had_error
        &&& self.compiler.heights@ == seq![1int]
        &&& self.compiler.locals@.len() == 1
    }

    /// A parser at the start of `source`. `numbers` holds the value of
    /// each number literal of the source, in the order of the literals,
    /// as the bits of an IEEE-754 double.
    pub fn new(source: &'a str, numbers: &'a [u64]) -> (parser: Self)
        ensures
            parser.fresh(),
            parser@ == crate::grammar::initial(source.spec_bytes(), numbers@),
    {
        Parser::with_strings(source, numbers, Table::new())
    }

    /// A parser at the start of `source` that takes the strings of the
    /// program from the given pool, and adds to it those that are new.
    pub fn with_strings(source: &'a str, numbers: &'a [u64], strings: Table) -> (parser: Self)
        requires
            strings.wf(),
        ensures
            parser.pool() == strings,
            parser.fresh(),
            parser@ == crate::grammar::initial(source.spec_bytes(), numbers@),
    {
        let scanner = Scanner::new(source);
        let mut parser = Parser {
            scanner,
            compiler: Compiler::new(LoxString::new("script"), FunctionType::Script),
            enclosing: Vec::new(),
            current: Token::default(),
            previous: Token::default(),
            numbers,
            numbers_seen: 0,
            current_number: 0,
            previous_number: 0,
            resolve_errors: Vec::new(),
            had_error: false,
            panic_mode: false,
            diagnostics: Vec::new(),
            strings,
            scopes: Ghost(Seq::<ScopeModel>::empty()),
        };
        proof {
            reveal(scopes_level);
            let start = crate::grammar::initial(source.spec_bytes(), numbers@);
            assert(local_models(parser.compiler.locals@) =~= start.compiler.locals);
            assert(constant_models(parser.compiler.function.block.constants@) =~= Seq::<
                ValueModel,
            >::empty());
            assert(parser.enclosing@.map_values(|c: Compiler| c@) =~= Seq::<
                CompilerModel,
            >::empty());
            assert(parser.diagnostics@.map_values(|d: Vec<u8>| d@) =~= Seq::<Seq<u8>>::empty());
            assert(parser@ =~~= start);
        }
        parser
    }

    /// The pool of strings of the parser: the pool that it was made with,
    /// and the strings that it has added since.
    pub closed spec fn pool(&self) -> Table {
        self.strings
    }

    /// The pool of strings of the parser, which is spent with this.
    pub fn into_strings(self) -> (strings: Table)
        requires
            self.strings_kept(),
        ensures
            strings == self.pool(),
            strings.wf(),
    {
        self.strings
    }

    /// The string of that content from the pool of strings, to which it
    /// is added if it is new.
    fn intern(&mut self, content: &[u8]) -> (s: Rc<LoxString>)
        requires
            old(self).wf(),
        ensures
            final(self).wf(),
            final(self)@ == old(self)@,
            final(self).same_cursor(old(self)),
            final(self).same_output(old(self)),
            final(self).same_errors(old(self)),
            final(self).remaining() == old(self).remaining(),
            final(self).ready() == old(self).ready(),
            s.value@ == content@,
            s.wf(),
    {
        let hash: usize = LoxString::hash(content);
        match self.strings.find_string(content, hash) {
            Some(known) => known,
            None => {
                let fresh = Rc::new(LoxString { value: slice_to_vec(content), hash });
                self.strings.set(fresh.clone(), Value::Nil);
                fresh
            },
        }
    }

    /// Reports an error at the given token, unless the parser is in
    /// panic mode already.
    fn error(&mut self, token: Token<'a>, msg: &str)
        requires
            old(self).wf(),
        ensures
            final(self)@ == old(self)@.report(token@, msg.spec_bytes()),
            final(self).wf(),
            final(self).same_cursor(old(self)),
            final(self).same_output(old(self)),
            final(self).reported(old(self), token, msg.spec_bytes()),
            final(self).remaining() == old(self).remaining(),
            final(self).had_error,
            extends(final(self).messages(), old(self).messages()),
    {
        proof {
            reveal(ParserModel::report);
        }
        if self.panic_mode {
            return ;
        }
        self.had_error = true;
        self.panic_mode = true;
        let text = render_diagnostic(&token, msg);
        proof {
            assert(self.diagnostics@.push(text).map_values(|d: Vec<u8>| d@)
                =~= self.diagnostics@.map_values(|d: Vec<u8>| d@).push(text@));
        }
        self.diagnostics.push(text);
    }

    fn error_current(&mut self, msg: &str)
        requires
            old(self).wf(),
        ensures
            final(self)@ == old(self)@.report(old(self)@.current, msg.spec_bytes()),
            final(self).wf(),
            final(self).same_cursor(old(self)),
            final(self).same_output(old(self)),
            final(self).reported(old(self), old(self).current, msg.spec_bytes()),
            final(self).remaining() == old(self).remaining(),
            final(self).had_error,
            extends(final(self).messages(), old(self).messages()),
    {
        self.error(self.current, msg);
    }

    fn error_previous(&mut self, msg: &str)
        requires
            old(self).wf(),
        ensures
            final(self)@ == old(self)@.report(old(self)@.previous, msg.spec_bytes()),
            final(self).wf(),
            final(self).same_cursor(old(self)),
            final(self).same_output(old(self)),
            final(self).reported(old(self), old(self).previous, msg.spec_bytes()),
            final(self).remaining() == old(self).remaining(),
            final(self).had_error,
            extends(final(self).messages(), old(self).messages()),
    {
        self.error(self.previous, msg);
    }

    /// Steps forward to the next token that is not an error.
    fn advance(&mut self)
        requires
            old(self).wf(),
        ensures
            final(self)@ == old(self)@.advance(),
            final(self).stepped(old(self)),
    {
        proof {
            reveal(ParserModel::advance);
        }
        self.previous = self.current;
        self.previous_number = self.current_number;
        let ghost start = self.scanner.position();
        let ghost begun = self@;
        loop
            invariant_except_break
                self@.skip_errors() == begun.skip_errors(),
            invariant
                self.wf(),
                self.same_output(old(self)),
                self.scanner.text() == old(self).scanner.text(),
                self.numbers == old(self).numbers,
                self.previous == old(self).current,
                self.previous_number == old(self).current_number,
                old(self).had_error ==> self.had_error,
                extends(self.messages(), old(self).messages()),
                start == old(self).scanner.position(),
                start <= self.scanner.position(),
            ensures
                self@ == begun.skip_errors(),
                self.current.token_type != TokenType::Error,
                self.current.token_type != TokenType::Eof ==> start < self.scanner.position(),
            decreases self.scanner.text().len() - self.scanner.position(),
        {
            let ghost before = self@;
            self.current = self.scanner.scan_token();
            if self.current.token_type == TokenType::Number {
                self.current_number = self.numbers_seen;
                self.numbers_seen += 1;
            }
            proof {
                reveal(ParserModel::scanned);
                reveal(ParserModel::skip_errors);
                assert(self@ =~~= before.scanned());
            }
            if self.current.token_type != TokenType::Error {
                break ;
            }
            self.error_current("Unknown token.");
        }
    }

    fn check(&self, token_type: TokenType) -> (r: bool)
        ensures
            r == (self.current.token_type == token_type),
    {
        self.current.token_type == token_type
    }

    /// Steps forward if the current token is of the given kind.
    fn matches(&mut self, token_type: TokenType) -> (r: bool)
        requires
            old(self).wf(),
        ensures
            final(self)@ == old(self)@.accept(token_type),
            r == (old(self).current.token_type == token_type),
            r ==> final(self).stepped(old(self)),
            !r ==> *final(self) == *old(self),
    {
        proof {
            reveal(ParserModel::accept);
        }
        if self.check(token_type) {
            self.advance();
            true
        } else {
            false
        }
    }

    /// Steps forward if the current token is of the expected kind, and
    /// reports an error at it if not.
    fn match_token(&mut self, expected: TokenType, message: &str)
        requires
            old(self).wf(),
        ensures
            final(self)@ == old(self)@.expect(expected, message.spec_bytes()),
            final(self).wf(),
            final(self).same_output(old(self)),
            final(self).scanner.text() == old(self).scanner.text(),
            final(self).numbers == old(self).numbers,
            final(self).remaining() <= old(self).remaining(),
            old(self).had_error ==> final(self).had_error,
            extends(final(self).messages(), old(self).messages()),
            old(self).current.token_type == expected ==> final(self).stepped(old(self)),
            old(self).current.token_type != expected ==> final(self).same_cursor(old(self))
                && final(self).reported(old(self), old(self).current, message.spec_bytes()),
    {
        proof {
            reveal(ParserModel::expect);
        }
        if self.current.token_type == expected {
            self.advance();
            return ;
        }
        self.error_current(message);
    }

    /// Passes over tokens until a statement may start: after a semicolon
    /// or before a keyword that starts a statement.
    fn sync(&mut self)
        requires
            old(self).wf(),
        ensures
            final(self)@ == old(self)@.sync(),
            final(self).wf(),
            final(self).same_output(old(self)),
            final(self).scanner.text() == old(self).scanner.text(),
            final(self).numbers == old(self).numbers,
            final(self).remaining() <= old(self).remaining(),
            old(self).had_error ==> final(self).had_error,
            extends(final(self).messages(), old(self).messages()),
    {
        proof {
            reveal(ParserModel::sync);
            reveal(ParserModel::resync);
            reveal(ParserModel::at_statement);
        }
        self.panic_mode = false;
        let ghost begun = self@;
        while self.current.token_type != TokenType::Eof
            invariant
                self.wf(),
                self.same_output(old(self)),
                self.scanner.text() == old(self).scanner.text(),
                self.numbers == old(self).numbers,
                self.remaining() <= old(self).remaining(),
                old(self).had_error ==> self.had_error,
                extends(self.messages(), old(self).messages()),
                self@.resync() == begun.resync(),
                begun == old(self)@.sync_start(),
            decreases self.remaining(),
        {
            proof {
                reveal(ParserModel::sync);
                reveal(ParserModel::resync);
                reveal(ParserModel::at_statement);
            }
            if self.previous.token_type == TokenType::Semicolon {
                return ;
            }
            match self.current.token_type {
                TokenType::Class
                | TokenType::Fun
                | TokenType::Var
                | TokenType::For
                | TokenType::If
                | TokenType::While
                | TokenType::Print
                | TokenType::Return => {
                    return ;
                },
                _ => {},
            }
            self.advance();
        }
    }

    /// The parser is in order and no local awaits its initializer, as it
    /// is between statements.
    spec fn ready(&self) -> bool {
        &&& self.wf()
        &&& self.compiler.settled()
        &&& forall|i: int|
            0 <= i < self.enclosing@.len() ==> (#[trigger] self.enclosing@[i]).settled()
    }

    /// No local awaits its initializer, but perhaps the one declared
    /// last.
    spec fn nearly_settled(&self) -> bool {
        &&& forall|i: int|
            0 <= i < self.locals().len() - 1 ==> (#[trigger] self.locals()[i]).depth >= 0
        &&& forall|i: int|
            0 <= i < self.enclosing@.len() ==> (#[trigger] self.enclosing@[i]).settled()
    }

    /// Appends an instruction after which execution goes on with the next
    /// one, on the line of the previous token, and returns its index.
    fn emit_instr(&mut self, byte: OpCode) -> (index: usize)
        requires
            old(self).wf(),
            old(self).had_error || operand_fits(byte, old(self).constants()),
            old(self).had_error || (falls_through(byte) && (takes(byte) > 0 ==> old(self).height()
                >= takes(byte)) && (byte matches OpCode::GetLocal(slot) ==> slot
                    < old(self).height()) && (byte matches OpCode::SetLocal(slot) ==> slot
                    < old(self).height())),
        ensures
            final(self)@ == old(self)@.emit(byte),
            final(self).wf(),
            final(self).same_cursor(old(self)),
            final(self).same_errors(old(self)),
            final(self).same_scopes(old(self)),
            final(self).code() == old(self).code().push(byte),
            final(self).heights() == old(self).heights().push(old(self).height() + grows(byte)),
            final(self).pending() == if byte is JumpIfFalse {
                old(self).pending().insert(old(self).code().len() as int)
            } else {
                old(self).pending()
            },
            final(self).compiler.blocks == old(self).compiler.blocks,
            final(self).compiler.function.block.lines@
                == old(self).compiler.function.block.lines@.push(line_of(old(self).previous.line)),
            final(self).compiler.function.block.constants
                == old(self).compiler.function.block.constants,
            index == old(self).code().len(),
            final(self).remaining() == old(self).remaining(),
    {
        proof {
            reveal(all_step);
            reveal(all_level);
            reveal(all_balanced);
            reveal(ParserModel::emit);
        }
        let line: u16 = (self.previous.line % 65536) as u16;
        let ghost next = self.compiler.heights@.last() + grows(byte);
        let ghost at = self.compiler.function.block.code@.len() as int;
        self.compiler.heights = Ghost(self.compiler.heights@.push(next));
        self.compiler.pending = Ghost(
            if byte is JumpIfFalse {
                self.compiler.pending@.insert(at)
            } else {
                self.compiler.pending@
            },
        );
        self.compiler.function.block.write(byte, line)
    }

    /// Appends an instruction after which execution does not go on with
    /// the next one: a jump or a return. `next` is the height of the
    /// stack for the instruction that will stand behind it.
    fn emit_away(&mut self, byte: OpCode, Ghost(next): Ghost<int>) -> (index: usize)
        requires
            old(self).wf(),
            !falls_through(byte),
            old(self).had_error || (takes(byte) > 0 ==> old(self).height() >= takes(byte)),
            old(self).had_error || (byte matches OpCode::Loop(d) ==> d <= old(self).code().len()
                && old(self).heights()[old(self).code().len() - d] == old(self).height()),
        ensures
            final(self)@ == old(self)@.emit(byte),
            final(self).wf(),
            final(self).same_cursor(old(self)),
            final(self).same_errors(old(self)),
            final(self).same_scopes(old(self)),
            final(self).code() == old(self).code().push(byte),
            final(self).heights() == old(self).heights().push(next),
            final(self).pending() == if byte is Jump {
                old(self).pending().insert(old(self).code().len() as int)
            } else {
                old(self).pending()
            },
            final(self).compiler.blocks == old(self).compiler.blocks,
            final(self).compiler.function.block.lines@
                == old(self).compiler.function.block.lines@.push(line_of(old(self).previous.line)),
            final(self).compiler.function.block.constants
                == old(self).compiler.function.block.constants,
            index == old(self).code().len(),
            final(self).remaining() == old(self).remaining(),
    {
        proof {
            reveal(all_step);
            reveal(all_level);
            reveal(all_balanced);
            reveal(ParserModel::emit);
        }
        let line: u16 = (self.previous.line % 65536) as u16;
        let ghost at = self.compiler.function.block.code@.len() as int;
        self.compiler.heights = Ghost(self.compiler.heights@.push(next));
        self.compiler.pending = Ghost(
            if byte is Jump {
                self.compiler.pending@.insert(at)
            } else {
                self.compiler.pending@
            },
        );
        self.compiler.function.block.write(byte, line)
    }

    /// Appends two instructions and returns the index of the second.
    fn emit_two_instr(&mut self, byte1: OpCode, byte2: OpCode) -> (index: usize)
        requires
            old(self).wf(),
            old(self).had_error || (operand_fits(byte1, old(self).constants()) && operand_fits(
                byte2,
                old(self).constants(),
            )),
            !(byte1 is JumpIfFalse) && !(byte2 is JumpIfFalse),
            old(self).had_error || (falls_through(byte1) && falls_through(byte2)
                && !(byte1 is GetLocal)
                && !(byte1 is SetLocal) && !(byte2 is GetLocal) && !(byte2 is SetLocal)
                && old(self).height() >= takes(byte1) && old(self).height() + grows(byte1)
                >= takes(byte2)),
        ensures
            final(self)@ == old(self)@.emit(byte1).emit(byte2),
            final(self).wf(),
            final(self).same_cursor(old(self)),
            final(self).same_errors(old(self)),
            final(self).same_scopes(old(self)),
            final(self).code() == old(self).code().push(byte1).push(byte2),
            final(self).heights() == old(self).heights().push(
                old(self).height() + grows(byte1),
            ).push(old(self).height() + grows(byte1) + grows(byte2)),
            final(self).pending() == old(self).pending(),
            final(self).compiler.blocks == old(self).compiler.blocks,
            final(self).compiler.function.block.constants
                == old(self).compiler.function.block.constants,
            index == old(self).code().len() + 1,
            final(self).remaining() == old(self).remaining(),
    {
        self.emit_instr(byte1);
        self.emit_instr(byte2)
    }

    /// Appends the instructions that return `nil`. The height of the
    /// stack behind them is as before.
    fn emit_return(&mut self)
        requires
            old(self).wf(),
            old(self).had_error || old(self).height() >= 0,
        ensures
            final(self)@ == old(self)@.emit(OpCode::Nil).emit(OpCode::Return),
            final(self).wf(),
            final(self).same_cursor(old(self)),
            final(self).same_errors(old(self)),
            final(self).same_scopes(old(self)),
            final(self).code() == old(self).code().push(OpCode::Nil).push(OpCode::Return),
            final(self).heights() == old(self).heights().push(old(self).height() + 1).push(
                old(self).height(),
            ),
            final(self).pending() == old(self).pending(),
            final(self).compiler.blocks == old(self).compiler.blocks,
            final(self).compiler.function.block.constants
                == old(self).compiler.function.block.constants,
            final(self).remaining() == old(self).remaining(),
    {
        let ghost height = self.height();
        self.emit_instr(OpCode::Nil);
        self.emit_away(OpCode::Return, Ghost(height));
    }

    /// Appends a jump back to `loop_start`, unless that is too far away.
    /// `next` is the height of the stack for the instruction that will
    /// stand behind the jump.
    fn emit_loop(&mut self, loop_start: usize, Ghost(next): Ghost<int>)
        requires
            old(self).wf(),
            loop_start <= old(self).code().len(),
            old(self).had_error || old(self).heights()[loop_start as int] == old(self).height(),
        ensures
            final(self)@ == old(self)@.emit_loop(loop_start as int),
            final(self).wf(),
            final(self).same_cursor(old(self)),
            final(self).same_scopes(old(self)),
            final(self).compiler.function.block.constants
                == old(self).compiler.function.block.constants,
            final(self).remaining() == old(self).remaining(),
            old(self).code().len() - loop_start <= u16::MAX ==> final(self).same_errors(old(self))
                && final(self).code() == old(self).code().push(
                OpCode::Loop((old(self).code().len() - loop_start) as u16),
            ) && final(self).heights() == old(self).heights().push(next),
            old(self).code().len() - loop_start > u16::MAX ==> final(self).code()
                == old(self).code() && final(self).heights() == old(self).heights()
                && final(self).reported(
                old(self),
                old(self).previous,
                "Loop body too large.".spec_bytes(),
            ) && final(self).had_error,
            old(self).had_error ==> final(self).had_error,
            extends(final(self).messages(), old(self).messages()),
            extends(final(self).heights(), old(self).heights()),
            final(self).pending() == old(self).pending(),
            final(self).compiler.blocks == old(self).compiler.blocks,
    {
        proof {
            reveal(ParserModel::emit_loop);
        }
        let offset: usize = self.compiler.function.block.code.len() - loop_start;
        if offset > 65535 {
            self.error_previous("Loop body too large.");
            return ;
        }
        self.emit_away(OpCode::Loop(offset as u16), Ghost(next));
    }

    /// Sets the distance of the forward jump at `offset` so that it lands
    /// where the next instruction will stand. Too long a jump is an
    /// error.
    fn patch_jump(&mut self, offset: usize)
        requires
            old(self).had_error || old(self).heights()[offset as int] == old(self).height(),
            old(self).wf(),
            offset < old(self).code().len(),
        ensures
            final(self).compiler.heights == old(self).compiler.heights,
            final(self).compiler.blocks == old(self).compiler.blocks,
            !final(self).had_error ==> final(self).pending() == old(self).pending().remove(
                offset as int,
            ),
            final(self)@ == old(self)@.patch_jump(offset as int),
            final(self).wf(),
            final(self).same_cursor(old(self)),
            final(self).same_scopes(old(self)),
            final(self).compiler.function.block.constants
                == old(self).compiler.function.block.constants,
            final(self).compiler.function.block.lines == old(self).compiler.function.block.lines,
            final(self).remaining() == old(self).remaining(),
            old(self).had_error ==> final(self).had_error,
            extends(final(self).messages(), old(self).messages()),
            old(self).code().len() - offset - 1 > u16::MAX ==> final(self).code()
                == old(self).code() && final(self).reported(
                old(self),
                old(self).previous,
                "Too much code to jump over.".spec_bytes(),
            ) && final(self).had_error,
            old(self).code().len() - offset - 1 <= u16::MAX
                && old(self).code()[offset as int].is_forward_jump()
                ==> final(self).same_errors(old(self))
                && final(self).code() == old(self).code().update(
                offset as int,
                with_distance(
                    old(self).code()[offset as int],
                    (old(self).code().len() - offset - 1) as u16,
                ),
            ),
            old(self).code().len() - offset - 1 <= u16::MAX
                && !old(self).code()[offset as int].is_forward_jump() ==> final(self).code()
                == old(self).code()
                && final(self).reported(
                old(self),
                old(self).previous,
                "Can only patch jump instructions.".spec_bytes(),
            ) && final(self).had_error,
    {
        proof {
            reveal(all_step);
            reveal(all_level);
            reveal(all_balanced);
            reveal(ParserModel::patch_jump);
        }
        let jump: usize = self.compiler.function.block.code.len() - offset - 1;
        if jump > 65535 {
            self.error_previous("Too much code to jump over.");
            return ;
        }
        let distance: u16 = jump as u16;
        match self.compiler.function.block.code[offset] {
            OpCode::Jump(_) => {
                self.compiler.function.block.code[offset] = OpCode::Jump(distance);
                self.compiler.pending = Ghost(self.compiler.pending@.remove(offset as int));
            },
            OpCode::JumpIfFalse(_) => {
                self.compiler.function.block.code[offset] = OpCode::JumpIfFalse(distance);
                self.compiler.pending = Ghost(self.compiler.pending@.remove(offset as int));
            },
            _ => {
                self.error_previous("Can only patch jump instructions.");
            },
        }
    }

    /// Adds a constant to the pool of the function and returns its index.
    /// If the pool is full that is an error, and the result is 0.
    fn make_constant(&mut self, value: Value) -> (index: u8)
        requires
            old(self).wf(),
            old(self).had_error || (value matches Value::Function(f) ==> function_sound(*f)),
        ensures
            final(self).compiler.heights == old(self).compiler.heights,
            final(self).compiler.pending == old(self).compiler.pending,
            final(self).compiler.blocks == old(self).compiler.blocks,
            (final(self)@, index) == old(self)@.make_constant(value_model(value)),
            final(self).wf(),
            final(self).same_cursor(old(self)),
            final(self).same_scopes(old(self)),
            final(self).compiler.function.block.code == old(self).compiler.function.block.code,
            final(self).compiler.function.block.lines == old(self).compiler.function.block.lines,
            final(self).remaining() == old(self).remaining(),
            old(self).had_error ==> final(self).had_error,
            extends(final(self).messages(), old(self).messages()),
            old(self).constants().len() < MAX_CONSTANTS ==> final(self).same_errors(old(self))
                && final(self).constants() == old(self).constants().push(value) && index
                    == old(self).constants().len(),
            old(self).constants().len() >= MAX_CONSTANTS ==> final(self).constants()
                == old(self).constants() && index == 0 && final(self).had_error
                && final(self).reported(
                old(self),
                old(self).previous,
                "Too many constants in one chunk.".spec_bytes(),
            ),
    {
        proof {
            reveal(ParserModel::make_constant);
        }
        proof {
            lemma_constant_models_push(self.compiler.function.block.constants@, value);
        }
        match self.compiler.function.block.add_constant(value) {
            Some(constant) => {
                proof {
                    assert(self@ =~~= old(self)@.make_constant(value_model(value)).0);
                }
                constant
            },
            None => {
                self.error_previous("Too many constants in one chunk.");
                0
            },
        }
    }

    /// Adds a constant and appends the instruction that loads it.
    fn emit_constant(&mut self, value: Value)
        requires
            old(self).wf(),
            old(self).had_error || (value matches Value::Function(f) ==> function_sound(*f)),
        ensures
            final(self).heights() == old(self).heights().push(old(self).height() + 1),
            final(self).pending() == old(self).pending(),
            final(self).compiler.blocks == old(self).compiler.blocks,
            final(self)@ == old(self)@.emit_constant(value_model(value)),
            final(self).wf(),
            final(self).same_cursor(old(self)),
            final(self).same_scopes(old(self)),
            final(self).remaining() == old(self).remaining(),
            old(self).had_error ==> final(self).had_error,
            extends(final(self).messages(), old(self).messages()),
            old(self).constants().len() < MAX_CONSTANTS ==> final(self).same_errors(old(self))
                && final(self).constants() == old(self).constants().push(value)
                    && final(self).code() == old(self).code().push(
                OpCode::Constant(old(self).constants().len() as u8),
            ),
            old(self).constants().len() >= MAX_CONSTANTS ==> final(self).constants()
                == old(self).constants() && final(self).code()
                == old(self).code().push(OpCode::Constant(0))
                && final(self).had_error && final(self).reported(
                old(self),
                old(self).previous,
                "Too many constants in one chunk.".spec_bytes(),
            ),
    {
        proof {
            reveal(ParserModel::emit_constant);
        }
        let constant: u8 = self.make_constant(value);
        self.emit_instr(OpCode::Constant(constant));
    }

    /// Adds the name of a variable to the constants.
    fn identifier_constant(&mut self, name: Token) -> (index: u8)
        requires
            old(self).wf(),
        ensures
            final(self).compiler.heights == old(self).compiler.heights,
            final(self).compiler.pending == old(self).compiler.pending,
            final(self).compiler.blocks == old(self).compiler.blocks,
            (final(self)@, index) == old(self)@.identifier_constant(name.lexeme@),
            final(self).wf(),
            final(self).same_cursor(old(self)),
            final(self).same_scopes(old(self)),
            final(self).compiler.function.block.code == old(self).compiler.function.block.code,
            final(self).compiler.function.block.lines == old(self).compiler.function.block.lines,
            final(self).remaining() == old(self).remaining(),
            old(self).had_error ==> final(self).had_error,
            extends(final(self).messages(), old(self).messages()),
            extends(final(self).constants(), old(self).constants()),
            final(self).had_error || (index < final(self).constants().len()
                && final(self).constants()[index as int] is String),
            old(self).constants().len() < MAX_CONSTANTS ==> final(self).same_errors(old(self))
                && final(self).constants().len() == old(self).constants().len() + 1 && index
                == old(self).constants().len()
                    && (final(self).constants()[index as int] matches Value::String(s)
                    && s.value@ == name.lexeme@
                && s.wf()),
            old(self).constants().len() >= MAX_CONSTANTS ==> final(self).constants()
                == old(self).constants() && index == 0 && final(self).had_error
                && final(self).reported(
                old(self),
                old(self).previous,
                "Too many constants in one chunk.".spec_bytes(),
            ),
    {
        proof {
            reveal(ParserModel::identifier_constant);
        }
        let text = self.intern(name.lexeme);
        self.make_constant(Value::String(text))
    }

    /// Opens a scope, and says whether it did: scopes nested deeper than
    /// a 32-bit number counts are an error.
    fn begin_scope(&mut self) -> (opened: bool)
        requires
            old(self).wf(),
        ensures
            final(self).compiler.heights == old(self).compiler.heights,
            final(self).compiler.pending == old(self).compiler.pending,
            final(self).compiler.blocks == old(self).compiler.blocks,
            (final(self)@, opened) == old(self)@.begin_scope(),
            opened == (old(self).compiler.scope_depth < i32::MAX),
            final(self).compiler.settled() == old(self).compiler.settled(),
            final(self).wf(),
            final(self).same_cursor(old(self)),
            final(self).enclosing@ == old(self).enclosing@,
            final(self).compiler.function == old(self).compiler.function,
            final(self).compiler.function_type == old(self).compiler.function_type,
            final(self).compiler.locals == old(self).compiler.locals,
            final(self).remaining() == old(self).remaining(),
            old(self).had_error ==> final(self).had_error,
            extends(final(self).messages(), old(self).messages()),
            final(self).compiler.scope_depth >= 1,
            old(self).compiler.scope_depth < i32::MAX ==> final(self).same_errors(old(self))
                && final(self).compiler.scope_depth == old(self).compiler.scope_depth + 1,
            old(self).compiler.scope_depth == i32::MAX ==> final(self).compiler.scope_depth
                == old(self).compiler.scope_depth && final(self).had_error && final(self).reported(
                old(self),
                old(self).previous,
                "Too many nested scopes.".spec_bytes(),
            ),
    {
        proof {
            reveal(ParserModel::begin_scope);
        }
        if self.compiler.scope_depth == i32::MAX {
            self.error_previous("Too many nested scopes.");
            false
        } else {
            self.compiler.scope_depth += 1;
            true
        }
    }

    /// Closes the open scope: its locals go, and for each of them a `Pop`
    /// is appended that takes its value off the stack.
    fn end_scope(&mut self)
        requires
            old(self).level(),
            old(self).wf(),
            old(self).compiler.settled(),
            old(self).compiler.scope_depth > 0,
        ensures
            final(self).level(),
            extends(final(self).heights(), old(self).heights()),
            final(self).pending() == old(self).pending(),
            final(self).compiler.blocks == old(self).compiler.blocks,
            final(self)@ == old(self)@.end_scope(),
            final(self).wf(),
            final(self).compiler.settled(),
            final(self).same_cursor(old(self)),
            final(self).same_errors(old(self)),
            final(self).enclosing@ == old(self).enclosing@,
            final(self).compiler.function_type == old(self).compiler.function_type,
            final(self).compiler.function.name == old(self).compiler.function.name,
            final(self).compiler.function.arity == old(self).compiler.function.arity,
            final(self).compiler.function.block.constants
                == old(self).compiler.function.block.constants,
            final(self).remaining() == old(self).remaining(),
            final(self).compiler.scope_depth == old(self).compiler.scope_depth - 1,
            final(self).locals() == old(self).locals().take(
                kept(local_models(old(self).locals()), old(self).compiler.scope_depth - 1),
            ),
            final(self).code() == old(self).code() + pops(
                old(self).locals().len() - final(self).locals().len(),
            ),
    {
        let ghost lines = self.compiler.function.block.lines@;
        let ghost line = line_of(self.previous.line);
        proof {
            reveal(ParserModel::end_scope);
            reveal(ParserModel::emit);
        }
        let ghost depth: int = self.compiler.scope_depth - 1;
        while self.compiler.locals.len() > 0 && self.compiler.locals[self.compiler.locals.len()
            - 1].depth >= self.compiler.scope_depth
            invariant
                self.wf(),
                self.compiler.settled(),
                self.same_cursor(old(self)),
                self.same_errors(old(self)),
                self.enclosing@ == old(self).enclosing@,
                self.compiler.function_type == old(self).compiler.function_type,
                self.compiler.function.name == old(self).compiler.function.name,
                self.compiler.function.arity == old(self).compiler.function.arity,
                self.compiler.function.block.constants
                    == old(self).compiler.function.block.constants,
                self.compiler.scope_depth == old(self).compiler.scope_depth,
                self.compiler.scope_depth > 0,
                depth == self.compiler.scope_depth - 1,
                self.locals().len() <= old(self).locals().len(),
                self.locals() == old(self).locals().take(self.locals().len() as int),
                kept(local_models(self.locals()), depth)
                    == kept(local_models(old(self).locals()), depth),
                self.code() == old(self).code() + pops(
                    old(self).locals().len() - self.locals().len(),
                ),
                lines == old(self).compiler.function.block.lines@,
                line == line_of(self.previous.line),
                self.level(),
                extends(self.heights(), old(self).heights()),
                self.pending() == old(self).pending(),
                self.compiler.blocks == old(self).compiler.blocks,
                self.scopes == old(self).scopes,
                self.compiler.function.block.lines@ == lines + repeated(
                    line,
                    old(self).locals().len() - self.locals().len(),
                ),
            decreases self.compiler.locals@.len(),
        {
            proof {
                reveal(ParserModel::emit);
            }
            let ghost lines_before = self.compiler.function.block.lines@;
            let ghost before = self.locals();
            let ghost code_before = self.code();
            self.emit_instr(OpCode::Pop);
            self.compiler.locals.pop();
            proof {
                assert(before.len() >= 2);
                assert(self.locals() =~= before.drop_last());
                assert(local_models(before).drop_last() =~= local_models(self.locals()));
                assert forall|i: int| 0 <= i < self.locals().len() implies self.locals()[i]
                    == before[i] by {}
                assert(self.compiler.wf()) by {
                    assert forall|i: int, j: int|
                        0 <= i < j < self.compiler.locals@.len() && (
                        #[trigger] self.compiler.locals@[j]).depth != -1 implies (
                    #[trigger] self.compiler.locals@[i]).depth
                        <= self.compiler.locals@[j].depth by {
                        assert(before[i].depth <= before[j].depth);
                    }
                }
                assert(self.locals() =~= old(self).locals().take(self.locals().len() as int));
                assert(self.code() =~= old(self).code() + pops(
                    old(self).locals().len() - self.locals().len(),
                ));
                assert(self.compiler.function.block.lines@ =~= lines + repeated(
                    line,
                    old(self).locals().len() - self.locals().len(),
                ));
            }
        }
        proof {
            assert(self.compiler.function.block.lines@ =~= lines + repeated(
                line,
                old(self).locals().len() - self.locals().len(),
            ));
            let locals = self.locals();
            let last = locals.len() - 1;
            assert(local_models(locals).last().depth == locals[last].depth);
            assert(locals[last].depth <= depth);
            assert(local_models(old(self).locals()).take(locals.len() as int) =~= local_models(
                locals,
            ));
            assert forall|i: int| 0 <= i < locals.len() implies (#[trigger] locals[i]).depth
                <= depth by {
                if i < last {
                    assert(locals[last].depth != -1);
                    assert(locals[i].depth <= locals[last].depth);
                }
            }
        }
        self.compiler.scope_depth -= 1;
        proof {
            assert(local_models(self.locals()) =~= local_models(old(self).locals()).take(
                self.locals().len() as int,
            ));
            assert(self.compiler.blocks@ == old(self).compiler.blocks@);
            assert(self.compiler@ =~~= old(self)@.end_scope().compiler);
            assert(self@ =~~= old(self)@.end_scope());
        }
    }

    /// Adds a local of that name, not yet initialized. More than 256
    /// locals are an error.
    fn add_local(&mut self, name: Token<'a>)
        requires
            old(self).wf(),
        ensures
            final(self).compiler.heights == old(self).compiler.heights,
            final(self).compiler.pending == old(self).compiler.pending,
            final(self).compiler.blocks == old(self).compiler.blocks,
            final(self)@ == old(self)@.add_local(name@),
            final(self).wf(),
            final(self).same_cursor(old(self)),
            final(self).enclosing@ == old(self).enclosing@,
            final(self).compiler.function == old(self).compiler.function,
            final(self).compiler.function_type == old(self).compiler.function_type,
            final(self).compiler.scope_depth == old(self).compiler.scope_depth,
            final(self).remaining() == old(self).remaining(),
            old(self).had_error ==> final(self).had_error,
            extends(final(self).messages(), old(self).messages()),
            old(self).locals().len() < MAX_LOCALS ==> final(self).same_errors(old(self))
                && final(self).locals()
                == old(self).locals().push(Local { token: name, depth: -1i32 }),
            old(self).locals().len() >= MAX_LOCALS ==> final(self).compiler.locals
                == old(self).compiler.locals && final(self).had_error && final(self).reported(
                old(self),
                name,
                "Too many local variables in scope.".spec_bytes(),
            ),
    {
        proof {
            reveal(ParserModel::add_local);
        }
        if self.compiler.locals.len() == MAX_LOCALS {
            self.error(name, "Too many local variables in scope.");
            return ;
        }
        let local = Local::new(name, -1);
        self.compiler.locals.push(local);
    }

    /// Declares the variable that the previous token names, if a scope is
    /// open; globals are not declared. A second variable of one name in
    /// one scope is an error.
    fn declare_variable(&mut self)
        requires
            old(self).wf(),
        ensures
            final(self).compiler.heights == old(self).compiler.heights,
            final(self).compiler.pending == old(self).compiler.pending,
            final(self).compiler.blocks == old(self).compiler.blocks,
            final(self)@ == old(self)@.declare_variable(),
            final(self).wf(),
            final(self).same_cursor(old(self)),
            final(self).enclosing@ == old(self).enclosing@,
            final(self).compiler.function == old(self).compiler.function,
            final(self).compiler.function_type == old(self).compiler.function_type,
            final(self).compiler.scope_depth == old(self).compiler.scope_depth,
            final(self).remaining() == old(self).remaining(),
            old(self).had_error ==> final(self).had_error,
            extends(final(self).messages(), old(self).messages()),
            old(self).compiler.scope_depth == 0 ==> *final(self) == *old(self),
            old(self).compiler.scope_depth > 0 ==> {
                &&& final(self).locals().len() >= 2
                &&& if old(self).locals().len() < MAX_LOCALS {
                    final(self).locals() == old(self).locals().push(
                        Local { token: old(self).previous, depth: -1i32 },
                    )
                } else {
                    final(self).compiler.locals == old(self).compiler.locals
                        && final(self).had_error
                }
                &&& declared_here(
                    local_models(old(self).locals()),
                    old(self).compiler.scope_depth as int,
                    old(self).previous.lexeme@,
                    old(self).locals().len() as int,
                ) ==> final(self).had_error
                &&& !declared_here(
                    local_models(old(self).locals()),
                    old(self).compiler.scope_depth as int,
                    old(self).previous.lexeme@,
                    old(self).locals().len() as int,
                ) && old(self).locals().len() < MAX_LOCALS ==> final(self).same_errors(old(self))
            },
    {
        proof {
            reveal(ParserModel::declare_variable);
        }
        if self.compiler.scope_depth == 0 {
            return ;
        }
        let name = self.previous;
        if self.compiler.is_local(name) {
            self.error(name, "Already a variable with this name in this scope.");
        }
        self.add_local(name)
    }

    /// Marks the local declared last as initialized, if a scope is open.
    fn mark_initialized(&mut self)
        requires
            old(self).wf(),
            old(self).compiler.scope_depth > 0 ==> old(self).locals().len() >= 2,
        ensures
            final(self).compiler.heights == old(self).compiler.heights,
            final(self).compiler.pending == old(self).compiler.pending,
            final(self).compiler.blocks == old(self).compiler.blocks,
            final(self)@ == old(self)@.mark_initialized(),
            final(self).wf(),
            old(self).nearly_settled() && (old(self).compiler.settled()
                || old(self).compiler.scope_depth > 0) ==> final(self).ready(),
            final(self).same_cursor(old(self)),
            final(self).same_errors(old(self)),
            final(self).enclosing@ == old(self).enclosing@,
            final(self).compiler.function == old(self).compiler.function,
            final(self).compiler.function_type == old(self).compiler.function_type,
            final(self).compiler.scope_depth == old(self).compiler.scope_depth,
            final(self).remaining() == old(self).remaining(),
            old(self).compiler.scope_depth == 0 ==> final(self).compiler.locals
                == old(self).compiler.locals,
            old(self).compiler.scope_depth > 0 ==> final(self).locals()
                == old(self).locals().update(
                old(self).locals().len() - 1,
                Local {
                    token: old(self).locals().last().token,
                    depth: old(self).compiler.scope_depth,
                },
            ),
    {
        proof {
            reveal(ParserModel::mark_initialized);
        }
        if self.compiler.scope_depth > 0 {
            let last: usize = self.compiler.locals.len() - 1;
            let token = self.compiler.locals[last].token;
            self.compiler.locals[last] = Local { token, depth: self.compiler.scope_depth };
        }
    }

    /// Defines the variable that was declared last: a local is marked as
    /// initialized, a global gets the instruction that defines it.
    fn define_variable(&mut self, global: u8)
        requires
            old(self).had_error || old(self).compiler.scope_depth > 0 || old(self).height() >= 1,
            old(self).wf(),
            old(self).compiler.scope_depth > 0 ==> old(self).locals().len() >= 2,
            old(self).compiler.scope_depth == 0 ==> old(self).had_error || operand_fits(
                OpCode::DefGlobal(global),
                old(self).constants(),
            ),
        ensures
            old(self).compiler.scope_depth == 0 ==> final(self).heights()
                == old(self).heights().push(
                old(self).height() - 1,
            ),
            old(self).compiler.scope_depth > 0 ==> final(self).compiler.heights
                == old(self).compiler.heights,
            final(self).compiler.pending == old(self).compiler.pending,
            final(self).compiler.blocks == old(self).compiler.blocks,
            final(self)@ == old(self)@.define_variable(global),
            final(self).wf(),
            old(self).nearly_settled() && (old(self).compiler.settled()
                || old(self).compiler.scope_depth > 0) ==> final(self).ready(),
            final(self).same_cursor(old(self)),
            final(self).same_errors(old(self)),
            final(self).enclosing@ == old(self).enclosing@,
            final(self).compiler.function_type == old(self).compiler.function_type,
            final(self).compiler.function.name == old(self).compiler.function.name,
            final(self).compiler.function.arity == old(self).compiler.function.arity,
            final(self).compiler.function.block.constants
                == old(self).compiler.function.block.constants,
            final(self).compiler.scope_depth == old(self).compiler.scope_depth,
            final(self).remaining() == old(self).remaining(),
            old(self).compiler.scope_depth == 0 ==> final(self).compiler.locals
                == old(self).compiler.locals && final(self).code() == old(self).code().push(
                OpCode::DefGlobal(global),
            ),
            old(self).compiler.scope_depth > 0 ==> final(self).code() == old(self).code()
                && final(self).locals() == old(self).locals().update(
                old(self).locals().len() - 1,
                Local {
                    token: old(self).locals().last().token,
                    depth: old(self).compiler.scope_depth,
                },
            ),
    {
        proof {
            reveal(ParserModel::define_variable);
        }
        if self.compiler.scope_depth > 0 {
            self.mark_initialized();
            return ;
        }
        self.emit_instr(OpCode::DefGlobal(global));
    }

    /// The slot of the innermost local of that name, if there is one. To
    /// name a local in its own initializer is an error.
    fn resolve_local(&mut self, name: &Token<'a>) -> (slot: Option<u8>)
        requires
            old(self).wf(),
        ensures
            (final(self)@, slot) == old(self)@.resolve_local(name@),
            final(self).wf(),
            final(self).same_cursor(old(self)),
            final(self).same_output(old(self)),
            final(self).remaining() == old(self).remaining(),
            old(self).had_error ==> final(self).had_error,
            extends(final(self).messages(), old(self).messages()),
            slot.is_some() == (innermost(
                local_models(old(self).locals()),
                name.lexeme@,
                old(self).locals().len() as int,
            ) >= 0),
            slot matches Some(k) ==> k == innermost(
                local_models(old(self).locals()),
                name.lexeme@,
                old(self).locals().len() as int,
            ),
            if slot.is_some() && old(self).locals()[slot.unwrap() as int].depth == -1 {
                final(self).had_error && final(self).reported(
                    old(self),
                    *name,
                    "Can't read local variable in its own initializer.".spec_bytes(),
                )
            } else {
                final(self).same_errors(old(self))
            },
    {
        proof {
            reveal(ParserModel::resolve_local);
        }
        proof {
            lemma_innermost(
                local_models(self.compiler.locals@),
                name.lexeme@,
                self.compiler.locals@.len() as int,
            );
        }
        let result = self.compiler.resolve_local(name, &mut self.resolve_errors);
        proof {
            assert(self@ =~~= old(self)@);
        }
        match self.resolve_errors.pop() {
            Some(error) => {
                proof {
                    assert(self.resolve_errors@ =~= old(self).resolve_errors@);
                }
                self.error(*name, error);
            },
            None => {},
        }
        result
    }
    /// The state was reached from state `o` by reading tokens and adding
    /// code and constants to the function being compiled. Unless an
    /// error was found, every jump in the code that was added lands in
    /// the code or at its end.
    spec fn proceeds(&self, o: &Self) -> bool {
        &&& self.wf()
        &&& self.scanner.text() == o.scanner.text()
        &&& self.numbers == o.numbers
        &&& self.remaining() <= o.remaining()
        &&& self.enclosing@ == o.enclosing@
        &&& o.had_error ==> self.had_error
        &&& extends(self.messages(), o.messages())
        &&& self.compiler.function_type == o.compiler.function_type
        &&& self.compiler.function.name == o.compiler.function.name
        &&& extends(self.code(), o.code())
        &&& extends(self.constants(), o.constants())
        &&& extends(self.heights(), o.heights())
        &&& !self.had_error ==> self.pending() == o.pending()
        &&& !self.had_error ==> jumps_land(
            self.code(),
            o.code().len() as int,
            self.code().len() as int,
        )
    }

    /// The state was reached from state `o` by compiling an expression or
    /// a part of one: the scopes are as before.
    spec fn expr_done(&self, o: &Self) -> bool {
        &&& self.proceeds(o)
        &&& self.compiler.locals == o.compiler.locals
        &&& self.compiler.scope_depth == o.compiler.scope_depth
        &&& self.compiler.function.arity == o.compiler.function.arity
    }

    /// The state was reached from state `o` by compiling a statement. The
    /// scopes are closed again: unless an error was found, the locals
    /// are those that were in scope before.
    spec fn stmt_done(&self, o: &Self) -> bool {
        &&& self.proceeds(o)
        &&& self.ready()
        &&& self.level()
        &&& self.compiler.scope_depth == o.compiler.scope_depth
        &&& self.compiler.function.arity == o.compiler.function.arity
        &&& !self.had_error ==> self.locals() == o.locals()
    }

    /// The state was reached from state `o` by compiling declarations.
    /// Unless an error was found, the locals are those that were in scope
    /// before and then those that were declared, which belong to the
    /// open scope.
    spec fn decl_done(&self, o: &Self) -> bool {
        &&& self.proceeds(o)
        &&& self.ready()
        &&& self.level()
        &&& self.compiler.scope_depth == o.compiler.scope_depth
        &&& self.compiler.function.arity == o.compiler.function.arity
        &&& !self.had_error ==> extends(self.locals(), o.locals()) && forall|j: int|
            o.locals().len() <= j < self.locals().len() ==> (#[trigger] self.locals()[j]).depth
                == self.compiler.scope_depth
    }

    /// Starts the compilation of a function that is named by the
    /// previous token.
    fn compiler_push(&mut self, function_type: FunctionType)
        requires
            old(self).ready(),
        ensures
            final(self).heights() == seq![1int],
            final(self).pending() == Set::<int>::empty(),
            final(self)@ == old(self)@.compiler_push(function_type),
            final(self).ready(),
            final(self).same_cursor(old(self)),
            final(self).same_errors(old(self)),
            final(self).remaining() == old(self).remaining(),
            final(self).enclosing@ == old(self).enclosing@.push(old(self).compiler),
            final(self).compiler.function.name.value@ == old(self).previous.lexeme@,
            final(self).compiler.function.arity == 0,
            final(self).compiler.function_type == function_type,
            final(self).code() == Seq::<OpCode>::empty(),
            final(self).constants() == Seq::<Value>::empty(),
            final(self).compiler.scope_depth == 0,
            final(self).locals().len() == 1,
    {
        proof {
            reveal(ParserModel::compiler_push);
        }
        let name = self.previous.lexeme;
        let text = self.intern(name);
        let mut compiler = Compiler::new(text, function_type);
        proof {
            assert(local_models(compiler.locals@) =~= crate::grammar::new_compiler(
                name@,
                function_type,
            ).locals);
            assert(constant_models(compiler.function.block.constants@) =~= Seq::<
                ValueModel,
            >::empty());
            assert(compiler@ =~~= crate::grammar::new_compiler(name@, function_type));
        }
        core::mem::swap(&mut self.compiler, &mut compiler);
        self.enclosing.push(compiler);
        proof {
            assert(self.enclosing@.map_values(|c: Compiler| c@) =~= old(self).enclosing@.map_values(
                |c: Compiler| c@,
            ).push(old(self).compiler@));
            assert(self@ =~~= old(self)@.compiler_push(function_type));
        }
    }

    /// Ends the compilation of a function, which returns `nil` at its
    /// end, and goes back to the function around it.
    fn compiler_pop(&mut self) -> (function: Function)
        requires
            old(self).had_error || old(self).height() >= 0,
            old(self).had_error || (old(self).heights()[0] == old(self).compiler.function.arity + 1
                && old(self).pending() == Set::<int>::empty()),
            old(self).ready(),
            old(self).enclosing@.len() > 0,
        ensures
            !old(self).had_error ==> typed(function.block.code@, function.arity as int),
            (final(self)@, function_model(function)) == old(self)@.compiler_pop(),
            final(self).ready(),
            final(self).same_cursor(old(self)),
            final(self).same_errors(old(self)),
            final(self).remaining() == old(self).remaining(),
            final(self).compiler == old(self).enclosing@.last(),
            final(self).enclosing@ == old(self).enclosing@.drop_last(),
            function.name == old(self).compiler.function.name,
            function.arity == old(self).compiler.function.arity,
            function.block.code@ == old(self).code().push(OpCode::Nil).push(OpCode::Return),
            function.block.constants == old(self).compiler.function.block.constants,
            function.block.wf(),
            function.block.constants@.len() <= MAX_CONSTANTS,
            function.arity <= 255,
            !old(self).had_error ==> function.block.operands_fit() && constants_sound(
                function.block.constants@,
            ),
    {
        proof {
            reveal(all_step);
            reveal(all_level);
            reveal(all_balanced);
            reveal(ParserModel::compiler_pop);
        }
        self.emit_return();
        proof {
            if !old(self).had_error {
                let code = self.code();
                let heights = self.heights();
                assert(heights[0] == old(self).heights()[0]);
                assert(self.pending() =~= Set::<int>::empty());
                assert forall|i: int| 0 <= i < code.len() implies steps(
                    #[trigger] code[i],
                    i,
                    heights,
                ) && levels(code[i], i, heights) by {
                    assert(!self.pending().contains(i));
                }
                assert(typing(code, heights, self.compiler.function.arity as int));
            }
        }
        let ghost finished = scopes_of(
            function_model(self.compiler.function),
            self.compiler.blocks@,
        );
        proof {
            if !old(self).had_error {
                reveal(scopes_level);
                let code = self.code();
                let heights = self.heights();
                let all = self.scopes@ + finished;
                assert forall|k: int| 0 <= k < all.len() implies scope_level(#[trigger] all[k]) by {
                    if k >= self.scopes@.len() {
                        let block = self.compiler.blocks@[k - self.scopes@.len()];
                        assert(all[k].code == code);
                        assert(all[k].start == block.0);
                        assert(all[k].end == block.1);
                        assert(typing(all[k].code, heights, all[k].arity as int));
                    } else {
                        assert(all[k] == self.scopes@[k]);
                    }
                }
            }
        }
        self.scopes = Ghost(self.scopes@ + finished);
        let mut outer = self.enclosing.pop().unwrap();
        core::mem::swap(&mut self.compiler, &mut outer);
        outer.function
    }

    /// Reads the name of a variable and declares it. The result is the
    /// constant that holds the name of a global, and 0 for a local.
    fn parse_variable(&mut self, message: &str) -> (global: u8)
        requires
            old(self).ready(),
        ensures
            final(self).compiler.heights == old(self).compiler.heights,
            final(self).compiler.pending == old(self).compiler.pending,
            final(self).compiler.blocks == old(self).compiler.blocks,
            (final(self)@, global) == old(self)@.parse_variable(message.spec_bytes()),
            final(self).proceeds(old(self)),
            final(self).code() == old(self).code(),
            final(self).compiler.scope_depth == old(self).compiler.scope_depth,
            final(self).compiler.function.arity == old(self).compiler.function.arity,
            final(self).nearly_settled(),
            old(self).compiler.scope_depth == 0 ==> final(self).compiler.locals
                == old(self).compiler.locals && (final(self).had_error || operand_fits(
                OpCode::DefGlobal(global),
                final(self).constants(),
            )),
            old(self).compiler.scope_depth > 0 ==> {
                &&& global == 0
                &&& final(self).constants() == old(self).constants()
                &&& final(self).locals().len() >= 2
                &&& if final(self).had_error {
                    final(self).compiler.locals == old(self).compiler.locals
                        || final(self).locals().drop_last() == old(self).locals()
                } else {
                    final(self).locals().drop_last() == old(self).locals()
                        && final(self).locals().last().depth == -1
                        && final(self).locals().last().token.lexeme@
                        == final(self).previous.lexeme@
                }
            },
    {
        proof {
            reveal(ParserModel::parse_variable);
        }
        self.match_token(TokenType::Identifier, message);
        self.declare_variable();
        if self.compiler.scope_depth > 0 {
            proof {
                if old(self).locals().len() < MAX_LOCALS {
                    assert(self.locals().drop_last() =~= old(self).locals());
                    assert forall|i: int| 0 <= i < self.locals().len() - 1 implies (
                    #[trigger] self.locals()[i]).depth >= 0 by {
                        assert(self.locals()[i] == old(self).locals()[i]);
                    }
                }
            }
            return 0;
        }
        self.identifier_constant(self.previous)
    }
    /// Compiles an expression.
    fn expression(&mut self)
        requires
            old(self).clear(0),
            old(self).wf(),
        ensures
            final(self).raised(old(self), 1),
            final(self)@ == old(self)@.expression(),
            final(self).expr_done(old(self)),
            old(self).current.token_type != TokenType::Eof ==> final(self).remaining()
                < old(self).remaining(),
        decreases old(self).remaining(), 9int,
    {
        proof {
            reveal(ParserModel::expression);
            reveal(ParserModel::parse_precedence);
        }
        self.parse_precedence(Precedence::Assignment);
    }

    /// Compiles an expression whose operators bind at least as tightly as
    /// `precedence`: the operand that the next token starts, and then
    /// every operator of that precedence or above with its right operand.
    /// An assignment is compiled only where `precedence` lets one stand;
    /// a `=` that is left over there is an error.
    #[verifier::rlimit(80)]
    fn parse_precedence(&mut self, precedence: Precedence)
        requires
            old(self).clear(0),
            old(self).wf(),
            precedence.rank() >= 1,
        ensures
            final(self).raised(old(self), 1),
            final(self)@ == old(self)@.parse_precedence(precedence),
            final(self).expr_done(old(self)),
            old(self).current.token_type != TokenType::Eof ==> final(self).remaining()
                < old(self).remaining(),
        decreases old(self).remaining(), 8int,
    {
        proof {
            reveal(ParserModel::parse_precedence);
            reveal(ParserModel::operators);
            reveal(ParserModel::grouping);
            reveal(ParserModel::unary);
            reveal(ParserModel::named_variable);
        }
        self.advance();
        let prefix = match get_rule(self.previous.token_type).prefix {
            Some(rule) => rule,
            None => {
                self.error_previous("Expected expression.");
                return ;
            },
        };
        let is_assign: bool = precedence.level() <= Precedence::Assignment.level();
        match prefix {
            ParseFn::Grouping => self.grouping(is_assign),
            ParseFn::Unary => self.unary(is_assign),
            ParseFn::Variable => self.variable(is_assign),
            ParseFn::String => self.string(is_assign),
            ParseFn::Number => self.number(is_assign),
            ParseFn::Literal => self.literal(is_assign),
            _ => {},
        }
        let ghost operand = self@;

        while precedence.level() <= get_rule(self.current.token_type).precedence.level()
            invariant
                self.expr_done(old(self)),
                self.raised(old(self), 1),
                self.clear(1),
                self.remaining() < old(self).remaining(),
                precedence.rank() >= 1,
                self@.operators(precedence, is_assign) == operand.operators(precedence, is_assign),
            decreases self.remaining(),
        {
            proof {
                reveal(ParserModel::operators);
                reveal(ParserModel::call);
                reveal(ParserModel::binary);
                reveal(ParserModel::and);
                reveal(ParserModel::or);
            }
            self.advance();
            match get_rule(self.previous.token_type).infix {
                Some(ParseFn::Call) => self.call(is_assign),
                Some(ParseFn::Binary) => self.binary(is_assign),
                Some(ParseFn::And) => self.and(is_assign),
                Some(ParseFn::Or) => self.or(is_assign),
                _ => {},
            }
        }
        proof {
            reveal(ParserModel::operators);
            reveal(ParserModel::accept);
        }

        if is_assign && self.matches(TokenType::Equal) {
            self.error_previous("Invalid assignment target.");
        }
    }

    /// Compiles a number literal: the constant with its value.
    fn number(&mut self, _is_assign: bool)
        requires
            old(self).wf(),
        ensures
            final(self).raised(old(self), 1),
            final(self)@ == old(self)@.number(),
            final(self).expr_done(old(self)),
            final(self).same_cursor(old(self)),
            old(self).previous_number < old(self).numbers@.len() ==> {
                let value = Value::Number(old(self).numbers@[old(self).previous_number as int]);
                if old(self).constants().len() < MAX_CONSTANTS {
                    final(self).same_errors(old(self)) && final(self).constants()
                        == old(self).constants().push(value) && final(self).code()
                        == old(self).code().push(
                        OpCode::Constant(old(self).constants().len() as u8),
                    )
                } else {
                    final(self).had_error
                }
            },
            old(self).previous_number >= old(self).numbers@.len() ==> final(self).had_error
                && final(self).same_output(old(self)),
    {
        proof {
            reveal(ParserModel::number);
        }
        if self.previous_number < self.numbers.len() {
            let bits: u64 = self.numbers[self.previous_number];
            self.emit_constant(Value::Number(bits));
        } else {
            self.error_previous("Number literal without a value.");
        }
    }

    /// Compiles a string literal: the constant with the text between the
    /// quotes.
    fn string(&mut self, _is_assign: bool)
        requires
            old(self).wf(),
            old(self).previous.token_type == TokenType::String,
        ensures
            final(self).raised(old(self), 1),
            final(self)@ == old(self)@.string(),
            final(self).expr_done(old(self)),
            final(self).same_cursor(old(self)),
            old(self).constants().len() < MAX_CONSTANTS ==> final(self).same_errors(old(self))
                && final(self).constants().len() == old(self).constants().len() + 1
                    && (final(self).constants().last() matches Value::String(text)
                    && text.value@
                    == old(self).previous.lexeme@.subrange(1, old(self).previous.lexeme@.len() - 1) && text.wf())
                && final(self).code() == old(self).code().push(
                OpCode::Constant(old(self).constants().len() as u8),
            ),
            old(self).constants().len() >= MAX_CONSTANTS ==> final(self).had_error,
    {
        proof {
            reveal(ParserModel::string);
        }
        let lexeme = self.previous.lexeme;
        let inner = vstd::slice::slice_subrange(lexeme, 1, lexeme.len() - 1);
        let value = self.intern(inner);
        self.emit_constant(Value::String(value));
    }

    /// Compiles an expression in parentheses.
    fn grouping(&mut self, _is_assign: bool)
        requires
            old(self).clear(0),
            old(self).wf(),
        ensures
            final(self).raised(old(self), 1),
            final(self)@ == old(self)@.grouping(),
            final(self).expr_done(old(self)),
        decreases old(self).remaining(), 12int,
    {
        proof {
            reveal(ParserModel::grouping);
            reveal(ParserModel::expression);
        }
        self.expression();
        self.match_token(TokenType::RightParen, "Expect ')' after expression.");
    }

    /// Compiles `!` or `-` with its operand: the operand first, then the
    /// instruction.
    fn unary(&mut self, _is_assign: bool)
        requires
            old(self).clear(0),
            old(self).wf(),
            old(self).previous.token_type == TokenType::Bang || old(self).previous.token_type
                == TokenType::Minus,
        ensures
            final(self).raised(old(self), 1),
            final(self)@ == old(self)@.unary(),
            final(self).expr_done(old(self)),
            final(self).code().len() > old(self).code().len(),
            final(self).code().last() == if old(self).previous.token_type == TokenType::Bang {
                OpCode::Not
            } else {
                OpCode::Negate
            },
        decreases old(self).remaining(), 12int,
    {
        proof {
            reveal(ParserModel::unary);
            reveal(ParserModel::parse_precedence);
        }
        let operator = self.previous.token_type;
        self.parse_precedence(Precedence::Unary);
        match operator {
            TokenType::Bang => {
                self.emit_instr(OpCode::Not);
            },
            _ => {
                self.emit_instr(OpCode::Negate);
            },
        }
    }

    /// Compiles a binary operator, whose left operand was compiled: the
    /// right operand, which takes only operators that bind tighter, and
    /// then the instructions of the operator.
    #[verifier::rlimit(80)]
    fn binary(&mut self, _is_assign: bool)
        requires
            old(self).clear(1),
            binary_code(old(self).previous.token_type).len() > 0,
            old(self).wf(),
        ensures
            final(self).raised(old(self), 0),
            final(self)@ == old(self)@.binary(),
            final(self).expr_done(old(self)),
            final(self).code().len() >= old(self).code().len() + binary_code(
                old(self).previous.token_type,
            ).len(),
            final(self).code().subrange(
                final(self).code().len() - binary_code(old(self).previous.token_type).len(),
                final(self).code().len() as int,
            ) == binary_code(old(self).previous.token_type),
        decreases old(self).remaining(), 12int,
    {
        proof {
            reveal(ParserModel::binary);
            reveal(ParserModel::parse_precedence);
        }
        let operator = self.previous.token_type;
        let parse_rule = get_rule(operator);
        let next = parse_rule.precedence.next();
        proof {
            assert(next.rank() >= 1);
        }
        self.parse_precedence(next);
        let ghost operand = self.code();
        match operator {
            TokenType::BangEqual => {
                self.emit_two_instr(OpCode::Equal, OpCode::Not);
            },
            TokenType::EqualEqual => {
                self.emit_instr(OpCode::Equal);
            },
            TokenType::Greater => {
                self.emit_instr(OpCode::Greater);
            },
            TokenType::GreaterEqual => {
                self.emit_two_instr(OpCode::Less, OpCode::Not);
            },
            TokenType::Less => {
                self.emit_instr(OpCode::Less);
            },
            TokenType::LessEqual => {
                self.emit_two_instr(OpCode::Greater, OpCode::Not);
            },
            TokenType::Plus => {
                self.emit_instr(OpCode::Add);
            },
            TokenType::Minus => {
                self.emit_instr(OpCode::Subtract);
            },
            TokenType::Star => {
                self.emit_instr(OpCode::Multiply);
            },
            TokenType::Slash => {
                self.emit_instr(OpCode::Divide);
            },
            _ => {},
        }
        proof {
            let tail = binary_code(operator);
            assert(self.code() =~= operand + tail);
            assert(self.code().subrange(
                self.code().len() - tail.len(),
                self.code().len() as int,
            ) =~= tail);
        }
    }

    /// Compiles `true`, `false` or `nil`.
    fn literal(&mut self, _is_assign: bool)
        requires
            old(self).previous.token_type == TokenType::True || old(self).previous.token_type
                == TokenType::False || old(self).previous.token_type == TokenType::Nil,
            old(self).wf(),
        ensures
            final(self).raised(old(self), 1),
            final(self)@ == old(self)@.literal(),
            final(self).expr_done(old(self)),
            final(self).same_cursor(old(self)),
            final(self).same_errors(old(self)),
            final(self).constants() == old(self).constants(),
            final(self).code() == match old(self).previous.token_type {
                TokenType::True => old(self).code().push(OpCode::True),
                TokenType::False => old(self).code().push(OpCode::False),
                TokenType::Nil => old(self).code().push(OpCode::Nil),
                _ => old(self).code(),
            },
    {
        proof {
            reveal(ParserModel::literal);
        }
        match self.previous.token_type {
            TokenType::True => {
                self.emit_instr(OpCode::True);
            },
            TokenType::False => {
                self.emit_instr(OpCode::False);
            },
            TokenType::Nil => {
                self.emit_instr(OpCode::Nil);
            },
            _ => {},
        }
    }

    /// Compiles the use of a variable that the previous token names.
    fn variable(&mut self, is_assign: bool)
        requires
            old(self).clear(0),
            old(self).wf(),
        ensures
            final(self).raised(old(self), 1),
            final(self)@ == old(self)@.named_variable(old(self)@.previous, is_assign),
            final(self).expr_done(old(self)),
            final(self).names(old(self), old(self).previous.lexeme@, is_assign),
        decreases old(self).remaining(), 13int,
    {
        self.named_variable(self.previous, is_assign);
    }

    /// What the code for a variable is like: its last instruction reads
    /// the variable, or writes it where an assignment may stand and a `=`
    /// follows the name. If any local has the name, the instruction
    /// names the slot of the innermost one, and else a global.
    spec fn names(&self, o: &Self, name: Seq<u8>, is_assign: bool) -> bool {
        let slot = innermost(local_models(o.locals()), name, o.locals().len() as int);
        let assigns = is_assign && o.current.token_type == TokenType::Equal;
        &&& self.code().len() > o.code().len()
        &&& if slot >= 0 {
            self.code().last() == if assigns {
                OpCode::SetLocal(slot as u8)
            } else {
                OpCode::GetLocal(slot as u8)
            }
        } else {
            if assigns {
                self.code().last() is SetGlobal
            } else {
                self.code().last() is GetGlobal
            }
        }
        &&& slot < 0 && !self.had_error ==> {
            let k = if assigns {
                self.code().last()->SetGlobal_0
            } else {
                self.code().last()->GetGlobal_0
            };
            k < self.constants().len() && (self.constants()[k as int] matches Value::String(s)
                && s.value@ == name)
        }
    }

    /// Compiles the use of the variable `name`: a read, or a write where
    /// an assignment may stand and a `=` follows.
    #[verifier::rlimit(80)]
    fn named_variable(&mut self, name: Token<'a>, is_assign: bool)
        requires
            old(self).clear(0),
            old(self).wf(),
        ensures
            final(self).raised(old(self), 1),
            final(self)@ == old(self)@.named_variable(name@, is_assign),
            final(self).expr_done(old(self)),
            final(self).names(old(self), name.lexeme@, is_assign),
        decreases old(self).remaining(), 12int,
    {
        proof {
            reveal(ParserModel::named_variable);
            reveal(ParserModel::expression);
            reveal(ParserModel::accept);
        }
        proof {
            lemma_innermost(
                local_models(self.locals()),
                name.lexeme@,
                self.locals().len() as int,
            );
        }
        let (get_op, set_op) = match self.resolve_local(&name) {
            Some(arg) => {
                proof {
                    assert(local_models(old(self).locals())[arg as int].depth
                        == old(self).locals()[arg as int].depth);
                    assert(self.had_error || arg < self.height());
                }
                (OpCode::GetLocal(arg), OpCode::SetLocal(arg))
            },
            None => {
                let global: u8 = self.identifier_constant(name);
                (OpCode::GetGlobal(global), OpCode::SetGlobal(global))
            },
        };
        let ghost named = self.constants();
        if is_assign && self.matches(TokenType::Equal) {
            self.expression();
            self.emit_instr(set_op);
        } else {
            self.emit_instr(get_op);
        }
    }

    /// Compiles `and`, whose left operand was compiled: if that is falsey
    /// it stays as the result and the right operand is jumped over.
    fn and(&mut self, _is_assign: bool)
        requires
            old(self).clear(1),
            old(self).wf(),
        ensures
            final(self).raised(old(self), 0),
            final(self)@ == old(self)@.and(),
            final(self).expr_done(old(self)),
        decreases old(self).remaining(), 12int,
    {
        proof {
            reveal(ParserModel::and);
            reveal(ParserModel::parse_precedence);
        }
        proof {
            if !self.had_error {
                self.lemma_not_pending(self.code().len() as int);
            }
        }
        let jump: usize = self.emit_instr(OpCode::JumpIfFalse(0xFFFF));
        self.emit_instr(OpCode::Pop);
        self.parse_precedence(Precedence::And);
        self.patch_jump(jump);
        proof {
            if !self.had_error {
                assert(self.pending() =~= old(self).pending());
            }
        }
    }

    /// Compiles `or`, whose left operand was compiled: if that is truthy
    /// it stays as the result and the right operand is jumped over.
    fn or(&mut self, _is_assign: bool)
        requires
            old(self).clear(1),
            old(self).wf(),
        ensures
            final(self).raised(old(self), 0),
            final(self)@ == old(self)@.or(),
            final(self).expr_done(old(self)),
        decreases old(self).remaining(), 12int,
    {
        proof {
            reveal(ParserModel::or);
            reveal(ParserModel::parse_precedence);
        }
        let ghost height = self.height();
        proof {
            if !self.had_error {
                self.lemma_not_pending(self.code().len() as int);
                self.lemma_not_pending(self.code().len() as int + 1);
            }
        }
        let else_jump: usize = self.emit_instr(OpCode::JumpIfFalse(0xFFFF));
        let end_jump: usize = self.emit_away(OpCode::Jump(0xFFFF), Ghost(height));
        self.patch_jump(else_jump);
        self.emit_instr(OpCode::Pop);
        self.parse_precedence(Precedence::Or);
        self.patch_jump(end_jump);
        proof {
            if !self.had_error {
                assert(self.pending() =~= old(self).pending());
            }
        }
    }

    /// Compiles a call, whose callee was compiled: the arguments, then
    /// the instruction that calls with their number.
    fn call(&mut self, _is_assign: bool)
        requires
            old(self).clear(1),
            old(self).wf(),
        ensures
            final(self).raised(old(self), 0),
            final(self)@ == old(self)@.call(),
            final(self).expr_done(old(self)),
            final(self).code().len() > old(self).code().len(),
            final(self).code().last() is Call,
        decreases old(self).remaining(), 13int,
    {
        proof {
            reveal(ParserModel::call);
            reveal(ParserModel::argument_list);
        }
        let arg_count: u8 = self.argument_list();
        self.emit_instr(OpCode::Call(arg_count));
    }

    /// Compiles the arguments of a call up to the closing parenthesis and
    /// returns their number. More than 255 arguments are an error.
    fn argument_list(&mut self) -> (count: u8)
        requires
            old(self).clear(1),
            old(self).wf(),
        ensures
            final(self).had_error || final(self).height() == old(self).height() + count,
            (final(self)@, count) == old(self)@.argument_list(),
            final(self).expr_done(old(self)),
        decreases old(self).remaining(), 12int,
    {
        proof {
            reveal(ParserModel::argument_list);
            reveal(ParserModel::arguments);
        }
        let mut count: usize = 0;
        if !self.check(TokenType::RightParen) {
            loop
                invariant_except_break
                    self@.arguments(count as u8) == old(self)@.arguments(0),
                invariant
                    self.expr_done(old(self)),
                    self.had_error || self.height() == old(self).height() + count,
                    old(self).clear(1),
                    count <= 255,
                ensures
                    (self@, count as u8) == old(self)@.arguments(0),
                decreases self.remaining(),
            {
                proof {
                    reveal(ParserModel::arguments);
                    reveal(ParserModel::expression);
                    reveal(ParserModel::accept);
                }
                self.expression();
                if count == 255 {
                    self.error_previous("Can't have more than 255 arguments.");
                } else {
                    count += 1;
                }
                if !self.matches(TokenType::Comma) {
                    break ;
                }
            }
        }
        self.match_token(TokenType::RightParen, "Expected ')' after arguments.");
        count as u8
    }

    /// Compiles `print` with its expression.
    fn print_statement(&mut self)
        requires
            old(self).level(),
            old(self).ready(),
        ensures
            final(self)@ == old(self)@.print_statement(),
            final(self).stmt_done(old(self)),
            final(self).code().len() > old(self).code().len(),
            final(self).code().last() == OpCode::Print,
    {
        proof {
            reveal(ParserModel::print_statement);
        }
        self.expression();
        self.match_token(TokenType::Semicolon, "Expected semicolon after value.");
        self.emit_instr(OpCode::Print);
    }

    /// Compiles an expression as a statement: its value is popped.
    fn expression_statement(&mut self)
        requires
            old(self).level(),
            old(self).ready(),
        ensures
            final(self)@ == old(self)@.expression_statement(),
            final(self).stmt_done(old(self)),
            old(self).current.token_type != TokenType::Eof ==> final(self).remaining()
                < old(self).remaining(),
            final(self).code().len() > old(self).code().len(),
            final(self).code().last() == OpCode::Pop,
    {
        proof {
            reveal(ParserModel::expression_statement);
        }
        self.expression();
        self.match_token(TokenType::Semicolon, "Expected semicolon after expression.");
        self.emit_instr(OpCode::Pop);
    }

    /// Compiles `return`, with or without a value. At the top level of a
    /// program it is an error.
    fn return_statement(&mut self)
        requires
            old(self).level(),
            old(self).ready(),
        ensures
            final(self)@ == old(self)@.return_statement(),
            final(self).stmt_done(old(self)),
            final(self).code().len() > old(self).code().len(),
            final(self).code().last() == OpCode::Return,
            old(self).compiler.function_type == FunctionType::Script ==> final(self).had_error,
    {
        proof {
            reveal(ParserModel::return_statement);
            reveal(ParserModel::accept);
        }
        if self.compiler.function_type == FunctionType::Script {
            self.error_previous("Can't return from top-level code.");
        }
        let ghost height = self.height();
        if self.matches(TokenType::Semicolon) {
            self.emit_return();
        } else {
            self.expression();
            self.match_token(TokenType::Semicolon, "Expected ';' after return value.");
            self.emit_away(OpCode::Return, Ghost(height));
        }
    }

    /// Compiles the declaration of a variable: the initializer, or `nil`
    /// without one, and then the definition.
    fn var_declaration(&mut self)
        requires
            old(self).level(),
            old(self).ready(),
        ensures
            final(self)@ == old(self)@.var_declaration(),
            final(self).decl_done(old(self)),
    {
        proof {
            reveal(ParserModel::var_declaration);
            reveal(ParserModel::accept);
        }
        let global: u8 = self.parse_variable("Expected variable name.");
        if self.matches(TokenType::Equal) {
            self.expression();
        } else {
            self.emit_instr(OpCode::Nil);
        }
        self.match_token(TokenType::Semicolon, "Expected semicolon after variable declaration.");
        self.define_variable(global);
        proof {
            if !self.had_error && self.compiler.scope_depth > 0 {
                assert(self.locals().drop_last() =~= old(self).locals());
            }
        }
    }

    /// Compiles a declaration or a statement, and after an error passes
    /// on to where the next statement may start.
    fn declaration(&mut self)
        requires
            old(self).level(),
            old(self).ready(),
        ensures
            final(self)@ == old(self)@.declaration(),
            final(self).decl_done(old(self)),
            old(self).current.token_type != TokenType::Eof ==> final(self).remaining()
                < old(self).remaining(),
        decreases old(self).remaining(), 20int,
    {
        proof {
            reveal(ParserModel::declaration);
            reveal(ParserModel::fun_declaration);
            reveal(ParserModel::statement);
            reveal(ParserModel::accept);
        }
        if self.matches(TokenType::Fun) {
            self.fun_declaration();
        } else if self.matches(TokenType::Var) {
            self.var_declaration();
        } else {
            self.statement();
        }
        if self.panic_mode {
            self.sync();
        }
    }

    /// Compiles the declaration of a function. The name counts as
    /// initialized before the body is compiled, so that the function can
    /// call itself.
    fn fun_declaration(&mut self)
        requires
            old(self).level(),
            old(self).ready(),
        ensures
            final(self)@ == old(self)@.fun_declaration(),
            final(self).decl_done(old(self)),
        decreases old(self).remaining(), 36int,
    {
        proof {
            reveal(ParserModel::fun_declaration);
            reveal(ParserModel::function);
        }
        let global: u8 = self.parse_variable("Expected function name.");
        self.mark_initialized();
        let ghost marked = self.locals();
        self.function(FunctionType::Function);
        self.define_variable(global);
        proof {
            if !self.had_error && self.compiler.scope_depth > 0 {
                assert(self.locals() =~= marked);
                assert(self.locals().drop_last() =~= old(self).locals());
            }
        }
    }

    /// Compiles the parameters and the body of a function into a chunk
    /// of its own, and appends the instruction that loads the function
    /// as a constant. More than 255 parameters are an error.
    #[verifier::rlimit(80)]
    fn function(&mut self, function_type: FunctionType)
        requires
            old(self).had_error || old(self).height() >= 0,
            old(self).ready(),
        ensures
            final(self).raised(old(self), 1),
            final(self)@ == old(self)@.function(function_type),
            final(self).proceeds(old(self)),
            final(self).ready(),
            final(self).compiler.locals == old(self).compiler.locals,
            final(self).compiler.scope_depth == old(self).compiler.scope_depth,
            final(self).compiler.function.arity == old(self).compiler.function.arity,
        decreases old(self).remaining(), 35int,
    {
        proof {
            reveal(all_step);
            reveal(all_level);
            reveal(all_balanced);
            reveal(ParserModel::function);
            reveal(ParserModel::block);
        }
        self.compiler_push(function_type);
        let ghost pushed = *self;
        self.begin_scope();
        self.match_token(TokenType::LeftParen, "Expected '(' after function name.");

        let ghost opened = self@;
        if !self.check(TokenType::RightParen) {
            loop
                invariant_except_break
                    self@.parameters() == opened.parameters(),
                invariant
                    self.proceeds(&pushed),
                    self.ready(),
                    self.compiler.scope_depth == 1,
                    self.code() == pushed.code(),
                    self.heights() == pushed.heights(),
                    !self.had_error ==> self.locals().len() == self.compiler.function.arity + 1,
                ensures
                    self@ == opened.parameters(),
                decreases self.remaining(),
            {
                proof {
                    reveal(ParserModel::parameters);
                    reveal(ParserModel::accept);
                }
                let ghost counted = self@;
                if self.compiler.function.arity == 255 {
                    self.error_previous("Can't have more than 255 parameters.");
                } else {
                    self.compiler.function.arity += 1;
                    proof {
                        assert(self@ =~~= counted.with_function(
                            FunctionModel {
                                arity: (counted.compiler.function.arity + 1) as usize,
                                ..counted.compiler.function
                            },
                        ));
                    }
                }
                let param_constant: u8 = self.parse_variable("Expected parameter name.");
                self.define_variable(param_constant);
                if !self.matches(TokenType::Comma) {
                    break ;
                }
            }
        }
        self.match_token(TokenType::RightParen, "Expected ')' after parameters.");
        self.match_token(TokenType::LeftBrace, "Expected '{' before function body.");
        // A call starts with the function and its arguments on the stack.
        self.compiler.heights = Ghost(
            Seq::<int>::empty().push(self.compiler.locals@.len() as int),
        );
        let ghost entered = *self;
        self.block();

        let ghost body = self.code();
        let ghost body_heights = self.heights();
        let function = self.compiler_pop();
        proof {
            assert(self.enclosing@ =~= old(self).enclosing@);
            if !self.had_error {
                assert(body_heights[0] == entered.heights()[0]);
                assert(function.block.code@.last() == OpCode::Return);
                assert forall|i: int|
                    0 <= i < function.block.code@.len() && (
                    #[trigger] function.block.code@[i]).is_jump() implies 0
                    <= function.block.code@[i].target(i) < function.block.code@.len() by {
                    if i < body.len() {
                        assert(function.block.code@[i] == body[i]);
                        assert(lands(body[i], i, body.len() as int));
                    }
                }
                assert(function.block.sound());
                assert(function_sound(function));
            }
        }
        let index: u8 = self.make_constant(Value::Function(Rc::new(function)));
        self.emit_instr(OpCode::Constant(index));
    }

    /// Compiles the declarations of a block up to its closing brace.
    fn block(&mut self)
        requires
            old(self).level(),
            old(self).ready(),
        ensures
            final(self)@ == old(self)@.block(),
            final(self).decl_done(old(self)),
        decreases old(self).remaining(), 30int,
    {
        proof {
            reveal(ParserModel::block);
            reveal(ParserModel::declarations);
        }
        while !self.check(TokenType::RightBrace) && !self.check(TokenType::Eof)
            invariant
                self.decl_done(old(self)),
                self@.declarations() == old(self)@.declarations(),
            decreases self.remaining(),
        {
            proof {
                reveal(ParserModel::declarations);
                reveal(ParserModel::declaration);
            }
            self.declaration();
        }
        proof {
            reveal(ParserModel::declarations);
        }
        self.match_token(TokenType::RightBrace, "Expected '}' after block.");
    }

    /// Compiles a statement.
    fn statement(&mut self)
        requires
            old(self).level(),
            old(self).ready(),
        ensures
            final(self)@ == old(self)@.statement(),
            final(self).stmt_done(old(self)),
            old(self).current.token_type != TokenType::Eof ==> final(self).remaining()
                < old(self).remaining(),
        decreases old(self).remaining(), 17int,
    {
        proof {
            reveal(ParserModel::statement);
            reveal(ParserModel::for_statement);
            reveal(ParserModel::if_statement);
            reveal(ParserModel::while_statement);
            reveal(ParserModel::block);
            reveal(ParserModel::accept);
            reveal(ParserModel::close_block);
        }
        if self.matches(TokenType::Print) {
            self.print_statement();
        } else if self.matches(TokenType::For) {
            self.for_statement();
        } else if self.matches(TokenType::If) {
            self.if_statement();
        } else if self.matches(TokenType::Return) {
            self.return_statement();
        } else if self.matches(TokenType::While) {
            self.while_statement();
        } else if self.matches(TokenType::LeftBrace) {
            self.scoped_block();
        } else {
            self.expression_statement();
        }
    }

    /// Compiles a block in a scope of its own, after its opening brace.
    /// Behind the block the stack is as high as before it.
    fn scoped_block(&mut self)
        requires
            old(self).ready(),
            old(self).level(),
        ensures
            final(self)@ == ({
                let (inner, opened) = old(self)@.begin_scope();
                let done = inner.block();
                if opened {
                    done.end_scope().close_block(old(self)@.here())
                } else {
                    done
                }
            }),
            final(self).stmt_done(old(self)),
        decreases old(self).remaining(), 31int,
    {
        proof {
            reveal(ParserModel::block);
        }
        let ghost start = self.code().len() as int;
        let ghost before = self.height();
        let opened: bool = self.begin_scope();
        self.block();
        if opened {
            proof {
                if !self.had_error {
                    lemma_kept(
                        local_models(self.locals()),
                        old(self).locals().len() as int,
                        old(self).compiler.scope_depth as int,
                    );
                }
            }
            self.end_scope();
            proof {
                if !self.had_error {
                    assert(self.locals() =~= old(self).locals());
                }
            }
            let ghost end = self.code().len() as int;
            let ghost closed = self@;
            proof {
                if !self.had_error {
                    reveal(all_balanced);
                    assert(self.heights()[start] == before);
                    assert(self.heights()[end] == self.height());
                }
            }
            self.compiler.blocks = Ghost(self.compiler.blocks@.push((start, end)));
            proof {
                assert(self@ =~~= closed.close_block(start));
            }
        }
    }

    /// Compiles `while`: the condition, a jump past the body that is
    /// taken if the condition is falsey, the body, and the jump back to
    /// the condition. The value of the condition is popped on both ways.
    #[verifier::rlimit(80)]
    fn while_statement(&mut self)
        requires
            old(self).level(),
            old(self).ready(),
        ensures
            final(self)@ == old(self)@.while_statement(),
            final(self).stmt_done(old(self)),
        decreases old(self).remaining(), 25int,
    {
        proof {
            reveal(ParserModel::while_statement);
            reveal(ParserModel::statement);
        }
        let loop_start: usize = self.compiler.function.block.code.len();
        self.match_token(TokenType::LeftParen, "Expected '(' after 'while'.");
        self.expression();
        self.match_token(TokenType::RightParen, "Expected ')' after condition.");

        let ghost tested = self.height();
        let ghost conditioned = *self;
        proof {
            if !self.had_error {
                self.lemma_not_pending(self.code().len() as int);
            }
        }
        let exit_jump: usize = self.emit_instr(OpCode::JumpIfFalse(0xFFFF));
        self.emit_instr(OpCode::Pop);

        self.statement();
        self.emit_loop(loop_start, Ghost(tested));

        self.patch_jump(exit_jump);

        self.emit_instr(OpCode::Pop);
        proof {
            if !self.had_error {
                assert(self.pending() =~= conditioned.pending());
            }
        }
    }

    /// Compiles `if` with or without `else`: the condition, a jump to the
    /// `else` part that is taken if the condition is falsey, the `then`
    /// part, and a jump past the `else` part. The value of the condition
    /// is popped on both ways.
    #[verifier::rlimit(80)]
    fn if_statement(&mut self)
        requires
            old(self).level(),
            old(self).ready(),
        ensures
            final(self)@ == old(self)@.if_statement(),
            final(self).stmt_done(old(self)),
        decreases old(self).remaining(), 25int,
    {
        proof {
            reveal(ParserModel::if_statement);
            reveal(ParserModel::statement);
            reveal(ParserModel::accept);
        }
        self.match_token(TokenType::LeftParen, "Expected '(' after 'if'.");
        self.expression();
        self.match_token(TokenType::RightParen, "Expected ')' after condition.");

        let ghost tested = self.height();
        let ghost conditioned = *self;
        proof {
            if !self.had_error {
                self.lemma_not_pending(self.code().len() as int);
            }
        }
        let then_jump: usize = self.emit_instr(OpCode::JumpIfFalse(0xFFFF));
        self.emit_instr(OpCode::Pop);
        self.statement();
        proof {
            if !self.had_error {
                self.lemma_not_pending(self.code().len() as int);
            }
        }

        let else_jump: usize = self.emit_away(OpCode::Jump(0xFFFF), Ghost(tested));

        self.patch_jump(then_jump);
        self.emit_instr(OpCode::Pop);
        proof {
            if !self.had_error {
                assert(self.pending() =~= conditioned.pending().insert(else_jump as int));
            }
        }

        if self.matches(TokenType::Else) {
            self.statement();
        }
        self.patch_jump(else_jump);
        proof {
            if !self.had_error {
                assert(self.pending() =~= conditioned.pending());
            }
        }
    }

    /// The state was reached from state `o` as by [`Self::proceeds`], but
    /// the forward jump at index `pending` still awaits its distance.
    spec fn proceeds_pending(&self, o: &Self, pending: int) -> bool {
        &&& self.wf()
        &&& self.scanner.text() == o.scanner.text()
        &&& self.numbers == o.numbers
        &&& self.remaining() <= o.remaining()
        &&& self.enclosing@ == o.enclosing@
        &&& o.had_error ==> self.had_error
        &&& extends(self.messages(), o.messages())
        &&& self.compiler.function_type == o.compiler.function_type
        &&& self.compiler.function.name == o.compiler.function.name
        &&& extends(self.code(), o.code())
        &&& extends(self.constants(), o.constants())
        &&& extends(self.heights(), o.heights())
        &&& !self.had_error ==> self.pending() == o.pending().insert(pending)
        &&& o.code().len() <= pending < self.code().len()
        &&& self.code()[pending].is_forward_jump()
        &&& !self.had_error ==> jumps_land(self.code(), o.code().len() as int,
            pending,
        ) && jumps_land(self.code(), pending + 1, self.code().len() as int)
    }

    /// Compiles the condition of a `for` loop, if it has one, with the
    /// jump out of the loop, and returns the index of that jump, which
    /// still awaits its distance.
    fn for_condition(&mut self) -> (exit_jump: Option<usize>)
        requires
            old(self).clear(0),
            old(self).wf(),
        ensures
            final(self).raised(old(self), 0),
            !final(self).had_error ==> (exit_jump matches Some(j)
                ==> final(self).heights()[j as int]
                == final(self).height() + 1),
            final(self)@ == old(self)@.for_condition().0,
            match exit_jump {
                Some(j) => old(self)@.for_condition().1 == Some(j as int),
                None => old(self)@.for_condition().1 is None,
            },
            final(self).compiler.locals == old(self).compiler.locals,
            final(self).compiler.scope_depth == old(self).compiler.scope_depth,
            final(self).compiler.function.arity == old(self).compiler.function.arity,
            exit_jump is None ==> final(self).proceeds(old(self)),
            exit_jump matches Some(j) ==> final(self).proceeds_pending(old(self), j as int),
    {
        proof {
            reveal(ParserModel::for_condition);
            reveal(ParserModel::accept);
        }
        if !self.matches(TokenType::Semicolon) {
            self.expression();
            self.match_token(TokenType::Semicolon, "Expected ';' after loop condition.");

            let exit_jump: usize = self.emit_instr(OpCode::JumpIfFalse(0xFFFF));
            self.emit_instr(OpCode::Pop);
            proof {
                if !self.had_error {
                    assert(self.pending() =~= old(self).pending().insert(exit_jump as int));
                }
            }
            Some(exit_jump)
        } else {
            None
        }
    }

    /// Compiles the increment of a `for` loop, if it has one: a jump over
    /// it to the body, the increment, and the jump back to `loop_start`.
    /// Returns the index that the end of the body jumps back to: the
    /// start of the increment, or `loop_start` without one.
    #[verifier::rlimit(80)]
    fn for_increment(&mut self, loop_start: usize) -> (start: usize)
        requires
            old(self).clear(0),
            old(self).had_error || old(self).heights()[loop_start as int] == old(self).height(),
            old(self).wf(),
            loop_start <= old(self).code().len(),
        ensures
            final(self).raised(old(self), 0),
            final(self).had_error || final(self).heights()[start as int] == final(self).height(),
            (final(self)@, start as int) == old(self)@.for_increment(loop_start as int),
            final(self).expr_done(old(self)),
            start <= final(self).code().len(),
            start == if old(self).current.token_type == TokenType::RightParen {
                loop_start as int
            } else {
                (old(self).code().len() + 1) as int
            },
    {
        proof {
            reveal(ParserModel::for_increment);
            reveal(ParserModel::accept);
        }
        if !self.matches(TokenType::RightParen) {
            let ghost height = self.height();
            let ghost begun = *self;
            proof {
                if !self.had_error {
                    self.lemma_not_pending(self.code().len() as int);
                }
            }
            let body_jump: usize = self.emit_away(OpCode::Jump(0xFFFF), Ghost(height));
            let increment_start: usize = self.compiler.function.block.code.len();

            self.expression();

            self.emit_instr(OpCode::Pop);
            self.match_token(TokenType::RightParen, "Expected ')' after for clauses.");

            self.emit_loop(loop_start, Ghost(height));
            self.patch_jump(body_jump);
            proof {
                if !self.had_error {
                    assert(self.pending() =~= begun.pending());
                }
            }
            increment_start
        } else {
            loop_start
        }
    }

    /// Compiles the body of a `for` loop with the jump back, and sets the
    /// distance of the jump out of the loop, if there is one.
    fn for_body(&mut self, loop_start: usize, exit_jump: Option<usize>)
        requires
            old(self).level(),
            old(self).had_error || old(self).heights()[loop_start as int] == old(self).height(),
            old(self).had_error || (exit_jump matches Some(j) ==> old(self).heights()[j as int]
                == old(self).height() + 1),
            old(self).ready(),
            loop_start <= old(self).code().len(),
            exit_jump matches Some(j) ==> j < old(self).code().len(),
        ensures
            final(self).level(),
            extends(final(self).heights(), old(self).heights()),
            !final(self).had_error ==> final(self).pending() == match exit_jump {
                Some(j) => old(self).pending().remove(j as int),
                None => old(self).pending(),
            },
            final(self)@ == old(self)@.for_body(
                loop_start as int,
                match exit_jump {
                    Some(j) => Some(j as int),
                    None => None,
                },
            ),
            final(self).ready(),
            final(self).wf(),
            final(self).scanner.text() == old(self).scanner.text(),
            final(self).numbers == old(self).numbers,
            final(self).remaining() <= old(self).remaining(),
            final(self).enclosing@ == old(self).enclosing@,
            old(self).had_error ==> final(self).had_error,
            extends(final(self).messages(), old(self).messages()),
            final(self).compiler.function_type == old(self).compiler.function_type,
            final(self).compiler.function.name == old(self).compiler.function.name,
            final(self).compiler.function.arity == old(self).compiler.function.arity,
            final(self).compiler.scope_depth == old(self).compiler.scope_depth,
            !final(self).had_error ==> final(self).locals() == old(self).locals(),
            extends(final(self).constants(), old(self).constants()),
            final(self).code().len() >= old(self).code().len(),
            forall|i: int|
                0 <= i < old(self).code().len() && (exit_jump matches Some(j) ==> i != j) ==> (
                #[trigger] final(self).code()[i]) == old(self).code()[i],
            !final(self).had_error ==> jumps_land(final(self).code(), old(self).code().len() as int,
                final(self).code().len() as int,
            ),
            !final(self).had_error ==> (exit_jump matches Some(j)
                ==> old(self).code()[j as int].is_forward_jump()
                ==> lands(final(self).code()[j as int], j as int, final(self).code().len() as int)),
        decreases old(self).remaining(), 24int,
    {
        proof {
            reveal(ParserModel::for_body);
            reveal(ParserModel::statement);
        }
        let ghost height = self.height();
        self.statement();
        self.emit_loop(
            loop_start,
            Ghost(
                if exit_jump.is_some() {
                    height + 1
                } else {
                    height
                },
            ),
        );

        if let Some(exit_jump) = exit_jump {
            self.patch_jump(exit_jump);
            self.emit_instr(OpCode::Pop);
        }
    }

    /// Compiles the clauses of a `for` loop: the initializer, the
    /// condition and the increment. The result holds the index that the
    /// end of the body jumps back to, and the index of the jump out of
    /// the loop, which still awaits its distance.
    fn for_clauses(&mut self) -> (r: (usize, Option<usize>))
        requires
            old(self).level(),
            old(self).ready(),
        ensures
            final(self).level(),
            final(self).had_error || final(self).heights()[r.0 as int] == final(self).height(),
            !final(self).had_error ==> (r.1 matches Some(j) ==> final(self).heights()[j as int]
                == final(self).height() + 1),
            (
                final(self)@,
                r.0 as int,
                match r.1 {
                    Some(j) => Some(j as int),
                    None => None,
                },
            ) == old(self)@.for_clauses(),
            final(self).ready(),
            final(self).compiler.scope_depth == old(self).compiler.scope_depth,
            final(self).compiler.function.arity == old(self).compiler.function.arity,
            !final(self).had_error ==> extends(final(self).locals(), old(self).locals())
                && forall|j: int|
                old(self).locals().len() <= j < final(self).locals().len() ==> (
                #[trigger] final(self).locals()[j]).depth == final(self).compiler.scope_depth,
            r.0 <= final(self).code().len(),
            r.1 is None ==> final(self).proceeds(old(self)),
            r.1 matches Some(j) ==> final(self).proceeds_pending(old(self), j as int),
    {
        proof {
            reveal(ParserModel::for_clauses);
            reveal(ParserModel::accept);
        }
        self.match_token(TokenType::LeftParen, "Expected '(' after 'for'.");

        if self.matches(TokenType::Semicolon) {
            // No initializer.
        } else if self.matches(TokenType::Var) {
            self.var_declaration();
        } else {
            self.expression_statement();
        }
        let ghost declared = *self;

        let loop_start: usize = self.compiler.function.block.code.len();
        let exit_jump: Option<usize> = self.for_condition();
        let ghost conditioned = *self;
        let loop_start: usize = self.for_increment(loop_start);
        proof {
            if !self.had_error {
                match exit_jump {
                    Some(j) => {
                        assert(self.pending() =~= old(self).pending().insert(j as int));
                    },
                    None => {
                        assert(self.pending() =~= old(self).pending());
                    },
                }
                let start = old(self).code().len() as int;
                let c0 = declared.code().len() as int;
                let c1 = conditioned.code().len() as int;
                let end = self.code().len() as int;
                lemma_jumps_stay(declared.code(), self.code(), start, c0);
                match exit_jump {
                    Some(j) => {
                        lemma_jumps_stay(conditioned.code(), self.code(), c0,
                            j as int,
                        );
                        lemma_jumps_stay(conditioned.code(), self.code(), j + 1,
                            c1,
                        );
                        lemma_jumps_join(self.code(), start, c0, j as int);
                        lemma_jumps_join(self.code(), j + 1, c1, end);
                    },
                    None => {
                        lemma_jumps_stay(conditioned.code(), self.code(), c0,
                            c1,
                        );
                        lemma_jumps_join(self.code(), start, c0, c1);
                        lemma_jumps_join(self.code(), start, c1, end);
                    },
                }
            }
        }
        (loop_start, exit_jump)
    }

    /// Compiles `for`, in a scope of its own: the initializer; the
    /// condition with a jump out of the loop; the increment, which is
    /// jumped over on the way in and run after the body; and the body.
    fn for_statement(&mut self)
        requires
            old(self).level(),
            old(self).ready(),
        ensures
            final(self)@ == old(self)@.for_statement(),
            final(self).stmt_done(old(self)),
        decreases old(self).remaining(), 25int,
    {
        proof {
            reveal(ParserModel::for_statement);
            reveal(ParserModel::for_body);
        }
        proof {
            if !self.had_error {
                reveal(all_level);
            }
        }
        let opened: bool = self.begin_scope();
        let (loop_start, exit_jump) = self.for_clauses();
        let ghost incremented = *self;
        self.for_body(loop_start, exit_jump);
        proof {
            if !self.had_error {
                assert(self.pending() =~= old(self).pending());
                let start = old(self).code().len() as int;
                let c2 = incremented.code().len() as int;
                let end = self.code().len() as int;
                match exit_jump {
                    Some(j) => {
                        lemma_jumps_stay(incremented.code(), self.code(), start,
                            j as int,
                        );
                        lemma_jumps_stay(incremented.code(), self.code(), j + 1,
                            c2,
                        );
                        assert(jumps_land(self.code(), j as int, j + 1));
                        lemma_jumps_join(self.code(), start, j as int, j + 1);
                        lemma_jumps_join(self.code(), start, j + 1, c2);
                    },
                    None => {
                        lemma_jumps_stay(incremented.code(), self.code(), start,
                            c2,
                        );
                    },
                }
                lemma_jumps_join(self.code(), start, c2, end);
            }
        }

        if opened {
            proof {
                if !self.had_error {
                    lemma_kept(
                        local_models(self.locals()),
                        old(self).locals().len() as int,
                        old(self).compiler.scope_depth as int,
                    );
                }
            }
            self.end_scope();
            proof {
                if !self.had_error {
                    assert(self.locals() =~= old(self).locals());
                }
            }
        }
    }

    /// Compiles the whole source. The result is the function that holds
    /// the top level of the program, or the diagnostics of every error
    /// that was reported. A function that comes out is complete, and so
    /// is every function declared in it: all jumps land on instructions
    /// of their own chunk, all operands name constants that exist, and
    /// every chunk ends by returning.
    pub fn compile(&mut self) -> (result: Result<Box<Function>, LoxError>)
        requires
            old(self).fresh(),
        ensures
            final(self).strings_kept(),
            result is Ok ==> scopes_level(old(self)@.compile().scopes),
            result is Ok == !old(self)@.compile().had_error,
            result matches Ok(function) ==> function_model(*function)
                == old(self)@.compile().compiler.function,
            result matches Err(error) ==> error matches LoxError::CompileError(diagnostics)
                && diagnostics@.map_values(|d: Vec<u8>| d@) == old(self)@.compile().messages,
            result is Ok == !final(self).failed(),
            result matches Ok(function) ==> {
                &&& function_sound(*function)
                &&& function.arity == 0
                &&& function.name.value@ == "script".spec_bytes()
                &&& function.name.wf()
                &&& function.block.code@.len() >= 2
                &&& function.block.code@[function.block.code@.len() - 2] == OpCode::Nil
            },
            result matches Err(error) ==> error matches LoxError::CompileError(diagnostics)
                && diagnostics@.len() > 0,
    {
        proof {
            reveal(all_step);
            reveal(all_level);
            reveal(all_balanced);
            reveal(ParserModel::compile);
        }
        self.advance();
        let ghost begun = self@;

        loop
            invariant_except_break
                self@.program() == begun.program(),
            invariant
                self.decl_done(old(self)),
                self.compiler.function.name.wf(),
                self.heights()[0] == 1,
            ensures
                self@ == begun.program(),
            decreases self.remaining(),
        {
            proof {
                reveal(ParserModel::program);
                reveal(ParserModel::accept);
            }
            if self.matches(TokenType::Eof) {
                break ;
            }
            self.declaration();
        }
        let ghost body = self.code();
        let ghost body_heights = self.heights();
        self.emit_return();
        let ghost finished = scopes_of(
            function_model(self.compiler.function),
            self.compiler.blocks@,
        );
        let ghost all = self.scopes@ + finished;
        proof {
            if !self.had_error {
                reveal(scopes_level);
                reveal(all_step);
                reveal(all_level);
                reveal(all_balanced);
                let code = self.code();
                let heights = self.heights();
                assert(typing(code, heights, 0));
                assert forall|k: int| 0 <= k < all.len() implies scope_level(#[trigger] all[k]) by {
                    if k >= self.scopes@.len() {
                        let block = self.compiler.blocks@[k - self.scopes@.len()];
                        assert(all[k].code == code);
                        assert(all[k].start == block.0);
                        assert(all[k].end == block.1);
                        assert(typing(all[k].code, heights, all[k].arity as int));
                    } else {
                        assert(all[k] == self.scopes@[k]);
                    }
                }
            }
        }
        self.scopes = Ghost(all);

        if self.had_error {
            let mut diagnostics: Vec<Vec<u8>> = Vec::new();
            core::mem::swap(&mut self.diagnostics, &mut diagnostics);
            Err(LoxError::CompileError(diagnostics))
        } else {
            let mut function = Function {
                name: LoxString::from_bytes(&[]),
                block: Block::new(),
                arity: 0,
            };
            core::mem::swap(&mut self.compiler.function, &mut function);
            proof {
                assert(function.block.code@.last() == OpCode::Return);
                assert forall|i: int|
                    0 <= i < function.block.code@.len() && (
                    #[trigger] function.block.code@[i]).is_jump() implies 0
                    <= function.block.code@[i].target(i) < function.block.code@.len() by {
                    if i < body.len() {
                        assert(function.block.code@[i] == body[i]);
                        assert(lands(body[i], i, body.len() as int));
                    }
                }
                let heights = self.heights();
                assert(typing(function.block.code@, heights, 0));
                assert(function.block.sound());
                assert(function_sound(function));
            }
            Ok(Box::new(function))
        }
    }
}

/// Compiles a program. `numbers` holds the value of each number literal
/// of the source, in the order of the literals, as the bits of an
/// IEEE-754 double; [`number_lexemes`] lists the literals. The result is
/// the function that holds the top level of the program, or the
/// diagnostics of every error that was reported.
pub fn compile(source: &str, numbers: &[u64]) -> (result: Result<Rc<Function>, LoxError>)
    ensures
        result is Ok == !compiled(source.spec_bytes(), numbers@).had_error,
        result matches Ok(function) ==> function_model(*function) == compiled(
            source.spec_bytes(),
            numbers@,
        ).compiler.function,
        result matches Err(error) ==> error matches LoxError::CompileError(diagnostics)
            && diagnostics@.map_values(|d: Vec<u8>| d@) == compiled(
            source.spec_bytes(),
            numbers@,
        ).messages,
        result matches Ok(function) ==> function_sound(*function) && function.arity == 0,
        result is Ok ==> scopes_level(compiled(source.spec_bytes(), numbers@).scopes),
{
    let mut strings = Table::new();
    compile_with(source, numbers, &mut strings)
}

/// Compiles a program as [`compile`] does, and takes its strings from
/// the given pool, to which those that are new are added.
pub fn compile_with(source: &str, numbers: &[u64], strings: &mut Table) -> (result: Result<
    Rc<Function>,
    LoxError,
>)
    requires
        old(strings).wf(),
    ensures
        final(strings).wf(),
        result is Ok == !compiled(source.spec_bytes(), numbers@).had_error,
        result matches Ok(function) ==> function_model(*function) == compiled(
            source.spec_bytes(),
            numbers@,
        ).compiler.function,
        result matches Err(error) ==> error matches LoxError::CompileError(diagnostics)
            && diagnostics@.map_values(|d: Vec<u8>| d@) == compiled(
            source.spec_bytes(),
            numbers@,
        ).messages,
        result matches Ok(function) ==> function_sound(*function) && function.arity == 0,
        result is Ok ==> scopes_level(compiled(source.spec_bytes(), numbers@).scopes),
{
    let mut pool = Table::new();
    core::mem::swap(strings, &mut pool);
    let mut parser = Parser::with_strings(source, numbers, pool);
    let result = parser.compile();
    let mut pool = parser.into_strings();
    core::mem::swap(strings, &mut pool);
    match result {
        Ok(function) => Ok(Rc::new(*function)),
        Err(error) => Err(error),
    }
}

/// The number literals from position `pos` of a source on, in order.
pub open spec fn numbers_from(src: Seq<u8>, pos: int) -> Seq<Seq<u8>>
    decreases src.len() - pos,
{
    let start = crate::scanner::skip(src, pos);
    let (kind, end) = crate::scanner::lex_at(src, start);
    if kind == TokenType::Eof || end <= pos || end > src.len() {
        Seq::empty()
    } else if kind == TokenType::Number {
        seq![src.subrange(start, end)] + numbers_from(src, end)
    } else {
        numbers_from(src, end)
    }
}

/// The lexemes of the number literals of a source, in order. A host
/// turns each into the bits of its value and hands the values to
/// [`compile`].
pub fn number_lexemes<'a>(source: &'a str) -> (lexemes: Vec<&'a [u8]>)
    ensures
        lexemes@.map_values(|l: &[u8]| l@) == numbers_from(source.spec_bytes(), 0),
{
    let mut scanner = Scanner::new(source);
    let mut lexemes: Vec<&'a [u8]> = Vec::new();
    let ghost src = source.spec_bytes();
    proof {
        assert(lexemes@.map_values(|l: &[u8]| l@) =~= Seq::<Seq<u8>>::empty());
    }
    loop
        invariant
            scanner.text() == src,
            0 <= scanner.position() <= src.len(),
            lexemes@.map_values(|l: &[u8]| l@) + numbers_from(src, scanner.position())
                == numbers_from(src, 0),
        ensures
            lexemes@.map_values(|l: &[u8]| l@) == numbers_from(src, 0),
        decreases src.len() - scanner.position(),
    {
        let ghost before = scanner.position();
        let ghost found = lexemes@.map_values(|l: &[u8]| l@);
        let token = scanner.scan_token();
        match token.token_type {
            TokenType::Eof => {
                proof {
                    assert(numbers_from(src, before) =~= Seq::<Seq<u8>>::empty());
                    assert(found + Seq::<Seq<u8>>::empty() =~= found);
                }
                break ;
            },
            TokenType::Number => {
                lexemes.push(token.lexeme);
                proof {
                    let lexeme = token.lexeme@;
                    assert(lexemes@.map_values(|l: &[u8]| l@) =~= found.push(lexeme));
                    assert(found.push(lexeme) + numbers_from(src, scanner.position()) =~= found + (
                    seq![lexeme] + numbers_from(src, scanner.position())));
                }
            },
            _ => {},
        }
    }
    lexemes
}

} // verus!
