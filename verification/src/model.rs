//! Values, functions and tokens as mathematical values, free of handles
//! and buffers.
use vstd::prelude::*;
use crate::objects::Function;
use crate::op::OpCode;
use crate::token::{Token, TokenType};
use crate::value::Value;

verus! {

/// A value as mathematics: a string is its content and hash, a function
/// is its name, arity, code, lines and constants.
#[verifier::ext_equal]
pub enum ValueModel {
    Number(u64),
    Bool(bool),
    Text(Seq<u8>, usize),
    Function(Box<FunctionModel>),
    Native(usize),
    Nil,
}

/// A function as mathematics.
#[verifier::ext_equal]
pub struct FunctionModel {
    pub name: (Seq<u8>, usize),
    pub arity: usize,
    pub code: Seq<OpCode>,
    pub lines: Seq<u16>,
    pub constants: Seq<ValueModel>,
}

/// The model of a value.
pub open spec fn value_model(v: Value) -> ValueModel
    decreases v,
{
    match v {
        Value::Number(bits) => ValueModel::Number(bits),
        Value::Bool(b) => ValueModel::Bool(b),
        Value::String(s) => ValueModel::Text(s.value@, s.hash),
        Value::Function(f) => ValueModel::Function(Box::new(function_model(*f))),
        Value::NativeFunction(f) => ValueModel::Native(f.0),
        Value::Nil => ValueModel::Nil,
    }
}

/// The models of constants.
pub open spec fn constant_models(constants: Seq<Value>) -> Seq<ValueModel>
    decreases constants,
{
    Seq::new(
        constants.len(),
        |i: int|
            if 0 <= i < constants.len() {
                value_model(constants[i])
            } else {
                ValueModel::Nil
            },
    )
}

/// The model of a function.
pub open spec fn function_model(f: Function) -> FunctionModel
    decreases f,
{
    FunctionModel {
        name: f.name@,
        arity: f.arity,
        code: f.block.code@,
        lines: f.block.lines@,
        constants: constant_models(f.block.constants@),
    }
}

/// The models of constants with one more constant are the models with
/// the model of that constant.
pub proof fn lemma_constant_models_push(constants: Seq<Value>, value: Value)
    ensures
        constant_models(constants.push(value)) == constant_models(constants).push(
            value_model(value),
        ),
        constant_models(constants).len() == constants.len(),
{
    assert(constant_models(constants.push(value)) =~= constant_models(constants).push(
        value_model(value),
    ));
}

/// A token as mathematics.
pub struct TokenModel {
    pub kind: TokenType,
    pub lexeme: Seq<u8>,
    pub line: usize,
}

impl<'a> View for Token<'a> {
    type V = TokenModel;

    open spec fn view(&self) -> TokenModel {
        TokenModel { kind: self.token_type, lexeme: self.lexeme@, line: self.line }
    }
}

} // verus!
