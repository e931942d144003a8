//! Runtime values: what they are, when two are equal, which count as
//! true, and what printing shows.
use vstd::prelude::*;
use vstd::slice::slice_to_vec;
use vstd::string::StringSliceAdditionalSpecFns;
use std::rc::Rc;
use crate::block::Block;
use crate::bytes::append_bytes;
use crate::number::{number_eq, numbers_equal};
use crate::objects::{Function, LoxString, NativeFunction};

verus! {

broadcast use vstd::std_specs::vec::group_vec_axioms;

/// A runtime value. A number is held as the 64 bits of its IEEE-754
/// representation.
#[derive(Debug)]
pub enum Value {
    Number(u64),
    Bool(bool),
    String(Rc<LoxString>),
    Function(Rc<Function>),
    NativeFunction(NativeFunction),
    Nil,
}

/// Equality of values. Values of different kinds are never equal. Numbers
/// are equal as IEEE-754 numbers, strings when hash and content agree,
/// functions when name, arity, code, lines and constants agree. A native
/// function equals nothing.
pub open spec fn value_eq(a: Value, b: Value) -> bool
    decreases a,
{
    match (a, b) {
        (Value::Number(x), Value::Number(y)) => number_eq(x, y),
        (Value::Bool(x), Value::Bool(y)) => x == y,
        (Value::String(x), Value::String(y)) => x@ == y@,
        (Value::Function(x), Value::Function(y)) => function_eq(*x, *y),
        (Value::Nil, Value::Nil) => true,
        _ => false,
    }
}

/// Equality of functions, field by field; the constants are compared as
/// values.
pub open spec fn function_eq(a: Function, b: Function) -> bool
    decreases a,
{
    &&& a.name@ == b.name@
    &&& a.arity == b.arity
    &&& a.block.code@ == b.block.code@
    &&& a.block.lines@ == b.block.lines@
    &&& a.block.constants@.len() == b.block.constants@.len()
    &&& forall|i: int|
        0 <= i < a.block.constants@.len() ==> value_eq(
            #[trigger] a.block.constants@[i],
            b.block.constants@[i],
        )
}

/// Strings whose hash belongs to their content are equal as values
/// exactly when their contents are equal, whatever handles they are held
/// by.
pub proof fn law_strings_equal_by_content(a: Rc<LoxString>, b: Rc<LoxString>)
    requires
        a.wf(),
        b.wf(),
    ensures
        value_eq(Value::String(a), Value::String(b)) <==> a.value@ == b.value@,
{
}

/// Values of different kinds are never equal, and a number that is not a
/// number is not equal to itself.
pub proof fn law_equality_by_kind(a: Value, b: Value)
    ensures
        value_eq(a, b) ==> (a is Number <==> b is Number) && (a is Bool <==> b is Bool)
            && (a is String
            <==> b is String) && (a is Function <==> b is Function) && (a is Nil <==> b is Nil),
        a is NativeFunction ==> !value_eq(a, b),
        a matches Value::Number(x) && crate::number::is_nan(x) ==> !value_eq(a, a),
{
}

/// Whether a function is complete: it takes at most 255 arguments, its
/// chunk is sound, the depth of the stack at each of its instructions is
/// known before it runs, and every function among its constants is
/// complete.
pub open spec fn function_sound(f: Function) -> bool
    decreases f,
{
    &&& f.arity <= 255
    &&& f.block.sound()
    &&& crate::block::typed(f.block.code@, f.arity as int)
    &&& constants_sound(f.block.constants@)
}

/// Whether every function among the constants is complete.
pub open spec fn constants_sound(constants: Seq<Value>) -> bool
    decreases constants,
{
    forall|k: int|
        0 <= k < constants.len() ==> ((#[trigger] constants[k]) matches Value::Function(g)
            ==> function_sound(*g))
}

/// Whether two functions are equal.
pub fn functions_equal(a: &Function, b: &Function) -> (r: bool)
    ensures
        r == function_eq(*a, *b),
    decreases *a, 0nat,
{
    if !a.name.equals(&b.name) || a.arity != b.arity {
        return false;
    }
    let n: usize = a.block.code.len();
    if n != b.block.code.len() {
        return false;
    }
    let mut i: usize = 0;
    while i < n
        invariant
            n == a.block.code@.len(),
            n == b.block.code@.len(),
            i <= n,
            forall|j: int| 0 <= j < i ==> a.block.code@[j] == b.block.code@[j],
        decreases n - i,
    {
        if a.block.code[i] != b.block.code[i] {
            return false;
        }
        i += 1;
    }
    assert(a.block.code@ =~= b.block.code@);
    let m: usize = a.block.lines.len();
    if m != b.block.lines.len() {
        return false;
    }
    let mut i: usize = 0;
    while i < m
        invariant
            m == a.block.lines@.len(),
            m == b.block.lines@.len(),
            i <= m,
            forall|j: int| 0 <= j < i ==> a.block.lines@[j] == b.block.lines@[j],
        decreases m - i,
    {
        if a.block.lines[i] != b.block.lines[i] {
            return false;
        }
        i += 1;
    }
    assert(a.block.lines@ =~= b.block.lines@);
    let k: usize = a.block.constants.len();
    if k != b.block.constants.len() {
        return false;
    }
    let mut i: usize = 0;
    while i < k
        invariant
            k == a.block.constants@.len(),
            k == b.block.constants@.len(),
            i <= k,
            forall|j: int|
                0 <= j < i ==> value_eq(#[trigger] a.block.constants@[j], b.block.constants@[j]),
        decreases k - i,
    {
        if !a.block.constants[i].equals(&b.block.constants[i]) {
            return false;
        }
        i += 1;
    }
    true
}

impl Value {
    /// `Nil` and `false` count as false; every other value counts as true.
    pub open spec fn truthy(self) -> bool {
        match self {
            Value::Nil => false,
            Value::Bool(b) => b,
            _ => true,
        }
    }

    /// What printing the value shows, as bytes; a number has no text here,
    /// since only the host can render it.
    pub open spec fn text(self) -> Option<Seq<u8>> {
        match self {
            Value::Number(_) => None,
            Value::Bool(b) => Some(
                if b {
                    "true".spec_bytes()
                } else {
                    "false".spec_bytes()
                },
            ),
            Value::String(s) => Some(s.value@),
            Value::Function(f) => Some("<fn ".spec_bytes() + f.name.value@ + ">".spec_bytes()),
            Value::NativeFunction(_) => Some("<native fn>".spec_bytes()),
            Value::Nil => Some("nil".spec_bytes()),
        }
    }

    /// Whether the value counts as true in a condition.
    pub fn is_truthy(&self) -> (r: bool)
        ensures
            r == self.truthy(),
    {
        match self {
            Value::Bool(b) => *b,
            Value::Nil => false,
            _ => true,
        }
    }

    /// Whether the value counts as false in a condition.
    pub fn is_falsey(&self) -> (r: bool)
        ensures
            r == !self.truthy(),
    {
        !self.is_truthy()
    }

    /// The bits of the number, if the value is one.
    pub fn as_number(&self) -> (r: Option<u64>)
        ensures
            r == if self is Number {
                Some(self->Number_0)
            } else {
                None
            },
    {
        if let Value::Number(n) = self {
            Some(*n)
        } else {
            None
        }
    }

    /// Whether two values are equal.
    pub fn equals(&self, other: &Value) -> (r: bool)
        ensures
            r == value_eq(*self, *other),
        decreases *self, 1nat,
    {
        match (self, other) {
            (Value::Number(x), Value::Number(y)) => numbers_equal(*x, *y),
            (Value::Bool(x), Value::Bool(y)) => *x == *y,
            (Value::String(x), Value::String(y)) => x.equals(y),
            (Value::Function(x), Value::Function(y)) => functions_equal(x, y),
            (Value::Nil, Value::Nil) => true,
            _ => false,
        }
    }

    /// Another handle on the same value.
    pub fn duplicate(&self) -> (r: Value)
        ensures
            r == *self,
    {
        match self {
            Value::Number(n) => Value::Number(*n),
            Value::Bool(b) => Value::Bool(*b),
            Value::String(s) => Value::String(s.clone()),
            Value::Function(f) => Value::Function(f.clone()),
            Value::NativeFunction(f) => Value::NativeFunction(*f),
            Value::Nil => Value::Nil,
        }
    }

    /// The text that printing the value shows, or `None` for a number.
    pub fn to_text(&self) -> (r: Option<Vec<u8>>)
        ensures
            r.is_some() == self.text().is_some(),
            r matches Some(t) ==> t@ == self.text().unwrap(),
    {
        match self {
            Value::Number(_) => None,
            Value::Bool(b) => Some(
                if *b {
                    slice_to_vec("true".as_bytes())
                } else {
                    slice_to_vec("false".as_bytes())
                },
            ),
            Value::String(s) => Some(slice_to_vec(s.value.as_slice())),
            Value::Function(f) => {
                let mut t: Vec<u8> = slice_to_vec("<fn ".as_bytes());
                append_bytes(&mut t, f.name.value.as_slice());
                append_bytes(&mut t, ">".as_bytes());
                Some(t)
            },
            Value::NativeFunction(_) => Some(slice_to_vec("<native fn>".as_bytes())),
            Value::Nil => Some(slice_to_vec("nil".as_bytes())),
        }
    }
}

impl Clone for Value {
    fn clone(&self) -> (r: Self)
        ensures
            r == *self,
    {
        self.duplicate()
    }
}

impl PartialEq for Value {
    fn eq(&self, other: &Self) -> (r: bool) {
        self.equals(other)
    }
}

impl vstd::std_specs::cmp::PartialEqSpecImpl for Value {
    open spec fn obeys_eq_spec() -> bool {
        true
    }

    open spec fn eq_spec(&self, other: &Self) -> bool {
        value_eq(*self, *other)
    }
}

} // verus!
