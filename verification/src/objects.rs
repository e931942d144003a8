//! The objects that live on the heap: strings with their hash, functions
//! and native functions.
use vstd::prelude::*;
use vstd::slice::slice_to_vec;
use vstd::string::StringSliceAdditionalSpecFns;
use std::rc::Rc;
use crate::block::Block;

verus! {

/// The kinds of object that live on the heap.
pub enum ObjectType {
    LoxString,
    Function,
    Native,
}

/// The FNV-1a hash of a byte string, in machine words: start from the
/// offset basis, and for every byte xor it in and multiply by the prime.
pub open spec fn fnv1a(bytes: Seq<u8>) -> usize
    decreases bytes.len(),
{
    if bytes.len() == 0 {
        2166136261usize
    } else {
        (fnv1a(bytes.drop_last()) ^ (bytes.last() as usize)).wrapping_mul(16777619usize)
    }
}

/// An immutable string together with the hash of its bytes.
#[derive(Debug)]
pub struct LoxString {
    pub value: Vec<u8>,
    pub hash: usize,
}

impl View for LoxString {
    type V = (Seq<u8>, usize);

    /// A string is known by its content and its hash.
    open spec fn view(&self) -> (Seq<u8>, usize) {
        (self.value@, self.hash)
    }
}

impl LoxString {
    /// The hash is the one that belongs to the content.
    pub open spec fn wf(&self) -> bool {
        self.hash == fnv1a(self.value@)
    }

    /// A new string with the bytes of `value` and their hash.
    pub fn new(value: &str) -> (s: Rc<LoxString>)
        ensures
            s.value@ == value.spec_bytes(),
            s.wf(),
    {
        LoxString::from_bytes(value.as_bytes())
    }

    /// The same as [`LoxString::new`].
    pub fn from_string(s: &str) -> (r: Rc<LoxString>)
        ensures
            r.value@ == s.spec_bytes(),
            r.wf(),
    {
        LoxString::new(s)
    }

    /// A new string with a copy of `bytes` and their hash.
    pub fn from_bytes(bytes: &[u8]) -> (s: Rc<LoxString>)
        ensures
            s.value@ == bytes@,
            s.wf(),
    {
        let hash = LoxString::hash(bytes);
        Rc::new(LoxString { value: slice_to_vec(bytes), hash })
    }

    /// The FNV-1a hash of `bytes`.
    pub fn hash(bytes: &[u8]) -> (h: usize)
        ensures
            h == fnv1a(bytes@),
    {
        let mut h: usize = 2166136261usize;
        let mut i: usize = 0;
        while i < bytes.len()
            invariant
                i <= bytes@.len(),
                h == fnv1a(bytes@.take(i as int)),
            decreases bytes@.len() - i,
        {
            proof {
                assert(bytes@.take(i + 1).drop_last() == bytes@.take(i as int));
            }
            h = (h ^ (bytes[i] as usize)).wrapping_mul(16777619usize);
            i += 1;
        }
        proof {
            assert(bytes@.take(i as int) == bytes@);
        }
        h
    }

    /// Whether two strings are the same: same hash and same content.
    pub fn equals(&self, other: &LoxString) -> (r: bool)
        ensures
            r == (self@ == other@),
    {
        self.hash == other.hash && crate::bytes::bytes_equal(
            self.value.as_slice(),
            other.value.as_slice(),
        )
    }
}

/// A compiled function: its name, its code and the number of parameters.
#[derive(Debug)]
pub struct Function {
    pub name: Rc<LoxString>,
    pub block: Block,
    pub arity: usize,
}

impl Function {
    /// A function of that name with no code and no parameters.
    pub fn new(function_name: Rc<LoxString>) -> (f: Box<Function>)
        ensures
            f.name == function_name,
            f.arity == 0,
            f.block.code@ == Seq::<crate::op::OpCode>::empty(),
            f.block.constants@ == Seq::<crate::value::Value>::empty(),
            f.block.lines@ == Seq::<u16>::empty(),
    {
        Box::new(Function { name: function_name, block: Block::new(), arity: 0 })
    }
}

/// A function that the host of the virtual machine provides. The machine
/// knows it only by this number and hands every call of it to the host.
#[derive(Debug, Clone, Copy)]
pub struct NativeFunction(pub usize);

} // verus!
