//! The values that fill the argument slots of a program.

use crate::types::TypeId;
use vstd::prelude::*;

verus! {

/// A slot of a call: one of its arguments, or what it returns.
#[derive(Debug, Clone, Copy, PartialEq, Eq, Structural)]
pub enum ArgPos {
    Arg(usize),
    Ret,
}

/// A slot of a program: the index of a call and a slot of that call.
#[derive(Debug, Clone, Copy, PartialEq, Eq, Structural)]
pub struct ArgIndex {
    pub call: usize,
    pub pos: ArgPos,
}

#[derive(Debug, Clone, Copy, PartialEq, Eq, Structural)]
pub enum NumValue {
    Signed(i64),
    Unsigned(u64),
}

impl NumValue {
    pub open spec fn as_int(self) -> int {
        match self {
            NumValue::Signed(n) => n as int,
            NumValue::Unsigned(n) => n as int,
        }
    }
}

#[derive(Debug, PartialEq, Eq)]
pub enum Value {
    Num(NumValue),
    Str(String),
    /// The fields of a struct or the items of a slice, in order.
    Group(Vec<Value>),
    /// The chosen field of a union and its value.
    Opt { choice: usize, val: Box<Value> },
    /// What an earlier slot produced.
    Ref(ArgIndex),
    /// A null pointer.
    Null,
    /// Stands in an output pointer for a value of the type named.
    Default(TypeId),
}

impl Value {
    /// The placeholder for an output of type `tid`.
    pub fn default_val(tid: TypeId) -> (v: Value)
        ensures
            v == Value::Default(tid),
    {
        Value::Default(tid)
    }
}

} // verus!
