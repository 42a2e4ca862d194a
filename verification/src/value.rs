//! Values of the language.
use vstd::prelude::*;

use crate::ast::Type;

verus! {

/// A value. A float is held as the bit pattern of an IEEE-754 double.
#[derive(Debug)]
pub enum Value {
    Int(i32),
    Float(u64),
    Bool(bool),
    String(String),
}

/// The mathematical value of a value.
pub enum ValueV {
    Int(i32),
    Float(u64),
    Bool(bool),
    Str(Seq<char>),
}

impl View for Value {
    type V = ValueV;

    open spec fn view(&self) -> ValueV {
        match self {
            Value::Int(n) => ValueV::Int(*n),
            Value::Float(b) => ValueV::Float(*b),
            Value::Bool(b) => ValueV::Bool(*b),
            Value::String(s) => ValueV::Str(s@),
        }
    }
}

impl View for Type {
    type V = Type;

    open spec fn view(&self) -> Type {
        *self
    }
}

/// The type that a value has.
pub open spec fn type_of(v: ValueV) -> Type {
    match v {
        ValueV::Int(_) => Type::Int,
        ValueV::Float(_) => Type::Float,
        ValueV::Bool(_) => Type::Bool,
        ValueV::Str(_) => Type::String,
    }
}

impl Value {
    /// A copy of this value.
    pub fn duplicate(&self) -> (r: Value)
        ensures
            r@ == self@,
    {
        match self {
            Value::Int(n) => Value::Int(*n),
            Value::Float(b) => Value::Float(*b),
            Value::Bool(b) => Value::Bool(*b),
            Value::String(s) => Value::String(s.clone()),
        }
    }
}

} // verus!
