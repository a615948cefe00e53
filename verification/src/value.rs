//! Run-time values of the machine.
use vstd::prelude::*;

use crate::gc::GcRef;

verus! {

/// A value: a number, a boolean, nil, or a reference to a heap object.
///
/// A number is held as the bit pattern of its IEEE 754 double; the library never computes
/// with numbers, it only carries them.
#[derive(Clone, Copy, Debug)]
pub enum Value {
    Number(u64),
    Bool(bool),
    Nil,
    Object(GcRef),
}


/// The kinds of values.
#[derive(Clone, Copy, Debug, PartialEq, Eq, Structural)]
pub enum ValueTypes {
    Number,
    Bool,
    Nil,
    Object,
}

/// The object a value refers to, if it is a reference.
pub open spec fn spec_object_of(v: Value) -> Option<GcRef> {
    match v {
        Value::Object(r) => Some(r),
        _ => None,
    }
}

impl Value {
    /// A reference to the object `gc_ref`.
    pub fn object(gc_ref: GcRef) -> (r: Value)
        ensures
            r == Value::Object(gc_ref),
    {
        Value::Object(gc_ref)
    }

    /// Whether the value is a reference to an object.
    pub fn is_object(&self) -> (r: bool)
        ensures
            r == self is Object,
    {
        match self {
            Value::Object(_) => true,
            _ => false,
        }
    }

    /// The object referred to, if the value is a reference.
    pub fn as_object(&self) -> (r: Option<GcRef>)
        ensures
            r == spec_object_of(*self),
    {
        match self {
            Value::Object(r) => Some(*r),
            _ => None,
        }
    }

    /// The object referred to, if the value is a reference; a string is such an object.
    pub fn as_string_ref(&self) -> (r: Option<GcRef>)
        ensures
            r == spec_object_of(*self),
    {
        match self {
            Value::Object(r) => Some(*r),
            _ => None,
        }
    }

    /// The kind of the value.
    pub fn value_type(&self) -> (r: ValueTypes)
        ensures
            r == (match *self {
                Value::Number(_) => ValueTypes::Number,
                Value::Bool(_) => ValueTypes::Bool,
                Value::Nil => ValueTypes::Nil,
                Value::Object(_) => ValueTypes::Object,
            }),
    {
        match self {
            Value::Number(_) => ValueTypes::Number,
            Value::Bool(_) => ValueTypes::Bool,
            Value::Nil => ValueTypes::Nil,
            Value::Object(_) => ValueTypes::Object,
        }
    }

    /// The boolean, if the value is one.
    pub fn try_as_bool(&self) -> (r: Option<bool>)
        ensures
            r == (match *self {
                Value::Bool(b) => Some(b),
                _ => None,
            }),
    {
        match self {
            Value::Bool(b) => Some(*b),
            _ => None,
        }
    }

    /// The bit pattern of the number, if the value is one.
    pub fn try_as_number_bits(&self) -> (r: Option<u64>)
        ensures
            r == (match *self {
                Value::Number(n) => Some(n),
                _ => None,
            }),
    {
        match self {
            Value::Number(n) => Some(*n),
            _ => None,
        }
    }
}

impl From<bool> for Value {
    fn from(value: bool) -> (r: Value) {
        Value::Bool(value)
    }
}

impl vstd::std_specs::convert::FromSpecImpl<bool> for Value {
    open spec fn obeys_from_spec() -> bool {
        true
    }

    open spec fn from_spec(v: bool) -> Value {
        Value::Bool(v)
    }
}

} // verus!
