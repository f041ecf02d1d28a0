//! The tagged values that the machine computes with.

use vstd::prelude::*;

verus! {

/// A machine value: an inline scalar or a handle into one of the arenas.
///
/// `Float` holds the IEEE-754 binary64 bit pattern of the number. `==` on
/// values compares tags and payloads as they are stored.
#[derive(Clone, Copy, Debug, PartialEq, Eq, Structural)]
pub enum Value {
    Int(i64),
    Float(u64),
    Char(char),
    Bool(bool),
    ListRef(usize),
    StrRef(usize),
    ObjectRef(usize),
}

impl Value {
    /// Whether the value is a handle to an object.
    pub fn is_object_ref(&self) -> (r: bool)
        ensures
            r == (*self is ObjectRef),
    {
        match self {
            Value::ObjectRef(_) => true,
            _ => false,
        }
    }

    /// The integer, if the value is one.
    pub fn as_int(&self) -> (r: Option<i64>)
        ensures
            r == (match *self {
                Value::Int(value) => Some(value),
                _ => None,
            }),
    {
        match self {
            Value::Int(value) => Some(*value),
            _ => None,
        }
    }

    /// The bit pattern of the float, if the value is one.
    pub fn as_float(&self) -> (r: Option<u64>)
        ensures
            r == (match *self {
                Value::Float(value) => Some(value),
                _ => None,
            }),
    {
        match self {
            Value::Float(value) => Some(*value),
            _ => None,
        }
    }

    /// The string id, if the value is a handle to a string.
    pub fn as_str(&self) -> (r: Option<&usize>)
        ensures
            r == (match *self {
                Value::StrRef(value) => Some(&value),
                _ => None,
            }),
    {
        match self {
            Value::StrRef(value) => Some(value),
            _ => None,
        }
    }

    /// The boolean, if the value is one.
    pub fn as_bool(&self) -> (r: Option<bool>)
        ensures
            r == (match *self {
                Value::Bool(value) => Some(value),
                _ => None,
            }),
    {
        match self {
            Value::Bool(value) => Some(*value),
            _ => None,
        }
    }

    /// The list id, if the value is a handle to a list.
    pub fn as_list_ref(&self) -> (r: Option<usize>)
        ensures
            r == (match *self {
                Value::ListRef(list) => Some(list),
                _ => None,
            }),
    {
        match self {
            Value::ListRef(list) => Some(*list),
            _ => None,
        }
    }

    /// The object id, if the value is a handle to an object.
    pub fn as_object_ref(&self) -> (r: Option<&usize>)
        ensures
            r == (match *self {
                Value::ObjectRef(object) => Some(&object),
                _ => None,
            }),
    {
        match self {
            Value::ObjectRef(object) => Some(object),
            _ => None,
        }
    }

    /// The character, if the value is one.
    pub fn as_char(&self) -> (r: Option<char>)
        ensures
            r == (match *self {
                Value::Char(c) => Some(c),
                _ => None,
            }),
    {
        match self {
            Value::Char(c) => Some(*c),
            _ => None,
        }
    }
}

} // verus!
