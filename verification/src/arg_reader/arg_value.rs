//! The value of a command-line argument.

use vstd::prelude::*;
use vstd::std_specs::convert::FromSpecImpl;
use crate::names::NameMap;
use crate::text::{int_of, owned, parse_i64, str_eq};

verus! {

/// A value that can be passed to a command-line argument.
///
/// `Float` holds the IEEE-754 binary64 bit pattern of the number.
#[derive(Debug, Clone, PartialEq)]
pub enum ArgValue {
    Bool(bool),
    String(String),
    Int(i64),
    Float(u64),
}

/// An argument value as plain values.
pub enum ArgValueView {
    Bool(bool),
    String(Seq<char>),
    Int(i64),
    Float(u64),
}

/// The value that a text stands for: `true` and `false` are booleans, a
/// decimal numeral that fits is an integer, a text that `floats` lists is the
/// float listed for it, and everything else is a string.
pub open spec fn typed(text: Seq<char>, floats: Map<Seq<char>, u64>) -> ArgValueView {
    if text == "true"@ {
        ArgValueView::Bool(true)
    } else if text == "false"@ {
        ArgValueView::Bool(false)
    } else if int_of(text) is Some {
        ArgValueView::Int(int_of(text)->0)
    } else if floats.contains_key(text) {
        ArgValueView::Float(floats[text])
    } else {
        ArgValueView::String(text)
    }
}

impl ArgValue {
    /// The value as plain values.
    pub open spec fn view(&self) -> ArgValueView {
        match *self {
            ArgValue::Bool(value) => ArgValueView::Bool(value),
            ArgValue::String(value) => ArgValueView::String(value@),
            ArgValue::Int(value) => ArgValueView::Int(value),
            ArgValue::Float(value) => ArgValueView::Float(value),
        }
    }

    /// The boolean, if the value is one.
    pub fn as_bool(&self) -> (r: Option<bool>)
        ensures
            r == (match *self {
                ArgValue::Bool(value) => Some(value),
                _ => None,
            }),
    {
        match self {
            ArgValue::Bool(value) => Some(*value),
            _ => None,
        }
    }

    /// A copy of the string, if the value is one.
    pub fn as_string(&self) -> (r: Option<String>)
        ensures
            r == (match *self {
                ArgValue::String(value) => Some(value),
                _ => None,
            }),
    {
        match self {
            ArgValue::String(value) => Some(value.clone()),
            _ => None,
        }
    }

    /// The integer, if the value is one.
    pub fn as_int(&self) -> (r: Option<i64>)
        ensures
            r == (match *self {
                ArgValue::Int(value) => Some(value),
                _ => None,
            }),
    {
        match self {
            ArgValue::Int(value) => Some(*value),
            _ => None,
        }
    }

    /// The bit pattern of the float, if the value is one.
    pub fn as_float(&self) -> (r: Option<u64>)
        ensures
            r == (match *self {
                ArgValue::Float(value) => Some(value),
                _ => None,
            }),
    {
        match self {
            ArgValue::Float(value) => Some(*value),
            _ => None,
        }
    }

    /// A copy of the value.
    pub fn duplicate(&self) -> (copy: Self)
        ensures
            copy == *self,
    {
        match self {
            ArgValue::Bool(value) => ArgValue::Bool(*value),
            ArgValue::String(value) => ArgValue::String(value.clone()),
            ArgValue::Int(value) => ArgValue::Int(*value),
            ArgValue::Float(value) => ArgValue::Float(*value),
        }
    }

    /// The value that `value` stands for. `floats` lists the texts that are
    /// floats, each with the bit pattern of its number.
    pub fn parse(value: &str, floats: &NameMap<u64>) -> (parsed: Self)
        requires
            floats.wf(),
        ensures
            parsed@ == typed(value@, floats@),
    {
        if str_eq(value, "true") {
            ArgValue::Bool(true)
        } else if str_eq(value, "false") {
            ArgValue::Bool(false)
        } else {
            match parse_i64(value) {
                Some(number) => ArgValue::Int(number),
                None => match floats.get(value) {
                    Some(bits) => ArgValue::Float(*bits),
                    None => ArgValue::String(owned(value)),
                },
            }
        }
    }
}

impl From<String> for ArgValue {
    fn from(value: String) -> (r: Self) {
        ArgValue::String(value)
    }
}

impl FromSpecImpl<String> for ArgValue {
    open spec fn obeys_from_spec() -> bool {
        true
    }

    open spec fn from_spec(value: String) -> Self {
        ArgValue::String(value)
    }
}

impl From<bool> for ArgValue {
    fn from(value: bool) -> (r: Self) {
        ArgValue::Bool(value)
    }
}

impl FromSpecImpl<bool> for ArgValue {
    open spec fn obeys_from_spec() -> bool {
        true
    }

    open spec fn from_spec(value: bool) -> Self {
        ArgValue::Bool(value)
    }
}

impl From<i64> for ArgValue {
    fn from(value: i64) -> (r: Self) {
        ArgValue::Int(value)
    }
}

impl FromSpecImpl<i64> for ArgValue {
    open spec fn obeys_from_spec() -> bool {
        true
    }

    open spec fn from_spec(value: i64) -> Self {
        ArgValue::Int(value)
    }
}

impl From<&i64> for ArgValue {
    fn from(value: &i64) -> (r: Self) {
        ArgValue::Int(*value)
    }
}

impl FromSpecImpl<&i64> for ArgValue {
    open spec fn obeys_from_spec() -> bool {
        true
    }

    open spec fn from_spec(value: &i64) -> Self {
        ArgValue::Int(*value)
    }
}

impl From<&bool> for ArgValue {
    fn from(value: &bool) -> (r: Self) {
        ArgValue::Bool(*value)
    }
}

impl FromSpecImpl<&bool> for ArgValue {
    open spec fn obeys_from_spec() -> bool {
        true
    }

    open spec fn from_spec(value: &bool) -> Self {
        ArgValue::Bool(*value)
    }
}

} // verus!
