//! The arguments that were read, by name.

use vstd::prelude::*;
use crate::arg_reader::arg_value::ArgValue;
use crate::names::NameMap;

verus! {

/// The value of each registered argument. An argument that was registered
/// but not given has no value.
#[derive(Debug, Clone)]
pub struct ArgMap {
    pub values: NameMap<Option<ArgValue>>,
}

impl ArgMap {
    /// The table of values is well formed.
    pub open spec fn wf(&self) -> bool {
        self.values.wf()
    }

    /// The value of each registered argument.
    pub open spec fn view(&self) -> Map<Seq<char>, Option<ArgValue>> {
        self.values@
    }

    /// Whether `key` is a registered argument.
    pub fn is_registered(&self, key: &str) -> (r: bool)
        ensures
            r == self@.contains_key(key@),
    {
        self.values.contains_key(key)
    }

    /// The value of the registered argument `key`, if it was given.
    pub fn get(&self, key: &str) -> (value: Option<ArgValue>)
        requires
            self.wf(),
            self@.contains_key(key@),
        ensures
            value == self@[key@],
    {
        match self.values.get(key) {
            Some(Some(value)) => Some(value.duplicate()),
            _ => None,
        }
    }

    /// The float that was given for `key`, as its bit pattern.
    pub fn get_as_float(&self, key: &str) -> (value: Option<u64>)
        requires
            self.wf(),
            self@.contains_key(key@),
        ensures
            value == (match self@[key@] {
                Some(ArgValue::Float(bits)) => Some(bits),
                _ => None,
            }),
    {
        match self.get(key) {
            None => None,
            Some(value) => value.as_float(),
        }
    }

    /// The integer that was given for `key`.
    pub fn get_as_int(&self, key: &str) -> (value: Option<i64>)
        requires
            self.wf(),
            self@.contains_key(key@),
        ensures
            value == (match self@[key@] {
                Some(ArgValue::Int(number)) => Some(number),
                _ => None,
            }),
    {
        match self.get(key) {
            None => None,
            Some(value) => value.as_int(),
        }
    }

    /// The string that was given for `key`.
    pub fn get_as_string(&self, key: &str) -> (value: Option<String>)
        requires
            self.wf(),
            self@.contains_key(key@),
        ensures
            value == (match self@[key@] {
                Some(ArgValue::String(text)) => Some(text),
                _ => None,
            }),
    {
        match self.get(key) {
            None => None,
            Some(value) => value.as_string(),
        }
    }

    /// The boolean that was given for `key`.
    pub fn get_as_bool(&self, key: &str) -> (value: Option<bool>)
        requires
            self.wf(),
            self@.contains_key(key@),
        ensures
            value == (match self@[key@] {
                Some(ArgValue::Bool(flag)) => Some(flag),
                _ => None,
            }),
    {
        match self.get(key) {
            None => None,
            Some(value) => value.as_bool(),
        }
    }

    /// Whether the flag `key` was given, and given as true.
    pub fn flag_is_set(&self, key: &str) -> (set: bool)
        requires
            self.wf(),
            self@.contains_key(key@),
        ensures
            set == (self@[key@] == Some(ArgValue::Bool(true))),
    {
        match self.get(key) {
            None => false,
            Some(value) => match value.as_bool() {
                Some(flag) => flag,
                None => false,
            },
        }
    }
}

} // verus!
