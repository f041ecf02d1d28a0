//! Values that own their contents: strings, lists and objects held in the
//! value itself rather than in an arena.

use vstd::prelude::*;
use std::rc::Rc;
use crate::names::NameMap;

verus! {

/// A value that owns what it holds.
///
/// `Float` holds the IEEE-754 binary32 bit pattern of the number.
#[derive(Debug)]
pub enum Value {
    Int(i32),
    Float(u32),
    Str(String),
    Bool(bool),
    List(Vec<Value>),
    Object(Object),
}

/// The shape of an object: its name and the index of each member by name.
#[derive(Debug)]
pub struct ObjectDescriptor {
    pub name: String,
    pub members: NameMap<usize>,
}

/// An object: the values of its members, in index order, and its shape.
#[derive(Debug)]
pub struct Object {
    pub members: Vec<Value>,
    pub descriptor: Rc<ObjectDescriptor>,
}

/// Makes objects of one shape.
#[derive(Debug)]
pub struct ObjectBuilder {
    pub name: String,
    pub descriptor: Rc<ObjectDescriptor>,
}

/// `Rc::clone`: another handle to the same value.
#[verifier::external_body]
fn share(descriptor: &Rc<ObjectDescriptor>) -> (shared: Rc<ObjectDescriptor>)
    ensures
        shared == *descriptor,
{
    descriptor.clone()
}

impl Value {
    /// Whether the value is an object.
    pub fn is_object(&self) -> (r: bool)
        ensures
            r == (*self is Object),
    {
        match self {
            Value::Object(_) => true,
            _ => false,
        }
    }

    /// The integer, if the value is one.
    pub fn as_int(&self) -> (r: Option<i32>)
        ensures
            r == (match *self {
                Value::Int(value) => Some(value),
                _ => None,
            }),
    {
        match self {
            Value::Int(value) => Some(*value),
            _ => None,
        }
    }

    /// The bit pattern of the float, if the value is one.
    pub fn as_float(&self) -> (r: Option<u32>)
        ensures
            r == (match *self {
                Value::Float(value) => Some(value),
                _ => None,
            }),
    {
        match self {
            Value::Float(value) => Some(*value),
            _ => None,
        }
    }

    /// The string, if the value is one.
    pub fn as_str(&self) -> (r: Option<&String>)
        ensures
            r == (match *self {
                Value::Str(value) => Some(&value),
                _ => None,
            }),
    {
        match self {
            Value::Str(value) => Some(value),
            _ => None,
        }
    }

    /// The boolean, if the value is one.
    pub fn as_bool(&self) -> (r: Option<bool>)
        ensures
            r == (match *self {
                Value::Bool(value) => Some(value),
                _ => None,
            }),
    {
        match self {
            Value::Bool(value) => Some(*value),
            _ => None,
        }
    }

    /// The list, if the value is one.
    pub fn as_list(&self) -> (r: Option<&Vec<Value>>)
        ensures
            r == (match *self {
                Value::List(value) => Some(&value),
                _ => None,
            }),
    {
        match self {
            Value::List(value) => Some(value),
            _ => None,
        }
    }

    /// The object, if the value is one.
    pub fn as_object(&self) -> (r: Option<&Object>)
        ensures
            r == (match *self {
                Value::Object(object) => Some(&object),
                _ => None,
            }),
    {
        match self {
            Value::Object(object) => Some(object),
            _ => None,
        }
    }
}

impl Value {
    /// The object, for changing it, if the value is one.
    pub fn as_object_mut(&mut self) -> (r: Option<&mut Object>)
        ensures
            match r {
                Some(object) => *old(self) == Value::Object(*object) && *final(self)
                    == Value::Object(*final(object)),
                None => !(*old(self) is Object) && *final(self) == *old(self),
            },
    {
        match self {
            Value::Object(object) => Some(object),
            _ => None,
        }
    }
}

impl Object {
    /// The value of the member called `name`, for changing it.
    pub fn get_member_mut(&mut self, name: &str) -> (value: &mut Value)
        requires
            old(self).wf(),
            old(self).descriptor.members@.contains_key(name@),
        ensures
            *value == old(self).members[old(self).descriptor.members@[name@] as int],
            final(self).descriptor == old(self).descriptor,
            final(self).members@ == old(self).members@.update(
                old(self).descriptor.members@[name@] as int,
                *final(value),
            ),
    {
        let index = self.get_member_index(name);
        &mut self.members[index]
    }

    /// The members of the object are those of its shape: every index that the
    /// shape gives to a name is the index of a member.
    pub open spec fn wf(&self) -> bool {
        &&& self.descriptor.members.wf()
        &&& forall|name: Seq<char>|
            self.descriptor.members@.contains_key(name) ==> (
            #[trigger] self.descriptor.members@[name]) < self.members.len()
    }

    /// Whether the object has a member called `name`.
    pub fn has_member(&self, name: &str) -> (r: bool)
        ensures
            r == self.descriptor.members@.contains_key(name@),
    {
        self.descriptor.members.contains_key(name)
    }

    /// The index of the member called `name`.
    pub fn get_member_index(&self, name: &str) -> (index: usize)
        requires
            self.descriptor.members.wf(),
            self.descriptor.members@.contains_key(name@),
        ensures
            index == self.descriptor.members@[name@],
    {
        match self.descriptor.members.get(name) {
            Some(index) => *index,
            None => 0,
        }
    }

    /// The value of the member called `name`.
    pub fn get_member(&self, name: &str) -> (value: &Value)
        requires
            self.wf(),
            self.descriptor.members@.contains_key(name@),
        ensures
            *value == self.members[self.descriptor.members@[name@] as int],
    {
        let index = self.get_member_index(name);
        &self.members[index]
    }

    /// Gives the member called `name` the value `value`.
    pub fn set_member(&mut self, name: &str, value: Value)
        requires
            old(self).wf(),
            old(self).descriptor.members@.contains_key(name@),
        ensures
            final(self).wf(),
            final(self).descriptor == old(self).descriptor,
            final(self).members@ == old(self).members@.update(
                old(self).descriptor.members@[name@] as int,
                value,
            ),
    {
        let index = self.get_member_index(name);
        self.members[index] = value;
    }

    /// The value of the member at `index`.
    pub fn get_member_by_index(&self, index: usize) -> (value: &Value)
        requires
            index < self.members.len(),
        ensures
            *value == self.members[index as int],
    {
        &self.members[index]
    }

    /// Gives the member at `index` the value `value`.
    pub fn set_member_by_index(&mut self, index: usize, value: Value)
        requires
            index < old(self).members.len(),
        ensures
            final(self).descriptor == old(self).descriptor,
            final(self).members@ == old(self).members@.update(index as int, value),
    {
        self.members[index] = value;
    }
}

impl ObjectBuilder {
    /// A builder for objects of the shape `object_descriptor`.
    pub fn new(name: String, object_descriptor: ObjectDescriptor) -> (builder: Self)
        ensures
            builder.name == name,
            *builder.descriptor == object_descriptor,
    {
        ObjectBuilder { name, descriptor: Rc::new(object_descriptor) }
    }

    /// Whether `count` values make an object of this shape.
    pub fn accepts(&self, count: usize) -> (r: bool)
        ensures
            r == (count == self.descriptor.members.names().len()),
    {
        count == self.descriptor.members.len()
    }

    /// The object with the given member values, of which there must be as
    /// many as the shape has members.
    pub fn build(&self, args: Vec<Value>) -> (object: Object)
        requires
            args.len() == self.descriptor.members.names().len(),
        ensures
            object.members == args,
            object.descriptor == self.descriptor,
    {
        Object { members: args, descriptor: share(&self.descriptor) }
    }
}

} // verus!
