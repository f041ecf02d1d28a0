//! Objects and the descriptors that give them their shape.

use vstd::prelude::*;
use std::rc::Rc;
use crate::bincore::data::value::Value;
use crate::names::{texts, NameMap};

verus! {

/// The shape of an object: its name, the index of each member by name, and
/// the member names in index order.
#[derive(Debug, Clone)]
pub struct ObjectDescriptor {
    pub name: String,
    pub members: NameMap<usize>,
    pub members_by_index: Vec<String>,
}

/// What a descriptor says, as plain values.
pub struct DescriptorView {
    pub name: Seq<char>,
    /// The member names in the order in which the index map lists them.
    pub member_names: Seq<Seq<char>>,
    /// The index that the map gives to each of `member_names`.
    pub member_indices: Seq<usize>,
    pub members_by_index: Seq<Seq<char>>,
}

impl DescriptorView {
    /// The number of members, which is the number of values an object of this
    /// shape is created from.
    pub open spec fn arity(self) -> nat {
        self.member_names.len()
    }
}

impl ObjectDescriptor {
    /// The index map is well formed.
    pub open spec fn wf(&self) -> bool {
        self.members.wf()
    }

    /// The descriptor as plain values.
    pub open spec fn view(&self) -> DescriptorView {
        DescriptorView {
            name: self.name@,
            member_names: self.members.names(),
            member_indices: self.members.items(),
            members_by_index: texts(self.members_by_index@),
        }
    }

    /// A copy of the descriptor.
    pub fn duplicate(&self) -> (copy: Self)
        requires
            self.wf(),
        ensures
            copy.wf(),
            copy@ == self@,
    {
        let mut by_index: Vec<String> = Vec::new();
        let mut i: usize = 0;
        while i < self.members_by_index.len()
            invariant
                i <= self.members_by_index.len(),
                by_index.len() == i,
                forall|j: int| 0 <= j < i ==> by_index[j]@ == self.members_by_index[j]@,
            decreases self.members_by_index.len() - i,
        {
            by_index.push(self.members_by_index[i].clone());
            i += 1;
        }
        assert(texts(by_index@) =~= texts(self.members_by_index@));
        ObjectDescriptor {
            name: self.name.clone(),
            members: self.members.duplicate(),
            members_by_index: by_index,
        }
    }
}

/// An object: its shape and the values of its members, in index order.
#[derive(Debug, Clone)]
pub struct Object {
    pub descriptor: Rc<ObjectDescriptor>,
    pub members: Vec<Value>,
}

/// An object as plain values.
pub struct ObjectView {
    pub descriptor: DescriptorView,
    pub members: Seq<Value>,
}

impl Object {
    /// The object as plain values.
    pub open spec fn view(&self) -> ObjectView {
        ObjectView { descriptor: (*self.descriptor)@, members: self.members@ }
    }
}

} // verus!
