//! The program record: what the translator produces and the machine loads.

use vstd::prelude::*;
use std::collections::HashMap;
use crate::bincore::data::object::ObjectDescriptor;
use crate::bincore::data::value::Value;
use crate::bincore::executable::machine::{Machine, STACK_SIZE};
use crate::bincore::executable::runnable::Instruction;
use crate::bincore::executable::runtime::Runtime;
use crate::names::{texts, NameMap};

verus! {

/// A program: its instructions, its constant strings, the number of heap
/// slots it uses, and the shapes of its objects.
#[derive(Debug, Clone)]
pub struct Program {
    /// The instructions. Index 0 holds a `Nop`, so that addresses start at 1.
    pub instructions: Vec<Instruction>,
    /// The constant strings; the index of a string is its id.
    pub strings: Vec<String>,
    pub heap_size: usize,
    pub object_descriptor: Vec<ObjectDescriptor>,
}

/// The string arena that holds exactly `strings`, each under its index.
pub open spec fn seeded(strings: Seq<Seq<char>>) -> Map<usize, Seq<char>> {
    Map::new(|id: usize| id < strings.len(), |id: usize| strings[id as int])
}

impl Program {
    /// The object descriptors are well formed.
    pub open spec fn wf(&self) -> bool {
        forall|i: int|
            0 <= i < self.object_descriptor.len() ==> (#[trigger] self.object_descriptor[i]).wf()
    }

    /// The state in which a machine starts on this program: the instruction
    /// pointer at 1, every heap slot `Int(0)`, the string arena seeded with the
    /// constant strings, and everything else empty.
    pub open spec fn initial(&self) -> Machine {
        Machine {
            instructions: self.instructions@,
            strings: texts(self.strings@),
            functions: Map::empty(),
            descriptors: Seq::new(
                self.object_descriptor.len() as nat,
                |i: int| self.object_descriptor[i]@,
            ),
            ip: 1,
            stack: Seq::empty(),
            capacity: STACK_SIZE as int,
            calls: Seq::empty(),
            heap: Seq::new(self.heap_size as nat, |i: int| Value::Int(0)),
            string_objects: seeded(texts(self.strings@)),
            next_string: self.strings.len() as int,
            lists: Map::empty(),
            next_list: 0,
            objects: Map::empty(),
            next_object: 0,
        }
    }

    /// A machine starts with its counters in range and every id in use
    /// handed out.
    pub proof fn law_initial_ids(&self)
        ensures
            crate::bincore::executable::laws::counters_in_range(self.initial()),
            crate::bincore::executable::laws::ids_handed_out(self.initial()),
    {
    }

    /// Loads the program into a new machine. Every slot of its operand stack
    /// is free and holds `Int(0)`.
    pub fn into_runtime(self) -> (runtime: Runtime)
        requires
            self.wf(),
        ensures
            runtime.wf(),
            runtime@ == self.initial(),
            runtime.stack_pointer == 0,
            runtime.stack.len() == STACK_SIZE,
            forall|i: int| 0 <= i < runtime.stack.len() ==> runtime.stack[i] == Value::Int(0),
    {
        broadcast use vstd::std_specs::hash::group_hash_axioms;

        let mut string_objects: HashMap<usize, String> = HashMap::new();
        let mut index: usize = 0;
        while index < self.strings.len()
            invariant
                index <= self.strings.len(),
                forall|id: usize| string_objects@.contains_key(id) <==> id < index,
                forall|id: usize| id < index ==> string_objects@[id]@ == self.strings[id as int]@,
            decreases self.strings.len() - index,
        {
            string_objects.insert(index, self.strings[index].clone());
            index += 1;
        }
        let ghost initial = self.initial();
        let count = self.strings.len();
        let runtime = Runtime {
            instructions: self.instructions,
            instruction_pointer: 1,
            strings: self.strings,
            stack: vec![Value::Int(0); STACK_SIZE],
            stack_pointer: 0,
            functions: NameMap::new(),
            call_stack: Vec::new(),
            heap: vec![Value::Int(0); self.heap_size],
            object_descriptor: self.object_descriptor,
            object_init_counter: 0,
            objects: HashMap::new(),
            list_init_counter: 0,
            lists: HashMap::new(),
            string_object_init_counter: count,
            string_objects,
        };
        proof {
            assert(runtime@.string_objects =~= initial.string_objects);
            assert(runtime@.stack =~= Seq::empty());
            assert(runtime@.heap =~= initial.heap);
            assert(runtime@.lists =~= Map::empty());
            assert(runtime@.objects =~= Map::empty());
            assert(runtime@.descriptors =~= initial.descriptors);
        }
        runtime
    }
}

} // verus!
