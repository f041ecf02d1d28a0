//! The machine itself: the state that runs, and the code that runs it.

use vstd::prelude::*;
use std::collections::HashMap;
use std::rc::Rc;
use crate::bincore::data::function::FunctionSignature;
use crate::bincore::data::object::{Object, ObjectDescriptor, ObjectView};
use crate::bincore::data::value::Value;
use crate::bincore::executable::alu::{eval_int, lists_equal, order_float, order_int};
use crate::bincore::executable::machine::{
    is_binary, Computed, Fault, FloatOperation, Machine, Outcome, Request, STACK_SIZE,
    STACK_THRESHOLD,
};
use crate::bincore::executable::runnable::Instruction;
use crate::bincore::data::ieee;
use crate::names::{texts, NameMap};
use crate::text::char_to_string;

verus! {

/// A running machine.
pub struct Runtime {
    pub instructions: Vec<Instruction>,
    pub instruction_pointer: usize,
    pub strings: Vec<String>,
    /// The operand stack. The slots below `stack_pointer` are in use.
    pub stack: Vec<Value>,
    pub stack_pointer: usize,
    /// The handles of the host functions, by the name they are registered under.
    pub functions: NameMap<FunctionSignature>,
    pub call_stack: Vec<usize>,
    pub heap: Vec<Value>,
    pub object_descriptor: Vec<ObjectDescriptor>,
    pub object_init_counter: usize,
    pub objects: HashMap<usize, Object>,
    pub list_init_counter: usize,
    pub lists: HashMap<usize, Vec<Value>>,
    pub string_object_init_counter: usize,
    pub string_objects: HashMap<usize, String>,
}

/// What is said of an instruction that cannot be executed: why, where it
/// stands, what it is, and what it found on the stack.
#[derive(Debug, Clone)]
pub struct Diagnostic {
    pub fault: Fault,
    /// The index of the instruction.
    pub index: usize,
    pub instruction: Instruction,
    /// The operands that the instruction found, the top of the stack first:
    /// as many as it pops, or as many as there are.
    pub operands: Vec<Value>,
}

/// What a binary opcode has computed, before it is put on the stack.
enum Produced {
    Plain(Value),
    Text(String),
    List(Vec<Value>),
    Float(FloatOperation, u64, u64),
}

impl Produced {
    spec fn view(&self) -> Computed {
        match *self {
            Produced::Plain(value) => Computed::Plain(value),
            Produced::Text(text) => Computed::Text(text@),
            Produced::List(list) => Computed::List(list@),
            Produced::Float(operation, left, right) => Computed::Float(operation, left, right),
        }
    }
}

spec fn computed(r: Result<Produced, Fault>) -> Computed {
    match r {
        Ok(produced) => produced@,
        Err(fault) => Computed::Fails(fault),
    }
}

/// The string arena as plain values.
pub open spec fn arena_texts(arena: Map<usize, String>) -> Map<usize, Seq<char>> {
    arena.map_values(|s: String| s@)
}

/// The list arena as plain values.
pub open spec fn arena_lists(arena: Map<usize, Vec<Value>>) -> Map<usize, Seq<Value>> {
    arena.map_values(|l: Vec<Value>| l@)
}

/// The object arena as plain values.
pub open spec fn arena_objects(arena: Map<usize, Object>) -> Map<usize, ObjectView> {
    arena.map_values(|o: Object| o@)
}

impl Runtime {
    /// The stack pointer is within the stack, and the tables are well formed.
    pub open spec fn wf(&self) -> bool {
        &&& self.stack_pointer <= self.stack.len()
        &&& self.functions.wf()
        &&& forall|i: int|
            0 <= i < self.object_descriptor.len() ==> (#[trigger] self.object_descriptor[i]).wf()
    }

    /// The state of the machine as plain values.
    pub open spec fn view(&self) -> Machine {
        Machine {
            instructions: self.instructions@,
            strings: texts(self.strings@),
            functions: self.functions@,
            descriptors: Seq::new(
                self.object_descriptor.len() as nat,
                |i: int| self.object_descriptor[i]@,
            ),
            ip: self.instruction_pointer as int,
            stack: self.stack@.take(self.stack_pointer as int),
            capacity: self.stack.len() as int,
            calls: self.call_stack@,
            heap: self.heap@,
            string_objects: arena_texts(self.string_objects@),
            next_string: self.string_object_init_counter as int,
            lists: arena_lists(self.lists@),
            next_list: self.list_init_counter as int,
            objects: arena_objects(self.objects@),
            next_object: self.object_init_counter as int,
        }
    }

    /// A machine without a program: an empty heap, empty arenas, a stack of
    /// `STACK_SIZE` free slots that hold `Int(0)`, and the instruction pointer
    /// at 1.
    pub fn new() -> (runtime: Runtime)
        ensures
            runtime.wf(),
            runtime.stack_pointer == 0,
            runtime.stack.len() == STACK_SIZE,
            forall|i: int| 0 <= i < runtime.stack.len() ==> runtime.stack[i] == Value::Int(0),
            runtime@ == (Machine {
                instructions: Seq::empty(),
                strings: Seq::empty(),
                functions: Map::empty(),
                descriptors: Seq::empty(),
                ip: 1,
                stack: Seq::empty(),
                capacity: STACK_SIZE as int,
                calls: Seq::empty(),
                heap: Seq::empty(),
                string_objects: Map::empty(),
                next_string: 0,
                lists: Map::empty(),
                next_list: 0,
                objects: Map::empty(),
                next_object: 0,
            }),
    {
        let runtime = Runtime {
            instructions: Vec::new(),
            instruction_pointer: 1,
            strings: Vec::new(),
            stack: vec![Value::Int(0); STACK_SIZE],
            stack_pointer: 0,
            functions: NameMap::new(),
            call_stack: Vec::new(),
            heap: Vec::new(),
            object_descriptor: Vec::new(),
            object_init_counter: 0,
            objects: HashMap::new(),
            list_init_counter: 0,
            lists: HashMap::new(),
            string_object_init_counter: 0,
            string_objects: HashMap::new(),
        };
        proof {
            assert(runtime@.strings =~= Seq::empty());
            assert(runtime@.descriptors =~= Seq::empty());
            assert(runtime@.stack =~= Seq::empty());
            assert(runtime@.string_objects =~= Map::empty());
            assert(runtime@.lists =~= Map::empty());
            assert(runtime@.objects =~= Map::empty());
        }
        runtime
    }

    /// Registers a host function: `ExternCall` on `name` then asks the host
    /// for `function`. A name that is registered again gets the new handle.
    pub fn register_function(&mut self, name: String, function: FunctionSignature)
        requires
            old(self).wf(),
        ensures
            final(self).wf(),
            final(self)@ == (Machine {
                functions: old(self)@.functions.insert(name@, function),
                ..old(self)@
            }),
    {
        self.functions.insert(name, function);
    }

    /// The value in the heap slot `address`.
    pub fn load_from_heap(&mut self, address: usize) -> (value: Value)
        requires
            address < old(self).heap.len(),
        ensures
            value == old(self).heap[address as int],
            *final(self) == *old(self),
    {
        self.heap[address]
    }

    /// Puts `string` into the string arena and returns its handle. The id is
    /// the next unused one.
    pub fn new_string(&mut self, string: String) -> (handle: Value)
        requires
            old(self).string_object_init_counter < usize::MAX,
        ensures
            handle == Value::StrRef(old(self).string_object_init_counter),
            final(self)@ == old(self)@.with_string(string@),
            final(self).wf() == old(self).wf(),
            final(self).stack == old(self).stack,
            final(self).stack_pointer == old(self).stack_pointer,
    {
        broadcast use vstd::std_specs::hash::group_hash_axioms;

        let string_id = self.string_object_init_counter;
        self.string_object_init_counter += 1;
        self.string_objects.insert(string_id, string);
        proof {
            assert(final(self)@.string_objects =~= old(self)@.with_string(string@).string_objects);
        }
        Value::StrRef(string_id)
    }

    /// Pops the top of the operand stack. The slot keeps the value.
    pub fn stack_pop(&mut self) -> (value: Value)
        requires
            old(self).wf(),
            old(self).stack_pointer > 0,
        ensures
            final(self).wf(),
            value == old(self)@.peek(0),
            final(self)@ == old(self)@.popped(1),
            final(self).stack_pointer == old(self).stack_pointer - 1,
            final(self).stack == old(self).stack,
    {
        self.stack_pointer -= 1;
        let value = self.stack[self.stack_pointer];
        proof {
            assert(final(self)@.stack =~= old(self)@.popped(1).stack);
        }
        value
    }

    /// Pushes `value` onto the operand stack, which must have a free slot.
    pub fn stack_push(&mut self, value: Value)
        requires
            old(self).wf(),
            old(self).stack_pointer < old(self).stack.len(),
        ensures
            final(self).wf(),
            final(self)@ == old(self)@.pushed(value),
            final(self).stack_pointer == old(self).stack_pointer + 1,
            final(self).stack@ == old(self).stack@.update(old(self).stack_pointer as int, value),
    {
        self.stack[self.stack_pointer] = value;
        self.stack_pointer += 1;
        proof {
            assert(final(self)@.stack =~= old(self)@.pushed(value).stack);
        }
    }

    /// The text of the string with the given id, if the arena holds it.
    pub fn string_object(&self, id: usize) -> (text: Option<&String>)
        ensures
            match text {
                Some(s) => self@.text(id) == Some(s@),
                None => self@.text(id) is None,
            },
    {
        broadcast use vstd::std_specs::hash::group_hash_axioms;

        self.string_objects.get(&id)
    }

    /// The list with the given id, if the arena holds it.
    pub fn list(&self, id: usize) -> (list: Option<&Vec<Value>>)
        ensures
            match list {
                Some(l) => self@.lists.contains_key(id) && self@.lists[id] == l@,
                None => !self@.lists.contains_key(id),
            },
    {
        broadcast use vstd::std_specs::hash::group_hash_axioms;

        self.lists.get(&id)
    }

    /// The object with the given id, if the arena holds it.
    pub fn object(&self, id: usize) -> (object: Option<&Object>)
        ensures
            match object {
                Some(o) => self@.objects.contains_key(id) && self@.objects[id] == o@,
                None => !self@.objects.contains_key(id),
            },
    {
        broadcast use vstd::std_specs::hash::group_hash_axioms;

        self.objects.get(&id)
    }

    /// The value `depth` places below the top of the operand stack.
    pub fn stack_peek(&self, depth: usize) -> (value: Value)
        requires
            self.wf(),
            depth < self.stack_pointer,
        ensures
            value == self@.peek(depth as int),
    {
        self.stack[self.stack_pointer - 1 - depth]
    }

    fn joined(&self, left: Value, right: Value) -> (r: Result<Produced, Fault>)
        ensures
            computed(r) == self@.joined(left, right),
    {
        match (left, right) {
            (Value::Char(l), Value::Char(r)) => {
                let text = char_to_string(l).concat(char_to_string(r).as_str());
                assert(text@ =~= seq![l, r]);
                Ok(Produced::Text(text))
            },
            (Value::StrRef(l), Value::StrRef(r)) => {
                match (self.string_object(l), self.string_object(r)) {
                    (Some(a), Some(b)) => Ok(Produced::Text(a.clone().concat(b.as_str()))),
                    _ => Err(Fault::ArenaMiss),
                }
            },
            (Value::StrRef(l), Value::Char(r)) => {
                match self.string_object(l) {
                    Some(a) => {
                        let text = a.clone().concat(char_to_string(r).as_str());
                        assert(text@ =~= a@.push(r));
                        Ok(Produced::Text(text))
                    },
                    None => Err(Fault::ArenaMiss),
                }
            },
            (Value::Char(l), Value::StrRef(r)) => {
                match self.string_object(r) {
                    Some(b) => Ok(Produced::Text(char_to_string(l).concat(b.as_str()))),
                    None => Err(Fault::ArenaMiss),
                }
            },
            (Value::ListRef(l), Value::ListRef(r)) => {
                match (self.list(l), self.list(r)) {
                    (Some(a), Some(b)) => {
                        let mut list: Vec<Value> = Vec::new();
                        let mut i: usize = 0;
                        while i < a.len()
                            invariant
                                i <= a.len(),
                                list@ == a@.take(i as int),
                            decreases a.len() - i,
                        {
                            list.push(a[i]);
                            i += 1;
                        }
                        let mut j: usize = 0;
                        while j < b.len()
                            invariant
                                j <= b.len(),
                                list@ == a@ + b@.take(j as int),
                            decreases b.len() - j,
                        {
                            list.push(b[j]);
                            j += 1;
                        }
                        assert(b@.take(b.len() as int) =~= b@);
                        Ok(Produced::List(list))
                    },
                    _ => Err(Fault::ArenaMiss),
                }
            },
            _ => Err(Fault::TypeMismatch),
        }
    }

    fn equal(&self, left: Value, right: Value) -> (r: Result<bool, Fault>)
        ensures
            r == self@.equal(left, right),
    {
        match (left, right) {
            (Value::Char(l), Value::Char(r)) => Ok(l == r),
            (Value::Int(l), Value::Int(r)) => Ok(l == r),
            (Value::Float(l), Value::Float(r)) => Ok(ieee::eq(l, r)),
            (Value::Bool(l), Value::Bool(r)) => Ok(l == r),
            (Value::StrRef(l), Value::StrRef(r)) => {
                match (self.string_object(l), self.string_object(r)) {
                    (Some(a), Some(b)) => Ok(*a == *b),
                    _ => Err(Fault::ArenaMiss),
                }
            },
            (Value::StrRef(l), Value::Char(r)) => {
                match self.string_object(l) {
                    Some(a) => {
                        let same = a.as_str().unicode_len() == 1 && a.as_str().get_char(0) == r;
                        assert(same == (a@ =~= seq![r]));
                        Ok(same)
                    },
                    None => Err(Fault::ArenaMiss),
                }
            },
            (Value::Char(l), Value::StrRef(r)) => {
                match self.string_object(r) {
                    Some(b) => {
                        let same = b.as_str().unicode_len() == 1 && b.as_str().get_char(0) == l;
                        assert(same == (seq![l] =~= b@));
                        Ok(same)
                    },
                    None => Err(Fault::ArenaMiss),
                }
            },
            (Value::ListRef(l), Value::ListRef(r)) => {
                match (self.list(l), self.list(r)) {
                    (Some(a), Some(b)) => Ok(lists_equal(a, b)),
                    _ => Err(Fault::ArenaMiss),
                }
            },
            _ => Err(Fault::TypeMismatch),
        }
    }

    /// What a binary opcode comes to on two operands.
    fn binary(&self, op: Instruction, left: Value, right: Value) -> (r: Result<Produced, Fault>)
        requires
            is_binary(op),
        ensures
            computed(r) == self@.binary(op, left, right),
    {
        match op {
            Instruction::Add | Instruction::Sub | Instruction::Mul | Instruction::Div
            | Instruction::Mod | Instruction::Pow => {
                match (left, right) {
                    (Value::Int(l), Value::Int(r)) => {
                        match eval_int(op, l, r) {
                            Ok(value) => Ok(Produced::Plain(value)),
                            Err(fault) => Err(fault),
                        }
                    },
                    (Value::Float(l), Value::Float(r)) => {
                        let operation = match op {
                            Instruction::Add => FloatOperation::Add,
                            Instruction::Sub => FloatOperation::Sub,
                            Instruction::Mul => FloatOperation::Mul,
                            Instruction::Div => FloatOperation::Div,
                            Instruction::Mod => FloatOperation::Mod,
                            _ => FloatOperation::Pow,
                        };
                        Ok(Produced::Float(operation, l, r))
                    },
                    _ => {
                        match op {
                            Instruction::Add => self.joined(left, right),
                            _ => Err(Fault::TypeMismatch),
                        }
                    },
                }
            },
            Instruction::Gt | Instruction::Lt | Instruction::Gte | Instruction::Lte => {
                match (left, right) {
                    (Value::Int(l), Value::Int(r)) => Ok(
                        Produced::Plain(Value::Bool(order_int(op, l, r))),
                    ),
                    (Value::Float(l), Value::Float(r)) => Ok(
                        Produced::Plain(Value::Bool(order_float(op, l, r))),
                    ),
                    _ => Err(Fault::TypeMismatch),
                }
            },
            Instruction::Eq | Instruction::Neq => {
                match self.equal(left, right) {
                    Ok(same) => {
                        let is_eq = match op {
                            Instruction::Eq => true,
                            _ => false,
                        };
                        Ok(Produced::Plain(Value::Bool(same == is_eq)))
                    },
                    Err(fault) => Err(fault),
                }
            },
            _ => {
                match (left, right) {
                    (Value::Bool(l), Value::Bool(r)) => {
                        let value = match op {
                            Instruction::And => l && r,
                            _ => l || r,
                        };
                        Ok(Produced::Plain(Value::Bool(value)))
                    },
                    _ => Err(Fault::TypeMismatch),
                }
            },
        }
    }

    /// The object that the value `depth` places below the top refers to, or
    /// why there is none.
    fn object_at(&self, depth: usize) -> (r: Result<usize, Fault>)
        requires
            self.wf(),
            depth < self.stack_pointer,
        ensures
            r == self@.object_at(depth as int),
    {
        match self.stack_peek(depth) {
            Value::ObjectRef(id) => {
                if self.object(id).is_some() {
                    Ok(id)
                } else {
                    Err(Fault::ArenaMiss)
                }
            },
            _ => Err(Fault::TypeMismatch),
        }
    }

    /// Whether a member index is within the members of the object `id`.
    fn has_member(&self, id: usize, index: usize) -> (r: bool)
        requires
            self@.objects.contains_key(id),
        ensures
            r == (index < self@.objects[id].members.len()),
    {
        match self.object(id) {
            Some(object) => index < object.members.len(),
            None => false,
        }
    }

    /// The number of values that the instruction pops.
    fn operands(&self, instruction: Instruction) -> (n: usize)
        ensures
            n == self@.operands(instruction),
    {
        match instruction {
            Instruction::Nop | Instruction::Push { .. } | Instruction::Load { .. }
            | Instruction::Jump { .. } | Instruction::Call { .. } | Instruction::Ret
            | Instruction::ExternCall { .. } => 0,
            Instruction::Store { .. } | Instruction::Not | Instruction::JumpIfTrue { .. }
            | Instruction::JumpIfFalse { .. } | Instruction::AccessMember { .. } => 1,
            Instruction::CreateObject { descriptor } => {
                if descriptor < self.object_descriptor.len() {
                    self.object_descriptor[descriptor].members.len()
                } else {
                    0
                }
            },
            _ => 2,
        }
    }

    /// Why `instruction` cannot be executed in this state, if it cannot.
    pub fn fault(&self, instruction: Instruction) -> (r: Option<Fault>)
        requires
            self.wf(),
        ensures
            r == self@.fault(instruction),
    {
        if self.stack.len() - self.stack_pointer <= STACK_THRESHOLD && self.stack.len()
            > usize::MAX - STACK_SIZE {
            return Some(Fault::Exhausted);
        }
        if self.stack_pointer < self.operands(instruction) {
            return Some(Fault::StackUnderflow);
        }
        match instruction {
            Instruction::Add | Instruction::Sub | Instruction::Mul | Instruction::Div
            | Instruction::Mod | Instruction::Pow | Instruction::Gt | Instruction::Lt
            | Instruction::Gte | Instruction::Lte | Instruction::Eq | Instruction::Neq
            | Instruction::And | Instruction::Or => {
                match self.binary(instruction, self.stack_peek(1), self.stack_peek(0)) {
                    Err(fault) => Some(fault),
                    Ok(Produced::Text(_)) => {
                        if self.string_object_init_counter >= usize::MAX {
                            Some(Fault::Exhausted)
                        } else {
                            None
                        }
                    },
                    Ok(Produced::List(_)) => {
                        if self.list_init_counter >= usize::MAX {
                            Some(Fault::Exhausted)
                        } else {
                            None
                        }
                    },
                    Ok(_) => None,
                }
            },
            Instruction::Load { address } | Instruction::Store { address } => {
                if address >= self.heap.len() {
                    Some(Fault::HeapMiss)
                } else {
                    None
                }
            },
            Instruction::Not | Instruction::JumpIfTrue { .. } | Instruction::JumpIfFalse { .. } => {
                match self.stack_peek(0) {
                    Value::Bool(_) => None,
                    _ => Some(Fault::TypeMismatch),
                }
            },
            Instruction::Ret => {
                if self.call_stack.len() == 0 {
                    Some(Fault::EmptyCallStack)
                } else {
                    None
                }
            },
            Instruction::ExternCall { string_id } => {
                if string_id >= self.strings.len() {
                    Some(Fault::StringMiss)
                } else if !self.functions.contains_key(self.strings[string_id].as_str()) {
                    Some(Fault::UnknownFunction)
                } else {
                    None
                }
            },
            Instruction::CreateObject { descriptor } => {
                if descriptor >= self.object_descriptor.len() {
                    Some(Fault::DescriptorMiss)
                } else if self.object_init_counter >= usize::MAX {
                    Some(Fault::Exhausted)
                } else {
                    None
                }
            },
            Instruction::AccessMember { index } => {
                match self.object_at(0) {
                    Err(fault) => Some(fault),
                    Ok(id) => {
                        if self.has_member(id, index) {
                            None
                        } else {
                            Some(Fault::MemberMiss)
                        }
                    },
                }
            },
            Instruction::SetMember { index } => {
                match self.object_at(1) {
                    Err(fault) => Some(fault),
                    Ok(id) => {
                        if self.has_member(id, index) {
                            None
                        } else {
                            Some(Fault::MemberMiss)
                        }
                    },
                }
            },
            _ => None,
        }
    }

    /// Applies the headroom rule: where no more than `STACK_THRESHOLD` slots
    /// are free, the stack grows by `STACK_SIZE` slots.
    fn reserve(&mut self)
        requires
            old(self).wf(),
            old(self)@.grown_capacity() <= usize::MAX,
        ensures
            final(self).wf(),
            final(self)@ == (Machine { capacity: old(self)@.grown_capacity(), ..old(self)@ }),
            final(self).stack_pointer + STACK_THRESHOLD < final(self).stack.len(),
    {
        if self.stack.len() - self.stack_pointer <= STACK_THRESHOLD {
            let size = self.stack.len() + STACK_SIZE;
            self.stack.resize(size, Value::Int(0));
            proof {
                assert(self@.stack =~= old(self)@.stack);
            }
        }
    }

    /// Puts `list` into the list arena and returns its id, the next unused one.
    pub fn allocate_list(&mut self, list: Vec<Value>) -> (id: usize)
        requires
            old(self).list_init_counter < usize::MAX,
        ensures
            id == old(self).list_init_counter,
            final(self)@ == old(self)@.with_list(list@),
            final(self).wf() == old(self).wf(),
            final(self).stack == old(self).stack,
            final(self).stack_pointer == old(self).stack_pointer,
    {
        broadcast use vstd::std_specs::hash::group_hash_axioms;

        let id = self.list_init_counter;
        self.list_init_counter += 1;
        self.lists.insert(id, list);
        proof {
            assert(self@.lists =~= old(self)@.with_list(list@).lists);
        }
        id
    }

    /// Appends `value` to the list `id`.
    pub fn list_push(&mut self, id: usize, value: Value)
        requires
            old(self)@.lists.contains_key(id),
        ensures
            final(self)@ == (Machine {
                lists: old(self)@.lists.insert(id, old(self)@.lists[id].push(value)),
                ..old(self)@
            }),
            final(self).wf() == old(self).wf(),
            final(self).stack == old(self).stack,
            final(self).stack_pointer == old(self).stack_pointer,
    {
        broadcast use vstd::std_specs::hash::group_hash_axioms;

        match self.lists.remove(&id) {
            Some(list) => {
                let mut list = list;
                list.push(value);
                self.lists.insert(id, list);
                proof {
                    assert(self@.lists =~= old(self)@.lists.insert(
                        id,
                        old(self)@.lists[id].push(value),
                    ));
                }
            },
            None => {},
        }
    }

    /// Takes the last element off the list `id`, which must have one.
    pub fn list_pop(&mut self, id: usize) -> (value: Value)
        requires
            old(self)@.lists.contains_key(id),
            old(self)@.lists[id].len() > 0,
        ensures
            value == old(self)@.lists[id].last(),
            final(self)@ == (Machine {
                lists: old(self)@.lists.insert(id, old(self)@.lists[id].drop_last()),
                ..old(self)@
            }),
            final(self).wf() == old(self).wf(),
            final(self).stack == old(self).stack,
            final(self).stack_pointer == old(self).stack_pointer,
    {
        broadcast use vstd::std_specs::hash::group_hash_axioms;

        match self.lists.remove(&id) {
            Some(list) => {
                let mut list = list;
                let value = list.pop();
                self.lists.insert(id, list);
                proof {
                    assert(self@.lists =~= old(self)@.lists.insert(
                        id,
                        old(self)@.lists[id].drop_last(),
                    ));
                }
                match value {
                    Some(value) => value,
                    None => Value::Int(0),
                }
            },
            None => Value::Int(0),
        }
    }

    /// Puts `value` at `index` of the list `id`.
    pub fn list_set(&mut self, id: usize, index: usize, value: Value)
        requires
            old(self)@.lists.contains_key(id),
            index < old(self)@.lists[id].len(),
        ensures
            final(self)@ == (Machine {
                lists: old(self)@.lists.insert(
                    id,
                    old(self)@.lists[id].update(index as int, value),
                ),
                ..old(self)@
            }),
            final(self).wf() == old(self).wf(),
            final(self).stack == old(self).stack,
            final(self).stack_pointer == old(self).stack_pointer,
    {
        broadcast use vstd::std_specs::hash::group_hash_axioms;

        match self.lists.remove(&id) {
            Some(list) => {
                let mut list = list;
                list[index] = value;
                self.lists.insert(id, list);
                proof {
                    assert(self@.lists =~= old(self)@.lists.insert(
                        id,
                        old(self)@.lists[id].update(index as int, value),
                    ));
                }
            },
            None => {},
        }
    }

    /// Creates an object of the shape `descriptor` from the values on top of
    /// the stack and pushes its handle.
    fn create_object(&mut self, descriptor: usize)
        requires
            old(self).wf(),
            descriptor < old(self).object_descriptor.len(),
            old(self).object_init_counter < usize::MAX,
            old(self).object_descriptor[descriptor as int]@.arity() <= old(self).stack_pointer,
            old(self).stack_pointer + STACK_THRESHOLD < old(self).stack.len(),
        ensures
            final(self).wf(),
            final(self)@ == old(self)@.after(Instruction::CreateObject { descriptor }),
    {
        broadcast use vstd::std_specs::hash::group_hash_axioms;

        let shape = self.object_descriptor[descriptor].duplicate();
        let count = shape.members.len();
        let mut members: Vec<Value> = Vec::new();
        let mut i: usize = 0;
        while i < count
            invariant
                i <= count,
                count <= self.stack_pointer,
                self.wf(),
                members@ == self@.gathered(i as nat),
            decreases count - i,
        {
            members.push(self.stack_peek(i));
            i += 1;
            proof {
                assert(members@ =~= self@.gathered(i as nat));
            }
        }
        let id = self.object_init_counter;
        self.object_init_counter += 1;
        self.stack_pointer -= count;
        self.objects.insert(id, Object { descriptor: Rc::new(shape), members });
        self.stack[self.stack_pointer] = Value::ObjectRef(id);
        self.stack_pointer += 1;
        proof {
            let goal = old(self)@.after(Instruction::CreateObject { descriptor });
            assert(old(self)@.grown_capacity() == old(self)@.capacity);
            assert(self@.objects =~= goal.objects);
            assert(self@.stack =~= goal.stack);
        }
    }

    /// Writes `value` into member `index` of the object `id`.
    fn set_member(&mut self, id: usize, index: usize, value: Value)
        requires
            old(self)@.objects.contains_key(id),
            index < old(self)@.objects[id].members.len(),
        ensures
            final(self)@ == (Machine {
                objects: old(self)@.objects.insert(
                    id,
                    ObjectView {
                        members: old(self)@.objects[id].members.update(index as int, value),
                        ..old(self)@.objects[id]
                    },
                ),
                ..old(self)@
            }),
            final(self).wf() == old(self).wf(),
            final(self).stack == old(self).stack,
            final(self).stack_pointer == old(self).stack_pointer,
    {
        broadcast use vstd::std_specs::hash::group_hash_axioms;

        match self.objects.remove(&id) {
            Some(object) => {
                let mut object = object;
                object.members[index] = value;
                self.objects.insert(id, object);
                proof {
                    assert(self@.objects =~= old(self)@.objects.insert(
                        id,
                        ObjectView {
                            members: old(self)@.objects[id].members.update(index as int, value),
                            ..old(self)@.objects[id]
                        },
                    ));
                }
            },
            None => {},
        }
    }

    /// Puts what a binary opcode has computed in the place of its operands.
    fn commit(&mut self, produced: Produced) -> (request: Option<Request>)
        requires
            old(self).wf(),
            old(self).stack_pointer >= 2,
            produced is Text ==> old(self).string_object_init_counter < usize::MAX,
            produced is List ==> old(self).list_init_counter < usize::MAX,
        ensures
            final(self).wf(),
            final(self)@ == (match produced@ {
                Computed::Plain(value) => old(self)@.replaced(2, value),
                Computed::Text(text) => old(self)@.with_string(text).replaced(
                    2,
                    Value::StrRef(old(self)@.next_string as usize),
                ),
                Computed::List(list) => old(self)@.with_list(list).replaced(
                    2,
                    Value::ListRef(old(self)@.next_list as usize),
                ),
                Computed::Float(..) => old(self)@.popped(2),
                Computed::Fails(_) => old(self)@,
            }),
            request == (match produced@ {
                Computed::Float(operation, left, right) => Some(
                    Request::Float { operation, left, right },
                ),
                _ => None,
            }),
    {
        let ghost before = self@;
        self.stack_pointer -= 2;
        match produced {
            Produced::Plain(value) => {
                self.stack_push(value);
                proof {
                    assert(self@.stack =~= before.replaced(2, value).stack);
                }
                None
            },
            Produced::Text(text) => {
                let handle = self.new_string(text);
                self.stack_push(handle);
                proof {
                    assert(self@.stack =~= before.replaced(2, handle).stack);
                }
                None
            },
            Produced::List(list) => {
                let id = self.allocate_list(list);
                self.stack_push(Value::ListRef(id));
                proof {
                    assert(self@.stack =~= before.replaced(2, Value::ListRef(id)).stack);
                }
                None
            },
            Produced::Float(operation, left, right) => {
                proof {
                    assert(self@.stack =~= before.popped(2).stack);
                }
                Some(Request::Float { operation, left, right })
            },
        }
    }

    /// Executes one instruction if it can be executed, and says why not if it
    /// cannot; the machine is then as it was. The instruction pointer is
    /// expected to have been moved past the instruction already.
    pub fn step(&mut self, instruction: Instruction) -> (r: Result<Option<Request>, Fault>)
        requires
            old(self).wf(),
        ensures
            final(self).wf(),
            match old(self)@.fault(instruction) {
                Some(fault) => r == Err::<Option<Request>, Fault>(fault) && final(self)@ == old(
                    self,
                )@,
                None => r == Ok::<Option<Request>, Fault>(old(self)@.request(instruction))
                    && final(self)@ == old(self)@.after(instruction),
            },
    {
        match instruction {
            Instruction::Add | Instruction::Sub | Instruction::Mul | Instruction::Div
            | Instruction::Mod | Instruction::Pow | Instruction::Gt | Instruction::Lt
            | Instruction::Gte | Instruction::Lte | Instruction::Eq | Instruction::Neq
            | Instruction::And | Instruction::Or => {
                if self.stack.len() - self.stack_pointer <= STACK_THRESHOLD && self.stack.len()
                    > usize::MAX - STACK_SIZE {
                    return Err(Fault::Exhausted);
                }
                if self.stack_pointer < 2 {
                    return Err(Fault::StackUnderflow);
                }
                let right = self.stack_peek(0);
                let left = self.stack_peek(1);
                let produced = match self.binary(instruction, left, right) {
                    Ok(produced) => produced,
                    Err(fault) => {
                        return Err(fault);
                    },
                };
                match &produced {
                    Produced::Text(_) => {
                        if self.string_object_init_counter >= usize::MAX {
                            return Err(Fault::Exhausted);
                        }
                    },
                    Produced::List(_) => {
                        if self.list_init_counter >= usize::MAX {
                            return Err(Fault::Exhausted);
                        }
                    },
                    _ => {},
                }
                self.reserve();
                Ok(self.commit(produced))
            },
            _ => {
                match self.fault(instruction) {
                    Some(fault) => Err(fault),
                    None => Ok(self.execute(instruction)),
                }
            },
        }
    }

    /// Executes one instruction that can be executed. The instruction pointer
    /// is expected to have been moved past the instruction already. What is
    /// returned is the work that is left to the host, if there is any.
    pub fn execute(&mut self, instruction: Instruction) -> (request: Option<Request>)
        requires
            old(self).wf(),
            old(self)@.fault(instruction) is None,
        ensures
            final(self).wf(),
            final(self)@ == old(self)@.after(instruction),
            request == old(self)@.request(instruction),
    {
        self.reserve();
        match instruction {
            Instruction::Add | Instruction::Sub | Instruction::Mul | Instruction::Div
            | Instruction::Mod | Instruction::Pow | Instruction::Gt | Instruction::Lt
            | Instruction::Gte | Instruction::Lte | Instruction::Eq | Instruction::Neq
            | Instruction::And | Instruction::Or => {
                let right = self.stack_peek(0);
                let left = self.stack_peek(1);
                assert(self@.binary(instruction, left, right) == old(self)@.binary(
                    instruction,
                    left,
                    right,
                ));
                match self.binary(instruction, left, right) {
                    Ok(produced) => self.commit(produced),
                    Err(_) => None,
                }
            },
            Instruction::Push { value } => {
                self.stack_push(value);
                None
            },
            Instruction::Load { address } => {
                let value = self.load_from_heap(address);
                self.stack_push(value);
                None
            },
            Instruction::Store { address } => {
                let value = self.stack_pop();
                self.heap[address] = value;
                None
            },
            Instruction::Not => {
                match self.stack_pop() {
                    Value::Bool(value) => {
                        self.stack_push(Value::Bool(!value));
                    },
                    _ => {},
                }
                None
            },
            Instruction::Jump { address } => {
                self.instruction_pointer = address;
                None
            },
            Instruction::JumpIfTrue { address } => {
                match self.stack_pop() {
                    Value::Bool(value) => {
                        if value {
                            self.instruction_pointer = address;
                        }
                    },
                    _ => {},
                }
                None
            },
            Instruction::JumpIfFalse { address } => {
                match self.stack_pop() {
                    Value::Bool(value) => {
                        if !value {
                            self.instruction_pointer = address;
                        }
                    },
                    _ => {},
                }
                None
            },
            Instruction::Call { address } => {
                self.call_stack.push(self.instruction_pointer);
                self.instruction_pointer = address;
                None
            },
            Instruction::Ret => {
                match self.call_stack.pop() {
                    Some(address) => {
                        self.instruction_pointer = address;
                    },
                    None => {},
                }
                None
            },
            Instruction::ExternCall { string_id } => {
                match self.functions.get(self.strings[string_id].as_str()) {
                    Some(function) => Some(Request::Extern { function: *function }),
                    None => None,
                }
            },
            Instruction::CreateObject { descriptor } => {
                self.create_object(descriptor);
                None
            },
            Instruction::AccessMember { index } => {
                match self.stack_pop() {
                    Value::ObjectRef(id) => {
                        match self.object(id) {
                            Some(object) => {
                                let value = object.members[index];
                                self.stack_push(value);
                            },
                            None => {},
                        }
                    },
                    _ => {},
                }
                None
            },
            Instruction::SetMember { index } => {
                let value = self.stack_pop();
                match self.stack_pop() {
                    Value::ObjectRef(id) => {
                        self.set_member(id, index, value);
                    },
                    _ => {},
                }
                None
            },
            Instruction::Nop => None,
        }
    }

    /// What is to be said of the instruction at the instruction pointer, which
    /// cannot be executed for the reason `fault`.
    pub fn diagnose(&self, fault: Fault) -> (diagnostic: Diagnostic)
        requires
            self.wf(),
            self.instruction_pointer < self.instructions.len(),
        ensures
            diagnostic.fault == fault,
            diagnostic.index == self.instruction_pointer,
            diagnostic.instruction == self.instructions[self.instruction_pointer as int],
            diagnostic.operands@ == self@.gathered(
                if self@.operands(diagnostic.instruction) <= self@.stack.len() {
                    self@.operands(diagnostic.instruction) as nat
                } else {
                    self@.stack.len()
                },
            ),
    {
        let instruction = self.instructions[self.instruction_pointer];
        let wanted = self.operands(instruction);
        let count = if wanted <= self.stack_pointer {
            wanted
        } else {
            self.stack_pointer
        };
        let mut operands: Vec<Value> = Vec::new();
        let mut i: usize = 0;
        while i < count
            invariant
                i <= count,
                count <= self.stack_pointer,
                self.wf(),
                operands@ == self@.gathered(i as nat),
            decreases count - i,
        {
            operands.push(self.stack_peek(i));
            i += 1;
            proof {
                assert(operands@ =~= self@.gathered(i as nat));
            }
        }
        Diagnostic { fault, index: self.instruction_pointer, instruction, operands }
    }

    /// Runs the program for at most `budget` steps and says how the run ended.
    /// A step fetches the instruction at the instruction pointer, moves the
    /// pointer on, and executes the instruction.
    pub fn run(&mut self, budget: u64) -> (outcome: Outcome)
        requires
            old(self).wf(),
        ensures
            final(self).wf(),
            (final(self)@, outcome) == old(self)@.run(budget as nat),
    {
        let mut left: u64 = budget;
        loop
            invariant
                self.wf(),
                self@.run(left as nat) == old(self)@.run(budget as nat),
            decreases left,
        {
            if self.instruction_pointer >= self.instructions.len() {
                return Outcome::Halted;
            }
            if left == 0 {
                return Outcome::Suspended;
            }
            let instruction = self.instructions[self.instruction_pointer];
            let ghost before = self@;
            self.instruction_pointer += 1;
            assert(self@ == before.fetched());
            match self.step(instruction) {
                Err(fault) => {
                    self.instruction_pointer -= 1;
                    assert(self@ == before);
                    return Outcome::Fault(fault);
                },
                Ok(Some(request)) => {
                    return Outcome::Request(request);
                },
                Ok(None) => {},
            }
            left -= 1;
        }
    }
}

} // verus!
