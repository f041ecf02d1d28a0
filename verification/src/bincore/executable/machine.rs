//! The machine as mathematics: its state as plain values, and what each
//! instruction does to that state.

use vstd::prelude::*;
use vstd::arithmetic::power::pow;
use crate::bincore::data::ieee::{float_eq, float_le, float_lt};
use crate::bincore::data::object::{DescriptorView, ObjectView};
use crate::bincore::data::value::Value;
use crate::bincore::executable::runnable::Instruction;

verus! {

/// The number of slots by which the operand stack grows.
pub const STACK_SIZE: usize = 1024;

/// The operand stack grows before an instruction runs unless more than this
/// many slots are free.
pub const STACK_THRESHOLD: usize = 10;

/// Why an instruction cannot be executed.
#[derive(Clone, Copy, Debug, PartialEq, Eq, Structural)]
pub enum Fault {
    /// The operand stack holds fewer values than the instruction pops.
    StackUnderflow,
    /// The operands do not have the tags that the opcode is defined for.
    TypeMismatch,
    /// An integer division or remainder by zero.
    DivisionByZero,
    /// The quotient of an integer division does not fit.
    DivisionOverflow,
    /// `Load` or `Store` names a slot beyond the heap.
    HeapMiss,
    /// A handle names an id that its arena does not hold.
    ArenaMiss,
    /// A member index is beyond the members of the object.
    MemberMiss,
    /// `CreateObject` names a descriptor that the program does not have.
    DescriptorMiss,
    /// `ExternCall` names a string that the program does not have.
    StringMiss,
    /// `ExternCall` names a function that the host has not registered.
    UnknownFunction,
    /// `Ret` with an empty call stack.
    EmptyCallStack,
    /// An arena has no id left, or the operand stack cannot grow further.
    Exhausted,
}

/// The arithmetic that the machine leaves to its host.
#[derive(Clone, Copy, Debug, PartialEq, Eq, Structural)]
pub enum FloatOperation {
    Add,
    Sub,
    Mul,
    Div,
    Mod,
    Pow,
}

/// Work that the machine asks of its host before it goes on.
#[derive(Clone, Copy, Debug, PartialEq, Eq, Structural)]
pub enum Request {
    /// Call the host function registered under this handle. The function
    /// pops its arguments and pushes its result, if it has one.
    Extern { function: usize },
    /// Apply the operation to the two numbers, given by their bit patterns,
    /// and push the result as a `Float`. Both operands have been popped.
    Float { operation: FloatOperation, left: u64, right: u64 },
}

/// How a run ended.
#[derive(Clone, Copy, Debug, PartialEq, Eq, Structural)]
pub enum Outcome {
    /// The instruction pointer is past the last instruction.
    Halted,
    /// The host has work to do; the run goes on after it.
    Request(Request),
    /// The instruction at the instruction pointer cannot be executed.
    Fault(Fault),
    /// The budget of steps is used up.
    Suspended,
}

/// The state of a machine.
#[verifier::ext_equal]
pub struct Machine {
    pub instructions: Seq<Instruction>,
    /// The program's constant strings.
    pub strings: Seq<Seq<char>>,
    /// The handle of each registered host function, by name.
    pub functions: Map<Seq<char>, usize>,
    pub descriptors: Seq<DescriptorView>,
    /// The index of the next instruction.
    pub ip: int,
    /// The operand stack, top last.
    pub stack: Seq<Value>,
    /// The number of slots that the operand stack has room for.
    pub capacity: int,
    /// The return addresses, innermost last.
    pub calls: Seq<usize>,
    pub heap: Seq<Value>,
    pub string_objects: Map<usize, Seq<char>>,
    pub next_string: int,
    pub lists: Map<usize, Seq<Value>>,
    pub next_list: int,
    pub objects: Map<usize, ObjectView>,
    pub next_object: int,
}

/// What a binary opcode comes to on two operands.
pub enum Computed {
    /// Push this value.
    Plain(Value),
    /// Put this text into the string arena and push its handle.
    Text(Seq<char>),
    /// Put this list into the list arena and push its handle.
    List(Seq<Value>),
    /// Ask the host.
    Float(FloatOperation, u64, u64),
    Fails(Fault),
}

/// The quotient of `a` by `b`, rounded toward zero. (On mathematical
/// integers `/` and `%` are Euclidean: the remainder is never negative.)
pub open spec fn quotient(a: int, b: int) -> int
    recommends
        b != 0,
{
    if a >= 0 {
        a / b
    } else {
        -((-a) / b)
    }
}

/// What is left of `a` after the division by `b` that rounds toward zero: it
/// has the sign of `a`.
pub open spec fn remainder(a: int, b: int) -> int
    recommends
        b != 0,
{
    if a >= 0 {
        a % b
    } else {
        -((-a) % b)
    }
}

/// The exponent that `Pow` uses for the integer `right`: its low 32 bits.
pub open spec fn exponent(right: i64) -> nat {
    (right as int % 0x1_0000_0000) as nat
}

/// `base` to the power `exp`, wrapped to 64 bits in two's complement.
pub open spec fn wrapping_pow(base: i64, exp: nat) -> i64 {
    vstd::wrapping::i64_specs::signed_crop(pow(base as int, exp))
}

/// Equality of two values as list elements: the same tag and the same payload,
/// where two floats are the same if IEEE equality says so.
pub open spec fn same_value(a: Value, b: Value) -> bool {
    match (a, b) {
        (Value::Float(x), Value::Float(y)) => float_eq(x, y),
        _ => a == b,
    }
}

/// Equality of two lists: the same length, and the same value at each index.
pub open spec fn same_list(a: Seq<Value>, b: Seq<Value>) -> bool {
    &&& a.len() == b.len()
    &&& forall|i: int| 0 <= i < a.len() ==> same_value(a[i], b[i])
}

/// The integer arithmetic of `Add`, `Sub`, `Mul`, `Div`, `Mod` and `Pow`.
pub open spec fn int_arithmetic(op: Instruction, left: i64, right: i64) -> Computed {
    match op {
        Instruction::Add => Computed::Plain(
            Value::Int(vstd::wrapping::i64_specs::wrapping_add(left, right)),
        ),
        Instruction::Sub => Computed::Plain(
            Value::Int(vstd::wrapping::i64_specs::wrapping_sub(left, right)),
        ),
        Instruction::Mul => Computed::Plain(
            Value::Int(vstd::wrapping::i64_specs::wrapping_mul(left, right)),
        ),
        Instruction::Div => if right == 0 {
            Computed::Fails(Fault::DivisionByZero)
        } else if left == i64::MIN && right == -1 {
            Computed::Fails(Fault::DivisionOverflow)
        } else {
            Computed::Plain(Value::Int(quotient(left as int, right as int) as i64))
        },
        Instruction::Mod => if right == 0 {
            Computed::Fails(Fault::DivisionByZero)
        } else {
            Computed::Plain(Value::Int(remainder(left as int, right as int) as i64))
        },
        Instruction::Pow => Computed::Plain(Value::Int(wrapping_pow(left, exponent(right)))),
        _ => Computed::Fails(Fault::TypeMismatch),
    }
}

/// The operation that the host is asked for when an arithmetic opcode meets
/// two floats.
pub open spec fn float_operation(op: Instruction) -> Option<FloatOperation> {
    match op {
        Instruction::Add => Some(FloatOperation::Add),
        Instruction::Sub => Some(FloatOperation::Sub),
        Instruction::Mul => Some(FloatOperation::Mul),
        Instruction::Div => Some(FloatOperation::Div),
        Instruction::Mod => Some(FloatOperation::Mod),
        Instruction::Pow => Some(FloatOperation::Pow),
        _ => None,
    }
}

/// Whether the opcode is one of `Add`, `Sub`, `Mul`, `Div`, `Mod`, `Pow`.
pub open spec fn is_arithmetic(op: Instruction) -> bool {
    float_operation(op) is Some
}

/// Whether the opcode is one of `Gt`, `Lt`, `Gte`, `Lte`.
pub open spec fn is_ordering(op: Instruction) -> bool {
    op is Gt || op is Lt || op is Gte || op is Lte
}

/// Whether the opcode pops two operands and computes from them.
pub open spec fn is_binary(op: Instruction) -> bool {
    is_arithmetic(op) || is_ordering(op) || op is Eq || op is Neq || op is And || op is Or
}

impl Machine {
    /// The text of the string with the given id, if the arena holds it.
    pub open spec fn text(self, id: usize) -> Option<Seq<char>> {
        if self.string_objects.contains_key(id) {
            Some(self.string_objects[id])
        } else {
            None
        }
    }

    /// What `Add` comes to where it is not plain arithmetic: texts are
    /// concatenated into a new string, lists into a new list.
    pub open spec fn joined(self, left: Value, right: Value) -> Computed {
        match (left, right) {
            (Value::Char(l), Value::Char(r)) => Computed::Text(seq![l, r]),
            (Value::StrRef(l), Value::StrRef(r)) => match (self.text(l), self.text(r)) {
                (Some(a), Some(b)) => Computed::Text(a + b),
                _ => Computed::Fails(Fault::ArenaMiss),
            },
            (Value::StrRef(l), Value::Char(r)) => match self.text(l) {
                Some(a) => Computed::Text(a.push(r)),
                None => Computed::Fails(Fault::ArenaMiss),
            },
            (Value::Char(l), Value::StrRef(r)) => match self.text(r) {
                Some(b) => Computed::Text(seq![l] + b),
                None => Computed::Fails(Fault::ArenaMiss),
            },
            (Value::ListRef(l), Value::ListRef(r)) => if self.lists.contains_key(l)
                && self.lists.contains_key(r) {
                Computed::List(self.lists[l] + self.lists[r])
            } else {
                Computed::Fails(Fault::ArenaMiss)
            },
            _ => Computed::Fails(Fault::TypeMismatch),
        }
    }

    /// Whether `Eq` holds of the two operands, or why it is not defined.
    pub open spec fn equal(self, left: Value, right: Value) -> Result<bool, Fault> {
        match (left, right) {
            (Value::Char(l), Value::Char(r)) => Ok(l == r),
            (Value::Int(l), Value::Int(r)) => Ok(l == r),
            (Value::Float(l), Value::Float(r)) => Ok(float_eq(l, r)),
            (Value::Bool(l), Value::Bool(r)) => Ok(l == r),
            (Value::StrRef(l), Value::StrRef(r)) => match (self.text(l), self.text(r)) {
                (Some(a), Some(b)) => Ok(a == b),
                _ => Err(Fault::ArenaMiss),
            },
            (Value::StrRef(l), Value::Char(r)) => match self.text(l) {
                Some(a) => Ok(a == seq![r]),
                None => Err(Fault::ArenaMiss),
            },
            (Value::Char(l), Value::StrRef(r)) => match self.text(r) {
                Some(b) => Ok(seq![l] == b),
                None => Err(Fault::ArenaMiss),
            },
            (Value::ListRef(l), Value::ListRef(r)) => if self.lists.contains_key(l)
                && self.lists.contains_key(r) {
                Ok(same_list(self.lists[l], self.lists[r]))
            } else {
                Err(Fault::ArenaMiss)
            },
            _ => Err(Fault::TypeMismatch),
        }
    }

    /// What a binary opcode comes to on the operands `left` and `right`.
    pub open spec fn binary(self, op: Instruction, left: Value, right: Value) -> Computed {
        if is_arithmetic(op) {
            match (left, right) {
                (Value::Int(l), Value::Int(r)) => int_arithmetic(op, l, r),
                (Value::Float(l), Value::Float(r)) => Computed::Float(float_operation(op)->0, l, r),
                _ => if op is Add {
                    self.joined(left, right)
                } else {
                    Computed::Fails(Fault::TypeMismatch)
                },
            }
        } else if is_ordering(op) {
            match (left, right) {
                (Value::Int(l), Value::Int(r)) => Computed::Plain(
                    Value::Bool(
                        match op {
                            Instruction::Gt => l > r,
                            Instruction::Lt => l < r,
                            Instruction::Gte => l >= r,
                            _ => l <= r,
                        },
                    ),
                ),
                (Value::Float(l), Value::Float(r)) => Computed::Plain(
                    Value::Bool(
                        match op {
                            Instruction::Gt => float_lt(r, l),
                            Instruction::Lt => float_lt(l, r),
                            Instruction::Gte => float_le(r, l),
                            _ => float_le(l, r),
                        },
                    ),
                ),
                _ => Computed::Fails(Fault::TypeMismatch),
            }
        } else if op is Eq || op is Neq {
            match self.equal(left, right) {
                Ok(same) => Computed::Plain(Value::Bool(same == (op is Eq))),
                Err(fault) => Computed::Fails(fault),
            }
        } else {
            match (left, right) {
                (Value::Bool(l), Value::Bool(r)) => Computed::Plain(
                    Value::Bool(
                        if op is And {
                            l && r
                        } else {
                            l || r
                        },
                    ),
                ),
                _ => Computed::Fails(Fault::TypeMismatch),
            }
        }
    }

    /// The value `depth` places below the top of the operand stack.
    pub open spec fn peek(self, depth: int) -> Value
        recommends
            0 <= depth < self.stack.len(),
    {
        self.stack[self.stack.len() - 1 - depth]
    }

    /// The machine with `count` values popped and then `value` pushed.
    pub open spec fn replaced(self, count: int, value: Value) -> Machine
        recommends
            0 <= count <= self.stack.len(),
    {
        Machine { stack: self.stack.take(self.stack.len() - count).push(value), ..self }
    }

    /// The machine with `count` values popped.
    pub open spec fn popped(self, count: int) -> Machine
        recommends
            0 <= count <= self.stack.len(),
    {
        Machine { stack: self.stack.take(self.stack.len() - count), ..self }
    }

    /// The machine with `value` pushed.
    pub open spec fn pushed(self, value: Value) -> Machine {
        Machine { stack: self.stack.push(value), ..self }
    }

    /// The machine with `text` as a new string. Its id is the old `next_string`.
    pub open spec fn with_string(self, text: Seq<char>) -> Machine {
        Machine {
            string_objects: self.string_objects.insert(self.next_string as usize, text),
            next_string: self.next_string + 1,
            ..self
        }
    }

    /// The machine with `list` as a new list. Its id is the old `next_list`.
    pub open spec fn with_list(self, list: Seq<Value>) -> Machine {
        Machine {
            lists: self.lists.insert(self.next_list as usize, list),
            next_list: self.next_list + 1,
            ..self
        }
    }

    /// The members of an object created from the top `count` values: the top
    /// of the stack is member 0, the value below it member 1, and so on.
    pub open spec fn gathered(self, count: nat) -> Seq<Value> {
        Seq::new(count, |i: int| self.peek(i))
    }

    /// The object that the value `depth` places below the top refers to, or
    /// why there is none.
    pub open spec fn object_at(self, depth: int) -> Result<usize, Fault> {
        match self.peek(depth) {
            Value::ObjectRef(id) => if self.objects.contains_key(id) {
                Ok(id)
            } else {
                Err(Fault::ArenaMiss)
            },
            _ => Err(Fault::TypeMismatch),
        }
    }

    /// The number of values that the instruction pops.
    pub open spec fn operands(self, instruction: Instruction) -> int {
        match instruction {
            Instruction::Nop | Instruction::Push { .. } | Instruction::Load { .. }
            | Instruction::Jump { .. } | Instruction::Call { .. } | Instruction::Ret
            | Instruction::ExternCall { .. } => 0,
            Instruction::Store { .. } | Instruction::Not | Instruction::JumpIfTrue { .. }
            | Instruction::JumpIfFalse { .. } | Instruction::AccessMember { .. } => 1,
            Instruction::CreateObject { descriptor } => if descriptor < self.descriptors.len() {
                self.descriptors[descriptor as int].arity() as int
            } else {
                0
            },
            _ => 2,
        }
    }

    /// The room that the operand stack has once the headroom rule has been
    /// applied: where no more than `STACK_THRESHOLD` slots are free, it grows
    /// by `STACK_SIZE`.
    pub open spec fn grown_capacity(self) -> int {
        if self.stack.len() + STACK_THRESHOLD >= self.capacity {
            self.capacity + STACK_SIZE
        } else {
            self.capacity
        }
    }

    /// Why `instruction` cannot be executed in this state, if it cannot.
    pub open spec fn fault(self, instruction: Instruction) -> Option<Fault> {
        if self.grown_capacity() > usize::MAX {
            Some(Fault::Exhausted)
        } else if self.stack.len() < self.operands(instruction) {
            Some(Fault::StackUnderflow)
        } else if is_binary(instruction) {
            match self.binary(instruction, self.peek(1), self.peek(0)) {
                Computed::Fails(fault) => Some(fault),
                Computed::Text(_) => if self.next_string >= usize::MAX {
                    Some(Fault::Exhausted)
                } else {
                    None
                },
                Computed::List(_) => if self.next_list >= usize::MAX {
                    Some(Fault::Exhausted)
                } else {
                    None
                },
                _ => None,
            }
        } else {
            match instruction {
                Instruction::Load { address } | Instruction::Store { address } => if address
                    >= self.heap.len() {
                    Some(Fault::HeapMiss)
                } else {
                    None
                },
                Instruction::Not | Instruction::JumpIfTrue { .. } | Instruction::JumpIfFalse {
                    ..
                } => if self.peek(0) is Bool {
                    None
                } else {
                    Some(Fault::TypeMismatch)
                },
                Instruction::Ret => if self.calls.len() == 0 {
                    Some(Fault::EmptyCallStack)
                } else {
                    None
                },
                Instruction::ExternCall { string_id } => if string_id >= self.strings.len() {
                    Some(Fault::StringMiss)
                } else if !self.functions.contains_key(self.strings[string_id as int]) {
                    Some(Fault::UnknownFunction)
                } else {
                    None
                },
                Instruction::CreateObject { descriptor } => if descriptor
                    >= self.descriptors.len() {
                    Some(Fault::DescriptorMiss)
                } else if self.next_object >= usize::MAX {
                    Some(Fault::Exhausted)
                } else {
                    None
                },
                Instruction::AccessMember { index } => match self.object_at(0) {
                    Err(fault) => Some(fault),
                    Ok(id) => if index >= self.objects[id].members.len() {
                        Some(Fault::MemberMiss)
                    } else {
                        None
                    },
                },
                Instruction::SetMember { index } => match self.object_at(1) {
                    Err(fault) => Some(fault),
                    Ok(id) => if index >= self.objects[id].members.len() {
                        Some(Fault::MemberMiss)
                    } else {
                        None
                    },
                },
                _ => None,
            }
        }
    }

    /// The work that executing `instruction` leaves to the host, if any.
    pub open spec fn request(self, instruction: Instruction) -> Option<Request> {
        if is_binary(instruction) {
            match self.binary(instruction, self.peek(1), self.peek(0)) {
                Computed::Float(operation, left, right) => Some(
                    Request::Float { operation, left, right },
                ),
                _ => None,
            }
        } else {
            match instruction {
                Instruction::ExternCall { string_id } => Some(
                    Request::Extern { function: self.functions[self.strings[string_id as int]] },
                ),
                _ => None,
            }
        }
    }

    /// The state after `instruction` has been executed, for an instruction
    /// that can be: one with `self.fault(instruction)` equal to `None`.
    pub open spec fn after(self, instruction: Instruction) -> Machine {
        let m = Machine { capacity: self.grown_capacity(), ..self };
        if is_binary(instruction) {
            match m.binary(instruction, m.peek(1), m.peek(0)) {
                Computed::Plain(value) => m.replaced(2, value),
                Computed::Text(text) => m.with_string(text).replaced(
                    2,
                    Value::StrRef(m.next_string as usize),
                ),
                Computed::List(list) => m.with_list(list).replaced(
                    2,
                    Value::ListRef(m.next_list as usize),
                ),
                Computed::Float(..) => m.popped(2),
                Computed::Fails(_) => m,
            }
        } else {
            match instruction {
                Instruction::Push { value } => m.pushed(value),
                Instruction::Load { address } => m.pushed(m.heap[address as int]),
                Instruction::Store { address } => Machine {
                    heap: m.heap.update(address as int, m.peek(0)),
                    ..m.popped(1)
                },
                Instruction::Not => m.replaced(1, Value::Bool(!m.peek(0)->Bool_0)),
                Instruction::Jump { address } => Machine { ip: address as int, ..m },
                Instruction::JumpIfTrue { address } => Machine {
                    ip: if m.peek(0)->Bool_0 {
                        address as int
                    } else {
                        m.ip
                    },
                    ..m.popped(1)
                },
                Instruction::JumpIfFalse { address } => Machine {
                    ip: if m.peek(0)->Bool_0 {
                        m.ip
                    } else {
                        address as int
                    },
                    ..m.popped(1)
                },
                Instruction::Call { address } => Machine {
                    calls: m.calls.push(m.ip as usize),
                    ip: address as int,
                    ..m
                },
                Instruction::Ret => Machine {
                    ip: m.calls.last() as int,
                    calls: m.calls.drop_last(),
                    ..m
                },
                Instruction::CreateObject { descriptor } => {
                    let shape = m.descriptors[descriptor as int];
                    let object = ObjectView {
                        descriptor: shape,
                        members: m.gathered(shape.arity()),
                    };
                    Machine {
                        objects: m.objects.insert(m.next_object as usize, object),
                        next_object: m.next_object + 1,
                        ..m.replaced(shape.arity() as int, Value::ObjectRef(m.next_object as usize))
                    }
                },
                Instruction::AccessMember { index } => {
                    let id = m.peek(0)->ObjectRef_0;
                    m.replaced(1, m.objects[id].members[index as int])
                },
                Instruction::SetMember { index } => {
                    let id = m.peek(1)->ObjectRef_0;
                    let object = m.objects[id];
                    Machine {
                        objects: m.objects.insert(
                            id,
                            ObjectView {
                                members: object.members.update(index as int, m.peek(0)),
                                ..object
                            },
                        ),
                        ..m.popped(2)
                    }
                },
                _ => m,
            }
        }
    }

    /// Whether the instruction pointer is past the last instruction.
    pub open spec fn halted(self) -> bool {
        !(0 <= self.ip < self.instructions.len())
    }

    /// The machine with the instruction pointer moved to the next instruction.
    pub open spec fn fetched(self) -> Machine {
        Machine { ip: self.ip + 1, ..self }
    }

    /// The state and the outcome of running for at most `budget` steps: fetch
    /// the instruction at the instruction pointer, move the pointer on, and
    /// execute; stop when the pointer is past the end, when the host has work
    /// to do, when an instruction cannot be executed (the pointer then stays on
    /// it), or when the budget is used up.
    pub open spec fn run(self, budget: nat) -> (Machine, Outcome)
        decreases budget,
    {
        if self.halted() {
            (self, Outcome::Halted)
        } else if budget == 0 {
            (self, Outcome::Suspended)
        } else {
            let instruction = self.instructions[self.ip];
            match self.fetched().fault(instruction) {
                Some(fault) => (self, Outcome::Fault(fault)),
                None => match self.fetched().request(instruction) {
                    Some(request) => (
                        self.fetched().after(instruction),
                        Outcome::Request(request),
                    ),
                    None => self.fetched().after(instruction).run((budget - 1) as nat),
                },
            }
        }
    }
}

} // verus!
