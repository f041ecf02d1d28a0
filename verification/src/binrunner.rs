//! The functions that the reference host offers to programs: printing, lists
//! and lengths. Each takes its arguments from the operand stack, the first
//! argument on top, and pushes its result, if it has one. A variadic function
//! finds the number of its arguments on top of them.

use vstd::prelude::*;
use crate::bincore::data::object::{Object, ObjectView};
use crate::bincore::data::value::Value;
use crate::bincore::executable::machine::{Fault, Machine};
use crate::bincore::executable::runtime::Runtime;
use crate::text::{char_to_string, i64_to_string, int_text, owned};

verus! {

/// How deep lists and objects may be nested in what the machine prints: as
/// deep as it has lists and objects. A value that holds no cycle nests no
/// deeper, since each level is another list or object; only a value that
/// holds itself, whose text has no end, is too deep.
pub open spec fn print_depth(m: Machine) -> nat {
    let count = m.lists.dom().len() + m.objects.dom().len();
    if count > usize::MAX {
        usize::MAX as nat
    } else {
        count
    }
}

/// A piece of printed text: text as it stands, or a float that the host has
/// yet to write out.
#[derive(Debug, Clone, PartialEq, Eq)]
pub enum Fragment {
    Text(String),
    Float(u64),
}

/// A piece of printed text, as plain values.
pub enum Piece {
    Text(Seq<char>),
    Float(u64),
}

impl Fragment {
    /// The fragment as plain values.
    pub open spec fn view(&self) -> Piece {
        match *self {
            Fragment::Text(text) => Piece::Text(text@),
            Fragment::Float(bits) => Piece::Float(bits),
        }
    }
}

/// The pieces that fragments stand for.
pub open spec fn pieces(fragments: Seq<Fragment>) -> Seq<Piece> {
    Seq::new(fragments.len(), |i: int| fragments[i]@)
}

/// `pieces` followed by the pieces of `rest`, or the fault of `rest`.
pub open spec fn then(pieces: Seq<Piece>, rest: Result<Seq<Piece>, Fault>) -> Result<
    Seq<Piece>,
    Fault,
> {
    match rest {
        Ok(more) => Ok(pieces + more),
        Err(fault) => Err(fault),
    }
}

/// What is printed for a value. A list is its elements between brackets, an
/// object its name and its members between braces; a handle that points at
/// nothing, or nesting deeper than `depth`, is a fault.
pub open spec fn printable(m: Machine, value: Value, depth: nat) -> Result<Seq<Piece>, Fault>
    decreases depth, 1nat, 0nat,
{
    match value {
        Value::Int(i) => Ok(seq![Piece::Text(int_text(i as int))]),
        Value::Float(bits) => Ok(seq![Piece::Float(bits)]),
        Value::Bool(b) => Ok(
            seq![
                Piece::Text(
                    if b {
                        "true"@
                    } else {
                        "false"@
                    },
                ),
            ],
        ),
        Value::Char(c) => Ok(seq![Piece::Text(seq![c])]),
        Value::StrRef(id) => match m.text(id) {
            Some(text) => Ok(seq![Piece::Text(text)]),
            None => Err(Fault::ArenaMiss),
        },
        Value::ListRef(id) => if !m.lists.contains_key(id) {
            Err(Fault::ArenaMiss)
        } else if depth == 0 {
            Err(Fault::Exhausted)
        } else {
            match listed(m, m.lists[id], ", "@, (depth - 1) as nat, true) {
                Ok(inside) => Ok(seq![Piece::Text("["@)] + inside + seq![Piece::Text("]"@)]),
                Err(fault) => Err(fault),
            }
        },
        Value::ObjectRef(id) => if !m.objects.contains_key(id) {
            Err(Fault::ArenaMiss)
        } else if depth == 0 {
            Err(Fault::Exhausted)
        } else {
            match membered(m, m.objects[id], 0, (depth - 1) as nat) {
                Ok(inside) => Ok(
                    seq![Piece::Text(m.objects[id].descriptor.name + " { "@)] + inside + seq![
                        Piece::Text(" }"@),
                    ],
                ),
                Err(fault) => Err(fault),
            }
        },
    }
}

/// What is printed for a sequence of values: each value, with `separator`
/// between neighbours. `first` says that nothing has been printed before.
pub open spec fn listed(
    m: Machine,
    items: Seq<Value>,
    separator: Seq<char>,
    depth: nat,
    first: bool,
) -> Result<Seq<Piece>, Fault>
    decreases depth, 2nat, items.len(),
{
    if items.len() == 0 {
        Ok(Seq::empty())
    } else {
        match printable(m, items.first(), depth) {
            Err(fault) => Err(fault),
            Ok(one) => then(
                if first {
                    one
                } else {
                    seq![Piece::Text(separator)] + one
                },
                listed(m, items.drop_first(), separator, depth, false),
            ),
        }
    }
}

/// What is printed for the members of an object from the `i`th on, in the
/// order in which the descriptor lists them: the name, a colon, the value,
/// and a comma between neighbours.
pub open spec fn membered(m: Machine, object: ObjectView, i: nat, depth: nat) -> Result<
    Seq<Piece>,
    Fault,
>
    decreases depth, 2nat, object.descriptor.member_names.len() - i,
{
    let shape = object.descriptor;
    if i >= shape.member_names.len() || i >= shape.member_indices.len() {
        Ok(Seq::empty())
    } else if shape.member_indices[i as int] >= object.members.len() {
        Err(Fault::MemberMiss)
    } else {
        match printable(m, object.members[shape.member_indices[i as int] as int], depth) {
            Err(fault) => Err(fault),
            Ok(one) => then(
                seq![
                    Piece::Text(
                        (if i == 0 {
                            Seq::<char>::empty()
                        } else {
                            ", "@
                        }) + shape.member_names[i as int] + ": "@,
                    ),
                ] + one,
                membered(m, object, i + 1, depth),
            ),
        }
    }
}

/// What a function that returned fragments returned, as plain values.
pub open spec fn printed(r: Result<Vec<Fragment>, Fault>) -> Result<Seq<Piece>, Fault> {
    match r {
        Ok(fragments) => Ok(pieces(fragments@)),
        Err(fault) => Err(fault),
    }
}

proof fn lemma_pieces_add(a: Seq<Fragment>, b: Seq<Fragment>)
    ensures
        pieces(a + b) == pieces(a) + pieces(b),
{
    assert(pieces(a + b) =~= pieces(a) + pieces(b));
}

/// One fragment of text.
fn text_only(text: String) -> (r: Vec<Fragment>)
    ensures
        pieces(r@) == seq![Piece::Text(text@)],
{
    let r = vec![Fragment::Text(text)];
    assert(pieces(r@) =~= seq![r[0]@]);
    r
}

/// What is printed for `value`.
pub fn value_into_printable(value: Value, runtime: &Runtime, depth: usize) -> (r: Result<
    Vec<Fragment>,
    Fault,
>)
    ensures
        printed(r) == printable(runtime@, value, depth as nat),
    decreases depth, 1nat, 0nat,
{
    match value {
        Value::Int(i) => Ok(text_only(i64_to_string(i))),
        Value::Float(bits) => {
            let r = vec![Fragment::Float(bits)];
            assert(pieces(r@) =~= seq![r[0]@]);
            Ok(r)
        },
        Value::Bool(b) => {
            if b {
                Ok(text_only(owned("true")))
            } else {
                Ok(text_only(owned("false")))
            }
        },
        Value::Char(c) => Ok(text_only(char_to_string(c))),
        Value::StrRef(id) => {
            match runtime.string_object(id) {
                Some(text) => Ok(text_only(text.clone())),
                None => Err(Fault::ArenaMiss),
            }
        },
        Value::ListRef(id) => {
            match runtime.list(id) {
                None => Err(Fault::ArenaMiss),
                Some(list) => {
                    if depth == 0 {
                        return Err(Fault::Exhausted);
                    }
                    let mut inside = match print_listed(list, runtime, ", ", depth - 1) {
                        Ok(inside) => inside,
                        Err(fault) => {
                            return Err(fault);
                        },
                    };
                    let mut out = text_only(owned("["));
                    let ghost middle = pieces(inside@);
                    proof {
                        lemma_pieces_add(out@, inside@);
                    }
                    out.append(&mut inside);
                    out.push(Fragment::Text(owned("]")));
                    proof {
                        assert(pieces(out@) =~= seq![Piece::Text("["@)] + middle + seq![
                            Piece::Text("]"@),
                        ]);
                    }
                    Ok(out)
                },
            }
        },
        Value::ObjectRef(id) => {
            match runtime.object(id) {
                None => Err(Fault::ArenaMiss),
                Some(object) => {
                    if depth == 0 {
                        return Err(Fault::Exhausted);
                    }
                    let mut inside = match print_membered(object, runtime, depth - 1) {
                        Ok(inside) => inside,
                        Err(fault) => {
                            return Err(fault);
                        },
                    };
                    let mut out = text_only(object.descriptor.name.clone().concat(" { "));
                    let ghost middle = pieces(inside@);
                    proof {
                        lemma_pieces_add(out@, inside@);
                    }
                    out.append(&mut inside);
                    out.push(Fragment::Text(owned(" }")));
                    proof {
                        assert(pieces(out@) =~= seq![
                            Piece::Text(runtime@.objects[id].descriptor.name + " { "@),
                        ] + middle + seq![Piece::Text(" }"@)]);
                    }
                    Ok(out)
                },
            }
        },
    }
}

/// What is printed for `values`, with `separator` between neighbours.
pub fn print_listed(values: &Vec<Value>, runtime: &Runtime, separator: &str, depth: usize) -> (r:
    Result<Vec<Fragment>, Fault>)
    ensures
        printed(r) == listed(runtime@, values@, separator@, depth as nat, true),
    decreases depth, 2nat, 0nat,
{
    let mut out: Vec<Fragment> = Vec::new();
    let mut i: usize = 0;
    assert(values@.skip(0) =~= values@);
    while i < values.len()
        invariant
            i <= values.len(),
            listed(runtime@, values@, separator@, depth as nat, true) == then(
                pieces(out@),
                listed(runtime@, values@.skip(i as int), separator@, depth as nat, i == 0),
            ),
        decreases values.len() - i,
    {
        let ghost rest = values@.skip(i as int);
        proof {
            assert(rest.first() == values@[i as int]);
            assert(rest.drop_first() =~= values@.skip(i as int + 1));
        }
        let mut one = match value_into_printable(values[i], runtime, depth) {
            Ok(one) => one,
            Err(fault) => {
                return Err(fault);
            },
        };
        let ghost start = pieces(out@);
        let ghost item = pieces(one@);
        if i > 0 {
            out.push(Fragment::Text(owned(separator)));
        }
        proof {
            lemma_pieces_add(out@, one@);
        }
        out.append(&mut one);
        proof {
            let head = if i == 0 {
                item
            } else {
                seq![Piece::Text(separator@)] + item
            };
            assert(pieces(out@) =~= start + head);
            match listed(runtime@, values@.skip(i as int + 1), separator@, depth as nat, false) {
                Ok(last) => {
                    assert((start + head) + last =~= start + (head + last));
                },
                Err(_) => {},
            }
        }
        i += 1;
    }
    proof {
        assert(pieces(out@) + Seq::<Piece>::empty() =~= pieces(out@));
    }
    Ok(out)
}

/// What is printed for the members of `object`.
fn print_membered(object: &Object, runtime: &Runtime, depth: usize) -> (r: Result<
    Vec<Fragment>,
    Fault,
>)
    ensures
        printed(r) == membered(runtime@, object@, 0, depth as nat),
    decreases depth, 2nat, 0nat,
{
    let mut out: Vec<Fragment> = Vec::new();
    let mut i: usize = 0;
    let count = object.descriptor.members.len();
    loop
        invariant
            count == object.descriptor.members.names().len(),
            membered(runtime@, object@, 0, depth as nat) == then(
                pieces(out@),
                membered(runtime@, object@, i as nat, depth as nat),
            ),
            i <= object.descriptor.members.names().len(),
        decreases object.descriptor.members.names().len() - i,
    {
        let (name, index) = match object.descriptor.members.entry(i) {
            Some(pair) => pair,
            None => {
                proof {
                    assert(pieces(out@) + Seq::<Piece>::empty() =~= pieces(out@));
                }
                return Ok(out);
            },
        };
        if *index >= object.members.len() {
            return Err(Fault::MemberMiss);
        }
        let mut one = match value_into_printable(object.members[*index], runtime, depth) {
            Ok(one) => one,
            Err(fault) => {
                return Err(fault);
            },
        };
        let label = if i == 0 {
            String::new().concat(name.as_str()).concat(": ")
        } else {
            owned(", ").concat(name.as_str()).concat(": ")
        };
        let ghost start = pieces(out@);
        let ghost item = pieces(one@);
        proof {
            assert(Seq::<char>::empty() + name@ =~= name@);
        }
        let ghost head = seq![Piece::Text(label@)] + item;
        out.push(Fragment::Text(label));
        proof {
            lemma_pieces_add(out@, one@);
        }
        out.append(&mut one);
        proof {
            assert(pieces(out@) =~= start + head);
            match membered(runtime@, object@, (i + 1) as nat, depth as nat) {
                Ok(last) => {
                    assert((start + head) + last =~= start + (head + last));
                },
                Err(_) => {},
            }
        }
        i += 1;
    }
}

/// The arguments of a variadic call: their number is on top of the stack, the
/// first argument below it, and so on. A negative number counts as none.
pub open spec fn variadic_arguments(m: Machine) -> Result<Seq<Value>, Fault> {
    if m.stack.len() < 1 {
        Err(Fault::StackUnderflow)
    } else {
        match m.peek(0) {
            Value::Int(n) => {
                let count = if n < 0 {
                    0
                } else {
                    n as int
                };
                if m.stack.len() - 1 < count {
                    Err(Fault::StackUnderflow)
                } else {
                    Ok(Seq::new(count as nat, |i: int| m.peek(1 + i)))
                }
            },
            _ => Err(Fault::TypeMismatch),
        }
    }
}

/// `print(values..)`: the line that is printed, the values separated by
/// spaces. Nothing is pushed. Lists and objects are printed as deep as
/// `print_depth` says, which is as deep as a value without a cycle can be.
pub open spec fn println_effect(m: Machine) -> Result<(Machine, Seq<Piece>), Fault> {
    match variadic_arguments(m) {
        Err(fault) => Err(fault),
        Ok(values) => match listed(m, values, " "@, print_depth(m), true) {
            Err(fault) => Err(fault),
            Ok(line) => Ok((m.popped(values.len() as int + 1), line)),
        },
    }
}

/// `push(value, list)`: appends the value to the list. Nothing is pushed onto
/// the stack.
pub open spec fn push_effect(m: Machine) -> Result<Machine, Fault> {
    if m.stack.len() < 2 {
        Err(Fault::StackUnderflow)
    } else {
        match m.peek(1) {
            Value::ListRef(id) => if m.lists.contains_key(id) {
                Ok(Machine { lists: m.lists.insert(id, m.lists[id].push(m.peek(0))), ..m.popped(2) })
            } else {
                Err(Fault::ArenaMiss)
            },
            _ => Err(Fault::TypeMismatch),
        }
    }
}

/// `pop(list)`: takes the last element off the list and pushes it.
pub open spec fn pop_effect(m: Machine) -> Result<Machine, Fault> {
    if m.stack.len() < 1 {
        Err(Fault::StackUnderflow)
    } else {
        match m.peek(0) {
            Value::ListRef(id) => if !m.lists.contains_key(id) {
                Err(Fault::ArenaMiss)
            } else if m.lists[id].len() == 0 {
                Err(Fault::MemberMiss)
            } else {
                Ok(
                    Machine {
                        lists: m.lists.insert(id, m.lists[id].drop_last()),
                        ..m.replaced(1, m.lists[id].last())
                    },
                )
            },
            _ => Err(Fault::TypeMismatch),
        }
    }
}

/// `new_list()`: pushes a new, empty list.
pub open spec fn new_list_effect(m: Machine) -> Result<Machine, Fault> {
    if m.next_list >= usize::MAX || m.stack.len() >= m.capacity {
        Err(Fault::Exhausted)
    } else {
        Ok(m.with_list(Seq::empty()).pushed(Value::ListRef(m.next_list as usize)))
    }
}

/// `new_list_with_values(values..)`: pushes a new list of the values.
pub open spec fn new_list_with_values_effect(m: Machine) -> Result<Machine, Fault> {
    match variadic_arguments(m) {
        Err(fault) => Err(fault),
        Ok(values) => if m.next_list >= usize::MAX {
            Err(Fault::Exhausted)
        } else {
            Ok(
                m.with_list(values).replaced(
                    values.len() as int + 1,
                    Value::ListRef(m.next_list as usize),
                ),
            )
        },
    }
}

/// `new_list_with_default_values(length, value)`: pushes a new list that
/// holds the value `length` times. A negative length counts as zero.
pub open spec fn new_list_with_default_values_effect(m: Machine) -> Result<Machine, Fault> {
    if m.stack.len() < 2 {
        Err(Fault::StackUnderflow)
    } else {
        match m.peek(0) {
            Value::Int(n) => {
                let count = if n < 0 {
                    0
                } else {
                    n as int
                };
                if count > usize::MAX || m.next_list >= usize::MAX {
                    Err(Fault::Exhausted)
                } else {
                    Ok(
                        m.with_list(Seq::new(count as nat, |i: int| m.peek(1))).replaced(
                            2,
                            Value::ListRef(m.next_list as usize),
                        ),
                    )
                }
            },
            _ => Err(Fault::TypeMismatch),
        }
    }
}

/// `index_set(list, index, value)`: puts the value at the index of the list.
/// Nothing is pushed.
pub open spec fn index_set_effect(m: Machine) -> Result<Machine, Fault> {
    if m.stack.len() < 3 {
        Err(Fault::StackUnderflow)
    } else {
        match (m.peek(0), m.peek(1)) {
            (Value::ListRef(id), Value::Int(index)) => if !m.lists.contains_key(id) {
                Err(Fault::ArenaMiss)
            } else if index < 0 || index >= m.lists[id].len() {
                Err(Fault::MemberMiss)
            } else {
                Ok(
                    Machine {
                        lists: m.lists.insert(id, m.lists[id].update(index as int, m.peek(2))),
                        ..m.popped(3)
                    },
                )
            },
            _ => Err(Fault::TypeMismatch),
        }
    }
}

/// `index_get(list, index)`: pushes the element at the index of the list, or,
/// for a string, the character at the index.
pub open spec fn index_get_effect(m: Machine) -> Result<Machine, Fault> {
    if m.stack.len() < 2 {
        Err(Fault::StackUnderflow)
    } else {
        match (m.peek(0), m.peek(1)) {
            (Value::ListRef(id), Value::Int(index)) => if !m.lists.contains_key(id) {
                Err(Fault::ArenaMiss)
            } else if index < 0 || index >= m.lists[id].len() {
                Err(Fault::MemberMiss)
            } else {
                Ok(m.replaced(2, m.lists[id][index as int]))
            },
            (Value::StrRef(id), Value::Int(index)) => match m.text(id) {
                None => Err(Fault::ArenaMiss),
                Some(text) => if index < 0 || index >= text.len() {
                    Err(Fault::MemberMiss)
                } else {
                    Ok(m.replaced(2, Value::Char(text[index as int])))
                },
            },
            _ => Err(Fault::TypeMismatch),
        }
    }
}

/// `len(value)`: pushes the number of elements of a list, or the number of
/// bytes that a string takes in UTF-8.
pub open spec fn len_effect(m: Machine) -> Result<Machine, Fault> {
    if m.stack.len() < 1 {
        Err(Fault::StackUnderflow)
    } else {
        match m.peek(0) {
            Value::ListRef(id) => if m.lists.contains_key(id) {
                Ok(m.replaced(1, Value::Int(m.lists[id].len() as i64)))
            } else {
                Err(Fault::ArenaMiss)
            },
            Value::StrRef(id) => match m.text(id) {
                Some(text) => Ok(
                    m.replaced(
                        1,
                        Value::Int(vstd::utf8::encode_utf8(text).len() as usize as i64),
                    ),
                ),
                None => Err(Fault::ArenaMiss),
            },
            _ => Err(Fault::TypeMismatch),
        }
    }
}

/// What a host function did, against what it is said to do: on success the
/// machine is in the state `effect` gives, on a fault it is as it was.
pub open spec fn done(
    r: Result<(), Fault>,
    before: Machine,
    after: Machine,
    effect: Result<Machine, Fault>,
) -> bool {
    match effect {
        Ok(m) => r is Ok && after == m,
        Err(fault) => r == Err::<(), Fault>(fault) && after == before,
    }
}

/// How deep lists and objects may be nested in what the machine prints.
pub fn depth_of(runtime: &Runtime) -> (depth: usize)
    ensures
        depth == print_depth(runtime@),
{
    broadcast use vstd::std_specs::hash::group_hash_axioms;

    proof {
        assert(runtime@.lists.dom() =~= runtime.lists@.dom());
        assert(runtime@.objects.dom() =~= runtime.objects@.dom());
    }
    runtime.lists.len().saturating_add(runtime.objects.len())
}

/// The arguments of a variadic call, which stay on the stack.
fn peek_arguments(runtime: &Runtime) -> (r: Result<Vec<Value>, Fault>)
    requires
        runtime.wf(),
    ensures
        match variadic_arguments(runtime@) {
            Ok(values) => r is Ok && r->Ok_0@ == values && values.len() + 1
                <= runtime.stack_pointer,
            Err(fault) => r == Err::<Vec<Value>, Fault>(fault),
        },
{
    if runtime.stack_pointer < 1 {
        return Err(Fault::StackUnderflow);
    }
    let n = match runtime.stack_peek(0) {
        Value::Int(n) => n,
        _ => {
            return Err(Fault::TypeMismatch);
        },
    };
    if n <= 0 {
        let values: Vec<Value> = Vec::new();
        assert(values@ =~= Seq::new(0, |i: int| runtime@.peek(1 + i)));
        return Ok(values);
    }
    if ((runtime.stack_pointer - 1) as i128) < (n as i128) {
        return Err(Fault::StackUnderflow);
    }
    let count = n as usize;
    let mut values: Vec<Value> = Vec::new();
    let mut i: usize = 0;
    while i < count
        invariant
            runtime.wf(),
            i <= count,
            count + 1 <= runtime.stack_pointer,
            values@ == Seq::new(i as nat, |k: int| runtime@.peek(1 + k)),
        decreases count - i,
    {
        values.push(runtime.stack_peek(1 + i));
        i += 1;
        proof {
            assert(values@ =~= Seq::new(i as nat, |k: int| runtime@.peek(1 + k)));
        }
    }
    Ok(values)
}

/// Drops the top `count` values of the stack.
fn drop_values(runtime: &mut Runtime, count: usize)
    requires
        old(runtime).wf(),
        count <= old(runtime).stack_pointer,
    ensures
        final(runtime).wf(),
        final(runtime)@ == old(runtime)@.popped(count as int),
        final(runtime).stack_pointer == old(runtime).stack_pointer - count,
        final(runtime).stack.len() == old(runtime).stack.len(),
{
    runtime.stack_pointer = runtime.stack_pointer - count;
    proof {
        assert(runtime@.stack =~= old(runtime)@.popped(count as int).stack);
    }
}

/// `print(values..)`: pops the values and returns the line to print, the
/// values separated by spaces.
pub fn println(runtime: &mut Runtime) -> (r: Result<Vec<Fragment>, Fault>)
    requires
        old(runtime).wf(),
    ensures
        final(runtime).wf(),
        match println_effect(old(runtime)@) {
            Ok((m, line)) => r is Ok && pieces(r->Ok_0@) == line && final(runtime)@ == m,
            Err(fault) => r == Err::<Vec<Fragment>, Fault>(fault) && final(runtime)@ == old(
                runtime,
            )@,
        },
{
    let values = match peek_arguments(runtime) {
        Ok(values) => values,
        Err(fault) => {
            return Err(fault);
        },
    };
    let line = match print_listed(&values, runtime, " ", depth_of(runtime)) {
        Ok(line) => line,
        Err(fault) => {
            return Err(fault);
        },
    };
    drop_values(runtime, values.len() + 1);
    Ok(line)
}

/// `push(value, list)`: appends the value to the list.
pub fn push(runtime: &mut Runtime) -> (r: Result<(), Fault>)
    requires
        old(runtime).wf(),
    ensures
        final(runtime).wf(),
        done(r, old(runtime)@, final(runtime)@, push_effect(old(runtime)@)),
{
    if runtime.stack_pointer < 2 {
        return Err(Fault::StackUnderflow);
    }
    let value = runtime.stack_peek(0);
    let id = match runtime.stack_peek(1) {
        Value::ListRef(id) => id,
        _ => {
            return Err(Fault::TypeMismatch);
        },
    };
    if runtime.list(id).is_none() {
        return Err(Fault::ArenaMiss);
    }
    drop_values(runtime, 2);
    runtime.list_push(id, value);
    Ok(())
}

/// `pop(list)`: takes the last element off the list and pushes it.
pub fn pop(runtime: &mut Runtime) -> (r: Result<(), Fault>)
    requires
        old(runtime).wf(),
    ensures
        final(runtime).wf(),
        done(r, old(runtime)@, final(runtime)@, pop_effect(old(runtime)@)),
{
    if runtime.stack_pointer < 1 {
        return Err(Fault::StackUnderflow);
    }
    let id = match runtime.stack_peek(0) {
        Value::ListRef(id) => id,
        _ => {
            return Err(Fault::TypeMismatch);
        },
    };
    match runtime.list(id) {
        None => {
            return Err(Fault::ArenaMiss);
        },
        Some(list) => {
            if list.len() == 0 {
                return Err(Fault::MemberMiss);
            }
        },
    }
    drop_values(runtime, 1);
    let value = runtime.list_pop(id);
    runtime.stack_push(value);
    proof {
        assert(runtime@.stack =~= old(runtime)@.replaced(1, value).stack);
    }
    Ok(())
}

/// `new_list()`: pushes a new, empty list.
pub fn new_list(runtime: &mut Runtime) -> (r: Result<(), Fault>)
    requires
        old(runtime).wf(),
    ensures
        final(runtime).wf(),
        done(r, old(runtime)@, final(runtime)@, new_list_effect(old(runtime)@)),
{
    if runtime.list_init_counter >= usize::MAX || runtime.stack_pointer >= runtime.stack.len() {
        return Err(Fault::Exhausted);
    }
    let id = runtime.allocate_list(Vec::new());
    runtime.stack_push(Value::ListRef(id));
    Ok(())
}

/// `new_list_with_values(values..)`: pushes a new list of the values.
pub fn new_list_with_values(runtime: &mut Runtime) -> (r: Result<(), Fault>)
    requires
        old(runtime).wf(),
    ensures
        final(runtime).wf(),
        done(r, old(runtime)@, final(runtime)@, new_list_with_values_effect(old(runtime)@)),
{
    let values = match peek_arguments(runtime) {
        Ok(values) => values,
        Err(fault) => {
            return Err(fault);
        },
    };
    if runtime.list_init_counter >= usize::MAX {
        return Err(Fault::Exhausted);
    }
    let count = values.len() + 1;
    let id = runtime.allocate_list(values);
    drop_values(runtime, count);
    runtime.stack_push(Value::ListRef(id));
    proof {
        assert(runtime@.stack =~= old(runtime)@.replaced(count as int, Value::ListRef(id)).stack);
    }
    Ok(())
}

/// `new_list_with_default_values(length, value)`: pushes a new list that
/// holds the value `length` times.
pub fn new_list_with_default_values(runtime: &mut Runtime) -> (r: Result<(), Fault>)
    requires
        old(runtime).wf(),
    ensures
        final(runtime).wf(),
        done(
            r,
            old(runtime)@,
            final(runtime)@,
            new_list_with_default_values_effect(old(runtime)@),
        ),
{
    if runtime.stack_pointer < 2 {
        return Err(Fault::StackUnderflow);
    }
    let n = match runtime.stack_peek(0) {
        Value::Int(n) => n,
        _ => {
            return Err(Fault::TypeMismatch);
        },
    };
    let value = runtime.stack_peek(1);
    let count: usize = if n <= 0 {
        0
    } else if (n as i128) > (usize::MAX as i128) {
        return Err(Fault::Exhausted);
    } else {
        n as usize
    };
    if runtime.list_init_counter >= usize::MAX {
        return Err(Fault::Exhausted);
    }
    let mut values: Vec<Value> = Vec::new();
    let mut i: usize = 0;
    while i < count
        invariant
            i <= count,
            values@ == Seq::new(i as nat, |k: int| value),
        decreases count - i,
    {
        values.push(value);
        i += 1;
        proof {
            assert(values@ =~= Seq::new(i as nat, |k: int| value));
        }
    }
    proof {
        assert(values@ =~= Seq::new(count as nat, |k: int| old(runtime)@.peek(1)));
    }
    let id = runtime.allocate_list(values);
    drop_values(runtime, 2);
    runtime.stack_push(Value::ListRef(id));
    proof {
        assert(runtime@.stack =~= old(runtime)@.replaced(2, Value::ListRef(id)).stack);
    }
    Ok(())
}

/// The index `index` of a sequence of `length` items, if it is one.
fn in_range(index: i64, length: usize) -> (r: Option<usize>)
    ensures
        match r {
            Some(i) => 0 <= index < length && i == index,
            None => index < 0 || index >= length,
        },
{
    if index < 0 {
        None
    } else if (index as i128) >= (length as i128) {
        None
    } else {
        Some(index as usize)
    }
}

/// `index_set(list, index, value)`: puts the value at the index of the list.
pub fn index_set(runtime: &mut Runtime) -> (r: Result<(), Fault>)
    requires
        old(runtime).wf(),
    ensures
        final(runtime).wf(),
        done(r, old(runtime)@, final(runtime)@, index_set_effect(old(runtime)@)),
{
    if runtime.stack_pointer < 3 {
        return Err(Fault::StackUnderflow);
    }
    let (id, index) = match (runtime.stack_peek(0), runtime.stack_peek(1)) {
        (Value::ListRef(id), Value::Int(index)) => (id, index),
        _ => {
            return Err(Fault::TypeMismatch);
        },
    };
    let value = runtime.stack_peek(2);
    let place = match runtime.list(id) {
        None => {
            return Err(Fault::ArenaMiss);
        },
        Some(list) => match in_range(index, list.len()) {
            Some(place) => place,
            None => {
                return Err(Fault::MemberMiss);
            },
        },
    };
    drop_values(runtime, 3);
    runtime.list_set(id, place, value);
    Ok(())
}

/// `index_get(list, index)`: pushes the element at the index of the list, or,
/// for a string, the character at the index.
pub fn index_get(runtime: &mut Runtime) -> (r: Result<(), Fault>)
    requires
        old(runtime).wf(),
    ensures
        final(runtime).wf(),
        done(r, old(runtime)@, final(runtime)@, index_get_effect(old(runtime)@)),
{
    if runtime.stack_pointer < 2 {
        return Err(Fault::StackUnderflow);
    }
    let index = match runtime.stack_peek(1) {
        Value::Int(index) => index,
        _ => {
            return Err(Fault::TypeMismatch);
        },
    };
    let found = match runtime.stack_peek(0) {
        Value::ListRef(id) => match runtime.list(id) {
            None => {
                return Err(Fault::ArenaMiss);
            },
            Some(list) => match in_range(index, list.len()) {
                Some(place) => list[place],
                None => {
                    return Err(Fault::MemberMiss);
                },
            },
        },
        Value::StrRef(id) => match runtime.string_object(id) {
            None => {
                return Err(Fault::ArenaMiss);
            },
            Some(text) => match in_range(index, text.as_str().unicode_len()) {
                Some(place) => Value::Char(text.as_str().get_char(place)),
                None => {
                    return Err(Fault::MemberMiss);
                },
            },
        },
        _ => {
            return Err(Fault::TypeMismatch);
        },
    };
    drop_values(runtime, 2);
    runtime.stack_push(found);
    proof {
        assert(runtime@.stack =~= old(runtime)@.replaced(2, found).stack);
    }
    Ok(())
}

/// `len(value)`: pushes the number of elements of a list, or the number of
/// bytes of a string.
pub fn len(runtime: &mut Runtime) -> (r: Result<(), Fault>)
    requires
        old(runtime).wf(),
    ensures
        final(runtime).wf(),
        done(r, old(runtime)@, final(runtime)@, len_effect(old(runtime)@)),
{
    if runtime.stack_pointer < 1 {
        return Err(Fault::StackUnderflow);
    }
    let length = match runtime.stack_peek(0) {
        Value::ListRef(id) => match runtime.list(id) {
            Some(list) => list.len(),
            None => {
                return Err(Fault::ArenaMiss);
            },
        },
        Value::StrRef(id) => match runtime.string_object(id) {
            Some(text) => text.as_str().len(),
            None => {
                return Err(Fault::ArenaMiss);
            },
        },
        _ => {
            return Err(Fault::TypeMismatch);
        },
    };
    let found = Value::Int(
        #[verifier::truncate]
        (length as i64),
    );
    drop_values(runtime, 1);
    runtime.stack_push(found);
    proof {
        assert(runtime@.stack =~= old(runtime)@.replaced(1, found).stack);
    }
    Ok(())
}

/// The handle under which `register` registers `print`.
pub const PRINT: usize = 0;

/// The handle under which `register` registers `push`.
pub const PUSH: usize = 1;

/// The handle under which `register` registers `pop`.
pub const POP: usize = 2;

/// The handle under which `register` registers `new_list`.
pub const NEW_LIST: usize = 3;

/// The handle under which `register` registers `new_list_with_values`.
pub const NEW_LIST_WITH_VALUES: usize = 4;

/// The handle under which `register` registers `new_list_with_default_values`.
pub const NEW_LIST_WITH_DEFAULT_VALUES: usize = 5;

/// The handle under which `register` registers `index_set`.
pub const INDEX_SET: usize = 6;

/// The handle under which `register` registers `index_get`.
pub const INDEX_GET: usize = 7;

/// The handle under which `register` registers `len`.
pub const LEN: usize = 8;

/// The host functions by name, each with its handle.
pub open spec fn registered(functions: Map<Seq<char>, usize>) -> Map<Seq<char>, usize> {
    functions.insert("print"@, PRINT).insert("push"@, PUSH).insert("pop"@, POP).insert(
        "new_list"@,
        NEW_LIST,
    ).insert("new_list_with_values"@, NEW_LIST_WITH_VALUES).insert(
        "new_list_with_default_values"@,
        NEW_LIST_WITH_DEFAULT_VALUES,
    ).insert("index_set"@, INDEX_SET).insert("index_get"@, INDEX_GET).insert("len"@, LEN)
}

/// Registers the host functions with the machine, each under its name.
pub fn register(runtime: &mut Runtime)
    requires
        old(runtime).wf(),
    ensures
        final(runtime).wf(),
        final(runtime)@ == (Machine {
            functions: registered(old(runtime)@.functions),
            ..old(runtime)@
        }),
{
    runtime.register_function(owned("print"), PRINT);
    runtime.register_function(owned("push"), PUSH);
    runtime.register_function(owned("pop"), POP);
    runtime.register_function(owned("new_list"), NEW_LIST);
    runtime.register_function(owned("new_list_with_values"), NEW_LIST_WITH_VALUES);
    runtime.register_function(
        owned("new_list_with_default_values"),
        NEW_LIST_WITH_DEFAULT_VALUES,
    );
    runtime.register_function(owned("index_set"), INDEX_SET);
    runtime.register_function(owned("index_get"), INDEX_GET);
    runtime.register_function(owned("len"), LEN);
}

/// What the function with the given handle does to the machine, and the
/// line that it prints, if it prints one.
pub open spec fn call_effect(m: Machine, function: usize) -> Result<
    (Machine, Option<Seq<Piece>>),
    Fault,
> {
    if function == PRINT {
        match println_effect(m) {
            Ok((after, line)) => Ok((after, Some(line))),
            Err(fault) => Err(fault),
        }
    } else {
        let effect = if function == PUSH {
            push_effect(m)
        } else if function == POP {
            pop_effect(m)
        } else if function == NEW_LIST {
            new_list_effect(m)
        } else if function == NEW_LIST_WITH_VALUES {
            new_list_with_values_effect(m)
        } else if function == NEW_LIST_WITH_DEFAULT_VALUES {
            new_list_with_default_values_effect(m)
        } else if function == INDEX_SET {
            index_set_effect(m)
        } else if function == INDEX_GET {
            index_get_effect(m)
        } else if function == LEN {
            len_effect(m)
        } else {
            Err(Fault::UnknownFunction)
        };
        match effect {
            Ok(after) => Ok((after, None)),
            Err(fault) => Err(fault),
        }
    }
}

/// Calls the host function with the given handle. What comes back is the
/// line to print, if the function prints one. On a fault the machine is as it
/// was.
pub fn call(runtime: &mut Runtime, function: usize) -> (r: Result<Option<Vec<Fragment>>, Fault>)
    requires
        old(runtime).wf(),
    ensures
        final(runtime).wf(),
        match call_effect(old(runtime)@, function) {
            Ok((m, line)) => r is Ok && final(runtime)@ == m && (match line {
                Some(text) => r->Ok_0 is Some && pieces(r->Ok_0->0@) == text,
                None => r->Ok_0 is None,
            }),
            Err(fault) => r == Err::<Option<Vec<Fragment>>, Fault>(fault) && final(runtime)@
                == old(runtime)@,
        },
{
    if function == PRINT {
        match println(runtime) {
            Ok(line) => Ok(Some(line)),
            Err(fault) => Err(fault),
        }
    } else {
        let done = if function == PUSH {
            push(runtime)
        } else if function == POP {
            pop(runtime)
        } else if function == NEW_LIST {
            new_list(runtime)
        } else if function == NEW_LIST_WITH_VALUES {
            new_list_with_values(runtime)
        } else if function == NEW_LIST_WITH_DEFAULT_VALUES {
            new_list_with_default_values(runtime)
        } else if function == INDEX_SET {
            index_set(runtime)
        } else if function == INDEX_GET {
            index_get(runtime)
        } else if function == LEN {
            len(runtime)
        } else {
            Err(Fault::UnknownFunction)
        };
        match done {
            Ok(()) => Ok(None),
            Err(fault) => Err(fault),
        }
    }
}

/// Whether the value is the handle of a list or of an object of the machine.
pub open spec fn is_node(m: Machine, value: Value) -> bool {
    match value {
        Value::ListRef(id) => m.lists.contains_key(id),
        Value::ObjectRef(id) => m.objects.contains_key(id),
        _ => false,
    }
}

/// The values that a list or an object of the machine holds.
pub open spec fn held(m: Machine, value: Value) -> Seq<Value> {
    match value {
        Value::ListRef(id) => m.lists[id],
        Value::ObjectRef(id) => m.objects[id].members,
        _ => Seq::empty(),
    }
}

/// `level` ranks the lists and objects to which it gives a level above 0:
/// each of them holds only lists and objects of a lower level above 0. The
/// lists and objects that can be reached from a value can be ranked so
/// exactly if none of them holds itself.
pub open spec fn ranked(m: Machine, level: spec_fn(Value) -> nat) -> bool {
    forall|value: Value, i: int|
        #![trigger held(m, value)[i]]
        is_node(m, value) && level(value) > 0 && 0 <= i < held(m, value).len() && is_node(
            m,
            held(m, value)[i],
        ) ==> 0 < level(held(m, value)[i]) < level(value)
}

/// Whether the value, if it is a list or an object, is ranked, and below the
/// lists and objects of `lists` and `objects`.
pub open spec fn ranked_below(
    m: Machine,
    level: spec_fn(Value) -> nat,
    value: Value,
    lists: Set<usize>,
    objects: Set<usize>,
) -> bool {
    is_node(m, value) ==> {
        &&& level(value) > 0
        &&& forall|id: usize| #[trigger]
            lists.contains(id) ==> level(Value::ListRef(id)) > level(value)
        &&& forall|id: usize| #[trigger]
            objects.contains(id) ==> level(Value::ObjectRef(id)) > level(value)
    }
}

/// What the lemmas on ranked values ask of the lists and objects that were
/// entered on the way to a value: they are of the machine, and `depth`
/// leaves room for every list and object that was not entered yet.
pub open spec fn room_left(m: Machine, lists: Set<usize>, objects: Set<usize>, depth: nat) -> bool {
    &&& m.lists.dom().finite()
    &&& m.objects.dom().finite()
    &&& lists.subset_of(m.lists.dom())
    &&& objects.subset_of(m.objects.dom())
    &&& depth + lists.len() + objects.len() >= m.lists.dom().len() + m.objects.dom().len()
}

/// A ranked value is not too deep where there is room for what was not
/// entered yet.
pub proof fn lemma_ranked_value_is_not_too_deep(
    m: Machine,
    level: spec_fn(Value) -> nat,
    value: Value,
    depth: nat,
    lists: Set<usize>,
    objects: Set<usize>,
)
    requires
        ranked(m, level),
        room_left(m, lists, objects, depth),
        ranked_below(m, level, value, lists, objects),
    ensures
        printable(m, value, depth) != Err::<Seq<Piece>, Fault>(Fault::Exhausted),
    decreases depth, 1nat, 0nat,
{
    vstd::set_lib::lemma_len_subset(lists, m.lists.dom());
    vstd::set_lib::lemma_len_subset(objects, m.objects.dom());
    match value {
        Value::ListRef(id) => {
            if m.lists.contains_key(id) {
                let entered = lists.insert(id);
                vstd::set_lib::lemma_len_subset(entered, m.lists.dom());
                let inside = (depth - 1) as nat;
                assert forall|i: int| 0 <= i < m.lists[id].len() implies ranked_below(
                    m,
                    level,
                    #[trigger] m.lists[id][i],
                    entered,
                    objects,
                ) by {
                    assert(m.lists[id][i] == held(m, value)[i]);
                }
                lemma_ranked_values_are_not_too_deep(
                    m,
                    level,
                    m.lists[id],
                    ", "@,
                    inside,
                    true,
                    entered,
                    objects,
                );
            }
        },
        Value::ObjectRef(id) => {
            if m.objects.contains_key(id) {
                let entered = objects.insert(id);
                vstd::set_lib::lemma_len_subset(entered, m.objects.dom());
                let inside = (depth - 1) as nat;
                assert forall|i: int| 0 <= i < m.objects[id].members.len() implies ranked_below(
                    m,
                    level,
                    #[trigger] m.objects[id].members[i],
                    lists,
                    entered,
                ) by {
                    assert(m.objects[id].members[i] == held(m, value)[i]);
                }
                lemma_ranked_members_are_not_too_deep(
                    m,
                    level,
                    m.objects[id],
                    0,
                    inside,
                    lists,
                    entered,
                );
            }
        },
        _ => {},
    }
}

/// Ranked values are not too deep where there is room for what was not
/// entered yet.
pub proof fn lemma_ranked_values_are_not_too_deep(
    m: Machine,
    level: spec_fn(Value) -> nat,
    items: Seq<Value>,
    separator: Seq<char>,
    depth: nat,
    first: bool,
    lists: Set<usize>,
    objects: Set<usize>,
)
    requires
        ranked(m, level),
        room_left(m, lists, objects, depth),
        forall|i: int|
            0 <= i < items.len() ==> ranked_below(m, level, #[trigger] items[i], lists, objects),
    ensures
        listed(m, items, separator, depth, first) != Err::<Seq<Piece>, Fault>(Fault::Exhausted),
    decreases depth, 2nat, items.len(),
{
    if items.len() > 0 {
        assert(ranked_below(m, level, items[0], lists, objects));
        lemma_ranked_value_is_not_too_deep(m, level, items.first(), depth, lists, objects);
        assert forall|i: int| 0 <= i < items.drop_first().len() implies ranked_below(
            m,
            level,
            #[trigger] items.drop_first()[i],
            lists,
            objects,
        ) by {
            assert(items.drop_first()[i] == items[i + 1]);
        }
        lemma_ranked_values_are_not_too_deep(
            m,
            level,
            items.drop_first(),
            separator,
            depth,
            false,
            lists,
            objects,
        );
    }
}

/// Ranked members are not too deep where there is room for what was not
/// entered yet.
pub proof fn lemma_ranked_members_are_not_too_deep(
    m: Machine,
    level: spec_fn(Value) -> nat,
    object: ObjectView,
    i: nat,
    depth: nat,
    lists: Set<usize>,
    objects: Set<usize>,
)
    requires
        ranked(m, level),
        room_left(m, lists, objects, depth),
        forall|j: int|
            0 <= j < object.members.len() ==> ranked_below(
                m,
                level,
                #[trigger] object.members[j],
                lists,
                objects,
            ),
    ensures
        membered(m, object, i, depth) != Err::<Seq<Piece>, Fault>(Fault::Exhausted),
    decreases depth, 2nat, object.descriptor.member_names.len() - i,
{
    let shape = object.descriptor;
    if i < shape.member_names.len() && i < shape.member_indices.len() && shape.member_indices[i as int]
        < object.members.len() {
        let member = object.members[shape.member_indices[i as int] as int];
        assert(ranked_below(m, level, member, lists, objects));
        lemma_ranked_value_is_not_too_deep(m, level, member, depth, lists, objects);
        lemma_ranked_members_are_not_too_deep(m, level, object, i + 1, depth, lists, objects);
    }
}

/// Values that hold no cycle are never too deep to print: where the lists
/// and objects under `values` can be ranked, each above what it holds, and
/// the machine has no more than `usize::MAX` lists and objects, the depth
/// that `print` allows is enough for them.
pub proof fn law_values_without_a_cycle_are_not_too_deep(
    m: Machine,
    level: spec_fn(Value) -> nat,
    values: Seq<Value>,
    separator: Seq<char>,
    first: bool,
)
    requires
        m.lists.dom().finite(),
        m.objects.dom().finite(),
        m.lists.dom().len() + m.objects.dom().len() <= usize::MAX,
        ranked(m, level),
        forall|i: int| 0 <= i < values.len() && is_node(m, #[trigger] values[i]) ==> level(values[i]) > 0,
    ensures
        listed(m, values, separator, print_depth(m), first) != Err::<Seq<Piece>, Fault>(
            Fault::Exhausted,
        ),
{
    lemma_ranked_values_are_not_too_deep(
        m,
        level,
        values,
        separator,
        print_depth(m),
        first,
        Set::empty(),
        Set::empty(),
    );
}

/// `print` refuses no values for their depth but such as hold themselves:
/// where the lists and objects under its arguments can be ranked, it does
/// not fail with `Exhausted`.
pub proof fn law_print_refuses_only_cycles(m: Machine, level: spec_fn(Value) -> nat)
    requires
        m.lists.dom().finite(),
        m.objects.dom().finite(),
        m.lists.dom().len() + m.objects.dom().len() <= usize::MAX,
        ranked(m, level),
        variadic_arguments(m) matches Ok(values) ==> forall|i: int|
            0 <= i < values.len() && is_node(m, #[trigger] values[i]) ==> level(values[i]) > 0,
    ensures
        variadic_arguments(m) is Ok ==> println_effect(m) != Err::<(Machine, Seq<Piece>), Fault>(
            Fault::Exhausted,
        ),
{
    if let Ok(values) = variadic_arguments(m) {
        law_values_without_a_cycle_are_not_too_deep(m, level, values, " "@, true);
    }
}

} // verus!
