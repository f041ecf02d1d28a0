//! What holds of the machine in every state.

use vstd::prelude::*;
use crate::bincore::data::value::Value;
use crate::bincore::executable::machine::Machine;
use crate::bincore::executable::runnable::Instruction;

verus! {

/// A value that is pushed is on top of the operand stack, and popping it
/// again leaves the stack as it was before the push.
pub proof fn law_push_then_pop(m: Machine, value: Value)
    ensures
        m.pushed(value).peek(0) == value,
        m.pushed(value).popped(1) == m,
        m.after(Instruction::Push { value }).peek(0) == value,
        m.after(Instruction::Push { value }).popped(1).stack == m.stack,
{
    assert(m.pushed(value).popped(1).stack =~= m.stack);
    assert(m.after(Instruction::Push { value }).popped(1).stack =~= m.stack);
}

/// `Store` into a slot and then `Load` from it hands back the value that was
/// stored: the operand stack is as it was before the `Store`.
pub proof fn law_store_then_load(m: Machine, address: usize)
    requires
        m.stack.len() > 0,
        address < m.heap.len(),
    ensures
        m.after(Instruction::Store { address }).heap[address as int] == m.peek(0),
        m.after(Instruction::Store { address }).after(Instruction::Load { address }).stack
            == m.stack,
{
    let stored = m.after(Instruction::Store { address });
    assert(stored.after(Instruction::Load { address }).stack =~= m.stack);
}

/// A `Load` hands back what the last `Store` into the slot put there, however
/// much has happened in between, as long as the slot was not written again.
pub proof fn law_load_after_store(m: Machine, later: Machine, address: usize)
    requires
        m.stack.len() > 0,
        address < m.heap.len(),
        later.heap.len() == m.heap.len(),
        later.heap[address as int] == m.after(Instruction::Store { address }).heap[address as int],
    ensures
        later.after(Instruction::Load { address }).peek(0) == m.peek(0),
{
}

/// A `Call` leaves the index of the instruction after it on the call stack,
/// and a `Ret` that finds the call stack as the `Call` left it resumes there,
/// with the call stack as it was before the `Call`.
pub proof fn law_call_then_ret(m: Machine, later: Machine, address: usize)
    requires
        0 <= m.ip < usize::MAX,
        m.instructions[m.ip] == (Instruction::Call { address }),
        later.calls == m.fetched().after(Instruction::Call { address }).calls,
    ensures
        m.fetched().after(Instruction::Call { address }).ip == address,
        m.fetched().after(Instruction::Call { address }).calls == m.calls.push(
            (m.ip + 1) as usize,
        ),
        later.after(Instruction::Ret).ip == m.ip + 1,
        later.after(Instruction::Ret).calls == m.calls,
{
    assert(later.after(Instruction::Ret).calls =~= m.calls);
}

/// `Add` on two integers does not depend on their order.
pub proof fn law_add_commutes(m: Machine, a: i64, b: i64)
    ensures
        m.binary(Instruction::Add, Value::Int(a), Value::Int(b)) == m.binary(
            Instruction::Add,
            Value::Int(b),
            Value::Int(a),
        ),
{
}

/// The arena counters are in the range of ids.
pub open spec fn counters_in_range(m: Machine) -> bool {
    &&& 0 <= m.next_string <= usize::MAX
    &&& 0 <= m.next_list <= usize::MAX
    &&& 0 <= m.next_object <= usize::MAX
}

/// `after` has every arena entry that `before` has, no counter of `after` is
/// below that of `before`, and every entry that is new sits at an id from the
/// counter of `before` on.
pub open spec fn arenas_grown(before: Machine, after: Machine) -> bool {
    &&& before.next_string <= after.next_string
    &&& before.next_list <= after.next_list
    &&& before.next_object <= after.next_object
    &&& before.string_objects.dom().subset_of(after.string_objects.dom())
    &&& before.lists.dom().subset_of(after.lists.dom())
    &&& before.objects.dom().subset_of(after.objects.dom())
    &&& forall|id: usize|
        after.string_objects.contains_key(id) && !before.string_objects.contains_key(id)
            ==> before.next_string <= id < after.next_string
    &&& forall|id: usize|
        after.lists.contains_key(id) && !before.lists.contains_key(id) ==> before.next_list
            <= id < after.next_list
    &&& forall|id: usize|
        after.objects.contains_key(id) && !before.objects.contains_key(id)
            ==> before.next_object <= id < after.next_object
}

/// An instruction hands out ids in increasing order and takes none back: each
/// counter stays or goes up by one, and a new entry gets the id that the
/// counter had.
pub proof fn law_arena_ids_grow(m: Machine, instruction: Instruction)
    requires
        counters_in_range(m),
        m.fault(instruction) is None,
    ensures
        counters_in_range(m.after(instruction)),
        arenas_grown(m, m.after(instruction)),
        m.after(instruction).next_string <= m.next_string + 1,
        m.after(instruction).next_list <= m.next_list + 1,
        m.after(instruction).next_object <= m.next_object + 1,
{
}

/// Over a whole run ids are handed out in increasing order and none is used
/// twice: what was in an arena stays, and what is new has an id that no
/// earlier entry could have had.
pub proof fn law_run_arena_ids_grow(m: Machine, budget: nat)
    requires
        counters_in_range(m),
    ensures
        counters_in_range(m.run(budget).0),
        arenas_grown(m, m.run(budget).0),
    decreases budget,
{
    if !m.halted() && budget > 0 {
        let instruction = m.instructions[m.ip];
        let fetched = m.fetched();
        if fetched.fault(instruction) is None {
            law_arena_ids_grow(fetched, instruction);
            if fetched.request(instruction) is None {
                law_run_arena_ids_grow(fetched.after(instruction), (budget - 1) as nat);
            }
        }
    }
}

/// Two strings made one after the other have different ids, the later the
/// greater.
pub proof fn law_fresh_string_ids(m: Machine, first: Seq<char>, second: Seq<char>)
    requires
        0 <= m.next_string < usize::MAX - 1,
    ensures
        m.with_string(first).with_string(second).next_string == m.next_string + 2,
        m.with_string(first).with_string(second).string_objects[m.next_string as usize]
            == first,
        m.with_string(first).with_string(second).string_objects[(m.next_string + 1) as usize]
            == second,
{
}

/// Every id in use is one that was handed out: it is below the counter of
/// its arena.
pub open spec fn ids_handed_out(m: Machine) -> bool {
    &&& forall|id: usize| m.string_objects.contains_key(id) ==> id < m.next_string
    &&& forall|id: usize| m.lists.contains_key(id) ==> id < m.next_list
    &&& forall|id: usize| m.objects.contains_key(id) ==> id < m.next_object
}

/// No id is used twice: an instruction that makes a string, a list or an
/// object gives it an id that nothing has, so that every string and every
/// list that was there is still there, unchanged, under its id.
pub proof fn law_ids_are_not_reused(m: Machine, instruction: Instruction)
    requires
        counters_in_range(m),
        ids_handed_out(m),
        m.fault(instruction) is None,
    ensures
        ids_handed_out(m.after(instruction)),
        forall|id: usize|
            m.string_objects.contains_key(id) ==> m.after(instruction).string_objects[id]
                == m.string_objects[id],
        forall|id: usize|
            m.lists.contains_key(id) ==> m.after(instruction).lists[id] == m.lists[id],
        forall|id: usize|
            m.objects.contains_key(id) ==> m.after(instruction).objects[id].descriptor
                == m.objects[id].descriptor,
{
}

/// Over a whole run no id is used twice.
pub proof fn law_run_does_not_reuse_ids(m: Machine, budget: nat)
    requires
        counters_in_range(m),
        ids_handed_out(m),
    ensures
        ids_handed_out(m.run(budget).0),
        forall|id: usize|
            m.string_objects.contains_key(id) ==> m.run(budget).0.string_objects[id]
                == m.string_objects[id],
        forall|id: usize| m.lists.contains_key(id) ==> m.run(budget).0.lists[id] == m.lists[id],
    decreases budget,
{
    if !m.halted() && budget > 0 {
        let instruction = m.instructions[m.ip];
        let fetched = m.fetched();
        if fetched.fault(instruction) is None {
            law_ids_are_not_reused(fetched, instruction);
            law_arena_ids_grow(fetched, instruction);
            if fetched.request(instruction) is None {
                law_run_does_not_reuse_ids(fetched.after(instruction), (budget - 1) as nat);
            }
        }
    }
}

} // verus!
