use binlang::bincore::data::object::ObjectDescriptor;
use binlang::bincore::data::program_file::Program;
use binlang::bincore::data::value::Value;
use binlang::bincore::executable::machine::{Fault, FloatOperation, Outcome, Request};
use binlang::bincore::executable::runnable::Instruction;
use binlang::bincore::executable::runtime::Runtime;
use binlang::names::NameMap;

fn program(instructions: Vec<Instruction>, heap_size: usize) -> Program {
    let mut all = vec![Instruction::Nop];
    all.extend(instructions);
    Program { instructions: all, strings: vec![], heap_size, object_descriptor: vec![] }
}

fn with_strings(instructions: Vec<Instruction>, strings: Vec<&str>) -> Runtime {
    let mut all = vec![Instruction::Nop];
    all.extend(instructions);
    Program {
        instructions: all,
        strings: strings.into_iter().map(|s| s.to_string()).collect(),
        heap_size: 4,
        object_descriptor: vec![],
    }
    .into_runtime()
}

fn push(value: Value) -> Instruction {
    Instruction::Push { value }
}

fn top(runtime: &Runtime) -> Value {
    runtime.stack[runtime.stack_pointer - 1]
}

fn binary(left: Value, right: Value, op: Instruction) -> (Runtime, Outcome) {
    let mut runtime = program(vec![push(left), push(right), op], 0).into_runtime();
    let outcome = runtime.run(100);
    (runtime, outcome)
}

fn int_result(left: i64, right: i64, op: Instruction) -> Value {
    let (runtime, outcome) = binary(Value::Int(left), Value::Int(right), op);
    assert_eq!(outcome, Outcome::Halted);
    assert_eq!(runtime.stack_pointer, 1);
    top(&runtime)
}

fn fault_of(left: Value, right: Value, op: Instruction) -> Fault {
    match binary(left, right, op).1 {
        Outcome::Fault(fault) => fault,
        other => panic!("expected a fault, got {other:?}"),
    }
}

#[test]
fn add_then_store_leaves_the_sum_in_the_heap() {
    let mut runtime = program(
        vec![push(Value::Int(40)), push(Value::Int(2)), Instruction::Add, Instruction::Store { address: 0 }],
        1,
    )
    .into_runtime();
    assert_eq!(runtime.run(100), Outcome::Halted);
    assert_eq!(runtime.heap[0], Value::Int(42));
    assert_eq!(runtime.stack_pointer, 0);
}

#[test]
fn a_new_machine_starts_at_one_with_a_zeroed_heap() {
    let runtime = program(vec![], 3).into_runtime();
    assert_eq!(runtime.instruction_pointer, 1);
    assert_eq!(runtime.heap, vec![Value::Int(0); 3]);
    assert_eq!(runtime.stack_pointer, 0);
    assert_eq!(runtime.stack, vec![Value::Int(0); 1024]);
    assert!(runtime.call_stack.is_empty());
    let empty = Runtime::new();
    assert_eq!(empty.instruction_pointer, 1);
    assert_eq!(empty.stack_pointer, 0);
    assert_eq!(empty.heap.len(), 0);
    assert_eq!(empty.stack, vec![Value::Int(0); 1024]);
    assert!(empty.instructions.is_empty() && empty.strings.is_empty());
    assert!(empty.call_stack.is_empty() && empty.object_descriptor.is_empty());
    assert!(empty.objects.is_empty() && empty.lists.is_empty());
    assert!(empty.string_objects.is_empty());
    assert_eq!(empty.functions.len(), 0);
    assert_eq!(
        (empty.object_init_counter, empty.list_init_counter, empty.string_object_init_counter),
        (0, 0, 0)
    );
}

#[test]
fn the_string_arena_is_seeded_with_the_constants() {
    let runtime = with_strings(vec![], vec!["a", "bc"]);
    assert_eq!(runtime.string_object_init_counter, 2);
    assert_eq!(runtime.string_object(0).map(|s| s.as_str()), Some("a"));
    assert_eq!(runtime.string_object(1).map(|s| s.as_str()), Some("bc"));
    assert!(runtime.string_object(2).is_none());
}

#[test]
fn push_then_pop_leaves_the_stack_as_it_was() {
    let mut runtime = Runtime::new();
    runtime.stack_push(Value::Int(1));
    runtime.stack_push(Value::Bool(true));
    assert_eq!(runtime.stack_peek(0), Value::Bool(true));
    assert_eq!(runtime.stack_pointer, 2);
    assert_eq!(runtime.stack_pop(), Value::Bool(true));
    assert_eq!(runtime.stack_pointer, 1);
    assert_eq!(runtime.stack_peek(0), Value::Int(1));
}

#[test]
fn store_then_load_round_trips() {
    let mut runtime = program(
        vec![
            push(Value::Char('x')),
            Instruction::Store { address: 2 },
            Instruction::Load { address: 2 },
        ],
        3,
    )
    .into_runtime();
    assert_eq!(runtime.run(10), Outcome::Halted);
    assert_eq!(top(&runtime), Value::Char('x'));
    assert_eq!(runtime.heap[2], Value::Char('x'));
    assert_eq!(runtime.load_from_heap(2), Value::Char('x'));
}

#[test]
fn integer_arithmetic_wraps() {
    assert_eq!(int_result(2, 3, Instruction::Add), Value::Int(5));
    assert_eq!(int_result(i64::MAX, 1, Instruction::Add), Value::Int(i64::MIN));
    assert_eq!(int_result(i64::MIN, 1, Instruction::Sub), Value::Int(i64::MAX));
    assert_eq!(int_result(7, 5, Instruction::Sub), Value::Int(2));
    assert_eq!(int_result(5, 7, Instruction::Sub), Value::Int(-2));
    assert_eq!(int_result(6, 7, Instruction::Mul), Value::Int(42));
    assert_eq!(int_result(i64::MAX, 2, Instruction::Mul), Value::Int(-2));
}

#[test]
fn integer_division_truncates_toward_zero() {
    assert_eq!(int_result(7, 2, Instruction::Div), Value::Int(3));
    assert_eq!(int_result(-7, 2, Instruction::Div), Value::Int(-3));
    assert_eq!(int_result(7, -2, Instruction::Div), Value::Int(-3));
    assert_eq!(int_result(-7, -2, Instruction::Div), Value::Int(3));
    assert_eq!(int_result(7, 2, Instruction::Mod), Value::Int(1));
    assert_eq!(int_result(-7, 2, Instruction::Mod), Value::Int(-1));
    assert_eq!(int_result(7, -2, Instruction::Mod), Value::Int(1));
    assert_eq!(int_result(-7, -2, Instruction::Mod), Value::Int(-1));
    assert_eq!(int_result(i64::MIN, -1, Instruction::Mod), Value::Int(0));
}

#[test]
fn division_by_zero_is_a_fault() {
    assert_eq!(fault_of(Value::Int(1), Value::Int(0), Instruction::Div), Fault::DivisionByZero);
    assert_eq!(fault_of(Value::Int(1), Value::Int(0), Instruction::Mod), Fault::DivisionByZero);
    assert_eq!(
        fault_of(Value::Int(i64::MIN), Value::Int(-1), Instruction::Div),
        Fault::DivisionOverflow
    );
}

#[test]
fn integer_power_wraps_and_uses_the_low_bits_of_the_exponent() {
    assert_eq!(int_result(2, 10, Instruction::Pow), Value::Int(1024));
    assert_eq!(int_result(3, 0, Instruction::Pow), Value::Int(1));
    assert_eq!(int_result(2, 64, Instruction::Pow), Value::Int(0));
    assert_eq!(int_result(2, 63, Instruction::Pow), Value::Int(i64::MIN));
    assert_eq!(int_result(-3, 3, Instruction::Pow), Value::Int(-27));
    assert_eq!(int_result(5, 0x1_0000_0002, Instruction::Pow), Value::Int(25));
    assert_eq!(int_result(7, -1, Instruction::Pow), Value::Int(7i64.wrapping_pow(u32::MAX)));
}

#[test]
fn integer_comparisons() {
    assert_eq!(int_result(1, 2, Instruction::Lt), Value::Bool(true));
    assert_eq!(int_result(2, 2, Instruction::Lt), Value::Bool(false));
    assert_eq!(int_result(3, 2, Instruction::Gt), Value::Bool(true));
    assert_eq!(int_result(2, 2, Instruction::Gte), Value::Bool(true));
    assert_eq!(int_result(1, 2, Instruction::Gte), Value::Bool(false));
    assert_eq!(int_result(2, 2, Instruction::Lte), Value::Bool(true));
    assert_eq!(int_result(3, 2, Instruction::Lte), Value::Bool(false));
    assert_eq!(int_result(3, 3, Instruction::Eq), Value::Bool(true));
    assert_eq!(int_result(3, 4, Instruction::Eq), Value::Bool(false));
    assert_eq!(int_result(3, 4, Instruction::Neq), Value::Bool(true));
}

#[test]
fn float_comparisons_are_made_by_the_machine() {
    let f = |x: f64| Value::Float(x.to_bits());
    let (runtime, outcome) = binary(f(1.5), f(2.5), Instruction::Lt);
    assert_eq!(outcome, Outcome::Halted);
    assert_eq!(top(&runtime), Value::Bool(true));
    let (runtime, _) = binary(f(1.5), f(2.5), Instruction::Gt);
    assert_eq!(top(&runtime), Value::Bool(false));
    let (runtime, _) = binary(f(2.5), f(2.5), Instruction::Gte);
    assert_eq!(top(&runtime), Value::Bool(true));
    let (runtime, _) = binary(f(0.0), f(-0.0), Instruction::Eq);
    assert_eq!(top(&runtime), Value::Bool(true));
    let (runtime, _) = binary(f(f64::NAN), f(f64::NAN), Instruction::Eq);
    assert_eq!(top(&runtime), Value::Bool(false));
    let (runtime, _) = binary(f(f64::NAN), f(f64::NAN), Instruction::Neq);
    assert_eq!(top(&runtime), Value::Bool(true));
}

#[test]
fn float_arithmetic_is_asked_of_the_host() {
    let left = 1.5f64.to_bits();
    let right = 2.25f64.to_bits();
    let mut runtime = program(
        vec![push(Value::Float(left)), push(Value::Float(right)), Instruction::Sub, Instruction::Nop],
        0,
    )
    .into_runtime();
    let outcome = runtime.run(100);
    assert_eq!(
        outcome,
        Outcome::Request(Request::Float { operation: FloatOperation::Sub, left, right })
    );
    assert_eq!(runtime.stack_pointer, 0);
    assert_eq!(runtime.instruction_pointer, 4);
    runtime.stack_push(Value::Float((1.5f64 - 2.25f64).to_bits()));
    assert_eq!(runtime.run(100), Outcome::Halted);
    assert_eq!(top(&runtime), Value::Float((-0.75f64).to_bits()));
}

#[test]
fn mixed_operands_are_a_type_mismatch() {
    assert_eq!(fault_of(Value::Int(1), Value::Float(0), Instruction::Add), Fault::TypeMismatch);
    assert_eq!(fault_of(Value::Int(1), Value::Bool(true), Instruction::Lt), Fault::TypeMismatch);
    assert_eq!(fault_of(Value::Int(1), Value::Char('a'), Instruction::Eq), Fault::TypeMismatch);
    assert_eq!(fault_of(Value::Int(1), Value::Int(1), Instruction::And), Fault::TypeMismatch);
    assert_eq!(fault_of(Value::Char('a'), Value::Char('b'), Instruction::Sub), Fault::TypeMismatch);
    assert_eq!(
        fault_of(Value::ObjectRef(0), Value::ObjectRef(0), Instruction::Eq),
        Fault::TypeMismatch
    );
}

#[test]
fn a_fault_leaves_the_machine_on_the_instruction() {
    let mut runtime =
        program(vec![push(Value::Int(1)), Instruction::Add, Instruction::Nop], 0).into_runtime();
    assert_eq!(runtime.run(100), Outcome::Fault(Fault::StackUnderflow));
    assert_eq!(runtime.instruction_pointer, 2);
    assert_eq!(runtime.stack_pointer, 1);
    assert_eq!(runtime.fault(Instruction::Add), Some(Fault::StackUnderflow));
    assert_eq!(runtime.fault(Instruction::Not), Some(Fault::TypeMismatch));
    assert_eq!(runtime.fault(Instruction::Nop), None);
}

#[test]
fn pop_from_an_empty_stack_is_an_underflow() {
    for op in [
        Instruction::Store { address: 0 },
        Instruction::Not,
        Instruction::JumpIfTrue { address: 1 },
        Instruction::JumpIfFalse { address: 1 },
        Instruction::AccessMember { index: 0 },
        Instruction::SetMember { index: 0 },
        Instruction::Add,
        Instruction::Eq,
    ] {
        let mut runtime = program(vec![op], 1).into_runtime();
        assert_eq!(runtime.run(10), Outcome::Fault(Fault::StackUnderflow), "{op:?}");
    }
}

#[test]
fn load_and_store_beyond_the_heap_are_faults() {
    let mut runtime = program(vec![Instruction::Load { address: 1 }], 1).into_runtime();
    assert_eq!(runtime.run(10), Outcome::Fault(Fault::HeapMiss));
    let mut runtime =
        program(vec![push(Value::Int(1)), Instruction::Store { address: 1 }], 1).into_runtime();
    assert_eq!(runtime.run(10), Outcome::Fault(Fault::HeapMiss));
}

#[test]
fn booleans() {
    let b = Value::Bool;
    assert_eq!(top(&binary(b(true), b(false), Instruction::And).0), b(false));
    assert_eq!(top(&binary(b(true), b(true), Instruction::And).0), b(true));
    assert_eq!(top(&binary(b(true), b(false), Instruction::Or).0), b(true));
    assert_eq!(top(&binary(b(false), b(false), Instruction::Or).0), b(false));
    assert_eq!(top(&binary(b(true), b(false), Instruction::Eq).0), b(false));
    assert_eq!(top(&binary(b(true), b(false), Instruction::Neq).0), b(true));
    let mut runtime = program(vec![push(b(true)), Instruction::Not], 0).into_runtime();
    assert_eq!(runtime.run(10), Outcome::Halted);
    assert_eq!(top(&runtime), b(false));
}

#[test]
fn add_on_characters_and_strings_makes_a_new_string() {
    let mut runtime = with_strings(
        vec![
            push(Value::StrRef(0)),
            push(Value::StrRef(1)),
            Instruction::Add,
            push(Value::Char('!')),
            Instruction::Add,
            push(Value::Char('<')),
            Instruction::Load { address: 0 },
            Instruction::Add,
        ],
        vec!["ab", "cd"],
    );
    runtime.heap[0] = Value::StrRef(1);
    assert_eq!(runtime.run(100), Outcome::Halted);
    assert_eq!(runtime.string_object(2).map(|s| s.as_str()), Some("abcd"));
    assert_eq!(runtime.string_object(3).map(|s| s.as_str()), Some("abcd!"));
    assert_eq!(runtime.string_object(4).map(|s| s.as_str()), Some("<cd"));
    assert_eq!(runtime.string_object_init_counter, 5);
    assert_eq!(top(&runtime), Value::StrRef(4));
    assert_eq!(runtime.stack[0], Value::StrRef(3));
    assert_eq!(runtime.string_object(0).map(|s| s.as_str()), Some("ab"));
}

#[test]
fn add_on_two_characters() {
    let (runtime, outcome) = binary(Value::Char('a'), Value::Char('b'), Instruction::Add);
    assert_eq!(outcome, Outcome::Halted);
    assert_eq!(top(&runtime), Value::StrRef(0));
    assert_eq!(runtime.string_object(0).map(|s| s.as_str()), Some("ab"));
}

#[test]
fn string_concatenation_is_ordered() {
    let mut forward =
        with_strings(vec![push(Value::StrRef(0)), push(Value::StrRef(1)), Instruction::Add], vec!["a", "b"]);
    let mut backward =
        with_strings(vec![push(Value::StrRef(1)), push(Value::StrRef(0)), Instruction::Add], vec!["a", "b"]);
    assert_eq!(forward.run(10), Outcome::Halted);
    assert_eq!(backward.run(10), Outcome::Halted);
    assert_eq!(forward.string_object(2).map(|s| s.as_str()), Some("ab"));
    assert_eq!(backward.string_object(2).map(|s| s.as_str()), Some("ba"));
}

#[test]
fn integer_addition_commutes() {
    for (a, b) in [(1, 2), (-5, 7), (i64::MAX, 1), (i64::MIN, -1), (0, 0)] {
        assert_eq!(int_result(a, b, Instruction::Add), int_result(b, a, Instruction::Add));
    }
}

#[test]
fn strings_compare_by_content() {
    let mut runtime = with_strings(
        vec![
            push(Value::StrRef(0)),
            push(Value::StrRef(1)),
            Instruction::Add,
            push(Value::StrRef(2)),
            Instruction::Eq,
        ],
        vec!["a", "b", "ab"],
    );
    assert_eq!(runtime.run(100), Outcome::Halted);
    assert_eq!(top(&runtime), Value::Bool(true));
    let mut runtime =
        with_strings(vec![push(Value::StrRef(0)), push(Value::StrRef(1)), Instruction::Neq], vec!["a", "b"]);
    assert_eq!(runtime.run(100), Outcome::Halted);
    assert_eq!(top(&runtime), Value::Bool(true));
}

#[test]
fn a_string_equals_a_character_if_it_is_that_character() {
    let cases = [
        (Value::StrRef(0), Value::Char('a'), true),
        (Value::Char('a'), Value::StrRef(0), true),
        (Value::StrRef(0), Value::Char('b'), false),
        (Value::StrRef(1), Value::Char('a'), false),
        (Value::Char('a'), Value::Char('a'), true),
    ];
    for (left, right, same) in cases {
        let mut runtime = with_strings(vec![push(left), push(right), Instruction::Eq], vec!["a", "ab"]);
        assert_eq!(runtime.run(10), Outcome::Halted);
        assert_eq!(top(&runtime), Value::Bool(same));
        let mut runtime = with_strings(vec![push(left), push(right), Instruction::Neq], vec!["a", "ab"]);
        assert_eq!(runtime.run(10), Outcome::Halted);
        assert_eq!(top(&runtime), Value::Bool(!same));
    }
}

#[test]
fn a_missing_string_is_an_arena_miss() {
    assert_eq!(
        fault_of(Value::StrRef(5), Value::StrRef(6), Instruction::Add),
        Fault::ArenaMiss
    );
    assert_eq!(fault_of(Value::StrRef(5), Value::Char('a'), Instruction::Eq), Fault::ArenaMiss);
    assert_eq!(
        fault_of(Value::ListRef(0), Value::ListRef(0), Instruction::Eq),
        Fault::ArenaMiss
    );
}

#[test]
fn add_on_lists_makes_a_new_list() {
    let mut runtime =
        program(vec![push(Value::ListRef(0)), push(Value::ListRef(1)), Instruction::Add], 0)
            .into_runtime();
    runtime.lists.insert(0, vec![Value::Int(1), Value::Int(2)]);
    runtime.lists.insert(1, vec![Value::Int(3)]);
    runtime.list_init_counter = 2;
    assert_eq!(runtime.run(10), Outcome::Halted);
    assert_eq!(top(&runtime), Value::ListRef(2));
    assert_eq!(runtime.list(2), Some(&vec![Value::Int(1), Value::Int(2), Value::Int(3)]));
    assert_eq!(runtime.list(0), Some(&vec![Value::Int(1), Value::Int(2)]));
    assert_eq!(runtime.list_init_counter, 3);
}

#[test]
fn lists_compare_element_by_element() {
    let run = |left: Vec<Value>, right: Vec<Value>| {
        let mut runtime =
            program(vec![push(Value::ListRef(0)), push(Value::ListRef(1)), Instruction::Eq], 0)
                .into_runtime();
        runtime.lists.insert(0, left);
        runtime.lists.insert(1, right);
        assert_eq!(runtime.run(10), Outcome::Halted);
        top(&runtime)
    };
    assert_eq!(run(vec![Value::Int(1)], vec![Value::Int(1)]), Value::Bool(true));
    assert_eq!(run(vec![Value::Int(1)], vec![Value::Int(2)]), Value::Bool(false));
    assert_eq!(run(vec![Value::Int(1)], vec![]), Value::Bool(false));
    assert_eq!(run(vec![], vec![]), Value::Bool(true));
    assert_eq!(run(vec![Value::Int(1)], vec![Value::Bool(true)]), Value::Bool(false));
    assert_eq!(
        run(vec![Value::Float(0.0f64.to_bits())], vec![Value::Float((-0.0f64).to_bits())]),
        Value::Bool(true)
    );
    assert_eq!(
        run(vec![Value::Float(f64::NAN.to_bits())], vec![Value::Float(f64::NAN.to_bits())]),
        Value::Bool(false)
    );
}

#[test]
fn jumps() {
    let mut runtime = program(
        vec![
            Instruction::Jump { address: 3 },
            push(Value::Int(1)),
            push(Value::Int(2)),
        ],
        0,
    )
    .into_runtime();
    assert_eq!(runtime.run(10), Outcome::Halted);
    assert_eq!(runtime.stack_pointer, 1);
    assert_eq!(top(&runtime), Value::Int(2));
}

#[test]
fn conditional_jumps_pop_their_condition() {
    for (condition, op_true, expected) in
        [(true, true, 20), (false, true, 10), (true, false, 10), (false, false, 20)]
    {
        let jump = if op_true {
            Instruction::JumpIfTrue { address: 4 }
        } else {
            Instruction::JumpIfFalse { address: 4 }
        };
        let mut runtime = program(
            vec![
                push(Value::Bool(condition)),
                jump,
                push(Value::Int(10)),
                push(Value::Int(20)),
                Instruction::Nop,
            ],
            0,
        )
        .into_runtime();
        assert_eq!(runtime.run(3), Outcome::Suspended);
        assert_eq!(top(&runtime), Value::Int(expected));
        assert_eq!(runtime.stack_pointer, 1);
    }
    let mut runtime =
        program(vec![push(Value::Int(0)), Instruction::JumpIfFalse { address: 1 }], 0).into_runtime();
    assert_eq!(runtime.run(10), Outcome::Fault(Fault::TypeMismatch));
}

#[test]
fn call_and_ret_resume_after_the_call() {
    let mut runtime = program(
        vec![
            Instruction::Call { address: 4 },
            push(Value::Int(2)),
            Instruction::Jump { address: 6 },
            push(Value::Int(1)),
            Instruction::Ret,
        ],
        0,
    )
    .into_runtime();
    assert_eq!(runtime.run(1), Outcome::Suspended);
    assert_eq!(runtime.call_stack, vec![2]);
    assert_eq!(runtime.instruction_pointer, 4);
    assert_eq!(runtime.run(2), Outcome::Suspended);
    assert_eq!(runtime.instruction_pointer, 2);
    assert!(runtime.call_stack.is_empty());
    assert_eq!(runtime.run(100), Outcome::Halted);
    assert_eq!(runtime.stack[0], Value::Int(1));
    assert_eq!(runtime.stack[1], Value::Int(2));
    assert_eq!(runtime.stack_pointer, 2);
}

#[test]
fn ret_with_an_empty_call_stack_is_a_fault() {
    let mut runtime = program(vec![Instruction::Ret], 0).into_runtime();
    assert_eq!(runtime.run(10), Outcome::Fault(Fault::EmptyCallStack));
}

#[test]
fn the_budget_bounds_the_run() {
    let mut runtime = program(vec![Instruction::Jump { address: 1 }], 0).into_runtime();
    assert_eq!(runtime.run(1000), Outcome::Suspended);
    assert_eq!(runtime.run(0), Outcome::Suspended);
    let mut done = program(vec![], 0).into_runtime();
    assert_eq!(done.run(0), Outcome::Halted);
}

#[test]
fn extern_call_asks_the_host_for_the_registered_function() {
    let mut runtime = with_strings(
        vec![Instruction::ExternCall { string_id: 1 }, push(Value::Int(1))],
        vec!["print", "len"],
    );
    runtime.register_function("len".to_string(), 7);
    assert_eq!(runtime.run(10), Outcome::Request(Request::Extern { function: 7 }));
    assert_eq!(runtime.instruction_pointer, 2);
    assert_eq!(runtime.run(10), Outcome::Halted);
    assert_eq!(top(&runtime), Value::Int(1));
}

#[test]
fn extern_call_on_an_unknown_name_is_a_fault() {
    let mut runtime = with_strings(
        vec![Instruction::ExternCall { string_id: 0 }],
        vec!["print"],
    );
    assert_eq!(runtime.run(10), Outcome::Fault(Fault::UnknownFunction));
    let mut runtime = with_strings(vec![Instruction::ExternCall { string_id: 3 }], vec!["print"]);
    assert_eq!(runtime.run(10), Outcome::Fault(Fault::StringMiss));
}

#[test]
fn registering_a_name_again_replaces_the_handle() {
    let mut runtime = with_strings(vec![Instruction::ExternCall { string_id: 0 }], vec!["f"]);
    runtime.register_function("f".to_string(), 1);
    runtime.register_function("f".to_string(), 2);
    assert_eq!(runtime.run(10), Outcome::Request(Request::Extern { function: 2 }));
}

fn point() -> ObjectDescriptor {
    let mut members: NameMap<usize> = NameMap::new();
    members.insert("x".to_string(), 0);
    members.insert("y".to_string(), 1);
    ObjectDescriptor {
        name: "Point".to_string(),
        members,
        members_by_index: vec!["x".to_string(), "y".to_string()],
    }
}

fn object_program(instructions: Vec<Instruction>) -> Runtime {
    let mut all = vec![Instruction::Nop];
    all.extend(instructions);
    Program { instructions: all, strings: vec![], heap_size: 1, object_descriptor: vec![point()] }
        .into_runtime()
}

#[test]
fn create_object_takes_the_top_of_the_stack_as_member_zero() {
    let mut runtime = object_program(vec![
        push(Value::Int(9)),
        push(Value::Int(2)),
        push(Value::Int(1)),
        Instruction::CreateObject { descriptor: 0 },
    ]);
    assert_eq!(runtime.run(10), Outcome::Halted);
    assert_eq!(top(&runtime), Value::ObjectRef(0));
    assert_eq!(runtime.stack_pointer, 2);
    assert_eq!(runtime.stack[0], Value::Int(9));
    let object = runtime.object(0).unwrap();
    assert_eq!(object.members, vec![Value::Int(1), Value::Int(2)]);
    assert_eq!(object.descriptor.name, "Point");
    assert_eq!(runtime.object_init_counter, 1);
}

#[test]
fn access_member_and_set_member() {
    let mut runtime = object_program(vec![
        push(Value::Int(2)),
        push(Value::Int(1)),
        Instruction::CreateObject { descriptor: 0 },
        Instruction::Store { address: 0 },
        Instruction::Load { address: 0 },
        push(Value::Int(7)),
        Instruction::SetMember { index: 1 },
        Instruction::Load { address: 0 },
        Instruction::AccessMember { index: 1 },
        Instruction::Load { address: 0 },
        Instruction::AccessMember { index: 0 },
    ]);
    assert_eq!(runtime.run(100), Outcome::Halted);
    assert_eq!(runtime.stack_pointer, 2);
    assert_eq!(runtime.stack[0], Value::Int(7));
    assert_eq!(runtime.stack[1], Value::Int(1));
}

#[test]
fn object_faults() {
    let mut runtime = object_program(vec![Instruction::CreateObject { descriptor: 1 }]);
    assert_eq!(runtime.run(10), Outcome::Fault(Fault::DescriptorMiss));
    let mut runtime =
        object_program(vec![push(Value::Int(1)), Instruction::CreateObject { descriptor: 0 }]);
    assert_eq!(runtime.run(10), Outcome::Fault(Fault::StackUnderflow));
    let mut runtime =
        object_program(vec![push(Value::Int(1)), Instruction::AccessMember { index: 0 }]);
    assert_eq!(runtime.run(10), Outcome::Fault(Fault::TypeMismatch));
    let mut runtime =
        object_program(vec![push(Value::ObjectRef(3)), Instruction::AccessMember { index: 0 }]);
    assert_eq!(runtime.run(10), Outcome::Fault(Fault::ArenaMiss));
    let mut runtime = object_program(vec![
        push(Value::Int(2)),
        push(Value::Int(1)),
        Instruction::CreateObject { descriptor: 0 },
        Instruction::AccessMember { index: 2 },
    ]);
    assert_eq!(runtime.run(10), Outcome::Fault(Fault::MemberMiss));
    let mut runtime = object_program(vec![
        push(Value::Int(2)),
        push(Value::Int(1)),
        Instruction::CreateObject { descriptor: 0 },
        push(Value::Int(5)),
        Instruction::SetMember { index: 2 },
    ]);
    assert_eq!(runtime.run(10), Outcome::Fault(Fault::MemberMiss));
}

#[test]
fn arena_ids_are_never_reused() {
    let mut runtime = with_strings(
        vec![
            push(Value::Char('a')),
            push(Value::Char('b')),
            Instruction::Add,
            push(Value::Char('c')),
            Instruction::Add,
            push(Value::Char('d')),
            Instruction::Add,
        ],
        vec!["seed"],
    );
    let mut seen = vec![];
    loop {
        let before = runtime.string_object_init_counter;
        let outcome = runtime.run(1);
        assert!(runtime.string_object_init_counter >= before);
        if runtime.string_object_init_counter > before {
            assert_eq!(runtime.string_object_init_counter, before + 1);
            assert_eq!(top(&runtime), Value::StrRef(before));
            assert!(!seen.contains(&before));
            seen.push(before);
        }
        if outcome == Outcome::Halted {
            break;
        }
    }
    assert_eq!(seen, vec![1, 2, 3]);
    assert_eq!(runtime.string_object(3).map(|s| s.as_str()), Some("abcd"));
}

#[test]
fn the_stack_grows_when_it_is_nearly_full() {
    let mut code = vec![];
    for i in 0..2000 {
        code.push(push(Value::Int(i)));
    }
    let mut runtime = program(code, 0).into_runtime();
    assert_eq!(runtime.run(1013), Outcome::Suspended);
    assert_eq!(runtime.stack.len(), 1024);
    assert_eq!(runtime.run(2), Outcome::Suspended);
    assert_eq!(runtime.stack_pointer, 1015);
    assert_eq!(runtime.stack.len(), 2048);
    assert_eq!(runtime.run(10_000), Outcome::Halted);
    assert_eq!(runtime.stack_pointer, 2000);
    assert_eq!(top(&runtime), Value::Int(1999));
    assert_eq!(runtime.stack[0], Value::Int(0));
}

#[test]
fn value_accessors() {
    assert_eq!(Value::Int(3).as_int(), Some(3));
    assert_eq!(Value::Bool(true).as_int(), None);
    assert_eq!(Value::Float(9).as_float(), Some(9));
    assert_eq!(Value::Int(9).as_float(), None);
    assert_eq!(Value::StrRef(2).as_str(), Some(&2));
    assert_eq!(Value::ListRef(2).as_str(), None);
    assert_eq!(Value::Bool(false).as_bool(), Some(false));
    assert_eq!(Value::ListRef(4).as_list_ref(), Some(4));
    assert_eq!(Value::ObjectRef(5).as_object_ref(), Some(&5));
    assert_eq!(Value::Char('c').as_char(), Some('c'));
    assert!(Value::ObjectRef(0).is_object_ref());
    assert!(!Value::ListRef(0).is_object_ref());
}

#[test]
fn new_string_hands_out_the_next_id() {
    let mut runtime = with_strings(vec![], vec!["a"]);
    assert_eq!(runtime.new_string("x".to_string()), Value::StrRef(1));
    assert_eq!(runtime.new_string("y".to_string()), Value::StrRef(2));
    assert_eq!(runtime.string_object(2).map(|s| s.as_str()), Some("y"));
}

#[test]
fn a_fault_is_diagnosed_with_its_instruction_and_operands() {
    let mut runtime = program(
        vec![push(Value::Int(1)), push(Value::Bool(true)), push(Value::Char('c')), Instruction::Add],
        0,
    )
    .into_runtime();
    let fault = match runtime.run(10) {
        Outcome::Fault(fault) => fault,
        other => panic!("unexpected {other:?}"),
    };
    let diagnostic = runtime.diagnose(fault);
    assert_eq!(diagnostic.fault, Fault::TypeMismatch);
    assert_eq!(diagnostic.index, 4);
    assert_eq!(diagnostic.instruction, Instruction::Add);
    assert_eq!(diagnostic.operands, vec![Value::Char('c'), Value::Bool(true)]);
    let mut runtime = program(vec![push(Value::Int(1)), Instruction::Mul], 0).into_runtime();
    assert_eq!(runtime.run(10), Outcome::Fault(Fault::StackUnderflow));
    let diagnostic = runtime.diagnose(Fault::StackUnderflow);
    assert_eq!(diagnostic.index, 2);
    assert_eq!(diagnostic.operands, vec![Value::Int(1)]);
}

#[test]
fn step_executes_or_says_why_not() {
    let mut runtime = with_strings(vec![], vec!["a"]);
    assert_eq!(runtime.step(Instruction::Add), Err(Fault::StackUnderflow));
    assert_eq!(runtime.step(push(Value::StrRef(0))), Ok(None));
    assert_eq!(runtime.step(push(Value::Int(1))), Ok(None));
    assert_eq!(runtime.step(Instruction::Add), Err(Fault::TypeMismatch));
    assert_eq!(runtime.stack_pointer, 2);
    assert_eq!(runtime.step(Instruction::Store { address: 9 }), Err(Fault::HeapMiss));
    assert_eq!(runtime.stack_pointer, 2);
    assert_eq!(runtime.step(Instruction::Store { address: 0 }), Ok(None));
    assert_eq!(runtime.step(push(Value::Char('b'))), Ok(None));
    assert_eq!(runtime.step(Instruction::Add), Ok(None));
    assert_eq!(top(&runtime), Value::StrRef(1));
    assert_eq!(runtime.string_object(1).map(|s| s.as_str()), Some("ab"));
    assert_eq!(runtime.execute(push(Value::Float(1))), None);
    assert_eq!(runtime.execute(push(Value::Float(2))), None);
    assert_eq!(
        runtime.execute(Instruction::Pow),
        Some(Request::Float { operation: FloatOperation::Pow, left: 1, right: 2 })
    );
    assert_eq!(runtime.stack_pointer, 1);
}

#[test]
fn a_popped_slot_keeps_its_value() {
    let mut runtime = Runtime::new();
    runtime.stack_push(Value::Int(7));
    runtime.stack_push(Value::Bool(true));
    assert_eq!(runtime.stack_pointer, 2);
    assert_eq!(runtime.stack_pop(), Value::Bool(true));
    assert_eq!(runtime.stack_pointer, 1);
    let mut expected = vec![Value::Int(0); 1024];
    expected[0] = Value::Int(7);
    expected[1] = Value::Bool(true);
    assert_eq!(runtime.stack, expected);
}
