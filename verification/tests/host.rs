use binlang::bincore::data::object::ObjectDescriptor;
use binlang::bincore::data::program_file::Program;
use binlang::bincore::data::value::Value;
use binlang::bincore::executable::machine::{Fault, Outcome};
use binlang::bincore::executable::runnable::Instruction;
use binlang::bincore::executable::runtime::Runtime;
use binlang::binrunner::{
    call, depth_of, index_get, index_set, len, new_list, new_list_with_default_values,
    new_list_with_values, pop, push, register, value_into_printable, Fragment, INDEX_GET,
    LEN, NEW_LIST, PRINT,
};
use binlang::names::NameMap;

fn machine(strings: Vec<&str>) -> Runtime {
    Program {
        instructions: vec![Instruction::Nop],
        strings: strings.into_iter().map(|s| s.to_string()).collect(),
        heap_size: 0,
        object_descriptor: vec![],
    }
    .into_runtime()
}

fn stack(runtime: &Runtime) -> Vec<Value> {
    runtime.stack[..runtime.stack_pointer].to_vec()
}

fn render(line: Vec<Fragment>) -> String {
    line.into_iter()
        .map(|fragment| match fragment {
            Fragment::Text(text) => text,
            Fragment::Float(bits) => f64::from_bits(bits).to_string(),
        })
        .collect()
}

fn shown(runtime: &Runtime, value: Value) -> String {
    render(value_into_printable(value, runtime, depth_of(runtime)).unwrap())
}

#[test]
fn scalars_are_printed_as_written() {
    let runtime = machine(vec!["hello"]);
    assert_eq!(shown(&runtime, Value::Int(0)), "0");
    assert_eq!(shown(&runtime, Value::Int(-12)), "-12");
    assert_eq!(shown(&runtime, Value::Int(i64::MIN)), "-9223372036854775808");
    assert_eq!(shown(&runtime, Value::Int(i64::MAX)), "9223372036854775807");
    assert_eq!(shown(&runtime, Value::Bool(true)), "true");
    assert_eq!(shown(&runtime, Value::Bool(false)), "false");
    assert_eq!(shown(&runtime, Value::Char('x')), "x");
    assert_eq!(shown(&runtime, Value::StrRef(0)), "hello");
    assert_eq!(shown(&runtime, Value::Float(2.5f64.to_bits())), "2.5");
    assert_eq!(
        value_into_printable(Value::Float(7), &runtime, 0).unwrap(),
        vec![Fragment::Float(7)]
    );
}

#[test]
fn lists_are_printed_between_brackets() {
    let mut runtime = machine(vec!["s"]);
    let inner = runtime.allocate_list(vec![Value::Int(2), Value::StrRef(0)]);
    let outer = runtime.allocate_list(vec![Value::Int(1), Value::ListRef(inner), Value::Bool(true)]);
    let empty = runtime.allocate_list(vec![]);
    assert_eq!(shown(&runtime, Value::ListRef(outer)), "[1, [2, s], true]");
    assert_eq!(shown(&runtime, Value::ListRef(empty)), "[]");
    assert_eq!(
        value_into_printable(Value::ListRef(inner), &runtime, 1).unwrap().len(),
        5
    );
    assert_eq!(value_into_printable(Value::ListRef(outer), &runtime, 1), Err(Fault::Exhausted));
    assert_eq!(value_into_printable(Value::ListRef(outer), &runtime, 0), Err(Fault::Exhausted));
    assert_eq!(value_into_printable(Value::ListRef(9), &runtime, 5), Err(Fault::ArenaMiss));
    assert_eq!(value_into_printable(Value::StrRef(9), &runtime, 5), Err(Fault::ArenaMiss));
}

#[test]
fn a_list_that_holds_itself_is_too_deep() {
    let mut runtime = machine(vec![]);
    let list = runtime.allocate_list(vec![]);
    runtime.list_push(list, Value::ListRef(list));
    assert_eq!(
        value_into_printable(Value::ListRef(list), &runtime, depth_of(&runtime)),
        Err(Fault::Exhausted)
    );
}

fn point() -> ObjectDescriptor {
    let mut members: NameMap<usize> = NameMap::new();
    members.insert("x".to_string(), 0);
    members.insert("y".to_string(), 1);
    ObjectDescriptor {
        name: "Point".to_string(),
        members,
        members_by_index: vec!["x".to_string(), "y".to_string()],
    }
}

#[test]
fn objects_are_printed_with_their_members() {
    let mut runtime = Program {
        instructions: vec![
            Instruction::Nop,
            Instruction::Push { value: Value::Int(2) },
            Instruction::Push { value: Value::Int(1) },
            Instruction::CreateObject { descriptor: 0 },
            Instruction::CreateObject { descriptor: 1 },
        ],
        strings: vec![],
        heap_size: 0,
        object_descriptor: vec![
            point(),
            ObjectDescriptor {
                name: "Unit".to_string(),
                members: NameMap::new(),
                members_by_index: vec![],
            },
        ],
    }
    .into_runtime();
    assert_eq!(runtime.run(10), Outcome::Halted);
    assert_eq!(shown(&runtime, Value::ObjectRef(0)), "Point { x: 1, y: 2 }");
    assert_eq!(shown(&runtime, Value::ObjectRef(1)), "Unit {  }");
    assert_eq!(value_into_printable(Value::ObjectRef(2), &runtime, 5), Err(Fault::ArenaMiss));
    assert_eq!(value_into_printable(Value::ObjectRef(0), &runtime, 0), Err(Fault::Exhausted));
}

#[test]
fn print_takes_its_arguments_and_joins_them_with_spaces() {
    let mut runtime = machine(vec!["b"]);
    runtime.stack_push(Value::Int(99));
    runtime.stack_push(Value::Bool(true));
    runtime.stack_push(Value::StrRef(0));
    runtime.stack_push(Value::Int(1));
    runtime.stack_push(Value::Int(3));
    assert_eq!(render(binlang::binrunner::println(&mut runtime).unwrap()), "1 b true");
    assert_eq!(stack(&runtime), vec![Value::Int(99)]);
    runtime.stack_push(Value::Int(0));
    assert_eq!(render(binlang::binrunner::println(&mut runtime).unwrap()), "");
    assert_eq!(stack(&runtime), vec![Value::Int(99)]);
    runtime.stack_push(Value::Int(-4));
    assert_eq!(render(binlang::binrunner::println(&mut runtime).unwrap()), "");
    assert_eq!(stack(&runtime), vec![Value::Int(99)]);
}

#[test]
fn print_faults_leave_the_stack_alone() {
    let mut runtime = machine(vec![]);
    assert_eq!(binlang::binrunner::println(&mut runtime), Err(Fault::StackUnderflow));
    runtime.stack_push(Value::Int(2));
    assert_eq!(binlang::binrunner::println(&mut runtime), Err(Fault::StackUnderflow));
    assert_eq!(stack(&runtime), vec![Value::Int(2)]);
    runtime.stack_push(Value::Bool(true));
    assert_eq!(binlang::binrunner::println(&mut runtime), Err(Fault::TypeMismatch));
    runtime.stack_pop();
    runtime.stack_pop();
    runtime.stack_push(Value::StrRef(4));
    runtime.stack_push(Value::Int(1));
    assert_eq!(binlang::binrunner::println(&mut runtime), Err(Fault::ArenaMiss));
    assert_eq!(stack(&runtime), vec![Value::StrRef(4), Value::Int(1)]);
}

#[test]
fn new_list_push_pop_and_len() {
    let mut runtime = machine(vec![]);
    assert_eq!(new_list(&mut runtime), Ok(()));
    assert_eq!(stack(&runtime), vec![Value::ListRef(0)]);
    assert_eq!(runtime.list(0), Some(&vec![]));
    runtime.stack_push(Value::Int(7));
    assert_eq!(push(&mut runtime), Ok(()));
    assert!(stack(&runtime).is_empty());
    assert_eq!(runtime.list(0), Some(&vec![Value::Int(7)]));
    runtime.stack_push(Value::ListRef(0));
    runtime.stack_push(Value::Bool(true));
    assert_eq!(push(&mut runtime), Ok(()));
    assert_eq!(runtime.list(0), Some(&vec![Value::Int(7), Value::Bool(true)]));
    runtime.stack_push(Value::ListRef(0));
    assert_eq!(len(&mut runtime), Ok(()));
    assert_eq!(stack(&runtime), vec![Value::Int(2)]);
    runtime.stack_pop();
    runtime.stack_push(Value::ListRef(0));
    assert_eq!(pop(&mut runtime), Ok(()));
    assert_eq!(stack(&runtime), vec![Value::Bool(true)]);
    assert_eq!(runtime.list(0), Some(&vec![Value::Int(7)]));
    assert_eq!(new_list(&mut runtime), Ok(()));
    assert_eq!(stack(&runtime), vec![Value::Bool(true), Value::ListRef(1)]);
}

#[test]
fn list_function_faults() {
    let mut runtime = machine(vec![]);
    assert_eq!(push(&mut runtime), Err(Fault::StackUnderflow));
    assert_eq!(pop(&mut runtime), Err(Fault::StackUnderflow));
    assert_eq!(len(&mut runtime), Err(Fault::StackUnderflow));
    runtime.stack_push(Value::Int(1));
    runtime.stack_push(Value::Int(2));
    assert_eq!(push(&mut runtime), Err(Fault::TypeMismatch));
    assert_eq!(pop(&mut runtime), Err(Fault::TypeMismatch));
    assert_eq!(len(&mut runtime), Err(Fault::TypeMismatch));
    assert_eq!(stack(&runtime), vec![Value::Int(1), Value::Int(2)]);
    let mut runtime = machine(vec![]);
    runtime.stack_push(Value::ListRef(3));
    assert_eq!(pop(&mut runtime), Err(Fault::ArenaMiss));
    assert_eq!(len(&mut runtime), Err(Fault::ArenaMiss));
    runtime.stack_push(Value::Int(1));
    assert_eq!(push(&mut runtime), Err(Fault::ArenaMiss));
    let mut runtime = machine(vec![]);
    new_list(&mut runtime).unwrap();
    assert_eq!(pop(&mut runtime), Err(Fault::MemberMiss));
    assert_eq!(stack(&runtime), vec![Value::ListRef(0)]);
}

#[test]
fn len_of_a_string_counts_bytes() {
    let mut runtime = machine(vec!["héllo"]);
    runtime.stack_push(Value::StrRef(0));
    assert_eq!(len(&mut runtime), Ok(()));
    assert_eq!(stack(&runtime), vec![Value::Int(6)]);
}

#[test]
fn new_list_with_values_takes_the_first_argument_first() {
    let mut runtime = machine(vec![]);
    runtime.stack_push(Value::Int(30));
    runtime.stack_push(Value::Int(20));
    runtime.stack_push(Value::Int(10));
    runtime.stack_push(Value::Int(3));
    assert_eq!(new_list_with_values(&mut runtime), Ok(()));
    assert_eq!(stack(&runtime), vec![Value::ListRef(0)]);
    assert_eq!(runtime.list(0), Some(&vec![Value::Int(10), Value::Int(20), Value::Int(30)]));
    runtime.stack_push(Value::Int(5));
    assert_eq!(new_list_with_values(&mut runtime), Err(Fault::StackUnderflow));
}

#[test]
fn new_list_with_default_values_repeats_the_value() {
    let mut runtime = machine(vec![]);
    runtime.stack_push(Value::Char('z'));
    runtime.stack_push(Value::Int(3));
    assert_eq!(new_list_with_default_values(&mut runtime), Ok(()));
    assert_eq!(stack(&runtime), vec![Value::ListRef(0)]);
    assert_eq!(runtime.list(0), Some(&vec![Value::Char('z'); 3]));
    runtime.stack_push(Value::Char('z'));
    runtime.stack_push(Value::Int(-1));
    assert_eq!(new_list_with_default_values(&mut runtime), Ok(()));
    assert_eq!(runtime.list(1), Some(&vec![]));
    runtime.stack_push(Value::Char('z'));
    assert_eq!(new_list_with_default_values(&mut runtime), Err(Fault::TypeMismatch));
}

#[test]
fn index_get_and_index_set() {
    let mut runtime = machine(vec!["añb"]);
    let list = runtime.allocate_list(vec![Value::Int(1), Value::Int(2)]);
    runtime.stack_push(Value::Int(9));
    runtime.stack_push(Value::Int(1));
    runtime.stack_push(Value::ListRef(list));
    assert_eq!(index_set(&mut runtime), Ok(()));
    assert!(stack(&runtime).is_empty());
    assert_eq!(runtime.list(list), Some(&vec![Value::Int(1), Value::Int(9)]));
    runtime.stack_push(Value::Int(1));
    runtime.stack_push(Value::ListRef(list));
    assert_eq!(index_get(&mut runtime), Ok(()));
    assert_eq!(stack(&runtime), vec![Value::Int(9)]);
    runtime.stack_push(Value::Int(1));
    runtime.stack_push(Value::StrRef(0));
    assert_eq!(index_get(&mut runtime), Ok(()));
    assert_eq!(stack(&runtime), vec![Value::Int(9), Value::Char('ñ')]);
}

#[test]
fn index_faults() {
    let mut runtime = machine(vec!["ab"]);
    let list = runtime.allocate_list(vec![Value::Int(1)]);
    for index in [-1, 1, i64::MAX] {
        runtime.stack_push(Value::Int(0));
        runtime.stack_push(Value::Int(index));
        runtime.stack_push(Value::ListRef(list));
        assert_eq!(index_get(&mut runtime), Err(Fault::MemberMiss));
        assert_eq!(index_set(&mut runtime), Err(Fault::MemberMiss));
        runtime.stack_pop();
        runtime.stack_pop();
        runtime.stack_pop();
    }
    runtime.stack_push(Value::Int(0));
    runtime.stack_push(Value::Int(2));
    runtime.stack_push(Value::StrRef(0));
    assert_eq!(index_get(&mut runtime), Err(Fault::MemberMiss));
    assert_eq!(index_set(&mut runtime), Err(Fault::TypeMismatch));
    runtime.stack_pop();
    runtime.stack_push(Value::Bool(true));
    assert_eq!(index_get(&mut runtime), Err(Fault::TypeMismatch));
    runtime.stack_pop();
    runtime.stack_push(Value::ListRef(8));
    assert_eq!(index_get(&mut runtime), Err(Fault::ArenaMiss));
    assert_eq!(index_set(&mut runtime), Err(Fault::ArenaMiss));
}

#[test]
fn call_dispatches_by_handle() {
    let mut runtime = machine(vec![]);
    register(&mut runtime);
    assert_eq!(call(&mut runtime, NEW_LIST), Ok(None));
    assert_eq!(call(&mut runtime, LEN), Ok(None));
    assert_eq!(stack(&runtime), vec![Value::Int(0)]);
    runtime.stack_push(Value::Int(1));
    assert_eq!(call(&mut runtime, PRINT).map(|line| line.map(render)), Ok(Some("0".to_string())));
    assert_eq!(call(&mut runtime, INDEX_GET), Err(Fault::StackUnderflow));
    assert_eq!(call(&mut runtime, 99), Err(Fault::UnknownFunction));
    assert_eq!(runtime.functions.get("len"), Some(&LEN));
    assert_eq!(runtime.functions.get("print"), Some(&PRINT));
    assert_eq!(runtime.functions.len(), 9);
}

fn nested(runtime: &mut Runtime, levels: usize) -> Value {
    let mut inner = Value::Int(7);
    for _ in 0..levels {
        inner = Value::ListRef(runtime.allocate_list(vec![inner]));
    }
    inner
}

#[test]
fn a_list_nested_a_hundred_deep_is_printed() {
    let mut runtime = machine(vec![]);
    let outer = nested(&mut runtime, 100);
    assert_eq!(depth_of(&runtime), 100);
    let expected = format!("{}7{}", "[".repeat(100), "]".repeat(100));
    assert_eq!(shown(&runtime, outer), expected);
    runtime.stack_push(Value::Int(5));
    runtime.stack_push(outer);
    runtime.stack_push(Value::Int(1));
    assert_eq!(render(binlang::binrunner::println(&mut runtime).unwrap()), expected);
    assert_eq!(stack(&runtime), vec![Value::Int(5)]);
}

#[test]
fn the_print_depth_is_the_number_of_lists_and_objects() {
    let mut runtime = Program {
        instructions: vec![
            Instruction::Nop,
            Instruction::Push { value: Value::Int(2) },
            Instruction::Push { value: Value::Int(1) },
            Instruction::CreateObject { descriptor: 0 },
        ],
        strings: vec![],
        heap_size: 0,
        object_descriptor: vec![point()],
    }
    .into_runtime();
    assert_eq!(depth_of(&runtime), 0);
    assert_eq!(runtime.run(10), Outcome::Halted);
    assert_eq!(depth_of(&runtime), 1);
    let list = runtime.allocate_list(vec![Value::ObjectRef(0)]);
    assert_eq!(depth_of(&runtime), 2);
    assert_eq!(shown(&runtime, Value::ListRef(list)), "[Point { x: 1, y: 2 }]");
    runtime.stack_push(Value::ListRef(list));
    runtime.stack_push(Value::Int(1));
    assert_eq!(
        render(binlang::binrunner::println(&mut runtime).unwrap()),
        "[Point { x: 1, y: 2 }]"
    );
}

#[test]
fn a_value_that_holds_itself_is_not_printed() {
    let mut runtime = machine(vec![]);
    let first = runtime.allocate_list(vec![]);
    let second = runtime.allocate_list(vec![Value::ListRef(first)]);
    runtime.list_push(first, Value::ListRef(second));
    runtime.stack_push(Value::ListRef(first));
    runtime.stack_push(Value::Int(1));
    assert_eq!(binlang::binrunner::println(&mut runtime), Err(Fault::Exhausted));
    assert_eq!(stack(&runtime), vec![Value::ListRef(first), Value::Int(1)]);
}
