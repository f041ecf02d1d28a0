use binlang::bincompiler::ast::{Expression, Identifier, Statement};
use binlang::bincompiler::output::output_path;
use binlang::bincompiler::translation::{
    try_resolve, BinLangTranslationUnit, IntermediateCode, TranslationError, IC,
};
use binlang::bincore::data::program_file::Program;
use binlang::bincore::data::value::Value;
use binlang::bincore::executable::machine::{FloatOperation, Outcome, Request};
use binlang::bincore::executable::runnable::Instruction;
use binlang::binrunner::{call, register, Fragment};

fn id(name: &str) -> Identifier {
    Identifier::Single(name.to_string())
}

fn var(name: &str) -> Expression {
    Expression::Variable(id(name))
}

fn num(value: i64) -> Expression {
    Expression::Int(value)
}

fn text(value: &str) -> Expression {
    Expression::String(value.to_string())
}

fn add(left: Expression, right: Expression) -> Expression {
    Expression::Addition { left: Box::new(left), right: Box::new(right) }
}

fn mul(left: Expression, right: Expression) -> Expression {
    Expression::Multiplication { left: Box::new(left), right: Box::new(right) }
}

fn equal(left: Expression, right: Expression) -> Expression {
    Expression::Equal { left: Box::new(left), right: Box::new(right) }
}

fn less(left: Expression, right: Expression) -> Expression {
    Expression::LessThan { left: Box::new(left), right: Box::new(right) }
}

fn greater(left: Expression, right: Expression) -> Expression {
    Expression::GreaterThan { left: Box::new(left), right: Box::new(right) }
}

fn assign(name: &str, expression: Expression) -> Statement {
    Statement::Assignment { identifier: id(name), expression }
}

fn reassign(name: &str, expression: Expression) -> Statement {
    Statement::Reassignment { identifier: id(name), expression }
}

fn call_expression(name: &str, args: Vec<Expression>) -> Expression {
    Expression::FunctionCall { func_name: id(name), args }
}

fn call_statement(name: &str, args: Vec<Expression>) -> Statement {
    Statement::FunctionCall { func_name: id(name), args }
}

fn print(args: Vec<Expression>) -> Statement {
    call_statement("print", args)
}

fn render(line: Vec<Fragment>) -> String {
    line.into_iter()
        .map(|fragment| match fragment {
            Fragment::Text(text) => text,
            Fragment::Float(bits) => f64::from_bits(bits).to_string(),
        })
        .collect()
}

fn float_result(operation: FloatOperation, left: u64, right: u64) -> u64 {
    let (a, b) = (f64::from_bits(left), f64::from_bits(right));
    let r = match operation {
        FloatOperation::Add => a + b,
        FloatOperation::Sub => a - b,
        FloatOperation::Mul => a * b,
        FloatOperation::Div => a / b,
        FloatOperation::Mod => a % b,
        FloatOperation::Pow => a.powf(b),
    };
    r.to_bits()
}

fn run(program: Program) -> Vec<String> {
    let mut runtime = program.into_runtime();
    register(&mut runtime);
    let mut lines = vec![];
    loop {
        match runtime.run(100_000) {
            Outcome::Halted => return lines,
            Outcome::Request(Request::Extern { function }) => {
                if let Some(line) = call(&mut runtime, function).expect("host function") {
                    lines.push(render(line));
                }
            }
            Outcome::Request(Request::Float { operation, left, right }) => {
                runtime.stack_push(Value::Float(float_result(operation, left, right)));
            }
            other => panic!("the run ended with {other:?}"),
        }
    }
}

fn output(statements: Vec<Statement>, functions: Vec<Statement>) -> Vec<String> {
    run(BinLangTranslationUnit::try_translate(statements, functions).expect("translates"))
}

fn entry(code: &IntermediateCode) -> String {
    match code {
        IntermediateCode::Label(name) => format!("{name}:"),
        IntermediateCode::Call(name) => format!("call {name}"),
        IntermediateCode::Jump(name) => format!("jump {name}"),
        IntermediateCode::JumpIfFalse(name) => format!("jump_if_false {name}"),
        IntermediateCode::Inst(instruction) => format!("{instruction:?}"),
    }
}

fn listing(code: &[IntermediateCode]) -> Vec<String> {
    code.iter().map(entry).collect()
}

fn unit() -> BinLangTranslationUnit {
    BinLangTranslationUnit::new(vec![], vec![])
}

#[test]
fn arithmetic_scenario_prints_14() {
    let statements = vec![assign("x", add(num(2), mul(num(3), num(4)))), print(vec![var("x")])];
    assert_eq!(output(statements, vec![]), vec!["14"]);
}

#[test]
fn arithmetic_scenario_instructions() {
    let statements = vec![assign("x", add(num(2), mul(num(3), num(4)))), print(vec![var("x")])];
    let program = BinLangTranslationUnit::try_translate(statements, vec![]).unwrap();
    assert_eq!(
        program.instructions,
        vec![
            Instruction::Nop,
            Instruction::Jump { address: 2 },
            Instruction::Push { value: Value::Int(2) },
            Instruction::Push { value: Value::Int(3) },
            Instruction::Push { value: Value::Int(4) },
            Instruction::Mul,
            Instruction::Add,
            Instruction::Store { address: 0 },
            Instruction::Load { address: 0 },
            Instruction::Push { value: Value::Int(1) },
            Instruction::ExternCall { string_id: 0 },
            Instruction::Nop,
        ]
    );
    assert_eq!(program.heap_size, 1);
    assert_eq!(
        program.strings,
        vec![
            "print",
            "new_list_with_values",
            "push",
            "pop",
            "new_list",
            "new_list_with_default_values",
            "index_set",
            "index_get",
            "len"
        ]
    );
    assert!(program.object_descriptor.is_empty());
}

#[test]
fn conditional_scenario_prints_b() {
    let statements = vec![Statement::Conditional {
        body: vec![
            (equal(num(1), num(2)), vec![print(vec![text("a")])]),
            (greater(num(3), num(2)), vec![print(vec![text("b")])]),
        ],
        else_body: Some(vec![print(vec![text("c")])]),
    }];
    assert_eq!(output(statements, vec![]), vec!["b"]);
}

#[test]
fn exactly_one_branch_of_a_conditional_runs() {
    for (first, second, expected) in
        [(true, true, "a"), (true, false, "a"), (false, true, "b"), (false, false, "c")]
    {
        let statements = vec![
            Statement::Conditional {
                body: vec![
                    (Expression::Bool(first), vec![print(vec![text("a")])]),
                    (Expression::Bool(second), vec![print(vec![text("b")])]),
                ],
                else_body: Some(vec![print(vec![text("c")])]),
            },
            print(vec![text("end")]),
        ];
        assert_eq!(output(statements, vec![]), vec![expected, "end"]);
    }
    for (first, second, expected) in [
        (true, true, vec!["a", "end"]),
        (false, true, vec!["b", "end"]),
        (false, false, vec!["end"]),
    ] {
        let statements = vec![
            Statement::Conditional {
                body: vec![
                    (Expression::Bool(first), vec![print(vec![text("a")])]),
                    (Expression::Bool(second), vec![print(vec![text("b")])]),
                ],
                else_body: None,
            },
            print(vec![text("end")]),
        ];
        assert_eq!(output(statements, vec![]), expected);
    }
}

#[test]
fn while_with_break_scenario_prints_3() {
    let statements = vec![
        assign("i", num(0)),
        Statement::WhileLoop {
            condition: less(var("i"), num(10)),
            body: vec![
                Statement::Conditional {
                    body: vec![(equal(var("i"), num(3)), vec![Statement::Break])],
                    else_body: None,
                },
                reassign("i", add(var("i"), num(1))),
            ],
        },
        print(vec![var("i")]),
    ];
    assert_eq!(output(statements, vec![]), vec!["3"]);
}

#[test]
fn continue_jumps_to_the_head_of_the_loop() {
    let statements = vec![
        assign("i", num(0)),
        Statement::WhileLoop {
            condition: less(var("i"), num(4)),
            body: vec![
                reassign("i", add(var("i"), num(1))),
                Statement::Conditional {
                    body: vec![(equal(var("i"), num(2)), vec![Statement::Continue])],
                    else_body: None,
                },
                print(vec![var("i")]),
            ],
        },
    ];
    assert_eq!(output(statements, vec![]), vec!["1", "3", "4"]);
}

#[test]
fn user_function_scenario_prints_42() {
    let functions = vec![Statement::FunctionDeclaration {
        func_name: id("add"),
        args: vec![id("a"), id("b")],
        body: vec![Statement::Return(add(var("a"), var("b")))],
    }];
    let statements = vec![print(vec![call_expression("add", vec![num(40), num(2)])])];
    assert_eq!(output(statements, functions), vec!["42"]);
}

#[test]
fn user_function_scenario_instructions() {
    let functions = vec![Statement::FunctionDeclaration {
        func_name: id("add"),
        args: vec![id("a"), id("b")],
        body: vec![Statement::Return(add(var("a"), var("b")))],
    }];
    let statements = vec![print(vec![call_expression("add", vec![num(40), num(2)])])];
    let program = BinLangTranslationUnit::try_translate(statements, functions).unwrap();
    assert_eq!(
        program.instructions,
        vec![
            Instruction::Nop,
            Instruction::Jump { address: 6 },
            Instruction::Load { address: 0 },
            Instruction::Load { address: 1 },
            Instruction::Add,
            Instruction::Ret,
            Instruction::Push { value: Value::Int(2) },
            Instruction::Push { value: Value::Int(40) },
            Instruction::Store { address: 1 },
            Instruction::Store { address: 0 },
            Instruction::Call { address: 2 },
            Instruction::Push { value: Value::Int(1) },
            Instruction::ExternCall { string_id: 0 },
            Instruction::Nop,
        ]
    );
    assert_eq!(program.heap_size, 2);
}

#[test]
fn lists_scenario_prints_2() {
    let statements = vec![
        assign("xs", call_expression("new_list", vec![])),
        call_statement("push", vec![num(1), var("xs")]),
        call_statement("push", vec![num(2), var("xs")]),
        print(vec![call_expression("len", vec![var("xs")])]),
    ];
    assert_eq!(output(statements, vec![]), vec!["2"]);
}

#[test]
fn string_scenario_prints_ok() {
    let statements = vec![
        assign("s", add(text("a"), text("b"))),
        Statement::Conditional {
            body: vec![(equal(var("s"), text("ab")), vec![print(vec![text("ok")])])],
            else_body: None,
        },
    ];
    assert_eq!(output(statements, vec![]), vec!["ok"]);
}

#[test]
fn floats_are_computed_by_the_host_and_printed() {
    let statements = vec![
        assign(
            "x",
            add(Expression::Float(1.5f64.to_bits()), Expression::Float(2.25f64.to_bits())),
        ),
        print(vec![var("x"), num(-7), Expression::Bool(true)]),
    ];
    assert_eq!(output(statements, vec![]), vec!["3.75 -7 true"]);
}

#[test]
fn expression_is_lowered_operands_first() {
    let mut unit = unit();
    let code = unit.try_expression(&add(var("a"), mul(num(2), var("b")))).unwrap();
    assert_eq!(
        listing(&code),
        vec![
            "Load { address: 0 }",
            "Push { value: Int(2) }",
            "Load { address: 1 }",
            "Mul",
            "Add"
        ]
    );
    assert_eq!(unit.variable_refs.to_vec(), vec!["a", "b"]);
}

#[test]
fn every_binary_operator_has_its_opcode() {
    let pair = || (Box::new(num(1)), Box::new(num(2)));
    let cases: Vec<(Expression, Instruction)> = vec![
        ({ let (left, right) = pair(); Expression::Addition { left, right } }, Instruction::Add),
        ({ let (left, right) = pair(); Expression::Subtraction { left, right } }, Instruction::Sub),
        ({ let (left, right) = pair(); Expression::Multiplication { left, right } }, Instruction::Mul),
        ({ let (left, right) = pair(); Expression::Division { left, right } }, Instruction::Div),
        ({ let (left, right) = pair(); Expression::Modulus { left, right } }, Instruction::Mod),
        ({ let (left, right) = pair(); Expression::Equal { left, right } }, Instruction::Eq),
        ({ let (left, right) = pair(); Expression::NotEqual { left, right } }, Instruction::Neq),
        ({ let (left, right) = pair(); Expression::GreaterThan { left, right } }, Instruction::Gt),
        ({ let (left, right) = pair(); Expression::LessThan { left, right } }, Instruction::Lt),
        (
            { let (left, right) = pair(); Expression::GreaterThanOrEqual { left, right } },
            Instruction::Gte,
        ),
        (
            { let (left, right) = pair(); Expression::LessThanOrEqual { left, right } },
            Instruction::Lte,
        ),
    ];
    for (expression, opcode) in cases {
        let code = unit().try_expression(&expression).unwrap();
        assert_eq!(code.len(), 3);
        match &code[2] {
            IntermediateCode::Inst(instruction) => assert_eq!(*instruction, opcode),
            other => panic!("unexpected {other:?}"),
        }
    }
}

#[test]
fn string_literals_are_interned() {
    let mut unit = unit();
    let code = unit.try_expression(&add(text("x"), add(text("y"), text("x")))).unwrap();
    assert_eq!(
        listing(&code),
        vec![
            "Push { value: StrRef(0) }",
            "Push { value: StrRef(1) }",
            "Push { value: StrRef(0) }",
            "Add",
            "Add"
        ]
    );
    assert_eq!(unit.string_refs.to_vec(), vec!["x", "y"]);
    assert_eq!(unit.reference_string("y"), 1);
    assert_eq!(unit.reference_string("z"), 2);
    assert_eq!(unit.reference_variable("v"), 0);
    assert_eq!(unit.reference_variable("v"), 0);
}

#[test]
fn dotted_names_are_flattened() {
    let mut unit = unit();
    let name = Identifier::DotIdentifier(vec!["a".to_string(), "b".to_string(), "c".to_string()]);
    assert_eq!(name.to_string(), "a.b.c");
    assert_eq!(Identifier::DotIdentifier(vec![]).to_string(), "");
    assert_eq!(Identifier::DotIdentifier(vec!["only".to_string()]).to_string(), "only");
    let code = unit.try_expression(&Expression::Variable(name)).unwrap();
    assert_eq!(listing(&code), vec!["Load { address: 0 }"]);
    assert_eq!(unit.variable_refs.to_vec(), vec!["a.b.c"]);
}

#[test]
fn extern_call_pushes_the_arguments_rightmost_first() {
    let mut unit = unit();
    let code = unit.try_function_call("push", &vec![num(1), var("xs")]).unwrap();
    assert_eq!(
        listing(&code),
        vec!["Load { address: 0 }", "Push { value: Int(1) }", "ExternCall { string_id: 0 }"]
    );
}

#[test]
fn variadic_call_pushes_the_number_of_arguments() {
    let mut unit = unit();
    let code = unit.try_function_call("print", &vec![num(1), num(2), num(3)]).unwrap();
    assert_eq!(
        listing(&code),
        vec![
            "Push { value: Int(3) }",
            "Push { value: Int(2) }",
            "Push { value: Int(1) }",
            "Push { value: Int(3) }",
            "ExternCall { string_id: 0 }"
        ]
    );
    let code = unit.try_function_call("new_list_with_values", &vec![]).unwrap();
    assert_eq!(listing(&code), vec!["Push { value: Int(0) }", "ExternCall { string_id: 1 }"]);
}

#[test]
fn user_call_stores_the_parameters_last_first() {
    let mut unit = unit();
    unit.try_function_declaration(0, "f", vec!["a".to_string(), "b".to_string()], &vec![]).unwrap();
    let code = unit.try_function_call("f", &vec![num(1), num(2)]).unwrap();
    assert_eq!(
        listing(&code),
        vec![
            "Push { value: Int(2) }",
            "Push { value: Int(1) }",
            "Store { address: 0 }",
            "Store { address: 1 }",
            "call function_f"
        ]
    );
    assert_eq!(unit.variable_refs.to_vec(), vec!["b", "a"]);
}

#[test]
fn a_call_of_an_undeclared_function_is_refused() {
    let mut unit = unit();
    match unit.try_function_call("nobody", &vec![]) {
        Err(TranslationError::UnknownFunction(name)) => assert_eq!(name, "nobody"),
        other => panic!("unexpected {other:?}"),
    }
    let statements = vec![call_statement("later", vec![])];
    match BinLangTranslationUnit::try_translate(statements, vec![]) {
        Err(TranslationError::UnknownFunction(name)) => assert_eq!(name, "later"),
        other => panic!("unexpected {other:?}"),
    }
}

#[test]
fn assignment_and_return() {
    let mut unit = unit();
    let code = unit.try_assignment("x", &num(5)).unwrap();
    assert_eq!(listing(&code), vec!["Push { value: Int(5) }", "Store { address: 0 }"]);
    let code = unit.try_statement(0, &reassign("x", var("x"))).unwrap();
    assert_eq!(listing(&code), vec!["Load { address: 0 }", "Store { address: 0 }"]);
    let code = unit.try_return_statement(&var("x")).unwrap();
    assert_eq!(listing(&code), vec!["Load { address: 0 }", "Ret"]);
}

#[test]
fn conditional_with_else() {
    let mut unit = unit();
    let code = unit
        .try_conditional(
            0,
            &vec![
                (Expression::Bool(true), vec![assign("a", num(1))]),
                (Expression::Bool(false), vec![assign("a", num(2))]),
            ],
            &Some(vec![assign("a", num(3))]),
        )
        .unwrap();
    assert_eq!(
        listing(&code),
        vec![
            "Push { value: Bool(true) }",
            "jump_if_false if_0_0",
            "Push { value: Int(1) }",
            "Store { address: 0 }",
            "jump end_0",
            "if_0_0:",
            "Push { value: Bool(false) }",
            "jump_if_false if_0_1",
            "Push { value: Int(2) }",
            "Store { address: 0 }",
            "jump end_0",
            "if_0_1:",
            "Push { value: Int(3) }",
            "Store { address: 0 }",
            "end_0:"
        ]
    );
}

#[test]
fn conditional_without_else_drops_the_last_jump() {
    let mut unit = unit();
    let code = unit
        .try_conditional(7, &vec![(Expression::Bool(true), vec![Statement::Break])], &None)
        .unwrap();
    assert_eq!(
        listing(&code),
        vec![
            "Push { value: Bool(true) }",
            "jump_if_false if_0_0",
            "jump end_while_7",
            "if_0_0:",
            "end_0:"
        ]
    );
    let code = unit.try_conditional(0, &vec![(Expression::Bool(true), vec![])], &None).unwrap();
    assert_eq!(
        listing(&code),
        vec!["Push { value: Bool(true) }", "jump_if_false if_1_0", "if_1_0:", "end_1:"]
    );
}

#[test]
fn a_conditional_without_branch_or_else_is_refused() {
    let mut unit = unit();
    assert!(matches!(
        unit.try_conditional(0, &vec![], &None),
        Err(TranslationError::EmptyConditional)
    ));
    let code = unit.try_conditional(0, &vec![], &Some(vec![])).unwrap();
    assert_eq!(listing(&code), vec!["end_1:"]);
}

#[test]
fn while_loop_with_nested_loop_scopes() {
    let mut unit = unit();
    let code = unit
        .try_while_loop(
            &Expression::Bool(true),
            &vec![
                Statement::WhileLoop {
                    condition: Expression::Bool(false),
                    body: vec![Statement::Continue],
                },
                Statement::Break,
            ],
        )
        .unwrap();
    assert_eq!(
        listing(&code),
        vec![
            "while_0:",
            "Push { value: Bool(true) }",
            "jump_if_false end_while_0",
            "while_1:",
            "Push { value: Bool(false) }",
            "jump_if_false end_while_1",
            "jump while_1",
            "jump while_1",
            "end_while_1:",
            "jump end_while_0",
            "jump while_0",
            "end_while_0:"
        ]
    );
}

#[test]
fn comments_and_end_of_input_have_no_code() {
    let mut unit = unit();
    assert!(unit.try_statement(0, &Statement::EOI).unwrap().is_empty());
    assert!(unit.try_statement(0, &Statement::Comment("// hi".to_string())).unwrap().is_empty());
    let code = unit.try_block(3, &vec![Statement::EOI, Statement::Break, Statement::Continue]).unwrap();
    assert_eq!(listing(&code), vec!["jump end_while_3", "jump while_3"]);
}

#[test]
fn break_outside_a_loop_is_an_unresolved_label() {
    match BinLangTranslationUnit::try_translate(vec![Statement::Break], vec![]) {
        Err(TranslationError::UnresolvedLabel(name)) => assert_eq!(name, "end_while_0"),
        other => panic!("unexpected {other:?}"),
    }
}

#[test]
fn labels_resolve_to_the_address_of_the_next_instruction() {
    let code = vec![
        IC::jump("b"),
        IC::label("a"),
        IC::instruction(Instruction::Add),
        IC::label("b"),
        IC::label("c"),
        IC::call("a"),
        IC::jump_if_false("c"),
        IC::instruction(Instruction::Nop),
    ];
    assert_eq!(
        try_resolve(&code).unwrap(),
        vec![
            Instruction::Nop,
            Instruction::Jump { address: 3 },
            Instruction::Add,
            Instruction::Call { address: 2 },
            Instruction::JumpIfFalse { address: 3 },
            Instruction::Nop,
        ]
    );
}

#[test]
fn the_last_of_two_equal_labels_counts() {
    let code = vec![
        IC::label("a"),
        IC::jump("a"),
        IC::label("a"),
        IC::instruction(Instruction::Nop),
    ];
    assert_eq!(
        try_resolve(&code).unwrap(),
        vec![Instruction::Nop, Instruction::Jump { address: 2 }, Instruction::Nop]
    );
}

#[test]
fn every_target_of_a_translated_program_is_an_instruction() {
    let functions = vec![Statement::FunctionDeclaration {
        func_name: id("f"),
        args: vec![id("n")],
        body: vec![Statement::Conditional {
            body: vec![(less(var("n"), num(1)), vec![Statement::Return(num(0))])],
            else_body: None,
        }, Statement::Return(var("n"))],
    }];
    let statements = vec![
        assign("i", num(0)),
        Statement::WhileLoop {
            condition: less(var("i"), num(3)),
            body: vec![
                reassign("i", add(var("i"), call_expression("f", vec![num(1)]))),
                Statement::Conditional {
                    body: vec![(equal(var("i"), num(2)), vec![Statement::Break])],
                    else_body: Some(vec![Statement::Continue]),
                },
            ],
        },
    ];
    let program = BinLangTranslationUnit::try_translate(statements, functions).unwrap();
    let count = program.instructions.len();
    let mut jumps = 0;
    for instruction in &program.instructions {
        match instruction {
            Instruction::Jump { address }
            | Instruction::JumpIfFalse { address }
            | Instruction::Call { address } => {
                jumps += 1;
                assert!(1 <= *address && *address < count);
            }
            _ => {}
        }
    }
    assert!(jumps >= 6);
    assert_eq!(program.instructions[0], Instruction::Nop);
    assert_eq!(program.instructions[count - 1], Instruction::Nop);
}

#[test]
fn translate_and_run_give_what_try_translate_gives() {
    let statements = || vec![assign("x", num(1)), print(vec![var("x")])];
    let program = BinLangTranslationUnit::translate(statements(), vec![]);
    let tried = BinLangTranslationUnit::try_translate(statements(), vec![]).unwrap();
    assert_eq!(program.instructions, tried.instructions);
    assert_eq!(program.strings, tried.strings);
    let mut unit = BinLangTranslationUnit::new(statements(), vec![]);
    let instructions = unit.run();
    assert_eq!(instructions[1], Instruction::Jump { address: 2 });
    assert_eq!(unit.statements.len(), 2);
    let mut unit = BinLangTranslationUnit::new(vec![], vec![]);
    assert_eq!(listing(&unit.expression(&num(1))), vec!["Push { value: Int(1) }"]);
    assert_eq!(listing(&unit.assignment("a", &num(1))).len(), 2);
    assert_eq!(listing(&unit.function_call("len", &vec![var("a")])).len(), 2);
    assert_eq!(listing(&unit.return_statement(&num(1))).len(), 2);
    assert_eq!(listing(&unit.conditional(0, &vec![], &Some(vec![]))), vec!["end_0:"]);
    assert_eq!(listing(&unit.while_loop(&Expression::Bool(true), &vec![])).len(), 5);
    assert_eq!(listing(&unit.statement(0, &Statement::Break)), vec!["jump end_while_0"]);
    assert_eq!(
        listing(&unit.function_declaration(0, "g", vec![], &vec![])),
        vec!["function_g:"]
    );
}

#[test]
fn the_program_file_takes_the_name_of_the_source_file() {
    assert_eq!(output_path("main.src"), "main.blc");
    assert_eq!(output_path("main"), "main.blc");
    assert_eq!(output_path("a.b.c"), "a.b.blc");
    assert_eq!(output_path("dir.v1/prog"), "dir.v1/prog.blc");
    assert_eq!(output_path("dir.v1/prog.src"), "dir.v1/prog.blc");
    assert_eq!(output_path(".hidden"), ".hidden.blc");
    assert_eq!(output_path("dir/.hidden"), "dir/.hidden.blc");
    assert_eq!(output_path("a."), "a.blc");
    assert_eq!(output_path(""), ".blc");
    assert_eq!(output_path("é.x"), "é.blc");
}

#[test]
fn float_addition_commutes_on_the_host() {
    let sum = |a: f64, b: f64| {
        output(
            vec![print(vec![add(Expression::Float(a.to_bits()), Expression::Float(b.to_bits()))])],
            vec![],
        )
    };
    for (a, b) in [(1.5, 2.25), (-0.1, 0.3), (1e300, -1e300), (0.0, -0.0)] {
        assert_eq!(sum(a, b), sum(b, a));
    }
    assert_eq!(sum(1.5, 2.25), vec!["3.75"]);
}

#[test]
fn a_translated_program_names_only_slots_and_strings_that_it_has() {
    let functions = vec![Statement::FunctionDeclaration {
        func_name: id("greet"),
        args: vec![id("who"), id("times")],
        body: vec![
            print(vec![text("hello"), var("who"), var("times")]),
            Statement::Return(var("times")),
        ],
    }];
    let statements = vec![
        assign("name", text("world")),
        assign("n", call_expression("greet", vec![var("name"), num(2)])),
        assign("xs", call_expression("new_list", vec![])),
        call_statement("push", vec![var("xs"), text("hello")]),
        print(vec![var("n"), call_expression("len", vec![var("xs")])]),
    ];
    let program = BinLangTranslationUnit::try_translate(statements, functions).unwrap();
    let mut slots = Vec::new();
    let mut strings = Vec::new();
    for instruction in &program.instructions {
        match instruction {
            Instruction::Load { address } | Instruction::Store { address } => {
                assert!(*address < program.heap_size);
                slots.push(*address);
            }
            Instruction::Push { value: Value::StrRef(id) } => {
                assert!(*id < program.strings.len());
                strings.push(*id);
            }
            Instruction::ExternCall { string_id } => {
                assert!(*string_id < program.strings.len());
                strings.push(*string_id);
            }
            _ => {}
        }
    }
    slots.sort();
    slots.dedup();
    assert_eq!(slots, (0..program.heap_size).collect::<Vec<usize>>());
    assert_eq!(program.heap_size, 5);
    assert!(strings.len() >= 7);
    assert!(program.strings.contains(&"hello".to_string()));
    assert!(program.strings.contains(&"world".to_string()));
}

fn labels_named(code: &[IntermediateCode], name: &str) -> usize {
    code.iter()
        .filter(|entry| matches!(entry, IntermediateCode::Label(label) if label == name))
        .count()
}

fn declaration(name: &str, body: Vec<Statement>) -> Statement {
    Statement::FunctionDeclaration { func_name: id(name), args: vec![], body }
}

#[test]
fn the_start_label_is_defined_once() {
    let functions = vec![declaration("f", vec![Statement::Return(num(1))])];
    let statements = vec![
        assign("i", num(0)),
        Statement::WhileLoop {
            condition: less(var("i"), num(2)),
            body: vec![reassign("i", add(var("i"), num(1)))],
        },
        Statement::Conditional {
            body: vec![(equal(var("i"), num(2)), vec![print(vec![var("i")])])],
            else_body: None,
        },
    ];
    let code = BinLangTranslationUnit::new(statements, functions).try_program().unwrap();
    assert_eq!(labels_named(&code, "_start"), 1);
    assert_eq!(labels_named(&code, "while_0"), 1);
    assert_eq!(labels_named(&code, "end_while_0"), 1);
    assert_eq!(labels_named(&code, "if_0_0"), 1);
    assert_eq!(labels_named(&code, "end_0"), 1);
    assert_eq!(labels_named(&code, "function_f"), 1);
}

#[test]
fn a_function_label_is_defined_as_often_as_the_function_is_declared() {
    let functions = vec![
        declaration("f", vec![Statement::Return(num(1))]),
        declaration(
            "g",
            vec![
                Statement::Conditional {
                    body: vec![(
                        equal(num(1), num(1)),
                        vec![declaration("f", vec![Statement::Return(num(2))])],
                    )],
                    else_body: Some(vec![declaration("h", vec![Statement::Return(num(3))])]),
                },
                Statement::Return(num(4)),
            ],
        ),
    ];
    let statements = vec![Statement::WhileLoop {
        condition: less(num(1), num(0)),
        body: vec![declaration("f", vec![Statement::Return(num(5))])],
    }];
    let code = BinLangTranslationUnit::new(statements, functions).try_program().unwrap();
    assert_eq!(labels_named(&code, "function_f"), 3);
    assert_eq!(labels_named(&code, "function_g"), 1);
    assert_eq!(labels_named(&code, "function_h"), 1);
    assert_eq!(labels_named(&code, "function_k"), 0);
    assert_eq!(labels_named(&code, "_start"), 1);
}

#[test]
fn a_program_begins_with_a_jump_behind_its_functions() {
    let functions = vec![declaration("f", vec![Statement::Return(num(1))])];
    let statements = vec![assign("x", call_expression("f", vec![]))];
    let program = BinLangTranslationUnit::try_translate(statements, functions).unwrap();
    assert_eq!(
        program.instructions,
        vec![
            Instruction::Nop,
            Instruction::Jump { address: 4 },
            Instruction::Push { value: Value::Int(1) },
            Instruction::Ret,
            Instruction::Call { address: 2 },
            Instruction::Store { address: 0 },
            Instruction::Nop,
        ]
    );
}
