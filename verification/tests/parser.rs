use binlang::bincompiler::ast::{Expression, Identifier, Statement};
use binlang::bincompiler::parser::{BinLangParse, Malformed, Pair, Rule};
use binlang::bincompiler::translation::BinLangTranslationUnit;
use binlang::bincore::data::value::Value;
use binlang::bincore::executable::runnable::Instruction;

fn node(rule: Rule, text: &str, inner: Vec<Pair>) -> Pair {
    Pair { rule, text: text.to_string(), inner, float: None }
}

fn leaf(rule: Rule, text: &str) -> Pair {
    node(rule, text, vec![])
}

fn op(text: &str) -> Pair {
    leaf(Rule::Operator, text)
}

fn term(inner: Pair) -> Pair {
    node(Rule::Term, "", vec![inner])
}

fn product(inner: Vec<Pair>) -> Pair {
    node(Rule::Product, "", inner)
}

fn sum(inner: Vec<Pair>) -> Pair {
    node(Rule::Sum, "", inner)
}

fn expr(inner: Vec<Pair>) -> Pair {
    node(Rule::Expr, "", inner)
}

fn simple(literal: Pair) -> Pair {
    expr(vec![sum(vec![product(vec![term(literal)])])])
}

fn integer(text: &str) -> Pair {
    leaf(Rule::Integer, text)
}

fn variable(name: &str) -> Pair {
    node(Rule::UsableIdentifier, name, vec![leaf(Rule::Identifier, name)])
}

fn block(inner: Vec<Pair>) -> Pair {
    node(Rule::Block, "", inner)
}

fn show(e: &Expression) -> String {
    let two = |name: &str, left: &Expression, right: &Expression| {
        format!("({} {} {})", show(left), name, show(right))
    };
    match e {
        Expression::Int(value) => value.to_string(),
        Expression::Float(bits) => format!("{}f", f64::from_bits(*bits)),
        Expression::String(text) => format!("{text:?}"),
        Expression::Bool(value) => value.to_string(),
        Expression::Variable(name) => name.to_string(),
        Expression::FunctionCall { func_name, args } => format!(
            "{}({})",
            func_name.to_string(),
            args.iter().map(show).collect::<Vec<_>>().join(", ")
        ),
        Expression::Addition { left, right } => two("+", left, right),
        Expression::Subtraction { left, right } => two("-", left, right),
        Expression::Multiplication { left, right } => two("*", left, right),
        Expression::Division { left, right } => two("/", left, right),
        Expression::Modulus { left, right } => two("%", left, right),
        Expression::Equal { left, right } => two("==", left, right),
        Expression::NotEqual { left, right } => two("!=", left, right),
        Expression::GreaterThan { left, right } => two(">", left, right),
        Expression::LessThan { left, right } => two("<", left, right),
        Expression::GreaterThanOrEqual { left, right } => two(">=", left, right),
        Expression::LessThanOrEqual { left, right } => two("<=", left, right),
    }
}

fn shown(pair: &Pair) -> String {
    show(&BinLangParse::expr(pair).expect("well formed"))
}

#[test]
fn literals() {
    assert_eq!(shown(&simple(integer("42"))), "42");
    assert_eq!(shown(&simple(integer("1_000_000"))), "1000000");
    assert_eq!(shown(&simple(leaf(Rule::Bool, "true"))), "true");
    assert_eq!(shown(&simple(leaf(Rule::Bool, "false"))), "false");
    assert_eq!(shown(&simple(leaf(Rule::String, "\"hi there\""))), "\"hi there\"");
    assert_eq!(shown(&simple(leaf(Rule::String, "\"\""))), "\"\"");
    assert_eq!(shown(&simple(leaf(Rule::String, "\"é\""))), "\"é\"");
    let mut float = leaf(Rule::Float, "2.5");
    float.float = Some(2.5f64.to_bits());
    assert_eq!(shown(&simple(float)), "2.5f");
}

#[test]
fn names() {
    assert_eq!(shown(&simple(variable("x"))), "x");
    let dotted = node(
        Rule::UsableIdentifier,
        "a.b",
        vec![node(
            Rule::IdentifierWithDots,
            "a.b",
            vec![leaf(Rule::Identifier, "a"), leaf(Rule::Identifier, "b")],
        )],
    );
    assert_eq!(shown(&simple(dotted)), "a.b");
    assert!(matches!(
        BinLangParse::identifier(&leaf(Rule::Identifier, "n")),
        Identifier::Single(name) if name == "n"
    ));
    assert!(matches!(
        BinLangParse::identifier_with_dots(&node(Rule::IdentifierWithDots, "", vec![leaf(Rule::Identifier, "k")])),
        Identifier::DotIdentifier(names) if names == vec!["k".to_string()]
    ));
    assert!(BinLangParse::usable_identifier(&leaf(Rule::UsableIdentifier, "x")).is_err());
    assert!(BinLangParse::usable_identifier(&node(
        Rule::UsableIdentifier,
        "x",
        vec![integer("1")]
    ))
    .is_err());
}

#[test]
fn operators_associate_to_the_left() {
    let tree = expr(vec![sum(vec![
        product(vec![term(integer("1"))]),
        op("-"),
        product(vec![term(integer("2"))]),
        op("+"),
        product(vec![term(integer("3")), op("*"), term(integer("4")), op("/"), term(integer("5"))]),
    ])]);
    assert_eq!(shown(&tree), "((1 - 2) + ((3 * 4) / 5))");
}

#[test]
fn comparisons() {
    for (text, expected) in [
        ("==", "(1 == 2)"),
        ("!=", "(1 != 2)"),
        ("<", "(1 < 2)"),
        (">", "(1 > 2)"),
        ("<=", "(1 <= 2)"),
        (">=", "(1 >= 2)"),
    ] {
        let tree = expr(vec![
            sum(vec![product(vec![term(integer("1"))])]),
            op(text),
            sum(vec![product(vec![term(integer("2"))])]),
        ]);
        assert_eq!(shown(&tree), expected);
    }
}

#[test]
fn brackets_and_calls() {
    let inner = expr(vec![sum(vec![
        product(vec![term(integer("1"))]),
        op("+"),
        product(vec![term(integer("2"))]),
    ])]);
    let tree = expr(vec![sum(vec![product(vec![term(inner), op("*"), term(integer("3"))])])]);
    assert_eq!(shown(&tree), "((1 + 2) * 3)");
    let call = node(
        Rule::FunctionCall,
        "",
        vec![leaf(Rule::Identifier, "f"), simple(integer("1")), simple(variable("y"))],
    );
    assert_eq!(shown(&simple(call)), "f(1, y)");
    let call = node(Rule::FunctionCall, "", vec![leaf(Rule::Identifier, "g")]);
    assert_eq!(show(&BinLangParse::function_call_expr(&call).unwrap()), "g()");
}

#[test]
fn the_levels_can_be_built_on_their_own() {
    assert_eq!(show(&BinLangParse::term(&term(integer("7"))).unwrap()), "7");
    assert_eq!(
        show(
            &BinLangParse::product(&product(vec![term(integer("2")), op("*"), term(integer("3"))]))
                .unwrap()
        ),
        "(2 * 3)"
    );
    assert_eq!(
        show(
            &BinLangParse::sum(&sum(vec![
                product(vec![term(integer("2"))]),
                op("-"),
                product(vec![term(integer("3"))])
            ]))
            .unwrap()
        ),
        "(2 - 3)"
    );
}

#[test]
fn malformed_expressions() {
    let bad: Vec<Pair> = vec![
        expr(vec![]),
        simple(integer("12x")),
        simple(integer("99999999999999999999")),
        simple(leaf(Rule::Bool, "maybe")),
        simple(leaf(Rule::String, "\"")),
        simple(leaf(Rule::Float, "1.5")),
        simple(leaf(Rule::Block, "")),
        expr(vec![sum(vec![product(vec![term(integer("1")), op("+"), term(integer("2"))])])]),
        expr(vec![sum(vec![product(vec![term(integer("1"))]), op("*")])]),
        expr(vec![sum(vec![product(vec![term(integer("1"))]), op("+")])]),
        expr(vec![sum(vec![product(vec![term(integer("1"))])]), op("+")]),
        simple(node(Rule::FunctionCall, "", vec![])),
    ];
    for tree in &bad {
        assert_eq!(BinLangParse::expr(tree).err(), Some(Malformed), "{tree:?}");
    }
}

fn assignment(rule: Rule, name: &str, value: Pair) -> Pair {
    node(rule, "", vec![leaf(Rule::Identifier, name), simple(value)])
}

fn describe(statement: &Statement) -> String {
    match statement {
        Statement::Assignment { identifier, expression } => {
            format!("{} := {}", identifier.to_string(), show(expression))
        }
        Statement::Reassignment { identifier, expression } => {
            format!("{} = {}", identifier.to_string(), show(expression))
        }
        Statement::FunctionCall { func_name, args } => format!(
            "{}({})",
            func_name.to_string(),
            args.iter().map(show).collect::<Vec<_>>().join(", ")
        ),
        Statement::FunctionDeclaration { func_name, args, body } => format!(
            "fn {}({}) {}",
            func_name.to_string(),
            args.iter().map(|a| a.to_string()).collect::<Vec<_>>().join(", "),
            body_of(body)
        ),
        Statement::Conditional { body, else_body } => {
            let mut out = String::new();
            for (condition, statements) in body {
                out += &format!("if {} {} ", show(condition), body_of(statements));
            }
            match else_body {
                Some(statements) => out + &format!("else {}", body_of(statements)),
                None => out.trim_end().to_string(),
            }
        }
        Statement::WhileLoop { condition, body } => {
            format!("while {} {}", show(condition), body_of(body))
        }
        Statement::Break => "break".to_string(),
        Statement::Continue => "continue".to_string(),
        Statement::EOI => "eoi".to_string(),
        Statement::Return(expression) => format!("return {}", show(expression)),
        Statement::Comment(text) => format!("comment {text}"),
    }
}

fn body_of(statements: &[Statement]) -> String {
    format!("{{{}}}", statements.iter().map(describe).collect::<Vec<_>>().join("; "))
}

fn statement(pair: &Pair, in_a_loop: bool, in_a_function: bool) -> Option<String> {
    BinLangParse::statement(pair, in_a_loop, in_a_function)
        .expect("well formed")
        .map(|s| describe(&s))
}

#[test]
fn simple_statements() {
    let assign = assignment(Rule::VariableAssignment, "x", integer("1"));
    assert_eq!(statement(&assign, false, false).unwrap(), "x := 1");
    assert_eq!(describe(&BinLangParse::variable_assignment(&assign).unwrap()), "x := 1");
    let reassign = assignment(Rule::VariableReassignment, "x", integer("2"));
    assert_eq!(statement(&reassign, false, false).unwrap(), "x = 2");
    assert_eq!(describe(&BinLangParse::variable_reassignment(&reassign).unwrap()), "x = 2");
    let call = node(Rule::FunctionCall, "", vec![leaf(Rule::Identifier, "print"), simple(variable("x"))]);
    assert_eq!(statement(&call, false, false).unwrap(), "print(x)");
    assert_eq!(describe(&BinLangParse::function_call(&call).unwrap()), "print(x)");
    assert_eq!(statement(&leaf(Rule::EOI, ""), false, false).unwrap(), "eoi");
    assert_eq!(
        statement(&leaf(Rule::SingleLineComment, "// c"), false, false).unwrap(),
        "comment // c"
    );
    assert_eq!(
        statement(&leaf(Rule::MultiLineComment, "/* c */"), true, true).unwrap(),
        "comment /* c */"
    );
}

#[test]
fn statements_that_have_no_place_are_left_out() {
    let ret = node(Rule::ReturnStatement, "", vec![simple(integer("1"))]);
    assert_eq!(statement(&ret, false, false), None);
    assert_eq!(statement(&ret, false, true).unwrap(), "return 1");
    assert_eq!(describe(&BinLangParse::return_statement(&ret).unwrap()), "return 1");
    assert_eq!(statement(&leaf(Rule::BreakStatement, "break"), false, true), None);
    assert_eq!(statement(&leaf(Rule::BreakStatement, "break"), true, false).unwrap(), "break");
    assert_eq!(statement(&leaf(Rule::ContinueStatement, "continue"), false, false), None);
    assert_eq!(
        statement(&leaf(Rule::ContinueStatement, "continue"), true, false).unwrap(),
        "continue"
    );
    let definition = node(
        Rule::FunctionDefinition,
        "",
        vec![leaf(Rule::Identifier, "f"), block(vec![])],
    );
    assert_eq!(statement(&definition, false, true), None);
    assert_eq!(statement(&definition, false, false).unwrap(), "fn f() {}");
}

#[test]
fn conditionals() {
    let branch = |value: &str, name: &str| {
        vec![simple(leaf(Rule::Bool, value)), block(vec![assignment(Rule::VariableAssignment, name, integer("1"))])]
    };
    let mut inner = branch("true", "a");
    inner.extend(branch("false", "b"));
    let without_else = node(Rule::Conditional, "", inner);
    assert_eq!(
        statement(&without_else, false, false).unwrap(),
        "if true {a := 1} if false {b := 1}"
    );
    let mut inner = branch("true", "a");
    inner.push(block(vec![leaf(Rule::BreakStatement, "break")]));
    let with_else = node(Rule::Conditional, "", inner);
    assert_eq!(statement(&with_else, false, false).unwrap(), "if true {a := 1} else {break}");
    assert_eq!(
        describe(&BinLangParse::conditional(&with_else, false).unwrap()),
        "if true {a := 1} else {break}"
    );
    let only_else = node(Rule::Conditional, "", vec![block(vec![])]);
    assert_eq!(statement(&only_else, false, false).unwrap(), "else {}");
    let other = node(Rule::Conditional, "", vec![leaf(Rule::EOI, "")]);
    assert_eq!(statement(&other, false, false).unwrap(), "");
}

#[test]
fn a_return_in_a_branch_needs_a_function() {
    let ret = node(Rule::ReturnStatement, "", vec![simple(integer("1"))]);
    let tree = node(
        Rule::Conditional,
        "",
        vec![simple(leaf(Rule::Bool, "true")), block(vec![ret])],
    );
    assert_eq!(BinLangParse::conditional(&tree, false).err(), Some(Malformed));
    assert_eq!(
        describe(&BinLangParse::conditional(&tree, true).unwrap()),
        "if true {return 1}"
    );
}

#[test]
fn while_loops_and_function_definitions() {
    let tree = node(
        Rule::WhileLoop,
        "",
        vec![
            simple(leaf(Rule::Bool, "true")),
            block(vec![leaf(Rule::ContinueStatement, "continue"), leaf(Rule::BreakStatement, "break")]),
        ],
    );
    assert_eq!(statement(&tree, false, false).unwrap(), "while true {continue; break}");
    assert_eq!(
        describe(&BinLangParse::while_loop(&tree, false).unwrap()),
        "while true {continue; break}"
    );
    let ret = node(Rule::ReturnStatement, "", vec![simple(variable("a"))]);
    let definition = node(
        Rule::FunctionDefinition,
        "",
        vec![
            leaf(Rule::Identifier, "first"),
            leaf(Rule::Identifier, "a"),
            leaf(Rule::Identifier, "b"),
            block(vec![ret]),
        ],
    );
    assert_eq!(statement(&definition, false, false).unwrap(), "fn first(a, b) {return a}");
    assert_eq!(
        describe(&BinLangParse::function_definition(&definition).unwrap()),
        "fn first(a, b) {return a}"
    );
    let body = BinLangParse::block(&block(vec![leaf(Rule::EOI, "")]), false, false).unwrap();
    assert_eq!(body_of(&body), "{eoi}");
}

#[test]
fn malformed_statements() {
    let bad: Vec<(Pair, bool)> = vec![
        (leaf(Rule::Program, ""), true),
        (leaf(Rule::Term, ""), true),
        (node(Rule::VariableAssignment, "", vec![leaf(Rule::Identifier, "x")]), true),
        (node(Rule::ReturnStatement, "", vec![]), true),
        (node(Rule::Conditional, "", vec![]), true),
        (node(Rule::Conditional, "", vec![simple(leaf(Rule::Bool, "true"))]), true),
        (node(Rule::WhileLoop, "", vec![simple(leaf(Rule::Bool, "true"))]), true),
        (node(Rule::FunctionDefinition, "", vec![]), false),
        (node(Rule::FunctionDefinition, "", vec![leaf(Rule::Identifier, "f")]), false),
        (
            node(
                Rule::FunctionDefinition,
                "",
                vec![leaf(Rule::Identifier, "f"), leaf(Rule::Identifier, "a")],
            ),
            false,
        ),
        (
            node(
                Rule::WhileLoop,
                "",
                vec![
                    simple(leaf(Rule::Bool, "true")),
                    block(vec![node(Rule::ReturnStatement, "", vec![simple(integer("1"))])]),
                ],
            ),
            false,
        ),
    ];
    for (tree, in_a_function) in &bad {
        assert_eq!(
            BinLangParse::statement(tree, true, *in_a_function).err(),
            Some(Malformed),
            "{tree:?}"
        );
    }
    let nested = node(
        Rule::FunctionDefinition,
        "",
        vec![
            leaf(Rule::Identifier, "f"),
            block(vec![node(
                Rule::FunctionDefinition,
                "",
                vec![leaf(Rule::Identifier, "g"), block(vec![])],
            )]),
        ],
    );
    assert_eq!(BinLangParse::statement(&nested, false, false).err(), Some(Malformed));
}

#[test]
fn a_program_is_split_into_statements_and_functions() {
    let definition = |name: &str| {
        node(Rule::FunctionDefinition, "", vec![leaf(Rule::Identifier, name), block(vec![])])
    };
    let pairs = vec![
        assignment(Rule::VariableAssignment, "x", integer("1")),
        definition("f"),
        leaf(Rule::BreakStatement, "break"),
        node(Rule::ReturnStatement, "", vec![simple(integer("1"))]),
        definition("g"),
        assignment(Rule::VariableReassignment, "x", integer("2")),
        leaf(Rule::EOI, ""),
    ];
    let (statements, functions) = BinLangParse::data(&pairs).unwrap();
    assert_eq!(body_of(&statements), "{x := 1; x = 2; eoi}");
    assert_eq!(body_of(&functions), "{fn f() {}; fn g() {}}");
    assert_eq!(BinLangParse::data(&vec![leaf(Rule::Sum, "")]).err(), Some(Malformed));
    let (statements, functions) = BinLangParse::data(&vec![]).unwrap();
    assert!(statements.is_empty() && functions.is_empty());
}

#[test]
fn a_parsed_program_translates() {
    let pairs = vec![
        assignment(Rule::VariableAssignment, "x", integer("40")),
        node(
            Rule::FunctionCall,
            "",
            vec![
                leaf(Rule::Identifier, "print"),
                expr(vec![sum(vec![
                    product(vec![term(variable("x"))]),
                    op("+"),
                    product(vec![term(integer("2"))]),
                ])]),
            ],
        ),
        leaf(Rule::EOI, ""),
    ];
    let (statements, functions) = BinLangParse::data(&pairs).unwrap();
    let program = BinLangTranslationUnit::try_translate(statements, functions).unwrap();
    assert_eq!(
        program.instructions,
        vec![
            Instruction::Nop,
            Instruction::Jump { address: 2 },
            Instruction::Push { value: Value::Int(40) },
            Instruction::Store { address: 0 },
            Instruction::Load { address: 0 },
            Instruction::Push { value: Value::Int(2) },
            Instruction::Add,
            Instruction::Push { value: Value::Int(1) },
            Instruction::ExternCall { string_id: 0 },
            Instruction::Nop,
        ]
    );
}
