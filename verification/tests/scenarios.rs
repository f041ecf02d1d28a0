use binlang::bincompiler::parser::{BinLangParse, Pair, Rule, GRAMMAR};
use binlang::bincompiler::translation::BinLangTranslationUnit;
use binlang::bincore::data::value::Value;
use binlang::bincore::executable::machine::{FloatOperation, Outcome, Request};
use binlang::binrunner::{call, register, Fragment};

fn node(pair: pest::iterators::Pair<'_, &str>) -> Pair {
    let rule = Rule::from_name(pair.as_rule()).expect("a rule of the grammar");
    let text = pair.as_str().to_string();
    let float = match rule {
        Rule::Float => text.parse::<f64>().ok().map(f64::to_bits),
        _ => None,
    };
    Pair { rule, text, inner: pair.into_inner().map(node).collect(), float }
}

// A program has its parser generated from the grammar by pest's derive. Here
// the text of `GRAMMAR` itself is run, by pest's interpreter, so that what is
// tested is the grammar as the library holds it.
fn tree(source: &str) -> Vec<Pair> {
    let (_, rules) = pest_meta::parse_and_optimize(GRAMMAR).expect("the grammar is well formed");
    let vm = pest_vm::Vm::new(rules);
    let pairs = vm.parse("program", source).expect("the source is a program");
    pairs.map(node).collect()
}

fn render(line: Vec<Fragment>) -> String {
    line.into_iter()
        .map(|fragment| match fragment {
            Fragment::Text(text) => text,
            Fragment::Float(bits) => f64::from_bits(bits).to_string(),
        })
        .collect()
}

fn float_result(operation: FloatOperation, left: u64, right: u64) -> u64 {
    let (a, b) = (f64::from_bits(left), f64::from_bits(right));
    let r = match operation {
        FloatOperation::Add => a + b,
        FloatOperation::Sub => a - b,
        FloatOperation::Mul => a * b,
        FloatOperation::Div => a / b,
        FloatOperation::Mod => a % b,
        FloatOperation::Pow => a.powf(b),
    };
    r.to_bits()
}

fn stdout(source: &str) -> String {
    let (statements, functions) = BinLangParse::data(&tree(source)).expect("well formed");
    let program = BinLangTranslationUnit::try_translate(statements, functions).expect("translates");
    let mut runtime = program.into_runtime();
    register(&mut runtime);
    let mut out = String::new();
    loop {
        match runtime.run(1_000_000) {
            Outcome::Halted => return out,
            Outcome::Request(Request::Extern { function }) => {
                if let Some(line) = call(&mut runtime, function).expect("host function") {
                    out += &render(line);
                    out += "\n";
                }
            }
            Outcome::Request(Request::Float { operation, left, right }) => {
                runtime.stack_push(Value::Float(float_result(operation, left, right)));
            }
            other => panic!("the run ended with {other:?}"),
        }
    }
}

#[test]
fn scenario_arithmetic() {
    assert_eq!(stdout("x = 2 + 3 * 4; print(x)"), "14\n");
}

#[test]
fn scenario_conditional() {
    assert_eq!(
        stdout("if 1 == 2 { print(\"a\") } elif 3 > 2 { print(\"b\") } else { print(\"c\") }"),
        "b\n"
    );
}

#[test]
fn scenario_while_with_break() {
    assert_eq!(stdout("i = 0; while i < 10 { if i == 3 { break } i = i + 1 } print(i)"), "3\n");
}

#[test]
fn scenario_user_function_and_call() {
    assert_eq!(stdout("fn add(a, b) { return a + b } print(add(40, 2))"), "42\n");
}

#[test]
fn scenario_lists_via_externs() {
    assert_eq!(stdout("xs = new_list(); push(1, xs); push(2, xs); print(len(xs))"), "2\n");
}

#[test]
fn scenario_string_concat_and_compare() {
    assert_eq!(stdout("s = \"a\" + \"b\"; if s == \"ab\" { print(\"ok\") }"), "ok\n");
}

#[test]
fn precedence_and_brackets() {
    assert_eq!(stdout("print(2 + 3 * 4, (2 + 3) * 4, 20 / 2 / 5, 10 - 2 - 3)"), "14 20 2 5\n");
    assert_eq!(stdout("print(1 + 2 == 3, 1 + 2 < 3, 2 * 2 >= 4)"), "true false true\n");
}

#[test]
fn names_that_begin_like_keywords_are_names() {
    assert_eq!(
        stdout("breakfast = 1; returns = 2; iffy = 3; print(breakfast + returns + iffy)"),
        "6\n"
    );
}

#[test]
fn comments_and_floats() {
    assert_eq!(
        stdout("// start\nlet x = 1.5 /* half more */ x = x + 2.25; print(x, 1_000)"),
        "3.75 1000\n"
    );
}

#[test]
fn list_functions_end_to_end() {
    assert_eq!(
        stdout(
            "xs = new_list_with_values(1, 2, 3); index_set(xs, 0, 9); print(xs, index_get(xs, 2)); \
             print(pop(xs), len(xs), new_list_with_default_values(2, \"z\"), index_get(\"héllo\", 1))"
        ),
        "[9, 2, 3] 3\n3 3 [z, z] é\n"
    );
}

#[test]
fn arguments_are_evaluated_from_the_right() {
    assert_eq!(stdout("xs = new_list_with_values(1, 2); print(pop(xs), len(xs))"), "2 2\n");
    assert_eq!(stdout("xs = new_list_with_values(1, 2); print(len(xs), pop(xs))"), "1 2\n");
}

#[test]
fn continue_skips_the_rest_of_the_body() {
    assert_eq!(
        stdout(
            "i = 0; while i < 5 { i = i + 1; if i == 2 { continue } elif i == 4 { break } print(i) }"
        ),
        "1\n3\n"
    );
}

#[test]
fn nested_calls_and_functions_without_parameters() {
    assert_eq!(
        stdout(
            "fn one() { return 1 } fn twice(n) { return n * 2 } print(twice(twice(one()) + one()))"
        ),
        "6\n"
    );
}

#[test]
fn a_return_outside_a_function_is_left_out() {
    assert_eq!(stdout("return 1; print(2)"), "2\n");
}

#[test]
fn nested_loops_break_the_inner_loop_only() {
    assert_eq!(
        stdout(
            "i = 0; while i < 3 { j = 0; while true { if j == i { break } j = j + 1 } \
             print(i, j); i = i + 1 }"
        ),
        "0 0\n1 1\n2 2\n"
    );
}

#[test]
fn a_function_with_a_loop_returns_from_inside_it() {
    assert_eq!(
        stdout(
            "fn first_above(limit) { n = 0; while true { n = n + 7; if n > limit { return n } } } \
             print(first_above(30), first_above(0))"
        ),
        "35 7\n"
    );
}

#[test]
fn lists_and_strings_compare_by_content() {
    assert_eq!(
        stdout(
            "a = new_list_with_values(1, \"x\"); b = new_list_with_values(1, \"x\"); \
             c = new_list_with_values(1); print(a == b, a == c, a != c, a + c)"
        ),
        "true false true [1, x, 1]\n"
    );
    assert_eq!(stdout("print(\"ab\" + \"c\" == \"a\" + \"bc\", \"a\" != \"b\")"), "true true\n");
}

#[test]
fn float_comparisons_and_arithmetic() {
    assert_eq!(
        stdout("x = 0.5 * 4.0 - 0.25; print(x, x < 2.0, x >= 1.75, x == 1.75, 7.5 / 2.5)"),
        "1.75 true true true 3\n"
    );
}

#[test]
fn integer_division_and_negative_literals() {
    assert_eq!(stdout("print(7 / 2, -7 / 2, 7 / -2, 2 - -3)"), "3 -3 -3 5\n");
}
