//! From the parse tree to the syntax tree.
//!
//! The parse tree is what the grammar yields: each node has the rule it was
//! made by, the text it covers, and the nodes inside it. A tree that does not
//! have the shape that the grammar gives it is malformed.

use vstd::prelude::*;
use crate::bincompiler::ast::{
    commands, formulas, guarded, lemma_commands_push, lemma_formulas_push, lemma_guarded_push,
    names, Command, Expression, Formula, Identifier, Name, Statement,
};
use crate::bincore::executable::runnable::Instruction;
use crate::text::{chars_of, int_of, owned, parse_i64, remove, removed, same_text, str_eq};

verus! {

/// The rules of the grammar.
#[derive(Clone, Copy, Debug, PartialEq, Eq, Structural)]
pub enum Rule {
    Program,
    Identifier,
    IdentifierWithDots,
    UsableIdentifier,
    FunctionCall,
    String,
    Float,
    Integer,
    Bool,
    Expr,
    Sum,
    Product,
    Term,
    Operator,
    VariableAssignment,
    VariableReassignment,
    ReturnStatement,
    Conditional,
    Block,
    WhileLoop,
    BreakStatement,
    ContinueStatement,
    FunctionDefinition,
    EOI,
    SingleLineComment,
    MultiLineComment,
}

/// The grammar of the language, in the notation of parsing expression
/// grammars. The nodes of the parse tree are named after its rules; the rule
/// `program` yields the nodes of the statements of a program.
pub const GRAMMAR: &'static str = "\
WHITESPACE = _{ \" \" | \"\\t\" | \"\\r\" | \"\\n\" }\n\
\n\
program = _{ SOI ~ (statement ~ \";\"?)* ~ EOI }\n\
\n\
statement = _{\n\
    variable_assignment\n\
  | variable_reassignment\n\
  | function_call\n\
  | function_definition\n\
  | conditional\n\
  | while_loop\n\
  | return_statement\n\
  | break_statement\n\
  | continue_statement\n\
  | single_line_comment\n\
  | multi_line_comment\n\
}\n\
\n\
keyword = @{\n\
    (\"let\" | \"fn\" | \"if\" | \"elif\" | \"else\" | \"while\" | \"break\" | \"continue\" | \"return\" | \"true\" | \"false\")\n\
    ~ !(ASCII_ALPHANUMERIC | \"_\")\n\
}\n\
identifier = @{ !keyword ~ (ASCII_ALPHA | \"_\") ~ (ASCII_ALPHANUMERIC | \"_\")* }\n\
identifier_with_dots = ${ identifier ~ (\".\" ~ identifier)+ }\n\
usable_identifier = { identifier_with_dots | identifier }\n\
\n\
string = @{ \"\\\"\" ~ (!\"\\\"\" ~ ANY)* ~ \"\\\"\" }\n\
float = @{ \"-\"? ~ ASCII_DIGIT+ ~ \".\" ~ ASCII_DIGIT+ }\n\
integer = @{ \"-\"? ~ ASCII_DIGIT ~ (ASCII_DIGIT | \"_\")* }\n\
bool = @{ (\"true\" | \"false\") ~ !(ASCII_ALPHANUMERIC | \"_\") }\n\
\n\
comparison_operator = { \"==\" | \"!=\" | \"<=\" | \">=\" | \"<\" | \">\" }\n\
sum_operator = { \"+\" | \"-\" }\n\
product_operator = { \"*\" | \"/\" }\n\
\n\
expr = { sum ~ (comparison_operator ~ sum)* }\n\
sum = { product ~ (sum_operator ~ product)* }\n\
product = { term ~ (product_operator ~ term)* }\n\
term = { string | float | integer | bool | function_call | usable_identifier | \"(\" ~ expr ~ \")\" }\n\
\n\
function_call = { identifier ~ \"(\" ~ (expr ~ (\",\" ~ expr)*)? ~ \")\" }\n\
variable_assignment = { \"let\" ~ identifier ~ \"=\" ~ !\"=\" ~ expr }\n\
variable_reassignment = { identifier ~ \"=\" ~ !\"=\" ~ expr }\n\
return_statement = { \"return\" ~ expr }\n\
break_statement = { \"break\" }\n\
continue_statement = { \"continue\" }\n\
\n\
block = { \"{\" ~ (statement ~ \";\"?)* ~ \"}\" }\n\
conditional = { \"if\" ~ expr ~ block ~ (\"elif\" ~ expr ~ block)* ~ (\"else\" ~ block)? }\n\
while_loop = { \"while\" ~ expr ~ block }\n\
function_definition = { \"fn\" ~ identifier ~ \"(\" ~ (identifier ~ (\",\" ~ identifier)*)? ~ \")\" ~ block }\n\
\n\
single_line_comment = @{ \"//\" ~ (!\"\\n\" ~ ANY)* }\n\
multi_line_comment = @{ \"/*\" ~ (!\"*/\" ~ ANY)* ~ \"*/\" }\n";

/// The rule with the given name in the grammar.
pub open spec fn rule_named(name: Seq<char>) -> Option<Rule> {
    if name == "identifier"@ {
        Some(Rule::Identifier)
    } else if name == "identifier_with_dots"@ {
        Some(Rule::IdentifierWithDots)
    } else if name == "usable_identifier"@ {
        Some(Rule::UsableIdentifier)
    } else if name == "function_call"@ {
        Some(Rule::FunctionCall)
    } else if name == "string"@ {
        Some(Rule::String)
    } else if name == "float"@ {
        Some(Rule::Float)
    } else if name == "integer"@ {
        Some(Rule::Integer)
    } else if name == "bool"@ {
        Some(Rule::Bool)
    } else if name == "expr"@ {
        Some(Rule::Expr)
    } else if name == "sum"@ {
        Some(Rule::Sum)
    } else if name == "product"@ {
        Some(Rule::Product)
    } else if name == "term"@ {
        Some(Rule::Term)
    } else if name == "comparison_operator"@ || name == "sum_operator"@ || name
        == "product_operator"@ {
        Some(Rule::Operator)
    } else if name == "variable_assignment"@ {
        Some(Rule::VariableAssignment)
    } else if name == "variable_reassignment"@ {
        Some(Rule::VariableReassignment)
    } else if name == "return_statement"@ {
        Some(Rule::ReturnStatement)
    } else if name == "conditional"@ {
        Some(Rule::Conditional)
    } else if name == "block"@ {
        Some(Rule::Block)
    } else if name == "while_loop"@ {
        Some(Rule::WhileLoop)
    } else if name == "break_statement"@ {
        Some(Rule::BreakStatement)
    } else if name == "continue_statement"@ {
        Some(Rule::ContinueStatement)
    } else if name == "function_definition"@ {
        Some(Rule::FunctionDefinition)
    } else if name == "EOI"@ {
        Some(Rule::EOI)
    } else if name == "single_line_comment"@ {
        Some(Rule::SingleLineComment)
    } else if name == "multi_line_comment"@ {
        Some(Rule::MultiLineComment)
    } else if name == "program"@ {
        Some(Rule::Program)
    } else {
        None
    }
}

impl Rule {
    /// The rule with the given name in the grammar.
    pub fn from_name(name: &str) -> (rule: Option<Rule>)
        ensures
            rule == rule_named(name@),
    {
        let chars = chars_of(name);
        if same_text("identifier", &chars) {
            Some(Rule::Identifier)
        } else if same_text("identifier_with_dots", &chars) {
            Some(Rule::IdentifierWithDots)
        } else if same_text("usable_identifier", &chars) {
            Some(Rule::UsableIdentifier)
        } else if same_text("function_call", &chars) {
            Some(Rule::FunctionCall)
        } else if same_text("string", &chars) {
            Some(Rule::String)
        } else if same_text("float", &chars) {
            Some(Rule::Float)
        } else if same_text("integer", &chars) {
            Some(Rule::Integer)
        } else if same_text("bool", &chars) {
            Some(Rule::Bool)
        } else if same_text("expr", &chars) {
            Some(Rule::Expr)
        } else if same_text("sum", &chars) {
            Some(Rule::Sum)
        } else if same_text("product", &chars) {
            Some(Rule::Product)
        } else if same_text("term", &chars) {
            Some(Rule::Term)
        } else if same_text("comparison_operator", &chars) || same_text("sum_operator", &chars)
            || same_text("product_operator", &chars) {
            Some(Rule::Operator)
        } else if same_text("variable_assignment", &chars) {
            Some(Rule::VariableAssignment)
        } else if same_text("variable_reassignment", &chars) {
            Some(Rule::VariableReassignment)
        } else if same_text("return_statement", &chars) {
            Some(Rule::ReturnStatement)
        } else if same_text("conditional", &chars) {
            Some(Rule::Conditional)
        } else if same_text("block", &chars) {
            Some(Rule::Block)
        } else if same_text("while_loop", &chars) {
            Some(Rule::WhileLoop)
        } else if same_text("break_statement", &chars) {
            Some(Rule::BreakStatement)
        } else if same_text("continue_statement", &chars) {
            Some(Rule::ContinueStatement)
        } else if same_text("function_definition", &chars) {
            Some(Rule::FunctionDefinition)
        } else if same_text("EOI", &chars) {
            Some(Rule::EOI)
        } else if same_text("single_line_comment", &chars) {
            Some(Rule::SingleLineComment)
        } else if same_text("multi_line_comment", &chars) {
            Some(Rule::MultiLineComment)
        } else if same_text("program", &chars) {
            Some(Rule::Program)
        } else {
            None
        }
    }
}

/// A node of the parse tree.
#[derive(Debug)]
pub struct Pair {
    pub rule: Rule,
    /// The text that the node covers.
    pub text: String,
    /// The nodes inside the node, in the order of the text.
    pub inner: Vec<Pair>,
    /// For a float literal, the bit pattern of the number that the text
    /// stands for.
    pub float: Option<u64>,
}

/// The tree does not have the shape that the grammar gives it.
#[derive(Clone, Copy, Debug, PartialEq, Eq, Structural)]
pub struct Malformed;

/// What is built from a tree, if the tree is well formed.
pub type Built<T> = Result<T, Malformed>;

/// The three levels of binary operators, from the loosest to the tightest.
#[derive(Clone, Copy, Debug, PartialEq, Eq, Structural)]
pub enum Level {
    /// `==`, `!=`, `<`, `>`, `<=`, `>=`, between sums.
    Comparison,
    /// `+` and `-`, between products.
    Sum,
    /// `*` and `/`, between terms.
    Product,
}

/// The number of nodes of a tree.
pub open spec fn weight(pair: Pair) -> nat
    decreases pair,
{
    1 + weights(pair.inner@)
}

/// The number of nodes of a sequence of trees.
pub open spec fn weights(pairs: Seq<Pair>) -> nat
    decreases pairs,
{
    if pairs.len() == 0 {
        0
    } else {
        weights(pairs.drop_last()) + weight(pairs.last())
    }
}

/// A tree of a sequence is no larger than the sequence.
pub proof fn lemma_weight_within(pairs: Seq<Pair>, i: int)
    requires
        0 <= i < pairs.len(),
    ensures
        weight(pairs[i]) <= weights(pairs),
    decreases pairs.len(),
{
    if i < pairs.len() - 1 {
        lemma_weight_within(pairs.drop_last(), i);
    }
}

/// The texts of the nodes.
pub open spec fn covered(pairs: Seq<Pair>) -> Seq<Seq<char>> {
    Seq::new(pairs.len(), |i: int| pairs[i].text@)
}

/// The name that an identifier node stands for: its text.
pub open spec fn single(pair: Pair) -> Name {
    Name::Single(pair.text@)
}

/// The name that a dotted identifier stands for: the texts of its parts.
pub open spec fn dotted(pair: Pair) -> Name {
    Name::Dotted(covered(pair.inner@))
}

/// The name that a usable identifier stands for: that of the node inside it.
pub open spec fn usable(pair: Pair) -> Built<Name> {
    if pair.inner.len() == 0 {
        Err(Malformed)
    } else {
        match pair.inner@[0].rule {
            Rule::Identifier => Ok(single(pair.inner@[0])),
            Rule::IdentifierWithDots => Ok(dotted(pair.inner@[0])),
            _ => Err(Malformed),
        }
    }
}

/// The text of a string literal: what stands between its quotes.
pub open spec fn quoted(text: Seq<char>) -> Built<Formula> {
    if text.len() >= 2 && text[0] <= '\u{7f}' && text.last() <= '\u{7f}' {
        Ok(Formula::String(text.subrange(1, text.len() - 1)))
    } else {
        Err(Malformed)
    }
}

/// The integer of an integer literal, in which underscores may separate
/// digits.
pub open spec fn integer(text: Seq<char>) -> Built<Formula> {
    match int_of(removed(text, '_')) {
        Some(value) => Ok(Formula::Int(value)),
        None => Err(Malformed),
    }
}

/// The boolean of a boolean literal.
pub open spec fn truth(text: Seq<char>) -> Built<Formula> {
    if text == "true"@ {
        Ok(Formula::Bool(true))
    } else if text == "false"@ {
        Ok(Formula::Bool(false))
    } else {
        Err(Malformed)
    }
}

/// The opcode of an operator of the given level.
pub open spec fn operation(level: Level, text: Seq<char>) -> Option<Instruction> {
    match level {
        Level::Comparison => if text == "=="@ {
            Some(Instruction::Eq)
        } else if text == "!="@ {
            Some(Instruction::Neq)
        } else if text == "<"@ {
            Some(Instruction::Lt)
        } else if text == ">"@ {
            Some(Instruction::Gt)
        } else if text == "<="@ {
            Some(Instruction::Lte)
        } else if text == ">="@ {
            Some(Instruction::Gte)
        } else {
            None
        },
        Level::Sum => if text == "+"@ {
            Some(Instruction::Add)
        } else if text == "-"@ {
            Some(Instruction::Sub)
        } else {
            None
        },
        Level::Product => if text == "*"@ {
            Some(Instruction::Mul)
        } else if text == "/"@ {
            Some(Instruction::Div)
        } else {
            None
        },
    }
}

/// The place of a level among the levels: the looser, the higher.
pub open spec fn rank(level: Level) -> nat {
    match level {
        Level::Comparison => 3,
        Level::Sum => 2,
        Level::Product => 1,
    }
}

/// The expression of a term: a literal, a variable, a call, or an expression
/// in brackets.
pub open spec fn term_of(pair: Pair) -> Built<Formula>
    decreases pair, 0nat,
{
    if pair.inner@.len() == 0 {
        Err(Malformed)
    } else {
        let current = pair.inner@.first();
        match current.rule {
            Rule::String => quoted(current.text@),
            Rule::Float => match current.float {
                Some(bits) => Ok(Formula::Float(bits)),
                None => Err(Malformed),
            },
            Rule::Integer => integer(current.text@),
            Rule::Bool => truth(current.text@),
            Rule::UsableIdentifier => match usable(current) {
                Ok(name) => Ok(Formula::Variable(name)),
                Err(e) => Err(e),
            },
            Rule::FunctionCall => match call_of(current) {
                Ok((func_name, args)) => Ok(Formula::FunctionCall { func_name, args }),
                Err(e) => Err(e),
            },
            Rule::Expr => chain_of(Level::Comparison, current),
            _ => Err(Malformed),
        }
    }
}

/// The name and the arguments of a call: the first node is the name, each
/// further node an expression.
pub open spec fn call_of(pair: Pair) -> Built<(Name, Seq<Formula>)>
    decreases pair, 8nat,
{
    if pair.inner@.len() == 0 {
        Err(Malformed)
    } else {
        match exprs_of(pair.inner@.drop_first()) {
            Ok(args) => Ok((single(pair.inner@.first()), args)),
            Err(e) => Err(e),
        }
    }
}

/// The expressions of a sequence of expression nodes.
pub open spec fn exprs_of(pairs: Seq<Pair>) -> Built<Seq<Formula>>
    decreases pairs, 0nat,
{
    if pairs.len() == 0 {
        Ok(Seq::empty())
    } else {
        match chain_of(Level::Comparison, pairs.first()) {
            Err(e) => Err(e),
            Ok(one) => match exprs_of(pairs.drop_first()) {
                Err(e) => Err(e),
                Ok(rest) => Ok(seq![one] + rest),
            },
        }
    }
}

/// An operand of an operator of the given level.
pub open spec fn operand_of(level: Level, pair: Pair) -> Built<Formula>
    decreases pair, 2 * rank(level),
{
    match level {
        Level::Comparison => chain_of(Level::Sum, pair),
        Level::Sum => chain_of(Level::Product, pair),
        Level::Product => term_of(pair),
    }
}

/// The expression of a node of the given level: its operands, combined from
/// left to right by the operators between them.
pub open spec fn chain_of(level: Level, pair: Pair) -> Built<Formula>
    decreases pair, 2 * rank(level) + 1,
{
    if pair.inner@.len() == 0 {
        Err(Malformed)
    } else {
        match operand_of(level, pair.inner@.first()) {
            Err(e) => Err(e),
            Ok(left) => folded(level, pair.inner@.drop_first(), left),
        }
    }
}

/// `left` combined with the operands that follow, each behind its operator.
pub open spec fn folded(level: Level, rest: Seq<Pair>, left: Formula) -> Built<Formula>
    decreases rest, 0nat,
{
    if rest.len() == 0 {
        Ok(left)
    } else {
        match operation(level, rest.first().text@) {
            None => Err(Malformed),
            Some(opcode) => if rest.len() < 2 {
                Err(Malformed)
            } else {
                match operand_of(level, rest.drop_first().first()) {
                    Err(e) => Err(e),
                    Ok(right) => folded(
                        level,
                        rest.drop_first().drop_first(),
                        Formula::Binary { opcode, left: Box::new(left), right: Box::new(right) },
                    ),
                }
            },
        }
    }
}

/// The name and the expression of an assignment: the first node is the
/// name, the second the expression.
pub open spec fn assignment_of(pair: Pair) -> Built<(Name, Formula)> {
    if pair.inner@.len() < 2 {
        Err(Malformed)
    } else {
        match chain_of(Level::Comparison, pair.inner@[1]) {
            Ok(expression) => Ok((single(pair.inner@[0]), expression)),
            Err(e) => Err(e),
        }
    }
}

/// The expression of a return statement: that of its first node.
pub open spec fn return_of(pair: Pair) -> Built<Formula> {
    if pair.inner@.len() == 0 {
        Err(Malformed)
    } else {
        chain_of(Level::Comparison, pair.inner@[0])
    }
}

/// The statement of a node, or nothing where the statement has no place:
/// a return outside a function, a break or continue outside a loop, a
/// function definition inside a function.
pub open spec fn statement_of(pair: Pair, in_a_loop: bool, in_a_function: bool) -> Built<
    Option<Command>,
>
    decreases pair, 1nat,
{
    match pair.rule {
        Rule::VariableAssignment => match assignment_of(pair) {
            Ok((identifier, expression)) => Ok(Some(Command::Assignment { identifier, expression })),
            Err(e) => Err(e),
        },
        Rule::VariableReassignment => match assignment_of(pair) {
            Ok((identifier, expression)) => Ok(
                Some(Command::Reassignment { identifier, expression }),
            ),
            Err(e) => Err(e),
        },
        Rule::FunctionCall => match call_of(pair) {
            Ok((func_name, args)) => Ok(Some(Command::FunctionCall { func_name, args })),
            Err(e) => Err(e),
        },
        Rule::ReturnStatement => if !in_a_function {
            Ok(None)
        } else {
            match return_of(pair) {
                Ok(expression) => Ok(Some(Command::Return(expression))),
                Err(e) => Err(e),
            }
        },
        Rule::Conditional => match conditional_of(pair, in_a_function) {
            Ok((body, else_body)) => Ok(Some(Command::Conditional { body, else_body })),
            Err(e) => Err(e),
        },
        Rule::WhileLoop => match while_of(pair, in_a_function) {
            Ok((condition, body)) => Ok(Some(Command::WhileLoop { condition, body })),
            Err(e) => Err(e),
        },
        Rule::BreakStatement => if in_a_loop {
            Ok(Some(Command::Break))
        } else {
            Ok(None)
        },
        Rule::ContinueStatement => if in_a_loop {
            Ok(Some(Command::Continue))
        } else {
            Ok(None)
        },
        Rule::FunctionDefinition => if in_a_function {
            Ok(None)
        } else {
            match definition_of(pair) {
                Ok((func_name, args, body)) => Ok(
                    Some(Command::FunctionDeclaration { func_name, args, body }),
                ),
                Err(e) => Err(e),
            }
        },
        Rule::EOI => Ok(Some(Command::EOI)),
        Rule::SingleLineComment => Ok(Some(Command::Comment(pair.text@))),
        Rule::MultiLineComment => Ok(Some(Command::Comment(pair.text@))),
        _ => Err(Malformed),
    }
}

/// The statements of a block. A statement that has no place makes the block
/// malformed.
pub open spec fn block_of(pair: Pair, in_a_loop: bool, in_a_function: bool) -> Built<
    Seq<Command>,
>
    decreases pair, 0nat,
{
    items_of(pair.inner@, in_a_loop, in_a_function)
}

/// The statements of a sequence of nodes.
pub open spec fn items_of(pairs: Seq<Pair>, in_a_loop: bool, in_a_function: bool) -> Built<
    Seq<Command>,
>
    decreases pairs, 0nat,
{
    if pairs.len() == 0 {
        Ok(Seq::empty())
    } else {
        match statement_of(pairs.first(), in_a_loop, in_a_function) {
            Ok(Some(one)) => match items_of(pairs.drop_first(), in_a_loop, in_a_function) {
                Ok(rest) => Ok(seq![one] + rest),
                Err(e) => Err(e),
            },
            _ => Err(Malformed),
        }
    }
}

/// The branches and the else body of a conditional: as long as an expression
/// comes, it is a condition and the block behind it its body; a block that
/// comes in place of a condition is the else body.
pub open spec fn conditional_of(pair: Pair, in_a_function: bool) -> Built<
    (Seq<(Formula, Seq<Command>)>, Option<Seq<Command>>),
>
    decreases pair, 0nat,
{
    if pair.inner@.len() == 0 {
        Err(Malformed)
    } else {
        branches_of(pair.inner@, in_a_function, Seq::empty())
    }
}

/// The branches and the else body that follow the branches `done`.
pub open spec fn branches_of(
    rest: Seq<Pair>,
    in_a_function: bool,
    done: Seq<(Formula, Seq<Command>)>,
) -> Built<(Seq<(Formula, Seq<Command>)>, Option<Seq<Command>>)>
    decreases rest, 0nat,
{
    if rest.len() == 0 {
        Ok((done, None))
    } else if rest.first().rule is Expr {
        match chain_of(Level::Comparison, rest.first()) {
            Err(e) => Err(e),
            Ok(condition) => if rest.len() < 2 {
                Err(Malformed)
            } else {
                match block_of(rest.drop_first().first(), true, in_a_function) {
                    Err(e) => Err(e),
                    Ok(body) => branches_of(
                        rest.drop_first().drop_first(),
                        in_a_function,
                        done.push((condition, body)),
                    ),
                }
            },
        }
    } else if rest.first().rule is Block {
        match block_of(rest.first(), true, in_a_function) {
            Ok(otherwise) => Ok((done, Some(otherwise))),
            Err(e) => Err(e),
        }
    } else {
        Ok((done, None))
    }
}

/// The condition and the body of a while loop.
pub open spec fn while_of(pair: Pair, in_a_function: bool) -> Built<(Formula, Seq<Command>)>
    decreases pair, 0nat,
{
    if pair.inner@.len() < 2 {
        Err(Malformed)
    } else {
        match chain_of(Level::Comparison, pair.inner@.first()) {
            Err(e) => Err(e),
            Ok(condition) => match block_of(pair.inner@.drop_first().first(), true, in_a_function) {
                Ok(body) => Ok((condition, body)),
                Err(e) => Err(e),
            },
        }
    }
}

/// The name, the parameters and the body of a function definition: the first
/// node is the name, the identifiers behind it are the parameters, and the
/// node behind them is the body.
pub open spec fn definition_of(pair: Pair) -> Built<(Name, Seq<Name>, Seq<Command>)>
    decreases pair, 0nat,
{
    if pair.inner@.len() == 0 {
        Err(Malformed)
    } else {
        match parameters_of(pair.inner@.drop_first(), Seq::empty()) {
            Ok((args, body)) => Ok((single(pair.inner@.first()), args, body)),
            Err(e) => Err(e),
        }
    }
}

/// The parameters that follow the parameters `done`, and the body.
pub open spec fn parameters_of(rest: Seq<Pair>, done: Seq<Name>) -> Built<
    (Seq<Name>, Seq<Command>),
>
    decreases rest, 0nat,
{
    if rest.len() == 0 {
        Err(Malformed)
    } else if rest.first().rule is Identifier {
        parameters_of(rest.drop_first(), done.push(single(rest.first())))
    } else {
        match block_of(rest.first(), false, true) {
            Ok(body) => Ok((done, body)),
            Err(e) => Err(e),
        }
    }
}

/// The statements and the function declarations of a program, each in the
/// order of the text. A statement that has no place is left out.
pub open spec fn data_of(pairs: Seq<Pair>) -> Built<(Seq<Command>, Seq<Command>)>
    decreases pairs.len(),
{
    if pairs.len() == 0 {
        Ok((Seq::empty(), Seq::empty()))
    } else {
        match statement_of(pairs.first(), false, false) {
            Err(e) => Err(e),
            Ok(found) => match data_of(pairs.drop_first()) {
                Err(e) => Err(e),
                Ok((statements, functions)) => match found {
                    None => Ok((statements, functions)),
                    Some(one) => if one is FunctionDeclaration {
                        Ok((statements, seq![one] + functions))
                    } else {
                        Ok((seq![one] + statements, functions))
                    },
                },
            },
        }
    }
}

/// What a function that builds an expression returned, as plain values.
pub open spec fn formula(r: Built<Expression>) -> Built<Formula> {
    match r {
        Ok(e) => Ok(e@),
        Err(e) => Err(e),
    }
}

/// The binary expression with the given operator.
fn binary(opcode: Instruction, left: Expression, right: Expression) -> (e: Expression)
    requires
        exists|level: Level, text: Seq<char>| operation(level, text) == Some(opcode),
    ensures
        e@ == (Formula::Binary { opcode, left: Box::new(left@), right: Box::new(right@) }),
{
    let left = Box::new(left);
    let right = Box::new(right);
    match opcode {
        Instruction::Eq => Expression::Equal { left, right },
        Instruction::Neq => Expression::NotEqual { left, right },
        Instruction::Lt => Expression::LessThan { left, right },
        Instruction::Gt => Expression::GreaterThan { left, right },
        Instruction::Gte => Expression::GreaterThanOrEqual { left, right },
        Instruction::Add => Expression::Addition { left, right },
        Instruction::Sub => Expression::Subtraction { left, right },
        Instruction::Mul => Expression::Multiplication { left, right },
        Instruction::Div => Expression::Division { left, right },
        _ => Expression::LessThanOrEqual { left, right },
    }
}

/// The opcode of an operator of the given level.
fn operator(level: Level, text: &str) -> (r: Option<Instruction>)
    ensures
        r == operation(level, text@),
{
    let chars = chars_of(text);
    match level {
        Level::Comparison => {
            if same_text("==", &chars) {
                Some(Instruction::Eq)
            } else if same_text("!=", &chars) {
                Some(Instruction::Neq)
            } else if same_text("<", &chars) {
                Some(Instruction::Lt)
            } else if same_text(">", &chars) {
                Some(Instruction::Gt)
            } else if same_text("<=", &chars) {
                Some(Instruction::Lte)
            } else if same_text(">=", &chars) {
                Some(Instruction::Gte)
            } else {
                None
            }
        },
        Level::Sum => {
            if same_text("+", &chars) {
                Some(Instruction::Add)
            } else if same_text("-", &chars) {
                Some(Instruction::Sub)
            } else {
                None
            }
        },
        Level::Product => {
            if same_text("*", &chars) {
                Some(Instruction::Mul)
            } else if same_text("/", &chars) {
                Some(Instruction::Div)
            } else {
                None
            }
        },
    }
}

/// Builds the syntax tree from the parse tree.
pub struct BinLangParse;

impl BinLangParse {
    /// The name that a dotted identifier stands for.
    pub fn identifier_with_dots(pair: &Pair) -> (name: Identifier)
        ensures
            name@ == dotted(*pair),
    {
        let mut identifiers: Vec<String> = Vec::new();
        let mut i: usize = 0;
        while i < pair.inner.len()
            invariant
                i <= pair.inner.len(),
                identifiers.len() == i,
                forall|j: int| 0 <= j < i ==> identifiers[j]@ == pair.inner[j].text@,
            decreases pair.inner.len() - i,
        {
            identifiers.push(pair.inner[i].text.clone());
            i += 1;
        }
        assert(crate::names::texts(identifiers@) =~= covered(pair.inner@));
        Identifier::DotIdentifier(identifiers)
    }

    /// The name that an identifier node stands for.
    pub fn identifier(pair: &Pair) -> (name: Identifier)
        ensures
            name@ == single(*pair),
    {
        Identifier::Single(pair.text.clone())
    }

    /// The name that a usable identifier stands for.
    pub fn usable_identifier(pair: &Pair) -> (r: Built<Identifier>)
        ensures
            match usable(*pair) {
                Ok(name) => r is Ok && r->Ok_0@ == name,
                Err(e) => r is Err,
            },
    {
        if pair.inner.len() == 0 {
            return Err(Malformed);
        }
        match pair.inner[0].rule {
            Rule::Identifier => Ok(Self::identifier(&pair.inner[0])),
            Rule::IdentifierWithDots => Ok(Self::identifier_with_dots(&pair.inner[0])),
            _ => Err(Malformed),
        }
    }

    /// The name and the arguments of a call.
    fn call(pair: &Pair) -> (r: Built<(Identifier, Vec<Expression>)>)
        ensures
            match call_of(*pair) {
                Ok((name, args)) => r is Ok && r->Ok_0.0@ == name && formulas(r->Ok_0.1@) == args,
                Err(e) => r is Err,
            },
        decreases weight(*pair), 8nat,
    {
        if pair.inner.len() == 0 {
            return Err(Malformed);
        }
        let func_name = Self::identifier(&pair.inner[0]);
        let mut args: Vec<Expression> = Vec::new();
        let mut i: usize = 1;
        assert(pair.inner@.drop_first() =~= pair.inner@.skip(1));
        assert(formulas(args@) =~= Seq::empty());
        while i < pair.inner.len()
            invariant
                1 <= i <= pair.inner.len(),
                exprs_of(pair.inner@.skip(1)) == (match exprs_of(pair.inner@.skip(i as int)) {
                    Ok(rest) => Ok::<Seq<Formula>, Malformed>(formulas(args@) + rest),
                    Err(e) => Err(e),
                }),
            decreases pair.inner.len() - i,
        {
            let ghost rest = pair.inner@.skip(i as int);
            proof {
                assert(rest.first() == pair.inner@[i as int]);
                assert(rest.drop_first() =~= pair.inner@.skip(i as int + 1));
                lemma_weight_within(pair.inner@, i as int);
            }
            let one = match Self::expr(&pair.inner[i]) {
                Ok(one) => one,
                Err(e) => {
                    return Err(e);
                },
            };
            proof {
                lemma_formulas_push(args@, one);
                match exprs_of(pair.inner@.skip(i as int + 1)) {
                    Ok(last) => {
                        assert(formulas(args@).push(one@) + last =~= formulas(args@) + (seq![one@]
                            + last));
                    },
                    Err(_) => {},
                }
            }
            args.push(one);
            i += 1;
        }
        proof {
            assert(formulas(args@) + Seq::<Formula>::empty() =~= formulas(args@));
        }
        Ok((func_name, args))
    }

    /// The expression of a call.
    pub fn function_call_expr(pair: &Pair) -> (r: Built<Expression>)
        ensures
            match call_of(*pair) {
                Ok((func_name, args)) => r is Ok && r->Ok_0@ == (Formula::FunctionCall {
                    func_name,
                    args,
                }),
                Err(e) => r is Err,
            },
        decreases weight(*pair), 9nat,
    {
        match Self::call(pair) {
            Ok((func_name, args)) => Ok(Expression::FunctionCall { func_name, args }),
            Err(e) => Err(e),
        }
    }

    /// The expression of a term.
    pub fn term(pair: &Pair) -> (r: Built<Expression>)
        ensures
            formula(r) == term_of(*pair),
        decreases weight(*pair), 0nat,
    {
        if pair.inner.len() == 0 {
            return Err(Malformed);
        }
        let current = &pair.inner[0];
        proof {
            lemma_weight_within(pair.inner@, 0);
        }
        match current.rule {
            Rule::String => {
                let text = current.text.as_str();
                let count = text.unicode_len();
                if count >= 2 && text.get_char(0) <= '\u{7f}' && text.get_char(count - 1)
                    <= '\u{7f}' {
                    Ok(Expression::String(owned(text.substring_char(1, count - 1))))
                } else {
                    Err(Malformed)
                }
            },
            Rule::Float => {
                match current.float {
                    Some(bits) => Ok(Expression::Float(bits)),
                    None => Err(Malformed),
                }
            },
            Rule::Integer => {
                match parse_i64(remove(current.text.as_str(), '_').as_str()) {
                    Some(value) => Ok(Expression::Int(value)),
                    None => Err(Malformed),
                }
            },
            Rule::Bool => {
                if str_eq(current.text.as_str(), "true") {
                    Ok(Expression::Bool(true))
                } else if str_eq(current.text.as_str(), "false") {
                    Ok(Expression::Bool(false))
                } else {
                    Err(Malformed)
                }
            },
            Rule::UsableIdentifier => {
                match Self::usable_identifier(current) {
                    Ok(name) => Ok(Expression::Variable(name)),
                    Err(e) => Err(e),
                }
            },
            Rule::FunctionCall => Self::function_call_expr(current),
            Rule::Expr => Self::expr(current),
            _ => Err(Malformed),
        }
    }

    /// An operand of an operator of the given level.
    fn operand(level: Level, pair: &Pair) -> (r: Built<Expression>)
        ensures
            formula(r) == operand_of(level, *pair),
        decreases weight(*pair), 2 * rank(level),
    {
        match level {
            Level::Comparison => Self::chain(Level::Sum, pair),
            Level::Sum => Self::chain(Level::Product, pair),
            Level::Product => Self::term(pair),
        }
    }

    /// The expression of a node of the given level.
    fn chain(level: Level, pair: &Pair) -> (r: Built<Expression>)
        ensures
            formula(r) == chain_of(level, *pair),
        decreases weight(*pair), 2 * rank(level) + 1,
    {
        if pair.inner.len() == 0 {
            return Err(Malformed);
        }
        proof {
            lemma_weight_within(pair.inner@, 0);
        }
        let mut left = match Self::operand(level, &pair.inner[0]) {
            Ok(left) => left,
            Err(e) => {
                return Err(e);
            },
        };
        let mut i: usize = 1;
        assert(pair.inner@.drop_first() =~= pair.inner@.skip(1));
        while i < pair.inner.len()
            invariant
                1 <= i <= pair.inner.len(),
                chain_of(level, *pair) == folded(level, pair.inner@.skip(i as int), left@),
            decreases pair.inner.len() - i,
        {
            let ghost rest = pair.inner@.skip(i as int);
            proof {
                assert(rest.first() == pair.inner@[i as int]);
            }
            let opcode = match operator(level, pair.inner[i].text.as_str()) {
                Some(opcode) => opcode,
                None => {
                    return Err(Malformed);
                },
            };
            if i + 1 >= pair.inner.len() {
                return Err(Malformed);
            }
            proof {
                assert(rest.drop_first().first() == pair.inner@[i as int + 1]);
                assert(rest.drop_first().drop_first() =~= pair.inner@.skip(i as int + 2));
                lemma_weight_within(pair.inner@, i as int + 1);
            }
            let right = match Self::operand(level, &pair.inner[i + 1]) {
                Ok(right) => right,
                Err(e) => {
                    return Err(e);
                },
            };
            left = binary(opcode, left, right);
            i += 2;
        }
        Ok(left)
    }

    /// The expression of a product: terms combined by `*` and `/`.
    pub fn product(pair: &Pair) -> (r: Built<Expression>)
        ensures
            formula(r) == chain_of(Level::Product, *pair),
    {
        Self::chain(Level::Product, pair)
    }

    /// The expression of a sum: products combined by `+` and `-`.
    pub fn sum(pair: &Pair) -> (r: Built<Expression>)
        ensures
            formula(r) == chain_of(Level::Sum, *pair),
    {
        Self::chain(Level::Sum, pair)
    }

    /// The expression of an expression node: sums combined by comparisons.
    pub fn expr(pair: &Pair) -> (r: Built<Expression>)
        ensures
            formula(r) == chain_of(Level::Comparison, *pair),
        decreases weight(*pair), 10nat,
    {
        Self::chain(Level::Comparison, pair)
    }

    /// The name and the expression of an assignment.
    fn assignment(pair: &Pair) -> (r: Built<(Identifier, Expression)>)
        ensures
            match assignment_of(*pair) {
                Ok((name, e)) => r is Ok && r->Ok_0.0@ == name && r->Ok_0.1@ == e,
                Err(e) => r is Err,
            },
    {
        if pair.inner.len() < 2 {
            return Err(Malformed);
        }
        let identifier = Self::identifier(&pair.inner[0]);
        match Self::expr(&pair.inner[1]) {
            Ok(expression) => Ok((identifier, expression)),
            Err(e) => Err(e),
        }
    }

    /// The assignment of a node.
    pub fn variable_assignment(pair: &Pair) -> (r: Built<Statement>)
        ensures
            match assignment_of(*pair) {
                Ok((identifier, expression)) => r is Ok && r->Ok_0@ == (Command::Assignment {
                    identifier,
                    expression,
                }),
                Err(e) => r is Err,
            },
    {
        match Self::assignment(pair) {
            Ok((identifier, expression)) => Ok(Statement::Assignment { identifier, expression }),
            Err(e) => Err(e),
        }
    }

    /// The reassignment of a node.
    pub fn variable_reassignment(pair: &Pair) -> (r: Built<Statement>)
        ensures
            match assignment_of(*pair) {
                Ok((identifier, expression)) => r is Ok && r->Ok_0@ == (Command::Reassignment {
                    identifier,
                    expression,
                }),
                Err(e) => r is Err,
            },
    {
        match Self::assignment(pair) {
            Ok((identifier, expression)) => Ok(Statement::Reassignment { identifier, expression }),
            Err(e) => Err(e),
        }
    }

    /// The call statement of a node.
    pub fn function_call(pair: &Pair) -> (r: Built<Statement>)
        ensures
            match call_of(*pair) {
                Ok((func_name, args)) => r is Ok && r->Ok_0@ == (Command::FunctionCall {
                    func_name,
                    args,
                }),
                Err(e) => r is Err,
            },
    {
        match Self::call(pair) {
            Ok((func_name, args)) => Ok(Statement::FunctionCall { func_name, args }),
            Err(e) => Err(e),
        }
    }

    /// The return statement of a node.
    pub fn return_statement(pair: &Pair) -> (r: Built<Statement>)
        ensures
            match return_of(*pair) {
                Ok(expression) => r is Ok && r->Ok_0@ == Command::Return(expression),
                Err(e) => r is Err,
            },
    {
        if pair.inner.len() == 0 {
            return Err(Malformed);
        }
        match Self::expr(&pair.inner[0]) {
            Ok(expression) => Ok(Statement::Return(expression)),
            Err(e) => Err(e),
        }
    }

    /// The conditional of a node.
    pub fn conditional(pair: &Pair, in_a_function: bool) -> (r: Built<Statement>)
        ensures
            match conditional_of(*pair, in_a_function) {
                Ok((body, else_body)) => r is Ok && r->Ok_0@ == (Command::Conditional {
                    body,
                    else_body,
                }),
                Err(e) => r is Err,
            },
        decreases weight(*pair), 0nat,
    {
        if pair.inner.len() == 0 {
            return Err(Malformed);
        }
        let mut conditions: Vec<(Expression, Vec<Statement>)> = Vec::new();
        let mut i: usize = 0;
        assert(pair.inner@.skip(0) =~= pair.inner@);
        assert(guarded(conditions@) =~= Seq::empty());
        while i < pair.inner.len()
            invariant
                i <= pair.inner.len(),
                conditional_of(*pair, in_a_function) == branches_of(
                    pair.inner@.skip(i as int),
                    in_a_function,
                    guarded(conditions@),
                ),
            decreases pair.inner.len() - i,
        {
            let ghost rest = pair.inner@.skip(i as int);
            proof {
                assert(rest.first() == pair.inner@[i as int]);
                lemma_weight_within(pair.inner@, i as int);
            }
            let current = &pair.inner[i];
            match current.rule {
                Rule::Expr => {
                    let condition = match Self::expr(current) {
                        Ok(condition) => condition,
                        Err(e) => {
                            return Err(e);
                        },
                    };
                    if i + 1 >= pair.inner.len() {
                        return Err(Malformed);
                    }
                    proof {
                        assert(rest.drop_first().first() == pair.inner@[i as int + 1]);
                        assert(rest.drop_first().drop_first() =~= pair.inner@.skip(i as int + 2));
                        lemma_weight_within(pair.inner@, i as int + 1);
                    }
                    let body = match Self::block(&pair.inner[i + 1], true, in_a_function) {
                        Ok(body) => body,
                        Err(e) => {
                            return Err(e);
                        },
                    };
                    proof {
                        lemma_guarded_push(conditions@, (condition, body));
                    }
                    conditions.push((condition, body));
                    i += 2;
                },
                Rule::Block => {
                    return match Self::block(current, true, in_a_function) {
                        Ok(otherwise) => Ok(
                            Statement::Conditional { body: conditions, else_body: Some(otherwise) },
                        ),
                        Err(e) => Err(e),
                    };
                },
                _ => {
                    return Ok(Statement::Conditional { body: conditions, else_body: None });
                },
            }
        }
        Ok(Statement::Conditional { body: conditions, else_body: None })
    }

    /// The while loop of a node.
    pub fn while_loop(pair: &Pair, in_a_function: bool) -> (r: Built<Statement>)
        ensures
            match while_of(*pair, in_a_function) {
                Ok((condition, body)) => r is Ok && r->Ok_0@ == (Command::WhileLoop {
                    condition,
                    body,
                }),
                Err(e) => r is Err,
            },
        decreases weight(*pair), 0nat,
    {
        if pair.inner.len() < 2 {
            return Err(Malformed);
        }
        proof {
            assert(pair.inner@.drop_first().first() == pair.inner@[1]);
            lemma_weight_within(pair.inner@, 1);
        }
        let condition = match Self::expr(&pair.inner[0]) {
            Ok(condition) => condition,
            Err(e) => {
                return Err(e);
            },
        };
        match Self::block(&pair.inner[1], true, in_a_function) {
            Ok(body) => Ok(Statement::WhileLoop { condition, body }),
            Err(e) => Err(e),
        }
    }

    /// The function declaration of a node.
    pub fn function_definition(pair: &Pair) -> (r: Built<Statement>)
        ensures
            match definition_of(*pair) {
                Ok((func_name, args, body)) => r is Ok && r->Ok_0@ == (
                Command::FunctionDeclaration { func_name, args, body }),
                Err(e) => r is Err,
            },
        decreases weight(*pair), 0nat,
    {
        if pair.inner.len() == 0 {
            return Err(Malformed);
        }
        let func_name = Self::identifier(&pair.inner[0]);
        let mut args: Vec<Identifier> = Vec::new();
        let mut i: usize = 1;
        assert(pair.inner@.drop_first() =~= pair.inner@.skip(1));
        assert(names(args@) =~= Seq::empty());
        while i < pair.inner.len()
            invariant
                1 <= i <= pair.inner.len(),
                func_name@ == single(pair.inner@.first()),
                pair.inner@.drop_first() == pair.inner@.skip(1),
                parameters_of(pair.inner@.skip(1), Seq::empty()) == parameters_of(
                    pair.inner@.skip(i as int),
                    names(args@),
                ),
            decreases pair.inner.len() - i,
        {
            let ghost rest = pair.inner@.skip(i as int);
            proof {
                assert(rest.first() == pair.inner@[i as int]);
                assert(rest.drop_first() =~= pair.inner@.skip(i as int + 1));
                lemma_weight_within(pair.inner@, i as int);
            }
            let current = &pair.inner[i];
            match current.rule {
                Rule::Identifier => {
                    let name = Self::identifier(current);
                    proof {
                        assert(names(args@.push(name)) =~= names(args@).push(name@));
                    }
                    args.push(name);
                    i += 1;
                },
                _ => {
                    return match Self::block(current, false, true) {
                        Ok(body) => Ok(Statement::FunctionDeclaration { func_name, args, body }),
                        Err(e) => Err(e),
                    };
                },
            }
        }
        Err(Malformed)
    }

    /// The statements of a block.
    pub fn block(pair: &Pair, in_a_loop: bool, in_a_function: bool) -> (r: Built<Vec<Statement>>)
        ensures
            match block_of(*pair, in_a_loop, in_a_function) {
                Ok(body) => r is Ok && commands(r->Ok_0@) == body,
                Err(e) => r is Err,
            },
        decreases weight(*pair), 0nat,
    {
        let mut statements: Vec<Statement> = Vec::new();
        let mut i: usize = 0;
        assert(pair.inner@.skip(0) =~= pair.inner@);
        assert(commands(statements@) =~= Seq::empty());
        while i < pair.inner.len()
            invariant
                i <= pair.inner.len(),
                block_of(*pair, in_a_loop, in_a_function) == (match items_of(
                    pair.inner@.skip(i as int),
                    in_a_loop,
                    in_a_function,
                ) {
                    Ok(rest) => Ok::<Seq<Command>, Malformed>(commands(statements@) + rest),
                    Err(e) => Err(e),
                }),
            decreases pair.inner.len() - i,
        {
            let ghost rest = pair.inner@.skip(i as int);
            proof {
                assert(rest.first() == pair.inner@[i as int]);
                assert(rest.drop_first() =~= pair.inner@.skip(i as int + 1));
                lemma_weight_within(pair.inner@, i as int);
            }
            let one = match Self::statement(&pair.inner[i], in_a_loop, in_a_function) {
                Ok(Some(one)) => one,
                _ => {
                    return Err(Malformed);
                },
            };
            proof {
                lemma_commands_push(statements@, one);
                match items_of(pair.inner@.skip(i as int + 1), in_a_loop, in_a_function) {
                    Ok(last) => {
                        assert(commands(statements@).push(one@) + last =~= commands(statements@)
                            + (seq![one@] + last));
                    },
                    Err(_) => {},
                }
            }
            statements.push(one);
            i += 1;
        }
        proof {
            assert(commands(statements@) + Seq::<Command>::empty() =~= commands(statements@));
        }
        Ok(statements)
    }

    /// The statement of a node, or nothing where the statement has no place.
    pub fn statement(pair: &Pair, in_a_loop: bool, in_a_function: bool) -> (r: Built<
        Option<Statement>,
    >)
        ensures
            match statement_of(*pair, in_a_loop, in_a_function) {
                Ok(Some(command)) => r is Ok && r->Ok_0 is Some && r->Ok_0->0@ == command,
                Ok(None) => r is Ok && r->Ok_0 is None,
                Err(e) => r is Err,
            },
        decreases weight(*pair), 1nat,
    {
        let built = match pair.rule {
            Rule::VariableAssignment => Self::variable_assignment(pair),
            Rule::VariableReassignment => Self::variable_reassignment(pair),
            Rule::FunctionCall => Self::function_call(pair),
            Rule::ReturnStatement => {
                if !in_a_function {
                    return Ok(None);
                }
                Self::return_statement(pair)
            },
            Rule::Conditional => Self::conditional(pair, in_a_function),
            Rule::WhileLoop => Self::while_loop(pair, in_a_function),
            Rule::BreakStatement => {
                if !in_a_loop {
                    return Ok(None);
                }
                Ok(Statement::Break)
            },
            Rule::ContinueStatement => {
                if !in_a_loop {
                    return Ok(None);
                }
                Ok(Statement::Continue)
            },
            Rule::FunctionDefinition => {
                if in_a_function {
                    return Ok(None);
                }
                Self::function_definition(pair)
            },
            Rule::EOI => Ok(Statement::EOI),
            Rule::SingleLineComment => Ok(Statement::Comment(pair.text.clone())),
            Rule::MultiLineComment => Ok(Statement::Comment(pair.text.clone())),
            _ => Err(Malformed),
        };
        match built {
            Ok(statement) => Ok(Some(statement)),
            Err(e) => Err(e),
        }
    }

    /// The statements and the function declarations of a program, given by
    /// the nodes that the grammar yields for it.
    pub fn data(pairs: &Vec<Pair>) -> (r: Built<(Vec<Statement>, Vec<Statement>)>)
        ensures
            match data_of(pairs@) {
                Ok((statements, functions)) => r is Ok && commands(r->Ok_0.0@) == statements
                    && commands(r->Ok_0.1@) == functions,
                Err(e) => r is Err,
            },
    {
        let mut statements: Vec<Statement> = Vec::new();
        let mut functions: Vec<Statement> = Vec::new();
        let mut i: usize = 0;
        assert(pairs@.skip(0) =~= pairs@);
        assert(commands(statements@) =~= Seq::empty());
        assert(commands(functions@) =~= Seq::empty());
        while i < pairs.len()
            invariant
                i <= pairs.len(),
                data_of(pairs@) == (match data_of(pairs@.skip(i as int)) {
                    Ok((later, declared)) => Ok::<(Seq<Command>, Seq<Command>), Malformed>(
                        (commands(statements@) + later, commands(functions@) + declared),
                    ),
                    Err(e) => Err(e),
                }),
            decreases pairs.len() - i,
        {
            let ghost rest = pairs@.skip(i as int);
            proof {
                assert(rest.first() == pairs@[i as int]);
                assert(rest.drop_first() =~= pairs@.skip(i as int + 1));
            }
            let found = match Self::statement(&pairs[i], false, false) {
                Ok(found) => found,
                Err(e) => {
                    return Err(e);
                },
            };
            match found {
                None => {},
                Some(one) => {
                    let declaration = match &one {
                        Statement::FunctionDeclaration { .. } => true,
                        _ => false,
                    };
                    proof {
                        lemma_commands_push(statements@, one);
                        lemma_commands_push(functions@, one);
                        match data_of(pairs@.skip(i as int + 1)) {
                            Ok((later, declared)) => {
                                assert(commands(statements@).push(one@) + later =~= commands(
                                    statements@,
                                ) + (seq![one@] + later));
                                assert(commands(functions@).push(one@) + declared =~= commands(
                                    functions@,
                                ) + (seq![one@] + declared));
                            },
                            Err(_) => {},
                        }
                    }
                    if declaration {
                        functions.push(one);
                    } else {
                        statements.push(one);
                    }
                },
            }
            i += 1;
        }
        proof {
            assert(commands(statements@) + Seq::<Command>::empty() =~= commands(statements@));
            assert(commands(functions@) + Seq::<Command>::empty() =~= commands(functions@));
        }
        Ok((statements, functions))
    }
}

} // verus!
