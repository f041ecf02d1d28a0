//! The syntax tree that the front end produces.

use vstd::prelude::*;
use crate::bincore::executable::runnable::Instruction;
use crate::names::texts;

verus! {

/// A name in the source: a single word, or words joined by dots.
#[derive(Debug, Clone)]
pub enum Identifier {
    Single(String),
    DotIdentifier(Vec<String>),
}

/// The parts joined into one text, with `separator` between neighbours.
pub open spec fn joined(parts: Seq<Seq<char>>, separator: char) -> Seq<char>
    decreases parts.len(),
{
    if parts.len() == 0 {
        Seq::empty()
    } else if parts.len() == 1 {
        parts[0]
    } else {
        joined(parts.drop_last(), separator).push(separator) + parts.last()
    }
}

impl Identifier {
    /// The name as it is written: the parts of a dotted name joined by dots.
    pub open spec fn text(&self) -> Seq<char> {
        match *self {
            Identifier::Single(name) => name@,
            Identifier::DotIdentifier(names) => joined(texts(names@), '.'),
        }
    }

    /// The name as it is written.
    pub fn to_string(&self) -> (s: String)
        ensures
            s@ == self.text(),
    {
        match self {
            Identifier::Single(name) => name.clone(),
            Identifier::DotIdentifier(names) => {
                let mut out = String::new();
                let mut i: usize = 0;
                while i < names.len()
                    invariant
                        i <= names.len(),
                        out@ == joined(texts(names@).take(i as int), '.'),
                    decreases names.len() - i,
                {
                    let ghost before = texts(names@).take(i as int);
                    let ghost now = texts(names@).take(i as int + 1);
                    proof {
                        assert(now.drop_last() =~= before);
                        assert(now.last() == names[i as int]@);
                    }
                    if i > 0 {
                        out = out.concat(".");
                        proof {
                            reveal_strlit(".");
                            assert("."@ =~= seq!['.']);
                            assert(out@ =~= joined(before, '.').push('.'));
                        }
                    }
                    out = out.concat(names[i].as_str());
                    i += 1;
                }
                assert(texts(names@).take(i as int) =~= texts(names@));
                out
            },
        }
    }
}

/// An expression.
///
/// `Float` holds the IEEE-754 binary64 bit pattern of the literal.
#[derive(Debug)]
pub enum Expression {
    Int(i64),
    Float(u64),
    String(String),
    Bool(bool),
    Variable(Identifier),
    FunctionCall { func_name: Identifier, args: Vec<Expression> },
    Addition { left: Box<Expression>, right: Box<Expression> },
    Subtraction { left: Box<Expression>, right: Box<Expression> },
    Multiplication { left: Box<Expression>, right: Box<Expression> },
    Division { left: Box<Expression>, right: Box<Expression> },
    Modulus { left: Box<Expression>, right: Box<Expression> },
    Equal { left: Box<Expression>, right: Box<Expression> },
    NotEqual { left: Box<Expression>, right: Box<Expression> },
    GreaterThan { left: Box<Expression>, right: Box<Expression> },
    LessThan { left: Box<Expression>, right: Box<Expression> },
    GreaterThanOrEqual { left: Box<Expression>, right: Box<Expression> },
    LessThanOrEqual { left: Box<Expression>, right: Box<Expression> },
}

/// A statement.
#[allow(inconsistent_fields)]
#[derive(Debug)]
pub enum Statement {
    Assignment { identifier: Identifier, expression: Expression },
    Reassignment { identifier: Identifier, expression: Expression },
    FunctionCall { func_name: Identifier, args: Vec<Expression> },
    FunctionDeclaration { func_name: Identifier, args: Vec<Identifier>, body: Vec<Statement> },
    Conditional { body: Vec<(Expression, Vec<Statement>)>, else_body: Option<Vec<Statement>> },
    WhileLoop { condition: Expression, body: Vec<Statement> },
    Break,
    Continue,
    EOI,
    Return(Expression),
    Comment(String),
}

/// A name, as plain values.
pub enum Name {
    Single(Seq<char>),
    Dotted(Seq<Seq<char>>),
}

/// An expression, as plain values. A binary expression is given by the
/// opcode of its operator.
pub enum Formula {
    Int(i64),
    Float(u64),
    String(Seq<char>),
    Bool(bool),
    Variable(Name),
    FunctionCall { func_name: Name, args: Seq<Formula> },
    Binary { opcode: Instruction, left: Box<Formula>, right: Box<Formula> },
}

/// A statement, as plain values.
#[allow(inconsistent_fields)]
pub enum Command {
    Assignment { identifier: Name, expression: Formula },
    Reassignment { identifier: Name, expression: Formula },
    FunctionCall { func_name: Name, args: Seq<Formula> },
    FunctionDeclaration { func_name: Name, args: Seq<Name>, body: Seq<Command> },
    Conditional { body: Seq<(Formula, Seq<Command>)>, else_body: Option<Seq<Command>> },
    WhileLoop { condition: Formula, body: Seq<Command> },
    Break,
    Continue,
    EOI,
    Return(Formula),
    Comment(Seq<char>),
}

impl Identifier {
    /// The name as plain values.
    pub open spec fn view(&self) -> Name {
        match *self {
            Identifier::Single(name) => Name::Single(name@),
            Identifier::DotIdentifier(names) => Name::Dotted(texts(names@)),
        }
    }
}

/// The names, as plain values.
pub open spec fn names(identifiers: Seq<Identifier>) -> Seq<Name> {
    Seq::new(identifiers.len(), |i: int| identifiers[i]@)
}

/// The opcode of the operator of a binary expression.
pub open spec fn opcode(e: Expression) -> Instruction {
    match e {
        Expression::Addition { .. } => Instruction::Add,
        Expression::Subtraction { .. } => Instruction::Sub,
        Expression::Multiplication { .. } => Instruction::Mul,
        Expression::Division { .. } => Instruction::Div,
        Expression::Modulus { .. } => Instruction::Mod,
        Expression::Equal { .. } => Instruction::Eq,
        Expression::NotEqual { .. } => Instruction::Neq,
        Expression::GreaterThan { .. } => Instruction::Gt,
        Expression::LessThan { .. } => Instruction::Lt,
        Expression::GreaterThanOrEqual { .. } => Instruction::Gte,
        _ => Instruction::Lte,
    }
}

impl Expression {
    /// The expression as plain values.
    pub open spec fn view(&self) -> Formula
        decreases *self,
    {
        match *self {
            Expression::Int(value) => Formula::Int(value),
            Expression::Float(value) => Formula::Float(value),
            Expression::String(text) => Formula::String(text@),
            Expression::Bool(value) => Formula::Bool(value),
            Expression::Variable(name) => Formula::Variable(name@),
            Expression::FunctionCall { func_name, args } => Formula::FunctionCall {
                func_name: func_name@,
                args: formulas(args@),
            },
            Expression::Addition { left, right }
            | Expression::Subtraction { left, right }
            | Expression::Multiplication { left, right }
            | Expression::Division { left, right }
            | Expression::Modulus { left, right }
            | Expression::Equal { left, right }
            | Expression::NotEqual { left, right }
            | Expression::GreaterThan { left, right }
            | Expression::LessThan { left, right }
            | Expression::GreaterThanOrEqual { left, right }
            | Expression::LessThanOrEqual { left, right } => Formula::Binary {
                opcode: opcode(*self),
                left: Box::new(left.view()),
                right: Box::new(right.view()),
            },
        }
    }
}

/// The expressions, as plain values.
pub open spec fn formulas(expressions: Seq<Expression>) -> Seq<Formula>
    decreases expressions,
{
    if expressions.len() == 0 {
        Seq::empty()
    } else {
        formulas(expressions.drop_last()).push(expressions.last()@)
    }
}

impl Statement {
    /// The statement as plain values.
    pub open spec fn view(&self) -> Command
        decreases *self,
    {
        match *self {
            Statement::Assignment { identifier, expression } => Command::Assignment {
                identifier: identifier@,
                expression: expression@,
            },
            Statement::Reassignment { identifier, expression } => Command::Reassignment {
                identifier: identifier@,
                expression: expression@,
            },
            Statement::FunctionCall { func_name, args } => Command::FunctionCall {
                func_name: func_name@,
                args: formulas(args@),
            },
            Statement::FunctionDeclaration { func_name, args, body } => {
                Command::FunctionDeclaration {
                    func_name: func_name@,
                    args: names(args@),
                    body: commands(body@),
                }
            },
            Statement::Conditional { body, else_body } => Command::Conditional {
                body: guarded(body@),
                else_body: match else_body {
                    Some(otherwise) => Some(commands(otherwise@)),
                    None => None,
                },
            },
            Statement::WhileLoop { condition, body } => Command::WhileLoop {
                condition: condition@,
                body: commands(body@),
            },
            Statement::Break => Command::Break,
            Statement::Continue => Command::Continue,
            Statement::EOI => Command::EOI,
            Statement::Return(e) => Command::Return(e@),
            Statement::Comment(text) => Command::Comment(text@),
        }
    }
}

/// The statements, as plain values.
pub open spec fn commands(statements: Seq<Statement>) -> Seq<Command>
    decreases statements,
{
    if statements.len() == 0 {
        Seq::empty()
    } else {
        commands(statements.drop_last()).push(statements.last()@)
    }
}

/// The branches of a conditional, as plain values.
pub open spec fn guarded(branches: Seq<(Expression, Vec<Statement>)>) -> Seq<
    (Formula, Seq<Command>),
>
    decreases branches,
{
    if branches.len() == 0 {
        Seq::empty()
    } else {
        guarded(branches.drop_last()).push(
            (branches.last().0@, commands(branches.last().1@)),
        )
    }
}

/// A sequence of expressions with one more has the plain values of both.
pub proof fn lemma_formulas_push(expressions: Seq<Expression>, e: Expression)
    ensures
        formulas(expressions.push(e)) == formulas(expressions).push(e@),
{
    assert(expressions.push(e).drop_last() =~= expressions);
}

/// A sequence of statements with one more has the plain values of both.
pub proof fn lemma_commands_push(statements: Seq<Statement>, s: Statement)
    ensures
        commands(statements.push(s)) == commands(statements).push(s@),
{
    assert(statements.push(s).drop_last() =~= statements);
}

/// A sequence of branches with one more has the plain values of both.
pub proof fn lemma_guarded_push(
    branches: Seq<(Expression, Vec<Statement>)>,
    branch: (Expression, Vec<Statement>),
)
    ensures
        guarded(branches.push(branch)) == guarded(branches).push(
            (branch.0@, commands(branch.1@)),
        ),
{
    assert(branches.push(branch).drop_last() =~= branches);
}

} // verus!
