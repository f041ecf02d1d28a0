//! What translation means: the intermediate code of each construct, and the
//! instructions that the intermediate code resolves to.

use vstd::prelude::*;
use crate::bincompiler::ast::{opcode, Expression, Statement};
use crate::bincore::data::value::Value;
use crate::bincore::executable::runnable::Instruction;
use crate::names::{interned, interned_id};
use crate::text::decimal;

verus! {

/// One entry of the intermediate code: an instruction, a label, or a jump or
/// call that names a label.
pub enum Ir {
    Label(Seq<char>),
    Call(Seq<char>),
    Inst(Instruction),
    Jump(Seq<char>),
    JumpIfFalse(Seq<char>),
}

/// Why a program cannot be translated.
pub enum Refusal {
    /// A call names a function that is neither a host function nor declared
    /// before the call is translated.
    UnknownFunction(Seq<char>),
    /// A conditional has neither a branch nor an else body.
    EmptyConditional,
    /// A jump or call names a label that the code does not hold.
    UnresolvedLabel(Seq<char>),
    /// There are more labels or instructions than can be numbered.
    TooLarge,
}

/// The state of a translation.
#[verifier::ext_equal]
pub struct Unit {
    /// The interned strings: literals and the names of host functions.
    pub strings: Seq<Seq<char>>,
    /// The interned variable names; the id of a variable is its heap address.
    pub variables: Seq<Seq<char>>,
    /// The parameter names of each function declared so far.
    pub func_args: Map<Seq<char>, Seq<Seq<char>>>,
    /// The number of conditionals translated so far.
    pub conditionals: nat,
    /// The number of while loops translated so far.
    pub whiles: nat,
}

/// The result of translating a construct: the state afterwards and the code.
pub type Lowered = Result<(Unit, Seq<Ir>), Refusal>;

/// The host functions that take a variable number of arguments. A call of one
/// pushes the number of arguments after the arguments.
pub open spec fn is_variadic(name: Seq<char>) -> bool {
    name == "print"@ || name == "new_list_with_values"@
}

/// The functions that the host provides.
pub open spec fn is_external(name: Seq<char>) -> bool {
    ||| name == "print"@
    ||| name == "push"@
    ||| name == "pop"@
    ||| name == "new_list"@
    ||| name == "new_list_with_values"@
    ||| name == "new_list_with_default_values"@
    ||| name == "index_set"@
    ||| name == "index_get"@
    ||| name == "len"@
}

/// The label at which execution starts.
pub open spec fn start_label() -> Seq<char> {
    "_start"@
}

/// The label of the function `name`.
pub open spec fn function_label(name: Seq<char>) -> Seq<char> {
    "function_"@ + name
}

/// The label behind conditional `k`.
pub open spec fn end_label(k: nat) -> Seq<char> {
    "end_"@ + decimal(k)
}

/// The label behind branch `i` of conditional `k`.
pub open spec fn branch_label(k: nat, i: nat) -> Seq<char> {
    "if_"@ + decimal(k) + "_"@ + decimal(i)
}

/// The label at the head of while loop `k`.
pub open spec fn while_label(k: nat) -> Seq<char> {
    "while_"@ + decimal(k)
}

/// The label behind while loop `k`.
pub open spec fn end_while_label(k: nat) -> Seq<char> {
    "end_while_"@ + decimal(k)
}

/// `code` followed by the code of `rest`, or the refusal of `rest`.
pub open spec fn preceded(code: Seq<Ir>, rest: Lowered) -> Lowered {
    match rest {
        Ok((unit, more)) => Ok((unit, code + more)),
        Err(refusal) => Err(refusal),
    }
}

/// The code of `rest` followed by `code`, or the refusal of `rest`.
pub open spec fn followed(rest: Lowered, code: Seq<Ir>) -> Lowered {
    match rest {
        Ok((unit, before)) => Ok((unit, before + code)),
        Err(refusal) => Err(refusal),
    }
}

/// The stores that move the arguments of a call into the slots of the
/// parameters, for the last parameter first, and the variable table after the
/// parameters have been interned.
pub open spec fn stores(variables: Seq<Seq<char>>, params: Seq<Seq<char>>) -> (
    Seq<Seq<char>>,
    Seq<Ir>,
)
    decreases params.len(),
{
    if params.len() == 0 {
        (variables, Seq::empty())
    } else {
        let store = Ir::Inst(
            Instruction::Store { address: interned_id(variables, params.last()) as usize },
        );
        let (after, code) = stores(interned(variables, params.last()), params.drop_last());
        (after, seq![store] + code)
    }
}

impl Unit {
    /// The state in which a translation starts: nothing interned, nothing
    /// declared, no label used.
    pub open spec fn empty() -> Unit {
        Unit {
            strings: Seq::empty(),
            variables: Seq::empty(),
            func_args: Map::empty(),
            conditionals: 0,
            whiles: 0,
        }
    }

    /// The state with `text` interned as a string.
    pub open spec fn with_string(self, text: Seq<char>) -> Unit {
        Unit { strings: interned(self.strings, text), ..self }
    }

    /// The state with `name` interned as a variable.
    pub open spec fn with_variable(self, name: Seq<char>) -> Unit {
        Unit { variables: interned(self.variables, name), ..self }
    }

    /// The instruction that pushes the string `text`.
    pub open spec fn push_string(self, text: Seq<char>) -> Ir {
        Ir::Inst(
            Instruction::Push { value: Value::StrRef(interned_id(self.strings, text) as usize) },
        )
    }

    /// The state after the host function names have been interned, the
    /// variadic ones first.
    pub open spec fn with_host_names(self) -> Unit {
        self.with_string("print"@).with_string("new_list_with_values"@).with_string(
            "print"@,
        ).with_string("push"@).with_string("pop"@).with_string("new_list"@).with_string(
            "new_list_with_values"@,
        ).with_string("new_list_with_default_values"@).with_string("index_set"@).with_string(
            "index_get"@,
        ).with_string("len"@)
    }

    /// An expression: its operands first, left before right, then its
    /// operator. A literal is pushed, a variable is loaded from its slot.
    pub open spec fn expression(self, e: Expression) -> Lowered
        decreases e, 1nat,
    {
        match e {
            Expression::Int(value) => Ok(
                (self, seq![Ir::Inst(Instruction::Push { value: Value::Int(value) })]),
            ),
            Expression::Float(value) => Ok(
                (self, seq![Ir::Inst(Instruction::Push { value: Value::Float(value) })]),
            ),
            Expression::Bool(value) => Ok(
                (self, seq![Ir::Inst(Instruction::Push { value: Value::Bool(value) })]),
            ),
            Expression::String(text) => Ok(
                (self.with_string(text@), seq![self.push_string(text@)]),
            ),
            Expression::Variable(name) => Ok(
                (
                    self.with_variable(name.text()),
                    seq![
                        Ir::Inst(
                            Instruction::Load {
                                address: interned_id(self.variables, name.text()) as usize,
                            },
                        ),
                    ],
                ),
            ),
            Expression::FunctionCall { func_name, args } => self.function_call(
                func_name.text(),
                args@,
            ),
            Expression::Addition { left, right }
            | Expression::Subtraction { left, right }
            | Expression::Multiplication { left, right }
            | Expression::Division { left, right }
            | Expression::Modulus { left, right }
            | Expression::Equal { left, right }
            | Expression::NotEqual { left, right }
            | Expression::GreaterThan { left, right }
            | Expression::LessThan { left, right }
            | Expression::GreaterThanOrEqual { left, right }
            | Expression::LessThanOrEqual { left, right } => match self.expression(*left) {
                Err(refusal) => Err(refusal),
                Ok((unit, code)) => preceded(
                    code,
                    followed(unit.expression(*right), seq![Ir::Inst(opcode(e))]),
                ),
            },
        }
    }

    /// The arguments of a call, the rightmost first, so that the leftmost is
    /// on top of the stack when the callee starts.
    pub open spec fn arguments(self, args: Seq<Expression>) -> Lowered
        decreases args, 0nat,
    {
        if args.len() == 0 {
            Ok((self, Seq::empty()))
        } else {
            match self.expression(args.last()) {
                Err(refusal) => Err(refusal),
                Ok((unit, code)) => preceded(code, unit.arguments(args.drop_last())),
            }
        }
    }

    /// What follows the arguments of a call. A host function is called by the
    /// id of its name, after the number of arguments if it is variadic. A
    /// declared function gets its arguments stored into its parameters and is
    /// called by its label.
    pub open spec fn call(self, name: Seq<char>, count: nat) -> Lowered {
        if is_external(name) {
            let counted = if is_variadic(name) {
                seq![Ir::Inst(Instruction::Push { value: Value::Int(count as i64) })]
            } else {
                Seq::empty()
            };
            Ok(
                (
                    self.with_string(name),
                    counted.push(
                        Ir::Inst(
                            Instruction::ExternCall {
                                string_id: interned_id(self.strings, name) as usize,
                            },
                        ),
                    ),
                ),
            )
        } else if self.func_args.contains_key(name) {
            let (variables, code) = stores(self.variables, self.func_args[name]);
            Ok((Unit { variables, ..self }, code.push(Ir::Call(function_label(name)))))
        } else {
            Err(Refusal::UnknownFunction(name))
        }
    }

    /// A call: the arguments, then what `call` says.
    pub open spec fn function_call(self, name: Seq<char>, args: Seq<Expression>) -> Lowered
        decreases args, 1nat,
    {
        match self.arguments(args) {
            Err(refusal) => Err(refusal),
            Ok((unit, code)) => preceded(code, unit.call(name, args.len())),
        }
    }

    /// An assignment: the expression, then a store into the variable's slot.
    pub open spec fn assignment(self, name: Seq<char>, e: Expression) -> Lowered {
        match self.expression(e) {
            Err(refusal) => Err(refusal),
            Ok((unit, code)) => Ok(
                (
                    unit.with_variable(name),
                    code.push(
                        Ir::Inst(
                            Instruction::Store {
                                address: interned_id(unit.variables, name) as usize,
                            },
                        ),
                    ),
                ),
            ),
        }
    }

    /// A return: the expression, whose value stays on the stack, then `Ret`.
    pub open spec fn return_statement(self, e: Expression) -> Lowered {
        followed(self.expression(e), seq![Ir::Inst(Instruction::Ret)])
    }

    /// A function declaration: the parameters are recorded for the calls that
    /// follow, then come the function's label and its body.
    pub open spec fn function_declaration(
        self,
        scope: nat,
        name: Seq<char>,
        params: Seq<Seq<char>>,
        body: Seq<Statement>,
    ) -> Lowered
        decreases statements_size(body), 2nat,
    {
        let declared = Unit { func_args: self.func_args.insert(name, params), ..self };
        preceded(seq![Ir::Label(function_label(name))], declared.block(scope, body))
    }

    /// A conditional, which takes the next conditional number `k`: its
    /// branches, then the else body if there is one, then the end label.
    /// Without an else body the jump to the end label that closes the last
    /// branch is left out: the end label follows at once.
    pub open spec fn conditional(
        self,
        scope: nat,
        bodies: Seq<(Expression, Vec<Statement>)>,
        else_body: Option<Vec<Statement>>,
    ) -> Lowered
        decreases branches_size(bodies) + else_size(else_body), 2nat,
    {
        if self.conditionals >= usize::MAX {
            Err(Refusal::TooLarge)
        } else {
            let k = self.conditionals;
            let counted = Unit { conditionals: k + 1, ..self };
            match counted.branches(scope, k, 0, bodies) {
                Err(refusal) => Err(refusal),
                Ok((unit, code)) => match else_body {
                    Some(otherwise) => preceded(
                        code,
                        followed(unit.block(scope, otherwise@), seq![Ir::Label(end_label(k))]),
                    ),
                    None => if bodies.len() == 0 {
                        Err(Refusal::EmptyConditional)
                    } else {
                        Ok(
                            (
                                unit,
                                code.take(code.len() - 2).push(code.last()).push(
                                    Ir::Label(end_label(k)),
                                ),
                            ),
                        )
                    },
                },
            }
        }
    }

    /// A while loop, which takes the next loop number `k`: the head label, the
    /// condition, a jump past the loop if the condition is false, the body
    /// with `k` as its scope, a jump back to the head, and the end label.
    pub open spec fn while_loop(self, condition: Expression, body: Seq<Statement>) -> Lowered
        decreases statements_size(body), 2nat,
    {
        if self.whiles >= usize::MAX {
            Err(Refusal::TooLarge)
        } else {
            let k = self.whiles;
            let counted = Unit { whiles: k + 1, ..self };
            match counted.expression(condition) {
                Err(refusal) => Err(refusal),
                Ok((unit, test)) => preceded(
                    seq![Ir::Label(while_label(k))] + test + seq![
                        Ir::JumpIfFalse(end_while_label(k)),
                    ],
                    followed(
                        unit.block(k, body),
                        seq![Ir::Jump(while_label(k)), Ir::Label(end_while_label(k))],
                    ),
                ),
            }
        }
    }

    /// A statement, inside the while loop `scope`.
    pub open spec fn statement(self, scope: nat, s: Statement) -> Lowered
        decreases statement_size(s), 0nat,
    {
        match s {
            Statement::Assignment { identifier, expression } => self.assignment(
                identifier.text(),
                expression,
            ),
            Statement::Reassignment { identifier, expression } => self.assignment(
                identifier.text(),
                expression,
            ),
            Statement::FunctionCall { func_name, args } => self.function_call(
                func_name.text(),
                args@,
            ),
            Statement::FunctionDeclaration { func_name, args, body } => self.function_declaration(
                scope,
                func_name.text(),
                Seq::new(args@.len(), |i: int| args@[i].text()),
                body@,
            ),
            Statement::Conditional { body, else_body } => self.conditional(
                scope,
                body@,
                else_body,
            ),
            Statement::WhileLoop { condition, body } => self.while_loop(condition, body@),
            Statement::Break => Ok((self, seq![Ir::Jump(end_while_label(scope))])),
            Statement::Continue => Ok((self, seq![Ir::Jump(while_label(scope))])),
            Statement::Return(e) => self.return_statement(e),
            Statement::EOI => Ok((self, Seq::empty())),
            Statement::Comment(_) => Ok((self, Seq::empty())),
        }
    }

    /// A sequence of statements, in order.
    pub open spec fn block(self, scope: nat, body: Seq<Statement>) -> Lowered
        decreases statements_size(body), 1nat,
    {
        if body.len() == 0 {
            Ok((self, Seq::empty()))
        } else {
            match self.statement(scope, body.first()) {
                Err(refusal) => Err(refusal),
                Ok((unit, code)) => preceded(code, unit.block(scope, body.drop_first())),
            }
        }
    }

    /// The branches of conditional `k` from branch `i` on. Each is its
    /// condition, a jump past the branch if the condition is false, its body,
    /// a jump to the end of the conditional, and the label that the first jump
    /// names.
    pub open spec fn branches(
        self,
        scope: nat,
        k: nat,
        i: nat,
        rest: Seq<(Expression, Vec<Statement>)>,
    ) -> Lowered
        decreases branches_size(rest), 1nat,
    {
        if rest.len() == 0 {
            Ok((self, Seq::empty()))
        } else {
            match self.expression(rest.first().0) {
                Err(refusal) => Err(refusal),
                Ok((tested, test)) => match tested.block(scope, rest.first().1@) {
                    Err(refusal) => Err(refusal),
                    Ok((unit, body)) => preceded(
                        test + seq![Ir::JumpIfFalse(branch_label(k, i))] + body + seq![
                            Ir::Jump(end_label(k)),
                            Ir::Label(branch_label(k, i)),
                        ],
                        unit.branches(scope, k, i + 1, rest.drop_first()),
                    ),
                },
            }
        }
    }

    /// The instructions of a whole program: its intermediate code, resolved.
    pub open spec fn run(self, statements: Seq<Statement>, functions: Seq<Statement>) -> Result<
        (Unit, Seq<Instruction>),
        Refusal,
    > {
        match self.program(statements, functions) {
            Err(refusal) => Err(refusal),
            Ok((unit, ir)) => match resolve(ir) {
                Err(refusal) => Err(refusal),
                Ok(instructions) => Ok((unit, instructions)),
            },
        }
    }

    /// A whole program: a jump to the start label, the functions, the start
    /// label, the statements, and a final `Nop`.
    pub open spec fn program(self, statements: Seq<Statement>, functions: Seq<Statement>) -> Lowered {
        match self.block(0, functions) {
            Err(refusal) => Err(refusal),
            Ok((declared, code)) => preceded(
                seq![Ir::Jump(start_label())] + code + seq![Ir::Label(start_label())],
                followed(declared.block(0, statements), seq![Ir::Inst(Instruction::Nop)]),
            ),
        }
    }
}

/// The number of entries of `ir` that are no labels.
pub open spec fn instruction_count(ir: Seq<Ir>) -> nat
    decreases ir.len(),
{
    if ir.len() == 0 {
        0
    } else if ir.last() is Label {
        instruction_count(ir.drop_last())
    } else {
        instruction_count(ir.drop_last()) + 1
    }
}

/// The address that `name` resolves to: one more than the number of
/// instructions before the label. Where a label occurs more than once, the
/// last occurrence counts.
pub open spec fn label_address(ir: Seq<Ir>, name: Seq<char>) -> Option<nat>
    decreases ir.len(),
{
    if ir.len() == 0 {
        None
    } else if ir.last() == Ir::Label(name) {
        Some(1 + instruction_count(ir.drop_last()))
    } else {
        label_address(ir.drop_last(), name)
    }
}

/// The label that a jump or call names.
pub open spec fn target(entry: Ir) -> Option<Seq<char>> {
    match entry {
        Ir::Jump(name) => Some(name),
        Ir::JumpIfFalse(name) => Some(name),
        Ir::Call(name) => Some(name),
        _ => None,
    }
}

/// The first label that an entry of `part` names and `all` does not hold.
pub open spec fn unresolved(all: Seq<Ir>, part: Seq<Ir>) -> Option<Seq<char>>
    decreases part.len(),
{
    if part.len() == 0 {
        None
    } else {
        match unresolved(all, part.drop_last()) {
            Some(name) => Some(name),
            None => match target(part.last()) {
                Some(name) => if label_address(all, name) is None {
                    Some(name)
                } else {
                    None
                },
                None => None,
            },
        }
    }
}

/// The instruction that an entry becomes once the labels of `all` have their
/// addresses.
pub open spec fn resolved_entry(all: Seq<Ir>, entry: Ir) -> Instruction {
    match entry {
        Ir::Inst(instruction) => instruction,
        Ir::Jump(name) => Instruction::Jump { address: label_address(all, name)->0 as usize },
        Ir::JumpIfFalse(name) => Instruction::JumpIfFalse {
            address: label_address(all, name)->0 as usize,
        },
        Ir::Call(name) => Instruction::Call { address: label_address(all, name)->0 as usize },
        Ir::Label(_) => Instruction::Nop,
    }
}

/// The instructions of `part`: its entries without the labels, each resolved
/// against the labels of `all`.
pub open spec fn resolved_part(all: Seq<Ir>, part: Seq<Ir>) -> Seq<Instruction>
    decreases part.len(),
{
    if part.len() == 0 {
        Seq::empty()
    } else if part.last() is Label {
        resolved_part(all, part.drop_last())
    } else {
        resolved_part(all, part.drop_last()).push(resolved_entry(all, part.last()))
    }
}

/// The instructions that `ir` resolves to: a `Nop` at index 0, then the
/// entries of `ir` without the labels, with each jump and call aimed at the
/// address of its label.
pub open spec fn resolve(ir: Seq<Ir>) -> Result<Seq<Instruction>, Refusal> {
    if instruction_count(ir) >= usize::MAX {
        Err(Refusal::TooLarge)
    } else {
        match unresolved(ir, ir) {
            Some(name) => Err(Refusal::UnresolvedLabel(name)),
            None => Ok(seq![Instruction::Nop] + resolved_part(ir, ir)),
        }
    }
}

/// Adding entries to a piece of code takes no instruction away.
pub proof fn lemma_count_grows(ir: Seq<Ir>, i: int)
    requires
        0 <= i <= ir.len(),
    ensures
        instruction_count(ir.take(i)) <= instruction_count(ir),
        instruction_count(ir) <= ir.len(),
    decreases ir.len(),
{
    if ir.len() > 0 {
        if i < ir.len() {
            assert(ir.drop_last().take(i) =~= ir.take(i));
            lemma_count_grows(ir.drop_last(), i);
        } else {
            assert(ir.take(i) =~= ir);
            lemma_count_grows(ir.drop_last(), i - 1);
        }
    } else {
        assert(ir.take(i) =~= ir);
    }
}

/// A label that is unresolved in the first `i` entries of a piece of code is
/// the one that `unresolved` finds in the whole piece.
pub proof fn lemma_unresolved_stays(all: Seq<Ir>, part: Seq<Ir>, i: int)
    requires
        0 <= i <= part.len(),
        unresolved(all, part.take(i)) is Some,
    ensures
        unresolved(all, part) == unresolved(all, part.take(i)),
    decreases part.len(),
{
    if i < part.len() {
        assert(part.drop_last().take(i) =~= part.take(i));
        lemma_unresolved_stays(all, part.drop_last(), i);
    } else {
        assert(part.take(i) =~= part);
    }
}

/// What a translation yields.
pub struct Translated {
    pub instructions: Seq<Instruction>,
    pub strings: Seq<Seq<char>>,
    pub heap_size: nat,
}

/// The translation of a program: the host function names are interned, the
/// program is turned into intermediate code, and the code is resolved. The
/// strings of the result are the interned strings, and its heap has one slot
/// for each variable.
pub open spec fn translation(statements: Seq<Statement>, functions: Seq<Statement>) -> Result<
    Translated,
    Refusal,
> {
    match Unit::empty().with_host_names().run(statements, functions) {
        Err(refusal) => Err(refusal),
        Ok((unit, instructions)) => Ok(
            Translated { instructions, strings: unit.strings, heap_size: unit.variables.len() },
        ),
    }
}

/// The size of an expression: the number of its nodes.
pub open spec fn expression_size(e: Expression) -> nat
    decreases e,
{
    match e {
        Expression::FunctionCall { func_name, args } => 1 + expressions_size(args@),
        Expression::Addition { left, right }
        | Expression::Subtraction { left, right }
        | Expression::Multiplication { left, right }
        | Expression::Division { left, right }
        | Expression::Modulus { left, right }
        | Expression::Equal { left, right }
        | Expression::NotEqual { left, right }
        | Expression::GreaterThan { left, right }
        | Expression::LessThan { left, right }
        | Expression::GreaterThanOrEqual { left, right }
        | Expression::LessThanOrEqual { left, right } => 1 + expression_size(*left)
            + expression_size(*right),
        _ => 1,
    }
}

/// The size of a sequence of expressions.
pub open spec fn expressions_size(es: Seq<Expression>) -> nat
    decreases es,
{
    if es.len() == 0 {
        0
    } else {
        expressions_size(es.drop_last()) + expression_size(es.last())
    }
}

/// The size of a statement: the number of its nodes.
pub open spec fn statement_size(s: Statement) -> nat
    decreases s,
{
    match s {
        Statement::Assignment { identifier, expression } => 1 + expression_size(expression),
        Statement::Reassignment { identifier, expression } => 1 + expression_size(expression),
        Statement::FunctionCall { func_name, args } => 1 + expressions_size(args@),
        Statement::FunctionDeclaration { func_name, args, body } => 1 + statements_size(body@),
        Statement::Conditional { body, else_body } => 1 + branches_size(body@) + else_size(
            else_body,
        ),
        Statement::WhileLoop { condition, body } => 1 + expression_size(condition)
            + statements_size(body@),
        Statement::Return(e) => 1 + expression_size(e),
        _ => 1,
    }
}

/// The size of a sequence of statements.
pub open spec fn statements_size(ss: Seq<Statement>) -> nat
    decreases ss,
{
    if ss.len() == 0 {
        0
    } else {
        1 + statement_size(ss.first()) + statements_size(ss.drop_first())
    }
}

/// The size of the branches of a conditional.
pub open spec fn branches_size(bs: Seq<(Expression, Vec<Statement>)>) -> nat
    decreases bs,
{
    if bs.len() == 0 {
        0
    } else {
        1 + expression_size(bs.first().0) + statements_size(bs.first().1@) + branches_size(
            bs.drop_first(),
        )
    }
}

/// The size of an else body.
pub open spec fn else_size(else_body: Option<Vec<Statement>>) -> nat
    decreases else_body,
{
    match else_body {
        Some(otherwise) => 1 + statements_size(otherwise@),
        None => 0,
    }
}

/// An expression of a sequence is no larger than the sequence.
pub proof fn lemma_expression_within(es: Seq<Expression>, i: int)
    requires
        0 <= i < es.len(),
    ensures
        expression_size(es[i]) <= expressions_size(es),
    decreases es.len(),
{
    if i < es.len() - 1 {
        lemma_expression_within(es.drop_last(), i);
    }
}

/// A statement of a sequence is smaller than the sequence.
pub proof fn lemma_statement_within(ss: Seq<Statement>, i: int)
    requires
        0 <= i < ss.len(),
    ensures
        statement_size(ss[i]) < statements_size(ss),
    decreases ss.len(),
{
    if i > 0 {
        lemma_statement_within(ss.drop_first(), i - 1);
    }
}

/// A branch of a conditional is smaller than the branches together.
pub proof fn lemma_branch_within(bs: Seq<(Expression, Vec<Statement>)>, i: int)
    requires
        0 <= i < bs.len(),
    ensures
        expression_size(bs[i].0) + statements_size(bs[i].1@) < branches_size(bs),
    decreases bs.len(),
{
    if i > 0 {
        lemma_branch_within(bs.drop_first(), i - 1);
    }
}

} // verus!
