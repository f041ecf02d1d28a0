//! The translator: from the syntax tree to intermediate code, and from
//! intermediate code to instructions.

use vstd::prelude::*;
use crate::bincompiler::ast::{Expression, Statement};
use crate::bincompiler::lowering::{
    branch_label, branches_size, else_size, end_label, expression_size, expressions_size, followed,
    function_label, instruction_count, is_external, is_variadic, label_address, lemma_count_grows,
    lemma_unresolved_stays, lemma_branch_within, lemma_expression_within, lemma_statement_within,
    preceded, resolve, resolved_part, start_label, statement_size, statements_size, stores, target,
    translation, unresolved, Ir, Lowered, Refusal, Translated, Unit,
};
use crate::bincore::data::program_file::Program;
use crate::bincore::data::value::Value;
use crate::bincore::executable::runnable::Instruction;
use crate::names::{interned, interned_id, texts, Interner, NameMap};
use crate::text::{chars_of, numbered, owned, same_text, usize_to_string};

verus! {

/// One entry of the intermediate code.
#[derive(Debug)]
pub enum IntermediateCode {
    Label(String),
    Call(String),
    Inst(Instruction),
    Jump(String),
    JumpIfFalse(String),
}

impl IntermediateCode {
    /// The entry as plain values.
    pub open spec fn view(&self) -> Ir {
        match *self {
            IntermediateCode::Label(name) => Ir::Label(name@),
            IntermediateCode::Call(name) => Ir::Call(name@),
            IntermediateCode::Inst(instruction) => Ir::Inst(instruction),
            IntermediateCode::Jump(name) => Ir::Jump(name@),
            IntermediateCode::JumpIfFalse(name) => Ir::JumpIfFalse(name@),
        }
    }
}

/// The entries of a piece of intermediate code, as plain values.
pub open spec fn entries(code: Seq<IntermediateCode>) -> Seq<Ir> {
    Seq::new(code.len(), |i: int| code[i]@)
}

/// Why a program cannot be translated.
#[derive(Debug)]
pub enum TranslationError {
    /// A call names a function that is neither a host function nor declared
    /// before the call is translated.
    UnknownFunction(String),
    /// A conditional has neither a branch nor an else body.
    EmptyConditional,
    /// A jump or call names a label that the code does not hold.
    UnresolvedLabel(String),
    /// There are more labels or instructions than can be numbered.
    TooLarge,
}

impl TranslationError {
    /// The error as plain values.
    pub open spec fn view(&self) -> Refusal {
        match *self {
            TranslationError::UnknownFunction(name) => Refusal::UnknownFunction(name@),
            TranslationError::EmptyConditional => Refusal::EmptyConditional,
            TranslationError::UnresolvedLabel(name) => Refusal::UnresolvedLabel(name@),
            TranslationError::TooLarge => Refusal::TooLarge,
        }
    }
}

/// Makes entries of intermediate code.
pub struct IC;

impl IC {
    /// A call of the function at the label `name`.
    pub fn call(name: &str) -> (entry: IntermediateCode)
        ensures
            entry@ == Ir::Call(name@),
    {
        IntermediateCode::Call(owned(name))
    }

    /// The label `name`.
    pub fn label(name: &str) -> (entry: IntermediateCode)
        ensures
            entry@ == Ir::Label(name@),
    {
        IntermediateCode::Label(owned(name))
    }

    /// An instruction that needs no label.
    pub fn instruction(instruction: Instruction) -> (entry: IntermediateCode)
        ensures
            entry@ == Ir::Inst(instruction),
    {
        IntermediateCode::Inst(instruction)
    }

    /// A jump to the label `name`.
    pub fn jump(name: &str) -> (entry: IntermediateCode)
        ensures
            entry@ == Ir::Jump(name@),
    {
        IntermediateCode::Jump(owned(name))
    }

    /// A jump to the label `name` that is taken if `false` is on the stack.
    pub fn jump_if_false(name: &str) -> (entry: IntermediateCode)
        ensures
            entry@ == Ir::JumpIfFalse(name@),
    {
        IntermediateCode::JumpIfFalse(owned(name))
    }
}

/// Whether `name` is a host function that takes a variable number of
/// arguments.
pub fn variadic(name: &str) -> (r: bool)
    ensures
        r == is_variadic(name@),
{
    let chars = chars_of(name);
    same_text("print", &chars) || same_text("new_list_with_values", &chars)
}

/// Whether `name` is a function that the host provides.
pub fn external(name: &str) -> (r: bool)
    ensures
        r == is_external(name@),
{
    let chars = chars_of(name);
    same_text("print", &chars) || same_text("push", &chars) || same_text("pop", &chars)
        || same_text("new_list", &chars) || same_text("new_list_with_values", &chars)
        || same_text("new_list_with_default_values", &chars) || same_text("index_set", &chars)
        || same_text("index_get", &chars) || same_text("len", &chars)
}

/// The entries of two pieces of code, one after the other.
pub proof fn lemma_entries_add(a: Seq<IntermediateCode>, b: Seq<IntermediateCode>)
    ensures
        entries(a + b) == entries(a) + entries(b),
{
    assert(entries(a + b) =~= entries(a) + entries(b));
}

/// The entries of a piece of code with one more entry.
pub proof fn lemma_entries_push(a: Seq<IntermediateCode>, entry: IntermediateCode)
    ensures
        entries(a.push(entry)) == entries(a).push(entry@),
{
    assert(entries(a.push(entry)) =~= entries(a).push(entry@));
}

/// The translation of one program.
pub struct BinLangTranslationUnit {
    pub statements: Vec<Statement>,
    pub functions: Vec<Statement>,
    pub code: Vec<IntermediateCode>,
    /// The interned strings: literals and the names of host functions.
    pub string_refs: Interner,
    /// The interned variable names; the id of a variable is its heap address.
    pub variable_refs: Interner,
    /// The parameter names of each function declared so far.
    pub func_args: NameMap<Vec<String>>,
    pub conditional_label_count: usize,
    pub while_label_count: usize,
}

/// The parameter lists as plain values.
pub open spec fn parameters(table: Map<Seq<char>, Vec<String>>) -> Map<Seq<char>, Seq<Seq<char>>> {
    table.map_values(|names: Vec<String>| texts(names@))
}

/// What a translating function returned, as plain values: the state
/// afterwards and the code, or the refusal.
pub open spec fn lowered(
    r: Result<Vec<IntermediateCode>, TranslationError>,
    unit: Unit,
) -> Lowered {
    match r {
        Ok(code) => Ok((unit, entries(code@))),
        Err(error) => Err(error@),
    }
}

impl BinLangTranslationUnit {
    /// The tables are well formed.
    pub open spec fn wf(&self) -> bool {
        &&& self.string_refs.wf()
        &&& self.variable_refs.wf()
        &&& self.func_args.wf()
    }

    /// The state of the translation as plain values.
    pub open spec fn view(&self) -> Unit {
        Unit {
            strings: self.string_refs@,
            variables: self.variable_refs@,
            func_args: parameters(self.func_args@),
            conditionals: self.conditional_label_count as nat,
            whiles: self.while_label_count as nat,
        }
    }

    /// A translation of the given program that has not started yet.
    pub fn new(statements: Vec<Statement>, functions: Vec<Statement>) -> (unit: Self)
        ensures
            unit.wf(),
            unit@ == Unit::empty(),
            unit.statements == statements,
            unit.functions == functions,
    {
        let unit = BinLangTranslationUnit {
            statements,
            functions,
            code: Vec::new(),
            string_refs: Interner::new(),
            variable_refs: Interner::new(),
            func_args: NameMap::new(),
            conditional_label_count: 0,
            while_label_count: 0,
        };
        assert(unit@.func_args =~= Map::empty());
        unit
    }

    /// The id of the string, which is interned first if it is new.
    pub fn reference_string(&mut self, string: &str) -> (id: usize)
        requires
            old(self).wf(),
        ensures
            final(self).wf(),
            id == interned_id(old(self)@.strings, string@),
            final(self)@ == old(self)@.with_string(string@),
            final(self).statements == old(self).statements,
            final(self).functions == old(self).functions,
    {
        self.string_refs.reference(string)
    }

    /// The heap address of the variable, which is interned first if it is new.
    pub fn reference_variable(&mut self, variable: &str) -> (id: usize)
        requires
            old(self).wf(),
        ensures
            final(self).wf(),
            id == interned_id(old(self)@.variables, variable@),
            final(self)@ == old(self)@.with_variable(variable@),
            final(self).statements == old(self).statements,
            final(self).functions == old(self).functions,
    {
        self.variable_refs.reference(variable)
    }

    /// A binary operation: the left operand, the right operand, the operator.
    fn try_binary(&mut self, left: &Expression, right: &Expression, op: Instruction) -> (r: Result<
        Vec<IntermediateCode>,
        TranslationError,
    >)
        requires
            old(self).wf(),
        ensures
            final(self).wf(),
            lowered(r, final(self)@) == (match old(self)@.expression(*left) {
                Err(refusal) => Err(refusal),
                Ok((unit, code)) => preceded(
                    code,
                    followed(unit.expression(*right), seq![Ir::Inst(op)]),
                ),
            }),
        decreases expression_size(*left) + expression_size(*right), 1nat,
    {
        let mut code = match self.try_expression(left) {
            Ok(code) => code,
            Err(error) => {
                return Err(error);
            },
        };
        let mut second = match self.try_expression(right) {
            Ok(code) => code,
            Err(error) => {
                return Err(error);
            },
        };
        proof {
            lemma_entries_add(code@, second@);
            lemma_entries_push(code@ + second@, IntermediateCode::Inst(op));
            assert((entries(code@) + entries(second@)).push(Ir::Inst(op)) =~= entries(code@) + (
            entries(second@) + seq![Ir::Inst(op)]));
        }
        code.append(&mut second);
        code.push(IC::instruction(op));
        Ok(code)
    }

    /// The code of an expression, or why it has none.
    pub fn try_expression(&mut self, expression: &Expression) -> (r: Result<
        Vec<IntermediateCode>,
        TranslationError,
    >)
        requires
            old(self).wf(),
        ensures
            final(self).wf(),
            lowered(r, final(self)@) == old(self)@.expression(*expression),
        decreases expression_size(*expression), 0nat,
    {
        match expression {
            Expression::Int(value) => {
                let code = vec![IC::instruction(Instruction::Push { value: Value::Int(*value) })];
                assert(entries(code@) =~= seq![code[0]@]);
                Ok(code)
            },
            Expression::Float(value) => {
                let code = vec![
                    IC::instruction(Instruction::Push { value: Value::Float(*value) }),
                ];
                assert(entries(code@) =~= seq![code[0]@]);
                Ok(code)
            },
            Expression::Bool(value) => {
                let code = vec![IC::instruction(Instruction::Push { value: Value::Bool(*value) })];
                assert(entries(code@) =~= seq![code[0]@]);
                Ok(code)
            },
            Expression::String(text) => {
                let id = self.reference_string(text.as_str());
                let code = vec![IC::instruction(Instruction::Push { value: Value::StrRef(id) })];
                assert(entries(code@) =~= seq![code[0]@]);
                Ok(code)
            },
            Expression::Variable(variable) => {
                let name = variable.to_string();
                let address = self.reference_variable(name.as_str());
                let code = vec![IC::instruction(Instruction::Load { address })];
                assert(entries(code@) =~= seq![code[0]@]);
                Ok(code)
            },
            Expression::FunctionCall { func_name, args } => {
                let name = func_name.to_string();
                self.try_function_call(name.as_str(), args)
            },
            Expression::Addition { left, right } => self.try_binary(left, right, Instruction::Add),
            Expression::Subtraction { left, right } => self.try_binary(
                left,
                right,
                Instruction::Sub,
            ),
            Expression::Multiplication { left, right } => self.try_binary(
                left,
                right,
                Instruction::Mul,
            ),
            Expression::Division { left, right } => self.try_binary(left, right, Instruction::Div),
            Expression::Modulus { left, right } => self.try_binary(left, right, Instruction::Mod),
            Expression::Equal { left, right } => self.try_binary(left, right, Instruction::Eq),
            Expression::NotEqual { left, right } => self.try_binary(left, right, Instruction::Neq),
            Expression::GreaterThan { left, right } => self.try_binary(
                left,
                right,
                Instruction::Gt,
            ),
            Expression::LessThan { left, right } => self.try_binary(left, right, Instruction::Lt),
            Expression::GreaterThanOrEqual { left, right } => self.try_binary(
                left,
                right,
                Instruction::Gte,
            ),
            Expression::LessThanOrEqual { left, right } => self.try_binary(
                left,
                right,
                Instruction::Lte,
            ),
        }
    }

    /// The code that follows the arguments of a call, or why there is none.
    fn try_call(&mut self, func_name: &str, count: usize) -> (r: Result<
        Vec<IntermediateCode>,
        TranslationError,
    >)
        requires
            old(self).wf(),
        ensures
            final(self).wf(),
            lowered(r, final(self)@) == old(self)@.call(func_name@, count as nat),
    {
        if external(func_name) {
            let mut code: Vec<IntermediateCode> = Vec::new();
            if variadic(func_name) {
                code.push(
                    IC::instruction(
                        Instruction::Push {
                            value: Value::Int(
                                #[verifier::truncate]
                                (count as i64),
                            ),
                        },
                    ),
                );
            }
            let string_id = self.reference_string(func_name);
            code.push(IC::instruction(Instruction::ExternCall { string_id }));
            proof {
                let wanted = old(self)@.call(func_name@, count as nat);
                assert(wanted is Ok);
                let pair = wanted->Ok_0;
                assert(entries(code@) =~= pair.1);
                assert(self@ == pair.0);
            }
            Ok(code)
        } else {
            match self.func_args.get(func_name) {
                None => {
                    assert(!old(self)@.func_args.contains_key(func_name@));
                    Err(TranslationError::UnknownFunction(owned(func_name)))
                },
                Some(params) => {
                    assert(old(self)@.func_args.contains_key(func_name@));
                    assert(old(self)@.func_args[func_name@] == texts(params@));
                    let mut code = store_parameters(&mut self.variable_refs, params);
                    let label = owned("function_").concat(func_name);
                    assert(label@ == function_label(func_name@));
                    proof {
                        lemma_entries_push(code@, IntermediateCode::Call(label));
                    }
                    code.push(IC::call(label.as_str()));
                    proof {
                        let wanted = old(self)@.call(func_name@, count as nat);
                        assert(wanted is Ok);
                        let pair = wanted->Ok_0;
                        assert(self@ == pair.0);
                        assert(entries(code@) == pair.1);
                    }
                    Ok(code)
                },
            }
        }
    }

    /// The code of a call, or why it has none.
    pub fn try_function_call(&mut self, func_name: &str, args: &Vec<Expression>) -> (r: Result<
        Vec<IntermediateCode>,
        TranslationError,
    >)
        requires
            old(self).wf(),
        ensures
            final(self).wf(),
            lowered(r, final(self)@) == old(self)@.function_call(func_name@, args@),
        decreases expressions_size(args@), 1nat,
    {
        let mut code: Vec<IntermediateCode> = Vec::new();
        let mut i: usize = args.len();
        assert(args@.take(i as int) =~= args@);
        while i > 0
            invariant
                self.wf(),
                i <= args.len(),
                old(self)@.arguments(args@) == preceded(
                    entries(code@),
                    self@.arguments(args@.take(i as int)),
                ),
            decreases i,
        {
            i -= 1;
            let ghost rest = args@.take(i as int + 1);
            proof {
                assert(rest.last() == args@[i as int]);
                assert(rest.drop_last() =~= args@.take(i as int));
                lemma_expression_within(args@, i as int);
            }
            match self.try_expression(&args[i]) {
                Ok(more) => {
                    let mut more = more;
                    proof {
                        lemma_entries_add(code@, more@);
                        match self@.arguments(args@.take(i as int)) {
                            Ok((unit, last)) => {
                                assert((entries(code@) + entries(more@)) + last =~= entries(code@)
                                    + (entries(more@) + last));
                            },
                            Err(_) => {},
                        }
                    }
                    code.append(&mut more);
                },
                Err(error) => {
                    return Err(error);
                },
            }
        }
        proof {
            assert(entries(code@) + Seq::<Ir>::empty() =~= entries(code@));
        }
        let mut rest = match self.try_call(func_name, args.len()) {
            Ok(rest) => rest,
            Err(error) => {
                return Err(error);
            },
        };
        proof {
            lemma_entries_add(code@, rest@);
        }
        code.append(&mut rest);
        Ok(code)
    }

    /// The code of an assignment, or why it has none.
    pub fn try_assignment(&mut self, identifier: &str, expression: &Expression) -> (r: Result<
        Vec<IntermediateCode>,
        TranslationError,
    >)
        requires
            old(self).wf(),
        ensures
            final(self).wf(),
            lowered(r, final(self)@) == old(self)@.assignment(identifier@, *expression),
    {
        let mut code = match self.try_expression(expression) {
            Ok(code) => code,
            Err(error) => {
                return Err(error);
            },
        };
        let address = self.reference_variable(identifier);
        proof {
            lemma_entries_push(code@, IntermediateCode::Inst(Instruction::Store { address }));
        }
        code.push(IC::instruction(Instruction::Store { address }));
        Ok(code)
    }

    /// The code of a return, or why it has none.
    pub fn try_return_statement(&mut self, expression: &Expression) -> (r: Result<
        Vec<IntermediateCode>,
        TranslationError,
    >)
        requires
            old(self).wf(),
        ensures
            final(self).wf(),
            lowered(r, final(self)@) == old(self)@.return_statement(*expression),
    {
        let mut code = match self.try_expression(expression) {
            Ok(code) => code,
            Err(error) => {
                return Err(error);
            },
        };
        proof {
            lemma_entries_push(code@, IntermediateCode::Inst(Instruction::Ret));
            assert(entries(code@).push(Ir::Inst(Instruction::Ret)) =~= entries(code@) + seq![
                Ir::Inst(Instruction::Ret),
            ]);
        }
        code.push(IC::instruction(Instruction::Ret));
        Ok(code)
    }

    /// The code of a sequence of statements, or why it has none.
    pub fn try_block(&mut self, while_scope: usize, body: &Vec<Statement>) -> (r: Result<
        Vec<IntermediateCode>,
        TranslationError,
    >)
        requires
            old(self).wf(),
        ensures
            final(self).wf(),
            lowered(r, final(self)@) == old(self)@.block(while_scope as nat, body@),
        decreases statements_size(body@), 1nat,
    {
        let mut code: Vec<IntermediateCode> = Vec::new();
        let mut i: usize = 0;
        assert(body@.skip(0) =~= body@);
        while i < body.len()
            invariant
                self.wf(),
                i <= body.len(),
                old(self)@.block(while_scope as nat, body@) == preceded(
                    entries(code@),
                    self@.block(while_scope as nat, body@.skip(i as int)),
                ),
            decreases body.len() - i,
        {
            let ghost rest = body@.skip(i as int);
            proof {
                assert(rest.first() == body@[i as int]);
                assert(rest.drop_first() =~= body@.skip(i as int + 1));
                lemma_statement_within(body@, i as int);
            }
            match self.try_statement(while_scope, &body[i]) {
                Ok(more) => {
                    let mut more = more;
                    proof {
                        lemma_entries_add(code@, more@);
                        match self@.block(while_scope as nat, body@.skip(i as int + 1)) {
                            Ok((unit, last)) => {
                                assert((entries(code@) + entries(more@)) + last =~= entries(code@)
                                    + (entries(more@) + last));
                            },
                            Err(_) => {},
                        }
                    }
                    code.append(&mut more);
                },
                Err(error) => {
                    return Err(error);
                },
            }
            i += 1;
        }
        proof {
            assert(entries(code@) + Seq::<Ir>::empty() =~= entries(code@));
        }
        Ok(code)
    }

    /// The code of the branches of conditional `k`, or why it has none.
    fn try_branches(
        &mut self,
        while_scope: usize,
        k: usize,
        bodies: &Vec<(Expression, Vec<Statement>)>,
    ) -> (r: Result<Vec<IntermediateCode>, TranslationError>)
        requires
            old(self).wf(),
        ensures
            final(self).wf(),
            lowered(r, final(self)@) == old(self)@.branches(
                while_scope as nat,
                k as nat,
                0,
                bodies@,
            ),
            r is Ok && bodies.len() > 0 ==> r->Ok_0.len() >= 2,
        decreases branches_size(bodies@), 1nat,
    {
        let mut code: Vec<IntermediateCode> = Vec::new();
        let end = numbered("end_", k);
        let mut i: usize = 0;
        assert(bodies@.skip(0) =~= bodies@);
        while i < bodies.len()
            invariant
                self.wf(),
                i <= bodies.len(),
                end@ == end_label(k as nat),
                i > 0 ==> code.len() >= 2,
                old(self)@.branches(while_scope as nat, k as nat, 0, bodies@) == preceded(
                    entries(code@),
                    self@.branches(while_scope as nat, k as nat, i as nat, bodies@.skip(i as int)),
                ),
            decreases bodies.len() - i,
        {
            let ghost rest = bodies@.skip(i as int);
            proof {
                assert(rest.first() == bodies@[i as int]);
                assert(rest.drop_first() =~= bodies@.skip(i as int + 1));
                lemma_branch_within(bodies@, i as int);
            }
            let label = numbered("if_", k).concat("_").concat(usize_to_string(i).as_str());
            assert(label@ == branch_label(k as nat, i as nat));
            let ghost start = entries(code@);
            let mut test = match self.try_expression(&bodies[i].0) {
                Ok(code) => code,
                Err(error) => {
                    return Err(error);
                },
            };
            let mut body = match self.try_block(while_scope, &bodies[i].1) {
                Ok(code) => code,
                Err(error) => {
                    return Err(error);
                },
            };
            let ghost branch = entries(test@) + seq![Ir::JumpIfFalse(label@)] + entries(body@)
                + seq![Ir::Jump(end@), Ir::Label(label@)];
            proof {
                lemma_entries_add(code@, test@);
                lemma_entries_add(
                    (code@ + test@).push(IntermediateCode::JumpIfFalse(label)),
                    body@,
                );
            }
            code.append(&mut test);
            code.push(IC::jump_if_false(label.as_str()));
            code.append(&mut body);
            code.push(IC::jump(end.as_str()));
            code.push(IC::label(label.as_str()));
            proof {
                assert(entries(code@) =~= start + branch);
                match self@.branches(
                    while_scope as nat,
                    k as nat,
                    (i + 1) as nat,
                    bodies@.skip(i as int + 1),
                ) {
                    Ok((unit, last)) => {
                        assert((start + branch) + last =~= start + (branch + last));
                    },
                    Err(_) => {},
                }
            }
            i += 1;
        }
        proof {
            assert(entries(code@) + Seq::<Ir>::empty() =~= entries(code@));
        }
        Ok(code)
    }

    /// The code of a conditional, or why it has none.
    pub fn try_conditional(
        &mut self,
        while_scope: usize,
        bodies: &Vec<(Expression, Vec<Statement>)>,
        else_body: &Option<Vec<Statement>>,
    ) -> (r: Result<Vec<IntermediateCode>, TranslationError>)
        requires
            old(self).wf(),
        ensures
            final(self).wf(),
            lowered(r, final(self)@) == old(self)@.conditional(
                while_scope as nat,
                bodies@,
                *else_body,
            ),
        decreases branches_size(bodies@) + else_size(*else_body), 2nat,
    {
        if self.conditional_label_count == usize::MAX {
            return Err(TranslationError::TooLarge);
        }
        let k = self.conditional_label_count;
        self.conditional_label_count += 1;
        let mut code = match self.try_branches(while_scope, k, bodies) {
            Ok(code) => code,
            Err(error) => {
                return Err(error);
            },
        };
        let ghost branches = entries(code@);
        match else_body {
            Some(otherwise) => {
                let mut rest = match self.try_block(while_scope, otherwise) {
                    Ok(code) => code,
                    Err(error) => {
                        return Err(error);
                    },
                };
                let end = numbered("end_", k);
                proof {
                    lemma_entries_add(code@, rest@);
                    lemma_entries_push(code@ + rest@, IntermediateCode::Label(end));
                    assert((branches + entries(rest@)).push(Ir::Label(end@)) =~= branches + (
                    entries(rest@) + seq![Ir::Label(end@)]));
                }
                code.append(&mut rest);
                code.push(IC::label(end.as_str()));
                proof {
                    let wanted = old(self)@.conditional(while_scope as nat, bodies@, *else_body);
                    assert(wanted is Ok);
                    assert(wanted->Ok_0.0 == self@);
                    assert(wanted->Ok_0.1 == entries(code@));
                }
                Ok(code)
            },
            None => {
                if bodies.len() == 0 {
                    return Err(TranslationError::EmptyConditional);
                }
                let label = code.pop().unwrap();
                let _ = code.pop();
                let end = numbered("end_", k);
                code.push(label);
                code.push(IC::label(end.as_str()));
                proof {
                    assert(entries(code@) =~= branches.take(branches.len() - 2).push(
                        branches.last(),
                    ).push(Ir::Label(end@)));
                    let wanted = old(self)@.conditional(while_scope as nat, bodies@, *else_body);
                    assert(wanted is Ok);
                    assert(wanted->Ok_0.0 == self@);
                    assert(wanted->Ok_0.1 == entries(code@));
                }
                Ok(code)
            },
        }
    }

    /// The code of a while loop, or why it has none.
    pub fn try_while_loop(&mut self, condition: &Expression, body: &Vec<Statement>) -> (r: Result<
        Vec<IntermediateCode>,
        TranslationError,
    >)
        requires
            old(self).wf(),
        ensures
            final(self).wf(),
            lowered(r, final(self)@) == old(self)@.while_loop(*condition, body@),
        decreases statements_size(body@), 2nat,
    {
        if self.while_label_count == usize::MAX {
            return Err(TranslationError::TooLarge);
        }
        let count = self.while_label_count;
        let condition_label = numbered("while_", count);
        let end = numbered("end_while_", count);
        self.while_label_count += 1;
        let mut code: Vec<IntermediateCode> = Vec::new();
        code.push(IC::label(condition_label.as_str()));
        let mut test = match self.try_expression(condition) {
            Ok(code) => code,
            Err(error) => {
                return Err(error);
            },
        };
        let ghost head = seq![Ir::Label(condition_label@)] + entries(test@) + seq![
            Ir::JumpIfFalse(end@),
        ];
        code.append(&mut test);
        code.push(IC::jump_if_false(end.as_str()));
        proof {
            assert(entries(code@) =~= head);
        }
        let mut rest = match self.try_block(count, body) {
            Ok(code) => code,
            Err(error) => {
                return Err(error);
            },
        };
        let ghost tail = seq![Ir::Jump(condition_label@), Ir::Label(end@)];
        let ghost middle = entries(rest@);
        proof {
            lemma_entries_add(code@, rest@);
        }
        code.append(&mut rest);
        code.push(IC::jump(condition_label.as_str()));
        code.push(IC::label(end.as_str()));
        proof {
            assert(entries(code@) =~= head + (middle + tail));
        }
        Ok(code)
    }

    /// The code of a function declaration, or why it has none.
    pub fn try_function_declaration(
        &mut self,
        while_scope: usize,
        func_name: &str,
        args: Vec<String>,
        body: &Vec<Statement>,
    ) -> (r: Result<Vec<IntermediateCode>, TranslationError>)
        requires
            old(self).wf(),
        ensures
            final(self).wf(),
            lowered(r, final(self)@) == old(self)@.function_declaration(
                while_scope as nat,
                func_name@,
                texts(args@),
                body@,
            ),
        decreases statements_size(body@), 2nat,
    {
        self.func_args.insert(owned(func_name), args);
        proof {
            assert(self@.func_args =~= old(self)@.func_args.insert(func_name@, texts(args@)));
        }
        let label = owned("function_").concat(func_name);
        let mut code: Vec<IntermediateCode> = Vec::new();
        code.push(IC::label(label.as_str()));
        let mut rest = match self.try_block(while_scope, body) {
            Ok(code) => code,
            Err(error) => {
                return Err(error);
            },
        };
        proof {
            lemma_entries_add(code@, rest@);
            assert(entries(code@) =~= seq![Ir::Label(function_label(func_name@))]);
        }
        code.append(&mut rest);
        Ok(code)
    }

    /// The code of a statement inside the while loop `while_scope`, or why it
    /// has none.
    pub fn try_statement(&mut self, while_scope: usize, statement: &Statement) -> (r: Result<
        Vec<IntermediateCode>,
        TranslationError,
    >)
        requires
            old(self).wf(),
        ensures
            final(self).wf(),
            lowered(r, final(self)@) == old(self)@.statement(while_scope as nat, *statement),
        decreases statement_size(*statement), 0nat,
    {
        match statement {
            Statement::Assignment { identifier, expression } => {
                let name = identifier.to_string();
                self.try_assignment(name.as_str(), expression)
            },
            Statement::Reassignment { identifier, expression } => {
                let name = identifier.to_string();
                self.try_assignment(name.as_str(), expression)
            },
            Statement::FunctionCall { func_name, args } => {
                let name = func_name.to_string();
                self.try_function_call(name.as_str(), args)
            },
            Statement::FunctionDeclaration { func_name, args, body } => {
                let name = func_name.to_string();
                let mut names: Vec<String> = Vec::new();
                let mut i: usize = 0;
                while i < args.len()
                    invariant
                        i <= args.len(),
                        names.len() == i,
                        forall|j: int| 0 <= j < i ==> names[j]@ == args@[j].text(),
                    decreases args.len() - i,
                {
                    names.push(args[i].to_string());
                    i += 1;
                }
                assert(texts(names@) =~= Seq::new(args@.len(), |i: int| args@[i].text()));
                self.try_function_declaration(while_scope, name.as_str(), names, body)
            },
            Statement::Conditional { body, else_body } => self.try_conditional(
                while_scope,
                body,
                else_body,
            ),
            Statement::WhileLoop { condition, body } => self.try_while_loop(condition, body),
            Statement::Break => {
                let code = vec![IC::jump(numbered("end_while_", while_scope).as_str())];
                assert(entries(code@) =~= seq![code[0]@]);
                Ok(code)
            },
            Statement::Continue => {
                let code = vec![IC::jump(numbered("while_", while_scope).as_str())];
                assert(entries(code@) =~= seq![code[0]@]);
                Ok(code)
            },
            Statement::EOI => {
                let code: Vec<IntermediateCode> = Vec::new();
                assert(entries(code@) =~= Seq::empty());
                Ok(code)
            },
            Statement::Return(expression) => self.try_return_statement(expression),
            Statement::Comment(_) => {
                let code: Vec<IntermediateCode> = Vec::new();
                assert(entries(code@) =~= Seq::empty());
                Ok(code)
            },
        }
    }

    /// The intermediate code of the whole program, or why it has none.
    pub fn try_program(&mut self) -> (r: Result<Vec<IntermediateCode>, TranslationError>)
        requires
            old(self).wf(),
        ensures
            final(self).wf(),
            lowered(r, final(self)@) == old(self)@.program(
                old(self).statements@,
                old(self).functions@,
            ),
            r is Ok ==> final(self).statements == old(self).statements && final(self).functions
                == old(self).functions,
    {
        let mut functions: Vec<Statement> = Vec::new();
        let mut statements: Vec<Statement> = Vec::new();
        core::mem::swap(&mut functions, &mut self.functions);
        core::mem::swap(&mut statements, &mut self.statements);
        assert(self@ == old(self)@);
        let mut code: Vec<IntermediateCode> = vec![IC::jump("_start")];
        let mut declared = match self.try_block(0, &functions) {
            Ok(code) => code,
            Err(error) => {
                return Err(error);
            },
        };
        let ghost first = entries(declared@);
        proof {
            lemma_entries_add(code@, declared@);
        }
        code.append(&mut declared);
        code.push(IC::label("_start"));
        let ghost head = seq![Ir::Jump(start_label())] + first + seq![Ir::Label(start_label())];
        proof {
            assert(entries(code@) =~= head);
        }
        let mut main = match self.try_block(0, &statements) {
            Ok(code) => code,
            Err(error) => {
                return Err(error);
            },
        };
        let ghost second = entries(main@);
        proof {
            lemma_entries_add(code@, main@);
        }
        code.append(&mut main);
        code.push(IC::instruction(Instruction::Nop));
        proof {
            assert(entries(code@) =~= head + (second + seq![Ir::Inst(Instruction::Nop)]));
        }
        core::mem::swap(&mut functions, &mut self.functions);
        core::mem::swap(&mut statements, &mut self.statements);
        Ok(code)
    }

    /// The instructions of the whole program, or why it has none.
    pub fn try_run(&mut self) -> (r: Result<Vec<Instruction>, TranslationError>)
        requires
            old(self).wf(),
        ensures
            final(self).wf(),
            match old(self)@.run(old(self).statements@, old(self).functions@) {
                Ok((unit, instructions)) => r is Ok && r->Ok_0@ == instructions && final(self)@
                    == unit,
                Err(refusal) => r is Err && r->Err_0@ == refusal,
            },
            r is Ok ==> final(self).statements == old(self).statements && final(self).functions
                == old(self).functions,
    {
        let intermediate = match self.try_program() {
            Ok(code) => code,
            Err(error) => {
                return Err(error);
            },
        };
        try_resolve(&intermediate)
    }

    /// The program that the statements and functions translate to, or why
    /// they do not translate.
    pub fn try_translate(statements: Vec<Statement>, functions: Vec<Statement>) -> (r: Result<
        Program,
        TranslationError,
    >)
        ensures
            match translation(statements@, functions@) {
                Ok(translated) => r is Ok && r->Ok_0.wf() && r->Ok_0.instructions@
                    == translated.instructions && texts(r->Ok_0.strings@) == translated.strings
                    && r->Ok_0.heap_size == translated.heap_size
                    && r->Ok_0.object_descriptor.len() == 0,
                Err(refusal) => r is Err && r->Err_0@ == refusal,
            },
    {
        let mut unit = BinLangTranslationUnit::new(statements, functions);
        unit.reference_string("print");
        unit.reference_string("new_list_with_values");
        unit.reference_string("print");
        unit.reference_string("push");
        unit.reference_string("pop");
        unit.reference_string("new_list");
        unit.reference_string("new_list_with_values");
        unit.reference_string("new_list_with_default_values");
        unit.reference_string("index_set");
        unit.reference_string("index_get");
        unit.reference_string("len");
        assert(unit@ == Unit::empty().with_host_names());
        let instructions = match unit.try_run() {
            Ok(instructions) => instructions,
            Err(error) => {
                return Err(error);
            },
        };
        Ok(
            Program {
                instructions,
                strings: unit.string_refs.to_vec(),
                heap_size: unit.variable_refs.len(),
                object_descriptor: Vec::new(),
            },
        )
    }

    /// The code of an expression that has one.
    pub fn expression(&mut self, expression: &Expression) -> (code: Vec<IntermediateCode>)
        requires
            old(self).wf(),
            old(self)@.expression(*expression) is Ok,
        ensures
            final(self).wf(),
            old(self)@.expression(*expression) == Ok::<(Unit, Seq<Ir>), Refusal>(
                (final(self)@, entries(code@)),
            ),
    {
        self.try_expression(expression).unwrap()
    }

    /// The code of an assignment that has one.
    pub fn assignment(&mut self, identifier: &str, expression: &Expression) -> (code: Vec<
        IntermediateCode,
    >)
        requires
            old(self).wf(),
            old(self)@.assignment(identifier@, *expression) is Ok,
        ensures
            final(self).wf(),
            old(self)@.assignment(identifier@, *expression) == Ok::<(Unit, Seq<Ir>), Refusal>(
                (final(self)@, entries(code@)),
            ),
    {
        self.try_assignment(identifier, expression).unwrap()
    }

    /// The code of a call that has one.
    pub fn function_call(&mut self, func_name: &str, args: &Vec<Expression>) -> (code: Vec<
        IntermediateCode,
    >)
        requires
            old(self).wf(),
            old(self)@.function_call(func_name@, args@) is Ok,
        ensures
            final(self).wf(),
            old(self)@.function_call(func_name@, args@) == Ok::<(Unit, Seq<Ir>), Refusal>(
                (final(self)@, entries(code@)),
            ),
    {
        self.try_function_call(func_name, args).unwrap()
    }

    /// The code of a return that has one.
    pub fn return_statement(&mut self, expression: &Expression) -> (code: Vec<IntermediateCode>)
        requires
            old(self).wf(),
            old(self)@.return_statement(*expression) is Ok,
        ensures
            final(self).wf(),
            old(self)@.return_statement(*expression) == Ok::<(Unit, Seq<Ir>), Refusal>(
                (final(self)@, entries(code@)),
            ),
    {
        self.try_return_statement(expression).unwrap()
    }

    /// The code of a conditional that has one.
    pub fn conditional(
        &mut self,
        while_scope: usize,
        bodies: &Vec<(Expression, Vec<Statement>)>,
        else_body: &Option<Vec<Statement>>,
    ) -> (code: Vec<IntermediateCode>)
        requires
            old(self).wf(),
            old(self)@.conditional(while_scope as nat, bodies@, *else_body) is Ok,
        ensures
            final(self).wf(),
            old(self)@.conditional(while_scope as nat, bodies@, *else_body) == Ok::<
                (Unit, Seq<Ir>),
                Refusal,
            >((final(self)@, entries(code@))),
    {
        self.try_conditional(while_scope, bodies, else_body).unwrap()
    }

    /// The code of a while loop that has one.
    pub fn while_loop(&mut self, condition: &Expression, body: &Vec<Statement>) -> (code: Vec<
        IntermediateCode,
    >)
        requires
            old(self).wf(),
            old(self)@.while_loop(*condition, body@) is Ok,
        ensures
            final(self).wf(),
            old(self)@.while_loop(*condition, body@) == Ok::<(Unit, Seq<Ir>), Refusal>(
                (final(self)@, entries(code@)),
            ),
    {
        self.try_while_loop(condition, body).unwrap()
    }

    /// The code of a statement that has one.
    pub fn statement(&mut self, while_scope: usize, statement: &Statement) -> (code: Vec<
        IntermediateCode,
    >)
        requires
            old(self).wf(),
            old(self)@.statement(while_scope as nat, *statement) is Ok,
        ensures
            final(self).wf(),
            old(self)@.statement(while_scope as nat, *statement) == Ok::<(Unit, Seq<Ir>), Refusal>(
                (final(self)@, entries(code@)),
            ),
    {
        self.try_statement(while_scope, statement).unwrap()
    }

    /// The code of a function declaration that has one.
    pub fn function_declaration(
        &mut self,
        while_scope: usize,
        func_name: &str,
        args: Vec<String>,
        body: &Vec<Statement>,
    ) -> (code: Vec<IntermediateCode>)
        requires
            old(self).wf(),
            old(self)@.function_declaration(while_scope as nat, func_name@, texts(args@), body@)
                is Ok,
        ensures
            final(self).wf(),
            old(self)@.function_declaration(while_scope as nat, func_name@, texts(args@), body@)
                == Ok::<(Unit, Seq<Ir>), Refusal>((final(self)@, entries(code@))),
    {
        self.try_function_declaration(while_scope, func_name, args, body).unwrap()
    }

    /// The instructions of a program that translates.
    pub fn run(&mut self) -> (instructions: Vec<Instruction>)
        requires
            old(self).wf(),
            old(self)@.run(old(self).statements@, old(self).functions@) is Ok,
        ensures
            final(self).wf(),
            old(self)@.run(old(self).statements@, old(self).functions@) == Ok::<
                (Unit, Seq<Instruction>),
                Refusal,
            >((final(self)@, instructions@)),
            final(self).statements == old(self).statements,
            final(self).functions == old(self).functions,
    {
        self.try_run().unwrap()
    }

    /// The program that statements and functions translate to, where they
    /// translate.
    pub fn translate(statements: Vec<Statement>, functions: Vec<Statement>) -> (program: Program)
        requires
            translation(statements@, functions@) is Ok,
        ensures
            program.wf(),
            translation(statements@, functions@) == Ok::<Translated, Refusal>(
                Translated {
                    instructions: program.instructions@,
                    strings: texts(program.strings@),
                    heap_size: program.heap_size as nat,
                },
            ),
            program.object_descriptor.len() == 0,
    {
        Self::try_translate(statements, functions).unwrap()
    }
}

/// The stores that move the arguments of a call into the slots of the
/// parameters, for the last parameter first.
pub fn store_parameters(variables: &mut Interner, params: &Vec<String>) -> (code: Vec<
    IntermediateCode,
>)
    requires
        old(variables).wf(),
    ensures
        final(variables).wf(),
        (final(variables)@, entries(code@)) == stores(old(variables)@, texts(params@)),
{
    let mut code: Vec<IntermediateCode> = Vec::new();
    let mut j: usize = params.len();
    let ghost names = texts(params@);
    assert(names.take(j as int) =~= names);
    while j > 0
        invariant
            variables.wf(),
            j <= params.len(),
            names == texts(params@),
            stores(old(variables)@, names) == ({
                let (after, rest) = stores(variables@, names.take(j as int));
                (after, entries(code@) + rest)
            }),
        decreases j,
    {
        j -= 1;
        let ghost part = names.take(j as int + 1);
        let ghost before = variables@;
        proof {
            assert(part.last() == params[j as int]@);
            assert(part.drop_last() =~= names.take(j as int));
        }
        let address = variables.reference(params[j].as_str());
        proof {
            let entry = IntermediateCode::Inst(Instruction::Store { address });
            lemma_entries_push(code@, entry);
            let (after, rest) = stores(variables@, names.take(j as int));
            assert(entries(code@).push(entry@) + rest =~= entries(code@) + (seq![entry@] + rest));
        }
        code.push(IC::instruction(Instruction::Store { address }));
    }
    proof {
        assert(entries(code@) + Seq::<Ir>::empty() =~= entries(code@));
    }
    code
}

/// Whether the table holds exactly the labels of the code, each with its
/// address.
pub open spec fn addresses_of(table: Map<Seq<char>, usize>, part: Seq<Ir>) -> bool {
    forall|name: Seq<char>|
        match #[trigger] label_address(part, name) {
            Some(address) => table.contains_key(name) && table[name] == address,
            None => !table.contains_key(name),
        }
}

/// The address of each label of `ir`. Where a label occurs more than once, the
/// last occurrence counts.
pub fn label_addresses(ir: &Vec<IntermediateCode>) -> (r: Option<NameMap<usize>>)
    ensures
        match r {
            Some(labels) => labels.wf() && addresses_of(labels@, entries(ir@))
                && instruction_count(entries(ir@)) < usize::MAX,
            None => instruction_count(entries(ir@)) >= usize::MAX,
        },
{
    let mut labels: NameMap<usize> = NameMap::new();
    let mut counter: usize = 1;
    let mut i: usize = 0;
    let ghost all = entries(ir@);
    while i < ir.len()
        invariant
            i <= ir.len(),
            all == entries(ir@),
            labels.wf(),
            counter == 1 + instruction_count(all.take(i as int)),
            addresses_of(labels@, all.take(i as int)),
        decreases ir.len() - i,
    {
        let ghost before = all.take(i as int);
        let ghost now = all.take(i as int + 1);
        proof {
            assert(now.drop_last() =~= before);
            assert(now.last() == ir[i as int]@);
        }
        match &ir[i] {
            IntermediateCode::Label(name) => {
                labels.insert(name.clone(), counter);
                proof {
                    assert forall|other: Seq<char>|
                        match #[trigger] label_address(now, other) {
                            Some(address) => labels@.contains_key(other) && labels@[other]
                                == address,
                            None => !labels@.contains_key(other),
                        } by {
                        if other != name@ {
                            assert(label_address(now, other) == label_address(before, other));
                        }
                    }
                }
            },
            _ => {
                if counter == usize::MAX {
                    proof {
                        lemma_count_grows(all, i as int + 1);
                    }
                    return None;
                }
                counter += 1;
                proof {
                    assert forall|other: Seq<char>|
                        match #[trigger] label_address(now, other) {
                            Some(address) => labels@.contains_key(other) && labels@[other]
                                == address,
                            None => !labels@.contains_key(other),
                        } by {
                        assert(label_address(now, other) == label_address(before, other));
                    }
                }
            },
        }
        i += 1;
    }
    proof {
        assert(all.take(i as int) =~= all);
    }
    Some(labels)
}

/// The address of a label that a jump or call names.
fn address_of(labels: &NameMap<usize>, name: &String, Ghost(all): Ghost<Seq<Ir>>) -> (r: Result<
    usize,
    TranslationError,
>)
    requires
        labels.wf(),
        addresses_of(labels@, all),
    ensures
        match label_address(all, name@) {
            Some(address) => r == Ok::<usize, TranslationError>(address as usize) && address
                <= usize::MAX,
            None => r is Err && r->Err_0@ == Refusal::UnresolvedLabel(name@),
        },
{
    match labels.get(name.as_str()) {
        Some(address) => Ok(*address),
        None => Err(TranslationError::UnresolvedLabel(name.clone())),
    }
}

/// The instructions that intermediate code resolves to, or why it does not
/// resolve.
pub fn try_resolve(ir: &Vec<IntermediateCode>) -> (r: Result<Vec<Instruction>, TranslationError>)
    ensures
        match resolve(entries(ir@)) {
            Ok(instructions) => r is Ok && r->Ok_0@ == instructions,
            Err(refusal) => r is Err && r->Err_0@ == refusal,
        },
{
    let labels = match label_addresses(ir) {
        Some(labels) => labels,
        None => {
            return Err(TranslationError::TooLarge);
        },
    };
    let ghost all = entries(ir@);
    let mut code: Vec<Instruction> = vec![Instruction::Nop];
    let mut i: usize = 0;
    while i < ir.len()
        invariant
            i <= ir.len(),
            all == entries(ir@),
            labels.wf(),
            addresses_of(labels@, all),
            instruction_count(all) < usize::MAX,
            unresolved(all, all.take(i as int)) is None,
            code@ == seq![Instruction::Nop] + resolved_part(all, all.take(i as int)),
        decreases ir.len() - i,
    {
        let ghost before = all.take(i as int);
        let ghost now = all.take(i as int + 1);
        proof {
            assert(now.drop_last() =~= before);
            assert(now.last() == ir[i as int]@);
        }
        let resolved = match &ir[i] {
            IntermediateCode::Label(_) => None,
            IntermediateCode::Inst(instruction) => Some(Ok(*instruction)),
            IntermediateCode::Jump(name) => Some(
                match address_of(&labels, name, Ghost(all)) {
                    Ok(address) => Ok(Instruction::Jump { address }),
                    Err(error) => Err(error),
                },
            ),
            IntermediateCode::JumpIfFalse(name) => Some(
                match address_of(&labels, name, Ghost(all)) {
                    Ok(address) => Ok(Instruction::JumpIfFalse { address }),
                    Err(error) => Err(error),
                },
            ),
            IntermediateCode::Call(name) => Some(
                match address_of(&labels, name, Ghost(all)) {
                    Ok(address) => Ok(Instruction::Call { address }),
                    Err(error) => Err(error),
                },
            ),
        };
        match resolved {
            None => {},
            Some(Ok(instruction)) => {
                code.push(instruction);
                proof {
                    assert(code@ =~= seq![Instruction::Nop] + resolved_part(all, now));
                }
            },
            Some(Err(error)) => {
                proof {
                    assert(target(now.last()) is Some);
                    assert(unresolved(all, now) == target(now.last()));
                    assert(error@ == Refusal::UnresolvedLabel(target(now.last())->0));
                    lemma_unresolved_stays(all, all, i as int + 1);
                }
                return Err(error);
            },
        }
        i += 1;
    }
    proof {
        assert(all.take(i as int) =~= all);
    }
    Ok(code)
}

} // verus!
