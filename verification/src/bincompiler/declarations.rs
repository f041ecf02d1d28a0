//! A function's label is defined as often as the function is declared: the
//! count of the declarations in a program, and the induction over the
//! translation that shows it.

use vstd::prelude::*;
use crate::bincompiler::ast::{Expression, Statement};
use crate::bincompiler::freshness::{
    label_free, lemma_expression_quiet, lemma_function_call_quiet, lemma_label_free_add,
};
use crate::bincompiler::labels::{lemma_names_differ, Tag};
use crate::bincompiler::laws::lemma_branches_layout;
use crate::bincompiler::lowering::{
    branch_label, branches_size, else_size, end_label, end_while_label, function_label,
    start_label, statement_size, statements_size, while_label, Ir, Unit,
};
use crate::bincore::executable::runnable::Instruction;

verus! {

/// How often the statement declares a function called `name`, the
/// declarations inside its bodies included.
pub open spec fn declared_by(s: Statement, name: Seq<char>) -> nat
    decreases s,
{
    match s {
        Statement::FunctionDeclaration { func_name, args, body } => (if func_name.text() == name {
            1nat
        } else {
            0nat
        }) + declared_in(body@, name),
        Statement::Conditional { body, else_body } => declared_under(body@, name) + (match else_body {
            Some(otherwise) => declared_in(otherwise@, name),
            None => 0nat,
        }),
        Statement::WhileLoop { condition, body } => declared_in(body@, name),
        _ => 0nat,
    }
}

/// How often the statements declare a function called `name`.
pub open spec fn declared_in(ss: Seq<Statement>, name: Seq<char>) -> nat
    decreases ss,
{
    if ss.len() == 0 {
        0nat
    } else {
        declared_by(ss.first(), name) + declared_in(ss.drop_first(), name)
    }
}

/// How often the bodies of the branches of a conditional declare a function
/// called `name`.
pub open spec fn declared_under(bs: Seq<(Expression, Vec<Statement>)>, name: Seq<char>) -> nat
    decreases bs,
{
    if bs.len() == 0 {
        0nat
    } else {
        declared_in(bs.first().1@, name) + declared_under(bs.drop_first(), name)
    }
}

/// How many entries of the code define the label `name`.
pub open spec fn defined(code: Seq<Ir>, name: Seq<char>) -> nat
    decreases code.len(),
{
    if code.len() == 0 {
        0nat
    } else {
        defined(code.drop_last(), name) + (if code.last() == Ir::Label(name) {
            1nat
        } else {
            0nat
        })
    }
}

/// Joined code defines a label as often as its pieces together.
pub proof fn lemma_defined_add(a: Seq<Ir>, b: Seq<Ir>, name: Seq<char>)
    ensures
        defined(a + b, name) == defined(a, name) + defined(b, name),
    decreases b.len(),
{
    if b.len() == 0 {
        assert(a + b =~= a);
    } else {
        assert((a + b).drop_last() =~= a + b.drop_last());
        assert((a + b).last() == b.last());
        lemma_defined_add(a, b.drop_last(), name);
    }
}

/// One entry defines a label once if it is that label, else not at all.
pub proof fn lemma_defined_one(entry: Ir, name: Seq<char>)
    ensures
        defined(seq![entry], name) == if entry == Ir::Label(name) {
            1nat
        } else {
            0nat
        },
{
    let code = seq![entry];
    assert(code.drop_last() =~= Seq::<Ir>::empty());
    assert(defined(code.drop_last(), name) == 0);
}

/// Code without labels defines none.
pub proof fn lemma_defined_label_free(code: Seq<Ir>, name: Seq<char>)
    requires
        label_free(code),
    ensures
        defined(code, name) == 0,
    decreases code.len(),
{
    if code.len() > 0 {
        assert(!(code[code.len() - 1] is Label));
        assert forall|p: int| 0 <= p < code.drop_last().len() implies !((
        #[trigger] code.drop_last()[p]) is Label) by {
            assert(code.drop_last()[p] == code[p]);
        }
        lemma_defined_label_free(code.drop_last(), name);
    }
}

/// A label that is not a function's does not have the name of one.
pub proof fn lemma_not_of_a_function(tag: Tag, name: Seq<char>)
    requires
        !(tag is Function),
    ensures
        tag.name() != function_label(name),
{
    if tag.name() == function_label(name) {
        lemma_names_differ(tag, Tag::Function(name));
    }
}

/// The code of a statement defines the label of a function as often as the
/// statement declares the function.
pub proof fn lemma_statement_declares(unit: Unit, scope: nat, s: Statement, name: Seq<char>)
    ensures
        unit.statement(scope, s) matches Ok((_, code)) ==> defined(code, function_label(name))
            == declared_by(s, name),
    decreases statement_size(s), 0nat,
{
    let label = function_label(name);
    if let Ok((to, all)) = unit.statement(scope, s) {
        match s {
            Statement::Assignment { identifier, expression } => {
                lemma_expression_quiet(unit, expression);
                let code = unit.expression(expression)->Ok_0.1;
                let store = seq![all.last()];
                assert(all =~= code + store);
                lemma_label_free_add(code, store);
                lemma_defined_label_free(all, label);
            },
            Statement::Reassignment { identifier, expression } => {
                lemma_expression_quiet(unit, expression);
                let code = unit.expression(expression)->Ok_0.1;
                let store = seq![all.last()];
                assert(all =~= code + store);
                lemma_label_free_add(code, store);
                lemma_defined_label_free(all, label);
            },
            Statement::FunctionCall { func_name, args } => {
                lemma_function_call_quiet(unit, func_name.text(), args@);
                lemma_defined_label_free(all, label);
            },
            Statement::FunctionDeclaration { func_name, args, body } => {
                let declared = Unit {
                    func_args: unit.func_args.insert(
                        func_name.text(),
                        Seq::new(args@.len(), |i: int| args@[i].text()),
                    ),
                    ..unit
                };
                lemma_block_declares(declared, scope, body@, name);
                let inner = declared.block(scope, body@)->Ok_0.1;
                let head = seq![Ir::Label(function_label(func_name.text()))];
                lemma_defined_one(head[0], label);
                lemma_defined_add(head, inner, label);
                if function_label(func_name.text()) == label {
                    lemma_names_differ(Tag::Function(func_name.text()), Tag::Function(name));
                }
            },
            Statement::Conditional { body, else_body } => {
                lemma_conditional_declares(unit, scope, body@, else_body, name);
            },
            Statement::WhileLoop { condition, body } => {
                let k = unit.whiles;
                let counted = Unit { whiles: k + 1, ..unit };
                lemma_expression_quiet(counted, condition);
                let (tested, test) = counted.expression(condition)->Ok_0;
                lemma_block_declares(tested, k, body@, name);
                let inner = tested.block(k, body@)->Ok_0.1;
                let head = seq![Ir::Label(while_label(k))];
                let jump = seq![Ir::JumpIfFalse(end_while_label(k))];
                let back = seq![Ir::Jump(while_label(k))];
                let end = seq![Ir::Label(end_while_label(k))];
                lemma_not_of_a_function(Tag::While(k), name);
                lemma_not_of_a_function(Tag::EndWhile(k), name);
                lemma_defined_one(head[0], label);
                lemma_defined_one(jump[0], label);
                lemma_defined_one(back[0], label);
                lemma_defined_one(end[0], label);
                lemma_defined_label_free(test, label);
                lemma_defined_add(head, test, label);
                lemma_defined_add(head + test, jump, label);
                lemma_defined_add(head + test + jump, inner, label);
                lemma_defined_add(head + test + jump + inner, back, label);
                lemma_defined_add(head + test + jump + inner + back, end, label);
                assert(all =~= head + test + jump + inner + back + end);
            },
            Statement::Return(e) => {
                lemma_expression_quiet(unit, e);
                let code = unit.expression(e)->Ok_0.1;
                let ret = seq![Ir::Inst(Instruction::Ret)];
                lemma_label_free_add(code, ret);
                lemma_defined_label_free(all, label);
            },
            _ => {
                lemma_defined_label_free(all, label);
            },
        }
    }
}

/// The code of a sequence of statements defines the label of a function as
/// often as the statements declare the function.
pub proof fn lemma_block_declares(unit: Unit, scope: nat, body: Seq<Statement>, name: Seq<char>)
    ensures
        unit.block(scope, body) matches Ok((_, code)) ==> defined(code, function_label(name))
            == declared_in(body, name),
    decreases statements_size(body), 1nat,
{
    if body.len() > 0 {
        lemma_statement_declares(unit, scope, body.first(), name);
        if let Ok((after, code)) = unit.statement(scope, body.first()) {
            lemma_block_declares(after, scope, body.drop_first(), name);
            if let Ok((to, more)) = after.block(scope, body.drop_first()) {
                lemma_defined_add(code, more, function_label(name));
            }
        }
    }
}

/// The code of the branches of a conditional defines the label of a function
/// as often as their bodies declare the function.
pub proof fn lemma_branches_declare(
    unit: Unit,
    scope: nat,
    k: nat,
    i: nat,
    rest: Seq<(Expression, Vec<Statement>)>,
    name: Seq<char>,
)
    ensures
        unit.branches(scope, k, i, rest) matches Ok((_, code)) ==> defined(
            code,
            function_label(name),
        ) == declared_under(rest, name),
    decreases branches_size(rest), 1nat,
{
    let label = function_label(name);
    if rest.len() > 0 {
        lemma_expression_quiet(unit, rest.first().0);
        if let Ok((tested, test)) = unit.expression(rest.first().0) {
            lemma_block_declares(tested, scope, rest.first().1@, name);
            if let Ok((after, body)) = tested.block(scope, rest.first().1@) {
                lemma_branches_declare(after, scope, k, i + 1, rest.drop_first(), name);
                if let Ok((to, tail)) = after.branches(scope, k, i + 1, rest.drop_first()) {
                    let jump = seq![Ir::JumpIfFalse(branch_label(k, i))];
                    let out = seq![Ir::Jump(end_label(k))];
                    let mark = seq![Ir::Label(branch_label(k, i))];
                    lemma_not_of_a_function(Tag::Branch(k, i), name);
                    lemma_defined_one(jump[0], label);
                    lemma_defined_one(out[0], label);
                    lemma_defined_one(mark[0], label);
                    lemma_defined_label_free(test, label);
                    lemma_defined_add(test, jump, label);
                    lemma_defined_add(test + jump, body, label);
                    lemma_defined_add(test + jump + body, out, label);
                    lemma_defined_add(test + jump + body + out, mark, label);
                    lemma_defined_add(test + jump + body + out + mark, tail, label);
                    assert(test + jump + body + seq![
                        Ir::Jump(end_label(k)),
                        Ir::Label(branch_label(k, i)),
                    ] =~= test + jump + body + out + mark);
                }
            }
        }
    }
}

/// The code of a conditional defines the label of a function as often as its
/// bodies declare the function.
pub proof fn lemma_conditional_declares(
    unit: Unit,
    scope: nat,
    bodies: Seq<(Expression, Vec<Statement>)>,
    else_body: Option<Vec<Statement>>,
    name: Seq<char>,
)
    ensures
        unit.conditional(scope, bodies, else_body) matches Ok((_, code)) ==> defined(
            code,
            function_label(name),
        ) == declared_under(bodies, name) + (match else_body {
            Some(otherwise) => declared_in(otherwise@, name),
            None => 0nat,
        }),
    decreases branches_size(bodies) + else_size(else_body), 2nat,
{
    let label = function_label(name);
    if unit.conditionals < usize::MAX {
        let k = unit.conditionals;
        let counted = Unit { conditionals: k + 1, ..unit };
        lemma_branches_declare(counted, scope, k, 0, bodies, name);
        if let Ok((after, code)) = counted.branches(scope, k, 0, bodies) {
            let end = seq![Ir::Label(end_label(k))];
            lemma_not_of_a_function(Tag::End(k), name);
            lemma_defined_one(end[0], label);
            match else_body {
                Some(otherwise) => {
                    lemma_block_declares(after, scope, otherwise@, name);
                    if let Ok((to, rest)) = after.block(scope, otherwise@) {
                        lemma_defined_add(rest, end, label);
                        lemma_defined_add(code, rest + end, label);
                    }
                },
                None => {
                    if bodies.len() > 0 {
                        lemma_branches_layout(counted, scope, k, 0, bodies, bodies.len() - 1);
                        let before = code.take(code.len() - 2);
                        let out = seq![code[code.len() - 2]];
                        let mark = seq![code.last()];
                        let kept = before.push(code.last());
                        assert(code =~= before + out + mark);
                        assert(kept =~= before + mark);
                        assert(kept.push(end[0]) =~= kept + end);
                        lemma_defined_one(out[0], label);
                        lemma_defined_add(before, out, label);
                        lemma_defined_add(before + out, mark, label);
                        lemma_defined_add(before, mark, label);
                        lemma_defined_add(kept, end, label);
                    }
                },
            }
        }
    }
}

/// The code of a program defines the label of a function as often as the
/// program declares the function.
pub proof fn lemma_program_declares(
    unit: Unit,
    statements: Seq<Statement>,
    functions: Seq<Statement>,
    name: Seq<char>,
)
    ensures
        unit.program(statements, functions) matches Ok((_, code)) ==> defined(
            code,
            function_label(name),
        ) == declared_in(functions, name) + declared_in(statements, name),
{
    let label = function_label(name);
    lemma_block_declares(unit, 0, functions, name);
    if let Ok((declared, code)) = unit.block(0, functions) {
        lemma_block_declares(declared, 0, statements, name);
        if let Ok((to, main)) = declared.block(0, statements) {
            let head = seq![Ir::Jump(start_label())];
            let start = seq![Ir::Label(start_label())];
            let last = seq![Ir::Inst(Instruction::Nop)];
            lemma_not_of_a_function(Tag::Start, name);
            lemma_defined_one(head[0], label);
            lemma_defined_one(start[0], label);
            lemma_defined_one(last[0], label);
            lemma_defined_add(head, code, label);
            lemma_defined_add(head + code, start, label);
            lemma_defined_add(main, last, label);
            lemma_defined_add(head + code + start, main + last, label);
        }
    }
}

/// Code that defines a label once at most has no two entries that define it.
pub proof fn lemma_defined_once(code: Seq<Ir>, name: Seq<char>, p: int, q: int)
    requires
        defined(code, name) <= 1,
        0 <= p < code.len(),
        0 <= q < code.len(),
        code[p] == Ir::Label(name),
        code[q] == Ir::Label(name),
    ensures
        p == q,
    decreases code.len(),
{
    let front = code.drop_last();
    if p < code.len() - 1 && q < code.len() - 1 {
        lemma_defined_once(front, name, p, q);
    } else if p != q {
        let other = if p < q {
            p
        } else {
            q
        };
        lemma_defined_some(front, name, other);
    }
}

/// Code with an entry that defines a label defines it at least once.
pub proof fn lemma_defined_some(code: Seq<Ir>, name: Seq<char>, p: int)
    requires
        0 <= p < code.len(),
        code[p] == Ir::Label(name),
    ensures
        defined(code, name) >= 1,
    decreases code.len(),
{
    if p < code.len() - 1 {
        lemma_defined_some(code.drop_last(), name, p);
    }
}

} // verus!
