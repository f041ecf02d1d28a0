//! What holds of every translation.

use vstd::prelude::*;
use crate::bincompiler::ast::{opcode, Expression, Statement};
use crate::bincompiler::declarations::{
    declared_in, defined, lemma_defined_once, lemma_program_declares,
};
use crate::bincompiler::freshness::{lemma_program_tidy, once};
use crate::bincompiler::labels::Tag;
use crate::bincompiler::lowering::{
    branch_label, branches_size, else_size, end_label, end_while_label, followed, function_label,
    instruction_count, is_external, label_address, lemma_count_grows, preceded, resolve,
    resolved_entry, resolved_part, start_label, statement_size, statements_size, stores, target,
    translation, unresolved, while_label, Ir, Lowered, Unit,
};
use crate::bincore::data::value::Value;
use crate::bincore::executable::machine::Machine;
use crate::bincore::executable::runnable::Instruction;
use crate::names::{interned, interned_id, lemma_position};

verus! {

/// Whether the instruction moves the instruction pointer to an address that
/// it holds.
pub open spec fn is_transfer(instruction: Instruction) -> bool {
    instruction is Jump || instruction is JumpIfTrue || instruction is JumpIfFalse
        || instruction is Call
}

/// The address that a transfer instruction holds.
pub open spec fn transfer_address(instruction: Instruction) -> usize {
    match instruction {
        Instruction::Jump { address } => address,
        Instruction::JumpIfTrue { address } => address,
        Instruction::JumpIfFalse { address } => address,
        Instruction::Call { address } => address,
        _ => 0,
    }
}

/// No instruction of the code holds an address: every jump and call names a
/// label.
pub open spec fn symbolic(code: Seq<Ir>) -> bool {
    forall|i: int| 0 <= i < code.len() ==> !(#[trigger] code[i] matches Ir::Inst(x) && is_transfer(x))
}

/// What was lowered, if anything was, names its jump targets by label.
pub open spec fn lowered_symbolic(lowered: Lowered) -> bool {
    lowered matches Ok((_, code)) ==> symbolic(code)
}

/// The instructions of a piece of code are those of its parts.
pub proof fn lemma_count_add(a: Seq<Ir>, b: Seq<Ir>)
    ensures
        instruction_count(a + b) == instruction_count(a) + instruction_count(b),
    decreases b.len(),
{
    if b.len() == 0 {
        assert(a + b =~= a);
    } else {
        assert((a + b).drop_last() =~= a + b.drop_last());
        lemma_count_add(a, b.drop_last());
    }
}

/// A piece of code resolves to as many instructions as it holds.
pub proof fn lemma_resolved_len(all: Seq<Ir>, part: Seq<Ir>)
    ensures
        resolved_part(all, part).len() == instruction_count(part),
    decreases part.len(),
{
    if part.len() > 0 {
        lemma_resolved_len(all, part.drop_last());
    }
}

/// Every instruction that a piece of code resolves to comes from one of its
/// entries that is no label.
pub proof fn lemma_resolved_origin(all: Seq<Ir>, part: Seq<Ir>, j: int)
    requires
        0 <= j < resolved_part(all, part).len(),
    ensures
        exists|i: int|
            0 <= i < part.len() && !(#[trigger] part[i] is Label) && resolved_part(all, part)[j]
                == resolved_entry(all, part[i]),
    decreases part.len(),
{
    lemma_resolved_len(all, part);
    lemma_resolved_len(all, part.drop_last());
    if part.last() is Label {
        lemma_resolved_origin(all, part.drop_last(), j);
        let i = choose|i: int|
            0 <= i < part.drop_last().len() && !(#[trigger] part.drop_last()[i] is Label)
                && resolved_part(all, part.drop_last())[j] == resolved_entry(
                all,
                part.drop_last()[i],
            );
        assert(part[i] == part.drop_last()[i]);
    } else if j == resolved_part(all, part).len() - 1 {
        assert(!(part[part.len() - 1] is Label));
    } else {
        lemma_resolved_origin(all, part.drop_last(), j);
        let i = choose|i: int|
            0 <= i < part.drop_last().len() && !(#[trigger] part.drop_last()[i] is Label)
                && resolved_part(all, part.drop_last())[j] == resolved_entry(
                all,
                part.drop_last()[i],
            );
        assert(part[i] == part.drop_last()[i]);
    }
}

/// The address of a label is at least 1 and at most one more than the number
/// of instructions.
pub proof fn lemma_address_bounds(ir: Seq<Ir>, name: Seq<char>)
    requires
        label_address(ir, name) is Some,
    ensures
        1 <= label_address(ir, name)->0 <= 1 + instruction_count(ir),
        ir.len() > 0 && !(ir.last() is Label) ==> label_address(ir, name)->0 <= instruction_count(
            ir,
        ),
    decreases ir.len(),
{
    if ir.last() == Ir::Label(name) {
    } else {
        lemma_address_bounds(ir.drop_last(), name);
    }
}

/// A jump or call of a piece of code that resolves names a label of the code.
pub proof fn lemma_resolved_targets(all: Seq<Ir>, part: Seq<Ir>, i: int)
    requires
        unresolved(all, part) is None,
        0 <= i < part.len(),
        target(part[i]) is Some,
    ensures
        label_address(all, target(part[i])->0) is Some,
    decreases part.len(),
{
    if i < part.len() - 1 {
        lemma_resolved_targets(all, part.drop_last(), i);
    }
}

/// In the instructions that a piece of code resolves to, every jump and call
/// that names a label is aimed at an instruction: its address is at least 1
/// and below the number of instructions. This holds of code that ends with an
/// instruction, as the code of every program does.
pub proof fn law_targets_in_range(ir: Seq<Ir>, j: int)
    requires
        symbolic(ir),
        ir.len() > 0,
        !(ir.last() is Label),
        resolve(ir) is Ok,
        0 <= j < resolve(ir)->Ok_0.len(),
        is_transfer(resolve(ir)->Ok_0[j]),
    ensures
        1 <= transfer_address(resolve(ir)->Ok_0[j]) < resolve(ir)->Ok_0.len(),
{
    lemma_resolved_len(ir, ir);
    let instructions = resolve(ir)->Ok_0;
    assert(instructions[0] == Instruction::Nop);
    assert(instructions[j] == resolved_part(ir, ir)[j - 1]);
    lemma_resolved_origin(ir, ir, j - 1);
    let i = choose|i: int|
        0 <= i < ir.len() && !(#[trigger] ir[i] is Label) && resolved_part(ir, ir)[j - 1]
            == resolved_entry(ir, ir[i]);
    assert(target(ir[i]) is Some);
    lemma_resolved_targets(ir, ir, i);
    lemma_address_bounds(ir, target(ir[i])->0);
}

/// Code that names its targets by label stays so when pieces are joined.
pub proof fn lemma_symbolic_add(a: Seq<Ir>, b: Seq<Ir>)
    requires
        symbolic(a),
        symbolic(b),
    ensures
        symbolic(a + b),
{
    assert forall|i: int| 0 <= i < (a + b).len() implies !(#[trigger] (a + b)[i] matches Ir::Inst(
        x,
    ) && is_transfer(x)) by {
        if i < a.len() {
            assert((a + b)[i] == a[i]);
        } else {
            assert((a + b)[i] == b[i - a.len()]);
        }
    }
}

/// Code in front of what was lowered keeps it symbolic.
pub proof fn lemma_preceded_symbolic(code: Seq<Ir>, rest: Lowered)
    requires
        symbolic(code),
        lowered_symbolic(rest),
    ensures
        lowered_symbolic(preceded(code, rest)),
{
    if let Ok((_, more)) = rest {
        lemma_symbolic_add(code, more);
    }
}

/// Code behind what was lowered keeps it symbolic.
pub proof fn lemma_followed_symbolic(rest: Lowered, code: Seq<Ir>)
    requires
        symbolic(code),
        lowered_symbolic(rest),
    ensures
        lowered_symbolic(followed(rest, code)),
{
    if let Ok((_, before)) = rest {
        lemma_symbolic_add(before, code);
    }
}

/// The stores of a call hold no address of an instruction.
pub proof fn lemma_stores_symbolic(variables: Seq<Seq<char>>, params: Seq<Seq<char>>)
    ensures
        symbolic(stores(variables, params).1),
    decreases params.len(),
{
    if params.len() > 0 {
        let after = interned(variables, params.last());
        lemma_stores_symbolic(after, params.drop_last());
        let store = Ir::Inst(
            Instruction::Store {
                address: interned_id(variables, params.last()) as usize,
            },
        );
        lemma_symbolic_add(seq![store], stores(after, params.drop_last()).1);
    }
}

/// The code of an expression names its targets by label.
pub proof fn lemma_expression_symbolic(unit: Unit, e: Expression)
    ensures
        lowered_symbolic(unit.expression(e)),
    decreases e, 1nat,
{
    match e {
        Expression::FunctionCall { func_name, args } => {
            lemma_function_call_symbolic(unit, func_name.text(), args@);
        },
        Expression::Addition { left, right }
        | Expression::Subtraction { left, right }
        | Expression::Multiplication { left, right }
        | Expression::Division { left, right }
        | Expression::Modulus { left, right }
        | Expression::Equal { left, right }
        | Expression::NotEqual { left, right }
        | Expression::GreaterThan { left, right }
        | Expression::LessThan { left, right }
        | Expression::GreaterThanOrEqual { left, right }
        | Expression::LessThanOrEqual { left, right } => {
            lemma_expression_symbolic(unit, *left);
            if let Ok((after, code)) = unit.expression(*left) {
                lemma_expression_symbolic(after, *right);
                let op = seq![Ir::Inst(opcode(e))];
                lemma_followed_symbolic(after.expression(*right), op);
                lemma_preceded_symbolic(code, followed(after.expression(*right), op));
            }
        },
        _ => {},
    }
}

/// The code of the arguments of a call names its targets by label.
pub proof fn lemma_arguments_symbolic(unit: Unit, args: Seq<Expression>)
    ensures
        lowered_symbolic(unit.arguments(args)),
    decreases args, 0nat,
{
    if args.len() > 0 {
        lemma_expression_symbolic(unit, args.last());
        if let Ok((after, code)) = unit.expression(args.last()) {
            lemma_arguments_symbolic(after, args.drop_last());
            lemma_preceded_symbolic(code, after.arguments(args.drop_last()));
        }
    }
}

/// What follows the arguments of a call names its targets by label.
pub proof fn lemma_call_symbolic(unit: Unit, name: Seq<char>, count: nat)
    ensures
        lowered_symbolic(unit.call(name, count)),
{
    if !is_external(name) && unit.func_args.contains_key(name) {
        lemma_stores_symbolic(unit.variables, unit.func_args[name]);
    }
}

/// The code of a call names its targets by label.
pub proof fn lemma_function_call_symbolic(unit: Unit, name: Seq<char>, args: Seq<Expression>)
    ensures
        lowered_symbolic(unit.function_call(name, args)),
    decreases args, 1nat,
{
    lemma_arguments_symbolic(unit, args);
    if let Ok((after, code)) = unit.arguments(args) {
        lemma_call_symbolic(after, name, args.len());
        lemma_preceded_symbolic(code, after.call(name, args.len()));
    }
}

/// The code of a statement names its targets by label.
pub proof fn lemma_statement_symbolic(unit: Unit, scope: nat, s: Statement)
    ensures
        lowered_symbolic(unit.statement(scope, s)),
    decreases statement_size(s), 0nat,
{
    match s {
        Statement::Assignment { identifier, expression } => {
            lemma_expression_symbolic(unit, expression);
        },
        Statement::Reassignment { identifier, expression } => {
            lemma_expression_symbolic(unit, expression);
        },
        Statement::FunctionCall { func_name, args } => {
            lemma_function_call_symbolic(unit, func_name.text(), args@);
        },
        Statement::FunctionDeclaration { func_name, args, body } => {
            lemma_function_declaration_symbolic(
                unit,
                scope,
                func_name.text(),
                Seq::new(args@.len(), |i: int| args@[i].text()),
                body@,
            );
        },
        Statement::Conditional { body, else_body } => {
            lemma_conditional_symbolic(unit, scope, body@, else_body);
        },
        Statement::WhileLoop { condition, body } => {
            lemma_while_loop_symbolic(unit, condition, body@);
        },
        Statement::Return(e) => {
            lemma_expression_symbolic(unit, e);
            lemma_followed_symbolic(unit.expression(e), seq![Ir::Inst(Instruction::Ret)]);
        },
        _ => {},
    }
}

/// The code of a sequence of statements names its targets by label.
pub proof fn lemma_block_symbolic(unit: Unit, scope: nat, body: Seq<Statement>)
    ensures
        lowered_symbolic(unit.block(scope, body)),
    decreases statements_size(body), 1nat,
{
    if body.len() > 0 {
        lemma_statement_symbolic(unit, scope, body.first());
        if let Ok((after, code)) = unit.statement(scope, body.first()) {
            lemma_block_symbolic(after, scope, body.drop_first());
            lemma_preceded_symbolic(code, after.block(scope, body.drop_first()));
        }
    }
}

/// The code of the branches of a conditional names its targets by label.
pub proof fn lemma_branches_symbolic(
    unit: Unit,
    scope: nat,
    k: nat,
    i: nat,
    rest: Seq<(Expression, Vec<Statement>)>,
)
    ensures
        lowered_symbolic(unit.branches(scope, k, i, rest)),
    decreases branches_size(rest), 1nat,
{
    if rest.len() > 0 {
        lemma_expression_symbolic(unit, rest.first().0);
        if let Ok((tested, test)) = unit.expression(rest.first().0) {
            lemma_block_symbolic(tested, scope, rest.first().1@);
            if let Ok((after, body)) = tested.block(scope, rest.first().1@) {
                lemma_branches_symbolic(after, scope, k, i + 1, rest.drop_first());
                let jump = seq![Ir::JumpIfFalse(branch_label(k, i))];
                let tail = seq![
                    Ir::Jump(end_label(k)),
                    Ir::Label(branch_label(k, i)),
                ];
                lemma_symbolic_add(test, jump);
                lemma_symbolic_add(test + jump, body);
                lemma_symbolic_add(test + jump + body, tail);
                lemma_preceded_symbolic(
                    test + jump + body + tail,
                    after.branches(scope, k, i + 1, rest.drop_first()),
                );
            }
        }
    }
}

/// The code of a conditional names its targets by label.
pub proof fn lemma_conditional_symbolic(
    unit: Unit,
    scope: nat,
    bodies: Seq<(Expression, Vec<Statement>)>,
    else_body: Option<Vec<Statement>>,
)
    ensures
        lowered_symbolic(unit.conditional(scope, bodies, else_body)),
    decreases branches_size(bodies) + else_size(else_body), 2nat,
{
    if unit.conditionals < usize::MAX {
        let k = unit.conditionals;
        let counted = Unit { conditionals: k + 1, ..unit };
        lemma_branches_symbolic(counted, scope, k, 0, bodies);
        if let Ok((after, code)) = counted.branches(scope, k, 0, bodies) {
            let end = seq![Ir::Label(end_label(k))];
            match else_body {
                Some(otherwise) => {
                    lemma_block_symbolic(after, scope, otherwise@);
                    lemma_followed_symbolic(after.block(scope, otherwise@), end);
                    lemma_preceded_symbolic(code, followed(after.block(scope, otherwise@), end));
                },
                None => {
                    if bodies.len() > 0 {
                        let kept = code.take(code.len() - 2).push(code.last());
                        if code.len() >= 2 {
                            assert forall|i: int| 0 <= i < kept.len() implies !(
                            #[trigger] kept[i] matches Ir::Inst(x) && is_transfer(x)) by {
                                if i < kept.len() - 1 {
                                    assert(kept[i] == code[i]);
                                } else {
                                    assert(kept[i] == code[code.len() - 1]);
                                }
                            }
                        } else {
                            assert forall|i: int| 0 <= i < kept.len() implies !(
                            #[trigger] kept[i] matches Ir::Inst(x) && is_transfer(x)) by {
                                assert(code.take(code.len() - 2).len() <= code.len());
                                if i < kept.len() - 1 {
                                    assert(kept[i] == code.take(code.len() - 2)[i]);
                                }
                            }
                        }
                        lemma_symbolic_add(kept, end);
                        assert(kept.push(end[0]) =~= kept + end);
                    }
                },
            }
        }
    }
}

/// The code of a while loop names its targets by label.
pub proof fn lemma_while_loop_symbolic(unit: Unit, condition: Expression, body: Seq<Statement>)
    ensures
        lowered_symbolic(unit.while_loop(condition, body)),
    decreases statements_size(body), 2nat,
{
    if unit.whiles < usize::MAX {
        let k = unit.whiles;
        let counted = Unit { whiles: k + 1, ..unit };
        lemma_expression_symbolic(counted, condition);
        if let Ok((after, test)) = counted.expression(condition) {
            lemma_block_symbolic(after, k, body);
            let head = seq![Ir::Label(while_label(k))];
            let jump = seq![Ir::JumpIfFalse(end_while_label(k))];
            let tail = seq![
                Ir::Jump(while_label(k)),
                Ir::Label(end_while_label(k)),
            ];
            lemma_symbolic_add(head, test);
            lemma_symbolic_add(head + test, jump);
            lemma_followed_symbolic(after.block(k, body), tail);
            lemma_preceded_symbolic(head + test + jump, followed(after.block(k, body), tail));
        }
    }
}

/// The code of a function declaration names its targets by label.
pub proof fn lemma_function_declaration_symbolic(
    unit: Unit,
    scope: nat,
    name: Seq<char>,
    params: Seq<Seq<char>>,
    body: Seq<Statement>,
)
    ensures
        lowered_symbolic(unit.function_declaration(scope, name, params, body)),
    decreases statements_size(body), 2nat,
{
    let declared = Unit { func_args: unit.func_args.insert(name, params), ..unit };
    lemma_block_symbolic(declared, scope, body);
    lemma_preceded_symbolic(
        seq![Ir::Label(function_label(name))],
        declared.block(scope, body),
    );
}

/// The code of a program names its targets by label and ends with an
/// instruction.
pub proof fn lemma_program_symbolic(
    unit: Unit,
    statements: Seq<Statement>,
    functions: Seq<Statement>,
)
    ensures
        lowered_symbolic(unit.program(statements, functions)),
        unit.program(statements, functions) matches Ok((_, code)) ==> code.len() > 0 && !(
        code.last() is Label),
{
    lemma_block_symbolic(unit, 0, functions);
    if let Ok((declared, code)) = unit.block(0, functions) {
        lemma_block_symbolic(declared, 0, statements);
        let start = start_label();
        let head = seq![Ir::Jump(start)];
        let label = seq![Ir::Label(start)];
        let last = seq![Ir::Inst(Instruction::Nop)];
        lemma_symbolic_add(head, code);
        lemma_symbolic_add(head + code, label);
        lemma_followed_symbolic(declared.block(0, statements), last);
        lemma_preceded_symbolic(
            head + code + label,
            followed(declared.block(0, statements), last),
        );
    }
}

/// In a translated program every `Jump`, `JumpIfFalse` and `Call` is aimed at
/// an instruction: its address is at least 1 and below the number of
/// instructions.
pub proof fn law_translated_targets_in_range(
    statements: Seq<Statement>,
    functions: Seq<Statement>,
    j: int,
)
    requires
        translation(statements, functions) is Ok,
        0 <= j < translation(statements, functions)->Ok_0.instructions.len(),
        is_transfer(translation(statements, functions)->Ok_0.instructions[j]),
    ensures
        1 <= transfer_address(translation(statements, functions)->Ok_0.instructions[j])
            < translation(statements, functions)->Ok_0.instructions.len(),
{
    let unit = Unit::empty().with_host_names();
    lemma_program_symbolic(unit, statements, functions);
    let ir = unit.program(statements, functions)->Ok_0.1;
    law_targets_in_range(ir, j);
}

/// The address of the entry at position `p`: one more than the number of
/// instructions before it.
pub open spec fn address_at(ir: Seq<Ir>, p: int) -> nat {
    1 + instruction_count(ir.take(p))
}

/// The label at position `p` is the only one of its name.
pub open spec fn only_label(ir: Seq<Ir>, p: int) -> bool {
    &&& 0 <= p < ir.len()
    &&& ir[p] is Label
    &&& forall|q: int| 0 <= q < ir.len() && q != p ==> ir[q] != ir[p]
}

/// Whether an instruction stands between the positions `p` and `q`.
pub open spec fn instruction_between(ir: Seq<Ir>, p: int, q: int) -> bool {
    exists|k: int| p < k < q && 0 <= k < ir.len() && !(#[trigger] ir[k] is Label)
}

/// A label that does not occur again resolves to the address of its position.
pub proof fn lemma_label_at(ir: Seq<Ir>, p: int)
    requires
        0 <= p < ir.len(),
        ir[p] is Label,
        forall|q: int| p < q < ir.len() ==> ir[q] != ir[p],
    ensures
        label_address(ir, ir[p]->Label_0) == Some(address_at(ir, p)),
    decreases ir.len(),
{
    if p == ir.len() - 1 {
        assert(ir.take(p) =~= ir.drop_last());
    } else {
        assert(ir.last() == ir[ir.len() - 1]);
        assert(ir.drop_last()[p] == ir[p]);
        assert forall|q: int| p < q < ir.drop_last().len() implies ir.drop_last()[q]
            != ir.drop_last()[p] by {
            assert(ir.drop_last()[q] == ir[q]);
        }
        lemma_label_at(ir.drop_last(), p);
        assert(ir.drop_last().take(p) =~= ir.take(p));
    }
}

/// The address of a position does not go down along the code, and it goes up
/// where an instruction is passed.
pub proof fn lemma_address_grows(ir: Seq<Ir>, p: int, q: int)
    requires
        0 <= p <= q <= ir.len(),
    ensures
        address_at(ir, p) <= address_at(ir, q),
        instruction_between(ir, p - 1, q) ==> address_at(ir, p) < address_at(ir, q),
        !instruction_between(ir, p - 1, q) ==> address_at(ir, p) == address_at(ir, q),
    decreases q - p,
{
    if p < q {
        lemma_address_grows(ir, p, q - 1);
        assert(ir.take(q).drop_last() =~= ir.take(q - 1));
        assert(ir.take(q).last() == ir[q - 1]);
        if ir[q - 1] is Label {
            if instruction_between(ir, p - 1, q) {
                let k = choose|k: int| p - 1 < k < q && 0 <= k < ir.len() && !(
                #[trigger] ir[k] is Label);
                assert(p - 1 < k < q - 1);
                assert(instruction_between(ir, p - 1, q - 1));
            }
        } else {
            assert(instruction_between(ir, p - 1, q));
        }
        if instruction_between(ir, p - 1, q - 1) {
            let k = choose|k: int| p - 1 < k < q - 1 && 0 <= k < ir.len() && !(
            #[trigger] ir[k] is Label);
            assert(p - 1 < k < q);
        }
    }
}

/// Label resolution is a function from the labels to addresses, and it is one
/// to one as far as the code allows: of two labels that occur once, the later
/// one resolves to the greater address exactly if an instruction stands
/// between them, and to the same address if none does.
pub proof fn law_labels_resolve_apart(ir: Seq<Ir>, p: int, q: int)
    requires
        only_label(ir, p),
        only_label(ir, q),
        p < q,
    ensures
        label_address(ir, ir[p]->Label_0) == Some(address_at(ir, p)),
        label_address(ir, ir[q]->Label_0) == Some(address_at(ir, q)),
        instruction_between(ir, p, q) ==> address_at(ir, p) < address_at(ir, q),
        !instruction_between(ir, p, q) ==> address_at(ir, p) == address_at(ir, q),
{
    lemma_label_at(ir, p);
    lemma_label_at(ir, q);
    lemma_address_grows(ir, p + 1, q);
    assert(ir.take(p + 1).drop_last() =~= ir.take(p));
    assert(ir.take(p + 1).last() == ir[p]);
    assert(address_at(ir, p + 1) == address_at(ir, p));
}

/// The entry at position `p`, if it is no label, resolves to the instruction
/// at the address of `p`.
pub proof fn lemma_resolved_at(ir: Seq<Ir>, p: int)
    requires
        0 <= p < ir.len(),
        !(ir[p] is Label),
        resolve(ir) is Ok,
    ensures
        address_at(ir, p) < resolve(ir)->Ok_0.len(),
        resolve(ir)->Ok_0[address_at(ir, p) as int] == resolved_entry(ir, ir[p]),
{
    lemma_part_resolved_at(ir, ir, p);
    lemma_resolved_len(ir, ir);
}

/// The same for a part of the code, resolved against the whole.
pub proof fn lemma_part_resolved_at(all: Seq<Ir>, part: Seq<Ir>, p: int)
    requires
        0 <= p < part.len(),
        !(part[p] is Label),
    ensures
        instruction_count(part.take(p)) < resolved_part(all, part).len(),
        resolved_part(all, part)[instruction_count(part.take(p)) as int] == resolved_entry(
            all,
            part[p],
        ),
    decreases part.len(),
{
    lemma_resolved_len(all, part);
    lemma_resolved_len(all, part.drop_last());
    if p == part.len() - 1 {
        assert(part.take(p) =~= part.drop_last());
    } else {
        assert(part.drop_last().take(p) =~= part.take(p));
        lemma_part_resolved_at(all, part.drop_last(), p);
    }
}

/// A jump lands behind its label. Where the entry at position `p` is a jump
/// or a call to the label at position `l`, and the machine is about to
/// execute the instruction of `p`, it goes on at the address of `l`, which is
/// that of the first instruction behind the label. A `JumpIfFalse` does so if
/// it finds `false` on the stack, and goes on with the next instruction if it
/// finds `true`.
pub proof fn law_jump_lands_behind_label(ir: Seq<Ir>, p: int, l: int, m: Machine)
    requires
        resolve(ir) is Ok,
        0 <= p < ir.len(),
        target(ir[p]) is Some,
        only_label(ir, l),
        ir[l] == Ir::Label(target(ir[p])->0),
        m.instructions == resolve(ir)->Ok_0,
        m.ip == address_at(ir, p),
        ir[p] is JumpIfFalse ==> m.stack.len() > 0 && m.peek(0) is Bool,
    ensures
        !m.halted(),
        address_at(ir, l) <= usize::MAX,
        m.instructions[m.ip] == resolved_entry(ir, ir[p]),
        transfer_address(m.instructions[m.ip]) == address_at(ir, l),
        m.fetched().after(m.instructions[m.ip]).ip == (if ir[p] is JumpIfFalse && m.peek(0)
            == Value::Bool(true) {
            m.ip + 1
        } else {
            address_at(ir, l) as int
        }),
{
    lemma_resolved_at(ir, p);
    lemma_label_at(ir, l);
    lemma_address_bounds(ir, target(ir[p])->0);
    lemma_count_grows(ir, ir.len() as int);
}

/// Where a branch of a conditional stands in the code of the branches: the
/// positions of its first entry, of the jump behind its condition, and of
/// the jump behind its body. The label of the branch follows that jump.
pub struct Block {
    pub start: int,
    pub test_end: int,
    pub body_end: int,
}

/// The blocks, each moved `by` positions on.
pub open spec fn shifted(blocks: Seq<Block>, by: int) -> Seq<Block> {
    Seq::new(
        blocks.len(),
        |j: int|
            Block {
                start: blocks[j].start + by,
                test_end: blocks[j].test_end + by,
                body_end: blocks[j].body_end + by,
            },
    )
}

/// Where the branches `rest` stand in their code.
pub open spec fn blocks(
    unit: Unit,
    scope: nat,
    k: nat,
    i: nat,
    rest: Seq<(Expression, Vec<Statement>)>,
) -> Seq<Block>
    decreases rest.len(),
{
    if rest.len() == 0 {
        Seq::empty()
    } else {
        match unit.expression(rest.first().0) {
            Err(_) => Seq::empty(),
            Ok((tested, test)) => match tested.block(scope, rest.first().1@) {
                Err(_) => Seq::empty(),
                Ok((after, body)) => {
                    let first = Block {
                        start: 0,
                        test_end: test.len() as int,
                        body_end: test.len() as int + 1 + body.len(),
                    };
                    seq![first] + shifted(
                        blocks(after, scope, k, i + 1, rest.drop_first()),
                        first.body_end + 2,
                    )
                },
            },
        }
    }
}

/// The code of the branches of a conditional is laid out block by block:
/// behind the condition of branch `j` stands the jump to the label of the
/// branch, behind its body the jump to the end label, and behind that the
/// label of the branch, with which the block ends.
pub proof fn lemma_branches_layout(
    unit: Unit,
    scope: nat,
    k: nat,
    i: nat,
    rest: Seq<(Expression, Vec<Statement>)>,
    j: int,
)
    requires
        unit.branches(scope, k, i, rest) is Ok,
        0 <= j < rest.len(),
    ensures
        blocks(unit, scope, k, i, rest).len() == rest.len(),
        ({
            let code = unit.branches(scope, k, i, rest)->Ok_0.1;
            let all = blocks(unit, scope, k, i, rest);
            let b = all[j];
            &&& 0 <= b.start <= b.test_end < b.body_end
            &&& b.body_end + 1 < code.len()
            &&& code[b.test_end] == Ir::JumpIfFalse(branch_label(k, (i + j) as nat))
            &&& code[b.body_end] == Ir::Jump(end_label(k))
            &&& code[b.body_end + 1] == Ir::Label(branch_label(k, (i + j) as nat))
            &&& j == rest.len() - 1 ==> b.body_end + 2 == code.len()
            &&& j < rest.len() - 1 ==> all[j + 1].start == b.body_end + 2
        }),
    decreases rest.len(),
{
    let (tested, test) = unit.expression(rest.first().0)->Ok_0;
    let (after, body) = tested.block(scope, rest.first().1@)->Ok_0;
    let more = rest.drop_first();
    let tail = after.branches(scope, k, i + 1, more)->Ok_0.1;
    let head = test + seq![Ir::JumpIfFalse(branch_label(k, i))] + body + seq![
        Ir::Jump(end_label(k)),
        Ir::Label(branch_label(k, i)),
    ];
    let code = unit.branches(scope, k, i, rest)->Ok_0.1;
    assert(code == head + tail);
    let first = Block {
        start: 0,
        test_end: test.len() as int,
        body_end: test.len() as int + 1 + body.len(),
    };
    let later = blocks(after, scope, k, i + 1, more);
    lemma_blocks_len(after, scope, k, i + 1, more);
    assert(head.len() == first.body_end + 2);
    if j == 0 {
        assert(code[first.test_end] == head[first.test_end]);
        assert(code[first.body_end] == head[first.body_end]);
        assert(code[first.body_end + 1] == head[first.body_end + 1]);
        if more.len() > 0 {
            lemma_branches_layout(after, scope, k, i + 1, more, 0);
            assert(blocks(unit, scope, k, i, rest)[1] == shifted(later, first.body_end + 2)[0]);
        } else {
            assert(tail.len() == 0);
        }
    } else {
        lemma_branches_layout(after, scope, k, i + 1, more, j - 1);
        let b = later[j - 1];
        assert(blocks(unit, scope, k, i, rest)[j] == shifted(later, first.body_end + 2)[j - 1]);
        assert(code[head.len() + b.test_end] == tail[b.test_end]);
        assert(code[head.len() + b.body_end] == tail[b.body_end]);
        assert(code[head.len() + b.body_end + 1] == tail[b.body_end + 1]);
        if j < rest.len() - 1 {
            assert(blocks(unit, scope, k, i, rest)[j + 1] == shifted(
                later,
                first.body_end + 2,
            )[j]);
        }
    }
}

/// There is a block for every branch.
pub proof fn lemma_blocks_len(
    unit: Unit,
    scope: nat,
    k: nat,
    i: nat,
    rest: Seq<(Expression, Vec<Statement>)>,
)
    requires
        unit.branches(scope, k, i, rest) is Ok,
    ensures
        blocks(unit, scope, k, i, rest).len() == rest.len(),
    decreases rest.len(),
{
    if rest.len() > 0 {
        let (tested, test) = unit.expression(rest.first().0)->Ok_0;
        let (after, body) = tested.block(scope, rest.first().1@)->Ok_0;
        lemma_blocks_len(after, scope, k, i + 1, rest.drop_first());
    }
}

/// The code of a conditional.
pub open spec fn chain(
    unit: Unit,
    scope: nat,
    bodies: Seq<(Expression, Vec<Statement>)>,
    else_body: Option<Vec<Statement>>,
) -> Seq<Ir> {
    unit.conditional(scope, bodies, else_body)->Ok_0.1
}

/// Where the branches of a conditional stand in its code.
pub open spec fn chain_blocks(
    unit: Unit,
    scope: nat,
    bodies: Seq<(Expression, Vec<Statement>)>,
) -> Seq<Block> {
    blocks(Unit { conditionals: unit.conditionals + 1, ..unit }, scope, unit.conditionals, 0, bodies)
}

/// Whether the last branch of the conditional is closed by a jump to the end
/// label. It is not where no else body follows.
pub open spec fn closed_by_jump(
    bodies: Seq<(Expression, Vec<Statement>)>,
    else_body: Option<Vec<Statement>>,
    j: int,
) -> bool {
    else_body is Some || j < bodies.len() - 1
}

/// The position of the label of branch `j` in the code of the conditional.
pub open spec fn branch_end(
    unit: Unit,
    scope: nat,
    bodies: Seq<(Expression, Vec<Statement>)>,
    else_body: Option<Vec<Statement>>,
    j: int,
) -> int {
    if closed_by_jump(bodies, else_body, j) {
        chain_blocks(unit, scope, bodies)[j].body_end + 1
    } else {
        chain_blocks(unit, scope, bodies)[j].body_end
    }
}

/// `part` stands in `ir` from position `at` on.
pub open spec fn embedded(ir: Seq<Ir>, at: int, part: Seq<Ir>) -> bool {
    &&& 0 <= at
    &&& at + part.len() <= ir.len()
    &&& ir.subrange(at, at + part.len()) == part
}

/// The layout of the code of a conditional: the jump behind the condition of
/// branch `j` names the label of the branch, which stands behind the body of
/// the branch and the jump that closes it; that jump names the end label,
/// which is the last entry of the code.
pub proof fn lemma_chain_layout(
    unit: Unit,
    scope: nat,
    bodies: Seq<(Expression, Vec<Statement>)>,
    else_body: Option<Vec<Statement>>,
    j: int,
)
    requires
        unit.conditional(scope, bodies, else_body) is Ok,
        0 <= j < bodies.len(),
    ensures
        ({
            let code = chain(unit, scope, bodies, else_body);
            let b = chain_blocks(unit, scope, bodies)[j];
            let k = unit.conditionals;
            let end = branch_end(unit, scope, bodies, else_body, j);
            &&& 0 <= b.test_end < b.body_end <= end < code.len() - 1
            &&& code[b.test_end] == Ir::JumpIfFalse(branch_label(k, j as nat))
            &&& code[end] == Ir::Label(branch_label(k, j as nat))
            &&& code.last() == Ir::Label(end_label(k))
            &&& closed_by_jump(bodies, else_body, j) ==> code[b.body_end] == Ir::Jump(end_label(k))
        }),
{
    let k = unit.conditionals;
    let counted = Unit { conditionals: k + 1, ..unit };
    lemma_branches_layout(counted, scope, k, 0, bodies, j);
    let (after, inner) = counted.branches(scope, k, 0, bodies)->Ok_0;
    let code = chain(unit, scope, bodies, else_body);
    let b = chain_blocks(unit, scope, bodies)[j];
    match else_body {
        Some(otherwise) => {
            let rest = after.block(scope, otherwise@)->Ok_0.1;
            assert(code == inner + (rest + seq![Ir::Label(end_label(k))]));
            assert(code[b.test_end] == inner[b.test_end]);
            assert(code[b.body_end] == inner[b.body_end]);
            assert(code[b.body_end + 1] == inner[b.body_end + 1]);
        },
        None => {
            assert(code == inner.take(inner.len() - 2).push(inner.last()).push(
                Ir::Label(end_label(k)),
            ));
            assert(code[b.test_end] == inner[b.test_end]);
            if j < bodies.len() - 1 {
                lemma_branches_layout(counted, scope, k, 0, bodies, j + 1);
                assert(code[b.body_end] == inner[b.body_end]);
                assert(code[b.body_end + 1] == inner[b.body_end + 1]);
            } else {
                assert(code[b.body_end] == inner.last());
            }
        },
    }
}

/// The address of a label is that of the entry behind it.
pub proof fn lemma_label_takes_no_address(ir: Seq<Ir>, p: int)
    requires
        0 <= p < ir.len(),
        ir[p] is Label,
    ensures
        address_at(ir, p + 1) == address_at(ir, p),
{
    assert(ir.take(p + 1).drop_last() =~= ir.take(p));
    assert(ir.take(p + 1).last() == ir[p]);
}

/// Of a conditional, a branch whose condition is false is passed over, and a
/// branch whose condition is true is entered. Where the machine is about to
/// execute the jump behind the condition of branch `j`, it goes on with the
/// next instruction, the first of the body, if it finds `true` on the stack;
/// if it finds `false`, it goes on behind the branch: with the condition of
/// the next branch, with the else body, or behind the conditional.
pub proof fn lemma_false_condition_passes_over_the_branch(
    ir: Seq<Ir>,
    at: int,
    unit: Unit,
    scope: nat,
    bodies: Seq<(Expression, Vec<Statement>)>,
    else_body: Option<Vec<Statement>>,
    j: int,
    m: Machine,
)
    requires
        unit.conditional(scope, bodies, else_body) is Ok,
        embedded(ir, at, chain(unit, scope, bodies, else_body)),
        resolve(ir) is Ok,
        0 <= j < bodies.len(),
        only_label(ir, at + branch_end(unit, scope, bodies, else_body, j)),
        m.instructions == resolve(ir)->Ok_0,
        m.ip == address_at(ir, at + chain_blocks(unit, scope, bodies)[j].test_end),
        m.stack.len() > 0,
        m.peek(0) is Bool,
    ensures
        m.fetched().after(m.instructions[m.ip]).ip == (if m.peek(0) == Value::Bool(true) {
            m.ip + 1
        } else {
            address_at(ir, at + branch_end(unit, scope, bodies, else_body, j) + 1) as int
        }),
{
    let code = chain(unit, scope, bodies, else_body);
    let b = chain_blocks(unit, scope, bodies)[j];
    let end = branch_end(unit, scope, bodies, else_body, j);
    lemma_chain_layout(unit, scope, bodies, else_body, j);
    assert(ir[at + b.test_end] == ir.subrange(at, at + code.len())[b.test_end]);
    assert(ir[at + end] == ir.subrange(at, at + code.len())[end]);
    law_jump_lands_behind_label(ir, at + b.test_end, at + end, m);
    lemma_label_takes_no_address(ir, at + end);
}

/// Of a conditional, a branch that has been executed is the only one: where
/// the machine is about to execute the jump that closes the body of branch
/// `j`, it goes on behind the conditional, past every later branch and the
/// else body.
pub proof fn lemma_branch_leaves_the_conditional(
    ir: Seq<Ir>,
    at: int,
    unit: Unit,
    scope: nat,
    bodies: Seq<(Expression, Vec<Statement>)>,
    else_body: Option<Vec<Statement>>,
    j: int,
    m: Machine,
)
    requires
        unit.conditional(scope, bodies, else_body) is Ok,
        embedded(ir, at, chain(unit, scope, bodies, else_body)),
        resolve(ir) is Ok,
        0 <= j < bodies.len(),
        closed_by_jump(bodies, else_body, j),
        only_label(ir, at + chain(unit, scope, bodies, else_body).len() - 1),
        m.instructions == resolve(ir)->Ok_0,
        m.ip == address_at(ir, at + chain_blocks(unit, scope, bodies)[j].body_end),
    ensures
        m.fetched().after(m.instructions[m.ip]).ip == address_at(
            ir,
            at + chain(unit, scope, bodies, else_body).len(),
        ),
{
    let code = chain(unit, scope, bodies, else_body);
    let b = chain_blocks(unit, scope, bodies)[j];
    lemma_chain_layout(unit, scope, bodies, else_body, j);
    assert(ir[at + b.body_end] == ir.subrange(at, at + code.len())[b.body_end]);
    assert(ir[at + code.len() - 1] == ir.subrange(at, at + code.len())[code.len() - 1]);
    law_jump_lands_behind_label(ir, at + b.body_end, at + code.len() - 1, m);
    lemma_label_takes_no_address(ir, at + code.len() - 1);
}

/// Without an else body, the last branch of a conditional has no jump behind
/// its body: only the two labels follow, so that the machine goes on behind
/// the conditional.
pub proof fn law_last_branch_runs_out_of_the_conditional(
    ir: Seq<Ir>,
    at: int,
    unit: Unit,
    scope: nat,
    bodies: Seq<(Expression, Vec<Statement>)>,
)
    requires
        unit.conditional(scope, bodies, None) is Ok,
        embedded(ir, at, chain(unit, scope, bodies, None)),
    ensures
        address_at(ir, at + chain_blocks(unit, scope, bodies)[bodies.len() - 1].body_end)
            == address_at(ir, at + chain(unit, scope, bodies, None).len()),
{
    let code = chain(unit, scope, bodies, None);
    let j = bodies.len() - 1;
    let b = chain_blocks(unit, scope, bodies)[j];
    lemma_chain_layout(unit, scope, bodies, None, j);
    let k = unit.conditionals;
    let counted = Unit { conditionals: k + 1, ..unit };
    lemma_branches_layout(counted, scope, k, 0, bodies, j);
    assert(b.body_end + 2 == code.len());
    assert(ir[at + b.body_end] == ir.subrange(at, at + code.len())[b.body_end]);
    assert(ir[at + b.body_end + 1] == ir.subrange(at, at + code.len())[b.body_end + 1]);
    lemma_label_takes_no_address(ir, at + b.body_end);
    lemma_label_takes_no_address(ir, at + b.body_end + 1);
}

/// The code of the program made of `statements` and `functions`.
pub open spec fn program_code(statements: Seq<Statement>, functions: Seq<Statement>) -> Seq<Ir> {
    Unit::empty().with_host_names().program(statements, functions)->Ok_0.1
}

/// In the code of a program the label of its start and every label of a
/// conditional or a loop is defined once: no two entries define the same
/// such label. (A function's label is defined as often as the function is
/// declared.)
pub proof fn law_labels_defined_once(
    statements: Seq<Statement>,
    functions: Seq<Statement>,
    tag: Tag,
    p: int,
    q: int,
)
    requires
        Unit::empty().with_host_names().program(statements, functions) is Ok,
        tag.single(),
        0 <= p < program_code(statements, functions).len(),
        0 <= q < program_code(statements, functions).len(),
        program_code(statements, functions)[p] == Ir::Label(tag.name()),
        program_code(statements, functions)[q] == Ir::Label(tag.name()),
    ensures
        p == q,
{
    lemma_program_tidy(Unit::empty().with_host_names(), statements, functions);
    assert(once(program_code(statements, functions), tag.name()));
}

/// In the code of a program the label of a function is defined as often as
/// the program declares a function of that name, the declarations inside
/// bodies included.
pub proof fn law_function_labels_as_declared(
    statements: Seq<Statement>,
    functions: Seq<Statement>,
    name: Seq<char>,
)
    requires
        Unit::empty().with_host_names().program(statements, functions) is Ok,
    ensures
        defined(program_code(statements, functions), function_label(name)) == declared_in(
            functions,
            name,
        ) + declared_in(statements, name),
{
    lemma_program_declares(Unit::empty().with_host_names(), statements, functions, name);
}

/// The label of a function that a program declares once is defined once: no
/// two entries of the code define it.
pub proof fn law_function_declared_once_has_one_label(
    statements: Seq<Statement>,
    functions: Seq<Statement>,
    name: Seq<char>,
    p: int,
    q: int,
)
    requires
        Unit::empty().with_host_names().program(statements, functions) is Ok,
        declared_in(functions, name) + declared_in(statements, name) <= 1,
        0 <= p < program_code(statements, functions).len(),
        0 <= q < program_code(statements, functions).len(),
        program_code(statements, functions)[p] == Ir::Label(function_label(name)),
        program_code(statements, functions)[q] == Ir::Label(function_label(name)),
    ensures
        p == q,
{
    law_function_labels_as_declared(statements, functions, name);
    lemma_defined_once(program_code(statements, functions), function_label(name), p, q);
}

/// A label of a program that is not a function's is the only label of its
/// name.
pub proof fn lemma_only_label_of_program(
    statements: Seq<Statement>,
    functions: Seq<Statement>,
    tag: Tag,
    p: int,
)
    requires
        Unit::empty().with_host_names().program(statements, functions) is Ok,
        tag.single(),
        0 <= p < program_code(statements, functions).len(),
        program_code(statements, functions)[p] == Ir::Label(tag.name()),
    ensures
        only_label(program_code(statements, functions), p),
{
    let ir = program_code(statements, functions);
    assert forall|q: int| 0 <= q < ir.len() && q != p implies ir[q] != ir[p] by {
        if ir[q] == ir[p] {
            law_labels_defined_once(statements, functions, tag, p, q);
        }
    }
}

/// A translated program begins with a jump to its start. The first entry of
/// its code is the jump, the code of the functions follows, and behind it
/// stands the start label, the only one of its name; the instruction at
/// address 1 jumps to the address of that label, which is that of the first
/// instruction behind the functions.
pub proof fn law_program_begins_with_a_jump_to_its_start(
    statements: Seq<Statement>,
    functions: Seq<Statement>,
)
    requires
        translation(statements, functions) is Ok,
    ensures
        ({
            let ir = program_code(statements, functions);
            let declared = Unit::empty().with_host_names().block(0, functions)->Ok_0.1;
            let start = 1 + declared.len() as int;
            &&& ir[0] == Ir::Jump(start_label())
            &&& only_label(ir, start)
            &&& ir[start] == Ir::Label(start_label())
            &&& address_at(ir, start) == 2 + instruction_count(declared)
            &&& 1 < address_at(ir, start) < translation(
                statements,
                functions,
            )->Ok_0.instructions.len()
            &&& translation(statements, functions)->Ok_0.instructions[1] == Instruction::Jump {
                address: address_at(ir, start) as usize,
            }
        }),
{
    let unit = Unit::empty().with_host_names();
    let ir = program_code(statements, functions);
    let (after, declared) = unit.block(0, functions)->Ok_0;
    let main = after.block(0, statements)->Ok_0.1;
    let head = seq![Ir::Jump(start_label())];
    let label = seq![Ir::Label(start_label())];
    let last = seq![Ir::Inst(Instruction::Nop)];
    let start = 1 + declared.len() as int;
    assert(ir =~= head + declared + label + (main + last));
    lemma_only_label_of_program(statements, functions, Tag::Start, start);
    lemma_label_at(ir, start);
    assert(ir.take(start) =~= head + declared);
    lemma_count_add(head, declared);
    assert(head.drop_last() =~= Seq::<Ir>::empty());
    assert(instruction_count(head.drop_last()) == 0);
    assert(!(head.last() is Label));
    assert(instruction_count(head) == 1);
    assert(ir.take(0) =~= Seq::<Ir>::empty());
    lemma_resolved_at(ir, 0);
    lemma_address_bounds(ir, start_label());
    lemma_resolved_len(ir, ir);
    lemma_count_grows(ir, ir.len() as int);
}

/// Of a conditional of a program, a branch whose condition is false is passed
/// over, and a branch whose condition is true is entered. Where the code of
/// the conditional stands in the code of the program from position `at` on,
/// and the machine is about to execute the jump behind the condition of
/// branch `j`: if it finds `true` on the stack, it goes on with the next
/// instruction, the first of the body; if it finds `false`, it goes on behind
/// the branch, with the condition of the next branch, with the else body, or
/// behind the conditional.
pub proof fn law_false_condition_passes_over_the_branch(
    statements: Seq<Statement>,
    functions: Seq<Statement>,
    at: int,
    unit: Unit,
    scope: nat,
    bodies: Seq<(Expression, Vec<Statement>)>,
    else_body: Option<Vec<Statement>>,
    j: int,
    m: Machine,
)
    requires
        translation(statements, functions) is Ok,
        unit.conditional(scope, bodies, else_body) is Ok,
        embedded(program_code(statements, functions), at, chain(unit, scope, bodies, else_body)),
        0 <= j < bodies.len(),
        m.instructions == translation(statements, functions)->Ok_0.instructions,
        m.ip == address_at(
            program_code(statements, functions),
            at + chain_blocks(unit, scope, bodies)[j].test_end,
        ),
        m.stack.len() > 0,
        m.peek(0) is Bool,
    ensures
        m.fetched().after(m.instructions[m.ip]).ip == (if m.peek(0) == Value::Bool(true) {
            m.ip + 1
        } else {
            address_at(
                program_code(statements, functions),
                at + branch_end(unit, scope, bodies, else_body, j) + 1,
            ) as int
        }),
{
    let ir = program_code(statements, functions);
    let code = chain(unit, scope, bodies, else_body);
    let end = branch_end(unit, scope, bodies, else_body, j);
    lemma_chain_layout(unit, scope, bodies, else_body, j);
    assert(ir[at + end] == ir.subrange(at, at + code.len())[end]);
    lemma_only_label_of_program(
        statements,
        functions,
        Tag::Branch(unit.conditionals, j as nat),
        at + end,
    );
    lemma_false_condition_passes_over_the_branch(
        ir,
        at,
        unit,
        scope,
        bodies,
        else_body,
        j,
        m,
    );
}

/// Of a conditional of a program, a branch that has been executed is the only
/// one: where the machine is about to execute the jump that closes the body
/// of branch `j`, it goes on behind the conditional, past every later branch
/// and the else body.
pub proof fn law_branch_leaves_the_conditional(
    statements: Seq<Statement>,
    functions: Seq<Statement>,
    at: int,
    unit: Unit,
    scope: nat,
    bodies: Seq<(Expression, Vec<Statement>)>,
    else_body: Option<Vec<Statement>>,
    j: int,
    m: Machine,
)
    requires
        translation(statements, functions) is Ok,
        unit.conditional(scope, bodies, else_body) is Ok,
        embedded(program_code(statements, functions), at, chain(unit, scope, bodies, else_body)),
        0 <= j < bodies.len(),
        closed_by_jump(bodies, else_body, j),
        m.instructions == translation(statements, functions)->Ok_0.instructions,
        m.ip == address_at(
            program_code(statements, functions),
            at + chain_blocks(unit, scope, bodies)[j].body_end,
        ),
    ensures
        m.fetched().after(m.instructions[m.ip]).ip == address_at(
            program_code(statements, functions),
            at + chain(unit, scope, bodies, else_body).len(),
        ),
{
    let ir = program_code(statements, functions);
    let code = chain(unit, scope, bodies, else_body);
    lemma_chain_layout(unit, scope, bodies, else_body, j);
    assert(ir[at + code.len() - 1] == ir.subrange(at, at + code.len())[code.len() - 1]);
    lemma_only_label_of_program(
        statements,
        functions,
        Tag::End(unit.conditionals),
        at + code.len() - 1,
    );
    lemma_branch_leaves_the_conditional(ir, at, unit, scope, bodies, else_body, j, m);
}

/// Whether the operand of the instruction names something that is there: a
/// `Load` or `Store` a heap slot below `variables`, a pushed string handle or
/// an `ExternCall` a string below `strings`.
pub open spec fn operand_in_range(instruction: Instruction, strings: nat, variables: nat) -> bool {
    match instruction {
        Instruction::Load { address } => address < variables,
        Instruction::Store { address } => address < variables,
        Instruction::Push { value: Value::StrRef(id) } => id < strings,
        Instruction::ExternCall { string_id } => string_id < strings,
        _ => true,
    }
}

/// Every instruction of the code has its operand in the range of the tables
/// of `unit`.
pub open spec fn in_range(code: Seq<Ir>, unit: Unit) -> bool {
    forall|i: int|
        0 <= i < code.len() ==> ((#[trigger] code[i]) matches Ir::Inst(x) ==> operand_in_range(
            x,
            unit.strings.len(),
            unit.variables.len(),
        ))
}

/// The tables of `to` hold at least as many entries as those of `from`.
pub open spec fn tables_grown(from: Unit, to: Unit) -> bool {
    from.strings.len() <= to.strings.len() && from.variables.len() <= to.variables.len()
}

/// What was lowered has its operands in the range of the tables that the
/// lowering left, which have not shrunk.
pub open spec fn lowered_in_range(from: Unit, lowered: Lowered) -> bool {
    lowered matches Ok((to, code)) ==> tables_grown(from, to) && in_range(code, to)
}

/// An interned name has an id within the table, which has not shrunk.
pub proof fn lemma_interned_in_range(names: Seq<Seq<char>>, name: Seq<char>)
    ensures
        names.len() <= interned(names, name).len(),
        0 <= interned_id(names, name) < interned(names, name).len(),
        (interned_id(names, name) as usize) < interned(
            names,
            name,
        ).len(),
{
    lemma_position(names, name);
}

/// Code in range stays so when the tables grow.
pub proof fn lemma_in_range_grown(code: Seq<Ir>, from: Unit, to: Unit)
    requires
        in_range(code, from),
        tables_grown(from, to),
    ensures
        in_range(code, to),
{
}

/// Joined code is in range if its pieces are.
pub proof fn lemma_in_range_add(a: Seq<Ir>, b: Seq<Ir>, unit: Unit)
    requires
        in_range(a, unit),
        in_range(b, unit),
    ensures
        in_range(a + b, unit),
{
    assert forall|i: int| 0 <= i < (a + b).len() implies ((#[trigger] (a + b)[i]) matches Ir::Inst(
        x,
    ) ==> operand_in_range(x, unit.strings.len(), unit.variables.len())) by {
        if i < a.len() {
            assert((a + b)[i] == a[i]);
        } else {
            assert((a + b)[i] == b[i - a.len()]);
        }
    }
}

/// Code in range in front of what was lowered from the state it left.
pub proof fn lemma_preceded_in_range(code: Seq<Ir>, from: Unit, middle: Unit, rest: Lowered)
    requires
        tables_grown(from, middle),
        in_range(code, middle),
        lowered_in_range(middle, rest),
    ensures
        lowered_in_range(from, preceded(code, rest)),
{
    if let Ok((to, more)) = rest {
        lemma_in_range_grown(code, middle, to);
        lemma_in_range_add(code, more, to);
    }
}

/// Code in range behind what was lowered.
pub proof fn lemma_followed_in_range(from: Unit, rest: Lowered, code: Seq<Ir>)
    requires
        lowered_in_range(from, rest),
        rest matches Ok((to, _)) ==> in_range(code, to),
    ensures
        lowered_in_range(from, followed(rest, code)),
{
    if let Ok((to, before)) = rest {
        lemma_in_range_add(before, code, to);
    }
}

/// The stores of a call name slots of the table that they leave.
pub proof fn lemma_stores_in_range(unit: Unit, params: Seq<Seq<char>>)
    ensures
        unit.variables.len() <= stores(unit.variables, params).0.len(),
        in_range(
            stores(unit.variables, params).1,
            Unit { variables: stores(unit.variables, params).0, ..unit },
        ),
    decreases params.len(),
{
    if params.len() > 0 {
        let after = Unit { variables: interned(unit.variables, params.last()), ..unit };
        lemma_interned_in_range(unit.variables, params.last());
        lemma_stores_in_range(after, params.drop_last());
        let last = Unit { variables: stores(unit.variables, params).0, ..unit };
        let store = seq![
            Ir::Inst(
                Instruction::Store {
                    address: interned_id(unit.variables, params.last()) as usize,
                },
            ),
        ];
        assert(in_range(store, last));
        lemma_in_range_add(store, stores(after.variables, params.drop_last()).1, last);
    }
}

/// The code of an expression names what its tables hold.
pub proof fn lemma_expression_in_range(unit: Unit, e: Expression)
    ensures
        lowered_in_range(unit, unit.expression(e)),
    decreases e, 1nat,
{
    match e {
        Expression::String(text) => {
            lemma_interned_in_range(unit.strings, text@);
        },
        Expression::Variable(name) => {
            lemma_interned_in_range(unit.variables, name.text());
        },
        Expression::FunctionCall { func_name, args } => {
            lemma_function_call_in_range(unit, func_name.text(), args@);
        },
        Expression::Addition { left, right }
        | Expression::Subtraction { left, right }
        | Expression::Multiplication { left, right }
        | Expression::Division { left, right }
        | Expression::Modulus { left, right }
        | Expression::Equal { left, right }
        | Expression::NotEqual { left, right }
        | Expression::GreaterThan { left, right }
        | Expression::LessThan { left, right }
        | Expression::GreaterThanOrEqual { left, right }
        | Expression::LessThanOrEqual { left, right } => {
            lemma_expression_in_range(unit, *left);
            if let Ok((after, code)) = unit.expression(*left) {
                lemma_expression_in_range(after, *right);
                let op = seq![Ir::Inst(opcode(e))];
                lemma_followed_in_range(after, after.expression(*right), op);
                lemma_preceded_in_range(code, unit, after, followed(after.expression(*right), op));
            }
        },
        _ => {},
    }
}

/// The code of the arguments of a call names what its tables hold.
pub proof fn lemma_arguments_in_range(unit: Unit, args: Seq<Expression>)
    ensures
        lowered_in_range(unit, unit.arguments(args)),
    decreases args, 0nat,
{
    if args.len() > 0 {
        lemma_expression_in_range(unit, args.last());
        if let Ok((after, code)) = unit.expression(args.last()) {
            lemma_arguments_in_range(after, args.drop_last());
            lemma_preceded_in_range(code, unit, after, after.arguments(args.drop_last()));
        }
    }
}

/// What follows the arguments of a call names what its tables hold.
pub proof fn lemma_call_in_range(unit: Unit, name: Seq<char>, count: nat)
    ensures
        lowered_in_range(unit, unit.call(name, count)),
{
    if is_external(name) {
        lemma_interned_in_range(unit.strings, name);
    } else if unit.func_args.contains_key(name) {
        lemma_stores_in_range(unit, unit.func_args[name]);
        let (variables, code) = stores(unit.variables, unit.func_args[name]);
        let after = Unit { variables, ..unit };
        let call = seq![Ir::Call(function_label(name))];
        lemma_in_range_add(code, call, after);
        assert(code.push(call[0]) =~= code + call);
    }
}

/// The code of a call names what its tables hold.
pub proof fn lemma_function_call_in_range(unit: Unit, name: Seq<char>, args: Seq<Expression>)
    ensures
        lowered_in_range(unit, unit.function_call(name, args)),
    decreases args, 1nat,
{
    lemma_arguments_in_range(unit, args);
    if let Ok((after, code)) = unit.arguments(args) {
        lemma_call_in_range(after, name, args.len());
        lemma_preceded_in_range(code, unit, after, after.call(name, args.len()));
    }
}

/// The code of an assignment names what its tables hold.
pub proof fn lemma_assignment_in_range(unit: Unit, name: Seq<char>, e: Expression)
    ensures
        lowered_in_range(unit, unit.assignment(name, e)),
{
    lemma_expression_in_range(unit, e);
    if let Ok((after, code)) = unit.expression(e) {
        lemma_interned_in_range(after.variables, name);
        let last = after.with_variable(name);
        let store = seq![
            Ir::Inst(
                Instruction::Store {
                    address: interned_id(after.variables, name) as usize,
                },
            ),
        ];
        lemma_in_range_grown(code, after, last);
        lemma_in_range_add(code, store, last);
        assert(code.push(store[0]) =~= code + store);
    }
}

/// The code of a statement names what its tables hold.
pub proof fn lemma_statement_in_range(unit: Unit, scope: nat, s: Statement)
    ensures
        lowered_in_range(unit, unit.statement(scope, s)),
    decreases statement_size(s), 0nat,
{
    match s {
        Statement::Assignment { identifier, expression } => {
            lemma_assignment_in_range(unit, identifier.text(), expression);
        },
        Statement::Reassignment { identifier, expression } => {
            lemma_assignment_in_range(unit, identifier.text(), expression);
        },
        Statement::FunctionCall { func_name, args } => {
            lemma_function_call_in_range(unit, func_name.text(), args@);
        },
        Statement::FunctionDeclaration { func_name, args, body } => {
            let declared = Unit {
                func_args: unit.func_args.insert(
                    func_name.text(),
                    Seq::new(args@.len(), |i: int| args@[i].text()),
                ),
                ..unit
            };
            lemma_block_in_range(declared, scope, body@);
            lemma_preceded_in_range(
                seq![Ir::Label(function_label(func_name.text()))],
                unit,
                declared,
                declared.block(scope, body@),
            );
        },
        Statement::Conditional { body, else_body } => {
            lemma_conditional_in_range(unit, scope, body@, else_body);
        },
        Statement::WhileLoop { condition, body } => {
            if unit.whiles < usize::MAX {
                let k = unit.whiles;
                let counted = Unit { whiles: k + 1, ..unit };
                lemma_expression_in_range(counted, condition);
                if let Ok((after, test)) = counted.expression(condition) {
                    lemma_block_in_range(after, k, body@);
                    let head = seq![Ir::Label(while_label(k))];
                    let jump = seq![
                        Ir::JumpIfFalse(end_while_label(k)),
                    ];
                    let tail = seq![
                        Ir::Jump(while_label(k)),
                        Ir::Label(end_while_label(k)),
                    ];
                    lemma_in_range_add(head, test, after);
                    lemma_in_range_add(head + test, jump, after);
                    lemma_followed_in_range(after, after.block(k, body@), tail);
                    lemma_preceded_in_range(
                        head + test + jump,
                        unit,
                        after,
                        followed(after.block(k, body@), tail),
                    );
                }
            }
        },
        Statement::Return(e) => {
            lemma_expression_in_range(unit, e);
            lemma_followed_in_range(unit, unit.expression(e), seq![Ir::Inst(Instruction::Ret)]);
        },
        _ => {},
    }
}

/// The code of a sequence of statements names what its tables hold.
pub proof fn lemma_block_in_range(unit: Unit, scope: nat, body: Seq<Statement>)
    ensures
        lowered_in_range(unit, unit.block(scope, body)),
    decreases statements_size(body), 1nat,
{
    if body.len() > 0 {
        lemma_statement_in_range(unit, scope, body.first());
        if let Ok((after, code)) = unit.statement(scope, body.first()) {
            lemma_block_in_range(after, scope, body.drop_first());
            lemma_preceded_in_range(code, unit, after, after.block(scope, body.drop_first()));
        }
    }
}

/// The code of the branches of a conditional names what its tables hold.
pub proof fn lemma_branches_in_range(
    unit: Unit,
    scope: nat,
    k: nat,
    i: nat,
    rest: Seq<(Expression, Vec<Statement>)>,
)
    ensures
        lowered_in_range(unit, unit.branches(scope, k, i, rest)),
    decreases branches_size(rest), 1nat,
{
    if rest.len() > 0 {
        lemma_expression_in_range(unit, rest.first().0);
        if let Ok((tested, test)) = unit.expression(rest.first().0) {
            lemma_block_in_range(tested, scope, rest.first().1@);
            if let Ok((after, body)) = tested.block(scope, rest.first().1@) {
                lemma_branches_in_range(after, scope, k, i + 1, rest.drop_first());
                let jump = seq![Ir::JumpIfFalse(branch_label(k, i))];
                let tail = seq![Ir::Jump(end_label(k)), Ir::Label(branch_label(k, i))];
                lemma_in_range_grown(test, tested, after);
                lemma_in_range_add(test, jump, after);
                lemma_in_range_add(test + jump, body, after);
                lemma_in_range_add(test + jump + body, tail, after);
                lemma_preceded_in_range(
                    test + jump + body + tail,
                    unit,
                    after,
                    after.branches(scope, k, i + 1, rest.drop_first()),
                );
            }
        }
    }
}

/// The code of a conditional names what its tables hold.
pub proof fn lemma_conditional_in_range(
    unit: Unit,
    scope: nat,
    bodies: Seq<(Expression, Vec<Statement>)>,
    else_body: Option<Vec<Statement>>,
)
    ensures
        lowered_in_range(unit, unit.conditional(scope, bodies, else_body)),
    decreases branches_size(bodies) + else_size(else_body), 2nat,
{
    if unit.conditionals < usize::MAX {
        let k = unit.conditionals;
        let counted = Unit { conditionals: k + 1, ..unit };
        lemma_branches_in_range(counted, scope, k, 0, bodies);
        if let Ok((after, code)) = counted.branches(scope, k, 0, bodies) {
            let end = seq![Ir::Label(end_label(k))];
            match else_body {
                Some(otherwise) => {
                    lemma_block_in_range(after, scope, otherwise@);
                    lemma_followed_in_range(after, after.block(scope, otherwise@), end);
                    lemma_preceded_in_range(
                        code,
                        unit,
                        after,
                        followed(after.block(scope, otherwise@), end),
                    );
                },
                None => {
                    if bodies.len() > 0 {
                        lemma_branches_layout(counted, scope, k, 0, bodies, 0);
                        let kept = code.take(code.len() - 2).push(code.last());
                        assert forall|i: int| 0 <= i < kept.len() implies ((
                        #[trigger] kept[i]) matches Ir::Inst(x) ==> operand_in_range(
                            x,
                            after.strings.len(),
                            after.variables.len(),
                        )) by {
                            if i < kept.len() - 1 {
                                assert(kept[i] == code[i]);
                            } else {
                                assert(kept[i] == code[code.len() - 1]);
                            }
                        }
                        lemma_in_range_add(kept, end, after);
                        assert(kept.push(end[0]) =~= kept + end);
                    }
                },
            }
        }
    }
}

/// The code of a program names what its tables hold.
pub proof fn lemma_program_in_range(
    unit: Unit,
    statements: Seq<Statement>,
    functions: Seq<Statement>,
)
    ensures
        lowered_in_range(unit, unit.program(statements, functions)),
{
    lemma_block_in_range(unit, 0, functions);
    if let Ok((declared, code)) = unit.block(0, functions) {
        lemma_block_in_range(declared, 0, statements);
        let start = start_label();
        let head = seq![Ir::Jump(start)];
        let label = seq![Ir::Label(start)];
        let last = seq![Ir::Inst(Instruction::Nop)];
        lemma_in_range_add(head, code, declared);
        lemma_in_range_add(head + code, label, declared);
        lemma_followed_in_range(declared, declared.block(0, statements), last);
        lemma_preceded_in_range(
            head + code + label,
            unit,
            declared,
            followed(declared.block(0, statements), last),
        );
    }
}

/// A translated program names only what it has: every `Load` and `Store`
/// names a heap slot below `heap_size`, and every pushed string handle and
/// every `ExternCall` names a string of the program.
pub proof fn law_translated_operands_in_range(
    statements: Seq<Statement>,
    functions: Seq<Statement>,
    j: int,
)
    requires
        translation(statements, functions) is Ok,
        0 <= j < translation(statements, functions)->Ok_0.instructions.len(),
    ensures
        operand_in_range(
            translation(statements, functions)->Ok_0.instructions[j],
            translation(statements, functions)->Ok_0.strings.len(),
            translation(statements, functions)->Ok_0.heap_size,
        ),
{
    let unit = Unit::empty().with_host_names();
    lemma_program_in_range(unit, statements, functions);
    let (last, ir) = unit.program(statements, functions)->Ok_0;
    let instructions = resolve(ir)->Ok_0;
    if j > 0 {
        lemma_resolved_len(ir, ir);
        assert(instructions[j] == resolved_part(ir, ir)[j - 1]);
        lemma_resolved_origin(ir, ir, j - 1);
        let i = choose|i: int|
            0 <= i < ir.len() && !(#[trigger] ir[i] is Label) && resolved_part(ir, ir)[j - 1]
                == resolved_entry(ir, ir[i]);
        assert(ir[i] matches Ir::Inst(x) ==> operand_in_range(
            x,
            last.strings.len(),
            last.variables.len(),
        ));
    }
}

} // verus!
