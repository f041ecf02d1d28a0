//! Every label of a program but those of functions is defined once: the
//! induction over the
//! translation that shows it.

use vstd::prelude::*;
use crate::bincompiler::ast::{opcode, Expression, Statement};
use crate::bincompiler::labels::{lemma_names_differ, Tag};
use crate::bincompiler::lowering::{
    branch_label, branches_size, else_size, end_label, end_while_label, followed, function_label,
    is_external, preceded, start_label, statement_size, statements_size, stores,
    while_label, Ir, Lowered, Unit,
};
use crate::bincore::executable::runnable::Instruction;
use crate::names::{interned, interned_id};

verus! {

/// The name is defined at most once in the code.
pub open spec fn once(code: Seq<Ir>, name: Seq<char>) -> bool {
    forall|p: int, q: int|
        0 <= p < code.len() && 0 <= q < code.len() && #[trigger] code[p] == Ir::Label(name)
            && #[trigger] code[q] == Ir::Label(name) ==> p == q
}

/// Whether a label with this tag may be defined by code that is translated
/// between the states `from` and `to`: a numbered label must have a number
/// that was taken in between, and the start of the program is never defined
/// there.
pub open spec fn fresh(tag: Tag, from: Unit, to: Unit) -> bool {
    match tag {
        Tag::Start => false,
        Tag::Function(_) => true,
        Tag::Branch(k, _) => from.conditionals <= k < to.conditionals,
        Tag::End(k) => from.conditionals <= k < to.conditionals,
        Tag::While(k) => from.whiles <= k < to.whiles,
        Tag::EndWhile(k) => from.whiles <= k < to.whiles,
    }
}

/// The counters of `to` are not below those of `from`.
pub open spec fn onward(from: Unit, to: Unit) -> bool {
    from.conditionals <= to.conditionals && from.whiles <= to.whiles
}

/// The code defines only labels that `allowed` admits, and each label but
/// those of functions at most once.
pub open spec fn tidy_by(code: Seq<Ir>, allowed: spec_fn(Tag) -> bool) -> bool {
    &&& forall|p: int|
        0 <= p < code.len() && (#[trigger] code[p]) is Label ==> exists|tag: Tag|
            #[trigger] tag.name() == code[p]->Label_0 && allowed(tag)
    &&& forall|tag: Tag| tag.single() ==> once(code, #[trigger] tag.name())
}

/// The code defines only labels that are fresh between `from` and `to`, and
/// each label but those of functions at most once.
pub open spec fn tidy(code: Seq<Ir>, from: Unit, to: Unit) -> bool {
    onward(from, to) && tidy_by(code, |tag: Tag| fresh(tag, from, to))
}

/// The code defines no label.
pub open spec fn label_free(code: Seq<Ir>) -> bool {
    forall|p: int| 0 <= p < code.len() ==> !((#[trigger] code[p]) is Label)
}

/// What was lowered defines no label and takes no number.
pub open spec fn quiet(from: Unit, lowered: Lowered) -> bool {
    lowered matches Ok((to, code)) ==> label_free(code) && to.conditionals == from.conditionals
        && to.whiles == from.whiles
}

/// What was lowered is tidy.
pub open spec fn lowered_tidy(from: Unit, lowered: Lowered) -> bool {
    lowered matches Ok((to, code)) ==> tidy(code, from, to)
}

/// Code without labels is tidy, whatever is allowed.
pub proof fn lemma_label_free_tidy(code: Seq<Ir>, allowed: spec_fn(Tag) -> bool)
    requires
        label_free(code),
    ensures
        tidy_by(code, allowed),
{
}

/// Joined code without labels has none.
pub proof fn lemma_label_free_add(a: Seq<Ir>, b: Seq<Ir>)
    requires
        label_free(a),
        label_free(b),
    ensures
        label_free(a + b),
{
    assert forall|p: int| 0 <= p < (a + b).len() implies !((#[trigger] (a + b)[p]) is Label) by {
        if p < a.len() {
            assert((a + b)[p] == a[p]);
        } else {
            assert((a + b)[p] == b[p - a.len()]);
        }
    }
}

/// Tidy code stays tidy where more is allowed.
pub proof fn lemma_tidy_wider(
    code: Seq<Ir>,
    allowed: spec_fn(Tag) -> bool,
    wider: spec_fn(Tag) -> bool,
)
    requires
        tidy_by(code, allowed),
        forall|tag: Tag| #[trigger] allowed(tag) ==> wider(tag),
    ensures
        tidy_by(code, wider),
{
    assert forall|p: int| 0 <= p < code.len() && (#[trigger] code[p]) is Label implies exists|
        tag: Tag,
    |
        #[trigger] tag.name() == code[p]->Label_0 && wider(tag) by {
        let tag = choose|tag: Tag| #[trigger] tag.name() == code[p]->Label_0 && allowed(tag);
        assert(allowed(tag));
        assert(tag.name() == code[p]->Label_0 && wider(tag));
    }
}

/// Two pieces of tidy code are tidy together where no label but those of
/// functions is allowed in both.
pub proof fn lemma_tidy_join(
    a: Seq<Ir>,
    b: Seq<Ir>,
    first: spec_fn(Tag) -> bool,
    second: spec_fn(Tag) -> bool,
    both: spec_fn(Tag) -> bool,
)
    requires
        tidy_by(a, first),
        tidy_by(b, second),
        forall|tag: Tag| #[trigger] first(tag) ==> both(tag),
        forall|tag: Tag| #[trigger] second(tag) ==> both(tag),
        forall|tag: Tag| tag.single() && #[trigger] first(tag) ==> !second(tag),
    ensures
        tidy_by(a + b, both),
{
    let code = a + b;
    assert forall|p: int| 0 <= p < code.len() && (#[trigger] code[p]) is Label implies exists|
        tag: Tag,
    |
        #[trigger] tag.name() == code[p]->Label_0 && both(tag) by {
        if p < a.len() {
            assert(code[p] == a[p]);
            let tag = choose|tag: Tag| #[trigger] tag.name() == a[p]->Label_0 && first(tag);
            assert(first(tag));
            assert(tag.name() == code[p]->Label_0 && both(tag));
        } else {
            assert(code[p] == b[p - a.len()]);
            let tag = choose|tag: Tag|
                #[trigger] tag.name() == b[p - a.len()]->Label_0 && second(tag);
            assert(second(tag));
            assert(tag.name() == code[p]->Label_0 && both(tag));
        }
    }
    assert forall|tag: Tag| tag.single() implies once(code, #[trigger] tag.name()) by {
        assert(once(a, tag.name()));
        assert(once(b, tag.name()));
        assert forall|p: int, q: int|
            0 <= p < code.len() && 0 <= q < code.len() && #[trigger] code[p] == Ir::Label(
                tag.name(),
            ) && #[trigger] code[q] == Ir::Label(tag.name()) implies p == q by {
            if p < a.len() && q < a.len() {
                assert(code[p] == a[p] && code[q] == a[q]);
            } else if p >= a.len() && q >= a.len() {
                assert(code[p] == b[p - a.len()] && code[q] == b[q - a.len()]);
            } else {
                let (x, y) = if p < a.len() {
                    (p, q)
                } else {
                    (q, p)
                };
                assert(code[x] == a[x]);
                assert(code[y] == b[y - a.len()]);
                let one = choose|t: Tag| #[trigger] t.name() == a[x]->Label_0 && first(t);
                let two = choose|t: Tag|
                    #[trigger] t.name() == b[y - a.len()]->Label_0 && second(t);
                lemma_names_differ(one, tag);
                lemma_names_differ(two, tag);
                assert(first(tag) && second(tag));
            }
        }
    }
}

/// One label is tidy code where its tag is allowed.
pub proof fn lemma_tidy_label(tag: Tag, allowed: spec_fn(Tag) -> bool)
    requires
        allowed(tag),
    ensures
        tidy_by(seq![Ir::Label(tag.name())], allowed),
{
    let code = seq![Ir::Label(tag.name())];
    assert forall|p: int| 0 <= p < code.len() && (#[trigger] code[p]) is Label implies exists|
        t: Tag,
    |
        #[trigger] t.name() == code[p]->Label_0 && allowed(t) by {
        assert(tag.name() == code[p]->Label_0 && allowed(tag));
    }
}

/// Tidy code that is translated between two states, joined with tidy code
/// that is translated after it, is tidy between the first state and the last.
pub proof fn lemma_tidy_add(a: Seq<Ir>, b: Seq<Ir>, from: Unit, middle: Unit, to: Unit)
    requires
        tidy(a, from, middle),
        tidy(b, middle, to),
    ensures
        tidy(a + b, from, to),
{
    lemma_tidy_join(
        a,
        b,
        |tag: Tag| fresh(tag, from, middle),
        |tag: Tag| fresh(tag, middle, to),
        |tag: Tag| fresh(tag, from, to),
    );
}

/// Code in front of what was lowered: tidy with it.
pub proof fn lemma_preceded_tidy(code: Seq<Ir>, from: Unit, middle: Unit, rest: Lowered)
    requires
        tidy(code, from, middle),
        lowered_tidy(middle, rest),
    ensures
        lowered_tidy(from, preceded(code, rest)),
{
    if let Ok((to, more)) = rest {
        lemma_tidy_add(code, more, from, middle, to);
    }
}

/// Code without labels behind what was lowered: tidy with it.
pub proof fn lemma_followed_tidy(from: Unit, rest: Lowered, code: Seq<Ir>)
    requires
        lowered_tidy(from, rest),
        label_free(code),
    ensures
        lowered_tidy(from, followed(rest, code)),
{
    if let Ok((to, before)) = rest {
        lemma_label_free_tidy(code, |tag: Tag| fresh(tag, to, to));
        lemma_tidy_add(before, code, from, to, to);
    }
}

/// Code without labels in front of what is quiet: quiet with it.
pub proof fn lemma_preceded_quiet(code: Seq<Ir>, from: Unit, middle: Unit, rest: Lowered)
    requires
        label_free(code),
        from.conditionals == middle.conditionals,
        from.whiles == middle.whiles,
        quiet(middle, rest),
    ensures
        quiet(from, preceded(code, rest)),
{
    if let Ok((to, more)) = rest {
        lemma_label_free_add(code, more);
    }
}

/// The stores of a call define no label.
pub proof fn lemma_stores_quiet(variables: Seq<Seq<char>>, params: Seq<Seq<char>>)
    ensures
        label_free(stores(variables, params).1),
    decreases params.len(),
{
    if params.len() > 0 {
        let after = interned(variables, params.last());
        lemma_stores_quiet(after, params.drop_last());
        let store = Ir::Inst(
            Instruction::Store { address: interned_id(variables, params.last()) as usize },
        );
        lemma_label_free_add(seq![store], stores(after, params.drop_last()).1);
    }
}

/// An expression defines no label and takes no number.
pub proof fn lemma_expression_quiet(unit: Unit, e: Expression)
    ensures
        quiet(unit, unit.expression(e)),
    decreases e, 1nat,
{
    match e {
        Expression::FunctionCall { func_name, args } => {
            lemma_function_call_quiet(unit, func_name.text(), args@);
        },
        Expression::Addition { left, right }
        | Expression::Subtraction { left, right }
        | Expression::Multiplication { left, right }
        | Expression::Division { left, right }
        | Expression::Modulus { left, right }
        | Expression::Equal { left, right }
        | Expression::NotEqual { left, right }
        | Expression::GreaterThan { left, right }
        | Expression::LessThan { left, right }
        | Expression::GreaterThanOrEqual { left, right }
        | Expression::LessThanOrEqual { left, right } => {
            lemma_expression_quiet(unit, *left);
            if let Ok((after, code)) = unit.expression(*left) {
                lemma_expression_quiet(after, *right);
                let op = seq![Ir::Inst(opcode(e))];
                if let Ok((last, more)) = after.expression(*right) {
                    lemma_label_free_add(more, op);
                }
                lemma_preceded_quiet(code, unit, after, followed(after.expression(*right), op));
            }
        },
        _ => {},
    }
}

/// The arguments of a call define no label and take no number.
pub proof fn lemma_arguments_quiet(unit: Unit, args: Seq<Expression>)
    ensures
        quiet(unit, unit.arguments(args)),
    decreases args, 0nat,
{
    if args.len() > 0 {
        lemma_expression_quiet(unit, args.last());
        if let Ok((after, code)) = unit.expression(args.last()) {
            lemma_arguments_quiet(after, args.drop_last());
            lemma_preceded_quiet(code, unit, after, after.arguments(args.drop_last()));
        }
    }
}

/// What follows the arguments of a call defines no label and takes no number.
pub proof fn lemma_call_quiet(unit: Unit, name: Seq<char>, count: nat)
    ensures
        quiet(unit, unit.call(name, count)),
{
    if !is_external(name) && unit.func_args.contains_key(name) {
        lemma_stores_quiet(unit.variables, unit.func_args[name]);
    }
}

/// A call defines no label and takes no number.
pub proof fn lemma_function_call_quiet(unit: Unit, name: Seq<char>, args: Seq<Expression>)
    ensures
        quiet(unit, unit.function_call(name, args)),
    decreases args, 1nat,
{
    lemma_arguments_quiet(unit, args);
    if let Ok((after, code)) = unit.arguments(args) {
        lemma_call_quiet(after, name, args.len());
        lemma_preceded_quiet(code, unit, after, after.call(name, args.len()));
    }
}

/// What is quiet is tidy.
pub proof fn lemma_quiet_tidy(from: Unit, lowered: Lowered)
    requires
        quiet(from, lowered),
    ensures
        lowered_tidy(from, lowered),
{
    if let Ok((to, code)) = lowered {
        lemma_label_free_tidy(code, |tag: Tag| fresh(tag, from, to));
    }
}

/// Tidy code between code without labels is tidy.
pub proof fn lemma_tidy_surround(
    before: Seq<Ir>,
    code: Seq<Ir>,
    after: Seq<Ir>,
    allowed: spec_fn(Tag) -> bool,
)
    requires
        label_free(before),
        label_free(after),
        tidy_by(code, allowed),
    ensures
        tidy_by(before + code + after, allowed),
{
    let none = |tag: Tag| false;
    lemma_label_free_tidy(before, none);
    lemma_label_free_tidy(after, none);
    lemma_tidy_join(before, code, none, allowed, allowed);
    lemma_tidy_join(before + code, after, allowed, none, allowed);
}

/// The labels that the branches of conditional `k` from branch `i` on may
/// define: those that are fresh, and those of the branches themselves.
pub open spec fn branch_allowed(k: nat, i: nat, from: Unit, to: Unit) -> spec_fn(Tag) -> bool {
    |tag: Tag| fresh(tag, from, to) || (tag matches Tag::Branch(a, b) && a == k && b >= i)
}

/// The code of a statement is tidy.
pub proof fn lemma_statement_tidy(unit: Unit, scope: nat, s: Statement)
    ensures
        lowered_tidy(unit, unit.statement(scope, s)),
    decreases statement_size(s), 0nat,
{
    match s {
        Statement::Assignment { identifier, expression } => {
            lemma_expression_quiet(unit, expression);
            if let Ok((after, code)) = unit.expression(expression) {
                let store = seq![
                    Ir::Inst(
                        Instruction::Store {
                            address: interned_id(after.variables, identifier.text()) as usize,
                        },
                    ),
                ];
                lemma_label_free_add(code, store);
                assert(code.push(store[0]) =~= code + store);
                lemma_label_free_tidy(
                    code + store,
                    |tag: Tag| fresh(tag, unit, after.with_variable(identifier.text())),
                );
            }
        },
        Statement::Reassignment { identifier, expression } => {
            lemma_expression_quiet(unit, expression);
            if let Ok((after, code)) = unit.expression(expression) {
                let store = seq![
                    Ir::Inst(
                        Instruction::Store {
                            address: interned_id(after.variables, identifier.text()) as usize,
                        },
                    ),
                ];
                lemma_label_free_add(code, store);
                assert(code.push(store[0]) =~= code + store);
                lemma_label_free_tidy(
                    code + store,
                    |tag: Tag| fresh(tag, unit, after.with_variable(identifier.text())),
                );
            }
        },
        Statement::FunctionCall { func_name, args } => {
            lemma_function_call_quiet(unit, func_name.text(), args@);
            lemma_quiet_tidy(unit, unit.function_call(func_name.text(), args@));
        },
        Statement::FunctionDeclaration { func_name, args, body } => {
            lemma_function_declaration_tidy(
                unit,
                scope,
                func_name.text(),
                Seq::new(args@.len(), |i: int| args@[i].text()),
                body@,
            );
        },
        Statement::Conditional { body, else_body } => {
            lemma_conditional_tidy(unit, scope, body@, else_body);
        },
        Statement::WhileLoop { condition, body } => {
            lemma_while_loop_tidy(unit, condition, body@);
        },
        Statement::Return(e) => {
            lemma_expression_quiet(unit, e);
            lemma_quiet_tidy(unit, unit.expression(e));
            lemma_followed_tidy(unit, unit.expression(e), seq![Ir::Inst(Instruction::Ret)]);
        },
        Statement::Break => {
            lemma_label_free_tidy(
                seq![Ir::Jump(end_while_label(scope))],
                |tag: Tag| fresh(tag, unit, unit),
            );
        },
        Statement::Continue => {
            lemma_label_free_tidy(
                seq![Ir::Jump(while_label(scope))],
                |tag: Tag| fresh(tag, unit, unit),
            );
        },
        Statement::EOI => {
            lemma_label_free_tidy(Seq::<Ir>::empty(), |tag: Tag| fresh(tag, unit, unit));
        },
        Statement::Comment(_) => {
            lemma_label_free_tidy(Seq::<Ir>::empty(), |tag: Tag| fresh(tag, unit, unit));
        },
    }
}

/// The code of a sequence of statements is tidy.
pub proof fn lemma_block_tidy(unit: Unit, scope: nat, body: Seq<Statement>)
    ensures
        lowered_tidy(unit, unit.block(scope, body)),
    decreases statements_size(body), 1nat,
{
    if body.len() > 0 {
        lemma_statement_tidy(unit, scope, body.first());
        if let Ok((after, code)) = unit.statement(scope, body.first()) {
            lemma_block_tidy(after, scope, body.drop_first());
            lemma_preceded_tidy(code, unit, after, after.block(scope, body.drop_first()));
        }
    } else {
        lemma_label_free_tidy(Seq::<Ir>::empty(), |tag: Tag| fresh(tag, unit, unit));
    }
}

/// The code of a function declaration is tidy.
pub proof fn lemma_function_declaration_tidy(
    unit: Unit,
    scope: nat,
    name: Seq<char>,
    params: Seq<Seq<char>>,
    body: Seq<Statement>,
)
    ensures
        lowered_tidy(unit, unit.function_declaration(scope, name, params, body)),
    decreases statements_size(body), 2nat,
{
    let declared = Unit { func_args: unit.func_args.insert(name, params), ..unit };
    lemma_block_tidy(declared, scope, body);
    if let Ok((to, code)) = declared.block(scope, body) {
        let allowed = |tag: Tag| fresh(tag, unit, to);
        let own = |tag: Tag| tag == Tag::Function(name);
        lemma_tidy_label(Tag::Function(name), own);
        lemma_tidy_wider(code, |tag: Tag| fresh(tag, declared, to), allowed);
        lemma_tidy_join(seq![Ir::Label(function_label(name))], code, own, allowed, allowed);
    }
}

/// The code of a while loop is tidy.
pub proof fn lemma_while_loop_tidy(unit: Unit, condition: Expression, body: Seq<Statement>)
    ensures
        lowered_tidy(unit, unit.while_loop(condition, body)),
    decreases statements_size(body), 2nat,
{
    if unit.whiles < usize::MAX {
        let k = unit.whiles;
        let counted = Unit { whiles: k + 1, ..unit };
        lemma_expression_quiet(counted, condition);
        if let Ok((tested, test)) = counted.expression(condition) {
            lemma_block_tidy(tested, k, body);
            if let Ok((to, inner)) = tested.block(k, body) {
                let allowed = |tag: Tag| fresh(tag, unit, to);
                let head = seq![Ir::Label(while_label(k))];
                let jump = seq![Ir::JumpIfFalse(end_while_label(k))];
                let back = seq![Ir::Jump(while_label(k))];
                let end = seq![Ir::Label(end_while_label(k))];
                let is_head = |tag: Tag| tag == Tag::While(k);
                let is_end = |tag: Tag| tag == Tag::EndWhile(k);
                let inside = |tag: Tag| fresh(tag, tested, to);
                let upto = |tag: Tag| tag == Tag::While(k) || fresh(tag, tested, to);
                lemma_tidy_label(Tag::While(k), is_head);
                lemma_tidy_label(Tag::EndWhile(k), is_end);
                lemma_label_free_add(test, jump);
                lemma_tidy_surround(test + jump, inner, back, inside);
                lemma_tidy_join(head, test + jump + inner + back, is_head, inside, upto);
                lemma_tidy_join(head + (test + jump + inner + back), end, upto, is_end, allowed);
                assert(head + test + jump + (inner + (back + end)) =~= head + (test + jump + inner
                    + back) + end);
                assert(seq![Ir::Jump(while_label(k)), Ir::Label(end_while_label(k))] =~= back
                    + end);
            }
        }
    }
}

/// The code of the branches of a conditional is tidy, its own labels
/// included.
pub proof fn lemma_branches_tidy(
    unit: Unit,
    scope: nat,
    k: nat,
    i: nat,
    rest: Seq<(Expression, Vec<Statement>)>,
)
    requires
        k < unit.conditionals,
    ensures
        unit.branches(scope, k, i, rest) matches Ok((to, code)) ==> onward(unit, to) && tidy_by(
            code,
            branch_allowed(k, i, unit, to),
        ),
    decreases branches_size(rest), 1nat,
{
    if rest.len() == 0 {
        lemma_label_free_tidy(Seq::<Ir>::empty(), branch_allowed(k, i, unit, unit));
    } else {
        lemma_expression_quiet(unit, rest.first().0);
        if let Ok((tested, test)) = unit.expression(rest.first().0) {
            lemma_block_tidy(tested, scope, rest.first().1@);
            if let Ok((after, body)) = tested.block(scope, rest.first().1@) {
                lemma_branches_tidy(after, scope, k, i + 1, rest.drop_first());
                if let Ok((to, tail)) = after.branches(scope, k, i + 1, rest.drop_first()) {
                    let jump = seq![Ir::JumpIfFalse(branch_label(k, i))];
                    let out = seq![Ir::Jump(end_label(k))];
                    let label = seq![Ir::Label(branch_label(k, i))];
                    let inside = |tag: Tag| fresh(tag, tested, after);
                    let own = |tag: Tag| tag == Tag::Branch(k, i);
                    let block = |tag: Tag| fresh(tag, tested, after) || tag == Tag::Branch(k, i);
                    lemma_label_free_add(test, jump);
                    lemma_tidy_surround(test + jump, body, out, inside);
                    lemma_tidy_label(Tag::Branch(k, i), own);
                    lemma_tidy_join(test + jump + body + out, label, inside, own, block);
                    lemma_tidy_join(
                        test + jump + body + out + label,
                        tail,
                        block,
                        branch_allowed(k, i + 1, after, to),
                        branch_allowed(k, i, unit, to),
                    );
                    assert(test + jump + body + seq![
                        Ir::Jump(end_label(k)),
                        Ir::Label(branch_label(k, i)),
                    ] =~= test + jump + body + out + label);
                }
            }
        }
    }
}

/// Tidy code without the entry before its last is tidy.
pub proof fn lemma_tidy_without_jump(code: Seq<Ir>, allowed: spec_fn(Tag) -> bool)
    requires
        tidy_by(code, allowed),
        code.len() >= 2,
    ensures
        tidy_by(code.take(code.len() - 2).push(code.last()), allowed),
{
    let kept = code.take(code.len() - 2).push(code.last());
    let place = |p: int|
        if p < code.len() - 2 {
            p
        } else {
            code.len() - 1
        };
    assert forall|p: int| 0 <= p < kept.len() implies kept[p] == code[place(p)] by {}
    assert forall|p: int| 0 <= p < kept.len() && (#[trigger] kept[p]) is Label implies exists|
        tag: Tag,
    |
        #[trigger] tag.name() == kept[p]->Label_0 && allowed(tag) by {
        assert(kept[p] == code[place(p)]);
        let tag = choose|tag: Tag|
            #[trigger] tag.name() == code[place(p)]->Label_0 && allowed(tag);
        assert(tag.name() == kept[p]->Label_0 && allowed(tag));
    }
    assert forall|tag: Tag| tag.single() implies once(kept, #[trigger] tag.name()) by {
        assert(once(code, tag.name()));
        assert forall|p: int, q: int|
            0 <= p < kept.len() && 0 <= q < kept.len() && #[trigger] kept[p] == Ir::Label(
                tag.name(),
            ) && #[trigger] kept[q] == Ir::Label(tag.name()) implies p == q by {
            assert(kept[p] == code[place(p)]);
            assert(kept[q] == code[place(q)]);
            assert(place(p) == place(q));
        }
    }
}

/// The code of a conditional is tidy.
pub proof fn lemma_conditional_tidy(
    unit: Unit,
    scope: nat,
    bodies: Seq<(Expression, Vec<Statement>)>,
    else_body: Option<Vec<Statement>>,
)
    ensures
        lowered_tidy(unit, unit.conditional(scope, bodies, else_body)),
    decreases branches_size(bodies) + else_size(else_body), 2nat,
{
    if unit.conditionals < usize::MAX {
        let k = unit.conditionals;
        let counted = Unit { conditionals: k + 1, ..unit };
        lemma_branches_tidy(counted, scope, k, 0, bodies);
        if let Ok((after, code)) = counted.branches(scope, k, 0, bodies) {
            let end = seq![Ir::Label(end_label(k))];
            let is_end = |tag: Tag| tag == Tag::End(k);
            let upto = |tag: Tag| fresh(tag, unit, after) && tag != Tag::End(k);
            lemma_tidy_label(Tag::End(k), is_end);
            lemma_tidy_wider(code, branch_allowed(k, 0, counted, after), upto);
            match else_body {
                Some(otherwise) => {
                    lemma_block_tidy(after, scope, otherwise@);
                    if let Ok((to, rest)) = after.block(scope, otherwise@) {
                        let allowed = |tag: Tag| fresh(tag, unit, to);
                        let mid = |tag: Tag| fresh(tag, unit, to) && tag != Tag::End(k);
                        lemma_tidy_join(code, rest, upto, |tag: Tag| fresh(tag, after, to), mid);
                        lemma_tidy_join(code + rest, end, mid, is_end, allowed);
                        assert(code + (rest + end) =~= code + rest + end);
                    }
                },
                None => {
                    if bodies.len() > 0 {
                        crate::bincompiler::laws::lemma_branches_layout(
                            counted,
                            scope,
                            k,
                            0,
                            bodies,
                            0,
                        );
                        let kept = code.take(code.len() - 2).push(code.last());
                        lemma_tidy_without_jump(code, upto);
                        lemma_tidy_join(kept, end, upto, is_end, |tag: Tag| fresh(tag, unit, after));
                        assert(kept.push(end[0]) =~= kept + end);
                    }
                },
            }
        }
    }
}

/// Whether a label with this tag may be defined by a program that is
/// translated between the states `from` and `to`: its start, or a label that
/// is fresh between them.
pub open spec fn of_program(tag: Tag, from: Unit, to: Unit) -> bool {
    tag == Tag::Start || fresh(tag, from, to)
}

/// The code of a program is tidy: every label but those of functions is
/// defined at most once.
pub proof fn lemma_program_tidy(unit: Unit, statements: Seq<Statement>, functions: Seq<Statement>)
    ensures
        unit.program(statements, functions) matches Ok((to, code)) ==> tidy_by(
            code,
            |tag: Tag| of_program(tag, unit, to),
        ),
{
    lemma_block_tidy(unit, 0, functions);
    if let Ok((declared, code)) = unit.block(0, functions) {
        lemma_block_tidy(declared, 0, statements);
        if let Ok((to, main)) = declared.block(0, statements) {
            let head = seq![Ir::Jump(start_label())];
            let label = seq![Ir::Label(start_label())];
            let last = seq![Ir::Inst(Instruction::Nop)];
            let early = |tag: Tag| fresh(tag, unit, declared);
            let late = |tag: Tag| fresh(tag, declared, to);
            let start = |tag: Tag| tag == Tag::Start;
            let begun = |tag: Tag| of_program(tag, unit, declared);
            let allowed = |tag: Tag| of_program(tag, unit, to);
            lemma_tidy_label(Tag::Start, start);
            lemma_tidy_surround(head, code, Seq::<Ir>::empty(), early);
            assert(head + code + Seq::<Ir>::empty() =~= head + code);
            lemma_tidy_join(head + code, label, early, start, begun);
            lemma_tidy_surround(Seq::<Ir>::empty(), main, last, late);
            assert(Seq::<Ir>::empty() + main + last =~= main + last);
            lemma_tidy_join(head + code + label, main + last, begun, late, allowed);
        }
    }
}

} // verus!
