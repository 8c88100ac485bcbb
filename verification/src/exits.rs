//! Where a `break` leads.

use crate::ast::{Block, Expr, Span};
use crate::bytecode::{Instr, Label};
use crate::growth::extends;
use crate::progress::{advances, law_translation_adds};
use crate::shapes::law_while;
use crate::translation::{translate, translate_all, GenState, Scope};
use vstd::prelude::*;

verus! {

/// A `break` occurs in the expression that leaves it: one in a block of it, or in the block
/// behind the condition of an `if` of it.
pub open spec fn leaves(expr: Expr) -> bool
    decreases expr,
{
    match expr {
        Expr::Break(_) => true,
        Expr::Block(block) => exists|i: int|
            #![trigger block.exprs@[i]]
            0 <= i < block.exprs@.len() && leaves(block.exprs@[i]),
        Expr::If(_, then, _, _) => exists|i: int|
            #![trigger then.exprs@[i]]
            0 <= i < then.exprs@.len() && leaves(then.exprs@[i]),
        _ => false,
    }
}

proof fn lemma_exit_unused(
    scope: Scope,
    exprs: Seq<Expr>,
    n: nat,
    exit: Option<Label>,
    other: Option<Label>,
    st: GenState,
)
    requires
        n <= exprs.len(),
        forall|i: int| #![trigger exprs[i]] 0 <= i < exprs.len() ==> !leaves(exprs[i]),
    ensures
        translate_all(scope, exprs, n, exit, st) == translate_all(scope, exprs, n, other, st),
    decreases exprs, n,
{
    if n > 0 {
        lemma_exit_unused(scope, exprs, (n - 1) as nat, exit, other, st);
        if let Some(s1) = translate_all(scope, exprs, (n - 1) as nat, exit, st) {
            assert(!leaves(exprs[n - 1]));
            law_exit_unused(scope, exprs[n - 1], exit, other, s1);
        }
    }
}

/// An expression that no `break` leaves has the same code whatever it stands in. In
/// particular, a `while` has.
pub proof fn law_exit_unused(
    scope: Scope,
    expr: Expr,
    exit: Option<Label>,
    other: Option<Label>,
    st: GenState,
)
    requires
        !leaves(expr),
    ensures
        translate(scope, expr, exit, st) == translate(scope, expr, other, st),
    decreases expr, 0nat,
{
    match expr {
        Expr::Block(block) => {
            let exprs = block.exprs@;
            assert forall|i: int| #![trigger exprs[i]] 0 <= i < exprs.len() implies !leaves(
                exprs[i],
            ) by {
                assert(block.exprs@[i] == exprs[i]);
            }
            lemma_exit_unused(scope, exprs, exprs.len(), exit, other, st);
        },
        Expr::If(condition, then, otherwise, _) => {
            let exprs = then.exprs@;
            assert forall|i: int| #![trigger exprs[i]] 0 <= i < exprs.len() implies !leaves(
                exprs[i],
            ) by {
                assert(then.exprs@[i] == exprs[i]);
            }
            if let Some((l, s1)) = st.new_label() {
                let s2 = s1.emit(Instr::JumpIfFalse(l));
                if let Some(s3) = translate(scope, *condition, None, s2) {
                    lemma_exit_unused(scope, exprs, exprs.len(), exit, other, s3);
                }
            }
        },
        _ => {},
    }
}

proof fn lemma_break_needs_exit(scope: Scope, exprs: Seq<Expr>, n: nat, i: int, st: GenState)
    requires
        0 <= i < n <= exprs.len(),
        leaves(exprs[i]),
    ensures
        translate_all(scope, exprs, n, None, st) is None,
    decreases exprs, n,
{
    if i < n - 1 {
        lemma_break_needs_exit(scope, exprs, (n - 1) as nat, i, st);
    } else if let Some(s1) = translate_all(scope, exprs, (n - 1) as nat, None, st) {
        law_break_needs_exit(scope, exprs[i], s1);
    }
}

/// An expression that a `break` leaves has no code where there is nothing to leave.
pub proof fn law_break_needs_exit(scope: Scope, expr: Expr, st: GenState)
    requires
        leaves(expr),
    ensures
        translate(scope, expr, None, st) is None,
    decreases expr, 0nat,
{
    match expr {
        Expr::Block(block) => {
            let i = choose|i: int|
                #![trigger block.exprs@[i]]
                0 <= i < block.exprs@.len() && leaves(block.exprs@[i]);
            lemma_break_needs_exit(scope, block.exprs@, block.exprs@.len(), i, st);
        },
        Expr::If(condition, then, otherwise, _) => {
            let i = choose|i: int|
                #![trigger then.exprs@[i]]
                0 <= i < then.exprs@.len() && leaves(then.exprs@[i]);
            if let Some((l, s1)) = st.new_label() {
                let s2 = s1.emit(Instr::JumpIfFalse(l));
                if let Some(s3) = translate(scope, *condition, None, s2) {
                    lemma_break_needs_exit(scope, then.exprs@, then.exprs@.len(), i, s3);
                }
            }
        },
        _ => {},
    }
}

/// A jump to `label` stands in `code` at or after instruction `from`.
pub open spec fn jumps_to(code: Seq<Instr<Label>>, from: int, label: Label) -> bool {
    exists|k: int| from <= k < code.len() && #[trigger] code[k] == Instr::Jump(label)
}

proof fn lemma_jump_stays(
    scope: Scope,
    expr: Expr,
    exit: Option<Label>,
    st: GenState,
    from: int,
    label: Label,
)
    requires
        jumps_to(st.code, from, label),
        0 <= from,
    ensures
        translate(scope, expr, exit, st) matches Some(after) ==> jumps_to(after.code, from, label),
{
    law_translation_adds(scope, expr, exit, st);
    if let Some(after) = translate(scope, expr, exit, st) {
        assert(extends(st.code, after.code)) by {
            reveal(advances);
        }
        let k = choose|k: int|
            from <= k < st.code.len() && #[trigger] st.code[k] == Instr::Jump(label);
        assert(after.code[k] == Instr::Jump(label));
    }
}

proof fn lemma_breaks_lead_to_exit(
    scope: Scope,
    exprs: Seq<Expr>,
    n: nat,
    i: int,
    exit: Label,
    st: GenState,
)
    requires
        0 <= i < n <= exprs.len(),
        leaves(exprs[i]),
    ensures
        translate_all(scope, exprs, n, Some(exit), st) matches Some(after) ==> jumps_to(
            after.code,
            st.code.len() as int,
            exit,
        ),
    decreases exprs, n,
{
    let m = (n - 1) as nat;
    if let Some(s1) = translate_all(scope, exprs, m, Some(exit), st) {
        if i < n - 1 {
            lemma_breaks_lead_to_exit(scope, exprs, m, i, exit, st);
            let from = st.code.len() as int;
            lemma_jump_stays(scope, exprs[n - 1], Some(exit), s1, from, exit);
        } else {
            law_breaks_lead_to_exit(scope, exprs[i], exit, s1);
            lemma_all_add(scope, exprs, m, Some(exit), st);
            if let Some(after) = translate(scope, exprs[i], Some(exit), s1) {
                let k = choose|k: int|
                    s1.code.len() <= k < after.code.len() && #[trigger] after.code[k]
                        == Instr::Jump(exit);
                assert(after.code[k] == Instr::Jump(exit));
            }
        }
    }
}

proof fn lemma_all_add(
    scope: Scope,
    exprs: Seq<Expr>,
    n: nat,
    exit: Option<Label>,
    st: GenState,
)
    ensures
        translate_all(scope, exprs, n, exit, st) matches Some(after) ==> extends(
            st.code,
            after.code,
        ),
    decreases n,
{
    if 0 < n <= exprs.len() {
        lemma_all_add(scope, exprs, (n - 1) as nat, exit, st);
        if let Some(s1) = translate_all(scope, exprs, (n - 1) as nat, exit, st) {
            law_translation_adds(scope, exprs[n - 1], exit, s1);
            reveal(advances);
        }
    }
}

/// Where a `break` leaves an expression, the code of the expression has a jump to what it
/// leaves for.
pub proof fn law_breaks_lead_to_exit(scope: Scope, expr: Expr, exit: Label, st: GenState)
    requires
        leaves(expr),
    ensures
        translate(scope, expr, Some(exit), st) matches Some(after) ==> jumps_to(
            after.code,
            st.code.len() as int,
            exit,
        ),
    decreases expr, 0nat,
{
    if let Some(after) = translate(scope, expr, Some(exit), st) {
        match expr {
            Expr::Break(_) => {
                assert(after.code[st.code.len() as int] == Instr::Jump(exit));
            },
            Expr::Block(block) => {
                let i = choose|i: int|
                    #![trigger block.exprs@[i]]
                    0 <= i < block.exprs@.len() && leaves(block.exprs@[i]);
                lemma_breaks_lead_to_exit(
                    scope,
                    block.exprs@,
                    block.exprs@.len(),
                    i,
                    exit,
                    st,
                );
            },
            Expr::If(condition, then, otherwise, _) => {
                let i = choose|i: int|
                    #![trigger then.exprs@[i]]
                    0 <= i < then.exprs@.len() && leaves(then.exprs@[i]);
                let (l, s1) = st.new_label()->0;
                let s2 = s1.emit(Instr::JumpIfFalse(l));
                let s3 = translate(scope, *condition, None, s2)->0;
                let exprs = then.exprs@;
                lemma_breaks_lead_to_exit(scope, exprs, exprs.len(), i, exit, s3);
                let s4 = translate_all(scope, exprs, exprs.len(), Some(exit), s3)->0;
                law_translation_adds(scope, *condition, None, s2);
                assert(extends(s2.code, s3.code)) by {
                    reveal(advances);
                }
                let k = choose|k: int|
                    s3.code.len() <= k < s4.code.len() && #[trigger] s4.code[k] == Instr::Jump(
                        exit,
                    );
                if let Some(block) = otherwise {
                    let (m, s5) = s4.new_label()->0;
                    let s6 = s5.emit(Instr::Jump(m)).emit(Instr::Target(l));
                    let rest = block.exprs@;
                    lemma_all_add(scope, rest, rest.len(), Some(m), s6);
                    assert(s6.code[k] == Instr::Jump(exit));
                }
                assert(after.code[k] == Instr::Jump(exit));
            },
            _ => {},
        }
    }
}

/// The code of a `while` ends in the jump back and the place behind it. It begins with the
/// test, which leads to that place where it fails. Every `break` that leaves an expression
/// of the body is a jump to that place.
pub proof fn law_break_leaves_while(
    scope: Scope,
    condition: Expr,
    body: Block,
    span: Span,
    i: int,
    exit: Option<Label>,
    st: GenState,
)
    requires
        0 <= i < body.exprs@.len(),
        leaves(body.exprs@[i]),
    ensures
        translate(scope, Expr::While(Box::new(condition), body, span), exit, st) matches Some(
            after,
        ) ==> {
            let n = st.code.len() as int;
            let m = after.code.len() as int;
            &&& m >= n + 5
            &&& after.code[n] matches Instr::Target(again) && after.code[m - 2] == Instr::Jump(
                again,
            )
            &&& after.code[m - 1] matches Instr::Target(end) && {
                &&& after.code[n + 1] == Instr::JumpIfFalse(end)
                &&& jumps_to(after.code.take(m - 2), n + 2, end)
            }
        },
{
    if let Some(after) = translate(
        scope,
        Expr::While(Box::new(condition), body, span),
        exit,
        st,
    ) {
        law_while(scope, condition, body, span, exit, st);
        let end = Label { index: st.labels as usize };
        let again = Label { index: (st.labels + 1) as usize };
        let begun = GenState {
            code: st.code + seq![Instr::Target(again), Instr::JumpIfFalse(end)],
            labels: st.labels + 2,
            ..st
        };
        let tested = translate(scope, condition, None, begun)->0;
        let run = translate(scope, Expr::Block(body), Some(end), tested)->0;
        law_translation_adds(scope, condition, None, begun);
        law_translation_adds(scope, Expr::Block(body), Some(end), tested);
        assert(extends(begun.code, tested.code) && extends(tested.code, run.code)) by {
            reveal(advances);
        }
        law_breaks_lead_to_exit(scope, Expr::Block(body), end, tested);
        let m = after.code.len() as int;
        assert(after.code.take(m - 2) =~= run.code);
        let k = choose|k: int|
            tested.code.len() <= k < run.code.len() && #[trigger] run.code[k] == Instr::Jump(end);
        assert(run.code[k] == Instr::Jump(end));
        let n = st.code.len() as int;
        assert(begun.code[n] == Instr::<Label>::Target(again));
        assert(begun.code[n + 1] == Instr::<Label>::JumpIfFalse(end));
        assert(run.code[n] == begun.code[n]);
        assert(run.code[n + 1] == begun.code[n + 1]);
    }
}

} // verus!
