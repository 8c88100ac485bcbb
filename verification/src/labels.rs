//! Every label that code refers to is placed in that code, exactly once.

use crate::ast::{Callable, Expr, LambdaEnv, Member};
use crate::builders::commit_class;
use crate::bytecode::{labels_below, Instr, Intrinsic, Label};
use crate::growth::extends;
use crate::pool::{CName, Function, PoolIndex, PoolView};
use crate::translation::{
    captured_values, closure_outline, declare, enter, implement_summoner, lambda_base,
    lambda_captures, lambda_params, open_static_call, passed, prepare_lambda, read_local,
    ready_args, ready_call, start, translate, translate_all, translate_args, translate_intrinsic,
    translate_lambda, translate_static_call, translate_virtual_call, GenState, Scope,
};
use crate::type_cache::{alloc_type, CacheView};
use crate::types::{array_type, Type};
use vstd::prelude::*;

verus! {

/// The mark for label number `l` stands in `code` at or after instruction `from`.
pub open spec fn placed(code: Seq<Instr<Label>>, from: int, l: usize) -> bool {
    exists|k: int|
        from <= k < code.len() && #[trigger] code[k] == Instr::Target(Label { index: l })
}

/// The code that `after` adds to `before` refers only to labels that were given out in
/// between, or to `exit`. Each label that was given out in between is placed exactly once
/// in it, but for the `open` ones, which are not placed yet.
#[verifier::opaque]
pub open spec fn labelled(
    before: GenState,
    after: GenState,
    exit: Option<Label>,
    open: Set<usize>,
) -> bool {
    &&& before.labels <= after.labels <= usize::MAX
    &&& extends(before.code, after.code)
    &&& forall|k: int, i: int|
        #![trigger after.code[k].refs()[i]]
        before.code.len() <= k < after.code.len() && 0 <= i < after.code[k].refs().len() ==> {
            ||| before.labels <= after.code[k].refs()[i].index < after.labels
            ||| exit == Some(after.code[k].refs()[i])
        }
    &&& forall|k: int|
        #![trigger after.code[k]]
        before.code.len() <= k < after.code.len() ==> (after.code[k] matches Instr::Target(l) ==> {
            &&& before.labels <= l.index < after.labels
            &&& !open.contains(l.index)
        })
    &&& forall|j: int, k: int|
        #![trigger after.code[j], after.code[k]]
        before.code.len() <= j < k < after.code.len() && after.code[j] is Target ==> after.code[j]
            != after.code[k]
    &&& forall|l: usize|
        #![trigger placed(after.code, before.code.len() as int, l)]
        before.labels <= l < after.labels && !open.contains(l) ==> placed(
            after.code,
            before.code.len() as int,
            l,
        )
    &&& forall|l: usize| #[trigger] open.contains(l) ==> before.labels <= l < after.labels
}

/// Nothing was added.
proof fn lemma_same(st: GenState, exit: Option<Label>)
    requires
        st.labels <= usize::MAX,
    ensures
        labelled(st, st, exit, Set::empty()),
{
    reveal(labelled);
}

/// Only the pool or the locals changed.
proof fn lemma_same_code(
    before: GenState,
    mid: GenState,
    after: GenState,
    exit: Option<Label>,
    open: Set<usize>,
)
    requires
        labelled(before, mid, exit, open),
        mid.code == after.code,
        mid.labels == after.labels,
    ensures
        labelled(before, after, exit, open),
{
    reveal(labelled);
}

/// One more instruction whose labels are known.
proof fn lemma_emit(
    before: GenState,
    mid: GenState,
    instr: Instr<Label>,
    exit: Option<Label>,
    open: Set<usize>,
)
    requires
        labelled(before, mid, exit, open),
        !(instr is Target),
        forall|i: int|
            #![trigger instr.refs()[i]]
            0 <= i < instr.refs().len() ==> before.labels <= instr.refs()[i].index < mid.labels
                || exit == Some(instr.refs()[i]),
    ensures
        labelled(before, mid.emit(instr), exit, open),
{
    reveal(labelled);
    let after = mid.emit(instr);
    assert forall|k: int, i: int|
        #![trigger after.code[k].refs()[i]]
        before.code.len() <= k < after.code.len() && 0 <= i < after.code[k].refs().len() implies {
        ||| before.labels <= after.code[k].refs()[i].index < after.labels
        ||| exit == Some(after.code[k].refs()[i])
    } by {
        if k < mid.code.len() {
            assert(after.code[k] == mid.code[k]);
            assert(mid.code[k].refs()[i] == after.code[k].refs()[i]);
        } else {
            assert(after.code[k] == instr);
            assert(instr.refs()[i] == after.code[k].refs()[i]);
        }
    }
    assert forall|l: usize|
        #![trigger placed(after.code, before.code.len() as int, l)]
        before.labels <= l < after.labels && !open.contains(l) implies placed(
        after.code,
        before.code.len() as int,
        l,
    ) by {
        assert(placed(mid.code, before.code.len() as int, l));
        let k = choose|k: int|
            before.code.len() <= k < mid.code.len() && #[trigger] mid.code[k] == Instr::Target(
                Label { index: l },
            );
        assert(after.code[k] == Instr::Target(Label { index: l }));
    }
}

/// An open label is placed.
proof fn lemma_place(
    before: GenState,
    mid: GenState,
    label: Label,
    exit: Option<Label>,
    open: Set<usize>,
)
    requires
        labelled(before, mid, exit, open),
        open.contains(label.index),
    ensures
        labelled(before, mid.emit(Instr::Target(label)), exit, open.remove(label.index)),
        open =~= set![label.index] ==> labelled(
            before,
            mid.emit(Instr::Target(label)),
            exit,
            Set::empty(),
        ),
{
    if open =~= set![label.index] {
        assert(open.remove(label.index) =~= Set::empty());
    }
    reveal(labelled);
    let after = mid.emit(Instr::Target(label));
    let rest = open.remove(label.index);
    assert forall|k: int, i: int|
        #![trigger after.code[k].refs()[i]]
        before.code.len() <= k < after.code.len() && 0 <= i < after.code[k].refs().len() implies {
        ||| before.labels <= after.code[k].refs()[i].index < after.labels
        ||| exit == Some(after.code[k].refs()[i])
    } by {
        if k < mid.code.len() {
            assert(after.code[k] == mid.code[k]);
            assert(mid.code[k].refs()[i] == after.code[k].refs()[i]);
        }
    }
    assert forall|l: usize|
        #![trigger placed(after.code, before.code.len() as int, l)]
        before.labels <= l < after.labels && !rest.contains(l) implies placed(
        after.code,
        before.code.len() as int,
        l,
    ) by {
        if l == label.index {
            assert(after.code[mid.code.len() as int] == Instr::Target(Label { index: l }));
        } else {
            assert(placed(mid.code, before.code.len() as int, l));
            let k = choose|k: int|
                before.code.len() <= k < mid.code.len() && #[trigger] mid.code[k] == Instr::Target(
                    Label { index: l },
                );
            assert(after.code[k] == Instr::Target(Label { index: l }));
        }
    }
}

/// A label is given out, and is open.
proof fn lemma_fresh(before: GenState, mid: GenState, exit: Option<Label>, open: Set<usize>)
    requires
        labelled(before, mid, exit, open),
    ensures
        mid.new_label() matches Some((label, after)) ==> {
            &&& labelled(before, after, exit, open.insert(label.index))
            &&& before.labels <= label.index == mid.labels
            &&& after.labels == mid.labels + 1
            &&& !open.contains(label.index)
        },
{
    reveal(labelled);
    if let Some((label, after)) = mid.new_label() {
        assert forall|l: usize|
            #![trigger placed(after.code, before.code.len() as int, l)]
            before.labels <= l < after.labels && !open.insert(label.index).contains(l) implies placed(
            after.code,
            before.code.len() as int,
            l,
        ) by {
            assert(placed(mid.code, before.code.len() as int, l));
        }
    }
}

/// More code follows, which may leave for a label of the code before it.
proof fn lemma_then(
    before: GenState,
    mid: GenState,
    after: GenState,
    exit: Option<Label>,
    inner: Option<Label>,
    open: Set<usize>,
)
    requires
        labelled(before, mid, exit, open),
        labelled(mid, after, inner, Set::empty()),
        inner matches Some(l) ==> before.labels <= l.index < mid.labels || exit == inner,
    ensures
        labelled(before, after, exit, open),
        before.labels <= mid.labels <= after.labels,
{
    reveal(labelled);
    assert forall|k: int, i: int|
        #![trigger after.code[k].refs()[i]]
        before.code.len() <= k < after.code.len() && 0 <= i < after.code[k].refs().len() implies {
        ||| before.labels <= after.code[k].refs()[i].index < after.labels
        ||| exit == Some(after.code[k].refs()[i])
    } by {
        if k < mid.code.len() {
            assert(after.code[k] == mid.code[k]);
            assert(mid.code[k].refs()[i] == after.code[k].refs()[i]);
        }
    }
    assert forall|k: int|
        #![trigger after.code[k]]
        before.code.len() <= k < after.code.len() implies (after.code[k] matches Instr::Target(l)
        ==> {
        &&& before.labels <= l.index < after.labels
        &&& !open.contains(l.index)
    }) by {
        if k < mid.code.len() {
            assert(after.code[k] == mid.code[k]);
        }
    }
    assert forall|j: int, k: int|
        #![trigger after.code[j], after.code[k]]
        before.code.len() <= j < k < after.code.len() && after.code[j] is Target implies after.code[j]
        != after.code[k] by {
        if j < mid.code.len() {
            assert(after.code[j] == mid.code[j]);
            if k < mid.code.len() {
                assert(after.code[k] == mid.code[k]);
            }
        }
    }
    assert forall|l: usize|
        #![trigger placed(after.code, before.code.len() as int, l)]
        before.labels <= l < after.labels && !open.contains(l) implies placed(
        after.code,
        before.code.len() as int,
        l,
    ) by {
        if l < mid.labels {
            assert(placed(mid.code, before.code.len() as int, l));
            let k = choose|k: int|
                before.code.len() <= k < mid.code.len() && #[trigger] mid.code[k] == Instr::Target(
                    Label { index: l },
                );
            assert(after.code[k] == Instr::Target(Label { index: l }));
        } else {
            assert(placed(after.code, mid.code.len() as int, l));
            let k = choose|k: int|
                mid.code.len() <= k < after.code.len() && #[trigger] after.code[k]
                    == Instr::Target(Label { index: l });
            assert(after.code[k] == Instr::Target(Label { index: l }));
        }
    }
}

/// One more instruction without labels.
proof fn lemma_plain(
    before: GenState,
    mid: GenState,
    instr: Instr<Label>,
    exit: Option<Label>,
    open: Set<usize>,
)
    requires
        labelled(before, mid, exit, open),
        !(instr is Target),
        instr.refs().len() == 0,
    ensures
        labelled(before, mid.emit(instr), exit, open),
{
    lemma_emit(before, mid, instr, exit, open);
}

/// One more instruction with one label.
proof fn lemma_jump(
    before: GenState,
    mid: GenState,
    instr: Instr<Label>,
    label: Label,
    exit: Option<Label>,
    open: Set<usize>,
)
    requires
        labelled(before, mid, exit, open),
        !(instr is Target),
        instr.refs() == seq![label],
        before.labels <= label.index < mid.labels || exit == Some(label),
    ensures
        labelled(before, mid.emit(instr), exit, open),
{
    lemma_emit(before, mid, instr, exit, open);
}

proof fn lemma_ready_args(
    instrs: Seq<Instr<Label>>,
    flags: Seq<bool>,
    n: nat,
    before: GenState,
    st: GenState,
    open: Set<usize>,
)
    requires
        n <= instrs.len(),
        forall|i: int|
            0 <= i < instrs.len() ==> !((#[trigger] instrs[i]) is Target)
                && instrs[i].refs().len() == 0,
        labelled(before, st, None, open),
    ensures
        ready_args(instrs, flags, n, st) matches Some(after) ==> labelled(
            before,
            after,
            None,
            open,
        ),
    decreases n,
{
    if n > 0 {
        lemma_ready_args(instrs, flags, (n - 1) as nat, before, st, open);
        if let Some(s1) = ready_args(instrs, flags, (n - 1) as nat, st) {
            if flags[n - 1] {
                lemma_fresh(before, s1, None, open);
                if let Some((skip, s2)) = s1.new_label() {
                    let more = open.insert(skip.index);
                    let s3 = s2.emit(Instr::Skip(skip));
                    lemma_jump(before, s2, Instr::Skip(skip), skip, None, more);
                    let s4 = s3.emit(instrs[n - 1]);
                    lemma_plain(before, s3, instrs[n - 1], None, more);
                    lemma_place(before, s4, skip, None, more);
                    assert(more.remove(skip.index) =~= open);
                }
            } else {
                lemma_plain(before, s1, instrs[n - 1], None, open);
            }
        }
    }
}

proof fn lemma_open_static_call(index: PoolIndex<Function>, st: GenState)
    requires
        st.labels <= usize::MAX,
    ensures
        open_static_call(index, st) matches Some((exit, flags, after)) ==> labelled(
            st,
            after,
            None,
            set![exit.index],
        ),
{
    lemma_same(st, None);
    lemma_fresh(st, st, None, Set::empty());
    if let Some((exit, flags, after)) = open_static_call(index, st) {
        let s1 = (st.new_label()->0).1;
        lemma_jump(
            st,
            s1,
            Instr::InvokeStatic(exit, 0, index, 0),
            exit,
            None,
            set![exit.index],
        );
    }
}

proof fn lemma_close_call(before: GenState, st: GenState, exit: Label)
    requires
        labelled(before, st, None, set![exit.index]),
    ensures
        labelled(before, st.close_call(exit), None, Set::empty()),
{
    lemma_plain(before, st, Instr::ParamEnd, None, set![exit.index]);
    lemma_place(before, st.emit(Instr::ParamEnd), exit, None, set![exit.index]);
}

proof fn lemma_ready_call(index: PoolIndex<Function>, instrs: Seq<Instr<Label>>, st: GenState)
    requires
        forall|i: int|
            0 <= i < instrs.len() ==> !((#[trigger] instrs[i]) is Target)
                && instrs[i].refs().len() == 0,
        st.labels <= usize::MAX,
    ensures
        ready_call(index, instrs, st) matches Some(after) ==> labelled(
            st,
            after,
            None,
            Set::empty(),
        ),
{
    lemma_open_static_call(index, st);
    if let Some((exit, flags, s1)) = open_static_call(index, st) {
        let n = passed(instrs.len(), flags.len());
        lemma_ready_args(instrs, flags, n, st, s1, set![exit.index]);
        if let Some(s2) = ready_args(instrs, flags, n, s1) {
            lemma_close_call(st, s2, exit);
        }
    }
}

/// Code that never leaves for `exit` may be used where it could.
proof fn lemma_never_leaves(before: GenState, after: GenState, exit: Option<Label>)
    requires
        before.labels <= usize::MAX,
        labelled(before, after, None, Set::empty()),
    ensures
        labelled(before, after, exit, Set::empty()),
        before.labels <= after.labels <= usize::MAX,
{
    lemma_same(before, exit);
    lemma_then(before, before, after, exit, None, Set::empty());
    reveal(labelled);
}

/// See [`law_translation_labelled`].
proof fn lemma_translate_all(
    scope: Scope,
    exprs: Seq<Expr>,
    n: nat,
    exit: Option<Label>,
    st: GenState,
)
    requires
        st.labels <= usize::MAX,
    ensures
        translate_all(scope, exprs, n, exit, st) matches Some(after) ==> labelled(
            st,
            after,
            exit,
            Set::empty(),
        ),
    decreases exprs, n,
{
    lemma_same(st, exit);
    if 0 < n <= exprs.len() {
        lemma_translate_all(scope, exprs, (n - 1) as nat, exit, st);
        if let Some(s1) = translate_all(scope, exprs, (n - 1) as nat, exit, st) {
            lemma_bounds(st, s1, exit, Set::empty());
            law_translation_labelled(scope, exprs[n - 1], exit, s1);
            if let Some(s2) = translate(scope, exprs[n - 1], exit, s1) {
                lemma_then(st, s1, s2, exit, exit, Set::empty());
            }
        }
    }
}

proof fn lemma_bounds(before: GenState, after: GenState, exit: Option<Label>, open: Set<usize>)
    requires
        labelled(before, after, exit, open),
    ensures
        before.labels <= after.labels <= usize::MAX,
{
    reveal(labelled);
}

/// More code follows, which the translation of an expression gives.
proof fn lemma_then_translate(
    before: GenState,
    mid: GenState,
    scope: Scope,
    expr: Expr,
    inner: Option<Label>,
    exit: Option<Label>,
    open: Set<usize>,
)
    requires
        labelled(before, mid, exit, open),
        inner matches Some(l) ==> before.labels <= l.index < mid.labels || exit == inner,
    ensures
        translate(scope, expr, inner, mid) matches Some(after) ==> {
            &&& labelled(before, after, exit, open)
            &&& before.labels <= mid.labels <= after.labels
        },
    decreases expr, 2nat,
{
    lemma_bounds(before, mid, exit, open);
    law_translation_labelled(scope, expr, inner, mid);
    if let Some(after) = translate(scope, expr, inner, mid) {
        lemma_then(before, mid, after, exit, inner, open);
    }
}

/// More code follows, which the translation of several expressions gives.
proof fn lemma_then_translate_all(
    before: GenState,
    mid: GenState,
    scope: Scope,
    exprs: Seq<Expr>,
    inner: Option<Label>,
    exit: Option<Label>,
    open: Set<usize>,
)
    requires
        labelled(before, mid, exit, open),
        inner matches Some(l) ==> before.labels <= l.index < mid.labels || exit == inner,
    ensures
        translate_all(scope, exprs, exprs.len(), inner, mid) matches Some(after) ==> {
            &&& labelled(before, after, exit, open)
            &&& before.labels <= mid.labels <= after.labels
        },
    decreases exprs, exprs.len() + 1,
{
    lemma_bounds(before, mid, exit, open);
    lemma_translate_all(scope, exprs, exprs.len(), inner, mid);
    if let Some(after) = translate_all(scope, exprs, exprs.len(), inner, mid) {
        lemma_then(before, mid, after, exit, inner, open);
    }
}

/// See [`law_translation_labelled`].
proof fn lemma_translate_args(
    scope: Scope,
    args: Seq<Expr>,
    flags: Seq<bool>,
    n: nat,
    before: GenState,
    st: GenState,
    open: Set<usize>,
)
    requires
        labelled(before, st, None, open),
    ensures
        translate_args(scope, args, flags, n, st) matches Some(after) ==> labelled(
            before,
            after,
            None,
            open,
        ),
    decreases args, n,
{
    if 0 < n <= args.len() {
        lemma_translate_args(scope, args, flags, (n - 1) as nat, before, st, open);
        if let Some(s1) = translate_args(scope, args, flags, (n - 1) as nat, st) {
            if flags[n - 1] {
                lemma_fresh(before, s1, None, open);
                if let Some((skip, s2)) = s1.new_label() {
                    let more = open.insert(skip.index);
                    let s3 = s2.emit(Instr::Skip(skip));
                    lemma_jump(before, s2, Instr::Skip(skip), skip, None, more);
                    lemma_then_translate(before, s3, scope, args[n - 1], None, None, more);
                    if let Some(s4) = translate(scope, args[n - 1], None, s3) {
                        lemma_place(before, s4, skip, None, more);
                        assert(more.remove(skip.index) =~= open);
                    }
                }
            } else {
                lemma_then_translate(before, s1, scope, args[n - 1], None, None, open);
            }
        }
    }
}

/// See [`law_translation_labelled`].
proof fn lemma_translate_static_call(
    scope: Scope,
    index: PoolIndex<Function>,
    args: Seq<Expr>,
    st: GenState,
)
    requires
        st.labels <= usize::MAX,
    ensures
        translate_static_call(scope, index, args, st) matches Some(after) ==> labelled(
            st,
            after,
            None,
            Set::empty(),
        ),
    decreases args, args.len() + 1,
{
    lemma_open_static_call(index, st);
    if let Some((exit, flags, s1)) = open_static_call(index, st) {
        let n = passed(args.len(), flags.len());
        lemma_translate_args(scope, args, flags, n, st, s1, set![exit.index]);
        if let Some(s2) = translate_args(scope, args, flags, n, s1) {
            lemma_close_call(st, s2, exit);
        }
    }
}

/// See [`law_translation_labelled`].
proof fn lemma_translate_virtual_call(
    scope: Scope,
    name: PoolIndex<CName>,
    args: Seq<Expr>,
    st: GenState,
)
    requires
        st.labels <= usize::MAX,
    ensures
        translate_virtual_call(scope, name, args, st) matches Some(after) ==> labelled(
            st,
            after,
            None,
            Set::empty(),
        ),
    decreases args, args.len() + 2,
{
    lemma_same(st, None);
    lemma_fresh(st, st, None, Set::empty());
    if let Some((exit, s1)) = st.new_label() {
        let s2 = s1.emit(Instr::InvokeVirtual(exit, 0, name, 0));
        lemma_jump(
            st,
            s1,
            Instr::InvokeVirtual(exit, 0, name, 0),
            exit,
            None,
            set![exit.index],
        );
        lemma_then_translate_all(st, s2, scope, args, None, None, set![exit.index]);
        if let Some(s3) = translate_all(scope, args, args.len(), None, s2) {
            lemma_close_call(st, s3, exit);
        }
    }
}

/// See [`law_translation_labelled`].
proof fn lemma_translate_call(scope: Scope, expr: Expr, exit: Option<Label>, st: GenState)
    requires
        st.labels <= usize::MAX,
        expr is Call,
    ensures
        translate(scope, expr, exit, st) matches Some(after) ==> labelled(
            st,
            after,
            exit,
            Set::empty(),
        ),
    decreases expr, 0nat,
{
    if let Expr::Call(object, callable, type_args, args, meta, _) = expr {
        let end = translate(scope, expr, exit, st);
        if end is Some {
            match callable {
                Callable::Static(id) => {
                    let index = scope.db.static_entry(id)->0;
                    lemma_translate_static_call(scope, index, args@, st);
                    lemma_never_leaves(st, end->0, exit);
                },
                Callable::Global(id) => {
                    let index = scope.db.global_entry(id)->0;
                    lemma_translate_static_call(scope, index, args@, st);
                    lemma_never_leaves(st, end->0, exit);
                },
                Callable::Cast => {
                    let id = scope.repo.cast(meta.arg_types@[0]@, meta.ret_type@)->0;
                    let index = scope.db.global_entry(id)->0;
                    lemma_translate_static_call(scope, index, args@, st);
                    lemma_never_leaves(st, end->0, exit);
                },
                Callable::Intrinsic(op) => {
                    let s1 = translate_intrinsic(scope, op, type_args@, st)->0;
                    lemma_intrinsic(scope, op, type_args@, st, exit);
                    lemma_then_translate_all(st, s1, scope, args@, None, exit, Set::empty());
                },
                Callable::Instance(id) => {
                    let index = scope.db.method_entry(id)->0;
                    let name = (st.pool.definition(index.index)->0).name;
                    let function = st.pool.function(index)->0;
                    lemma_same(st, exit);
                    lemma_fresh(st, st, exit, Set::empty());
                    let (l, s1) = st.new_label()->0;
                    let open = Set::<usize>::empty().insert(l.index);
                    lemma_jump(st, s1, Instr::Context(l), l, exit, open);
                    let s2 = s1.emit(Instr::Context(l));
                    lemma_then_translate(st, s2, scope, *object, None, exit, open);
                    let s3 = translate(scope, *object, None, s2)->0;
                    lemma_bounds(st, s3, exit, open);
                    let s4 = if function.flags.is_final {
                        lemma_translate_static_call(scope, index, args@, s3);
                        translate_static_call(scope, index, args@, s3)->0
                    } else {
                        lemma_translate_virtual_call(scope, name, args@, s3);
                        translate_virtual_call(scope, name, args@, s3)->0
                    };
                    lemma_then(st, s3, s4, exit, None, open);
                    lemma_place(st, s4, l, exit, open);
                },
                Callable::Lambda => {
                    lemma_same(st, exit);
                    lemma_fresh(st, st, exit, Set::empty());
                    let (l, s1) = st.new_label()->0;
                    let open = Set::<usize>::empty().insert(l.index);
                    lemma_jump(st, s1, Instr::Context(l), l, exit, open);
                    let s2 = s1.emit(Instr::Context(l));
                    lemma_then_translate(st, s2, scope, *object, None, exit, open);
                    let s3 = translate(scope, *object, None, s2)->0;
                    let (pool, name) = s3.pool.with_name("Apply"@);
                    let s4 = GenState { pool, ..s3 };
                    lemma_same_code(st, s3, s4, exit, open);
                    lemma_bounds(st, s4, exit, open);
                    lemma_translate_virtual_call(scope, name, args@, s4);
                    let s5 = translate_virtual_call(scope, name, args@, s4)->0;
                    lemma_then(st, s4, s5, exit, None, open);
                    lemma_place(st, s5, l, exit, open);
                },
            }
        }
    }
}

proof fn lemma_intrinsic(
    scope: Scope,
    op: Intrinsic,
    type_args: Seq<Type>,
    st: GenState,
    exit: Option<Label>,
)
    requires
        st.labels <= usize::MAX,
    ensures
        translate_intrinsic(scope, op, type_args, st) matches Some(after) ==> labelled(
            st,
            after,
            exit,
            Set::empty(),
        ),
{
    lemma_same(st, exit);
    if let Some(after) = translate_intrinsic(scope, op, type_args, st) {
        let mid = GenState { pool: after.pool, cache: after.cache, ..st };
        let instr = after.code.last();
        lemma_same_code(st, st, mid, exit, Set::empty());
        lemma_plain(st, mid, instr, exit, Set::empty());
        assert(after =~= mid.emit(instr));
    }
}

proof fn lemma_prepare_lambda(scope: Scope, env: LambdaEnv, st: GenState)
    requires
        st.labels <= usize::MAX,
    ensures
        prepare_lambda(scope, env, st) matches Some((_, _, after)) ==> labelled(
            st,
            after,
            None,
            Set::empty(),
        ),
{
    if let Some((_, _, after)) = prepare_lambda(scope, env, st) {
        let args = captured_values(scope, st.locals, env.captures@)->0;
        assert forall|i: int| 0 <= i < args.len() implies !((#[trigger] args[i]) is Target)
            && args[i].refs().len() == 0 by {
            assert(read_local(scope, st.locals, env.captures@[i].1.1) is Some);
        }
        let params = lambda_params(env);
        let captures = lambda_captures(env);
        let class = commit_class(
            closure_outline(params, captures, st.pool.definitions.len()),
            lambda_base(scope, params.len())->0,
            scope.repo,
            st.pool,
            st.cache,
        )->0;
        let summoner = (class.pool.class(class.index)->0).methods[0];
        let pool = implement_summoner(class.index, summoner, class.pool)->0;
        let s1 = GenState { pool, cache: class.cache, ..st };
        lemma_same(st, None);
        lemma_same_code(st, st, s1, None, Set::empty());
        lemma_ready_call(summoner, args, s1);
        lemma_then(st, s1, after, None, None, Set::empty());
    }
}

/// See [`law_translation_labelled`].
proof fn lemma_translate_lambda(scope: Scope, env: LambdaEnv, body: Expr, st: GenState)
    requires
        st.labels <= usize::MAX,
    ensures
        translate_lambda(scope, env, body, st) matches Some(after) ==> labelled(
            st,
            after,
            None,
            Set::empty(),
        ),
{
    if let Some(after) = translate_lambda(scope, env, body, st) {
        let ready = (prepare_lambda(scope, env, st)->0).2;
        lemma_prepare_lambda(scope, env, st);
        lemma_same_code(st, ready, after, None, Set::empty());
    }
}

/// See [`law_translation_labelled`].
proof fn lemma_translate_if(scope: Scope, expr: Expr, exit: Option<Label>, st: GenState)
    requires
        st.labels <= usize::MAX,
        expr is If,
    ensures
        translate(scope, expr, exit, st) matches Some(after) ==> labelled(
            st,
            after,
            exit,
            Set::empty(),
        ),
    decreases expr, 0nat,
{
    lemma_same(st, exit);
    lemma_fresh(st, st, exit, Set::empty());
    let none = Set::<usize>::empty();
    let end = translate(scope, expr, exit, st);
    if end is Some {
        if let Expr::If(condition, then, otherwise, _) = expr {
            let (l, s1) = st.new_label()->0;
            let open = none.insert(l.index);
            let s2 = s1.emit(Instr::JumpIfFalse(l));
            lemma_jump(st, s1, Instr::JumpIfFalse(l), l, exit, open);
            lemma_then_translate(st, s2, scope, *condition, None, exit, open);
            let s3 = translate(scope, *condition, None, s2)->0;
            lemma_then_translate_all(st, s3, scope, then.exprs@, exit, exit, open);
            let s4 = translate_all(scope, then.exprs@, then.exprs@.len(), exit, s3)->0;
            match otherwise {
                None => {
                    lemma_place(st, s4, l, exit, open);
                },
                Some(block) => {
                    lemma_fresh(st, s4, exit, open);
                    let (m, s5) = s4.new_label()->0;
                    let both = open.insert(m.index);
                    let s6 = s5.emit(Instr::Jump(m));
                    lemma_jump(st, s5, Instr::Jump(m), m, exit, both);
                    let s7 = s6.emit(Instr::Target(l));
                    lemma_place(st, s6, l, exit, both);
                    let last = none.insert(m.index);
                    assert(both.remove(l.index) =~= last);
                    lemma_then_translate_all(
                        st,
                        s7,
                        scope,
                        block.exprs@,
                        Some(m),
                        exit,
                        last,
                    );
                    let s8 = translate_all(
                        scope,
                        block.exprs@,
                        block.exprs@.len(),
                        Some(m),
                        s7,
                    )->0;
                    lemma_place(st, s8, m, exit, last);
                },
            }
        }
    }
}

/// See [`law_translation_labelled`].
proof fn lemma_translate_conditional(scope: Scope, expr: Expr, exit: Option<Label>, st: GenState)
    requires
        st.labels <= usize::MAX,
        expr is Conditional,
    ensures
        translate(scope, expr, exit, st) matches Some(after) ==> labelled(
            st,
            after,
            exit,
            Set::empty(),
        ),
    decreases expr, 0nat,
{
    lemma_same(st, exit);
    lemma_fresh(st, st, exit, Set::empty());
    let none = Set::<usize>::empty();
    let end = translate(scope, expr, exit, st);
    if end is Some {
        if let Expr::Conditional(condition, then, otherwise, _) = expr {
            let (l, s1) = st.new_label()->0;
            let open = none.insert(l.index);
            lemma_fresh(st, s1, exit, open);
            let (m, s2) = s1.new_label()->0;
            let both = open.insert(m.index);
            let instr = Instr::Conditional(l, m);
            lemma_emit(st, s2, instr, exit, both);
            lemma_then_translate(st, s2.emit(instr), scope, *condition, None, exit, both);
            let s3 = translate(scope, *condition, None, s2.emit(instr))->0;
            lemma_then_translate(st, s3, scope, *then, None, exit, both);
            let s4 = translate(scope, *then, None, s3)->0;
            let s5 = s4.emit(Instr::Target(l));
            lemma_place(st, s4, l, exit, both);
            let last = none.insert(m.index);
            assert(both.remove(l.index) =~= last);
            lemma_then_translate(st, s5, scope, *otherwise, None, exit, last);
            let s6 = translate(scope, *otherwise, None, s5)->0;
            lemma_place(st, s6, m, exit, last);
        }
    }
}

/// See [`law_translation_labelled`].
proof fn lemma_translate_while(scope: Scope, expr: Expr, exit: Option<Label>, st: GenState)
    requires
        st.labels <= usize::MAX,
        expr is While,
    ensures
        translate(scope, expr, exit, st) matches Some(after) ==> labelled(
            st,
            after,
            exit,
            Set::empty(),
        ),
    decreases expr, 0nat,
{
    lemma_same(st, exit);
    lemma_fresh(st, st, exit, Set::empty());
    let none = Set::<usize>::empty();
    let end = translate(scope, expr, exit, st);
    if end is Some {
        if let Expr::While(condition, body, _) = expr {
            let (l, s1) = st.new_label()->0;
            let open = none.insert(l.index);
            lemma_fresh(st, s1, exit, open);
            let (m, s2) = s1.new_label()->0;
            let both = open.insert(m.index);
            lemma_place(st, s2, m, exit, both);
            assert(both.remove(m.index) =~= open);
            let s3 = s2.emit(Instr::Target(m));
            let s4 = s3.emit(Instr::JumpIfFalse(l));
            lemma_jump(st, s3, Instr::JumpIfFalse(l), l, exit, open);
            lemma_then_translate(st, s4, scope, *condition, None, exit, open);
            let s5 = translate(scope, *condition, None, s4)->0;
            lemma_then_translate_all(st, s5, scope, body.exprs@, Some(l), exit, open);
            let s6 = translate_all(scope, body.exprs@, body.exprs@.len(), Some(l), s5)->0;
            lemma_jump(st, s6, Instr::Jump(m), m, exit, open);
            lemma_place(st, s6.emit(Instr::Jump(m)), l, exit, open);
        }
    }
}

/// The code that an expression adds refers only to labels that it gives out, or to
/// `exit`, and places each of them exactly once.
pub proof fn law_translation_labelled(scope: Scope, expr: Expr, exit: Option<Label>, st: GenState)
    requires
        st.labels <= usize::MAX,
    ensures
        translate(scope, expr, exit, st) matches Some(after) ==> labelled(
            st,
            after,
            exit,
            Set::empty(),
        ),
    decreases expr, 1nat,
{
    lemma_same(st, exit);
    lemma_fresh(st, st, exit, Set::empty());
    let none = Set::<usize>::empty();
    if let Some(end) = translate(scope, expr, exit, st) {
        match expr {
            Expr::Ident(local, _) => {
                lemma_plain(st, st, read_local(scope, st.locals, local)->0, exit, none);
            },
            Expr::Constant(constant, _) => {
                let mid = GenState { pool: end.pool, ..st };
                lemma_same_code(st, st, mid, exit, none);
                lemma_plain(st, mid, end.code.last(), exit, none);
                assert(end =~= mid.emit(end.code.last()));
            },
            Expr::Declare(local, typ, init, _) => {
                let (index, s1) = declare(scope, local, (typ->0)@, st)->0;
                lemma_same_code(st, st, s1, exit, none);
                if let Some(value) = init {
                    let s2 = s1.emit(Instr::Assign);
                    lemma_plain(st, s1, Instr::Assign, exit, none);
                    lemma_plain(st, s2, Instr::Local(index), exit, none);
                    lemma_then_translate(
                        st,
                        s2.emit(Instr::Local(index)),
                        scope,
                        *value,
                        None,
                        exit,
                        none,
                    );
                }
            },
            Expr::DynCast(target, value, _) => {
                let instr = Instr::DynamicCast(scope.db.class_entry(target.id)->0, 0);
                lemma_plain(st, st, instr, exit, none);
                lemma_then_translate(st, st.emit(instr), scope, *value, None, exit, none);
            },
            Expr::Assign(left, right, _, _) => {
                let s1 = st.emit(Instr::Assign);
                lemma_plain(st, st, Instr::Assign, exit, none);
                lemma_then_translate(st, s1, scope, *left, None, exit, none);
                let s2 = translate(scope, *left, None, s1)->0;
                lemma_then_translate(st, s2, scope, *right, None, exit, none);
            },
            Expr::Call(_, _, _, _, _, _) => {
                lemma_translate_call(scope, expr, exit, st);
            },
            Expr::Lambda(env, body, _) => {
                lemma_translate_lambda(scope, env, *body, st);
                lemma_never_leaves(st, end, exit);
            },
            Expr::Member(object, Member::ClassField(id), _) => {
                let (l, s1) = st.new_label()->0;
                let open = none.insert(l.index);
                let s2 = s1.emit(Instr::Context(l));
                lemma_jump(st, s1, Instr::Context(l), l, exit, open);
                lemma_then_translate(st, s2, scope, *object, None, exit, open);
                let s3 = translate(scope, *object, None, s2)->0;
                let instr = Instr::ObjectField(scope.db.field_entry(id)->0);
                lemma_plain(st, s3, instr, exit, open);
                lemma_place(st, s3.emit(instr), l, exit, open);
            },
            Expr::Member(object, Member::StructField(id), _) => {
                let instr = Instr::StructField(scope.db.field_entry(id)->0);
                lemma_plain(st, st, instr, exit, none);
                lemma_then_translate(st, st.emit(instr), scope, *object, None, exit, none);
            },
            Expr::ArrayElem(array, index, elem, _) => {
                let typ = alloc_type(array_type(elem@), scope.repo, st.pool, st.cache)->0;
                let s1 = GenState { pool: typ.pool, cache: typ.cache, ..st };
                let s2 = s1.emit(Instr::ArrayElement(typ.index));
                lemma_same_code(st, st, s1, exit, none);
                lemma_plain(st, s1, Instr::ArrayElement(typ.index), exit, none);
                lemma_then_translate(st, s2, scope, *array, None, exit, none);
                let s3 = translate(scope, *array, None, s2)->0;
                lemma_then_translate(st, s3, scope, *index, None, exit, none);
            },
            Expr::New(_, _, _) | Expr::Null(_) | Expr::This(_) | Expr::Super(_) => {
                lemma_plain(st, st, end.code.last(), exit, none);
                assert(end =~= st.emit(end.code.last()));
            },
            Expr::Return(Some(value), _) => {
                lemma_plain(st, st, Instr::Return, exit, none);
                lemma_then_translate(st, st.emit(Instr::Return), scope, *value, None, exit, none);
            },
            Expr::Return(None, _) => {
                lemma_plain(st, st, Instr::Return, exit, none);
                lemma_plain(st, st.emit(Instr::Return), Instr::Nop, exit, none);
            },
            Expr::Block(block) => {
                lemma_translate_all(scope, block.exprs@, block.exprs@.len(), exit, st);
            },
            Expr::If(_, _, _, _) => {
                lemma_translate_if(scope, expr, exit, st);
            },
            Expr::Conditional(_, _, _, _) => {
                lemma_translate_conditional(scope, expr, exit, st);
            },
            Expr::While(_, _, _) => {
                lemma_translate_while(scope, expr, exit, st);
            },
            Expr::Break(_) => {
                lemma_jump(st, st, Instr::Jump(exit->0), exit->0, exit, none);
            },
            _ => {},
        }
    }
}

/// In a finished body, every label that an instruction refers to was given out for that
/// body, and each label that was given out is placed exactly once.
pub proof fn law_labels_placed_once(
    scope: Scope,
    body: Expr,
    yields: bool,
    pool: PoolView,
    cache: CacheView,
)
    ensures
        translate(scope, body, None, enter(yields, pool, cache)) matches Some(st) ==> {
            &&& labels_below(st.code, st.labels)
            &&& labels_below(st.emit(Instr::Nop).code, st.labels)
            &&& forall|l: usize| l < st.labels ==> #[trigger] placed(st.code, 0, l)
            &&& forall|j: int, k: int|
                #![trigger st.code[j], st.code[k]]
                0 <= j < k < st.code.len() && st.code[j] is Target ==> st.code[j] != st.code[k]
        },
{
    let first = start(pool, cache);
    let begun = enter(yields, pool, cache);
    lemma_same(first, None);
    if yields {
        lemma_plain(first, first, Instr::Return, None, Set::empty());
    }
    lemma_then_translate(first, begun, scope, body, None, None, Set::empty());
    reveal(labelled);
    if let Some(st) = translate(scope, body, None, begun) {
        assert forall|l: usize| l < st.labels implies #[trigger] placed(st.code, 0, l) by {
            assert(placed(st.code, first.code.len() as int, l));
        }
        let whole = st.emit(Instr::Nop).code;
        assert forall|k: int, i: int|
            #![trigger whole[k].refs()[i]]
            0 <= k < whole.len() && 0 <= i < whole[k].refs().len() implies whole[k].refs()[i].index
            < st.labels by {
            assert(st.code[k].refs()[i] == whole[k].refs()[i]);
        }
    }
}

} // verus!
