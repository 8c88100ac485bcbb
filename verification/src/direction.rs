//! Where jumps lead: ahead, but for the jump back of a `while`.

use crate::ast::{Callable, Expr, LambdaEnv, Member};
use crate::bytecode::{fits, lemma_location_monotonic, location_at, Instr, Intrinsic, Label};
use crate::growth::extends;
use crate::lambda::lambda_class;
use crate::labels::law_labels_placed_once;
use crate::layout::{law_instruction_kept, lemma_label_location, lemma_origin, lemma_refs};
use crate::pool::{CName, Function, PoolIndex, PoolView};
use crate::translation::{
    build, captured_values, declare, enter, implement_summoner, open_static_call, passed,
    prepare_lambda, read_local, ready_args, ready_call, translate, translate_all, translate_args,
    translate_intrinsic, translate_lambda, translate_static_call, translate_virtual_call, GenState,
    Scope,
};
use crate::type_cache::{alloc_type, CacheView};
use crate::types::{array_type, Type};
use vstd::prelude::*;

verus! {

/// A `while` occurs in the expression, outside of the bodies of lambdas.
pub open spec fn loops(expr: Expr) -> bool
    decreases expr,
{
    match expr {
        Expr::While(_, _, _) => true,
        Expr::ArrayLit(items, _, _) => exists|i: int|
            #![trigger items@[i]]
            0 <= i < items@.len() && loops(items@[i]),
        Expr::InterpolatedString(_, parts, _) => exists|i: int|
            #![trigger parts@[i]]
            0 <= i < parts@.len() && loops(parts@[i].0),
        Expr::Declare(_, _, Some(value), _) => loops(*value),
        Expr::DynCast(_, value, _) => loops(*value),
        Expr::Assign(left, right, _, _) => loops(*left) || loops(*right),
        Expr::Call(object, _, _, args, _, _) => {
            ||| loops(*object)
            ||| exists|i: int|
                #![trigger args@[i]]
                0 <= i < args@.len() && loops(args@[i])
        },
        Expr::Member(object, _, _) => loops(*object),
        Expr::ArrayElem(array, index, _, _) => loops(*array) || loops(*index),
        Expr::New(_, args, _) => exists|i: int|
            #![trigger args@[i]]
            0 <= i < args@.len() && loops(args@[i]),
        Expr::Return(Some(value), _) => loops(*value),
        Expr::Block(block) => exists|i: int|
            #![trigger block.exprs@[i]]
            0 <= i < block.exprs@.len() && loops(block.exprs@[i]),
        Expr::Switch(value, cases, default, _) => {
            ||| loops(*value)
            ||| exists|j: int|
                #![trigger cases@[j]]
                0 <= j < cases@.len() && (loops(cases@[j].matcher) || exists|i: int|
                    #![trigger cases@[j].body.exprs@[i]]
                    0 <= i < cases@[j].body.exprs@.len() && loops(cases@[j].body.exprs@[i]))
            ||| default matches Some(block) && exists|i: int|
                #![trigger block.exprs@[i]]
                0 <= i < block.exprs@.len() && loops(block.exprs@[i])
        },
        Expr::If(condition, then, otherwise, _) => {
            ||| loops(*condition)
            ||| exists|i: int|
                #![trigger then.exprs@[i]]
                0 <= i < then.exprs@.len() && loops(then.exprs@[i])
            ||| otherwise matches Some(block) && exists|i: int|
                #![trigger block.exprs@[i]]
                0 <= i < block.exprs@.len() && loops(block.exprs@[i])
        },
        Expr::Conditional(condition, then, otherwise, _) => {
            loops(*condition) || loops(*then) || loops(*otherwise)
        },
        Expr::ForIn(_, value, block, _) => {
            ||| loops(*value)
            ||| exists|i: int|
                #![trigger block.exprs@[i]]
                0 <= i < block.exprs@.len() && loops(block.exprs@[i])
        },
        Expr::BinOp(left, right, _, _) => loops(*left) || loops(*right),
        Expr::UnOp(value, _, _) => loops(*value),
        _ => false,
    }
}

/// The mark for `label` stands in `code` after instruction `k`.
pub open spec fn placed_after(code: Seq<Instr<Label>>, k: int, label: Label) -> bool {
    exists|m: int| k < m < code.len() && #[trigger] code[m] == Instr::Target(label)
}

/// Every label that the code refers to which `after` adds to `before` is placed later in
/// it, but for the `open` ones, which are not placed yet. A jump may also lead to `exit`,
/// and with `back` to anywhere.
#[verifier::opaque]
pub open spec fn leads_ahead(
    before: GenState,
    after: GenState,
    exit: Option<Label>,
    open: Set<usize>,
    back: bool,
) -> bool {
    &&& extends(before.code, after.code)
    &&& forall|k: int, i: int|
        #![trigger after.code[k].refs()[i]]
        before.code.len() <= k < after.code.len() && 0 <= i < after.code[k].refs().len() ==> {
            ||| placed_after(after.code, k, after.code[k].refs()[i])
            ||| open.contains(after.code[k].refs()[i].index)
            ||| after.code[k] is Jump && (back || exit == Some(after.code[k].refs()[i]))
        }
}

proof fn lemma_same(st: GenState, exit: Option<Label>, open: Set<usize>, back: bool)
    ensures
        leads_ahead(st, st, exit, open, back),
{
    reveal(leads_ahead);
}

/// The code stays, and more labels may be open.
proof fn lemma_wider(
    before: GenState,
    mid: GenState,
    after: GenState,
    exit: Option<Label>,
    open: Set<usize>,
    wider: Set<usize>,
    back: bool,
)
    requires
        leads_ahead(before, mid, exit, open, back),
        after.code == mid.code,
        open.subset_of(wider),
    ensures
        leads_ahead(before, after, exit, wider, back),
{
    reveal(leads_ahead);
    assert forall|k: int, i: int|
        #![trigger after.code[k].refs()[i]]
        before.code.len() <= k < after.code.len() && 0 <= i < after.code[k].refs().len() implies {
        ||| placed_after(after.code, k, after.code[k].refs()[i])
        ||| wider.contains(after.code[k].refs()[i].index)
        ||| after.code[k] is Jump && (back || exit == Some(after.code[k].refs()[i]))
    } by {
        assert(mid.code[k].refs()[i] == after.code[k].refs()[i]);
    }
}

proof fn lemma_placed_stays(s: Seq<Instr<Label>>, t: Seq<Instr<Label>>, k: int, label: Label)
    requires
        extends(s, t),
        0 <= k,
        placed_after(s, k, label),
    ensures
        placed_after(t, k, label),
{
    let m = choose|m: int| k < m < s.len() && #[trigger] s[m] == Instr::Target(label);
    assert(t[m] == Instr::Target(label));
}

/// One more instruction, which refers to open labels only unless it is a jump.
proof fn lemma_emit(
    before: GenState,
    mid: GenState,
    instr: Instr<Label>,
    exit: Option<Label>,
    open: Set<usize>,
    back: bool,
)
    requires
        leads_ahead(before, mid, exit, open, back),
        forall|i: int|
            #![trigger instr.refs()[i]]
            0 <= i < instr.refs().len() ==> open.contains(instr.refs()[i].index) || instr is Jump
                && (back || exit == Some(instr.refs()[i])),
    ensures
        leads_ahead(before, mid.emit(instr), exit, open, back),
{
    reveal(leads_ahead);
    let after = mid.emit(instr);
    assert forall|k: int, i: int|
        #![trigger after.code[k].refs()[i]]
        before.code.len() <= k < after.code.len() && 0 <= i < after.code[k].refs().len() implies {
        ||| placed_after(after.code, k, after.code[k].refs()[i])
        ||| open.contains(after.code[k].refs()[i].index)
        ||| after.code[k] is Jump && (back || exit == Some(after.code[k].refs()[i]))
    } by {
        if k < mid.code.len() {
            assert(after.code[k] == mid.code[k]);
            let label = mid.code[k].refs()[i];
            if placed_after(mid.code, k, label) {
                lemma_placed_stays(mid.code, after.code, k, label);
            }
        } else {
            assert(instr.refs()[i] == after.code[k].refs()[i]);
        }
    }
}

/// One more instruction with one open label.
proof fn lemma_jump(
    before: GenState,
    mid: GenState,
    instr: Instr<Label>,
    label: Label,
    exit: Option<Label>,
    open: Set<usize>,
    back: bool,
)
    requires
        leads_ahead(before, mid, exit, open, back),
        instr.refs() == seq![label],
        open.contains(label.index),
    ensures
        leads_ahead(before, mid.emit(instr), exit, open, back),
{
    lemma_emit(before, mid, instr, exit, open, back);
}

/// A label is placed. After that, `rest` are open.
proof fn lemma_place(
    before: GenState,
    mid: GenState,
    label: Label,
    exit: Option<Label>,
    open: Set<usize>,
    rest: Set<usize>,
    back: bool,
)
    requires
        leads_ahead(before, mid, exit, open, back),
        forall|l: usize| #[trigger] open.contains(l) ==> l == label.index || rest.contains(l),
    ensures
        leads_ahead(before, mid.emit(Instr::Target(label)), exit, rest, back),
{
    reveal(leads_ahead);
    let after = mid.emit(Instr::Target(label));
    assert forall|k: int, i: int|
        #![trigger after.code[k].refs()[i]]
        before.code.len() <= k < after.code.len() && 0 <= i < after.code[k].refs().len() implies {
        ||| placed_after(after.code, k, after.code[k].refs()[i])
        ||| rest.contains(after.code[k].refs()[i].index)
        ||| after.code[k] is Jump && (back || exit == Some(after.code[k].refs()[i]))
    } by {
        assert(after.code[k] == mid.code[k]);
        let l = mid.code[k].refs()[i];
        if placed_after(mid.code, k, l) {
            lemma_placed_stays(mid.code, after.code, k, l);
        } else if l.index == label.index {
            assert(after.code[mid.code.len() as int] == Instr::Target(l));
        }
    }
}

/// More code follows, whose jumps may lead to an open label or to `exit`.
proof fn lemma_then(
    before: GenState,
    mid: GenState,
    after: GenState,
    exit: Option<Label>,
    inner: Option<Label>,
    open: Set<usize>,
    back: bool,
)
    requires
        leads_ahead(before, mid, exit, open, back),
        leads_ahead(mid, after, inner, Set::empty(), back),
        inner matches Some(l) ==> open.contains(l.index) || exit == inner,
    ensures
        leads_ahead(before, after, exit, open, back),
{
    reveal(leads_ahead);
    assert forall|k: int, i: int|
        #![trigger after.code[k].refs()[i]]
        before.code.len() <= k < after.code.len() && 0 <= i < after.code[k].refs().len() implies {
        ||| placed_after(after.code, k, after.code[k].refs()[i])
        ||| open.contains(after.code[k].refs()[i].index)
        ||| after.code[k] is Jump && (back || exit == Some(after.code[k].refs()[i]))
    } by {
        if k < mid.code.len() {
            assert(after.code[k] == mid.code[k]);
            let label = mid.code[k].refs()[i];
            if placed_after(mid.code, k, label) {
                lemma_placed_stays(mid.code, after.code, k, label);
            }
        }
    }
}

proof fn lemma_ready_args(
    instrs: Seq<Instr<Label>>,
    flags: Seq<bool>,
    n: nat,
    before: GenState,
    st: GenState,
    exit: Option<Label>,
    open: Set<usize>,
    back: bool,
)
    requires
        n <= instrs.len(),
        forall|i: int| 0 <= i < instrs.len() ==> (#[trigger] instrs[i]).refs().len() == 0,
        leads_ahead(before, st, exit, open, back),
    ensures
        ready_args(instrs, flags, n, st) matches Some(after) ==> leads_ahead(
            before,
            after,
            exit,
            open,
            back,
        ),
    decreases n,
{
    if n > 0 {
        lemma_ready_args(instrs, flags, (n - 1) as nat, before, st, exit, open, back);
        if let Some(s1) = ready_args(instrs, flags, (n - 1) as nat, st) {
            assert(instrs[n - 1].refs().len() == 0);
            if flags[n - 1] {
                if let Some((skip, s2)) = s1.new_label() {
                    let wider = open.insert(skip.index);
                    lemma_wider(before, s1, s2, exit, open, wider, back);
                    let s3 = s2.emit(Instr::Skip(skip));
                    lemma_jump(before, s2, Instr::Skip(skip), skip, exit, wider, back);
                    let s4 = s3.emit(instrs[n - 1]);
                    lemma_emit(before, s3, instrs[n - 1], exit, wider, back);
                    lemma_place(before, s4, skip, exit, wider, open, back);
                }
            } else {
                lemma_emit(before, s1, instrs[n - 1], exit, open, back);
            }
        }
    }
}

proof fn lemma_open_static_call(
    index: PoolIndex<Function>,
    st: GenState,
    exit: Option<Label>,
    back: bool,
)
    ensures
        open_static_call(index, st) matches Some((end, _, after)) ==> leads_ahead(
            st,
            after,
            exit,
            set![end.index],
            back,
        ),
{
    if let Some((end, flags, after)) = open_static_call(index, st) {
        let s1 = (st.new_label()->0).1;
        let open = set![end.index];
        lemma_same(st, exit, open, back);
        lemma_wider(st, st, s1, exit, open, open, back);
        lemma_jump(st, s1, Instr::InvokeStatic(end, 0, index, 0), end, exit, open, back);
    }
}

proof fn lemma_close_call(
    before: GenState,
    st: GenState,
    end: Label,
    exit: Option<Label>,
    back: bool,
)
    requires
        leads_ahead(before, st, exit, set![end.index], back),
    ensures
        leads_ahead(before, st.close_call(end), exit, Set::empty(), back),
{
    let open = set![end.index];
    lemma_emit(before, st, Instr::ParamEnd, exit, open, back);
    lemma_place(before, st.emit(Instr::ParamEnd), end, exit, open, Set::empty(), back);
}

/// A lambda adds the call of its `Summon`.
proof fn lemma_translate_lambda(
    scope: Scope,
    env: LambdaEnv,
    body: Expr,
    st: GenState,
    exit: Option<Label>,
    back: bool,
)
    ensures
        translate_lambda(scope, env, body, st) matches Some(after) ==> leads_ahead(
            st,
            after,
            exit,
            Set::empty(),
            back,
        ),
{
    if let Some(after) = translate_lambda(scope, env, body, st) {
        let (apply, inner, mid) = prepare_lambda(scope, env, st)->0;
        assert(after.code == mid.code);
        lemma_prepare_lambda(scope, env, st, exit, back);
        lemma_wider(st, mid, after, exit, Set::empty(), Set::empty(), back);
    }
}

proof fn lemma_ready_call(
    index: PoolIndex<Function>,
    instrs: Seq<Instr<Label>>,
    st: GenState,
    exit: Option<Label>,
    back: bool,
)
    requires
        forall|i: int| 0 <= i < instrs.len() ==> (#[trigger] instrs[i]).refs().len() == 0,
    ensures
        ready_call(index, instrs, st) matches Some(after) ==> leads_ahead(
            st,
            after,
            exit,
            Set::empty(),
            back,
        ),
{
    lemma_open_static_call(index, st, exit, back);
    if let Some((end, flags, s1)) = open_static_call(index, st) {
        let n = passed(instrs.len(), flags.len());
        lemma_ready_args(instrs, flags, n, st, s1, exit, set![end.index], back);
        if let Some(s2) = ready_args(instrs, flags, n, s1) {
            lemma_close_call(st, s2, end, exit, back);
        }
    }
}

proof fn lemma_prepare_lambda(
    scope: Scope,
    env: LambdaEnv,
    st: GenState,
    exit: Option<Label>,
    back: bool,
)
    ensures
        prepare_lambda(scope, env, st) matches Some((_, _, after)) ==> leads_ahead(
            st,
            after,
            exit,
            Set::empty(),
            back,
        ),
{
    if let Some((apply, inner, after)) = prepare_lambda(scope, env, st) {
        let args = captured_values(scope, st.locals, env.captures@)->0;
        assert forall|i: int| 0 <= i < args.len() implies (#[trigger] args[i]).refs().len()
            == 0 by {
            assert(read_local(scope, st.locals, env.captures@[i].1.1) is Some);
        }
        let class = lambda_class(scope, env, st)->0;
        let summoner = (class.pool.class(class.index)->0).methods[0];
        let pool = implement_summoner(class.index, summoner, class.pool)->0;
        let s1 = GenState { pool, cache: class.cache, ..st };
        assert(ready_call(summoner, args, s1) == Some(after));
        lemma_ready_call(summoner, args, s1, exit, back);
        lemma_same(st, exit, Set::empty(), back);
        lemma_wider(st, st, s1, exit, Set::empty(), Set::empty(), back);
        lemma_then(st, s1, after, exit, exit, Set::empty(), back);
    }
}

/// More code follows, which the translation of an expression gives.
proof fn lemma_then_translate(
    before: GenState,
    mid: GenState,
    scope: Scope,
    expr: Expr,
    inner: Option<Label>,
    exit: Option<Label>,
    open: Set<usize>,
    back: bool,
)
    requires
        leads_ahead(before, mid, exit, open, back),
        inner matches Some(l) ==> open.contains(l.index) || exit == inner,
        loops(expr) ==> back,
    ensures
        translate(scope, expr, inner, mid) matches Some(after) ==> leads_ahead(
            before,
            after,
            exit,
            open,
            back,
        ),
    decreases expr, 2nat,
{
    law_translation_ahead(scope, expr, inner, mid, back);
    if let Some(after) = translate(scope, expr, inner, mid) {
        lemma_then(before, mid, after, exit, inner, open, back);
    }
}

/// More code follows, which the translation of several expressions gives.
proof fn lemma_then_translate_all(
    before: GenState,
    mid: GenState,
    scope: Scope,
    exprs: Seq<Expr>,
    n: nat,
    inner: Option<Label>,
    exit: Option<Label>,
    open: Set<usize>,
    back: bool,
)
    requires
        leads_ahead(before, mid, exit, open, back),
        inner matches Some(l) ==> open.contains(l.index) || exit == inner,
        forall|i: int| #![trigger exprs[i]] 0 <= i < exprs.len() && loops(exprs[i]) ==> back,
    ensures
        translate_all(scope, exprs, n, inner, mid) matches Some(after) ==> leads_ahead(
            before,
            after,
            exit,
            open,
            back,
        ),
    decreases exprs, n,
{
    if 0 < n <= exprs.len() {
        let m = (n - 1) as nat;
        lemma_then_translate_all(before, mid, scope, exprs, m, inner, exit, open, back);
        if let Some(s1) = translate_all(scope, exprs, m, inner, mid) {
            assert(loops(exprs[n - 1]) ==> back);
            lemma_then_translate(before, s1, scope, exprs[n - 1], inner, exit, open, back);
        }
    }
}

proof fn lemma_translate_args(
    scope: Scope,
    args: Seq<Expr>,
    flags: Seq<bool>,
    n: nat,
    before: GenState,
    st: GenState,
    exit: Option<Label>,
    open: Set<usize>,
    back: bool,
)
    requires
        leads_ahead(before, st, exit, open, back),
        forall|i: int| #![trigger args[i]] 0 <= i < args.len() && loops(args[i]) ==> back,
    ensures
        translate_args(scope, args, flags, n, st) matches Some(after) ==> leads_ahead(
            before,
            after,
            exit,
            open,
            back,
        ),
    decreases args, n,
{
    if 0 < n <= args.len() {
        let m = (n - 1) as nat;
        lemma_translate_args(scope, args, flags, m, before, st, exit, open, back);
        if let Some(s1) = translate_args(scope, args, flags, m, st) {
            let arg = args[n - 1];
            assert(loops(arg) ==> back);
            if flags[n - 1] {
                if let Some((skip, s2)) = s1.new_label() {
                    let wider = open.insert(skip.index);
                    lemma_wider(before, s1, s2, exit, open, wider, back);
                    let s3 = s2.emit(Instr::Skip(skip));
                    lemma_jump(before, s2, Instr::Skip(skip), skip, exit, wider, back);
                    lemma_then_translate(before, s3, scope, arg, None, exit, wider, back);
                    if let Some(s4) = translate(scope, arg, None, s3) {
                        lemma_place(before, s4, skip, exit, wider, open, back);
                    }
                }
            } else {
                lemma_then_translate(before, s1, scope, arg, None, exit, open, back);
            }
        }
    }
}

proof fn lemma_translate_static_call(
    scope: Scope,
    index: PoolIndex<Function>,
    args: Seq<Expr>,
    st: GenState,
    exit: Option<Label>,
    back: bool,
)
    requires
        forall|i: int| #![trigger args[i]] 0 <= i < args.len() && loops(args[i]) ==> back,
    ensures
        translate_static_call(scope, index, args, st) matches Some(after) ==> leads_ahead(
            st,
            after,
            exit,
            Set::empty(),
            back,
        ),
    decreases args, args.len() + 1,
{
    lemma_open_static_call(index, st, exit, back);
    if let Some((end, flags, s1)) = open_static_call(index, st) {
        let n = passed(args.len(), flags.len());
        lemma_translate_args(scope, args, flags, n, st, s1, exit, set![end.index], back);
        if let Some(s2) = translate_args(scope, args, flags, n, s1) {
            lemma_close_call(st, s2, end, exit, back);
        }
    }
}

proof fn lemma_translate_virtual_call(
    scope: Scope,
    name: PoolIndex<CName>,
    args: Seq<Expr>,
    st: GenState,
    exit: Option<Label>,
    back: bool,
)
    requires
        forall|i: int| #![trigger args[i]] 0 <= i < args.len() && loops(args[i]) ==> back,
    ensures
        translate_virtual_call(scope, name, args, st) matches Some(after) ==> leads_ahead(
            st,
            after,
            exit,
            Set::empty(),
            back,
        ),
    decreases args, args.len() + 1,
{
    if let Some((end, s1)) = st.new_label() {
        let open = set![end.index];
        let n = args.len();
        lemma_same(st, exit, open, back);
        lemma_wider(st, st, s1, exit, open, open, back);
        let s2 = s1.emit(Instr::InvokeVirtual(end, 0, name, 0));
        lemma_jump(st, s1, Instr::InvokeVirtual(end, 0, name, 0), end, exit, open, back);
        lemma_then_translate_all(st, s2, scope, args, n, None, exit, open, back);
        if let Some(s3) = translate_all(scope, args, args.len(), None, s2) {
            lemma_close_call(st, s3, end, exit, back);
        }
    }
}

/// The start of something whose context is an object: the label where it ends is open.
proof fn lemma_context(
    scope: Scope,
    object: Expr,
    st: GenState,
    exit: Option<Label>,
    back: bool,
)
    requires
        loops(object) ==> back,
    ensures
        st.new_label() matches Some((end, s1)) ==> {
            translate(scope, object, None, s1.emit(Instr::Context(end))) matches Some(after)
                ==> leads_ahead(st, after, exit, set![end.index], back)
        },
    decreases object, 3nat,
{
    if let Some((end, s1)) = st.new_label() {
        let open = set![end.index];
        lemma_same(st, exit, open, back);
        lemma_wider(st, st, s1, exit, open, open, back);
        lemma_jump(st, s1, Instr::Context(end), end, exit, open, back);
        let s2 = s1.emit(Instr::Context(end));
        lemma_then_translate(st, s2, scope, object, None, exit, open, back);
    }
}

proof fn lemma_translate_call(
    scope: Scope,
    expr: Expr,
    exit: Option<Label>,
    st: GenState,
    back: bool,
)
    requires
        expr is Call,
        loops(expr) ==> back,
    ensures
        translate(scope, expr, exit, st) matches Some(after) ==> leads_ahead(
            st,
            after,
            exit,
            Set::empty(),
            back,
        ),
    decreases expr, 0nat,
{
    if let Expr::Call(object, callable, type_args, args, meta, _) = expr {
        let none = Set::<usize>::empty();
        assert forall|i: int| #![trigger args@[i]] 0 <= i < args@.len() && loops(args@[i]) implies
            back by {
            assert(loops(expr));
        }
        if translate(scope, expr, exit, st) is Some {
            match callable {
                Callable::Static(id) => {
                    let index = scope.db.static_entry(id)->0;
                    lemma_translate_static_call(scope, index, args@, st, exit, back);
                },
                Callable::Global(id) => {
                    let index = scope.db.global_entry(id)->0;
                    lemma_translate_static_call(scope, index, args@, st, exit, back);
                },
                Callable::Cast => {
                    let id = scope.repo.cast(meta.arg_types@[0]@, meta.ret_type@)->0;
                    let index = scope.db.global_entry(id)->0;
                    lemma_translate_static_call(scope, index, args@, st, exit, back);
                },
                Callable::Intrinsic(op) => {
                    let s1 = translate_intrinsic(scope, op, type_args@, st)->0;
                    let n = args@.len();
                    lemma_intrinsic(scope, op, type_args@, st, exit, back);
                    lemma_then_translate_all(st, s1, scope, args@, n, None, exit, none, back);
                },
                Callable::Instance(id) => {
                    let index = scope.db.method_entry(id)->0;
                    let name = (st.pool.definition(index.index)->0).name;
                    let function = st.pool.function(index)->0;
                    let (end, s1) = st.new_label()->0;
                    let open = set![end.index];
                    lemma_context(scope, *object, st, exit, back);
                    let s2 = s1.emit(Instr::Context(end));
                    let s3 = translate(scope, *object, None, s2)->0;
                    let s4 = if function.flags.is_final {
                        lemma_translate_static_call(scope, index, args@, s3, exit, back);
                        translate_static_call(scope, index, args@, s3)->0
                    } else {
                        lemma_translate_virtual_call(scope, name, args@, s3, exit, back);
                        translate_virtual_call(scope, name, args@, s3)->0
                    };
                    lemma_then(st, s3, s4, exit, exit, open, back);
                    lemma_place(st, s4, end, exit, open, none, back);
                },
                Callable::Lambda => {
                    let (end, s1) = st.new_label()->0;
                    let open = set![end.index];
                    lemma_context(scope, *object, st, exit, back);
                    let s2 = s1.emit(Instr::Context(end));
                    let s3 = translate(scope, *object, None, s2)->0;
                    let (pool, name) = s3.pool.with_name("Apply"@);
                    let s4 = GenState { pool, ..s3 };
                    lemma_wider(st, s3, s4, exit, open, open, back);
                    lemma_translate_virtual_call(scope, name, args@, s4, exit, back);
                    let s5 = translate_virtual_call(scope, name, args@, s4)->0;
                    lemma_then(st, s4, s5, exit, exit, open, back);
                    lemma_place(st, s5, end, exit, open, none, back);
                },
            }
        }
    }
}

proof fn lemma_intrinsic(
    scope: Scope,
    op: Intrinsic,
    type_args: Seq<Type>,
    st: GenState,
    exit: Option<Label>,
    back: bool,
)
    ensures
        translate_intrinsic(scope, op, type_args, st) matches Some(after) ==> leads_ahead(
            st,
            after,
            exit,
            Set::empty(),
            back,
        ),
{
    if let Some(end) = translate_intrinsic(scope, op, type_args, st) {
        let mid = GenState { pool: end.pool, cache: end.cache, ..st };
        let none = Set::<usize>::empty();
        lemma_same(st, exit, none, back);
        lemma_wider(st, st, mid, exit, none, none, back);
        lemma_emit(st, mid, end.code.last(), exit, none, back);
        assert(end =~= mid.emit(end.code.last()));
    }
}

proof fn lemma_translate_if(
    scope: Scope,
    expr: Expr,
    exit: Option<Label>,
    st: GenState,
    back: bool,
)
    requires
        expr is If,
        loops(expr) ==> back,
    ensures
        translate(scope, expr, exit, st) matches Some(after) ==> leads_ahead(
            st,
            after,
            exit,
            Set::empty(),
            back,
        ),
    decreases expr, 0nat,
{
    if let Expr::If(condition, then, otherwise, _) = expr {
        if translate(scope, expr, exit, st) is Some {
            let (l, s1) = st.new_label()->0;
            let open = set![l.index];
            lemma_same(st, exit, open, back);
            lemma_wider(st, st, s1, exit, open, open, back);
            let s2 = s1.emit(Instr::JumpIfFalse(l));
            lemma_jump(st, s1, Instr::JumpIfFalse(l), l, exit, open, back);
            lemma_then_translate(st, s2, scope, *condition, None, exit, open, back);
            let s3 = translate(scope, *condition, None, s2)->0;
            let exprs = then.exprs@;
            let n = exprs.len();
            assert forall|i: int| #![trigger exprs[i]] 0 <= i < n && loops(exprs[i]) implies
                back by {
                assert(then.exprs@[i] == exprs[i]);
            }
            lemma_then_translate_all(st, s3, scope, exprs, n, exit, exit, open, back);
            let s4 = translate_all(scope, exprs, n, exit, s3)->0;
            match otherwise {
                None => {
                    lemma_place(st, s4, l, exit, open, Set::empty(), back);
                },
                Some(block) => {
                    let (m, s5) = s4.new_label()->0;
                    let both = open.insert(m.index);
                    let last = set![m.index];
                    lemma_wider(st, s4, s5, exit, open, both, back);
                    let s6 = s5.emit(Instr::Jump(m));
                    lemma_jump(st, s5, Instr::Jump(m), m, exit, both, back);
                    let s7 = s6.emit(Instr::Target(l));
                    lemma_place(st, s6, l, exit, both, last, back);
                    let rest = block.exprs@;
                    let k = rest.len();
                    assert forall|i: int| #![trigger rest[i]] 0 <= i < k && loops(rest[i]) implies
                        back by {
                        assert(block.exprs@[i] == rest[i]);
                    }
                    lemma_then_translate_all(st, s7, scope, rest, k, Some(m), exit, last, back);
                    let s8 = translate_all(scope, rest, k, Some(m), s7)->0;
                    lemma_place(st, s8, m, exit, last, Set::empty(), back);
                },
            }
        }
    }
}

proof fn lemma_translate_conditional(
    scope: Scope,
    expr: Expr,
    exit: Option<Label>,
    st: GenState,
    back: bool,
)
    requires
        expr is Conditional,
        loops(expr) ==> back,
    ensures
        translate(scope, expr, exit, st) matches Some(after) ==> leads_ahead(
            st,
            after,
            exit,
            Set::empty(),
            back,
        ),
    decreases expr, 0nat,
{
    if let Expr::Conditional(condition, then, otherwise, _) = expr {
        if translate(scope, expr, exit, st) is Some {
            let (l, s1) = st.new_label()->0;
            let (m, s2) = s1.new_label()->0;
            let both = set![l.index, m.index];
            let last = set![m.index];
            lemma_same(st, exit, both, back);
            lemma_wider(st, st, s2, exit, both, both, back);
            let s3 = s2.emit(Instr::Conditional(l, m));
            lemma_emit(st, s2, Instr::Conditional(l, m), exit, both, back);
            lemma_then_translate(st, s3, scope, *condition, None, exit, both, back);
            let s4 = translate(scope, *condition, None, s3)->0;
            lemma_then_translate(st, s4, scope, *then, None, exit, both, back);
            let s5 = translate(scope, *then, None, s4)->0;
            let s6 = s5.emit(Instr::Target(l));
            lemma_place(st, s5, l, exit, both, last, back);
            lemma_then_translate(st, s6, scope, *otherwise, None, exit, last, back);
            let s7 = translate(scope, *otherwise, None, s6)->0;
            lemma_place(st, s7, m, exit, last, Set::empty(), back);
        }
    }
}

proof fn lemma_translate_while(scope: Scope, expr: Expr, exit: Option<Label>, st: GenState)
    requires
        expr is While,
    ensures
        translate(scope, expr, exit, st) matches Some(after) ==> leads_ahead(
            st,
            after,
            exit,
            Set::empty(),
            true,
        ),
    decreases expr, 0nat,
{
    if let Expr::While(condition, body, _) = expr {
        if translate(scope, expr, exit, st) is Some {
            let (l, s1) = st.new_label()->0;
            let (m, s2) = s1.new_label()->0;
            let open = set![l.index];
            let n = body.exprs@.len();
            lemma_same(st, exit, open, true);
            lemma_wider(st, st, s2, exit, open, open, true);
            let s3 = s2.emit(Instr::Target(m));
            lemma_emit(st, s2, Instr::Target(m), exit, open, true);
            let s4 = s3.emit(Instr::JumpIfFalse(l));
            lemma_jump(st, s3, Instr::JumpIfFalse(l), l, exit, open, true);
            lemma_then_translate(st, s4, scope, *condition, None, exit, open, true);
            let s5 = translate(scope, *condition, None, s4)->0;
            lemma_then_translate_all(st, s5, scope, body.exprs@, n, Some(l), exit, open, true);
            let s6 = translate_all(scope, body.exprs@, n, Some(l), s5)->0;
            let s7 = s6.emit(Instr::Jump(m));
            lemma_emit(st, s6, Instr::Jump(m), exit, open, true);
            lemma_place(st, s7, l, exit, open, Set::empty(), true);
        }
    }
}

/// Every label that the code of an expression refers to is placed later in that code, but
/// for jumps to `exit` and, where a `while` occurs in the expression, other jumps.
pub proof fn law_translation_ahead(
    scope: Scope,
    expr: Expr,
    exit: Option<Label>,
    st: GenState,
    back: bool,
)
    requires
        loops(expr) ==> back,
    ensures
        translate(scope, expr, exit, st) matches Some(after) ==> leads_ahead(
            st,
            after,
            exit,
            Set::empty(),
            back,
        ),
    decreases expr, 1nat,
{
    let none = Set::<usize>::empty();
    lemma_same(st, exit, none, back);
    if let Some(end) = translate(scope, expr, exit, st) {
        match expr {
            Expr::Ident(local, _) => {
                let instr = read_local(scope, st.locals, local)->0;
                lemma_emit(st, st, instr, exit, none, back);
            },
            Expr::Constant(_, _) => {
                let mid = GenState { pool: end.pool, ..st };
                lemma_wider(st, st, mid, exit, none, none, back);
                lemma_emit(st, mid, end.code.last(), exit, none, back);
                assert(end =~= mid.emit(end.code.last()));
            },
            Expr::Declare(local, typ, init, _) => {
                let (index, s1) = declare(scope, local, (typ->0)@, st)->0;
                lemma_wider(st, st, s1, exit, none, none, back);
                if let Some(value) = init {
                    let s2 = s1.emit(Instr::Assign);
                    let s3 = s2.emit(Instr::Local(index));
                    lemma_emit(st, s1, Instr::Assign, exit, none, back);
                    lemma_emit(st, s2, Instr::Local(index), exit, none, back);
                    lemma_then_translate(st, s3, scope, *value, None, exit, none, back);
                }
            },
            Expr::DynCast(target, value, _) => {
                let instr = Instr::DynamicCast(scope.db.class_entry(target.id)->0, 0);
                lemma_emit(st, st, instr, exit, none, back);
                lemma_then_translate(st, st.emit(instr), scope, *value, None, exit, none, back);
            },
            Expr::Assign(left, right, _, _) => {
                let s1 = st.emit(Instr::Assign);
                lemma_emit(st, st, Instr::Assign, exit, none, back);
                lemma_then_translate(st, s1, scope, *left, None, exit, none, back);
                let s2 = translate(scope, *left, None, s1)->0;
                lemma_then_translate(st, s2, scope, *right, None, exit, none, back);
            },
            Expr::Call(_, _, _, _, _, _) => {
                lemma_translate_call(scope, expr, exit, st, back);
            },
            Expr::Lambda(env, body, _) => {
                lemma_translate_lambda(scope, env, *body, st, exit, back);
            },
            Expr::Member(object, Member::ClassField(id), _) => {
                let (l, s1) = st.new_label()->0;
                let open = set![l.index];
                let s2 = s1.emit(Instr::Context(l));
                lemma_context(scope, *object, st, exit, back);
                let s3 = translate(scope, *object, None, s2)->0;
                let instr = Instr::ObjectField(scope.db.field_entry(id)->0);
                lemma_emit(st, s3, instr, exit, open, back);
                lemma_place(st, s3.emit(instr), l, exit, open, none, back);
            },
            Expr::Member(object, Member::StructField(id), _) => {
                let instr = Instr::StructField(scope.db.field_entry(id)->0);
                lemma_emit(st, st, instr, exit, none, back);
                lemma_then_translate(st, st.emit(instr), scope, *object, None, exit, none, back);
            },
            Expr::ArrayElem(array, index, elem, _) => {
                let typ = alloc_type(array_type(elem@), scope.repo, st.pool, st.cache)->0;
                let s1 = GenState { pool: typ.pool, cache: typ.cache, ..st };
                let s2 = s1.emit(Instr::ArrayElement(typ.index));
                lemma_wider(st, st, s1, exit, none, none, back);
                lemma_emit(st, s1, Instr::ArrayElement(typ.index), exit, none, back);
                lemma_then_translate(st, s2, scope, *array, None, exit, none, back);
                let s3 = translate(scope, *array, None, s2)->0;
                lemma_then_translate(st, s3, scope, *index, None, exit, none, back);
            },
            Expr::New(_, _, _) | Expr::Null(_) | Expr::This(_) | Expr::Super(_) | Expr::Break(
                _,
            ) => {
                lemma_emit(st, st, end.code.last(), exit, none, back);
                assert(end =~= st.emit(end.code.last()));
            },
            Expr::Return(Some(value), _) => {
                let s1 = st.emit(Instr::Return);
                lemma_emit(st, st, Instr::Return, exit, none, back);
                lemma_then_translate(st, s1, scope, *value, None, exit, none, back);
            },
            Expr::Return(None, _) => {
                lemma_emit(st, st, Instr::Return, exit, none, back);
                lemma_emit(st, st.emit(Instr::Return), Instr::Nop, exit, none, back);
            },
            Expr::Block(block) => {
                let exprs = block.exprs@;
                let n = exprs.len();
                assert forall|i: int| #![trigger exprs[i]] 0 <= i < n && loops(exprs[i]) implies
                    back by {
                    assert(block.exprs@[i] == exprs[i]);
                }
                lemma_then_translate_all(st, st, scope, exprs, n, exit, exit, none, back);
            },
            Expr::If(_, _, _, _) => {
                lemma_translate_if(scope, expr, exit, st, back);
            },
            Expr::Conditional(_, _, _, _) => {
                lemma_translate_conditional(scope, expr, exit, st, back);
            },
            Expr::While(_, _, _) => {
                lemma_translate_while(scope, expr, exit, st);
            },
            _ => {},
        }
    }
}

/// Every label that the code of an expression refers to is placed later in that code, but
/// for jumps. Without a `while`, a jump too leads to a label that is placed later, or to
/// `exit`.
pub proof fn law_jumps_ahead(scope: Scope, expr: Expr, exit: Option<Label>, st: GenState)
    ensures
        translate(scope, expr, exit, st) matches Some(after) ==> {
            &&& extends(st.code, after.code)
            &&& forall|k: int, i: int|
                #![trigger after.code[k].refs()[i]]
                st.code.len() <= k < after.code.len() && 0 <= i < after.code[k].refs().len() ==> {
                    &&& !(after.code[k] is Jump) ==> placed_after(
                        after.code,
                        k,
                        after.code[k].refs()[i],
                    )
                    &&& !loops(expr) ==> placed_after(after.code, k, after.code[k].refs()[i])
                        || after.code[k] is Jump && exit == Some(after.code[k].refs()[i])
                    &&& !loops(expr) && exit is None ==> placed_after(
                        after.code,
                        k,
                        after.code[k].refs()[i],
                    )
                }
        },
{
    law_translation_ahead(scope, expr, exit, st, loops(expr));
    reveal(leads_ahead);
}

/// In the code of a function every distance is to a place further on, but for those of
/// jumps. Without a `while` in the body, those are too.
pub proof fn law_built_jumps_ahead(
    scope: Scope,
    body: Expr,
    yields: bool,
    pool: PoolView,
    cache: CacheView,
)
    ensures
        build(scope, body, yields, pool, cache) matches Some(built) ==> forall|j: int, i: int|
            #![trigger built.code[j].refs()[i]]
            0 <= j < built.code.len() && 0 <= i < built.code[j].refs().len() && (!loops(body)
                || !(built.code[j] is Jump)) ==> built.code[j].refs()[i].value > 0,
{
    if let Some(built) = build(scope, body, yields, pool, cache) {
        let begin = enter(yields, pool, cache);
        law_labels_placed_once(scope, body, yields, pool, cache);
        law_jumps_ahead(scope, body, None, begin);
        let st = translate(scope, body, None, begin)->0;
        let code = st.emit(Instr::Nop).code;
        let n = code.len() as int;
        assert forall|j: int, i: int|
            #![trigger built.code[j].refs()[i]]
            0 <= j < built.code.len() && 0 <= i < built.code[j].refs().len() && (!loops(body)
                || !(built.code[j] is Jump)) implies built.code[j].refs()[i].value > 0 by {
            let k = lemma_origin(code, n, j);
            law_instruction_kept(code, k);
            lemma_refs(code, k, i);
            let label = code[k].refs()[i];
            assert(code[k] == st.code[k]);
            assert(k >= begin.code.len()) by {
                if k < begin.code.len() {
                    assert(st.code[k] == begin.code[k]);
                }
            }
            assert(st.code[k].refs()[i] == label);
            assert(placed_after(st.code, k, label));
            let p = choose|p: int|
                k < p < st.code.len() && #[trigger] st.code[p] == Instr::Target(label);
            assert(code[p] == Instr::Target(label));
            assert forall|m: int| 0 <= m < code.len() && m != p implies #[trigger] code[m]
                != Instr::Target(label) by {
                if m < st.code.len() {
                    assert(code[m] == st.code[m]);
                    assert(code[p] == st.code[p]);
                }
            }
            lemma_label_location(code, n, p, label);
            lemma_location_monotonic(code, k + 1, p);
            assert(location_at(code, k + 1) == location_at(code, k) + code[k].bytes());
            assert(fits(code));
        }
    }
}

} // verus!
