//! Generating code only adds: to the code, to the locals and to the pool. The calls in
//! the code nest.

use crate::ast::{Callable, Constant, Expr, LambdaEnv, Literal, Local, Member};
use crate::builders::{commit_class, TypedKind, TypedName};
use crate::bytecode::{Instr, Intrinsic, Label};
use crate::growth::{
    consistent, evolves, extends, grows, law_commit_class, law_intern, lemma_alloc_type,
    lemma_commit_typed, lemma_definition, lemma_evolves_same, lemma_evolves_then, lemma_name,
    lemma_texts, lemma_value, numbered,
};
use crate::index_map::{entry_keys, key_index, law_key_index};
use crate::names::local_name;
use crate::pool::{
    pool_index, type_definition, AnyDefinitionView, CName, DefinitionView, Function, FunctionView,
    LocalFlags, PoolClass, PoolIndex, PoolLocal, PoolType, PoolView,
};
use crate::translation::{
    build, captured_values, closure_outline, declare, enter, implement_summoner, lambda_base,
    lambda_captures, lambda_params, open_static_call, passed, prepare_lambda, read_local,
    ready_args, ready_call, summoner_code, translate, translate_all,
    translate_args, translate_constant, translate_intrinsic, translate_lambda,
    translate_static_call, translate_virtual_call, GenState, IndicesView,
    Scope,
};
use crate::type_cache::{alloc_type, CacheView};
use crate::types::{array_type, Prim, Type, TypeView};
use vstd::prelude::*;

verus! {

/// How many more calls are open after an instruction than before it.
pub open spec fn opens<L>(instr: Instr<L>) -> int {
    match instr {
        Instr::InvokeStatic(_, _, _, _) => 1,
        Instr::InvokeVirtual(_, _, _, _) => 1,
        Instr::ParamEnd => -1,
        _ => 0,
    }
}

/// How many calls are open after the first `n` instructions.
pub open spec fn open_calls<L>(code: Seq<Instr<L>>, n: int) -> int
    decreases n,
{
    if n <= 0 {
        0
    } else {
        open_calls(code, n - 1) + opens(code[n - 1])
    }
}

proof fn lemma_open_calls_prefix<L>(s: Seq<Instr<L>>, t: Seq<Instr<L>>, n: int)
    requires
        extends(s, t),
        n <= s.len(),
    ensures
        open_calls(s, n) == open_calls(t, n),
    decreases n,
{
    if n > 0 {
        lemma_open_calls_prefix(s, t, n - 1);
    }
}

/// A local that is known in `before` stands for the same entry in `after`.
pub open spec fn keeps_locals<A>(before: IndicesView<A>, after: IndicesView<A>) -> bool {
    &&& extends(before.indices, after.indices)
    &&& forall|l: Local|
        #![trigger after.index_of(l)]
        before.index_of(l) is Some ==> after.index_of(l) == before.index_of(l)
}

/// As many locals as there are entries, all different.
pub open spec fn paired<A>(locals: IndicesView<A>) -> bool {
    &&& locals.entries.len() == locals.indices.len()
    &&& entry_keys(locals.entries).no_duplicates()
}

/// One more local changes nothing for those that are known. Where there is an entry for
/// each local, it changes nothing for any other, so one that is not known stays unknown;
/// and where it was not known itself, it stands for the entry that it came with.
pub proof fn law_with_local<A>(
    locals: IndicesView<A>,
    local: Local,
    typ: TypeView,
    index: PoolIndex<A>,
)
    ensures
        keeps_locals(locals, locals.with(local, typ, index)),
        locals.with(local, typ, index).indices == locals.indices.push(index),
        locals.entries.len() == locals.indices.len() ==> forall|l: Local|
            l != local ==> #[trigger] locals.with(local, typ, index).index_of(l)
                == locals.index_of(l),
        locals.entries.len() == locals.indices.len() && key_index(locals.entries, local) is None
            ==> {
            &&& locals.with(local, typ, index).entries.len() == locals.indices.len() + 1
            &&& locals.with(local, typ, index).index_of(local) == Some(index)
        },
        paired(locals) && key_index(locals.entries, local) is None ==> paired(
            locals.with(local, typ, index),
        ),
{
    let after = locals.with(local, typ, index);
    let keys = entry_keys(locals.entries);
    let more = entry_keys(after.entries);
    keys.index_of_first_ensures(local);
    if keys.contains(local) {
        assert(more =~= keys);
    } else {
        assert(more =~= keys.push(local));
    }
    assert forall|l: Local|
        #![trigger after.index_of(l)]
        locals.index_of(l) is Some implies after.index_of(l) == locals.index_of(l) by {
        keys.index_of_first_ensures(l);
        more.index_of_first_ensures(l);
        let i = keys.index_of_first(l)->0;
        assert(more[i] == l);
    }
    if locals.entries.len() == locals.indices.len() {
        assert forall|l: Local| l != local implies #[trigger] after.index_of(l)
            == locals.index_of(l) by {
            keys.index_of_first_ensures(l);
            more.index_of_first_ensures(l);
            if more.contains(l) {
                let i = more.index_of_first(l)->0;
                assert(keys[i] == l);
                assert(keys.contains(l));
            }
        }
    }
    if locals.entries.len() == locals.indices.len() && !keys.contains(local) {
        more.index_of_first_ensures(local);
        assert(more[keys.len() as int] == local);
        let i = more.index_of_first(local)->0;
        if i < keys.len() {
            assert(keys.contains(keys[i]));
        }
    }
}

/// `after` has all the code, the labels, the locals and the pool entries that `before`
/// has, and `calls` more calls are open. None of the calls that were open is closed.
#[verifier::opaque]
pub open spec fn advances(before: GenState, after: GenState, calls: int) -> bool {
    &&& extends(before.code, after.code)
    &&& before.labels <= after.labels
    &&& keeps_locals(before.locals, after.locals)
    &&& evolves(before.pool, before.cache, after.pool, after.cache)
    &&& open_calls(after.code, after.code.len() as int) == open_calls(
        before.code,
        before.code.len() as int,
    ) + calls
    &&& forall|k: int|
        #![trigger open_calls(after.code, k)]
        before.code.len() <= k <= after.code.len() ==> open_calls(after.code, k) >= open_calls(
            before.code,
            before.code.len() as int,
        )
}

proof fn lemma_keeps_locals_then<A>(
    before: IndicesView<A>,
    mid: IndicesView<A>,
    after: IndicesView<A>,
)
    requires
        keeps_locals(before, mid),
        keeps_locals(mid, after),
    ensures
        keeps_locals(before, after),
{
    assert forall|l: Local|
        #![trigger after.index_of(l)]
        before.index_of(l) is Some implies after.index_of(l) == before.index_of(l) by {
        assert(mid.index_of(l) == before.index_of(l));
    }
}

proof fn lemma_same(st: GenState)
    ensures
        advances(st, st, 0),
{
    reveal(advances);
    lemma_evolves_same(st.pool, st.cache);
}

proof fn lemma_emit(before: GenState, mid: GenState, instr: Instr<Label>, calls: int)
    requires
        advances(before, mid, calls),
        calls + opens(instr) >= 0,
    ensures
        advances(before, mid.emit(instr), calls + opens(instr)),
{
    reveal(advances);
    let after = mid.emit(instr);
    let n = mid.code.len() as int;
    lemma_open_calls_prefix(mid.code, after.code, n);
    assert forall|k: int|
        #![trigger open_calls(after.code, k)]
        before.code.len() <= k <= after.code.len() implies open_calls(after.code, k) >= open_calls(
        before.code,
        before.code.len() as int,
    ) by {
        if k <= n {
            lemma_open_calls_prefix(mid.code, after.code, k);
        }
    }
}

/// One more instruction that is not part of a call.
proof fn lemma_plain(before: GenState, mid: GenState, instr: Instr<Label>, calls: int)
    requires
        advances(before, mid, calls),
        opens(instr) == 0,
        calls >= 0,
    ensures
        advances(before, mid.emit(instr), calls),
{
    lemma_emit(before, mid, instr, calls);
}

/// A label is given out.
proof fn lemma_label(before: GenState, mid: GenState, calls: int)
    requires
        advances(before, mid, calls),
    ensures
        mid.new_label() matches Some((_, after)) ==> advances(before, after, calls),
{
    reveal(advances);
}

/// The pool evolves.
proof fn lemma_pool(before: GenState, mid: GenState, after: GenState, calls: int)
    requires
        advances(before, mid, calls),
        after.code == mid.code,
        after.labels == mid.labels,
        keeps_locals(mid.locals, after.locals),
        evolves(mid.pool, mid.cache, after.pool, after.cache),
    ensures
        advances(before, after, calls),
{
    reveal(advances);
    lemma_keeps_locals_then(before.locals, mid.locals, after.locals);
    lemma_evolves_then(
        before.pool,
        before.cache,
        mid.pool,
        mid.cache,
        after.pool,
        after.cache,
    );
}

proof fn lemma_then(before: GenState, mid: GenState, after: GenState, calls: int, more: int)
    requires
        advances(before, mid, calls),
        advances(mid, after, more),
        calls >= 0,
    ensures
        advances(before, after, calls + more),
{
    reveal(advances);
    lemma_keeps_locals_then(before.locals, mid.locals, after.locals);
    lemma_evolves_then(
        before.pool,
        before.cache,
        mid.pool,
        mid.cache,
        after.pool,
        after.cache,
    );
    assert forall|k: int|
        #![trigger open_calls(after.code, k)]
        before.code.len() <= k <= after.code.len() implies open_calls(after.code, k) >= open_calls(
        before.code,
        before.code.len() as int,
    ) by {
        if k <= mid.code.len() {
            lemma_open_calls_prefix(mid.code, after.code, k);
            assert(open_calls(mid.code, k) >= open_calls(before.code, before.code.len() as int));
        }
    }
}

proof fn lemma_constant(constant: Constant, st: GenState)
    ensures
        advances(st, translate_constant(constant, st), 0),
{
    lemma_same(st);
    let end = translate_constant(constant, st);
    let mid = GenState { pool: end.pool, ..st };
    match constant {
        Constant::String(Literal::Name, text) => {
            lemma_name(st.pool, st.cache, text@);
        },
        Constant::String(Literal::String, text) => {
            law_intern(st.pool.strings, text@);
            lemma_texts(st.pool, st.cache, mid.pool);
        },
        Constant::String(Literal::Resource, text) => {
            law_intern(st.pool.resources, text@);
            lemma_texts(st.pool, st.cache, mid.pool);
        },
        Constant::String(Literal::TweakDbId, text) => {
            law_intern(st.pool.tweakdb_ids, text@);
            lemma_texts(st.pool, st.cache, mid.pool);
        },
        _ => {
            lemma_evolves_same(st.pool, st.cache);
        },
    }
    lemma_pool(st, st, mid, 0);
    lemma_plain(st, mid, end.code.last(), 0);
    assert(end =~= mid.emit(end.code.last()));
}

proof fn lemma_intrinsic(scope: Scope, op: Intrinsic, type_args: Seq<Type>, st: GenState)
    ensures
        translate_intrinsic(scope, op, type_args, st) matches Some(after) ==> advances(
            st,
            after,
            0,
        ),
{
    lemma_same(st);
    lemma_evolves_same(st.pool, st.cache);
    if let Some(end) = translate_intrinsic(scope, op, type_args, st) {
        let mid = GenState { pool: end.pool, cache: end.cache, ..st };
        if type_args.len() > 0 {
            lemma_alloc_type(type_args[0]@, scope.repo, st.pool, st.cache);
            lemma_alloc_type(array_type(type_args[0]@), scope.repo, st.pool, st.cache);
        }
        lemma_pool(st, st, mid, 0);
        lemma_plain(st, mid, end.code.last(), 0);
        assert(end =~= mid.emit(end.code.last()));
    }
}

proof fn lemma_ready_args(
    instrs: Seq<Instr<Label>>,
    flags: Seq<bool>,
    n: nat,
    before: GenState,
    st: GenState,
    calls: int,
)
    requires
        n <= instrs.len(),
        forall|i: int| 0 <= i < instrs.len() ==> opens(#[trigger] instrs[i]) == 0,
        advances(before, st, calls),
        calls >= 0,
    ensures
        ready_args(instrs, flags, n, st) matches Some(after) ==> advances(before, after, calls),
    decreases n,
{
    if n > 0 {
        lemma_ready_args(instrs, flags, (n - 1) as nat, before, st, calls);
        if let Some(s1) = ready_args(instrs, flags, (n - 1) as nat, st) {
            if flags[n - 1] {
                lemma_label(before, s1, calls);
                if let Some((skip, s2)) = s1.new_label() {
                    let s3 = s2.emit(Instr::Skip(skip));
                    let s4 = s3.emit(instrs[n - 1]);
                    lemma_plain(before, s2, Instr::Skip(skip), calls);
                    lemma_plain(before, s3, instrs[n - 1], calls);
                    lemma_plain(before, s4, Instr::Target(skip), calls);
                }
            } else {
                lemma_plain(before, s1, instrs[n - 1], calls);
            }
        }
    }
}

proof fn lemma_open_static_call(index: PoolIndex<Function>, st: GenState)
    ensures
        open_static_call(index, st) matches Some((_, _, after)) ==> advances(st, after, 1),
{
    lemma_same(st);
    lemma_label(st, st, 0);
    if let Some((exit, flags, after)) = open_static_call(index, st) {
        lemma_emit(st, (st.new_label()->0).1, Instr::InvokeStatic(exit, 0, index, 0), 0);
    }
}

proof fn lemma_close_call(before: GenState, st: GenState, exit: Label)
    requires
        advances(before, st, 1),
    ensures
        advances(before, st.close_call(exit), 0),
{
    lemma_emit(before, st, Instr::ParamEnd, 1);
    lemma_plain(before, st.emit(Instr::ParamEnd), Instr::Target(exit), 0);
}

proof fn lemma_ready_call(index: PoolIndex<Function>, instrs: Seq<Instr<Label>>, st: GenState)
    requires
        forall|i: int| 0 <= i < instrs.len() ==> opens(#[trigger] instrs[i]) == 0,
    ensures
        ready_call(index, instrs, st) matches Some(after) ==> advances(st, after, 0),
{
    lemma_open_static_call(index, st);
    if let Some((exit, flags, s1)) = open_static_call(index, st) {
        let n = passed(instrs.len(), flags.len());
        lemma_ready_args(instrs, flags, n, st, s1, 1);
        if let Some(s2) = ready_args(instrs, flags, n, s1) {
            lemma_close_call(st, s2, exit);
        }
    }
}

/// Completing `Summon` only changes that method, which has to be new since `p`.
proof fn lemma_implement_summoner(
    class: PoolIndex<PoolClass>,
    summoner: PoolIndex<Function>,
    p: PoolView,
    c: CacheView,
    q: PoolView,
    d: CacheView,
)
    requires
        evolves(p, c, q, d),
        numbered(q) ==> p.definitions.len() <= summoner.index < q.definitions.len(),
    ensures
        implement_summoner(class, summoner, q) matches Some(after) ==> {
            &&& evolves(p, c, after, d)
            &&& q.definitions.len() <= after.definitions.len()
            &&& q.names.len() <= after.names.len()
        },
{
    if let Some(after) = implement_summoner(class, summoner, q) {
        let name = (q.definition(class.index)->0).name;
        let class_type = pool_index::<PoolType>(q.definitions.len() as usize);
        let q1 = q.with_definition(type_definition(name, PoolType::Class));
        lemma_definition(q, d, type_definition(name, PoolType::Class));
        lemma_evolves_then(p, c, q, d, q1, d);
        let ref_type = pool_index::<PoolType>(q1.definitions.len() as usize);
        let q2 = q1.with_definition(type_definition(name, PoolType::Ref(class_type)));
        lemma_definition(q1, d, type_definition(name, PoolType::Ref(class_type)));
        lemma_evolves_then(p, c, q1, d, q2, d);
        let (q3, self_name) = q2.with_name("self"@);
        lemma_name(q2, d, "self"@);
        law_intern(q2.names, "self"@);
        lemma_evolves_then(p, c, q2, d, q3, d);
        let object = pool_index::<PoolLocal>(q3.definitions.len() as usize);
        let local = DefinitionView {
            name: self_name,
            parent: Some(summoner.index),
            value: AnyDefinitionView::Local(
                PoolLocal { typ: ref_type, flags: LocalFlags { is_const: false } },
            ),
        };
        let q4 = q3.with_definition(local);
        lemma_definition(q3, d, local);
        lemma_evolves_then(p, c, q3, d, q4, d);
        let f = q4.function(summoner)->0;
        let fields = (q4.class(class)->0).fields;
        let value = AnyDefinitionView::Function(
            FunctionView {
                return_type: Some(ref_type),
                code: summoner_code(object, class, fields, f.parameters),
                locals: seq![object],
                ..f
            },
        );
        lemma_value(p, c, q4, d, summoner.index, value);
    }
}

/// All of a lambda but its body.
pub proof fn lemma_prepare_lambda(scope: Scope, env: LambdaEnv, st: GenState)
    ensures
        prepare_lambda(scope, env, st) matches Some((apply, _, after)) ==> {
            &&& advances(st, after, 0)
            &&& numbered(after.pool) ==> st.pool.definitions.len() <= apply.index
        },
{
    if let Some((apply, inner, after)) = prepare_lambda(scope, env, st) {
        let args = captured_values(scope, st.locals, env.captures@)->0;
        assert forall|i: int| 0 <= i < args.len() implies opens(#[trigger] args[i]) == 0 by {
            assert(read_local(scope, st.locals, env.captures@[i].1.1) is Some);
        }
        let params = lambda_params(env);
        let captures = lambda_captures(env);
        let outline = closure_outline(params, captures, st.pool.definitions.len());
        let base = lambda_base(scope, params.len())->0;
        let class = commit_class(outline, base, scope.repo, st.pool, st.cache)->0;
        law_commit_class(outline, base, scope.repo, st.pool, st.cache);
        let methods = (class.pool.class(class.index)->0).methods;
        let summoner = methods[0];
        assert(numbered(class.pool) ==> methods[0].index >= st.pool.definitions.len()
            && methods[1].index >= st.pool.definitions.len());
        lemma_implement_summoner(
            class.index,
            summoner,
            st.pool,
            st.cache,
            class.pool,
            class.cache,
        );
        let pool = implement_summoner(class.index, summoner, class.pool)->0;
        let s1 = GenState { pool, cache: class.cache, ..st };
        lemma_same(st);
        lemma_pool(st, st, s1, 0);
        lemma_ready_call(summoner, args, s1);
        lemma_then(st, s1, after, 0, 0);
        assert(numbered(after.pool) ==> numbered(class.pool)) by {
            assert(advances(s1, after, 0));
            reveal(advances);
            reveal(evolves);
        }
    }
}

/// Generating a function only adds to the pool, and keeps it consistent.
pub proof fn law_build_adds(
    scope: Scope,
    body: Expr,
    yields: bool,
    pool: PoolView,
    cache: CacheView,
)
    ensures
        build(scope, body, yields, pool, cache) matches Some(built) ==> {
            &&& evolves(pool, cache, built.pool, built.cache)
            &&& numbered(built.pool) ==> grows(pool, built.pool)
            &&& numbered(built.pool) && consistent(pool, cache) ==> consistent(
                built.pool,
                built.cache,
            )
        },
    decreases body, 2nat,
{
    let st = enter(yields, pool, cache);
    law_translation_adds(scope, body, None, st);
    if translate(scope, body, None, st) is Some {
        reveal(advances);
        reveal(evolves);
    }
}

/// See [`law_translation_adds`].
proof fn lemma_translate_lambda(scope: Scope, env: LambdaEnv, body: Expr, st: GenState)
    ensures
        translate_lambda(scope, env, body, st) matches Some(after) ==> advances(st, after, 0),
    decreases body, 3nat,
{
    if let Some(after) = translate_lambda(scope, env, body, st) {
        lemma_prepare_lambda(scope, env, st);
        let (apply, inner, s1) = prepare_lambda(scope, env, st)->0;
        let yields = env.ret_type@ != TypeView::Prim(Prim::Unit);
        law_build_adds(inner, body, yields, s1.pool, s1.cache);
        let built = build(inner, body, yields, s1.pool, s1.cache)->0;
        assert(evolves(st.pool, st.cache, s1.pool, s1.cache)) by {
            reveal(advances);
        }
        lemma_evolves_then(
            st.pool,
            st.cache,
            s1.pool,
            s1.cache,
            built.pool,
            built.cache,
        );
        let f = built.pool.function(apply)->0;
        let value = AnyDefinitionView::Function(
            FunctionView { locals: built.locals, code: built.code, ..f },
        );
        assert(numbered(built.pool) ==> numbered(s1.pool)) by {
            reveal(evolves);
        }
        lemma_value(st.pool, st.cache, built.pool, built.cache, apply.index, value);
        assert(advances(st, after, 0)) by {
            reveal(advances);
        }
    }
}

/// More code follows, which the translation of an expression gives.
proof fn lemma_then_translate(
    before: GenState,
    mid: GenState,
    scope: Scope,
    expr: Expr,
    inner: Option<Label>,
    calls: int,
)
    requires
        advances(before, mid, calls),
        calls >= 0,
    ensures
        translate(scope, expr, inner, mid) matches Some(after) ==> advances(before, after, calls),
    decreases expr, 2nat,
{
    law_translation_adds(scope, expr, inner, mid);
    if let Some(after) = translate(scope, expr, inner, mid) {
        lemma_then(before, mid, after, calls, 0);
    }
}

/// More code follows, which the translation of several expressions gives.
proof fn lemma_then_translate_all(
    before: GenState,
    mid: GenState,
    scope: Scope,
    exprs: Seq<Expr>,
    n: nat,
    inner: Option<Label>,
    calls: int,
)
    requires
        advances(before, mid, calls),
        calls >= 0,
    ensures
        translate_all(scope, exprs, n, inner, mid) matches Some(after) ==> advances(
            before,
            after,
            calls,
        ),
    decreases exprs, n,
{
    if 0 < n <= exprs.len() {
        lemma_then_translate_all(before, mid, scope, exprs, (n - 1) as nat, inner, calls);
        if let Some(s1) = translate_all(scope, exprs, (n - 1) as nat, inner, mid) {
            lemma_then_translate(before, s1, scope, exprs[n - 1], inner, calls);
        }
    }
}

/// See [`law_translation_adds`].
proof fn lemma_translate_args(
    scope: Scope,
    args: Seq<Expr>,
    flags: Seq<bool>,
    n: nat,
    before: GenState,
    st: GenState,
    calls: int,
)
    requires
        advances(before, st, calls),
        calls >= 0,
    ensures
        translate_args(scope, args, flags, n, st) matches Some(after) ==> advances(
            before,
            after,
            calls,
        ),
    decreases args, n,
{
    if 0 < n <= args.len() {
        lemma_translate_args(scope, args, flags, (n - 1) as nat, before, st, calls);
        if let Some(s1) = translate_args(scope, args, flags, (n - 1) as nat, st) {
            if flags[n - 1] {
                lemma_label(before, s1, calls);
                if let Some((skip, s2)) = s1.new_label() {
                    let s3 = s2.emit(Instr::Skip(skip));
                    lemma_plain(before, s2, Instr::Skip(skip), calls);
                    lemma_then_translate(before, s3, scope, args[n - 1], None, calls);
                    if let Some(s4) = translate(scope, args[n - 1], None, s3) {
                        lemma_plain(before, s4, Instr::Target(skip), calls);
                    }
                }
            } else {
                lemma_then_translate(before, s1, scope, args[n - 1], None, calls);
            }
        }
    }
}

/// See [`law_translation_adds`].
proof fn lemma_translate_static_call(
    scope: Scope,
    index: PoolIndex<Function>,
    args: Seq<Expr>,
    st: GenState,
)
    ensures
        translate_static_call(scope, index, args, st) matches Some(after) ==> advances(
            st,
            after,
            0,
        ),
    decreases args, args.len() + 1,
{
    lemma_open_static_call(index, st);
    if let Some((exit, flags, s1)) = open_static_call(index, st) {
        let n = passed(args.len(), flags.len());
        lemma_translate_args(scope, args, flags, n, st, s1, 1);
        if let Some(s2) = translate_args(scope, args, flags, n, s1) {
            lemma_close_call(st, s2, exit);
        }
    }
}

/// See [`law_translation_adds`].
proof fn lemma_translate_virtual_call(
    scope: Scope,
    name: PoolIndex<CName>,
    args: Seq<Expr>,
    st: GenState,
)
    ensures
        translate_virtual_call(scope, name, args, st) matches Some(after) ==> advances(
            st,
            after,
            0,
        ),
    decreases args, args.len() + 1,
{
    lemma_same(st);
    lemma_label(st, st, 0);
    if let Some((exit, s1)) = st.new_label() {
        let s2 = s1.emit(Instr::InvokeVirtual(exit, 0, name, 0));
        lemma_emit(st, s1, Instr::InvokeVirtual(exit, 0, name, 0), 0);
        lemma_then_translate_all(st, s2, scope, args, args.len(), None, 1);
        if let Some(s3) = translate_all(scope, args, args.len(), None, s2) {
            lemma_close_call(st, s3, exit);
        }
    }
}

/// See [`law_translation_adds`].
proof fn lemma_translate_call(scope: Scope, expr: Expr, exit: Option<Label>, st: GenState)
    requires
        expr is Call,
    ensures
        translate(scope, expr, exit, st) matches Some(after) ==> advances(st, after, 0),
    decreases expr, 0nat,
{
    if let Expr::Call(object, callable, type_args, args, meta, _) = expr {
        if translate(scope, expr, exit, st) is Some {
            lemma_same(st);
            lemma_label(st, st, 0);
            match callable {
                Callable::Static(id) => {
                    let index = scope.db.static_entry(id)->0;
                    lemma_translate_static_call(scope, index, args@, st);
                },
                Callable::Global(id) => {
                    let index = scope.db.global_entry(id)->0;
                    lemma_translate_static_call(scope, index, args@, st);
                },
                Callable::Cast => {
                    let id = scope.repo.cast(meta.arg_types@[0]@, meta.ret_type@)->0;
                    let index = scope.db.global_entry(id)->0;
                    lemma_translate_static_call(scope, index, args@, st);
                },
                Callable::Intrinsic(op) => {
                    let s1 = translate_intrinsic(scope, op, type_args@, st)->0;
                    lemma_intrinsic(scope, op, type_args@, st);
                    lemma_then_translate_all(st, s1, scope, args@, args@.len(), None, 0);
                },
                Callable::Instance(id) => {
                    let index = scope.db.method_entry(id)->0;
                    let name = (st.pool.definition(index.index)->0).name;
                    let function = st.pool.function(index)->0;
                    let (l, s1) = st.new_label()->0;
                    let s2 = s1.emit(Instr::Context(l));
                    lemma_plain(st, s1, Instr::Context(l), 0);
                    lemma_then_translate(st, s2, scope, *object, None, 0);
                    let s3 = translate(scope, *object, None, s2)->0;
                    let s4 = if function.flags.is_final {
                        lemma_translate_static_call(scope, index, args@, s3);
                        translate_static_call(scope, index, args@, s3)->0
                    } else {
                        lemma_translate_virtual_call(scope, name, args@, s3);
                        translate_virtual_call(scope, name, args@, s3)->0
                    };
                    lemma_then(st, s3, s4, 0, 0);
                    lemma_plain(st, s4, Instr::Target(l), 0);
                },
                Callable::Lambda => {
                    let (l, s1) = st.new_label()->0;
                    let s2 = s1.emit(Instr::Context(l));
                    lemma_plain(st, s1, Instr::Context(l), 0);
                    lemma_then_translate(st, s2, scope, *object, None, 0);
                    let s3 = translate(scope, *object, None, s2)->0;
                    let (pool, name) = s3.pool.with_name("Apply"@);
                    let s4 = GenState { pool, ..s3 };
                    lemma_name(s3.pool, s3.cache, "Apply"@);
                    lemma_pool(st, s3, s4, 0);
                    lemma_translate_virtual_call(scope, name, args@, s4);
                    let s5 = translate_virtual_call(scope, name, args@, s4)->0;
                    lemma_then(st, s4, s5, 0, 0);
                    lemma_plain(st, s5, Instr::Target(l), 0);
                },
            }
        }
    }
}

/// See [`law_translation_adds`].
proof fn lemma_translate_branch(scope: Scope, expr: Expr, exit: Option<Label>, st: GenState)
    requires
        expr is If || expr is Conditional || expr is While,
    ensures
        translate(scope, expr, exit, st) matches Some(after) ==> advances(st, after, 0),
    decreases expr, 0nat,
{
    lemma_same(st);
    lemma_label(st, st, 0);
    if translate(scope, expr, exit, st) is Some {
        let (l, s1) = st.new_label()->0;
        match expr {
            Expr::If(condition, then, otherwise, _) => {
                let s2 = s1.emit(Instr::JumpIfFalse(l));
                lemma_plain(st, s1, Instr::JumpIfFalse(l), 0);
                lemma_then_translate(st, s2, scope, *condition, None, 0);
                let s3 = translate(scope, *condition, None, s2)->0;
                let n = then.exprs@.len();
                lemma_then_translate_all(st, s3, scope, then.exprs@, n, exit, 0);
                let s4 = translate_all(scope, then.exprs@, n, exit, s3)->0;
                match otherwise {
                    None => {
                        lemma_plain(st, s4, Instr::Target(l), 0);
                    },
                    Some(block) => {
                        lemma_label(st, s4, 0);
                        let (m, s5) = s4.new_label()->0;
                        let s6 = s5.emit(Instr::Jump(m));
                        lemma_plain(st, s5, Instr::Jump(m), 0);
                        let s7 = s6.emit(Instr::Target(l));
                        lemma_plain(st, s6, Instr::Target(l), 0);
                        let k = block.exprs@.len();
                        lemma_then_translate_all(st, s7, scope, block.exprs@, k, Some(m), 0);
                        let s8 = translate_all(scope, block.exprs@, k, Some(m), s7)->0;
                        lemma_plain(st, s8, Instr::Target(m), 0);
                    },
                }
            },
            Expr::Conditional(condition, then, otherwise, _) => {
                lemma_label(st, s1, 0);
                let (m, s2) = s1.new_label()->0;
                let s3 = s2.emit(Instr::Conditional(l, m));
                lemma_plain(st, s2, Instr::Conditional(l, m), 0);
                lemma_then_translate(st, s3, scope, *condition, None, 0);
                let s4 = translate(scope, *condition, None, s3)->0;
                lemma_then_translate(st, s4, scope, *then, None, 0);
                let s5 = translate(scope, *then, None, s4)->0;
                let s6 = s5.emit(Instr::Target(l));
                lemma_plain(st, s5, Instr::Target(l), 0);
                lemma_then_translate(st, s6, scope, *otherwise, None, 0);
                let s7 = translate(scope, *otherwise, None, s6)->0;
                lemma_plain(st, s7, Instr::Target(m), 0);
            },
            Expr::While(condition, body, _) => {
                lemma_label(st, s1, 0);
                let (m, s2) = s1.new_label()->0;
                let s3 = s2.emit(Instr::Target(m));
                lemma_plain(st, s2, Instr::Target(m), 0);
                let s4 = s3.emit(Instr::JumpIfFalse(l));
                lemma_plain(st, s3, Instr::JumpIfFalse(l), 0);
                lemma_then_translate(st, s4, scope, *condition, None, 0);
                let s5 = translate(scope, *condition, None, s4)->0;
                let n = body.exprs@.len();
                lemma_then_translate_all(st, s5, scope, body.exprs@, n, Some(l), 0);
                let s6 = translate_all(scope, body.exprs@, n, Some(l), s5)->0;
                let s7 = s6.emit(Instr::Jump(m));
                lemma_plain(st, s6, Instr::Jump(m), 0);
                lemma_plain(st, s7, Instr::Target(l), 0);
            },
            _ => {},
        }
    }
}

/// Generating an expression only adds to the code, to the labels, to the locals and to
/// the pool. Every call that its code opens is closed in it, and no other.
pub proof fn law_translation_adds(scope: Scope, expr: Expr, exit: Option<Label>, st: GenState)
    ensures
        translate(scope, expr, exit, st) matches Some(after) ==> advances(st, after, 0),
    decreases expr, 1nat,
{
    lemma_same(st);
    lemma_label(st, st, 0);
    if let Some(end) = translate(scope, expr, exit, st) {
        match expr {
            Expr::Ident(local, _) => {
                lemma_plain(st, st, read_local(scope, st.locals, local)->0, 0);
            },
            Expr::Constant(constant, _) => {
                lemma_constant(constant, st);
            },
            Expr::Declare(local, typ, init, _) => {
                let typ = (typ->0)@;
                let (index, s1) = declare(scope, local, typ, st)->0;
                let item = TypedName { name: local_name(local), typ };
                lemma_commit_typed::<PoolLocal>(
                    item,
                    TypedKind::Local,
                    None,
                    scope.repo,
                    st.pool,
                    st.cache,
                );
                law_with_local(st.locals, local, typ, index);
                lemma_pool(st, st, s1, 0);
                if let Some(value) = init {
                    let s2 = s1.emit(Instr::Assign);
                    let s3 = s2.emit(Instr::Local(index));
                    lemma_plain(st, s1, Instr::Assign, 0);
                    lemma_plain(st, s2, Instr::Local(index), 0);
                    lemma_then_translate(st, s3, scope, *value, None, 0);
                }
            },
            Expr::DynCast(target, value, _) => {
                let instr = Instr::DynamicCast(scope.db.class_entry(target.id)->0, 0);
                lemma_plain(st, st, instr, 0);
                lemma_then_translate(st, st.emit(instr), scope, *value, None, 0);
            },
            Expr::Assign(left, right, _, _) => {
                let s1 = st.emit(Instr::Assign);
                lemma_plain(st, st, Instr::Assign, 0);
                lemma_then_translate(st, s1, scope, *left, None, 0);
                let s2 = translate(scope, *left, None, s1)->0;
                lemma_then_translate(st, s2, scope, *right, None, 0);
            },
            Expr::Call(_, _, _, _, _, _) => {
                lemma_translate_call(scope, expr, exit, st);
            },
            Expr::Lambda(env, body, _) => {
                lemma_translate_lambda(scope, env, *body, st);
            },
            Expr::Member(object, Member::ClassField(id), _) => {
                let (l, s1) = st.new_label()->0;
                let s2 = s1.emit(Instr::Context(l));
                lemma_plain(st, s1, Instr::Context(l), 0);
                lemma_then_translate(st, s2, scope, *object, None, 0);
                let s3 = translate(scope, *object, None, s2)->0;
                let instr = Instr::ObjectField(scope.db.field_entry(id)->0);
                lemma_plain(st, s3, instr, 0);
                lemma_plain(st, s3.emit(instr), Instr::Target(l), 0);
            },
            Expr::Member(object, Member::StructField(id), _) => {
                let instr = Instr::StructField(scope.db.field_entry(id)->0);
                lemma_plain(st, st, instr, 0);
                lemma_then_translate(st, st.emit(instr), scope, *object, None, 0);
            },
            Expr::ArrayElem(array, index, elem, _) => {
                let t = array_type(elem@);
                lemma_alloc_type(t, scope.repo, st.pool, st.cache);
                let typ = alloc_type(t, scope.repo, st.pool, st.cache)->0;
                let s1 = GenState { pool: typ.pool, cache: typ.cache, ..st };
                let s2 = s1.emit(Instr::ArrayElement(typ.index));
                lemma_pool(st, st, s1, 0);
                lemma_plain(st, s1, Instr::ArrayElement(typ.index), 0);
                lemma_then_translate(st, s2, scope, *array, None, 0);
                let s3 = translate(scope, *array, None, s2)->0;
                lemma_then_translate(st, s3, scope, *index, None, 0);
            },
            Expr::New(_, _, _) | Expr::Null(_) | Expr::This(_) | Expr::Super(_) | Expr::Break(
                _,
            ) => {
                lemma_plain(st, st, end.code.last(), 0);
                assert(end =~= st.emit(end.code.last()));
            },
            Expr::Return(Some(value), _) => {
                lemma_plain(st, st, Instr::Return, 0);
                lemma_then_translate(st, st.emit(Instr::Return), scope, *value, None, 0);
            },
            Expr::Return(None, _) => {
                lemma_plain(st, st, Instr::Return, 0);
                lemma_plain(st, st.emit(Instr::Return), Instr::Nop, 0);
            },
            Expr::Block(block) => {
                lemma_then_translate_all(
                    st,
                    st,
                    scope,
                    block.exprs@,
                    block.exprs@.len(),
                    exit,
                    0,
                );
            },
            Expr::If(_, _, _, _) | Expr::Conditional(_, _, _, _) | Expr::While(_, _, _) => {
                lemma_translate_branch(scope, expr, exit, st);
            },
            _ => {},
        }
    }
}

/// A local stands for the entry at the place where it first occurs among the locals, and
/// for none where it does not occur or there is no entry at its place.
pub proof fn law_index_of<A>(locals: IndicesView<A>, local: Local, i: int)
    ensures
        0 <= i < locals.entries.len() && locals.entries[i].0 == local && (forall|j: int|
            0 <= j < i ==> (#[trigger] locals.entries[j]).0 != local) ==> locals.index_of(local)
            == if i < locals.indices.len() {
            Some(locals.indices[i])
        } else {
            None
        },
        (forall|j: int|
            0 <= j < locals.entries.len() ==> (#[trigger] locals.entries[j]).0 != local)
            ==> locals.index_of(local) is None,
{
    law_key_index(locals.entries, local);
}

} // verus!
