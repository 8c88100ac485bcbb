//! Generated code refers only to what is in the pool.

use crate::ast::{Callable, Constant, Expr, LambdaEnv, Literal, Local, Member};
use crate::builders::{commit_class, TypedKind, TypedName};
use crate::bytecode::{Instr, Intrinsic, Label};
use crate::growth::{evolves, law_intern, numbered};
use crate::index_map::entry_keys;
use crate::lambda::lemma_ready_call_pool;
use crate::names::local_name;
use crate::pool::{
    AnyDefinitionView, CName, Function, FunctionView, PoolIndex, PoolLocal, PoolView,
};
use crate::progress::{advances, law_build_adds, law_translation_adds, lemma_prepare_lambda};
use crate::references::{
    are_fields, are_locals, are_params, covers, good, is_function, is_name, kinds_stay,
    lemma_covers_stays, lemma_grows_kinds, lemma_indices_stay, lemma_kinds_then,
    lemma_refers_all_stays, lemma_refers_resolved, lemma_refers_stays, lemma_sustains_alloc_type,
    lemma_sustains_commit_class, lemma_sustains_commit_typed, lemma_sustains_name,
    lemma_sustains_same, lemma_sustains_summoner, lemma_sustains_texts, lemma_sustains_value,
    of_kind, refers, refers_all, sound_definition, sustains,
};
use crate::translation::{
    build, captured_values, closure_outline, declare, enter, implement_summoner, lambda_base,
    lambda_captures, lambda_params, open_static_call, passed, prepare_lambda, read_local,
    ready_args, ready_call, translate, translate_all, translate_args, translate_constant,
    translate_intrinsic, translate_lambda, translate_static_call, translate_virtual_call, GenState,
    Scope,
};
use crate::type_cache::{alloc_type, CacheView};
use crate::types::{array_type, Prim, Type, TypeView};
use vstd::prelude::*;

verus! {

/// The pool is sound and consistent, and all that is in scope is in it.
pub open spec fn ready(scope: Scope, pool: PoolView, cache: CacheView) -> bool {
    &&& good(pool, cache)
    &&& are_params(pool, scope.params.indices)
    &&& are_fields(pool, scope.captures.indices)
    &&& covers(pool, scope.db)
}

/// All that a function refers to that is being generated is in the pool.
pub open spec fn tight(scope: Scope, st: GenState) -> bool {
    &&& ready(scope, st.pool, st.cache)
    &&& are_locals(st.pool, st.locals.indices)
    &&& refers_all(st.pool, st.code)
}

/// A function whose references are all to what is in the pool stays so, as long as the
/// entries of the pool can be numbered.
#[verifier::opaque]
pub open spec fn keeps(scope: Scope, before: GenState, after: GenState) -> bool {
    &&& before.pool.names.len() <= after.pool.names.len()
    &&& before.pool.definitions.len() <= after.pool.definitions.len()
    &&& numbered(after.pool) && tight(scope, before) ==> tight(scope, after)
}

proof fn lemma_same(scope: Scope, st: GenState)
    ensures
        keeps(scope, st, st),
{
    reveal(keeps);
}

proof fn lemma_then(scope: Scope, before: GenState, mid: GenState, after: GenState)
    requires
        keeps(scope, before, mid),
        keeps(scope, mid, after),
    ensures
        keeps(scope, before, after),
{
    reveal(keeps);
}

/// One more instruction.
proof fn lemma_emit(scope: Scope, before: GenState, mid: GenState, instr: Instr<Label>)
    requires
        keeps(scope, before, mid),
        numbered(mid.pool) && tight(scope, before) && tight(scope, mid) ==> refers(
            mid.pool,
            instr,
        ),
    ensures
        keeps(scope, before, mid.emit(instr)),
{
    reveal(keeps);
}

/// A label is given out.
proof fn lemma_label(scope: Scope, before: GenState, mid: GenState)
    requires
        keeps(scope, before, mid),
    ensures
        mid.new_label() matches Some((_, after)) ==> keeps(scope, before, after),
{
    reveal(keeps);
}

/// What is in scope stays there where all entries stay of their kind.
proof fn lemma_tight_stays(scope: Scope, st: GenState, after: GenState)
    requires
        tight(scope, st),
        kinds_stay(st.pool, after.pool),
        good(after.pool, after.cache),
        after.code == st.code,
        after.locals == st.locals,
    ensures
        tight(scope, after),
{
    lemma_indices_stay(st.pool, after.pool);
    lemma_refers_all_stays(st.pool, after.pool, st.code);
    lemma_covers_stays(st.pool, after.pool, scope.db);
}

/// The pool changes.
proof fn lemma_pool(scope: Scope, before: GenState, mid: GenState, after: GenState)
    requires
        keeps(scope, before, mid),
        after.code == mid.code,
        after.locals == mid.locals,
        sustains(mid.pool, mid.cache, after.pool, after.cache),
    ensures
        keeps(scope, before, after),
{
    reveal(keeps);
    reveal(sustains);
    if numbered(after.pool) && tight(scope, before) {
        lemma_tight_stays(scope, mid, after);
    }
}

/// A local is declared.
proof fn lemma_declare(scope: Scope, st: GenState, after: GenState, index: PoolIndex<PoolLocal>)
    requires
        after.code == st.code,
        after.locals.indices == st.locals.indices.push(index),
        sustains(st.pool, st.cache, after.pool, after.cache),
        numbered(after.pool) ==> of_kind(after.pool, TypedKind::Local, index.index),
    ensures
        keeps(scope, st, after),
{
    reveal(keeps);
    reveal(sustains);
    if numbered(after.pool) && tight(scope, st) {
        let same = GenState { locals: st.locals, ..after };
        lemma_tight_stays(scope, st, same);
    }
}

/// The pool only grows.
proof fn lemma_lengths(scope: Scope, expr: Expr, exit: Option<Label>, st: GenState)
    requires
        !tight(scope, st),
    ensures
        translate(scope, expr, exit, st) matches Some(after) ==> keeps(scope, st, after),
{
    law_translation_adds(scope, expr, exit, st);
    reveal(advances);
    reveal(evolves);
    reveal(keeps);
}

/// A local that can be read is in the pool.
proof fn lemma_read_local(scope: Scope, st: GenState, local: Local)
    requires
        tight(scope, st),
    ensures
        read_local(scope, st.locals, local) matches Some(instr) ==> refers(st.pool, instr),
{
    entry_keys(st.locals.entries).index_of_first_ensures(local);
    entry_keys(scope.params.entries).index_of_first_ensures(local);
    entry_keys(scope.captures.entries).index_of_first_ensures(local);
}

proof fn lemma_constant(scope: Scope, constant: Constant, st: GenState)
    ensures
        keeps(scope, st, translate_constant(constant, st)),
{
    lemma_same(scope, st);
    let end = translate_constant(constant, st);
    let mid = GenState { pool: end.pool, ..st };
    lemma_sustains_same(st.pool, st.cache);
    match constant {
        Constant::String(Literal::Name, text) => {
            lemma_sustains_name(st.pool, st.cache, st.pool, st.cache, text@);
        },
        Constant::String(Literal::String, text) => {
            law_intern(st.pool.strings, text@);
            lemma_sustains_texts(st.pool, st.cache, mid.pool);
        },
        Constant::String(Literal::Resource, text) => {
            law_intern(st.pool.resources, text@);
            lemma_sustains_texts(st.pool, st.cache, mid.pool);
        },
        Constant::String(Literal::TweakDbId, text) => {
            law_intern(st.pool.tweakdb_ids, text@);
            lemma_sustains_texts(st.pool, st.cache, mid.pool);
        },
        _ => {},
    }
    lemma_pool(scope, st, st, mid);
    lemma_emit(scope, st, mid, end.code.last());
    assert(end =~= mid.emit(end.code.last()));
}

proof fn lemma_intrinsic(scope: Scope, op: Intrinsic, type_args: Seq<Type>, st: GenState)
    ensures
        translate_intrinsic(scope, op, type_args, st) matches Some(after) ==> keeps(
            scope,
            st,
            after,
        ),
{
    lemma_same(scope, st);
    lemma_sustains_same(st.pool, st.cache);
    if let Some(end) = translate_intrinsic(scope, op, type_args, st) {
        let mid = GenState { pool: end.pool, cache: end.cache, ..st };
        if type_args.len() > 0 {
            let value = type_args[0]@;
            let array = array_type(value);
            lemma_sustains_alloc_type(st.pool, st.cache, st.pool, st.cache, value, scope.repo);
            lemma_sustains_alloc_type(st.pool, st.cache, st.pool, st.cache, array, scope.repo);
        }
        lemma_pool(scope, st, st, mid);
        lemma_emit(scope, st, mid, end.code.last());
        assert(end =~= mid.emit(end.code.last()));
    }
}

proof fn lemma_open_static_call(scope: Scope, index: PoolIndex<Function>, st: GenState)
    requires
        tight(scope, st) ==> is_function(st.pool, index),
    ensures
        open_static_call(index, st) matches Some((_, _, after)) ==> keeps(scope, st, after),
{
    lemma_same(scope, st);
    lemma_label(scope, st, st);
    if let Some((exit, flags, after)) = open_static_call(index, st) {
        lemma_emit(scope, st, (st.new_label()->0).1, Instr::InvokeStatic(exit, 0, index, 0));
    }
}

proof fn lemma_close_call(scope: Scope, before: GenState, st: GenState, exit: Label)
    requires
        keeps(scope, before, st),
    ensures
        keeps(scope, before, st.close_call(exit)),
{
    lemma_emit(scope, before, st, Instr::ParamEnd);
    lemma_emit(scope, before, st.emit(Instr::ParamEnd), Instr::Target(exit));
}

proof fn lemma_ready_args(
    scope: Scope,
    instrs: Seq<Instr<Label>>,
    flags: Seq<bool>,
    n: nat,
    st: GenState,
)
    requires
        n <= instrs.len(),
        tight(scope, st),
        refers_all(st.pool, instrs),
    ensures
        ready_args(instrs, flags, n, st) matches Some(after) ==> {
            &&& tight(scope, after)
            &&& after.pool == st.pool
            &&& after.cache == st.cache
        },
    decreases n,
{
    if n > 0 {
        lemma_ready_args(scope, instrs, flags, (n - 1) as nat, st);
        assert(refers(st.pool, instrs[n - 1]));
    }
}

/// A call whose arguments are finished instructions.
proof fn lemma_ready_call(
    scope: Scope,
    index: PoolIndex<Function>,
    instrs: Seq<Instr<Label>>,
    st: GenState,
)
    requires
        tight(scope, st),
        is_function(st.pool, index),
        refers_all(st.pool, instrs),
    ensures
        ready_call(index, instrs, st) matches Some(after) ==> {
            &&& tight(scope, after)
            &&& after.pool == st.pool
            &&& after.cache == st.cache
        },
{
    if let Some((exit, flags, s1)) = open_static_call(index, st) {
        assert(tight(scope, s1));
        lemma_ready_args(scope, instrs, flags, passed(instrs.len(), flags.len()), s1);
    }
}

/// All of a lambda but its body: what is in scope there is in the pool.
proof fn lemma_prepared(scope: Scope, env: LambdaEnv, st: GenState)
    requires
        tight(scope, st),
    ensures
        prepare_lambda(scope, env, st) matches Some((apply, inner, after)) ==> {
            numbered(after.pool) ==> {
                &&& tight(scope, after)
                &&& ready(inner, after.pool, after.cache)
                &&& is_function(after.pool, apply)
            }
        },
{
    if let Some((apply, inner, after)) = prepare_lambda(scope, env, st) {
        let params = lambda_params(env);
        let captures = lambda_captures(env);
        let args = captured_values(scope, st.locals, env.captures@)->0;
        let base = lambda_base(scope, params.len())->0;
        let outline = closure_outline(params, captures, st.pool.definitions.len());
        let class = commit_class(outline, base, scope.repo, st.pool, st.cache)->0;
        let c = class.pool.class(class.index)->0;
        let summoner = c.methods[0];
        let pool = implement_summoner(class.index, summoner, class.pool)->0;
        let s1 = GenState { pool, cache: class.cache, ..st };
        lemma_sustains_commit_class(st.pool, st.cache, outline, base, scope.repo);
        if numbered(after.pool) {
            lemma_ready_call_pool(summoner, args, s1);
            assert(after.pool == pool);
            law_intern(class.pool.names, "self"@);
            assert(numbered(class.pool));
            assert(good(class.pool, class.cache) && kinds_stay(st.pool, class.pool)) by {
                reveal(sustains);
            }
            assert(sound_definition(
                class.pool,
                class.pool.definitions[class.index.index as int],
            ));
            assert(is_function(class.pool, c.methods[0]));
            assert(is_function(class.pool, c.methods[1]));
            lemma_sustains_summoner(class.pool, class.cache, class.index, summoner);
            assert(good(pool, class.cache) && kinds_stay(class.pool, pool)) by {
                reveal(sustains);
            }
            lemma_kinds_then(st.pool, class.pool, pool);
            lemma_tight_stays(scope, st, s1);
            assert forall|i: int| 0 <= i < args.len() implies refers(pool, #[trigger] args[i]) by {
                assert(read_local(scope, st.locals, env.captures@[i].1.1) is Some);
                lemma_read_local(scope, st, env.captures@[i].1.1);
                lemma_refers_stays(st.pool, pool, args[i]);
            }
            lemma_indices_stay(class.pool, pool);
            assert(is_function(pool, summoner));
            lemma_ready_call(scope, summoner, args, s1);
            assert(sound_definition(pool, pool.definitions[apply.index as int]));
            assert(are_fields(pool, c.fields));
        }
    }
}

/// Where all that is in scope is in the pool, all that the code of a function refers to is
/// there too once it is generated. All definitions of the pool are sound then, those of
/// lambda classes among them.
pub proof fn law_build_sound(
    scope: Scope,
    body: Expr,
    yields: bool,
    pool: PoolView,
    cache: CacheView,
)
    requires
        ready(scope, pool, cache),
    ensures
        build(scope, body, yields, pool, cache) matches Some(built) ==> {
            numbered(built.pool) ==> {
                &&& ready(scope, built.pool, built.cache)
                &&& are_locals(built.pool, built.locals)
                &&& refers_all(built.pool, built.code)
            }
        },
    decreases body, 2nat,
{
    let begin = enter(yields, pool, cache);
    law_translation_sound(scope, body, None, begin);
    if let Some(built) = build(scope, body, yields, pool, cache) {
        let st = translate(scope, body, None, begin)->0;
        if numbered(built.pool) {
            assert(tight(scope, begin));
            assert(tight(scope, st)) by {
                reveal(keeps);
            }
            let code = st.emit(Instr::Nop).code;
            assert(refers_all(st.pool, code));
            lemma_refers_resolved(st.pool, code, code.len() as int);
        }
    }
}

/// See [`law_translation_sound`].
proof fn lemma_translate_lambda(scope: Scope, env: LambdaEnv, body: Expr, st: GenState)
    ensures
        translate_lambda(scope, env, body, st) matches Some(after) ==> keeps(scope, st, after),
    decreases body, 3nat,
{
    if let Some(after) = translate_lambda(scope, env, body, st) {
        let yields = env.ret_type@ != TypeView::Prim(Prim::Unit);
        let (apply, inner, mid) = prepare_lambda(scope, env, st)->0;
        let built = build(inner, body, yields, mid.pool, mid.cache)->0;
        lemma_prepare_lambda(scope, env, st);
        law_build_adds(inner, body, yields, mid.pool, mid.cache);
        assert(st.pool.names.len() <= mid.pool.names.len() <= built.pool.names.len()
            && st.pool.definitions.len() <= mid.pool.definitions.len()
            <= built.pool.definitions.len()) by {
            reveal(advances);
            reveal(evolves);
        }
        if numbered(after.pool) && tight(scope, st) {
            assert(numbered(built.pool) && numbered(mid.pool));
            lemma_prepared(scope, env, st);
            law_build_sound(inner, body, yields, mid.pool, mid.cache);
            lemma_grows_kinds(mid.pool, built.pool);
            let done = GenState { pool: built.pool, cache: built.cache, ..mid };
            lemma_tight_stays(scope, mid, done);
            let f = built.pool.function(apply)->0;
            let value = AnyDefinitionView::Function(
                FunctionView { locals: built.locals, code: built.code, ..f },
            );
            assert(sound_definition(
                built.pool,
                built.pool.definitions[apply.index as int],
            ));
            lemma_sustains_same(built.pool, built.cache);
            lemma_sustains_value(
                built.pool,
                built.cache,
                built.pool,
                built.cache,
                apply.index,
                value,
            );
            assert(good(after.pool, after.cache) && kinds_stay(built.pool, after.pool)) by {
                reveal(sustains);
            }
            lemma_tight_stays(scope, done, after);
        }
        reveal(keeps);
    }
}

/// More code follows, which the translation of an expression gives.
proof fn lemma_then_translate(
    before: GenState,
    mid: GenState,
    scope: Scope,
    expr: Expr,
    inner: Option<Label>,
)
    requires
        keeps(scope, before, mid),
    ensures
        translate(scope, expr, inner, mid) matches Some(after) ==> keeps(scope, before, after),
    decreases expr, 2nat,
{
    law_translation_sound(scope, expr, inner, mid);
    if let Some(after) = translate(scope, expr, inner, mid) {
        lemma_then(scope, before, mid, after);
    }
}

/// More code follows, which the translation of several expressions gives.
proof fn lemma_then_translate_all(
    before: GenState,
    mid: GenState,
    scope: Scope,
    exprs: Seq<Expr>,
    n: nat,
    inner: Option<Label>,
)
    requires
        keeps(scope, before, mid),
    ensures
        translate_all(scope, exprs, n, inner, mid) matches Some(after) ==> keeps(
            scope,
            before,
            after,
        ),
    decreases exprs, n,
{
    if 0 < n <= exprs.len() {
        lemma_then_translate_all(before, mid, scope, exprs, (n - 1) as nat, inner);
        if let Some(s1) = translate_all(scope, exprs, (n - 1) as nat, inner, mid) {
            lemma_then_translate(before, s1, scope, exprs[n - 1], inner);
        }
    }
}

/// See [`law_translation_sound`].
proof fn lemma_translate_args(
    scope: Scope,
    args: Seq<Expr>,
    flags: Seq<bool>,
    n: nat,
    before: GenState,
    st: GenState,
)
    requires
        keeps(scope, before, st),
    ensures
        translate_args(scope, args, flags, n, st) matches Some(after) ==> keeps(
            scope,
            before,
            after,
        ),
    decreases args, n,
{
    if 0 < n <= args.len() {
        lemma_translate_args(scope, args, flags, (n - 1) as nat, before, st);
        if let Some(s1) = translate_args(scope, args, flags, (n - 1) as nat, st) {
            if flags[n - 1] {
                lemma_label(scope, before, s1);
                if let Some((skip, s2)) = s1.new_label() {
                    let s3 = s2.emit(Instr::Skip(skip));
                    lemma_emit(scope, before, s2, Instr::Skip(skip));
                    lemma_then_translate(before, s3, scope, args[n - 1], None);
                    if let Some(s4) = translate(scope, args[n - 1], None, s3) {
                        lemma_emit(scope, before, s4, Instr::Target(skip));
                    }
                }
            } else {
                lemma_then_translate(before, s1, scope, args[n - 1], None);
            }
        }
    }
}

/// See [`law_translation_sound`].
proof fn lemma_translate_static_call(
    scope: Scope,
    index: PoolIndex<Function>,
    args: Seq<Expr>,
    st: GenState,
)
    requires
        tight(scope, st) ==> is_function(st.pool, index),
    ensures
        translate_static_call(scope, index, args, st) matches Some(after) ==> keeps(
            scope,
            st,
            after,
        ),
    decreases args, args.len() + 1,
{
    lemma_open_static_call(scope, index, st);
    if let Some((exit, flags, s1)) = open_static_call(index, st) {
        let n = passed(args.len(), flags.len());
        lemma_translate_args(scope, args, flags, n, st, s1);
        if let Some(s2) = translate_args(scope, args, flags, n, s1) {
            lemma_close_call(scope, st, s2, exit);
        }
    }
}

/// See [`law_translation_sound`].
proof fn lemma_translate_virtual_call(
    scope: Scope,
    name: PoolIndex<CName>,
    args: Seq<Expr>,
    st: GenState,
)
    requires
        tight(scope, st) ==> is_name(st.pool, name),
    ensures
        translate_virtual_call(scope, name, args, st) matches Some(after) ==> keeps(
            scope,
            st,
            after,
        ),
    decreases args, args.len() + 1,
{
    lemma_same(scope, st);
    lemma_label(scope, st, st);
    if let Some((exit, s1)) = st.new_label() {
        let s2 = s1.emit(Instr::InvokeVirtual(exit, 0, name, 0));
        lemma_emit(scope, st, s1, Instr::InvokeVirtual(exit, 0, name, 0));
        lemma_then_translate_all(st, s2, scope, args, args.len(), None);
        if let Some(s3) = translate_all(scope, args, args.len(), None, s2) {
            lemma_close_call(scope, st, s3, exit);
        }
    }
}

/// See [`law_translation_sound`].
proof fn lemma_translate_call(scope: Scope, expr: Expr, exit: Option<Label>, st: GenState)
    requires
        expr is Call,
    ensures
        translate(scope, expr, exit, st) matches Some(after) ==> keeps(scope, st, after),
    decreases expr, 0nat,
{
    if let Expr::Call(object, callable, type_args, args, meta, _) = expr {
        if translate(scope, expr, exit, st) is Some {
            lemma_same(scope, st);
            lemma_label(scope, st, st);
            match callable {
                Callable::Static(id) => {
                    let index = scope.db.static_entry(id)->0;
                    lemma_translate_static_call(scope, index, args@, st);
                },
                Callable::Global(id) => {
                    let index = scope.db.global_entry(id)->0;
                    lemma_translate_static_call(scope, index, args@, st);
                },
                Callable::Cast => {
                    let id = scope.repo.cast(meta.arg_types@[0]@, meta.ret_type@)->0;
                    let index = scope.db.global_entry(id)->0;
                    lemma_translate_static_call(scope, index, args@, st);
                },
                Callable::Intrinsic(op) => {
                    let s1 = translate_intrinsic(scope, op, type_args@, st)->0;
                    lemma_intrinsic(scope, op, type_args@, st);
                    lemma_then_translate_all(st, s1, scope, args@, args@.len(), None);
                },
                Callable::Instance(id) => {
                    let index = scope.db.method_entry(id)->0;
                    let name = (st.pool.definition(index.index)->0).name;
                    let function = st.pool.function(index)->0;
                    let (l, s1) = st.new_label()->0;
                    let s2 = s1.emit(Instr::Context(l));
                    lemma_emit(scope, st, s1, Instr::Context(l));
                    lemma_then_translate(st, s2, scope, *object, None);
                    let s3 = translate(scope, *object, None, s2)->0;
                    if tight(scope, st) {
                        assert(sound_definition(st.pool, st.pool.definitions[index.index as int]));
                        assert(is_name(s3.pool, name)) by {
                            reveal(keeps);
                        }
                        let s4 = if function.flags.is_final {
                            lemma_translate_static_call(scope, index, args@, s3);
                            translate_static_call(scope, index, args@, s3)->0
                        } else {
                            lemma_translate_virtual_call(scope, name, args@, s3);
                            translate_virtual_call(scope, name, args@, s3)->0
                        };
                        lemma_then(scope, st, s3, s4);
                        lemma_emit(scope, st, s4, Instr::Target(l));
                    } else {
                        lemma_lengths(scope, expr, exit, st);
                    }
                },
                Callable::Lambda => {
                    let (l, s1) = st.new_label()->0;
                    let s2 = s1.emit(Instr::Context(l));
                    lemma_emit(scope, st, s1, Instr::Context(l));
                    lemma_then_translate(st, s2, scope, *object, None);
                    let s3 = translate(scope, *object, None, s2)->0;
                    lemma_sustains_same(s3.pool, s3.cache);
                    lemma_sustains_name(s3.pool, s3.cache, s3.pool, s3.cache, "Apply"@);
                    let (pool, name) = s3.pool.with_name("Apply"@);
                    let s4 = GenState { pool, ..s3 };
                    lemma_pool(scope, st, s3, s4);
                    lemma_translate_virtual_call(scope, name, args@, s4);
                    let s5 = translate_virtual_call(scope, name, args@, s4)->0;
                    lemma_then(scope, st, s4, s5);
                    lemma_emit(scope, st, s5, Instr::Target(l));
                },
            }
        }
    }
}

/// See [`law_translation_sound`].
proof fn lemma_translate_branch(scope: Scope, expr: Expr, exit: Option<Label>, st: GenState)
    requires
        expr is If || expr is Conditional || expr is While,
    ensures
        translate(scope, expr, exit, st) matches Some(after) ==> keeps(scope, st, after),
    decreases expr, 0nat,
{
    lemma_same(scope, st);
    lemma_label(scope, st, st);
    if translate(scope, expr, exit, st) is Some {
        let (l, s1) = st.new_label()->0;
        match expr {
            Expr::If(condition, then, otherwise, _) => {
                let s2 = s1.emit(Instr::JumpIfFalse(l));
                lemma_emit(scope, st, s1, Instr::JumpIfFalse(l));
                lemma_then_translate(st, s2, scope, *condition, None);
                let s3 = translate(scope, *condition, None, s2)->0;
                let n = then.exprs@.len();
                lemma_then_translate_all(st, s3, scope, then.exprs@, n, exit);
                let s4 = translate_all(scope, then.exprs@, n, exit, s3)->0;
                match otherwise {
                    None => {
                        lemma_emit(scope, st, s4, Instr::Target(l));
                    },
                    Some(block) => {
                        lemma_label(scope, st, s4);
                        let (m, s5) = s4.new_label()->0;
                        let s6 = s5.emit(Instr::Jump(m));
                        lemma_emit(scope, st, s5, Instr::Jump(m));
                        let s7 = s6.emit(Instr::Target(l));
                        lemma_emit(scope, st, s6, Instr::Target(l));
                        let k = block.exprs@.len();
                        lemma_then_translate_all(st, s7, scope, block.exprs@, k, Some(m));
                        let s8 = translate_all(scope, block.exprs@, k, Some(m), s7)->0;
                        lemma_emit(scope, st, s8, Instr::Target(m));
                    },
                }
            },
            Expr::Conditional(condition, then, otherwise, _) => {
                lemma_label(scope, st, s1);
                let (m, s2) = s1.new_label()->0;
                let s3 = s2.emit(Instr::Conditional(l, m));
                lemma_emit(scope, st, s2, Instr::Conditional(l, m));
                lemma_then_translate(st, s3, scope, *condition, None);
                let s4 = translate(scope, *condition, None, s3)->0;
                lemma_then_translate(st, s4, scope, *then, None);
                let s5 = translate(scope, *then, None, s4)->0;
                let s6 = s5.emit(Instr::Target(l));
                lemma_emit(scope, st, s5, Instr::Target(l));
                lemma_then_translate(st, s6, scope, *otherwise, None);
                let s7 = translate(scope, *otherwise, None, s6)->0;
                lemma_emit(scope, st, s7, Instr::Target(m));
            },
            Expr::While(condition, body, _) => {
                lemma_label(scope, st, s1);
                let (m, s2) = s1.new_label()->0;
                let s3 = s2.emit(Instr::Target(m));
                lemma_emit(scope, st, s2, Instr::Target(m));
                let s4 = s3.emit(Instr::JumpIfFalse(l));
                lemma_emit(scope, st, s3, Instr::JumpIfFalse(l));
                lemma_then_translate(st, s4, scope, *condition, None);
                let s5 = translate(scope, *condition, None, s4)->0;
                let n = body.exprs@.len();
                lemma_then_translate_all(st, s5, scope, body.exprs@, n, Some(l));
                let s6 = translate_all(scope, body.exprs@, n, Some(l), s5)->0;
                let s7 = s6.emit(Instr::Jump(m));
                lemma_emit(scope, st, s6, Instr::Jump(m));
                lemma_emit(scope, st, s7, Instr::Target(l));
            },
            _ => {},
        }
    }
}

/// Where all that is in scope is in the pool, all that the code of an expression refers to
/// is there too once it is generated, and all definitions of the pool are sound.
pub proof fn law_translation_sound(scope: Scope, expr: Expr, exit: Option<Label>, st: GenState)
    ensures
        translate(scope, expr, exit, st) matches Some(after) ==> keeps(scope, st, after),
    decreases expr, 1nat,
{
    lemma_same(scope, st);
    lemma_label(scope, st, st);
    if let Some(end) = translate(scope, expr, exit, st) {
        match expr {
            Expr::Ident(local, _) => {
                if tight(scope, st) {
                    lemma_read_local(scope, st, local);
                }
                lemma_emit(scope, st, st, read_local(scope, st.locals, local)->0);
            },
            Expr::Constant(constant, _) => {
                lemma_constant(scope, constant, st);
            },
            Expr::Declare(local, typ, init, _) => {
                let typ = (typ->0)@;
                let (index, s1) = declare(scope, local, typ, st)->0;
                let item = TypedName { name: local_name(local), typ };
                lemma_sustains_same(st.pool, st.cache);
                lemma_sustains_commit_typed::<PoolLocal>(
                    st.pool,
                    st.cache,
                    st.pool,
                    st.cache,
                    item,
                    TypedKind::Local,
                    None,
                    scope.repo,
                );
                lemma_declare(scope, st, s1, index);
                if let Some(value) = init {
                    let s2 = s1.emit(Instr::Assign);
                    let s3 = s2.emit(Instr::Local(index));
                    lemma_emit(scope, st, s1, Instr::Assign);
                    lemma_emit(scope, st, s2, Instr::Local(index));
                    lemma_then_translate(st, s3, scope, *value, None);
                }
            },
            Expr::DynCast(target, value, _) => {
                let instr = Instr::DynamicCast(scope.db.class_entry(target.id)->0, 0);
                lemma_emit(scope, st, st, instr);
                lemma_then_translate(st, st.emit(instr), scope, *value, None);
            },
            Expr::Assign(left, right, _, _) => {
                let s1 = st.emit(Instr::Assign);
                lemma_emit(scope, st, st, Instr::Assign);
                lemma_then_translate(st, s1, scope, *left, None);
                let s2 = translate(scope, *left, None, s1)->0;
                lemma_then_translate(st, s2, scope, *right, None);
            },
            Expr::Call(_, _, _, _, _, _) => {
                lemma_translate_call(scope, expr, exit, st);
            },
            Expr::Lambda(env, body, _) => {
                lemma_translate_lambda(scope, env, *body, st);
            },
            Expr::Member(object, Member::ClassField(id), _) => {
                let (l, s1) = st.new_label()->0;
                let s2 = s1.emit(Instr::Context(l));
                lemma_emit(scope, st, s1, Instr::Context(l));
                lemma_then_translate(st, s2, scope, *object, None);
                let s3 = translate(scope, *object, None, s2)->0;
                let instr = Instr::ObjectField(scope.db.field_entry(id)->0);
                lemma_emit(scope, st, s3, instr);
                lemma_emit(scope, st, s3.emit(instr), Instr::Target(l));
            },
            Expr::Member(object, Member::StructField(id), _) => {
                let instr = Instr::StructField(scope.db.field_entry(id)->0);
                lemma_emit(scope, st, st, instr);
                lemma_then_translate(st, st.emit(instr), scope, *object, None);
            },
            Expr::ArrayElem(array, index, elem, _) => {
                let t = array_type(elem@);
                lemma_sustains_same(st.pool, st.cache);
                lemma_sustains_alloc_type(
                    st.pool,
                    st.cache,
                    st.pool,
                    st.cache,
                    t,
                    scope.repo,
                );
                let typ = alloc_type(t, scope.repo, st.pool, st.cache)->0;
                let s1 = GenState { pool: typ.pool, cache: typ.cache, ..st };
                let s2 = s1.emit(Instr::ArrayElement(typ.index));
                lemma_pool(scope, st, st, s1);
                lemma_emit(scope, st, s1, Instr::ArrayElement(typ.index));
                lemma_then_translate(st, s2, scope, *array, None);
                let s3 = translate(scope, *array, None, s2)->0;
                lemma_then_translate(st, s3, scope, *index, None);
            },
            Expr::New(_, _, _) | Expr::Null(_) | Expr::This(_) | Expr::Super(_) | Expr::Break(
                _,
            ) => {
                lemma_emit(scope, st, st, end.code.last());
                assert(end =~= st.emit(end.code.last()));
            },
            Expr::Return(Some(value), _) => {
                lemma_emit(scope, st, st, Instr::Return);
                lemma_then_translate(st, st.emit(Instr::Return), scope, *value, None);
            },
            Expr::Return(None, _) => {
                lemma_emit(scope, st, st, Instr::Return);
                lemma_emit(scope, st, st.emit(Instr::Return), Instr::Nop);
            },
            Expr::Block(block) => {
                lemma_then_translate_all(
                    st,
                    st,
                    scope,
                    block.exprs@,
                    block.exprs@.len(),
                    exit,
                );
            },
            Expr::If(_, _, _, _) | Expr::Conditional(_, _, _, _) | Expr::While(_, _, _) => {
                lemma_translate_branch(scope, expr, exit, st);
            },
            _ => {},
        }
    }
}

} // verus!
