//! What becomes of a lambda.

use crate::ast::{Expr, LambdaEnv, Local, Span};
use crate::builders::{commit_class, TypedKind, TypedName};
use crate::bytecode::{Instr, Label, Offset};
use crate::committed::{
    law_commit_class_parts, law_pool_names, lemma_outlined_stays, lemma_typed_as_stays, nameable,
    outlined, same_but, typed_as,
};
use crate::growth::{
    consistent, extends, is_method, is_type, law_commit_class, law_intern, numbered,
};
use crate::index_map::entry_keys;
use crate::names::{field_name, lambda_name, param_name};
use crate::pool::{
    intern, AnyDefinitionView, Function, FunctionFlags, PoolClass, PoolField, PoolIndex,
    PoolLocal, PoolParam, PoolType, PoolView,
};
use crate::progress::paired;
use crate::translation::{
    build, captured_values, closure_outline, field_stores, implement_summoner, lambda_base,
    lambda_captures, lambda_params, open_static_call, passed, prepare_lambda, read_local,
    ready_args, ready_call, summoner_code, translate, translate_lambda, GenState, IndicesView,
    Scope,
};
use crate::type_cache::{pool_name, Entry};
use crate::types::{Prim, Type, TypeId, TypeView};
use vstd::prelude::*;

verus! {

/// The class of a lambda, before its methods have code.
pub open spec fn lambda_class(scope: Scope, env: LambdaEnv, st: GenState) -> Option<
    Entry<PoolClass>,
> {
    match lambda_base(scope, env.params@.len()) {
        Some(base) => commit_class(
            closure_outline(
                lambda_params(env),
                lambda_captures(env),
                st.pool.definitions.len(),
            ),
            base,
            scope.repo,
            st.pool,
            st.cache,
        ),
        None => None,
    }
}

/// The code of a call of `index` that passes what `values` read.
pub open spec fn plain_call(
    index: PoolIndex<Function>,
    values: Seq<Instr<Label>>,
    exit: Label,
) -> Seq<Instr<Label>> {
    seq![Instr::InvokeStatic(exit, 0, index, 0)] + values + seq![
        Instr::ParamEnd,
        Instr::Target(exit),
    ]
}

/// Arguments that are evaluated at once follow one another.
proof fn lemma_ready_args(
    instrs: Seq<Instr<Label>>,
    flags: Seq<bool>,
    n: nat,
    st: GenState,
)
    requires
        n <= instrs.len(),
        n <= flags.len(),
        forall|i: int| 0 <= i < n ==> !#[trigger] flags[i],
    ensures
        ready_args(instrs, flags, n, st) == Some(
            GenState { code: st.code + instrs.take(n as int), ..st },
        ),
    decreases n,
{
    if n > 0 {
        lemma_ready_args(instrs, flags, (n - 1) as nat, st);
        assert(!flags[n - 1]);
        assert((st.code + instrs.take(n - 1)).push(instrs[n - 1]) =~= st.code + instrs.take(
            n as int,
        ));
    } else {
        assert(st.code + instrs.take(0) =~= st.code);
    }
}

proof fn lemma_ready_args_pool(
    instrs: Seq<Instr<Label>>,
    flags: Seq<bool>,
    n: nat,
    st: GenState,
)
    ensures
        ready_args(instrs, flags, n, st) matches Some(after) ==> after.pool == st.pool,
    decreases n,
{
    if n > 0 {
        lemma_ready_args_pool(instrs, flags, (n - 1) as nat, st);
    }
}

/// A call whose arguments are finished instructions leaves the pool as it is.
pub proof fn lemma_ready_call_pool(
    index: PoolIndex<Function>,
    instrs: Seq<Instr<Label>>,
    st: GenState,
)
    ensures
        ready_call(index, instrs, st) matches Some(after) ==> after.pool == st.pool,
{
    if let Some((exit, flags, s1)) = open_static_call(index, st) {
        lemma_ready_args_pool(instrs, flags, passed(instrs.len(), flags.len()), s1);
    }
}

/// Instruction `at` of `code` and those after it store what `param` holds in `field` of
/// `object`.
pub open spec fn stores_at(
    code: Seq<Instr<Offset>>,
    at: int,
    object: PoolIndex<PoolLocal>,
    field: PoolIndex<PoolField>,
    param: PoolIndex<PoolParam>,
) -> bool {
    &&& at + 5 <= code.len()
    &&& code[at] == Instr::<Offset>::Assign
    &&& code[at + 1] == Instr::Context(Offset { value: 0 })
    &&& code[at + 2] == Instr::<Offset>::Local(object)
    &&& code[at + 3] == Instr::<Offset>::ObjectField(field)
    &&& code[at + 4] == Instr::<Offset>::Param(param)
}

proof fn lemma_field_stores(
    object: PoolIndex<PoolLocal>,
    fields: Seq<PoolIndex<PoolField>>,
    params: Seq<PoolIndex<PoolParam>>,
    n: nat,
)
    ensures
        field_stores(object, fields, params, n).len() == 5 * n,
        forall|i: int|
            #![trigger fields[i]]
            #![trigger params[i]]
            0 <= i < n ==> stores_at(
                field_stores(object, fields, params, n),
                5 * i,
                object,
                fields[i],
                params[i],
            ),
    decreases n,
{
    if n > 0 {
        let m = (n - 1) as nat;
        lemma_field_stores(object, fields, params, m);
        let before = field_stores(object, fields, params, m);
        let all = field_stores(object, fields, params, n);
        assert forall|i: int|
            #![trigger fields[i]]
            #![trigger params[i]]
            0 <= i < n implies stores_at(all, 5 * i, object, fields[i], params[i]) by {
            if i < m {
                assert(stores_at(before, 5 * i, object, fields[i], params[i]));
                assert(5 * i + 5 <= before.len());
                assert(all[5 * i] == before[5 * i]);
                assert(all[5 * i + 1] == before[5 * i + 1]);
                assert(all[5 * i + 2] == before[5 * i + 2]);
                assert(all[5 * i + 3] == before[5 * i + 3]);
                assert(all[5 * i + 4] == before[5 * i + 4]);
            }
        }
    }
}

/// Giving `Summon` its code is possible for any class and any function. The code makes an
/// object of the class and keeps it in the only local. For each field that has a parameter
/// at its place, in order, it stores that parameter in that field. Last, it returns the
/// object. The local and what `Summon` returns have the type of references to the class,
/// which is new, as is the type of the class itself. No other entry changes.
pub proof fn law_summoner(
    class: PoolIndex<PoolClass>,
    summoner: PoolIndex<Function>,
    pool: PoolView,
)
    requires
        pool.class(class) is Some,
        pool.function(summoner) is Some,
    ensures
        implement_summoner(class, summoner, pool) matches Some(after) && {
            let before = pool.function(summoner)->0;
            let fields = (pool.class(class)->0).fields;
            let k = pool.definitions.len() as int;
            &&& after.definitions.len() == k + 3
            &&& after.names.len() >= pool.names.len()
            &&& extends(pool.names, after.names)
            &&& after.names == intern(pool.names, "self"@).0
            &&& after.strings == pool.strings
            &&& after.resources == pool.resources
            &&& after.tweakdb_ids == pool.tweakdb_ids
            &&& forall|i: int|
                #![trigger after.definitions[i]]
                0 <= i < k && i != summoner.index ==> after.definitions[i] == pool.definitions[i]
            &&& after.definitions[summoner.index as int].name
                == pool.definitions[summoner.index as int].name
            &&& after.definitions[summoner.index as int].parent
                == pool.definitions[summoner.index as int].parent
            &&& after.function(summoner) matches Some(f) && {
                let n = if fields.len() <= f.parameters.len() {
                    fields.len() as int
                } else {
                    f.parameters.len() as int
                };
                &&& f.flags == before.flags
                &&& f.parameters == before.parameters
                &&& f.locals.len() == 1
                &&& f.code == summoner_code(f.locals[0], class, fields, before.parameters)
                &&& f.code.len() == 5 * n + 5
                &&& f.code[0] == Instr::<Offset>::Assign
                &&& f.code[1] == Instr::<Offset>::Local(f.locals[0])
                &&& f.code[2] == Instr::<Offset>::New(class)
                &&& forall|i: int|
                    #![trigger fields[i]]
                    #![trigger f.parameters[i]]
                    0 <= i < n ==> stores_at(
                        f.code,
                        3 + 5 * i,
                        f.locals[0],
                        fields[i],
                        f.parameters[i],
                    )
                &&& f.code[3 + 5 * n] == Instr::<Offset>::Return
                &&& f.code[4 + 5 * n] == Instr::<Offset>::Local(f.locals[0])
                &&& numbered(after) ==> {
                    let name = pool.definitions[class.index as int].name;
                    let own = after.definitions[k + 2];
                    &&& after.definitions[k].name == name
                    &&& after.definitions[k].parent is None
                    &&& after.definitions[k].value == AnyDefinitionView::Type(PoolType::Class)
                    &&& after.definitions[k + 1].name == name
                    &&& after.definitions[k + 1].parent is None
                    &&& after.definitions[k + 1].value matches AnyDefinitionView::Type(
                        PoolType::Ref(inner),
                    ) && inner.index == k
                    &&& own.name.index < after.names.len()
                    &&& after.names[own.name.index as int] == "self"@
                    &&& own.parent == Some(summoner.index)
                    &&& own.value matches AnyDefinitionView::Local(local) && local.typ.index == k
                        + 1
                    &&& f.locals[0].index == k + 2
                    &&& f.return_type matches Some(r) && r.index == k + 1
                }
            }
        },
{
    law_intern(pool.names, "self"@);
    let fields = (pool.class(class)->0).fields;
    let after = implement_summoner(class, summoner, pool)->0;
    let f = after.function(summoner)->0;
    let n = passed(fields.len(), f.parameters.len());
    let stores = field_stores(f.locals[0], fields, f.parameters, n);
    lemma_field_stores(f.locals[0], fields, f.parameters, n);
    assert(f.code == summoner_code(f.locals[0], class, fields, f.parameters));
    assert forall|i: int|
        #![trigger fields[i]]
        #![trigger f.parameters[i]]
        0 <= i < n implies stores_at(
        f.code,
        3 + 5 * i,
        f.locals[0],
        fields[i],
        f.parameters[i],
    ) by {
        assert(stores_at(stores, 5 * i, f.locals[0], fields[i], f.parameters[i]));
        assert(5 * i + 5 <= stores.len());
        assert(f.code[3 + 5 * i] == stores[5 * i]);
        assert(f.code[4 + 5 * i] == stores[5 * i + 1]);
        assert(f.code[5 + 5 * i] == stores[5 * i + 2]);
        assert(f.code[6 + 5 * i] == stores[5 * i + 3]);
        assert(f.code[7 + 5 * i] == stores[5 * i + 4]);
    }
}

/// No two fields are given the same parameter by the code of `Summon`, where its parameters
/// are different ones.
pub proof fn law_summoner_tells_captures_apart(
    class: PoolIndex<PoolClass>,
    summoner: PoolIndex<Function>,
    pool: PoolView,
    i: int,
    j: int,
)
    requires
        pool.class(class) is Some,
        pool.function(summoner) is Some,
        0 <= i < j < (pool.class(class)->0).fields.len(),
        j < (pool.function(summoner)->0).parameters.len(),
        (pool.function(summoner)->0).parameters.no_duplicates(),
    ensures
        ({
            let after = implement_summoner(class, summoner, pool)->0;
            let code = (after.function(summoner)->0).code;
            code[7 + 5 * i] != code[7 + 5 * j]
        }),
{
    law_summoner(class, summoner, pool);
    let params = (pool.function(summoner)->0).parameters;
    assert(params[i] != params[j]);
}

/// The class of a lambda is named after the number of definitions before it. Its first
/// method is the static and final `Summon`, with a parameter for each capture. Its second
/// is `Apply`, with a parameter for each parameter of the lambda. It has a field for each
/// capture.
pub proof fn law_closure(
    params: Seq<(Local, TypeView)>,
    captures: Seq<(Local, TypeView)>,
    id: nat,
)
    ensures
        ({
            let class = closure_outline(params, captures, id);
            let summon = class.methods[0];
            let apply = class.methods[1];
            &&& class.name == lambda_name(id)
            &&& class.methods.len() == 2
            &&& summon.name == "Summon"@
            &&& summon.flags.is_static && summon.flags.is_final
            &&& summon.return_type is None
            &&& summon.params.len() == captures.len()
            &&& apply.name == "Apply"@
            &&& !apply.flags.is_static && !apply.flags.is_final
            &&& apply.return_type == Some(TypeView::Top)
            &&& apply.params.len() == params.len()
            &&& class.fields.len() == captures.len()
            &&& forall|i: int|
                #![trigger captures[i]]
                0 <= i < captures.len() ==> {
                    &&& summon.params[i].name == param_name(captures[i].0)
                    &&& summon.params[i].typ == captures[i].1
                    &&& class.fields[i].name == field_name(captures[i].0)
                    &&& class.fields[i].typ == captures[i].1
                }
            &&& forall|i: int|
                #![trigger params[i]]
                0 <= i < params.len() ==> {
                    &&& apply.params[i].name == param_name(params[i].0)
                    &&& apply.params[i].typ == TypeView::Top
                }
        }),
{
}

/// What a lambda keeps, read in the function around it: each capture by the instruction
/// that reads the local that it is taken from. All of these have to be known there.
pub proof fn law_captured_values(
    scope: Scope,
    locals: IndicesView<PoolLocal>,
    captures: Seq<(Local, (Type, Local))>,
)
    ensures
        ({
            let values = captured_values(scope, locals, captures);
            &&& values is Some <==> forall|i: int|
                #![trigger captures[i]]
                0 <= i < captures.len() ==> match captures[i].1.1 {
                    Local::Var(_) => locals.index_of(captures[i].1.1) is Some,
                    Local::Param(_) => scope.params.index_of(captures[i].1.1) is Some,
                    Local::Capture(_) => scope.captures.index_of(captures[i].1.1) is Some,
                    Local::This => true,
                }
            &&& values matches Some(instrs) ==> {
                &&& instrs.len() == captures.len()
                &&& forall|i: int|
                    #![trigger captures[i]]
                    #![trigger instrs[i]]
                    0 <= i < captures.len() ==> match captures[i].1.1 {
                        Local::Var(_) => Some(instrs[i]) == Some(
                            Instr::<Label>::Local(locals.index_of(captures[i].1.1)->0),
                        ),
                        Local::Param(_) => instrs[i] == Instr::<Label>::Param(
                            scope.params.index_of(captures[i].1.1)->0,
                        ),
                        Local::Capture(_) => instrs[i] == Instr::<Label>::ObjectField(
                            scope.captures.index_of(captures[i].1.1)->0,
                        ),
                        Local::This => instrs[i] == Instr::<Label>::This,
                    }
            }
        }),
{
    let values = captured_values(scope, locals, captures);
    if values is None {
        let i = choose|i: int|
            #![trigger captures[i]]
            0 <= i < captures.len() && read_local(scope, locals, captures[i].1.1) is None;
        assert(read_local(scope, locals, captures[i].1.1) is None);
    } else {
        let instrs = values->0;
        assert forall|i: int|
            #![trigger captures[i]]
            0 <= i < captures.len() implies instrs[i] == read_local(
            scope,
            locals,
            captures[i].1.1,
        )->0 && read_local(scope, locals, captures[i].1.1) is Some by {
        }
    }
}

/// A lambda becomes a class with a field for each capture. Code that refers to the lambda
/// is a call of its static method `Summon` with the values of all captures, in order.
/// `Summon` stores each of its parameters in the field of the same capture. Where the body
/// is generated, each capture stands for its field, and each parameter for the parameter
/// of `Apply` at its place.
pub proof fn law_lambda(scope: Scope, env: LambdaEnv, st: GenState)
    requires
        entry_keys(env.params@).no_duplicates(),
        entry_keys(env.captures@).no_duplicates(),
    ensures
        prepare_lambda(scope, env, st) matches Some((apply, inner, after)) ==> {
            &&& lambda_class(scope, env, st) matches Some(class) && {
                let c = class.pool.class(class.index)->0;
                let values = captured_values(scope, st.locals, env.captures@)->0;
                let end = Label { index: st.labels as usize };
                &&& class.pool.class(class.index) is Some
                &&& captured_values(scope, st.locals, env.captures@) is Some
                &&& Some(after.pool) == implement_summoner(class.index, c.methods[0], class.pool)
                &&& numbered(after.pool) ==> {
                    &&& c.methods.len() == 2
                    &&& c.methods[1] == apply
                    &&& c.fields.len() == env.captures@.len()
                    &&& values.len() == env.captures@.len()
                    &&& after.pool.class(class.index) == Some(c)
                    &&& after.locals == st.locals
                    &&& after.cache == class.cache
                    &&& after.code == st.code + seq![
                        Instr::InvokeStatic(end, 0, c.methods[0], 0),
                    ] + values + seq![Instr::ParamEnd, Instr::Target(end)]
                    &&& after.code == st.code + plain_call(c.methods[0], values, end)
                    &&& after.labels == st.labels + 1
                    &&& after.pool.function(c.methods[0]) matches Some(f) && {
                        &&& f.flags == (FunctionFlags { is_static: true, is_final: true })
                        &&& f.parameters.len() == env.captures@.len()
                        &&& f.locals.len() == 1
                        &&& f.code == summoner_code(
                            f.locals[0],
                            class.index,
                            c.fields,
                            f.parameters,
                        )
                        &&& f.code.len() == 5 * env.captures@.len() + 5
                        &&& f.code[2] == Instr::<Offset>::New(class.index)
                        &&& forall|i: int|
                            #![trigger c.fields[i]]
                            #![trigger f.parameters[i]]
                            0 <= i < env.captures@.len() ==> stores_at(
                                f.code,
                                3 + 5 * i,
                                f.locals[0],
                                c.fields[i],
                                f.parameters[i],
                            )
                    }
                    &&& inner.params.entries == lambda_params(env)
                    &&& after.pool.function(apply) matches Some(f) && inner.params.indices
                        == f.parameters
                    &&& inner.captures.entries == lambda_captures(env)
                    &&& inner.captures.indices == c.fields
                    &&& inner.repo == scope.repo
                    &&& inner.db == scope.db
                    &&& paired(inner.params)
                    &&& paired(inner.captures)
                }
            }
        },
{
    if let Some((apply, inner, after)) = prepare_lambda(scope, env, st) {
        let values = captured_values(scope, st.locals, env.captures@)->0;
        let params = lambda_params(env);
        let captures = lambda_captures(env);
        let base = lambda_base(scope, params.len())->0;
        let outline = closure_outline(params, captures, st.pool.definitions.len());
        let class = lambda_class(scope, env, st)->0;
        law_commit_class(outline, base, scope.repo, st.pool, st.cache);
        let c = class.pool.class(class.index)->0;
        let summon = c.methods[0];
        let pool = implement_summoner(class.index, summon, class.pool)->0;
        let s1 = GenState { pool, cache: class.cache, ..st };
        let (exit, flags, s2) = open_static_call(summon, s1)->0;
        lemma_ready_call_pool(summon, values, s1);
        assert(after.pool == pool);
        law_intern(class.pool.names, "self"@);
        if numbered(after.pool) {
            assert(numbered(class.pool));
            assert(is_method(class.pool, c.methods[0], outline.methods[0]));
            assert(is_method(class.pool, c.methods[1], outline.methods[1]));
            law_summoner(class.index, summon, class.pool);
            assert(pool.definitions[class.index.index as int]
                == class.pool.definitions[class.index.index as int]);
            let f = pool.function(summon)->0;
            assert(f.parameters == (class.pool.function(summon)->0).parameters);
            assert forall|i: int| 0 <= i < flags.len() implies !#[trigger] flags[i] by {
                assert(class.pool.parameter(f.parameters[i]) is Some);
                assert(pool.parameter(f.parameters[i]) == class.pool.parameter(f.parameters[i]));
            }
            assert(flags.len() == f.parameters.len());
            lemma_ready_args(values, flags, values.len(), s2);
            assert(values.take(values.len() as int) =~= values);
            assert(after.code =~= st.code + seq![Instr::InvokeStatic(exit, 0, summon, 0)] + values
                + seq![Instr::ParamEnd, Instr::Target(exit)]);
            assert(after.code =~= st.code + plain_call(summon, values, exit));
            assert(entry_keys(params) =~= entry_keys(env.params@));
            assert(entry_keys(captures) =~= entry_keys(env.captures@));
            assert(inner.params.indices.len() == params.len()) by {
                if apply.index != summon.index {
                    assert(pool.definitions[apply.index as int]
                        == class.pool.definitions[apply.index as int]);
                }
            }
        }
    }
}

/// The class of a lambda is there once the lambda is generated: under its own name, with
/// the right base, and with methods and fields whose names and types are those of the
/// captures and the parameters.
pub proof fn law_lambda_class(scope: Scope, env: LambdaEnv, st: GenState)
    requires
        consistent(st.pool, st.cache),
    ensures
        prepare_lambda(scope, env, st) matches Some((apply, inner, after)) ==> {
            &&& lambda_class(scope, env, st) matches Some(class) && {
                let at = class.index.index;
                let c = class.pool.class(class.index)->0;
                numbered(after.pool) ==> {
                    let d = after.pool.definitions[at as int];
                    let summon = after.pool.definitions[c.methods[0].index as int];
                    let run = after.pool.definitions[c.methods[1].index as int];
                    let takes = (after.pool.function(c.methods[0])->0).parameters;
                    let given = (after.pool.function(c.methods[1])->0).parameters;
                    &&& after.pool.names[d.name.index as int] == lambda_name(
                        st.pool.definitions.len(),
                    )
                    &&& d.parent is None
                    &&& c.base == lambda_base(scope, env.params@.len())
                    &&& c.methods[0].index < c.methods[1].index
                    &&& after.pool.names[summon.name.index as int] == "Summon"@
                    &&& summon.parent == Some(at)
                    &&& after.pool.names[run.name.index as int] == "Apply"@
                    &&& run.parent == Some(at)
                    &&& takes.len() == env.captures@.len()
                    &&& given.len() == env.params@.len()
                    &&& c.fields.len() == env.captures@.len()
                    &&& (after.pool.function(c.methods[1])->0).return_type matches Some(r)
                        && is_type(after.pool, "Variant"@, r)
                    &&& forall|i: int|
                        #![trigger env.captures@[i]]
                        0 <= i < env.captures@.len() ==> {
                            &&& typed_as(
                                after.pool,
                                takes[i].index,
                                TypedKind::Parameter,
                                TypedName {
                                    name: param_name(env.captures@[i].0),
                                    typ: env.captures@[i].1.0@,
                                },
                                Some(c.methods[0].index),
                                scope.repo,
                            )
                            &&& typed_as(
                                after.pool,
                                c.fields[i].index,
                                TypedKind::Field,
                                TypedName {
                                    name: field_name(env.captures@[i].0),
                                    typ: env.captures@[i].1.0@,
                                },
                                Some(at),
                                scope.repo,
                            )
                        }
                    &&& forall|i: int|
                        #![trigger env.params@[i]]
                        0 <= i < env.params@.len() ==> typed_as(
                            after.pool,
                            given[i].index,
                            TypedKind::Parameter,
                            TypedName { name: param_name(env.params@[i].0), typ: TypeView::Top },
                            Some(c.methods[1].index),
                            scope.repo,
                        )
                }
            }
        },
{
    if let Some((apply, inner, after)) = prepare_lambda(scope, env, st) {
        let values = captured_values(scope, st.locals, env.captures@)->0;
        let params = lambda_params(env);
        let captures = lambda_captures(env);
        let base = lambda_base(scope, params.len())->0;
        let outline = closure_outline(params, captures, st.pool.definitions.len());
        let class = lambda_class(scope, env, st)->0;
        law_commit_class(outline, base, scope.repo, st.pool, st.cache);
        law_commit_class_parts(outline, base, scope.repo, st.pool, st.cache);
        law_closure(params, captures, st.pool.definitions.len());
        let c = class.pool.class(class.index)->0;
        let summon = c.methods[0];
        let pool = implement_summoner(class.index, summon, class.pool)->0;
        lemma_ready_call_pool(summon, values, GenState { pool, cache: class.cache, ..st });
        assert(after.pool == pool);
        law_intern(class.pool.names, "self"@);
        if numbered(after.pool) {
            assert(numbered(class.pool));
            let at = class.index.index;
            assert(outlined(class.pool, c.methods[0], outline.methods[0], at, scope.repo));
            assert(outlined(class.pool, c.methods[1], outline.methods[1], at, scope.repo));
            law_summoner(class.index, summon, class.pool);
            let changed = summon.index as int;
            assert(same_but(class.pool, pool, changed));
            assert(pool.definitions[at as int] == class.pool.definitions[at as int]);
            lemma_outlined_stays(
                class.pool,
                pool,
                changed,
                c.methods[1],
                outline.methods[1],
                at,
                scope.repo,
            );
            let takes = (pool.function(summon)->0).parameters;
            let given = (pool.function(c.methods[1])->0).parameters;
            let d = class.pool.definitions[changed];
            assert(pool.names[d.name.index as int] == class.pool.names[d.name.index as int]);
            law_pool_names(TypeId { id: 0 }, Seq::empty(), Prim::Unit, scope.repo);
            assert forall|i: int|
                #![trigger env.captures@[i]]
                0 <= i < env.captures@.len() implies {
                &&& typed_as(
                    pool,
                    takes[i].index,
                    TypedKind::Parameter,
                    TypedName {
                        name: param_name(env.captures@[i].0),
                        typ: env.captures@[i].1.0@,
                    },
                    Some(c.methods[0].index),
                    scope.repo,
                )
                &&& typed_as(
                    pool,
                    c.fields[i].index,
                    TypedKind::Field,
                    TypedName {
                        name: field_name(env.captures@[i].0),
                        typ: env.captures@[i].1.0@,
                    },
                    Some(at),
                    scope.repo,
                )
            } by {
                assert(captures[i] == (env.captures@[i].0, env.captures@[i].1.0@));
                assert(takes[i] == (class.pool.function(summon)->0).parameters[i]);
                lemma_typed_as_stays(
                    class.pool,
                    pool,
                    changed,
                    takes[i].index,
                    TypedKind::Parameter,
                    outline.methods[0].params[i],
                    Some(summon.index),
                    scope.repo,
                );
                assert(typed_as(
                    class.pool,
                    c.fields[i].index,
                    TypedKind::Field,
                    outline.fields[i],
                    Some(at),
                    scope.repo,
                ));
                lemma_typed_as_stays(
                    class.pool,
                    pool,
                    changed,
                    c.fields[i].index,
                    TypedKind::Field,
                    outline.fields[i],
                    Some(at),
                    scope.repo,
                );
            }
            assert forall|i: int|
                #![trigger env.params@[i]]
                0 <= i < env.params@.len() implies typed_as(
                pool,
                given[i].index,
                TypedKind::Parameter,
                TypedName { name: param_name(env.params@[i].0), typ: TypeView::Top },
                Some(c.methods[1].index),
                scope.repo,
            ) by {
                assert(params[i] == (env.params@[i].0, env.params@[i].1@));
                assert(given[i].index == given[i].index);
            }
        }
    }
}

/// A lambda can be prepared where all that it captures is known and of a type that has a
/// name, there is a class for its number of parameters, a label is left, and the pool has
/// room.
pub proof fn law_lambda_prepared(scope: Scope, env: LambdaEnv, st: GenState)
    requires
        captured_values(scope, st.locals, env.captures@) is Some,
        lambda_base(scope, env.params@.len()) is Some,
        forall|i: int|
            #![trigger env.captures@[i]]
            0 <= i < env.captures@.len() ==> pool_name(env.captures@[i].1.0@, scope.repo) is Some,
        st.labels < usize::MAX,
    ensures
        lambda_class(scope, env, st) is Some,
        (lambda_class(scope, env, st)->0).pool.definitions.len() + 3 <= usize::MAX && (
        lambda_class(scope, env, st)->0).pool.names.len() < usize::MAX ==> prepare_lambda(
            scope,
            env,
            st,
        ) is Some,
{
    let params = lambda_params(env);
    let captures = lambda_captures(env);
    let base = lambda_base(scope, params.len())->0;
    let outline = closure_outline(params, captures, st.pool.definitions.len());
    law_closure(params, captures, st.pool.definitions.len());
    law_commit_class_parts(outline, base, scope.repo, st.pool, st.cache);
    law_commit_class(outline, base, scope.repo, st.pool, st.cache);
    assert forall|i: int| 0 <= i < outline.methods.len() implies nameable(
        #[trigger] outline.methods[i],
        scope.repo,
    ) by {
        if i == 0 {
            assert forall|j: int| 0 <= j < captures.len() implies pool_name(
                (#[trigger] outline.methods[0].params[j]).typ,
                scope.repo,
            ) is Some by {
                assert(captures[j] == (env.captures@[j].0, env.captures@[j].1.0@));
            }
        } else {
            assert forall|j: int| 0 <= j < params.len() implies pool_name(
                (#[trigger] outline.methods[1].params[j]).typ,
                scope.repo,
            ) is Some by {
                assert(params[j].0 == env.params@[j].0);
            }
        }
    }
    assert forall|j: int| 0 <= j < outline.fields.len() implies pool_name(
        (#[trigger] outline.fields[j]).typ,
        scope.repo,
    ) is Some by {
        assert(captures[j] == (env.captures@[j].0, env.captures@[j].1.0@));
    }
    let class = lambda_class(scope, env, st)->0;
    if class.pool.definitions.len() + 3 <= usize::MAX && class.pool.names.len() < usize::MAX {
        let c = class.pool.class(class.index)->0;
        let summon = c.methods[0];
        assert(is_method(class.pool, c.methods[0], outline.methods[0]));
        assert(is_method(class.pool, c.methods[1], outline.methods[1]));
        law_summoner(class.index, summon, class.pool);
        let pool = implement_summoner(class.index, summon, class.pool)->0;
        let values = captured_values(scope, st.locals, env.captures@)->0;
        let f = pool.function(summon)->0;
        let s1 = GenState { pool, cache: class.cache, ..st };
        assert forall|i: int| 0 <= i < f.parameters.len() implies pool.parameter(
            #[trigger] f.parameters[i],
        ) == class.pool.parameter(f.parameters[i]) && !(pool.parameter(
            f.parameters[i],
        )->0).flags.is_short_circuit && pool.parameter(f.parameters[i]) is Some by {
            assert(class.pool.parameter(f.parameters[i]) is Some);
        }
        let (exit, flags, s2) = open_static_call(summon, s1)->0;
        lemma_ready_args(values, flags, values.len(), s2);
        assert(pool.function(c.methods[1]) is Some) by {
            if c.methods[1].index != summon.index {
                assert(pool.definitions[c.methods[1].index as int]
                    == class.pool.definitions[c.methods[1].index as int]);
            }
        }
        lemma_ready_call_pool(summon, values, s1);
    }
}

/// The body of a lambda becomes the code of its `Apply`, and none of the function around
/// it. Unless the lambda gives nothing back, `Apply` returns the value of the body.
pub proof fn law_lambda_body(scope: Scope, env: LambdaEnv, body: Expr, st: GenState)
    ensures
        translate_lambda(scope, env, body, st) matches Some(after) ==> {
            &&& prepare_lambda(scope, env, st) matches Some((apply, inner, mid)) && {
                &&& build(
                    inner,
                    body,
                    env.ret_type@ != TypeView::Prim(Prim::Unit),
                    mid.pool,
                    mid.cache,
                ) matches Some(built) && {
                    &&& built.pool.function(apply) matches Some(g)
                    &&& after.pool.function(apply) matches Some(f) && {
                        &&& f.locals == built.locals
                        &&& f.code == built.code
                        &&& f.flags == g.flags
                        &&& f.parameters == g.parameters
                        &&& f.return_type == g.return_type
                    }
                    &&& after.pool.definitions.len() == built.pool.definitions.len()
                    &&& after.pool == (PoolView {
                        definitions: after.pool.definitions,
                        ..built.pool
                    })
                    &&& after.pool.definitions[apply.index as int].name
                        == built.pool.definitions[apply.index as int].name
                    &&& after.pool.definitions[apply.index as int].parent
                        == built.pool.definitions[apply.index as int].parent
                    &&& after.labels == mid.labels
                    &&& forall|i: int|
                        #![trigger after.pool.definitions[i]]
                        0 <= i < built.pool.definitions.len() && i != apply.index
                            ==> after.pool.definitions[i] == built.pool.definitions[i]
                    &&& after.cache == built.cache
                    &&& after.code == mid.code
                    &&& after.locals == mid.locals
                }
            }
        },
{
}

/// A lambda has code where it can be prepared and its body can be generated in the scope
/// that this gives. It does not matter what the lambda stands in.
pub proof fn law_lambda_expr(
    scope: Scope,
    env: LambdaEnv,
    body: Expr,
    span: Span,
    exit: Option<Label>,
    st: GenState,
)
    ensures
        ({
            let whole = translate(scope, Expr::Lambda(env, Box::new(body), span), exit, st);
            let ready = prepare_lambda(scope, env, st);
            let (apply, inner, mid) = ready->0;
            let built = build(
                inner,
                body,
                env.ret_type@ != TypeView::Prim(Prim::Unit),
                mid.pool,
                mid.cache,
            );
            &&& whole == translate_lambda(scope, env, body, st)
            &&& whole is Some <==> ready is Some && built is Some && (
            built->0).pool.function(apply) is Some
        }),
{
    assert(translate(scope, Expr::Lambda(env, Box::new(body), span), exit, st)
        == translate_lambda(scope, env, body, st));
}

/// What a lambda takes and keeps, by the locals of its body and in their order, with their
/// types; and the class that it is derived from, which goes by the number of parameters.
pub proof fn law_lambda_entries(scope: Scope, env: LambdaEnv)
    ensures
        lambda_params(env).len() == env.params@.len(),
        forall|i: int|
            #![trigger env.params@[i]]
            #![trigger lambda_params(env)[i]]
            0 <= i < env.params@.len() ==> lambda_params(env)[i] == (
                env.params@[i].0,
                env.params@[i].1@,
            ),
        lambda_captures(env).len() == env.captures@.len(),
        forall|i: int|
            #![trigger env.captures@[i]]
            #![trigger lambda_captures(env)[i]]
            0 <= i < env.captures@.len() ==> lambda_captures(env)[i] == (
                env.captures@[i].0,
                env.captures@[i].1.0@,
            ),
        ({
            let n = env.params@.len();
            lambda_base(scope, n) == if n < scope.repo.fn_types@.len()
                && scope.db.classes@.contains_key(scope.repo.fn_types@[n as int].id) {
                Some(scope.db.classes@[scope.repo.fn_types@[n as int].id])
            } else {
                None
            }
        }),
{
}

} // verus!
