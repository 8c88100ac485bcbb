//! Every reference to the pool is to an entry of the right kind.

use crate::builders::{
    alloc_return, commit_all, commit_class, commit_function, commit_functions, commit_typed,
    typed_value, ClassOutline, FunctionOutline, TypedKind, TypedName,
};
use crate::bytecode::{resolved, resolved_instr, Instr, Label};
use crate::compiler::CompilationDb;
use crate::growth::{
    consistent, evolves, extends, grows, is_type, law_intern, lemma_alloc_names, lemma_alloc_type,
    lemma_define_type, lemma_definition, lemma_name, lemma_texts, lemma_wrapper_text, numbered,
};
use crate::pool::{
    pool_index, type_definition, AnyDefinitionView, CName, ClassView, DefinitionView, Function,
    FunctionView, LocalFlags, PoolClass, PoolField, PoolIndex, PoolLocal, PoolParam, PoolType,
    PoolView,
};
use crate::translation::{field_stores, implement_summoner, passed, summoner_code};
use crate::type_cache::{alloc_type, define_type, pool_name, wrapper_of, CacheView};
use crate::types::{FieldId, GlobalId, MethodId, TypeId, TypeRepo, TypeView};
use vstd::prelude::*;

verus! {

/// `index` is the number of a name.
pub open spec fn is_name(pool: PoolView, index: PoolIndex<CName>) -> bool {
    index.index < pool.names.len()
}

/// `index` is a type.
pub open spec fn is_pool_type(pool: PoolView, index: PoolIndex<PoolType>) -> bool {
    pool.definition(index.index) matches Some(d) && d.value is Type
}

/// `index` is a class.
pub open spec fn is_class(pool: PoolView, index: PoolIndex<PoolClass>) -> bool {
    pool.class(index) is Some
}

/// `index` is a function.
pub open spec fn is_function(pool: PoolView, index: PoolIndex<Function>) -> bool {
    pool.function(index) is Some
}

/// `index` is a parameter.
pub open spec fn is_param(pool: PoolView, index: PoolIndex<PoolParam>) -> bool {
    pool.parameter(index) is Some
}

/// `index` is a local.
pub open spec fn is_local(pool: PoolView, index: PoolIndex<PoolLocal>) -> bool {
    pool.definition(index.index) matches Some(d) && d.value is Local
}

/// `index` is a field.
pub open spec fn is_field(pool: PoolView, index: PoolIndex<PoolField>) -> bool {
    pool.definition(index.index) matches Some(d) && d.value is Field
}

/// What the instruction refers to is in the pool, and is what the instruction takes it
/// for.
pub open spec fn refers<L>(pool: PoolView, instr: Instr<L>) -> bool {
    match instr {
        Instr::NameConst(i) => is_name(pool, i),
        Instr::StringConst(i) => i.index < pool.strings.len(),
        Instr::ResourceConst(i) => i.index < pool.resources.len(),
        Instr::TweakDbIdConst(i) => i.index < pool.tweakdb_ids.len(),
        Instr::Local(i) => is_local(pool, i),
        Instr::Param(i) => is_param(pool, i),
        Instr::ObjectField(i) | Instr::StructField(i) => is_field(pool, i),
        Instr::InvokeStatic(_, _, i, _) => is_function(pool, i),
        Instr::InvokeVirtual(_, _, i, _) => is_name(pool, i),
        Instr::New(i) | Instr::DynamicCast(i, _) => is_class(pool, i),
        Instr::Equals(i) | Instr::NotEquals(i) => is_pool_type(pool, i),
        Instr::ArrayClear(i) | Instr::ArraySize(i) => is_pool_type(pool, i),
        Instr::ArrayResize(i) | Instr::ArrayFindFirst(i) => is_pool_type(pool, i),
        Instr::ArrayFindLast(i) | Instr::ArrayContains(i) => is_pool_type(pool, i),
        Instr::ArrayCount(i) | Instr::ArrayPush(i) | Instr::ArrayPop(i) => is_pool_type(pool, i),
        Instr::ArrayInsert(i) | Instr::ArrayRemove(i) => is_pool_type(pool, i),
        Instr::ArrayGrow(i) | Instr::ArrayErase(i) | Instr::ArrayLast(i) => is_pool_type(pool, i),
        Instr::ArrayElement(i) | Instr::ToString(i) => is_pool_type(pool, i),
        Instr::EnumToI32(i, _) | Instr::I32ToEnum(i, _) => is_pool_type(pool, i),
        Instr::ToVariant(i) | Instr::FromVariant(i) => is_pool_type(pool, i),
        Instr::AsRef(i) | Instr::Deref(i) => is_pool_type(pool, i),
        _ => true,
    }
}

/// All that the code refers to is in the pool.
pub open spec fn refers_all<L>(pool: PoolView, code: Seq<Instr<L>>) -> bool {
    forall|i: int| 0 <= i < code.len() ==> refers(pool, #[trigger] code[i])
}

pub open spec fn are_params(pool: PoolView, indices: Seq<PoolIndex<PoolParam>>) -> bool {
    forall|i: int| 0 <= i < indices.len() ==> is_param(pool, #[trigger] indices[i])
}

pub open spec fn are_locals(pool: PoolView, indices: Seq<PoolIndex<PoolLocal>>) -> bool {
    forall|i: int| 0 <= i < indices.len() ==> is_local(pool, #[trigger] indices[i])
}

pub open spec fn are_fields(pool: PoolView, indices: Seq<PoolIndex<PoolField>>) -> bool {
    forall|i: int| 0 <= i < indices.len() ==> is_field(pool, #[trigger] indices[i])
}

pub open spec fn are_functions(pool: PoolView, indices: Seq<PoolIndex<Function>>) -> bool {
    forall|i: int| 0 <= i < indices.len() ==> is_function(pool, #[trigger] indices[i])
}

/// What a type is made of is a type.
pub open spec fn sound_type(pool: PoolView, typ: PoolType) -> bool {
    match typ {
        PoolType::Prim | PoolType::Class => true,
        PoolType::Ref(i) | PoolType::WeakRef(i) => is_pool_type(pool, i),
        PoolType::ScriptRef(i) | PoolType::Array(i) => is_pool_type(pool, i),
    }
}

/// All that a definition refers to is in the pool, and is what it takes it for.
pub open spec fn sound_value(pool: PoolView, value: AnyDefinitionView) -> bool {
    match value {
        AnyDefinitionView::Type(t) => sound_type(pool, t),
        AnyDefinitionView::Class(c) => {
            &&& c.base matches Some(base) ==> is_class(pool, base)
            &&& are_functions(pool, c.methods)
            &&& are_fields(pool, c.fields)
        },
        AnyDefinitionView::Function(f) => {
            &&& f.return_type matches Some(t) ==> is_pool_type(pool, t)
            &&& are_params(pool, f.parameters)
            &&& are_locals(pool, f.locals)
            &&& refers_all(pool, f.code)
        },
        AnyDefinitionView::Parameter(p) => is_pool_type(pool, p.typ),
        AnyDefinitionView::Local(l) => is_pool_type(pool, l.typ),
        AnyDefinitionView::Field(f) => is_pool_type(pool, f.typ),
    }
}

pub open spec fn sound_definition(pool: PoolView, d: DefinitionView) -> bool {
    &&& is_name(pool, d.name)
    &&& d.parent matches Some(i) ==> i < pool.definitions.len()
    &&& sound_value(pool, d.value)
}

/// All that the definitions of the pool refer to is in the pool, and is what they take it
/// for. This goes for the code of functions too.
pub open spec fn sound(pool: PoolView) -> bool {
    forall|i: int|
        0 <= i < pool.definitions.len() ==> sound_definition(pool, #[trigger] pool.definitions[i])
}

/// Both are definitions of the same kind.
pub open spec fn same_kind(a: AnyDefinitionView, b: AnyDefinitionView) -> bool {
    match a {
        AnyDefinitionView::Type(_) => b is Type,
        AnyDefinitionView::Class(_) => b is Class,
        AnyDefinitionView::Function(_) => b is Function,
        AnyDefinitionView::Parameter(_) => b is Parameter,
        AnyDefinitionView::Local(_) => b is Local,
        AnyDefinitionView::Field(_) => b is Field,
    }
}

/// What is in `p` is in `q` too, and of the same kind.
pub open spec fn kinds_stay(p: PoolView, q: PoolView) -> bool {
    &&& p.names.len() <= q.names.len()
    &&& p.strings.len() <= q.strings.len()
    &&& p.resources.len() <= q.resources.len()
    &&& p.tweakdb_ids.len() <= q.tweakdb_ids.len()
    &&& p.definitions.len() <= q.definitions.len()
    &&& forall|i: int|
        #![trigger q.definitions[i]]
        0 <= i < p.definitions.len() ==> same_kind(p.definitions[i].value, q.definitions[i].value)
}

pub proof fn lemma_kinds_then(p: PoolView, q: PoolView, r: PoolView)
    requires
        kinds_stay(p, q),
        kinds_stay(q, r),
    ensures
        kinds_stay(p, r),
{
    assert forall|i: int|
        #![trigger r.definitions[i]]
        0 <= i < p.definitions.len() implies same_kind(
        p.definitions[i].value,
        r.definitions[i].value,
    ) by {
        assert(same_kind(p.definitions[i].value, q.definitions[i].value));
    }
}

pub proof fn lemma_grows_kinds(p: PoolView, q: PoolView)
    requires
        grows(p, q),
    ensures
        kinds_stay(p, q),
{
}

pub proof fn lemma_refers_stays<L>(p: PoolView, q: PoolView, instr: Instr<L>)
    requires
        kinds_stay(p, q),
        refers(p, instr),
    ensures
        refers(q, instr),
{
}

pub proof fn lemma_refers_all_stays<L>(p: PoolView, q: PoolView, code: Seq<Instr<L>>)
    requires
        kinds_stay(p, q),
        refers_all(p, code),
    ensures
        refers_all(q, code),
{
    assert forall|i: int| 0 <= i < code.len() implies refers(q, #[trigger] code[i]) by {
        lemma_refers_stays(p, q, code[i]);
    }
}

pub proof fn lemma_indices_stay(p: PoolView, q: PoolView)
    requires
        kinds_stay(p, q),
    ensures
        forall|s: Seq<PoolIndex<PoolParam>>| #[trigger] are_params(p, s) ==> are_params(q, s),
        forall|s: Seq<PoolIndex<PoolLocal>>| #[trigger] are_locals(p, s) ==> are_locals(q, s),
        forall|s: Seq<PoolIndex<PoolField>>| #[trigger] are_fields(p, s) ==> are_fields(q, s),
        forall|s: Seq<PoolIndex<Function>>| #[trigger] are_functions(p, s) ==> are_functions(q, s),
{
    assert forall|s: Seq<PoolIndex<PoolParam>>| #[trigger] are_params(p, s) implies are_params(
        q,
        s,
    ) by {
        assert forall|i: int| 0 <= i < s.len() implies is_param(q, #[trigger] s[i]) by {
            assert(is_param(p, s[i]));
        }
    }
    assert forall|s: Seq<PoolIndex<PoolLocal>>| #[trigger] are_locals(p, s) implies are_locals(
        q,
        s,
    ) by {
        assert forall|i: int| 0 <= i < s.len() implies is_local(q, #[trigger] s[i]) by {
            assert(is_local(p, s[i]));
        }
    }
    assert forall|s: Seq<PoolIndex<PoolField>>| #[trigger] are_fields(p, s) implies are_fields(
        q,
        s,
    ) by {
        assert forall|i: int| 0 <= i < s.len() implies is_field(q, #[trigger] s[i]) by {
            assert(is_field(p, s[i]));
        }
    }
    assert forall|s: Seq<PoolIndex<Function>>| #[trigger] are_functions(p, s) implies are_functions(
        q,
        s,
    ) by {
        assert forall|i: int| 0 <= i < s.len() implies is_function(q, #[trigger] s[i]) by {
            assert(is_function(p, s[i]));
        }
    }
}

proof fn lemma_value_stays(p: PoolView, q: PoolView, value: AnyDefinitionView)
    requires
        kinds_stay(p, q),
        sound_value(p, value),
    ensures
        sound_value(q, value),
{
    lemma_indices_stay(p, q);
    if let AnyDefinitionView::Function(f) = value {
        lemma_refers_all_stays(p, q, f.code);
    }
}

/// Definitions stay sound where all that is there stays of its kind.
proof fn lemma_sound_stays(p: PoolView, q: PoolView)
    requires
        kinds_stay(p, q),
        sound(p),
    ensures
        forall|i: int|
            0 <= i < p.definitions.len() ==> sound_definition(q, #[trigger] p.definitions[i]),
{
    assert forall|i: int| 0 <= i < p.definitions.len() implies sound_definition(
        q,
        #[trigger] p.definitions[i],
    ) by {
        lemma_value_stays(p, q, p.definitions[i].value);
    }
}

/// A consistent and sound pool.
pub open spec fn good(pool: PoolView, cache: CacheView) -> bool {
    &&& consistent(pool, cache)
    &&& sound(pool)
}

/// What is there stays of its kind, and the pool stays sound and consistent, as long as
/// its entries can be numbered.
#[verifier::opaque]
pub open spec fn sustains(p: PoolView, c: CacheView, q: PoolView, d: CacheView) -> bool {
    &&& p.names.len() <= q.names.len()
    &&& p.definitions.len() <= q.definitions.len()
    &&& numbered(q) ==> kinds_stay(p, q) && (good(p, c) ==> good(q, d))
}

pub proof fn lemma_sustains_same(p: PoolView, c: CacheView)
    ensures
        sustains(p, c, p, c),
{
    reveal(sustains);
}

pub proof fn lemma_sustains_then(
    p: PoolView,
    c: CacheView,
    q: PoolView,
    d: CacheView,
    r: PoolView,
    e: CacheView,
)
    requires
        sustains(p, c, q, d),
        sustains(q, d, r, e),
    ensures
        sustains(p, c, r, e),
{
    reveal(sustains);
    if numbered(r) {
        lemma_kinds_then(p, q, r);
    }
}

/// A name is interned.
pub proof fn lemma_sustains_name(
    p: PoolView,
    c: CacheView,
    q: PoolView,
    d: CacheView,
    name: Seq<char>,
)
    requires
        sustains(p, c, q, d),
    ensures
        sustains(p, c, q.with_name(name).0, d),
        is_name(q.with_name(name).0, q.with_name(name).1),
{
    reveal(sustains);
    reveal(evolves);
    lemma_name(q, d, name);
    law_intern(q.names, name);
    let r = q.with_name(name).0;
    if numbered(r) {
        lemma_grows_kinds(q, r);
        lemma_kinds_then(p, q, r);
        if good(p, c) {
            lemma_sound_stays(q, r);
        }
    }
}

/// Text other than names is interned.
pub proof fn lemma_sustains_texts(p: PoolView, c: CacheView, q: PoolView)
    requires
        q.names == p.names,
        q.definitions == p.definitions,
        extends(p.strings, q.strings),
        extends(p.resources, q.resources),
        extends(p.tweakdb_ids, q.tweakdb_ids),
        p.strings.no_duplicates() ==> q.strings.no_duplicates(),
        p.resources.no_duplicates() ==> q.resources.no_duplicates(),
        p.tweakdb_ids.no_duplicates() ==> q.tweakdb_ids.no_duplicates(),
    ensures
        sustains(p, c, q, c),
{
    reveal(sustains);
    reveal(evolves);
    lemma_texts(p, c, q);
    if numbered(q) {
        lemma_grows_kinds(p, q);
        if good(p, c) {
            lemma_sound_stays(p, q);
        }
    }
}

/// One more definition.
pub proof fn lemma_sustains_definition(
    p: PoolView,
    c: CacheView,
    q: PoolView,
    d: CacheView,
    definition: DefinitionView,
)
    requires
        sustains(p, c, q, d),
        numbered(q.with_definition(definition)) && good(p, c) && good(q, d) ==> sound_definition(
            q.with_definition(definition),
            definition,
        ),
    ensures
        sustains(p, c, q.with_definition(definition), d),
{
    reveal(sustains);
    reveal(evolves);
    lemma_definition(q, d, definition);
    let r = q.with_definition(definition);
    if numbered(r) {
        lemma_grows_kinds(q, r);
        lemma_kinds_then(p, q, r);
        if good(p, c) {
            lemma_sound_stays(q, r);
            assert forall|i: int| 0 <= i < r.definitions.len() implies sound_definition(
                r,
                #[trigger] r.definitions[i],
            ) by {
                if i < q.definitions.len() {
                    assert(r.definitions[i] == q.definitions[i]);
                }
            }
        }
    }
}

/// A definition that is no type gets another value of its kind.
pub proof fn lemma_sustains_value(
    p: PoolView,
    c: CacheView,
    q: PoolView,
    d: CacheView,
    index: usize,
    value: AnyDefinitionView,
)
    requires
        sustains(p, c, q, d),
        numbered(q) ==> {
            &&& index < q.definitions.len()
            &&& same_kind(q.definitions[index as int].value, value)
            &&& !(value is Type)
        },
        numbered(q) && good(p, c) && good(q, d) ==> sound_value(q, value),
    ensures
        sustains(p, c, q.with_value(index, value), d),
{
    reveal(sustains);
    let r = q.with_value(index, value);
    if numbered(r) {
        assert(numbered(q));
        assert(kinds_stay(q, r));
        lemma_kinds_then(p, q, r);
        if good(p, c) {
            lemma_sound_stays(q, r);
            lemma_value_stays(q, r, value);
            assert forall|i: int| 0 <= i < r.definitions.len() implies sound_definition(
                r,
                #[trigger] r.definitions[i],
            ) by {
                assert(sound_definition(r, q.definitions[i]));
            }
            assert forall|i: int|
                #![trigger d.types[i]]
                0 <= i < d.types.len() implies is_type(r, d.names[i], d.types[i]) by {
                assert(is_type(q, d.names[i], d.types[i]));
            }
        }
    }
}

/// A type is defined.
proof fn lemma_sustains_define_type(
    p: PoolView,
    c: CacheView,
    q: PoolView,
    d: CacheView,
    name: Seq<char>,
    typ: PoolType,
)
    requires
        sustains(p, c, q, d),
        !d.names.contains(name),
        numbered(q) && good(p, c) && good(q, d) ==> sound_type(q, typ),
    ensures
        sustains(
            p,
            c,
            define_type(name, typ, q, d).pool,
            define_type(name, typ, q, d).cache,
        ),
{
    let (r, i) = q.with_name(name);
    let e = define_type(name, typ, q, d);
    let definition = type_definition(i, typ);
    lemma_sustains_name(p, c, q, d, name);
    lemma_define_type(name, typ, q, d);
    assert(numbered(e.pool) ==> kinds_stay(q, e.pool)) by {
        reveal(evolves);
    }
    assert(numbered(e.pool) ==> numbered(q)) by {
        law_intern(q.names, name);
    }
    if numbered(e.pool) && good(p, c) {
        assert(good(q, d)) by {
            reveal(sustains);
        }
        lemma_value_stays(q, e.pool, AnyDefinitionView::Type(typ));
    }
    lemma_sustains_definition(p, c, r, d, definition);
    reveal(sustains);
    reveal(evolves);
}

/// A type gets its entry.
pub proof fn lemma_sustains_alloc_type(
    p: PoolView,
    c: CacheView,
    q: PoolView,
    d: CacheView,
    typ: TypeView,
    repo: TypeRepo,
)
    requires
        sustains(p, c, q, d),
    ensures
        alloc_type(typ, repo, q, d) matches Some(e) ==> {
            &&& sustains(p, c, e.pool, e.cache)
            &&& numbered(e.pool) && good(p, c) ==> is_pool_type(e.pool, e.index)
        },
    decreases typ,
{
    if let Some(e) = alloc_type(typ, repo, q, d) {
        let name = pool_name(typ, repo)->0;
        if d.get(name) is None {
            d.names.index_of_first_ensures(name);
            match typ {
                TypeView::Data(id, args) => match wrapper_of(id) {
                    Some(w) => {
                        lemma_sustains_alloc_type(p, c, q, d, args[0], repo);
                        let inner = alloc_type(args[0], repo, q, d)->0;
                        lemma_alloc_names(args[0], repo, q, d);
                        lemma_wrapper_text(w);
                        assert(name == w.text() + pool_name(args[0], repo)->0);
                        assert forall|i: int| 0 <= i < inner.cache.names.len() implies
                            inner.cache.names[i] != name by {
                            if i < d.names.len() {
                                assert(inner.cache.names[i] == d.names[i]);
                                assert(d.names.contains(d.names[i]));
                            }
                        }
                        lemma_sustains_define_type(
                            p,
                            c,
                            inner.pool,
                            inner.cache,
                            name,
                            w.around(inner.index),
                        );
                    },
                    None => {
                        lemma_sustains_define_type(p, c, q, d, name, PoolType::Class);
                    },
                },
                _ => {
                    lemma_sustains_define_type(p, c, q, d, name, PoolType::Prim);
                },
            }
        }
        lemma_alloc_names(typ, repo, q, d);
        lemma_alloc_type(typ, repo, q, d);
        if numbered(e.pool) && good(p, c) {
            assert(good(q, d)) by {
                reveal(sustains);
                reveal(evolves);
            }
            assert(consistent(e.pool, e.cache)) by {
                reveal(sustains);
            }
            e.cache.names.index_of_first_ensures(name);
            let i = e.cache.names.index_of_first(name)->0;
            assert(is_type(e.pool, e.cache.names[i], e.cache.types[i]));
        }
    }
}

/// The definition at `index` is of the kind that a name and a type make.
pub open spec fn of_kind(pool: PoolView, kind: TypedKind, index: usize) -> bool {
    pool.definition(index) matches Some(d) && match kind {
        TypedKind::Local => d.value is Local,
        TypedKind::Parameter => d.value is Parameter,
        TypedKind::Field => d.value is Field,
    }
}

/// Something with a name and a type is committed.
pub proof fn lemma_sustains_commit_typed<A>(
    p: PoolView,
    c: CacheView,
    q: PoolView,
    d: CacheView,
    item: TypedName,
    kind: TypedKind,
    parent: Option<usize>,
    repo: TypeRepo,
)
    requires
        sustains(p, c, q, d),
        parent matches Some(i) ==> numbered(q) ==> i < q.definitions.len(),
    ensures
        commit_typed::<A>(item, kind, parent, repo, q, d) matches Some(e) ==> {
            &&& sustains(p, c, e.pool, e.cache)
            &&& numbered(e.pool) ==> of_kind(e.pool, kind, e.index.index)
            &&& sustains(q, d, e.pool, e.cache)
        },
{
    if let Some(e) = commit_typed::<A>(item, kind, parent, repo, q, d) {
        lemma_sustains_same(q, d);
        lemma_sustains_name(q, d, q, d, item.name);
        let (r, name) = q.with_name(item.name);
        lemma_sustains_alloc_type(q, d, r, d, item.typ, repo);
        lemma_sustains_same(r, d);
        lemma_sustains_alloc_type(r, d, r, d, item.typ, repo);
        let typ = alloc_type(item.typ, repo, r, d)->0;
        let definition = DefinitionView { name, parent, value: typed_value(kind, typ.index) };
        assert(q.definitions.len() <= typ.pool.definitions.len() && r.names.len()
            <= typ.pool.names.len() && q.names.len() <= r.names.len()) by {
            reveal(sustains);
        }
        lemma_sustains_definition(q, d, typ.pool, typ.cache, definition);
        lemma_sustains_then(p, c, q, d, e.pool, e.cache);
    }
}

/// Several things with a name and a type are committed.
pub proof fn lemma_sustains_commit_all<A>(
    q: PoolView,
    d: CacheView,
    items: Seq<TypedName>,
    n: nat,
    kind: TypedKind,
    parent: usize,
    repo: TypeRepo,
)
    requires
        numbered(q) ==> parent < q.definitions.len(),
    ensures
        commit_all::<A>(items, n as int, kind, parent, repo, q, d) matches Some(e) ==> {
            &&& sustains(q, d, e.pool, e.cache)
            &&& numbered(e.pool) ==> forall|i: int|
                0 <= i < e.indices.len() ==> of_kind(e.pool, kind, (#[trigger] e.indices[i]).index)
        },
    decreases n,
{
    lemma_sustains_same(q, d);
    if n > 0 {
        lemma_sustains_commit_all::<A>(q, d, items, (n - 1) as nat, kind, parent, repo);
        if let Some(done) = commit_all::<A>(items, n - 1, kind, parent, repo, q, d) {
            assert(numbered(done.pool) ==> parent < done.pool.definitions.len()) by {
                reveal(sustains);
            }
            lemma_sustains_commit_typed::<A>(
                q,
                d,
                done.pool,
                done.cache,
                items[n - 1],
                kind,
                Some(parent),
                repo,
            );
            if let Some(e) = commit_typed::<A>(
                items[n - 1],
                kind,
                Some(parent),
                repo,
                done.pool,
                done.cache,
            ) {
                let all = done.and(e);
                if numbered(e.pool) {
                    assert(numbered(done.pool) && kinds_stay(done.pool, e.pool)) by {
                        reveal(sustains);
                    }
                    assert forall|i: int| 0 <= i < all.indices.len() implies of_kind(
                        e.pool,
                        kind,
                        (#[trigger] all.indices[i]).index,
                    ) by {
                        if i < done.indices.len() {
                            assert(of_kind(done.pool, kind, done.indices[i].index));
                        }
                    }
                }
            }
        }
    }
}

/// A method is committed.
pub proof fn lemma_sustains_commit_function(
    q: PoolView,
    d: CacheView,
    outline: FunctionOutline,
    parent: usize,
    repo: TypeRepo,
)
    requires
        numbered(q) ==> parent < q.definitions.len(),
    ensures
        commit_function(outline, parent, repo, q, d) matches Some(e) ==> {
            &&& sustains(q, d, e.pool, e.cache)
            &&& numbered(e.pool) ==> is_function(e.pool, e.index)
        },
{
    if let Some(e) = commit_function(outline, parent, repo, q, d) {
        lemma_sustains_same(q, d);
        lemma_sustains_name(q, d, q, d, outline.name);
        let (r, name) = q.with_name(outline.name);
        lemma_sustains_same(r, d);
        if let Some(t) = outline.return_type {
            lemma_sustains_alloc_type(q, d, r, d, t, repo);
            lemma_sustains_alloc_type(r, d, r, d, t, repo);
        }
        let (return_type, s, f) = alloc_return(outline.return_type, repo, r, d)->0;
        let index = pool_index::<Function>(s.definitions.len() as usize);
        let function = FunctionView {
            flags: outline.flags,
            return_type,
            parameters: Seq::empty(),
            locals: Seq::empty(),
            code: Seq::empty(),
        };
        let definition = DefinitionView {
            name,
            parent: Some(parent),
            value: AnyDefinitionView::Function(function),
        };
        let t = s.with_definition(definition);
        assert(q.definitions.len() <= s.definitions.len() && r.names.len() <= s.names.len()
            && q.names.len() <= r.names.len()) by {
            reveal(sustains);
        }
        lemma_sustains_definition(q, d, s, f, definition);
        let n = outline.params.len();
        let kind = TypedKind::Parameter;
        lemma_sustains_commit_all::<PoolParam>(t, f, outline.params, n, kind, index.index, repo);
        let params = commit_all::<PoolParam>(
            outline.params,
            n as int,
            kind,
            index.index,
            repo,
            t,
            f,
        )->0;
        lemma_sustains_then(q, d, t, f, params.pool, params.cache);
        let value = AnyDefinitionView::Function(
            FunctionView { parameters: params.indices, ..function },
        );
        if numbered(params.pool) {
            assert(numbered(t) && kinds_stay(t, params.pool)) by {
                reveal(sustains);
            }
            assert(t.definitions[index.index as int] == definition);
            assert(params.pool.definitions[index.index as int].value is Function);
            if good(q, d) && good(params.pool, params.cache) {
                assert(sound_definition(
                    params.pool,
                    params.pool.definitions[index.index as int],
                ));
                assert(are_params(params.pool, params.indices)) by {
                    assert forall|i: int| 0 <= i < params.indices.len() implies is_param(
                        params.pool,
                        #[trigger] params.indices[i],
                    ) by {
                        assert(of_kind(params.pool, kind, params.indices[i].index));
                    }
                }
                if let Some(x) = return_type {
                    assert(good(t, f) ==> is_pool_type(s, x)) by {
                        reveal(sustains);
                    }
                    assert(is_pool_type(params.pool, x));
                }
            }
        }
        lemma_sustains_value(q, d, params.pool, params.cache, index.index, value);
    }
}

/// Several methods are committed.
pub proof fn lemma_sustains_commit_functions(
    q: PoolView,
    d: CacheView,
    outlines: Seq<FunctionOutline>,
    n: nat,
    parent: usize,
    repo: TypeRepo,
)
    requires
        numbered(q) ==> parent < q.definitions.len(),
    ensures
        commit_functions(outlines, n as int, parent, repo, q, d) matches Some(e) ==> {
            &&& sustains(q, d, e.pool, e.cache)
            &&& numbered(e.pool) ==> are_functions(e.pool, e.indices)
        },
    decreases n,
{
    lemma_sustains_same(q, d);
    if n > 0 {
        lemma_sustains_commit_functions(q, d, outlines, (n - 1) as nat, parent, repo);
        if let Some(done) = commit_functions(outlines, n - 1, parent, repo, q, d) {
            assert(numbered(done.pool) ==> parent < done.pool.definitions.len()) by {
                reveal(sustains);
            }
            lemma_sustains_commit_function(done.pool, done.cache, outlines[n - 1], parent, repo);
            if let Some(e) = commit_function(
                outlines[n - 1],
                parent,
                repo,
                done.pool,
                done.cache,
            ) {
                lemma_sustains_then(q, d, done.pool, done.cache, e.pool, e.cache);
                if numbered(e.pool) {
                    assert(numbered(done.pool) && kinds_stay(done.pool, e.pool)) by {
                        reveal(sustains);
                    }
                    lemma_indices_stay(done.pool, e.pool);
                    assert(are_functions(e.pool, done.indices));
                }
            }
        }
    }
}

/// A class is committed.
pub proof fn lemma_sustains_commit_class(
    q: PoolView,
    d: CacheView,
    outline: ClassOutline,
    base: PoolIndex<PoolClass>,
    repo: TypeRepo,
)
    requires
        numbered(q) && good(q, d) ==> is_class(q, base),
    ensures
        commit_class(outline, base, repo, q, d) matches Some(e) ==> {
            &&& sustains(q, d, e.pool, e.cache)
            &&& numbered(e.pool) ==> is_class(e.pool, e.index)
        },
{
    if let Some(e) = commit_class(outline, base, repo, q, d) {
        lemma_sustains_same(q, d);
        lemma_sustains_name(q, d, q, d, outline.name);
        let (r, name) = q.with_name(outline.name);
        let index = pool_index::<PoolClass>(r.definitions.len() as usize);
        let stub = ClassView { base: Some(base), methods: Seq::empty(), fields: Seq::empty() };
        let definition = DefinitionView {
            name,
            parent: None,
            value: AnyDefinitionView::Class(stub),
        };
        let s = r.with_definition(definition);
        law_intern(q.names, outline.name);
        assert(numbered(s) && is_class(q, base) ==> is_class(s, base));
        lemma_sustains_definition(q, d, r, d, definition);
        let m = outline.methods.len();
        lemma_sustains_commit_functions(s, d, outline.methods, m, index.index, repo);
        let methods = commit_functions(outline.methods, m as int, index.index, repo, s, d)->0;
        assert(s.definitions.len() <= methods.pool.definitions.len() && s.names.len()
            <= methods.pool.names.len()) by {
            reveal(sustains);
        }
        let n = outline.fields.len();
        let kind = TypedKind::Field;
        lemma_sustains_commit_all::<PoolField>(
            methods.pool,
            methods.cache,
            outline.fields,
            n,
            kind,
            index.index,
            repo,
        );
        let fields = commit_all::<PoolField>(
            outline.fields,
            n as int,
            kind,
            index.index,
            repo,
            methods.pool,
            methods.cache,
        )->0;
        lemma_sustains_then(s, d, methods.pool, methods.cache, fields.pool, fields.cache);
        lemma_sustains_then(q, d, s, d, fields.pool, fields.cache);
        let value = AnyDefinitionView::Class(
            ClassView { base: Some(base), methods: methods.indices, fields: fields.indices },
        );
        if numbered(fields.pool) {
            assert(numbered(s) && numbered(methods.pool) && kinds_stay(s, fields.pool)
                && kinds_stay(methods.pool, fields.pool) && kinds_stay(q, fields.pool)) by {
                reveal(sustains);
            }
            assert(s.definitions[index.index as int] == definition);
            assert(fields.pool.definitions[index.index as int].value is Class);
            lemma_indices_stay(methods.pool, fields.pool);
            assert(are_functions(fields.pool, methods.indices));
            assert forall|i: int| 0 <= i < fields.indices.len() implies is_field(
                fields.pool,
                #[trigger] fields.indices[i],
            ) by {
                assert(of_kind(fields.pool, kind, fields.indices[i].index));
            }
            assert(is_class(q, base) ==> is_class(fields.pool, base));
        }
        lemma_sustains_value(q, d, fields.pool, fields.cache, index.index, value);
    }
}

proof fn lemma_field_stores(
    pool: PoolView,
    object: PoolIndex<PoolLocal>,
    fields: Seq<PoolIndex<PoolField>>,
    params: Seq<PoolIndex<PoolParam>>,
    n: nat,
)
    requires
        is_local(pool, object),
        are_fields(pool, fields),
        are_params(pool, params),
        n <= fields.len(),
        n <= params.len(),
    ensures
        refers_all(pool, field_stores(object, fields, params, n)),
    decreases n,
{
    if n > 0 {
        lemma_field_stores(pool, object, fields, params, (n - 1) as nat);
        assert(is_field(pool, fields[n - 1]));
        assert(is_param(pool, params[n - 1]));
    }
}

/// `Summon` gets its code.
pub proof fn lemma_sustains_summoner(
    q: PoolView,
    d: CacheView,
    class: PoolIndex<PoolClass>,
    summoner: PoolIndex<Function>,
)
    requires
        is_function(q, summoner),
    ensures
        implement_summoner(class, summoner, q) matches Some(after) ==> sustains(q, d, after, d),
{
    if let Some(after) = implement_summoner(class, summoner, q) {
        let name = (q.definition(class.index)->0).name;
        let class_type = pool_index::<PoolType>(q.definitions.len() as usize);
        let first = type_definition(name, PoolType::Class);
        let q1 = q.with_definition(first);
        lemma_sustains_same(q, d);
        if good(q, d) {
            assert(sound_definition(q, q.definitions[class.index as int]));
        }
        lemma_sustains_definition(q, d, q, d, first);
        let ref_type = pool_index::<PoolType>(q1.definitions.len() as usize);
        let second = type_definition(name, PoolType::Ref(class_type));
        let q2 = q1.with_definition(second);
        lemma_sustains_definition(q, d, q1, d, second);
        let (q3, self_name) = q2.with_name("self"@);
        lemma_sustains_name(q, d, q2, d, "self"@);
        law_intern(q2.names, "self"@);
        let object = pool_index::<PoolLocal>(q3.definitions.len() as usize);
        let local = DefinitionView {
            name: self_name,
            parent: Some(summoner.index),
            value: AnyDefinitionView::Local(
                PoolLocal { typ: ref_type, flags: LocalFlags { is_const: false } },
            ),
        };
        let q4 = q3.with_definition(local);
        lemma_sustains_definition(q, d, q3, d, local);
        let f = q4.function(summoner)->0;
        let fields = (q4.class(class)->0).fields;
        let code = summoner_code(object, class, fields, f.parameters);
        let value = AnyDefinitionView::Function(
            FunctionView { return_type: Some(ref_type), code, locals: seq![object], ..f },
        );
        if numbered(q4) && good(q4, d) {
            assert(sound_definition(q4, q4.definitions[summoner.index as int]));
            assert(sound_definition(q4, q4.definitions[class.index as int]));
            assert(is_local(q4, object));
            assert(is_pool_type(q4, ref_type));
            lemma_field_stores(
                q4,
                object,
                fields,
                f.parameters,
                passed(fields.len(), f.parameters.len()),
            );
            assert(refers_all(q4, code));
        }
        lemma_sustains_value(q, d, q4, d, summoner.index, value);
    }
}

/// Laid out code refers to what it referred to before.
pub proof fn lemma_refers_resolved(pool: PoolView, code: Seq<Instr<Label>>, n: int)
    requires
        0 <= n <= code.len(),
        refers_all(pool, code),
    ensures
        refers_all(pool, resolved(code, n)),
    decreases n,
{
    if n > 0 {
        lemma_refers_resolved(pool, code, n - 1);
        assert(refers(pool, code[n - 1]));
        assert(refers(pool, resolved_instr(code, n - 1)));
    }
}

/// The entries of all items that programs can refer to are in the pool.
pub open spec fn covers(pool: PoolView, db: CompilationDb) -> bool {
    &&& forall|id: TypeId|
        #![trigger db.class_entry(id)]
        db.class_entry(id) matches Some(i) ==> is_class(pool, i)
    &&& forall|id: FieldId|
        #![trigger db.field_entry(id)]
        db.field_entry(id) matches Some(i) ==> is_field(pool, i)
    &&& forall|id: MethodId|
        #![trigger db.method_entry(id)]
        db.method_entry(id) matches Some(i) ==> is_function(pool, i)
    &&& forall|id: MethodId|
        #![trigger db.static_entry(id)]
        db.static_entry(id) matches Some(i) ==> is_function(pool, i)
    &&& forall|id: GlobalId|
        #![trigger db.global_entry(id)]
        db.global_entry(id) matches Some(i) ==> is_function(pool, i)
}

pub proof fn lemma_covers_stays(p: PoolView, q: PoolView, db: CompilationDb)
    requires
        kinds_stay(p, q),
        covers(p, db),
    ensures
        covers(q, db),
{
}

} // verus!
