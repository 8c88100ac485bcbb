//! What stands in the pool once something is committed to it.

use crate::builders::{
    alloc_return, commit_all, commit_class, commit_function, commit_functions, commit_typed,
    ClassOutline, FunctionOutline, TypedKind, TypedName,
};
use crate::growth::{
    consistent, evolves, extends, grows, is_type, law_intern, lemma_alloc_names, lemma_alloc_type,
    lemma_commit_all, lemma_commit_function, lemma_commit_functions, lemma_commit_typed,
    lemma_definition, lemma_name, numbered,
};
use crate::pool::{
    intern, pool_index, AnyDefinitionView, ClassView, DefinitionView, Function, FunctionView,
    LocalFlags, ParameterFlags, PoolClass, PoolField, PoolIndex, PoolParam, PoolType, PoolView,
};
use crate::type_cache::{alloc_type, pool_name, wrapper_of, CacheView};
use crate::types::{Prim, TypeId, TypeRepo, TypeView, ARRAY, REF, SCRIPT_REF, WEAK_REF};
use vstd::prelude::*;

verus! {

/// The names of types: those of the built-in constructors are put before the name of what
/// they are applied to, classes go by their own names, and what can be any value or none
/// is a variant.
pub proof fn law_pool_names(id: TypeId, args: Seq<TypeView>, prim: Prim, repo: TypeRepo)
    ensures
        pool_name(TypeView::Top, repo) == Some("Variant"@),
        pool_name(TypeView::Bottom, repo) == Some("Variant"@),
        pool_name(TypeView::Prim(prim), repo) == Some(prim.text()),
        ({
            let whole = pool_name(TypeView::Data(id, args), repo);
            let inner = pool_name(args[0], repo);
            let built_in = id.id == ARRAY || id.id == REF || id.id == WEAK_REF || id.id
                == SCRIPT_REF;
            &&& !built_in ==> whole == repo.class_name(id)
            &&& built_in ==> (whole is Some <==> args.len() > 0 && inner is Some)
            &&& built_in && whole is Some ==> {
                &&& id.id == ARRAY ==> whole == Some("array:"@ + inner->0)
                &&& id.id == REF ==> whole == Some("ref:"@ + inner->0)
                &&& id.id == WEAK_REF ==> whole == Some("wref:"@ + inner->0)
                &&& id.id == SCRIPT_REF ==> whole == Some("script_ref:"@ + inner->0)
            }
        }),
{
}

/// A type has an entry exactly where it has a name. The entry is a type under that name. A
/// type that is not known yet is defined by what it is made of, whose entry is found or
/// made first; one that is known adds nothing.
pub proof fn law_alloc_type(typ: TypeView, repo: TypeRepo, p: PoolView, c: CacheView)
    ensures
        alloc_type(typ, repo, p, c) is Some <==> pool_name(typ, repo) is Some,
        alloc_type(typ, repo, p, c) matches Some(e) ==> {
            let name = pool_name(typ, repo)->0;
            &&& numbered(e.pool) && consistent(p, c) ==> is_type(e.pool, name, e.index)
            &&& c.names.contains(name) ==> e.pool == p && e.cache == c
            &&& !c.names.contains(name) && numbered(e.pool) ==> {
                &&& e.index.index == e.pool.definitions.len() - 1
                &&& e.cache.names.last() == name
                &&& e.cache.types.last() == e.index
                &&& e.pool.definitions.last().parent is None
                &&& typ matches TypeView::Data(id, args) ==> {
                    let inner = alloc_type(args[0], repo, p, c)->0;
                    let made = e.pool.definitions.last().value;
                    &&& id.id == ARRAY ==> made == AnyDefinitionView::Type(
                        PoolType::Array(inner.index),
                    )
                    &&& id.id == REF ==> made == AnyDefinitionView::Type(
                        PoolType::Ref(inner.index),
                    )
                    &&& id.id == WEAK_REF ==> made == AnyDefinitionView::Type(
                        PoolType::WeakRef(inner.index),
                    )
                    &&& id.id == SCRIPT_REF ==> made == AnyDefinitionView::Type(
                        PoolType::ScriptRef(inner.index),
                    )
                    &&& if id.id == ARRAY || id.id == REF || id.id == WEAK_REF || id.id
                        == SCRIPT_REF {
                        &&& e.pool.definitions.drop_last() == inner.pool.definitions
                        &&& e.cache.names.drop_last() == inner.cache.names
                    } else {
                        &&& made == AnyDefinitionView::Type(PoolType::Class)
                        &&& e.pool.definitions.drop_last() == p.definitions
                    }
                }
                &&& !(typ is Data) ==> {
                    &&& e.pool.definitions.last().value == AnyDefinitionView::Type(PoolType::Prim)
                    &&& e.pool.definitions.drop_last() == p.definitions
                }
            }
        },
    decreases typ,
{
    if let TypeView::Data(id, args) = typ {
        if wrapper_of(id) is Some && args.len() > 0 {
            law_alloc_type(args[0], repo, p, c);
            if let Some(inner) = alloc_type(args[0], repo, p, c) {
                if let Some(e) = alloc_type(typ, repo, p, c) {
                    assert(e.pool.definitions.drop_last() =~= inner.pool.definitions
                        || e.pool == p);
                    assert(e.cache.names.drop_last() =~= inner.cache.names || e.cache == c);
                }
            }
        }
    }
    if let Some(e) = alloc_type(typ, repo, p, c) {
        let name = pool_name(typ, repo)->0;
        c.names.index_of_first_ensures(name);
        lemma_alloc_names(typ, repo, p, c);
        lemma_alloc_type(typ, repo, p, c);
        if !c.names.contains(name) {
            assert(e.pool.definitions.drop_last() =~= p.definitions || typ is Data);
            if let TypeView::Data(id, args) = typ {
                if wrapper_of(id) is None {
                    assert(e.pool.definitions.drop_last() =~= p.definitions);
                }
            }
        }
        if numbered(e.pool) && consistent(p, c) {
            assert(consistent(e.pool, e.cache)) by {
                reveal(evolves);
            }
            e.cache.names.index_of_first_ensures(name);
            let i = e.cache.names.index_of_first(name)->0;
            assert(is_type(e.pool, e.cache.names[i], e.cache.types[i]));
        }
    }
}

/// The definition at `index` has the name and the type of `item`, belongs to `parent`, and
/// is of the given kind. A parameter is evaluated at once, a local can be assigned to.
pub open spec fn typed_as(
    pool: PoolView,
    index: usize,
    kind: TypedKind,
    item: TypedName,
    parent: Option<usize>,
    repo: TypeRepo,
) -> bool {
    pool.definition(index) matches Some(d) && {
        &&& d.name.index < pool.names.len()
        &&& pool.names[d.name.index as int] == item.name
        &&& d.parent == parent
        &&& pool_name(item.typ, repo) is Some
        &&& match kind {
            TypedKind::Local => d.value matches AnyDefinitionView::Local(x) && x.flags
                == (LocalFlags { is_const: false }) && is_type(
                pool,
                pool_name(item.typ, repo)->0,
                x.typ,
            ),
            TypedKind::Parameter => d.value matches AnyDefinitionView::Parameter(x) && x.flags
                == (ParameterFlags { is_short_circuit: false }) && is_type(
                pool,
                pool_name(item.typ, repo)->0,
                x.typ,
            ),
            TypedKind::Field => d.value matches AnyDefinitionView::Field(x) && is_type(
                pool,
                pool_name(item.typ, repo)->0,
                x.typ,
            ),
        }
    }
}

/// `q` has all that `p` has, but for another value of the definition at `changed`, which is
/// a class or a function.
pub open spec fn same_but(p: PoolView, q: PoolView, changed: int) -> bool {
    &&& extends(p.names, q.names)
    &&& p.definitions.len() <= q.definitions.len()
    &&& forall|j: int|
        #![trigger q.definitions[j]]
        0 <= j < p.definitions.len() && j != changed ==> q.definitions[j] == p.definitions[j]
    &&& 0 <= changed < p.definitions.len() ==> p.definitions[changed].value is Class
        || p.definitions[changed].value is Function
}

pub proof fn lemma_typed_as_stays(
    p: PoolView,
    q: PoolView,
    changed: int,
    index: usize,
    kind: TypedKind,
    item: TypedName,
    parent: Option<usize>,
    repo: TypeRepo,
)
    requires
        same_but(p, q, changed),
        typed_as(p, index, kind, item, parent, repo),
    ensures
        typed_as(q, index, kind, item, parent, repo),
{
    assert(q.definitions[index as int] == p.definitions[index as int]);
}

/// Something with a name and a type is committed exactly where the type has a name.
pub proof fn law_commit_typed<A>(
    item: TypedName,
    kind: TypedKind,
    parent: Option<usize>,
    repo: TypeRepo,
    p: PoolView,
    c: CacheView,
)
    ensures
        commit_typed::<A>(item, kind, parent, repo, p, c) is Some <==> pool_name(
            item.typ,
            repo,
        ) is Some,
        commit_typed::<A>(item, kind, parent, repo, p, c) matches Some(e) ==> {
            let q = PoolView { names: intern(p.names, item.name).0, ..p };
            let typ = alloc_type(item.typ, repo, q, c)->0;
            &&& numbered(e.pool) && consistent(p, c) ==> typed_as(
                e.pool,
                e.index.index,
                kind,
                item,
                parent,
                repo,
            )
            &&& numbered(e.pool) ==> e.index.index == e.pool.definitions.len() - 1
            &&& e.pool == (PoolView { definitions: e.pool.definitions, ..typ.pool })
            &&& e.pool.definitions.drop_last() == typ.pool.definitions
            &&& e.cache == typ.cache
        },
{
    let (q, name) = p.with_name(item.name);
    law_alloc_type(item.typ, repo, q, c);
    if let Some(e) = commit_typed::<A>(item, kind, parent, repo, p, c) {
        assert(e.pool.definitions.drop_last() =~= (alloc_type(
            item.typ,
            repo,
            q,
            c,
        )->0).pool.definitions);
        lemma_name(p, c, item.name);
        law_intern(p.names, item.name);
        let typ = alloc_type(item.typ, repo, q, c)->0;
        lemma_alloc_type(item.typ, repo, q, c);
        if numbered(e.pool) && consistent(p, c) {
            assert(numbered(typ.pool));
            assert(numbered(q) && grows(q, typ.pool) && consistent(q, c)) by {
                reveal(evolves);
            }
            assert(is_type(typ.pool, pool_name(item.typ, repo)->0, typ.index));
            assert(typ.pool.names[name.index as int] == item.name);
            assert(is_type(e.pool, pool_name(item.typ, repo)->0, typ.index));
        }
    }
}

/// Several of them are committed, each at its place, exactly where all their types have
/// names.
pub proof fn law_commit_all<A>(
    items: Seq<TypedName>,
    n: nat,
    kind: TypedKind,
    parent: usize,
    repo: TypeRepo,
    p: PoolView,
    c: CacheView,
)
    requires
        n <= items.len(),
    ensures
        commit_all::<A>(items, n as int, kind, parent, repo, p, c) is Some <==> forall|i: int|
            0 <= i < n ==> pool_name((#[trigger] items[i]).typ, repo) is Some,
        commit_all::<A>(items, n as int, kind, parent, repo, p, c) matches Some(e) ==> {
            &&& e.indices.len() == n
            &&& numbered(e.pool) && consistent(p, c) ==> forall|i: int|
                #![trigger e.indices[i]]
                0 <= i < n ==> typed_as(
                    e.pool,
                    e.indices[i].index,
                    kind,
                    items[i],
                    Some(parent),
                    repo,
                )
        },
    decreases n,
{
    if n > 0 {
        let last = items[n - 1];
        law_commit_all::<A>(items, (n - 1) as nat, kind, parent, repo, p, c);
        if let Some(done) = commit_all::<A>(items, n - 1, kind, parent, repo, p, c) {
            lemma_commit_all::<A>(items, (n - 1) as nat, kind, parent, repo, p, c);
            lemma_commit_typed::<A>(last, kind, Some(parent), repo, done.pool, done.cache);
            law_commit_typed::<A>(last, kind, Some(parent), repo, done.pool, done.cache);
            if let Some(e) = commit_typed::<A>(
                last,
                kind,
                Some(parent),
                repo,
                done.pool,
                done.cache,
            ) {
                let all = done.and(e);
                if numbered(e.pool) && consistent(p, c) {
                    assert(numbered(done.pool) && grows(done.pool, e.pool) && consistent(
                        done.pool,
                        done.cache,
                    )) by {
                        reveal(evolves);
                    }
                    assert forall|i: int| #![trigger all.indices[i]] 0 <= i < n implies typed_as(
                        all.pool,
                        all.indices[i].index,
                        kind,
                        items[i],
                        Some(parent),
                        repo,
                    ) by {
                        if i < n - 1 {
                            assert(all.indices[i] == done.indices[i]);
                            lemma_typed_as_stays(
                                done.pool,
                                e.pool,
                                -1,
                                done.indices[i].index,
                                kind,
                                items[i],
                                Some(parent),
                                repo,
                            );
                        }
                    }
                }
            }
        }
    }
}

/// The definition at `index` is a function that belongs to `parent` and has the name, the
/// flags, the return type and the parameters that `outline` says.
pub open spec fn outlined(
    pool: PoolView,
    index: PoolIndex<Function>,
    outline: FunctionOutline,
    parent: usize,
    repo: TypeRepo,
) -> bool {
    pool.function(index) matches Some(f) && {
        let d = pool.definitions[index.index as int];
        &&& d.name.index < pool.names.len()
        &&& pool.names[d.name.index as int] == outline.name
        &&& d.parent == Some(parent)
        &&& f.flags == outline.flags
        &&& outline.return_type is None ==> f.return_type is None
        &&& outline.return_type matches Some(t) ==> {
            &&& pool_name(t, repo) is Some
            &&& f.return_type matches Some(r) && is_type(pool, pool_name(t, repo)->0, r)
        }
        &&& f.parameters.len() == outline.params.len()
        &&& forall|i: int|
            #![trigger f.parameters[i]]
            0 <= i < f.parameters.len() ==> typed_as(
                pool,
                f.parameters[i].index,
                TypedKind::Parameter,
                outline.params[i],
                Some(index.index),
                repo,
            )
    }
}

pub proof fn lemma_outlined_stays(
    p: PoolView,
    q: PoolView,
    changed: int,
    index: PoolIndex<Function>,
    outline: FunctionOutline,
    parent: usize,
    repo: TypeRepo,
)
    requires
        same_but(p, q, changed),
        index.index != changed,
        outlined(p, index, outline, parent, repo),
    ensures
        outlined(q, index, outline, parent, repo),
{
    let f = p.function(index)->0;
    assert(q.definitions[index.index as int] == p.definitions[index.index as int]);
    assert forall|i: int| #![trigger f.parameters[i]] 0 <= i < f.parameters.len() implies typed_as(
        q,
        f.parameters[i].index,
        TypedKind::Parameter,
        outline.params[i],
        Some(index.index),
        repo,
    ) by {
        lemma_typed_as_stays(
            p,
            q,
            changed,
            f.parameters[i].index,
            TypedKind::Parameter,
            outline.params[i],
            Some(index.index),
            repo,
        );
    }
}

/// All types that the outline mentions have names.
pub open spec fn nameable(outline: FunctionOutline, repo: TypeRepo) -> bool {
    &&& outline.return_type matches Some(t) ==> pool_name(t, repo) is Some
    &&& forall|i: int|
        0 <= i < outline.params.len() ==> pool_name((#[trigger] outline.params[i]).typ, repo)
            is Some
}

/// A method is committed as its outline says, without locals and without code, exactly
/// where its types have names.
pub proof fn law_commit_function(
    outline: FunctionOutline,
    parent: usize,
    repo: TypeRepo,
    p: PoolView,
    c: CacheView,
)
    ensures
        commit_function(outline, parent, repo, p, c) is Some <==> nameable(outline, repo),
        commit_function(outline, parent, repo, p, c) matches Some(e) ==> {
            numbered(e.pool) && consistent(p, c) ==> {
                &&& outlined(e.pool, e.index, outline, parent, repo)
                &&& (e.pool.function(e.index)->0).locals.len() == 0
                &&& (e.pool.function(e.index)->0).code.len() == 0
            }
        },
{
    let (q, name) = p.with_name(outline.name);
    if let Some(t) = outline.return_type {
        law_alloc_type(t, repo, q, c);
        lemma_alloc_type(t, repo, q, c);
    }
    if let Some((return_type, r, d)) = alloc_return(outline.return_type, repo, q, c) {
        let index = pool_index::<Function>(r.definitions.len() as usize);
        let function = FunctionView {
            flags: outline.flags,
            return_type,
            parameters: Seq::empty(),
            locals: Seq::empty(),
            code: Seq::empty(),
        };
        let definition = DefinitionView {
            name,
            parent: Some(parent),
            value: AnyDefinitionView::Function(function),
        };
        let s = r.with_definition(definition);
        let n = outline.params.len();
        let kind = TypedKind::Parameter;
        law_commit_all::<PoolParam>(outline.params, n, kind, index.index, repo, s, d);
        lemma_commit_all::<PoolParam>(outline.params, n, kind, index.index, repo, s, d);
        if let Some(e) = commit_function(outline, parent, repo, p, c) {
            lemma_name(p, c, outline.name);
            law_intern(p.names, outline.name);
            lemma_definition(r, d, definition);
            let params = commit_all::<PoolParam>(
                outline.params,
                n as int,
                kind,
                index.index,
                repo,
                s,
                d,
            )->0;
            if numbered(e.pool) && consistent(p, c) {
                assert(numbered(params.pool));
                assert(numbered(s) && numbered(r) && numbered(q) && grows(s, params.pool)
                    && grows(q, r) && consistent(q, c) && consistent(r, d) && consistent(s, d))
                    by {
                    reveal(evolves);
                }
                let at = index.index as int;
                assert(s.definitions[at] == definition);
                assert(params.pool.definitions[at] == definition);
                assert(same_but(params.pool, e.pool, at));
                assert forall|i: int|
                    #![trigger params.indices[i]]
                    0 <= i < params.indices.len() implies typed_as(
                    e.pool,
                    params.indices[i].index,
                    kind,
                    outline.params[i],
                    Some(index.index),
                    repo,
                ) by {
                    lemma_typed_as_stays(
                        params.pool,
                        e.pool,
                        at,
                        params.indices[i].index,
                        kind,
                        outline.params[i],
                        Some(index.index),
                        repo,
                    );
                }
                assert(r.names[name.index as int] == outline.name);
                if let Some(t) = outline.return_type {
                    let x = return_type->0;
                    assert(is_type(r, pool_name(t, repo)->0, x));
                    assert(e.pool.definitions[x.index as int] == r.definitions[x.index as int]);
                    assert(is_type(e.pool, pool_name(t, repo)->0, x));
                }
            }
        }
    }
}

/// Several methods are committed, each at its place.
pub proof fn law_commit_functions(
    outlines: Seq<FunctionOutline>,
    n: nat,
    parent: usize,
    repo: TypeRepo,
    p: PoolView,
    c: CacheView,
)
    requires
        n <= outlines.len(),
    ensures
        commit_functions(outlines, n as int, parent, repo, p, c) is Some <==> forall|i: int|
            0 <= i < n ==> nameable(#[trigger] outlines[i], repo),
        commit_functions(outlines, n as int, parent, repo, p, c) matches Some(e) ==> {
            &&& e.indices.len() == n
            &&& numbered(e.pool) && consistent(p, c) ==> forall|i: int|
                #![trigger e.indices[i]]
                0 <= i < n ==> outlined(e.pool, e.indices[i], outlines[i], parent, repo)
            &&& numbered(e.pool) ==> forall|i: int, j: int|
                #![trigger e.indices[i], e.indices[j]]
                0 <= i < j < n ==> e.indices[i].index < e.indices[j].index
        },
    decreases n,
{
    if n > 0 {
        let last = outlines[n - 1];
        law_commit_functions(outlines, (n - 1) as nat, parent, repo, p, c);
        lemma_commit_functions(outlines, (n - 1) as nat, parent, repo, p, c);
        if let Some(done) = commit_functions(outlines, n - 1, parent, repo, p, c) {
            lemma_commit_function(last, parent, repo, done.pool, done.cache);
            law_commit_function(last, parent, repo, done.pool, done.cache);
            if let Some(e) = commit_function(last, parent, repo, done.pool, done.cache) {
                let all = done.and(e);
                if numbered(e.pool) {
                    assert(numbered(done.pool) && grows(done.pool, e.pool)) by {
                        reveal(evolves);
                    }
                    assert(consistent(p, c) ==> consistent(done.pool, done.cache)) by {
                        reveal(evolves);
                    }
                    assert forall|i: int, j: int|
                        #![trigger all.indices[i], all.indices[j]]
                        0 <= i < j < n implies all.indices[i].index < all.indices[j].index by {
                        assert(all.indices[i] == done.indices[i]);
                        if j < n - 1 {
                            assert(all.indices[j] == done.indices[j]);
                        }
                    }
                    if consistent(p, c) {
                        assert forall|i: int| #![trigger all.indices[i]] 0 <= i < n implies outlined(
                            all.pool,
                            all.indices[i],
                            outlines[i],
                            parent,
                            repo,
                        ) by {
                            if i < n - 1 {
                                assert(all.indices[i] == done.indices[i]);
                                lemma_outlined_stays(
                                    done.pool,
                                    e.pool,
                                    -1,
                                    done.indices[i],
                                    outlines[i],
                                    parent,
                                    repo,
                                );
                            }
                        }
                    }
                }
            }
        }
    }
}

/// A class is committed exactly where all types that it mentions have names. It has the
/// name and the base that it was described with, and its methods and its fields are those
/// that were described, in order.
pub proof fn law_commit_class_parts(
    outline: ClassOutline,
    base: PoolIndex<PoolClass>,
    repo: TypeRepo,
    p: PoolView,
    c: CacheView,
)
    ensures
        commit_class(outline, base, repo, p, c) is Some <==> {
            &&& forall|i: int|
                0 <= i < outline.methods.len() ==> nameable(#[trigger] outline.methods[i], repo)
            &&& forall|i: int|
                0 <= i < outline.fields.len() ==> pool_name((#[trigger] outline.fields[i]).typ, repo)
                    is Some
        },
        commit_class(outline, base, repo, p, c) matches Some(e) ==> {
            numbered(e.pool) && consistent(p, c) ==> {
                &&& e.pool.class(e.index) matches Some(class) && {
                    let d = e.pool.definitions[e.index.index as int];
                    &&& d.name.index < e.pool.names.len()
                    &&& e.pool.names[d.name.index as int] == outline.name
                    &&& d.parent is None
                    &&& class.base == Some(base)
                    &&& class.methods.len() == outline.methods.len()
                    &&& forall|i: int|
                        #![trigger class.methods[i]]
                        0 <= i < class.methods.len() ==> outlined(
                            e.pool,
                            class.methods[i],
                            outline.methods[i],
                            e.index.index,
                            repo,
                        )
                    &&& forall|i: int, j: int|
                        #![trigger class.methods[i], class.methods[j]]
                        0 <= i < j < class.methods.len() ==> class.methods[i].index
                            < class.methods[j].index
                    &&& class.fields.len() == outline.fields.len()
                    &&& forall|i: int|
                        #![trigger class.fields[i]]
                        0 <= i < class.fields.len() ==> typed_as(
                            e.pool,
                            class.fields[i].index,
                            TypedKind::Field,
                            outline.fields[i],
                            Some(e.index.index),
                            repo,
                        )
                }
            }
        },
{
    let (q, name) = p.with_name(outline.name);
    let index = pool_index::<PoolClass>(q.definitions.len() as usize);
    let stub = ClassView { base: Some(base), methods: Seq::empty(), fields: Seq::empty() };
    let definition = DefinitionView { name, parent: None, value: AnyDefinitionView::Class(stub) };
    let r = q.with_definition(definition);
    let m = outline.methods.len();
    law_commit_functions(outline.methods, m, index.index, repo, r, c);
    lemma_commit_functions(outline.methods, m, index.index, repo, r, c);
    if let Some(methods) = commit_functions(outline.methods, m as int, index.index, repo, r, c) {
        let n = outline.fields.len();
        let kind = TypedKind::Field;
        law_commit_all::<PoolField>(
            outline.fields,
            n,
            kind,
            index.index,
            repo,
            methods.pool,
            methods.cache,
        );
        lemma_commit_all::<PoolField>(
            outline.fields,
            n,
            kind,
            index.index,
            repo,
            methods.pool,
            methods.cache,
        );
        if let Some(e) = commit_class(outline, base, repo, p, c) {
            lemma_name(p, c, outline.name);
            law_intern(p.names, outline.name);
            lemma_definition(q, c, definition);
            let fields = commit_all::<PoolField>(
                outline.fields,
                n as int,
                kind,
                index.index,
                repo,
                methods.pool,
                methods.cache,
            )->0;
            if numbered(e.pool) && consistent(p, c) {
                assert(numbered(fields.pool));
                assert(numbered(methods.pool) && numbered(r) && numbered(q) && grows(
                    methods.pool,
                    fields.pool,
                ) && grows(r, methods.pool) && consistent(q, c) && consistent(r, c) && consistent(
                    methods.pool,
                    methods.cache,
                )) by {
                    reveal(evolves);
                }
                let at = index.index as int;
                assert(r.definitions[at] == definition);
                assert(methods.pool.definitions[at] == definition);
                assert(fields.pool.definitions[at] == definition);
                assert(same_but(fields.pool, e.pool, at));
                assert(same_but(methods.pool, fields.pool, -1));
                let class = e.pool.class(e.index)->0;
                assert forall|i: int|
                    #![trigger class.methods[i]]
                    0 <= i < class.methods.len() implies outlined(
                    e.pool,
                    class.methods[i],
                    outline.methods[i],
                    e.index.index,
                    repo,
                ) by {
                    assert(class.methods[i] == methods.indices[i]);
                    let x = methods.indices[i];
                    let o = outline.methods[i];
                    lemma_outlined_stays(methods.pool, fields.pool, -1, x, o, index.index, repo);
                    lemma_outlined_stays(fields.pool, e.pool, at, x, o, index.index, repo);
                }
                assert forall|i: int|
                    #![trigger class.fields[i]]
                    0 <= i < class.fields.len() implies typed_as(
                    e.pool,
                    class.fields[i].index,
                    kind,
                    outline.fields[i],
                    Some(e.index.index),
                    repo,
                ) by {
                    assert(class.fields[i] == fields.indices[i]);
                    lemma_typed_as_stays(
                        fields.pool,
                        e.pool,
                        at,
                        fields.indices[i].index,
                        kind,
                        outline.fields[i],
                        Some(index.index),
                        repo,
                    );
                }
                assert(r.names[name.index as int] == outline.name);
            }
        }
    }
}

} // verus!
