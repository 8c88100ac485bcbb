//! The pool only grows: what an entry says when it is there it says ever after, but for
//! entries that are still being made.

use crate::builders::{
    alloc_return, commit_all, commit_class, commit_function, commit_functions, commit_typed,
    typed_value, ClassOutline, Entries, FunctionOutline, TypedKind, TypedName,
};
use crate::pool::{
    intern, pool_index, AnyDefinitionView, ClassView, DefinitionView, Function, FunctionView,
    type_definition, PoolClass, PoolField, PoolIndex, PoolParam, PoolType, PoolView,
};
use crate::type_cache::{
    alloc_type, define_type, pool_name, wrapper_of, CacheView, Entry, Wrapper,
};
use crate::types::{TypeRepo, TypeView};
use vstd::prelude::*;

verus! {

/// `t` begins with `s`.
pub open spec fn extends<T>(s: Seq<T>, t: Seq<T>) -> bool {
    &&& s.len() <= t.len()
    &&& forall|i: int| 0 <= i < s.len() ==> #[trigger] t[i] == s[i]
}

/// Everything that was in `before` is in `after`, at the same place.
pub open spec fn grows(before: PoolView, after: PoolView) -> bool {
    &&& extends(before.names, after.names)
    &&& extends(before.strings, after.strings)
    &&& extends(before.resources, after.resources)
    &&& extends(before.tweakdb_ids, after.tweakdb_ids)
    &&& extends(before.definitions, after.definitions)
}

/// Names and definitions can be referred to by number.
pub open spec fn numbered(pool: PoolView) -> bool {
    &&& pool.names.len() <= usize::MAX
    &&& pool.definitions.len() <= usize::MAX
}

/// `index` is the definition of a type under `name`.
pub open spec fn is_type(pool: PoolView, name: Seq<char>, index: PoolIndex<PoolType>) -> bool {
    match pool.definition(index.index) {
        Some(d) => {
            &&& d.value is Type
            &&& d.name.index < pool.names.len()
            &&& pool.names[d.name.index as int] == name
        },
        None => false,
    }
}

/// No text is interned twice, no two types are known by the same name, and each type that
/// is known by a name is defined under it.
pub open spec fn consistent(pool: PoolView, cache: CacheView) -> bool {
    &&& pool.names.no_duplicates()
    &&& pool.strings.no_duplicates()
    &&& pool.resources.no_duplicates()
    &&& pool.tweakdb_ids.no_duplicates()
    &&& cache.names.no_duplicates()
    &&& cache.names.len() == cache.types.len()
    &&& forall|i: int|
        #![trigger cache.types[i]]
        0 <= i < cache.types.len() ==> is_type(pool, cache.names[i], cache.types[i])
}

/// The pool grows and stays consistent, as long as its entries can be numbered.
#[verifier::opaque]
pub open spec fn evolves(p: PoolView, c: CacheView, q: PoolView, d: CacheView) -> bool {
    &&& p.names.len() <= q.names.len()
    &&& p.definitions.len() <= q.definitions.len()
    &&& numbered(q) ==> grows(p, q) && (consistent(p, c) ==> consistent(q, d))
}

pub proof fn lemma_evolves_same(p: PoolView, c: CacheView)
    ensures
        evolves(p, c, p, c),
{
    reveal(evolves);
}

pub proof fn lemma_evolves_then(
    p: PoolView,
    c: CacheView,
    q: PoolView,
    d: CacheView,
    r: PoolView,
    e: CacheView,
)
    requires
        evolves(p, c, q, d),
        evolves(q, d, r, e),
    ensures
        evolves(p, c, r, e),
{
    reveal(evolves);
    if numbered(r) {
        assert(numbered(q));
        assert(grows(p, r));
    }
}

/// Adding a text keeps a table free of duplicates, and the text stands where it is said
/// to.
pub proof fn law_intern(table: Seq<Seq<char>>, text: Seq<char>)
    ensures
        extends(table, intern(table, text).0),
        0 <= intern(table, text).1 < intern(table, text).0.len(),
        intern(table, text).0[intern(table, text).1] == text,
        table.no_duplicates() ==> intern(table, text).0.no_duplicates(),
        intern(table, text).0 == if table.contains(text) {
            table
        } else {
            table.push(text)
        },
{
    table.index_of_first_ensures(text);
}

/// Adding a text a second time changes nothing, and finds it at the same place.
pub proof fn law_intern_once(table: Seq<Seq<char>>, text: Seq<char>)
    ensures
        intern(intern(table, text).0, text) == intern(table, text),
{
    let (once, i) = intern(table, text);
    table.index_of_first_ensures(text);
    once.index_of_first_ensures(text);
    assert(once[i] == text);
    assert(once.contains(text));
    if table.index_of_first(text) is None {
        let j = once.index_of_first(text)->0;
        if j < table.len() {
            assert(table[j] == text);
        }
    }
}

pub proof fn lemma_name(p: PoolView, c: CacheView, name: Seq<char>)
    ensures
        evolves(p, c, p.with_name(name).0, c),
        numbered(p.with_name(name).0) ==> {
            let (q, i) = p.with_name(name);
            i.index < q.names.len() && q.names[i.index as int] == name
        },
{
    reveal(evolves);
    law_intern(p.names, name);
    let q = p.with_name(name).0;
    if numbered(q) && consistent(p, c) {
        assert forall|i: int|
            #![trigger c.types[i]]
            0 <= i < c.types.len() implies is_type(q, c.names[i], c.types[i]) by {
            assert(is_type(p, c.names[i], c.types[i]));
        }
    }
}

pub proof fn lemma_texts(p: PoolView, c: CacheView, q: PoolView)
    requires
        q.names == p.names,
        q.definitions == p.definitions,
        extends(p.strings, q.strings),
        extends(p.resources, q.resources),
        extends(p.tweakdb_ids, q.tweakdb_ids),
        p.strings.no_duplicates() ==> q.strings.no_duplicates(),
        p.resources.no_duplicates() ==> q.resources.no_duplicates(),
        p.tweakdb_ids.no_duplicates() ==> q.tweakdb_ids.no_duplicates(),
    ensures
        evolves(p, c, q, c),
{
    reveal(evolves);
    if numbered(q) && consistent(p, c) {
        assert forall|i: int|
            #![trigger c.types[i]]
            0 <= i < c.types.len() implies is_type(q, c.names[i], c.types[i]) by {
            assert(is_type(p, c.names[i], c.types[i]));
        }
    }
}

/// One more definition.
pub proof fn lemma_definition(p: PoolView, c: CacheView, definition: DefinitionView)
    ensures
        evolves(p, c, p.with_definition(definition), c),
{
    reveal(evolves);
    let q = p.with_definition(definition);
    if numbered(q) && consistent(p, c) {
        assert forall|i: int|
            #![trigger c.types[i]]
            0 <= i < c.types.len() implies is_type(q, c.names[i], c.types[i]) by {
            assert(is_type(p, c.names[i], c.types[i]));
        }
    }
}

/// A definition that was not there in `p` and is no type gets its value.
pub proof fn lemma_value(
    p: PoolView,
    c: CacheView,
    q: PoolView,
    d: CacheView,
    index: usize,
    value: AnyDefinitionView,
)
    requires
        evolves(p, c, q, d),
        numbered(q) ==> p.definitions.len() <= index < q.definitions.len()
            && !(q.definitions[index as int].value is Type),
    ensures
        evolves(p, c, q.with_value(index, value), d),
{
    reveal(evolves);
    let r = q.with_value(index, value);
    if numbered(r) {
        assert(numbered(q));
        if consistent(p, c) {
            assert forall|i: int|
                #![trigger d.types[i]]
                0 <= i < d.types.len() implies is_type(r, d.names[i], d.types[i]) by {
                assert(is_type(q, d.names[i], d.types[i]));
            }
        }
    }
}

pub proof fn lemma_define_type(name: Seq<char>, typ: PoolType, p: PoolView, c: CacheView)
    requires
        !c.names.contains(name),
    ensures
        evolves(p, c, define_type(name, typ, p, c).pool, define_type(name, typ, p, c).cache),
{
    let (q, i) = p.with_name(name);
    let e = define_type(name, typ, p, c);
    lemma_name(p, c, name);
    lemma_definition(q, c, type_definition(i, typ));
    lemma_evolves_then(p, c, q, c, e.pool, c);
    reveal(evolves);
    if numbered(e.pool) && consistent(p, c) {
        assert(consistent(e.pool, c));
        assert forall|j: int|
            #![trigger e.cache.types[j]]
            0 <= j < e.cache.types.len() implies is_type(
            e.pool,
            e.cache.names[j],
            e.cache.types[j],
        ) by {
            if j < c.types.len() {
                assert(is_type(e.pool, c.names[j], c.types[j]));
            }
        }
    }
}

/// The name of a type that is made out of another one is longer than the name of that one.
pub proof fn lemma_wrapper_text(w: Wrapper)
    ensures
        w.text().len() > 0,
{
    reveal_strlit("array:");
    reveal_strlit("ref:");
    reveal_strlit("wref:");
    reveal_strlit("script_ref:");
}

/// The types that come to be known for the sake of a type have no longer names than it.
pub proof fn lemma_alloc_names(typ: TypeView, repo: TypeRepo, p: PoolView, c: CacheView)
    ensures
        alloc_type(typ, repo, p, c) matches Some(e) ==> {
            &&& pool_name(typ, repo) is Some
            &&& extends(c.names, e.cache.names)
            &&& e.cache.names.contains(pool_name(typ, repo)->0)
            &&& forall|i: int|
                #![trigger e.cache.names[i]]
                c.names.len() <= i < e.cache.names.len() ==> e.cache.names[i].len() <= (pool_name(
                    typ,
                    repo,
                )->0).len()
            &&& c.names.len() == c.types.len() ==> {
                &&& e.cache.names.len() == e.cache.types.len()
                &&& e.cache.get(pool_name(typ, repo)->0) == Some(e.index)
            }
        },
    decreases typ,
{
    if let Some(e) = alloc_type(typ, repo, p, c) {
        let name = pool_name(typ, repo)->0;
        c.names.index_of_first_ensures(name);
        e.cache.names.index_of_first_ensures(name);
        if c.get(name) is None {
            let at = e.cache.names.len() - 1;
            assert(e.cache.names[at] == name);
            match typ {
                TypeView::Data(id, args) => match wrapper_of(id) {
                    Some(w) => {
                        lemma_alloc_names(args[0], repo, p, c);
                        lemma_wrapper_text(w);
                        let inner = alloc_type(args[0], repo, p, c)->0;
                        assert(name == w.text() + pool_name(args[0], repo)->0);
                        assert forall|i: int| 0 <= i < at implies e.cache.names[i] != name by {
                            assert(e.cache.names[i] == inner.cache.names[i]);
                            if i < c.names.len() {
                                assert(inner.cache.names[i] == c.names[i]);
                                assert(c.names.contains(c.names[i]));
                            }
                        }
                    },
                    None => {
                        assert forall|i: int| 0 <= i < at implies e.cache.names[i] != name by {
                            assert(c.names.contains(c.names[i]));
                        }
                    },
                },
                _ => {
                    assert forall|i: int| 0 <= i < at implies e.cache.names[i] != name by {
                        assert(c.names.contains(c.names[i]));
                    }
                },
            }
        }
    }
}

/// Asking for a type a second time finds the entry of the first time and adds nothing.
pub proof fn law_alloc_type_once(typ: TypeView, repo: TypeRepo, p: PoolView, c: CacheView)
    requires
        c.names.len() == c.types.len(),
    ensures
        alloc_type(typ, repo, p, c) matches Some(e) ==> alloc_type(
            typ,
            repo,
            e.pool,
            e.cache,
        ) == Some(e),
{
    lemma_alloc_names(typ, repo, p, c);
    if let Some(e) = alloc_type(typ, repo, p, c) {
        assert(alloc_type(typ, repo, e.pool, e.cache) == Some(
            Entry { index: e.index, pool: e.pool, cache: e.cache },
        ));
    }
}

pub proof fn lemma_alloc_type(typ: TypeView, repo: TypeRepo, p: PoolView, c: CacheView)
    ensures
        alloc_type(typ, repo, p, c) matches Some(e) ==> evolves(p, c, e.pool, e.cache),
    decreases typ,
{
    lemma_evolves_same(p, c);
    if let Some(e) = alloc_type(typ, repo, p, c) {
        let name = pool_name(typ, repo)->0;
        if c.get(name) is None {
            c.names.index_of_first_ensures(name);
            match typ {
                TypeView::Data(id, args) => match wrapper_of(id) {
                    Some(w) => {
                        lemma_alloc_type(args[0], repo, p, c);
                        let inner = alloc_type(args[0], repo, p, c)->0;
                        lemma_alloc_names(args[0], repo, p, c);
                        lemma_wrapper_text(w);
                        assert(name == w.text() + pool_name(args[0], repo)->0);
                        assert forall|i: int| 0 <= i < inner.cache.names.len() implies
                            inner.cache.names[i] != name by {
                            if i < c.names.len() {
                                assert(inner.cache.names[i] == c.names[i]);
                                assert(c.names.contains(c.names[i]));
                            }
                        }
                        lemma_define_type(name, w.around(inner.index), inner.pool, inner.cache);
                        lemma_evolves_then(p, c, inner.pool, inner.cache, e.pool, e.cache);
                    },
                    None => {
                        lemma_define_type(name, PoolType::Class, p, c);
                    },
                },
                _ => {
                    lemma_define_type(name, PoolType::Prim, p, c);
                },
            }
        }
    }
}

pub proof fn lemma_commit_typed<A>(
    item: TypedName,
    kind: TypedKind,
    parent: Option<usize>,
    repo: TypeRepo,
    p: PoolView,
    c: CacheView,
)
    ensures
        commit_typed::<A>(item, kind, parent, repo, p, c) matches Some(e) ==> {
            &&& evolves(p, c, e.pool, e.cache)
            &&& e.pool.definitions.len() > p.definitions.len()
            &&& numbered(e.pool) ==> {
                &&& p.definitions.len() <= e.index.index < e.pool.definitions.len()
                &&& exists|typ: PoolIndex<PoolType>|
                    #![trigger typed_value(kind, typ)]
                    e.pool.definitions[e.index.index as int].value == typed_value(kind, typ)
            }
        },
{
    if let Some(e) = commit_typed::<A>(item, kind, parent, repo, p, c) {
        let (q, name) = p.with_name(item.name);
        lemma_name(p, c, item.name);
        lemma_alloc_type(item.typ, repo, q, c);
        let typ = alloc_type(item.typ, repo, q, c)->0;
        lemma_evolves_then(p, c, q, c, typ.pool, typ.cache);
        let definition = DefinitionView { name, parent, value: typed_value(kind, typ.index) };
        lemma_definition(typ.pool, typ.cache, definition);
        lemma_evolves_then(p, c, typ.pool, typ.cache, e.pool, e.cache);
        reveal(evolves);
    }
}

/// Each of `indices` is a parameter whose argument is evaluated at once.
pub open spec fn plain_params(pool: PoolView, indices: Seq<PoolIndex<PoolParam>>) -> bool {
    forall|i: int|
        #![trigger indices[i]]
        0 <= i < indices.len() ==> (pool.parameter(indices[i]) matches Some(p)
            && !p.flags.is_short_circuit)
}

proof fn lemma_plain_params_stay(p: PoolView, q: PoolView, indices: Seq<PoolIndex<PoolParam>>)
    requires
        plain_params(p, indices),
        extends(p.definitions, q.definitions),
    ensures
        plain_params(q, indices),
{
    assert forall|i: int| #![trigger indices[i]] 0 <= i < indices.len() implies (q.parameter(
        indices[i],
    ) matches Some(x) && !x.flags.is_short_circuit) by {
        assert(p.parameter(indices[i]) is Some);
    }
}

pub proof fn lemma_commit_all<A>(
    items: Seq<TypedName>,
    n: nat,
    kind: TypedKind,
    parent: usize,
    repo: TypeRepo,
    p: PoolView,
    c: CacheView,
)
    ensures
        commit_all::<A>(items, n as int, kind, parent, repo, p, c) matches Some(e) ==> {
            &&& evolves(p, c, e.pool, e.cache)
            &&& e.pool.definitions.len() >= p.definitions.len()
            &&& e.indices.len() == n
        },
    decreases n,
{
    lemma_evolves_same(p, c);
    if n > 0 {
        lemma_commit_all::<A>(items, (n - 1) as nat, kind, parent, repo, p, c);
        if let Some(done) = commit_all::<A>(items, n - 1, kind, parent, repo, p, c) {
            lemma_commit_typed::<A>(
                items[n - 1],
                kind,
                Some(parent),
                repo,
                done.pool,
                done.cache,
            );
            if let Some(e) = commit_typed::<A>(
                items[n - 1],
                kind,
                Some(parent),
                repo,
                done.pool,
                done.cache,
            ) {
                lemma_evolves_then(p, c, done.pool, done.cache, e.pool, e.cache);
            }
        }
    }
}

proof fn lemma_commit_params(
    items: Seq<TypedName>,
    n: nat,
    parent: usize,
    repo: TypeRepo,
    p: PoolView,
    c: CacheView,
)
    ensures
        commit_all::<PoolParam>(
            items,
            n as int,
            TypedKind::Parameter,
            parent,
            repo,
            p,
            c,
        ) matches Some(e) ==> {
            &&& numbered(e.pool) ==> plain_params(e.pool, e.indices)
            &&& numbered(e.pool) ==> forall|i: int|
                #![trigger e.indices[i]]
                0 <= i < e.indices.len() ==> p.definitions.len() <= e.indices[i].index
        },
    decreases n,
{
    if n > 0 {
        let kind = TypedKind::Parameter;
        lemma_commit_params(items, (n - 1) as nat, parent, repo, p, c);
        lemma_commit_all::<PoolParam>(items, (n - 1) as nat, kind, parent, repo, p, c);
        if let Some(done) = commit_all::<PoolParam>(items, n - 1, kind, parent, repo, p, c) {
            lemma_commit_typed::<PoolParam>(
                items[n - 1],
                kind,
                Some(parent),
                repo,
                done.pool,
                done.cache,
            );
            if let Some(e) = commit_typed::<PoolParam>(
                items[n - 1],
                kind,
                Some(parent),
                repo,
                done.pool,
                done.cache,
            ) {
                reveal(evolves);
                if numbered(e.pool) {
                    lemma_plain_params_stay(done.pool, e.pool, done.indices);
                }
            }
        }
    }
}

/// `index` is the method that `outline` describes: it has its flags and its parameters.
pub open spec fn is_method(
    pool: PoolView,
    index: PoolIndex<Function>,
    outline: FunctionOutline,
) -> bool {
    match pool.function(index) {
        Some(f) => {
            &&& f.flags == outline.flags
            &&& f.parameters.len() == outline.params.len()
            &&& plain_params(pool, f.parameters)
        },
        None => false,
    }
}

proof fn lemma_is_method_stays(
    p: PoolView,
    q: PoolView,
    index: PoolIndex<Function>,
    outline: FunctionOutline,
)
    requires
        is_method(p, index, outline),
        extends(p.definitions, q.definitions),
    ensures
        is_method(q, index, outline),
{
    lemma_plain_params_stay(p, q, (p.function(index)->0).parameters);
}

pub proof fn lemma_commit_function(
    outline: FunctionOutline,
    parent: usize,
    repo: TypeRepo,
    p: PoolView,
    c: CacheView,
)
    ensures
        commit_function(outline, parent, repo, p, c) matches Some(e) ==> {
            &&& evolves(p, c, e.pool, e.cache)
            &&& e.pool.definitions.len() > p.definitions.len()
            &&& numbered(e.pool) ==> {
                &&& p.definitions.len() <= e.index.index < e.pool.definitions.len()
                &&& is_method(e.pool, e.index, outline)
            }
        },
{
    if let Some(e) = commit_function(outline, parent, repo, p, c) {
        let (q, name) = p.with_name(outline.name);
        lemma_name(p, c, outline.name);
        lemma_evolves_same(q, c);
        if let Some(t) = outline.return_type {
            lemma_alloc_type(t, repo, q, c);
        }
        let (return_type, r, d) = alloc_return(outline.return_type, repo, q, c)->0;
        lemma_evolves_then(p, c, q, c, r, d);
        let index = pool_index::<Function>(r.definitions.len() as usize);
        let function = FunctionView {
            flags: outline.flags,
            return_type,
            parameters: Seq::empty(),
            locals: Seq::empty(),
            code: Seq::empty(),
        };
        let definition = DefinitionView {
            name,
            parent: Some(parent),
            value: AnyDefinitionView::Function(function),
        };
        let s = r.with_definition(definition);
        lemma_definition(r, d, definition);
        lemma_evolves_then(p, c, r, d, s, d);
        let n = outline.params.len();
        let kind = TypedKind::Parameter;
        lemma_commit_all::<PoolParam>(outline.params, n, kind, index.index, repo, s, d);
        lemma_commit_params(outline.params, n, index.index, repo, s, d);
        let params = commit_all::<PoolParam>(
            outline.params,
            n as int,
            kind,
            index.index,
            repo,
            s,
            d,
        )->0;
        lemma_evolves_then(p, c, s, d, params.pool, params.cache);
        let value = AnyDefinitionView::Function(
            FunctionView { parameters: params.indices, ..function },
        );
        assert(numbered(params.pool) ==> params.pool.definitions[index.index as int] == definition)
            by {
            reveal(evolves);
        }
        assert(p.definitions.len() <= r.definitions.len() <= params.pool.definitions.len()) by {
            reveal(evolves);
        }
        lemma_value(p, c, params.pool, params.cache, index.index, value);
        if numbered(e.pool) {
            assert(plain_params(e.pool, params.indices)) by {
                assert forall|i: int|
                    #![trigger params.indices[i]]
                    0 <= i < params.indices.len() implies (e.pool.parameter(
                    params.indices[i],
                ) matches Some(x) && !x.flags.is_short_circuit) by {
                    assert(params.pool.parameter(params.indices[i]) is Some);
                    assert(params.indices[i].index != index.index);
                }
            }
        }
    }
}

pub proof fn lemma_commit_functions(
    outlines: Seq<FunctionOutline>,
    n: nat,
    parent: usize,
    repo: TypeRepo,
    p: PoolView,
    c: CacheView,
)
    ensures
        commit_functions(outlines, n as int, parent, repo, p, c) matches Some(e) ==> {
            &&& evolves(p, c, e.pool, e.cache)
            &&& e.pool.definitions.len() >= p.definitions.len()
            &&& e.indices.len() == n
            &&& numbered(e.pool) ==> are_methods(p, e, outlines)
        },
    decreases n,
{
    lemma_evolves_same(p, c);
    if n > 0 {
        lemma_commit_functions(outlines, (n - 1) as nat, parent, repo, p, c);
        if let Some(done) = commit_functions(outlines, n - 1, parent, repo, p, c) {
            lemma_commit_function(outlines[n - 1], parent, repo, done.pool, done.cache);
            if let Some(e) = commit_function(
                outlines[n - 1],
                parent,
                repo,
                done.pool,
                done.cache,
            ) {
                lemma_evolves_then(p, c, done.pool, done.cache, e.pool, e.cache);
                let all = done.and(e);
                if numbered(e.pool) {
                    reveal(evolves);
                    assert forall|i: int| #![trigger all.indices[i]] 0 <= i < n implies {
                        &&& p.definitions.len() <= all.indices[i].index < all.pool.definitions.len()
                        &&& is_method(all.pool, all.indices[i], outlines[i])
                    } by {
                        if i < n - 1 {
                            assert(all.indices[i] == done.indices[i]);
                            lemma_is_method_stays(
                                done.pool,
                                e.pool,
                                done.indices[i],
                                outlines[i],
                            );
                        }
                    }
                }
            }
        }
    }
}

/// The entries are new since `p`, and are the methods that the outlines describe.
pub open spec fn are_methods(
    p: PoolView,
    e: Entries<Function>,
    outlines: Seq<FunctionOutline>,
) -> bool {
    forall|i: int|
        #![trigger e.indices[i]]
        0 <= i < e.indices.len() ==> {
            &&& p.definitions.len() <= e.indices[i].index < e.pool.definitions.len()
            &&& is_method(e.pool, e.indices[i], outlines[i])
        }
}

/// A class that is committed has the base, the methods and the fields that it was
/// described with, none of which were there before.
pub proof fn law_commit_class(
    outline: ClassOutline,
    base: PoolIndex<PoolClass>,
    repo: TypeRepo,
    p: PoolView,
    c: CacheView,
)
    ensures
        commit_class(outline, base, repo, p, c) matches Some(e) ==> {
            &&& evolves(p, c, e.pool, e.cache)
            &&& e.pool.definitions.len() > p.definitions.len()
            &&& numbered(e.pool) ==> {
                &&& p.definitions.len() <= e.index.index < e.pool.definitions.len()
                &&& e.pool.class(e.index) matches Some(class) && {
                    &&& class.base == Some(base)
                    &&& class.fields.len() == outline.fields.len()
                    &&& class.methods.len() == outline.methods.len()
                    &&& are_methods(
                        p,
                        Entries { indices: class.methods, pool: e.pool, cache: e.cache },
                        outline.methods,
                    )
                }
            }
        },
{
    if let Some(e) = commit_class(outline, base, repo, p, c) {
        let (q, name) = p.with_name(outline.name);
        lemma_name(p, c, outline.name);
        let index = pool_index::<PoolClass>(q.definitions.len() as usize);
        let stub = ClassView { base: Some(base), methods: Seq::empty(), fields: Seq::empty() };
        let definition = DefinitionView {
            name,
            parent: None,
            value: AnyDefinitionView::Class(stub),
        };
        let r = q.with_definition(definition);
        lemma_definition(q, c, definition);
        lemma_evolves_then(p, c, q, c, r, c);
        let m = outline.methods.len();
        lemma_commit_functions(outline.methods, m, index.index, repo, r, c);
        let methods = commit_functions(outline.methods, m as int, index.index, repo, r, c)->0;
        lemma_evolves_then(p, c, r, c, methods.pool, methods.cache);
        let n = outline.fields.len();
        let kind = TypedKind::Field;
        lemma_commit_all::<PoolField>(
            outline.fields,
            n,
            kind,
            index.index,
            repo,
            methods.pool,
            methods.cache,
        );
        let fields = commit_all::<PoolField>(
            outline.fields,
            n as int,
            kind,
            index.index,
            repo,
            methods.pool,
            methods.cache,
        )->0;
        lemma_evolves_then(r, c, methods.pool, methods.cache, fields.pool, fields.cache);
        lemma_evolves_then(p, c, r, c, fields.pool, fields.cache);
        let value = AnyDefinitionView::Class(
            ClassView { base: Some(base), methods: methods.indices, fields: fields.indices },
        );
        assert(numbered(fields.pool) ==> fields.pool.definitions[index.index as int] == definition)
            by {
            reveal(evolves);
        }
        assert(p.definitions.len() <= q.definitions.len() < fields.pool.definitions.len()) by {
            reveal(evolves);
        }
        lemma_value(p, c, fields.pool, fields.cache, index.index, value);
        if numbered(e.pool) {
            assert(numbered(methods.pool) && grows(methods.pool, fields.pool)) by {
                reveal(evolves);
            }
            let all = Entries { indices: methods.indices, pool: e.pool, cache: e.cache };
            assert forall|i: int| #![trigger all.indices[i]] 0 <= i < all.indices.len() implies {
                &&& p.definitions.len() <= all.indices[i].index < all.pool.definitions.len()
                &&& is_method(all.pool, all.indices[i], outline.methods[i])
            } by {
                let at = methods.indices[i];
                assert(is_method(methods.pool, at, outline.methods[i]));
                lemma_is_method_stays(methods.pool, fields.pool, at, outline.methods[i]);
                let params = (fields.pool.function(at)->0).parameters;
                assert forall|j: int| #![trigger params[j]] 0 <= j < params.len() implies (
                e.pool.parameter(params[j]) matches Some(x) && !x.flags.is_short_circuit) by {
                    assert(fields.pool.parameter(params[j]) is Some);
                }
            }
        }
    }
}

/// What is found in a pool is what stands there.
pub proof fn law_pool_access(
    pool: PoolView,
    function: PoolIndex<Function>,
    class: PoolIndex<PoolClass>,
    param: PoolIndex<PoolParam>,
)
    ensures
        pool.function(function) == if function.index < pool.definitions.len()
            && pool.definitions[function.index as int].value is Function {
            Some(pool.definitions[function.index as int].value->Function_0)
        } else {
            None
        },
        pool.class(class) == if class.index < pool.definitions.len()
            && pool.definitions[class.index as int].value is Class {
            Some(pool.definitions[class.index as int].value->Class_0)
        } else {
            None
        },
        pool.parameter(param) == if param.index < pool.definitions.len()
            && pool.definitions[param.index as int].value is Parameter {
            Some(pool.definitions[param.index as int].value->Parameter_0)
        } else {
            None
        },
{
}

} // verus!
