//! Types in the pool. Each type that is asked for here is defined once.

use crate::pool::{
    find_text, pool_index, texts, CName, ConstantPool, Definition, PoolIndex, PoolType, PoolView,
    type_definition,
};
use crate::types::{
    lemma_data_view, type_views, Prim, Type, TypeId, TypeRepo, TypeView, ARRAY, REF, SCRIPT_REF,
    WEAK_REF,
};
use vstd::prelude::*;
use vstd::string::*;

verus! {

/// How a built-in type constructor makes a type out of another one.
#[derive(Debug, Clone, Copy, PartialEq, Eq, Structural)]
pub enum Wrapper {
    Array,
    Ref,
    WeakRef,
    ScriptRef,
}

impl Wrapper {
    /// What the name of a type begins with that is made in this way.
    pub open spec fn text(self) -> Seq<char> {
        match self {
            Wrapper::Array => "array:"@,
            Wrapper::Ref => "ref:"@,
            Wrapper::WeakRef => "wref:"@,
            Wrapper::ScriptRef => "script_ref:"@,
        }
    }

    /// The type that is made out of `inner`.
    pub open spec fn around(self, inner: PoolIndex<PoolType>) -> PoolType {
        match self {
            Wrapper::Array => PoolType::Array(inner),
            Wrapper::Ref => PoolType::Ref(inner),
            Wrapper::WeakRef => PoolType::WeakRef(inner),
            Wrapper::ScriptRef => PoolType::ScriptRef(inner),
        }
    }

    fn prefix(self) -> (r: &'static str)
        ensures
            r@ == self.text(),
    {
        match self {
            Wrapper::Array => "array:",
            Wrapper::Ref => "ref:",
            Wrapper::WeakRef => "wref:",
            Wrapper::ScriptRef => "script_ref:",
        }
    }

    fn wrap(self, inner: PoolIndex<PoolType>) -> (r: PoolType)
        ensures
            r == self.around(inner),
    {
        match self {
            Wrapper::Array => PoolType::Array(inner),
            Wrapper::Ref => PoolType::Ref(inner),
            Wrapper::WeakRef => PoolType::WeakRef(inner),
            Wrapper::ScriptRef => PoolType::ScriptRef(inner),
        }
    }
}

/// The built-in constructor that `id` stands for, where it is not a class.
pub open spec fn wrapper_of(id: TypeId) -> Option<Wrapper> {
    if id.id == ARRAY {
        Some(Wrapper::Array)
    } else if id.id == REF {
        Some(Wrapper::Ref)
    } else if id.id == WEAK_REF {
        Some(Wrapper::WeakRef)
    } else if id.id == SCRIPT_REF {
        Some(Wrapper::ScriptRef)
    } else {
        None
    }
}

fn find_wrapper(id: TypeId) -> (r: Option<Wrapper>)
    ensures
        r == wrapper_of(id),
{
    if id.id == ARRAY {
        Some(Wrapper::Array)
    } else if id.id == REF {
        Some(Wrapper::Ref)
    } else if id.id == WEAK_REF {
        Some(Wrapper::WeakRef)
    } else if id.id == SCRIPT_REF {
        Some(Wrapper::ScriptRef)
    } else {
        None
    }
}

/// The name of a type in the pool. There is none for a class that the repository does
/// not know, nor for a built-in constructor without an argument. Values of the top and
/// bottom types are variants.
pub open spec fn pool_name(typ: TypeView, repo: TypeRepo) -> Option<Seq<char>>
    decreases typ,
{
    match typ {
        TypeView::Top => Some(Prim::Variant.text()),
        TypeView::Bottom => Some(Prim::Variant.text()),
        TypeView::Prim(p) => Some(p.text()),
        TypeView::Data(id, args) => match wrapper_of(id) {
            Some(w) => if args.len() > 0 {
                match pool_name(args[0], repo) {
                    Some(inner) => Some(w.text() + inner),
                    None => None,
                }
            } else {
                None
            },
            None => repo.class_name(id),
        },
    }
}

/// The types that are defined so far, by name.
#[verifier::ext_equal]
pub struct CacheView {
    pub names: Seq<Seq<char>>,
    pub types: Seq<PoolIndex<PoolType>>,
}

impl CacheView {
    /// The type that is known by `name`.
    pub open spec fn get(self, name: Seq<char>) -> Option<PoolIndex<PoolType>> {
        match self.names.index_of_first(name) {
            Some(i) => Some(self.types[i]),
            None => None,
        }
    }
}

/// An entry of the pool, with the pool and the types as they are once it is there.
#[verifier::ext_equal]
pub struct Entry<A> {
    pub index: PoolIndex<A>,
    pub pool: PoolView,
    pub cache: CacheView,
}

/// Defines a type under `name`.
pub open spec fn define_type(
    name: Seq<char>,
    typ: PoolType,
    pool: PoolView,
    cache: CacheView,
) -> Entry<PoolType> {
    let (pool, name_index) = pool.with_name(name);
    let index = pool_index::<PoolType>(pool.definitions.len() as usize);
    Entry {
        index,
        pool: pool.with_definition(type_definition(name_index, typ)),
        cache: CacheView { names: cache.names.push(name), types: cache.types.push(index) },
    }
}

/// The entry for a type: the one that it has already, else a new one, which comes after
/// the entry of the type that it is made out of.
pub open spec fn alloc_type(
    typ: TypeView,
    repo: TypeRepo,
    pool: PoolView,
    cache: CacheView,
) -> Option<Entry<PoolType>>
    decreases typ,
{
    match pool_name(typ, repo) {
        None => None,
        Some(name) => match cache.get(name) {
            Some(index) => Some(Entry { index, pool, cache }),
            None => match typ {
                TypeView::Data(id, args) => match wrapper_of(id) {
                    Some(w) => if args.len() > 0 {
                        match alloc_type(args[0], repo, pool, cache) {
                            Some(inner) => Some(
                                define_type(name, w.around(inner.index), inner.pool, inner.cache),
                            ),
                            None => None,
                        }
                    } else {
                        None
                    },
                    None => Some(define_type(name, PoolType::Class, pool, cache)),
                },
                _ => Some(define_type(name, PoolType::Prim, pool, cache)),
            },
        },
    }
}

/// The name of a type in the pool.
fn name_of(typ: &Type, repo: &TypeRepo) -> (r: String)
    requires
        pool_name(typ@, *repo) is Some,
    ensures
        Some(r@) == pool_name(typ@, *repo),
    decreases typ,
{
    broadcast use vstd::std_specs::hash::group_hash_axioms;

    match typ {
        Type::Top => Prim::Variant.name().to_owned(),
        Type::Bottom => Prim::Variant.name().to_owned(),
        Type::Prim(p) => p.name().to_owned(),
        Type::Data(p) => {
            proof {
                lemma_data_view(*p);
            }
            match find_wrapper(p.id) {
                Some(w) => {
                    assert(type_views(p.args@)[0] == p.args@[0]@);
                    let inner: String = name_of(&p.args[0], repo);
                    let mut text: String = w.prefix().to_owned();
                    text.append(inner.as_str());
                    text
                },
                None => {
                    let id: u64 = p.id.id;
                    repo.class_names.get(&id).unwrap().clone()
                },
            }
        },
    }
}

/// The types that have entries in the pool.
#[derive(Debug)]
pub struct TypeCache {
    names: Vec<String>,
    types: Vec<PoolIndex<PoolType>>,
}

impl View for TypeCache {
    type V = CacheView;

    closed spec fn view(&self) -> CacheView {
        CacheView { names: texts(self.names@), types: self.types@ }
    }
}

impl TypeCache {
    #[verifier::type_invariant]
    spec fn aligned(self) -> bool {
        self.names@.len() == self.types@.len()
    }

    /// No type has an entry.
    pub fn new() -> (r: Self)
        ensures
            r@ == (CacheView { names: Seq::empty(), types: Seq::empty() }),
    {
        let r = TypeCache { names: Vec::new(), types: Vec::new() };
        assert(r@ =~= (CacheView { names: Seq::empty(), types: Seq::empty() }));
        r
    }

    fn find(&self, name: &String) -> (r: Option<PoolIndex<PoolType>>)
        ensures
            r == self@.get(name@),
    {
        proof {
            use_type_invariant(self);
        }
        match find_text(&self.names, name) {
            Some(i) => Some(self.types[i]),
            None => None,
        }
    }

    fn define(&mut self, name: String, typ: PoolType, pool: &mut ConstantPool) -> (r: PoolIndex<
        PoolType,
    >)
        ensures
            (Entry { index: r, pool: final(pool)@, cache: final(self)@ }) == define_type(
                name@,
                typ,
                old(pool)@,
                old(self)@,
            ),
    {
        proof {
            use_type_invariant(&*self);
        }
        let name_index: PoolIndex<CName> = pool.add_name(&name);
        let index: PoolIndex<PoolType> = pool.add_definition(Definition::type_(name_index, typ));
        let mut known = TypeCache::new();
        core::mem::swap(&mut known, self);
        let TypeCache { mut names, mut types } = known;
        names.push(name);
        types.push(index);
        *self = TypeCache { names, types };
        assert(self@.names =~= old(self)@.names.push(name@));
        index
    }

    /// The entry for `typ`, which is made where there is none.
    pub fn alloc_type(&mut self, typ: &Type, repo: &TypeRepo, pool: &mut ConstantPool) -> (r:
        PoolIndex<PoolType>)
        requires
            alloc_type(typ@, *repo, old(pool)@, old(self)@) is Some,
        ensures
            Some(Entry { index: r, pool: final(pool)@, cache: final(self)@ }) == alloc_type(
                typ@,
                *repo,
                old(pool)@,
                old(self)@,
            ),
        decreases typ,
    {
        let name: String = name_of(typ, repo);
        if let Some(index) = self.find(&name) {
            return index;
        }
        match typ {
            Type::Data(p) => {
                proof {
                    lemma_data_view(*p);
                }
                match find_wrapper(p.id) {
                    Some(w) => {
                        assert(type_views(p.args@)[0] == p.args@[0]@);
                        let inner: PoolIndex<PoolType> = self.alloc_type(&p.args[0], repo, pool);
                        self.define(name, w.wrap(inner), pool)
                    },
                    None => self.define(name, PoolType::Class, pool),
                }
            },
            _ => self.define(name, PoolType::Prim, pool),
        }
    }
}

} // verus!
