//! Descriptions of definitions, which are then committed to the pool as a whole.

use crate::bytecode::Code;
use crate::growth::{lemma_commit_all, lemma_commit_functions};
use crate::pool::{
    pool_index, AnyDefinition, AnyDefinitionView, CName, ClassView, ConstantPool, Definition,
    DefinitionView, Function, FunctionFlags, FunctionView, LocalFlags, ParameterFlags, PoolClass,
    PoolField, PoolIndex, PoolLocal, PoolParam, PoolType, PoolView,
};
use crate::type_cache::{alloc_type, CacheView, Entry, TypeCache};
use crate::types::{Type, TypeRepo, TypeView};
use vstd::prelude::*;

verus! {

/// A local variable.
#[derive(Debug)]
pub struct LocalBuilder {
    pub name: String,
    pub typ: Type,
}

/// A parameter of a function.
#[derive(Debug)]
pub struct ParamBuilder {
    pub name: String,
    pub typ: Type,
}

/// A field of a class.
#[derive(Debug)]
pub struct FieldBuilder {
    pub name: String,
    pub typ: Type,
}

/// A method of a class, without code.
#[derive(Debug)]
pub struct FunctionBuilder {
    pub name: String,
    pub flags: FunctionFlags,
    pub params: Vec<ParamBuilder>,
    pub return_type: Option<Type>,
}

/// A class.
#[derive(Debug)]
pub struct ClassBuilder {
    pub name: String,
    pub methods: Vec<FunctionBuilder>,
    pub fields: Vec<FieldBuilder>,
}

/// Something with a name and a type.
#[verifier::ext_equal]
pub struct TypedName {
    pub name: Seq<char>,
    pub typ: TypeView,
}

impl View for LocalBuilder {
    type V = TypedName;

    open spec fn view(&self) -> TypedName {
        TypedName { name: self.name@, typ: self.typ@ }
    }
}

impl View for ParamBuilder {
    type V = TypedName;

    open spec fn view(&self) -> TypedName {
        TypedName { name: self.name@, typ: self.typ@ }
    }
}

impl View for FieldBuilder {
    type V = TypedName;

    open spec fn view(&self) -> TypedName {
        TypedName { name: self.name@, typ: self.typ@ }
    }
}

/// What a [`FunctionBuilder`] describes.
#[verifier::ext_equal]
pub struct FunctionOutline {
    pub name: Seq<char>,
    pub flags: FunctionFlags,
    pub params: Seq<TypedName>,
    pub return_type: Option<TypeView>,
}

impl View for FunctionBuilder {
    type V = FunctionOutline;

    open spec fn view(&self) -> FunctionOutline {
        FunctionOutline {
            name: self.name@,
            flags: self.flags,
            params: self.params@.map_values(|p: ParamBuilder| p@),
            return_type: match self.return_type {
                Some(t) => Some(t@),
                None => None,
            },
        }
    }
}

/// What a [`ClassBuilder`] describes.
#[verifier::ext_equal]
pub struct ClassOutline {
    pub name: Seq<char>,
    pub methods: Seq<FunctionOutline>,
    pub fields: Seq<TypedName>,
}

impl View for ClassBuilder {
    type V = ClassOutline;

    open spec fn view(&self) -> ClassOutline {
        ClassOutline {
            name: self.name@,
            methods: self.methods@.map_values(|f: FunctionBuilder| f@),
            fields: self.fields@.map_values(|f: FieldBuilder| f@),
        }
    }
}

/// What kind of definition a name and a type make.
pub enum TypedKind {
    Local,
    Parameter,
    Field,
}

/// A definition that says no more than a type.
pub open spec fn typed_value(kind: TypedKind, typ: PoolIndex<PoolType>) -> AnyDefinitionView {
    match kind {
        TypedKind::Local => AnyDefinitionView::Local(
            PoolLocal { typ, flags: LocalFlags { is_const: false } },
        ),
        TypedKind::Parameter => AnyDefinitionView::Parameter(
            PoolParam { typ, flags: ParameterFlags { is_short_circuit: false } },
        ),
        TypedKind::Field => AnyDefinitionView::Field(PoolField { typ }),
    }
}

/// Commits something with a name and a type: the name is interned, the type gets its
/// entry, and the definition comes last.
pub open spec fn commit_typed<A>(
    item: TypedName,
    kind: TypedKind,
    parent: Option<usize>,
    repo: TypeRepo,
    pool: PoolView,
    cache: CacheView,
) -> Option<Entry<A>> {
    let (pool, name) = pool.with_name(item.name);
    match alloc_type(item.typ, repo, pool, cache) {
        Some(typ) => Some(
            Entry {
                index: pool_index::<A>(typ.pool.definitions.len() as usize),
                pool: typ.pool.with_definition(
                    DefinitionView { name, parent, value: typed_value(kind, typ.index) },
                ),
                cache: typ.cache,
            },
        ),
        None => None,
    }
}

/// Several entries of the pool, with the pool and the types as they are once they are
/// all there.
#[verifier::ext_equal]
pub struct Entries<A> {
    pub indices: Seq<PoolIndex<A>>,
    pub pool: PoolView,
    pub cache: CacheView,
}

impl<A> Entries<A> {
    /// One more entry after these.
    pub open spec fn and(self, entry: Entry<A>) -> Entries<A> {
        Entries { indices: self.indices.push(entry.index), pool: entry.pool, cache: entry.cache }
    }
}

/// Commits the first `n` of `items`, one after the other.
pub open spec fn commit_all<A>(
    items: Seq<TypedName>,
    n: int,
    kind: TypedKind,
    parent: usize,
    repo: TypeRepo,
    pool: PoolView,
    cache: CacheView,
) -> Option<Entries<A>>
    decreases n,
{
    if n <= 0 {
        Some(Entries { indices: Seq::empty(), pool, cache })
    } else {
        match commit_all::<A>(items, n - 1, kind, parent, repo, pool, cache) {
            Some(done) => match commit_typed::<A>(
                items[n - 1],
                kind,
                Some(parent),
                repo,
                done.pool,
                done.cache,
            ) {
                Some(entry) => Some(done.and(entry)),
                None => None,
            },
            None => None,
        }
    }
}

/// Gives the return type its entry, where there is one.
pub open spec fn alloc_return(
    typ: Option<TypeView>,
    repo: TypeRepo,
    pool: PoolView,
    cache: CacheView,
) -> Option<(Option<PoolIndex<PoolType>>, PoolView, CacheView)> {
    match typ {
        None => Some((None, pool, cache)),
        Some(t) => match alloc_type(t, repo, pool, cache) {
            Some(entry) => Some((Some(entry.index), entry.pool, entry.cache)),
            None => None,
        },
    }
}

/// Commits a method of the class at `parent`. Its definition comes before those of its
/// parameters, which belong to it.
pub open spec fn commit_function(
    outline: FunctionOutline,
    parent: usize,
    repo: TypeRepo,
    pool: PoolView,
    cache: CacheView,
) -> Option<Entry<Function>> {
    let (pool, name) = pool.with_name(outline.name);
    match alloc_return(outline.return_type, repo, pool, cache) {
        None => None,
        Some((return_type, pool, cache)) => {
            let index = pool_index::<Function>(pool.definitions.len() as usize);
            let function = FunctionView {
                flags: outline.flags,
                return_type,
                parameters: Seq::empty(),
                locals: Seq::empty(),
                code: Seq::empty(),
            };
            let pool = pool.with_definition(
                DefinitionView {
                    name,
                    parent: Some(parent),
                    value: AnyDefinitionView::Function(function),
                },
            );
            match commit_all::<PoolParam>(
                outline.params,
                outline.params.len() as int,
                TypedKind::Parameter,
                index.index,
                repo,
                pool,
                cache,
            ) {
                Some(params) => Some(
                    Entry {
                        index,
                        pool: params.pool.with_value(
                            index.index,
                            AnyDefinitionView::Function(
                                FunctionView { parameters: params.indices, ..function },
                            ),
                        ),
                        cache: params.cache,
                    },
                ),
                None => None,
            }
        },
    }
}

/// Commits the first `n` methods of the class at `parent`, one after the other.
pub open spec fn commit_functions(
    outlines: Seq<FunctionOutline>,
    n: int,
    parent: usize,
    repo: TypeRepo,
    pool: PoolView,
    cache: CacheView,
) -> Option<Entries<Function>>
    decreases n,
{
    if n <= 0 {
        Some(Entries { indices: Seq::empty(), pool, cache })
    } else {
        match commit_functions(outlines, n - 1, parent, repo, pool, cache) {
            Some(done) => match commit_function(
                outlines[n - 1],
                parent,
                repo,
                done.pool,
                done.cache,
            ) {
                Some(entry) => Some(done.and(entry)),
                None => None,
            },
            None => None,
        }
    }
}

/// Commits a class with the given base. Its definition comes first, then its methods,
/// then its fields.
pub open spec fn commit_class(
    outline: ClassOutline,
    base: PoolIndex<PoolClass>,
    repo: TypeRepo,
    pool: PoolView,
    cache: CacheView,
) -> Option<Entry<PoolClass>> {
    let (pool, name) = pool.with_name(outline.name);
    let index = pool_index::<PoolClass>(pool.definitions.len() as usize);
    let class = ClassView { base: Some(base), methods: Seq::empty(), fields: Seq::empty() };
    let pool = pool.with_definition(
        DefinitionView { name, parent: None, value: AnyDefinitionView::Class(class) },
    );
    match commit_functions(
        outline.methods,
        outline.methods.len() as int,
        index.index,
        repo,
        pool,
        cache,
    ) {
        None => None,
        Some(methods) => match commit_all::<PoolField>(
            outline.fields,
            outline.fields.len() as int,
            TypedKind::Field,
            index.index,
            repo,
            methods.pool,
            methods.cache,
        ) {
            None => None,
            Some(fields) => Some(
                Entry {
                    index,
                    pool: fields.pool.with_value(
                        index.index,
                        AnyDefinitionView::Class(
                            ClassView {
                                base: Some(base),
                                methods: methods.indices,
                                fields: fields.indices,
                            },
                        ),
                    ),
                    cache: fields.cache,
                },
            ),
        },
    }
}

/// What is committed of a prefix is committed of the whole.
proof fn lemma_commit_all_prefix<A>(
    items: Seq<TypedName>,
    m: int,
    n: int,
    kind: TypedKind,
    parent: usize,
    repo: TypeRepo,
    pool: PoolView,
    cache: CacheView,
)
    requires
        m <= n,
        commit_all::<A>(items, n, kind, parent, repo, pool, cache) is Some,
    ensures
        commit_all::<A>(items, m, kind, parent, repo, pool, cache) is Some,
    decreases n - m,
{
    if m < n && n > 0 {
        lemma_commit_all_prefix::<A>(items, m, n - 1, kind, parent, repo, pool, cache);
    }
}

proof fn lemma_commit_functions_prefix(
    outlines: Seq<FunctionOutline>,
    m: int,
    n: int,
    parent: usize,
    repo: TypeRepo,
    pool: PoolView,
    cache: CacheView,
)
    requires
        m <= n,
        commit_functions(outlines, n, parent, repo, pool, cache) is Some,
    ensures
        commit_functions(outlines, m, parent, repo, pool, cache) is Some,
    decreases n - m,
{
    if m < n && n > 0 {
        lemma_commit_functions_prefix(outlines, m, n - 1, parent, repo, pool, cache);
    }
}

impl LocalBuilder {
    /// Adds the local to the pool. It belongs to no entry.
    pub fn commit(&self, repo: &TypeRepo, pool: &mut ConstantPool, cache: &mut TypeCache) -> (r:
        PoolIndex<PoolLocal>)
        requires
            commit_typed::<PoolLocal>(
                self@,
                TypedKind::Local,
                None,
                *repo,
                old(pool)@,
                old(cache)@,
            ) is Some,
        ensures
            Some(Entry { index: r, pool: final(pool)@, cache: final(cache)@ }) == commit_typed::<
                PoolLocal,
            >(self@, TypedKind::Local, None, *repo, old(pool)@, old(cache)@),
    {
        let name: PoolIndex<CName> = pool.add_name(&self.name);
        let typ: PoolIndex<PoolType> = cache.alloc_type(&self.typ, repo, pool);
        let local = PoolLocal::new(typ, LocalFlags::new());
        pool.add_definition(
            Definition { name, parent: None, value: AnyDefinition::Local(local) },
        )
    }
}

impl ParamBuilder {
    /// Adds the parameter to the pool, as one of the function at `parent`.
    fn commit(
        &self,
        parent: usize,
        repo: &TypeRepo,
        pool: &mut ConstantPool,
        cache: &mut TypeCache,
    ) -> (r: PoolIndex<PoolParam>)
        requires
            commit_typed::<PoolParam>(
                self@,
                TypedKind::Parameter,
                Some(parent),
                *repo,
                old(pool)@,
                old(cache)@,
            ) is Some,
        ensures
            Some(Entry { index: r, pool: final(pool)@, cache: final(cache)@ }) == commit_typed::<
                PoolParam,
            >(self@, TypedKind::Parameter, Some(parent), *repo, old(pool)@, old(cache)@),
    {
        let name: PoolIndex<CName> = pool.add_name(&self.name);
        let typ: PoolIndex<PoolType> = cache.alloc_type(&self.typ, repo, pool);
        let param = PoolParam { typ, flags: ParameterFlags { is_short_circuit: false } };
        pool.add_definition(
            Definition { name, parent: Some(parent), value: AnyDefinition::Parameter(param) },
        )
    }
}

impl FieldBuilder {
    /// Adds the field to the pool, as one of the class at `parent`.
    fn commit(
        &self,
        parent: usize,
        repo: &TypeRepo,
        pool: &mut ConstantPool,
        cache: &mut TypeCache,
    ) -> (r: PoolIndex<PoolField>)
        requires
            commit_typed::<PoolField>(
                self@,
                TypedKind::Field,
                Some(parent),
                *repo,
                old(pool)@,
                old(cache)@,
            ) is Some,
        ensures
            Some(Entry { index: r, pool: final(pool)@, cache: final(cache)@ }) == commit_typed::<
                PoolField,
            >(self@, TypedKind::Field, Some(parent), *repo, old(pool)@, old(cache)@),
    {
        let name: PoolIndex<CName> = pool.add_name(&self.name);
        let typ: PoolIndex<PoolType> = cache.alloc_type(&self.typ, repo, pool);
        let field = PoolField { typ };
        pool.add_definition(
            Definition { name, parent: Some(parent), value: AnyDefinition::Field(field) },
        )
    }
}

impl FunctionBuilder {
    /// Adds the method and its parameters to the pool, as those of the class at `parent`.
    fn commit(
        &self,
        parent: usize,
        repo: &TypeRepo,
        pool: &mut ConstantPool,
        cache: &mut TypeCache,
    ) -> (r: PoolIndex<Function>)
        requires
            commit_function(self@, parent, *repo, old(pool)@, old(cache)@) is Some,
        ensures
            Some(Entry { index: r, pool: final(pool)@, cache: final(cache)@ }) == commit_function(
                self@,
                parent,
                *repo,
                old(pool)@,
                old(cache)@,
            ),
    {
        let name: PoolIndex<CName> = pool.add_name(&self.name);
        let return_type: Option<PoolIndex<PoolType>> = match &self.return_type {
            Some(t) => Some(cache.alloc_type(t, repo, pool)),
            None => None,
        };
        let stub = Function {
            flags: self.flags,
            return_type,
            parameters: Vec::new(),
            locals: Vec::new(),
            code: Code(Vec::new()),
        };
        assert(stub@ =~= (FunctionView {
            flags: self.flags,
            return_type,
            parameters: Seq::empty(),
            locals: Seq::empty(),
            code: Seq::empty(),
        }));
        let index: PoolIndex<Function> = pool.add_definition(
            Definition { name, parent: Some(parent), value: AnyDefinition::Function(stub) },
        );
        let ghost start = (pool@, cache@);
        let ghost items = self@.params;
        let mut parameters: Vec<PoolIndex<PoolParam>> = Vec::new();
        let mut i: usize = 0;
        while i < self.params.len()
            invariant
                i <= self.params@.len(),
                items == self@.params,
                commit_all::<PoolParam>(
                    items,
                    items.len() as int,
                    TypedKind::Parameter,
                    index.index,
                    *repo,
                    start.0,
                    start.1,
                ) is Some,
                Some(Entries { indices: parameters@, pool: pool@, cache: cache@ }) == commit_all::<
                    PoolParam,
                >(items, i as int, TypedKind::Parameter, index.index, *repo, start.0, start.1),
            decreases self.params@.len() - i,
        {
            proof {
                assert(items[i as int] == self.params@[i as int]@);
                lemma_commit_all_prefix::<PoolParam>(
                    items,
                    i + 1,
                    items.len() as int,
                    TypedKind::Parameter,
                    index.index,
                    *repo,
                    start.0,
                    start.1,
                );
            }
            parameters.push(self.params[i].commit(index.index, repo, pool, cache));
            i = i + 1;
        }
        proof {
            lemma_commit_all::<PoolParam>(
                items,
                items.len(),
                TypedKind::Parameter,
                index.index,
                *repo,
                start.0,
                start.1,
            );
        }
        let function = Function {
            flags: self.flags,
            return_type,
            parameters,
            locals: Vec::new(),
            code: Code(Vec::new()),
        };
        assert(function@ =~= (FunctionView { parameters: parameters@, ..stub@ }));
        pool.put_value(index.index, AnyDefinition::Function(function));
        index
    }
}

impl ClassBuilder {
    /// Adds the class with all that belongs to it to the pool.
    pub fn commit_with_base(
        &self,
        base: PoolIndex<PoolClass>,
        repo: &TypeRepo,
        pool: &mut ConstantPool,
        cache: &mut TypeCache,
    ) -> (r: PoolIndex<PoolClass>)
        requires
            commit_class(self@, base, *repo, old(pool)@, old(cache)@) is Some,
        ensures
            Some(Entry { index: r, pool: final(pool)@, cache: final(cache)@ }) == commit_class(
                self@,
                base,
                *repo,
                old(pool)@,
                old(cache)@,
            ),
    {
        let name: PoolIndex<CName> = pool.add_name(&self.name);
        let stub = PoolClass { base: Some(base), methods: Vec::new(), fields: Vec::new() };
        assert(stub@ =~= (ClassView {
            base: Some(base),
            methods: Seq::empty(),
            fields: Seq::empty(),
        }));
        let index: PoolIndex<PoolClass> = pool.add_definition(
            Definition { name, parent: None, value: AnyDefinition::Class(stub) },
        );
        let ghost start = (pool@, cache@);
        let ghost outlines = self@.methods;
        let mut methods: Vec<PoolIndex<Function>> = Vec::new();
        let mut i: usize = 0;
        while i < self.methods.len()
            invariant
                i <= self.methods@.len(),
                outlines == self@.methods,
                commit_functions(
                    outlines,
                    outlines.len() as int,
                    index.index,
                    *repo,
                    start.0,
                    start.1,
                ) is Some,
                Some(Entries { indices: methods@, pool: pool@, cache: cache@ })
                    == commit_functions(
                    outlines,
                    i as int,
                    index.index,
                    *repo,
                    start.0,
                    start.1,
                ),
            decreases self.methods@.len() - i,
        {
            proof {
                assert(outlines[i as int] == self.methods@[i as int]@);
                lemma_commit_functions_prefix(
                    outlines,
                    i + 1,
                    outlines.len() as int,
                    index.index,
                    *repo,
                    start.0,
                    start.1,
                );
            }
            methods.push(self.methods[i].commit(index.index, repo, pool, cache));
            i = i + 1;
        }
        proof {
            lemma_commit_functions(
                outlines,
                outlines.len(),
                index.index,
                *repo,
                start.0,
                start.1,
            );
        }
        let ghost middle = (pool@, cache@);
        let ghost items = self@.fields;
        let mut fields: Vec<PoolIndex<PoolField>> = Vec::new();
        i = 0;
        while i < self.fields.len()
            invariant
                i <= self.fields@.len(),
                items == self@.fields,
                commit_all::<PoolField>(
                    items,
                    items.len() as int,
                    TypedKind::Field,
                    index.index,
                    *repo,
                    middle.0,
                    middle.1,
                ) is Some,
                Some(Entries { indices: fields@, pool: pool@, cache: cache@ }) == commit_all::<
                    PoolField,
                >(items, i as int, TypedKind::Field, index.index, *repo, middle.0, middle.1),
            decreases self.fields@.len() - i,
        {
            proof {
                assert(items[i as int] == self.fields@[i as int]@);
                lemma_commit_all_prefix::<PoolField>(
                    items,
                    i + 1,
                    items.len() as int,
                    TypedKind::Field,
                    index.index,
                    *repo,
                    middle.0,
                    middle.1,
                );
            }
            fields.push(self.fields[i].commit(index.index, repo, pool, cache));
            i = i + 1;
        }
        proof {
            lemma_commit_all::<PoolField>(
                items,
                items.len(),
                TypedKind::Field,
                index.index,
                *repo,
                middle.0,
                middle.1,
            );
        }
        let class = PoolClass { base: Some(base), methods, fields };
        pool.put_value(index.index, AnyDefinition::Class(class));
        index
    }
}

} // verus!
