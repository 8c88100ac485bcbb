//! The constant pool: interned text and the definitions that code refers to.

use crate::bytecode::{Code, Instr, Offset};
use core::marker::PhantomData;
use vstd::prelude::*;

verus! {

/// A reference to an entry of the pool that stands for an `A`.
#[derive(Debug, PartialEq)]
pub struct PoolIndex<A> {
    pub index: usize,
    pub kind: PhantomData<A>,
}

impl<A> Clone for PoolIndex<A> {
    fn clone(&self) -> (r: Self)
        ensures
            r == *self,
    {
        *self
    }
}

impl<A> Copy for PoolIndex<A> {

}

/// The reference to entry `index`.
pub open spec fn pool_index<A>(index: usize) -> PoolIndex<A> {
    PoolIndex { index, kind: PhantomData }
}

impl<A> PoolIndex<A> {
    pub fn new(index: usize) -> (r: Self)
        ensures
            r == pool_index::<A>(index),
    {
        PoolIndex { index, kind: PhantomData }
    }
}

/// What a name in the pool stands for.
#[derive(Debug, Clone, Copy, PartialEq)]
pub struct CName;

/// What a resource path in the pool stands for.
#[derive(Debug, Clone, Copy, PartialEq)]
pub struct Resource;

/// What a TweakDB identifier in the pool stands for.
#[derive(Debug, Clone, Copy, PartialEq)]
pub struct TweakDbId;

/// The contents of a list of strings.
pub open spec fn texts(strings: Seq<String>) -> Seq<Seq<char>> {
    strings.map_values(|s: String| s@)
}

/// Where `text` first occurs in `strings`.
pub fn find_text(strings: &Vec<String>, text: &String) -> (r: Option<usize>)
    ensures
        match r {
            Some(i) => texts(strings@).index_of_first(text@) == Some(i as int),
            None => texts(strings@).index_of_first(text@) is None,
        },
        r matches Some(i) ==> i < strings@.len(),
{
    let mut i: usize = 0;
    while i < strings.len()
        invariant
            i <= strings@.len(),
            forall|j: int| 0 <= j < i ==> texts(strings@)[j] != text@,
        decreases strings@.len() - i,
    {
        if strings[i] == *text {
            proof {
                assert(texts(strings@)[i as int] == text@);
                texts(strings@).index_of_first_ensures(text@);
            }
            return Some(i);
        }
        i = i + 1;
    }
    proof {
        texts(strings@).index_of_first_ensures(text@);
    }
    None
}

/// Adding `text` to a table of distinct texts: the table afterwards, and where `text`
/// stands in it.
pub open spec fn intern(table: Seq<Seq<char>>, text: Seq<char>) -> (Seq<Seq<char>>, int) {
    match table.index_of_first(text) {
        Some(i) => (table, i),
        None => (table.push(text), table.len() as int),
    }
}

/// A table of distinct texts, in the order in which they were first added.
#[derive(Debug)]
pub struct Names<K> {
    strings: Vec<String>,
    kind: PhantomData<K>,
}

impl<K> View for Names<K> {
    type V = Seq<Seq<char>>;

    closed spec fn view(&self) -> Seq<Seq<char>> {
        texts(self.strings@)
    }
}

impl<K> Names<K> {
    pub fn new() -> (r: Self)
        ensures
            r@ == Seq::<Seq<char>>::empty(),
    {
        let r = Names { strings: Vec::new(), kind: PhantomData };
        assert(r@ =~= Seq::<Seq<char>>::empty());
        r
    }

    /// Adds `text` unless it is there already, and says where it stands.
    pub fn add(&mut self, text: &String) -> (r: PoolIndex<K>)
        ensures
            (final(self)@, r.index as int) == intern(old(self)@, text@),
            r == pool_index::<K>(r.index),
    {
        match find_text(&self.strings, text) {
            Some(i) => PoolIndex::new(i),
            None => {
                let i: usize = self.strings.len();
                self.strings.push(text.clone());
                assert(self@ =~= old(self)@.push(text@));
                PoolIndex::new(i)
            },
        }
    }

    /// The text at `index`.
    pub fn get(&self, index: PoolIndex<K>) -> (r: Option<&String>)
        ensures
            r is Some <==> index.index < self@.len(),
            r matches Some(text) ==> text@ == self@[index.index as int],
    {
        if index.index < self.strings.len() {
            Some(&self.strings[index.index])
        } else {
            None
        }
    }
}

#[derive(Debug, Clone, Copy, PartialEq, Eq, Structural)]
pub struct FunctionFlags {
    pub is_static: bool,
    pub is_final: bool,
}

impl FunctionFlags {
    /// No flag set.
    pub fn new() -> (r: Self)
        ensures
            r == (FunctionFlags { is_static: false, is_final: false }),
    {
        FunctionFlags { is_static: false, is_final: false }
    }

    pub fn with_is_static(self, value: bool) -> (r: Self)
        ensures
            r == (FunctionFlags { is_static: value, ..self }),
    {
        FunctionFlags { is_static: value, is_final: self.is_final }
    }

    pub fn with_is_final(self, value: bool) -> (r: Self)
        ensures
            r == (FunctionFlags { is_final: value, ..self }),
    {
        FunctionFlags { is_static: self.is_static, is_final: value }
    }
}

#[derive(Debug, Clone, Copy, PartialEq, Eq, Structural)]
pub struct ParameterFlags {
    /// The argument is evaluated only when the callee asks for it.
    pub is_short_circuit: bool,
}

#[derive(Debug, Clone, Copy, PartialEq, Eq, Structural)]
pub struct LocalFlags {
    pub is_const: bool,
}

impl LocalFlags {
    /// No flag set.
    pub fn new() -> (r: Self)
        ensures
            r == (LocalFlags { is_const: false }),
    {
        LocalFlags { is_const: false }
    }
}

/// A type, as definitions and instructions refer to it.
#[derive(Debug, Clone, Copy, PartialEq)]
pub enum PoolType {
    Prim,
    Class,
    Ref(PoolIndex<PoolType>),
    WeakRef(PoolIndex<PoolType>),
    ScriptRef(PoolIndex<PoolType>),
    Array(PoolIndex<PoolType>),
}

#[derive(Debug, Clone, Copy, PartialEq)]
pub struct PoolParam {
    pub typ: PoolIndex<PoolType>,
    pub flags: ParameterFlags,
}

#[derive(Debug, Clone, Copy, PartialEq)]
pub struct PoolLocal {
    pub typ: PoolIndex<PoolType>,
    pub flags: LocalFlags,
}

impl PoolLocal {
    pub fn new(typ: PoolIndex<PoolType>, flags: LocalFlags) -> (r: Self)
        ensures
            r == (PoolLocal { typ, flags }),
    {
        PoolLocal { typ, flags }
    }
}

#[derive(Debug, Clone, Copy, PartialEq)]
pub struct PoolField {
    pub typ: PoolIndex<PoolType>,
}

#[derive(Debug, PartialEq)]
pub struct PoolClass {
    pub base: Option<PoolIndex<PoolClass>>,
    pub methods: Vec<PoolIndex<Function>>,
    pub fields: Vec<PoolIndex<PoolField>>,
}

#[derive(Debug, PartialEq)]
pub struct Function {
    pub flags: FunctionFlags,
    pub return_type: Option<PoolIndex<PoolType>>,
    pub parameters: Vec<PoolIndex<PoolParam>>,
    pub locals: Vec<PoolIndex<PoolLocal>>,
    pub code: Code<Offset>,
}

/// What a class definition holds.
#[verifier::ext_equal]
pub struct ClassView {
    pub base: Option<PoolIndex<PoolClass>>,
    pub methods: Seq<PoolIndex<Function>>,
    pub fields: Seq<PoolIndex<PoolField>>,
}

impl View for PoolClass {
    type V = ClassView;

    open spec fn view(&self) -> ClassView {
        ClassView { base: self.base, methods: self.methods@, fields: self.fields@ }
    }
}

/// What a function definition holds.
#[verifier::ext_equal]
pub struct FunctionView {
    pub flags: FunctionFlags,
    pub return_type: Option<PoolIndex<PoolType>>,
    pub parameters: Seq<PoolIndex<PoolParam>>,
    pub locals: Seq<PoolIndex<PoolLocal>>,
    pub code: Seq<Instr<Offset>>,
}

impl View for Function {
    type V = FunctionView;

    open spec fn view(&self) -> FunctionView {
        FunctionView {
            flags: self.flags,
            return_type: self.return_type,
            parameters: self.parameters@,
            locals: self.locals@,
            code: self.code@,
        }
    }
}

#[derive(Debug, PartialEq)]
pub enum AnyDefinition {
    Type(PoolType),
    Class(PoolClass),
    Function(Function),
    Parameter(PoolParam),
    Local(PoolLocal),
    Field(PoolField),
}

#[verifier::ext_equal]
pub enum AnyDefinitionView {
    Type(PoolType),
    Class(ClassView),
    Function(FunctionView),
    Parameter(PoolParam),
    Local(PoolLocal),
    Field(PoolField),
}

impl View for AnyDefinition {
    type V = AnyDefinitionView;

    open spec fn view(&self) -> AnyDefinitionView {
        match self {
            AnyDefinition::Type(t) => AnyDefinitionView::Type(*t),
            AnyDefinition::Class(c) => AnyDefinitionView::Class(c@),
            AnyDefinition::Function(f) => AnyDefinitionView::Function(f@),
            AnyDefinition::Parameter(p) => AnyDefinitionView::Parameter(*p),
            AnyDefinition::Local(l) => AnyDefinitionView::Local(*l),
            AnyDefinition::Field(f) => AnyDefinitionView::Field(*f),
        }
    }
}

/// A named entry of the pool. `parent` is the entry that it belongs to, where it
/// belongs to one.
#[derive(Debug, PartialEq)]
pub struct Definition {
    pub name: PoolIndex<CName>,
    pub parent: Option<usize>,
    pub value: AnyDefinition,
}

#[verifier::ext_equal]
pub struct DefinitionView {
    pub name: PoolIndex<CName>,
    pub parent: Option<usize>,
    pub value: AnyDefinitionView,
}

impl View for Definition {
    type V = DefinitionView;

    open spec fn view(&self) -> DefinitionView {
        DefinitionView { name: self.name, parent: self.parent, value: self.value@ }
    }
}

impl Definition {
    pub fn type_(name: PoolIndex<CName>, typ: PoolType) -> (r: Self)
        ensures
            r@ == type_definition(name, typ),
    {
        Definition { name, parent: None, value: AnyDefinition::Type(typ) }
    }

    pub fn local(name: PoolIndex<CName>, parent: PoolIndex<Function>, local: PoolLocal) -> (r: Self)
        ensures
            r@ == (DefinitionView {
                name,
                parent: Some(parent.index),
                value: AnyDefinitionView::Local(local),
            }),
    {
        Definition { name, parent: Some(parent.index), value: AnyDefinition::Local(local) }
    }
}

/// A type definition, which belongs to no other entry.
pub open spec fn type_definition(name: PoolIndex<CName>, typ: PoolType) -> DefinitionView {
    DefinitionView { name, parent: None, value: AnyDefinitionView::Type(typ) }
}

/// What a pool holds.
#[verifier::ext_equal]
pub struct PoolView {
    pub names: Seq<Seq<char>>,
    pub strings: Seq<Seq<char>>,
    pub resources: Seq<Seq<char>>,
    pub tweakdb_ids: Seq<Seq<char>>,
    pub definitions: Seq<DefinitionView>,
}

impl PoolView {
    /// The definition at `index`.
    pub open spec fn definition(self, index: usize) -> Option<DefinitionView> {
        if index < self.definitions.len() {
            Some(self.definitions[index as int])
        } else {
            None
        }
    }

    /// The function at `index`, where there is one.
    pub open spec fn function(self, index: PoolIndex<Function>) -> Option<FunctionView> {
        match self.definition(index.index) {
            Some(d) => match d.value {
                AnyDefinitionView::Function(f) => Some(f),
                _ => None,
            },
            None => None,
        }
    }

    /// The class at `index`, where there is one.
    pub open spec fn class(self, index: PoolIndex<PoolClass>) -> Option<ClassView> {
        match self.definition(index.index) {
            Some(d) => match d.value {
                AnyDefinitionView::Class(c) => Some(c),
                _ => None,
            },
            None => None,
        }
    }

    /// The parameter at `index`, where there is one.
    pub open spec fn parameter(self, index: PoolIndex<PoolParam>) -> Option<PoolParam> {
        match self.definition(index.index) {
            Some(d) => match d.value {
                AnyDefinitionView::Parameter(p) => Some(p),
                _ => None,
            },
            None => None,
        }
    }

    /// The pool with a name interned, and where the name stands.
    pub open spec fn with_name(self, name: Seq<char>) -> (PoolView, PoolIndex<CName>) {
        let (names, i) = intern(self.names, name);
        (PoolView { names, ..self }, pool_index(i as usize))
    }

    /// The pool with one more definition.
    pub open spec fn with_definition(self, definition: DefinitionView) -> PoolView {
        PoolView { definitions: self.definitions.push(definition), ..self }
    }

    /// The pool with the value of the definition at `index` replaced, where there is one.
    pub open spec fn with_value(self, index: usize, value: AnyDefinitionView) -> PoolView {
        if index < self.definitions.len() {
            PoolView {
                definitions: self.definitions.update(
                    index as int,
                    DefinitionView { value, ..self.definitions[index as int] },
                ),
                ..self
            }
        } else {
            self
        }
    }
}

/// Why an entry of the pool could not be used.
#[derive(Debug, Clone, Copy, PartialEq, Eq, Structural)]
pub enum PoolError {
    /// The pool has no function at this index.
    FunctionNotFound(usize),
}

/// Interned text by kind, and the definitions.
#[derive(Debug)]
pub struct ConstantPool {
    names: Names<CName>,
    strings: Names<String>,
    resources: Names<Resource>,
    tweakdb_ids: Names<TweakDbId>,
    definitions: Vec<Definition>,
}

/// The contents of a list of definitions.
pub open spec fn definition_views(definitions: Seq<Definition>) -> Seq<DefinitionView> {
    definitions.map_values(|d: Definition| d@)
}

impl View for ConstantPool {
    type V = PoolView;

    closed spec fn view(&self) -> PoolView {
        PoolView {
            names: self.names@,
            strings: self.strings@,
            resources: self.resources@,
            tweakdb_ids: self.tweakdb_ids@,
            definitions: definition_views(self.definitions@),
        }
    }
}

/// The entries of a pool can always be numbered.
pub proof fn lemma_pool_numbered(pool: &ConstantPool)
    ensures
        pool@.names.len() <= usize::MAX,
        pool@.definitions.len() <= usize::MAX,
{
    assert(pool@.names.len() == pool.names.strings.len());
    assert(pool@.definitions.len() == pool.definitions.len());
}

impl ConstantPool {
    /// A pool with nothing in it.
    pub fn new() -> (r: Self)
        ensures
            r@ == (PoolView {
                names: Seq::empty(),
                strings: Seq::empty(),
                resources: Seq::empty(),
                tweakdb_ids: Seq::empty(),
                definitions: Seq::empty(),
            }),
    {
        ConstantPool {
            names: Names::new(),
            strings: Names::new(),
            resources: Names::new(),
            tweakdb_ids: Names::new(),
            definitions: Vec::new(),
        }
    }

    /// Interns a name.
    pub fn add_name(&mut self, name: &String) -> (r: PoolIndex<CName>)
        ensures
            (final(self)@, r) == old(self)@.with_name(name@),
    {
        self.names.add(name)
    }

    /// Interns a string.
    pub fn add_string(&mut self, text: &String) -> (r: PoolIndex<String>)
        ensures
            final(self)@ == (PoolView {
                strings: intern(old(self)@.strings, text@).0,
                ..old(self)@
            }),
            r == pool_index::<String>(intern(old(self)@.strings, text@).1 as usize),
    {
        self.strings.add(text)
    }

    /// Interns a resource path.
    pub fn add_resource(&mut self, text: &String) -> (r: PoolIndex<Resource>)
        ensures
            final(self)@ == (PoolView {
                resources: intern(old(self)@.resources, text@).0,
                ..old(self)@
            }),
            r == pool_index::<Resource>(intern(old(self)@.resources, text@).1 as usize),
    {
        self.resources.add(text)
    }

    /// Interns a TweakDB identifier.
    pub fn add_tweakdb_id(&mut self, text: &String) -> (r: PoolIndex<TweakDbId>)
        ensures
            final(self)@ == (PoolView {
                tweakdb_ids: intern(old(self)@.tweakdb_ids, text@).0,
                ..old(self)@
            }),
            r == pool_index::<TweakDbId>(intern(old(self)@.tweakdb_ids, text@).1 as usize),
    {
        self.tweakdb_ids.add(text)
    }

    /// The interned names.
    pub fn names(&self) -> (r: &Names<CName>)
        ensures
            r@ == self@.names,
    {
        &self.names
    }

    /// The interned strings.
    pub fn strings(&self) -> (r: &Names<String>)
        ensures
            r@ == self@.strings,
    {
        &self.strings
    }

    /// The interned resource paths.
    pub fn resources(&self) -> (r: &Names<Resource>)
        ensures
            r@ == self@.resources,
    {
        &self.resources
    }

    /// The interned TweakDB identifiers.
    pub fn tweakdb_ids(&self) -> (r: &Names<TweakDbId>)
        ensures
            r@ == self@.tweakdb_ids,
    {
        &self.tweakdb_ids
    }

    /// How many definitions there are.
    pub fn definition_count(&self) -> (r: usize)
        ensures
            r == self@.definitions.len(),
    {
        self.definitions.len()
    }

    /// The definition at `index`.
    pub fn definition(&self, index: usize) -> (r: Option<&Definition>)
        ensures
            match r {
                Some(d) => self@.definition(index) == Some(d@),
                None => self@.definition(index) is None,
            },
    {
        if index < self.definitions.len() {
            Some(&self.definitions[index])
        } else {
            None
        }
    }

    /// The function at `index`, where there is one.
    pub fn function(&self, index: PoolIndex<Function>) -> (r: Option<&Function>)
        ensures
            match r {
                Some(f) => self@.function(index) == Some(f@),
                None => self@.function(index) is None,
            },
    {
        match self.definition(index.index) {
            Some(d) => match &d.value {
                AnyDefinition::Function(f) => Some(f),
                _ => None,
            },
            None => None,
        }
    }

    /// The class at `index`, where there is one.
    pub fn class(&self, index: PoolIndex<PoolClass>) -> (r: Option<&PoolClass>)
        ensures
            match r {
                Some(c) => self@.class(index) == Some(c@),
                None => self@.class(index) is None,
            },
    {
        match self.definition(index.index) {
            Some(d) => match &d.value {
                AnyDefinition::Class(c) => Some(c),
                _ => None,
            },
            None => None,
        }
    }

    /// The parameter at `index`, where there is one.
    pub fn parameter(&self, index: PoolIndex<PoolParam>) -> (r: Option<&PoolParam>)
        ensures
            match r {
                Some(p) => self@.parameter(index) == Some(*p),
                None => self@.parameter(index) is None,
            },
    {
        match self.definition(index.index) {
            Some(d) => match &d.value {
                AnyDefinition::Parameter(p) => Some(p),
                _ => None,
            },
            None => None,
        }
    }

    /// Adds a definition, and says where it stands.
    pub fn add_definition<A>(&mut self, definition: Definition) -> (r: PoolIndex<A>)
        ensures
            final(self)@ == old(self)@.with_definition(definition@),
            r == pool_index::<A>(old(self)@.definitions.len() as usize),
            r.index == old(self)@.definitions.len(),
    {
        let index: usize = self.definitions.len();
        self.definitions.push(definition);
        assert(self@ =~= old(self)@.with_definition(definition@));
        PoolIndex::new(index)
    }

    /// Replaces the value of the definition at `index`.
    pub fn put_value(&mut self, index: usize, value: AnyDefinition)
        requires
            index < old(self)@.definitions.len(),
        ensures
            final(self)@ == old(self)@.with_value(index, value@),
    {
        let name: PoolIndex<CName> = self.definitions[index].name;
        let parent: Option<usize> = self.definitions[index].parent;
        self.definitions.set(index, Definition { name, parent, value });
        assert(self@ =~= old(self)@.with_value(index, value@));
    }

    /// Gives the function at `index` its locals and its code.
    pub fn complete_function(
        &mut self,
        index: PoolIndex<Function>,
        locals: Vec<PoolIndex<PoolLocal>>,
        code: Code<Offset>,
    ) -> (r: Result<(), PoolError>)
        ensures
            match old(self)@.function(index) {
                Some(f) => r is Ok && final(self)@ == old(self)@.with_value(
                    index.index,
                    AnyDefinitionView::Function(
                        FunctionView { locals: locals@, code: code@, ..f },
                    ),
                ),
                None => r == Err::<(), PoolError>(PoolError::FunctionNotFound(index.index))
                    && final(self)@ == old(self)@,
            },
    {
        let function: Function = match self.function(index) {
            Some(f) => Function {
                flags: f.flags,
                return_type: f.return_type,
                parameters: f.parameters.clone(),
                locals,
                code,
            },
            None => {
                return Err(PoolError::FunctionNotFound(index.index));
            },
        };
        self.put_value(index.index, AnyDefinition::Function(function));
        Ok(())
    }
}

} // verus!
