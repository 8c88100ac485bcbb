//! Types as the compiler sees them once inference is done, and the repository of what
//! is known by name.

use std::collections::HashMap;
use vstd::prelude::*;

verus! {

/// A nominal type.
#[derive(Debug, Clone, Copy, PartialEq, Eq, Structural)]
pub struct TypeId {
    pub id: u64,
}

/// The type `array<T>`.
pub const ARRAY: u64 = 0;

/// The type `ref<T>`.
pub const REF: u64 = 1;

/// The type `wref<T>`.
pub const WEAK_REF: u64 = 2;

/// The type `script_ref<T>`.
pub const SCRIPT_REF: u64 = 3;

/// A field of a class or of a struct.
#[derive(Debug, Clone, Copy, PartialEq, Eq, Structural)]
pub struct FieldId {
    pub id: u64,
}

/// A method of a class, static or not.
#[derive(Debug, Clone, Copy, PartialEq, Eq, Structural)]
pub struct MethodId {
    pub id: u64,
}

/// A function that belongs to no class.
#[derive(Debug, Clone, Copy, PartialEq, Eq, Structural)]
pub struct GlobalId {
    pub id: u64,
}

impl GlobalId {
    pub fn new(id: u64) -> (r: Self)
        ensures
            r.id == id,
    {
        GlobalId { id }
    }
}

#[derive(Debug, Clone, Copy, PartialEq, Eq, Structural)]
pub enum Prim {
    Unit,
    Bool,
    Int8,
    Int16,
    Int32,
    Int64,
    Uint8,
    Uint16,
    Uint32,
    Uint64,
    Float,
    Double,
    String,
    CName,
    TweakDbId,
    ResRef,
    Variant,
}

impl Prim {
    /// The name under which the type is known in the pool.
    pub open spec fn text(self) -> Seq<char> {
        match self {
            Prim::Unit => "Void"@,
            Prim::Bool => "Bool"@,
            Prim::Int8 => "Int8"@,
            Prim::Int16 => "Int16"@,
            Prim::Int32 => "Int32"@,
            Prim::Int64 => "Int64"@,
            Prim::Uint8 => "Uint8"@,
            Prim::Uint16 => "Uint16"@,
            Prim::Uint32 => "Uint32"@,
            Prim::Uint64 => "Uint64"@,
            Prim::Float => "Float"@,
            Prim::Double => "Double"@,
            Prim::String => "String"@,
            Prim::CName => "CName"@,
            Prim::TweakDbId => "TweakDBID"@,
            Prim::ResRef => "ResRef"@,
            Prim::Variant => "Variant"@,
        }
    }

    pub fn name(self) -> (r: &'static str)
        ensures
            r@ == self.text(),
    {
        match self {
            Prim::Unit => "Void",
            Prim::Bool => "Bool",
            Prim::Int8 => "Int8",
            Prim::Int16 => "Int16",
            Prim::Int32 => "Int32",
            Prim::Int64 => "Int64",
            Prim::Uint8 => "Uint8",
            Prim::Uint16 => "Uint16",
            Prim::Uint32 => "Uint32",
            Prim::Uint64 => "Uint64",
            Prim::Float => "Float",
            Prim::Double => "Double",
            Prim::String => "String",
            Prim::CName => "CName",
            Prim::TweakDbId => "TweakDBID",
            Prim::ResRef => "ResRef",
            Prim::Variant => "Variant",
        }
    }
}

/// A nominal type applied to arguments.
#[derive(Debug)]
pub struct Parameterized {
    pub id: TypeId,
    pub args: Vec<Type>,
}

#[derive(Debug)]
pub enum Type {
    /// The type of every value.
    Top,
    /// The type of no value.
    Bottom,
    Prim(Prim),
    Data(Parameterized),
}

/// What a [`Type`] says.
#[verifier::ext_equal]
pub enum TypeView {
    Top,
    Bottom,
    Prim(Prim),
    Data(TypeId, Seq<TypeView>),
}

/// What a type says.
pub open spec fn type_view(typ: Type) -> TypeView
    decreases typ,
{
    match typ {
        Type::Top => TypeView::Top,
        Type::Bottom => TypeView::Bottom,
        Type::Prim(p) => TypeView::Prim(p),
        Type::Data(p) => TypeView::Data(
            p.id,
            Seq::new(
                p.args@.len(),
                |i: int|
                    if 0 <= i < p.args@.len() {
                        type_view(p.args@[i])
                    } else {
                        TypeView::Top
                    },
            ),
        ),
    }
}

impl View for Type {
    type V = TypeView;

    open spec fn view(&self) -> TypeView {
        type_view(*self)
    }
}

/// What each of a list of types says.
pub open spec fn type_views(types: Seq<Type>) -> Seq<TypeView> {
    types.map_values(|t: Type| t@)
}

pub proof fn lemma_data_view(p: Parameterized)
    ensures
        type_view(Type::Data(p)) == TypeView::Data(p.id, type_views(p.args@)),
{
    assert(type_view(Type::Data(p))->Data_1 =~= type_views(p.args@));
}

/// The type of arrays of `elem`.
pub open spec fn array_type(elem: TypeView) -> TypeView {
    TypeView::Data(TypeId { id: ARRAY }, seq![elem])
}

/// Whether two lists of types say the same.
fn same_types(left: &Vec<Type>, right: &Vec<Type>) -> (r: bool)
    ensures
        r == (type_views(left@) == type_views(right@)),
    decreases left@,
{
    let ghost l = type_views(left@);
    let ghost r = type_views(right@);
    if left.len() != right.len() {
        assert(l.len() != r.len());
        return false;
    }
    let mut i: usize = 0;
    while i < left.len()
        invariant
            i <= left@.len(),
            left@.len() == right@.len(),
            l == type_views(left@),
            r == type_views(right@),
            forall|j: int| 0 <= j < i ==> l[j] == r[j],
        decreases left@.len() - i,
    {
        assert(l[i as int] == left@[i as int]@ && r[i as int] == right@[i as int]@);
        if !left[i].same(&right[i]) {
            return false;
        }
        i = i + 1;
    }
    assert(l =~= r);
    true
}

/// A list of types that say the same.
fn duplicate_types(types: &Vec<Type>) -> (r: Vec<Type>)
    ensures
        type_views(r@) == type_views(types@),
    decreases types@,
{
    let mut r: Vec<Type> = Vec::with_capacity(types.len());
    let mut i: usize = 0;
    while i < types.len()
        invariant
            i <= types@.len(),
            r@.len() == i,
            forall|j: int| 0 <= j < i ==> (#[trigger] r@[j])@ == types@[j]@,
        decreases types@.len() - i,
    {
        r.push(types[i].duplicate());
        i = i + 1;
    }
    assert(type_views(r@) =~= type_views(types@));
    r
}

impl Type {
    /// Whether two types say the same.
    pub fn same(&self, other: &Type) -> (r: bool)
        ensures
            r == (self@ == other@),
        decreases self,
    {
        match (self, other) {
            (Type::Top, Type::Top) => true,
            (Type::Bottom, Type::Bottom) => true,
            (Type::Prim(p), Type::Prim(q)) => *p == *q,
            (Type::Data(p), Type::Data(q)) => {
                proof {
                    lemma_data_view(*p);
                    lemma_data_view(*q);
                }
                p.id == q.id && same_types(&p.args, &q.args)
            },
            _ => false,
        }
    }

    /// Another type that says the same.
    pub fn duplicate(&self) -> (r: Type)
        ensures
            r@ == self@,
        decreases self,
    {
        match self {
            Type::Top => Type::Top,
            Type::Bottom => Type::Bottom,
            Type::Prim(p) => Type::Prim(*p),
            Type::Data(p) => {
                let copy = Parameterized { id: p.id, args: duplicate_types(&p.args) };
                proof {
                    lemma_data_view(*p);
                    lemma_data_view(copy);
                }
                Type::Data(copy)
            },
        }
    }

    /// The type of arrays of `elem`.
    pub fn array(elem: &Type) -> (r: Type)
        ensures
            r@ == array_type(elem@),
    {
        let mut args: Vec<Type> = Vec::new();
        args.push(elem.duplicate());
        let p = Parameterized { id: TypeId { id: ARRAY }, args };
        proof {
            lemma_data_view(p);
            assert(type_views(p.args@) =~= seq![elem@]);
        }
        Type::Data(p)
    }

    /// Whether the type is the one with a single value, which is not returned.
    pub fn is_unit(&self) -> (r: bool)
        ensures
            r == (self@ == TypeView::Prim(Prim::Unit)),
    {
        match self {
            Type::Prim(Prim::Unit) => true,
            _ => false,
        }
    }
}

/// The name of a function, within the type that it belongs to where there is one.
#[derive(Debug)]
pub struct ScopedName {
    pub scope: Option<TypeId>,
    pub name: String,
}

/// A function that belongs to no class, with its signature.
#[derive(Debug)]
pub struct GlobalEntry {
    pub name: ScopedName,
    pub index: u64,
    pub params: Vec<Type>,
    pub ret: Type,
}

impl GlobalEntry {
    /// The entry is named `Cast` at the top level, takes a `from` first and returns a `to`.
    pub open spec fn casts(self, from: TypeView, to: TypeView) -> bool {
        &&& self.name.scope is None
        &&& self.name.name@ == "Cast"@
        &&& self.params@.len() > 0
        &&& self.params@[0]@ == from
        &&& self.ret@ == to
    }
}

/// The first among the first `n` entries that casts `from` to `to`.
pub open spec fn first_cast(
    entries: Seq<GlobalEntry>,
    n: int,
    from: TypeView,
    to: TypeView,
) -> Option<GlobalId>
    decreases n,
{
    if n <= 0 {
        None
    } else {
        match first_cast(entries, n - 1, from, to) {
            Some(id) => Some(id),
            None => if entries[n - 1].casts(from, to) {
                Some(GlobalId { id: entries[n - 1].index })
            } else {
                None
            },
        }
    }
}

/// What is known of types and functions by name.
#[derive(Debug)]
pub struct TypeRepo {
    /// The names of the classes.
    pub class_names: HashMap<u64, String>,
    /// The types of function objects, by the number of parameters.
    pub fn_types: Vec<TypeId>,
    /// The functions that belong to no class.
    pub globals: Vec<GlobalEntry>,
}

impl TypeRepo {
    /// The function that casts `from` to `to`.
    pub open spec fn cast(self, from: TypeView, to: TypeView) -> Option<GlobalId> {
        first_cast(self.globals@, self.globals@.len() as int, from, to)
    }

    /// The type of function objects with `arity` parameters.
    pub open spec fn fn_type(self, arity: nat) -> Option<TypeId> {
        if arity < self.fn_types@.len() {
            Some(self.fn_types@[arity as int])
        } else {
            None
        }
    }

    /// The name of a class.
    pub open spec fn class_name(self, id: TypeId) -> Option<Seq<char>> {
        if self.class_names@.contains_key(id.id) {
            Some(self.class_names@[id.id]@)
        } else {
            None
        }
    }

    /// Finds the function that casts `from` to `to`.
    pub fn find_cast(&self, from: &Type, to: &Type) -> (r: Option<GlobalId>)
        ensures
            r == self.cast(from@, to@),
    {
        let wanted: String = "Cast".to_owned();
        let mut i: usize = 0;
        while i < self.globals.len()
            invariant
                i <= self.globals@.len(),
                wanted@ == "Cast"@,
                first_cast(self.globals@, i as int, from@, to@) is None,
            decreases self.globals@.len() - i,
        {
            let entry = &self.globals[i];
            if entry.name.scope.is_none() && entry.name.name == wanted && entry.params.len() > 0
                && entry.params[0].same(from) && entry.ret.same(to) {
                proof {
                    lemma_first_cast_stays(
                        self.globals@,
                        i + 1,
                        self.globals@.len() as int,
                        from@,
                        to@,
                    );
                }
                return Some(GlobalId::new(entry.index));
            }
            i = i + 1;
        }
        None
    }

    /// The type of function objects with `arity` parameters.
    pub fn get_fn_by_arity(&self, arity: usize) -> (r: Option<TypeId>)
        ensures
            r == self.fn_type(arity as nat),
    {
        if arity < self.fn_types.len() {
            Some(self.fn_types[arity])
        } else {
            None
        }
    }
}

proof fn lemma_first_cast_stays(
    entries: Seq<GlobalEntry>,
    m: int,
    n: int,
    from: TypeView,
    to: TypeView,
)
    requires
        m <= n,
        first_cast(entries, m, from, to) is Some,
    ensures
        first_cast(entries, n, from, to) == first_cast(entries, m, from, to),
    decreases n - m,
{
    if m < n {
        lemma_first_cast_stays(entries, m, n - 1, from, to);
    }
}

/// A cast goes by the first function of that name, at the top level, whose first parameter
/// is of the type that is cast and whose result is of the type that is cast to.
pub proof fn law_first_cast(
    entries: Seq<GlobalEntry>,
    n: int,
    i: int,
    from: TypeView,
    to: TypeView,
)
    requires
        0 <= n <= entries.len(),
    ensures
        0 <= i < n && entries[i].name.scope is None && entries[i].name.name@ == "Cast"@
            && entries[i].params@.len() > 0 && entries[i].params@[0]@ == from && entries[i].ret@
            == to && (forall|j: int|
            0 <= j < i ==> !((#[trigger] entries[j]).name.scope is None && entries[j].name.name@
                == "Cast"@ && entries[j].params@.len() > 0 && entries[j].params@[0]@ == from
                && entries[j].ret@ == to)) ==> first_cast(entries, n, from, to) == Some(
            GlobalId { id: entries[i].index },
        ),
        (forall|j: int|
            0 <= j < n ==> !((#[trigger] entries[j]).name.scope is None && entries[j].name.name@
                == "Cast"@ && entries[j].params@.len() > 0 && entries[j].params@[0]@ == from
                && entries[j].ret@ == to)) ==> first_cast(entries, n, from, to) is None,
    decreases n,
{
    if n > 0 {
        law_first_cast(entries, n - 1, i, from, to);
        if i == n - 1 {
            law_first_cast(entries, n - 1, n, from, to);
        }
    }
}

/// The type of function objects goes by the number of parameters, the name of a class by
/// its number.
pub proof fn law_repo(repo: TypeRepo, arity: nat, id: TypeId, from: TypeView, to: TypeView)
    ensures
        repo.fn_type(arity) == if arity < repo.fn_types@.len() {
            Some(repo.fn_types@[arity as int])
        } else {
            None
        },
        repo.class_name(id) == if repo.class_names@.contains_key(id.id) {
            Some(repo.class_names@[id.id]@)
        } else {
            None
        },
        repo.cast(from, to) == first_cast(repo.globals@, repo.globals@.len() as int, from, to),
{
}

} // verus!
