//! Instructions, labels and the byte layout of code.
//!
//! Code is first emitted with symbolic jump targets, as `Instr<Label>`, and then
//! laid out: every label becomes the distance in bytes from the instruction that
//! mentions it to the place where the label stands, and the marks themselves go.

use crate::pool::{
    CName, Function, PoolClass, PoolField, PoolIndex, PoolLocal, PoolParam, PoolType, Resource,
    TweakDbId,
};
use vstd::pervasive::unreached;
use vstd::prelude::*;

verus! {

/// A symbolic jump target, numbered within one function.
#[derive(Debug, Clone, Copy, PartialEq, Eq, Structural)]
pub struct Label {
    pub index: usize,
}

/// A byte position within the code of one function.
#[derive(Debug, Clone, Copy, PartialEq, Eq, Structural)]
pub struct Location {
    pub value: u16,
}

impl Location {
    pub fn new(value: u16) -> (r: Self)
        ensures
            r.value == value,
    {
        Location { value }
    }
}

/// A jump target relative to the start of the instruction that mentions it.
#[derive(Debug, Clone, Copy, PartialEq, Eq, Structural)]
pub struct Offset {
    pub value: i16,
}

impl Offset {
    pub fn new(value: i16) -> (r: Self)
        ensures
            r.value == value,
    {
        Offset { value }
    }
}

/// Operations that the compiler knows by name and emits as single instructions.
#[derive(Debug, Clone, Copy, PartialEq, Eq, Structural)]
pub enum Intrinsic {
    Equals,
    NotEquals,
    ArrayClear,
    ArraySize,
    ArrayResize,
    ArrayFindFirst,
    ArrayFindLast,
    ArrayContains,
    ArrayCount,
    ArrayPush,
    ArrayPop,
    ArrayInsert,
    ArrayRemove,
    ArrayGrow,
    ArrayErase,
    ArrayLast,
    ToString,
    EnumInt,
    IntEnum,
    ToVariant,
    FromVariant,
    VariantIsRef,
    VariantIsArray,
    VariantTypeName,
    AsRef,
    Deref,
    RefToWeakRef,
    WeakRefToRef,
    IsDefined,
}

/// One instruction. `L` is what a jump target is written as: [`Label`] while code
/// is emitted, [`Offset`] once it is laid out. Floating-point constants are held as
/// their bit patterns.
#[derive(Debug, PartialEq)]
pub enum Instr<L> {
    Nop,
    Null,
    I32Const(i32),
    I64Const(i64),
    U32Const(u32),
    U64Const(u64),
    F32Const(u32),
    F64Const(u64),
    NameConst(PoolIndex<CName>),
    StringConst(PoolIndex<String>),
    TweakDbIdConst(PoolIndex<TweakDbId>),
    ResourceConst(PoolIndex<Resource>),
    TrueConst,
    FalseConst,
    Assign,
    Target(L),
    Local(PoolIndex<PoolLocal>),
    Param(PoolIndex<PoolParam>),
    ObjectField(PoolIndex<PoolField>),
    Jump(L),
    JumpIfFalse(L),
    Skip(L),
    Conditional(L, L),
    InvokeStatic(L, u16, PoolIndex<Function>, u16),
    InvokeVirtual(L, u16, PoolIndex<CName>, u16),
    ParamEnd,
    Return,
    StructField(PoolIndex<PoolField>),
    Context(L),
    Equals(PoolIndex<PoolType>),
    NotEquals(PoolIndex<PoolType>),
    New(PoolIndex<PoolClass>),
    This,
    ArrayClear(PoolIndex<PoolType>),
    ArraySize(PoolIndex<PoolType>),
    ArrayResize(PoolIndex<PoolType>),
    ArrayFindFirst(PoolIndex<PoolType>),
    ArrayFindLast(PoolIndex<PoolType>),
    ArrayContains(PoolIndex<PoolType>),
    ArrayCount(PoolIndex<PoolType>),
    ArrayPush(PoolIndex<PoolType>),
    ArrayPop(PoolIndex<PoolType>),
    ArrayInsert(PoolIndex<PoolType>),
    ArrayRemove(PoolIndex<PoolType>),
    ArrayGrow(PoolIndex<PoolType>),
    ArrayErase(PoolIndex<PoolType>),
    ArrayLast(PoolIndex<PoolType>),
    ArrayElement(PoolIndex<PoolType>),
    RefToBool,
    WeakRefToRef,
    RefToWeakRef,
    EnumToI32(PoolIndex<PoolType>, u8),
    I32ToEnum(PoolIndex<PoolType>, u8),
    DynamicCast(PoolIndex<PoolClass>, u8),
    ToString(PoolIndex<PoolType>),
    ToVariant(PoolIndex<PoolType>),
    FromVariant(PoolIndex<PoolType>),
    VariantIsRef,
    VariantIsArray,
    VariantTypeName,
    AsRef(PoolIndex<PoolType>),
    Deref(PoolIndex<PoolType>),
}

impl<L: Copy> Clone for Instr<L> {
    fn clone(&self) -> (r: Self)
        ensures
            r == *self,
    {
        *self
    }
}

impl<L: Copy> Copy for Instr<L> {

}

impl<L> Instr<L> {
    /// The bytes that the instruction takes: one for the opcode, then the operands.
    /// A pool reference takes eight bytes (four for a string), a jump target two. A
    /// [`Instr::Target`] is a mark and takes none.
    pub open spec fn bytes(self) -> nat {
        match self {
            Instr::Target(_) => 0,
            Instr::I32Const(_) | Instr::U32Const(_) | Instr::F32Const(_) => 5,
            Instr::I64Const(_) | Instr::U64Const(_) | Instr::F64Const(_) => 9,
            Instr::NameConst(_) | Instr::TweakDbIdConst(_) | Instr::ResourceConst(_) => 9,
            Instr::StringConst(_) => 5,
            Instr::Local(_) | Instr::Param(_) | Instr::ObjectField(_) | Instr::StructField(_) => 9,
            Instr::Jump(_) | Instr::JumpIfFalse(_) | Instr::Skip(_) | Instr::Context(_) => 3,
            Instr::Conditional(_, _) => 5,
            Instr::InvokeStatic(_, _, _, _) | Instr::InvokeVirtual(_, _, _, _) => 15,
            Instr::EnumToI32(_, _) | Instr::I32ToEnum(_, _) | Instr::DynamicCast(_, _) => 10,
            Instr::New(_) => 9,
            Instr::Equals(_) | Instr::NotEquals(_) => 9,
            Instr::ArrayClear(_) | Instr::ArraySize(_) | Instr::ArrayResize(_) => 9,
            Instr::ArrayFindFirst(_) | Instr::ArrayFindLast(_) | Instr::ArrayContains(_) => 9,
            Instr::ArrayCount(_) | Instr::ArrayPush(_) | Instr::ArrayPop(_) => 9,
            Instr::ArrayInsert(_) | Instr::ArrayRemove(_) | Instr::ArrayGrow(_) => 9,
            Instr::ArrayErase(_) | Instr::ArrayLast(_) | Instr::ArrayElement(_) => 9,
            Instr::ToString(_) | Instr::ToVariant(_) | Instr::FromVariant(_) => 9,
            Instr::AsRef(_) | Instr::Deref(_) => 9,
            _ => 1,
        }
    }

    /// The jump targets that the instruction refers to, in operand order. The mark
    /// that places a label refers to none.
    pub open spec fn refs(self) -> Seq<L> {
        match self {
            Instr::Jump(l) | Instr::JumpIfFalse(l) | Instr::Skip(l) | Instr::Context(l) => seq![l],
            Instr::InvokeStatic(l, _, _, _) | Instr::InvokeVirtual(l, _, _, _) => seq![l],
            Instr::Conditional(l, m) => seq![l, m],
            _ => Seq::empty(),
        }
    }

    /// The same instruction with each jump target `l` rewritten to `f(l)`.
    pub open spec fn relabel<M>(self, f: spec_fn(L) -> M) -> Instr<M> {
        match self {
            Instr::Nop => Instr::Nop,
            Instr::Null => Instr::Null,
            Instr::I32Const(i) => Instr::I32Const(i),
            Instr::I64Const(i) => Instr::I64Const(i),
            Instr::U32Const(i) => Instr::U32Const(i),
            Instr::U64Const(i) => Instr::U64Const(i),
            Instr::F32Const(i) => Instr::F32Const(i),
            Instr::F64Const(i) => Instr::F64Const(i),
            Instr::NameConst(i) => Instr::NameConst(i),
            Instr::StringConst(i) => Instr::StringConst(i),
            Instr::TweakDbIdConst(i) => Instr::TweakDbIdConst(i),
            Instr::ResourceConst(i) => Instr::ResourceConst(i),
            Instr::TrueConst => Instr::TrueConst,
            Instr::FalseConst => Instr::FalseConst,
            Instr::Assign => Instr::Assign,
            Instr::Target(l) => Instr::Target(f(l)),
            Instr::Local(i) => Instr::Local(i),
            Instr::Param(i) => Instr::Param(i),
            Instr::ObjectField(i) => Instr::ObjectField(i),
            Instr::Jump(l) => Instr::Jump(f(l)),
            Instr::JumpIfFalse(l) => Instr::JumpIfFalse(f(l)),
            Instr::Skip(l) => Instr::Skip(f(l)),
            Instr::Conditional(l, m) => Instr::Conditional(f(l), f(m)),
            Instr::InvokeStatic(l, a, i, b) => Instr::InvokeStatic(f(l), a, i, b),
            Instr::InvokeVirtual(l, a, i, b) => Instr::InvokeVirtual(f(l), a, i, b),
            Instr::ParamEnd => Instr::ParamEnd,
            Instr::Return => Instr::Return,
            Instr::StructField(i) => Instr::StructField(i),
            Instr::Context(l) => Instr::Context(f(l)),
            Instr::Equals(i) => Instr::Equals(i),
            Instr::NotEquals(i) => Instr::NotEquals(i),
            Instr::New(i) => Instr::New(i),
            Instr::This => Instr::This,
            Instr::ArrayClear(i) => Instr::ArrayClear(i),
            Instr::ArraySize(i) => Instr::ArraySize(i),
            Instr::ArrayResize(i) => Instr::ArrayResize(i),
            Instr::ArrayFindFirst(i) => Instr::ArrayFindFirst(i),
            Instr::ArrayFindLast(i) => Instr::ArrayFindLast(i),
            Instr::ArrayContains(i) => Instr::ArrayContains(i),
            Instr::ArrayCount(i) => Instr::ArrayCount(i),
            Instr::ArrayPush(i) => Instr::ArrayPush(i),
            Instr::ArrayPop(i) => Instr::ArrayPop(i),
            Instr::ArrayInsert(i) => Instr::ArrayInsert(i),
            Instr::ArrayRemove(i) => Instr::ArrayRemove(i),
            Instr::ArrayGrow(i) => Instr::ArrayGrow(i),
            Instr::ArrayErase(i) => Instr::ArrayErase(i),
            Instr::ArrayLast(i) => Instr::ArrayLast(i),
            Instr::ArrayElement(i) => Instr::ArrayElement(i),
            Instr::RefToBool => Instr::RefToBool,
            Instr::WeakRefToRef => Instr::WeakRefToRef,
            Instr::RefToWeakRef => Instr::RefToWeakRef,
            Instr::EnumToI32(i, a) => Instr::EnumToI32(i, a),
            Instr::I32ToEnum(i, a) => Instr::I32ToEnum(i, a),
            Instr::DynamicCast(i, a) => Instr::DynamicCast(i, a),
            Instr::ToString(i) => Instr::ToString(i),
            Instr::ToVariant(i) => Instr::ToVariant(i),
            Instr::FromVariant(i) => Instr::FromVariant(i),
            Instr::VariantIsRef => Instr::VariantIsRef,
            Instr::VariantIsArray => Instr::VariantIsArray,
            Instr::VariantTypeName => Instr::VariantTypeName,
            Instr::AsRef(i) => Instr::AsRef(i),
            Instr::Deref(i) => Instr::Deref(i),
        }
    }

    /// The bytes that the instruction takes, see [`Instr::bytes`].
    pub fn size(&self) -> (r: u16)
        ensures
            r == self.bytes(),
            r <= 15,
    {
        match self {
            Instr::Target(_) => 0,
            Instr::I32Const(_) | Instr::U32Const(_) | Instr::F32Const(_) => 5,
            Instr::I64Const(_) | Instr::U64Const(_) | Instr::F64Const(_) => 9,
            Instr::NameConst(_) | Instr::TweakDbIdConst(_) | Instr::ResourceConst(_) => 9,
            Instr::StringConst(_) => 5,
            Instr::Local(_) | Instr::Param(_) | Instr::ObjectField(_) | Instr::StructField(_) => 9,
            Instr::Jump(_) | Instr::JumpIfFalse(_) | Instr::Skip(_) | Instr::Context(_) => 3,
            Instr::Conditional(_, _) => 5,
            Instr::InvokeStatic(_, _, _, _) | Instr::InvokeVirtual(_, _, _, _) => 15,
            Instr::EnumToI32(_, _) | Instr::I32ToEnum(_, _) | Instr::DynamicCast(_, _) => 10,
            Instr::New(_) => 9,
            Instr::Equals(_) | Instr::NotEquals(_) => 9,
            Instr::ArrayClear(_) | Instr::ArraySize(_) | Instr::ArrayResize(_) => 9,
            Instr::ArrayFindFirst(_) | Instr::ArrayFindLast(_) | Instr::ArrayContains(_) => 9,
            Instr::ArrayCount(_) | Instr::ArrayPush(_) | Instr::ArrayPop(_) => 9,
            Instr::ArrayInsert(_) | Instr::ArrayRemove(_) | Instr::ArrayGrow(_) => 9,
            Instr::ArrayErase(_) | Instr::ArrayLast(_) | Instr::ArrayElement(_) => 9,
            Instr::ToString(_) | Instr::ToVariant(_) | Instr::FromVariant(_) => 9,
            Instr::AsRef(_) | Instr::Deref(_) => 9,
            _ => 1,
        }
    }
}

/// A sequence of instructions.
#[derive(Debug, PartialEq)]
pub struct Code<L>(pub Vec<Instr<L>>);

impl<L> View for Code<L> {
    type V = Seq<Instr<L>>;

    open spec fn view(&self) -> Seq<Instr<L>> {
        self.0@
    }
}

/// The bytes that the first `n` instructions of `code` take, which is where
/// instruction `n` starts.
pub open spec fn location_at<L>(code: Seq<Instr<L>>, n: int) -> nat
    decreases n,
{
    if n <= 0 {
        0
    } else {
        location_at(code, n - 1) + code[n - 1].bytes()
    }
}

/// Where `label` stands within the first `n` instructions: the location of the last
/// mark for it, and the start of the code where there is none.
pub open spec fn label_location(code: Seq<Instr<Label>>, n: int, label: Label) -> nat
    decreases n,
{
    if n <= 0 {
        0
    } else if code[n - 1] == Instr::Target(label) {
        location_at(code, n - 1)
    } else {
        label_location(code, n - 1, label)
    }
}

/// The distance in bytes from instruction `k` to where `label` stands.
pub open spec fn jump_distance(code: Seq<Instr<Label>>, k: int, label: Label) -> int {
    label_location(code, code.len() as int, label) - location_at(code, k)
}

/// Instruction `k` of `code` with its labels turned into distances.
pub open spec fn resolved_instr(code: Seq<Instr<Label>>, k: int) -> Instr<Offset> {
    code[k].relabel(|l: Label| Offset { value: jump_distance(code, k, l) as i16 })
}

/// The first `n` instructions of `code`, laid out: marks are left out and every label
/// is turned into a distance.
pub open spec fn resolved(code: Seq<Instr<Label>>, n: int) -> Seq<Instr<Offset>>
    decreases n,
{
    if n <= 0 {
        Seq::empty()
    } else if code[n - 1] is Target {
        resolved(code, n - 1)
    } else {
        resolved(code, n - 1).push(resolved_instr(code, n - 1))
    }
}

/// Every position in the code is a byte location, and every jump distance in it is an
/// offset.
pub open spec fn fits(code: Seq<Instr<Label>>) -> bool {
    &&& location_at(code, code.len() as int) <= u16::MAX
    &&& forall|k: int, i: int|
        #![trigger code[k].refs()[i]]
        0 <= k < code.len() && 0 <= i < code[k].refs().len() ==> i16::MIN <= jump_distance(
            code,
            k,
            code[k].refs()[i],
        ) <= i16::MAX
}

/// Every label that occurs in `code` has a number below `labels`.
pub open spec fn labels_below(code: Seq<Instr<Label>>, labels: nat) -> bool {
    &&& forall|k: int, i: int|
        #![trigger code[k].refs()[i]]
        0 <= k < code.len() && 0 <= i < code[k].refs().len() ==> code[k].refs()[i].index < labels
    &&& forall|k: int|
        #![trigger code[k]]
        0 <= k < code.len() ==> (code[k] matches Instr::Target(l) ==> l.index < labels)
}

pub proof fn lemma_location_monotonic<L>(code: Seq<Instr<L>>, m: int, n: int)
    requires
        0 <= m <= n <= code.len(),
    ensures
        location_at(code, m) <= location_at(code, n),
    decreases n,
{
    if m < n {
        lemma_location_monotonic(code, m, n - 1);
    }
}

/// The distance from one location to another.
fn distance(from: Location, to: Location) -> (r: Offset)
    requires
        i16::MIN <= to.value - from.value <= i16::MAX,
    ensures
        r.value == to.value - from.value,
{
    Offset::new((to.value as i32 - from.value as i32) as i16)
}

impl Instr<Label> {
    /// The instruction at `location` with each label turned into the distance to its
    /// place in `targets`.
    pub fn resolve_labels(&self, location: Location, targets: &Vec<Location>) -> (r: Instr<Offset>)
        requires
            !(self is Target),
            forall|i: int|
                #![trigger self.refs()[i]]
                0 <= i < self.refs().len() ==> self.refs()[i].index < targets@.len() && i16::MIN
                    <= targets@[self.refs()[i].index as int].value - location.value <= i16::MAX,
        ensures
            r == self.relabel(
                |l: Label|
                    Offset { value: (targets@[l.index as int].value - location.value) as i16 },
            ),
    {
        proof {
            let refs = self.refs();
            if refs.len() > 0 {
                assert(self.refs()[0] == refs[0]);
            }
            if refs.len() > 1 {
                assert(self.refs()[1] == refs[1]);
            }
        }
        match *self {
            Instr::Nop => Instr::Nop,
            Instr::Null => Instr::Null,
            Instr::I32Const(i) => Instr::I32Const(i),
            Instr::I64Const(i) => Instr::I64Const(i),
            Instr::U32Const(i) => Instr::U32Const(i),
            Instr::U64Const(i) => Instr::U64Const(i),
            Instr::F32Const(i) => Instr::F32Const(i),
            Instr::F64Const(i) => Instr::F64Const(i),
            Instr::NameConst(i) => Instr::NameConst(i),
            Instr::StringConst(i) => Instr::StringConst(i),
            Instr::TweakDbIdConst(i) => Instr::TweakDbIdConst(i),
            Instr::ResourceConst(i) => Instr::ResourceConst(i),
            Instr::TrueConst => Instr::TrueConst,
            Instr::FalseConst => Instr::FalseConst,
            Instr::Assign => Instr::Assign,
            Instr::Target(_) => unreached(),
            Instr::Local(i) => Instr::Local(i),
            Instr::Param(i) => Instr::Param(i),
            Instr::ObjectField(i) => Instr::ObjectField(i),
            Instr::Jump(l) => Instr::Jump(distance(location, targets[l.index])),
            Instr::JumpIfFalse(l) => Instr::JumpIfFalse(distance(location, targets[l.index])),
            Instr::Skip(l) => Instr::Skip(distance(location, targets[l.index])),
            Instr::Conditional(l, m) => Instr::Conditional(
                distance(location, targets[l.index]),
                distance(location, targets[m.index]),
            ),
            Instr::InvokeStatic(l, a, i, b) => Instr::InvokeStatic(
                distance(location, targets[l.index]),
                a,
                i,
                b,
            ),
            Instr::InvokeVirtual(l, a, i, b) => Instr::InvokeVirtual(
                distance(location, targets[l.index]),
                a,
                i,
                b,
            ),
            Instr::ParamEnd => Instr::ParamEnd,
            Instr::Return => Instr::Return,
            Instr::StructField(i) => Instr::StructField(i),
            Instr::Context(l) => Instr::Context(distance(location, targets[l.index])),
            Instr::Equals(i) => Instr::Equals(i),
            Instr::NotEquals(i) => Instr::NotEquals(i),
            Instr::New(i) => Instr::New(i),
            Instr::This => Instr::This,
            Instr::ArrayClear(i) => Instr::ArrayClear(i),
            Instr::ArraySize(i) => Instr::ArraySize(i),
            Instr::ArrayResize(i) => Instr::ArrayResize(i),
            Instr::ArrayFindFirst(i) => Instr::ArrayFindFirst(i),
            Instr::ArrayFindLast(i) => Instr::ArrayFindLast(i),
            Instr::ArrayContains(i) => Instr::ArrayContains(i),
            Instr::ArrayCount(i) => Instr::ArrayCount(i),
            Instr::ArrayPush(i) => Instr::ArrayPush(i),
            Instr::ArrayPop(i) => Instr::ArrayPop(i),
            Instr::ArrayInsert(i) => Instr::ArrayInsert(i),
            Instr::ArrayRemove(i) => Instr::ArrayRemove(i),
            Instr::ArrayGrow(i) => Instr::ArrayGrow(i),
            Instr::ArrayErase(i) => Instr::ArrayErase(i),
            Instr::ArrayLast(i) => Instr::ArrayLast(i),
            Instr::ArrayElement(i) => Instr::ArrayElement(i),
            Instr::RefToBool => Instr::RefToBool,
            Instr::WeakRefToRef => Instr::WeakRefToRef,
            Instr::RefToWeakRef => Instr::RefToWeakRef,
            Instr::EnumToI32(i, a) => Instr::EnumToI32(i, a),
            Instr::I32ToEnum(i, a) => Instr::I32ToEnum(i, a),
            Instr::DynamicCast(i, a) => Instr::DynamicCast(i, a),
            Instr::ToString(i) => Instr::ToString(i),
            Instr::ToVariant(i) => Instr::ToVariant(i),
            Instr::FromVariant(i) => Instr::FromVariant(i),
            Instr::VariantIsRef => Instr::VariantIsRef,
            Instr::VariantIsArray => Instr::VariantIsArray,
            Instr::VariantTypeName => Instr::VariantTypeName,
            Instr::AsRef(i) => Instr::AsRef(i),
            Instr::Deref(i) => Instr::Deref(i),
        }
    }
}

/// Lays `code` out. `labels` is one more than the highest label number in it.
pub fn resolve_code(code: &Vec<Instr<Label>>, labels: usize) -> (r: Code<Offset>)
    requires
        fits(code@),
        labels_below(code@, labels as nat),
    ensures
        r@ == resolved(code@, code@.len() as int),
{
    let mut locations: Vec<Location> = Vec::with_capacity(labels);
    locations.resize(labels, Location::new(0));

    let mut position: u16 = 0;
    let mut n: usize = 0;
    while n < code.len()
        invariant
            n <= code@.len(),
            fits(code@),
            labels_below(code@, labels as nat),
            position == location_at(code@, n as int),
            locations@.len() == labels,
            forall|l: Label|
                l.index < labels ==> (#[trigger] locations@[l.index as int]).value
                    == label_location(code@, n as int, l),
        decreases code@.len() - n,
    {
        proof {
            lemma_location_monotonic(code@, n + 1, code@.len() as int);
        }
        let instr: Instr<Label> = code[n];
        let ghost before = locations@;
        if let Instr::Target(label) = instr {
            locations.set(label.index, Location::new(position));
        }
        assert forall|l: Label| l.index < labels implies label_location(code@, n + 1, l) == (
        #[trigger] locations@[l.index as int]).value by {
            assert(before[l.index as int].value == label_location(code@, n as int, l));
        }
        position = position + instr.size();
        n = n + 1;
    }

    let mut result: Vec<Instr<Offset>> = Vec::with_capacity(code.len());
    position = 0;
    n = 0;
    while n < code.len()
        invariant
            n <= code@.len(),
            fits(code@),
            labels_below(code@, labels as nat),
            position == location_at(code@, n as int),
            locations@.len() == labels,
            forall|l: Label|
                l.index < labels ==> (#[trigger] locations@[l.index as int]).value
                    == label_location(code@, code@.len() as int, l),
            result@ == resolved(code@, n as int),
        decreases code@.len() - n,
    {
        proof {
            lemma_location_monotonic(code@, n + 1, code@.len() as int);
        }
        let instr: Instr<Label> = code[n];
        if let Instr::Target(_) = instr {
        } else {
            assert forall|i: int| 0 <= i < instr.refs().len() implies {
                let l = #[trigger] instr.refs()[i];
                &&& l.index < locations@.len()
                &&& i16::MIN <= locations@[l.index as int].value - position <= i16::MAX
            } by {
                let l = code@[n as int].refs()[i];
                assert(l.index < labels);
                assert(locations@[l.index as int].value == label_location(
                    code@,
                    code@.len() as int,
                    l,
                ));
                assert(jump_distance(code@, n as int, l) <= i16::MAX);
            }
            let out: Instr<Offset> = instr.resolve_labels(Location::new(position), &locations);
            proof {
                if instr.refs().len() > 0 {
                    let l = code@[n as int].refs()[0];
                    assert(locations@[l.index as int].value == label_location(
                        code@,
                        code@.len() as int,
                        l,
                    ));
                }
                if instr.refs().len() > 1 {
                    let l = code@[n as int].refs()[1];
                    assert(locations@[l.index as int].value == label_location(
                        code@,
                        code@.len() as int,
                        l,
                    ));
                }
                assert(out == resolved_instr(code@, n as int));
            }
            result.push(out);
        }
        position = position + instr.size();
        n = n + 1;
    }
    Code(result)
}

} // verus!
