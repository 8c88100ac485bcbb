//! What code each expression stands for.
//!
//! [`translate`] is the whole scheme: it takes the state of a function that is being
//! generated to its state once an expression is done. It gives `None` for expressions
//! that have no code: those that refer to something unknown, those that type checking
//! never lets through, and those that are not supported.

use crate::ast::{Callable, Constant, Expr, LambdaEnv, Literal, Local, Member, Span};
use crate::builders::{
    commit_class, commit_typed, ClassOutline, FunctionOutline, TypedKind, TypedName,
};
use crate::bytecode::{fits, resolved, Instr, Intrinsic, Label, Offset};
use crate::compiler::CompilationDb;
use crate::index_map::{entry_keys, key_index, with_entry};
use crate::index_vec::can_grow;
use crate::names::{field_name, lambda_name, local_name, param_name};
use crate::pool::{
    intern, pool_index, type_definition, AnyDefinitionView, CName, DefinitionView, Function,
    FunctionFlags, FunctionView, LocalFlags, PoolClass, PoolField, PoolIndex, PoolLocal, PoolParam,
    PoolType, PoolView,
};
use crate::type_cache::{alloc_type, CacheView};
use crate::types::{array_type, Prim, Type, TypeRepo, TypeView};
use vstd::prelude::*;

verus! {

/// The locals of one kind: their types in the order in which they came, and the pool
/// entries at the same places.
#[verifier::ext_equal]
pub struct IndicesView<A> {
    pub entries: Seq<(Local, TypeView)>,
    pub indices: Seq<PoolIndex<A>>,
}

impl<A> IndicesView<A> {
    /// No locals.
    pub open spec fn none() -> Self {
        IndicesView { entries: Seq::empty(), indices: Seq::empty() }
    }

    /// The entry at the place where `local` stands.
    pub open spec fn index_of(self, local: Local) -> Option<PoolIndex<A>> {
        match key_index(self.entries, local) {
            Some(i) => if i < self.indices.len() {
                Some(self.indices[i])
            } else {
                None
            },
            None => None,
        }
    }

    /// The locals with one more put in, whose entry comes last.
    pub open spec fn with(self, local: Local, typ: TypeView, index: PoolIndex<A>) -> Self {
        IndicesView {
            entries: with_entry(self.entries, local, typ),
            indices: self.indices.push(index),
        }
    }
}

/// What does not change while a function is generated.
pub struct Scope {
    pub params: IndicesView<PoolParam>,
    pub captures: IndicesView<PoolField>,
    pub repo: TypeRepo,
    pub db: CompilationDb,
}

/// A function that is being generated, with the pool that it adds to.
#[verifier::ext_equal]
pub struct GenState {
    pub locals: IndicesView<PoolLocal>,
    pub code: Seq<Instr<Label>>,
    pub labels: nat,
    pub pool: PoolView,
    pub cache: CacheView,
}

impl GenState {
    /// One more instruction.
    pub open spec fn emit(self, instr: Instr<Label>) -> GenState {
        GenState { code: self.code.push(instr), ..self }
    }

    /// A label that was not given out before. There are no more than can be numbered.
    pub open spec fn new_label(self) -> Option<(Label, GenState)> {
        if self.labels < usize::MAX {
            Some(
                (
                    Label { index: self.labels as usize },
                    GenState { labels: self.labels + 1, ..self },
                ),
            )
        } else {
            None
        }
    }

    /// The end of the arguments of a call, where its exit label stands.
    pub open spec fn close_call(self, exit: Label) -> GenState {
        self.emit(Instr::ParamEnd).emit(Instr::Target(exit))
    }
}

/// The instruction that reads a local.
pub open spec fn read_local(
    scope: Scope,
    locals: IndicesView<PoolLocal>,
    local: Local,
) -> Option<Instr<Label>> {
    match local {
        Local::Var(_) => match locals.index_of(local) {
            Some(i) => Some(Instr::Local(i)),
            None => None,
        },
        Local::Param(_) => match scope.params.index_of(local) {
            Some(i) => Some(Instr::Param(i)),
            None => None,
        },
        Local::Capture(_) => match scope.captures.index_of(local) {
            Some(i) => Some(Instr::ObjectField(i)),
            None => None,
        },
        Local::This => Some(Instr::This),
    }
}

/// A constant. Text is interned in the part of the pool that it belongs to.
pub open spec fn translate_constant(constant: Constant, st: GenState) -> GenState {
    match constant {
        Constant::String(Literal::String, text) => {
            let (strings, i) = intern(st.pool.strings, text@);
            let pool = PoolView { strings, ..st.pool };
            GenState { pool, ..st }.emit(Instr::StringConst(pool_index(i as usize)))
        },
        Constant::String(Literal::Name, text) => {
            let (pool, i) = st.pool.with_name(text@);
            GenState { pool, ..st }.emit(Instr::NameConst(i))
        },
        Constant::String(Literal::Resource, text) => {
            let (resources, i) = intern(st.pool.resources, text@);
            let pool = PoolView { resources, ..st.pool };
            GenState { pool, ..st }.emit(Instr::ResourceConst(pool_index(i as usize)))
        },
        Constant::String(Literal::TweakDbId, text) => {
            let (tweakdb_ids, i) = intern(st.pool.tweakdb_ids, text@);
            let pool = PoolView { tweakdb_ids, ..st.pool };
            GenState { pool, ..st }.emit(Instr::TweakDbIdConst(pool_index(i as usize)))
        },
        Constant::F32(i) => st.emit(Instr::F32Const(i)),
        Constant::F64(i) => st.emit(Instr::F64Const(i)),
        Constant::I32(i) => st.emit(Instr::I32Const(i)),
        Constant::I64(i) => st.emit(Instr::I64Const(i)),
        Constant::U32(i) => st.emit(Instr::U32Const(i)),
        Constant::U64(i) => st.emit(Instr::U64Const(i)),
        Constant::Bool(true) => st.emit(Instr::TrueConst),
        Constant::Bool(false) => st.emit(Instr::FalseConst),
    }
}

/// A local variable of the given type comes into being.
pub open spec fn declare(scope: Scope, local: Local, typ: TypeView, st: GenState) -> Option<
    (PoolIndex<PoolLocal>, GenState),
> {
    let item = TypedName { name: local_name(local), typ };
    match commit_typed::<PoolLocal>(item, TypedKind::Local, None, scope.repo, st.pool, st.cache) {
        Some(entry) => if can_grow(st.locals.indices.len()) {
            Some(
                (
                    entry.index,
                    GenState {
                        locals: st.locals.with(local, typ, entry.index),
                        pool: entry.pool,
                        cache: entry.cache,
                        ..st
                    },
                ),
            )
        } else {
            None
        },
        None => None,
    }
}

/// What an intrinsic operates on, as far as the instruction says.
pub enum Operand {
    Nothing,
    /// The first type argument.
    Value,
    /// Arrays of the first type argument.
    Array,
}

/// What the instruction for an intrinsic says of its operand.
pub open spec fn intrinsic_operand(op: Intrinsic) -> Operand {
    match op {
        Intrinsic::Equals | Intrinsic::NotEquals => Operand::Value,
        Intrinsic::ToString | Intrinsic::ToVariant | Intrinsic::FromVariant => Operand::Value,
        Intrinsic::EnumInt | Intrinsic::IntEnum => Operand::Value,
        Intrinsic::AsRef | Intrinsic::Deref => Operand::Value,
        Intrinsic::VariantIsRef | Intrinsic::VariantIsArray => Operand::Nothing,
        Intrinsic::VariantTypeName | Intrinsic::IsDefined => Operand::Nothing,
        Intrinsic::RefToWeakRef | Intrinsic::WeakRefToRef => Operand::Nothing,
        _ => Operand::Array,
    }
}

/// The instruction for an intrinsic, given the entry of the type that it operates on.
pub open spec fn intrinsic_instr(op: Intrinsic, typ: PoolIndex<PoolType>) -> Instr<Label> {
    match op {
        Intrinsic::Equals => Instr::Equals(typ),
        Intrinsic::NotEquals => Instr::NotEquals(typ),
        Intrinsic::ArrayClear => Instr::ArrayClear(typ),
        Intrinsic::ArraySize => Instr::ArraySize(typ),
        Intrinsic::ArrayResize => Instr::ArrayResize(typ),
        Intrinsic::ArrayFindFirst => Instr::ArrayFindFirst(typ),
        Intrinsic::ArrayFindLast => Instr::ArrayFindLast(typ),
        Intrinsic::ArrayContains => Instr::ArrayContains(typ),
        Intrinsic::ArrayCount => Instr::ArrayCount(typ),
        Intrinsic::ArrayPush => Instr::ArrayPush(typ),
        Intrinsic::ArrayPop => Instr::ArrayPop(typ),
        Intrinsic::ArrayInsert => Instr::ArrayInsert(typ),
        Intrinsic::ArrayRemove => Instr::ArrayRemove(typ),
        Intrinsic::ArrayGrow => Instr::ArrayGrow(typ),
        Intrinsic::ArrayErase => Instr::ArrayErase(typ),
        Intrinsic::ArrayLast => Instr::ArrayLast(typ),
        Intrinsic::ToString => Instr::ToString(typ),
        Intrinsic::EnumInt => Instr::EnumToI32(typ, 4),
        Intrinsic::IntEnum => Instr::I32ToEnum(typ, 4),
        Intrinsic::ToVariant => Instr::ToVariant(typ),
        Intrinsic::FromVariant => Instr::FromVariant(typ),
        Intrinsic::VariantIsRef => Instr::VariantIsRef,
        Intrinsic::VariantIsArray => Instr::VariantIsArray,
        Intrinsic::VariantTypeName => Instr::VariantTypeName,
        Intrinsic::AsRef => Instr::AsRef(typ),
        Intrinsic::Deref => Instr::Deref(typ),
        Intrinsic::RefToWeakRef => Instr::RefToWeakRef,
        Intrinsic::WeakRefToRef => Instr::WeakRefToRef,
        Intrinsic::IsDefined => Instr::RefToBool,
    }
}

/// The type that the instruction for an intrinsic mentions. One that mentions a type
/// needs a type argument.
pub open spec fn operand_type(operand: Operand, type_args: Seq<Type>) -> Option<TypeView> {
    match operand {
        Operand::Nothing => None,
        Operand::Value => if type_args.len() > 0 {
            Some(type_args[0]@)
        } else {
            None
        },
        Operand::Array => if type_args.len() > 0 {
            Some(array_type(type_args[0]@))
        } else {
            None
        },
    }
}

/// The instruction that an intrinsic begins with. Its arguments come after it.
pub open spec fn translate_intrinsic(
    scope: Scope,
    op: Intrinsic,
    type_args: Seq<Type>,
    st: GenState,
) -> Option<GenState> {
    match intrinsic_operand(op) {
        Operand::Nothing => Some(st.emit(intrinsic_instr(op, pool_index(0)))),
        operand => match operand_type(operand, type_args) {
            Some(typ) => match alloc_type(typ, scope.repo, st.pool, st.cache) {
                Some(entry) => Some(
                    GenState { pool: entry.pool, cache: entry.cache, ..st }.emit(
                        intrinsic_instr(op, entry.index),
                    ),
                ),
                None => None,
            },
            None => None,
        },
    }
}

/// For each parameter, whether its argument is evaluated only when asked for.
pub open spec fn short_circuits(pool: PoolView, params: Seq<PoolIndex<PoolParam>>) -> Option<
    Seq<bool>,
> {
    if forall|i: int| 0 <= i < params.len() ==> pool.parameter(#[trigger] params[i]) is Some {
        Some(
            Seq::new(params.len(), |i: int| pool.parameter(params[i])->0.flags.is_short_circuit),
        )
    } else {
        None
    }
}

/// The start of a call of the function at `index`: its exit label, and how it takes its
/// arguments.
pub open spec fn open_static_call(index: PoolIndex<Function>, st: GenState) -> Option<
    (Label, Seq<bool>, GenState),
> {
    match st.new_label() {
        Some((exit, st)) => match st.pool.function(index) {
            Some(function) => match short_circuits(st.pool, function.parameters) {
                Some(flags) => Some(
                    (exit, flags, st.emit(Instr::InvokeStatic(exit, 0, index, 0))),
                ),
                None => None,
            },
            None => None,
        },
        None => None,
    }
}

/// How many arguments a call passes: those that have a parameter.
pub open spec fn passed(args: nat, params: nat) -> nat {
    if args <= params {
        args
    } else {
        params
    }
}

/// The first `n` arguments of a static call, given as finished instructions.
pub open spec fn ready_args(
    instrs: Seq<Instr<Label>>,
    flags: Seq<bool>,
    n: nat,
    st: GenState,
) -> Option<GenState>
    decreases n,
{
    if n == 0 {
        Some(st)
    } else {
        match ready_args(instrs, flags, (n - 1) as nat, st) {
            Some(st) => if flags[n - 1] {
                match st.new_label() {
                    Some((skip, st)) => Some(
                        st.emit(Instr::Skip(skip)).emit(instrs[n - 1]).emit(Instr::Target(skip)),
                    ),
                    None => None,
                }
            } else {
                Some(st.emit(instrs[n - 1]))
            },
            None => None,
        }
    }
}

/// A call of the function at `index` with finished instructions as arguments.
pub open spec fn ready_call(
    index: PoolIndex<Function>,
    instrs: Seq<Instr<Label>>,
    st: GenState,
) -> Option<GenState> {
    match open_static_call(index, st) {
        Some((exit, flags, st)) => match ready_args(
            instrs,
            flags,
            passed(instrs.len(), flags.len()),
            st,
        ) {
            Some(st) => Some(st.close_call(exit)),
            None => None,
        },
        None => None,
    }
}

/// The entries of a map from locals to types.
pub open spec fn typed_locals(types: Seq<(Local, Type)>) -> Seq<(Local, TypeView)> {
    types.map_values(|e: (Local, Type)| (e.0, e.1@))
}

/// The locals that a lambda takes, with their types.
pub open spec fn lambda_params(env: LambdaEnv) -> Seq<(Local, TypeView)> {
    typed_locals(env.params@)
}

/// The locals that a lambda keeps, with their types.
pub open spec fn lambda_captures(env: LambdaEnv) -> Seq<(Local, TypeView)> {
    env.captures@.map_values(|e: (Local, (Type, Local))| (e.0, e.1.0@))
}

/// The instructions that read what a lambda keeps, in the function around it.
pub open spec fn captured_values(
    scope: Scope,
    locals: IndicesView<PoolLocal>,
    captures: Seq<(Local, (Type, Local))>,
) -> Option<Seq<Instr<Label>>> {
    if forall|i: int|
        #![trigger captures[i]]
        0 <= i < captures.len() ==> read_local(scope, locals, captures[i].1.1) is Some {
        Some(Seq::new(captures.len(), |i: int| read_local(scope, locals, captures[i].1.1)->0))
    } else {
        None
    }
}

/// The class of a lambda: it has a field for each capture, a static method `Summon` that
/// takes the captures and makes an object, and a method `Apply` that takes the arguments
/// and runs the body. `Apply` is the same for all lambdas with as many parameters, so
/// its types say nothing.
pub open spec fn closure_outline(
    params: Seq<(Local, TypeView)>,
    captures: Seq<(Local, TypeView)>,
    id: nat,
) -> ClassOutline {
    ClassOutline {
        name: lambda_name(id),
        methods: seq![
            FunctionOutline {
                name: "Summon"@,
                flags: FunctionFlags { is_static: true, is_final: true },
                params: captures.map_values(
                    |e: (Local, TypeView)| TypedName { name: param_name(e.0), typ: e.1 },
                ),
                return_type: None,
            },
            FunctionOutline {
                name: "Apply"@,
                flags: FunctionFlags { is_static: false, is_final: false },
                params: params.map_values(
                    |e: (Local, TypeView)| TypedName { name: param_name(e.0), typ: TypeView::Top },
                ),
                return_type: Some(TypeView::Top),
            },
        ],
        fields: captures.map_values(
            |e: (Local, TypeView)| TypedName { name: field_name(e.0), typ: e.1 },
        ),
    }
}

/// `object.field = param` for the first `n` fields and parameters.
pub open spec fn field_stores(
    object: PoolIndex<PoolLocal>,
    fields: Seq<PoolIndex<PoolField>>,
    params: Seq<PoolIndex<PoolParam>>,
    n: nat,
) -> Seq<Instr<Offset>>
    decreases n,
{
    if n == 0 {
        Seq::empty()
    } else {
        field_stores(object, fields, params, (n - 1) as nat) + seq![
            Instr::Assign,
            Instr::Context(Offset { value: 0 }),
            Instr::Local(object),
            Instr::ObjectField(fields[n - 1]),
            Instr::Param(params[n - 1]),
        ]
    }
}

/// The code of `Summon`: it makes an object of the class, gives each field the parameter
/// at its place, and returns the object.
pub open spec fn summoner_code(
    object: PoolIndex<PoolLocal>,
    class: PoolIndex<PoolClass>,
    fields: Seq<PoolIndex<PoolField>>,
    params: Seq<PoolIndex<PoolParam>>,
) -> Seq<Instr<Offset>> {
    seq![Instr::Assign, Instr::Local(object), Instr::New(class)] + field_stores(
        object,
        fields,
        params,
        passed(fields.len(), params.len()),
    ) + seq![Instr::Return, Instr::Local(object)]
}

/// Gives the method `summoner` of a lambda class its return type, its only local and its
/// code.
pub open spec fn implement_summoner(
    class: PoolIndex<PoolClass>,
    summoner: PoolIndex<Function>,
    pool: PoolView,
) -> Option<PoolView> {
    match pool.definition(class.index) {
        None => None,
        Some(definition) => {
            let class_type = pool_index::<PoolType>(pool.definitions.len() as usize);
            let pool = pool.with_definition(type_definition(definition.name, PoolType::Class));
            let ref_type = pool_index::<PoolType>(pool.definitions.len() as usize);
            let pool = pool.with_definition(
                type_definition(definition.name, PoolType::Ref(class_type)),
            );
            let (pool, self_name) = pool.with_name("self"@);
            let object = pool_index::<PoolLocal>(pool.definitions.len() as usize);
            let pool = pool.with_definition(
                DefinitionView {
                    name: self_name,
                    parent: Some(summoner.index),
                    value: AnyDefinitionView::Local(
                        PoolLocal { typ: ref_type, flags: LocalFlags { is_const: false } },
                    ),
                },
            );
            match (pool.class(class), pool.function(summoner)) {
                (Some(c), Some(f)) => Some(
                    pool.with_value(
                        summoner.index,
                        AnyDefinitionView::Function(
                            FunctionView {
                                return_type: Some(ref_type),
                                code: summoner_code(object, class, c.fields, f.parameters),
                                locals: seq![object],
                                ..f
                            },
                        ),
                    ),
                ),
                _ => None,
            }
        },
    }
}

/// Gives a function its locals and its code.
pub open spec fn complete(
    index: PoolIndex<Function>,
    locals: Seq<PoolIndex<PoolLocal>>,
    code: Seq<Instr<Offset>>,
    pool: PoolView,
) -> Option<PoolView> {
    match pool.function(index) {
        Some(f) => Some(
            pool.with_value(
                index.index,
                AnyDefinitionView::Function(FunctionView { locals, code, ..f }),
            ),
        ),
        None => None,
    }
}

/// A finished function, with the pool and the types as they are then.
#[verifier::ext_equal]
pub struct Built {
    pub locals: Seq<PoolIndex<PoolLocal>>,
    pub code: Seq<Instr<Offset>>,
    pub pool: PoolView,
    pub cache: CacheView,
}

/// A function before any of its code is there.
pub open spec fn start(pool: PoolView, cache: CacheView) -> GenState {
    GenState { locals: IndicesView::none(), code: Seq::empty(), labels: 0, pool, cache }
}

/// A function before its body is there. With `yields`, it returns the value of the body.
pub open spec fn enter(yields: bool, pool: PoolView, cache: CacheView) -> GenState {
    if yields {
        start(pool, cache).emit(Instr::Return)
    } else {
        start(pool, cache)
    }
}

/// A function once its body is there: it ends in an instruction that does nothing, which
/// a label at the end of the body can stand before. It has to fit in the address range
/// of code.
pub open spec fn finish(st: GenState) -> Option<Built> {
    let code = st.emit(Instr::Nop).code;
    if fits(code) {
        Some(
            Built {
                locals: st.locals.indices,
                code: resolved(code, code.len() as int),
                pool: st.pool,
                cache: st.cache,
            },
        )
    } else {
        None
    }
}

/// The function with the given body. With `yields`, it returns the value of the body.
pub open spec fn build(
    scope: Scope,
    body: Expr,
    yields: bool,
    pool: PoolView,
    cache: CacheView,
) -> Option<Built>
    decreases body, 1nat,
{
    match translate(scope, body, None, enter(yields, pool, cache)) {
        Some(st) => finish(st),
        None => None,
    }
}

/// A lambda: its class is added to the pool, `Summon` is called with what it keeps, and
/// the body becomes the code of `Apply`.
pub open spec fn translate_lambda(scope: Scope, env: LambdaEnv, body: Expr, st: GenState) -> Option<
    GenState,
>
    decreases body, 2nat,
{
    match prepare_lambda(scope, env, st) {
        None => None,
        Some((apply, inner, st)) => match build(
            inner,
            body,
            env.ret_type@ != TypeView::Prim(Prim::Unit),
            st.pool,
            st.cache,
        ) {
            None => None,
            Some(built) => match complete(apply, built.locals, built.code, built.pool) {
                Some(pool) => Some(GenState { pool, cache: built.cache, ..st }),
                None => None,
            },
        },
    }
}

/// All of a lambda but its body: the method that the body belongs to, what is in scope
/// there, and the function around the lambda.
pub open spec fn prepare_lambda(scope: Scope, env: LambdaEnv, st: GenState) -> Option<
    (PoolIndex<Function>, Scope, GenState),
> {
    let params = lambda_params(env);
    let captures = lambda_captures(env);
    match captured_values(scope, st.locals, env.captures@) {
        None => None,
        Some(args) => match lambda_base(scope, params.len()) {
            None => None,
            Some(base) => match commit_class(
                closure_outline(params, captures, st.pool.definitions.len()),
                base,
                scope.repo,
                st.pool,
                st.cache,
            ) {
                None => None,
                Some(class) => match class.pool.class(class.index) {
                    None => None,
                    Some(c) => if c.methods.len() < 2 {
                        None
                    } else {
                        match implement_summoner(class.index, c.methods[0], class.pool) {
                            None => None,
                            Some(pool) => match ready_call(
                                c.methods[0],
                                args,
                                GenState { pool, cache: class.cache, ..st },
                            ) {
                                None => None,
                                Some(st) => match st.pool.function(c.methods[1]) {
                                    None => None,
                                    Some(apply) => Some(
                                        (
                                            c.methods[1],
                                            Scope {
                                                params: IndicesView {
                                                    entries: params,
                                                    indices: apply.parameters,
                                                },
                                                captures: IndicesView {
                                                    entries: captures,
                                                    indices: c.fields,
                                                },
                                                ..scope
                                            },
                                            st,
                                        ),
                                    ),
                                },
                            },
                        }
                    },
                },
            },
        },
    }
}

/// The class that lambdas with so many parameters are derived from.
pub open spec fn lambda_base(scope: Scope, arity: nat) -> Option<PoolIndex<PoolClass>> {
    match scope.repo.fn_type(arity) {
        Some(id) => scope.db.class_entry(id),
        None => None,
    }
}

/// The first `n` of several expressions, one after the other. A `break` in them leaves
/// for `exit`.
pub open spec fn translate_all(
    scope: Scope,
    exprs: Seq<Expr>,
    n: nat,
    exit: Option<Label>,
    st: GenState,
) -> Option<GenState>
    decreases exprs, n,
{
    if n == 0 || n > exprs.len() {
        Some(st)
    } else {
        match translate_all(scope, exprs, (n - 1) as nat, exit, st) {
            Some(st) => translate(scope, exprs[n - 1], exit, st),
            None => None,
        }
    }
}

/// The first `n` arguments of a static call. One that is evaluated only when asked for
/// can be skipped.
pub open spec fn translate_args(
    scope: Scope,
    args: Seq<Expr>,
    flags: Seq<bool>,
    n: nat,
    st: GenState,
) -> Option<GenState>
    decreases args, n,
{
    if n == 0 || n > args.len() {
        Some(st)
    } else {
        match translate_args(scope, args, flags, (n - 1) as nat, st) {
            Some(st) => if flags[n - 1] {
                match st.new_label() {
                    Some((skip, st)) => match translate(
                        scope,
                        args[n - 1],
                        None,
                        st.emit(Instr::Skip(skip)),
                    ) {
                        Some(st) => Some(st.emit(Instr::Target(skip))),
                        None => None,
                    },
                    None => None,
                }
            } else {
                translate(scope, args[n - 1], None, st)
            },
            None => None,
        }
    }
}

/// A call of the function at `index`. Arguments without a parameter are left out.
pub open spec fn translate_static_call(
    scope: Scope,
    index: PoolIndex<Function>,
    args: Seq<Expr>,
    st: GenState,
) -> Option<GenState>
    decreases args, args.len() + 1,
{
    match open_static_call(index, st) {
        Some((exit, flags, st)) => match translate_args(
            scope,
            args,
            flags,
            passed(args.len(), flags.len()),
            st,
        ) {
            Some(st) => Some(st.close_call(exit)),
            None => None,
        },
        None => None,
    }
}

/// A call of whatever method is known by `name` to the object that it is called on.
pub open spec fn translate_virtual_call(
    scope: Scope,
    name: PoolIndex<CName>,
    args: Seq<Expr>,
    st: GenState,
) -> Option<GenState>
    decreases args, args.len() + 1,
{
    match st.new_label() {
        Some((exit, st)) => match translate_all(
            scope,
            args,
            args.len(),
            None,
            st.emit(Instr::InvokeVirtual(exit, 0, name, 0)),
        ) {
            Some(st) => Some(st.close_call(exit)),
            None => None,
        },
        None => None,
    }
}

/// The code of an expression. A `break` in it leaves for `exit`.
pub open spec fn translate(scope: Scope, expr: Expr, exit: Option<Label>, st: GenState) -> Option<
    GenState,
>
    decreases expr, 0nat,
{
    match expr {
        Expr::Ident(local, _) => match read_local(scope, st.locals, local) {
            Some(instr) => Some(st.emit(instr)),
            None => None,
        },
        Expr::Constant(constant, _) => Some(translate_constant(constant, st)),
        Expr::ArrayLit(_, _, _) => None,
        Expr::InterpolatedString(_, _, _) => None,
        Expr::Declare(local, typ, init, _) => match typ {
            None => None,
            Some(typ) => match declare(scope, local, typ@, st) {
                None => None,
                Some((index, st)) => match init {
                    Some(value) => translate(
                        scope,
                        *value,
                        None,
                        st.emit(Instr::Assign).emit(Instr::Local(index)),
                    ),
                    None => Some(st),
                },
            },
        },
        Expr::DynCast(target, value, _) => match scope.db.class_entry(target.id) {
            Some(class) => translate(scope, *value, None, st.emit(Instr::DynamicCast(class, 0))),
            None => None,
        },
        Expr::Assign(left, right, _, _) => match translate(
            scope,
            *left,
            None,
            st.emit(Instr::Assign),
        ) {
            Some(st) => translate(scope, *right, None, st),
            None => None,
        },
        Expr::Call(object, callable, type_args, args, meta, _) => match callable {
            Callable::Static(id) => match scope.db.static_entry(id) {
                Some(index) => translate_static_call(scope, index, args@, st),
                None => None,
            },
            Callable::Instance(id) => match scope.db.method_entry(id) {
                None => None,
                Some(index) => match (st.pool.definition(index.index), st.pool.function(index)) {
                    (Some(definition), Some(function)) => match st.new_label() {
                        None => None,
                        Some((exit, st)) => match translate(
                            scope,
                            *object,
                            None,
                            st.emit(Instr::Context(exit)),
                        ) {
                            None => None,
                            Some(st) => match if function.flags.is_final {
                                translate_static_call(scope, index, args@, st)
                            } else {
                                translate_virtual_call(scope, definition.name, args@, st)
                            } {
                                Some(st) => Some(st.emit(Instr::Target(exit))),
                                None => None,
                            },
                        },
                    },
                    _ => None,
                },
            },
            Callable::Lambda => match st.new_label() {
                None => None,
                Some((exit, st)) => match translate(
                    scope,
                    *object,
                    None,
                    st.emit(Instr::Context(exit)),
                ) {
                    None => None,
                    Some(st) => {
                        let (pool, name) = st.pool.with_name("Apply"@);
                        match translate_virtual_call(
                            scope,
                            name,
                            args@,
                            GenState { pool, ..st },
                        ) {
                            Some(st) => Some(st.emit(Instr::Target(exit))),
                            None => None,
                        }
                    },
                },
            },
            Callable::Global(id) => match scope.db.global_entry(id) {
                Some(index) => translate_static_call(scope, index, args@, st),
                None => None,
            },
            Callable::Intrinsic(op) => match translate_intrinsic(scope, op, type_args@, st) {
                Some(st) => translate_all(scope, args@, args@.len(), None, st),
                None => None,
            },
            Callable::Cast => if meta.arg_types@.len() > 0 {
                match scope.repo.cast(meta.arg_types@[0]@, meta.ret_type@) {
                    Some(id) => match scope.db.global_entry(id) {
                        Some(index) => translate_static_call(scope, index, args@, st),
                        None => None,
                    },
                    None => None,
                }
            } else {
                None
            },
        },
        Expr::Lambda(env, body, _) => translate_lambda(scope, env, *body, st),
        Expr::Member(object, member, _) => match member {
            Member::ClassField(id) => match st.new_label() {
                None => None,
                Some((exit, st)) => match translate(
                    scope,
                    *object,
                    None,
                    st.emit(Instr::Context(exit)),
                ) {
                    None => None,
                    Some(st) => match scope.db.field_entry(id) {
                        Some(field) => Some(
                            st.emit(Instr::ObjectField(field)).emit(Instr::Target(exit)),
                        ),
                        None => None,
                    },
                },
            },
            Member::StructField(id) => match scope.db.field_entry(id) {
                Some(field) => translate(
                    scope,
                    *object,
                    None,
                    st.emit(Instr::StructField(field)),
                ),
                None => None,
            },
            Member::EnumMember(_, _) => None,
        },
        Expr::ArrayElem(array, index, elem, _) => match alloc_type(
            array_type(elem@),
            scope.repo,
            st.pool,
            st.cache,
        ) {
            None => None,
            Some(typ) => match translate(
                scope,
                *array,
                None,
                GenState { pool: typ.pool, cache: typ.cache, ..st }.emit(
                    Instr::ArrayElement(typ.index),
                ),
            ) {
                Some(st) => translate(scope, *index, None, st),
                None => None,
            },
        },
        Expr::New(typ, _, _) => match scope.db.class_entry(typ.id) {
            Some(class) => Some(st.emit(Instr::New(class))),
            None => None,
        },
        Expr::Return(Some(value), _) => translate(scope, *value, None, st.emit(Instr::Return)),
        Expr::Return(None, _) => Some(st.emit(Instr::Return).emit(Instr::Nop)),
        Expr::Block(block) => translate_all(
            scope,
            block.exprs@,
            block.exprs@.len(),
            exit,
            st,
        ),
        Expr::Switch(_, _, _, _) => None,
        Expr::If(condition, then, otherwise, _) => match st.new_label() {
            None => None,
            Some((else_label, st)) => match translate(
                scope,
                *condition,
                None,
                st.emit(Instr::JumpIfFalse(else_label)),
            ) {
                None => None,
                Some(st) => match translate_all(
                    scope,
                    then.exprs@,
                    then.exprs@.len(),
                    exit,
                    st,
                ) {
                    None => None,
                    Some(st) => match otherwise {
                        None => Some(st.emit(Instr::Target(else_label))),
                        Some(block) => match st.new_label() {
                            None => None,
                            Some((end, st)) => match translate_all(
                                scope,
                                block.exprs@,
                                block.exprs@.len(),
                                Some(end),
                                st.emit(Instr::Jump(end)).emit(Instr::Target(else_label)),
                            ) {
                                Some(st) => Some(st.emit(Instr::Target(end))),
                                None => None,
                            },
                        },
                    },
                },
            },
        },
        Expr::Conditional(condition, then, otherwise, _) => match st.new_label() {
            None => None,
            Some((false_label, st)) => match st.new_label() {
                None => None,
                Some((end, st)) => match translate(
                    scope,
                    *condition,
                    None,
                    st.emit(Instr::Conditional(false_label, end)),
                ) {
                    None => None,
                    Some(st) => match translate(scope, *then, None, st) {
                        None => None,
                        Some(st) => match translate(
                            scope,
                            *otherwise,
                            None,
                            st.emit(Instr::Target(false_label)),
                        ) {
                            Some(st) => Some(st.emit(Instr::Target(end))),
                            None => None,
                        },
                    },
                },
            },
        },
        Expr::While(condition, body, _) => match st.new_label() {
            None => None,
            Some((end, st)) => match st.new_label() {
                None => None,
                Some((again, st)) => match translate(
                    scope,
                    *condition,
                    None,
                    st.emit(Instr::Target(again)).emit(Instr::JumpIfFalse(end)),
                ) {
                    None => None,
                    Some(st) => match translate_all(
                        scope,
                        body.exprs@,
                        body.exprs@.len(),
                        Some(end),
                        st,
                    ) {
                        Some(st) => Some(st.emit(Instr::Jump(again)).emit(Instr::Target(end))),
                        None => None,
                    },
                },
            },
        },
        Expr::ForIn(_, _, _, _) => None,
        Expr::Null(_) => Some(st.emit(Instr::Null)),
        Expr::This(_) => Some(st.emit(Instr::This)),
        Expr::Super(_) => Some(st.emit(Instr::This)),
        Expr::Break(_) => match exit {
            Some(label) => Some(st.emit(Instr::Jump(label))),
            None => None,
        },
        Expr::BinOp(_, _, _, _) => None,
        Expr::UnOp(_, _, _) => None,
        Expr::Goto(_, _) => None,
    }
}

/// Only the first `n` expressions matter.
proof fn lemma_translate_first(
    scope: Scope,
    exprs: Seq<Expr>,
    more: Seq<Expr>,
    n: nat,
    exit: Option<Label>,
    st: GenState,
)
    requires
        n <= exprs.len(),
    ensures
        translate_all(scope, exprs + more, n, exit, st) == translate_all(
            scope,
            exprs,
            n,
            exit,
            st,
        ),
    decreases n,
{
    if n > 0 {
        lemma_translate_first(scope, exprs, more, (n - 1) as nat, exit, st);
        assert((exprs + more)[n - 1] == exprs[n - 1]);
    }
}

/// The first `n` expressions of the second part come after the whole first part.
proof fn lemma_translate_second(
    scope: Scope,
    first: Seq<Expr>,
    second: Seq<Expr>,
    n: nat,
    exit: Option<Label>,
    st: GenState,
)
    requires
        n <= second.len(),
    ensures
        translate_all(scope, first + second, first.len() + n, exit, st) == match translate_all(
            scope,
            first,
            first.len(),
            exit,
            st,
        ) {
            Some(mid) => translate_all(scope, second, n, exit, mid),
            None => None,
        },
    decreases n,
{
    if n == 0 {
        lemma_translate_first(scope, first, second, first.len(), exit, st);
    } else {
        lemma_translate_second(scope, first, second, (n - 1) as nat, exit, st);
        assert((first + second)[first.len() + n - 1] == second[n - 1]);
    }
}

/// The code of expressions that are split in two is the code of the first part followed
/// by that of the second. No expressions have no code.
pub proof fn law_sequence(
    scope: Scope,
    first: Seq<Expr>,
    second: Seq<Expr>,
    exit: Option<Label>,
    st: GenState,
)
    ensures
        translate_all(scope, first + second, (first + second).len(), exit, st)
            == match translate_all(scope, first, first.len(), exit, st) {
            Some(mid) => translate_all(scope, second, second.len(), exit, mid),
            None => None,
        },
        translate_all(scope, Seq::empty(), 0, exit, st) == Some(st),
{
    lemma_translate_second(scope, first, second, second.len(), exit, st);
}

/// A function that returns the value of its body is the function whose body is a `return`
/// of it.
pub proof fn law_body_returned(
    scope: Scope,
    body: Expr,
    span: Span,
    pool: PoolView,
    cache: CacheView,
)
    ensures
        build(scope, body, true, pool, cache) == build(
            scope,
            Expr::Return(Some(Box::new(body)), span),
            false,
            pool,
            cache,
        ),
{
    let whole = Expr::Return(Some(Box::new(body)), span);
    assert(translate(scope, whole, None, enter(false, pool, cache)) == translate(
        scope,
        body,
        None,
        enter(true, pool, cache),
    ));
}

/// Only the first `n` arguments matter.
proof fn lemma_translate_args_first(
    scope: Scope,
    args: Seq<Expr>,
    flags: Seq<bool>,
    p: nat,
    n: nat,
    st: GenState,
)
    requires
        n <= p <= args.len(),
    ensures
        translate_args(scope, args.take(p as int), flags, n, st) == translate_args(
            scope,
            args,
            flags,
            n,
            st,
        ),
    decreases n,
{
    if n > 0 {
        lemma_translate_args_first(scope, args, flags, p, (n - 1) as nat, st);
        assert(args.take(p as int)[n - 1] == args[n - 1]);
    }
}

/// Arguments beyond the parameters of the function that is called have no effect.
pub proof fn law_extra_args_dropped(
    scope: Scope,
    index: PoolIndex<Function>,
    args: Seq<Expr>,
    st: GenState,
)
    requires
        st.pool.function(index) matches Some(f) && f.parameters.len() <= args.len(),
    ensures
        translate_static_call(scope, index, args, st) == translate_static_call(
            scope,
            index,
            args.take((st.pool.function(index)->0).parameters.len() as int),
            st,
        ),
{
    let p = (st.pool.function(index)->0).parameters.len();
    let fewer = args.take(p as int);
    if let Some((exit, flags, s1)) = open_static_call(index, st) {
        assert(flags.len() == p);
        lemma_translate_args_first(scope, args, flags, p, p, s1);
        assert(translate_static_call(scope, index, fewer, st) == match translate_args(
            scope,
            fewer,
            flags,
            p,
            s1,
        ) {
            Some(s2) => Some(s2.close_call(exit)),
            None => None,
        });
    }
}

proof fn lemma_ready_args_first(
    instrs: Seq<Instr<Label>>,
    flags: Seq<bool>,
    p: nat,
    n: nat,
    st: GenState,
)
    requires
        n <= p <= instrs.len(),
    ensures
        ready_args(instrs.take(p as int), flags, n, st) == ready_args(instrs, flags, n, st),
    decreases n,
{
    if n > 0 {
        lemma_ready_args_first(instrs, flags, p, (n - 1) as nat, st);
        assert(instrs.take(p as int)[n - 1] == instrs[n - 1]);
    }
}

/// Finished instructions beyond the parameters of the function that is called have no
/// effect.
pub proof fn law_extra_instrs_dropped(
    index: PoolIndex<Function>,
    instrs: Seq<Instr<Label>>,
    st: GenState,
)
    requires
        st.pool.function(index) matches Some(f) && f.parameters.len() <= instrs.len(),
    ensures
        ready_call(index, instrs, st) == ready_call(
            index,
            instrs.take((st.pool.function(index)->0).parameters.len() as int),
            st,
        ),
{
    let p = (st.pool.function(index)->0).parameters.len();
    if let Some((exit, flags, s1)) = open_static_call(index, st) {
        assert(flags.len() == p);
        lemma_ready_args_first(instrs, flags, p, p, s1);
    }
}

/// An intrinsic adds one instruction and nothing else to the function. What it adds
/// depends on no type argument but the first.
pub proof fn law_intrinsic(
    scope: Scope,
    op: Intrinsic,
    type_args: Seq<Type>,
    others: Seq<Type>,
    st: GenState,
)
    ensures
        translate_intrinsic(scope, op, type_args, st) matches Some(after) ==> {
            &&& after.code.len() == st.code.len() + 1
            &&& after.code == st.code.push(after.code.last())
            &&& after.labels == st.labels
            &&& after.locals == st.locals
        },
        type_args.len() > 0 && others.len() > 0 && type_args[0]@ == others[0]@
            ==> translate_intrinsic(scope, op, type_args, st) == translate_intrinsic(
            scope,
            op,
            others,
            st,
        ),
{
}

/// The class of a lambda does not depend on the types of its parameters. Its `Apply` has a
/// parameter for each, in order, that takes anything, and gives anything back.
pub proof fn law_closure_erases_types(
    params: Seq<(Local, TypeView)>,
    others: Seq<(Local, TypeView)>,
    captures: Seq<(Local, TypeView)>,
    id: nat,
)
    requires
        entry_keys(params) == entry_keys(others),
    ensures
        closure_outline(params, captures, id) == closure_outline(others, captures, id),
        ({
            let apply = closure_outline(params, captures, id).methods[1];
            &&& apply.return_type == Some(TypeView::Top)
            &&& apply.params.len() == params.len()
            &&& forall|i: int|
                0 <= i < params.len() ==> #[trigger] apply.params[i] == (TypedName {
                    name: param_name(params[i].0),
                    typ: TypeView::Top,
                })
        }),
{
    let one = closure_outline(params, captures, id);
    let other = closure_outline(others, captures, id);
    assert(entry_keys(params).len() == params.len());
    assert(entry_keys(others).len() == others.len());
    assert forall|i: int| 0 <= i < params.len() implies params[i].0 == (
    #[trigger] others[i]).0 by {
        assert(entry_keys(params)[i] == params[i].0);
        assert(entry_keys(others)[i] == others[i].0);
    }
    assert(one.methods[1].params =~= other.methods[1].params);
    assert(one.methods =~= other.methods);
}

/// A label that is given out is none that was given out before. Giving it out places it
/// nowhere.
pub proof fn law_new_labels_distinct(first: GenState, later: GenState)
    requires
        first.new_label() matches Some((_, after)) && after.labels <= later.labels,
    ensures
        later.new_label() matches Some((label, after)) ==> {
            &&& label != (first.new_label()->0).0
            &&& (first.new_label()->0).0.index < later.labels
            &&& label.index < after.labels
            &&& after.code == later.code
        },
{
}

} // verus!
