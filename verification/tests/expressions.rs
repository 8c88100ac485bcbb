use redscript_codegen::ast::{
    Block, CallMeta, Callable, Constant, Expr, Literal, Local, Member, Span,
};
use redscript_codegen::bytecode::{Code, Instr, Intrinsic, Offset};
use redscript_codegen::codegen::{CodeGen, LocalIndices};
use redscript_codegen::compiler::CompilationDb;
use redscript_codegen::index_map::IndexMap;
use redscript_codegen::index_vec::IndexVec;
use redscript_codegen::pool::{
    AnyDefinition, ConstantPool, Definition, Function, FunctionFlags, LocalFlags, ParameterFlags,
    PoolIndex, PoolLocal, PoolParam, PoolType,
};
use redscript_codegen::type_cache::TypeCache;
use redscript_codegen::types::{
    FieldId, GlobalEntry, GlobalId, MethodId, Parameterized, Prim, ScopedName, Type, TypeId,
    TypeRepo, ARRAY,
};
use std::collections::HashMap;

const SPAN: Span = Span { low: 0, high: 0 };

struct World {
    repo: TypeRepo,
    db: CompilationDb,
    pool: ConstantPool,
    cache: TypeCache,
}

fn world() -> World {
    World {
        repo: TypeRepo { class_names: HashMap::new(), fn_types: Vec::new(), globals: Vec::new() },
        db: CompilationDb {
            classes: HashMap::new(),
            fields: HashMap::new(),
            methods: HashMap::new(),
            statics: HashMap::new(),
            globals: HashMap::new(),
        },
        pool: ConstantPool::new(),
        cache: TypeCache::new(),
    }
}

impl World {
    fn build(&mut self, exprs: Vec<Expr>) -> (Vec<usize>, Vec<Instr<Offset>>) {
        let (locals, code) = CodeGen::build_function(
            Block { exprs },
            LocalIndices::default(),
            &self.repo,
            &self.db,
            &mut self.pool,
            &mut self.cache,
        );
        (locals.to_vec().iter().map(|i| i.index).collect(), code.0)
    }

    fn code(&mut self, exprs: Vec<Expr>) -> Vec<Instr<Offset>> {
        self.build(exprs).1
    }

    /// A function whose parameters are evaluated only when asked for where `lazy` says so.
    fn function(&mut self, name: &str, flags: FunctionFlags, lazy: &[bool]) -> PoolIndex<Function> {
        let name = self.pool.add_name(&name.to_string());
        let typ: PoolIndex<PoolType> = PoolIndex::new(900);
        let parameters = lazy
            .iter()
            .map(|&is_short_circuit| {
                self.pool.add_definition::<PoolParam>(Definition {
                    name,
                    parent: None,
                    value: AnyDefinition::Parameter(PoolParam {
                        typ,
                        flags: ParameterFlags { is_short_circuit },
                    }),
                })
            })
            .collect();
        self.pool.add_definition(Definition {
            name,
            parent: None,
            value: AnyDefinition::Function(Function {
                flags,
                return_type: None,
                parameters,
                locals: vec![],
                code: Code(vec![]),
            }),
        })
    }
}

fn bool_(b: bool) -> Expr {
    Expr::Constant(Constant::Bool(b), SPAN)
}

fn number(i: i32) -> Expr {
    Expr::Constant(Constant::I32(i), SPAN)
}

fn null() -> Expr {
    Expr::Null(SPAN)
}

fn this() -> Expr {
    Expr::This(SPAN)
}

fn block(exprs: Vec<Expr>) -> Block {
    Block { exprs }
}

fn int32() -> Type {
    Type::Prim(Prim::Int32)
}

fn meta(arg_types: Vec<Type>, ret_type: Type) -> CallMeta {
    CallMeta { arg_types, ret_type }
}

fn call(object: Expr, callable: Callable, type_args: Vec<Type>, args: Vec<Expr>) -> Expr {
    let meta = meta(vec![], Type::Top);
    Expr::Call(Box::new(object), callable, type_args, args, meta, SPAN)
}

fn off(value: i16) -> Offset {
    Offset::new(value)
}

fn at<A>(index: usize) -> PoolIndex<A> {
    PoolIndex::new(index)
}

fn class(id: u64) -> Parameterized {
    Parameterized { id: TypeId { id }, args: vec![] }
}

#[test]
fn empty_function_is_a_nop() {
    assert_eq!(world().build(vec![]), (vec![], vec![Instr::Nop]));
}

#[test]
fn return_without_a_value() {
    let code = world().code(vec![Expr::Return(None, SPAN)]);
    assert_eq!(code, vec![Instr::Return, Instr::Nop, Instr::Nop]);
}

#[test]
fn return_with_a_value() {
    let code = world().code(vec![Expr::Return(Some(Box::new(number(7))), SPAN)]);
    assert_eq!(code, vec![Instr::Return, Instr::I32Const(7), Instr::Nop]);
}

#[test]
fn plain_constants() {
    let code = world().code(vec![
        Expr::Constant(Constant::F32(1.5f32.to_bits()), SPAN),
        Expr::Constant(Constant::F64(2.5f64.to_bits()), SPAN),
        Expr::Constant(Constant::I32(-1), SPAN),
        Expr::Constant(Constant::I64(-2), SPAN),
        Expr::Constant(Constant::U32(3), SPAN),
        Expr::Constant(Constant::U64(4), SPAN),
        bool_(true),
        bool_(false),
    ]);
    assert_eq!(
        code,
        vec![
            Instr::F32Const(1.5f32.to_bits()),
            Instr::F64Const(2.5f64.to_bits()),
            Instr::I32Const(-1),
            Instr::I64Const(-2),
            Instr::U32Const(3),
            Instr::U64Const(4),
            Instr::TrueConst,
            Instr::FalseConst,
            Instr::Nop,
        ]
    );
}

fn text(literal: Literal, text: &str) -> Expr {
    Expr::Constant(Constant::String(literal, text.to_string()), SPAN)
}

#[test]
fn text_constants_are_interned_by_kind() {
    let mut w = world();
    let code = w.code(vec![
        text(Literal::String, "a"),
        text(Literal::String, "b"),
        text(Literal::String, "a"),
        text(Literal::Name, "b"),
        text(Literal::Resource, "c"),
        text(Literal::TweakDbId, "d"),
        text(Literal::TweakDbId, "e"),
    ]);
    assert_eq!(
        code,
        vec![
            Instr::StringConst(at(0)),
            Instr::StringConst(at(1)),
            Instr::StringConst(at(0)),
            Instr::NameConst(at(0)),
            Instr::ResourceConst(at(0)),
            Instr::TweakDbIdConst(at(0)),
            Instr::TweakDbIdConst(at(1)),
            Instr::Nop,
        ]
    );
    assert_eq!(w.pool.strings().get(at(1)), Some(&"b".to_string()));
    assert_eq!(w.pool.strings().get(at(2)), None);
    assert_eq!(w.pool.names().get(at(0)), Some(&"b".to_string()));
    assert_eq!(w.pool.resources().get(at(0)), Some(&"c".to_string()));
    assert_eq!(w.pool.tweakdb_ids().get(at(1)), Some(&"e".to_string()));
}

#[test]
fn null_this_and_super() {
    let own = Expr::Ident(Local::This, SPAN);
    let code = world().code(vec![null(), this(), Expr::Super(SPAN), own]);
    assert_eq!(code, vec![Instr::Null, Instr::This, Instr::This, Instr::This, Instr::Nop]);
}

#[test]
fn new_and_dynamic_cast() {
    let mut w = world();
    w.db.classes.insert(40, at(3));
    let code = w.code(vec![
        Expr::New(class(40), vec![number(1)], SPAN),
        Expr::DynCast(class(40), Box::new(null()), SPAN),
    ]);
    assert_eq!(
        code,
        vec![Instr::New(at(3)), Instr::DynamicCast(at(3), 0), Instr::Null, Instr::Nop]
    );
}

#[test]
fn assignment_is_in_prefix_order() {
    let code = world().code(vec![Expr::Assign(
        Box::new(this()),
        Box::new(null()),
        Type::Top,
        SPAN,
    )]);
    assert_eq!(code, vec![Instr::Assign, Instr::This, Instr::Null, Instr::Nop]);
}

#[test]
fn members_of_classes_and_structs() {
    let mut w = world();
    w.db.fields.insert(5, at(11));
    w.db.fields.insert(6, at(12));
    let code = w.code(vec![
        Expr::Member(Box::new(this()), Member::ClassField(FieldId { id: 5 }), SPAN),
        Expr::Member(Box::new(this()), Member::StructField(FieldId { id: 6 }), SPAN),
    ]);
    assert_eq!(
        code,
        vec![
            Instr::Context(off(13)),
            Instr::This,
            Instr::ObjectField(at(11)),
            Instr::StructField(at(12)),
            Instr::This,
            Instr::Nop,
        ]
    );
}

#[test]
fn array_element() {
    let mut w = world();
    let elem = Expr::ArrayElem(Box::new(this()), Box::new(number(2)), int32(), SPAN);
    let code = w.code(vec![elem]);
    // The element type comes first in the pool, then the array type.
    assert_eq!(
        code,
        vec![Instr::ArrayElement(at(1)), Instr::This, Instr::I32Const(2), Instr::Nop]
    );
    assert_eq!(
        w.pool.definition(1).map(|d| &d.value),
        Some(&AnyDefinition::Type(PoolType::Array(at(0))))
    );
    let name = w.pool.definition(1).unwrap().name;
    assert_eq!(w.pool.names().get(name), Some(&"array:Int32".to_string()));
}

#[test]
fn if_without_else() {
    let code = world().code(vec![Expr::If(Box::new(bool_(true)), block(vec![null()]), None, SPAN)]);
    assert_eq!(
        code,
        vec![Instr::JumpIfFalse(off(5)), Instr::TrueConst, Instr::Null, Instr::Nop]
    );
}

#[test]
fn if_with_else() {
    let code = world().code(vec![Expr::If(
        Box::new(bool_(true)),
        block(vec![null()]),
        Some(block(vec![this()])),
        SPAN,
    )]);
    assert_eq!(
        code,
        vec![
            Instr::JumpIfFalse(off(8)),
            Instr::TrueConst,
            Instr::Null,
            Instr::Jump(off(4)),
            Instr::This,
            Instr::Nop,
        ]
    );
}

#[test]
fn break_in_else_leaves_the_conditional() {
    let code = world().code(vec![Expr::If(
        Box::new(bool_(true)),
        block(vec![]),
        Some(block(vec![Expr::Break(SPAN)])),
        SPAN,
    )]);
    assert_eq!(
        code,
        vec![
            Instr::JumpIfFalse(off(7)),
            Instr::TrueConst,
            Instr::Jump(off(6)),
            Instr::Jump(off(3)),
            Instr::Nop,
        ]
    );
}

#[test]
fn while_loop_with_break() {
    let code = world().code(vec![Expr::While(
        Box::new(bool_(true)),
        block(vec![null(), Expr::Break(SPAN)]),
        SPAN,
    )]);
    assert_eq!(
        code,
        vec![
            Instr::JumpIfFalse(off(11)),
            Instr::TrueConst,
            Instr::Null,
            Instr::Jump(off(6)),
            Instr::Jump(off(-8)),
            Instr::Nop,
        ]
    );
}

#[test]
fn break_within_branches_of_a_loop() {
    let branches = Expr::If(
        Box::new(bool_(false)),
        block(vec![Expr::Break(SPAN)]),
        Some(block(vec![Expr::Break(SPAN)])),
        SPAN,
    );
    let code = world().code(vec![Expr::While(Box::new(bool_(true)), block(vec![branches]), SPAN)]);
    // The first leaves the loop, the second only the conditional.
    assert_eq!(
        code,
        vec![
            Instr::JumpIfFalse(off(20)),
            Instr::TrueConst,
            Instr::JumpIfFalse(off(10)),
            Instr::FalseConst,
            Instr::Jump(off(12)),
            Instr::Jump(off(6)),
            Instr::Jump(off(3)),
            Instr::Jump(off(-17)),
            Instr::Nop,
        ]
    );
}

#[test]
fn conditional_expression() {
    let code = world().code(vec![Expr::Conditional(
        Box::new(bool_(true)),
        Box::new(number(1)),
        Box::new(number(2)),
        SPAN,
    )]);
    assert_eq!(
        code,
        vec![
            Instr::Conditional(off(11), off(16)),
            Instr::TrueConst,
            Instr::I32Const(1),
            Instr::I32Const(2),
            Instr::Nop,
        ]
    );
}

/// Where each instruction starts.
fn starts(code: &[Instr<Offset>]) -> Vec<i32> {
    let mut position = 0;
    let mut starts = vec![];
    for instr in code {
        starts.push(position);
        position += instr.size() as i32;
    }
    starts
}

fn targets(instr: &Instr<Offset>) -> Vec<i16> {
    match instr {
        Instr::Jump(l) | Instr::JumpIfFalse(l) | Instr::Skip(l) | Instr::Context(l) => {
            vec![l.value]
        }
        Instr::InvokeStatic(l, _, _, _) | Instr::InvokeVirtual(l, _, _, _) => vec![l.value],
        Instr::Conditional(l, m) => vec![l.value, m.value],
        _ => vec![],
    }
}

#[test]
fn jumps_lead_to_instructions_and_calls_nest() {
    let mut w = world();
    let index = w.function("f", FunctionFlags::new(), &[true, false]);
    w.db.globals.insert(1, index);
    let f = Callable::Global(GlobalId { id: 1 });
    let inner = call(null(), f, vec![], vec![number(1), number(2)]);
    let outer = call(null(), f, vec![], vec![inner, bool_(true)]);
    let condition = Expr::Conditional(
        Box::new(outer),
        Box::new(bool_(true)),
        Box::new(bool_(false)),
        SPAN,
    );
    let branch = Expr::If(
        Box::new(bool_(false)),
        block(vec![Expr::Break(SPAN)]),
        Some(block(vec![null()])),
        SPAN,
    );
    let code = w.code(vec![Expr::While(Box::new(condition), block(vec![branch]), SPAN)]);
    let starts = starts(&code);
    let mut open = 0;
    for (instr, start) in code.iter().zip(&starts) {
        assert!(!matches!(instr, Instr::Target(_)));
        for target in targets(instr) {
            assert!(starts.contains(&(start + target as i32)));
        }
        match instr {
            Instr::InvokeStatic(_, _, _, _) | Instr::InvokeVirtual(_, _, _, _) => open += 1,
            Instr::ParamEnd => open -= 1,
            _ => {}
        }
        assert!(open >= 0);
    }
    assert_eq!(open, 0);
    assert_eq!(code.last(), Some(&Instr::Nop));
}

#[test]
fn static_call_skips_lazy_arguments_and_drops_extra_ones() {
    let mut w = world();
    let index = w.function("f", FunctionFlags::new(), &[false, true]);
    w.db.statics.insert(9, index);
    let args = vec![bool_(true), bool_(false), null()];
    let code = w.code(vec![call(null(), Callable::Static(MethodId { id: 9 }), vec![], args)]);
    assert_eq!(
        code,
        vec![
            Instr::InvokeStatic(off(21), 0, index, 0),
            Instr::TrueConst,
            Instr::Skip(off(4)),
            Instr::FalseConst,
            Instr::ParamEnd,
            Instr::Nop,
        ]
    );
}

#[test]
fn static_call_with_missing_arguments() {
    let mut w = world();
    let index = w.function("f", FunctionFlags::new(), &[false, true]);
    w.db.globals.insert(9, index);
    let callable = Callable::Global(GlobalId { id: 9 });
    let code = w.code(vec![call(null(), callable, vec![], vec![null()])]);
    assert_eq!(
        code,
        vec![
            Instr::InvokeStatic(off(17), 0, index, 0),
            Instr::Null,
            Instr::ParamEnd,
            Instr::Nop,
        ]
    );
}

#[test]
fn call_of_a_final_method_is_static() {
    let mut w = world();
    let index = w.function("m", FunctionFlags::new().with_is_final(true), &[]);
    w.db.methods.insert(2, index);
    let callable = Callable::Instance(MethodId { id: 2 });
    let code = w.code(vec![call(this(), callable, vec![], vec![])]);
    assert_eq!(
        code,
        vec![
            Instr::Context(off(20)),
            Instr::This,
            Instr::InvokeStatic(off(16), 0, index, 0),
            Instr::ParamEnd,
            Instr::Nop,
        ]
    );
}

#[test]
fn call_of_another_method_is_virtual() {
    let mut w = world();
    w.pool.add_name(&"before".to_string());
    let index = w.function("m", FunctionFlags::new(), &[true]);
    w.db.methods.insert(2, index);
    let callable = Callable::Instance(MethodId { id: 2 });
    // A virtual call evaluates all of its arguments at once.
    let code = w.code(vec![call(this(), callable, vec![], vec![null(), number(3)])]);
    assert_eq!(
        code,
        vec![
            Instr::Context(off(26)),
            Instr::This,
            Instr::InvokeVirtual(off(22), 0, at(1), 0),
            Instr::Null,
            Instr::I32Const(3),
            Instr::ParamEnd,
            Instr::Nop,
        ]
    );
}

#[test]
fn call_of_a_lambda_is_virtual() {
    let mut w = world();
    w.pool.add_name(&"before".to_string());
    let code = w.code(vec![call(null(), Callable::Lambda, vec![], vec![number(1)])]);
    assert_eq!(
        code,
        vec![
            Instr::Context(off(25)),
            Instr::Null,
            Instr::InvokeVirtual(off(21), 0, at(1), 0),
            Instr::I32Const(1),
            Instr::ParamEnd,
            Instr::Nop,
        ]
    );
    assert_eq!(w.pool.names().get(at(1)), Some(&"Apply".to_string()));
}

fn cast_entry(
    scope: Option<TypeId>,
    name: &str,
    index: u64,
    params: Vec<Type>,
    ret: Type,
) -> GlobalEntry {
    GlobalEntry { name: ScopedName { scope, name: name.to_string() }, index, params, ret }
}

#[test]
fn cast_calls_the_first_function_with_matching_types() {
    let mut w = world();
    let double = || Type::Prim(Prim::Double);
    w.repo.globals.push(cast_entry(None, "Other", 0, vec![int32()], double()));
    w.repo.globals.push(cast_entry(Some(TypeId { id: 8 }), "Cast", 1, vec![int32()], double()));
    w.repo.globals.push(cast_entry(None, "Cast", 2, vec![], double()));
    w.repo.globals.push(cast_entry(None, "Cast", 3, vec![double()], double()));
    w.repo.globals.push(cast_entry(None, "Cast", 4, vec![int32()], int32()));
    w.repo.globals.push(cast_entry(None, "Cast", 5, vec![int32()], double()));
    w.repo.globals.push(cast_entry(None, "Cast", 6, vec![int32()], double()));
    let index = w.function("Cast", FunctionFlags::new(), &[false]);
    w.db.globals.insert(5, index);
    let meta = meta(vec![int32()], double());
    let cast = Expr::Call(Box::new(null()), Callable::Cast, vec![], vec![number(1)], meta, SPAN);
    let code = w.code(vec![cast]);
    assert_eq!(
        code,
        vec![
            Instr::InvokeStatic(off(21), 0, index, 0),
            Instr::I32Const(1),
            Instr::ParamEnd,
            Instr::Nop,
        ]
    );
    assert_eq!(w.repo.find_cast(&double(), &int32()), None);
}

#[test]
fn intrinsics_name_the_type_that_they_work_on() {
    // The value type comes first in the pool, then the array type.
    let cases: Vec<(Intrinsic, Instr<Offset>)> = vec![
        (Intrinsic::Equals, Instr::Equals(at(0))),
        (Intrinsic::NotEquals, Instr::NotEquals(at(0))),
        (Intrinsic::ArrayClear, Instr::ArrayClear(at(1))),
        (Intrinsic::ArraySize, Instr::ArraySize(at(1))),
        (Intrinsic::ArrayResize, Instr::ArrayResize(at(1))),
        (Intrinsic::ArrayFindFirst, Instr::ArrayFindFirst(at(1))),
        (Intrinsic::ArrayFindLast, Instr::ArrayFindLast(at(1))),
        (Intrinsic::ArrayContains, Instr::ArrayContains(at(1))),
        (Intrinsic::ArrayCount, Instr::ArrayCount(at(1))),
        (Intrinsic::ArrayPush, Instr::ArrayPush(at(1))),
        (Intrinsic::ArrayPop, Instr::ArrayPop(at(1))),
        (Intrinsic::ArrayInsert, Instr::ArrayInsert(at(1))),
        (Intrinsic::ArrayRemove, Instr::ArrayRemove(at(1))),
        (Intrinsic::ArrayGrow, Instr::ArrayGrow(at(1))),
        (Intrinsic::ArrayErase, Instr::ArrayErase(at(1))),
        (Intrinsic::ArrayLast, Instr::ArrayLast(at(1))),
        (Intrinsic::ToString, Instr::ToString(at(0))),
        (Intrinsic::EnumInt, Instr::EnumToI32(at(0), 4)),
        (Intrinsic::IntEnum, Instr::I32ToEnum(at(0), 4)),
        (Intrinsic::ToVariant, Instr::ToVariant(at(0))),
        (Intrinsic::FromVariant, Instr::FromVariant(at(0))),
        (Intrinsic::VariantIsRef, Instr::VariantIsRef),
        (Intrinsic::VariantIsArray, Instr::VariantIsArray),
        (Intrinsic::VariantTypeName, Instr::VariantTypeName),
        (Intrinsic::AsRef, Instr::AsRef(at(0))),
        (Intrinsic::Deref, Instr::Deref(at(0))),
        (Intrinsic::RefToWeakRef, Instr::RefToWeakRef),
        (Intrinsic::WeakRefToRef, Instr::WeakRefToRef),
        (Intrinsic::IsDefined, Instr::RefToBool),
    ];
    for (op, instr) in cases {
        let code = world().code(vec![call(
            null(),
            Callable::Intrinsic(op),
            vec![int32()],
            vec![null(), this()],
        )]);
        assert_eq!(code, vec![instr, Instr::Null, Instr::This, Instr::Nop]);
    }
}

#[test]
fn intrinsics_without_an_operand_type_need_no_type_argument() {
    let callable = Callable::Intrinsic(Intrinsic::IsDefined);
    let code = world().code(vec![call(null(), callable, vec![], vec![this()])]);
    assert_eq!(code, vec![Instr::RefToBool, Instr::This, Instr::Nop]);
}

fn declare(i: u16, init: Option<Expr>) -> Expr {
    Expr::Declare(Local::Var(i), Some(int32()), init.map(Box::new), SPAN)
}

#[test]
fn declarations_add_locals() {
    let mut w = world();
    let (locals, code) = w.build(vec![
        declare(0, Some(number(5))),
        declare(1, None),
        Expr::Ident(Local::Var(1), SPAN),
        Expr::Ident(Local::Var(0), SPAN),
    ]);
    assert_eq!(locals, vec![1, 2]);
    assert_eq!(
        code,
        vec![
            Instr::Assign,
            Instr::Local(at(1)),
            Instr::I32Const(5),
            Instr::Local(at(2)),
            Instr::Local(at(1)),
            Instr::Nop,
        ]
    );
    let local = PoolLocal::new(at(0), LocalFlags::new());
    assert_eq!(
        w.pool.definition(1).map(|d| &d.value),
        Some(&AnyDefinition::Local(local))
    );
    let name = w.pool.definition(1).unwrap().name;
    assert_eq!(w.pool.names().get(name), Some(&"local$v0".to_string()));
}

#[test]
fn a_local_can_be_read_in_its_own_initialiser() {
    let init = Expr::Ident(Local::Var(0), SPAN);
    let (_, code) = world().build(vec![declare(0, Some(init))]);
    assert_eq!(
        code,
        vec![Instr::Assign, Instr::Local(at(1)), Instr::Local(at(1)), Instr::Nop]
    );
}

#[test]
fn a_local_that_is_declared_again_keeps_its_entry() {
    let (locals, code) = world().build(vec![
        declare(0, None),
        declare(0, Some(number(1))),
        Expr::Ident(Local::Var(0), SPAN),
    ]);
    assert_eq!(locals, vec![1, 2]);
    assert_eq!(
        code,
        vec![
            Instr::Assign,
            Instr::Local(at(2)),
            Instr::I32Const(1),
            Instr::Local(at(1)),
            Instr::Nop,
        ]
    );
}

#[test]
fn more_locals_than_fit_inline() {
    let mut exprs: Vec<Expr> = (0..20).map(|i| declare(i, None)).collect();
    exprs.push(Expr::Ident(Local::Var(19), SPAN));
    exprs.push(Expr::Ident(Local::Var(7), SPAN));
    let (locals, code) = world().build(exprs);
    assert_eq!(locals, (1..21).collect::<Vec<usize>>());
    assert_eq!(code, vec![Instr::Local(at(20)), Instr::Local(at(8)), Instr::Nop]);
}

#[test]
fn parameters_and_captures_are_read_from_their_entries() {
    let mut w = world();
    let mut params = IndexMap::new();
    params.insert(Local::Param(0), int32());
    params.insert(Local::Param(1), Type::Top);
    let mut captures = IndexMap::new();
    captures.insert(Local::Capture(4), int32());
    let read = Expr::Block(block(vec![
        Expr::Ident(Local::Param(1), SPAN),
        Expr::Ident(Local::Param(0), SPAN),
        Expr::Ident(Local::Capture(4), SPAN),
    ]));
    let (locals, code) = CodeGen::build_expr(
        read,
        LocalIndices::new(params, IndexVec::from_vec(&vec![at(30), at(31)])),
        LocalIndices::new(captures, IndexVec::from_vec(&vec![at(32)])),
        &w.repo,
        &w.db,
        &mut w.pool,
        &mut w.cache,
    );
    assert!(locals.to_vec().is_empty());
    assert_eq!(
        code.0,
        vec![
            Instr::Param(at(31)),
            Instr::Param(at(30)),
            Instr::ObjectField(at(32)),
            Instr::Nop,
        ]
    );
}

#[test]
fn code_of_a_sequence_is_the_code_of_its_parts() {
    let exprs = || {
        vec![
            text(Literal::Name, "a"),
            Expr::While(Box::new(bool_(true)), block(vec![Expr::Break(SPAN)]), SPAN),
        ]
    };
    let mut w = world();
    let mut parts = w.code(exprs());
    assert_eq!(parts.pop(), Some(Instr::Nop));
    let mut twice = exprs();
    twice.extend(exprs());
    let mut expected = parts.clone();
    expected.extend(parts);
    expected.push(Instr::Nop);
    assert_eq!(w.code(twice), expected);
}

#[test]
fn generated_code_only_adds_to_the_pool() {
    let mut w = world();
    w.code(vec![declare(0, None), text(Literal::Name, "n")]);
    let before = w.pool.definition_count();
    let first = w.pool.definition(0).map(|d| d.name);
    w.code(vec![declare(0, None), text(Literal::Name, "n")]);
    // The type is known already; the local is a new one.
    assert_eq!(w.pool.definition_count(), before + 1);
    assert_eq!(w.pool.definition(0).map(|d| d.name), first);
    let array = Type::Data(Parameterized { id: TypeId { id: ARRAY }, args: vec![int32()] });
    let once = w.cache.alloc_type(&array, &w.repo, &mut w.pool);
    let count = w.pool.definition_count();
    assert_eq!(w.cache.alloc_type(&array, &w.repo, &mut w.pool), once);
    assert_eq!(w.pool.definition_count(), count);
}

#[test]
fn only_a_while_jumps_back() {
    let branch = || {
        Expr::If(
            Box::new(Expr::Conditional(
                Box::new(bool_(true)),
                Box::new(bool_(false)),
                Box::new(bool_(true)),
                SPAN,
            )),
            block(vec![call(this(), Callable::Lambda, vec![], vec![number(1)])]),
            Some(block(vec![Expr::Break(SPAN)])),
            SPAN,
        )
    };
    let straight = world().code(vec![branch(), branch()]);
    assert!(straight.iter().flat_map(targets).all(|target| target > 0));
    let round = world().code(vec![Expr::While(Box::new(bool_(true)), block(vec![branch()]), SPAN)]);
    let back: Vec<&Instr<Offset>> =
        round.iter().filter(|instr| targets(instr).iter().any(|target| *target <= 0)).collect();
    assert_eq!(back.len(), 1);
    assert!(matches!(back[0], Instr::Jump(_)));
}

#[test]
fn extra_arguments_have_no_effect() {
    let code = |args: Vec<Expr>| {
        let mut w = world();
        let index = w.function("f", FunctionFlags::new(), &[true, false]);
        w.db.statics.insert(9, index);
        let callable = Callable::Static(MethodId { id: 9 });
        let code = w.code(vec![call(null(), callable, vec![], args)]);
        (code, w.pool.names().get(at(1)).cloned())
    };
    let few = code(vec![number(1), number(2)]);
    // Not even the text of an argument that is left out is interned.
    let many = code(vec![number(1), number(2), text(Literal::Name, "extra"), number(4)]);
    assert_eq!(few, many);
    assert_eq!(many.1, None);
}

#[test]
fn intrinsics_ignore_further_type_arguments() {
    let code = |type_args: Vec<Type>| {
        let mut w = world();
        let callable = Callable::Intrinsic(Intrinsic::ArraySize);
        let code = w.code(vec![call(null(), callable, type_args, vec![])]);
        (code, w.pool.definition_count())
    };
    assert_eq!(code(vec![int32()]), code(vec![int32(), Type::Top, Type::Prim(Prim::Bool)]));
    assert_eq!(code(vec![int32()]), (vec![Instr::ArraySize(at(1)), Instr::Nop], 2));
}
