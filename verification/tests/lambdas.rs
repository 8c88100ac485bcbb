use redscript_codegen::ast::{Block, Expr, LambdaEnv, Local, Span};
use redscript_codegen::bytecode::{Code, Instr, Offset};
use redscript_codegen::codegen::{CodeGen, LocalIndices};
use redscript_codegen::compiler::CompilationDb;
use redscript_codegen::index_map::IndexMap;
use redscript_codegen::index_vec::IndexVec;
use redscript_codegen::pool::{
    AnyDefinition, ConstantPool, Definition, Function, FunctionFlags, PoolClass, PoolIndex,
    PoolParam, PoolType,
};
use redscript_codegen::type_cache::TypeCache;
use redscript_codegen::types::{Prim, Type, TypeId, TypeRepo};
use std::collections::HashMap;

const SPAN: Span = Span { low: 0, high: 0 };

fn at<A>(index: usize) -> PoolIndex<A> {
    PoolIndex::new(index)
}

fn off(value: i16) -> Offset {
    Offset::new(value)
}

fn int32() -> Type {
    Type::Prim(Prim::Int32)
}

/// Type 50 is that of functions without parameters, type 51 that of functions with one.
/// Both stand for the class that is the only entry of the pool.
fn setting() -> (TypeRepo, CompilationDb, ConstantPool, TypeCache) {
    let repo = TypeRepo {
        class_names: HashMap::new(),
        fn_types: vec![TypeId { id: 50 }, TypeId { id: 51 }],
        globals: Vec::new(),
    };
    let mut db = CompilationDb {
        classes: HashMap::new(),
        fields: HashMap::new(),
        methods: HashMap::new(),
        statics: HashMap::new(),
        globals: HashMap::new(),
    };
    db.classes.insert(50, at(0));
    db.classes.insert(51, at(0));
    let mut pool = ConstantPool::new();
    let name = pool.add_name(&"Fn".to_string());
    pool.add_definition::<PoolClass>(Definition {
        name,
        parent: None,
        value: AnyDefinition::Class(PoolClass { base: None, methods: vec![], fields: vec![] }),
    });
    (repo, db, pool, TypeCache::new())
}

/// A lambda with one parameter that keeps parameter 0 of the function around it.
fn lambda(body: Expr, ret_type: Type) -> Expr {
    let mut captures = IndexMap::new();
    captures.insert(Local::Capture(0), (int32(), Local::Param(0)));
    let mut params = IndexMap::new();
    params.insert(Local::Param(0), int32());
    Expr::Lambda(LambdaEnv { captures, params, ret_type }, Box::new(body), SPAN)
}

fn outer_params() -> LocalIndices<PoolParam> {
    let mut params = IndexMap::new();
    params.insert(Local::Param(0), int32());
    LocalIndices::new(params, IndexVec::from_vec(&vec![at(77)]))
}

fn build(expr: Expr) -> (ConstantPool, Vec<Instr<Offset>>) {
    let (repo, db, mut pool, mut cache) = setting();
    let (locals, code) = CodeGen::build_expr(
        expr,
        outer_params(),
        LocalIndices::default(),
        &repo,
        &db,
        &mut pool,
        &mut cache,
    );
    assert!(locals.to_vec().is_empty());
    (pool, code.0)
}

fn name_of(pool: &ConstantPool, index: usize) -> String {
    let name = pool.definition(index).unwrap().name;
    pool.names().get(name).unwrap().clone()
}

#[test]
fn lambda_is_a_call_of_its_summoner() {
    let (pool, code) = build(lambda(Expr::Ident(Local::Capture(0), SPAN), int32()));
    assert_eq!(
        code,
        vec![
            Instr::InvokeStatic(off(25), 0, at(2), 0),
            Instr::Param(at(77)),
            Instr::ParamEnd,
            Instr::Nop,
        ]
    );
    assert_eq!(pool.definition_count(), 12);
    assert_eq!(name_of(&pool, 1), "Lambda$1");
    assert_eq!(
        pool.class(at(1)),
        Some(&PoolClass { base: Some(at(0)), methods: vec![at(2), at(6)], fields: vec![at(8)] })
    );
    assert_eq!(name_of(&pool, 8), "field$c0");
}

#[test]
fn summoner_stores_the_captures() {
    let (pool, _) = build(lambda(Expr::Ident(Local::Capture(0), SPAN), int32()));
    assert_eq!(name_of(&pool, 2), "Summon");
    assert_eq!(name_of(&pool, 4), "param$c0");
    assert_eq!(
        pool.function(at(2)),
        Some(&Function {
            flags: FunctionFlags { is_static: true, is_final: true },
            return_type: Some(at(10)),
            parameters: vec![at(4)],
            locals: vec![at(11)],
            code: Code(vec![
                Instr::Assign,
                Instr::Local(at(11)),
                Instr::New(at(1)),
                Instr::Assign,
                Instr::Context(off(0)),
                Instr::Local(at(11)),
                Instr::ObjectField(at(8)),
                Instr::Param(at(4)),
                Instr::Return,
                Instr::Local(at(11)),
            ]),
        })
    );
    assert_eq!(
        pool.definition(10).map(|d| &d.value),
        Some(&AnyDefinition::Type(PoolType::Ref(at(9))))
    );
    assert_eq!(
        pool.definition(9).map(|d| &d.value),
        Some(&AnyDefinition::Type(PoolType::Class))
    );
    assert_eq!(name_of(&pool, 9), "Lambda$1");
    assert_eq!(name_of(&pool, 11), "self");
}

#[test]
fn body_becomes_the_code_of_apply() {
    let (pool, _) = build(lambda(Expr::Ident(Local::Capture(0), SPAN), int32()));
    assert_eq!(name_of(&pool, 6), "Apply");
    assert_eq!(name_of(&pool, 7), "param$p0");
    assert_eq!(
        pool.function(at(6)),
        Some(&Function {
            flags: FunctionFlags { is_static: false, is_final: false },
            return_type: Some(at(5)),
            parameters: vec![at(7)],
            locals: vec![],
            code: Code(vec![Instr::Return, Instr::ObjectField(at(8)), Instr::Nop]),
        })
    );
    assert_eq!(name_of(&pool, 5), "Variant");
}

#[test]
fn body_without_a_value_is_not_returned() {
    let body = Expr::Ident(Local::Param(0), SPAN);
    let (pool, _) = build(lambda(body, Type::Prim(Prim::Unit)));
    assert_eq!(
        pool.function(at(6)).map(|f| &f.code),
        Some(&Code(vec![Instr::Param(at(7)), Instr::Nop]))
    );
}

#[test]
fn returned_body_is_that_of_a_return() {
    let body = || Expr::Ident(Local::Param(0), SPAN);
    let (yielding, _) = build(lambda(body(), int32()));
    let explicit = Expr::Return(Some(Box::new(body())), SPAN);
    let (returning, _) = build(lambda(explicit, Type::Prim(Prim::Unit)));
    assert_eq!(yielding.function(at(6)), returning.function(at(6)));
}

#[test]
fn lambda_within_a_lambda_passes_captures_on() {
    let mut captures = IndexMap::new();
    captures.insert(Local::Capture(0), (int32(), Local::Capture(0)));
    captures.insert(Local::Capture(1), (Type::Top, Local::This));
    let env = LambdaEnv { captures, params: IndexMap::new(), ret_type: Type::Prim(Prim::Unit) };
    let inner = Expr::Lambda(env, Box::new(Expr::Null(SPAN)), SPAN);
    let (pool, _) = build(lambda(inner, Type::Prim(Prim::Unit)));
    // The class of the inner one comes after all that belongs to the outer one.
    assert_eq!(name_of(&pool, 12), "Lambda$12");
    assert_eq!(
        pool.class(at(12)).map(|c| c.methods.clone()),
        Some(vec![at(13), at(16)])
    );
    assert_eq!(
        pool.function(at(6)).map(|f| &f.code),
        Some(&Code(vec![
            Instr::InvokeStatic(off(26), 0, at(13), 0),
            Instr::ObjectField(at(8)),
            Instr::This,
            Instr::ParamEnd,
            Instr::Nop,
        ]))
    );
    assert_eq!(
        pool.function(at(16)).map(|f| &f.code),
        Some(&Code(vec![Instr::Null, Instr::Nop]))
    );
}

#[test]
fn lambda_without_captures() {
    let env = LambdaEnv {
        captures: IndexMap::new(),
        params: IndexMap::new(),
        ret_type: Type::Prim(Prim::Unit),
    };
    let (pool, code) = build(Expr::Lambda(env, Box::new(Expr::Null(SPAN)), SPAN));
    assert_eq!(
        code,
        vec![Instr::InvokeStatic(off(16), 0, at(2), 0), Instr::ParamEnd, Instr::Nop]
    );
    let class = pool.class(at(1)).unwrap();
    assert!(class.fields.is_empty());
    let this = pool.function(at(2)).unwrap().locals[0];
    assert_eq!(
        pool.function(at(2)).map(|f| &f.code),
        Some(&Code(vec![
            Instr::Assign,
            Instr::Local(this),
            Instr::New(at(1)),
            Instr::Return,
            Instr::Local(this),
        ]))
    );
}

#[test]
fn captured_variable_is_read_from_its_local() {
    let (repo, db, mut pool, mut cache) = setting();
    let mut captures = IndexMap::new();
    captures.insert(Local::Capture(0), (int32(), Local::Var(3)));
    let env = LambdaEnv { captures, params: IndexMap::new(), ret_type: Type::Prim(Prim::Unit) };
    let body = Block {
        exprs: vec![
            Expr::Declare(Local::Var(3), Some(int32()), None, SPAN),
            Expr::Lambda(env, Box::new(Expr::Null(SPAN)), SPAN),
        ],
    };
    let (locals, code) = CodeGen::build_function(
        body,
        LocalIndices::default(),
        &repo,
        &db,
        &mut pool,
        &mut cache,
    );
    assert_eq!(locals.to_vec(), vec![at(2)]);
    assert_eq!(name_of(&pool, 3), "Lambda$3");
    assert_eq!(
        code.0,
        vec![
            Instr::InvokeStatic(off(25), 0, at(4), 0),
            Instr::Local(at(2)),
            Instr::ParamEnd,
            Instr::Nop,
        ]
    );
}

/// Whether what an instruction refers to is in the pool.
fn refers(pool: &ConstantPool, instr: &Instr<Offset>) -> bool {
    let value = |i: usize| pool.definition(i).map(|d| &d.value);
    match instr {
        Instr::Local(i) => matches!(value(i.index), Some(AnyDefinition::Local(_))),
        Instr::Param(i) => matches!(value(i.index), Some(AnyDefinition::Parameter(_))),
        Instr::ObjectField(i) => matches!(value(i.index), Some(AnyDefinition::Field(_))),
        Instr::InvokeStatic(_, _, i, _) => pool.function(*i).is_some(),
        Instr::New(i) => pool.class(*i).is_some(),
        _ => true,
    }
}

#[test]
fn all_code_refers_to_what_is_in_the_pool() {
    let (repo, db, mut pool, mut cache) = setting();
    let mut captures = IndexMap::new();
    captures.insert(Local::Capture(0), (int32(), Local::Var(0)));
    captures.insert(Local::Capture(1), (int32(), Local::Var(1)));
    let mut params = IndexMap::new();
    params.insert(Local::Param(0), int32());
    let read = Block {
        exprs: vec![
            Expr::Ident(Local::Capture(1), SPAN),
            Expr::Ident(Local::Param(0), SPAN),
            Expr::Declare(
                Local::Var(0),
                Some(int32()),
                Some(Box::new(Expr::Ident(Local::Capture(0), SPAN))),
                SPAN,
            ),
        ],
    };
    let env = LambdaEnv { captures, params, ret_type: Type::Prim(Prim::Unit) };
    let body = Block {
        exprs: vec![
            Expr::Declare(Local::Var(0), Some(int32()), None, SPAN),
            Expr::Declare(Local::Var(1), Some(int32()), None, SPAN),
            Expr::Lambda(env, Box::new(Expr::Block(read)), SPAN),
        ],
    };
    let none = LocalIndices::default();
    let (_, code) = CodeGen::build_function(body, none, &repo, &db, &mut pool, &mut cache);
    assert!(code.0.iter().all(|instr| refers(&pool, instr)));
    let mut functions = 0;
    for i in 0..pool.definition_count() {
        if let Some(function) = pool.function(at(i)) {
            functions += 1;
            assert!(function.code.0.iter().all(|instr| refers(&pool, instr)));
        }
        let definition = pool.definition(i).unwrap();
        assert!(pool.names().get(definition.name).is_some());
        assert!(definition.parent.map_or(true, |p| p < pool.definition_count()));
    }
    assert_eq!(functions, 2);
}

#[test]
fn apply_does_not_tell_parameter_types() {
    let apply = |typ: Type| {
        let mut params = IndexMap::new();
        params.insert(Local::Param(0), typ);
        let env = LambdaEnv {
            captures: IndexMap::new(),
            params,
            ret_type: Type::Prim(Prim::Unit),
        };
        let (pool, _) = build(Expr::Lambda(env, Box::new(Expr::Null(SPAN)), SPAN));
        let apply = pool.class(at(1)).unwrap().methods[1];
        let param = pool.function(apply).unwrap().parameters[0];
        let typ = pool.parameter(param).unwrap().typ;
        (pool.definition_count(), apply.index, param.index, name_of(&pool, typ.index))
    };
    assert_eq!(apply(int32()), apply(Type::Prim(Prim::String)));
    assert_eq!(apply(int32()).3, "Variant");
}
