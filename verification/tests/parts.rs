use redscript_codegen::ast::Local;
use redscript_codegen::builders::{
    ClassBuilder, FieldBuilder, FunctionBuilder, LocalBuilder, ParamBuilder,
};
use redscript_codegen::bytecode::{resolve_code, Code, Instr, Label, Location, Offset};
use redscript_codegen::index_map::IndexMap;
use redscript_codegen::index_vec::IndexVec;
use redscript_codegen::names;
use redscript_codegen::pool::{
    AnyDefinition, ConstantPool, Definition, Function, FunctionFlags, Names, PoolClass, PoolError,
    PoolIndex, PoolLocal, PoolType,
};
use redscript_codegen::type_cache::TypeCache;
use redscript_codegen::types::{
    Parameterized, Prim, Type, TypeId, TypeRepo, ARRAY, REF, SCRIPT_REF, WEAK_REF,
};
use std::collections::HashMap;

fn at<A>(index: usize) -> PoolIndex<A> {
    PoolIndex::new(index)
}

fn repo() -> TypeRepo {
    let mut class_names = HashMap::new();
    class_names.insert(60, "Vehicle".to_string());
    TypeRepo { class_names, fn_types: Vec::new(), globals: Vec::new() }
}

fn applied(id: u64, arg: Type) -> Type {
    Type::Data(Parameterized { id: TypeId { id }, args: vec![arg] })
}

fn vehicle() -> Type {
    Type::Data(Parameterized { id: TypeId { id: 60 }, args: vec![] })
}

fn name_of(pool: &ConstantPool, index: usize) -> String {
    let name = pool.definition(index).unwrap().name;
    pool.names().get(name).unwrap().clone()
}

#[test]
fn names_of_locals() {
    assert_eq!(names::local(Local::Var(0)), "local$v0");
    assert_eq!(names::local(Local::Var(1207)), "local$v1207");
    assert_eq!(names::param(Local::Param(65535)), "param$p65535");
    assert_eq!(names::field(Local::Capture(10)), "field$c10");
    assert_eq!(names::field(Local::This), "field$this");
    assert_eq!(names::lambda(90), "Lambda$90");
}

#[test]
fn names_tell_locals_and_lambdas_apart() {
    let locals = [Local::Var(1), Local::Var(10), Local::Param(1), Local::Capture(1), Local::This];
    for (i, a) in locals.iter().enumerate() {
        for (j, b) in locals.iter().enumerate() {
            assert_eq!(names::local(*a) == names::local(*b), i == j);
            assert_eq!(names::param(*a) == names::param(*b), i == j);
            assert_eq!(names::field(*a) == names::field(*b), i == j);
        }
    }
    assert_ne!(names::lambda(1), names::lambda(11));
}

#[test]
fn interned_text_stands_once() {
    let mut table: Names<PoolType> = Names::new();
    assert_eq!(table.add(&"x".to_string()), at(0));
    assert_eq!(table.add(&"y".to_string()), at(1));
    assert_eq!(table.add(&"x".to_string()), at(0));
    assert_eq!(table.get(at(0)), Some(&"x".to_string()));
    assert_eq!(table.get(at(1)), Some(&"y".to_string()));
    assert_eq!(table.get(at(2)), None);
}

#[test]
fn types_are_defined_after_what_they_are_made_of() {
    let mut pool = ConstantPool::new();
    let mut cache = TypeCache::new();
    let repo = repo();
    let typ = applied(ARRAY, applied(WEAK_REF, vehicle()));
    assert_eq!(cache.alloc_type(&typ, &repo, &mut pool), at(2));
    assert_eq!(cache.alloc_type(&vehicle(), &repo, &mut pool), at(0));
    assert_eq!(cache.alloc_type(&applied(REF, vehicle()), &repo, &mut pool), at(3));
    assert_eq!(cache.alloc_type(&applied(SCRIPT_REF, vehicle()), &repo, &mut pool), at(4));
    assert_eq!(cache.alloc_type(&Type::Top, &repo, &mut pool), at(5));
    assert_eq!(cache.alloc_type(&Type::Bottom, &repo, &mut pool), at(5));
    assert_eq!(cache.alloc_type(&Type::Prim(Prim::Variant), &repo, &mut pool), at(5));
    assert_eq!(pool.definition_count(), 6);
    let defined: Vec<String> = (0..6).map(|i| name_of(&pool, i)).collect();
    assert_eq!(
        defined,
        vec![
            "Vehicle",
            "wref:Vehicle",
            "array:wref:Vehicle",
            "ref:Vehicle",
            "script_ref:Vehicle",
            "Variant",
        ]
    );
    let values: Vec<&AnyDefinition> =
        (0..6).map(|i| &pool.definition(i).unwrap().value).collect();
    assert_eq!(
        values,
        vec![
            &AnyDefinition::Type(PoolType::Class),
            &AnyDefinition::Type(PoolType::WeakRef(at(0))),
            &AnyDefinition::Type(PoolType::Array(at(1))),
            &AnyDefinition::Type(PoolType::Ref(at(0))),
            &AnyDefinition::Type(PoolType::ScriptRef(at(0))),
            &AnyDefinition::Type(PoolType::Prim),
        ]
    );
}

#[test]
fn same_types_are_found_by_structure() {
    let deep = || applied(ARRAY, applied(REF, vehicle()));
    assert!(deep().same(&deep()));
    assert!(deep().same(&deep().duplicate()));
    assert!(!deep().same(&applied(ARRAY, vehicle())));
    assert!(!Type::Top.same(&Type::Bottom));
    assert!(Type::array(&vehicle()).same(&applied(ARRAY, vehicle())));
    assert!(Type::Prim(Prim::Unit).is_unit());
    assert!(!Type::Top.is_unit());
}

#[test]
fn index_lists_keep_their_order() {
    let mut list: IndexVec<PoolLocal> = IndexVec::new();
    assert_eq!(list.get(0), None);
    for i in 0..12 {
        list.push(at(100 + i));
    }
    assert_eq!(list.get(0), Some(at(100)));
    assert_eq!(list.get(11), Some(at(111)));
    assert_eq!(list.get(12), None);
    let copy = IndexVec::from_vec(&list.to_vec());
    assert_eq!(copy.to_vec(), (100..112).map(at).collect::<Vec<PoolIndex<PoolLocal>>>());
    assert!(IndexVec::<PoolLocal>::default().to_vec().is_empty());
}

#[test]
fn index_maps_keep_the_place_of_a_key() {
    let mut map = IndexMap::new();
    map.insert(Local::Var(2), 20);
    map.insert(Local::Var(1), 10);
    map.insert(Local::Var(2), 21);
    assert_eq!(map.len(), 2);
    assert_eq!(map.get_index_of(Local::Var(2)), Some(0));
    assert_eq!(map.get_index_of(Local::Var(1)), Some(1));
    assert_eq!(map.get_index_of(Local::This), None);
    assert_eq!(map.get_index(0), Some((Local::Var(2), &21)));
    assert_eq!(map.get_index(2), None);
}

#[test]
fn completing_what_is_no_function_fails() {
    let mut pool = ConstantPool::new();
    let name = pool.add_name(&"T".to_string());
    pool.add_definition::<PoolType>(Definition::type_(name, PoolType::Class));
    let r = pool.complete_function(at(0), vec![], Code(vec![]));
    assert_eq!(r, Err(PoolError::FunctionNotFound(0)));
    let r = pool.complete_function(at(1), vec![], Code(vec![]));
    assert_eq!(r, Err(PoolError::FunctionNotFound(1)));
    let index: PoolIndex<Function> = pool.add_definition(Definition {
        name,
        parent: None,
        value: AnyDefinition::Function(Function {
            flags: FunctionFlags::new(),
            return_type: None,
            parameters: vec![at(0)],
            locals: vec![],
            code: Code(vec![]),
        }),
    });
    assert_eq!(pool.complete_function(index, vec![at(9)], Code(vec![Instr::Nop])), Ok(()));
    let function = pool.function(index).unwrap();
    assert_eq!(function.locals, vec![at(9)]);
    assert_eq!(function.parameters, vec![at(0)]);
    assert_eq!(function.code, Code(vec![Instr::Nop]));
}

#[test]
fn builders_commit_a_class_with_its_parts() {
    let mut pool = ConstantPool::new();
    let mut cache = TypeCache::new();
    let repo = repo();
    let int32 = || Type::Prim(Prim::Int32);
    let local = LocalBuilder { name: "l".to_string(), typ: int32() };
    assert_eq!(local.commit(&repo, &mut pool, &mut cache), at(1));
    let class = ClassBuilder {
        name: "C".to_string(),
        methods: vec![FunctionBuilder {
            name: "m".to_string(),
            flags: FunctionFlags::new().with_is_final(true),
            params: vec![ParamBuilder { name: "p".to_string(), typ: int32() }],
            return_type: Some(vehicle()),
        }],
        fields: vec![FieldBuilder { name: "f".to_string(), typ: int32() }],
    };
    let index = class.commit_with_base(at(40), &repo, &mut pool, &mut cache);
    assert_eq!(index, at(2));
    assert_eq!(
        pool.class(index),
        Some(&PoolClass { base: Some(at(40)), methods: vec![at(4)], fields: vec![at(6)] })
    );
    assert_eq!(
        pool.function(at(4)),
        Some(&Function {
            flags: FunctionFlags { is_static: false, is_final: true },
            return_type: Some(at(3)),
            parameters: vec![at(5)],
            locals: vec![],
            code: Code(vec![]),
        })
    );
    let parents: Vec<Option<usize>> =
        (0..7).map(|i| pool.definition(i).unwrap().parent).collect();
    assert_eq!(parents, vec![None, None, None, None, Some(2), Some(4), Some(2)]);
}

#[test]
fn layout_turns_labels_into_distances() {
    let back = Label { index: 0 };
    let ahead = Label { index: 1 };
    let code = vec![
        Instr::Nop,
        Instr::Target(back),
        Instr::I64Const(1),
        Instr::Conditional(back, ahead),
        Instr::Target(ahead),
        Instr::Jump(ahead),
    ];
    assert_eq!(
        resolve_code(&code, 2),
        Code(vec![
            Instr::Nop,
            Instr::I64Const(1),
            Instr::Conditional(Offset::new(-9), Offset::new(5)),
            Instr::Jump(Offset::new(0)),
        ])
    );
}

#[test]
fn labels_are_resolved_against_their_places() {
    let targets = vec![Location::new(4), Location::new(50)];
    let context: Instr<Label> = Instr::Context(Label { index: 1 });
    assert_eq!(
        context.resolve_labels(Location::new(20), &targets),
        Instr::Context(Offset::new(30))
    );
    let skip: Instr<Label> = Instr::Skip(Label { index: 0 });
    assert_eq!(skip.resolve_labels(Location::new(20), &targets), Instr::Skip(Offset::new(-16)));
    let other: Instr<Label> = Instr::EnumToI32(at(3), 4);
    assert_eq!(other.resolve_labels(Location::new(20), &targets), Instr::EnumToI32(at(3), 4));
}

#[test]
fn sizes_of_instructions() {
    let size = |instr: Instr<Label>| instr.size();
    let l = Label { index: 0 };
    assert_eq!(size(Instr::Target(l)), 0);
    assert_eq!(size(Instr::Nop), 1);
    assert_eq!(size(Instr::Jump(l)), 3);
    assert_eq!(size(Instr::Conditional(l, l)), 5);
    assert_eq!(size(Instr::F32Const(0)), 5);
    assert_eq!(size(Instr::StringConst(at(0))), 5);
    assert_eq!(size(Instr::NameConst(at(0))), 9);
    assert_eq!(size(Instr::Local(at(0))), 9);
    assert_eq!(size(Instr::DynamicCast(at(0), 0)), 10);
    assert_eq!(size(Instr::InvokeVirtual(l, 0, at(0), 0)), 15);
}

#[test]
fn numbers_of_labels_leave_no_trace() {
    let code = |a: usize, b: usize, c: usize| {
        let (a, b, c) = (Label { index: a }, Label { index: b }, Label { index: c });
        let code = vec![
            Instr::Target(a),
            Instr::Conditional(b, c),
            Instr::Nop,
            Instr::Target(b),
            Instr::Jump(a),
            Instr::Target(c),
            Instr::Nop,
        ];
        resolve_code(&code, 3)
    };
    let expected = Code(vec![
        Instr::Conditional(Offset::new(6), Offset::new(9)),
        Instr::Nop,
        Instr::Jump(Offset::new(-6)),
        Instr::Nop,
    ]);
    assert_eq!(code(0, 1, 2), expected);
    assert_eq!(code(2, 0, 1), expected);
    assert_eq!(code(1, 0, 2), expected);
}
