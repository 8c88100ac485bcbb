//! The code generator: turns checked expressions into the code of functions.

use crate::ast::{Block, Callable, Constant, Expr, LambdaEnv, Literal, Local, Member};
use crate::builders::{
    ClassBuilder, FieldBuilder, FunctionBuilder, LocalBuilder, ParamBuilder, TypedName,
};
use crate::bytecode::{
    fits, labels_below, resolve_code, resolved, Code, Instr, Intrinsic, Label, Offset,
};
use crate::compiler::CompilationDb;
use crate::direction::{law_translation_ahead, leads_ahead, loops};
use crate::growth::{consistent, extends, grows};
use crate::index_map::{entry_keys, key_index, with_entry, IndexMap};
use crate::index_vec::{can_grow, IndexVec};
use crate::labels::{labelled, law_labels_placed_once, law_translation_labelled};
use crate::names;
use crate::names::{field_name, param_name};
use crate::pool::{
    lemma_pool_numbered, AnyDefinition, CName, ConstantPool, Definition, Function, FunctionFlags,
    LocalFlags, PoolClass, PoolError, PoolField, PoolIndex, PoolLocal, PoolParam, PoolType,
    PoolView, Resource, TweakDbId,
};
use crate::progress::{advances, keeps_locals, law_build_adds, law_translation_adds};
use crate::references::{are_locals, refers_all};
use crate::soundness::{law_build_sound, ready};
use crate::translation::{
    build, captured_values, closure_outline, enter, field_stores, implement_summoner,
    intrinsic_operand, passed, prepare_lambda, read_local, ready_args, ready_call, short_circuits,
    summoner_code, translate, translate_all, translate_args, translate_constant,
    translate_intrinsic, translate_lambda, translate_static_call, translate_virtual_call,
    typed_locals, Built, GenState, IndicesView, Operand, Scope,
};
use crate::type_cache::{CacheView, TypeCache};
use crate::types::{GlobalId, Type, TypeId, TypeRepo, TypeView};
use vstd::pervasive::unreached;
use vstd::prelude::*;

verus! {

/// The locals of one kind, each with its type and its pool entry.
#[derive(Debug)]
pub struct LocalIndices<A> {
    types: IndexMap<Type>,
    indices: IndexVec<A>,
}

proof fn lemma_typed_locals(types: Seq<(Local, Type)>, local: Local, typ: Type)
    ensures
        key_index(typed_locals(types), local) == key_index(types, local),
        typed_locals(with_entry(types, local, typ)) == with_entry(
            typed_locals(types),
            local,
            typ@,
        ),
{
    assert(entry_keys(typed_locals(types)) =~= entry_keys(types));
    entry_keys(types).index_of_first_ensures(local);
    assert(typed_locals(with_entry(types, local, typ)) =~= with_entry(
        typed_locals(types),
        local,
        typ@,
    ));
}

impl<A> View for LocalIndices<A> {
    type V = IndicesView<A>;

    closed spec fn view(&self) -> IndicesView<A> {
        IndicesView { entries: typed_locals(self.types@), indices: self.indices@ }
    }
}

impl<A> LocalIndices<A> {
    /// The locals that are keys of `types`, in the order in which they came there. The
    /// entry of each is the one at the same place in `indices`.
    pub fn new(types: IndexMap<Type>, indices: IndexVec<A>) -> (r: Self)
        ensures
            r@ == (IndicesView { entries: typed_locals(types@), indices: indices@ }),
    {
        LocalIndices { types, indices }
    }

    /// Puts in one more local, whose entry comes last.
    fn add(&mut self, loc: Local, typ: Type, index: PoolIndex<A>)
        requires
            can_grow(old(self)@.indices.len()),
        ensures
            final(self)@ == old(self)@.with(loc, typ@, index),
    {
        proof {
            lemma_typed_locals(self.types@, loc, typ);
        }
        self.types.insert(loc, typ);
        self.indices.push(index);
    }

    /// The entry at the place where `local` stands.
    fn get_index(&self, local: Local) -> (r: Option<PoolIndex<A>>)
        ensures
            r == self@.index_of(local),
    {
        proof {
            lemma_typed_locals(self.types@, local, Type::Top);
        }
        match self.types.get_index_of(local) {
            Some(i) => self.indices.get(i),
            None => None,
        }
    }
}

impl<A> Default for LocalIndices<A> {
    /// No locals.
    fn default() -> (r: Self)
        ensures
            r@ == IndicesView::<A>::none(),
    {
        let r = LocalIndices::new(IndexMap::new(), IndexVec::new());
        assert(r@ =~= IndicesView::<A>::none());
        r
    }
}

/// A function that is being generated.
#[derive(Debug)]
pub struct CodeGen<'ctx> {
    repo: &'ctx TypeRepo,
    db: &'ctx CompilationDb,
    captures: LocalIndices<PoolField>,
    params: LocalIndices<PoolParam>,
    locals: LocalIndices<PoolLocal>,
    instructions: Vec<Instr<Label>>,
    labels: usize,
}

impl<'ctx> CodeGen<'ctx> {
    /// What does not change while the function is generated.
    pub closed spec fn scope(self) -> Scope {
        Scope {
            params: self.params@,
            captures: self.captures@,
            repo: *self.repo,
            db: *self.db,
        }
    }

    /// How far the function is.
    pub closed spec fn state(self, pool: PoolView, cache: CacheView) -> GenState {
        GenState {
            locals: self.locals@,
            code: self.instructions@,
            labels: self.labels as nat,
            pool,
            cache,
        }
    }

    /// A function with nothing in it.
    fn new(
        params: LocalIndices<PoolParam>,
        captures: LocalIndices<PoolField>,
        type_repo: &'ctx TypeRepo,
        db: &'ctx CompilationDb,
    ) -> (r: Self)
        ensures
            r.scope() == (Scope {
                params: params@,
                captures: captures@,
                repo: *type_repo,
                db: *db,
            }),
            r.locals@ == IndicesView::<PoolLocal>::none(),
            r.instructions@ == Seq::<Instr<Label>>::empty(),
            r.labels == 0,
    {
        CodeGen {
            repo: type_repo,
            db,
            params,
            captures,
            locals: LocalIndices::default(),
            instructions: Vec::new(),
            labels: 0,
        }
    }

    /// Adds an instruction.
    fn emit(&mut self, instr: Instr<Label>)
        ensures
            final(self).scope() == old(self).scope(),
            final(self).locals == old(self).locals,
            final(self).labels == old(self).labels,
            final(self).instructions@ == old(self).instructions@.push(instr),
    {
        self.instructions.push(instr);
    }

    /// Marks the place of a label.
    fn emit_label(&mut self, label: Label)
        ensures
            final(self).scope() == old(self).scope(),
            final(self).locals == old(self).locals,
            final(self).labels == old(self).labels,
            final(self).instructions@ == old(self).instructions@.push(Instr::Target(label)),
    {
        self.instructions.push(Instr::Target(label));
    }

    /// Gives out a label that was not given out before.
    fn new_label(&mut self) -> (r: Label)
        requires
            old(self).labels < usize::MAX,
        ensures
            r.index == old(self).labels,
            final(self).scope() == old(self).scope(),
            final(self).locals == old(self).locals,
            final(self).labels == old(self).labels + 1,
            final(self).instructions@ == old(self).instructions@,
    {
        let label = Label { index: self.labels };
        self.labels = self.labels + 1;
        label
    }

    /// Generates expressions one after the other.
    fn assemble_seq(
        &mut self,
        seq: &Block,
        pool: &mut ConstantPool,
        cache: &mut TypeCache,
        exit: Option<Label>,
    )
        requires
            translate_all(
                old(self).scope(),
                seq.exprs@,
                seq.exprs@.len(),
                exit,
                old(self).state(old(pool)@, old(cache)@),
            ) is Some,
        ensures
            final(self).scope() == old(self).scope(),
            Some(final(self).state(final(pool)@, final(cache)@)) == translate_all(
                old(self).scope(),
                seq.exprs@,
                seq.exprs@.len(),
                exit,
                old(self).state(old(pool)@, old(cache)@),
            ),
        decreases seq.exprs@, seq.exprs@.len() + 1,
    {
        self.assemble_all(&seq.exprs, pool, cache, exit);
    }

    /// Generates expressions one after the other.
    fn assemble_all(
        &mut self,
        exprs: &Vec<Expr>,
        pool: &mut ConstantPool,
        cache: &mut TypeCache,
        exit: Option<Label>,
    )
        requires
            translate_all(
                old(self).scope(),
                exprs@,
                exprs@.len(),
                exit,
                old(self).state(old(pool)@, old(cache)@),
            ) is Some,
        ensures
            final(self).scope() == old(self).scope(),
            Some(final(self).state(final(pool)@, final(cache)@)) == translate_all(
                old(self).scope(),
                exprs@,
                exprs@.len(),
                exit,
                old(self).state(old(pool)@, old(cache)@),
            ),
        decreases exprs@, exprs@.len(),
    {
        let ghost scope = self.scope();
        let ghost begin = self.state(pool@, cache@);
        let mut i: usize = 0;
        while i < exprs.len()
            invariant
                i <= exprs@.len(),
                self.scope() == scope,
                translate_all(scope, exprs@, exprs@.len(), exit, begin) is Some,
                Some(self.state(pool@, cache@)) == translate_all(
                    scope,
                    exprs@,
                    i as nat,
                    exit,
                    begin,
                ),
            decreases exprs@.len() - i,
        {
            proof {
                lemma_translate_all_prefix(
                    scope,
                    exprs@,
                    (i + 1) as nat,
                    exprs@.len(),
                    exit,
                    begin,
                );
            }
            self.assemble_with(&exprs[i], pool, cache, exit);
            i = i + 1;
        }
    }

    /// Generates an expression. There is no exit for a `break` in it, other than those that
    /// a `while` or an `else` in the expression itself gives.
    fn assemble(&mut self, expr: &Expr, pool: &mut ConstantPool, cache: &mut TypeCache)
        requires
            translate(
                old(self).scope(),
                *expr,
                None,
                old(self).state(old(pool)@, old(cache)@),
            ) is Some,
        ensures
            final(self).scope() == old(self).scope(),
            Some(final(self).state(final(pool)@, final(cache)@)) == translate(
                old(self).scope(),
                *expr,
                None,
                old(self).state(old(pool)@, old(cache)@),
            ),
        decreases expr, 1nat,
    {
        self.assemble_with(expr, pool, cache, None);
    }

    /// The instruction that reads a local.
    fn local_instr(&self, local: Local) -> (r: Option<Instr<Label>>)
        ensures
            r == read_local(self.scope(), self.locals@, local),
    {
        match local {
            Local::Var(_) => match self.locals.get_index(local) {
                Some(i) => Some(Instr::Local(i)),
                None => None,
            },
            Local::Param(_) => match self.params.get_index(local) {
                Some(i) => Some(Instr::Param(i)),
                None => None,
            },
            Local::Capture(_) => match self.captures.get_index(local) {
                Some(i) => Some(Instr::ObjectField(i)),
                None => None,
            },
            Local::This => Some(Instr::This),
        }
    }

    /// Generates a constant.
    fn assemble_constant(&mut self, constant: &Constant, pool: &mut ConstantPool)
        ensures
            final(self).scope() == old(self).scope(),
            forall|cache: CacheView| #[trigger]
                final(self).state(final(pool)@, cache) == translate_constant(
                    *constant,
                    old(self).state(old(pool)@, cache),
                ),
    {
        match constant {
            Constant::String(lit, text) => match lit {
                Literal::String => {
                    let i: PoolIndex<String> = pool.add_string(text);
                    self.emit(Instr::StringConst(i));
                },
                Literal::Name => {
                    let i: PoolIndex<CName> = pool.add_name(text);
                    self.emit(Instr::NameConst(i));
                },
                Literal::Resource => {
                    let i: PoolIndex<Resource> = pool.add_resource(text);
                    self.emit(Instr::ResourceConst(i));
                },
                Literal::TweakDbId => {
                    let i: PoolIndex<TweakDbId> = pool.add_tweakdb_id(text);
                    self.emit(Instr::TweakDbIdConst(i));
                },
            },
            Constant::F32(i) => self.emit(Instr::F32Const(*i)),
            Constant::F64(i) => self.emit(Instr::F64Const(*i)),
            Constant::I32(i) => self.emit(Instr::I32Const(*i)),
            Constant::I64(i) => self.emit(Instr::I64Const(*i)),
            Constant::U32(i) => self.emit(Instr::U32Const(*i)),
            Constant::U64(i) => self.emit(Instr::U64Const(*i)),
            Constant::Bool(true) => self.emit(Instr::TrueConst),
            Constant::Bool(false) => self.emit(Instr::FalseConst),
        }
    }

    /// Generates an expression. A `break` in it leaves for `exit`.
    fn assemble_with(
        &mut self,
        expr: &Expr,
        pool: &mut ConstantPool,
        cache: &mut TypeCache,
        exit: Option<Label>,
    )
        requires
            translate(
                old(self).scope(),
                *expr,
                exit,
                old(self).state(old(pool)@, old(cache)@),
            ) is Some,
        ensures
            final(self).scope() == old(self).scope(),
            Some(final(self).state(final(pool)@, final(cache)@)) == translate(
                old(self).scope(),
                *expr,
                exit,
                old(self).state(old(pool)@, old(cache)@),
            ),
            extends(old(self).instructions@, final(self).instructions@),
            old(self).labels <= final(self).labels,
            keeps_locals(old(self).locals@, final(self).locals@),
            labelled(
                old(self).state(old(pool)@, old(cache)@),
                final(self).state(final(pool)@, final(cache)@),
                exit,
                Set::empty(),
            ),
            leads_ahead(
                old(self).state(old(pool)@, old(cache)@),
                final(self).state(final(pool)@, final(cache)@),
                exit,
                Set::empty(),
                loops(*expr),
            ),
        decreases expr, 0nat,
    {
        let ghost begin = self.state(pool@, cache@);
        let ghost end = translate(self.scope(), *expr, exit, begin)->0;
        proof {
            law_translation_labelled(self.scope(), *expr, exit, begin);
            law_translation_ahead(self.scope(), *expr, exit, begin, loops(*expr));
            assert(extends(begin.code, end.code) && begin.labels <= end.labels && keeps_locals(
                begin.locals,
                end.locals,
            )) by {
                law_translation_adds(self.scope(), *expr, exit, begin);
                reveal(advances);
            }
        }
        match expr {
            Expr::Ident(id, _) => {
                let instr: Instr<Label> = self.local_instr(*id).unwrap();
                self.emit(instr);
            },
            Expr::Constant(constant, _) => self.assemble_constant(constant, pool),
            Expr::ArrayLit(_, _, _) => unreached(),
            Expr::InterpolatedString(_, _, _) => unreached(),
            Expr::Declare(local, typ, init, _) => {
                let typ: Type = typ.as_ref().unwrap().duplicate();
                let builder = LocalBuilder { name: names::local(*local), typ: typ.duplicate() };
                let index: PoolIndex<PoolLocal> = builder.commit(self.repo, pool, cache);
                self.locals.add(*local, typ, index);
                if let Some(value) = init {
                    self.emit(Instr::Assign);
                    self.emit(Instr::Local(index));
                    self.assemble(value, pool, cache);
                }
            },
            Expr::DynCast(target, value, _) => {
                let class: PoolIndex<PoolClass> = self.db.class(target.id).unwrap();
                self.emit(Instr::DynamicCast(class, 0));
                self.assemble(value, pool, cache);
            },
            Expr::Assign(left, right, _, _) => {
                self.emit(Instr::Assign);
                self.assemble(left, pool, cache);
                self.assemble(right, pool, cache);
            },
            Expr::Call(object, callable, type_args, args, meta, _) => match callable {
                Callable::Static(id) => {
                    let index: PoolIndex<Function> = self.db.static_method(*id).unwrap();
                    self.emit_static_call(index, args, pool, cache);
                },
                Callable::Instance(id) => {
                    let index: PoolIndex<Function> = self.db.method(*id).unwrap();
                    let name: PoolIndex<CName> = pool.definition(index.index).unwrap().name;
                    let flags: FunctionFlags = pool.function(index).unwrap().flags;
                    let exit_label: Label = self.new_label();
                    self.emit(Instr::Context(exit_label));
                    self.assemble(object, pool, cache);
                    if flags.is_final {
                        self.emit_static_call(index, args, pool, cache);
                    } else {
                        self.emit_virtual_call(name, args, pool, cache);
                    }
                    self.emit_label(exit_label);
                },
                Callable::Lambda => {
                    let exit_label: Label = self.new_label();
                    self.emit(Instr::Context(exit_label));
                    self.assemble(object, pool, cache);
                    let name: PoolIndex<CName> = pool.add_name(&"Apply".to_owned());
                    self.emit_virtual_call(name, args, pool, cache);
                    self.emit_label(exit_label);
                },
                Callable::Global(id) => {
                    let index: PoolIndex<Function> = self.db.global(*id).unwrap();
                    self.emit_static_call(index, args, pool, cache);
                },
                Callable::Intrinsic(op) => {
                    self.emit_intrinsic(*op, type_args, pool, cache);
                    self.assemble_all(args, pool, cache, None);
                },
                Callable::Cast => {
                    let from: &Type = &meta.arg_types[0];
                    let to: &Type = &meta.ret_type;
                    let id: GlobalId = self.repo.find_cast(from, to).unwrap();
                    let index: PoolIndex<Function> = self.db.global(id).unwrap();
                    self.emit_static_call(index, args, pool, cache);
                },
            },
            Expr::Lambda(env, body, _) => self.assemble_lambda(env, body, pool, cache),
            Expr::Member(object, member, _) => match member {
                Member::ClassField(field) => {
                    let exit_label: Label = self.new_label();
                    self.emit(Instr::Context(exit_label));
                    self.assemble(object, pool, cache);
                    let index: PoolIndex<PoolField> = self.db.field(*field).unwrap();
                    self.emit(Instr::ObjectField(index));
                    self.emit_label(exit_label);
                },
                Member::StructField(field) => {
                    let index: PoolIndex<PoolField> = self.db.field(*field).unwrap();
                    self.emit(Instr::StructField(index));
                    self.assemble(object, pool, cache);
                },
                Member::EnumMember(_, _) => unreached(),
            },
            Expr::ArrayElem(array, index, elem, _) => {
                let array_type: Type = Type::array(elem);
                let typ: PoolIndex<PoolType> = cache.alloc_type(&array_type, self.repo, pool);
                self.emit(Instr::ArrayElement(typ));
                self.assemble(array, pool, cache);
                self.assemble(index, pool, cache);
            },
            Expr::New(typ, _, _) => {
                let class: PoolIndex<PoolClass> = self.db.class(typ.id).unwrap();
                self.emit(Instr::New(class));
            },
            Expr::Return(Some(value), _) => {
                self.emit(Instr::Return);
                self.assemble(value, pool, cache);
            },
            Expr::Return(None, _) => {
                self.emit(Instr::Return);
                self.emit(Instr::Nop);
            },
            Expr::Block(block) => self.assemble_seq(block, pool, cache, exit),
            Expr::Switch(_, _, _, _) => unreached(),
            Expr::If(condition, then, otherwise, _) => {
                let else_label: Label = self.new_label();
                self.emit(Instr::JumpIfFalse(else_label));
                self.assemble(condition, pool, cache);
                self.assemble_seq(then, pool, cache, exit);
                if let Some(block) = otherwise {
                    let exit_label: Label = self.new_label();
                    self.emit(Instr::Jump(exit_label));
                    self.emit_label(else_label);
                    self.assemble_seq(block, pool, cache, Some(exit_label));
                    self.emit_label(exit_label);
                } else {
                    self.emit_label(else_label);
                }
            },
            Expr::Conditional(condition, then, otherwise, _) => {
                let false_label: Label = self.new_label();
                let exit_label: Label = self.new_label();
                self.emit(Instr::Conditional(false_label, exit_label));
                self.assemble(condition, pool, cache);
                self.assemble(then, pool, cache);
                self.emit_label(false_label);
                self.assemble(otherwise, pool, cache);
                self.emit_label(exit_label);
            },
            Expr::While(condition, body, _) => {
                let exit_label: Label = self.new_label();
                let loop_label: Label = self.new_label();
                self.emit_label(loop_label);
                self.emit(Instr::JumpIfFalse(exit_label));
                self.assemble(condition, pool, cache);
                self.assemble_seq(body, pool, cache, Some(exit_label));
                self.emit(Instr::Jump(loop_label));
                self.emit_label(exit_label);
            },
            Expr::ForIn(_, _, _, _) => unreached(),
            Expr::Null(_) => self.emit(Instr::Null),
            Expr::This(_) | Expr::Super(_) => self.emit(Instr::This),
            Expr::Break(_) => {
                let label: Label = exit.unwrap();
                self.emit(Instr::Jump(label));
            },
            Expr::BinOp(_, _, _, _) | Expr::UnOp(_, _, _) | Expr::Goto(_, _) => unreached(),
        }
    }

    /// Generates a lambda. Its class is added to the pool.
    fn assemble_lambda(
        &mut self,
        env: &LambdaEnv,
        body: &Expr,
        pool: &mut ConstantPool,
        cache: &mut TypeCache,
    )
        requires
            translate_lambda(
                old(self).scope(),
                *env,
                *body,
                old(self).state(old(pool)@, old(cache)@),
            ) is Some,
        ensures
            final(self).scope() == old(self).scope(),
            Some(final(self).state(final(pool)@, final(cache)@)) == translate_lambda(
                old(self).scope(),
                *env,
                *body,
                old(self).state(old(pool)@, old(cache)@),
            ),
        decreases body, 2nat,
    {
        let (apply, params, captures) = self.prepare_lambda(env, pool, cache);
        let (locals, code) = Self::build_body(
            body,
            !env.ret_type.is_unit(),
            params,
            captures,
            self.repo,
            self.db,
            pool,
            cache,
        );
        let done: Result<(), PoolError> = pool.complete_function(apply, locals.to_vec(), code);
        assert(done is Ok);
    }

    /// Adds the class of a lambda to the pool and calls its `Summon`. What the body of the
    /// lambda needs is handed back: the method that it belongs to, and what is in scope.
    fn prepare_lambda(
        &mut self,
        env: &LambdaEnv,
        pool: &mut ConstantPool,
        cache: &mut TypeCache,
    ) -> (r: (PoolIndex<Function>, LocalIndices<PoolParam>, LocalIndices<PoolField>))
        requires
            prepare_lambda(
                old(self).scope(),
                *env,
                old(self).state(old(pool)@, old(cache)@),
            ) is Some,
        ensures
            final(self).scope() == old(self).scope(),
            Some(
                (
                    r.0,
                    Scope { params: r.1@, captures: r.2@, ..old(self).scope() },
                    final(self).state(final(pool)@, final(cache)@),
                ),
            ) == prepare_lambda(
                old(self).scope(),
                *env,
                old(self).state(old(pool)@, old(cache)@),
            ),
    {
        let args: Vec<Instr<Label>> = self.captured_values(&env.captures);
        let params: IndexMap<Type> = duplicate_map(&env.params);
        let captures: IndexMap<Type> = capture_types(&env.captures);
        let arity: usize = params.len();
        let fn_type: TypeId = self.repo.get_fn_by_arity(arity).unwrap();
        let base: PoolIndex<PoolClass> = self.db.class(fn_type).unwrap();
        let id: usize = pool.definition_count();
        let class: PoolIndex<PoolClass> = Self::closure(&params, &captures, id).commit_with_base(
            base,
            self.repo,
            pool,
            cache,
        );
        let summoner: PoolIndex<Function> = pool.class(class).unwrap().methods[0];
        let apply: PoolIndex<Function> = pool.class(class).unwrap().methods[1];
        let fields: IndexVec<PoolField> = IndexVec::from_vec(&pool.class(class).unwrap().fields);
        Self::impl_summoner(class, summoner, pool);
        self.emit_ready_call(summoner, &args, pool, cache);
        let parameters: IndexVec<PoolParam> = IndexVec::from_vec(
            &pool.function(apply).unwrap().parameters,
        );
        (apply, LocalIndices::new(params, parameters), LocalIndices::new(captures, fields))
    }

    /// The instructions that read what a lambda keeps.
    fn captured_values(&self, captures: &IndexMap<(Type, Local)>) -> (r: Vec<Instr<Label>>)
        requires
            captured_values(self.scope(), self.locals@, captures@) is Some,
        ensures
            Some(r@) == captured_values(self.scope(), self.locals@, captures@),
    {
        let mut r: Vec<Instr<Label>> = Vec::new();
        let mut i: usize = 0;
        while i < captures.len()
            invariant
                i <= captures@.len(),
                captured_values(self.scope(), self.locals@, captures@) is Some,
                r@.len() == i,
                forall|j: int|
                    0 <= j < i ==> Some(#[trigger] r@[j]) == read_local(
                        self.scope(),
                        self.locals@,
                        captures@[j].1.1,
                    ),
            decreases captures@.len() - i,
        {
            let (_, capture) = captures.get_index(i).unwrap();
            assert(captures@[i as int].1 == *capture);
            r.push(self.local_instr(capture.1).unwrap());
            i = i + 1;
        }
        proof {
            let whole = captured_values(self.scope(), self.locals@, captures@)->0;
            assert forall|j: int| 0 <= j < r@.len() implies r@[j] == whole[j] by {
                assert(Some(r@[j]) == read_local(self.scope(), self.locals@, captures@[j].1.1));
            }
            assert(r@ =~= whole);
        }
        r
    }

    /// For each parameter of a function, whether its argument is evaluated only when asked
    /// for.
    fn parameter_flags(pool: &ConstantPool, params: &Vec<PoolIndex<PoolParam>>) -> (r: Vec<bool>)
        requires
            short_circuits(pool@, params@) is Some,
        ensures
            Some(r@) == short_circuits(pool@, params@),
    {
        let mut r: Vec<bool> = Vec::new();
        let mut i: usize = 0;
        while i < params.len()
            invariant
                i <= params@.len(),
                short_circuits(pool@, params@) is Some,
                r@.len() == i,
                forall|j: int|
                    0 <= j < i ==> #[trigger] r@[j] == (pool@.parameter(
                        params@[j],
                    )->0).flags.is_short_circuit,
            decreases params@.len() - i,
        {
            assert(pool@.parameter(params@[i as int]) is Some);
            r.push(pool.parameter(params[i]).unwrap().flags.is_short_circuit);
            i = i + 1;
        }
        assert(r@ =~= short_circuits(pool@, params@)->0);
        r
    }

    /// Generates a call of the function at `index`.
    fn emit_static_call(
        &mut self,
        index: PoolIndex<Function>,
        args: &Vec<Expr>,
        pool: &mut ConstantPool,
        cache: &mut TypeCache,
    )
        requires
            translate_static_call(
                old(self).scope(),
                index,
                args@,
                old(self).state(old(pool)@, old(cache)@),
            ) is Some,
        ensures
            final(self).scope() == old(self).scope(),
            Some(final(self).state(final(pool)@, final(cache)@)) == translate_static_call(
                old(self).scope(),
                index,
                args@,
                old(self).state(old(pool)@, old(cache)@),
            ),
        decreases args@, args@.len() + 1,
    {
        let exit_label: Label = self.new_label();
        let flags: Vec<bool> = Self::parameter_flags(
            pool,
            &pool.function(index).unwrap().parameters,
        );
        self.emit(Instr::InvokeStatic(exit_label, 0, index, 0));
        let ghost scope = self.scope();
        let ghost begin = self.state(pool@, cache@);
        let ghost n = passed(args@.len(), flags@.len());
        let mut i: usize = 0;
        while i < args.len() && i < flags.len()
            invariant
                i <= n,
                n == passed(args@.len(), flags@.len()),
                self.scope() == scope,
                translate_args(scope, args@, flags@, n, begin) is Some,
                Some(self.state(pool@, cache@)) == translate_args(
                    scope,
                    args@,
                    flags@,
                    i as nat,
                    begin,
                ),
            decreases n - i,
        {
            proof {
                lemma_translate_args_prefix(scope, args@, flags@, (i + 1) as nat, n, begin);
            }
            if flags[i] {
                let skip_label: Label = self.new_label();
                self.emit(Instr::Skip(skip_label));
                self.assemble(&args[i], pool, cache);
                self.emit_label(skip_label);
            } else {
                self.assemble(&args[i], pool, cache);
            }
            i = i + 1;
        }
        self.emit(Instr::ParamEnd);
        self.emit_label(exit_label);
    }

    /// Generates a call of the function at `index` whose arguments are finished
    /// instructions.
    fn emit_ready_call(
        &mut self,
        index: PoolIndex<Function>,
        args: &Vec<Instr<Label>>,
        pool: &ConstantPool,
        _cache: &TypeCache,
    )
        requires
            ready_call(index, args@, old(self).state(pool@, _cache@)) is Some,
        ensures
            final(self).scope() == old(self).scope(),
            Some(final(self).state(pool@, _cache@)) == ready_call(
                index,
                args@,
                old(self).state(pool@, _cache@),
            ),
    {
        let exit_label: Label = self.new_label();
        let flags: Vec<bool> = Self::parameter_flags(
            pool,
            &pool.function(index).unwrap().parameters,
        );
        self.emit(Instr::InvokeStatic(exit_label, 0, index, 0));
        let ghost scope = self.scope();
        let ghost begin = self.state(pool@, _cache@);
        let ghost n = passed(args@.len(), flags@.len());
        let mut i: usize = 0;
        while i < args.len() && i < flags.len()
            invariant
                i <= n,
                n == passed(args@.len(), flags@.len()),
                self.scope() == scope,
                ready_args(args@, flags@, n, begin) is Some,
                Some(self.state(pool@, _cache@)) == ready_args(args@, flags@, i as nat, begin),
            decreases n - i,
        {
            proof {
                lemma_ready_args_prefix(args@, flags@, (i + 1) as nat, n, begin);
            }
            if flags[i] {
                let skip_label: Label = self.new_label();
                self.emit(Instr::Skip(skip_label));
                self.emit(args[i]);
                self.emit_label(skip_label);
            } else {
                self.emit(args[i]);
            }
            i = i + 1;
        }
        self.emit(Instr::ParamEnd);
        self.emit_label(exit_label);
    }

    /// Generates a call of whatever method the object knows by `name`.
    fn emit_virtual_call(
        &mut self,
        name: PoolIndex<CName>,
        args: &Vec<Expr>,
        pool: &mut ConstantPool,
        cache: &mut TypeCache,
    )
        requires
            translate_virtual_call(
                old(self).scope(),
                name,
                args@,
                old(self).state(old(pool)@, old(cache)@),
            ) is Some,
        ensures
            final(self).scope() == old(self).scope(),
            Some(final(self).state(final(pool)@, final(cache)@)) == translate_virtual_call(
                old(self).scope(),
                name,
                args@,
                old(self).state(old(pool)@, old(cache)@),
            ),
        decreases args@, args@.len() + 1,
    {
        let exit_label: Label = self.new_label();
        self.emit(Instr::InvokeVirtual(exit_label, 0, name, 0));
        self.assemble_all(args, pool, cache, None);
        self.emit(Instr::ParamEnd);
        self.emit_label(exit_label);
    }

    /// Generates the instruction that an intrinsic begins with.
    fn emit_intrinsic(
        &mut self,
        op: Intrinsic,
        type_args: &Vec<Type>,
        pool: &mut ConstantPool,
        cache: &mut TypeCache,
    )
        requires
            translate_intrinsic(
                old(self).scope(),
                op,
                type_args@,
                old(self).state(old(pool)@, old(cache)@),
            ) is Some,
        ensures
            final(self).scope() == old(self).scope(),
            Some(final(self).state(final(pool)@, final(cache)@)) == translate_intrinsic(
                old(self).scope(),
                op,
                type_args@,
                old(self).state(old(pool)@, old(cache)@),
            ),
    {
        let typ: PoolIndex<PoolType> = match Self::operand(op) {
            Operand::Nothing => PoolIndex::new(0),
            Operand::Value => cache.alloc_type(&type_args[0], self.repo, pool),
            Operand::Array => {
                let array: Type = Type::array(&type_args[0]);
                cache.alloc_type(&array, self.repo, pool)
            },
        };
        let instr: Instr<Label> = match op {
            Intrinsic::Equals => Instr::Equals(typ),
            Intrinsic::NotEquals => Instr::NotEquals(typ),
            Intrinsic::ArrayClear => Instr::ArrayClear(typ),
            Intrinsic::ArraySize => Instr::ArraySize(typ),
            Intrinsic::ArrayResize => Instr::ArrayResize(typ),
            Intrinsic::ArrayFindFirst => Instr::ArrayFindFirst(typ),
            Intrinsic::ArrayFindLast => Instr::ArrayFindLast(typ),
            Intrinsic::ArrayContains => Instr::ArrayContains(typ),
            Intrinsic::ArrayCount => Instr::ArrayCount(typ),
            Intrinsic::ArrayPush => Instr::ArrayPush(typ),
            Intrinsic::ArrayPop => Instr::ArrayPop(typ),
            Intrinsic::ArrayInsert => Instr::ArrayInsert(typ),
            Intrinsic::ArrayRemove => Instr::ArrayRemove(typ),
            Intrinsic::ArrayGrow => Instr::ArrayGrow(typ),
            Intrinsic::ArrayErase => Instr::ArrayErase(typ),
            Intrinsic::ArrayLast => Instr::ArrayLast(typ),
            Intrinsic::ToString => Instr::ToString(typ),
            Intrinsic::EnumInt => Instr::EnumToI32(typ, 4),
            Intrinsic::IntEnum => Instr::I32ToEnum(typ, 4),
            Intrinsic::ToVariant => Instr::ToVariant(typ),
            Intrinsic::FromVariant => Instr::FromVariant(typ),
            Intrinsic::VariantIsRef => Instr::VariantIsRef,
            Intrinsic::VariantIsArray => Instr::VariantIsArray,
            Intrinsic::VariantTypeName => Instr::VariantTypeName,
            Intrinsic::AsRef => Instr::AsRef(typ),
            Intrinsic::Deref => Instr::Deref(typ),
            Intrinsic::RefToWeakRef => Instr::RefToWeakRef,
            Intrinsic::WeakRefToRef => Instr::WeakRefToRef,
            Intrinsic::IsDefined => Instr::RefToBool,
        };
        self.emit(instr);
    }

    /// What the instruction for an intrinsic says of its operand.
    fn operand(op: Intrinsic) -> (r: Operand)
        ensures
            r == intrinsic_operand(op),
    {
        match op {
            Intrinsic::Equals | Intrinsic::NotEquals => Operand::Value,
            Intrinsic::ToString | Intrinsic::ToVariant | Intrinsic::FromVariant => Operand::Value,
            Intrinsic::EnumInt | Intrinsic::IntEnum => Operand::Value,
            Intrinsic::AsRef | Intrinsic::Deref => Operand::Value,
            Intrinsic::VariantIsRef | Intrinsic::VariantIsArray => Operand::Nothing,
            Intrinsic::VariantTypeName | Intrinsic::IsDefined => Operand::Nothing,
            Intrinsic::RefToWeakRef | Intrinsic::WeakRefToRef => Operand::Nothing,
            _ => Operand::Array,
        }
    }

    /// Describes the class of a lambda.
    fn closure(params: &IndexMap<Type>, captures: &IndexMap<Type>, id: usize) -> (r: ClassBuilder)
        ensures
            r@ == closure_outline(typed_locals(params@), typed_locals(captures@), id as nat),
    {
        let mut summon_params: Vec<ParamBuilder> = Vec::new();
        let mut fields: Vec<FieldBuilder> = Vec::new();
        let mut i: usize = 0;
        while i < captures.len()
            invariant
                i <= captures@.len(),
                summon_params@.len() == i,
                fields@.len() == i,
                forall|j: int|
                    0 <= j < i ==> (#[trigger] summon_params@[j])@ == (TypedName {
                        name: param_name(captures@[j].0),
                        typ: captures@[j].1@,
                    }),
                forall|j: int|
                    0 <= j < i ==> (#[trigger] fields@[j])@ == (TypedName {
                        name: field_name(captures@[j].0),
                        typ: captures@[j].1@,
                    }),
            decreases captures@.len() - i,
        {
            let (loc, typ) = captures.get_index(i).unwrap();
            summon_params.push(ParamBuilder { name: names::param(loc), typ: typ.duplicate() });
            fields.push(FieldBuilder { name: names::field(loc), typ: typ.duplicate() });
            i = i + 1;
        }
        let mut apply_params: Vec<ParamBuilder> = Vec::new();
        i = 0;
        while i < params.len()
            invariant
                i <= params@.len(),
                apply_params@.len() == i,
                forall|j: int|
                    0 <= j < i ==> (#[trigger] apply_params@[j])@ == (TypedName {
                        name: param_name(params@[j].0),
                        typ: TypeView::Top,
                    }),
            decreases params@.len() - i,
        {
            let (loc, _) = params.get_index(i).unwrap();
            apply_params.push(ParamBuilder { name: names::param(loc), typ: Type::Top });
            i = i + 1;
        }
        let summoner = FunctionBuilder {
            name: "Summon".to_owned(),
            flags: FunctionFlags::new().with_is_static(true).with_is_final(true),
            params: summon_params,
            return_type: None,
        };
        let apply = FunctionBuilder {
            name: "Apply".to_owned(),
            flags: FunctionFlags::new(),
            params: apply_params,
            return_type: Some(Type::Top),
        };
        let ghost outline = closure_outline(
            typed_locals(params@),
            typed_locals(captures@),
            id as nat,
        );
        assert(summoner@.params =~= outline.methods[0].params);
        assert(apply@.params =~= outline.methods[1].params);
        let mut methods: Vec<FunctionBuilder> = Vec::new();
        methods.push(summoner);
        methods.push(apply);
        let r = ClassBuilder { name: names::lambda(id), methods, fields };
        assert(r@.methods =~= outline.methods);
        assert(r@.fields =~= outline.fields);
        r
    }

    /// Gives the method `summoner` of a lambda class its code: it makes an object that keeps
    /// the parameters.
    fn impl_summoner(
        class: PoolIndex<PoolClass>,
        summoner: PoolIndex<Function>,
        pool: &mut ConstantPool,
    )
        requires
            implement_summoner(class, summoner, old(pool)@) is Some,
        ensures
            Some(final(pool)@) == implement_summoner(class, summoner, old(pool)@),
    {
        let name: PoolIndex<CName> = pool.definition(class.index).unwrap().name;
        let class_type: PoolIndex<PoolType> = pool.add_definition(
            Definition::type_(name, PoolType::Class),
        );
        let ref_type: PoolIndex<PoolType> = pool.add_definition(
            Definition::type_(name, PoolType::Ref(class_type)),
        );
        let self_name: PoolIndex<CName> = pool.add_name(&"self".to_owned());
        let this: PoolIndex<PoolLocal> = pool.add_definition(
            Definition::local(self_name, summoner, PoolLocal::new(ref_type, LocalFlags::new())),
        );

        let fields: &Vec<PoolIndex<PoolField>> = &pool.class(class).unwrap().fields;
        let function: &Function = pool.function(summoner).unwrap();
        let params: &Vec<PoolIndex<PoolParam>> = &function.parameters;
        let mut code: Vec<Instr<Offset>> = Vec::new();
        code.push(Instr::Assign);
        code.push(Instr::Local(this));
        code.push(Instr::New(class));
        let ghost head = code@;
        let ghost n = passed(fields@.len(), params@.len());
        let mut i: usize = 0;
        while i < fields.len() && i < params.len()
            invariant
                i <= n,
                n == passed(fields@.len(), params@.len()),
                code@ == head + field_stores(this, fields@, params@, i as nat),
            decreases n - i,
        {
            code.push(Instr::Assign);
            code.push(Instr::Context(Offset::new(0)));
            code.push(Instr::Local(this));
            code.push(Instr::ObjectField(fields[i]));
            code.push(Instr::Param(params[i]));
            i = i + 1;
            assert(code@ =~= head + field_stores(this, fields@, params@, i as nat));
        }
        code.push(Instr::Return);
        code.push(Instr::Local(this));
        assert(code@ =~= summoner_code(this, class, fields@, params@));

        let mut locals: Vec<PoolIndex<PoolLocal>> = Vec::new();
        locals.push(this);
        assert(locals@ =~= seq![this]);
        let done = Function {
            flags: function.flags,
            return_type: Some(ref_type),
            parameters: function.parameters.clone(),
            locals,
            code: Code(code),
        };
        pool.put_value(summoner.index, AnyDefinition::Function(done));
    }

    /// Lays out the code of a function that is complete.
    fn into_code(self) -> (r: (IndexVec<PoolLocal>, Code<Offset>))
        requires
            fits(self.instructions@),
            labels_below(self.instructions@, self.labels as nat),
        ensures
            r.0@ == self.locals@.indices,
            r.1@ == resolved(self.instructions@, self.instructions@.len() as int),
    {
        let code: Code<Offset> = resolve_code(&self.instructions, self.labels);
        (self.locals.indices, code)
    }

    /// Generates the function with the given body. With `yields`, it returns the value of
    /// the body.
    fn build_body(
        body: &Expr,
        yields: bool,
        params: LocalIndices<PoolParam>,
        captures: LocalIndices<PoolField>,
        type_repo: &'ctx TypeRepo,
        db: &'ctx CompilationDb,
        pool: &mut ConstantPool,
        cache: &mut TypeCache,
    ) -> (r: (IndexVec<PoolLocal>, Code<Offset>))
        requires
            build(
                Scope { params: params@, captures: captures@, repo: *type_repo, db: *db },
                *body,
                yields,
                old(pool)@,
                old(cache)@,
            ) is Some,
        ensures
            Some(
                Built { locals: r.0@, code: r.1@, pool: final(pool)@, cache: final(cache)@ },
            ) == build(
                Scope { params: params@, captures: captures@, repo: *type_repo, db: *db },
                *body,
                yields,
                old(pool)@,
                old(cache)@,
            ),
        decreases body, 1nat,
    {
        let ghost scope = Scope {
            params: params@,
            captures: captures@,
            repo: *type_repo,
            db: *db,
        };
        let ghost before = (pool@, cache@);
        let mut assembler: CodeGen<'ctx> = Self::new(params, captures, type_repo, db);
        if yields {
            assembler.emit(Instr::Return);
        }
        assert(assembler.state(pool@, cache@) =~= enter(yields, pool@, cache@));
        assembler.assemble_with(body, pool, cache, None);
        proof {
            law_labels_placed_once(scope, *body, yields, before.0, before.1);
        }
        assembler.emit(Instr::Nop);
        assembler.into_code()
    }

    /// Generates the function whose body is `expr`: its locals in the order of their
    /// declarations, and its code. Whatever the code refers to that is not there yet is
    /// added to the pool.
    pub fn build_expr(
        expr: Expr,
        params: LocalIndices<PoolParam>,
        captures: LocalIndices<PoolField>,
        type_repo: &'ctx TypeRepo,
        db: &'ctx CompilationDb,
        pool: &mut ConstantPool,
        cache: &mut TypeCache,
    ) -> (r: (IndexVec<PoolLocal>, Code<Offset>))
        requires
            build(
                Scope { params: params@, captures: captures@, repo: *type_repo, db: *db },
                expr,
                false,
                old(pool)@,
                old(cache)@,
            ) is Some,
        ensures
            Some(
                Built { locals: r.0@, code: r.1@, pool: final(pool)@, cache: final(cache)@ },
            ) == build(
                Scope { params: params@, captures: captures@, repo: *type_repo, db: *db },
                expr,
                false,
                old(pool)@,
                old(cache)@,
            ),
            grows(old(pool)@, final(pool)@),
            consistent(old(pool)@, old(cache)@) ==> consistent(final(pool)@, final(cache)@),
            ready(
                Scope { params: params@, captures: captures@, repo: *type_repo, db: *db },
                old(pool)@,
                old(cache)@,
            ) ==> {
                &&& ready(
                    Scope { params: params@, captures: captures@, repo: *type_repo, db: *db },
                    final(pool)@,
                    final(cache)@,
                )
                &&& are_locals(final(pool)@, r.0@)
                &&& refers_all(final(pool)@, r.1@)
            },
    {
        let ghost scope = Scope {
            params: params@,
            captures: captures@,
            repo: *type_repo,
            db: *db,
        };
        proof {
            law_build_adds(scope, expr, false, pool@, cache@);
            if ready(scope, pool@, cache@) {
                law_build_sound(scope, expr, false, pool@, cache@);
            }
        }
        let r = Self::build_body(&expr, false, params, captures, type_repo, db, pool, cache);
        proof {
            lemma_pool_numbered(pool);
        }
        r
    }

    /// Generates the function that evaluates the expressions of `seq` one after the other.
    /// It keeps nothing from a function around it.
    pub fn build_function(
        seq: Block,
        params: LocalIndices<PoolParam>,
        type_repo: &'ctx TypeRepo,
        db: &'ctx CompilationDb,
        pool: &mut ConstantPool,
        cache: &mut TypeCache,
    ) -> (r: (IndexVec<PoolLocal>, Code<Offset>))
        requires
            build(
                Scope {
                    params: params@,
                    captures: IndicesView::none(),
                    repo: *type_repo,
                    db: *db,
                },
                Expr::Block(seq),
                false,
                old(pool)@,
                old(cache)@,
            ) is Some,
        ensures
            Some(
                Built { locals: r.0@, code: r.1@, pool: final(pool)@, cache: final(cache)@ },
            ) == build(
                Scope {
                    params: params@,
                    captures: IndicesView::none(),
                    repo: *type_repo,
                    db: *db,
                },
                Expr::Block(seq),
                false,
                old(pool)@,
                old(cache)@,
            ),
            grows(old(pool)@, final(pool)@),
            consistent(old(pool)@, old(cache)@) ==> consistent(final(pool)@, final(cache)@),
            ready(
                Scope {
                    params: params@,
                    captures: IndicesView::none(),
                    repo: *type_repo,
                    db: *db,
                },
                old(pool)@,
                old(cache)@,
            ) ==> {
                &&& ready(
                    Scope {
                        params: params@,
                        captures: IndicesView::none(),
                        repo: *type_repo,
                        db: *db,
                    },
                    final(pool)@,
                    final(cache)@,
                )
                &&& are_locals(final(pool)@, r.0@)
                &&& refers_all(final(pool)@, r.1@)
            },
    {
        Self::build_expr(
            Expr::Block(seq),
            params,
            LocalIndices::default(),
            type_repo,
            db,
            pool,
            cache,
        )
    }
}

/// Another map from the same locals to types that say the same.
fn duplicate_map(map: &IndexMap<Type>) -> (r: IndexMap<Type>)
    ensures
        typed_locals(r@) == typed_locals(map@),
{
    let mut r: IndexMap<Type> = IndexMap::new();
    let len: usize = map.len();
    let mut i: usize = 0;
    while i < len
        invariant
            i <= len == map@.len(),
            entry_keys(map@).no_duplicates(),
            typed_locals(r@) == typed_locals(map@).take(i as int),
        decreases len - i,
    {
        let (loc, typ) = map.get_index(i).unwrap();
        let copy: Type = typ.duplicate();
        proof {
            lemma_typed_locals(r@, loc, copy);
            assert(entry_keys(typed_locals(map@)) =~= entry_keys(map@));
            lemma_next_key(typed_locals(map@), i as int);
        }
        r.insert(loc, copy);
        assert(typed_locals(r@) =~= typed_locals(map@).take(i + 1));
        i = i + 1;
    }
    assert(typed_locals(map@).take(len as int) =~= typed_locals(map@));
    r
}

/// The locals that a lambda keeps, with their types.
fn capture_types(map: &IndexMap<(Type, Local)>) -> (r: IndexMap<Type>)
    ensures
        typed_locals(r@) == map@.map_values(|e: (Local, (Type, Local))| (e.0, e.1.0@)),
{
    let mut r: IndexMap<Type> = IndexMap::new();
    let ghost whole = map@.map_values(|e: (Local, (Type, Local))| (e.0, e.1.0@));
    let len: usize = map.len();
    let mut i: usize = 0;
    while i < len
        invariant
            i <= len == map@.len(),
            entry_keys(map@).no_duplicates(),
            whole == map@.map_values(|e: (Local, (Type, Local))| (e.0, e.1.0@)),
            typed_locals(r@) == whole.take(i as int),
        decreases len - i,
    {
        let (loc, capture) = map.get_index(i).unwrap();
        let copy: Type = capture.0.duplicate();
        proof {
            lemma_typed_locals(r@, loc, copy);
            assert(entry_keys(whole) =~= entry_keys(map@));
            lemma_next_key(whole, i as int);
        }
        r.insert(loc, copy);
        assert(typed_locals(r@) =~= whole.take(i + 1));
        i = i + 1;
    }
    assert(whole.take(len as int) =~= whole);
    r
}

/// A key does not occur among the entries before its own.
proof fn lemma_next_key<V>(entries: Seq<(Local, V)>, i: int)
    requires
        0 <= i < entries.len(),
        entry_keys(entries).no_duplicates(),
    ensures
        key_index(entries.take(i), entries[i].0) is None,
{
    let keys = entry_keys(entries.take(i));
    keys.index_of_first_ensures(entries[i].0);
    if keys.contains(entries[i].0) {
        let j = choose|j: int| 0 <= j < keys.len() && keys[j] == entries[i].0;
        assert(entry_keys(entries)[j] == entry_keys(entries)[i]);
    }
}

/// What is generated of a prefix is generated of the whole.
proof fn lemma_translate_all_prefix(
    scope: Scope,
    exprs: Seq<Expr>,
    m: nat,
    n: nat,
    exit: Option<Label>,
    st: GenState,
)
    requires
        m <= n <= exprs.len(),
        translate_all(scope, exprs, n, exit, st) is Some,
    ensures
        translate_all(scope, exprs, m, exit, st) is Some,
    decreases n - m,
{
    if m < n {
        lemma_translate_all_prefix(scope, exprs, m, (n - 1) as nat, exit, st);
    }
}

proof fn lemma_translate_args_prefix(
    scope: Scope,
    args: Seq<Expr>,
    flags: Seq<bool>,
    m: nat,
    n: nat,
    st: GenState,
)
    requires
        m <= n <= args.len(),
        translate_args(scope, args, flags, n, st) is Some,
    ensures
        translate_args(scope, args, flags, m, st) is Some,
    decreases n - m,
{
    if m < n {
        lemma_translate_args_prefix(scope, args, flags, m, (n - 1) as nat, st);
    }
}

proof fn lemma_ready_args_prefix(
    instrs: Seq<Instr<Label>>,
    flags: Seq<bool>,
    m: nat,
    n: nat,
    st: GenState,
)
    requires
        m <= n,
        ready_args(instrs, flags, n, st) is Some,
    ensures
        ready_args(instrs, flags, m, st) is Some,
    decreases n - m,
{
    if m < n {
        lemma_ready_args_prefix(instrs, flags, m, (n - 1) as nat, st);
    }
}

} // verus!
