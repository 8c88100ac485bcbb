//! What code each construct has, in terms of the code of its parts.

use crate::ast::{
    Block, CallMeta, Callable, Constant, Expr, Literal, Local, Member, Span,
};
use crate::builders::{commit_typed, TypedKind, TypedName};
use crate::bytecode::{fits, resolved, Instr, Intrinsic, Label};
use crate::index_vec::can_grow;
use crate::names::local_name;
use crate::pool::{intern, pool_index, CName, Function, PoolIndex, PoolLocal, PoolView};
use crate::progress::{advances, law_translation_adds};
use crate::translation::{
    build, enter, open_static_call, passed, ready_args, ready_call, translate, translate_all,
    translate_args, translate_intrinsic, translate_static_call, translate_virtual_call, GenState,
    IndicesView, Scope,
};
use crate::type_cache::{alloc_type, CacheView};
use crate::types::{FieldId, GlobalId, MethodId, Parameterized, Type, TypeId, TypeView, ARRAY};
use vstd::prelude::*;

verus! {

/// A local is read by one instruction, which names its entry among the locals, the
/// parameters or the captures of the function. One without an entry has no code.
pub proof fn law_ident(scope: Scope, i: u16, span: Span, exit: Option<Label>, st: GenState)
    ensures
        translate(scope, Expr::Ident(Local::Var(i), span), exit, st) == match st.locals.index_of(
            Local::Var(i),
        ) {
            Some(at) => Some(GenState { code: st.code.push(Instr::Local(at)), ..st }),
            None => None,
        },
        translate(scope, Expr::Ident(Local::Param(i), span), exit, st)
            == match scope.params.index_of(Local::Param(i)) {
            Some(at) => Some(GenState { code: st.code.push(Instr::Param(at)), ..st }),
            None => None,
        },
        translate(scope, Expr::Ident(Local::Capture(i), span), exit, st)
            == match scope.captures.index_of(Local::Capture(i)) {
            Some(at) => Some(GenState { code: st.code.push(Instr::ObjectField(at)), ..st }),
            None => None,
        },
        translate(scope, Expr::Ident(Local::This, span), exit, st) == Some(
            GenState { code: st.code.push(Instr::This), ..st },
        ),
{
}

/// A number or a truth value is one instruction that holds it.
pub proof fn law_plain_constant(
    scope: Scope,
    constant: Constant,
    span: Span,
    exit: Option<Label>,
    st: GenState,
)
    requires
        !(constant is String),
    ensures
        translate(scope, Expr::Constant(constant, span), exit, st) matches Some(after) && {
            &&& after.code.len() == st.code.len() + 1
            &&& after == (GenState { code: st.code.push(after.code.last()), ..st })
            &&& constant matches Constant::I32(x) ==> after.code.last() == Instr::<
                Label,
            >::I32Const(x)
            &&& constant matches Constant::I64(x) ==> after.code.last() == Instr::<
                Label,
            >::I64Const(x)
            &&& constant matches Constant::U32(x) ==> after.code.last() == Instr::<
                Label,
            >::U32Const(x)
            &&& constant matches Constant::U64(x) ==> after.code.last() == Instr::<
                Label,
            >::U64Const(x)
            &&& constant matches Constant::F32(x) ==> after.code.last() == Instr::<
                Label,
            >::F32Const(x)
            &&& constant matches Constant::F64(x) ==> after.code.last() == Instr::<
                Label,
            >::F64Const(x)
            &&& constant matches Constant::Bool(x) ==> after.code.last() == if x {
                Instr::<Label>::TrueConst
            } else {
                Instr::<Label>::FalseConst
            }
        },
{
}

/// The text `text` stands in `table` at `index`, where it stands in `before` already if it
/// does at all. Nothing else is new in `table`.
pub open spec fn stands_at(
    before: Seq<Seq<char>>,
    table: Seq<Seq<char>>,
    text: Seq<char>,
    index: usize,
) -> bool {
    &&& index < table.len()
    &&& table[index as int] == text
    &&& if before.contains(text) {
        table == before
    } else {
        table == before.push(text)
    }
}

/// A quoted literal is one instruction that names where its text stands, in the part of
/// the pool that the literal belongs to. No other part changes.
pub proof fn law_text_constant(
    scope: Scope,
    literal: Literal,
    text: String,
    span: Span,
    exit: Option<Label>,
    st: GenState,
)
    requires
        st.pool.names.len() <= usize::MAX,
        st.pool.strings.len() <= usize::MAX,
        st.pool.resources.len() <= usize::MAX,
        st.pool.tweakdb_ids.len() <= usize::MAX,
    ensures
        translate(scope, Expr::Constant(Constant::String(literal, text), span), exit, st)
            matches Some(after) && {
            &&& after.code.len() == st.code.len() + 1
            &&& after == (GenState {
                code: st.code.push(after.code.last()),
                pool: after.pool,
                ..st
            })
            &&& literal is String ==> {
                &&& after.code.last() matches Instr::StringConst(i) && stands_at(
                    st.pool.strings,
                    after.pool.strings,
                    text@,
                    i.index,
                )
                &&& after.pool == (PoolView { strings: after.pool.strings, ..st.pool })
            }
            &&& literal is Name ==> {
                &&& after.code.last() matches Instr::NameConst(i) && stands_at(
                    st.pool.names,
                    after.pool.names,
                    text@,
                    i.index,
                )
                &&& after.pool == (PoolView { names: after.pool.names, ..st.pool })
            }
            &&& literal is Resource ==> {
                &&& after.code.last() matches Instr::ResourceConst(i) && stands_at(
                    st.pool.resources,
                    after.pool.resources,
                    text@,
                    i.index,
                )
                &&& after.pool == (PoolView { resources: after.pool.resources, ..st.pool })
            }
            &&& literal is TweakDbId ==> {
                &&& after.code.last() matches Instr::TweakDbIdConst(i) && stands_at(
                    st.pool.tweakdb_ids,
                    after.pool.tweakdb_ids,
                    text@,
                    i.index,
                )
                &&& after.pool == (PoolView { tweakdb_ids: after.pool.tweakdb_ids, ..st.pool })
            }
        },
{
    st.pool.names.index_of_first_ensures(text@);
    st.pool.strings.index_of_first_ensures(text@);
    st.pool.resources.index_of_first_ensures(text@);
    st.pool.tweakdb_ids.index_of_first_ensures(text@);
}

/// A declaration gives the local an entry of its own, under its name and with its type.
/// With a value, it is followed by the assignment of the value to that entry. A
/// declaration without a type has no code.
pub proof fn law_declare(
    scope: Scope,
    local: Local,
    typ: Type,
    value: Expr,
    span: Span,
    exit: Option<Label>,
    st: GenState,
)
    ensures
        translate(scope, Expr::Declare(local, None, None, span), exit, st) is None,
        translate(scope, Expr::Declare(local, None, Some(Box::new(value)), span), exit, st) is None,
        ({
            let entry = commit_typed::<PoolLocal>(
                TypedName { name: local_name(local), typ: typ@ },
                TypedKind::Local,
                None,
                scope.repo,
                st.pool,
                st.cache,
            );
            let bare = translate(scope, Expr::Declare(local, Some(typ), None, span), exit, st);
            let full = translate(
                scope,
                Expr::Declare(local, Some(typ), Some(Box::new(value)), span),
                exit,
                st,
            );
            &&& bare is Some <==> entry is Some && can_grow(st.locals.indices.len())
            &&& bare matches Some(declared) ==> {
                &&& declared.code == st.code
                &&& declared.labels == st.labels
                &&& declared.pool == (entry->0).pool
                &&& declared.cache == (entry->0).cache
                &&& declared.locals.indices == st.locals.indices.push((entry->0).index)
                &&& declared.locals == st.locals.with(local, typ@, (entry->0).index)
                &&& full == translate(
                    scope,
                    value,
                    None,
                    GenState {
                        code: st.code + seq![Instr::Assign, Instr::Local((entry->0).index)],
                        ..declared
                    },
                )
            }
            &&& bare is None ==> full is None
        }),
{
    let bare = translate(scope, Expr::Declare(local, Some(typ), None, span), exit, st);
    if let Some(declared) = bare {
        let index = declared.locals.indices.last();
        assert(st.code.push(Instr::Assign).push(Instr::Local(index)) =~= st.code + seq![
            Instr::Assign,
            Instr::Local(index),
        ]);
    }
}

/// A cast to a class is the instruction that names the class, then the value.
pub proof fn law_dyn_cast(
    scope: Scope,
    target: Parameterized,
    value: Expr,
    span: Span,
    exit: Option<Label>,
    st: GenState,
)
    ensures
        translate(scope, Expr::DynCast(target, Box::new(value), span), exit, st)
            == match scope.db.class_entry(target.id) {
            Some(class) => translate(
                scope,
                value,
                None,
                GenState { code: st.code.push(Instr::DynamicCast(class, 0)), ..st },
            ),
            None => None,
        },
{
}

/// An assignment is followed by the code of its left side, then by that of its right side.
pub proof fn law_assign(
    scope: Scope,
    left: Expr,
    right: Expr,
    typ: Type,
    span: Span,
    exit: Option<Label>,
    st: GenState,
)
    ensures
        ({
            let target = translate(
                scope,
                left,
                None,
                GenState { code: st.code.push(Instr::Assign), ..st },
            );
            translate(
                scope,
                Expr::Assign(Box::new(left), Box::new(right), typ, span),
                exit,
                st,
            ) == if target is Some {
                translate(scope, right, None, target->0)
            } else {
                None
            }
        }),
{
}

/// A field of an object is read in the context of the object, a field of a struct before
/// the struct.
pub proof fn law_member(
    scope: Scope,
    object: Expr,
    id: FieldId,
    span: Span,
    exit: Option<Label>,
    st: GenState,
)
    ensures
        ({
            let end = Label { index: st.labels as usize };
            let whole = translate(
                scope,
                Expr::Member(Box::new(object), Member::ClassField(id), span),
                exit,
                st,
            );
            let inner = translate(
                scope,
                object,
                None,
                GenState {
                    code: st.code.push(Instr::Context(end)),
                    labels: st.labels + 1,
                    ..st
                },
            );
            let field = scope.db.field_entry(id);
            &&& whole is Some <==> st.labels < usize::MAX && inner is Some && field is Some
            &&& whole matches Some(after) ==> after == (GenState {
                code: (inner->0).code + seq![Instr::ObjectField(field->0), Instr::Target(end)],
                ..inner->0
            })
        }),
        translate(scope, Expr::Member(Box::new(object), Member::StructField(id), span), exit, st)
            == match scope.db.field_entry(id) {
            Some(field) => translate(
                scope,
                object,
                None,
                GenState { code: st.code.push(Instr::StructField(field)), ..st },
            ),
            None => None,
        },
{
    let whole = translate(
        scope,
        Expr::Member(Box::new(object), Member::ClassField(id), span),
        exit,
        st,
    );
    if let Some(after) = whole {
        let inner = translate(
            scope,
            object,
            None,
            (st.new_label()->0).1.emit(Instr::Context((st.new_label()->0).0)),
        )->0;
        assert(after.code =~= inner.code + seq![
            Instr::ObjectField(scope.db.field_entry(id)->0),
            Instr::Target(Label { index: st.labels as usize }),
        ]);
    }
}

/// An element of an array is read by an instruction that names the type of the array,
/// followed by the array and then by the index.
pub proof fn law_array_elem(
    scope: Scope,
    array: Expr,
    index: Expr,
    elem: Type,
    span: Span,
    exit: Option<Label>,
    st: GenState,
)
    ensures
        ({
            let typ = alloc_type(
                TypeView::Data(TypeId { id: ARRAY }, seq![elem@]),
                scope.repo,
                st.pool,
                st.cache,
            );
            let first = translate(
                scope,
                array,
                None,
                GenState {
                    code: st.code.push(Instr::ArrayElement((typ->0).index)),
                    pool: (typ->0).pool,
                    cache: (typ->0).cache,
                    ..st
                },
            );
            translate(
                scope,
                Expr::ArrayElem(Box::new(array), Box::new(index), elem, span),
                exit,
                st,
            ) == if typ is Some && first is Some {
                translate(scope, index, None, first->0)
            } else {
                None
            }
        }),
{
}

/// What has no parts is one instruction.
pub proof fn law_leaves(
    scope: Scope,
    typ: Parameterized,
    args: Vec<Expr>,
    span: Span,
    exit: Option<Label>,
    st: GenState,
)
    ensures
        translate(scope, Expr::New(typ, args, span), exit, st) == match scope.db.class_entry(
            typ.id,
        ) {
            Some(class) => Some(GenState { code: st.code.push(Instr::New(class)), ..st }),
            None => None,
        },
        translate(scope, Expr::Null(span), exit, st) == Some(
            GenState { code: st.code.push(Instr::Null), ..st },
        ),
        translate(scope, Expr::This(span), exit, st) == Some(
            GenState { code: st.code.push(Instr::This), ..st },
        ),
        translate(scope, Expr::Super(span), exit, st) == Some(
            GenState { code: st.code.push(Instr::This), ..st },
        ),
        translate(scope, Expr::Break(span), exit, st) == match exit {
            Some(label) => Some(GenState { code: st.code.push(Instr::Jump(label)), ..st }),
            None => None,
        },
{
}

/// A `return` is followed by its value, or by an instruction that does nothing.
pub proof fn law_return(
    scope: Scope,
    value: Expr,
    span: Span,
    exit: Option<Label>,
    st: GenState,
)
    ensures
        translate(scope, Expr::Return(Some(Box::new(value)), span), exit, st) == translate(
            scope,
            value,
            None,
            GenState { code: st.code.push(Instr::Return), ..st },
        ),
        translate(scope, Expr::Return(None, span), exit, st) == Some(
            GenState { code: st.code + seq![Instr::Return, Instr::Nop], ..st },
        ),
{
    assert(st.code.push(Instr::Return).push(Instr::Nop) =~= st.code + seq![
        Instr::Return,
        Instr::Nop,
    ]);
}

/// A block without expressions has no code. One more expression at its end is generated
/// after the rest of the block, and a `break` in it leaves for where those of the block
/// leave for.
pub proof fn law_block(
    scope: Scope,
    whole: Block,
    front: Block,
    last: Expr,
    exit: Option<Label>,
    st: GenState,
)
    requires
        whole.exprs@ == front.exprs@.push(last),
    ensures
        ({
            let before = translate(scope, Expr::Block(front), exit, st);
            translate(scope, Expr::Block(whole), exit, st) == if before is Some {
                translate(scope, last, exit, before->0)
            } else {
                None
            }
        }),
        front.exprs@.len() == 0 ==> translate(scope, Expr::Block(front), exit, st) == Some(st),
{
    lemma_same_prefix(scope, whole.exprs@, front.exprs@, front.exprs@.len(), exit, st);
    let n = whole.exprs@.len();
    assert(whole.exprs@[n - 1] == last);
    assert(translate_all(scope, whole.exprs@, n, exit, st) == match translate_all(
        scope,
        whole.exprs@,
        (n - 1) as nat,
        exit,
        st,
    ) {
        Some(before) => translate(scope, last, exit, before),
        None => None,
    });
}

proof fn lemma_same_prefix(
    scope: Scope,
    s: Seq<Expr>,
    t: Seq<Expr>,
    n: nat,
    exit: Option<Label>,
    st: GenState,
)
    requires
        n <= s.len(),
        n <= t.len(),
        forall|i: int| 0 <= i < n ==> #[trigger] s[i] == t[i],
    ensures
        translate_all(scope, s, n, exit, st) == translate_all(scope, t, n, exit, st),
    decreases n,
{
    if n > 0 {
        lemma_same_prefix(scope, s, t, (n - 1) as nat, exit, st);
        assert(s[n - 1] == t[n - 1]);
    }
}

/// An `if` skips the block behind its condition where that is false. A `break` in that
/// block leaves for where one in place of the `if` would leave for. With an `else`, the
/// first block ends in a jump over the second, and a `break` in the second leads to the
/// end of the `if`.
pub proof fn law_if(
    scope: Scope,
    condition: Expr,
    then: Block,
    otherwise: Block,
    span: Span,
    exit: Option<Label>,
    st: GenState,
)
    ensures
        ({
            let past = Label { index: st.labels as usize };
            let tested = translate(
                scope,
                condition,
                None,
                GenState {
                    code: st.code.push(Instr::JumpIfFalse(past)),
                    labels: st.labels + 1,
                    ..st
                },
            );
            let taken = translate(scope, Expr::Block(then), exit, tested->0);
            let end = Label { index: (taken->0).labels as usize };
            let other = translate(
                scope,
                Expr::Block(otherwise),
                Some(end),
                GenState {
                    code: (taken->0).code + seq![Instr::Jump(end), Instr::Target(past)],
                    labels: (taken->0).labels + 1,
                    ..taken->0
                },
            );
            let short = translate(
                scope,
                Expr::If(Box::new(condition), then, None, span),
                exit,
                st,
            );
            let long = translate(
                scope,
                Expr::If(Box::new(condition), then, Some(otherwise), span),
                exit,
                st,
            );
            &&& short is Some <==> st.labels < usize::MAX && tested is Some && taken is Some
            &&& short matches Some(after) ==> after == (GenState {
                code: (taken->0).code.push(Instr::Target(past)),
                ..taken->0
            })
            &&& long is Some <==> short is Some && (taken->0).labels < usize::MAX && other is Some
            &&& long matches Some(after) ==> after == (GenState {
                code: (other->0).code.push(Instr::Target(end)),
                ..other->0
            })
        }),
{
    let past = Label { index: st.labels as usize };
    let begun = GenState {
        code: st.code.push(Instr::JumpIfFalse(past)),
        labels: st.labels + 1,
        ..st
    };
    let tested = translate(scope, condition, None, begun);
    let taken = translate(scope, Expr::Block(then), exit, tested->0);
    let end = Label { index: (taken->0).labels as usize };
    let code = (taken->0).code;
    assert(code.push(Instr::Jump(end)).push(Instr::Target(past)) =~= code + seq![
        Instr::Jump(end),
        Instr::Target(past),
    ]);
    let between = GenState {
        code: code + seq![Instr::Jump(end), Instr::Target(past)],
        labels: (taken->0).labels + 1,
        ..taken->0
    };
    let other = translate(scope, Expr::Block(otherwise), Some(end), between);
}

/// A conditional expression is followed by its condition, its first value and its second
/// value. It refers to the place of the second value and to the end.
pub proof fn law_conditional(
    scope: Scope,
    condition: Expr,
    then: Expr,
    otherwise: Expr,
    span: Span,
    exit: Option<Label>,
    st: GenState,
)
    ensures
        ({
            let second = Label { index: st.labels as usize };
            let end = Label { index: (st.labels + 1) as usize };
            let tested = translate(
                scope,
                condition,
                None,
                GenState {
                    code: st.code.push(Instr::Conditional(second, end)),
                    labels: st.labels + 2,
                    ..st
                },
            );
            let one = translate(scope, then, None, tested->0);
            let two = translate(
                scope,
                otherwise,
                None,
                GenState { code: (one->0).code.push(Instr::Target(second)), ..one->0 },
            );
            let whole = translate(
                scope,
                Expr::Conditional(
                    Box::new(condition),
                    Box::new(then),
                    Box::new(otherwise),
                    span,
                ),
                exit,
                st,
            );
            &&& whole is Some <==> st.labels + 1 < usize::MAX && tested is Some && one is Some
                && two is Some
            &&& whole matches Some(after) ==> after == (GenState {
                code: (two->0).code.push(Instr::Target(end)),
                ..two->0
            })
        }),
{
}

/// A `while` tests its condition, runs its body and jumps back to the test. Where the
/// condition is false it goes on behind the jump back, and a `break` in the body leads to
/// the same place, whatever the `while` stands in.
pub proof fn law_while(
    scope: Scope,
    condition: Expr,
    body: Block,
    span: Span,
    exit: Option<Label>,
    st: GenState,
)
    ensures
        ({
            let end = Label { index: st.labels as usize };
            let again = Label { index: (st.labels + 1) as usize };
            let tested = translate(
                scope,
                condition,
                None,
                GenState {
                    code: st.code + seq![Instr::Target(again), Instr::JumpIfFalse(end)],
                    labels: st.labels + 2,
                    ..st
                },
            );
            let run = translate(scope, Expr::Block(body), Some(end), tested->0);
            let whole = translate(
                scope,
                Expr::While(Box::new(condition), body, span),
                exit,
                st,
            );
            &&& whole is Some <==> st.labels + 1 < usize::MAX && tested is Some && run is Some
            &&& whole matches Some(after) ==> after == (GenState {
                code: (run->0).code + seq![Instr::Jump(again), Instr::Target(end)],
                ..run->0
            })
        }),
{
    let end = Label { index: st.labels as usize };
    let again = Label { index: (st.labels + 1) as usize };
    assert(st.code.push(Instr::Target(again)).push(Instr::JumpIfFalse(end)) =~= st.code + seq![
        Instr::Target(again),
        Instr::JumpIfFalse(end),
    ]);
    let begun = GenState {
        code: st.code + seq![Instr::Target(again), Instr::JumpIfFalse(end)],
        labels: st.labels + 2,
        ..st
    };
    let tested = translate(scope, condition, None, begun);
    let run = translate(scope, Expr::Block(body), Some(end), tested->0);
    let code = (run->0).code;
    assert(code.push(Instr::Jump(again)).push(Instr::Target(end)) =~= code + seq![
        Instr::Jump(again),
        Instr::Target(end),
    ]);
}

/// Some expressions have no code.
pub proof fn law_unsupported(scope: Scope, expr: Expr, exit: Option<Label>, st: GenState)
    requires
        expr is ArrayLit || expr is InterpolatedString || expr is Switch || expr is ForIn || expr
            is BinOp || expr is UnOp || expr is Goto,
    ensures
        translate(scope, expr, exit, st) is None,
{
}

/// The parameters of a function are all known.
pub open spec fn params_known(pool: PoolView, index: PoolIndex<Function>) -> bool {
    pool.function(index) matches Some(f) && forall|i: int|
        #![trigger f.parameters[i]]
        0 <= i < f.parameters.len() ==> pool.parameter(f.parameters[i]) is Some
}

/// A call without arguments names the function and where the call ends.
pub proof fn law_static_call_bare(scope: Scope, index: PoolIndex<Function>, st: GenState)
    ensures
        ({
            let end = Label { index: st.labels as usize };
            let bare = translate_static_call(scope, index, Seq::empty(), st);
            &&& bare is Some <==> st.labels < usize::MAX && params_known(st.pool, index)
            &&& bare matches Some(after) ==> after == (GenState {
                code: st.code + seq![
                    Instr::InvokeStatic(end, 0, index, 0),
                    Instr::ParamEnd,
                    Instr::Target(end),
                ],
                labels: st.labels + 1,
                ..st
            })
        }),
{
    let end = Label { index: st.labels as usize };
    if let Some((exit, flags, s1)) = open_static_call(index, st) {
        assert(translate_args(scope, Seq::empty(), flags, 0, s1) == Some(s1));
        assert(s1.close_call(exit).code =~= st.code + seq![
            Instr::InvokeStatic(end, 0, index, 0),
            Instr::ParamEnd,
            Instr::Target(end),
        ]);
    }
}

/// A call with one more argument is the call without it, with the code of the argument
/// before the end of the arguments. Where the argument is evaluated only when asked for,
/// its code stands between a `Skip` and the mark that this leads to. An argument without a
/// parameter makes no difference.
pub proof fn law_static_call_next(
    scope: Scope,
    index: PoolIndex<Function>,
    args: Seq<Expr>,
    arg: Expr,
    st: GenState,
)
    ensures
        ({
            let end = Label { index: st.labels as usize };
            let params = (st.pool.function(index)->0).parameters;
            let fewer = translate_static_call(scope, index, args, st);
            let more = translate_static_call(scope, index, args.push(arg), st);
            let n = (fewer->0).code.len() - 2;
            let front = (fewer->0).code.take(n);
            let skip = Label { index: (fewer->0).labels as usize };
            let plain = translate(scope, arg, None, GenState { code: front, ..fewer->0 });
            let lazy = translate(
                scope,
                arg,
                None,
                GenState {
                    code: front.push(Instr::Skip(skip)),
                    labels: (fewer->0).labels + 1,
                    ..fewer->0
                },
            );
            &&& fewer is None ==> more is None
            &&& fewer is Some ==> {
                &&& n > st.code.len()
                &&& (fewer->0).code == front + seq![Instr::ParamEnd, Instr::Target(end)]
                &&& args.len() >= params.len() ==> more == fewer
                &&& args.len() < params.len() ==> {
                    let short = (st.pool.parameter(
                        params[args.len() as int],
                    )->0).flags.is_short_circuit;
                    &&& !short ==> {
                        &&& more is Some <==> plain is Some
                        &&& more matches Some(after) ==> after == (GenState {
                            code: (plain->0).code + seq![Instr::ParamEnd, Instr::Target(end)],
                            ..plain->0
                        })
                    }
                    &&& short ==> {
                        &&& more is Some <==> (fewer->0).labels < usize::MAX && lazy is Some
                        &&& more matches Some(after) ==> after == (GenState {
                            code: (lazy->0).code + seq![
                                Instr::Target(skip),
                                Instr::ParamEnd,
                                Instr::Target(end),
                            ],
                            ..lazy->0
                        })
                    }
                }
            }
        }),
{
    let more = args.push(arg);
    let m = args.len();
    if let Some((exit, flags, s1)) = open_static_call(index, st) {
        let params = (st.pool.function(index)->0).parameters;
        assert(flags.len() == params.len());
        let n = passed(m, flags.len());
        lemma_same_args(scope, more, args, flags, n, s1);
        lemma_args_add(scope, args, flags, n, s1);
        if let Some(s2) = translate_args(scope, args, flags, n, s1) {
            let closed = s2.close_call(exit);
            assert(closed.code =~= s2.code + seq![Instr::ParamEnd, Instr::Target(exit)]);
            assert(closed.code.take(closed.code.len() - 2) =~= s2.code);
            assert(GenState { code: s2.code, ..closed } =~= s2);
            if m < params.len() {
                let k = (m + 1) as nat;
                assert(more[k - 1] == arg);
                assert(translate_args(scope, more, flags, k, s1) == if flags[m as int] {
                    match s2.new_label() {
                        Some((skip, s3)) => match translate(
                            scope,
                            arg,
                            None,
                            s3.emit(Instr::Skip(skip)),
                        ) {
                            Some(s4) => Some(s4.emit(Instr::Target(skip))),
                            None => None,
                        },
                        None => None,
                    }
                } else {
                    translate(scope, arg, None, s2)
                });
                if flags[m as int] {
                    if let Some((skip, s3)) = s2.new_label() {
                        if let Some(s4) = translate(scope, arg, None, s3.emit(Instr::Skip(skip))) {
                            assert(s4.emit(Instr::Target(skip)).close_call(exit).code =~= s4.code
                                + seq![
                                Instr::Target(skip),
                                Instr::ParamEnd,
                                Instr::Target(exit),
                            ]);
                        }
                    }
                } else {
                    if let Some(s3) = translate(scope, arg, None, s2) {
                        assert(s3.close_call(exit).code =~= s3.code + seq![
                            Instr::ParamEnd,
                            Instr::Target(exit),
                        ]);
                    }
                }
            }
        }
    }
}

proof fn lemma_same_args(
    scope: Scope,
    s: Seq<Expr>,
    t: Seq<Expr>,
    flags: Seq<bool>,
    n: nat,
    st: GenState,
)
    requires
        n <= s.len(),
        n <= t.len(),
        forall|i: int| 0 <= i < n ==> #[trigger] s[i] == t[i],
    ensures
        translate_args(scope, s, flags, n, st) == translate_args(scope, t, flags, n, st),
    decreases n,
{
    if n > 0 {
        lemma_same_args(scope, s, t, flags, (n - 1) as nat, st);
        assert(s[n - 1] == t[n - 1]);
    }
}

/// Arguments add to the code.
proof fn lemma_args_add(scope: Scope, args: Seq<Expr>, flags: Seq<bool>, n: nat, st: GenState)
    ensures
        translate_args(scope, args, flags, n, st) matches Some(after) ==> st.code.len()
            <= after.code.len(),
    decreases n,
{
    if 0 < n <= args.len() {
        lemma_args_add(scope, args, flags, (n - 1) as nat, st);
        if let Some(s1) = translate_args(scope, args, flags, (n - 1) as nat, st) {
            if flags[n - 1] {
                if let Some((skip, s2)) = s1.new_label() {
                    law_translation_adds(scope, args[n - 1], None, s2.emit(Instr::Skip(skip)));
                }
            } else {
                law_translation_adds(scope, args[n - 1], None, s1);
            }
            reveal(advances);
        }
    }
}

/// Where all arguments are evaluated at once, they are generated as a block of those that
/// have a parameter would be.
pub proof fn law_static_call_plain(
    scope: Scope,
    index: PoolIndex<Function>,
    args: Seq<Expr>,
    block: Block,
    st: GenState,
)
    requires
        st.labels < usize::MAX,
        params_known(st.pool, index),
        forall|i: int|
            #![trigger (st.pool.function(index)->0).parameters[i]]
            0 <= i < (st.pool.function(index)->0).parameters.len() ==> !(st.pool.parameter(
                (st.pool.function(index)->0).parameters[i],
            )->0).flags.is_short_circuit,
        block.exprs@ == if args.len() <= (st.pool.function(index)->0).parameters.len() {
            args
        } else {
            args.take((st.pool.function(index)->0).parameters.len() as int)
        },
    ensures
        ({
            let end = Label { index: st.labels as usize };
            let whole = translate_static_call(scope, index, args, st);
            let inner = translate(
                scope,
                Expr::Block(block),
                None,
                GenState {
                    code: st.code.push(Instr::InvokeStatic(end, 0, index, 0)),
                    labels: st.labels + 1,
                    ..st
                },
            );
            &&& whole is Some <==> inner is Some
            &&& whole matches Some(after) ==> after == (GenState {
                code: (inner->0).code + seq![Instr::ParamEnd, Instr::Target(end)],
                ..inner->0
            })
        }),
{
    let params = (st.pool.function(index)->0).parameters;
    let (exit, flags, s1) = open_static_call(index, st)->0;
    assert(flags.len() == params.len());
    assert forall|i: int| 0 <= i < flags.len() implies !#[trigger] flags[i] by {
        assert(st.pool.parameter(params[i]) is Some);
    }
    let n = passed(args.len(), flags.len());
    lemma_same_args(scope, args, block.exprs@, flags, n, s1);
    lemma_plain_args(scope, block.exprs@, flags, n, s1);
    assert(translate(scope, Expr::Block(block), None, s1) == translate_all(
        scope,
        block.exprs@,
        n,
        None,
        s1,
    ));
    if let Some(s2) = translate_args(scope, args, flags, n, s1) {
        assert(s2.close_call(exit).code =~= s2.code + seq![Instr::ParamEnd, Instr::Target(exit)]);
    }
}

proof fn lemma_plain_args(scope: Scope, args: Seq<Expr>, flags: Seq<bool>, n: nat, st: GenState)
    requires
        n <= args.len(),
        n <= flags.len(),
        forall|i: int| 0 <= i < flags.len() ==> !#[trigger] flags[i],
    ensures
        translate_args(scope, args, flags, n, st) == translate_all(scope, args, n, None, st),
    decreases n,
{
    if n > 0 {
        lemma_plain_args(scope, args, flags, (n - 1) as nat, st);
        assert(!flags[n - 1]);
    }
}

/// A call by name is generated with all its arguments, as a block of them would be.
pub proof fn law_virtual_call(
    scope: Scope,
    name: PoolIndex<CName>,
    args: Block,
    st: GenState,
)
    ensures
        ({
            let end = Label { index: st.labels as usize };
            let whole = translate_virtual_call(scope, name, args.exprs@, st);
            let inner = translate(
                scope,
                Expr::Block(args),
                None,
                GenState {
                    code: st.code.push(Instr::InvokeVirtual(end, 0, name, 0)),
                    labels: st.labels + 1,
                    ..st
                },
            );
            &&& whole is Some <==> st.labels < usize::MAX && inner is Some
            &&& whole matches Some(after) ==> after == (GenState {
                code: (inner->0).code + seq![Instr::ParamEnd, Instr::Target(end)],
                ..inner->0
            })
        }),
{
    let end = Label { index: st.labels as usize };
    let begun = GenState {
        code: st.code.push(Instr::InvokeVirtual(end, 0, name, 0)),
        labels: st.labels + 1,
        ..st
    };
    let inner = translate(scope, Expr::Block(args), None, begun);
    if let Some(s2) = inner {
        assert(s2.close_call(end).code =~= s2.code + seq![Instr::ParamEnd, Instr::Target(end)]);
    }
}

/// Calls of functions that are known by their entries. What they are called on is not
/// evaluated.
pub proof fn law_call_of_entry(
    scope: Scope,
    object: Expr,
    type_args: Vec<Type>,
    args: Vec<Expr>,
    meta: CallMeta,
    span: Span,
    method: MethodId,
    global: GlobalId,
    exit: Option<Label>,
    st: GenState,
)
    ensures
        translate(
            scope,
            Expr::Call(
                Box::new(object),
                Callable::Static(method),
                type_args,
                args,
                meta,
                span,
            ),
            exit,
            st,
        ) == match scope.db.static_entry(method) {
            Some(index) => translate_static_call(scope, index, args@, st),
            None => None,
        },
        translate(
            scope,
            Expr::Call(
                Box::new(object),
                Callable::Global(global),
                type_args,
                args,
                meta,
                span,
            ),
            exit,
            st,
        ) == match scope.db.global_entry(global) {
            Some(index) => translate_static_call(scope, index, args@, st),
            None => None,
        },
{
}

/// A cast is a call of the function that casts the type of the argument to the type of the
/// result.
pub proof fn law_cast(
    scope: Scope,
    object: Expr,
    type_args: Vec<Type>,
    args: Vec<Expr>,
    meta: CallMeta,
    span: Span,
    exit: Option<Label>,
    st: GenState,
)
    ensures
        ({
            let whole = translate(
                scope,
                Expr::Call(Box::new(object), Callable::Cast, type_args, args, meta, span),
                exit,
                st,
            );
            let found = scope.repo.cast(meta.arg_types@[0]@, meta.ret_type@);
            let index = scope.db.global_entry(found->0);
            whole == if meta.arg_types@.len() > 0 && found is Some && index is Some {
                translate_static_call(scope, index->0, args@, st)
            } else {
                None
            }
        }),
{
}

/// A method is called in the context of its object, whose code comes first. A final method
/// is then called as a function with the same entry and arguments would be, another one by
/// its name.
pub proof fn law_method_call(
    scope: Scope,
    object: Expr,
    type_args: Vec<Type>,
    args: Vec<Expr>,
    meta: CallMeta,
    span: Span,
    id: MethodId,
    exit: Option<Label>,
    st: GenState,
)
    ensures
        ({
            let end = Label { index: st.labels as usize };
            let whole = translate(
                scope,
                Expr::Call(
                    Box::new(object),
                    Callable::Instance(id),
                    type_args,
                    args,
                    meta,
                    span,
                ),
                exit,
                st,
            );
            let index = scope.db.method_entry(id);
            let function = st.pool.function(index->0);
            let inner = translate(
                scope,
                object,
                None,
                GenState {
                    code: st.code.push(Instr::Context(end)),
                    labels: st.labels + 1,
                    ..st
                },
            );
            let called = if (function->0).flags.is_final {
                translate_static_call(scope, index->0, args@, inner->0)
            } else {
                translate_virtual_call(
                    scope,
                    st.pool.definitions[(index->0).index as int].name,
                    args@,
                    inner->0,
                )
            };
            &&& whole is Some <==> index is Some && function is Some && st.labels < usize::MAX
                && inner is Some && called is Some
            &&& whole matches Some(after) ==> after == (GenState {
                code: (called->0).code.push(Instr::Target(end)),
                ..called->0
            })
        }),
{
}

/// A function object is called in its own context, by the name `Apply`.
pub proof fn law_function_object_call(
    scope: Scope,
    object: Expr,
    type_args: Vec<Type>,
    args: Vec<Expr>,
    meta: CallMeta,
    span: Span,
    exit: Option<Label>,
    st: GenState,
)
    ensures
        ({
            let end = Label { index: st.labels as usize };
            let whole = translate(
                scope,
                Expr::Call(Box::new(object), Callable::Lambda, type_args, args, meta, span),
                exit,
                st,
            );
            let inner = translate(
                scope,
                object,
                None,
                GenState {
                    code: st.code.push(Instr::Context(end)),
                    labels: st.labels + 1,
                    ..st
                },
            );
            let names = intern((inner->0).pool.names, "Apply"@);
            let called = translate_virtual_call(
                scope,
                pool_index(names.1 as usize),
                args@,
                GenState { pool: PoolView { names: names.0, ..(inner->0).pool }, ..inner->0 },
            );
            &&& whole is Some <==> st.labels < usize::MAX && inner is Some && called is Some
            &&& whole matches Some(after) ==> after == (GenState {
                code: (called->0).code.push(Instr::Target(end)),
                ..called->0
            })
        }),
{
}

/// A call of an intrinsic is its instruction, followed by all the arguments as a block of
/// them would be generated.
pub proof fn law_intrinsic_call(
    scope: Scope,
    object: Expr,
    type_args: Vec<Type>,
    args: Vec<Expr>,
    block: Block,
    meta: CallMeta,
    span: Span,
    op: Intrinsic,
    exit: Option<Label>,
    st: GenState,
)
    requires
        block.exprs@ == args@,
    ensures
        ({
            let first = translate_intrinsic(scope, op, type_args@, st);
            translate(
                scope,
                Expr::Call(
                    Box::new(object),
                    Callable::Intrinsic(op),
                    type_args,
                    args,
                    meta,
                    span,
                ),
                exit,
                st,
            ) == if first is Some {
                translate(scope, Expr::Block(block), None, first->0)
            } else {
                None
            }
        }),
{
    let first = translate_intrinsic(scope, op, type_args@, st);
    if first is Some {
        let inner = translate(scope, Expr::Block(block), None, first->0);
        assert(inner == translate_all(scope, args@, args@.len(), None, first->0));
    }
}

/// The instruction for an intrinsic names the type that it works on: for those that work on
/// arrays the type of arrays of the first type argument, for some others that argument
/// itself. Where it names a type, there has to be a type argument.
pub proof fn law_intrinsic_instr(
    scope: Scope,
    op: Intrinsic,
    type_args: Seq<Type>,
    st: GenState,
)
    ensures
        ({
            let plain = match op {
                Intrinsic::VariantIsRef => Some(Instr::<Label>::VariantIsRef),
                Intrinsic::VariantIsArray => Some(Instr::VariantIsArray),
                Intrinsic::VariantTypeName => Some(Instr::VariantTypeName),
                Intrinsic::RefToWeakRef => Some(Instr::RefToWeakRef),
                Intrinsic::WeakRefToRef => Some(Instr::WeakRefToRef),
                Intrinsic::IsDefined => Some(Instr::RefToBool),
                _ => None,
            };
            let named = match op {
                Intrinsic::Equals | Intrinsic::NotEquals | Intrinsic::ToString => type_args[0]@,
                Intrinsic::EnumInt | Intrinsic::IntEnum | Intrinsic::ToVariant => type_args[0]@,
                Intrinsic::FromVariant | Intrinsic::AsRef | Intrinsic::Deref => type_args[0]@,
                _ => TypeView::Data(TypeId { id: ARRAY }, seq![type_args[0]@]),
            };
            let typ = alloc_type(named, scope.repo, st.pool, st.cache);
            let t = (typ->0).index;
            let instr = match op {
                Intrinsic::Equals => Instr::<Label>::Equals(t),
                Intrinsic::NotEquals => Instr::NotEquals(t),
                Intrinsic::ArrayClear => Instr::ArrayClear(t),
                Intrinsic::ArraySize => Instr::ArraySize(t),
                Intrinsic::ArrayResize => Instr::ArrayResize(t),
                Intrinsic::ArrayFindFirst => Instr::ArrayFindFirst(t),
                Intrinsic::ArrayFindLast => Instr::ArrayFindLast(t),
                Intrinsic::ArrayContains => Instr::ArrayContains(t),
                Intrinsic::ArrayCount => Instr::ArrayCount(t),
                Intrinsic::ArrayPush => Instr::ArrayPush(t),
                Intrinsic::ArrayPop => Instr::ArrayPop(t),
                Intrinsic::ArrayInsert => Instr::ArrayInsert(t),
                Intrinsic::ArrayRemove => Instr::ArrayRemove(t),
                Intrinsic::ArrayGrow => Instr::ArrayGrow(t),
                Intrinsic::ArrayErase => Instr::ArrayErase(t),
                Intrinsic::ArrayLast => Instr::ArrayLast(t),
                Intrinsic::ToString => Instr::ToString(t),
                Intrinsic::EnumInt => Instr::EnumToI32(t, 4),
                Intrinsic::IntEnum => Instr::I32ToEnum(t, 4),
                Intrinsic::ToVariant => Instr::ToVariant(t),
                Intrinsic::FromVariant => Instr::FromVariant(t),
                Intrinsic::AsRef => Instr::AsRef(t),
                _ => Instr::Deref(t),
            };
            translate_intrinsic(scope, op, type_args, st) == if plain is Some {
                Some(GenState { code: st.code.push(plain->0), ..st })
            } else if type_args.len() > 0 && typ is Some {
                Some(
                    GenState {
                        code: st.code.push(instr),
                        pool: (typ->0).pool,
                        cache: (typ->0).cache,
                        ..st
                    },
                )
            } else {
                None
            }
        }),
{
}

/// A call of a final method none of whose arguments is evaluated only when asked for, with
/// as many arguments as parameters: the context, the code of the object, the call, the
/// code of all the arguments in order, the end of the arguments, and the marks of the two
/// labels.
pub proof fn law_final_method_call(
    scope: Scope,
    object: Expr,
    type_args: Vec<Type>,
    args: Vec<Expr>,
    block: Block,
    meta: CallMeta,
    span: Span,
    id: MethodId,
    exit: Option<Label>,
    st: GenState,
)
    requires
        scope.db.method_entry(id) is Some,
        st.pool.function(scope.db.method_entry(id)->0) matches Some(f) && f.flags.is_final,
        block.exprs@ == args@,
    ensures
        ({
            let index = scope.db.method_entry(id)->0;
            let outer = Label { index: st.labels as usize };
            let inner = translate(
                scope,
                object,
                None,
                GenState {
                    code: st.code.push(Instr::Context(outer)),
                    labels: st.labels + 1,
                    ..st
                },
            );
            let s = inner->0;
            let params = (s.pool.function(index)->0).parameters;
            let end = Label { index: s.labels as usize };
            let passed = translate(
                scope,
                Expr::Block(block),
                None,
                GenState {
                    code: s.code.push(Instr::InvokeStatic(end, 0, index, 0)),
                    labels: s.labels + 1,
                    ..s
                },
            );
            let whole = translate(
                scope,
                Expr::Call(
                    Box::new(object),
                    Callable::Instance(id),
                    type_args,
                    args,
                    meta,
                    span,
                ),
                exit,
                st,
            );
            st.labels < usize::MAX && inner is Some && s.labels < usize::MAX && params_known(
                s.pool,
                index,
            ) && params.len() == args@.len() && (forall|i: int|
                #![trigger params[i]]
                0 <= i < params.len() ==> !(s.pool.parameter(
                    params[i],
                )->0).flags.is_short_circuit) ==> {
                &&& whole is Some <==> passed is Some
                &&& whole matches Some(after) ==> after == (GenState {
                    code: (passed->0).code + seq![
                        Instr::ParamEnd,
                        Instr::Target(end),
                        Instr::Target(outer),
                    ],
                    ..passed->0
                })
            }
        }),
{
    let index = scope.db.method_entry(id)->0;
    let outer = Label { index: st.labels as usize };
    let begun = GenState {
        code: st.code.push(Instr::Context(outer)),
        labels: st.labels + 1,
        ..st
    };
    law_method_call(scope, object, type_args, args, meta, span, id, exit, st);
    if let Some(s) = translate(scope, object, None, begun) {
        let params = (s.pool.function(index)->0).parameters;
        if st.labels < usize::MAX && s.labels < usize::MAX && params_known(s.pool, index)
            && params.len() == args@.len() && (forall|i: int|
            #![trigger params[i]]
            0 <= i < params.len() ==> !(s.pool.parameter(params[i])->0).flags.is_short_circuit) {
            law_static_call_plain(scope, index, args@, block, s);
            if let Some(called) = translate_static_call(scope, index, args@, s) {
                let end = Label { index: s.labels as usize };
                let middle = GenState {
                    code: s.code.push(Instr::InvokeStatic(end, 0, index, 0)),
                    labels: s.labels + 1,
                    ..s
                };
                let passed = translate(scope, Expr::Block(block), None, middle)->0;
                assert(called.code.push(Instr::Target(outer)) =~= passed.code + seq![
                    Instr::ParamEnd,
                    Instr::Target(end),
                    Instr::Target(outer),
                ]);
            }
        }
    }
}

/// A call without finished instructions names the function and where the call ends.
pub proof fn law_ready_call_bare(index: PoolIndex<Function>, st: GenState)
    ensures
        ({
            let end = Label { index: st.labels as usize };
            let bare = ready_call(index, Seq::empty(), st);
            &&& bare is Some <==> st.labels < usize::MAX && params_known(st.pool, index)
            &&& bare matches Some(after) ==> after == (GenState {
                code: st.code + seq![
                    Instr::InvokeStatic(end, 0, index, 0),
                    Instr::ParamEnd,
                    Instr::Target(end),
                ],
                labels: st.labels + 1,
                ..st
            })
        }),
{
    let end = Label { index: st.labels as usize };
    if let Some((exit, flags, s1)) = open_static_call(index, st) {
        assert(ready_args(Seq::empty(), flags, 0, s1) == Some(s1));
        assert(s1.close_call(exit).code =~= st.code + seq![
            Instr::InvokeStatic(end, 0, index, 0),
            Instr::ParamEnd,
            Instr::Target(end),
        ]);
    }
}

/// A call with one more finished instruction is the call without it, with the instruction
/// before the end of the arguments. Where the argument is evaluated only when asked for,
/// the instruction stands between a `Skip` and the mark that this leads to. An instruction
/// without a parameter makes no difference.
pub proof fn law_ready_call_next(
    index: PoolIndex<Function>,
    instrs: Seq<Instr<Label>>,
    instr: Instr<Label>,
    st: GenState,
)
    ensures
        ({
            let end = Label { index: st.labels as usize };
            let params = (st.pool.function(index)->0).parameters;
            let fewer = ready_call(index, instrs, st);
            let more = ready_call(index, instrs.push(instr), st);
            let front = (fewer->0).code.take((fewer->0).code.len() - 2);
            let skip = Label { index: (fewer->0).labels as usize };
            &&& fewer is None ==> more is None
            &&& fewer is Some ==> {
                &&& (fewer->0).code == front + seq![Instr::ParamEnd, Instr::Target(end)]
                &&& instrs.len() >= params.len() ==> more == fewer
                &&& instrs.len() < params.len() ==> {
                    let short = (st.pool.parameter(
                        params[instrs.len() as int],
                    )->0).flags.is_short_circuit;
                    &&& !short ==> more == Some(
                        GenState {
                            code: front + seq![instr, Instr::ParamEnd, Instr::Target(end)],
                            ..fewer->0
                        },
                    )
                    &&& short ==> more == if (fewer->0).labels < usize::MAX {
                        Some(
                            GenState {
                                code: front + seq![
                                    Instr::Skip(skip),
                                    instr,
                                    Instr::Target(skip),
                                    Instr::ParamEnd,
                                    Instr::Target(end),
                                ],
                                labels: (fewer->0).labels + 1,
                                ..fewer->0
                            },
                        )
                    } else {
                        None
                    }
                }
            }
        }),
{
    let more = instrs.push(instr);
    let m = instrs.len();
    if let Some((exit, flags, s1)) = open_static_call(index, st) {
        let params = (st.pool.function(index)->0).parameters;
        assert(flags.len() == params.len());
        let n = passed(m, flags.len());
        lemma_same_ready(more, instrs, flags, n, s1);
        if let Some(s2) = ready_args(instrs, flags, n, s1) {
            let closed = s2.close_call(exit);
            assert(closed.code =~= s2.code + seq![Instr::ParamEnd, Instr::Target(exit)]);
            assert(closed.code.take(closed.code.len() - 2) =~= s2.code);
            if m < params.len() {
                let k = (m + 1) as nat;
                assert(more[k - 1] == instr);
                let skip = Label { index: s2.labels as usize };
                let plain = s2.emit(instr);
                let lazy = s2.emit(Instr::Skip(skip)).emit(instr).emit(Instr::Target(skip));
                assert(ready_args(more, flags, k, s1) == if flags[m as int] {
                    if s2.labels < usize::MAX {
                        Some(GenState { labels: s2.labels + 1, ..lazy })
                    } else {
                        None
                    }
                } else {
                    Some(plain)
                });
                assert(plain.close_call(exit).code =~= s2.code + seq![
                    instr,
                    Instr::ParamEnd,
                    Instr::Target(exit),
                ]);
                assert(lazy.close_call(exit).code =~= s2.code + seq![
                    Instr::Skip(skip),
                    instr,
                    Instr::Target(skip),
                    Instr::ParamEnd,
                    Instr::Target(exit),
                ]);
            }
        }
    }
}

proof fn lemma_same_ready(
    s: Seq<Instr<Label>>,
    t: Seq<Instr<Label>>,
    flags: Seq<bool>,
    n: nat,
    st: GenState,
)
    requires
        n <= s.len(),
        n <= t.len(),
        forall|i: int| 0 <= i < n ==> #[trigger] s[i] == t[i],
    ensures
        ready_args(s, flags, n, st) == ready_args(t, flags, n, st),
    decreases n,
{
    if n > 0 {
        lemma_same_ready(s, t, flags, (n - 1) as nat, st);
        assert(s[n - 1] == t[n - 1]);
    }
}

/// A function is its body, generated without anything around it, and a last instruction
/// that does nothing, laid out. With `yields`, a `return` comes before the body. It has to
/// fit in the address range of code.
pub proof fn law_build(
    scope: Scope,
    body: Expr,
    yields: bool,
    pool: PoolView,
    cache: CacheView,
)
    ensures
        ({
            let begin = GenState {
                locals: IndicesView { entries: Seq::empty(), indices: Seq::empty() },
                code: if yields {
                    seq![Instr::Return]
                } else {
                    Seq::empty()
                },
                labels: 0,
                pool,
                cache,
            };
            let done = translate(scope, body, None, begin);
            let code = (done->0).code.push(Instr::Nop);
            let built = build(scope, body, yields, pool, cache);
            &&& built is Some <==> done is Some && fits(code)
            &&& built matches Some(f) ==> {
                &&& f.locals == (done->0).locals.indices
                &&& f.code == resolved(code, code.len() as int)
                &&& f.pool == (done->0).pool
                &&& f.cache == (done->0).cache
            }
        }),
{
    let begin = enter(yields, pool, cache);
    assert(begin.code =~= if yields {
        seq![Instr::<Label>::Return]
    } else {
        Seq::<Instr<Label>>::empty()
    });
}

} // verus!
