//! What laying code out keeps: where instructions start, where jumps lead, and how calls
//! nest.

use crate::ast::Expr;
use crate::bytecode::{
    fits, jump_distance, label_location, labels_below, location_at, resolved, resolved_instr,
    Instr, Label, Offset,
};
use crate::labels::{law_labels_placed_once, placed};
use crate::pool::PoolView;
use crate::progress::{advances, law_translation_adds, open_calls};
use crate::translation::{build, enter, translate, Scope};
use crate::type_cache::CacheView;
use vstd::prelude::*;

verus! {

/// The place that instruction `k` has once `code` is laid out. A mark stands for the
/// place of what comes after it.
pub open spec fn place(code: Seq<Instr<Label>>, k: int) -> nat {
    resolved(code, k).len()
}

/// Laying code out leaves no mark, and each instruction starts where it started before.
pub proof fn law_layout(code: Seq<Instr<Label>>, n: int)
    requires
        0 <= n <= code.len(),
    ensures
        location_at(resolved(code, n), place(code, n) as int) == location_at(code, n),
        forall|j: int| 0 <= j < place(code, n) ==> !(#[trigger] resolved(code, n)[j] is Target),
        open_calls(resolved(code, n), place(code, n) as int) == open_calls(code, n),
    decreases n,
{
    if n > 0 {
        law_layout(code, n - 1);
        if !(code[n - 1] is Target) {
            let before = resolved(code, n - 1);
            lemma_prefix(before, resolved_instr(code, n - 1), before.len() as int);
        }
    }
}

/// One more instruction changes nothing for those before it.
proof fn lemma_prefix<L>(code: Seq<Instr<L>>, instr: Instr<L>, n: int)
    requires
        n <= code.len(),
    ensures
        location_at(code.push(instr), n) == location_at(code, n),
        open_calls(code.push(instr), n) == open_calls(code, n),
    decreases n,
{
    if n > 0 {
        lemma_prefix(code, instr, n - 1);
    }
}

/// What is laid out of the first instructions stays as it is.
proof fn lemma_layout_grows(code: Seq<Instr<Label>>, m: int, n: int)
    requires
        0 <= m <= n <= code.len(),
    ensures
        place(code, m) <= place(code, n),
        resolved(code, n).take(place(code, m) as int) == resolved(code, m),
        location_at(resolved(code, n), place(code, m) as int) == location_at(code, m),
        open_calls(resolved(code, n), place(code, m) as int) == open_calls(code, m),
    decreases n,
{
    law_layout(code, m);
    if m < n {
        lemma_layout_grows(code, m, n - 1);
        let before = resolved(code, n - 1);
        if !(code[n - 1] is Target) {
            lemma_prefix(before, resolved_instr(code, n - 1), place(code, m) as int);
            assert(before.push(resolved_instr(code, n - 1)).take(place(code, m) as int)
                =~= before.take(place(code, m) as int));
        }
    } else {
        assert(resolved(code, n).take(place(code, m) as int) =~= resolved(code, m));
    }
}

/// Each instruction but the marks is there once `code` is laid out, at its place and with
/// its labels turned into distances.
pub proof fn law_instruction_kept(code: Seq<Instr<Label>>, k: int)
    requires
        0 <= k < code.len(),
        !(code[k] is Target),
    ensures
        place(code, k) < place(code, code.len() as int),
        resolved(code, code.len() as int)[place(code, k) as int] == resolved_instr(code, k),
        location_at(resolved(code, code.len() as int), place(code, k) as int) == location_at(
            code,
            k,
        ),
{
    let n = code.len() as int;
    lemma_layout_grows(code, k, n);
    lemma_layout_grows(code, k + 1, n);
    assert(resolved(code, n).take(place(code, k + 1) as int)[place(code, k) as int]
        == resolved_instr(code, k));
}

/// Whatever is there once `code` is laid out was an instruction of it.
pub proof fn lemma_origin(code: Seq<Instr<Label>>, n: int, at: int) -> (k: int)
    requires
        0 <= n <= code.len(),
        0 <= at < place(code, n),
    ensures
        0 <= k < n,
        !(code[k] is Target),
        place(code, k) == at,
    decreases n,
{
    if code[n - 1] is Target || at < place(code, n - 1) {
        lemma_origin(code, n - 1, at)
    } else {
        n - 1
    }
}

/// Where a label stands that is placed once.
pub proof fn lemma_label_location(code: Seq<Instr<Label>>, n: int, p: int, label: Label)
    requires
        0 <= p < n <= code.len(),
        code[p] == Instr::Target(label),
        forall|j: int| 0 <= j < code.len() && j != p ==> #[trigger] code[j] != Instr::Target(label),
    ensures
        label_location(code, n, label) == location_at(code, p),
    decreases n,
{
    if n - 1 != p {
        lemma_label_location(code, n - 1, p, label);
    }
}

/// The target of a jump that is laid out is the distance to the place of its label.
pub proof fn lemma_refs(code: Seq<Instr<Label>>, k: int, i: int)
    requires
        0 <= k < code.len(),
        !(code[k] is Target),
    ensures
        resolved_instr(code, k).refs().len() == code[k].refs().len(),
        0 <= i < code[k].refs().len() ==> resolved_instr(code, k).refs()[i] == (Offset {
            value: jump_distance(code, k, code[k].refs()[i]) as i16,
        }),
{
}

/// A jump leads from its own place to the place of its label, where that is placed once.
pub proof fn law_jump_lands(code: Seq<Instr<Label>>, k: int, i: int, p: int)
    requires
        fits(code),
        0 <= k < code.len(),
        !(code[k] is Target),
        0 <= i < code[k].refs().len(),
        0 <= p < code.len(),
        code[p] == Instr::Target(code[k].refs()[i]),
        forall|j: int| 0 <= j < code.len() && j != p ==> #[trigger] code[j] != code[p],
    ensures
        ({
            let out = resolved(code, code.len() as int);
            let from = place(code, k) as int;
            let to = place(code, p) as int;
            &&& from < out.len()
            &&& to <= out.len()
            &&& i < out[from].refs().len()
            &&& location_at(out, from) + out[from].refs()[i].value == location_at(out, to)
        }),
{
    let n = code.len() as int;
    law_instruction_kept(code, k);
    lemma_layout_grows(code, p, n);
    lemma_refs(code, k, i);
    lemma_label_location(code, n, p, code[k].refs()[i]);
    assert(i16::MIN <= jump_distance(code, k, code[k].refs()[i]) <= i16::MAX);
}

/// The code of a function has no marks and ends in an instruction that does nothing. Each
/// jump in it leads to the start of an instruction.
pub proof fn law_built_jumps_land(
    scope: Scope,
    body: Expr,
    yields: bool,
    pool: PoolView,
    cache: CacheView,
)
    ensures
        build(scope, body, yields, pool, cache) matches Some(built) ==> {
            &&& built.code.len() > 0
            &&& built.code.last() == Instr::<Offset>::Nop
            &&& forall|j: int| 0 <= j < built.code.len() ==> !(#[trigger] built.code[j] is Target)
            &&& forall|j: int, i: int|
                #![trigger built.code[j].refs()[i]]
                0 <= j < built.code.len() && 0 <= i < built.code[j].refs().len() ==> exists|t: int|
                    0 <= t < built.code.len() && location_at(built.code, j)
                        + built.code[j].refs()[i].value == #[trigger] location_at(built.code, t)
        },
{
    if let Some(built) = build(scope, body, yields, pool, cache) {
        law_labels_placed_once(scope, body, yields, pool, cache);
        let st = translate(scope, body, None, enter(yields, pool, cache))->0;
        let code = st.emit(Instr::Nop).code;
        let n = code.len() as int;
        law_layout(code, n);
        law_instruction_kept(code, n - 1);
        assert(code[n - 1] == Instr::<Label>::Nop);
        assert forall|j: int, i: int|
            #![trigger built.code[j].refs()[i]]
            0 <= j < built.code.len() && 0 <= i < built.code[j].refs().len() implies exists|t: int|
            0 <= t < built.code.len() && location_at(built.code, j) + built.code[j].refs()[i].value
                == #[trigger] location_at(built.code, t) by {
            let k = lemma_origin(code, n, j);
            law_instruction_kept(code, k);
            lemma_refs(code, k, i);
            let label = code[k].refs()[i];
            assert(code[k] == st.code[k]);
            assert(st.code[k].refs()[i].index < st.labels);
            assert(placed(st.code, 0, label.index));
            let p = choose|p: int|
                0 <= p < st.code.len() && #[trigger] st.code[p] == Instr::Target(
                    Label { index: label.index },
                );
            assert(code[p] == Instr::Target(label));
            assert forall|m: int| 0 <= m < code.len() && m != p implies #[trigger] code[m]
                != code[p] by {
                if m < st.code.len() {
                    assert(code[m] == st.code[m]);
                    assert(code[p] == st.code[p]);
                }
            }
            law_jump_lands(code, k, i, p);
            lemma_layout_grows(code, p, n - 1);
            assert(location_at(built.code, place(code, p) as int) == location_at(built.code, j)
                + built.code[j].refs()[i].value);
        }
    }
}

/// The calls in the code of a function nest: at no point have more calls ended than begun,
/// and in the end all have.
pub proof fn law_built_calls_nest(
    scope: Scope,
    body: Expr,
    yields: bool,
    pool: PoolView,
    cache: CacheView,
)
    ensures
        build(scope, body, yields, pool, cache) matches Some(built) ==> {
            &&& open_calls(built.code, built.code.len() as int) == 0
            &&& forall|j: int|
                0 <= j <= built.code.len() ==> #[trigger] open_calls(built.code, j) >= 0
        },
{
    if let Some(built) = build(scope, body, yields, pool, cache) {
        let begin = enter(yields, pool, cache);
        law_translation_adds(scope, body, None, begin);
        let st = translate(scope, body, None, begin)->0;
        let code = st.emit(Instr::Nop).code;
        let n = code.len() as int;
        reveal(advances);
        assert(open_calls(begin.code, begin.code.len() as int) == 0) by {
            reveal_with_fuel(open_calls, 2);
        }
        assert forall|k: int| 0 <= k <= n implies #[trigger] open_calls(code, k) >= 0 by {
            if k < n {
                lemma_prefix(st.code, Instr::Nop, k);
                if k >= begin.code.len() {
                    assert(open_calls(st.code, k) >= 0);
                }
            } else {
                lemma_prefix(st.code, Instr::Nop, n - 1);
            }
        }
        lemma_prefix(st.code, Instr::Nop, n - 1);
        law_layout(code, n);
        assert forall|j: int| 0 <= j <= built.code.len() implies #[trigger] open_calls(
            built.code,
            j,
        ) >= 0 by {
            if j < built.code.len() {
                let k = lemma_origin(code, n, j);
                lemma_layout_grows(code, k, n);
                assert(open_calls(code, k) >= 0);
            }
        }
    }
}

/// The same code with each label `l` renamed to `f(l)`, in marks and in jumps.
pub open spec fn renamed(code: Seq<Instr<Label>>, f: spec_fn(Label) -> Label) -> Seq<
    Instr<Label>,
> {
    code.map_values(|instr: Instr<Label>| instr.relabel(f))
}

/// No two of the labels with numbers below `labels` are renamed to the same one.
pub open spec fn tells_apart(f: spec_fn(Label) -> Label, labels: nat) -> bool {
    forall|l: Label, m: Label|
        #![trigger f(l), f(m)]
        l.index < labels && m.index < labels && f(l) == f(m) ==> l == m
}

proof fn lemma_renamed_location(
    code: Seq<Instr<Label>>,
    f: spec_fn(Label) -> Label,
    n: int,
)
    requires
        0 <= n <= code.len(),
    ensures
        location_at(renamed(code, f), n) == location_at(code, n),
    decreases n,
{
    if n > 0 {
        lemma_renamed_location(code, f, n - 1);
        assert(renamed(code, f)[n - 1] == code[n - 1].relabel(f));
    }
}

proof fn lemma_renamed_label(
    code: Seq<Instr<Label>>,
    f: spec_fn(Label) -> Label,
    labels: nat,
    n: int,
    label: Label,
)
    requires
        0 <= n <= code.len(),
        labels_below(code, labels),
        tells_apart(f, labels),
        label.index < labels,
    ensures
        label_location(renamed(code, f), n, f(label)) == label_location(code, n, label),
    decreases n,
{
    if n > 0 {
        lemma_renamed_label(code, f, labels, n - 1, label);
        lemma_renamed_location(code, f, n - 1);
        let instr = code[n - 1];
        assert(renamed(code, f)[n - 1] == instr.relabel(f));
        if let Instr::Target(l) = instr {
            assert(l.index < labels);
            assert(f(l) == f(label) ==> l == label);
        }
    }
}

/// Renaming labels turns the references of an instruction one by one.
proof fn lemma_renamed_refs(instr: Instr<Label>, f: spec_fn(Label) -> Label)
    ensures
        instr.relabel(f).refs().len() == instr.refs().len(),
        forall|i: int|
            #![trigger instr.refs()[i]]
            #![trigger instr.relabel(f).refs()[i]]
            0 <= i < instr.refs().len() ==> instr.relabel(f).refs()[i] == f(instr.refs()[i]),
{
}

proof fn lemma_renamed_instr(
    code: Seq<Instr<Label>>,
    f: spec_fn(Label) -> Label,
    labels: nat,
    k: int,
)
    requires
        0 <= k < code.len(),
        labels_below(code, labels),
        tells_apart(f, labels),
        !(code[k] is Target),
    ensures
        resolved_instr(renamed(code, f), k) == resolved_instr(code, k),
{
    let instr = code[k];
    let n = code.len() as int;
    lemma_renamed_location(code, f, k);
    assert(renamed(code, f)[k] == instr.relabel(f));
    if instr.refs().len() > 0 {
        assert(code[k].refs()[0].index < labels);
        lemma_renamed_label(code, f, labels, n, instr.refs()[0]);
    }
    if instr.refs().len() > 1 {
        assert(code[k].refs()[1].index < labels);
        lemma_renamed_label(code, f, labels, n, instr.refs()[1]);
    }
}

proof fn lemma_renamed_resolved(
    code: Seq<Instr<Label>>,
    f: spec_fn(Label) -> Label,
    labels: nat,
    n: int,
)
    requires
        0 <= n <= code.len(),
        labels_below(code, labels),
        tells_apart(f, labels),
    ensures
        resolved(renamed(code, f), n) == resolved(code, n),
    decreases n,
{
    if n > 0 {
        lemma_renamed_resolved(code, f, labels, n - 1);
        assert(renamed(code, f)[n - 1] == code[n - 1].relabel(f));
        if !(code[n - 1] is Target) {
            lemma_renamed_instr(code, f, labels, n - 1);
        }
    }
}

/// The numbers of labels leave no trace: code whose labels are renamed, no two of them to
/// the same one, fits where it fitted before and is laid out as before. A permutation of
/// the labels is such a renaming, and needs no higher numbers.
pub proof fn law_label_numbers_leave_no_trace(
    code: Seq<Instr<Label>>,
    f: spec_fn(Label) -> Label,
    labels: nat,
)
    requires
        labels_below(code, labels),
        tells_apart(f, labels),
    ensures
        fits(renamed(code, f)) == fits(code),
        (forall|l: Label| l.index < labels ==> (#[trigger] f(l)).index < labels) ==> labels_below(
            renamed(code, f),
            labels,
        ),
        resolved(renamed(code, f), renamed(code, f).len() as int) == resolved(
            code,
            code.len() as int,
        ),
{
    let n = code.len() as int;
    let other = renamed(code, f);
    lemma_renamed_resolved(code, f, labels, n);
    lemma_renamed_location(code, f, n);
    assert forall|k: int, i: int| 0 <= k < n && 0 <= i < code[k].refs().len() implies {
        &&& #[trigger] code[k].refs()[i].index < labels
        &&& other[k].refs().len() == code[k].refs().len()
        &&& jump_distance(other, k, other[k].refs()[i]) == jump_distance(
            code,
            k,
            code[k].refs()[i],
        )
    } by {
        assert(other[k] == code[k].relabel(f));
        assert(code[k].refs()[i].index < labels);
        lemma_renamed_refs(code[k], f);
        lemma_renamed_location(code, f, k);
        lemma_renamed_label(code, f, labels, n, code[k].refs()[i]);
    }
    assert forall|k: int| 0 <= k < n implies #[trigger] other[k].refs().len()
        == code[k].refs().len() by {
        assert(other[k] == code[k].relabel(f));
        lemma_renamed_refs(code[k], f);
    }
    if forall|l: Label| l.index < labels ==> (#[trigger] f(l)).index < labels {
        assert forall|k: int, i: int|
            #![trigger other[k].refs()[i]]
            0 <= k < n && 0 <= i < other[k].refs().len() implies other[k].refs()[i].index
            < labels by {
            assert(other[k] == code[k].relabel(f));
            lemma_renamed_refs(code[k], f);
            assert(code[k].refs()[i].index < labels);
        }
        assert forall|k: int| 0 <= k < n implies (#[trigger] other[k] matches Instr::Target(l)
            ==> l.index < labels) by {
            assert(other[k] == code[k].relabel(f));
        }
    }
    if fits(code) {
        assert forall|k: int, i: int|
            #![trigger other[k].refs()[i]]
            0 <= k < n && 0 <= i < other[k].refs().len() implies i16::MIN <= jump_distance(
            other,
            k,
            other[k].refs()[i],
        ) <= i16::MAX by {
            assert(i16::MIN <= jump_distance(code, k, code[k].refs()[i]) <= i16::MAX);
        }
    }
    if fits(other) {
        assert forall|k: int, i: int|
            #![trigger code[k].refs()[i]]
            0 <= k < n && 0 <= i < code[k].refs().len() implies i16::MIN <= jump_distance(
            code,
            k,
            code[k].refs()[i],
        ) <= i16::MAX by {
            assert(i16::MIN <= jump_distance(other, k, other[k].refs()[i]) <= i16::MAX);
        }
    }
}

/// An instruction takes one byte, and then what its operands take: eight for a reference to
/// the pool but four for one to a string, two for a jump target, and for a number what the
/// number takes. The mark of a label takes nothing.
pub proof fn law_sizes(instr: Instr<Label>)
    ensures
        instr.bytes() == match instr {
            Instr::Target(_) => 0nat,
            Instr::Nop | Instr::Null | Instr::TrueConst | Instr::FalseConst => 1,
            Instr::Assign | Instr::ParamEnd | Instr::Return | Instr::This => 1,
            Instr::RefToBool | Instr::WeakRefToRef | Instr::RefToWeakRef => 1,
            Instr::VariantIsRef | Instr::VariantIsArray | Instr::VariantTypeName => 1,
            Instr::I32Const(_) | Instr::U32Const(_) | Instr::F32Const(_) => 1 + 4,
            Instr::I64Const(_) | Instr::U64Const(_) | Instr::F64Const(_) => 1 + 8,
            Instr::StringConst(_) => 1 + 4,
            Instr::Jump(_) | Instr::JumpIfFalse(_) | Instr::Skip(_) | Instr::Context(_) => 1 + 2,
            Instr::Conditional(_, _) => 1 + 2 + 2,
            Instr::InvokeStatic(_, _, _, _) => 1 + 2 + 2 + 8 + 2,
            Instr::InvokeVirtual(_, _, _, _) => 1 + 2 + 2 + 8 + 2,
            Instr::EnumToI32(_, _) | Instr::I32ToEnum(_, _) => 1 + 8 + 1,
            Instr::DynamicCast(_, _) => 1 + 8 + 1,
            _ => 1 + 8,
        },
{
}

/// Code starts at location 0, and each instruction starts where the one before it ends.
pub proof fn law_locations(code: Seq<Instr<Label>>, n: int)
    requires
        0 <= n < code.len(),
    ensures
        location_at(code, 0) == 0,
        location_at(code, n + 1) == location_at(code, n) + code[n].bytes(),
{
}

/// A label stands where its last mark is.
pub proof fn law_label_location(code: Seq<Instr<Label>>, n: int, p: int, label: Label)
    requires
        0 <= p < n <= code.len(),
        code[p] == Instr::Target(label),
        forall|j: int| p < j < n ==> #[trigger] code[j] != Instr::Target(label),
    ensures
        label_location(code, n, label) == location_at(code, p),
    decreases n,
{
    if n - 1 != p {
        law_label_location(code, n - 1, p, label);
    }
}

/// Code fits where it takes no more bytes than there are locations, and no jump is longer
/// than an offset can say.
pub proof fn law_fits(code: Seq<Instr<Label>>)
    ensures
        fits(code) <==> {
            &&& location_at(code, code.len() as int) <= 65535
            &&& forall|k: int, i: int|
                #![trigger code[k].refs()[i]]
                0 <= k < code.len() && 0 <= i < code[k].refs().len() ==> -32768 <= label_location(
                    code,
                    code.len() as int,
                    code[k].refs()[i],
                ) - location_at(code, k) <= 32767
        },
{
}

/// Renaming labels changes nothing else in an instruction: to leave each as it is leaves
/// the instruction as it is, to rename twice is to rename once, and the labels that it
/// refers to are renamed one by one.
pub proof fn law_relabel<A, B, C>(instr: Instr<A>, f: spec_fn(A) -> B, g: spec_fn(B) -> C)
    ensures
        instr.relabel(|l: A| l) == instr,
        instr.relabel(f).relabel(g) == instr.relabel(|l: A| g(f(l))),
        instr.relabel(f).refs() =~= instr.refs().map_values(f),
        instr.relabel(f).bytes() == instr.bytes(),
{
}

/// Laid out code has an instruction for each one that is no mark, in order. But for the
/// labels it is the same instruction. In place of each label it says how far it is from
/// where the instruction starts to where the label stands.
pub proof fn law_resolved_next(code: Seq<Instr<Label>>, n: int)
    requires
        fits(code),
        0 <= n < code.len(),
    ensures
        resolved(code, 0).len() == 0,
        code[n] is Target ==> resolved(code, n + 1) == resolved(code, n),
        !(code[n] is Target) ==> {
            let out = resolved(code, n + 1);
            &&& out.len() == resolved(code, n).len() + 1
            &&& out.drop_last() == resolved(code, n)
            &&& out.last().relabel(|l: Offset| 0int) == code[n].relabel(|l: Label| 0int)
            &&& out.last().refs().len() == code[n].refs().len()
            &&& forall|i: int|
                #![trigger code[n].refs()[i]]
                0 <= i < code[n].refs().len() ==> out.last().refs()[i].value == label_location(
                    code,
                    code.len() as int,
                    code[n].refs()[i],
                ) - location_at(code, n)
        },
{
    if !(code[n] is Target) {
        let out = resolved(code, n + 1);
        assert(out.drop_last() =~= resolved(code, n));
        assert forall|i: int|
            #![trigger code[n].refs()[i]]
            0 <= i < code[n].refs().len() implies out.last().refs()[i].value == label_location(
            code,
            code.len() as int,
            code[n].refs()[i],
        ) - location_at(code, n) by {
            lemma_refs(code, n, i);
            assert(i16::MIN <= jump_distance(code, n, code[n].refs()[i]) <= i16::MAX);
        }
        lemma_refs(code, n, 0);
    }
}

} // verus!
