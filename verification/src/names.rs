//! The names under which generated definitions appear in the pool.

use crate::ast::Local;
use vstd::prelude::*;
use vstd::string::*;

verus! {

/// The decimal digit for `d`, which is below ten.
pub open spec fn digit(d: nat) -> char {
    if d == 0 {
        '0'
    } else if d == 1 {
        '1'
    } else if d == 2 {
        '2'
    } else if d == 3 {
        '3'
    } else if d == 4 {
        '4'
    } else if d == 5 {
        '5'
    } else if d == 6 {
        '6'
    } else if d == 7 {
        '7'
    } else if d == 8 {
        '8'
    } else {
        '9'
    }
}

/// `n` in decimal notation.
pub open spec fn decimal(n: nat) -> Seq<char>
    decreases n,
{
    if n < 10 {
        seq![digit(n)]
    } else {
        decimal(n / 10).push(digit(n % 10))
    }
}

fn digit_text(d: usize) -> (r: &'static str)
    requires
        d < 10,
    ensures
        r@ == seq![digit(d as nat)],
{
    proof {
        reveal_strlit("0");
        reveal_strlit("1");
        reveal_strlit("2");
        reveal_strlit("3");
        reveal_strlit("4");
        reveal_strlit("5");
        reveal_strlit("6");
        reveal_strlit("7");
        reveal_strlit("8");
        reveal_strlit("9");
    }
    let r: &'static str = match d {
        0 => "0",
        1 => "1",
        2 => "2",
        3 => "3",
        4 => "4",
        5 => "5",
        6 => "6",
        7 => "7",
        8 => "8",
        _ => "9",
    };
    assert(r@ =~= seq![digit(d as nat)]);
    r
}

/// Appends `n` in decimal notation.
fn append_decimal(text: &mut String, n: usize)
    ensures
        final(text)@ == old(text)@ + decimal(n as nat),
    decreases n,
{
    if n < 10 {
        text.append(digit_text(n));
    } else {
        append_decimal(text, n / 10);
        text.append(digit_text(n % 10));
        assert(text@ =~= old(text)@ + decimal(n as nat));
    }
}

/// The part of a name that tells one local from another.
pub open spec fn key_name(local: Local) -> Seq<char> {
    match local {
        Local::Var(i) => "v"@ + decimal(i as nat),
        Local::Param(i) => "p"@ + decimal(i as nat),
        Local::Capture(i) => "c"@ + decimal(i as nat),
        Local::This => "this"@,
    }
}

fn append_key(text: &mut String, local: Local)
    ensures
        final(text)@ == old(text)@ + key_name(local),
{
    match local {
        Local::Var(i) => {
            text.append("v");
            append_decimal(text, i as usize);
        },
        Local::Param(i) => {
            text.append("p");
            append_decimal(text, i as usize);
        },
        Local::Capture(i) => {
            text.append("c");
            append_decimal(text, i as usize);
        },
        Local::This => {
            text.append("this");
        },
    }
    assert(text@ =~= old(text)@ + key_name(local));
}

/// The name of the local variable that holds `local`.
pub open spec fn local_name(local: Local) -> Seq<char> {
    "local$"@ + key_name(local)
}

/// The name of the parameter that receives `local`.
pub open spec fn param_name(local: Local) -> Seq<char> {
    "param$"@ + key_name(local)
}

/// The name of the field that keeps `local`.
pub open spec fn field_name(local: Local) -> Seq<char> {
    "field$"@ + key_name(local)
}

/// The name of the class of lambda number `id`.
pub open spec fn lambda_name(id: nat) -> Seq<char> {
    "Lambda$"@ + decimal(id)
}

/// Names the local variable that holds `loc`.
pub fn local(loc: Local) -> (r: String)
    ensures
        r@ == local_name(loc),
{
    let mut text: String = "local$".to_owned();
    append_key(&mut text, loc);
    text
}

/// Names the parameter that receives `loc`.
pub fn param(loc: Local) -> (r: String)
    ensures
        r@ == param_name(loc),
{
    let mut text: String = "param$".to_owned();
    append_key(&mut text, loc);
    text
}

/// Names the field that keeps `loc`.
pub fn field(loc: Local) -> (r: String)
    ensures
        r@ == field_name(loc),
{
    let mut text: String = "field$".to_owned();
    append_key(&mut text, loc);
    text
}

/// Names the class of lambda number `id`.
pub fn lambda(id: usize) -> (r: String)
    ensures
        r@ == lambda_name(id as nat),
{
    let mut text: String = "Lambda$".to_owned();
    append_decimal(&mut text, id);
    text
}

/// Different numbers have different notations.
pub proof fn law_decimal_distinct(a: nat, b: nat)
    requires
        decimal(a) == decimal(b),
    ensures
        a == b,
    decreases a,
{
    assert(decimal(a).last() == digit(a % 10));
    assert(decimal(b).last() == digit(b % 10));
    lemma_decimal_len(a);
    lemma_decimal_len(b);
    if a >= 10 && b >= 10 {
        assert(decimal(a).drop_last() =~= decimal(a / 10));
        assert(decimal(b).drop_last() =~= decimal(b / 10));
        law_decimal_distinct(a / 10, b / 10);
    }
}

proof fn lemma_decimal_len(n: nat)
    ensures
        decimal(n).len() >= 1,
        n >= 10 ==> decimal(n).len() >= 2,
    decreases n,
{
    if n >= 10 {
        lemma_decimal_len(n / 10);
    }
}

/// Different lambdas have classes with different names.
pub proof fn law_lambda_names_distinct(a: nat, b: nat)
    requires
        lambda_name(a) == lambda_name(b),
    ensures
        a == b,
{
    lemma_tails("Lambda$"@, decimal(a), decimal(b));
    law_decimal_distinct(a, b);
}

proof fn lemma_tails(head: Seq<char>, a: Seq<char>, b: Seq<char>)
    requires
        head + a == head + b,
    ensures
        a == b,
{
    assert(a =~= (head + a).skip(head.len() as int));
    assert(b =~= (head + b).skip(head.len() as int));
}

/// The first letter tells what a local is.
proof fn lemma_key_head(local: Local)
    ensures
        key_name(local)[0] == match local {
            Local::Var(_) => 'v',
            Local::Param(_) => 'p',
            Local::Capture(_) => 'c',
            Local::This => 't',
        },
{
    reveal_strlit("v");
    reveal_strlit("p");
    reveal_strlit("c");
    reveal_strlit("this");
}

proof fn lemma_keys_distinct(a: Local, b: Local)
    requires
        key_name(a) == key_name(b),
    ensures
        a == b,
{
    lemma_key_head(a);
    lemma_key_head(b);
    match (a, b) {
        (Local::Var(i), Local::Var(j)) => {
            lemma_tails("v"@, decimal(i as nat), decimal(j as nat));
            law_decimal_distinct(i as nat, j as nat);
        },
        (Local::Param(i), Local::Param(j)) => {
            lemma_tails("p"@, decimal(i as nat), decimal(j as nat));
            law_decimal_distinct(i as nat, j as nat);
        },
        (Local::Capture(i), Local::Capture(j)) => {
            lemma_tails("c"@, decimal(i as nat), decimal(j as nat));
            law_decimal_distinct(i as nat, j as nat);
        },
        _ => {},
    }
}

/// Different locals have different names, as variables, as parameters and as fields.
pub proof fn law_local_names_distinct(a: Local, b: Local)
    requires
        local_name(a) == local_name(b) || param_name(a) == param_name(b) || field_name(a)
            == field_name(b),
    ensures
        a == b,
{
    if local_name(a) == local_name(b) {
        lemma_tails("local$"@, key_name(a), key_name(b));
    } else if param_name(a) == param_name(b) {
        lemma_tails("param$"@, key_name(a), key_name(b));
    } else {
        lemma_tails("field$"@, key_name(a), key_name(b));
    }
    lemma_keys_distinct(a, b);
}

/// The notation of a number is that of a tenth of it, followed by its last digit.
pub proof fn law_decimal(n: nat)
    ensures
        decimal(n).len() > 0,
        decimal(n).last() as int == '0' as int + n % 10,
        n < 10 ==> decimal(n).len() == 1,
        n >= 10 ==> decimal(n).drop_last() == decimal(n / 10),
{
    lemma_decimal_len(n);
    if n >= 10 {
        assert(decimal(n).drop_last() =~= decimal(n / 10));
    }
}

} // verus!
