//! What evaluation means, over views: each form, application, trampoline
//! and primitive, step for step with the evaluator and with the same fuel.
//! `None` stands where the outcome rests on the host (floats, streams, the
//! clock) or on the random identity of a new vector.
use vstd::prelude::*;
use crate::eval::{arity, awaits_argument, defun_body, is_defun, is_form, is_input, is_output, is_thunk_val};
use crate::prims::{
    ArithOp, CmpOp, arith_type_message, bool_val, index_in, int_arith, int_test,
    overflow_message, test_type_message,
};
use crate::runtime::{St, address_fn, equal_vals, fetch_fn, lookup, lookup_fn, set_fn, value_fn};
use crate::token::{Num, Tok, arg_names, tail_calls};
use crate::value::{Clo, KlElement, KlError, KlStream, Prim, Val, res_view, vals_of};

verus! {

/// The outcome of an evaluation: the runtime after it and its value or
/// error message; `None` where the host decides.
pub type Outcome = Option<(St, Result<Val, Seq<char>>)>;

/// An executable outcome agrees with a spec outcome: where the latter is
/// known, the runtime and the value or message are the same.
pub open spec fn agrees(o: Outcome, st: St, r: Result<KlElement, KlError>) -> bool {
    match o {
        Some((s, x)) => st == s && res_view(r) == x,
        None => true,
    }
}

pub open spec fn agrees_all(o: Option<(St, Result<Seq<Val>, Seq<char>>)>, st: St, r: Result<Vec<KlElement>, KlError>) -> bool {
    match o {
        Some((s, Ok(vs))) => st == s && r is Ok && vals_of(r->Ok_0@) == vs,
        Some((s, Err(e))) => st == s && r is Err && r->Err_0@ == e,
        None => true,
    }
}

pub open spec fn limit() -> Seq<char> {
    "evaluation step limit reached"@
}

pub open spec fn saturated() -> Seq<char> {
    "Given a fully saturated closure or thunk"@
}

/// The truth value of a boolean symbol.
pub open spec fn truth(v: Val) -> Option<bool> {
    if v == bool_val(true) {
        Some(true)
    } else if v == bool_val(false) {
        Some(false)
    } else {
        None
    }
}

/// The frame binding each parameter to its argument.
pub open spec fn frame(ps: Seq<Seq<char>>, vs: Seq<Val>) -> Seq<(Seq<char>, Val)>
    decreases ps.len(),
{
    if ps.len() == 0 || vs.len() == 0 {
        Seq::empty()
    } else {
        frame(ps.drop_last(), vs.drop_last()).push((ps.last(), vs.last()))
    }
}

/// The runtime after a `defun`: its function installed.
pub open spec fn defun_state(st: St, t: Tok) -> St {
    let name = t->Cons_0[1]->Symbol_0;
    St {
        fns: st.fns.push(
            (
                name,
                Clo::Function(
                    name,
                    arg_names(t->Cons_0[2]->Cons_0),
                    Seq::empty(),
                    defun_body(t),
                    tail_calls(t).len() > 0,
                ),
            ),
        ),
        ..st
    }
}

/// A completed closure as a value; any other closure as it is.
pub open spec fn closure_value(c: Clo) -> Val {
    match c {
        Clo::Done(Ok(Some(v))) => *v,
        Clo::Done(Ok(None)) => Val::Nil,
        _ => Val::Closure(c),
    }
}

/// Evaluating a form in a frame.
pub open spec fn eval_form(st: St, env: Seq<(Seq<char>, Val)>, t: Tok, fuel: nat) -> Outcome
    decreases fuel, 0nat,
{
    if fuel == 0 {
        Some((st, Err(limit())))
    } else {
        match t {
            Tok::Cons(items) => if items.len() == 0 {
                Some((st, Ok(Val::Cons(Seq::empty()))))
            } else if is_defun(t) {
                Some((defun_state(st, t), Ok(Val::Symbol(items[1]->Symbol_0))))
            } else if is_form(t, "lambda"@, 3) && items[1] is Symbol {
                Some((st, Ok(Val::Closure(Clo::Lambda(items[1]->Symbol_0, items[2], env)))))
            } else if is_form(t, "shen_let"@, 4) && items[1] is Symbol {
                eval_let(st, env, items, (fuel - 1) as nat)
            } else if is_form(t, "shen_if"@, 4) {
                eval_if(st, env, items, (fuel - 1) as nat)
            } else if items.len() == 3 && (items[0] == Tok::Symbol("and"@) || items[0] == Tok::Symbol("or"@)) {
                eval_and_or(st, env, items, items[0] == Tok::Symbol("and"@), (fuel - 1) as nat)
            } else if items[0] == Tok::Symbol("cond"@) {
                eval_cond(st, env, items, (fuel - 1) as nat)
            } else if is_form(t, "freeze"@, 2) {
                Some((st, Ok(Val::Closure(Clo::Thunk(env, items[1])))))
            } else if is_form(t, "trap__Dash__error"@, 3) {
                eval_trap(st, env, items, (fuel - 1) as nat)
            } else if is_form(t, "shen_do"@, 3) {
                match eval_form(st, env, items[1], (fuel - 1) as nat) {
                    Some((s1, Ok(_))) => eval_form(s1, env, items[2], (fuel - 1) as nat),
                    other => other,
                }
            } else {
                eval_app(st, env, items, (fuel - 1) as nat)
            },
            Tok::Recur(args) => match eval_args(st, env, args, 0, (fuel - 1) as nat) {
                Some((s1, Ok(vs))) => Some((s1, Ok(Val::Recur(vs)))),
                Some((s1, Err(e))) => Some((s1, Err(e))),
                None => None,
            },
            Tok::Number(n) => Some((st, Ok(Val::Number(n)))),
            Tok::Str(s) => Some((st, Ok(Val::Str(s)))),
            Tok::Symbol(s) => Some(
                (
                    st,
                    Ok(
                        match lookup(env, s) {
                            Some(x) => x,
                            None => Val::Symbol(s),
                        },
                    ),
                ),
            ),
        }
    }
}

/// Evaluating `items[from..]` in order, stopping at the first error.
pub open spec fn eval_args(st: St, env: Seq<(Seq<char>, Val)>, items: Seq<Tok>, from: int, fuel: nat) -> Option<(St, Result<Seq<Val>, Seq<char>>)>
    decreases fuel, 0nat,
{
    if fuel == 0 {
        Some((st, Err(limit())))
    } else if from > items.len() || from < 0 {
        Some((st, Ok(Seq::empty())))
    } else {
        args_from(st, env, items, from, (fuel - 1) as nat)
    }
}

pub open spec fn args_from(st: St, env: Seq<(Seq<char>, Val)>, items: Seq<Tok>, i: int, fuel: nat) -> Option<(St, Result<Seq<Val>, Seq<char>>)>
    decreases fuel, (items.len() - i + 1) as nat,
{
    if i < 0 || i >= items.len() {
        Some((st, Ok(Seq::empty())))
    } else {
        match eval_form(st, env, items[i], fuel) {
            Some((s1, Ok(v))) => match args_from(s1, env, items, i + 1, fuel) {
                Some((s2, Ok(vs))) => Some((s2, Ok(seq![v] + vs))),
                other => other,
            },
            Some((s1, Err(e))) => Some((s1, Err(e))),
            None => None,
        }
    }
}

pub open spec fn eval_let(st: St, env: Seq<(Seq<char>, Val)>, items: Seq<Tok>, fuel: nat) -> Outcome
    decreases fuel, 0nat,
{
    if fuel == 0 {
        Some((st, Err(limit())))
    } else if items.len() == 4 && items[1] is Symbol {
        match eval_form(st, env, items[2], (fuel - 1) as nat) {
            Some((s1, Ok(v))) => eval_form(s1, env.push((items[1]->Symbol_0, v)), items[3], (fuel - 1) as nat),
            other => other,
        }
    } else {
        Some((st, Err("let: expecting a variable."@)))
    }
}

pub open spec fn eval_if(st: St, env: Seq<(Seq<char>, Val)>, items: Seq<Tok>, fuel: nat) -> Outcome
    decreases fuel, 0nat,
{
    if fuel == 0 {
        Some((st, Err(limit())))
    } else if items.len() == 4 {
        match eval_form(st, env, items[1], (fuel - 1) as nat) {
            Some((s1, Ok(p))) => match truth(p) {
                Some(true) => eval_form(s1, env, items[2], (fuel - 1) as nat),
                Some(false) => eval_form(s1, env, items[3], (fuel - 1) as nat),
                None => Some((s1, Err("shen_if: the predicate must be 'true' or 'false'."@))),
            },
            other => other,
        }
    } else {
        None
    }
}

pub open spec fn and_or_message(is_and: bool, first: bool) -> Seq<char> {
    if is_and {
        if first {
            "shen_and: The first argument must evaluate to the symbol 'true' or 'false."@
        } else {
            "shen_and: The second argument must evaluate to the symbol 'true' or 'false."@
        }
    } else {
        if first {
            "shen_or: The first argument must evaluate to the symbol 'true' or 'false."@
        } else {
            "shen_or: The second argument must evaluate to the symbol 'true' or 'false."@
        }
    }
}

pub open spec fn eval_and_or(st: St, env: Seq<(Seq<char>, Val)>, items: Seq<Tok>, is_and: bool, fuel: nat) -> Outcome
    decreases fuel, 0nat,
{
    if fuel == 0 {
        Some((st, Err(limit())))
    } else if items.len() == 3 {
        match eval_form(st, env, items[1], (fuel - 1) as nat) {
            Some((s1, Ok(a))) => match truth(a) {
                Some(t) => if t != is_and {
                    Some((s1, Ok(bool_val(t))))
                } else {
                    match eval_form(s1, env, items[2], (fuel - 1) as nat) {
                        Some((s2, Ok(b))) => match truth(b) {
                            Some(u) => Some((s2, Ok(bool_val(u)))),
                            None => Some((s2, Err(and_or_message(is_and, false)))),
                        },
                        other => other,
                    }
                },
                None => Some((s1, Err(and_or_message(is_and, true)))),
            },
            other => other,
        }
    } else {
        None
    }
}

pub open spec fn eval_cond(st: St, env: Seq<(Seq<char>, Val)>, items: Seq<Tok>, fuel: nat) -> Outcome
    decreases fuel, 0nat,
{
    if fuel == 0 {
        Some((st, Err(limit())))
    } else {
        cond_from(st, env, items, 1, (fuel - 1) as nat)
    }
}

/// The clauses of a `cond` from the `j`-th on: the action of the first
/// whose predicate is true; clauses that are not pairs are skipped.
pub open spec fn cond_from(st: St, env: Seq<(Seq<char>, Val)>, items: Seq<Tok>, j: int, fuel: nat) -> Outcome
    decreases fuel, (items.len() - j + 1) as nat,
{
    if j < 0 || j >= items.len() {
        Some((st, Err("shen_cond: None of the predicates evaluated to 'true'."@)))
    } else {
        match items[j] {
            Tok::Cons(pair) => if pair.len() == 2 {
                match eval_form(st, env, pair[0], fuel) {
                    Some((s1, Ok(p))) => match truth(p) {
                        Some(true) => eval_form(s1, env, pair[1], fuel),
                        Some(false) => cond_from(s1, env, items, j + 1, fuel),
                        None => Some((s1, Err("shen_cond: All predicates must evaluate to 'true' or 'false'."@))),
                    },
                    other => other,
                }
            } else {
                cond_from(st, env, items, j + 1, fuel)
            },
            _ => cond_from(st, env, items, j + 1, fuel),
        }
    }
}

pub open spec fn eval_trap(st: St, env: Seq<(Seq<char>, Val)>, items: Seq<Tok>, fuel: nat) -> Outcome
    decreases fuel, 0nat,
{
    if fuel == 0 {
        Some((st, Err(limit())))
    } else if items.len() == 3 {
        match eval_form(st, env, items[2], (fuel - 1) as nat) {
            Some((s1, Ok(h))) => {
                let attempt = match eval_form(s1, env, items[1], (fuel - 1) as nat) {
                    Some((s2, Ok(v))) => if is_thunk_val(v) {
                        force(s2, v, (fuel - 1) as nat)
                    } else {
                        Some((s2, Ok(v)))
                    },
                    other => other,
                };
                match attempt {
                    Some((s3, Err(m))) => apply_value(s3, h, seq![Val::Str(m)], (fuel - 1) as nat),
                    other => other,
                }
            },
            other => other,
        }
    } else {
        None
    }
}

pub open spec fn eval_app(st: St, env: Seq<(Seq<char>, Val)>, items: Seq<Tok>, fuel: nat) -> Outcome
    decreases fuel, 0nat,
{
    if fuel == 0 {
        Some((st, Err(limit())))
    } else if items.len() == 0 {
        Some((st, Ok(Val::Cons(Seq::empty()))))
    } else {
        match items[0] {
            Tok::Cons(_) => match eval_form(st, env, items[0], (fuel - 1) as nat) {
                Some((s1, Ok(f))) => match eval_args(s1, env, items, 1, (fuel - 1) as nat) {
                    Some((s2, Ok(args))) => apply_value(s2, f, args, (fuel - 1) as nat),
                    Some((s2, Err(e))) => Some((s2, Err(e))),
                    None => None,
                },
                other => other,
            },
            Tok::Symbol(s) => match eval_args(st, env, items, 1, (fuel - 1) as nat) {
                Some((s2, Ok(args))) => match lookup(env, s) {
                    Some(f) => apply_value(s2, f, args, (fuel - 1) as nat),
                    None => apply_named(s2, s, args, (fuel - 1) as nat),
                },
                Some((s2, Err(e))) => Some((s2, Err(e))),
                None => None,
            },
            _ => Some((st, Err("Trying to apply something other than a symbol or cons."@))),
        }
    }
}

/// Applying a value, which must be a closure, to arguments.
pub open spec fn apply_value(st: St, f: Val, args: Seq<Val>, fuel: nat) -> Outcome
    decreases fuel, 0nat,
{
    if fuel == 0 {
        Some((st, Err(limit())))
    } else {
        match f {
            Val::Closure(c) => apply_closure(st, c, args, (fuel - 1) as nat),
            _ => Some((st, Err("Expecting closure."@))),
        }
    }
}

/// Applying the function installed under `name`.
pub open spec fn apply_named(st: St, name: Seq<char>, args: Seq<Val>, fuel: nat) -> Outcome
    decreases fuel, 0nat,
{
    if fuel == 0 {
        Some((st, Err(limit())))
    } else {
        match lookup_fn(st.fns, name) {
            Some(c) => apply_closure(st, c, args, (fuel - 1) as nat),
            None => Some((st, Err("Could not find function:"@ + name))),
        }
    }
}

/// Applying a closure to arguments: with none, a closure that takes none
/// runs and any other is returned as it is; else one at a time.
pub open spec fn apply_closure(st: St, c: Clo, args: Seq<Val>, fuel: nat) -> Outcome
    decreases fuel, 0nat,
{
    if fuel == 0 {
        Some((st, Err(limit())))
    } else if args.len() == 0 {
        match c {
            Clo::Primitive(op, xs) => if xs.len() == arity(op) {
                prim_spec(st, op, xs, (fuel - 1) as nat)
            } else {
                Some((st, Ok(Val::Closure(c))))
            },
            Clo::Function(n, ps, xs, body, tramp) => if xs.len() == ps.len() {
                run_fn(st, ps, xs, body, tramp, (fuel - 1) as nat)
            } else {
                Some((st, Ok(Val::Closure(c))))
            },
            _ => Some((st, Ok(closure_value(c)))),
        }
    } else {
        apply_seq(st, c, args, (fuel - 1) as nat)
    }
}

/// Arguments given one at a time: a result that is a closure takes the
/// rest; any other value given more arguments is an error.
pub open spec fn apply_seq(st: St, c: Clo, args: Seq<Val>, fuel: nat) -> Outcome
    decreases fuel, args.len(),
{
    if args.len() == 0 {
        Some((st, Ok(Val::Closure(c))))
    } else {
        match apply_one(st, c, args[0], fuel) {
            Some((s1, Ok(v))) => if args.len() == 1 {
                Some((s1, Ok(v)))
            } else {
                match v {
                    Val::Closure(c2) => apply_seq(s1, c2, args.subrange(1, args.len() as int), fuel),
                    _ => Some((s1, Err(saturated()))),
                }
            },
            other => other,
        }
    }
}

/// One argument given to a closure.
pub open spec fn apply_one(st: St, c: Clo, a: Val, fuel: nat) -> Outcome
    decreases fuel, 0nat,
{
    if fuel == 0 {
        Some((st, Err(limit())))
    } else {
        match c {
            Clo::Primitive(op, xs) => if xs.len() + 1 == arity(op) {
                prim_spec(st, op, xs.push(a), (fuel - 1) as nat)
            } else {
                Some((st, Ok(Val::Closure(Clo::Primitive(op, xs.push(a))))))
            },
            Clo::Lambda(x, body, env) => eval_form(st, env.push((x, a)), body, (fuel - 1) as nat),
            Clo::Function(n, ps, xs, body, tramp) => if xs.len() + 1 == ps.len() {
                run_fn(st, ps, xs.push(a), body, tramp, (fuel - 1) as nat)
            } else {
                Some((st, Ok(Val::Closure(Clo::Function(n, ps, xs.push(a), body, tramp)))))
            },
            _ => Some((st, Err(saturated()))),
        }
    }
}

/// Running a saturated function: its body in the frame of its arguments,
/// then, in a trampoline, again for each tail-call marker.
pub open spec fn run_fn(st: St, ps: Seq<Seq<char>>, xs: Seq<Val>, body: Tok, tramp: bool, fuel: nat) -> Outcome
    decreases fuel, 0nat,
{
    if fuel == 0 {
        Some((st, Err(limit())))
    } else {
        let first = eval_form(st, frame(ps, xs), body, (fuel - 1) as nat);
        if tramp {
            match first {
                Some((s1, Ok(Val::Recur(vs)))) => bounce(s1, ps, body, vs, (fuel - 1) as nat),
                other => other,
            }
        } else {
            first
        }
    }
}

/// The trampoline: the body again with the marker's arguments, while it
/// yields markers.
pub open spec fn bounce(st: St, ps: Seq<Seq<char>>, body: Tok, vs: Seq<Val>, budget: nat) -> Outcome
    decreases budget, 1nat,
{
    if budget == 0 {
        Some((st, Err(limit())))
    } else if vs.len() != ps.len() {
        Some((st, Err("A tail call has the wrong number of arguments."@)))
    } else {
        match eval_form(st, frame(ps, vs), body, (budget - 1) as nat) {
            Some((s2, Ok(Val::Recur(ws)))) => bounce(s2, ps, body, ws, (budget - 1) as nat),
            other => other,
        }
    }
}

/// Forcing a thunk.
pub open spec fn force(st: St, v: Val, fuel: nat) -> Outcome
    decreases fuel, 0nat,
{
    if fuel == 0 {
        Some((st, Err(limit())))
    } else {
        match v {
            Val::Closure(Clo::Thunk(env, body)) => eval_form(st, env, body, (fuel - 1) as nat),
            _ => Some((st, Err("shen_force_thunk: Expected a thunk."@))),
        }
    }
}

pub open spec fn if_prim(st: St, p: Val, a: Val, b: Val, fuel: nat) -> Outcome
    decreases fuel, 0nat,
{
    if fuel == 0 {
        Some((st, Err(limit())))
    } else {
        match truth(p) {
            None => Some((st, Err("shen_if: the predicate must be 'true' or 'false'."@))),
            Some(t) => if !is_thunk_val(a) || !is_thunk_val(b) {
                Some((st, Err("shen_if: Both the if and else branch must be thunks."@)))
            } else if t {
                force(st, a, (fuel - 1) as nat)
            } else {
                force(st, b, (fuel - 1) as nat)
            },
        }
    }
}

pub open spec fn and_or_prim(st: St, a: Val, b: Val, is_and: bool, fuel: nat) -> Outcome
    decreases fuel, 0nat,
{
    if fuel == 0 {
        Some((st, Err(limit())))
    } else if !is_thunk_val(a) || !is_thunk_val(b) {
        Some((st, Err(if is_and { "shen_and: Both arguments must be thunks."@ } else { "shen_or: Both arguments must be thunks."@ })))
    } else {
        match force(st, a, (fuel - 1) as nat) {
            Some((s1, Ok(x))) => match truth(x) {
                Some(t) => if t != is_and {
                    Some((s1, Ok(bool_val(t))))
                } else {
                    match force(s1, b, (fuel - 1) as nat) {
                        Some((s2, Ok(y))) => match truth(y) {
                            Some(u) => Some((s2, Ok(bool_val(u)))),
                            None => Some((s2, Err(and_or_message(is_and, false)))),
                        },
                        other => other,
                    }
                },
                None => Some((s1, Err(and_or_message(is_and, true)))),
            },
            other => other,
        }
    }
}

/// The first error among the cases of a `cond` list that are not pairs of
/// thunks.
pub open spec fn case_shape_error(cases: Seq<Val>) -> Option<Seq<char>>
    decreases cases.len(),
{
    if cases.len() == 0 {
        None
    } else {
        match cases[0] {
            Val::Cons(pair) => if pair.len() != 2 || !is_thunk_val(pair[0]) || !is_thunk_val(pair[1]) {
                Some("shen_cond: All cases must be a pairs of thunks."@)
            } else {
                case_shape_error(cases.subrange(1, cases.len() as int))
            },
            _ => Some("shen_cond: All cases must be pairs."@),
        }
    }
}

pub open spec fn cond_prim(st: St, cases: Val, fuel: nat) -> Outcome
    decreases fuel, 0nat,
{
    if fuel == 0 {
        Some((st, Err(limit())))
    } else {
        match cases {
            Val::Cons(pairs) => match case_shape_error(pairs) {
                Some(m) => Some((st, Err(m))),
                None => cond_force(st, pairs, 0, (fuel - 1) as nat),
            },
            _ => Some((st, Err("shen_cond: All cases must be a pairs of thunks."@))),
        }
    }
}

/// The cases from the `k`-th on, each a list of an action thunk and a
/// predicate thunk: the forced action of the first true predicate.
pub open spec fn cond_force(st: St, pairs: Seq<Val>, k: int, fuel: nat) -> Outcome
    decreases fuel, (pairs.len() - k + 1) as nat,
{
    if k < 0 || k >= pairs.len() {
        Some((st, Err("shen_cond: None of the predicates evaluated to 'true'."@)))
    } else {
        match pairs[k] {
            Val::Cons(pair) => if pair.len() == 2 {
                match force(st, pair[1], fuel) {
                    Some((s1, Ok(p))) => match truth(p) {
                        Some(true) => force(s1, pair[0], fuel),
                        Some(false) => cond_force(s1, pairs, k + 1, fuel),
                        None => Some((s1, Err("shen_cond: All predicates must evaluate to 'true' or 'false'."@))),
                    },
                    other => other,
                }
            } else {
                cond_force(st, pairs, k + 1, fuel)
            },
            _ => cond_force(st, pairs, k + 1, fuel),
        }
    }
}

pub open spec fn trap_prim(st: St, t: Val, h: Val, fuel: nat) -> Outcome
    decreases fuel, 0nat,
{
    if fuel == 0 {
        Some((st, Err(limit())))
    } else if !is_thunk_val(t) {
        Some((st, Err("shen_trap_error: Expecting a thunk."@)))
    } else if !awaits_argument(h) {
        Some((st, Err("Expecting a closure."@)))
    } else {
        match force(st, t, (fuel - 1) as nat) {
            Some((s1, Err(m))) => apply_value(s1, h, seq![Val::Str(m)], (fuel - 1) as nat),
            other => other,
        }
    }
}

/// What a primitive that needs neither the runtime nor the host returns.
pub open spec fn pure_prim(op: Prim, xs: Seq<Val>) -> Option<Result<Val, Seq<char>>> {
    match op {
        Prim::Intern => Some(
            match xs[0] {
                Val::Str(s) => Ok(Val::Symbol(s)),
                _ => Err("shen_intern: expecting a string."@),
            },
        ),
        Prim::Pos => Some(
            match xs[0] {
                Val::Str(s) => match index_in(xs[1], s.len()) {
                    Some(k) => Ok(Val::Str(seq![s[k]])),
                    None => Err("shen_pos: expecting a number between 0 and the length of the string."@),
                },
                _ => Err("shen_pos: expecting a string."@),
            },
        ),
        Prim::Tlstr => Some(
            match xs[0] {
                Val::Str(s) => if s.len() > 0 {
                    Ok(Val::Str(s.skip(1)))
                } else {
                    Err("shen_tlstr: expecting non-empty string."@)
                },
                _ => Err("shen_tlstr: expecting a string."@),
            },
        ),
        Prim::Cn => Some(
            match (xs[0], xs[1]) {
                (Val::Str(a), Val::Str(b)) => Ok(Val::Str(a + b)),
                _ => Err("shen_cn: expecting two strings."@),
            },
        ),
        Prim::Str => Some(
            match crate::prims::str_of(xs[0]) {
                Some(s) => Ok(Val::Str(s)),
                None => Err("Not an atom, stream or closure; str cannot convert it to a string."@),
            },
        ),
        Prim::Stringp => Some(Ok(bool_val(xs[0] is Str))),
        Prim::NToString => Some(
            match xs[0] {
                Val::Number(Num::Int(i)) => if 0 <= i < 128 {
                    Ok(Val::Str(seq![(i as u8) as char]))
                } else if 128 <= i < 256 {
                    Err("shen_n_to_string: number is not utf8."@)
                } else {
                    Err("shen_n_to_string: number could not be converted to u8."@)
                },
                _ => Err("shen_n_to_string: expecting an integer."@),
            },
        ),
        Prim::StringToN => Some(
            match xs[0] {
                Val::Str(s) => if s.len() == 1 && (s[0] as u32) < 128 {
                    Ok(Val::Number(Num::Int(s[0] as u32 as i64)))
                } else {
                    Err("shen_string_to_n: expecting a unit string."@)
                },
                _ => Err("shen_string_to_n: expecting a unit string."@),
            },
        ),
        Prim::SimpleError => Some(
            match xs[0] {
                Val::Str(m) => Err(m),
                _ => Err("shen_simple_error: Expecting a string."@),
            },
        ),
        Prim::ErrorToString => Some(
            match xs[0] {
                Val::Str(m) => Ok(Val::Str(m)),
                _ => Err("shen_error_to_string: expecting a string."@),
            },
        ),
        Prim::Cons => Some(
            match xs[1] {
                Val::Cons(ys) => Ok(Val::Cons(seq![xs[0]] + ys)),
                _ => Err("shen_cons: Expecting a list."@),
            },
        ),
        Prim::Hd => Some(
            match xs[0] {
                Val::Cons(ys) => if ys.len() > 0 {
                    Ok(ys[0])
                } else {
                    Ok(Val::Nil)
                },
                _ => Err("shen_hd: Expecting a list"@),
            },
        ),
        Prim::Tl => Some(
            match xs[0] {
                Val::Cons(ys) => if ys.len() > 0 {
                    Ok(Val::Cons(ys.skip(1)))
                } else {
                    Ok(Val::Cons(ys))
                },
                _ => Err("shen_tl: Expecting a list."@),
            },
        ),
        Prim::Consp => Some(Ok(bool_val(xs[0] is Cons))),
        Prim::Absvectorp => Some(Ok(bool_val(xs[0] is Vector))),
        Prim::Numberp => Some(Ok(bool_val(xs[0] is Number))),
        Prim::Plus => arith_outcome(ArithOp::Add, xs[0], xs[1]),
        Prim::Mul => arith_outcome(ArithOp::Mul, xs[0], xs[1]),
        Prim::Sub => arith_outcome(ArithOp::Sub, xs[0], xs[1]),
        Prim::Div => arith_outcome(ArithOp::Div, xs[0], xs[1]),
        Prim::Gt => test_outcome(CmpOp::Gt, xs[0], xs[1]),
        Prim::Lt => test_outcome(CmpOp::Lt, xs[0], xs[1]),
        Prim::Le => test_outcome(CmpOp::Le, xs[0], xs[1]),
        Prim::Ge => test_outcome(CmpOp::Ge, xs[0], xs[1]),
        _ => None,
    }
}

/// What an arithmetic primitive returns; `None` for a float operation,
/// which the host carries out.
pub open spec fn arith_outcome(op: ArithOp, a: Val, b: Val) -> Option<Result<Val, Seq<char>>> {
    match (a, b) {
        (Val::Number(Num::Int(x)), Val::Number(Num::Int(y))) => Some(
            match int_arith(op, x, y) {
                Some(z) => Ok(Val::Number(Num::Int(z))),
                None => Err(overflow_message(op)),
            },
        ),
        (Val::Number(_), Val::Number(_)) => None,
        _ => Some(Err(arith_type_message(op))),
    }
}

pub open spec fn test_outcome(op: CmpOp, a: Val, b: Val) -> Option<Result<Val, Seq<char>>> {
    match (a, b) {
        (Val::Number(Num::Int(x)), Val::Number(Num::Int(y))) => Some(Ok(bool_val(int_test(op, x, y)))),
        (Val::Number(_), Val::Number(_)) => None,
        _ => Some(Err(test_type_message(op))),
    }
}

/// What `write-byte` hands to the host: the stream and the byte.
pub open spec fn write_request_fn(to_write: Val, stream: Val) -> Result<(KlStream, u8), Seq<char>> {
    match to_write {
        Val::Number(Num::Int(i)) => if 0 <= i < 256 {
            match stream {
                Val::Stream(s) => if is_output(s) {
                    Ok((s, i as u8))
                } else {
                    Err("shen_write_byte: Expecting a write-only stream or stdout."@)
                },
                _ => Err("shen_write_byte: Expecting a stream."@),
            }
        } else {
            Err("shen_write_byte: Expecting a byte."@)
        },
        _ => Err("shen_write_byte: Expecting a number."@),
    }
}

/// What `read-byte` hands to the host: the stream.
pub open spec fn read_request_fn(stream: Val) -> Result<KlStream, Seq<char>> {
    match stream {
        Val::Stream(s) => if is_input(s) {
            Ok(s)
        } else {
            Err("shen_read_byte: Expecting a read-only stream or stdin."@)
        },
        _ => Err("shen_read_byte: Expecting a stream."@),
    }
}

/// What `open` hands to the host: the path.
pub open spec fn open_request_fn(file_name: Val, direction: Val) -> Result<Seq<char>, Seq<char>> {
    match file_name {
        Val::Str(path) => if direction == Val::Symbol("shen_in"@) {
            Ok(path)
        } else {
            Err("shen_open: Expecting direction 'in'."@)
        },
        _ => Err("shen_open: Expecting a file path."@),
    }
}

pub open spec fn time_request_fn(time_type: Val) -> Result<(), Seq<char>> {
    if time_type == Val::Symbol("run"@) || time_type == Val::Symbol("real"@) {
        Ok(())
    } else {
        Err("shen_get_time: Expecting 'run' or 'real'."@)
    }
}

/// Running a primitive on all its arguments. The primitives that force
/// thunks (`if`, `and`, `or`, `cond`, `trap-error`) are described by
/// `if_prim`, `and_or_prim`, `cond_prim` and `trap_prim`, which their own
/// functions meet; here they are left open.
pub open spec fn prim_spec(st: St, op: Prim, xs: Seq<Val>, fuel: nat) -> Outcome
    decreases fuel, 0nat,
{
    if fuel == 0 {
        Some((st, Err(limit())))
    } else {
        match op {
            Prim::If | Prim::And | Prim::Or | Prim::Cond | Prim::TrapError => None,
            Prim::SetValue => Some(set_fn(st, xs[0], xs[1])),
            Prim::GetValue => Some((st, value_fn(st.syms, xs[0]))),
            Prim::Equal => Some((st, Ok(bool_val(equal_vals(st.vecs, xs[0], xs[1], st.vecs.len()))))),
            Prim::AddressTo => {
                let (vs, r) = address_fn(st.vecs, xs[0], xs[1], xs[2]);
                Some((St { vecs: vs, ..st }, r))
            },
            Prim::AddressFrom => Some((st, fetch_fn(st.vecs, xs[0], xs[1]))),
            Prim::Absvector => None,
            Prim::WriteByte => match write_request_fn(xs[0], xs[1]) {
                Err(e) => Some((st, Err(e))),
                Ok(_) => None,
            },
            Prim::ReadByte => match read_request_fn(xs[0]) {
                Err(e) => Some((st, Err(e))),
                Ok(_) => None,
            },
            Prim::Open => match open_request_fn(xs[0], xs[1]) {
                Err(e) => Some((st, Err(e))),
                Ok(_) => None,
            },
            Prim::GetTime => match time_request_fn(xs[0]) {
                Err(e) => Some((st, Err(e))),
                Ok(_) => None,
            },
            _ => match pure_prim(op, xs) {
                Some(r) => Some((st, r)),
                None => None,
            },
        }
    }
}

/// Top-level forms in order, each with `fuel` steps in the runtime the
/// forms before it left.
pub open spec fn load_spec(st: St, forms: Seq<Tok>, fuel: nat) -> Option<(St, Seq<Result<Val, Seq<char>>>)>
    decreases forms.len(),
{
    if forms.len() == 0 {
        Some((st, Seq::empty()))
    } else {
        match load_spec(st, forms.drop_last(), fuel) {
            Some((s1, rs)) => match eval_form(s1, Seq::empty(), forms.last(), fuel) {
                Some((s2, r)) => Some((s2, rs.push(r))),
                None => None,
            },
            None => None,
        }
    }
}

/// An outcome that is a tail-call marker.
pub open spec fn is_marker(o: Outcome) -> bool {
    o is Some && o->Some_0.1 is Ok && o->Some_0.1->Ok_0 is Recur
}

/// A function whose body yields no tail-call marker gives the same outcome
/// with and without a trampoline.
pub proof fn lemma_trampoline_transparent(st: St, ps: Seq<Seq<char>>, xs: Seq<Val>, body: Tok, fuel: nat)
    requires
        fuel > 0 ==> !is_marker(eval_form(st, frame(ps, xs), body, (fuel - 1) as nat)),
    ensures
        run_fn(st, ps, xs, body, true, fuel) == run_fn(st, ps, xs, body, false, fuel),
{
}

/// A `defun` without self tail calls installs its function outside a
/// trampoline, with its own body.
pub proof fn lemma_defun_without_tail_calls(st: St, t: Tok)
    requires
        is_defun(t),
        tail_calls(t).len() == 0,
    ensures
        defun_state(st, t).fns.last() == (
            t->Cons_0[1]->Symbol_0,
            Clo::Function(t->Cons_0[1]->Symbol_0, arg_names(t->Cons_0[2]->Cons_0), Seq::empty(), t->Cons_0[3], false),
        ),
{
}

/// With no arguments, a closure that awaits some, a thunk or a completed
/// closure is returned as it is (its payload, for a completed one).
pub proof fn lemma_no_arguments(st: St, c: Clo, fuel: nat)
    requires
        fuel > 0,
        c is Lambda || c is Thunk || c is Done || (c matches Clo::Primitive(op, xs) && xs.len() != arity(op))
            || (c matches Clo::Function(n, ps, xs, b, t) && xs.len() != ps.len()),
    ensures
        apply_closure(st, c, Seq::empty(), fuel) == Some((st, Ok::<Val, Seq<char>>(closure_value(c)))),
{
}

/// A thunk or a completed closure given an argument is an error.
pub proof fn lemma_saturated_takes_no_argument(st: St, c: Clo, a: Val, fuel: nat)
    requires
        fuel > 0,
        c is Thunk || c is Done,
    ensures
        apply_one(st, c, a, fuel) == Some((st, Err::<Val, Seq<char>>(saturated()))),
{
}

/// Currying is associative: applying `xs + ys` is applying `xs`, then `ys`
/// to the closure that results; a result that is no closure refuses more
/// arguments, and an error or a host-decided outcome passes through.
pub proof fn lemma_apply_in_parts(st: St, c: Clo, xs: Seq<Val>, ys: Seq<Val>, fuel: nat)
    requires
        xs.len() > 0,
        ys.len() > 0,
    ensures
        apply_seq(st, c, xs + ys, fuel) == match apply_seq(st, c, xs, fuel) {
            Some((s1, Ok(Val::Closure(c2)))) => apply_seq(s1, c2, ys, fuel),
            Some((s1, Ok(_))) => Some((s1, Err(saturated()))),
            other => other,
        },
    decreases xs.len(),
{
    let zs = xs + ys;
    assert(zs[0] == xs[0]);
    assert(zs.subrange(1, zs.len() as int) =~= xs.subrange(1, xs.len() as int) + ys);
    if xs.len() > 1 {
        match apply_one(st, c, xs[0], fuel) {
            Some((s1, Ok(Val::Closure(c2)))) => {
                lemma_apply_in_parts(s1, c2, xs.subrange(1, xs.len() as int), ys, fuel);
            },
            _ => {},
        }
    }
}

/// `if` on `true` and two frozen numbers gives the first number.
pub proof fn lemma_if_true_forces_first(st: St, env: Seq<(Seq<char>, Val)>, a: Num, b: Num, fuel: nat)
    requires
        fuel >= 3,
    ensures
        if_prim(
            st,
            bool_val(true),
            Val::Closure(Clo::Thunk(env, Tok::Number(a))),
            Val::Closure(Clo::Thunk(env, Tok::Number(b))),
            fuel,
        ) == Some((st, Ok::<Val, Seq<char>>(Val::Number(a)))),
{
    reveal_strlit("shen_true");
    reveal_strlit("shen_false");
}

} // verus!
