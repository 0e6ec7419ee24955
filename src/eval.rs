//! The evaluator: turns each form into a value or a closure, applies
//! closures one argument at a time, and runs tail-recursive functions in a
//! trampoline. Work outside the kernel (float arithmetic, streams, the
//! clock) goes to a host.
use vstd::prelude::*;
use vstd::string::StringExecFns;
use crate::prims::{
    ArithOp, CmpOp, FloatOperand, NumberResult, TestResult, bool_val, err_val, ok_val, shen_bool,
    shen_is_thunk, shen_make_error, shen_truth,
};
use crate::symbols::{rename, shen_rename_symbol};
use crate::runtime::{Runtime, add_to_function_table, lookup, lookup_binding, shen_lookup_function};
use crate::semantics::{
    pure_prim, agrees, agrees_all, and_or_message, and_or_prim, apply_closure, apply_named, apply_one, apply_seq,
    apply_value, args_from, arith_outcome, bounce, case_shape_error, cond_force, cond_from,
    cond_prim, defun_state, eval_and_or, eval_app, eval_args, eval_cond, eval_form, eval_if,
    eval_let, eval_trap, force, frame, if_prim, limit, load_spec, open_request_fn, prim_spec,
    read_request_fn, run_fn, test_outcome, time_request_fn, trap_prim, write_request_fn,
};
use crate::token::{
    FloatLit, KlNumber, KlToken, Num, Tok, toks_of, arg_names, copy_number, copy_string, copy_token, extract_arg_names,
    lemma_toks_of, mark_all, mark_all_recur, shen_get_all_tail_calls, symbol_is, tail_calls,
};
use crate::value::{
    Binding, Clo, Function, KlClosure, KlElement, KlError, KlStream, Pending, Prim, Val, binds_of,
    copy_bindings, copy_element, lemma_names_of, lemma_vals_of, names_of, res_view, vals_of,
};

verus! {

/// What the kernel asks of its surroundings. The kernel is verified for
/// every implementation: nothing is assumed of the answers.
pub trait Host {
    /// Carries out a float operation; `Err` with a message when it cannot.
    fn float_arith(&mut self, op: ArithOp, a: &FloatOperand, b: &FloatOperand) -> Result<FloatLit, String>;

    /// Compares two operands as floats.
    fn float_test(&mut self, op: CmpOp, a: &FloatOperand, b: &FloatOperand) -> bool;

    /// Writes a byte to an output stream; whether it succeeded.
    fn write_byte(&mut self, stream: KlStream, byte: u8) -> bool;

    /// Reads a byte from an input stream: `Some(None)` at its end, `None`
    /// when reading failed.
    fn read_byte(&mut self, stream: KlStream) -> Option<Option<u8>>;

    /// Opens a file for reading, giving its stream handle.
    fn open_input(&mut self, path: &String) -> Option<u64>;

    /// The current time in seconds.
    fn time_now(&mut self) -> FloatLit;
}

/// How many arguments a primitive takes.
pub open spec fn arity(op: Prim) -> nat {
    match op {
        Prim::If | Prim::AddressTo => 3,
        Prim::Intern | Prim::Tlstr | Prim::Str | Prim::Stringp | Prim::NToString | Prim::StringToN
        | Prim::SimpleError | Prim::ErrorToString | Prim::GetValue | Prim::Hd | Prim::Tl
        | Prim::Consp | Prim::Absvectorp | Prim::ReadByte | Prim::GetTime | Prim::Numberp
        | Prim::Cond => 1,
        Prim::Absvector => 0,
        _ => 2,
    }
}

pub fn prim_arity(op: Prim) -> (r: usize)
    ensures
        r == arity(op),
{
    match op {
        Prim::If | Prim::AddressTo => 3,
        Prim::Intern | Prim::Tlstr | Prim::Str | Prim::Stringp | Prim::NToString | Prim::StringToN
        | Prim::SimpleError | Prim::ErrorToString | Prim::GetValue | Prim::Hd | Prim::Tl
        | Prim::Consp | Prim::Absvectorp | Prim::ReadByte | Prim::GetTime | Prim::Numberp
        | Prim::Cond => 1,
        Prim::Absvector => 0,
        _ => 2,
    }
}

pub fn limit_reached() -> (r: KlError)
    ensures
        r@ == "evaluation step limit reached"@,
{
    shen_make_error("evaluation step limit reached")
}

/// A completed closure as a value: its payload, or unit; any other closure
/// as it is.
pub fn shen_closure_to_element(c: KlClosure) -> (r: KlElement)
    ensures
        c@ matches Clo::Done(Ok(Some(v))) ==> r@ == *v,
        c@ matches Clo::Done(Ok(None)) ==> r@ == Val::Nil,
        !(c@ matches Clo::Done(Ok(_))) ==> r@ == Val::Closure(c@),
{
    match c {
        KlClosure::Done(Ok(Some(v))) => *v,
        KlClosure::Done(Ok(None)) => KlElement::Nil,
        _ => KlElement::Closure(c),
    }
}

/// The frame `env` with `name` bound to `value` on top.
pub fn bind(env: &Vec<Binding>, name: &String, value: KlElement) -> (r: Vec<Binding>)
    ensures
        binds_of(r@) == binds_of(env@).push((name@, value@)),
{
    let mut r = copy_bindings(env);
    let ghost r0 = r@;
    r.push(Binding { name: copy_string(name), value });
    assert(r@.drop_last() == r0);
    r
}

/// `atoms`: numbers and strings stand for themselves; a symbol for its
/// value in the frame when it is bound there, else for itself.
pub fn generate_atoms(bound: &Vec<Binding>, token: &KlToken) -> (r: Option<KlElement>)
    ensures
        token@ matches Tok::Number(n) ==> r matches Some(v) && v@ == Val::Number(n),
        token@ matches Tok::Str(s) ==> r matches Some(v) && v@ == Val::Str(s),
        token@ matches Tok::Symbol(s) ==> r matches Some(v) && v@ == match lookup(binds_of(bound@), s) {
            Some(x) => x,
            None => Val::Symbol(s),
        },
        (token@ is Cons || token@ is Recur) ==> r is None,
{
    match token {
        KlToken::Number(n) => Some(KlElement::Number(copy_number(n))),
        KlToken::String(s) => Some(KlElement::String(copy_string(s))),
        KlToken::Symbol(s) => match lookup_binding(bound, s) {
            Some(v) => Some(v),
            None => Some(KlElement::Symbol(copy_string(s))),
        },
        _ => None,
    }
}

/// `lambda x body`: a closure awaiting `x`, over the current frame.
pub fn generate_lambda(bound: &Vec<Binding>, arg: &String, body: &KlToken) -> (r: KlElement)
    ensures
        r@ == Val::Closure(Clo::Lambda(arg@, body@, binds_of(bound@))),
{
    KlElement::Closure(
        KlClosure::FeedMe(Box::new(Pending::Lambda(copy_string(arg), copy_token(body), copy_bindings(bound)))),
    )
}

/// `freeze e`: a thunk that evaluates `e` in the current frame when forced.
pub fn generate_freeze(bound: &Vec<Binding>, token: &KlToken) -> (r: KlElement)
    ensures
        r@ == Val::Closure(Clo::Thunk(binds_of(bound@), token@)),
{
    generate_thunk(bound, token)
}

pub fn generate_thunk(bound: &Vec<Binding>, token: &KlToken) -> (r: KlElement)
    ensures
        r@ == Val::Closure(Clo::Thunk(binds_of(bound@), token@)),
{
    KlElement::Closure(KlClosure::Thunk(copy_bindings(bound), Box::new(copy_token(token))))
}

/// The frame that binds each parameter to its argument.
fn frame_of(params: &Vec<String>, args: &Vec<KlElement>) -> (r: Vec<Binding>)
    requires
        params.len() == args.len(),
    ensures
        binds_of(r@) == frame(names_of(params@), vals_of(args@)),
{
    let mut r: Vec<Binding> = Vec::new();
    let mut i: usize = 0;
    proof {
        lemma_names_of(params@);
        lemma_vals_of(args@);
        assert(names_of(params@.take(0)) =~= Seq::<Seq<char>>::empty());
        assert(binds_of(r@) =~= frame(names_of(params@.take(0)), vals_of(args@.take(0))));
    }
    while i < params.len()
        invariant
            i <= params.len() == args.len(),
            binds_of(r@) == frame(names_of(params@.take(i as int)), vals_of(args@.take(i as int))),
        decreases params.len() - i,
    {
        let ghost r0 = r@;
        r.push(Binding { name: copy_string(&params[i]), value: copy_element(&args[i]) });
        proof {
            assert(r@.drop_last() == r0);
            assert(params@.take(i + 1).drop_last() =~= params@.take(i as int));
            assert(args@.take(i + 1).drop_last() =~= args@.take(i as int));
            lemma_names_of(params@.take(i + 1));
            lemma_vals_of(args@.take(i + 1));
            assert(names_of(params@.take(i + 1)).drop_last() == names_of(params@.take(i as int)));
            assert(vals_of(args@.take(i + 1)).drop_last() == vals_of(args@.take(i as int)));
        }
        i = i + 1;
    }
    assert(params@.take(params.len() as int) =~= params@);
    assert(args@.take(args.len() as int) =~= args@);
    r
}

/// Evaluates `items[from..]` in order, stopping at the first error.
pub fn generate_arguments<H: Host>(
    rt: &mut Runtime,
    host: &mut H,
    bound: &Vec<Binding>,
    items: &Vec<KlToken>,
    from: usize,
    fuel: u64,
) -> (r: Result<Vec<KlElement>, KlError>)
    requires
        old(rt).wf(),
    ensures
        final(rt).wf(),
        agrees_all(eval_args(old(rt)@, binds_of(bound@), toks_of(items@), from as int, fuel as nat), final(rt)@, r),
    decreases fuel, 0nat,
{
    proof {
        lemma_toks_of(items@);
    }
    if fuel == 0 {
        return Err(limit_reached());
    }
    if from > items.len() {
        let none: Vec<KlElement> = Vec::new();
        assert(vals_of(none@) =~= Seq::<Val>::empty());
        return Ok(none);
    }
    arguments_from(rt, host, bound, items, from, fuel - 1)
}

fn arguments_from<H: Host>(
    rt: &mut Runtime,
    host: &mut H,
    bound: &Vec<Binding>,
    items: &Vec<KlToken>,
    i: usize,
    fuel: u64,
) -> (r: Result<Vec<KlElement>, KlError>)
    requires
        old(rt).wf(),
        i <= items.len(),
    ensures
        final(rt).wf(),
        agrees_all(args_from(old(rt)@, binds_of(bound@), toks_of(items@), i as int, fuel as nat), final(rt)@, r),
    decreases fuel, items.len() - i + 1,
{
    proof {
        lemma_toks_of(items@);
    }
    if i >= items.len() {
        let none: Vec<KlElement> = Vec::new();
        assert(vals_of(none@) =~= Seq::<Val>::empty());
        return Ok(none);
    }
    match generate(rt, host, bound, &items[i], fuel) {
        Ok(v) => match arguments_from(rt, host, bound, items, i + 1, fuel) {
            Ok(vs) => {
                let mut all = vs;
                let ghost a0 = all@;
                all.insert(0, v);
                proof {
                    lemma_vals_of(a0);
                    lemma_vals_of(all@);
                    assert(vals_of(all@) =~= seq![all@[0]@] + vals_of(a0));
                }
                Ok(all)
            },
            Err(e) => Err(e),
        },
        Err(e) => Err(e),
    }
}

/// Evaluates a form in the frame `bound`.
pub fn generate<H: Host>(rt: &mut Runtime, host: &mut H, bound: &Vec<Binding>, token: &KlToken, fuel: u64) -> (r: Result<KlElement, KlError>)
    requires
        old(rt).wf(),
    ensures
        final(rt).wf(),
        agrees(eval_form(old(rt)@, binds_of(bound@), token@, fuel as nat), final(rt)@, r),
    decreases fuel, 0nat,
{
    if fuel == 0 {
        return Err(limit_reached());
    }
    match token {
        KlToken::Cons(items) => {
            proof {
                lemma_toks_of(items@);
            }
            if items.len() == 0 {
                let empty: Vec<KlElement> = Vec::new();
                assert(vals_of(empty@) =~= Seq::<Val>::empty());
                assert(toks_of(items@) =~= Seq::<Tok>::empty());
                return Ok(KlElement::Cons(empty));
            }
            let n = items.len();
            let head = &items[0];
            if n == 4 && symbol_is(head, "defun") {
                match (&items[1], &items[2]) {
                    (KlToken::Symbol(_), KlToken::Cons(_)) => {
                        return generate_defun(rt, token);
                    },
                    _ => {},
                }
            }
            if n == 3 && symbol_is(head, "lambda") {
                match &items[1] {
                    KlToken::Symbol(x) => {
                        return Ok(generate_lambda(bound, x, &items[2]));
                    },
                    _ => {},
                }
            }
            if n == 4 && symbol_is(head, "shen_let") {
                match &items[1] {
                    KlToken::Symbol(_) => {
                        return generate_let(rt, host, bound, items, fuel - 1);
                    },
                    _ => {},
                }
            }
            if n == 4 && symbol_is(head, "shen_if") {
                return generate_if(rt, host, bound, items, fuel - 1);
            }
            if n == 3 && (symbol_is(head, "and") || symbol_is(head, "or")) {
                return generate_and_or(rt, host, bound, items, symbol_is(head, "and"), fuel - 1);
            }
            if symbol_is(head, "cond") {
                return generate_cond(rt, host, bound, items, fuel - 1);
            }
            if n == 2 && symbol_is(head, "freeze") {
                return Ok(generate_freeze(bound, &items[1]));
            }
            if n == 3 && symbol_is(head, "trap__Dash__error") {
                return generate_trap_error(rt, host, bound, items, fuel - 1);
            }
            if n == 3 && symbol_is(head, "shen_do") {
                match generate(rt, host, bound, &items[1], fuel - 1) {
                    Ok(_) => {
                        return generate(rt, host, bound, &items[2], fuel - 1);
                    },
                    Err(e) => {
                        return Err(e);
                    },
                }
            }
            generate_application(rt, host, bound, items, fuel - 1)
        },
        KlToken::Recur(args) => match generate_arguments(rt, host, bound, args, 0, fuel - 1) {
            Ok(vals) => Ok(KlElement::Recur(vals)),
            Err(e) => Err(e),
        },
        _ => {
            match generate_atoms(bound, token) {
                Some(v) => Ok(v),
                None => Err(shen_make_error("Not a form.")),
            }
        },
    }
}

/// A form of `n` elements headed by the symbol `head`.
pub open spec fn is_form(t: Tok, head: Seq<char>, n: nat) -> bool {
    t is Cons && t->Cons_0.len() == n && t->Cons_0[0] == Tok::Symbol(head)
}

/// The body a `defun` runs: with its self tail calls marked when it has any.
pub open spec fn defun_body(t: Tok) -> Tok {
    let marked = mark_all(tail_calls(t), t);
    if tail_calls(t).len() > 0 && marked is Cons && marked->Cons_0.len() == 4 {
        marked->Cons_0[3]
    } else {
        t->Cons_0[3]
    }
}

/// A `defun` form: `(defun name (params..) body)`.
pub open spec fn is_defun(t: Tok) -> bool {
    &&& t is Cons
    &&& t->Cons_0.len() == 4
    &&& t->Cons_0[0] == Tok::Symbol("defun"@)
    &&& t->Cons_0[1] is Symbol
    &&& t->Cons_0[2] is Cons
}

/// `defun name (params..) body`: installs a curried function under `name`,
/// in a trampoline when its body has self tail calls, and returns the name.
pub fn generate_defun(rt: &mut Runtime, token: &KlToken) -> (r: Result<KlElement, KlError>)
    requires
        old(rt).wf(),
        is_defun(token@),
    ensures
        final(rt).wf(),
        ok_val(r, Val::Symbol(token@->Cons_0[1]->Symbol_0)),
        final(rt)@ == defun_state(old(rt)@, token@),
{
    match token {
        KlToken::Cons(items) => {
            proof {
                lemma_toks_of(items@);
            }
            match (&items[1], &items[2]) {
                (KlToken::Symbol(name), KlToken::Cons(args)) => {
                    let paths = shen_get_all_tail_calls(token);
                    let trampolined = paths.len() > 0;
                    let mut body = copy_token(&items[3]);
                    if trampolined {
                        let mut marked = copy_token(token);
                        mark_all_recur(&paths, &mut marked);
                        match &marked {
                            KlToken::Cons(m) => {
                                proof {
                                    lemma_toks_of(m@);
                                }
                                if m.len() == 4 {
                                    body = copy_token(&m[3]);
                                }
                            },
                            _ => {},
                        }
                    }
                    let f = Function {
                        name: copy_string(name),
                        params: extract_arg_names(args),
                        args: Vec::new(),
                        body,
                        trampolined,
                    };
                    proof {
                        assert(vals_of(f.args@) =~= Seq::<Val>::empty());
                    }
                    add_to_function_table(
                        rt,
                        copy_string(name),
                        KlClosure::FeedMe(Box::new(Pending::Function(f))),
                    );
                    Ok(KlElement::Symbol(copy_string(name)))
                },
                _ => Err(shen_make_error("defun: malformed definition.")),
            }
        },
        _ => Err(shen_make_error("defun: malformed definition.")),
    }
}

/// `let x v body`: evaluates `v`, then `body` with `x` bound to its value.
pub fn generate_let<H: Host>(rt: &mut Runtime, host: &mut H, bound: &Vec<Binding>, items: &Vec<KlToken>, fuel: u64) -> (r: Result<KlElement, KlError>)
    requires
        old(rt).wf(),
    ensures
        final(rt).wf(),
        agrees(eval_let(old(rt)@, binds_of(bound@), toks_of(items@), fuel as nat), final(rt)@, r),
    decreases fuel, 0nat,
{
    proof {
        lemma_toks_of(items@);
    }
    if fuel == 0 {
        return Err(limit_reached());
    }
    if items.len() != 4 {
        return Err(shen_make_error("let: expecting a variable."));
    }
    match &items[1] {
        KlToken::Symbol(x) => match generate(rt, host, bound, &items[2], fuel - 1) {
            Ok(v) => {
                let frame = bind(bound, x, v);
                generate(rt, host, &frame, &items[3], fuel - 1)
            },
            Err(e) => Err(e),
        },
        _ => Err(shen_make_error("let: expecting a variable.")),
    }
}

/// `if p t e`: evaluates `p`, which must be a boolean, then only the branch
/// it selects.
pub fn generate_if<H: Host>(rt: &mut Runtime, host: &mut H, bound: &Vec<Binding>, items: &Vec<KlToken>, fuel: u64) -> (r: Result<KlElement, KlError>)
    requires
        old(rt).wf(),
        items.len() == 4,
    ensures
        final(rt).wf(),
        agrees(eval_if(old(rt)@, binds_of(bound@), toks_of(items@), fuel as nat), final(rt)@, r),
    decreases fuel, 0nat,
{
    proof {
        lemma_toks_of(items@);
    }
    if fuel == 0 {
        return Err(limit_reached());
    }
    match generate(rt, host, bound, &items[1], fuel - 1) {
        Ok(p) => match shen_truth(&p) {
            Some(true) => generate(rt, host, bound, &items[2], fuel - 1),
            Some(false) => generate(rt, host, bound, &items[3], fuel - 1),
            None => Err(shen_make_error("shen_if: the predicate must be 'true' or 'false'.")),
        },
        Err(e) => Err(e),
    }
}

fn and_or_error(is_and: bool, first: bool) -> (r: KlError)
    ensures
        r@ == and_or_message(is_and, first),
{
    if is_and {
        if first {
            shen_make_error("shen_and: The first argument must evaluate to the symbol 'true' or 'false.")
        } else {
            shen_make_error("shen_and: The second argument must evaluate to the symbol 'true' or 'false.")
        }
    } else {
        if first {
            shen_make_error("shen_or: The first argument must evaluate to the symbol 'true' or 'false.")
        } else {
            shen_make_error("shen_or: The second argument must evaluate to the symbol 'true' or 'false.")
        }
    }
}

/// `and a b` and `or a b`: both arms must be booleans; the second is
/// evaluated only when the first does not decide.
pub fn generate_and_or<H: Host>(
    rt: &mut Runtime,
    host: &mut H,
    bound: &Vec<Binding>,
    items: &Vec<KlToken>,
    is_and: bool,
    fuel: u64,
) -> (r: Result<KlElement, KlError>)
    requires
        old(rt).wf(),
        items.len() == 3,
    ensures
        final(rt).wf(),
        agrees(eval_and_or(old(rt)@, binds_of(bound@), toks_of(items@), is_and, fuel as nat), final(rt)@, r),
    decreases fuel, 0nat,
{
    proof {
        lemma_toks_of(items@);
    }
    if fuel == 0 {
        return Err(limit_reached());
    }
    match generate(rt, host, bound, &items[1], fuel - 1) {
        Ok(a) => match shen_truth(&a) {
            Some(t) => {
                if t != is_and {
                    return Ok(shen_bool(t));
                }
                match generate(rt, host, bound, &items[2], fuel - 1) {
                    Ok(b) => match shen_truth(&b) {
                        Some(u) => Ok(shen_bool(u)),
                        None => Err(and_or_error(is_and, false)),
                    },
                    Err(e) => Err(e),
                }
            },
            None => Err(and_or_error(is_and, true)),
        },
        Err(e) => Err(e),
    }
}

/// `cond (p a)..`: the action of the first clause whose predicate is true.
pub fn generate_cond<H: Host>(rt: &mut Runtime, host: &mut H, bound: &Vec<Binding>, items: &Vec<KlToken>, fuel: u64) -> (r: Result<KlElement, KlError>)
    requires
        old(rt).wf(),
    ensures
        final(rt).wf(),
        agrees(eval_cond(old(rt)@, binds_of(bound@), toks_of(items@), fuel as nat), final(rt)@, r),
    decreases fuel, 0nat,
{
    if fuel == 0 {
        return Err(limit_reached());
    }
    if items.len() == 0 {
        proof {
            lemma_toks_of(items@);
        }
        return Err(shen_make_error("shen_cond: None of the predicates evaluated to 'true'."));
    }
    clauses_from(rt, host, bound, items, 1, fuel - 1)
}

fn clauses_from<H: Host>(rt: &mut Runtime, host: &mut H, bound: &Vec<Binding>, items: &Vec<KlToken>, j: usize, fuel: u64) -> (r: Result<KlElement, KlError>)
    requires
        old(rt).wf(),
        j <= items.len(),
    ensures
        final(rt).wf(),
        agrees(cond_from(old(rt)@, binds_of(bound@), toks_of(items@), j as int, fuel as nat), final(rt)@, r),
    decreases fuel, items.len() - j + 1,
{
    proof {
        lemma_toks_of(items@);
    }
    if j >= items.len() {
        return Err(shen_make_error("shen_cond: None of the predicates evaluated to 'true'."));
    }
    match &items[j] {
        KlToken::Cons(pair) => {
            proof {
                lemma_toks_of(pair@);
            }
            if pair.len() == 2 {
                match generate(rt, host, bound, &pair[0], fuel) {
                    Ok(p) => match shen_truth(&p) {
                        Some(true) => generate(rt, host, bound, &pair[1], fuel),
                        Some(false) => clauses_from(rt, host, bound, items, j + 1, fuel),
                        None => Err(shen_make_error("shen_cond: All predicates must evaluate to 'true' or 'false'.")),
                    },
                    Err(e) => Err(e),
                }
            } else {
                clauses_from(rt, host, bound, items, j + 1, fuel)
            }
        },
        _ => clauses_from(rt, host, bound, items, j + 1, fuel),
    }
}

/// `trap-error e h`: the value of `e` (forced, when it is a thunk); on an
/// error, `h` applied to the error's message.
pub fn generate_trap_error<H: Host>(rt: &mut Runtime, host: &mut H, bound: &Vec<Binding>, items: &Vec<KlToken>, fuel: u64) -> (r: Result<KlElement, KlError>)
    requires
        old(rt).wf(),
        items.len() == 3,
    ensures
        final(rt).wf(),
        agrees(eval_trap(old(rt)@, binds_of(bound@), toks_of(items@), fuel as nat), final(rt)@, r),
    decreases fuel, 0nat,
{
    proof {
        lemma_toks_of(items@);
    }
    if fuel == 0 {
        return Err(limit_reached());
    }
    let handler = match generate(rt, host, bound, &items[2], fuel - 1) {
        Ok(h) => h,
        Err(e) => {
            return Err(e);
        },
    };
    let attempt = match generate(rt, host, bound, &items[1], fuel - 1) {
        Ok(v) => {
            if shen_is_thunk(&v) {
                shen_force_thunk(rt, host, &v, fuel - 1)
            } else {
                Ok(v)
            }
        },
        Err(e) => Err(e),
    };
    match attempt {
        Ok(v) => Ok(v),
        Err(KlError::ErrorString(m)) => {
            let mut args: Vec<KlElement> = Vec::new();
            args.push(KlElement::String(m));
            proof {
                lemma_vals_of(args@);
                assert(vals_of(args@) =~= seq![args@[0]@]);
            }
            shen_apply_element(rt, host, handler, args, fuel - 1)
        },
    }
}

/// An application `(f args..)`: `f` an inline form, a bound variable, or the
/// name of a function in the function table.
pub fn generate_application<H: Host>(rt: &mut Runtime, host: &mut H, bound: &Vec<Binding>, items: &Vec<KlToken>, fuel: u64) -> (r: Result<KlElement, KlError>)
    requires
        old(rt).wf(),
    ensures
        final(rt).wf(),
        agrees(eval_app(old(rt)@, binds_of(bound@), toks_of(items@), fuel as nat), final(rt)@, r),
    decreases fuel, 0nat,
{
    proof {
        lemma_toks_of(items@);
    }
    if fuel == 0 {
        return Err(limit_reached());
    }
    if items.len() == 0 {
        let empty: Vec<KlElement> = Vec::new();
        assert(vals_of(empty@) =~= Seq::<Val>::empty());
        return Ok(KlElement::Cons(empty));
    }
    match &items[0] {
        KlToken::Cons(_) => {
            let f = match generate(rt, host, bound, &items[0], fuel - 1) {
                Ok(f) => f,
                Err(e) => {
                    return Err(e);
                },
            };
            match generate_arguments(rt, host, bound, items, 1, fuel - 1) {
                Ok(args) => shen_apply_element(rt, host, f, args, fuel - 1),
                Err(e) => Err(e),
            }
        },
        KlToken::Symbol(s) => {
            let args = match generate_arguments(rt, host, bound, items, 1, fuel - 1) {
                Ok(args) => args,
                Err(e) => {
                    return Err(e);
                },
            };
            match lookup_binding(bound, s) {
                Some(f) => shen_apply_element(rt, host, f, args, fuel - 1),
                None => shen_apply_arguments_to_function(rt, host, s, args, fuel - 1),
            }
        },
        _ => Err(shen_make_error("Trying to apply something other than a symbol or cons.")),
    }
}

/// Applies a value, which must be a closure, to arguments.
pub fn shen_apply_element<H: Host>(rt: &mut Runtime, host: &mut H, c: KlElement, elements: Vec<KlElement>, fuel: u64) -> (r: Result<KlElement, KlError>)
    requires
        old(rt).wf(),
    ensures
        final(rt).wf(),
        agrees(apply_value(old(rt)@, c@, vals_of(elements@), fuel as nat), final(rt)@, r),
    decreases fuel, 0nat,
{
    if fuel == 0 {
        return Err(limit_reached());
    }
    match c {
        KlElement::Closure(cl) => shen_apply_arguments(rt, host, cl, elements, fuel - 1),
        _ => Err(shen_make_error("Expecting closure.")),
    }
}

/// Applies the function installed under `s` to arguments.
pub fn shen_apply_arguments_to_function<H: Host>(rt: &mut Runtime, host: &mut H, s: &String, elements: Vec<KlElement>, fuel: u64) -> (r: Result<KlElement, KlError>)
    requires
        old(rt).wf(),
    ensures
        final(rt).wf(),
        agrees(apply_named(old(rt)@, s@, vals_of(elements@), fuel as nat), final(rt)@, r),
    decreases fuel, 0nat,
{
    if fuel == 0 {
        return Err(limit_reached());
    }
    match shen_lookup_function(rt, s) {
        Some(f) => shen_apply_arguments(rt, host, f, elements, fuel - 1),
        None => {
            let mut m = String::from_str("Could not find function:");
            m.append(s.as_str());
            Err(KlError::ErrorString(m))
        },
    }
}

/// Applies a closure to arguments, one at a time. When it saturates before
/// the arguments run out, its result is applied to the rest. With no
/// arguments, a closure that takes none runs, and any other is returned.
pub fn shen_apply_arguments<H: Host>(rt: &mut Runtime, host: &mut H, c: KlClosure, elements: Vec<KlElement>, fuel: u64) -> (r: Result<KlElement, KlError>)
    requires
        old(rt).wf(),
    ensures
        final(rt).wf(),
        agrees(apply_closure(old(rt)@, c@, vals_of(elements@), fuel as nat), final(rt)@, r),
    decreases fuel, 0nat,
{
    proof {
        lemma_vals_of(elements@);
    }
    if fuel == 0 {
        return Err(limit_reached());
    }
    if elements.len() == 0 {
        return match c {
            KlClosure::FeedMe(p) => match *p {
                Pending::Primitive(op, args) => {
                    proof {
                        lemma_vals_of(args@);
                        assert(c@ == Clo::Primitive(op, vals_of(args@)));
                    }
                    if args.len() == prim_arity(op) {
                        run_primitive(rt, host, op, &args, fuel - 1)
                    } else {
                        Ok(KlElement::Closure(KlClosure::FeedMe(Box::new(Pending::Primitive(op, args)))))
                    }
                },
                Pending::Function(f) => {
                    proof {
                        lemma_names_of(f.params@);
                        lemma_vals_of(f.args@);
                    }
                    if f.args.len() == f.params.len() {
                        run_function(rt, host, &f, fuel - 1)
                    } else {
                        Ok(KlElement::Closure(KlClosure::FeedMe(Box::new(Pending::Function(f)))))
                    }
                },
                Pending::Lambda(x, body, env) => {
                    let ghost before = c@;
                    let r = KlElement::Closure(KlClosure::FeedMe(Box::new(Pending::Lambda(x, body, env))));
                    assert(r@ == Val::Closure(before));
                    Ok(r)
                },
            },
            other => {
                let ghost before = c@;
                let r = shen_closure_to_element(other);
                assert(r@ == crate::semantics::closure_value(before));
                Ok(r)
            },
        };
    }
    proof {
        assert(vals_of(elements@).subrange(0, elements@.len() as int) =~= vals_of(elements@));
    }
    apply_from(rt, host, c, &elements, 0, fuel - 1)
}

/// Gives `elements[i..]` to a closure, one at a time.
fn apply_from<H: Host>(rt: &mut Runtime, host: &mut H, c: KlClosure, elements: &Vec<KlElement>, i: usize, fuel: u64) -> (r: Result<KlElement, KlError>)
    requires
        old(rt).wf(),
        i < elements.len(),
    ensures
        final(rt).wf(),
        agrees(
            apply_seq(old(rt)@, c@, vals_of(elements@).subrange(i as int, elements@.len() as int), fuel as nat),
            final(rt)@,
            r,
        ),
    decreases fuel, elements.len() - i,
{
    proof {
        lemma_vals_of(elements@);
    }
    let ghost rest = vals_of(elements@).subrange(i as int, elements@.len() as int);
    assert(rest[0] == elements@[i as int]@);
    assert(rest.subrange(1, rest.len() as int) =~= vals_of(elements@).subrange(i + 1, elements@.len() as int));
    let result = shen_apply_arguments_to_lambda(rt, host, c, copy_element(&elements[i]), fuel);
    if i + 1 == elements.len() {
        return result;
    }
    match result {
        Ok(KlElement::Closure(next)) => apply_from(rt, host, next, elements, i + 1, fuel),
        Ok(_) => Err(shen_make_error("Given a fully saturated closure or thunk")),
        Err(e) => Err(e),
    }
}

/// A partial closure with one more argument, while it still awaits more.
pub open spec fn fed(l: Clo, a: Val) -> Option<Clo> {
    match l {
        Clo::Primitive(op, xs) => if xs.len() + 1 < arity(op) {
            Some(Clo::Primitive(op, xs.push(a)))
        } else {
            None
        },
        Clo::Function(n, ps, xs, b, t) => if xs.len() + 1 < ps.len() {
            Some(Clo::Function(n, ps, xs.push(a), b, t))
        } else {
            None
        },
        _ => None,
    }
}

/// A partial closure after the arguments `args`, one at a time, while it
/// awaits more.
pub open spec fn fed_all(l: Clo, args: Seq<Val>) -> Option<Clo>
    decreases args.len(),
{
    if args.len() == 0 {
        Some(l)
    } else {
        match fed_all(l, args.drop_last()) {
            Some(m) => fed(m, args.last()),
            None => None,
        }
    }
}

/// Currying is associative: giving a partial closure the arguments `xs`
/// and then `ys` is giving it `xs + ys`; in particular `[a, b, c]` at once
/// is `[a]`, then `[b]`, then `[c]`.
pub proof fn lemma_currying_associative(l: Clo, xs: Seq<Val>, ys: Seq<Val>)
    ensures
        fed_all(l, xs + ys) == match fed_all(l, xs) {
            Some(m) => fed_all(m, ys),
            None => None,
        },
    decreases ys.len(),
{
    if ys.len() == 0 {
        assert(xs + ys == xs);
    } else {
        assert((xs + ys).drop_last() == xs + ys.drop_last());
        lemma_currying_associative(l, xs, ys.drop_last());
        if fed_all(l, xs) is None {
            lemma_fed_all_none(l, xs, ys);
        }
    }
}

proof fn lemma_fed_all_none(l: Clo, xs: Seq<Val>, ys: Seq<Val>)
    requires
        fed_all(l, xs) is None,
    ensures
        fed_all(l, xs + ys) is None,
    decreases ys.len(),
{
    if ys.len() == 0 {
        assert(xs + ys == xs);
    } else {
        assert((xs + ys).drop_last() == xs + ys.drop_last());
        lemma_fed_all_none(l, xs, ys.drop_last());
    }
}

/// Gives one argument to a closure that awaits one.
pub fn shen_apply_arguments_to_lambda<H: Host>(rt: &mut Runtime, host: &mut H, l: KlClosure, a: KlElement, fuel: u64) -> (r: Result<KlElement, KlError>)
    requires
        old(rt).wf(),
    ensures
        final(rt).wf(),
        agrees(apply_one(old(rt)@, l@, a@, fuel as nat), final(rt)@, r),
        fuel > 0 && fed(l@, a@) is Some ==> ok_val(r, Val::Closure(fed(l@, a@)->0)),
    decreases fuel, 0nat,
{
    if fuel == 0 {
        return Err(limit_reached());
    }
    match l {
        KlClosure::FeedMe(p) => match *p {
            Pending::Primitive(op, args) => {
                let mut args = args;
                let ghost a0 = args@;
                args.push(a);
                assert(args@.drop_last() == a0);
                proof {
                    crate::value::lemma_vals_of(a0);
                    crate::value::lemma_vals_of(args@);
                }
                if args.len() == prim_arity(op) {
                    run_primitive(rt, host, op, &args, fuel - 1)
                } else {
                    Ok(KlElement::Closure(KlClosure::FeedMe(Box::new(Pending::Primitive(op, args)))))
                }
            },
            Pending::Lambda(x, body, env) => {
                let frame = bind(&env, &x, a);
                generate(rt, host, &frame, &body, fuel - 1)
            },
            Pending::Function(f) => {
                let mut f = f;
                let ghost a0 = f.args@;
                f.args.push(a);
                assert(f.args@.drop_last() == a0);
                proof {
                    crate::value::lemma_vals_of(a0);
                    crate::value::lemma_vals_of(f.args@);
                    lemma_names_of(f.params@);
                }
                if f.args.len() == f.params.len() {
                    run_function(rt, host, &f, fuel - 1)
                } else {
                    Ok(KlElement::Closure(KlClosure::FeedMe(Box::new(Pending::Function(f)))))
                }
            },
        },
        _ => Err(shen_make_error("Given a fully saturated closure or thunk")),
    }
}

/// Runs a saturated function: its body in the frame of its arguments, in a
/// trampoline when it has self tail calls.
pub fn run_function<H: Host>(rt: &mut Runtime, host: &mut H, f: &Function, fuel: u64) -> (r: Result<KlElement, KlError>)
    requires
        old(rt).wf(),
        f.args.len() == f.params.len(),
    ensures
        final(rt).wf(),
        agrees(
            run_fn(old(rt)@, names_of(f.params@), vals_of(f.args@), f.body@, f.trampolined, fuel as nat),
            final(rt)@,
            r,
        ),
    decreases fuel, 0nat,
{
    if fuel == 0 {
        return Err(limit_reached());
    }
    let frame = frame_of(&f.params, &f.args);
    let first = generate(rt, host, &frame, &f.body, fuel - 1);
    if f.trampolined {
        trampoline(rt, host, f, first, fuel - 1)
    } else {
        first
    }
}

/// The trampoline of a tail-recursive function: while the body yields a
/// tail-call marker, evaluates it again with the marker's arguments, in a
/// loop. A first result that is no marker is returned as it is, with
/// nothing changed.
pub fn trampoline<H: Host>(rt: &mut Runtime, host: &mut H, f: &Function, first: Result<KlElement, KlError>, fuel: u64) -> (r: Result<KlElement, KlError>)
    requires
        old(rt).wf(),
    ensures
        final(rt).wf(),
        first is Ok && first->Ok_0@ is Recur ==> agrees(
            bounce(old(rt)@, names_of(f.params@), f.body@, first->Ok_0@->Recur_0, fuel as nat),
            final(rt)@,
            r,
        ),
        !(first is Ok && first->Ok_0@ is Recur) ==> res_view(r) == res_view(first) && *final(rt)
            == *old(rt),
    decreases fuel, 1nat,
{
    let ghost ps = names_of(f.params@);
    let ghost whole = bounce(rt@, ps, f.body@, first->Ok_0@->Recur_0, fuel as nat);
    let mut current = match first {
        Ok(KlElement::Recur(vals)) => vals,
        other => {
            return other;
        },
    };
    let mut budget: u64 = fuel;
    proof {
        lemma_names_of(f.params@);
    }
    loop
        invariant
            rt.wf(),
            budget <= fuel,
            ps == names_of(f.params@),
            ps.len() == f.params@.len(),
            first is Ok && first->Ok_0@ is Recur,
            whole == bounce(old(rt)@, ps, f.body@, first->Ok_0@->Recur_0, fuel as nat),
            whole is Some ==> whole == bounce(rt@, ps, f.body@, vals_of(current@), budget as nat),
        decreases budget,
    {
        proof {
            lemma_vals_of(current@);
        }
        if budget == 0 {
            return Err(limit_reached());
        }
        if current.len() != f.params.len() {
            return Err(shen_make_error("A tail call has the wrong number of arguments."));
        }
        let frame = frame_of(&f.params, &current);
        match generate(rt, host, &frame, &f.body, budget - 1) {
            Ok(KlElement::Recur(vals)) => {
                current = vals;
            },
            other => {
                return other;
            },
        }
        budget = budget - 1;
    }
}

/// Forces a thunk: evaluates its body in its frame.
pub fn shen_force_thunk<H: Host>(rt: &mut Runtime, host: &mut H, a: &KlElement, fuel: u64) -> (r: Result<KlElement, KlError>)
    requires
        old(rt).wf(),
    ensures
        final(rt).wf(),
        agrees(force(old(rt)@, a@, fuel as nat), final(rt)@, r),
    decreases fuel, 0nat,
{
    if fuel == 0 {
        return Err(limit_reached());
    }
    match a {
        KlElement::Closure(KlClosure::Thunk(env, body)) => generate(rt, host, env, body, fuel - 1),
        _ => Err(shen_make_error("shen_force_thunk: Expected a thunk.")),
    }
}

pub open spec fn is_output(s: KlStream) -> bool {
    s matches KlStream::FileStream(_, crate::value::KlStreamDirection::Out) || s == KlStream::Std(
        crate::value::KlStdStream::Stdout,
    )
}

pub open spec fn is_input(s: KlStream) -> bool {
    s matches KlStream::FileStream(_, crate::value::KlStreamDirection::In) || s == KlStream::Std(
        crate::value::KlStdStream::Stdin,
    )
}

/// What `write-byte` hands to the host: the stream and the byte; the type
/// errors otherwise.
pub fn write_request(to_write: &KlElement, stream: &KlElement) -> (r: Result<(KlStream, u8), KlError>)
    ensures
        match r {
            Ok(x) => write_request_fn(to_write@, stream@) == Ok::<(KlStream, u8), Seq<char>>(x),
            Err(e) => write_request_fn(to_write@, stream@) == Err::<(KlStream, u8), Seq<char>>(e@),
        },
{
    match to_write {
        KlElement::Number(KlNumber::Int(i)) => {
            if *i < 0 || *i >= 256 {
                return Err(shen_make_error("shen_write_byte: Expecting a byte."));
            }
            match stream {
                KlElement::Stream(s) => {
                    let out = match s {
                        KlStream::FileStream(_, crate::value::KlStreamDirection::Out) => true,
                        KlStream::Std(crate::value::KlStdStream::Stdout) => true,
                        _ => false,
                    };
                    if !out {
                        return Err(shen_make_error("shen_write_byte: Expecting a write-only stream or stdout."));
                    }
                    Ok((*s, *i as u8))
                },
                _ => Err(shen_make_error("shen_write_byte: Expecting a stream.")),
            }
        },
        _ => Err(shen_make_error("shen_write_byte: Expecting a number.")),
    }
}

/// `write-byte`: writes a byte to an output stream and returns it. The
/// host receives exactly the stream and byte of `write_request`.
pub fn shen_write_byte<H: Host>(host: &mut H, to_write: &KlElement, stream: &KlElement) -> (r: Result<KlElement, KlError>)
    ensures
        write_request_fn(to_write@, stream@) matches Err(m) ==> err_val(r, m),
        write_request_fn(to_write@, stream@) is Ok ==> ok_val(r, to_write@) || err_val(
            r,
            "shen_write_byte: Could not write byte."@,
        ),
{
    match write_request(to_write, stream) {
        Ok((s, b)) => {
            if host.write_byte(s, b) {
                Ok(copy_element(to_write))
            } else {
                Err(shen_make_error("shen_write_byte: Could not write byte."))
            }
        },
        Err(e) => Err(e),
    }
}

/// What `read-byte` hands to the host: the stream; the type errors
/// otherwise.
pub fn read_request(stream: &KlElement) -> (r: Result<KlStream, KlError>)
    ensures
        match r {
            Ok(s) => read_request_fn(stream@) == Ok::<KlStream, Seq<char>>(s),
            Err(e) => read_request_fn(stream@) == Err::<KlStream, Seq<char>>(e@),
        },
{
    match stream {
        KlElement::Stream(s) => {
            let inp = match s {
                KlStream::FileStream(_, crate::value::KlStreamDirection::In) => true,
                KlStream::Std(crate::value::KlStdStream::Stdin) => true,
                _ => false,
            };
            if !inp {
                return Err(shen_make_error("shen_read_byte: Expecting a read-only stream or stdin."));
            }
            Ok(*s)
        },
        _ => Err(shen_make_error("shen_read_byte: Expecting a stream.")),
    }
}

/// `read-byte`: reads a byte from an input stream; -1 at its end. The host
/// receives exactly the stream of `read_request`.
pub fn shen_read_byte<H: Host>(host: &mut H, stream: &KlElement) -> (r: Result<KlElement, KlError>)
    ensures
        read_request_fn(stream@) matches Err(m) ==> err_val(r, m),
        read_request_fn(stream@) is Ok ==> (r matches Ok(v) && v@ matches Val::Number(Num::Int(b)) && -1
            <= b < 256) || err_val(r, "shen_read_byte: Could not read byte."@),
{
    match read_request(stream) {
        Ok(s) => match host.read_byte(s) {
            Some(Some(b)) => Ok(KlElement::Number(KlNumber::Int(b as i64))),
            Some(None) => Ok(KlElement::Number(KlNumber::Int(-1))),
            None => Err(shen_make_error("shen_read_byte: Could not read byte.")),
        },
        Err(e) => Err(e),
    }
}

/// What `open` hands to the host: the path; the type errors otherwise.
/// `in`, a reserved word, reaches the primitive in its sanitised form.
pub fn open_request(file_name: &KlElement, direction: &KlElement) -> (r: Result<String, KlError>)
    ensures
        match r {
            Ok(p) => open_request_fn(file_name@, direction@) == Ok::<Seq<char>, Seq<char>>(p@),
            Err(e) => open_request_fn(file_name@, direction@) == Err::<Seq<char>, Seq<char>>(e@),
        },
{
    match file_name {
        KlElement::String(path) => {
            if !symbol_is_value(direction, "shen_in") {
                return Err(shen_make_error("shen_open: Expecting direction 'in'."));
            }
            Ok(copy_string(path))
        },
        _ => Err(shen_make_error("shen_open: Expecting a file path.")),
    }
}

/// `open path in`: an input stream on a file. Only reading is supported.
/// The host receives exactly the path of `open_request`.
pub fn shen_open<H: Host>(host: &mut H, file_name: &KlElement, direction: &KlElement) -> (r: Result<KlElement, KlError>)
    ensures
        open_request_fn(file_name@, direction@) matches Err(m) ==> err_val(r, m),
        open_request_fn(file_name@, direction@) is Ok ==> (r matches Ok(v) && v@ matches Val::Stream(
            KlStream::FileStream(_, crate::value::KlStreamDirection::In),
        )) || err_val(r, "shen_open: Could not open file."@),
{
    match open_request(file_name, direction) {
        Ok(path) => match host.open_input(&path) {
            Some(h) => Ok(KlElement::Stream(KlStream::FileStream(h, crate::value::KlStreamDirection::In))),
            None => Err(shen_make_error("shen_open: Could not open file.")),
        },
        Err(e) => Err(e),
    }
}

/// Whether the value `v` is the symbol `name`.
pub fn symbol_is_value(v: &KlElement, name: &str) -> (r: bool)
    ensures
        r == (v@ == Val::Symbol(name@)),
{
    match v {
        KlElement::Symbol(s) => {
            let cs = crate::text::chars_of(s.as_str());
            assert(cs@.subrange(0, cs@.len() as int) == cs@);
            crate::text::slice_equals(&cs, 0, cs.len(), name)
        },
        _ => false,
    }
}

/// `get-time run` or `get-time real`: the time in seconds, as a float.
pub fn shen_get_time<H: Host>(host: &mut H, time_type: &KlElement) -> (r: Result<KlElement, KlError>)
    ensures
        time_request_fn(time_type@) is Ok ==> (r matches Ok(v) && v@ is Number && v@->Number_0 is Float),
        time_request_fn(time_type@) matches Err(m) ==> err_val(r, m),
{
    if symbol_is_value(time_type, "run") || symbol_is_value(time_type, "real") {
        Ok(KlElement::Number(KlNumber::Float(host.time_now())))
    } else {
        Err(shen_make_error("shen_get_time: Expecting 'run' or 'real'."))
    }
}

/// An arithmetic primitive, with float work handed to the host.
pub fn arithmetic<H: Host>(host: &mut H, op: ArithOp, a: &KlElement, b: &KlElement) -> (r: Result<KlElement, KlError>)
    ensures
        arith_outcome(op, a@, b@) matches Some(x) ==> res_view(r) == x,
{
    match crate::prims::number_op(op, a, b) {
        NumberResult::Value(v) => Ok(v),
        NumberResult::Failure(e) => Err(e),
        NumberResult::Promote(o, x, y) => match host.float_arith(o, &x, &y) {
            Ok(f) => Ok(KlElement::Number(KlNumber::Float(f))),
            Err(m) => Err(KlError::ErrorString(m)),
        },
    }
}

/// A comparison primitive, with float work handed to the host.
pub fn comparison<H: Host>(host: &mut H, op: CmpOp, a: &KlElement, b: &KlElement) -> (r: Result<KlElement, KlError>)
    ensures
        test_outcome(op, a@, b@) matches Some(x) ==> res_view(r) == x,
        r matches Ok(v) ==> v@ == bool_val(true) || v@ == bool_val(false),
{
    match crate::prims::number_test(op, a, b) {
        TestResult::Value(v) => Ok(v),
        TestResult::Failure(e) => Err(e),
        TestResult::Promote(o, x, y) => Ok(shen_bool(host.float_test(o, &x, &y))),
    }
}

/// A thunk.
pub open spec fn is_thunk_val(v: Val) -> bool {
    v is Closure && v->Closure_0 is Thunk
}

/// A closure that awaits an argument.
pub open spec fn awaits_argument(v: Val) -> bool {
    v is Closure && (v->Closure_0 is Primitive || v->Closure_0 is Lambda || v->Closure_0 is Function)
}

/// The `if` primitive: a boolean and two thunks; forces the one selected.
pub fn shen_if<H: Host>(rt: &mut Runtime, host: &mut H, predicate: &KlElement, if_thunk: &KlElement, else_thunk: &KlElement, fuel: u64) -> (r: Result<KlElement, KlError>)
    requires
        old(rt).wf(),
    ensures
        final(rt).wf(),
        agrees(if_prim(old(rt)@, predicate@, if_thunk@, else_thunk@, fuel as nat), final(rt)@, r),
    decreases fuel, 0nat,
{
    if fuel == 0 {
        return Err(limit_reached());
    }
    match shen_truth(predicate) {
        None => Err(shen_make_error("shen_if: the predicate must be 'true' or 'false'.")),
        Some(t) => {
            if !shen_is_thunk(if_thunk) || !shen_is_thunk(else_thunk) {
                return Err(shen_make_error("shen_if: Both the if and else branch must be thunks."));
            }
            if t {
                shen_force_thunk(rt, host, if_thunk, fuel - 1)
            } else {
                shen_force_thunk(rt, host, else_thunk, fuel - 1)
            }
        },
    }
}

/// The `and` and `or` primitives on two thunks: forces the first, and the
/// second only when the first does not decide.
pub fn shen_and_or<H: Host>(rt: &mut Runtime, host: &mut H, a_thunk: &KlElement, b_thunk: &KlElement, is_and: bool, fuel: u64) -> (r: Result<KlElement, KlError>)
    requires
        old(rt).wf(),
    ensures
        final(rt).wf(),
        agrees(and_or_prim(old(rt)@, a_thunk@, b_thunk@, is_and, fuel as nat), final(rt)@, r),
    decreases fuel, 0nat,
{
    if fuel == 0 {
        return Err(limit_reached());
    }
    if !shen_is_thunk(a_thunk) || !shen_is_thunk(b_thunk) {
        return Err(
            if is_and {
                shen_make_error("shen_and: Both arguments must be thunks.")
            } else {
                shen_make_error("shen_or: Both arguments must be thunks.")
            },
        );
    }
    match shen_force_thunk(rt, host, a_thunk, fuel - 1) {
        Ok(a) => match shen_truth(&a) {
            Some(t) => {
                if t != is_and {
                    return Ok(shen_bool(t));
                }
                match shen_force_thunk(rt, host, b_thunk, fuel - 1) {
                    Ok(b) => match shen_truth(&b) {
                        Some(u) => Ok(shen_bool(u)),
                        None => Err(and_or_error(is_and, false)),
                    },
                    Err(e) => Err(e),
                }
            },
            None => Err(and_or_error(is_and, true)),
        },
        Err(e) => Err(e),
    }
}

/// `and` on two thunks: `false` without forcing the second when the first
/// is `false`; else the second's truth value.
pub fn shen_and<H: Host>(rt: &mut Runtime, host: &mut H, a_thunk: &KlElement, b_thunk: &KlElement, fuel: u64) -> (r: Result<KlElement, KlError>)
    requires
        old(rt).wf(),
    ensures
        final(rt).wf(),
        fuel == 0 ==> err_val(r, limit()),
        fuel > 0 ==> agrees(and_or_prim(old(rt)@, a_thunk@, b_thunk@, true, (fuel - 1) as nat), final(rt)@, r),
    decreases fuel, 0nat,
{
    if fuel == 0 {
        return Err(limit_reached());
    }
    shen_and_or(rt, host, a_thunk, b_thunk, true, fuel - 1)
}

/// `or` on two thunks: `true` without forcing the second when the first is
/// `true`; else the second's truth value.
pub fn shen_or<H: Host>(rt: &mut Runtime, host: &mut H, a_thunk: &KlElement, b_thunk: &KlElement, fuel: u64) -> (r: Result<KlElement, KlError>)
    requires
        old(rt).wf(),
    ensures
        final(rt).wf(),
        fuel == 0 ==> err_val(r, limit()),
        fuel > 0 ==> agrees(and_or_prim(old(rt)@, a_thunk@, b_thunk@, false, (fuel - 1) as nat), final(rt)@, r),
    decreases fuel, 0nat,
{
    if fuel == 0 {
        return Err(limit_reached());
    }
    shen_and_or(rt, host, a_thunk, b_thunk, false, fuel - 1)
}

fn case_shape_check(pairs: &Vec<KlElement>, k: usize) -> (r: Option<KlError>)
    requires
        k <= pairs.len(),
    ensures
        match r {
            Some(e) => case_shape_error(vals_of(pairs@).subrange(k as int, pairs@.len() as int)) == Some(e@),
            None => case_shape_error(vals_of(pairs@).subrange(k as int, pairs@.len() as int)) is None,
        },
    decreases pairs.len() - k,
{
    proof {
        lemma_vals_of(pairs@);
    }
    let ghost rest = vals_of(pairs@).subrange(k as int, pairs@.len() as int);
    if k == pairs.len() {
        return None;
    }
    assert(rest[0] == pairs@[k as int]@);
    assert(rest.subrange(1, rest.len() as int) =~= vals_of(pairs@).subrange(k + 1, pairs@.len() as int));
    match &pairs[k] {
        KlElement::Cons(pair) => {
            proof {
                lemma_vals_of(pair@);
            }
            if pair.len() != 2 || !shen_is_thunk(&pair[0]) || !shen_is_thunk(&pair[1]) {
                return Some(shen_make_error("shen_cond: All cases must be a pairs of thunks."));
            }
            case_shape_check(pairs, k + 1)
        },
        _ => Some(shen_make_error("shen_cond: All cases must be pairs.")),
    }
}

fn cases_from<H: Host>(rt: &mut Runtime, host: &mut H, pairs: &Vec<KlElement>, k: usize, fuel: u64) -> (r: Result<KlElement, KlError>)
    requires
        old(rt).wf(),
        k <= pairs.len(),
    ensures
        final(rt).wf(),
        agrees(cond_force(old(rt)@, vals_of(pairs@), k as int, fuel as nat), final(rt)@, r),
    decreases fuel, pairs.len() - k + 1,
{
    proof {
        lemma_vals_of(pairs@);
    }
    if k >= pairs.len() {
        return Err(shen_make_error("shen_cond: None of the predicates evaluated to 'true'."));
    }
    match &pairs[k] {
        KlElement::Cons(pair) => {
            proof {
                lemma_vals_of(pair@);
            }
            if pair.len() == 2 {
                match shen_force_thunk(rt, host, &pair[1], fuel) {
                    Ok(p) => match shen_truth(&p) {
                        Some(true) => shen_force_thunk(rt, host, &pair[0], fuel),
                        Some(false) => cases_from(rt, host, pairs, k + 1, fuel),
                        None => Err(shen_make_error("shen_cond: All predicates must evaluate to 'true' or 'false'.")),
                    },
                    Err(e) => Err(e),
                }
            } else {
                cases_from(rt, host, pairs, k + 1, fuel)
            }
        },
        _ => cases_from(rt, host, pairs, k + 1, fuel),
    }
}

/// The `cond` primitive: a list of clauses, each a list of an action thunk
/// and a predicate thunk; forces the action of the first clause whose
/// predicate is true.
pub fn shen_cond<H: Host>(rt: &mut Runtime, host: &mut H, cases: &KlElement, fuel: u64) -> (r: Result<KlElement, KlError>)
    requires
        old(rt).wf(),
    ensures
        final(rt).wf(),
        agrees(cond_prim(old(rt)@, cases@, fuel as nat), final(rt)@, r),
    decreases fuel, 0nat,
{
    if fuel == 0 {
        return Err(limit_reached());
    }
    match cases {
        KlElement::Cons(pairs) => {
            proof {
                lemma_vals_of(pairs@);
                assert(vals_of(pairs@).subrange(0, pairs@.len() as int) =~= vals_of(pairs@));
            }
            match case_shape_check(pairs, 0) {
                Some(e) => Err(e),
                None => cases_from(rt, host, pairs, 0, fuel - 1),
            }
        },
        _ => Err(shen_make_error("shen_cond: All cases must be a pairs of thunks.")),
    }
}

/// The `trap-error` primitive: forces a thunk; its value when that
/// succeeds, else the handler applied to the error's message as a string.
pub fn shen_trap_error<H: Host>(rt: &mut Runtime, host: &mut H, to_try_thunk: &KlElement, handler: &KlElement, fuel: u64) -> (r: Result<KlElement, KlError>)
    requires
        old(rt).wf(),
    ensures
        final(rt).wf(),
        agrees(trap_prim(old(rt)@, to_try_thunk@, handler@, fuel as nat), final(rt)@, r),
    decreases fuel, 0nat,
{
    if fuel == 0 {
        return Err(limit_reached());
    }
    if !shen_is_thunk(to_try_thunk) {
        return Err(shen_make_error("shen_trap_error: Expecting a thunk."));
    }
    match handler {
        KlElement::Closure(KlClosure::FeedMe(_)) => {},
        _ => {
            return Err(shen_make_error("Expecting a closure."));
        },
    }
    match shen_force_thunk(rt, host, to_try_thunk, fuel - 1) {
        Ok(v) => Ok(v),
        Err(KlError::ErrorString(m)) => {
            let mut args: Vec<KlElement> = Vec::new();
            args.push(KlElement::String(m));
            proof {
                lemma_vals_of(args@);
                assert(vals_of(args@) =~= seq![args@[0]@]);
            }
            shen_apply_element(rt, host, copy_element(handler), args, fuel - 1)
        },
    }
}

/// Runs a primitive that needs no runtime, and the host only for floats.
fn pure_primitive<H: Host>(host: &mut H, op: Prim, args: &Vec<KlElement>) -> (r: Result<KlElement, KlError>)
    requires
        args.len() == arity(op),
        !(op is If || op is And || op is Or || op is Cond || op is TrapError || op is SetValue
            || op is GetValue || op is Equal || op is Absvector || op is AddressTo || op is AddressFrom
            || op is WriteByte || op is ReadByte || op is Open || op is GetTime),
    ensures
        pure_prim(op, vals_of(args@)) matches Some(x) ==> res_view(r) == x,
{
    proof {
        lemma_vals_of(args@);
    }
    match op {
        Prim::Intern => crate::prims::shen_intern(&args[0]),
        Prim::Pos => crate::prims::shen_pos(&args[0], &args[1]),
        Prim::Tlstr => crate::prims::shen_tlstr(&args[0]),
        Prim::Cn => crate::prims::shen_cn(&args[0], &args[1]),
        Prim::Str => crate::prims::shen_str(&args[0]),
        Prim::Stringp => Ok(crate::prims::shen_stringp(&args[0])),
        Prim::NToString => crate::prims::shen_n_to_string(&args[0]),
        Prim::StringToN => crate::prims::shen_string_to_n(&args[0]),
        Prim::SimpleError => crate::prims::shen_simple_error(&args[0]),
        Prim::ErrorToString => crate::prims::shen_error_to_string(&args[0]),
        Prim::Cons => crate::prims::shen_cons(&args[0], &args[1]),
        Prim::Hd => crate::prims::shen_hd(&args[0]),
        Prim::Tl => crate::prims::shen_tl(&args[0]),
        Prim::Consp => Ok(crate::prims::shen_consp(&args[0])),
        Prim::Absvectorp => Ok(crate::prims::shen_absvectorp(&args[0])),
        Prim::Plus => arithmetic(host, ArithOp::Add, &args[0], &args[1]),
        Prim::Mul => arithmetic(host, ArithOp::Mul, &args[0], &args[1]),
        Prim::Sub => arithmetic(host, ArithOp::Sub, &args[0], &args[1]),
        Prim::Div => arithmetic(host, ArithOp::Div, &args[0], &args[1]),
        Prim::Gt => comparison(host, CmpOp::Gt, &args[0], &args[1]),
        Prim::Lt => comparison(host, CmpOp::Lt, &args[0], &args[1]),
        Prim::Le => comparison(host, CmpOp::Le, &args[0], &args[1]),
        Prim::Ge => comparison(host, CmpOp::Ge, &args[0], &args[1]),
        Prim::Numberp => Ok(crate::prims::shen_numberp(&args[0])),
        _ => Err(shen_make_error("not a primitive of this kind")),
    }
}

/// Runs a primitive that forces thunks; each has its own contract.
fn forcing_primitive<H: Host>(rt: &mut Runtime, host: &mut H, op: Prim, args: &Vec<KlElement>, fuel: u64) -> (r: Result<KlElement, KlError>)
    requires
        old(rt).wf(),
        args.len() == arity(op),
        fuel > 0,
        op is If || op is And || op is Or || op is Cond || op is TrapError,
    ensures
        final(rt).wf(),
    decreases fuel, 1nat,
{
    proof {
        lemma_vals_of(args@);
    }
    match op {
        Prim::If => shen_if(rt, host, &args[0], &args[1], &args[2], fuel - 1),
        Prim::And => shen_and(rt, host, &args[0], &args[1], fuel - 1),
        Prim::Or => shen_or(rt, host, &args[0], &args[1], fuel - 1),
        Prim::Cond => shen_cond(rt, host, &args[0], fuel - 1),
        _ => shen_trap_error(rt, host, &args[0], &args[1], fuel - 1),
    }
}

/// Runs a primitive on the symbol table or the vector table.
fn table_primitive(rt: &mut Runtime, op: Prim, args: &Vec<KlElement>) -> (r: Result<KlElement, KlError>)
    requires
        old(rt).wf(),
        args.len() == arity(op),
        op is SetValue || op is GetValue || op is Equal || op is Absvector || op is AddressTo
            || op is AddressFrom,
    ensures
        final(rt).wf(),
        forall|f: nat| f > 0 ==> #[trigger] agrees(prim_spec(old(rt)@, op, vals_of(args@), f), final(rt)@, r),
{
    proof {
        lemma_vals_of(args@);
    }
    match op {
        Prim::SetValue => crate::runtime::shen_set(rt, &args[0], &args[1]),
        Prim::GetValue => crate::runtime::shen_value(rt, &args[0]),
        Prim::Equal => Ok(crate::runtime::shen_equal(rt, &args[0], &args[1])),
        Prim::Absvector => crate::runtime::shen_absvector(rt),
        Prim::AddressTo => crate::runtime::shen_insert_at_address(rt, &args[0], &args[1], &args[2]),
        _ => crate::runtime::shen_get_at_address(rt, &args[0], &args[1]),
    }
}

/// Runs a primitive on streams or the clock.
fn stream_primitive<H: Host>(rt: &mut Runtime, host: &mut H, op: Prim, args: &Vec<KlElement>) -> (r: Result<KlElement, KlError>)
    requires
        old(rt).wf(),
        args.len() == arity(op),
        op is WriteByte || op is ReadByte || op is Open || op is GetTime,
    ensures
        *final(rt) == *old(rt),
        forall|f: nat| f > 0 ==> #[trigger] agrees(prim_spec(old(rt)@, op, vals_of(args@), f), final(rt)@, r),
{
    proof {
        lemma_vals_of(args@);
    }
    match op {
        Prim::WriteByte => shen_write_byte(host, &args[0], &args[1]),
        Prim::ReadByte => shen_read_byte(host, &args[0]),
        Prim::Open => shen_open(host, &args[0], &args[1]),
        _ => shen_get_time(host, &args[0]),
    }
}

/// Runs a primitive on all its arguments.
pub fn run_primitive<H: Host>(rt: &mut Runtime, host: &mut H, op: Prim, args: &Vec<KlElement>, fuel: u64) -> (r: Result<KlElement, KlError>)
    requires
        old(rt).wf(),
        args.len() == arity(op),
    ensures
        final(rt).wf(),
        agrees(prim_spec(old(rt)@, op, vals_of(args@), fuel as nat), final(rt)@, r),
    decreases fuel, 2nat,
{
    proof {
        lemma_vals_of(args@);
    }
    if fuel == 0 {
        return Err(limit_reached());
    }
    match op {
        Prim::If | Prim::And | Prim::Or | Prim::Cond | Prim::TrapError => forcing_primitive(
            rt,
            host,
            op,
            args,
            fuel,
        ),
        Prim::SetValue | Prim::GetValue | Prim::Equal | Prim::Absvector | Prim::AddressTo
        | Prim::AddressFrom => table_primitive(rt, op, args),
        Prim::WriteByte | Prim::ReadByte | Prim::Open | Prim::GetTime => stream_primitive(rt, host, op, args),
        _ => pure_primitive(host, op, args),
    }
}

/// How many primitives the function table starts with.
pub const PRIMITIVES: usize = 39;

/// The name of the `i`-th primitive, as written in KLambda.
pub open spec fn primitive_name(i: int) -> Seq<char> {
    if i == 0 {
        "shen_if"@
    } else if i == 1 {
        "and"@
    } else if i == 2 {
        "or"@
    } else if i == 3 {
        "cond"@
    } else if i == 4 {
        "intern"@
    } else if i == 5 {
        "pos"@
    } else if i == 6 {
        "tlstr"@
    } else if i == 7 {
        "cn"@
    } else if i == 8 {
        "str"@
    } else if i == 9 {
        "string?"@
    } else if i == 10 {
        "n->string"@
    } else if i == 11 {
        "string->n"@
    } else if i == 12 {
        "simple-error"@
    } else if i == 13 {
        "trap-error"@
    } else if i == 14 {
        "error-to-string"@
    } else if i == 15 {
        "set"@
    } else if i == 16 {
        "value"@
    } else if i == 17 {
        "cons"@
    } else if i == 18 {
        "hd"@
    } else if i == 19 {
        "tl"@
    } else if i == 20 {
        "cons?"@
    } else if i == 21 {
        "="@
    } else if i == 22 {
        "absvector"@
    } else if i == 23 {
        "address->"@
    } else if i == 24 {
        "<-address"@
    } else if i == 25 {
        "absvector?"@
    } else if i == 26 {
        "write-byte"@
    } else if i == 27 {
        "read-byte"@
    } else if i == 28 {
        "open"@
    } else if i == 29 {
        "get-time"@
    } else if i == 30 {
        "+"@
    } else if i == 31 {
        "*"@
    } else if i == 32 {
        "-"@
    } else if i == 33 {
        "/"@
    } else if i == 34 {
        ">"@
    } else if i == 35 {
        "<"@
    } else if i == 36 {
        "<="@
    } else if i == 37 {
        ">="@
    } else {
        "number?"@
    }
}

/// The `i`-th primitive.
pub open spec fn primitive_op(i: int) -> Prim {
    if i == 0 {
        Prim::If
    } else if i == 1 {
        Prim::And
    } else if i == 2 {
        Prim::Or
    } else if i == 3 {
        Prim::Cond
    } else if i == 4 {
        Prim::Intern
    } else if i == 5 {
        Prim::Pos
    } else if i == 6 {
        Prim::Tlstr
    } else if i == 7 {
        Prim::Cn
    } else if i == 8 {
        Prim::Str
    } else if i == 9 {
        Prim::Stringp
    } else if i == 10 {
        Prim::NToString
    } else if i == 11 {
        Prim::StringToN
    } else if i == 12 {
        Prim::SimpleError
    } else if i == 13 {
        Prim::TrapError
    } else if i == 14 {
        Prim::ErrorToString
    } else if i == 15 {
        Prim::SetValue
    } else if i == 16 {
        Prim::GetValue
    } else if i == 17 {
        Prim::Cons
    } else if i == 18 {
        Prim::Hd
    } else if i == 19 {
        Prim::Tl
    } else if i == 20 {
        Prim::Consp
    } else if i == 21 {
        Prim::Equal
    } else if i == 22 {
        Prim::Absvector
    } else if i == 23 {
        Prim::AddressTo
    } else if i == 24 {
        Prim::AddressFrom
    } else if i == 25 {
        Prim::Absvectorp
    } else if i == 26 {
        Prim::WriteByte
    } else if i == 27 {
        Prim::ReadByte
    } else if i == 28 {
        Prim::Open
    } else if i == 29 {
        Prim::GetTime
    } else if i == 30 {
        Prim::Plus
    } else if i == 31 {
        Prim::Mul
    } else if i == 32 {
        Prim::Sub
    } else if i == 33 {
        Prim::Div
    } else if i == 34 {
        Prim::Gt
    } else if i == 35 {
        Prim::Lt
    } else if i == 36 {
        Prim::Le
    } else if i == 37 {
        Prim::Ge
    } else {
        Prim::Numberp
    }
}

fn primitive_entry(i: usize) -> (r: (&'static str, Prim))
    requires
        i < PRIMITIVES,
    ensures
        r.0@ == primitive_name(i as int),
        r.1 == primitive_op(i as int),
{
    match i {
        0 => ("shen_if", Prim::If),
        1 => ("and", Prim::And),
        2 => ("or", Prim::Or),
        3 => ("cond", Prim::Cond),
        4 => ("intern", Prim::Intern),
        5 => ("pos", Prim::Pos),
        6 => ("tlstr", Prim::Tlstr),
        7 => ("cn", Prim::Cn),
        8 => ("str", Prim::Str),
        9 => ("string?", Prim::Stringp),
        10 => ("n->string", Prim::NToString),
        11 => ("string->n", Prim::StringToN),
        12 => ("simple-error", Prim::SimpleError),
        13 => ("trap-error", Prim::TrapError),
        14 => ("error-to-string", Prim::ErrorToString),
        15 => ("set", Prim::SetValue),
        16 => ("value", Prim::GetValue),
        17 => ("cons", Prim::Cons),
        18 => ("hd", Prim::Hd),
        19 => ("tl", Prim::Tl),
        20 => ("cons?", Prim::Consp),
        21 => ("=", Prim::Equal),
        22 => ("absvector", Prim::Absvector),
        23 => ("address->", Prim::AddressTo),
        24 => ("<-address", Prim::AddressFrom),
        25 => ("absvector?", Prim::Absvectorp),
        26 => ("write-byte", Prim::WriteByte),
        27 => ("read-byte", Prim::ReadByte),
        28 => ("open", Prim::Open),
        29 => ("get-time", Prim::GetTime),
        30 => ("+", Prim::Plus),
        31 => ("*", Prim::Mul),
        32 => ("-", Prim::Sub),
        33 => ("/", Prim::Div),
        34 => (">", Prim::Gt),
        35 => ("<", Prim::Lt),
        36 => ("<=", Prim::Le),
        37 => (">=", Prim::Ge),
        _ => ("number?", Prim::Numberp),
    }
}

/// Installs every primitive, under its sanitised name, as a closure that
/// awaits all its arguments.
pub fn shen_fill_function_table(rt: &mut Runtime)
    requires
        old(rt).wf(),
    ensures
        final(rt).wf(),
        final(rt)@.syms == old(rt)@.syms,
        final(rt)@.vecs == old(rt)@.vecs,
        final(rt)@.fns.len() == old(rt)@.fns.len() + PRIMITIVES,
        final(rt)@.fns.take(old(rt)@.fns.len() as int) == old(rt)@.fns,
        forall|i: int|
            0 <= i < PRIMITIVES ==> #[trigger] final(rt)@.fns[old(rt)@.fns.len() + i] == (
                rename(primitive_name(i)),
                Clo::Primitive(primitive_op(i), Seq::empty()),
            ),
{
    let ghost t0 = rt@.fns;
    let mut i: usize = 0;
    while i < PRIMITIVES
        invariant
            rt.wf(),
            i <= PRIMITIVES,
            rt@.syms == old(rt)@.syms,
            rt@.vecs == old(rt)@.vecs,
            t0 == old(rt)@.fns,
            rt@.fns.len() == t0.len() + i,
            rt@.fns.take(t0.len() as int) == t0,
            forall|k: int|
                0 <= k < i ==> #[trigger] rt@.fns[t0.len() + k] == (
                    rename(primitive_name(k)),
                    Clo::Primitive(primitive_op(k), Seq::empty()),
                ),
        decreases PRIMITIVES - i,
    {
        let (name, op) = primitive_entry(i);
        let key = shen_rename_symbol(String::from_str(name));
        let args: Vec<KlElement> = Vec::new();
        proof {
            assert(vals_of(args@) =~= Seq::<Val>::empty());
        }
        let ghost before = rt@.fns;
        add_to_function_table(rt, key, KlClosure::FeedMe(Box::new(Pending::Primitive(op, args))));
        proof {
            let after = rt@.fns;
            assert(after.take(t0.len() as int) =~= before.take(t0.len() as int));
            assert forall|k: int| 0 <= k < i + 1 implies #[trigger] after[t0.len() + k] == (
                rename(primitive_name(k)),
                Clo::Primitive(primitive_op(k), Seq::empty()),
            ) by {
                if k < i {
                    assert(after[t0.len() + k] == before[t0.len() + k]);
                }
            }
        }
        i = i + 1;
    }
}

pub open spec fn results_view(rs: Seq<Result<KlElement, KlError>>) -> Seq<Result<Val, Seq<char>>>
    decreases rs.len(),
{
    if rs.len() == 0 {
        Seq::empty()
    } else {
        results_view(rs.drop_last()).push(res_view(rs.last()))
    }
}

/// Evaluates top-level forms in order, each in an empty frame; a `defun`
/// installs its function. An error ends its form only: the next one is
/// evaluated all the same. Each form gets `fuel` steps.
pub fn load_forms<H: Host>(rt: &mut Runtime, host: &mut H, forms: &Vec<KlToken>, fuel: u64) -> (r: Vec<Result<KlElement, KlError>>)
    requires
        old(rt).wf(),
    ensures
        final(rt).wf(),
        r@.len() == forms@.len(),
        load_spec(old(rt)@, toks_of(forms@), fuel as nat) matches Some((st, rs)) ==> final(rt)@ == st
            && results_view(r@) == rs,
{
    proof {
        lemma_toks_of(forms@);
    }
    let ghost ts = toks_of(forms@);
    let empty: Vec<Binding> = Vec::new();
    let mut results: Vec<Result<KlElement, KlError>> = Vec::new();
    let mut i: usize = 0;
    assert(binds_of(empty@) =~= Seq::<(Seq<char>, Val)>::empty());
    assert(ts.take(0) =~= Seq::<Tok>::empty());
    assert(results_view(results@) =~= Seq::<Result<Val, Seq<char>>>::empty());
    while i < forms.len()
        invariant
            rt.wf(),
            i <= forms.len(),
            results@.len() == i,
            ts == toks_of(forms@),
            ts.len() == forms@.len(),
            forall|k: int| 0 <= k < forms@.len() ==> #[trigger] ts[k] == forms@[k]@,
            binds_of(empty@) == Seq::<(Seq<char>, Val)>::empty(),
            load_spec(old(rt)@, ts.take(i as int), fuel as nat) matches Some((st, rs)) ==> rt@ == st
                && results_view(results@) == rs,
        decreases forms.len() - i,
    {
        let ghost before = rt@;
        let ghost r0 = results@;
        assert(ts.take(i + 1).drop_last() =~= ts.take(i as int));
        assert(ts.take(i + 1).last() == forms@[i as int]@);
        let r = generate(rt, host, &empty, &forms[i], fuel);
        results.push(r);
        assert(results@.drop_last() == r0);
        i = i + 1;
    }
    assert(ts.take(forms.len() as int) =~= ts);
    results
}

/// A runtime with the primitives installed.
pub fn new_runtime() -> (r: Runtime)
    ensures
        r.wf(),
        r@.syms.len() == 0,
        r@.vecs.len() == 0,
        r@.fns.len() == PRIMITIVES,
        forall|i: int|
            0 <= i < PRIMITIVES ==> #[trigger] r@.fns[i] == (
                rename(primitive_name(i)),
                Clo::Primitive(primitive_op(i), Seq::empty()),
            ),
{
    let mut rt = Runtime::new();
    let ghost before = rt@.fns;
    shen_fill_function_table(&mut rt);
    assert forall|i: int| 0 <= i < PRIMITIVES implies #[trigger] rt@.fns[i] == (
        rename(primitive_name(i)),
        Clo::Primitive(primitive_op(i), Seq::empty()),
    ) by {
        assert(rt@.fns[before.len() + i] == rt@.fns[i]);
    }
    rt
}

} // verus!
