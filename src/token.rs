//! The syntax tree the reader builds, paths into it, and the analysis that
//! finds the self tail calls of a `defun`.
use vstd::prelude::*;
use crate::text::slice_equals;
use crate::text::chars_of;
use vstd::string::StringExecFns;

verus! {

/// A float literal in decimal: sign, the digits before the point and the
/// digits after it (each digit 0 to 9).
pub struct FloatLit {
    pub negative: bool,
    pub whole: Vec<u8>,
    pub fraction: Vec<u8>,
}

pub enum KlNumber {
    Float(FloatLit),
    Int(i64),
}

/// A node of the syntax tree. Symbols hold their sanitised names.
pub enum KlToken {
    Symbol(String),
    Number(KlNumber),
    String(String),
    Cons(Vec<KlToken>),
    Recur(Vec<KlToken>),
}

/// What a number denotes: an integer, or a decimal literal.
pub enum Num {
    Int(i64),
    Float(bool, Seq<u8>, Seq<u8>),
}

/// What a token denotes: the same tree over sequences.
pub enum Tok {
    Symbol(Seq<char>),
    Number(Num),
    Str(Seq<char>),
    Cons(Seq<Tok>),
    Recur(Seq<Tok>),
}

impl View for KlNumber {
    type V = Num;

    open spec fn view(&self) -> Num {
        match self {
            KlNumber::Int(i) => Num::Int(*i),
            KlNumber::Float(f) => Num::Float(f.negative, f.whole@, f.fraction@),
        }
    }
}

pub open spec fn tok_of(t: KlToken) -> Tok
    decreases t,
{
    match t {
        KlToken::Symbol(s) => Tok::Symbol(s@),
        KlToken::Number(n) => Tok::Number(n@),
        KlToken::String(s) => Tok::Str(s@),
        KlToken::Cons(v) => Tok::Cons(toks_of(v@)),
        KlToken::Recur(v) => Tok::Recur(toks_of(v@)),
    }
}

pub open spec fn toks_of(s: Seq<KlToken>) -> Seq<Tok>
    decreases s,
{
    if s.len() == 0 {
        Seq::empty()
    } else {
        toks_of(s.drop_last()).push(tok_of(s.last()))
    }
}

impl View for KlToken {
    type V = Tok;

    open spec fn view(&self) -> Tok {
        tok_of(*self)
    }
}

pub proof fn lemma_toks_of(s: Seq<KlToken>)
    ensures
        toks_of(s).len() == s.len(),
        forall|i: int| 0 <= i < s.len() ==> #[trigger] toks_of(s)[i] == s[i]@,
    decreases s.len(),
{
    if s.len() > 0 {
        lemma_toks_of(s.drop_last());
    }
}

pub fn copy_digits(v: &Vec<u8>) -> (r: Vec<u8>)
    ensures
        r@ == v@,
{
    let mut r: Vec<u8> = Vec::new();
    let mut i: usize = 0;
    while i < v.len()
        invariant
            i <= v.len(),
            r@ == v@.take(i as int),
        decreases v.len() - i,
    {
        r.push(v[i]);
        assert(v@.take(i as int + 1) == v@.take(i as int).push(v@[i as int]));
        i = i + 1;
    }
    assert(v@.take(v.len() as int) == v@);
    r
}

pub fn copy_number(n: &KlNumber) -> (r: KlNumber)
    ensures
        r@ == n@,
{
    match n {
        KlNumber::Int(i) => KlNumber::Int(*i),
        KlNumber::Float(f) => KlNumber::Float(
            FloatLit { negative: f.negative, whole: copy_digits(&f.whole), fraction: copy_digits(&f.fraction) },
        ),
    }
}

pub fn copy_string(s: &String) -> (r: String)
    ensures
        r@ == s@,
{
    s.clone()
}

/// A deep copy of a token.
pub fn copy_token(t: &KlToken) -> (r: KlToken)
    ensures
        r@ == t@,
    decreases t,
{
    match t {
        KlToken::Symbol(s) => KlToken::Symbol(copy_string(s)),
        KlToken::Number(n) => KlToken::Number(copy_number(n)),
        KlToken::String(s) => KlToken::String(copy_string(s)),
        KlToken::Cons(v) => KlToken::Cons(copy_tokens(v)),
        KlToken::Recur(v) => KlToken::Recur(copy_tokens(v)),
    }
}

pub fn copy_tokens(v: &Vec<KlToken>) -> (r: Vec<KlToken>)
    ensures
        toks_of(r@) == toks_of(v@),
    decreases v,
{
    let mut r: Vec<KlToken> = Vec::new();
    let mut i: usize = 0;
    while i < v.len()
        invariant
            i <= v.len(),
            toks_of(r@) == toks_of(v@.take(i as int)),
        decreases v.len() - i,
    {
        assert(decreases_to!(v => v@[i as int]));
        let c = copy_token(&v[i]);
        let ghost r0 = r@;
        r.push(c);
        assert(r@.drop_last() == r0);
        assert(v@.take(i as int + 1).drop_last() == v@.take(i as int));
        i = i + 1;
    }
    assert(v@.take(v.len() as int) == v@);
    r
}


/// The sub-tree at `path` (child indices from the root), if the path stays
/// inside the tree.
pub open spec fn at(path: Seq<usize>, t: Tok) -> Option<Tok>
    decreases path.len(),
{
    if path.len() == 0 {
        Some(t)
    } else {
        match t {
            Tok::Cons(items) => if path[0] < items.len() {
                at(path.skip(1), items[path[0] as int])
            } else {
                None
            },
            _ => None,
        }
    }
}

/// `t` with the sub-tree at `path` replaced by `new`.
pub open spec fn set_at(path: Seq<usize>, t: Tok, new: Tok) -> Tok
    decreases path.len(),
{
    if path.len() == 0 {
        new
    } else {
        match t {
            Tok::Cons(items) => if path[0] < items.len() {
                Tok::Cons(
                    items.update(path[0] as int, set_at(path.skip(1), items[path[0] as int], new)),
                )
            } else {
                t
            },
            _ => t,
        }
    }
}

/// The tail-call marker for the call `t`: its arguments, without the callee.
pub open spec fn recur_of(t: Tok) -> Tok {
    match t {
        Tok::Cons(items) => Tok::Recur(
            if items.len() > 0 {
                items.skip(1)
            } else {
                items
            },
        ),
        _ => t,
    }
}

pub open spec fn paths_view(v: Seq<Vec<usize>>) -> Seq<Seq<usize>> {
    v.map_values(|p: Vec<usize>| p@)
}

/// Appends `new_path` to `old_path`.
pub fn add_path(old_path: &Vec<usize>, new_path: Vec<usize>) -> (r: Vec<usize>)
    ensures
        r@ == old_path@ + new_path@,
{
    let mut p: Vec<usize> = Vec::new();
    let mut i: usize = 0;
    while i < old_path.len()
        invariant
            i <= old_path.len(),
            p@ == old_path@.take(i as int),
        decreases old_path.len() - i,
    {
        p.push(old_path[i]);
        assert(old_path@.take(i as int + 1) == old_path@.take(i as int).push(old_path@[i as int]));
        i = i + 1;
    }
    let mut j: usize = 0;
    while j < new_path.len()
        invariant
            j <= new_path.len(),
            p@ == old_path@ + new_path@.take(j as int),
        decreases new_path.len() - j,
    {
        p.push(new_path[j]);
        assert(new_path@.take(j as int + 1) == new_path@.take(j as int).push(new_path@[j as int]));
        j = j + 1;
    }
    assert(old_path@.take(old_path.len() as int) == old_path@);
    assert(new_path@.take(new_path.len() as int) == new_path@);
    p
}

/// The sub-tree at `path`, if the path stays inside the tree.
pub fn get_element_at(path: Vec<usize>, sexp: &KlToken) -> (r: Option<&KlToken>)
    ensures
        r matches Some(x) ==> at(path@, sexp@) == Some(x@),
        r is None <==> at(path@, sexp@) is None,
{
    let mut current: &KlToken = sexp;
    let mut i: usize = 0;
    assert(path@.skip(0) == path@);
    while i < path.len()
        invariant
            i <= path.len(),
            at(path@, sexp@) == at(path@.skip(i as int), current@),
        decreases path.len() - i,
    {
        let index = path[i];
        assert(path@.skip(i as int).skip(1) == path@.skip(i + 1));
        match current {
            KlToken::Cons(items) => {
                if index < items.len() {
                    proof {
                        lemma_toks_of(items@);
                    }
                    current = &items[index];
                } else {
                    proof {
                        lemma_toks_of(items@);
                    }
                    return None;
                }
            },
            _ => {
                return None;
            },
        }
        i = i + 1;
    }
    Some(current)
}

fn set_from(path: &Vec<usize>, i: usize, sexp: &mut KlToken, token: KlToken)
    requires
        i <= path.len(),
        at(path@.skip(i as int), old(sexp)@) is Some,
    ensures
        final(sexp)@ == set_at(path@.skip(i as int), old(sexp)@, token@),
    decreases path.len() - i,
{
    if i == path.len() {
        *sexp = token;
        return;
    }
    assert(path@.skip(i as int).skip(1) == path@.skip(i + 1));
    assert(path@.skip(i as int)[0] == path@[i as int]);
    match sexp {
        KlToken::Cons(items) => {
            let p = path[i];
            proof {
                lemma_toks_of(items@);
            }
            let mut child = copy_token(&items[p]);
            set_from(path, i + 1, &mut child, token);
            let ghost before = items@;
            items.set(p, child);
            proof {
                lemma_toks_of(items@);
                assert(toks_of(items@) =~= toks_of(before).update(p as int, child@));
            }
        },
        _ => {},
    }
}

/// Replaces the sub-tree at `path` by `token`.
pub fn set_element_at(path: Vec<usize>, sexp: &mut KlToken, token: KlToken)
    requires
        at(path@, old(sexp)@) is Some,
    ensures
        final(sexp)@ == set_at(path@, old(sexp)@, token@),
{
    assert(path@.skip(0) == path@);
    set_from(&path, 0, sexp, token);
}

/// Replaces the call at `path` by a tail-call marker holding its arguments.
pub fn mark_recur(path: Vec<usize>, sexp: &mut KlToken)
    requires
        at(path@, old(sexp)@) matches Some(Tok::Cons(_)),
    ensures
        final(sexp)@ == set_at(path@, old(sexp)@, recur_of(at(path@, old(sexp)@)->0)),
{
    let mut args: Vec<KlToken> = Vec::new();
    let found = get_element_at(copy_path(&path), sexp);
    match found {
        Some(KlToken::Cons(items)) => {
            proof {
                lemma_toks_of(items@);
            }
            if items.len() == 0 {
                assert(toks_of(args@) =~= toks_of(items@));
            } else {
                let mut k: usize = 1;
                while k < items.len()
                    invariant
                        1 <= k <= items.len(),
                        toks_of(args@) == toks_of(items@).subrange(1, k as int),
                    decreases items.len() - k,
                {
                    let c = copy_token(&items[k]);
                    let ghost a0 = args@;
                    args.push(c);
                    proof {
                        lemma_toks_of(items@);
                        assert(args@.drop_last() == a0);
                        assert(toks_of(items@).subrange(1, k + 1).drop_last() =~= toks_of(items@).subrange(
                            1,
                            k as int,
                        ));
                    }
                    k = k + 1;
                }
                assert(toks_of(items@).subrange(1, items.len() as int) =~= toks_of(items@).skip(1));
            }
        },
        _ => {},
    }
    set_element_at(path, sexp, KlToken::Recur(args));
}

/// A copy of a path.
pub fn copy_path(p: &Vec<usize>) -> (r: Vec<usize>)
    ensures
        r@ == p@,
{
    add_path(p, Vec::new())
}

/// Whether `t` is the symbol `name`.
pub fn symbol_is(t: &KlToken, name: &str) -> (r: bool)
    ensures
        r == (t@ == Tok::Symbol(name@)),
{
    match t {
        KlToken::Symbol(s) => {
            let cs = chars_of(s.as_str());
            let r = slice_equals(&cs, 0, cs.len(), name);
            assert(cs@.subrange(0, cs@.len() as int) == cs@);
            r
        },
        _ => false,
    }
}

/// The head symbol of a form, if it has one.
pub open spec fn head_is(items: Seq<Tok>, name: Seq<char>) -> bool {
    items.len() > 0 && items[0] == Tok::Symbol(name)
}

/// The self calls, below `path`, that stand in candidate tail positions of
/// `t`: the branches of `if`, the actions of `cond`, both arguments of
/// `trap-error`, the bodies of `let`, `defun` and `lambda`, and the last
/// element of any other form.
pub open spec fn calls_below(name: Seq<char>, n: nat, t: Tok, path: Seq<usize>) -> Seq<Seq<usize>>
    decreases t,
{
    match t {
        Tok::Cons(items) => {
            if items.len() > 0 && items[0] == Tok::Symbol(name) && items.len() - 1 == n {
                seq![path]
            } else if head_is(items, "cond"@) {
                cond_calls(name, n, items.skip(1), 1, path)
            } else if head_is(items, "shen_if"@) && items.len() == 4 {
                child_calls(name, n, items, 2, path) + child_calls(name, n, items, 3, path)
            } else if head_is(items, "trap__Dash__error"@) && items.len() == 3 {
                child_calls(name, n, items, 1, path) + child_calls(name, n, items, 2, path)
            } else if (head_is(items, "shen_let"@) || head_is(items, "defun"@)) && items.len() == 4 {
                child_calls(name, n, items, 3, path)
            } else if head_is(items, "lambda"@) && items.len() == 3 {
                child_calls(name, n, items, 2, path)
            } else {
                child_calls(name, n, items, items.len() - 1, path)
            }
        },
        _ => Seq::empty(),
    }
}

/// The calls below the `k`-th element of `items`, if that element is a form.
pub open spec fn child_calls(name: Seq<char>, n: nat, items: Seq<Tok>, k: int, path: Seq<usize>) -> Seq<Seq<usize>>
    decreases items,
{
    if 0 <= k < items.len() && items[k] is Cons {
        calls_below(name, n, items[k], path.push(k as usize))
    } else {
        Seq::empty()
    }
}

/// The calls below the actions of the `cond` clauses `clauses`, the first
/// of which is element `j` of the form.
pub open spec fn cond_calls(name: Seq<char>, n: nat, clauses: Seq<Tok>, j: int, path: Seq<usize>) -> Seq<Seq<usize>>
    decreases clauses,
{
    if clauses.len() == 0 {
        Seq::empty()
    } else {
        let here = match clauses[0] {
            Tok::Cons(pair) => if pair.len() == 2 && pair[1] is Cons {
                calls_below(name, n, pair[1], path.push(j as usize).push(1))
            } else {
                Seq::empty()
            },
            _ => Seq::empty(),
        };
        here + cond_calls(name, n, clauses.subrange(1, clauses.len() as int), j + 1, path)
    }
}

proof fn lemma_paths_push(v: Seq<Vec<usize>>, p: Vec<usize>)
    ensures
        paths_view(v.push(p)) == paths_view(v).push(p@),
{
    assert(paths_view(v.push(p)) =~= paths_view(v).push(p@));
}

fn collect_calls(name: &String, n: usize, t: &KlToken, path: &Vec<usize>, found: &mut Vec<Vec<usize>>)
    ensures
        paths_view(final(found)@) == paths_view(old(found)@) + calls_below(name@, n as nat, t@, path@),
    decreases t,
{
    let ghost start = paths_view(found@);
    match t {
        KlToken::Cons(items) => {
            proof {
                lemma_toks_of(items@);
            }
            let ghost toks = toks_of(items@);
            let len = items.len();
            if len > 0 && symbol_is(&items[0], name.as_str()) && len - 1 == n {
                let p = copy_path(path);
                proof {
                    lemma_paths_push(found@, p);
                }
                found.push(p);
                assert(paths_view(found@) == start + seq![path@]);
            } else if len > 0 && symbol_is(&items[0], "cond") {
                collect_cond(name, n, items, path, found);
            } else if len == 4 && symbol_is(&items[0], "shen_if") {
                collect_child(name, n, items, 2, path, found);
                collect_child(name, n, items, 3, path, found);
                assert(paths_view(found@) =~= start + (child_calls(name@, n as nat, toks, 2, path@)
                    + child_calls(name@, n as nat, toks, 3, path@)));
            } else if len == 3 && symbol_is(&items[0], "trap__Dash__error") {
                collect_child(name, n, items, 1, path, found);
                collect_child(name, n, items, 2, path, found);
                assert(paths_view(found@) =~= start + (child_calls(name@, n as nat, toks, 1, path@)
                    + child_calls(name@, n as nat, toks, 2, path@)));
            } else if len == 4 && (symbol_is(&items[0], "shen_let") || symbol_is(&items[0], "defun")) {
                collect_child(name, n, items, 3, path, found);
            } else if len == 3 && symbol_is(&items[0], "lambda") {
                collect_child(name, n, items, 2, path, found);
            } else if len > 0 {
                collect_child(name, n, items, len - 1, path, found);
            } else {
                assert(paths_view(found@) =~= start + Seq::<Seq<usize>>::empty());
            }
        },
        _ => {
            assert(paths_view(found@) =~= start + Seq::<Seq<usize>>::empty());
        },
    }
}

fn collect_child(
    name: &String,
    n: usize,
    items: &Vec<KlToken>,
    k: usize,
    path: &Vec<usize>,
    found: &mut Vec<Vec<usize>>,
)
    requires
        k < items.len(),
    ensures
        paths_view(final(found)@) == paths_view(old(found)@) + child_calls(
            name@,
            n as nat,
            toks_of(items@),
            k as int,
            path@,
        ),
    decreases items,
{
    proof {
        lemma_toks_of(items@);
    }
    match &items[k] {
        KlToken::Cons(_) => {
            let p = add_path(path, vec![k]);
            assert(p@ =~= path@.push(k));
            assert(decreases_to!(items => items@[k as int]));
            collect_calls(name, n, &items[k], &p, found);
        },
        _ => {
            assert(paths_view(found@) =~= paths_view(old(found)@) + Seq::<Seq<usize>>::empty());
        },
    }
}

fn collect_cond(name: &String, n: usize, items: &Vec<KlToken>, path: &Vec<usize>, found: &mut Vec<Vec<usize>>)
    requires
        items.len() > 0,
    ensures
        paths_view(final(found)@) == paths_view(old(found)@) + cond_calls(
            name@,
            n as nat,
            toks_of(items@).skip(1),
            1,
            path@,
        ),
    decreases items,
{
    proof {
        lemma_toks_of(items@);
    }
    let ghost toks = toks_of(items@);
    let ghost start = paths_view(found@);
    let ghost total = cond_calls(name@, n as nat, toks.skip(1), 1, path@);
    let mut j: usize = 1;
    assert(toks.skip(1) == toks.subrange(1, toks.len() as int));
    while j < items.len()
        invariant
            1 <= j <= items.len(),
            toks == toks_of(items@),
            toks.len() == items.len(),
            forall|i: int| 0 <= i < items.len() ==> #[trigger] toks[i] == items@[i]@,
            start + total == paths_view(found@) + cond_calls(
                name@,
                n as nat,
                toks.subrange(j as int, toks.len() as int),
                j as int,
                path@,
            ),
        decreases items.len() - j,
    {
        let ghost cl = toks.subrange(j as int, toks.len() as int);
        let ghost before = paths_view(found@);
        assert(cl[0] == toks[j as int]);
        assert(cl.subrange(1, cl.len() as int) =~= toks.subrange(j + 1, toks.len() as int));
        match &items[j] {
            KlToken::Cons(pair) => {
                proof {
                    lemma_toks_of(pair@);
                }
                if pair.len() == 2 {
                    match &pair[1] {
                        KlToken::Cons(_) => {
                            let p = add_path(path, vec![j, 1]);
                            assert(p@ =~= path@.push(j).push(1));
                            assert(decreases_to!(items => items@[j as int]));
                            assert(decreases_to!(items@[j as int] => pair));
                            assert(decreases_to!(pair => pair@[1]));
                            collect_calls(name, n, &pair[1], &p, found);
                        },
                        _ => {},
                    }
                }
            },
            _ => {},
        }
        assert(start + total =~= paths_view(found@) + cond_calls(
            name@,
            n as nat,
            toks.subrange(j + 1, toks.len() as int),
            j + 1,
            path@,
        ));
        j = j + 1;
    }
    assert(cond_calls(name@, n as nat, toks.subrange(j as int, toks.len() as int), j as int, path@)
        =~= Seq::<Seq<usize>>::empty());
    assert(start + total =~= paths_view(found@));
}

/// The paths of the self calls of `function_name` with `num_args`
/// arguments in candidate tail positions of `sexp`, in pre-order.
pub fn find_recursive_calls(function_name: String, num_args: usize, sexp: &KlToken) -> (r: Vec<Vec<usize>>)
    ensures
        paths_view(r@) == calls_below(function_name@, num_args as nat, sexp@, Seq::empty()),
{
    let mut found: Vec<Vec<usize>> = Vec::new();
    let root: Vec<usize> = Vec::new();
    collect_calls(&function_name, num_args, sexp, &root, &mut found);
    assert(paths_view(Seq::<Vec<usize>>::empty()) =~= Seq::<Seq<usize>>::empty());
    assert(paths_view(found@) =~= calls_below(function_name@, num_args as nat, sexp@, Seq::empty()));
    found
}

/// Heads of the forms whose tail position is a tail position of the form
/// around them.
pub open spec fn passes_tail(items: Seq<Tok>) -> bool {
    head_is(items, "shen_if"@) || head_is(items, "defun"@) || head_is(items, "shen_let"@) || head_is(
        items,
        "lambda"@,
    ) || head_is(items, "shen_do"@)
}

/// The first prefix of `path`, from its `i`-th step on, that stops in `t` at
/// a form headed by a symbol other than a special form: a call that the
/// candidate is an argument of. A `cond` clause is stepped over with its
/// action; a form not headed by a symbol is stepped over.
pub open spec fn chain_from(path: Seq<usize>, t: Tok, i: int) -> Option<Seq<usize>>
    decreases path.len() + 2 - i,
{
    if i < 0 || i >= path.len() {
        None
    } else {
        match at(path.take(i), t) {
            Some(Tok::Cons(items)) => if passes_tail(items) {
                chain_from(path, t, i + 1)
            } else if head_is(items, "cond"@) {
                chain_from(path, t, i + 2)
            } else if items.len() > 0 && items[0] is Symbol {
                Some(path.take(i))
            } else {
                chain_from(path, t, i + 1)
            },
            _ => None,
        }
    }
}

fn head_passes_tail(items: &Vec<KlToken>) -> (r: bool)
    ensures
        r == passes_tail(toks_of(items@)),
{
    proof {
        lemma_toks_of(items@);
    }
    items.len() > 0 && (symbol_is(&items[0], "shen_if") || symbol_is(&items[0], "defun")
        || symbol_is(&items[0], "shen_let") || symbol_is(&items[0], "lambda") || symbol_is(
        &items[0],
        "shen_do",
    ))
}

/// The outermost prefix of `tail_call_path` that stops at a call, headed
/// by a symbol, that the candidate is an argument of; `None` when every
/// form on the way passes its tail position on.
pub fn start_of_function_chain(tail_call_path: Vec<usize>, sexp: &KlToken) -> (r: Option<Vec<usize>>)
    ensures
        r matches Some(p) ==> chain_from(tail_call_path@, sexp@, 0) == Some(p@),
        r is None <==> chain_from(tail_call_path@, sexp@, 0) is None,
{
    let mut i: usize = 0;
    while i < tail_call_path.len()
        invariant
            chain_from(tail_call_path@, sexp@, 0) == chain_from(tail_call_path@, sexp@, i as int),
        decreases tail_call_path.len() - i,
    {
        let mut prefix: Vec<usize> = Vec::new();
        let mut k: usize = 0;
        while k < i
            invariant
                k <= i < tail_call_path.len(),
                prefix@ == tail_call_path@.take(k as int),
            decreases i - k,
        {
            prefix.push(tail_call_path[k]);
            assert(tail_call_path@.take(k as int + 1) == tail_call_path@.take(k as int).push(
                tail_call_path@[k as int],
            ));
            k = k + 1;
        }
        let kept = copy_path(&prefix);
        match get_element_at(prefix, sexp) {
            Some(KlToken::Cons(items)) => {
                if head_passes_tail(items) {
                    i = i + 1;
                } else if items.len() > 0 && symbol_is(&items[0], "cond") {
                    proof {
                        lemma_toks_of(items@);
                    }
                    if tail_call_path.len() - i <= 2 {
                        assert(chain_from(tail_call_path@, sexp@, i + 2) is None);
                        return None;
                    }
                    i = i + 2;
                } else {
                    proof {
                        lemma_toks_of(items@);
                    }
                    let headed = items.len() > 0 && match &items[0] {
                        KlToken::Symbol(_) => true,
                        _ => false,
                    };
                    if headed {
                        return Some(kept);
                    }
                    i = i + 1;
                }
            },
            _ => {
                return None;
            },
        }
    }
    None
}

/// Keeps the candidates that no call stands around.
pub open spec fn keep_tail_positions(ps: Seq<Seq<usize>>, t: Tok) -> Seq<Seq<usize>>
    decreases ps.len(),
{
    if ps.len() == 0 {
        Seq::empty()
    } else {
        let rest = keep_tail_positions(ps.drop_last(), t);
        if chain_from(ps.last(), t, 0) is None {
            rest.push(ps.last())
        } else {
            rest
        }
    }
}

/// The self tail calls of a `defun` form: the candidates of
/// `calls_below` around which no call stands.
pub open spec fn tail_calls(t: Tok) -> Seq<Seq<usize>> {
    match t {
        Tok::Cons(items) => if items.len() == 4 && items[0] == Tok::Symbol("defun"@)
            && items[1] is Symbol && items[2] is Cons {
            keep_tail_positions(
                calls_below(items[1]->Symbol_0, items[2]->Cons_0.len(), t, Seq::empty()),
                t,
            )
        } else {
            Seq::empty()
        },
        _ => Seq::empty(),
    }
}

fn keep_tail_calls(calls: &Vec<Vec<usize>>, sexp: &KlToken) -> (r: Vec<Vec<usize>>)
    ensures
        paths_view(r@) == keep_tail_positions(paths_view(calls@), sexp@),
{
    let ghost ps = paths_view(calls@);
    let mut kept: Vec<Vec<usize>> = Vec::new();
    let mut j: usize = 0;
    assert(paths_view(kept@) =~= keep_tail_positions(ps.take(0), sexp@));
    while j < calls.len()
        invariant
            j <= calls.len(),
            ps == paths_view(calls@),
            paths_view(kept@) == keep_tail_positions(ps.take(j as int), sexp@),
        decreases calls.len() - j,
    {
        assert(ps.take(j as int + 1).drop_last() =~= ps.take(j as int));
        assert(ps.take(j as int + 1).last() == calls@[j as int]@);
        let p = copy_path(&calls[j]);
        if start_of_function_chain(copy_path(&calls[j]), sexp).is_none() {
            proof {
                lemma_paths_push(kept@, p);
            }
            kept.push(p);
        }
        j = j + 1;
    }
    assert(ps.take(calls.len() as int) =~= ps);
    kept
}

/// The paths of the self tail calls of a `defun` form; none for any other
/// form.
pub fn shen_get_all_tail_calls(sexp: &KlToken) -> (r: Vec<Vec<usize>>)
    ensures
        paths_view(r@) == tail_calls(sexp@),
{
    let none: Vec<Vec<usize>> = Vec::new();
    assert(paths_view(none@) =~= Seq::<Seq<usize>>::empty());
    match sexp {
        KlToken::Cons(items) => {
            proof {
                lemma_toks_of(items@);
            }
            if items.len() == 4 && symbol_is(&items[0], "defun") {
                match (&items[1], &items[2]) {
                    (KlToken::Symbol(name), KlToken::Cons(args)) => {
                        proof {
                            lemma_toks_of(args@);
                        }
                        let calls = find_recursive_calls(copy_string(name), args.len(), sexp);
                        keep_tail_calls(&calls, sexp)
                    },
                    _ => none,
                }
            } else {
                none
            }
        },
        _ => none,
    }
}

/// `t` with the call at each path of `ps`, in turn, replaced by its
/// tail-call marker; a path that no longer leads to a call is skipped.
pub open spec fn mark_all(ps: Seq<Seq<usize>>, t: Tok) -> Tok
    decreases ps.len(),
{
    if ps.len() == 0 {
        t
    } else {
        let t2 = mark_all(ps.drop_last(), t);
        match at(ps.last(), t2) {
            Some(Tok::Cons(items)) => set_at(ps.last(), t2, recur_of(Tok::Cons(items))),
            _ => t2,
        }
    }
}

/// Marks the calls at `paths` in `sexp`, in order.
pub fn mark_all_recur(paths: &Vec<Vec<usize>>, sexp: &mut KlToken)
    ensures
        final(sexp)@ == mark_all(paths_view(paths@), old(sexp)@),
{
    let ghost t0 = sexp@;
    let ghost ps = paths_view(paths@);
    let mut j: usize = 0;
    while j < paths.len()
        invariant
            j <= paths.len(),
            ps == paths_view(paths@),
            t0 == old(sexp)@,
            sexp@ == mark_all(ps.take(j as int), t0),
        decreases paths.len() - j,
    {
        assert(ps.take(j as int + 1).drop_last() =~= ps.take(j as int));
        assert(ps.take(j as int + 1).last() == paths@[j as int]@);
        let is_call = match get_element_at(copy_path(&paths[j]), sexp) {
            Some(KlToken::Cons(_)) => true,
            _ => false,
        };
        if is_call {
            mark_recur(copy_path(&paths[j]), sexp);
        }
        j = j + 1;
    }
    assert(ps.take(paths.len() as int) =~= ps);
}

/// The names of the symbols among `args`.
pub open spec fn arg_names(args: Seq<Tok>) -> Seq<Seq<char>>
    decreases args.len(),
{
    if args.len() == 0 {
        Seq::empty()
    } else {
        let rest = arg_names(args.drop_last());
        match args.last() {
            Tok::Symbol(s) => rest.push(s),
            _ => rest,
        }
    }
}

/// The parameter names of a `defun`: its symbols, in order.
pub fn extract_arg_names(args: &Vec<KlToken>) -> (r: Vec<String>)
    ensures
        crate::value::names_of(r@) == arg_names(toks_of(args@)),
{
    proof {
        lemma_toks_of(args@);
    }
    let mut r: Vec<String> = Vec::new();
    let mut i: usize = 0;
    while i < args.len()
        invariant
            i <= args.len(),
            toks_of(args@).len() == args@.len(),
            forall|k: int| 0 <= k < args@.len() ==> #[trigger] toks_of(args@)[k] == args@[k]@,
            crate::value::names_of(r@) == arg_names(toks_of(args@).take(i as int)),
        decreases args.len() - i,
    {
        let ghost t = toks_of(args@).take(i as int + 1);
        assert(t.drop_last() =~= toks_of(args@).take(i as int));
        assert(t.last() == args@[i as int]@);
        match &args[i] {
            KlToken::Symbol(s) => {
                let ghost r0 = r@;
                r.push(copy_string(s));
                assert(r@.drop_last() == r0);
            },
            _ => {},
        }
        i = i + 1;
    }
    assert(toks_of(args@).take(args.len() as int) =~= toks_of(args@));
    r
}

/// The body wrapped in one `lambda` per argument, the first outermost.
pub open spec fn splay(args: Seq<Tok>, body: Tok) -> Tok
    decreases args.len(),
{
    if args.len() == 0 {
        body
    } else {
        splay(args.drop_last(), Tok::Cons(seq![Tok::Symbol("lambda"@), args.last(), body]))
    }
}

/// A `defun` as nested single-argument `lambda`s.
pub fn splay_out_defun(name: String, args: Vec<KlToken>, body: KlToken) -> (r: KlToken)
    ensures
        r@ == splay(toks_of(args@), body@),
{
    proof {
        lemma_toks_of(args@);
    }
    let mut acc = body;
    let mut i: usize = args.len();
    assert(toks_of(args@).take(i as int) =~= toks_of(args@));
    while i > 0
        invariant
            i <= args.len(),
            toks_of(args@).len() == args@.len(),
            forall|k: int| 0 <= k < args@.len() ==> #[trigger] toks_of(args@)[k] == args@[k]@,
            splay(toks_of(args@), body@) == splay(toks_of(args@).take(i as int), acc@),
        decreases i,
    {
        let ghost t = toks_of(args@).take(i as int);
        assert(t.drop_last() =~= toks_of(args@).take(i - 1));
        assert(t.last() == args@[i - 1]@);
        let mut v: Vec<KlToken> = Vec::new();
        v.push(KlToken::Symbol(String::from_str("lambda")));
        v.push(copy_token(&args[i - 1]));
        v.push(acc);
        proof {
            lemma_toks_of(v@);
            assert(toks_of(v@) =~= seq![Tok::Symbol("lambda"@), args@[i - 1]@, v@[2]@]);
        }
        acc = KlToken::Cons(v);
        i = i - 1;
    }
    acc
}

} // verus!
