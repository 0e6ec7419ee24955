//! The primitives that need no runtime state: booleans, strings, numbers,
//! lists and errors. Each follows a curried primitive of the kernel; the
//! evaluator hands them the values of their arguments.
use vstd::prelude::*;
use vstd::string::StringExecFns;
use crate::text::{chars_of, push_char, string_of};
use crate::token::{FloatLit, KlNumber, Num, copy_number, copy_string};
use crate::value::{KlClosure, KlElement, KlError, Val, Clo, copy_element, vals_of, lemma_vals_of};

verus! {

pub open spec fn bool_val(b: bool) -> Val {
    if b {
        Val::Symbol("shen_true"@)
    } else {
        Val::Symbol("shen_false"@)
    }
}

pub open spec fn err_val(r: Result<KlElement, KlError>, msg: Seq<char>) -> bool {
    r matches Err(e) && e@ == msg
}

pub open spec fn ok_val(r: Result<KlElement, KlError>, v: Val) -> bool {
    r matches Ok(x) && x@ == v
}

/// The boolean symbol for `b`.
pub fn shen_bool(b: bool) -> (r: KlElement)
    ensures
        r@ == bool_val(b),
{
    if b {
        shen_string_to_symbol("shen_true")
    } else {
        shen_string_to_symbol("shen_false")
    }
}

pub fn shen_string_to_symbol(s: &str) -> (r: KlElement)
    ensures
        r@ == Val::Symbol(s@),
{
    KlElement::Symbol(String::from_str(s))
}

pub fn shen_make_error(s: &str) -> (r: KlError)
    ensures
        r@ == s@,
{
    KlError::ErrorString(String::from_str(s))
}

/// The name of a symbol.
pub fn shen_symbol_to_string(s: &KlElement) -> (r: Result<String, KlError>)
    ensures
        s@ matches Val::Symbol(n) ==> (r matches Ok(x) && x@ == n),
        !(s@ is Symbol) ==> (r matches Err(e) && e@ == "shen_symbol_to_string: Expecting a symbol."@),
{
    match s {
        KlElement::Symbol(n) => Ok(copy_string(n)),
        _ => Err(shen_make_error("shen_symbol_to_string: Expecting a symbol.")),
    }
}

pub fn shen_is_bool(a: &KlElement) -> (r: bool)
    ensures
        r == (a@ == bool_val(true) || a@ == bool_val(false)),
{
    match a {
        KlElement::Symbol(s) => {
            let cs = chars_of(s.as_str());
            let t = crate::text::slice_equals(&cs, 0, cs.len(), "shen_true");
            let f = crate::text::slice_equals(&cs, 0, cs.len(), "shen_false");
            assert(cs@.subrange(0, cs@.len() as int) == cs@);
            t || f
        },
        _ => false,
    }
}

/// The truth value of a boolean symbol.
pub fn shen_truth(a: &KlElement) -> (r: Option<bool>)
    ensures
        r == (if a@ == bool_val(true) {
            Some(true)
        } else if a@ == bool_val(false) {
            Some(false)
        } else {
            None
        }),
{
    match a {
        KlElement::Symbol(s) => {
            let cs = chars_of(s.as_str());
            assert(cs@.subrange(0, cs@.len() as int) == cs@);
            if crate::text::slice_equals(&cs, 0, cs.len(), "shen_true") {
                Some(true)
            } else if crate::text::slice_equals(&cs, 0, cs.len(), "shen_false") {
                Some(false)
            } else {
                None
            }
        },
        _ => None,
    }
}

pub fn shen_is_thunk(a: &KlElement) -> (r: bool)
    ensures
        r == (a@ matches Val::Closure(Clo::Thunk(_, _))),
{
    match a {
        KlElement::Closure(KlClosure::Thunk(_, _)) => true,
        _ => false,
    }
}

/// `intern`: the symbol named by a string, taken as it is.
pub fn shen_intern(string: &KlElement) -> (r: Result<KlElement, KlError>)
    ensures
        string@ matches Val::Str(s) ==> ok_val(r, Val::Symbol(s)),
        !(string@ is Str) ==> err_val(r, "shen_intern: expecting a string."@),
{
    match string {
        KlElement::String(s) => Ok(KlElement::Symbol(copy_string(s))),
        _ => Err(shen_make_error("shen_intern: expecting a string.")),
    }
}

/// The integer `n` as an index below `len`, if it is one.
pub open spec fn index_in(n: Val, len: nat) -> Option<int> {
    match n {
        Val::Number(Num::Int(i)) => if 0 <= i < len {
            Some(i as int)
        } else {
            None
        },
        _ => None,
    }
}

/// `pos`: the code point at index `number` of a string, as a unit string.
pub fn shen_pos(string: &KlElement, number: &KlElement) -> (r: Result<KlElement, KlError>)
    ensures
        string@ matches Val::Str(s) ==> match index_in(number@, s.len()) {
            Some(k) => ok_val(r, Val::Str(seq![s[k]])),
            None => err_val(r, "shen_pos: expecting a number between 0 and the length of the string."@),
        },
        !(string@ is Str) ==> err_val(r, "shen_pos: expecting a string."@),
{
    match string {
        KlElement::String(s) => {
            let cs = chars_of(s.as_str());
            match number {
                KlElement::Number(KlNumber::Int(i)) => {
                    if *i >= 0 && (*i as u64) < (cs.len() as u64) {
                        let k = *i as usize;
                        let r = string_of(&cs, k, k + 1);
                        assert(cs@.subrange(k as int, k + 1) =~= seq![cs@[k as int]]);
                        return Ok(KlElement::String(r));
                    }
                },
                _ => {},
            }
            Err(shen_make_error("shen_pos: expecting a number between 0 and the length of the string."))
        },
        _ => Err(shen_make_error("shen_pos: expecting a string.")),
    }
}

/// `tlstr`: a string without its first code point.
pub fn shen_tlstr(string: &KlElement) -> (r: Result<KlElement, KlError>)
    ensures
        string@ matches Val::Str(s) ==> (s.len() > 0 ==> ok_val(r, Val::Str(s.skip(1)))),
        string@ matches Val::Str(s) ==> (s.len() == 0 ==> err_val(
            r,
            "shen_tlstr: expecting non-empty string."@,
        )),
        !(string@ is Str) ==> err_val(r, "shen_tlstr: expecting a string."@),
{
    match string {
        KlElement::String(s) => {
            let cs = chars_of(s.as_str());
            if cs.len() == 0 {
                Err(shen_make_error("shen_tlstr: expecting non-empty string."))
            } else {
                let r = string_of(&cs, 1, cs.len());
                assert(cs@.subrange(1, cs@.len() as int) == cs@.skip(1));
                Ok(KlElement::String(r))
            }
        },
        _ => Err(shen_make_error("shen_tlstr: expecting a string.")),
    }
}

/// `cn`: two strings joined.
pub fn shen_cn(string_a: &KlElement, string_b: &KlElement) -> (r: Result<KlElement, KlError>)
    ensures
        (string_a@, string_b@) matches (Val::Str(a), Val::Str(b)) ==> ok_val(r, Val::Str(a + b)),
        !(string_a@ is Str && string_b@ is Str) ==> err_val(r, "shen_cn: expecting two strings."@),
{
    match (string_a, string_b) {
        (KlElement::String(a), KlElement::String(b)) => {
            let r = copy_string(a).concat(b.as_str());
            Ok(KlElement::String(r))
        },
        _ => Err(shen_make_error("shen_cn: expecting two strings.")),
    }
}

pub open spec fn digit_char(d: int) -> char {
    if d == 0 {
        '0'
    } else if d == 1 {
        '1'
    } else if d == 2 {
        '2'
    } else if d == 3 {
        '3'
    } else if d == 4 {
        '4'
    } else if d == 5 {
        '5'
    } else if d == 6 {
        '6'
    } else if d == 7 {
        '7'
    } else if d == 8 {
        '8'
    } else {
        '9'
    }
}

/// The decimal digits of a positive number, most significant first; none
/// for zero.
pub open spec fn digits_of(n: nat) -> Seq<char>
    decreases n,
{
    if n == 0 {
        Seq::empty()
    } else {
        digits_of(n / 10).push(digit_char((n % 10) as int))
    }
}

/// An integer written in decimal.
pub open spec fn decimal_of(i: int) -> Seq<char> {
    if i == 0 {
        seq!['0']
    } else if i < 0 {
        seq!['-'] + digits_of((-i) as nat)
    } else {
        digits_of(i as nat)
    }
}

fn digit_of(d: u64) -> (c: char)
    requires
        d < 10,
    ensures
        c == digit_char(d as int),
{
    if d == 0 {
        '0'
    } else if d == 1 {
        '1'
    } else if d == 2 {
        '2'
    } else if d == 3 {
        '3'
    } else if d == 4 {
        '4'
    } else if d == 5 {
        '5'
    } else if d == 6 {
        '6'
    } else if d == 7 {
        '7'
    } else if d == 8 {
        '8'
    } else {
        '9'
    }
}

/// An integer written in decimal.
pub fn decimal_string(i: i64) -> (r: String)
    ensures
        r@ == decimal_of(i as int),
{
    if i == 0 {
        let mut z = String::new();
        push_char(&mut z, '0');
        assert(z@ =~= seq!['0']);
        return z;
    }
    let mag: u64 = if i < 0 {
        (0i128 - (i as i128)) as u64
    } else {
        i as u64
    };
    let mut n: u64 = mag;
    let mut out: Vec<char> = Vec::new();
    while n > 0
        invariant
            digits_of(mag as nat) == digits_of(n as nat) + out@,
        decreases n,
    {
        let c = digit_of(n % 10);
        let ghost o = out@;
        out.insert(0, c);
        assert(out@ =~= seq![c] + o);
        assert(digits_of(n as nat) == digits_of((n / 10) as nat).push(c));
        assert(digits_of((n / 10) as nat).push(c) + o =~= digits_of((n / 10) as nat) + out@);
        n = n / 10;
    }
    assert(digits_of(0) + out@ =~= out@);
    let mut r = String::new();
    if i < 0 {
        push_char(&mut r, '-');
    }
    let digits = string_of(&out, 0, out.len());
    assert(out@.subrange(0, out@.len() as int) == out@);
    r.append(digits.as_str());
    proof {
        if i < 0 {
            assert(r@ =~= seq!['-'] + out@);
        } else {
            assert(r@ =~= out@);
        }
    }
    r
}

/// Decimal digits as text.
pub open spec fn digits_text(ds: Seq<u8>) -> Seq<char>
    decreases ds.len(),
{
    if ds.len() == 0 {
        Seq::empty()
    } else {
        digits_text(ds.drop_last()).push(digit_char(ds.last() as int))
    }
}

/// A float literal as text: sign, digits, point, digits.
pub open spec fn float_text(negative: bool, whole: Seq<u8>, fraction: Seq<u8>) -> Seq<char> {
    (if negative {
        seq!['-']
    } else {
        Seq::empty()
    }) + digits_text(whole) + seq!['.'] + digits_text(fraction)
}

fn append_digits(r: &mut String, ds: &Vec<u8>)
    ensures
        final(r)@ == old(r)@ + digits_text(ds@),
{
    let mut i: usize = 0;
    while i < ds.len()
        invariant
            i <= ds.len(),
            r@ == old(r)@ + digits_text(ds@.take(i as int)),
        decreases ds.len() - i,
    {
        let d = ds[i];
        let c = if d < 10 {
            digit_of(d as u64)
        } else {
            '9'
        };
        push_char(r, c);
        assert(ds@.take(i as int + 1).drop_last() == ds@.take(i as int));
        i = i + 1;
    }
    assert(ds@.take(ds.len() as int) == ds@);
}

/// A float literal as text.
pub fn float_string(f: &FloatLit) -> (r: String)
    ensures
        r@ == float_text(f.negative, f.whole@, f.fraction@),
{
    let mut r = String::new();
    if f.negative {
        push_char(&mut r, '-');
    }
    append_digits(&mut r, &f.whole);
    push_char(&mut r, '.');
    append_digits(&mut r, &f.fraction);
    assert(r@ =~= float_text(f.negative, f.whole@, f.fraction@));
    r
}

/// What `str` prints for a value, if it prints it.
pub open spec fn str_of(v: Val) -> Option<Seq<char>> {
    match v {
        Val::Str(s) => Some(s),
        Val::Number(Num::Int(i)) => Some(decimal_of(i as int)),
        Val::Number(Num::Float(n, w, f)) => Some(float_text(n, w, f)),
        Val::Symbol(s) => Some(crate::symbols::unrename(s)),
        Val::Stream(crate::value::KlStream::FileStream(_, _)) => Some("<file stream>"@),
        Val::Stream(crate::value::KlStream::Std(crate::value::KlStdStream::Stdout)) => Some("<stdout>"@),
        Val::Stream(crate::value::KlStream::Std(crate::value::KlStdStream::Stdin)) => Some("<stdin>"@),
        Val::Closure(_) => Some("<closure>"@),
        _ => None,
    }
}

/// `str`: the printed form of an atom, a stream or a closure.
pub fn shen_str(atom: &KlElement) -> (r: Result<KlElement, KlError>)
    ensures
        str_of(atom@) matches Some(s) ==> ok_val(r, Val::Str(s)),
        str_of(atom@) is None ==> err_val(
            r,
            "Not an atom, stream or closure; str cannot convert it to a string."@,
        ),
{
    match atom {
        KlElement::String(s) => Ok(KlElement::String(copy_string(s))),
        KlElement::Number(KlNumber::Int(i)) => Ok(KlElement::String(decimal_string(*i))),
        KlElement::Number(KlNumber::Float(f)) => Ok(KlElement::String(float_string(f))),
        KlElement::Symbol(s) => Ok(KlElement::String(crate::symbols::shen_unrename_symbol(copy_string(s)))),
        KlElement::Stream(crate::value::KlStream::FileStream(_, _)) => Ok(
            KlElement::String(String::from_str("<file stream>")),
        ),
        KlElement::Stream(crate::value::KlStream::Std(crate::value::KlStdStream::Stdout)) => Ok(
            KlElement::String(String::from_str("<stdout>")),
        ),
        KlElement::Stream(crate::value::KlStream::Std(crate::value::KlStdStream::Stdin)) => Ok(
            KlElement::String(String::from_str("<stdin>")),
        ),
        KlElement::Closure(_) => Ok(KlElement::String(String::from_str("<closure>"))),
        _ => Err(shen_make_error("Not an atom, stream or closure; str cannot convert it to a string.")),
    }
}

/// `string?`
pub fn shen_stringp(element: &KlElement) -> (r: KlElement)
    ensures
        r@ == bool_val(element@ is Str),
{
    shen_bool(match element {
        KlElement::String(_) => true,
        _ => false,
    })
}

/// `number?`
pub fn shen_numberp(number: &KlElement) -> (r: KlElement)
    ensures
        r@ == bool_val(number@ is Number),
{
    shen_bool(match number {
        KlElement::Number(_) => true,
        _ => false,
    })
}

/// `cons?`: true of every list, the empty one too.
pub fn shen_consp(list: &KlElement) -> (r: KlElement)
    ensures
        r@ == bool_val(list@ is Cons),
{
    shen_bool(match list {
        KlElement::Cons(_) => true,
        _ => false,
    })
}

/// `absvector?`
pub fn shen_absvectorp(vector: &KlElement) -> (r: KlElement)
    ensures
        r@ == bool_val(vector@ is Vector),
{
    shen_bool(match vector {
        KlElement::Vector(_) => true,
        _ => false,
    })
}

/// `n->string`: the unit string of a single-byte code.
pub fn shen_n_to_string(n: &KlElement) -> (r: Result<KlElement, KlError>)
    ensures
        n@ matches Val::Number(Num::Int(i)) ==> (0 <= i < 128 ==> ok_val(
            r,
            Val::Str(seq![(i as u8) as char]),
        )),
        n@ matches Val::Number(Num::Int(i)) ==> (128 <= i < 256 ==> err_val(
            r,
            "shen_n_to_string: number is not utf8."@,
        )),
        n@ matches Val::Number(Num::Int(i)) ==> (!(0 <= i < 256) ==> err_val(
            r,
            "shen_n_to_string: number could not be converted to u8."@,
        )),
        !(n@ matches Val::Number(Num::Int(_))) ==> err_val(
            r,
            "shen_n_to_string: expecting an integer."@,
        ),
{
    match n {
        KlElement::Number(KlNumber::Int(i)) => {
            if *i >= 0 && *i < 128 {
                let mut s = String::new();
                push_char(&mut s, (*i as u8) as char);
                Ok(KlElement::String(s))
            } else if *i >= 128 && *i < 256 {
                Err(shen_make_error("shen_n_to_string: number is not utf8."))
            } else {
                Err(shen_make_error("shen_n_to_string: number could not be converted to u8."))
            }
        },
        _ => Err(shen_make_error("shen_n_to_string: expecting an integer.")),
    }
}

/// `string->n`: the code of a unit string of one byte.
pub fn shen_string_to_n(string: &KlElement) -> (r: Result<KlElement, KlError>)
    ensures
        string@ matches Val::Str(s) && s.len() == 1 && (s[0] as u32) < 128 ==> ok_val(
            r,
            Val::Number(Num::Int(string@->Str_0[0] as u32 as i64)),
        ),
        !(string@ matches Val::Str(s) && s.len() == 1 && (s[0] as u32) < 128) ==> err_val(
            r,
            "shen_string_to_n: expecting a unit string."@,
        ),
{
    match string {
        KlElement::String(s) => {
            let cs = chars_of(s.as_str());
            if cs.len() == 1 && (cs[0] as u32) < 128 {
                return Ok(KlElement::Number(KlNumber::Int(cs[0] as u32 as i64)));
            }
            Err(shen_make_error("shen_string_to_n: expecting a unit string."))
        },
        _ => Err(shen_make_error("shen_string_to_n: expecting a unit string.")),
    }
}

/// `simple-error`: fails with the given message.
pub fn shen_simple_error(error: &KlElement) -> (r: Result<KlElement, KlError>)
    ensures
        error@ matches Val::Str(m) ==> err_val(r, m),
        !(error@ is Str) ==> err_val(r, "shen_simple_error: Expecting a string."@),
{
    match error {
        KlElement::String(m) => Err(KlError::ErrorString(copy_string(m))),
        _ => Err(shen_make_error("shen_simple_error: Expecting a string.")),
    }
}

/// `error-to-string`: the message of a trapped error, which the handler
/// receives as a string.
pub fn shen_error_to_string(exception: &KlElement) -> (r: Result<KlElement, KlError>)
    ensures
        exception@ matches Val::Str(m) ==> ok_val(r, Val::Str(m)),
        !(exception@ is Str) ==> err_val(r, "shen_error_to_string: expecting a string."@),
{
    match exception {
        KlElement::String(m) => Ok(KlElement::String(copy_string(m))),
        _ => Err(shen_make_error("shen_error_to_string: expecting a string.")),
    }
}

/// `cons`: a list with a new head.
pub fn shen_cons(new_head: &KlElement, list: &KlElement) -> (r: Result<KlElement, KlError>)
    ensures
        list@ matches Val::Cons(xs) ==> ok_val(r, Val::Cons(seq![new_head@] + xs)),
        !(list@ is Cons) ==> err_val(r, "shen_cons: Expecting a list."@),
{
    match list {
        KlElement::Cons(cells) => {
            let mut v: Vec<KlElement> = Vec::new();
            v.push(copy_element(new_head));
            let mut i: usize = 0;
            proof {
                lemma_vals_of(cells@);
                lemma_vals_of(v@);
            }
            while i < cells.len()
                invariant
                    i <= cells.len(),
                    vals_of(v@) == seq![new_head@] + vals_of(cells@).take(i as int),
                decreases cells.len() - i,
            {
                let c = copy_element(&cells[i]);
                let ghost v0 = v@;
                v.push(c);
                proof {
                    assert(v@.drop_last() == v0);
                    lemma_vals_of(cells@);
                    assert(vals_of(cells@).take(i as int + 1) == vals_of(cells@).take(i as int).push(
                        c@,
                    ));
                }
                i = i + 1;
            }
            proof {
                lemma_vals_of(cells@);
                assert(vals_of(cells@).take(cells.len() as int) == vals_of(cells@));
            }
            Ok(KlElement::Cons(v))
        },
        _ => Err(shen_make_error("shen_cons: Expecting a list.")),
    }
}

/// `hd`: the head of a list; unit for the empty list.
pub fn shen_hd(list: &KlElement) -> (r: Result<KlElement, KlError>)
    ensures
        list@ matches Val::Cons(xs) ==> (xs.len() > 0 ==> ok_val(r, xs[0])),
        list@ matches Val::Cons(xs) ==> (xs.len() == 0 ==> ok_val(r, Val::Nil)),
        !(list@ is Cons) ==> err_val(r, "shen_hd: Expecting a list"@),
{
    match list {
        KlElement::Cons(cells) => {
            proof {
                lemma_vals_of(cells@);
            }
            if cells.len() > 0 {
                Ok(copy_element(&cells[0]))
            } else {
                Ok(KlElement::Nil)
            }
        },
        _ => Err(shen_make_error("shen_hd: Expecting a list")),
    }
}

/// `tl`: a list without its head; the empty list stays empty.
pub fn shen_tl(list: &KlElement) -> (r: Result<KlElement, KlError>)
    ensures
        list@ matches Val::Cons(xs) ==> (xs.len() > 0 ==> ok_val(r, Val::Cons(xs.skip(1)))),
        list@ matches Val::Cons(xs) ==> (xs.len() == 0 ==> ok_val(r, Val::Cons(xs))),
        !(list@ is Cons) ==> err_val(r, "shen_tl: Expecting a list."@),
{
    match list {
        KlElement::Cons(cells) => {
            let mut v: Vec<KlElement> = Vec::new();
            proof {
                lemma_vals_of(cells@);
            }
            if cells.len() == 0 {
                assert(vals_of(v@) =~= vals_of(cells@));
                return Ok(KlElement::Cons(v));
            }
            let mut i: usize = 1;
            while i < cells.len()
                invariant
                    1 <= i <= cells.len(),
                    vals_of(v@) == vals_of(cells@).subrange(1, i as int),
                decreases cells.len() - i,
            {
                let c = copy_element(&cells[i]);
                let ghost v0 = v@;
                v.push(c);
                proof {
                    assert(v@.drop_last() == v0);
                    lemma_vals_of(cells@);
                    assert(vals_of(cells@).subrange(1, i as int + 1) == vals_of(cells@).subrange(
                        1,
                        i as int,
                    ).push(c@));
                }
                i = i + 1;
            }
            assert(vals_of(cells@).subrange(1, cells.len() as int) == vals_of(cells@).skip(1));
            Ok(KlElement::Cons(v))
        },
        _ => Err(shen_make_error("shen_tl: Expecting a list.")),
    }
}

#[derive(Clone, Copy, PartialEq, Eq, Structural)]
pub enum ArithOp {
    Add,
    Sub,
    Mul,
    Div,
}

#[derive(Clone, Copy, PartialEq, Eq, Structural)]
pub enum CmpOp {
    Gt,
    Lt,
    Le,
    Ge,
}

/// An operand of a float operation: a float, or an integer promoted to one.
pub enum FloatOperand {
    Int(i64),
    Float(FloatLit),
}

impl View for FloatOperand {
    type V = Num;

    open spec fn view(&self) -> Num {
        match self {
            FloatOperand::Int(i) => Num::Int(*i),
            FloatOperand::Float(f) => Num::Float(f.negative, f.whole@, f.fraction@),
        }
    }
}

/// The outcome of an arithmetic primitive: a value, a float operation for
/// the host to carry out, or an error.
pub enum NumberResult {
    Value(KlElement),
    Promote(ArithOp, FloatOperand, FloatOperand),
    Failure(KlError),
}

/// The outcome of a comparison primitive, in the same three shapes.
pub enum TestResult {
    Value(KlElement),
    Promote(CmpOp, FloatOperand, FloatOperand),
    Failure(KlError),
}

/// Integer arithmetic, `None` where the result does not fit (or on a
/// division by zero).
pub open spec fn int_arith(op: ArithOp, x: i64, y: i64) -> Option<i64> {
    match op {
        ArithOp::Add => x.checked_add(y),
        ArithOp::Sub => x.checked_sub(y),
        ArithOp::Mul => x.checked_mul(y),
        ArithOp::Div => x.checked_div(y),
    }
}

pub open spec fn int_test(op: CmpOp, x: i64, y: i64) -> bool {
    match op {
        CmpOp::Gt => x > y,
        CmpOp::Lt => x < y,
        CmpOp::Le => x <= y,
        CmpOp::Ge => x >= y,
    }
}

pub open spec fn overflow_message(op: ArithOp) -> Seq<char> {
    match op {
        ArithOp::Add => "shen_plus: adding would cause overflow."@,
        ArithOp::Sub => "shen_sub: subtracting would cause overflow."@,
        ArithOp::Mul => "shen_mul: multiplying would cause overflow."@,
        ArithOp::Div => "shen_div: dividing would cause overflow."@,
    }
}

pub open spec fn arith_type_message(op: ArithOp) -> Seq<char> {
    match op {
        ArithOp::Add => "shen_plus: expecting two numbers."@,
        ArithOp::Sub => "shen_sub: expecting two numbers."@,
        ArithOp::Mul => "shen_mul: expecting two numbers."@,
        ArithOp::Div => "shen_div: expecting two numbers."@,
    }
}

pub open spec fn test_type_message(op: CmpOp) -> Seq<char> {
    match op {
        CmpOp::Gt => "shen_ge: expecting two numbers."@,
        CmpOp::Lt => "shen_le: expecting two numbers."@,
        CmpOp::Le => "shen_eq_le: expecting two numbers."@,
        CmpOp::Ge => "shen_eq_ge: expecting two numbers."@,
    }
}

/// What an arithmetic primitive does with its operands: integers stay
/// integers, with overflow an error; a float operand makes both floats.
pub open spec fn arith_spec(op: ArithOp, a: Val, b: Val, r: NumberResult) -> bool {
    match (a, b) {
        (Val::Number(Num::Int(x)), Val::Number(Num::Int(y))) => match int_arith(op, x, y) {
            Some(z) => r matches NumberResult::Value(v) && v@ == Val::Number(Num::Int(z)),
            None => r matches NumberResult::Failure(e) && e@ == overflow_message(op),
        },
        (Val::Number(x), Val::Number(y)) => r matches NumberResult::Promote(o, p, q) && o == op
            && p@ == x && q@ == y,
        _ => r matches NumberResult::Failure(e) && e@ == arith_type_message(op),
    }
}

pub open spec fn test_spec(op: CmpOp, a: Val, b: Val, r: TestResult) -> bool {
    match (a, b) {
        (Val::Number(Num::Int(x)), Val::Number(Num::Int(y))) => r matches TestResult::Value(v)
            && v@ == bool_val(int_test(op, x, y)),
        (Val::Number(x), Val::Number(y)) => r matches TestResult::Promote(o, p, q) && o == op
            && p@ == x && q@ == y,
        _ => r matches TestResult::Failure(e) && e@ == test_type_message(op),
    }
}

fn operand_of(n: &KlNumber) -> (r: FloatOperand)
    ensures
        r@ == n@,
{
    match copy_number(n) {
        KlNumber::Int(i) => FloatOperand::Int(i),
        KlNumber::Float(f) => FloatOperand::Float(f),
    }
}

/// The arithmetic primitives, by operation.
pub fn number_op(op: ArithOp, number_a: &KlElement, number_b: &KlElement) -> (r: NumberResult)
    ensures
        arith_spec(op, number_a@, number_b@, r),
{
    match (number_a, number_b) {
        (KlElement::Number(KlNumber::Int(a)), KlElement::Number(KlNumber::Int(b))) => {
            let z = match op {
                ArithOp::Add => a.checked_add(*b),
                ArithOp::Sub => a.checked_sub(*b),
                ArithOp::Mul => a.checked_mul(*b),
                ArithOp::Div => a.checked_div(*b),
            };
            match z {
                Some(i) => NumberResult::Value(KlElement::Number(KlNumber::Int(i))),
                None => NumberResult::Failure(
                    match op {
                        ArithOp::Add => shen_make_error("shen_plus: adding would cause overflow."),
                        ArithOp::Sub => shen_make_error("shen_sub: subtracting would cause overflow."),
                        ArithOp::Mul => shen_make_error("shen_mul: multiplying would cause overflow."),
                        ArithOp::Div => shen_make_error("shen_div: dividing would cause overflow."),
                    },
                ),
            }
        },
        (KlElement::Number(a), KlElement::Number(b)) => NumberResult::Promote(
            op,
            operand_of(a),
            operand_of(b),
        ),
        _ => NumberResult::Failure(
            match op {
                ArithOp::Add => shen_make_error("shen_plus: expecting two numbers."),
                ArithOp::Sub => shen_make_error("shen_sub: expecting two numbers."),
                ArithOp::Mul => shen_make_error("shen_mul: expecting two numbers."),
                ArithOp::Div => shen_make_error("shen_div: expecting two numbers."),
            },
        ),
    }
}

/// The comparison primitives, by operation.
pub fn number_test(op: CmpOp, number_a: &KlElement, number_b: &KlElement) -> (r: TestResult)
    ensures
        test_spec(op, number_a@, number_b@, r),
{
    match (number_a, number_b) {
        (KlElement::Number(KlNumber::Int(a)), KlElement::Number(KlNumber::Int(b))) => {
            let t = match op {
                CmpOp::Gt => *a > *b,
                CmpOp::Lt => *a < *b,
                CmpOp::Le => *a <= *b,
                CmpOp::Ge => *a >= *b,
            };
            TestResult::Value(shen_bool(t))
        },
        (KlElement::Number(a), KlElement::Number(b)) => TestResult::Promote(
            op,
            operand_of(a),
            operand_of(b),
        ),
        _ => TestResult::Failure(
            match op {
                CmpOp::Gt => shen_make_error("shen_ge: expecting two numbers."),
                CmpOp::Lt => shen_make_error("shen_le: expecting two numbers."),
                CmpOp::Le => shen_make_error("shen_eq_le: expecting two numbers."),
                CmpOp::Ge => shen_make_error("shen_eq_ge: expecting two numbers."),
            },
        ),
    }
}

/// `+`
pub fn shen_plus(number_a: &KlElement, number_b: &KlElement) -> (r: NumberResult)
    ensures
        arith_spec(ArithOp::Add, number_a@, number_b@, r),
{
    number_op(ArithOp::Add, number_a, number_b)
}

/// `*`
pub fn shen_mul(number_a: &KlElement, number_b: &KlElement) -> (r: NumberResult)
    ensures
        arith_spec(ArithOp::Mul, number_a@, number_b@, r),
{
    number_op(ArithOp::Mul, number_a, number_b)
}

/// `-`
pub fn shen_sub(number_a: &KlElement, number_b: &KlElement) -> (r: NumberResult)
    ensures
        arith_spec(ArithOp::Sub, number_a@, number_b@, r),
{
    number_op(ArithOp::Sub, number_a, number_b)
}

/// `/`: integer division truncates; dividing by zero is an error.
pub fn shen_div(number_a: &KlElement, number_b: &KlElement) -> (r: NumberResult)
    ensures
        arith_spec(ArithOp::Div, number_a@, number_b@, r),
{
    number_op(ArithOp::Div, number_a, number_b)
}

/// `>`
pub fn shen_ge(number_a: &KlElement, number_b: &KlElement) -> (r: TestResult)
    ensures
        test_spec(CmpOp::Gt, number_a@, number_b@, r),
{
    number_test(CmpOp::Gt, number_a, number_b)
}

/// `<`
pub fn shen_le(number_a: &KlElement, number_b: &KlElement) -> (r: TestResult)
    ensures
        test_spec(CmpOp::Lt, number_a@, number_b@, r),
{
    number_test(CmpOp::Lt, number_a, number_b)
}

/// `<=`
pub fn shen_eq_le(number_a: &KlElement, number_b: &KlElement) -> (r: TestResult)
    ensures
        test_spec(CmpOp::Le, number_a@, number_b@, r),
{
    number_test(CmpOp::Le, number_a, number_b)
}

/// `>=`
pub fn shen_eq_ge(number_a: &KlElement, number_b: &KlElement) -> (r: TestResult)
    ensures
        test_spec(CmpOp::Ge, number_a@, number_b@, r),
{
    number_test(CmpOp::Ge, number_a, number_b)
}

/// Adding zero and multiplying by one leave an integer as it is; dividing
/// by zero is an error; `i64::MAX + 1` is an overflow error, not a wrapped
/// value; and an operation with a float operand is promoted to a float
/// operation on both operands. Each result is any that meets the
/// arithmetic primitives' contract.
pub proof fn lemma_arithmetic_laws(
    a: i64,
    b: i64,
    op: ArithOp,
    x: Num,
    y: Num,
    plus_zero: NumberResult,
    times_one: NumberResult,
    by_zero: NumberResult,
    past_max: NumberResult,
    mixed: NumberResult,
)
    requires
        arith_spec(ArithOp::Add, Val::Number(Num::Int(a)), Val::Number(Num::Int(0)), plus_zero),
        arith_spec(ArithOp::Mul, Val::Number(Num::Int(a)), Val::Number(Num::Int(1)), times_one),
        arith_spec(ArithOp::Div, Val::Number(Num::Int(b)), Val::Number(Num::Int(0)), by_zero),
        arith_spec(ArithOp::Add, Val::Number(Num::Int(i64::MAX)), Val::Number(Num::Int(1)), past_max),
        arith_spec(op, Val::Number(x), Val::Number(y), mixed),
    ensures
        plus_zero matches NumberResult::Value(v) && v@ == Val::Number(Num::Int(a)),
        times_one matches NumberResult::Value(v) && v@ == Val::Number(Num::Int(a)),
        by_zero matches NumberResult::Failure(e) && e@ == overflow_message(ArithOp::Div),
        past_max matches NumberResult::Failure(e) && e@ == overflow_message(ArithOp::Add),
        (x is Float || y is Float) ==> (mixed matches NumberResult::Promote(o, p, q) && o == op && p@
            == x && q@ == y),
{
}

} // verus!
