//! The value model: atoms, cons lists, closures as data, vectors by
//! identity, streams, and the tail-call marker.
use vstd::prelude::*;
use crate::token::{KlNumber, KlToken, Num, Tok, copy_number, copy_string, copy_token};

verus! {

/// The primitives of the kernel.
#[derive(Clone, Copy, PartialEq, Eq, Structural)]
pub enum Prim {
    If,
    And,
    Or,
    Cond,
    Intern,
    Pos,
    Tlstr,
    Cn,
    Str,
    Stringp,
    NToString,
    StringToN,
    SimpleError,
    TrapError,
    ErrorToString,
    SetValue,
    GetValue,
    Cons,
    Hd,
    Tl,
    Consp,
    Equal,
    Absvector,
    AddressTo,
    AddressFrom,
    Absvectorp,
    WriteByte,
    ReadByte,
    Open,
    GetTime,
    Plus,
    Mul,
    Sub,
    Div,
    Gt,
    Lt,
    Le,
    Ge,
    Numberp,
}

#[derive(Clone, Copy, PartialEq, Eq, Structural)]
pub enum KlStreamDirection {
    In,
    Out,
}

#[derive(Clone, Copy, PartialEq, Eq, Structural)]
pub enum KlStdStream {
    Stdout,
    Stdin,
}

/// A stream: a file opened by the host, known by its handle, or a standard
/// stream.
#[derive(Clone, Copy, PartialEq, Eq, Structural)]
pub enum KlStream {
    FileStream(u64, KlStreamDirection),
    Std(KlStdStream),
}

pub enum KlError {
    ErrorString(String),
}

pub enum KlElement {
    Symbol(String),
    Number(KlNumber),
    String(String),
    /// A list, head first.
    Cons(Vec<KlElement>),
    Closure(KlClosure),
    /// A vector, by the identity of its record in the runtime.
    Vector(u128),
    Stream(KlStream),
    Nil,
    Recur(Vec<KlElement>),
}

/// A variable bound in a lexical frame.
pub struct Binding {
    pub name: String,
    pub value: KlElement,
}

/// A user function, with the arguments it has received so far.
pub struct Function {
    pub name: String,
    pub params: Vec<String>,
    pub args: Vec<KlElement>,
    pub body: KlToken,
    pub trampolined: bool,
}

/// A closure that awaits one more argument.
pub enum Pending {
    Primitive(Prim, Vec<KlElement>),
    Lambda(String, KlToken, Vec<Binding>),
    Function(Function),
}

pub enum KlClosure {
    FeedMe(Box<Pending>),
    Thunk(Vec<Binding>, Box<KlToken>),
    Done(Result<Option<Box<KlElement>>, KlError>),
}

/// What a value denotes.
pub enum Val {
    Symbol(Seq<char>),
    Number(Num),
    Str(Seq<char>),
    Cons(Seq<Val>),
    Closure(Clo),
    Vector(u128),
    Stream(KlStream),
    Nil,
    Recur(Seq<Val>),
}

pub enum Clo {
    Primitive(Prim, Seq<Val>),
    Lambda(Seq<char>, Tok, Seq<(Seq<char>, Val)>),
    Function(Seq<char>, Seq<Seq<char>>, Seq<Val>, Tok, bool),
    Thunk(Seq<(Seq<char>, Val)>, Tok),
    Done(Result<Option<Box<Val>>, Seq<char>>),
}

pub open spec fn val_of(e: KlElement) -> Val
    decreases e,
{
    match e {
        KlElement::Symbol(s) => Val::Symbol(s@),
        KlElement::Number(n) => Val::Number(n@),
        KlElement::String(s) => Val::Str(s@),
        KlElement::Cons(v) => Val::Cons(vals_of(v@)),
        KlElement::Closure(c) => Val::Closure(clo_of(c)),
        KlElement::Vector(id) => Val::Vector(id),
        KlElement::Stream(s) => Val::Stream(s),
        KlElement::Nil => Val::Nil,
        KlElement::Recur(v) => Val::Recur(vals_of(v@)),
    }
}

pub open spec fn vals_of(s: Seq<KlElement>) -> Seq<Val>
    decreases s,
{
    if s.len() == 0 {
        Seq::empty()
    } else {
        vals_of(s.drop_last()).push(val_of(s.last()))
    }
}

pub open spec fn binds_of(s: Seq<Binding>) -> Seq<(Seq<char>, Val)>
    decreases s,
{
    if s.len() == 0 {
        Seq::empty()
    } else {
        binds_of(s.drop_last()).push((s.last().name@, val_of(s.last().value)))
    }
}

pub open spec fn names_of(s: Seq<String>) -> Seq<Seq<char>>
    decreases s.len(),
{
    if s.len() == 0 {
        Seq::empty()
    } else {
        names_of(s.drop_last()).push(s.last()@)
    }
}

pub open spec fn err_of(e: KlError) -> Seq<char> {
    match e {
        KlError::ErrorString(s) => s@,
    }
}

pub open spec fn clo_of(c: KlClosure) -> Clo
    decreases c,
{
    match c {
        KlClosure::FeedMe(p) => match *p {
            Pending::Primitive(op, args) => Clo::Primitive(op, vals_of(args@)),
            Pending::Lambda(x, body, env) => Clo::Lambda(x@, body@, binds_of(env@)),
            Pending::Function(f) => Clo::Function(
                f.name@,
                names_of(f.params@),
                vals_of(f.args@),
                f.body@,
                f.trampolined,
            ),
        },
        KlClosure::Thunk(env, body) => Clo::Thunk(binds_of(env@), (*body)@),
        KlClosure::Done(r) => Clo::Done(
            match r {
                Ok(Some(v)) => Ok(Some(Box::new(val_of(*v)))),
                Ok(None) => Ok(None),
                Err(e) => Err(err_of(e)),
            },
        ),
    }
}

impl View for KlElement {
    type V = Val;

    open spec fn view(&self) -> Val {
        val_of(*self)
    }
}

impl View for KlClosure {
    type V = Clo;

    open spec fn view(&self) -> Clo {
        clo_of(*self)
    }
}

impl View for KlError {
    type V = Seq<char>;

    open spec fn view(&self) -> Seq<char> {
        err_of(*self)
    }
}

pub proof fn lemma_vals_of(s: Seq<KlElement>)
    ensures
        vals_of(s).len() == s.len(),
        forall|i: int| 0 <= i < s.len() ==> #[trigger] vals_of(s)[i] == s[i]@,
    decreases s.len(),
{
    if s.len() > 0 {
        lemma_vals_of(s.drop_last());
    }
}

pub proof fn lemma_binds_of(s: Seq<Binding>)
    ensures
        binds_of(s).len() == s.len(),
        forall|i: int|
            0 <= i < s.len() ==> #[trigger] binds_of(s)[i] == (s[i].name@, s[i].value@),
    decreases s.len(),
{
    if s.len() > 0 {
        lemma_binds_of(s.drop_last());
    }
}

pub fn copy_error(e: &KlError) -> (r: KlError)
    ensures
        r@ == e@,
{
    match e {
        KlError::ErrorString(s) => KlError::ErrorString(copy_string(s)),
    }
}

/// A deep copy of a value.
pub fn copy_element(e: &KlElement) -> (r: KlElement)
    ensures
        r@ == e@,
    decreases e,
{
    match e {
        KlElement::Symbol(s) => KlElement::Symbol(copy_string(s)),
        KlElement::Number(n) => KlElement::Number(copy_number(n)),
        KlElement::String(s) => KlElement::String(copy_string(s)),
        KlElement::Cons(v) => KlElement::Cons(copy_elements(v)),
        KlElement::Closure(c) => KlElement::Closure(copy_closure(c)),
        KlElement::Vector(id) => KlElement::Vector(*id),
        KlElement::Stream(s) => KlElement::Stream(*s),
        KlElement::Nil => KlElement::Nil,
        KlElement::Recur(v) => KlElement::Recur(copy_elements(v)),
    }
}

pub fn copy_elements(v: &Vec<KlElement>) -> (r: Vec<KlElement>)
    ensures
        vals_of(r@) == vals_of(v@),
    decreases v,
{
    let mut r: Vec<KlElement> = Vec::new();
    let mut i: usize = 0;
    while i < v.len()
        invariant
            i <= v.len(),
            vals_of(r@) == vals_of(v@.take(i as int)),
        decreases v.len() - i,
    {
        assert(decreases_to!(v => v@[i as int]));
        let c = copy_element(&v[i]);
        let ghost r0 = r@;
        r.push(c);
        assert(r@.drop_last() == r0);
        assert(v@.take(i as int + 1).drop_last() == v@.take(i as int));
        i = i + 1;
    }
    assert(v@.take(v.len() as int) == v@);
    r
}

pub fn copy_bindings(v: &Vec<Binding>) -> (r: Vec<Binding>)
    ensures
        binds_of(r@) == binds_of(v@),
    decreases v,
{
    let mut r: Vec<Binding> = Vec::new();
    let mut i: usize = 0;
    while i < v.len()
        invariant
            i <= v.len(),
            binds_of(r@) == binds_of(v@.take(i as int)),
        decreases v.len() - i,
    {
        assert(decreases_to!(v => v@[i as int]));
        assert(decreases_to!(v@[i as int] => v@[i as int].value));
        let b = Binding { name: copy_string(&v[i].name), value: copy_element(&v[i].value) };
        let ghost r0 = r@;
        r.push(b);
        assert(r@.drop_last() == r0);
        assert(v@.take(i as int + 1).drop_last() == v@.take(i as int));
        i = i + 1;
    }
    assert(v@.take(v.len() as int) == v@);
    r
}

pub fn copy_names(v: &Vec<String>) -> (r: Vec<String>)
    ensures
        names_of(r@) == names_of(v@),
{
    let mut r: Vec<String> = Vec::new();
    let mut i: usize = 0;
    while i < v.len()
        invariant
            i <= v.len(),
            names_of(r@) == names_of(v@.take(i as int)),
        decreases v.len() - i,
    {
        let x = copy_string(&v[i]);
        let ghost r0 = r@;
        r.push(x);
        assert(r@.drop_last() == r0);
        assert(v@.take(i as int + 1).drop_last() == v@.take(i as int));
        i = i + 1;
    }
    assert(v@.take(v.len() as int) == v@);
    r
}

pub fn copy_closure(c: &KlClosure) -> (r: KlClosure)
    ensures
        r@ == c@,
    decreases c,
{
    match c {
        KlClosure::FeedMe(p) => {
            let q = match &**p {
                Pending::Primitive(op, args) => Pending::Primitive(*op, copy_elements(args)),
                Pending::Lambda(x, body, env) => Pending::Lambda(
                    copy_string(x),
                    copy_token(body),
                    copy_bindings(env),
                ),
                Pending::Function(f) => Pending::Function(
                    Function {
                        name: copy_string(&f.name),
                        params: copy_names(&f.params),
                        args: copy_elements(&f.args),
                        body: copy_token(&f.body),
                        trampolined: f.trampolined,
                    },
                ),
            };
            KlClosure::FeedMe(Box::new(q))
        },
        KlClosure::Thunk(env, body) => KlClosure::Thunk(
            copy_bindings(env),
            Box::new(copy_token(body)),
        ),
        KlClosure::Done(r) => KlClosure::Done(
            match r {
                Ok(Some(v)) => Ok(Some(Box::new(copy_element(v)))),
                Ok(None) => Ok(None),
                Err(e) => Err(copy_error(e)),
            },
        ),
    }
}

pub proof fn lemma_names_of(s: Seq<String>)
    ensures
        names_of(s).len() == s.len(),
        forall|i: int| 0 <= i < s.len() ==> #[trigger] names_of(s)[i] == s[i]@,
    decreases s.len(),
{
    if s.len() > 0 {
        lemma_names_of(s.drop_last());
    }
}

/// What an outcome denotes: a value, or an error's message.
pub open spec fn res_view(r: Result<KlElement, KlError>) -> Result<Val, Seq<char>> {
    match r {
        Ok(v) => Ok(v@),
        Err(e) => Err(e@),
    }
}

} // verus!
