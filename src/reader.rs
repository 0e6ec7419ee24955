//! The reader: KLambda text to syntax trees. Top-level strings are comments
//! and are dropped; any malformed input is reported with its offset.
use vstd::prelude::*;
use crate::symbols::{is_letter, rename, shen_rename_symbol};
use crate::text::{push_char, string_of};
use crate::token::{FloatLit, KlNumber, KlToken, Num, Tok, lemma_toks_of, toks_of};

verus! {

pub open spec fn is_ws(c: char) -> bool {
    c == ' ' || c == '\t' || c == '\n' || c == '\r'
}

pub open spec fn is_digit(c: char) -> bool {
    '0' <= c && c <= '9'
}

/// The characters a symbol may start with.
pub open spec fn is_initial(c: char) -> bool {
    is_letter(c) || c == '=' || c == '-' || c == '*' || c == '/' || c == '+' || c == '_' || c == '?'
        || c == '$' || c == '!' || c == '@' || c == '~' || c == '.' || c == '>' || c == '<' || c
        == '&' || c == '%' || c == '\'' || c == '#' || c == '`' || c == ';' || c == ':' || c == '{'
        || c == '}'
}

pub open spec fn is_symbol_char(c: char) -> bool {
    is_initial(c) || is_digit(c)
}

/// The first position from `p` on that holds no whitespace.
pub open spec fn skip_ws(s: Seq<char>, p: int) -> int
    decreases s.len() - p,
{
    if 0 <= p < s.len() && is_ws(s[p]) {
        skip_ws(s, p + 1)
    } else {
        p
    }
}

/// The first position from `p` on that holds no digit.
pub open spec fn digits_end(s: Seq<char>, p: int) -> int
    decreases s.len() - p,
{
    if 0 <= p < s.len() && is_digit(s[p]) {
        digits_end(s, p + 1)
    } else {
        p
    }
}

/// The first position from `p` on that holds no symbol character.
pub open spec fn symbol_end(s: Seq<char>, p: int) -> int
    decreases s.len() - p,
{
    if 0 <= p < s.len() && is_symbol_char(s[p]) {
        symbol_end(s, p + 1)
    } else {
        p
    }
}

pub open spec fn digit_value(c: char) -> nat {
    (c as u32 - '0' as u32) as nat
}

/// The number that a run of digits writes.
pub open spec fn digits_value(ds: Seq<char>) -> nat
    decreases ds.len(),
{
    if ds.len() == 0 {
        0
    } else {
        digits_value(ds.drop_last()) * 10 + digit_value(ds.last())
    }
}

/// The digit values of a run of digits.
pub open spec fn digit_bytes(ds: Seq<char>) -> Seq<u8>
    decreases ds.len(),
{
    if ds.len() == 0 {
        Seq::empty()
    } else {
        digit_bytes(ds.drop_last()).push(digit_value(ds.last()) as u8)
    }
}

/// The number at `p`: `None` when none starts there; an error offset when
/// an integer does not fit in 64 bits.
pub open spec fn read_number(s: Seq<char>, p: int) -> Option<Result<(Tok, int), int>> {
    let signed = 0 <= p < s.len() && (s[p] == '+' || s[p] == '-');
    let negative = signed && s[p] == '-';
    let q = if signed {
        p + 1
    } else {
        p
    };
    let e1 = digits_end(s, q);
    if !(0 <= p && q < e1) {
        None
    } else if e1 < s.len() && s[e1] == '.' && digits_end(s, e1 + 1) > e1 + 1 {
        let e2 = digits_end(s, e1 + 1);
        Some(
            Ok(
                (
                    Tok::Number(
                        Num::Float(
                            negative,
                            digit_bytes(s.subrange(q, e1)),
                            digit_bytes(s.subrange(e1 + 1, e2)),
                        ),
                    ),
                    e2,
                ),
            ),
        )
    } else {
        let m = digits_value(s.subrange(q, e1)) as int;
        let v = if negative {
            -m
        } else {
            m
        };
        if i64::MIN <= v <= i64::MAX {
            Some(Ok((Tok::Number(Num::Int(v as i64)), e1)))
        } else {
            Some(Err(p))
        }
    }
}

/// The character an escape `\c` stands for.
pub open spec fn unescape(c: char) -> char {
    if c == 'n' {
        '\n'
    } else {
        c
    }
}

pub open spec fn is_escapable(c: char) -> bool {
    c == '"' || c == 'n' || c == '\\'
}

/// The contents of a string from `q` up to its closing quote, and the
/// position after that quote.
pub open spec fn string_body(s: Seq<char>, q: int) -> Result<(Seq<char>, int), int>
    decreases s.len() - q,
{
    if q < 0 || q >= s.len() {
        Err(s.len() as int)
    } else if s[q] == '"' {
        Ok((Seq::empty(), q + 1))
    } else if s[q] == '\\' {
        if q + 1 < s.len() && is_escapable(s[q + 1]) {
            match string_body(s, q + 2) {
                Ok((rest, e)) => Ok((seq![unescape(s[q + 1])] + rest, e)),
                Err(x) => Err(x),
            }
        } else {
            Err(q)
        }
    } else {
        match string_body(s, q + 1) {
            Ok((rest, e)) => Ok((seq![s[q]] + rest, e)),
            Err(x) => Err(x),
        }
    }
}

/// The item at `p`: a list, a string, a number or a symbol, and the
/// position after it.
pub open spec fn read_item(s: Seq<char>, p: int) -> Result<(Tok, int), int>
    decreases s.len() - p, 0nat,
{
    if p < 0 || p >= s.len() {
        Err(p)
    } else if s[p] == '(' {
        match read_list(s, p + 1) {
            Ok((items, e)) => Ok((Tok::Cons(items), e)),
            Err(x) => Err(x),
        }
    } else if s[p] == '"' {
        match string_body(s, p + 1) {
            Ok((body, e)) => Ok((Tok::Str(body), e)),
            Err(x) => Err(x),
        }
    } else if read_number(s, p) is Some {
        read_number(s, p)->0
    } else if is_initial(s[p]) {
        let e = symbol_end(s, p);
        Ok((Tok::Symbol(rename(s.subrange(p, e))), e))
    } else {
        Err(p)
    }
}

/// The items of a list from `p` up to its closing parenthesis, and the
/// position after it.
pub open spec fn read_list(s: Seq<char>, p: int) -> Result<(Seq<Tok>, int), int>
    decreases s.len() - p, 1nat,
{
    let q = skip_ws(s, p);
    if p < 0 || q < p || q >= s.len() {
        Err(s.len() as int)
    } else if s[q] == ')' {
        Ok((Seq::empty(), q + 1))
    } else {
        match read_item(s, q) {
            Ok((t, e)) => if q < e <= s.len() {
                match read_list(s, e) {
                    Ok((ts, e2)) => Ok((seq![t] + ts, e2)),
                    Err(x) => Err(x),
                }
            } else {
                Err(q)
            },
            Err(x) => Err(x),
        }
    }
}

/// The top-level forms from `p` on; strings between them are dropped.
pub open spec fn read_top(s: Seq<char>, p: int) -> Result<Seq<Tok>, int>
    decreases s.len() - p,
{
    let q = skip_ws(s, p);
    if p < 0 || q < p || q >= s.len() {
        Ok(Seq::empty())
    } else if s[q] == '(' {
        match read_list(s, q + 1) {
            Ok((items, e)) => if q < e <= s.len() {
                match read_top(s, e) {
                    Ok(ts) => Ok(seq![Tok::Cons(items)] + ts),
                    Err(x) => Err(x),
                }
            } else {
                Err(q)
            },
            Err(x) => Err(x),
        }
    } else if s[q] == '"' {
        match string_body(s, q + 1) {
            Ok((_, e)) => if q < e <= s.len() {
                read_top(s, e)
            } else {
                Err(q)
            },
            Err(x) => Err(x),
        }
    } else {
        Err(q)
    }
}

fn is_ws_char(c: char) -> (r: bool)
    ensures
        r == is_ws(c),
{
    c == ' ' || c == '\t' || c == '\n' || c == '\r'
}

fn is_digit_char(c: char) -> (r: bool)
    ensures
        r == is_digit(c),
{
    '0' <= c && c <= '9'
}

fn is_initial_char(c: char) -> (r: bool)
    ensures
        r == is_initial(c),
{
    crate::symbols::is_letter_char(c) || c == '=' || c == '-' || c == '*' || c == '/' || c == '+'
        || c == '_' || c == '?' || c == '$' || c == '!' || c == '@' || c == '~' || c == '.' || c
        == '>' || c == '<' || c == '&' || c == '%' || c == '\'' || c == '#' || c == '`' || c == ';'
        || c == ':' || c == '{' || c == '}'
}

fn skip_ws_at(s: &Vec<char>, p: usize) -> (r: usize)
    requires
        p <= s@.len(),
    ensures
        r as int == skip_ws(s@, p as int),
        p <= r <= s@.len(),
{
    let mut q = p;
    while q < s.len() && is_ws_char(s[q])
        invariant
            p <= q <= s@.len(),
            skip_ws(s@, p as int) == skip_ws(s@, q as int),
        decreases s.len() - q,
    {
        q = q + 1;
    }
    q
}

fn digits_end_at(s: &Vec<char>, p: usize) -> (r: usize)
    requires
        p <= s@.len(),
    ensures
        r as int == digits_end(s@, p as int),
        p <= r <= s@.len(),
        forall|k: int| p <= k < r ==> is_digit(#[trigger] s@[k]),
{
    let mut q = p;
    while q < s.len() && is_digit_char(s[q])
        invariant
            p <= q <= s@.len(),
            digits_end(s@, p as int) == digits_end(s@, q as int),
            forall|k: int| p <= k < q ==> is_digit(#[trigger] s@[k]),
        decreases s.len() - q,
    {
        q = q + 1;
    }
    q
}

fn symbol_end_at(s: &Vec<char>, p: usize) -> (r: usize)
    requires
        p <= s@.len(),
    ensures
        r as int == symbol_end(s@, p as int),
        p <= r <= s@.len(),
        p < s@.len() && is_symbol_char(s@[p as int]) ==> r > p,
{
    let mut q = p;
    while q < s.len() && (is_initial_char(s[q]) || is_digit_char(s[q]))
        invariant
            p <= q <= s@.len(),
            symbol_end(s@, p as int) == symbol_end(s@, q as int),
        decreases s.len() - q,
    {
        q = q + 1;
    }
    q
}

fn digit_bytes_of(s: &Vec<char>, from: usize, to: usize) -> (r: Vec<u8>)
    requires
        from <= to <= s@.len(),
        forall|k: int| from <= k < to ==> is_digit(#[trigger] s@[k]),
    ensures
        r@ == digit_bytes(s@.subrange(from as int, to as int)),
{
    let mut r: Vec<u8> = Vec::new();
    let mut k = from;
    while k < to
        invariant
            from <= k <= to <= s@.len(),
            forall|j: int| from <= j < to ==> is_digit(#[trigger] s@[j]),
            r@ == digit_bytes(s@.subrange(from as int, k as int)),
        decreases to - k,
    {
        let c = s[k];
        assert(is_digit(s@[k as int]));
        let d = (c as u32 - '0' as u32) as u8;
        r.push(d);
        assert(s@.subrange(from as int, k + 1).drop_last() =~= s@.subrange(from as int, k as int));
        k = k + 1;
    }
    r
}

pub open spec fn number_view(r: Option<Result<(KlToken, usize), usize>>) -> Option<Result<(Tok, int), int>> {
    match r {
        Some(Ok((t, e))) => Some(Ok((t@, e as int))),
        Some(Err(x)) => Some(Err(x as int)),
        None => None,
    }
}

pub open spec fn item_view(r: Result<(KlToken, usize), usize>) -> Result<(Tok, int), int> {
    match r {
        Ok((t, e)) => Ok((t@, e as int)),
        Err(x) => Err(x as int),
    }
}

fn read_number_at(s: &Vec<char>, p: usize) -> (r: Option<Result<(KlToken, usize), usize>>)
    requires
        p < s@.len(),
    ensures
        number_view(r) == read_number(s@, p as int),
        r matches Some(Ok((_, e))) ==> p < e <= s@.len(),
{
    let len = s.len();
    let signed = s[p] == '+' || s[p] == '-';
    let negative = signed && s[p] == '-';
    let q = if signed {
        p + 1
    } else {
        p
    };
    let e1 = digits_end_at(s, q);
    if !(q < e1) {
        return None;
    }
    if e1 < s.len() && s[e1] == '.' {
        let e2 = digits_end_at(s, e1 + 1);
        if e2 > e1 + 1 {
            let whole = digit_bytes_of(s, q, e1);
            let fraction = digit_bytes_of(s, e1 + 1, e2);
            return Some(
                Ok((KlToken::Number(KlNumber::Float(FloatLit { negative, whole, fraction })), e2)),
            );
        }
    }
    let mut m: u64 = 0;
    let mut k = q;
    while k < e1
        invariant
            q <= k <= e1 <= s@.len(),
            p < s@.len(),
            q as int == (if (s@[p as int] == '+' || s@[p as int] == '-') {
                p + 1
            } else {
                p as int
            }),
            negative == (s@[p as int] == '-'),
            e1 as int == digits_end(s@, q as int),
            q < e1,
            !(e1 < s@.len() && s@[e1 as int] == '.' && digits_end(s@, e1 + 1) > e1 + 1),
            forall|j: int| q <= j < e1 ==> is_digit(#[trigger] s@[j]),
            m as nat == digits_value(s@.subrange(q as int, k as int)),
        decreases e1 - k,
    {
        assert(is_digit(s@[k as int]));
        let d = (s[k] as u32 - '0' as u32) as u64;
        assert(s@.subrange(q as int, k + 1).drop_last() =~= s@.subrange(q as int, k as int));
        assert(d == digit_value(s@[k as int]));
        assert(digits_value(s@.subrange(q as int, k + 1)) == m * 10 + d);
        match m.checked_mul(10) {
            Some(t) => match t.checked_add(d) {
                Some(u) => {
                    m = u;
                },
                None => {
                    proof {
                        lemma_digits_value_grows(s@.subrange(q as int, e1 as int), (k - q + 1) as int);
                        assert(s@.subrange(q as int, e1 as int).take((k - q + 1) as int) =~= s@.subrange(
                            q as int,
                            k + 1,
                        ));
                    }
                    return Some(Err(p));
                },
            },
            None => {
                proof {
                    lemma_digits_value_grows(s@.subrange(q as int, e1 as int), (k - q + 1) as int);
                    assert(s@.subrange(q as int, e1 as int).take((k - q + 1) as int) =~= s@.subrange(
                        q as int,
                        k + 1,
                    ));
                }
                return Some(Err(p));
            },
        }
        k = k + 1;
    }
    if negative {
        if m <= 9223372036854775808u64 {
            let v: i64 = if m == 9223372036854775808u64 {
                -9223372036854775807i64 - 1
            } else {
                0 - (m as i64)
            };
            Some(Ok((KlToken::Number(KlNumber::Int(v)), e1)))
        } else {
            Some(Err(p))
        }
    } else {
        if m <= 9223372036854775807u64 {
            Some(Ok((KlToken::Number(KlNumber::Int(m as i64)), e1)))
        } else {
            Some(Err(p))
        }
    }
}

/// A run of digits is worth at least any of its prefixes.
proof fn lemma_digits_value_grows(ds: Seq<char>, n: int)
    requires
        0 <= n <= ds.len(),
    ensures
        digits_value(ds.take(n)) <= digits_value(ds),
    decreases ds.len(),
{
    if n < ds.len() {
        assert(ds.drop_last().take(n) =~= ds.take(n));
        lemma_digits_value_grows(ds.drop_last(), n);
    } else {
        assert(ds.take(n) =~= ds);
    }
}

pub open spec fn prepend(acc: Seq<char>, r: Result<(Seq<char>, int), int>) -> Result<(Seq<char>, int), int> {
    match r {
        Ok((b, e)) => Ok((acc + b, e)),
        Err(x) => Err(x),
    }
}

fn string_body_at(s: &Vec<char>, q0: usize) -> (r: Result<(String, usize), usize>)
    requires
        q0 <= s@.len(),
    ensures
        match r {
            Ok((b, e)) => string_body(s@, q0 as int) == Ok::<(Seq<char>, int), int>((b@, e as int)) && q0 < e
                <= s@.len(),
            Err(x) => string_body(s@, q0 as int) == Err::<(Seq<char>, int), int>(x as int),
        },
{
    let len = s.len();
    let mut acc = String::new();
    let mut q = q0;
    assert(prepend(acc@, string_body(s@, q as int)) =~= string_body(s@, q0 as int)) by {
        match string_body(s@, q0 as int) {
            Ok((b, e)) => {
                assert(acc@ + b =~= b);
            },
            Err(_) => {},
        }
    }
    while q < len
        invariant
            len == s@.len(),
            q0 <= q <= len,
            prepend(acc@, string_body(s@, q as int)) == string_body(s@, q0 as int),
        decreases len - q,
    {
        let c = s[q];
        if c == '"' {
            assert(acc@ + Seq::<char>::empty() =~= acc@);
            return Ok((acc, q + 1));
        } else if c == '\\' {
            if q + 1 < len && (s[q + 1] == '"' || s[q + 1] == 'n' || s[q + 1] == '\\') {
                let d = if s[q + 1] == 'n' {
                    '\n'
                } else {
                    s[q + 1]
                };
                let ghost a0 = acc@;
                push_char(&mut acc, d);
                proof {
                    match string_body(s@, q + 2) {
                        Ok((b, e)) => {
                            assert(a0 + (seq![d] + b) =~= acc@ + b);
                        },
                        Err(_) => {},
                    }
                }
                q = q + 2;
            } else {
                return Err(q);
            }
        } else {
            let ghost a0 = acc@;
            push_char(&mut acc, c);
            proof {
                match string_body(s@, q + 1) {
                    Ok((b, e)) => {
                        assert(a0 + (seq![c] + b) =~= acc@ + b);
                    },
                    Err(_) => {},
                }
            }
            q = q + 1;
        }
    }
    Err(len)
}

/// Reads the item at `p`.
fn read_item_at(s: &Vec<char>, p: usize) -> (r: Result<(KlToken, usize), usize>)
    requires
        p <= s@.len(),
    ensures
        item_view(r) == read_item(s@, p as int),
        r matches Ok((_, e)) ==> p < e <= s@.len(),
    decreases s@.len() - p, 0nat,
{
    let len = s.len();
    if p >= len {
        return Err(p);
    }
    if s[p] == '(' {
        match read_list_at(s, p + 1) {
            Ok((items, e)) => {
                proof {
                    lemma_toks_of(items@);
                }
                Ok((KlToken::Cons(items), e))
            },
            Err(x) => Err(x),
        }
    } else if s[p] == '"' {
        match string_body_at(s, p + 1) {
            Ok((body, e)) => Ok((KlToken::String(body), e)),
            Err(x) => Err(x),
        }
    } else {
        match read_number_at(s, p) {
            Some(n) => n,
            None => {
                if is_initial_char(s[p]) {
                    let e = symbol_end_at(s, p);
                    let raw = string_of(s, p, e);
                    Ok((KlToken::Symbol(shen_rename_symbol(raw)), e))
                } else {
                    Err(p)
                }
            },
        }
    }
}

pub open spec fn prepend_items(acc: Seq<Tok>, r: Result<(Seq<Tok>, int), int>) -> Result<(Seq<Tok>, int), int> {
    match r {
        Ok((ts, e)) => Ok((acc + ts, e)),
        Err(x) => Err(x),
    }
}

/// Reads the items of a list, from `from` to its closing parenthesis.
fn read_list_at(s: &Vec<char>, from: usize) -> (r: Result<(Vec<KlToken>, usize), usize>)
    requires
        from <= s@.len(),
    ensures
        match r {
            Ok((ts, e)) => read_list(s@, from as int) == Ok::<(Seq<Tok>, int), int>((toks_of(ts@), e as int))
                && from < e <= s@.len(),
            Err(x) => read_list(s@, from as int) == Err::<(Seq<Tok>, int), int>(x as int),
        },
    decreases s@.len() - from, 1nat,
{
    let len = s.len();
    let mut acc: Vec<KlToken> = Vec::new();
    let mut p = from;
    assert(prepend_items(toks_of(acc@), read_list(s@, p as int)) =~= read_list(s@, from as int)) by {
        match read_list(s@, from as int) {
            Ok((ts, e)) => {
                assert(toks_of(acc@) + ts =~= ts);
            },
            Err(_) => {},
        }
    }
    loop
        invariant
            len == s@.len(),
            from <= p <= len,
            prepend_items(toks_of(acc@), read_list(s@, p as int)) == read_list(s@, from as int),
        decreases len - p,
    {
        let q = skip_ws_at(s, p);
        if q >= len {
            return Err(len);
        }
        if s[q] == ')' {
            assert(toks_of(acc@) + Seq::<Tok>::empty() =~= toks_of(acc@));
            return Ok((acc, q + 1));
        }
        match read_item_at(s, q) {
            Ok((t, e)) => {
                let ghost a0 = toks_of(acc@);
                let ghost acc0 = acc@;
                let ghost tv = t@;
                acc.push(t);
                proof {
                    assert(acc@.drop_last() == acc0);
                    assert(toks_of(acc@) == a0.push(tv));
                    match read_list(s@, e as int) {
                        Ok((ts, e2)) => {
                            assert(a0 + (seq![tv] + ts) =~= toks_of(acc@) + ts);
                        },
                        Err(_) => {},
                    }
                }
                p = e;
            },
            Err(x) => {
                return Err(x);
            },
        }
    }
}

/// Reads the top-level forms of a text, dropping the strings between them;
/// on malformed input, the offset at which reading failed.
pub fn read_forms(s: &Vec<char>) -> (r: Result<Vec<KlToken>, usize>)
    ensures
        match r {
            Ok(ts) => read_top(s@, 0) == Ok::<Seq<Tok>, int>(toks_of(ts@)),
            Err(x) => read_top(s@, 0) == Err::<Seq<Tok>, int>(x as int),
        },
{
    let len = s.len();
    let mut acc: Vec<KlToken> = Vec::new();
    let mut p: usize = 0;
    loop
        invariant
            len == s@.len(),
            p <= len,
            match read_top(s@, p as int) {
                Ok(ts) => read_top(s@, 0) == Ok::<Seq<Tok>, int>(toks_of(acc@) + ts),
                Err(x) => read_top(s@, 0) == Err::<Seq<Tok>, int>(x),
            },
        decreases len - p,
    {
        let q = skip_ws_at(s, p);
        if q >= len {
            assert(toks_of(acc@) + Seq::<Tok>::empty() =~= toks_of(acc@));
            return Ok(acc);
        }
        if s[q] == '(' {
            match read_list_at(s, q + 1) {
                Ok((items, e)) => {
                    proof {
                        lemma_toks_of(items@);
                    }
                    let t = KlToken::Cons(items);
                    let ghost a0 = toks_of(acc@);
                    let ghost acc0 = acc@;
                    let ghost tv = t@;
                    acc.push(t);
                    proof {
                        assert(acc@.drop_last() == acc0);
                        assert(toks_of(acc@) == a0.push(tv));
                        match read_top(s@, e as int) {
                            Ok(ts) => {
                                assert(a0 + (seq![tv] + ts) =~= toks_of(acc@) + ts);
                            },
                            Err(_) => {},
                        }
                    }
                    p = e;
                },
                Err(x) => {
                    return Err(x);
                },
            }
        } else if s[q] == '"' {
            match string_body_at(s, q + 1) {
                Ok((_, e)) => {
                    p = e;
                },
                Err(x) => {
                    return Err(x);
                },
            }
        } else {
            return Err(q);
        }
    }
}

/// Reads the forms of one source text and adds them, as one batch, to
/// `kl_buffer`; on malformed input, the offset at which reading failed, and
/// the buffer is left as it was.
pub fn collect_sexps(kl: &Vec<char>, kl_buffer: &mut Vec<Vec<KlToken>>) -> (r: Result<(), usize>)
    ensures
        r matches Ok(_) ==> final(kl_buffer)@.len() == old(kl_buffer)@.len() + 1 && final(kl_buffer)@.drop_last()
            == old(kl_buffer)@ && read_top(kl@, 0) == Ok::<Seq<Tok>, int>(
            toks_of(final(kl_buffer)@.last()@),
        ),
        r matches Err(x) ==> final(kl_buffer)@ == old(kl_buffer)@ && read_top(kl@, 0) == Err::<
            Seq<Tok>,
            int,
        >(x as int),
{
    match read_forms(kl) {
        Ok(forms) => {
            let ghost b0 = kl_buffer@;
            kl_buffer.push(forms);
            assert(kl_buffer@.drop_last() == b0);
            Ok(())
        },
        Err(x) => Err(x),
    }
}

} // verus!
