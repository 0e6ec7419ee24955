//! The printer: the text of a syntax tree, which the reader reads back.
use vstd::prelude::*;
use vstd::string::StringExecFns;
use crate::prims::{decimal_of, decimal_string, digit_char, digits_of, digits_text, float_string, float_text};
use crate::reader::{
    digit_bytes, digit_value, digits_end, digits_value, is_digit, is_escapable, is_initial,
    is_symbol_char, is_ws,
    read_item, read_list, read_number, read_top, skip_ws, string_body, symbol_end, unescape,
};
use crate::symbols::{rename, shen_unrename_symbol, unrename};
use crate::text::push_char;
use crate::token::{KlNumber, KlToken, Num, Tok, lemma_toks_of, toks_of};

verus! {

/// How a string character is written inside quotes.
pub open spec fn escape_char(c: char) -> Seq<char> {
    if c == '"' {
        seq!['\\', '"']
    } else if c == '\\' {
        seq!['\\', '\\']
    } else if c == '\n' {
        seq!['\\', 'n']
    } else {
        seq![c]
    }
}

pub open spec fn escape(s: Seq<char>) -> Seq<char>
    decreases s.len(),
{
    if s.len() == 0 {
        Seq::empty()
    } else {
        escape_char(s[0]) + escape(s.skip(1))
    }
}

/// The text of a token: symbols by their printed names, numbers in
/// decimal, strings quoted with escapes, lists in parentheses with single
/// spaces between items.
pub open spec fn print_tok(t: Tok) -> Seq<char>
    decreases t,
{
    match t {
        Tok::Symbol(s) => unrename(s),
        Tok::Number(Num::Int(i)) => decimal_of(i as int),
        Tok::Number(Num::Float(n, w, f)) => float_text(n, w, f),
        Tok::Str(s) => seq!['"'] + escape(s) + seq!['"'],
        Tok::Cons(items) => seq!['('] + print_toks(items) + seq![')'],
        Tok::Recur(items) => seq!['('] + print_toks(items) + seq![')'],
    }
}

pub open spec fn print_toks(items: Seq<Tok>) -> Seq<char>
    decreases items,
{
    if items.len() == 0 {
        Seq::empty()
    } else if items.len() == 1 {
        print_tok(items[0])
    } else {
        print_tok(items[0]) + seq![' '] + print_toks(items.subrange(1, items.len() as int))
    }
}

/// Text that the reader takes for one whole symbol.
pub open spec fn symbol_text(raw: Seq<char>) -> bool {
    &&& raw.len() > 0
    &&& is_initial(raw[0])
    &&& forall|i: int| 0 <= i < raw.len() ==> is_symbol_char(#[trigger] raw[i])
    &&& !((raw[0] == '+' || raw[0] == '-') && raw.len() > 1 && is_digit(raw[1]))
}

pub open spec fn all_digits(ds: Seq<u8>) -> bool {
    forall|i: int| 0 <= i < ds.len() ==> #[trigger] ds[i] < 10
}

/// A token as the reader builds it, whose symbols print to text that reads
/// back to them.
pub open spec fn readable(t: Tok) -> bool
    decreases t,
{
    match t {
        Tok::Symbol(s) => symbol_text(unrename(s)) && rename(unrename(s)) == s,
        Tok::Number(Num::Int(_)) => true,
        Tok::Number(Num::Float(_, w, f)) => w.len() > 0 && f.len() > 0 && all_digits(w) && all_digits(f),
        Tok::Str(_) => true,
        Tok::Cons(items) => readable_all(items),
        Tok::Recur(_) => false,
    }
}

pub open spec fn readable_all(items: Seq<Tok>) -> bool
    decreases items,
{
    items.len() == 0 || (readable(items[0]) && readable_all(items.subrange(1, items.len() as int)))
}

/// What may follow a token: the end of the text, a space or a closing
/// parenthesis.
pub open spec fn closes_token(s: Seq<char>, e: int) -> bool {
    e == s.len() || (0 <= e < s.len() && (s[e] == ' ' || s[e] == ')'))
}

proof fn lemma_digits_end(s: Seq<char>, p: int, k: int)
    requires
        0 <= p,
        0 <= k,
        p + k <= s.len(),
        forall|i: int| p <= i < p + k ==> is_digit(#[trigger] s[i]),
        p + k == s.len() || !is_digit(s[p + k]),
    ensures
        digits_end(s, p) == p + k,
    decreases k,
{
    if k > 0 {
        lemma_digits_end(s, p + 1, k - 1);
    }
}

proof fn lemma_symbol_end(s: Seq<char>, p: int, k: int)
    requires
        0 <= p,
        0 <= k,
        p + k <= s.len(),
        forall|i: int| p <= i < p + k ==> is_symbol_char(#[trigger] s[i]),
        p + k == s.len() || !is_symbol_char(s[p + k]),
    ensures
        symbol_end(s, p) == p + k,
    decreases k,
{
    if k > 0 {
        lemma_symbol_end(s, p + 1, k - 1);
    }
}

proof fn lemma_digit_char(d: int)
    requires
        0 <= d < 10,
    ensures
        is_digit(digit_char(d)),
        digit_value(digit_char(d)) == d,
{
}

proof fn lemma_digits_of(n: nat)
    ensures
        forall|i: int| 0 <= i < digits_of(n).len() ==> is_digit(#[trigger] digits_of(n)[i]),
        digits_value(digits_of(n)) == n,
        n > 0 ==> digits_of(n).len() > 0,
    decreases n,
{
    if n > 0 {
        lemma_digits_of(n / 10);
        lemma_digit_char((n % 10) as int);
        let d = digits_of(n);
        assert(d.drop_last() == digits_of(n / 10));
        assert(n == (n / 10) * 10 + n % 10) by (nonlinear_arith);
        assert forall|i: int| 0 <= i < d.len() implies is_digit(#[trigger] d[i]) by {
            if i < d.len() - 1 {
                assert(d[i] == digits_of(n / 10)[i]);
            }
        }
    }
}

proof fn lemma_digits_text(w: Seq<u8>)
    requires
        all_digits(w),
    ensures
        digits_text(w).len() == w.len(),
        forall|i: int| 0 <= i < w.len() ==> is_digit(#[trigger] digits_text(w)[i]),
        digit_bytes(digits_text(w)) == w,
    decreases w.len(),
{
    if w.len() > 0 {
        let v = w.drop_last();
        assert(all_digits(v)) by {
            assert forall|i: int| 0 <= i < v.len() implies #[trigger] v[i] < 10 by {
                assert(v[i] == w[i]);
            }
        }
        lemma_digits_text(v);
        lemma_digit_char(w.last() as int);
        let t = digits_text(w);
        assert(t.drop_last() == digits_text(v));
        assert forall|i: int| 0 <= i < w.len() implies is_digit(#[trigger] t[i]) by {
            if i < w.len() - 1 {
                assert(t[i] == digits_text(v)[i]);
            }
        }
        assert(digit_bytes(t) == digit_bytes(digits_text(v)).push(digit_value(t.last()) as u8));
        assert(w == v.push(w.last()));
    }
}

proof fn lemma_string_body(s: Seq<char>, q: int, x: Seq<char>)
    requires
        0 <= q,
        q + escape(x).len() + 1 <= s.len(),
        s.subrange(q, q + escape(x).len() + 1) == escape(x) + seq!['"'],
    ensures
        string_body(s, q) == Ok::<(Seq<char>, int), int>((x, q + escape(x).len() + 1)),
    decreases x.len(),
{
    let ex = escape(x);
    if x.len() == 0 {
        assert(s[q] == (ex + seq!['"'])[0]);
        assert(ex.len() == 0);
        assert(x =~= Seq::<char>::empty());
    } else {
        let c = x[0];
        let head = escape_char(c);
        let rest = escape(x.skip(1));
        assert(ex == head + rest);
        let k = head.len() as int;
        assert(s[q] == (ex + seq!['"'])[0]);
        assert(s.subrange(q + k, q + k + rest.len() + 1) =~= rest + seq!['"']) by {
            assert forall|i: int| 0 <= i < rest.len() + 1 implies s.subrange(q + k, q + k + rest.len()
                + 1)[i] == (rest + seq!['"'])[i] by {
                assert(s.subrange(q, q + ex.len() + 1)[k + i] == (ex + seq!['"'])[k + i]);
            }
        }
        lemma_string_body(s, q + k, x.skip(1));
        let inner = string_body(s, q + k);
        assert(inner == Ok::<(Seq<char>, int), int>((x.skip(1), q + k + rest.len() + 1)));
        if k == 2 {
            assert(s[q + 1] == (ex + seq!['"'])[1]);
            assert(s[q] == '\\');
            assert(is_escapable(s[q + 1]));
            assert(unescape(s[q + 1]) == c);
            assert(string_body(s, q) == Ok::<(Seq<char>, int), int>((seq![c] + x.skip(1), q + k + rest.len() + 1)));
        } else {
            assert(head == seq![c]);
            assert(s[q] == c);
            assert(c != '"' && c != '\\');
            assert(string_body(s, q) == Ok::<(Seq<char>, int), int>((seq![c] + x.skip(1), q + k + rest.len() + 1)));
        }
        assert(seq![c] + x.skip(1) =~= x);
        assert(ex.len() == k + rest.len());
    }
}

proof fn lemma_print_first(t: Tok)
    requires
        readable(t),
    ensures
        print_tok(t).len() > 0,
        !is_ws(print_tok(t)[0]),
        print_tok(t)[0] != ')',
{
    match t {
        Tok::Number(Num::Int(i)) => {
            if i > 0 {
                lemma_digits_of(i as nat);
                assert(is_digit(digits_of(i as nat)[0]));
            }
        },
        Tok::Number(Num::Float(n, w, f)) => {
            lemma_digits_text(w);
            if !n {
                assert(float_text(n, w, f)[0] == digits_text(w)[0]);
                assert(is_digit(digits_text(w)[0]));
            }
        },
        _ => {},
    }
}

proof fn lemma_at(s: Seq<char>, p: int, text: Seq<char>, k: int)
    requires
        0 <= p,
        p + text.len() <= s.len(),
        s.subrange(p, p + text.len()) == text,
        0 <= k < text.len(),
    ensures
        s[p + k] == text[k],
{
    assert(s.subrange(p, p + text.len())[k] == text[k]);
}

proof fn lemma_at_all(s: Seq<char>, p: int, text: Seq<char>)
    requires
        0 <= p,
        p + text.len() <= s.len(),
        s.subrange(p, p + text.len()) == text,
    ensures
        forall|k: int| 0 <= k < text.len() ==> s[p + k] == #[trigger] text[k],
        forall|j: int| p <= j < p + text.len() ==> #[trigger] s[j] == text[j - p],
{
    assert forall|k: int| 0 <= k < text.len() implies s[p + k] == #[trigger] text[k] by {
        lemma_at(s, p, text, k);
    }
    assert forall|j: int| p <= j < p + text.len() implies #[trigger] s[j] == text[j - p] by {
        lemma_at(s, p, text, j - p);
    }
}

proof fn lemma_read_int(s: Seq<char>, p: int, i: i64)
    requires
        0 <= p,
        p + decimal_of(i as int).len() <= s.len(),
        s.subrange(p, p + decimal_of(i as int).len()) == decimal_of(i as int),
        closes_token(s, p + decimal_of(i as int).len()),
    ensures
        read_number(s, p) == Some(
            Ok::<(Tok, int), int>((Tok::Number(Num::Int(i)), p + decimal_of(i as int).len())),
        ),
{
    let text = decimal_of(i as int);
    let e = p + text.len();
    lemma_at_all(s, p, text);
    if i == 0 {
        lemma_digit_char(0);
        assert(s[p] == text[0]);
        assert(is_digit(s[p]));
        lemma_digits_end(s, p, 1);
        assert(s.subrange(p, p + 1) =~= seq!['0']);
        let z = seq!['0'];
        assert(z.drop_last() =~= Seq::<char>::empty());
        assert(z.last() == '0');
        assert(digits_value(Seq::<char>::empty()) == 0);
        assert(digit_value('0') == 0);
        assert(digits_value(z) == digits_value(z.drop_last()) * 10 + digit_value(z.last()));
        assert(digits_value(z) == 0);
    } else if i > 0 {
        let d = digits_of(i as nat);
        lemma_digits_of(i as nat);
        assert(text == d);
        assert(s[p] == text[0]);
        assert(is_digit(s[p]));
        assert forall|k: int| p <= k < p + d.len() implies is_digit(#[trigger] s[k]) by {
            assert(s[k] == text[k - p]);
        }
        lemma_digits_end(s, p, d.len() as int);
        assert(s.subrange(p, e) =~= d);
    } else {
        let d = digits_of((-i) as nat);
        lemma_digits_of((-i) as nat);
        assert(text == seq!['-'] + d);
        assert(s[p] == text[0]);
        assert(s[p] == '-');
        assert forall|k: int| p + 1 <= k < e implies is_digit(#[trigger] s[k]) by {
            assert(s[k] == text[k - p]);
            assert(text[k - p] == d[k - p - 1]);
        }
        lemma_digits_end(s, p + 1, d.len() as int);
        assert(s.subrange(p + 1, e) =~= d) by {
            assert forall|k: int| 0 <= k < d.len() implies s.subrange(p + 1, e)[k] == d[k] by {
                assert(s[p + 1 + k] == text[1 + k]);
            }
        }
    }
}

#[verifier::rlimit(60)]
proof fn lemma_read_float(s: Seq<char>, p: int, n: bool, w: Seq<u8>, f: Seq<u8>)
    requires
        0 <= p,
        w.len() > 0,
        f.len() > 0,
        all_digits(w),
        all_digits(f),
        p + float_text(n, w, f).len() <= s.len(),
        s.subrange(p, p + float_text(n, w, f).len()) == float_text(n, w, f),
        closes_token(s, p + float_text(n, w, f).len()),
    ensures
        read_number(s, p) == Some(
            Ok::<(Tok, int), int>((Tok::Number(Num::Float(n, w, f)), p + float_text(n, w, f).len())),
        ),
{
    let text = float_text(n, w, f);
    let e = p + text.len();
    let tw = digits_text(w);
    let tf = digits_text(f);
    lemma_digits_text(w);
    lemma_digits_text(f);
    let sign: Seq<char> = if n {
        seq!['-']
    } else {
        Seq::empty()
    };
    let q = p + sign.len();
    assert(text == sign + tw + seq!['.'] + tf);
    lemma_at_all(s, p, text);
    let e1 = q + tw.len();
    assert forall|k: int| q <= k < e1 implies is_digit(#[trigger] s[k]) by {
        assert(s[k] == text[k - p]);
        assert(text[k - p] == tw[k - q]);
    }
    assert(s[e1] == text[e1 - p]);
    assert(s[e1] == '.');
    lemma_digits_end(s, q, tw.len() as int);
    assert forall|k: int| e1 + 1 <= k < e implies is_digit(#[trigger] s[k]) by {
        assert(s[k] == text[k - p]);
        assert(text[k - p] == tf[k - e1 - 1]);
    }
    lemma_digits_end(s, e1 + 1, tf.len() as int);
    assert(s[p] == text[0]);
    if n {
        assert(s[p] == '-');
    } else {
        assert(text[0] == tw[0]);
        assert(is_digit(s[p]));
    }
    assert(s.subrange(q, e1) =~= tw) by {
        assert forall|k: int| 0 <= k < tw.len() implies s.subrange(q, e1)[k] == tw[k] by {
            assert(s[q + k] == text[sign.len() + k]);
        }
    }
    assert(s.subrange(e1 + 1, e) =~= tf) by {
        assert forall|k: int| 0 <= k < tf.len() implies s.subrange(e1 + 1, e)[k] == tf[k] by {
            assert(s[e1 + 1 + k] == text[e1 + 1 + k - p]);
        }
    }
}

proof fn lemma_read_item_print(s: Seq<char>, p: int, t: Tok)
    requires
        readable(t),
        0 <= p,
        p + print_tok(t).len() <= s.len(),
        s.subrange(p, p + print_tok(t).len()) == print_tok(t),
        closes_token(s, p + print_tok(t).len()),
    ensures
        read_item(s, p) == Ok::<(Tok, int), int>((t, p + print_tok(t).len())),
    decreases t, 0nat,
{
    let text = print_tok(t);
    let e = p + text.len();
    lemma_print_first(t);
    lemma_at_all(s, p, text);
    assert(s[p] == text[0]);
    match t {
        Tok::Symbol(sym) => {
            let raw = unrename(sym);
            assert(s[p] != '(' && s[p] != '"');
            assert forall|k: int| p <= k < e implies is_symbol_char(#[trigger] s[k]) by {
                assert(s[k] == raw[k - p]);
            }
            lemma_symbol_end(s, p, raw.len() as int);
            if raw[0] == '+' || raw[0] == '-' {
                if raw.len() > 1 {
                    assert(s[p + 1] == raw[1]);
                }
                lemma_digits_end(s, p + 1, 0);
            } else {
                lemma_digits_end(s, p, 0);
            }
            assert(read_number(s, p) is None);
            assert(s.subrange(p, e) =~= raw);
        },
        Tok::Number(Num::Int(i)) => {
            lemma_read_int(s, p, i);
            if i < 0 {
                assert(s[p] == '-');
            } else if i == 0 {
                assert(s[p] == '0');
            } else {
                lemma_digits_of(i as nat);
                assert(is_digit(digits_of(i as nat)[0]));
            }
        },
        Tok::Number(Num::Float(n, w, f)) => {
            lemma_read_float(s, p, n, w, f);
            lemma_digits_text(w);
            if !n {
                assert(text[0] == digits_text(w)[0]);
                assert(is_digit(digits_text(w)[0]));
            }
        },
        Tok::Str(x) => {
            assert(s.subrange(p + 1, p + 1 + escape(x).len() + 1) =~= escape(x) + seq!['"']) by {
                assert forall|k: int| 0 <= k < escape(x).len() + 1 implies s.subrange(
                    p + 1,
                    p + 1 + escape(x).len() + 1,
                )[k] == (escape(x) + seq!['"'])[k] by {
                    assert(s[p + 1 + k] == text[1 + k]);
                }
            }
            lemma_string_body(s, p + 1, x);
        },
        Tok::Cons(items) => {
            let inner = print_toks(items);
            assert(text == seq!['('] + inner + seq![')']);
            assert(s.subrange(p + 1, p + 1 + inner.len() + 1) =~= inner + seq![')']) by {
                assert forall|k: int| 0 <= k < inner.len() + 1 implies s.subrange(
                    p + 1,
                    p + 1 + inner.len() + 1,
                )[k] == (inner + seq![')'])[k] by {
                    assert(s[p + 1 + k] == text[1 + k]);
                }
            }
            lemma_toks_first(items);
            assert(s[p + 1] == text[1]);
            assert(skip_ws(s, p + 1) == p + 1);
            lemma_read_list_print(s, p + 1, p + 1, items);
        },
        Tok::Recur(_) => {},
    }
}

/// A printed list of items starts where its first item does: not with
/// whitespace; an empty one prints as nothing.
proof fn lemma_toks_first(items: Seq<Tok>)
    requires
        readable_all(items),
    ensures
        (print_toks(items) + seq![')']).len() > 0,
        !is_ws((print_toks(items) + seq![')'])[0]),
{
    if items.len() > 0 {
        lemma_print_first(items[0]);
        if items.len() > 1 {
            assert(print_toks(items) == print_tok(items[0]) + seq![' '] + print_toks(
                items.subrange(1, items.len() as int),
            ));
        }
        assert((print_toks(items) + seq![')'])[0] == print_tok(items[0])[0]);
    }
}

#[verifier::rlimit(60)]
proof fn lemma_read_list_print(s: Seq<char>, q: int, r: int, items: Seq<Tok>)
    requires
        readable_all(items),
        0 <= q <= r,
        skip_ws(s, q) == r,
        r + print_toks(items).len() + 1 <= s.len(),
        s.subrange(r, r + print_toks(items).len() + 1) == print_toks(items) + seq![')'],
    ensures
        read_list(s, q) == Ok::<(Seq<Tok>, int), int>((items, r + print_toks(items).len() + 1)),
    decreases items, 1nat,
{
    let text = print_toks(items) + seq![')'];
    let end = r + text.len();
    lemma_at_all(s, r, text);
    if items.len() == 0 {
        assert(s[r] == text[0]);
        assert(s[r] == ')');
        assert(items =~= Seq::<Tok>::empty());
    } else {
        let first = items[0];
        let rest = items.subrange(1, items.len() as int);
        let pf = print_tok(first);
        assert(readable(first) && readable_all(rest));
        lemma_print_first(first);
        let e = r + pf.len();
        assert(s.subrange(r, e) =~= pf) by {
            assert forall|k: int| 0 <= k < pf.len() implies s.subrange(r, e)[k] == pf[k] by {
                assert(s[r + k] == text[k]);
                if items.len() > 1 {
                    assert(print_toks(items) == pf + seq![' '] + print_toks(rest));
                }
            }
        }
        if items.len() == 1 {
            assert(print_toks(items) == pf);
            assert(s[e] == text[pf.len() as int]);
            assert(s[e] == ')');
            assert(rest =~= Seq::<Tok>::empty());
            lemma_read_item_print(s, r, first);
            assert(skip_ws(s, e) == e);
            assert(print_toks(rest) =~= Seq::<char>::empty());
            assert(s.subrange(e, e + 1) =~= print_toks(rest) + seq![')']);
            lemma_read_list_print(s, e, e, rest);
        } else {
            let pr = print_toks(rest);
            assert(print_toks(items) == pf + seq![' '] + pr);
            assert(s[e] == text[pf.len() as int]);
            assert(s[e] == ' ');
            lemma_read_item_print(s, r, first);
            lemma_print_first(rest[0]);
            assert(readable(rest[0]));
            if rest.len() == 1 {
                assert(pr == print_tok(rest[0]));
            } else {
                assert(pr == print_tok(rest[0]) + seq![' '] + print_toks(rest.subrange(1, rest.len() as int)));
            }
            assert(s[e + 1] == pr[0]) by {
                assert(s[e + 1] == text[pf.len() + 1int]);
            }
            assert(skip_ws(s, e + 1) == e + 1);
            assert(skip_ws(s, e) == e + 1);
            assert(s.subrange(e + 1, e + 1 + pr.len() + 1) =~= pr + seq![')']) by {
                assert forall|k: int| 0 <= k < pr.len() + 1 implies s.subrange(e + 1, e + 1 + pr.len() + 1)[k]
                    == (pr + seq![')'])[k] by {
                    assert(s[e + 1 + k] == text[pf.len() as int + 1 + k]);
                }
            }
            lemma_read_list_print(s, e, e + 1, rest);
        }
        assert(seq![first] + rest =~= items);
    }
}

/// Reading back what the printer writes for a list the reader can build
/// gives that list again.
pub proof fn lemma_read_print(t: Tok)
    requires
        t is Cons,
        readable(t),
    ensures
        read_top(print_tok(t), 0) == Ok::<Seq<Tok>, int>(seq![t]),
{
    let s = print_tok(t);
    lemma_print_first(t);
    assert(s.subrange(0, s.len() as int) =~= s);
    lemma_read_item_print(s, 0, t);
    let items = t->Cons_0;
    assert(s[0] == '(');
    assert(skip_ws(s, 0) == 0);
    assert(read_top(s, s.len() as int) == Ok::<Seq<Tok>, int>(Seq::empty()));
    assert(seq![t] + Seq::<Tok>::empty() =~= seq![t]);
}

proof fn lemma_escape_append(a: Seq<char>, c: char)
    ensures
        escape(a.push(c)) == escape(a) + escape_char(c),
    decreases a.len(),
{
    if a.len() == 0 {
        assert(a.push(c) =~= seq![c]);
        assert(seq![c].skip(1) =~= Seq::<char>::empty());
        assert(escape(seq![c]) == escape_char(c) + escape(Seq::<char>::empty()));
        assert(escape_char(c) + Seq::<char>::empty() =~= escape_char(c));
    } else {
        assert(a.push(c).skip(1) =~= a.skip(1).push(c));
        lemma_escape_append(a.skip(1), c);
        assert(escape(a.push(c)) == escape_char(a[0]) + escape(a.skip(1).push(c)));
        assert(escape_char(a[0]) + (escape(a.skip(1)) + escape_char(c)) =~= escape(a) + escape_char(c));
    }
}

fn append_escaped(out: &mut String, s: &String)
    ensures
        final(out)@ == old(out)@ + escape(s@),
{
    let cs = crate::text::chars_of(s.as_str());
    let mut i: usize = 0;
    assert(old(out)@ + escape(cs@.take(0)) =~= old(out)@) by {
        assert(cs@.take(0) =~= Seq::<char>::empty());
    }
    while i < cs.len()
        invariant
            i <= cs@.len(),
            cs@ == s@,
            out@ == old(out)@ + escape(cs@.take(i as int)),
        decreases cs.len() - i,
    {
        let c = cs[i];
        let ghost o = out@;
        if c == '"' {
            push_char(out, '\\');
            push_char(out, '"');
        } else if c == '\\' {
            push_char(out, '\\');
            push_char(out, '\\');
        } else if c == '\n' {
            push_char(out, '\\');
            push_char(out, 'n');
        } else {
            push_char(out, c);
        }
        proof {
            assert(out@ =~= o + escape_char(c));
            assert(cs@.take(i as int + 1) =~= cs@.take(i as int).push(c));
            lemma_escape_append(cs@.take(i as int), c);
        }
        i = i + 1;
    }
    assert(cs@.take(cs.len() as int) =~= cs@);
}

/// The text of a token, which the reader reads back.
pub fn print_token(t: &KlToken) -> (r: String)
    ensures
        r@ == print_tok(t@),
    decreases t,
{
    match t {
        KlToken::Symbol(sym) => shen_unrename_symbol(crate::token::copy_string(sym)),
        KlToken::Number(KlNumber::Int(i)) => decimal_string(*i),
        KlToken::Number(KlNumber::Float(f)) => float_string(f),
        KlToken::String(x) => {
            let mut out = String::new();
            push_char(&mut out, '"');
            append_escaped(&mut out, x);
            push_char(&mut out, '"');
            assert(out@ =~= seq!['"'] + escape(x@) + seq!['"']);
            out
        },
        KlToken::Cons(items) | KlToken::Recur(items) => {
            let mut out = String::new();
            push_char(&mut out, '(');
            let inner = print_tokens(items);
            out.append(inner.as_str());
            push_char(&mut out, ')');
            assert(out@ =~= seq!['('] + print_toks(toks_of(items@)) + seq![')']);
            out
        },
    }
}

/// The items of a list, separated by single spaces.
fn print_tokens(items: &Vec<KlToken>) -> (r: String)
    ensures
        r@ == print_toks(toks_of(items@)),
    decreases items,
{
    proof {
        lemma_toks_of(items@);
    }
    let ghost ts = toks_of(items@);
    let n = items.len();
    if n == 0 {
        return String::new();
    }
    let mut out = String::new();
    let mut k: usize = n;
    assert(decreases_to!(items => items@[(n - 1) as int]));
    let last = print_token(&items[n - 1]);
    out.append(last.as_str());
    assert(ts.subrange(n - 1, n as int) =~= seq![ts[n - 1]]);
    assert(out@ == print_toks(ts.subrange(n - 1, n as int)));
    k = n - 1;
    while k > 0
        invariant
            0 <= k < n == items@.len(),
            ts == toks_of(items@),
            ts.len() == n,
            forall|j: int| 0 <= j < n ==> #[trigger] ts[j] == items@[j]@,
            out@ == print_toks(ts.subrange(k as int, n as int)),
        decreases k,
    {
        assert(decreases_to!(items => items@[(k - 1) as int]));
        let piece = print_token(&items[k - 1]);
        let mut next = String::new();
        next.append(piece.as_str());
        push_char(&mut next, ' ');
        next.append(out.as_str());
        proof {
            let sub = ts.subrange(k - 1, n as int);
            assert(sub[0] == ts[k - 1]);
            assert(sub.subrange(1, sub.len() as int) =~= ts.subrange(k as int, n as int));
            assert(next@ =~= print_tok(sub[0]) + seq![' '] + print_toks(sub.subrange(1, sub.len() as int)));
        }
        out = next;
        k = k - 1;
    }
    assert(ts.subrange(0, n as int) =~= ts);
    out
}

} // verus!
