//! Small string helpers shared by the other modules.
use vstd::prelude::*;
use vstd::string::StrSliceExecFns;
use vstd::string::StringExecFns;

verus! {

/// Relies on String::push: the string grows by exactly the one char.
#[verifier::external_body]
pub(crate) fn push_char(s: &mut String, c: char)
    ensures
        final(s)@ == old(s)@.push(c),
{
    s.push(c)
}

/// The chars of `s`, in order.
pub fn chars_of(s: &str) -> (r: Vec<char>)
    ensures
        r@ == s@,
{
    let n = s.unicode_len();
    let mut r: Vec<char> = Vec::new();
    let mut i: usize = 0;
    while i < n
        invariant
            n == s@.len(),
            i <= n,
            r@ == s@.take(i as int),
        decreases n - i,
    {
        r.push(s.get_char(i));
        proof {
            assert(s@.take(i as int + 1) == s@.take(i as int).push(s@[i as int]));
        }
        i = i + 1;
    }
    proof {
        assert(s@.take(n as int) == s@);
    }
    r
}

/// A string made of the chars `v[from..to]`.
pub fn string_of(v: &Vec<char>, from: usize, to: usize) -> (r: String)
    requires
        from <= to <= v@.len(),
    ensures
        r@ == v@.subrange(from as int, to as int),
{
    let mut r = String::new();
    let mut i: usize = from;
    while i < to
        invariant
            from <= i <= to <= v@.len(),
            r@ == v@.subrange(from as int, i as int),
        decreases to - i,
    {
        push_char(&mut r, v[i]);
        proof {
            assert(v@.subrange(from as int, i as int + 1) == v@.subrange(from as int, i as int).push(
                v@[i as int],
            ));
        }
        i = i + 1;
    }
    r
}

/// Whether `a[from..to]` spells `b`.
pub fn slice_equals(a: &Vec<char>, from: usize, to: usize, b: &str) -> (r: bool)
    requires
        from <= to <= a@.len(),
    ensures
        r == (a@.subrange(from as int, to as int) == b@),
{
    let n = b.unicode_len();
    if to - from != n {
        return false;
    }
    let mut i: usize = 0;
    while i < n
        invariant
            n == b@.len(),
            to - from == n,
            from <= to <= a@.len(),
            i <= n,
            forall|k: int| 0 <= k < i ==> a@[from + k] == b@[k],
        decreases n - i,
    {
        if a[from + i] != b.get_char(i) {
            assert(a@.subrange(from as int, to as int)[i as int] != b@[i as int]);
            return false;
        }
        i = i + 1;
    }
    assert(a@.subrange(from as int, to as int) =~= b@);
    true
}

/// Joins `v` with `sep` between consecutive items.
pub fn intersperse(v: Vec<String>, sep: String) -> (r: String)
    ensures
        r@ == joined(v@.map_values(|s: String| s@), sep@),
{
    let mut so_far = String::new();
    let mut i: usize = 0;
    while i < v.len()
        invariant
            i <= v.len(),
            so_far@ == joined(v@.map_values(|s: String| s@).take(i as int), sep@),
        decreases v.len() - i,
    {
        if i > 0 {
            so_far.append(sep.as_str());
        }
        so_far.append(v[i].as_str());
        proof {
            let w = v@.map_values(|s: String| s@);
            assert(w.take(i as int + 1).drop_last() == w.take(i as int));
        }
        i = i + 1;
    }
    proof {
        let w = v@.map_values(|s: String| s@);
        assert(w.take(v.len() as int) == w);
    }
    so_far
}

/// The items of `v` with `sep` between consecutive ones.
pub open spec fn joined(v: Seq<Seq<char>>, sep: Seq<char>) -> Seq<char>
    decreases v.len(),
{
    if v.len() == 0 {
        Seq::empty()
    } else if v.len() == 1 {
        v[0]
    } else {
        joined(v.drop_last(), sep) + sep + v.last()
    }
}

} // verus!

verus! {

/// Whether two strings are equal.
pub fn same_string(a: &String, b: &String) -> (r: bool)
    ensures
        r == (a@ == b@),
{
    let cs = chars_of(a.as_str());
    let r = slice_equals(&cs, 0, cs.len(), b.as_str());
    assert(cs@.subrange(0, cs@.len() as int) == cs@);
    r
}

/// Whether two byte vectors are equal.
pub fn same_bytes(a: &Vec<u8>, b: &Vec<u8>) -> (r: bool)
    ensures
        r == (a@ == b@),
{
    if a.len() != b.len() {
        return false;
    }
    let mut i: usize = 0;
    while i < a.len()
        invariant
            i <= a.len() == b.len(),
            forall|k: int| 0 <= k < i ==> a@[k] == b@[k],
        decreases a.len() - i,
    {
        if a[i] != b[i] {
            return false;
        }
        i = i + 1;
    }
    assert(a@ =~= b@);
    true
}

} // verus!
