//! Symbol sanitisation: reserved words and special characters of a symbol
//! are rewritten into safe identifiers, and read back by the inverse tables.
use vstd::prelude::*;
use vstd::string::StringExecFns;
use crate::text::{chars_of, push_char, slice_equals, string_of};

verus! {

/// How many reserved words the keyword table holds.
pub const RESERVED_WORDS: usize = 52;

/// The mnemonic name of a special character, if it has one.
pub open spec fn char_name(c: char) -> Option<Seq<char>> {
    if c == '=' {
        Some("Equal"@)
    } else if c == '-' {
        Some("Dash"@)
    } else if c == '*' {
        Some("Star"@)
    } else if c == '/' {
        Some("Slash"@)
    } else if c == '+' {
        Some("Plus"@)
    } else if c == '?' {
        Some("Question"@)
    } else if c == '$' {
        Some("Dollar"@)
    } else if c == '!' {
        Some("Bang"@)
    } else if c == '@' {
        Some("At"@)
    } else if c == '~' {
        Some("Tilde"@)
    } else if c == '.' {
        Some("Dot"@)
    } else if c == '>' {
        Some("GT"@)
    } else if c == '<' {
        Some("LT"@)
    } else if c == '&' {
        Some("And"@)
    } else if c == '%' {
        Some("Percent"@)
    } else if c == '\'' {
        Some("Tick"@)
    } else if c == '#' {
        Some("Hash"@)
    } else if c == '`' {
        Some("BackTick"@)
    } else if c == ';' {
        Some("Semi"@)
    } else if c == ':' {
        Some("Colon"@)
    } else if c == '{' {
        Some("CurlyL"@)
    } else if c == '}' {
        Some("CurlyR"@)
    } else {
        None
    }
}

/// The special character whose mnemonic name is `n`, if any.
pub open spec fn name_char(n: Seq<char>) -> Option<char> {
    if n == "Equal"@ {
        Some('=')
    } else if n == "Dash"@ {
        Some('-')
    } else if n == "Star"@ {
        Some('*')
    } else if n == "Slash"@ {
        Some('/')
    } else if n == "Plus"@ {
        Some('+')
    } else if n == "Question"@ {
        Some('?')
    } else if n == "Dollar"@ {
        Some('$')
    } else if n == "Bang"@ {
        Some('!')
    } else if n == "At"@ {
        Some('@')
    } else if n == "Tilde"@ {
        Some('~')
    } else if n == "Dot"@ {
        Some('.')
    } else if n == "GT"@ {
        Some('>')
    } else if n == "LT"@ {
        Some('<')
    } else if n == "And"@ {
        Some('&')
    } else if n == "Percent"@ {
        Some('%')
    } else if n == "Tick"@ {
        Some('\'')
    } else if n == "Hash"@ {
        Some('#')
    } else if n == "BackTick"@ {
        Some('`')
    } else if n == "Semi"@ {
        Some(';')
    } else if n == "Colon"@ {
        Some(':')
    } else if n == "CurlyL"@ {
        Some('{')
    } else if n == "CurlyR"@ {
        Some('}')
    } else {
        None
    }
}

/// The `i`-th reserved word of the target language.
pub open spec fn reserved_word(i: int) -> Seq<char> {
    if i == 0 {
        "abstract"@
    } else if i == 1 {
        "alignof"@
    } else if i == 2 {
        "as"@
    } else if i == 3 {
        "become"@
    } else if i == 4 {
        "box"@
    } else if i == 5 {
        "break"@
    } else if i == 6 {
        "const"@
    } else if i == 7 {
        "continue"@
    } else if i == 8 {
        "crate"@
    } else if i == 9 {
        "do"@
    } else if i == 10 {
        "else"@
    } else if i == 11 {
        "enum"@
    } else if i == 12 {
        "extern"@
    } else if i == 13 {
        "false"@
    } else if i == 14 {
        "final"@
    } else if i == 15 {
        "fn"@
    } else if i == 16 {
        "for"@
    } else if i == 17 {
        "if"@
    } else if i == 18 {
        "impl"@
    } else if i == 19 {
        "in"@
    } else if i == 20 {
        "let"@
    } else if i == 21 {
        "loop"@
    } else if i == 22 {
        "macro"@
    } else if i == 23 {
        "match"@
    } else if i == 24 {
        "mod"@
    } else if i == 25 {
        "move"@
    } else if i == 26 {
        "mut"@
    } else if i == 27 {
        "offsetof"@
    } else if i == 28 {
        "override"@
    } else if i == 29 {
        "priv"@
    } else if i == 30 {
        "proc"@
    } else if i == 31 {
        "pub"@
    } else if i == 32 {
        "pure"@
    } else if i == 33 {
        "ref"@
    } else if i == 34 {
        "return"@
    } else if i == 35 {
        "Self"@
    } else if i == 36 {
        "self"@
    } else if i == 37 {
        "sizeof"@
    } else if i == 38 {
        "static"@
    } else if i == 39 {
        "struct"@
    } else if i == 40 {
        "super"@
    } else if i == 41 {
        "trait"@
    } else if i == 42 {
        "true"@
    } else if i == 43 {
        "type"@
    } else if i == 44 {
        "typeof"@
    } else if i == 45 {
        "unsafe"@
    } else if i == 46 {
        "unsized"@
    } else if i == 47 {
        "use"@
    } else if i == 48 {
        "virtual"@
    } else if i == 49 {
        "where"@
    } else if i == 50 {
        "while"@
    } else {
        "yield"@
    }
}

/// The mnemonic name of a special character, if it has one.
pub fn char_name_of(c: char) -> (r: Option<&'static str>)
    ensures
        r matches Some(s) ==> char_name(c) == Some(s@),
        r is None <==> char_name(c) is None,
{
    match c {
        '=' => Some("Equal"),
        '-' => Some("Dash"),
        '*' => Some("Star"),
        '/' => Some("Slash"),
        '+' => Some("Plus"),
        '?' => Some("Question"),
        '$' => Some("Dollar"),
        '!' => Some("Bang"),
        '@' => Some("At"),
        '~' => Some("Tilde"),
        '.' => Some("Dot"),
        '>' => Some("GT"),
        '<' => Some("LT"),
        '&' => Some("And"),
        '%' => Some("Percent"),
        '\'' => Some("Tick"),
        '#' => Some("Hash"),
        '`' => Some("BackTick"),
        ';' => Some("Semi"),
        ':' => Some("Colon"),
        '{' => Some("CurlyL"),
        '}' => Some("CurlyR"),
        _ => None,
    }
}

/// The special character whose mnemonic name is `v[from..to]`, if any.
pub fn name_char_of(v: &Vec<char>, from: usize, to: usize) -> (r: Option<char>)
    requires
        from <= to <= v@.len(),
    ensures
        r == name_char(v@.subrange(from as int, to as int)),
{
    if slice_equals(v, from, to, "Equal") {
        Some('=')
    } else if slice_equals(v, from, to, "Dash") {
        Some('-')
    } else if slice_equals(v, from, to, "Star") {
        Some('*')
    } else if slice_equals(v, from, to, "Slash") {
        Some('/')
    } else if slice_equals(v, from, to, "Plus") {
        Some('+')
    } else if slice_equals(v, from, to, "Question") {
        Some('?')
    } else if slice_equals(v, from, to, "Dollar") {
        Some('$')
    } else if slice_equals(v, from, to, "Bang") {
        Some('!')
    } else if slice_equals(v, from, to, "At") {
        Some('@')
    } else if slice_equals(v, from, to, "Tilde") {
        Some('~')
    } else if slice_equals(v, from, to, "Dot") {
        Some('.')
    } else if slice_equals(v, from, to, "GT") {
        Some('>')
    } else if slice_equals(v, from, to, "LT") {
        Some('<')
    } else if slice_equals(v, from, to, "And") {
        Some('&')
    } else if slice_equals(v, from, to, "Percent") {
        Some('%')
    } else if slice_equals(v, from, to, "Tick") {
        Some('\'')
    } else if slice_equals(v, from, to, "Hash") {
        Some('#')
    } else if slice_equals(v, from, to, "BackTick") {
        Some('`')
    } else if slice_equals(v, from, to, "Semi") {
        Some(';')
    } else if slice_equals(v, from, to, "Colon") {
        Some(':')
    } else if slice_equals(v, from, to, "CurlyL") {
        Some('{')
    } else if slice_equals(v, from, to, "CurlyR") {
        Some('}')
    } else {
        None
    }
}

/// The `i`-th reserved word of the target language.
fn reserved_word_of(i: usize) -> (r: &'static str)
    requires
        i < RESERVED_WORDS,
    ensures
        r@ == reserved_word(i as int),
{
    match i {
        0 => "abstract",
        1 => "alignof",
        2 => "as",
        3 => "become",
        4 => "box",
        5 => "break",
        6 => "const",
        7 => "continue",
        8 => "crate",
        9 => "do",
        10 => "else",
        11 => "enum",
        12 => "extern",
        13 => "false",
        14 => "final",
        15 => "fn",
        16 => "for",
        17 => "if",
        18 => "impl",
        19 => "in",
        20 => "let",
        21 => "loop",
        22 => "macro",
        23 => "match",
        24 => "mod",
        25 => "move",
        26 => "mut",
        27 => "offsetof",
        28 => "override",
        29 => "priv",
        30 => "proc",
        31 => "pub",
        32 => "pure",
        33 => "ref",
        34 => "return",
        35 => "Self",
        36 => "self",
        37 => "sizeof",
        38 => "static",
        39 => "struct",
        40 => "super",
        41 => "trait",
        42 => "true",
        43 => "type",
        44 => "typeof",
        45 => "unsafe",
        46 => "unsized",
        47 => "use",
        48 => "virtual",
        49 => "where",
        50 => "while",
        _ => "yield",
    }
}
/// ASCII letters: the characters of mnemonic names and reserved words.
pub open spec fn is_letter(c: char) -> bool {
    ('a' <= c && c <= 'z') || ('A' <= c && c <= 'Z')
}

pub open spec fn all_letters(s: Seq<char>) -> bool {
    forall|i: int| 0 <= i < s.len() ==> is_letter(#[trigger] s[i])
}

/// A reserved word of the target language (one of the table, all letters).
pub open spec fn is_reserved(s: Seq<char>) -> bool {
    &&& s.len() > 0
    &&& all_letters(s)
    &&& exists|i: int| 0 <= i < RESERVED_WORDS && reserved_word(i) == s
}

/// The prefix that turns a reserved word into a safe identifier.
pub open spec fn alias_prefix() -> Seq<char> {
    seq!['s', 'h', 'e', 'n', '_']
}

pub open spec fn double_underscore() -> Seq<char> {
    seq!['_', '_']
}

/// What one character of a symbol becomes: its mnemonic between double
/// underscores, or itself.
pub open spec fn rename_char(c: char) -> Seq<char> {
    match char_name(c) {
        Some(n) => double_underscore() + n + double_underscore(),
        None => seq![c],
    }
}

pub open spec fn rename_chars(s: Seq<char>) -> Seq<char>
    decreases s.len(),
{
    if s.len() == 0 {
        Seq::empty()
    } else {
        rename_char(s[0]) + rename_chars(s.skip(1))
    }
}

/// The sanitised form of a symbol.
pub open spec fn rename(s: Seq<char>) -> Seq<char> {
    if is_reserved(s) {
        alias_prefix() + s
    } else {
        rename_chars(s)
    }
}

/// `t` is the sanitised form of a reserved word.
pub open spec fn is_alias(t: Seq<char>) -> bool {
    t.len() > 5 && t.take(5) == alias_prefix() && is_reserved(t.skip(5))
}

/// How many letters `t` starts with.
pub open spec fn letters_len(t: Seq<char>) -> nat
    decreases t.len(),
{
    if t.len() > 0 && is_letter(t[0]) {
        1 + letters_len(t.skip(1))
    } else {
        0
    }
}

/// The renamed character that `t` starts with, and the length of its mnemonic.
pub open spec fn mnemonic_at(t: Seq<char>) -> Option<(char, int)> {
    if t.len() >= 2 && t[0] == '_' && t[1] == '_' {
        let j = 2 + letters_len(t.skip(2)) as int;
        if j + 2 <= t.len() && t[j] == '_' && t[j + 1] == '_' {
            match name_char(t.subrange(2, j)) {
                Some(c) => Some((c, j + 2)),
                None => None,
            }
        } else {
            None
        }
    } else {
        None
    }
}

/// Reads `t` left to right, turning each mnemonic back into its character.
pub open spec fn unrename_chars(t: Seq<char>) -> Seq<char>
    decreases t.len(),
{
    if t.len() == 0 {
        Seq::empty()
    } else {
        match mnemonic_at(t) {
            Some((c, k)) => if 0 < k <= t.len() {
                seq![c] + unrename_chars(t.skip(k))
            } else {
                seq![t[0]] + unrename_chars(t.skip(1))
            },
            None => seq![t[0]] + unrename_chars(t.skip(1)),
        }
    }
}

/// The printed form of a sanitised symbol.
pub open spec fn unrename(t: Seq<char>) -> Seq<char> {
    if is_alias(t) {
        t.skip(5)
    } else {
        unrename_chars(t)
    }
}

/// Whether the sanitised form of `u` starts with two underscores.
pub open spec fn renders_double_underscore(u: Seq<char>) -> bool {
    u.len() > 0 && (char_name(u[0]) is Some || (u[0] == '_' && u.len() > 1 && (u[1] == '_'
        || char_name(u[1]) is Some)))
}

/// `s` starts with text that the reverse reading takes for a mnemonic: two
/// underscores, a mnemonic name, and then what renders as two underscores.
pub open spec fn mnemonic_lookalike(s: Seq<char>) -> bool {
    let l = letters_len(s.skip(2)) as int;
    &&& s.len() >= 2
    &&& s[0] == '_'
    &&& s[1] == '_'
    &&& name_char(s.subrange(2, 2 + l)) is Some
    &&& renders_double_underscore(s.skip(2 + l))
}

pub open spec fn free_of_lookalikes(s: Seq<char>) -> bool {
    forall|i: int| 0 <= i < s.len() ==> !mnemonic_lookalike(#[trigger] s.skip(i))
}

pub fn is_letter_char(c: char) -> (r: bool)
    ensures
        r == is_letter(c),
{
    ('a' <= c && c <= 'z') || ('A' <= c && c <= 'Z')
}

/// Whether `v` is a reserved word.
fn is_reserved_chars(v: &Vec<char>) -> (r: bool)
    ensures
        r == is_reserved(v@),
{
    if v.len() == 0 {
        return false;
    }
    let mut i: usize = 0;
    while i < v.len()
        invariant
            i <= v.len(),
            forall|k: int| 0 <= k < i ==> is_letter(#[trigger] v@[k]),
        decreases v.len() - i,
    {
        if !is_letter_char(v[i]) {
            return false;
        }
        i = i + 1;
    }
    let mut w: usize = 0;
    while w < RESERVED_WORDS
        invariant
            w <= RESERVED_WORDS,
            v@.len() > 0,
            forall|k: int| 0 <= k < v@.len() ==> is_letter(#[trigger] v@[k]),
            forall|k: int| 0 <= k < w ==> reserved_word(k) != v@,
        decreases RESERVED_WORDS - w,
    {
        let word = reserved_word_of(w);
        if slice_equals(v, 0, v.len(), word) {
            assert(v@.subrange(0, v@.len() as int) == v@);
            assert(reserved_word(w as int) == v@);
            assert(all_letters(v@));
            return true;
        }
        assert(v@.subrange(0, v@.len() as int) == v@);
        w = w + 1;
    }
    false
}

proof fn lemma_rename_chars_append(a: Seq<char>, b: Seq<char>)
    ensures
        rename_chars(a + b) == rename_chars(a) + rename_chars(b),
    decreases a.len(),
{
    if a.len() == 0 {
        assert(a + b == b);
    } else {
        assert((a + b).skip(1) == a.skip(1) + b);
        lemma_rename_chars_append(a.skip(1), b);
    }
}

/// Sanitises a symbol: a reserved word gets the `shen_` prefix, and otherwise
/// each special character becomes its mnemonic.
pub fn shen_rename_symbol(symbol: String) -> (r: String)
    ensures
        r@ == rename(symbol@),
{
    let cs = chars_of(symbol.as_str());
    if is_reserved_chars(&cs) {
        let mut r = String::from_str("shen_");
        r.append(symbol.as_str());
        proof {
            reveal_strlit("shen_");
        }
        return r;
    }
    let mut r = String::new();
    let mut i: usize = 0;
    while i < cs.len()
        invariant
            i <= cs.len(),
            r@ == rename_chars(cs@.take(i as int)),
        decreases cs.len() - i,
    {
        let c = cs[i];
        match char_name_of(c) {
            Some(n) => {
                r.append("__");
                r.append(n);
                r.append("__");
                proof {
                    reveal_strlit("__");
                }
            },
            None => push_char(&mut r, c),
        }
        proof {
            let s = cs@;
            assert(s.take(i as int + 1) == s.take(i as int) + seq![c]);
            lemma_rename_chars_append(s.take(i as int), seq![c]);
            assert(seq![c].skip(1) == Seq::<char>::empty());
            assert(rename_chars(seq![c]) == rename_char(c) + rename_chars(Seq::<char>::empty()));
            assert(rename_chars(seq![c]) == rename_char(c));
        }
        i = i + 1;
    }
    assert(cs@.take(cs.len() as int) == cs@);
    r
}


/// The name table and the character table are inverse, and every name is a
/// non-empty run of letters.
proof fn lemma_name_tables(c: char)
    ensures
        char_name(c) matches Some(n) ==> n.len() > 0 && all_letters(n) && name_char(n) == Some(c),
{
    reveal_strlit("Equal");
    reveal_strlit("Dash");
    reveal_strlit("Star");
    reveal_strlit("Slash");
    reveal_strlit("Plus");
    reveal_strlit("Question");
    reveal_strlit("Dollar");
    reveal_strlit("Bang");
    reveal_strlit("At");
    reveal_strlit("Tilde");
    reveal_strlit("Dot");
    reveal_strlit("GT");
    reveal_strlit("LT");
    reveal_strlit("And");
    reveal_strlit("Percent");
    reveal_strlit("Tick");
    reveal_strlit("Hash");
    reveal_strlit("BackTick");
    reveal_strlit("Semi");
    reveal_strlit("Colon");
    reveal_strlit("CurlyL");
    reveal_strlit("CurlyR");
    if c == '=' {
        reveal_strlit("Equal");
        assert("Equal"@ =~= seq!['E', 'q', 'u', 'a', 'l']);
    }
    if c == '-' {
        reveal_strlit("Dash");
        assert("Dash"@ =~= seq!['D', 'a', 's', 'h']);
    }
    if c == '*' {
        reveal_strlit("Star");
        assert("Star"@ =~= seq!['S', 't', 'a', 'r']);
    }
    if c == '/' {
        reveal_strlit("Slash");
        assert("Slash"@ =~= seq!['S', 'l', 'a', 's', 'h']);
    }
    if c == '+' {
        reveal_strlit("Plus");
        assert("Plus"@ =~= seq!['P', 'l', 'u', 's']);
    }
    if c == '?' {
        reveal_strlit("Question");
        assert("Question"@ =~= seq!['Q', 'u', 'e', 's', 't', 'i', 'o', 'n']);
    }
    if c == '$' {
        reveal_strlit("Dollar");
        assert("Dollar"@ =~= seq!['D', 'o', 'l', 'l', 'a', 'r']);
    }
    if c == '!' {
        reveal_strlit("Bang");
        assert("Bang"@ =~= seq!['B', 'a', 'n', 'g']);
    }
    if c == '@' {
        reveal_strlit("At");
        assert("At"@ =~= seq!['A', 't']);
    }
    if c == '~' {
        reveal_strlit("Tilde");
        assert("Tilde"@ =~= seq!['T', 'i', 'l', 'd', 'e']);
    }
    if c == '.' {
        reveal_strlit("Dot");
        assert("Dot"@ =~= seq!['D', 'o', 't']);
    }
    if c == '>' {
        reveal_strlit("GT");
        assert("GT"@ =~= seq!['G', 'T']);
    }
    if c == '<' {
        reveal_strlit("LT");
        assert("LT"@ =~= seq!['L', 'T']);
    }
    if c == '&' {
        reveal_strlit("And");
        assert("And"@ =~= seq!['A', 'n', 'd']);
    }
    if c == '%' {
        reveal_strlit("Percent");
        assert("Percent"@ =~= seq!['P', 'e', 'r', 'c', 'e', 'n', 't']);
    }
    if c == '\'' {
        reveal_strlit("Tick");
        assert("Tick"@ =~= seq!['T', 'i', 'c', 'k']);
    }
    if c == '#' {
        reveal_strlit("Hash");
        assert("Hash"@ =~= seq!['H', 'a', 's', 'h']);
    }
    if c == '`' {
        reveal_strlit("BackTick");
        assert("BackTick"@ =~= seq!['B', 'a', 'c', 'k', 'T', 'i', 'c', 'k']);
    }
    if c == ';' {
        reveal_strlit("Semi");
        assert("Semi"@ =~= seq!['S', 'e', 'm', 'i']);
    }
    if c == ':' {
        reveal_strlit("Colon");
        assert("Colon"@ =~= seq!['C', 'o', 'l', 'o', 'n']);
    }
    if c == '{' {
        reveal_strlit("CurlyL");
        assert("CurlyL"@ =~= seq!['C', 'u', 'r', 'l', 'y', 'L']);
    }
    if c == '}' {
        reveal_strlit("CurlyR");
        assert("CurlyR"@ =~= seq!['C', 'u', 'r', 'l', 'y', 'R']);
    }
}

proof fn lemma_names_nonempty(n: Seq<char>)
    ensures
        name_char(n) is Some ==> n.len() > 0,
{
    reveal_strlit("Equal");
    reveal_strlit("Dash");
    reveal_strlit("Star");
    reveal_strlit("Slash");
    reveal_strlit("Plus");
    reveal_strlit("Question");
    reveal_strlit("Dollar");
    reveal_strlit("Bang");
    reveal_strlit("At");
    reveal_strlit("Tilde");
    reveal_strlit("Dot");
    reveal_strlit("GT");
    reveal_strlit("LT");
    reveal_strlit("And");
    reveal_strlit("Percent");
    reveal_strlit("Tick");
    reveal_strlit("Hash");
    reveal_strlit("BackTick");
    reveal_strlit("Semi");
    reveal_strlit("Colon");
    reveal_strlit("CurlyL");
    reveal_strlit("CurlyR");
}

/// The renamed character at the start of `v[i..]`, and its mnemonic's length.
fn mnemonic_at_chars(v: &Vec<char>, i: usize) -> (r: Option<(char, usize)>)
    requires
        i <= v@.len(),
    ensures
        r matches Some((c, k)) ==> mnemonic_at(v@.skip(i as int)) == Some((c, k as int)),
        r is None <==> mnemonic_at(v@.skip(i as int)) is None,
{
    let ghost t = v@.skip(i as int);
    if v.len() - i >= 2 && v[i] == '_' && v[i + 1] == '_' {
        let mut j: usize = i + 2;
        assert(t.skip(2) == v@.skip(i + 2));
        while j < v.len() && is_letter_char(v[j])
            invariant
                i + 2 <= j <= v@.len(),
                letters_len(v@.skip(i + 2)) == (j - (i + 2)) + letters_len(v@.skip(j as int)),
            decreases v.len() - j,
        {
            assert(v@.skip(j as int).skip(1) == v@.skip(j + 1));
            j = j + 1;
        }
        assert(letters_len(v@.skip(j as int)) == 0);
        let ghost jj = 2 + letters_len(t.skip(2)) as int;
        assert(jj == j - i);
        if v.len() - j >= 2 && v[j] == '_' && v[j + 1] == '_' {
            assert(t.subrange(2, jj) == v@.subrange(i + 2, j as int));
            match name_char_of(v, i + 2, j) {
                Some(c) => Some((c, j + 2 - i)),
                None => None,
            }
        } else {
            None
        }
    } else {
        None
    }
}

/// Turns a sanitised symbol back into its printed form.
pub fn shen_unrename_symbol(s: String) -> (r: String)
    ensures
        r@ == unrename(s@),
{
    let cs = chars_of(s.as_str());
    if cs.len() > 5 && slice_equals(&cs, 0, 5, "shen_") {
        let word = string_of(&cs, 5, cs.len());
        let ws = chars_of(word.as_str());
        proof {
            reveal_strlit("shen_");
            assert(cs@.take(5) == cs@.subrange(0, 5));
            assert(alias_prefix() =~= "shen_"@);
            assert(ws@ =~= cs@.skip(5));
        }
        if is_reserved_chars(&ws) {
            return word;
        }
    }
    proof {
        reveal_strlit("shen_");
        assert(alias_prefix() =~= "shen_"@);
        if cs@.len() > 5 {
            assert(cs@.take(5) == cs@.subrange(0, 5));
        }
    }
    let mut out = String::new();
    let mut i: usize = 0;
    assert(cs@.skip(0) == cs@);
    while i < cs.len()
        invariant
            i <= cs@.len(),
            out@ + unrename_chars(cs@.skip(i as int)) == unrename_chars(cs@),
        decreases cs.len() - i,
    {
        let ghost t = cs@.skip(i as int);
        match mnemonic_at_chars(&cs, i) {
            Some((c, k)) => {
                push_char(&mut out, c);
                proof {
                    assert(t.skip(k as int) == cs@.skip(i + k));
                    assert(out@ + unrename_chars(cs@.skip(i + k)) == unrename_chars(cs@));
                }
                i = i + k;
            },
            None => {
                push_char(&mut out, cs[i]);
                proof {
                    assert(t.skip(1) == cs@.skip(i + 1));
                }
                i = i + 1;
            },
        }
    }
    assert(out@ + unrename_chars(cs@.skip(cs.len() as int)) == out@ + Seq::<char>::empty());
    assert(out@ + Seq::<char>::empty() == out@);
    out
}

proof fn lemma_rename_first(v: Seq<char>)
    ensures
        v.len() == 0 ==> rename_chars(v).len() == 0,
        v.len() > 0 ==> rename_chars(v).len() > 0 && rename_chars(v)[0] == (if char_name(
            v[0],
        ) is Some {
            '_'
        } else {
            v[0]
        }),
        v.len() > 0 ==> rename_chars(v) == rename_char(v[0]) + rename_chars(v.skip(1)),
{
    if v.len() > 0 {
        let r = rename_char(v[0]);
        assert(r.len() > 0);
        assert((r + rename_chars(v.skip(1)))[0] == r[0]);
    }
}

proof fn lemma_renders_double_underscore(u: Seq<char>)
    ensures
        renders_double_underscore(u) <==> (rename_chars(u).len() >= 2 && rename_chars(u)[0] == '_'
            && rename_chars(u)[1] == '_'),
{
    lemma_rename_first(u);
    if u.len() > 0 {
        let r = rename_chars(u.skip(1));
        lemma_rename_first(u.skip(1));
        match char_name(u[0]) {
            Some(n) => {
                assert(rename_chars(u)[1] == '_');
            },
            None => {
                if u[0] == '_' {
                    assert(rename_chars(u) == seq!['_'] + r);
                    if u.len() > 1 {
                        assert(u.skip(1)[0] == u[1]);
                        assert((seq!['_'] + r)[1] == r[0]);
                    } else {
                        assert(r.len() == 0);
                    }
                }
            },
        }
    }
}

proof fn lemma_letters_then(n: Seq<char>, w: Seq<char>)
    requires
        all_letters(n),
    ensures
        letters_len(n + w) == n.len() + letters_len(w),
    decreases n.len(),
{
    if n.len() > 0 {
        assert(is_letter(n[0]));
        assert((n + w)[0] == n[0]);
        assert((n + w).skip(1) == n.skip(1) + w);
        lemma_letters_then(n.skip(1), w);
    } else {
        assert(n + w == w);
    }
}

proof fn lemma_rename_letters(u: Seq<char>)
    ensures
        letters_len(u) <= u.len(),
        letters_len(rename_chars(u)) == letters_len(u),
        rename_chars(u).take(letters_len(u) as int) == u.take(letters_len(u) as int),
        rename_chars(u).skip(letters_len(u) as int) == rename_chars(u.skip(letters_len(u) as int)),
    decreases u.len(),
{
    lemma_rename_first(u);
    let l = letters_len(u) as int;
    if u.len() > 0 && is_letter(u[0]) {
        let r = rename_chars(u.skip(1));
        lemma_rename_letters(u.skip(1));
        lemma_rename_len(u.skip(1));
        assert(l == 1 + letters_len(u.skip(1)));
        assert(char_name(u[0]) is None);
        assert(rename_chars(u) == seq![u[0]] + r);
        assert((seq![u[0]] + r).skip(1) == r);
        assert(rename_chars(u).skip(l) =~= r.skip(l - 1));
        assert(u.skip(1).skip(l - 1) =~= u.skip(l));
        assert(rename_chars(u).take(l) =~= seq![u[0]] + r.take(l - 1));
        assert(u.take(l) =~= seq![u[0]] + u.skip(1).take(l - 1));
    } else {
        assert(rename_chars(u).take(0) == u.take(0));
        assert(u.skip(0) == u);
        assert(rename_chars(u).skip(0) == rename_chars(u));
    }
}

proof fn lemma_free_skip(s: Seq<char>)
    requires
        free_of_lookalikes(s),
        s.len() > 0,
    ensures
        free_of_lookalikes(s.skip(1)),
        !mnemonic_lookalike(s),
{
    assert(s.skip(0) == s);
    assert forall|i: int| 0 <= i < s.skip(1).len() implies !mnemonic_lookalike(
        #[trigger] s.skip(1).skip(i),
    ) by {
        assert(s.skip(1).skip(i) == s.skip(i + 1));
    }
}

proof fn lemma_rename_len(s: Seq<char>)
    ensures
        rename_chars(s).len() >= s.len(),
    decreases s.len(),
{
    if s.len() > 0 {
        lemma_rename_first(s);
        lemma_rename_len(s.skip(1));
    }
}

/// A renamed special character is read back from the front of the text.
proof fn lemma_read_special(s: Seq<char>)
    requires
        s.len() > 0,
        char_name(s[0]) is Some,
    ensures
        unrename_chars(rename_chars(s)) == seq![s[0]] + unrename_chars(rename_chars(s.skip(1))),
{
    lemma_rename_first(s);
    let t = rename_chars(s);
    let r = rename_chars(s.skip(1));
    let du = double_underscore();
    let n = char_name(s[0])->0;
    lemma_name_tables(s[0]);
    assert(t == du + n + du + r);
    assert(t.skip(2) =~= n + (du + r));
    lemma_letters_then(n, du + r);
    assert(letters_len(du + r) == 0);
    let j = 2 + n.len() as int;
    assert(t[j] == '_' && t[j + 1] == '_');
    assert(t.subrange(2, j) =~= n);
    assert(mnemonic_at(t) == Some((s[0], j + 2)));
    assert(t.skip(j + 2) =~= r);
}

/// An underscore is never taken for the start of a mnemonic, unless it
/// starts a lookalike.
proof fn lemma_read_underscore(s: Seq<char>)
    requires
        s.len() > 0,
        s[0] == '_',
        !mnemonic_lookalike(s),
    ensures
        mnemonic_at(rename_chars(s)) is None,
{
    lemma_rename_first(s);
    let t = rename_chars(s);
    let r = rename_chars(s.skip(1));
    assert(t =~= seq![s[0]] + r);
    if t.len() >= 2 && t[1] == '_' {
        lemma_rename_first(s.skip(1));
        assert(r[0] == t[1]);
        assert(s.skip(1)[0] == s[1]);
        if char_name(s[1]) is Some {
            lemma_name_tables(s[1]);
            assert(r.len() >= 2 && r[1] == '_');
            assert(t.skip(2)[0] == r[1]);
            assert(letters_len(t.skip(2)) == 0);
            lemma_names_nonempty(t.subrange(2, 2));
        } else {
            assert(s[1] == '_');
            let s2 = s.skip(2);
            assert(s.skip(1).skip(1) =~= s2);
            assert(r =~= seq!['_'] + rename_chars(s2));
            assert(t.skip(2) =~= rename_chars(s2));
            lemma_rename_letters(s2);
            lemma_rename_letters(rename_chars(s2));
            let l = letters_len(s2) as int;
            assert(t.subrange(2, 2 + l) =~= rename_chars(s2).take(l));
            assert(s.subrange(2, 2 + l) =~= s2.take(l));
            assert(s.skip(2 + l) =~= s2.skip(l));
            lemma_renders_double_underscore(s2.skip(l));
            assert(t.skip(2 + l) =~= rename_chars(s2.skip(l)));
            if 2 + l + 2 <= t.len() {
                assert(t[2 + l] == t.skip(2 + l)[0]);
                assert(t[2 + l + 1] == t.skip(2 + l)[1]);
            }
        }
    }
}

proof fn lemma_unrename_rename_chars(s: Seq<char>)
    requires
        free_of_lookalikes(s),
    ensures
        unrename_chars(rename_chars(s)) == s,
    decreases s.len(),
{
    if s.len() == 0 {
        return;
    }
    lemma_rename_first(s);
    lemma_free_skip(s);
    let t = rename_chars(s);
    let r = rename_chars(s.skip(1));
    lemma_unrename_rename_chars(s.skip(1));
    if char_name(s[0]) is Some {
        lemma_read_special(s);
    } else {
        assert(t =~= seq![s[0]] + r);
        assert(t.skip(1) =~= r);
        if s[0] == '_' {
            lemma_read_underscore(s);
        }
        assert(mnemonic_at(t) is None);
        assert(unrename_chars(t) == seq![s[0]] + unrename_chars(r));
    }
    assert(seq![s[0]] + s.skip(1) =~= s);
}

proof fn lemma_plain_renames_to_itself(s: Seq<char>)
    requires
        forall|i: int| 0 <= i < s.len() ==> char_name(#[trigger] s[i]) is None,
    ensures
        rename_chars(s) == s,
    decreases s.len(),
{
    if s.len() > 0 {
        lemma_rename_first(s);
        assert(char_name(s[0]) is None);
        assert forall|i: int| 0 <= i < s.skip(1).len() implies char_name(
            #[trigger] s.skip(1)[i],
        ) is None by {
            assert(s.skip(1)[i] == s[i + 1]);
        }
        lemma_plain_renames_to_itself(s.skip(1));
        assert(seq![s[0]] + s.skip(1) == s);
    }
}

proof fn lemma_special_gives_double_underscore(s: Seq<char>, k: int)
    requires
        0 <= k < s.len(),
        char_name(s[k]) is Some,
    ensures
        exists|i: int|
            0 <= i && i + 1 < rename_chars(s).len() && #[trigger] rename_chars(s)[i] == '_'
                && rename_chars(s)[i + 1] == '_',
    decreases s.len(),
{
    lemma_rename_first(s);
    let r = rename_chars(s.skip(1));
    let b = rename_char(s[0]);
    if k == 0 {
        let n = char_name(s[0])->0;
        assert(rename_chars(s)[0] == '_' && rename_chars(s)[1] == '_');
    } else {
        assert(s.skip(1)[k - 1] == s[k]);
        lemma_special_gives_double_underscore(s.skip(1), k - 1);
        let i = choose|i: int|
            0 <= i && i + 1 < r.len() && #[trigger] r[i] == '_' && r[i + 1] == '_';
        assert((b + r)[b.len() + i] == r[i]);
        assert((b + r)[b.len() + i + 1] == r[i + 1]);
    }
}

/// Reading back a sanitised symbol gives the symbol itself. Two kinds of
/// symbol are left out because they do not read back: one that already has
/// the form of a renamed reserved word (`shen_if` reads back as `if`), and
/// one holding text that reads as a mnemonic (`__Dash_=` reads back as
/// `-_Equal__`).
pub proof fn lemma_unrename_rename(s: Seq<char>)
    requires
        !is_alias(s),
        free_of_lookalikes(s),
    ensures
        unrename(rename(s)) == s,
{
    if is_reserved(s) {
        let t = alias_prefix() + s;
        assert(t.take(5) == alias_prefix());
        assert(t.skip(5) == s);
    } else {
        let t = rename_chars(s);
        lemma_unrename_rename_chars(s);
        if is_alias(t) {
            let k = t.skip(5);
            if exists|i: int| 0 <= i < s.len() && char_name(#[trigger] s[i]) is Some {
                let j = choose|i: int| 0 <= i < s.len() && char_name(#[trigger] s[i]) is Some;
                lemma_special_gives_double_underscore(s, j);
                let i = choose|i: int|
                    0 <= i && i + 1 < t.len() && #[trigger] t[i] == '_' && t[i + 1] == '_';
                if i < 5 {
                    assert(t[i] == t.take(5)[i]);
                    assert(t[i + 1] == k[0] || t[i + 1] == t.take(5)[i + 1]);
                    assert(t[5] == k[0]);
                    assert(is_letter(k[0]));
                } else {
                    assert(t[i] == k[i - 5]);
                    assert(is_letter(k[i - 5]));
                }
            } else {
                lemma_plain_renames_to_itself(s);
            }
        }
    }
}

} // verus!
