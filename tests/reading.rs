use klambda::printer::print_token;
use klambda::reader::read_forms;
use klambda::token::{KlNumber, KlToken};

fn read(src: &str) -> Result<Vec<KlToken>, usize> {
    let chars: Vec<char> = src.chars().collect();
    read_forms(&chars)
}

fn items(t: &KlToken) -> &Vec<KlToken> {
    match t {
        KlToken::Cons(v) => v,
        _ => panic!("not a list"),
    }
}

fn symbol(t: &KlToken) -> &str {
    match t {
        KlToken::Symbol(s) => s.as_str(),
        _ => panic!("not a symbol"),
    }
}

#[test]
fn reads_nested_lists_and_atoms() {
    let forms = read("(defun f (x) (+ x 1))").unwrap();
    assert_eq!(forms.len(), 1);
    let top = items(&forms[0]);
    assert_eq!(top.len(), 4);
    assert_eq!(symbol(&top[0]), "defun");
    assert_eq!(symbol(&top[1]), "f");
    assert_eq!(items(&top[2]).len(), 1);
    let body = items(&top[3]);
    assert_eq!(symbol(&body[0]), "__Plus__");
    assert!(matches!(body[2], KlToken::Number(KlNumber::Int(1))));
}

#[test]
fn top_level_strings_are_dropped() {
    let forms = read("\"a comment\" (a) \"another\" (b)").unwrap();
    assert_eq!(forms.len(), 2);
}

#[test]
fn numbers_int_float_and_sign() {
    let forms = read("(-5 +7 3.25 -0.5 - 1.)").unwrap();
    let v = items(&forms[0]);
    assert!(matches!(v[0], KlToken::Number(KlNumber::Int(-5))));
    assert!(matches!(v[1], KlToken::Number(KlNumber::Int(7))));
    match &v[2] {
        KlToken::Number(KlNumber::Float(f)) => {
            assert!(!f.negative);
            assert_eq!(f.whole, vec![3]);
            assert_eq!(f.fraction, vec![2, 5]);
        }
        _ => panic!("expected a float"),
    }
    match &v[3] {
        KlToken::Number(KlNumber::Float(f)) => assert!(f.negative),
        _ => panic!("expected a float"),
    }
    assert_eq!(symbol(&v[4]), "__Dash__");
    assert!(matches!(v[5], KlToken::Number(KlNumber::Int(1))));
    assert_eq!(symbol(&v[6]), "__Dot__");
}

#[test]
fn extreme_integers() {
    let forms = read("(9223372036854775807 -9223372036854775808)").unwrap();
    let v = items(&forms[0]);
    assert!(matches!(v[0], KlToken::Number(KlNumber::Int(i64::MAX))));
    assert!(matches!(v[1], KlToken::Number(KlNumber::Int(i64::MIN))));
    assert_eq!(read("(9223372036854775808)").err(), Some(1));
}

#[test]
fn string_escapes_are_decoded() {
    let forms = read("(\"a\\\"b\\\\c\\nd\")").unwrap();
    match &items(&forms[0])[0] {
        KlToken::String(s) => assert_eq!(s, "a\"b\\c\nd"),
        _ => panic!("expected a string"),
    }
}

#[test]
fn malformed_input_reports_its_offset() {
    assert_eq!(read("(a b").err(), Some(4));
    assert_eq!(read("  )").err(), Some(2));
    assert_eq!(read("(a \"unterminated)").err(), Some(17));
    assert_eq!(read("(a [b])").err(), Some(3));
    assert_eq!(read("x").err(), Some(0));
}

#[test]
fn empty_input_has_no_forms() {
    assert_eq!(read("").unwrap().len(), 0);
    assert_eq!(read("  \n\t ").unwrap().len(), 0);
}

#[test]
fn printing_then_reading_gives_the_form_back() {
    let src = "(defun n->s (x y) (cons \"q\\\"uote\" (if (= x -12) 3.5 (foo-bar? y))))";
    let forms = read(src).unwrap();
    let printed = print_token(&forms[0]);
    assert_eq!(printed, "(defun n->s (x y) (cons \"q\\\"uote\" (if (= x -12) 3.5 (foo-bar? y))))");
    let again = read(&printed).unwrap();
    assert_eq!(print_token(&again[0]), printed);
    assert_eq!(again.len(), 1);
}
