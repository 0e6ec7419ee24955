use klambda::prims::{
    number_op, shen_cn, shen_cons, shen_consp, shen_div, shen_eq_ge, shen_eq_le, shen_error_to_string,
    shen_ge, shen_hd, shen_intern, shen_is_bool, shen_is_thunk, shen_le, shen_mul, shen_n_to_string,
    shen_numberp, shen_plus, shen_pos, shen_simple_error, shen_str, shen_string_to_n, shen_stringp,
    shen_sub, shen_symbol_to_string, shen_tl, shen_tlstr, shen_truth, ArithOp, FloatOperand, NumberResult,
    TestResult,
};
use klambda::runtime::{shen_get_at_address, shen_insert_at_address, shen_set, shen_value, Runtime};
use klambda::token::{FloatLit, KlNumber};
use klambda::value::{KlElement, KlError, KlStdStream, KlStream};

fn num(i: i64) -> KlElement {
    KlElement::Number(KlNumber::Int(i))
}

fn string(s: &str) -> KlElement {
    KlElement::String(s.to_string())
}

fn sym(s: &str) -> KlElement {
    KlElement::Symbol(s.to_string())
}

fn message(r: Result<KlElement, KlError>) -> String {
    match r {
        Err(KlError::ErrorString(m)) => m,
        Ok(_) => panic!("no error"),
    }
}

fn text(r: Result<KlElement, KlError>) -> String {
    match r {
        Ok(KlElement::String(s)) => s,
        _ => panic!("expected a string"),
    }
}

fn symbol_name(e: KlElement) -> String {
    match e {
        KlElement::Symbol(s) => s,
        _ => panic!("expected a symbol"),
    }
}

fn value_int(r: NumberResult) -> i64 {
    match r {
        NumberResult::Value(KlElement::Number(KlNumber::Int(i))) => i,
        _ => panic!("expected an integer"),
    }
}

fn failure(r: NumberResult) -> String {
    match r {
        NumberResult::Failure(KlError::ErrorString(m)) => m,
        _ => panic!("expected an error"),
    }
}

#[test]
fn integer_arithmetic_exact_values() {
    assert_eq!(value_int(shen_plus(&num(40), &num(2))), 42);
    assert_eq!(value_int(shen_sub(&num(40), &num(2))), 38);
    assert_eq!(value_int(shen_mul(&num(-6), &num(7))), -42);
    assert_eq!(value_int(shen_div(&num(-7), &num(2))), -3);
    assert_eq!(value_int(shen_plus(&num(5), &num(0))), 5);
    assert_eq!(value_int(shen_mul(&num(5), &num(1))), 5);
}

#[test]
fn integer_arithmetic_errors() {
    assert_eq!(failure(shen_div(&num(1), &num(0))), "shen_div: dividing would cause overflow.");
    assert_eq!(failure(shen_div(&num(i64::MIN), &num(-1))), "shen_div: dividing would cause overflow.");
    assert_eq!(failure(shen_plus(&num(i64::MAX), &num(1))), "shen_plus: adding would cause overflow.");
    assert_eq!(failure(shen_sub(&num(i64::MIN), &num(1))), "shen_sub: subtracting would cause overflow.");
    assert_eq!(failure(shen_mul(&num(i64::MAX), &num(2))), "shen_mul: multiplying would cause overflow.");
    assert_eq!(failure(shen_plus(&num(1), &sym("a"))), "shen_plus: expecting two numbers.");
}

#[test]
fn a_float_operand_promotes_the_operation() {
    let half = KlElement::Number(KlNumber::Float(FloatLit { negative: false, whole: vec![0], fraction: vec![5] }));
    match number_op(ArithOp::Add, &num(2), &half) {
        NumberResult::Promote(ArithOp::Add, FloatOperand::Int(2), FloatOperand::Float(f)) => {
            assert_eq!(f.fraction, vec![5]);
        }
        _ => panic!("expected a float operation"),
    }
}

#[test]
fn comparisons_on_integers() {
    let t = |r: TestResult| match r {
        TestResult::Value(e) => symbol_name(e),
        _ => panic!("expected a value"),
    };
    assert_eq!(t(shen_ge(&num(3), &num(2))), "shen_true");
    assert_eq!(t(shen_ge(&num(2), &num(2))), "shen_false");
    assert_eq!(t(shen_le(&num(1), &num(2))), "shen_true");
    assert_eq!(t(shen_eq_le(&num(2), &num(2))), "shen_true");
    assert_eq!(t(shen_eq_ge(&num(1), &num(2))), "shen_false");
    match shen_ge(&num(1), &string("x")) {
        TestResult::Failure(KlError::ErrorString(m)) => assert_eq!(m, "shen_ge: expecting two numbers."),
        _ => panic!("expected an error"),
    }
}

#[test]
fn string_primitive_errors() {
    assert_eq!(message(shen_pos(&string("abc"), &num(3))),
        "shen_pos: expecting a number between 0 and the length of the string.");
    assert_eq!(message(shen_pos(&num(1), &num(0))), "shen_pos: expecting a string.");
    assert_eq!(text(shen_pos(&string("héllo"), &num(1))), "é");
    assert_eq!(text(shen_tlstr(&string("étude"))), "tude");
    assert_eq!(message(shen_tlstr(&num(1))), "shen_tlstr: expecting a string.");
    assert_eq!(message(shen_cn(&string("a"), &num(1))), "shen_cn: expecting two strings.");
    assert_eq!(message(shen_intern(&num(1))), "shen_intern: expecting a string.");
    assert_eq!(message(shen_n_to_string(&num(200))), "shen_n_to_string: number is not utf8.");
    assert_eq!(message(shen_n_to_string(&num(300))), "shen_n_to_string: number could not be converted to u8.");
    assert_eq!(message(shen_n_to_string(&string("a"))), "shen_n_to_string: expecting an integer.");
    assert_eq!(message(shen_string_to_n(&string("ab"))), "shen_string_to_n: expecting a unit string.");
    assert_eq!(message(shen_simple_error(&string("boom"))), "boom");
    assert_eq!(message(shen_simple_error(&num(1))), "shen_simple_error: Expecting a string.");
    assert_eq!(text(shen_error_to_string(&string("m"))), "m");
    assert_eq!(message(shen_error_to_string(&num(1))), "shen_error_to_string: expecting a string.");
}

#[test]
fn str_prints_atoms_streams_and_closures() {
    assert_eq!(text(shen_str(&string("s"))), "s");
    assert_eq!(text(shen_str(&num(0))), "0");
    assert_eq!(text(shen_str(&num(i64::MIN))), "-9223372036854775808");
    assert_eq!(text(shen_str(&sym("shen_true"))), "true");
    assert_eq!(text(shen_str(&sym("__Equal__"))), "=");
    let f = KlElement::Number(KlNumber::Float(FloatLit { negative: true, whole: vec![1, 2], fraction: vec![5] }));
    assert_eq!(text(shen_str(&f)), "-12.5");
    assert_eq!(text(shen_str(&KlElement::Stream(KlStream::Std(KlStdStream::Stdout)))), "<stdout>");
    assert_eq!(text(shen_str(&KlElement::Stream(KlStream::Std(KlStdStream::Stdin)))), "<stdin>");
    assert_eq!(text(shen_str(&KlElement::Stream(KlStream::FileStream(3, klambda::value::KlStreamDirection::In)))),
        "<file stream>");
    assert_eq!(message(shen_str(&KlElement::Cons(Vec::new()))),
        "Not an atom, stream or closure; str cannot convert it to a string.");
}

#[test]
fn list_primitives_and_errors() {
    match shen_cons(&num(1), &KlElement::Cons(vec![num(2)])) {
        Ok(KlElement::Cons(v)) => assert_eq!(v.len(), 2),
        _ => panic!("expected a list"),
    }
    assert_eq!(message(shen_cons(&num(1), &num(2))), "shen_cons: Expecting a list.");
    assert!(matches!(shen_hd(&KlElement::Cons(Vec::new())), Ok(KlElement::Nil)));
    assert_eq!(message(shen_hd(&num(1))), "shen_hd: Expecting a list");
    match shen_tl(&KlElement::Cons(Vec::new())) {
        Ok(KlElement::Cons(v)) => assert!(v.is_empty()),
        _ => panic!("expected the empty list"),
    }
    assert_eq!(message(shen_tl(&num(1))), "shen_tl: Expecting a list.");
    assert_eq!(symbol_name(shen_consp(&KlElement::Cons(Vec::new()))), "shen_true");
    assert_eq!(symbol_name(shen_consp(&num(1))), "shen_false");
}

#[test]
fn predicates_and_booleans() {
    assert_eq!(symbol_name(shen_stringp(&string("x"))), "shen_true");
    assert_eq!(symbol_name(shen_numberp(&sym("x"))), "shen_false");
    assert!(shen_is_bool(&sym("shen_false")));
    assert!(!shen_is_bool(&sym("false")));
    assert_eq!(shen_truth(&sym("shen_true")), Some(true));
    assert_eq!(shen_truth(&num(1)), None);
    assert!(!shen_is_thunk(&num(1)));
    assert!(shen_symbol_to_string(&num(1)).is_err());
    assert_eq!(shen_symbol_to_string(&sym("a")).ok(), Some("a".to_string()));
}

#[test]
fn symbol_table_and_vector_errors() {
    let mut rt = Runtime::new();
    assert_eq!(message(shen_set(&mut rt, &num(1), &num(2))), "shen_set: expecting a symbol for a key.");
    assert!(shen_set(&mut rt, &sym("k"), &num(2)).is_ok());
    assert!(matches!(shen_value(&rt, &sym("k")), Ok(KlElement::Number(KlNumber::Int(2)))));
    assert_eq!(message(shen_value(&rt, &num(1))), "shen_value: expecting a symbol for a key.");
    assert_eq!(message(shen_insert_at_address(&mut rt, &num(1), &num(0), &num(0))),
        "shen_insert_at_address: Expecting a vector.");
    assert_eq!(message(shen_get_at_address(&rt, &KlElement::Vector(7), &num(1))),
        "shen_get_at_address: Expecting a vector.");
    let v = klambda::runtime::shen_absvector(&mut rt).ok().unwrap();
    assert_eq!(message(shen_insert_at_address(&mut rt, &v, &num(-1), &num(0))),
        "shen_insert_at_address: Expecting a positive number.");
    assert_eq!(message(shen_get_at_address(&rt, &v, &num(0))),
        "shen_get_at_address: Expecting a positive number.");
}
