use klambda::eval::{load_forms, new_runtime, shen_if, Host};
use klambda::prims::{ArithOp, CmpOp, FloatOperand};
use klambda::reader::read_forms;
use klambda::runtime::Runtime;
use klambda::token::{FloatLit, KlNumber, KlToken};
use klambda::value::{Binding, KlClosure, KlElement, KlError, KlStdStream, KlStream};

struct TestHost {
    written: Vec<u8>,
    input: Vec<u8>,
    position: usize,
}

fn to_f64(x: &FloatOperand) -> f64 {
    match x {
        FloatOperand::Int(i) => *i as f64,
        FloatOperand::Float(f) => {
            let whole: String = f.whole.iter().map(|d| (b'0' + d) as char).collect();
            let fraction: String = f.fraction.iter().map(|d| (b'0' + d) as char).collect();
            let v: f64 = format!("{}.{}", whole, fraction).parse().unwrap();
            if f.negative {
                -v
            } else {
                v
            }
        }
    }
}

fn from_f64(v: f64) -> FloatLit {
    let text = format!("{}", v.abs());
    let (whole, fraction) = match text.split_once('.') {
        Some((w, f)) => (w.to_string(), f.to_string()),
        None => (text.clone(), "0".to_string()),
    };
    FloatLit {
        negative: v < 0.0,
        whole: whole.bytes().map(|b| b - b'0').collect(),
        fraction: fraction.bytes().map(|b| b - b'0').collect(),
    }
}

impl Host for TestHost {
    fn float_arith(&mut self, op: ArithOp, a: &FloatOperand, b: &FloatOperand) -> Result<FloatLit, String> {
        let (x, y) = (to_f64(a), to_f64(b));
        let v = match op {
            ArithOp::Add => x + y,
            ArithOp::Sub => x - y,
            ArithOp::Mul => x * y,
            ArithOp::Div => x / y,
        };
        if v.is_finite() {
            Ok(from_f64(v))
        } else {
            Err("float result is not finite".to_string())
        }
    }

    fn float_test(&mut self, op: CmpOp, a: &FloatOperand, b: &FloatOperand) -> bool {
        let (x, y) = (to_f64(a), to_f64(b));
        match op {
            CmpOp::Gt => x > y,
            CmpOp::Lt => x < y,
            CmpOp::Le => x <= y,
            CmpOp::Ge => x >= y,
        }
    }

    fn write_byte(&mut self, _stream: KlStream, byte: u8) -> bool {
        self.written.push(byte);
        true
    }

    fn read_byte(&mut self, _stream: KlStream) -> Option<Option<u8>> {
        if self.position < self.input.len() {
            self.position += 1;
            Some(Some(self.input[self.position - 1]))
        } else {
            Some(None)
        }
    }

    fn open_input(&mut self, _path: &String) -> Option<u64> {
        None
    }

    fn time_now(&mut self) -> FloatLit {
        from_f64(12.5)
    }
}

fn host() -> TestHost {
    TestHost { written: Vec::new(), input: b"ab".to_vec(), position: 0 }
}

fn run_in(rt: &mut Runtime, h: &mut TestHost, src: &str) -> Result<KlElement, KlError> {
    let chars: Vec<char> = src.chars().collect();
    let forms = read_forms(&chars).expect("the text reads");
    let mut results = load_forms(rt, h, &forms, u64::MAX);
    results.pop().expect("one form at least")
}

fn run(src: &str) -> Result<KlElement, KlError> {
    let mut rt = new_runtime();
    let mut h = host();
    run_in(&mut rt, &mut h, src)
}

fn int_of(r: Result<KlElement, KlError>) -> i64 {
    match r {
        Ok(KlElement::Number(KlNumber::Int(i))) => i,
        Ok(_) => panic!("not an integer"),
        Err(KlError::ErrorString(m)) => panic!("error: {}", m),
    }
}

fn symbol_of(r: Result<KlElement, KlError>) -> String {
    match r {
        Ok(KlElement::Symbol(s)) => s,
        Ok(_) => panic!("not a symbol"),
        Err(KlError::ErrorString(m)) => panic!("error: {}", m),
    }
}

fn string_of(r: Result<KlElement, KlError>) -> String {
    match r {
        Ok(KlElement::String(s)) => s,
        Ok(_) => panic!("not a string"),
        Err(KlError::ErrorString(m)) => panic!("error: {}", m),
    }
}

fn error_of(r: Result<KlElement, KlError>) -> String {
    match r {
        Err(KlError::ErrorString(m)) => m,
        Ok(_) => panic!("no error"),
    }
}

fn ints_of(r: Result<KlElement, KlError>) -> Vec<i64> {
    match r {
        Ok(KlElement::Cons(items)) => items
            .into_iter()
            .map(|e| match e {
                KlElement::Number(KlNumber::Int(i)) => i,
                _ => panic!("not an integer"),
            })
            .collect(),
        _ => panic!("not a list"),
    }
}

#[test]
fn adds_two_integers() {
    assert_eq!(int_of(run("(+ 2 3)")), 5);
}

#[test]
fn adding_a_float_promotes() {
    match run("(+ 2 3.0)") {
        Ok(KlElement::Number(KlNumber::Float(f))) => {
            assert!(!f.negative);
            assert_eq!(f.whole, vec![5]);
            assert_eq!(f.fraction, vec![0]);
        }
        _ => panic!("expected a float"),
    }
}

#[test]
fn cons_builds_a_list_head_first() {
    assert_eq!(ints_of(run("(cons 1 (cons 2 ()))")), vec![1, 2]);
}

#[test]
fn hd_is_the_logical_head() {
    assert_eq!(int_of(run("(hd (cons 1 (cons 2 ())))")), 1);
}

#[test]
fn tl_is_the_logical_rest() {
    assert_eq!(ints_of(run("(tl (cons 1 (cons 2 ())))")), vec![2]);
}

#[test]
fn if_primitive_forces_the_selected_thunk() {
    let mut rt = new_runtime();
    let mut h = host();
    let env: Vec<Binding> = Vec::new();
    let one = klambda::eval::generate_freeze(&env, &KlToken::Number(KlNumber::Int(1)));
    let two = klambda::eval::generate_freeze(&env, &KlToken::Number(KlNumber::Int(2)));
    let t = klambda::prims::shen_bool(true);
    assert_eq!(int_of(shen_if(&mut rt, &mut h, &t, &one, &two, 100)), 1);
    let f = klambda::prims::shen_bool(false);
    assert_eq!(int_of(shen_if(&mut rt, &mut h, &f, &one, &two, 100)), 2);
}

#[test]
fn if_form_evaluates_only_the_taken_branch() {
    assert_eq!(int_of(run("(if true 1 (simple-error \"not taken\"))")), 1);
    assert_eq!(int_of(run("(if false (simple-error \"not taken\") 2)")), 2);
}

#[test]
fn trap_error_hands_the_message_to_the_handler() {
    assert_eq!(string_of(run("(trap-error (freeze (simple-error \"boom\")) (lambda e e))")), "boom");
}

#[test]
fn trap_error_of_simple_error_x_is_x() {
    assert_eq!(string_of(run("(trap-error (freeze (simple-error \"x\")) (lambda e e))")), "x");
}

#[test]
fn tail_recursive_defun_runs_in_bounded_stack() {
    let src = "(defun f (n acc) (if (= n 0) acc (f (- n 1) (+ acc 1)))) (f 100000 0)";
    assert_eq!(int_of(run(src)), 100000);
}

#[test]
fn defun_returns_its_name_and_installs_the_function() {
    let mut rt = new_runtime();
    let mut h = host();
    assert_eq!(symbol_of(run_in(&mut rt, &mut h, "(defun double (x) (* x 2))")), "double");
    assert_eq!(int_of(run_in(&mut rt, &mut h, "(double 21)")), 42);
}

#[test]
fn distinct_vectors_with_different_elements_are_not_equal() {
    let src = "(let a (absvector) (let b (absvector) (let c (address-> a 0 1) (let d (address-> b 0 2) (= a b)))))";
    assert_eq!(symbol_of(run(src)), "shen_false");
    let longer = "(let a (absvector) (let b (absvector) (let c (address-> a 0 1) (= a b))))";
    assert_eq!(symbol_of(run(longer)), "shen_false");
}

#[test]
fn fresh_vectors_have_distinct_identities() {
    let mut rt = new_runtime();
    let mut h = host();
    let a = run_in(&mut rt, &mut h, "(absvector)").ok().unwrap();
    let b = run_in(&mut rt, &mut h, "(absvector)").ok().unwrap();
    match (a, b) {
        (KlElement::Vector(x), KlElement::Vector(y)) => assert_ne!(x, y),
        _ => panic!("expected vectors"),
    }
    assert_eq!(rt.vectors.len(), 2);
}

#[test]
fn a_vector_equals_itself() {
    assert_eq!(symbol_of(run("(let x (absvector) (= x x))")), "shen_true");
}

#[test]
fn vectors_with_equal_elements_are_equal() {
    let src = "(let a (absvector) (let b (absvector) (let c (address-> a 0 1) (let d (address-> b 0 1) (= a b)))))";
    assert_eq!(symbol_of(run(src)), "shen_true");
}

#[test]
fn equality_is_structural_on_lists() {
    assert_eq!(symbol_of(run("(= (cons 1 (cons \"a\" ())) (cons 1 (cons \"a\" ())))")), "shen_true");
    assert_eq!(symbol_of(run("(= (cons 1 ()) (cons 2 ()))")), "shen_false");
    assert_eq!(symbol_of(run("(= 1 1.0)")), "shen_false");
}

#[test]
fn tail_call_and_plain_recursion_agree() {
    let plain = "(defun g (n) (if (= n 0) 0 (+ 1 (g (- n 1))))) (g 50)";
    let tail = "(defun h (n acc) (if (= n 0) acc (h (- n 1) (+ acc 1)))) (h 50 0)";
    assert_eq!(int_of(run(plain)), int_of(run(tail)));
}

#[test]
fn curried_application_matches_full_application() {
    assert_eq!(int_of(run("((+ 1) 2)")), int_of(run("(+ 1 2)")));
    let src = "(defun add3 (a b c) (+ a (+ b c))) (((add3 1) 2) 3)";
    assert_eq!(int_of(run(src)), 6);
    let all = "(defun add3 (a b c) (+ a (+ b c))) (add3 1 2 3)";
    assert_eq!(int_of(run(all)), 6);
}

#[test]
fn arithmetic_identities_hold() {
    assert_eq!(int_of(run("(+ 17 0)")), 17);
    assert_eq!(int_of(run("(* 17 1)")), 17);
    assert_eq!(int_of(run("(/ 7 2)")), 3);
    assert_eq!(int_of(run("(- 3 5)")), -2);
}

#[test]
fn division_by_zero_is_an_error() {
    assert_eq!(error_of(run("(/ 1 0)")), "shen_div: dividing would cause overflow.");
}

#[test]
fn integer_overflow_is_an_error() {
    assert_eq!(error_of(run("(+ 9223372036854775807 1)")), "shen_plus: adding would cause overflow.");
    assert_eq!(error_of(run("(* 9223372036854775807 2)")), "shen_mul: multiplying would cause overflow.");
}

#[test]
fn arithmetic_on_non_numbers_is_an_error() {
    assert_eq!(error_of(run("(+ 1 \"a\")")), "shen_plus: expecting two numbers.");
}

#[test]
fn comparisons_return_boolean_symbols() {
    assert_eq!(symbol_of(run("(> 3 2)")), "shen_true");
    assert_eq!(symbol_of(run("(> 2 2)")), "shen_false");
    assert_eq!(symbol_of(run("(>= 2 2)")), "shen_true");
    assert_eq!(symbol_of(run("(< 1.5 2)")), "shen_true");
    assert_eq!(symbol_of(run("(<= 3 2)")), "shen_false");
}

#[test]
fn set_and_value_round_trip() {
    assert_eq!(int_of(run("(let x (set counter 41) (+ (value counter) 1))")), 42);
    assert_eq!(error_of(run("(value missing)")), "variable missing is unbound");
}

#[test]
fn back_index_records_composite_stores() {
    let mut rt = new_runtime();
    let mut h = host();
    assert!(matches!(run_in(&mut rt, &mut h, "(set v (absvector))"), Ok(KlElement::Nil)));
    let v = run_in(&mut rt, &mut h, "(value v)").ok().unwrap();
    let id = match v {
        KlElement::Vector(id) => id,
        _ => panic!("expected a vector"),
    };
    run_in(&mut rt, &mut h, "(address-> (value v) 0 5)").ok().unwrap();
    run_in(&mut rt, &mut h, "(address-> (value v) 1 (cons 1 ()))").ok().unwrap();
    run_in(&mut rt, &mut h, "(address-> (value v) 2 (absvector))").ok().unwrap();
    let record = rt.vectors.iter().find(|r| r.uuid == id).unwrap();
    assert_eq!(record.back_indices, vec![1, 2]);
    assert_eq!(record.vector.len(), 3);
}

#[test]
fn address_reads_back_what_was_stored() {
    let src = "(let v (absvector) (let w (address-> v 0 7) (let u (address-> v 1 8) (<-address v 1))))";
    assert_eq!(int_of(run(src)), 8);
    let past = "(let v (absvector) (<-address v 4))";
    assert!(matches!(run(past), Ok(KlElement::Nil)));
    assert_eq!(error_of(run("(let v (absvector) (address-> v 3 1))")),
        "shen_insert_at_address: Expecting a positive integer less than the vector length.");
}

#[test]
fn cond_takes_the_first_true_clause() {
    assert_eq!(int_of(run("(cond ((= 1 2) 1) ((= 1 1) 2) (true 3))")), 2);
    assert_eq!(error_of(run("(cond ((= 1 2) 1))")), "shen_cond: None of the predicates evaluated to 'true'.");
}

#[test]
fn and_or_short_circuit() {
    assert_eq!(symbol_of(run("(and false (simple-error \"no\"))")), "shen_false");
    assert_eq!(symbol_of(run("(or true (simple-error \"no\"))")), "shen_true");
    assert_eq!(symbol_of(run("(and true true)")), "shen_true");
    assert_eq!(error_of(run("(and 1 true)")),
        "shen_and: The first argument must evaluate to the symbol 'true' or 'false.");
}

#[test]
fn unknown_function_is_an_error() {
    assert_eq!(error_of(run("(nosuch 1)")), "Could not find function:nosuch");
}

#[test]
fn applying_a_non_closure_is_an_error() {
    assert_eq!(error_of(run("(let f 3 (f 1))")), "Expecting closure.");
}

#[test]
fn strings_primitives() {
    assert_eq!(string_of(run("(cn \"ab\" \"cd\")")), "abcd");
    assert_eq!(string_of(run("(pos \"abc\" 1)")), "b");
    assert_eq!(string_of(run("(tlstr \"abc\")")), "bc");
    assert_eq!(error_of(run("(tlstr \"\")")), "shen_tlstr: expecting non-empty string.");
    assert_eq!(string_of(run("(str 42)")), "42");
    assert_eq!(string_of(run("(str -7)")), "-7");
    assert_eq!(string_of(run("(str foo-bar)")), "foo-bar");
    assert_eq!(string_of(run("(n->string 65)")), "A");
    assert_eq!(int_of(run("(string->n \"A\")")), 65);
    assert_eq!(symbol_of(run("(intern \"abc\")")), "abc");
}

#[test]
fn streams_go_through_the_host() {
    let mut rt = new_runtime();
    let mut h = host();
    let mut args = Vec::new();
    args.push(KlElement::Number(KlNumber::Int(65)));
    args.push(KlElement::Stream(KlStream::Std(KlStdStream::Stdout)));
    let r = klambda::eval::shen_write_byte(&mut h, &args[0], &args[1]);
    assert_eq!(int_of(r), 65);
    assert_eq!(h.written, vec![65]);
    let stdin = KlElement::Stream(KlStream::Std(KlStdStream::Stdin));
    assert_eq!(int_of(klambda::eval::shen_read_byte(&mut h, &stdin)), 97);
    assert_eq!(int_of(klambda::eval::shen_read_byte(&mut h, &stdin)), 98);
    assert_eq!(int_of(klambda::eval::shen_read_byte(&mut h, &stdin)), -1);
    let wrong = klambda::eval::shen_write_byte(&mut h, &args[0], &stdin);
    assert_eq!(error_of(wrong), "shen_write_byte: Expecting a write-only stream or stdout.");
    assert_eq!(error_of(run_in(&mut rt, &mut h, "(open \"nofile\" in)")), "shen_open: Could not open file.");
}

#[test]
fn lambda_closures_capture_their_frame() {
    assert_eq!(int_of(run("(let x 10 ((lambda y (+ x y)) 5))")), 15);
}

#[test]
fn freeze_defers_evaluation() {
    match run("(freeze (simple-error \"later\"))") {
        Ok(KlElement::Closure(KlClosure::Thunk(_, _))) => {}
        _ => panic!("expected a thunk"),
    }
}

#[test]
fn errors_do_not_stop_later_forms() {
    let mut rt = new_runtime();
    let mut h = host();
    let chars: Vec<char> = "(nosuch) (+ 1 1)".chars().collect();
    let forms = read_forms(&chars).unwrap();
    let results = load_forms(&mut rt, &mut h, &forms, u64::MAX);
    assert!(results[0].is_err());
    assert_eq!(int_of(results.into_iter().nth(1).unwrap()), 2);
}

#[test]
fn step_limit_ends_runaway_recursion() {
    let mut rt = new_runtime();
    let mut h = host();
    let chars: Vec<char> = "(defun loop (n) (+ 1 (loop n))) (loop 1)".chars().collect();
    let forms = read_forms(&chars).unwrap();
    let mut results = load_forms(&mut rt, &mut h, &forms, 2000);
    assert_eq!(error_of(results.pop().unwrap()), "evaluation step limit reached");
}

#[test]
fn set_returns_unit() {
    assert!(matches!(run("(set x 1)"), Ok(KlElement::Nil)));
}

#[test]
fn empty_vectors_are_equal_element_by_element() {
    let src = "(let a (absvector) (let b (absvector) (= a b)))";
    assert_eq!(symbol_of(run(src)), "shen_true");
}

#[test]
fn division_by_a_float_zero_is_an_error() {
    assert!(run("(/ 1 0.0)").is_err());
}
