use klambda::reader::read_forms;
use klambda::text::intersperse;
use klambda::token::{
    add_path, extract_arg_names, find_recursive_calls, get_element_at, mark_recur, set_element_at,
    shen_get_all_tail_calls, splay_out_defun, start_of_function_chain, KlNumber, KlToken,
};

fn form(src: &str) -> KlToken {
    let chars: Vec<char> = src.chars().collect();
    read_forms(&chars).unwrap().remove(0)
}

fn symbol(t: &KlToken) -> String {
    match t {
        KlToken::Symbol(s) => s.clone(),
        _ => panic!("not a symbol"),
    }
}

#[test]
fn paths_join() {
    assert_eq!(add_path(&vec![1, 2], vec![3]), vec![1, 2, 3]);
    assert_eq!(add_path(&vec![], vec![]), Vec::<usize>::new());
}

#[test]
fn element_at_follows_the_path() {
    let t = form("(a (b c) d)");
    assert_eq!(symbol(get_element_at(vec![1, 1], &t).unwrap()), "c");
    assert_eq!(symbol(get_element_at(vec![2], &t).unwrap()), "d");
    assert!(get_element_at(vec![5], &t).is_none());
    assert!(get_element_at(vec![0, 0], &t).is_none());
}

#[test]
fn set_element_at_replaces_the_subtree() {
    let mut t = form("(a (b c) d)");
    set_element_at(vec![1, 0], &mut t, KlToken::Number(KlNumber::Int(9)));
    assert!(matches!(get_element_at(vec![1, 0], &t), Some(KlToken::Number(KlNumber::Int(9)))));
}

#[test]
fn mark_recur_keeps_the_arguments() {
    let mut t = form("(defun f (n) (f (- n 1)))");
    mark_recur(vec![3], &mut t);
    match get_element_at(vec![3], &t) {
        Some(KlToken::Recur(args)) => assert_eq!(args.len(), 1),
        _ => panic!("expected a tail-call marker"),
    }
}

#[test]
fn recursive_calls_in_tail_candidates() {
    let t = form("(defun f (n acc) (if (= n 0) acc (f (- n 1) (+ acc 1))))");
    assert_eq!(find_recursive_calls("f".to_string(), 2, &t), vec![vec![3, 3]]);
    let c = form("(defun g (x) (cond ((= x 0) (g 1)) (true (h (g 2)))))");
    assert_eq!(find_recursive_calls("g".to_string(), 1, &c), vec![vec![3, 1, 1], vec![3, 2, 1, 1]]);
}

#[test]
fn calls_inside_arguments_are_not_tail_calls() {
    let c = form("(defun g (x) (cond ((= x 0) (g 1)) (true (h (g 2)))))");
    assert_eq!(start_of_function_chain(vec![3, 2, 1, 1], &c), Some(vec![3, 2, 1]));
    assert_eq!(start_of_function_chain(vec![3, 1, 1], &c), None);
    assert_eq!(shen_get_all_tail_calls(&c), vec![vec![3, 1, 1]]);
}

#[test]
fn non_recursive_defun_has_no_tail_calls() {
    let t = form("(defun g (n) (if (= n 0) 0 (+ 1 (g (- n 1)))))");
    assert_eq!(shen_get_all_tail_calls(&t), Vec::<Vec<usize>>::new());
    assert_eq!(shen_get_all_tail_calls(&form("(not a defun)")), Vec::<Vec<usize>>::new());
}

#[test]
fn defun_splays_into_lambdas() {
    let args = match form("(x y)") {
        KlToken::Cons(v) => v,
        _ => panic!(),
    };
    assert_eq!(extract_arg_names(&args), vec!["x".to_string(), "y".to_string()]);
    let body = KlToken::Number(KlNumber::Int(1));
    match splay_out_defun("f".to_string(), args, body) {
        KlToken::Cons(outer) => {
            assert_eq!(symbol(&outer[0]), "lambda");
            assert_eq!(symbol(&outer[1]), "x");
            match &outer[2] {
                KlToken::Cons(inner) => assert_eq!(symbol(&inner[1]), "y"),
                _ => panic!("expected the inner lambda"),
            }
        }
        _ => panic!("expected a lambda"),
    }
}

#[test]
fn intersperse_joins_with_separators() {
    let v = vec!["a".to_string(), "b".to_string(), "c".to_string()];
    assert_eq!(intersperse(v, ", ".to_string()), "a, b, c");
    assert_eq!(intersperse(Vec::new(), ",".to_string()), "");
}

#[test]
fn a_form_headed_by_a_list_is_stepped_over() {
    let t = form("(defun f (x) ((g) (f x)))");
    assert_eq!(start_of_function_chain(vec![3, 1], &t), None);
    let u = form("(defun f (x) (h (f x)))");
    assert_eq!(start_of_function_chain(vec![3, 1], &u), Some(vec![3]));
}
