use mal::env::Env;
use mal::eval::eval;
use mal::reader::read_str;
use mal::types::MalErr;

fn rep(input: &str, env: &mut Env) -> String {
    let mal = read_str(input).unwrap();
    eval(mal, env).unwrap().pr_str()
}

fn rep_err(input: &str, env: &mut Env) -> MalErr {
    let mal = read_str(input).unwrap();
    eval(mal, env).unwrap_err()
}

#[test]
fn step1() {
    let cases = vec![
        ("()", "()"),
        ("1", "1"),
        ("    1", "1"),
        ("    -123    ", "-123"),
        ("+", "+"),
        ("    abc", "abc"),
        ("    abc123    ", "abc123"),
        ("abc-def", "abc-def"),
        ("( * 1   2   )", "(* 1 2)"),
        ("(1, 2, 3,,,,),,,", "(1 2 3)"),
        ("  ( +   1 (+  2 3  )  )", "(+ 1 (+ 2 3))"),
        ("(def! x 3)", "(def! x 3)"),
        ("(1 2 3 4 5 6)", "(1 2 3 4 5 6)"),
    ];

    for (input, output) in cases {
        let mal = read_str(input).unwrap();
        assert_eq!(output, mal.pr_str());
    }
}

#[test]
fn step2() {
    let cases = vec![
        ("(+ 1 2)", "3"),
        ("(+ 5 (* 2 3))", "11"),
        ("(- (+ 5 (* 2 3)) 3)", "8"),
        ("(/ (- (+ 5 (* 2 3)) 3) 4)", "2"),
        ("(/ (- (+ 515 (* 87 311)) 302) 27)", "1010"),
        ("(* -3 6)", "-18"),
        ("(/ (- (+ 515 (* -87 311)) 296) 27)", "-994"),
    ];
    let mut env = Env::default();

    for (input, output) in cases {
        assert_eq!(output, rep(input, &mut env));
    }
}

#[test]
fn step3() {
    let cases = vec![
        ("(def! x 3)", "3"),
        ("(def! x (+ 1 7))", "8"),
        ("(def! y (let* (z 7) z))", "7"),
        ("(let* (z 9) z)", "9"),
        ("(let* (z (+ 2 3)) (+ 1 z))", "6"),
        ("(let* (p (+ 2 3) q (+ 2 p)) (+ p q))", "12"),
        ("(let* (x 2 x 3) x)", "3"),
    ];
    let mut env = Env::default();

    for (input, output) in cases {
        assert_eq!(output, rep(input, &mut env));
    }

    assert_eq!("4", rep("(def! a 4)", &mut env));
    assert_eq!("4", rep("(let* (z 2) (let* (q 9) a))", &mut env));
}

#[test]
fn step4() {
    let cases = vec![
        ("(do (def! a 6) 7 (+ a 8))", "14"),
        ("(def! DO 7)", "7"),
        ("(if true 7 8)", "7"),
        ("(if false 7 8)", "8"),
        ("(if false 7)", "nil"),
        ("(if false 7 false)", "false"),
        ("(if true (+ 1 7) (+ 1 8))", "8"),
        ("(if false (+ 1 7) (+ 1 8))", "9"),
        ("(if nil 7 8)", "8"),
        ("(if 0 7 8)", "7"),
        ("(if false (+ 1 7))", "nil"),
        ("(if nil 8)", "nil"),
        ("(if nil 8 7)", "7"),
        ("(if true (+ 1 7))", "8"),
        ("(fn* (a) a)", "<user:fn>"),
        ("( (fn* () 4) )", "4"),
        ("( (fn* (a) a) 7)", "7"),
        ("( (fn* (a) (+ a 1)) 10)", "11"),
        ("( (fn* (a b) (+ b a)) 3 4)", "7"),
        ("( (fn* (a b) (+ a b)) 2 3)", "5"),
        ("( (fn* (f x) (f x)) (fn* (a) (+ 1 a)) 7)", "8"),
        ("( ( (fn* (a) (fn* (b) (+ a b))) 5) 7)", "12"),
    ];
    let mut env = Env::default();

    for (input, output) in cases {
        assert_eq!(output, rep(input, &mut env));
    }
}

#[test]
fn step4_ex1() {
    let mut env = Env::default();
    let mal = read_str("(def! gen-plus5 (fn* () (fn* (b) (+ 5 b))))").unwrap();
    eval(mal, &mut env).unwrap();
    let mal = read_str("(def! plus5 (gen-plus5))").unwrap();
    eval(mal, &mut env).unwrap();
    let mal = read_str("(plus5 7)").unwrap();
    assert_eq!("12", eval(mal, &mut env).unwrap().pr_str());
}

#[test]
fn test_stdlib() {
    let cases = vec![
        (r#"(= "" "")"#, "true"),
        (r#"(= "abc" "abc")"#, "true"),
        (r#"(= "abc" "")"#, "false"),
        (r#"(= "abc" "")"#, "false"),
        (r#"(= "" "abc")"#, "false"),
        (r#"(= "abc" "def")"#, "false"),
        (r#"(= "abc" "ABC")"#, "false"),
        (r#"(if "" 9 4)"#, "9"),
        ("(= 1 1)", "true"),
        ("(= 1 2)", "false"),
        ("(< 81 94)", "true"),
        ("(<= 1 2)", "true"),
        ("(>= 1 1)", "true"),
        ("(>= 1 2)", "false"),
        ("(list 1 2 3)", "(1 2 3)"),
        ("(list)", "()"),
        ("(count (list))", "0"),
        ("(list? (list))", "true"),
        ("(empty? (list))", "true"),
    ];
    let mut env = Env::default();

    for (input, output) in cases {
        assert_eq!(output, rep(input, &mut env));
    }

    // A list headed by an integer is no application, and a predicate takes one value.
    assert_eq!(MalErr::NotCallable, rep_err("(count (1 2 3))", &mut env));
    assert_eq!(MalErr::ArityOrTypeError, rep_err("(list? 1 2)", &mut env));
    assert_eq!(MalErr::NotCallable, rep_err("(list? (1) 2)", &mut env));
    assert_eq!("3", rep("(count (list 1 2 3))", &mut env));
    assert_eq!("false", rep("(list? 1)", &mut env));
    assert_eq!("true", rep("(list? (list 1))", &mut env));
}

#[test]
fn recursion_sees_its_own_definition() {
    let mut env = Env::default();
    rep("(def! sumdown (fn* (N) (if (> N 0) (+ N (sumdown  (- N 1))) 0)))", &mut env);
    assert_eq!("21", rep("(sumdown 6)", &mut env));
    rep(
        "(def! fib (fn* (N) (if (= N 0) 1 (if (= N 1) 1 (+ (fib (- N 1)) (fib (- N 2)))))))",
        &mut env,
    );
    assert_eq!("5", rep("(fib 4)", &mut env));
    rep("(def! sum2 (fn* (n acc) (if (= n 0) acc (sum2 (- n 1) (+ n acc)))))", &mut env);
    assert_eq!("55", rep("(sum2 10 0)", &mut env));
}

#[test]
fn endless_recursion_stops_at_the_depth_limit() {
    let mut env = Env::default();
    rep("(def! again (fn* (n) (again n)))", &mut env);
    assert_eq!(MalErr::DepthExceeded, rep_err("(again 1)", &mut env));
    assert_eq!("3", rep("(+ 1 2)", &mut env));
}
