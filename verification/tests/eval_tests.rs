use mal::builtins::{apply, equal, ns};
use mal::env::Env;
use mal::eval::{eval, eval_in, MAX_DEPTH};
use mal::reader::read_str;
use mal::types::{Builtin, MalErr, MalType};

fn run(input: &str, env: &mut Env) -> Result<String, MalErr> {
    let mal = read_str(input).unwrap();
    eval(mal, env).map(|v| v.pr_str())
}

fn fresh(input: &str) -> Result<String, MalErr> {
    run(input, &mut Env::default())
}

fn text(s: &str) -> Result<String, MalErr> {
    Ok(s.to_string())
}

#[test]
fn arithmetic_nests() {
    assert_eq!(text("11"), fresh("(+ 5 (* 2 3))"));
    assert_eq!(text("2"), fresh("(/ (- (+ 5 (* 2 3)) 3) 4)"));
}

#[test]
fn division_rounds_toward_zero() {
    assert_eq!(text("-3"), fresh("(/ -7 2)"));
    assert_eq!(text("-3"), fresh("(/ 7 -2)"));
    assert_eq!(text("3"), fresh("(/ -7 -2)"));
    assert_eq!(text("0"), fresh("(/ 0 5)"));
}

#[test]
fn arithmetic_wraps_at_32_bits() {
    assert_eq!(text("-2147483648"), fresh("(+ 2147483647 1)"));
    assert_eq!(text("2147483647"), fresh("(- -2147483648 1)"));
    assert_eq!(text("0"), fresh("(* 65536 65536)"));
    assert_eq!(text("-2147483648"), fresh("(/ -2147483648 -1)"));
}

#[test]
fn division_by_zero_is_reported_and_the_session_goes_on() {
    let mut env = Env::default();
    assert_eq!(Err(MalErr::DivisionByZero), run("(/ 1 0)", &mut env));
    assert_eq!(Err(MalErr::DivisionByZero), run("(/ 0 0)", &mut env));
    assert_eq!(text("3"), run("(+ 1 2)", &mut env));
}

#[test]
fn an_unbound_symbol_is_reported_and_the_session_goes_on() {
    let mut env = Env::default();
    assert_eq!(Err(MalErr::SymbolNotFound), run("nowhere", &mut env));
    assert_eq!(Err(MalErr::SymbolNotFound), run("(+ 1 nowhere)", &mut env));
    assert_eq!(Err(MalErr::SymbolNotFound), run("(nowhere 1)", &mut env));
    assert_eq!(text("3"), run("(+ 1 2)", &mut env));
}

#[test]
fn let_bindings_shadow_and_do_not_leak() {
    let mut env = Env::default();
    assert_eq!(text("3"), run("(let* (x 2 x 3) x)", &mut env));
    assert_eq!(Err(MalErr::SymbolNotFound), run("x", &mut env));
    assert_eq!(text("1"), run("(def! y 1)", &mut env));
    assert_eq!(text("5"), run("(let* (y 5) y)", &mut env));
    assert_eq!(text("1"), run("y", &mut env));
    assert_eq!(text("9"), run("(let* (z 4) (def! w 9))", &mut env));
    assert_eq!(Err(MalErr::SymbolNotFound), run("w", &mut env));
}

#[test]
fn let_takes_pairs_with_symbol_keys() {
    let mut env = Env::default();
    assert_eq!(Err(MalErr::ArityOrTypeError), run("(let* (x 1 y) x)", &mut env));
    assert_eq!(Err(MalErr::ArityOrTypeError), run("(let* (1 2) 3)", &mut env));
    assert_eq!(Err(MalErr::ArityOrTypeError), run("(let* x 3)", &mut env));
    assert_eq!(Err(MalErr::ArityOrTypeError), run("(let* (x 1))", &mut env));
    assert_eq!(Err(MalErr::SymbolNotFound), run("(let* (x nowhere 1 2) x)", &mut env));
    assert_eq!(text("7"), run("(let* () 7)", &mut env));
    assert_eq!(text("6"), run("(let* (a 1 b (+ a 1) c (+ a b)) (+ a (+ b c)))", &mut env));
}

#[test]
fn closures_keep_the_scope_they_were_made_in() {
    let mut env = Env::default();
    run("(def! gen (fn* () (fn* (b) (+ 5 b))))", &mut env).unwrap();
    run("(def! f (gen))", &mut env).unwrap();
    assert_eq!(text("12"), run("(f 7)", &mut env));
    run("(def! adder (fn* (a) (fn* (b) (+ a b))))", &mut env).unwrap();
    run("(def! add2 (adder 2))", &mut env).unwrap();
    run("(def! add10 (adder 10))", &mut env).unwrap();
    assert_eq!(text("5"), run("(add2 3)", &mut env));
    assert_eq!(text("13"), run("(add10 3)", &mut env));
    assert_eq!(Err(MalErr::SymbolNotFound), run("a", &mut env));
}

#[test]
fn a_closure_sees_later_definitions_of_its_scope() {
    let mut env = Env::default();
    run("(def! f (fn* () later))", &mut env).unwrap();
    assert_eq!(Err(MalErr::SymbolNotFound), run("(f)", &mut env));
    run("(def! later 4)", &mut env).unwrap();
    assert_eq!(text("4"), run("(f)", &mut env));
}

#[test]
fn only_nil_and_false_are_false() {
    let mut env = Env::default();
    assert_eq!(text("2"), run("(if nil 1 2)", &mut env));
    assert_eq!(text("2"), run("(if false 1 2)", &mut env));
    for v in ["true", "0", "-1", "\"\"", "\"a\"", ":k", "()", "(list)", "+", "(fn* () 1)"] {
        assert_eq!(text("1"), run(&format!("(if {} 1 2)", v), &mut env));
    }
}

#[test]
fn if_takes_two_or_three_expressions() {
    assert_eq!(Err(MalErr::ArityOrTypeError), fresh("(if)"));
    assert_eq!(Err(MalErr::ArityOrTypeError), fresh("(if true)"));
    assert_eq!(Err(MalErr::ArityOrTypeError), fresh("(if true 1 2 3)"));
    assert_eq!(text("nil"), fresh("(if nil 1)"));
    assert_eq!(Err(MalErr::SymbolNotFound), fresh("(if nowhere 1 2)"));
    assert_eq!(text("1"), fresh("(if true 1 nowhere)"));
}

#[test]
fn special_forms_cannot_be_shadowed() {
    let mut env = Env::default();
    env.set("if", MalType::Int(1));
    env.set("do", MalType::Int(1));
    assert_eq!(text("8"), run("(if false 7 8)", &mut env));
    assert_eq!(text("2"), run("(do 1 2)", &mut env));
    assert_eq!(text("1"), run("if", &mut env));
}

#[test]
fn def_takes_a_symbol_and_an_expression() {
    let mut env = Env::default();
    assert_eq!(Err(MalErr::ArityOrTypeError), run("(def! x)", &mut env));
    assert_eq!(Err(MalErr::ArityOrTypeError), run("(def! 1 2)", &mut env));
    assert_eq!(Err(MalErr::ArityOrTypeError), run("(def! x 1 2)", &mut env));
    assert_eq!(Err(MalErr::SymbolNotFound), run("(def! x nowhere)", &mut env));
    assert_eq!(Err(MalErr::SymbolNotFound), run("x", &mut env));
    assert_eq!(text("1"), run("(def! x 1)", &mut env));
    assert_eq!(text("2"), run("(def! x 2)", &mut env));
    assert_eq!(text("2"), run("x", &mut env));
}

#[test]
fn do_gives_the_last_value_and_keeps_earlier_effects() {
    let mut env = Env::default();
    assert_eq!(text("nil"), run("(do)", &mut env));
    assert_eq!(text("14"), run("(do (def! a 6) 7 (+ a 8))", &mut env));
    assert_eq!(Err(MalErr::SymbolNotFound), run("(do (def! b 1) nowhere (def! c 2))", &mut env));
    assert_eq!(text("1"), run("b", &mut env));
    assert_eq!(Err(MalErr::SymbolNotFound), run("c", &mut env));
}

#[test]
fn fn_takes_a_parameter_list_and_a_body() {
    assert_eq!(Err(MalErr::ArityOrTypeError), fresh("(fn* (a))"));
    assert_eq!(Err(MalErr::ArityOrTypeError), fresh("(fn* a a)"));
    assert_eq!(text("<user:fn>"), fresh("(fn* (a) a)"));
}

#[test]
fn a_call_with_the_wrong_number_of_arguments_is_an_error() {
    assert_eq!(Err(MalErr::ArityOrTypeError), fresh("((fn* (a b) a) 1)"));
    assert_eq!(Err(MalErr::ArityOrTypeError), fresh("((fn* () 1) 1)"));
    assert_eq!(Err(MalErr::ArityOrTypeError), fresh("(+ 1)"));
    assert_eq!(Err(MalErr::ArityOrTypeError), fresh("(+ 1 2 3)"));
    assert_eq!(Err(MalErr::ArityOrTypeError), fresh("(+ 1 \"2\")"));
    assert_eq!(Err(MalErr::ArityOrTypeError), fresh("(< 1 nil)"));
    assert_eq!(Err(MalErr::ArityOrTypeError), fresh("(count)"));
    assert_eq!(Err(MalErr::ArityOrTypeError), fresh("(empty? 1 2)"));
    assert_eq!(Err(MalErr::ArityOrTypeError), fresh("(= 1)"));
}

#[test]
fn only_functions_can_be_called() {
    assert_eq!(Err(MalErr::NotCallable), fresh("(1 2 3)"));
    assert_eq!(Err(MalErr::NotCallable), fresh("(\"f\" 1)"));
    assert_eq!(Err(MalErr::NotCallable), fresh("(nil)"));
    assert_eq!(Err(MalErr::NotCallable), fresh("((list) 1)"));
    assert_eq!(text("()"), fresh("()"));
    let mut env = Env::default();
    let stray = MalType::List(vec![MalType::MalFunc {
        env: 99,
        params: vec![],
        body: Box::new(MalType::Nil),
    }]);
    assert!(matches!(eval(stray, &mut env), Err(MalErr::NotCallable)));
}

#[test]
fn equality_is_by_value_and_never_across_types() {
    assert_eq!(text("true"), fresh("(= \"abc\" \"abc\")"));
    assert_eq!(text("false"), fresh("(= 1 \"1\")"));
    assert_eq!(text("true"), fresh("(= nil nil)"));
    assert_eq!(text("false"), fresh("(= nil false)"));
    assert_eq!(text("true"), fresh("(= false false)"));
    assert_eq!(text("false"), fresh("(= true false)"));
    assert_eq!(text("false"), fresh("(= 0 nil)"));
    assert_eq!(text("false"), fresh("(= :a :a)"));
    assert_eq!(text("false"), fresh("(= + +)"));
}

#[test]
fn lists_are_equal_item_by_item() {
    assert_eq!(text("true"), fresh("(= (list) (list))"));
    assert_eq!(text("true"), fresh("(= (list 1 2 3) (list 1 2 3))"));
    assert_eq!(text("false"), fresh("(= (list 1 2 3) (list 1 2))"));
    assert_eq!(text("false"), fresh("(= (list 1 2) (list 1 3))"));
    assert_eq!(text("true"), fresh("(= (list 1 (list \"a\" nil)) (list 1 (list \"a\" nil)))"));
    assert_eq!(text("false"), fresh("(= (list 1 (list \"a\" nil)) (list 1 (list \"a\" false)))"));
    assert_eq!(text("false"), fresh("(= (list 1) 1)"));
    assert_eq!(text("false"), fresh("(= (list :a) (list :a))"));
    assert!(equal(
        &MalType::List(vec![MalType::Int(1)]),
        &MalType::List(vec![MalType::Int(1)])
    ));
}

#[test]
fn list_primitives() {
    assert_eq!(text("3"), fresh("(count (list 1 2 3))"));
    assert_eq!(text("0"), fresh("(count (list))"));
    assert_eq!(text("1"), fresh("(count 5)"));
    assert_eq!(text("1"), fresh("(count nil)"));
    assert_eq!(text("1"), fresh("(count \"abc\")"));
    assert_eq!(text("true"), fresh("(empty? (list))"));
    assert_eq!(text("false"), fresh("(empty? (list 1))"));
    assert_eq!(text("false"), fresh("(empty? 5)"));
    assert_eq!(text("false"), fresh("(list? 5)"));
    assert_eq!(text("true"), fresh("(list? (list))"));
    assert_eq!(text("(1 (2 3) nil)"), fresh("(list 1 (list 2 3) nil)"));
}

#[test]
fn comparisons() {
    assert_eq!(text("true"), fresh("(< 1 2)"));
    assert_eq!(text("false"), fresh("(< 2 2)"));
    assert_eq!(text("true"), fresh("(<= 2 2)"));
    assert_eq!(text("false"), fresh("(<= 3 2)"));
    assert_eq!(text("true"), fresh("(> 3 2)"));
    assert_eq!(text("false"), fresh("(> 2 2)"));
    assert_eq!(text("true"), fresh("(>= 2 2)"));
    assert_eq!(text("false"), fresh("(>= -3 2)"));
}

#[test]
fn the_table_names_every_primitive() {
    let table = ns();
    let names: Vec<&str> = table.iter().map(|(name, _)| *name).collect();
    assert_eq!(
        vec!["+", "-", "*", "/", "=", "<", "<=", ">", ">=", "count", "list", "list?", "empty?"],
        names
    );
    assert!(matches!(table[3].1, MalType::Func(Builtin::Div)));
    let env = Env::default();
    for (name, _) in table.iter() {
        assert!(matches!(env.get(name), Some(MalType::Func(_))));
    }
    assert!(matches!(env.get("/"), Some(MalType::Func(Builtin::Div))));
    assert!(env.get("nowhere").is_none());
}

#[test]
fn primitives_applied_directly() {
    let two = vec![MalType::Int(6), MalType::Int(7)];
    assert!(matches!(apply(Builtin::Mul, &two), Ok(MalType::Int(42))));
    assert!(matches!(apply(Builtin::Sub, &two), Ok(MalType::Int(-1))));
    assert!(matches!(apply(Builtin::Less, &two), Ok(MalType::Bool(true))));
    assert!(matches!(apply(Builtin::Count, &two), Err(MalErr::ArityOrTypeError)));
    assert!(matches!(apply(Builtin::MakeList, &two), Ok(MalType::List(l)) if l.len() == 2));
}

#[test]
fn scopes_are_searched_outward() {
    let mut env = Env::default();
    assert_eq!(1, env.len());
    env.set("x", MalType::Int(1));
    let inner = env.child(0);
    assert_eq!(1, inner);
    let innermost = env.child(inner);
    env.set_in(inner, "y", MalType::Int(2));
    env.set_in(innermost, "x", MalType::Int(3));
    assert!(matches!(env.find(innermost, "x"), Some(MalType::Int(3))));
    assert!(matches!(env.find(innermost, "y"), Some(MalType::Int(2))));
    assert!(matches!(env.find(inner, "x"), Some(MalType::Int(1))));
    assert!(matches!(env.find(0, "y"), None));
    assert!(matches!(env.get("x"), Some(MalType::Int(1))));
    assert!(matches!(env.find(innermost, "+"), Some(MalType::Func(Builtin::Add))));
    assert!(matches!(env.find(17, "x"), None));
    env.set("x", MalType::Int(10));
    assert!(matches!(env.get("x"), Some(MalType::Int(10))));
    assert!(matches!(env.find(innermost, "x"), Some(MalType::Int(3))));
}

#[test]
fn parameters_are_bound_by_position() {
    let names = vec![MalType::Sym("a".to_string()), MalType::Sym("b".to_string())];
    let values = vec![MalType::Int(1), MalType::Int(2)];
    let env = Env::new(names.clone(), values.clone()).unwrap();
    assert_eq!(2, env.len());
    assert!(matches!(env.find(1, "a"), Some(MalType::Int(1))));
    assert!(matches!(env.find(1, "b"), Some(MalType::Int(2))));
    assert!(matches!(env.find(1, "+"), Some(MalType::Func(Builtin::Add))));
    assert!(env.get("a").is_none());
    assert!(env.get("b").is_none());
    assert!(matches!(env.get("+"), Some(MalType::Func(Builtin::Add))));
    assert!(matches!(Env::new(names.clone(), vec![MalType::Int(1)]), Err(MalErr::ArityOrTypeError)));

    let mut env = Env::default();
    let scope = env.bind(0, &names, &values).unwrap();
    assert_eq!(1, scope);
    assert!(matches!(env.find(scope, "b"), Some(MalType::Int(2))));
    assert!(env.get("b").is_none());
    assert_eq!(Err(MalErr::ArityOrTypeError), env.bind(0, &names, &vec![]));
    assert_eq!(2, env.len());
}

#[test]
fn depth_is_counted_per_nested_evaluation() {
    let mut env = Env::default();
    let one = read_str("1").unwrap();
    let sum = read_str("(+ 1 (+ 2 3))").unwrap();
    assert!(matches!(eval_in(&one, &mut env, 0, 0), Err(MalErr::DepthExceeded)));
    assert!(matches!(eval_in(&one, &mut env, 0, 1), Ok(MalType::Int(1))));
    assert!(matches!(eval_in(&sum, &mut env, 0, 2), Err(MalErr::DepthExceeded)));
    assert!(matches!(eval_in(&sum, &mut env, 0, 3), Ok(MalType::Int(6))));
    assert!(matches!(eval_in(&sum, &mut env, 0, MAX_DEPTH), Ok(MalType::Int(6))));
}
