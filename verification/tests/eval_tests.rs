use mini_scheme::environment::Environment;
use mini_scheme::eval::eval;
use mini_scheme::eval::eval_in;
use mini_scheme::eval::evaluate;
use mini_scheme::eval::test_env;
use mini_scheme::eval::test_eval;
use mini_scheme::eval::test_eval_fails;
use mini_scheme::eval::test_eval_to_error;
use mini_scheme::eval::DEPTH_LIMIT;
use mini_scheme::expression::Expression;
use mini_scheme::expression::Expression::Int;
use mini_scheme::expression::Expression::List;
use mini_scheme::expression::Expression::Symbol;
use mini_scheme::parse::parse;
use mini_scheme::parse::SyntaxError;

fn symbol(name: &str) -> Expression {
    Symbol(name.to_string())
}

fn run(text: &str) -> String {
    eval(parse(text).unwrap(), test_env()).0.to_str()
}

fn run_all(texts: &[&str]) -> Vec<String> {
    let mut env = test_env();
    let mut out = Vec::new();
    for text in texts {
        let (value, next) = eval(parse(text).unwrap(), env);
        out.push(value.to_str());
        env = next;
    }
    out
}

#[test]
fn test_eval_empty_list_returns_itself() {
    assert!(test_eval("()", "()"));
}

#[test]
fn rusty_test_eval_returns_number_when_passed_number() {
    assert!(test_eval("1", "1"));
    let (value, _) = eval(Int(1), Environment::new_global_environment());
    assert!(matches!(value, Int(1)));
}

#[test]
fn rusty_test_eval_returns_expression_when_passed_quote() {
    assert!(test_eval("(quote (a))", "(a)"));
    let (value, _) = eval(
        List(vec![symbol("quote"), List(vec![symbol("a")])]),
        Environment::new_global_environment(),
    );
    println!("{}", value.to_str());
    match value {
        List(items) => {
            assert_eq!(items.len(), 1);
            assert!(matches!(&items[0], Symbol(name) if name == "a"));
        },
        _ => panic!("no list"),
    }
}

#[test]
fn rusty_test_eval_returns_last_expression_when_passed_begin() {
    assert!(test_eval("(begin 1 2 3)", "3"));
    let (value, _) = eval(parse("(begin 1 2 3)").unwrap(), Environment::new_global_environment());
    assert!(matches!(value, Int(3)));
}

#[test]
fn rusty_test_if_returns_third_part_when_if_is_true() {
    assert!(test_eval("(if 1 2 3)", "2"));
    let (value, _) = eval(parse("(if 1 2 3)").unwrap(), Environment::new_global_environment());
    assert!(matches!(value, Int(2)));
}

#[test]
fn rusty_test_if_returns_fourth_part_when_if_is_false() {
    assert!(test_eval("(if 0 2 3)", "3"));
    let (value, _) = eval(parse("(if 0 2 3)").unwrap(), Environment::new_global_environment());
    assert!(matches!(value, Int(3)));
}

#[test]
fn rusty_test_that_if_evaluates_the_then_branch() {
    let expression = "(if 1 (begin 1 2) 7)";
    assert!(test_eval_fails(expression, "(begin 1 2)", "if just returned the raw then"));
    assert!(test_eval(expression, "2"));
    let (value, _) = eval(parse(expression).unwrap(), Environment::new_global_environment());
    match value {
        Int(2) => (),
        List(_) => panic!("If just returned the then branch"),
        other => panic!("If returned something unusual ({})", other.to_str()),
    }
}

#[test]
fn rusty_test_that_if_evaluates_the_else_branch() {
    let expression = "(if 0 7 (begin 1 2))";
    assert!(test_eval_fails(expression, "(begin 1 2)", "if just returned the else branch"));
    assert!(test_eval(expression, "2"));
    let (value, _) = eval(parse(expression).unwrap(), Environment::new_global_environment());
    match value {
        Int(2) => (),
        List(_) => panic!("If just returned the else branch"),
        other => panic!("If returned something unusual ({})", other.to_str()),
    }
}

#[test]
fn rusty_test_that_if_evaluates_the_test() {
    let expression = "(if (begin 1 0) 1 2)";
    assert!(test_eval_fails(expression, "1", "if didn't evaluate the test"));
    assert!(test_eval(expression, "2"));
    let (value, _) = eval(parse(expression).unwrap(), Environment::new_global_environment());
    match value {
        Int(1) => panic!("If didn't evaluate the test"),
        Int(2) => (),
        other => panic!("If returned something unusual ({})", other.to_str()),
    }
}

#[test]
fn rusty_test_that_bare_symbol_is_interpreted_as_variable() {
    let mut env = test_env();
    env.define(0, "monkey".to_string(), Int(10));
    let expression = parse("monkey").unwrap();
    let (value, _) = eval(expression, env);
    match value {
        Int(10) => (),
        other => panic!("Expected 10 got {}", other.to_str()),
    }
}

#[test]
fn rusty_test_that_undefined_symbol_is_an_error() {
    let expression = "monkey";
    assert!(test_eval_to_error(expression, "Undefined symbol wasn't an error"));
    assert_eq!(run(expression), "Error: Undefined symbol monkey");
}

#[test]
fn rusty_test_that_define_can_add_a_variable() {
    let env = test_env();
    let expression = parse("(define x 10)").unwrap();
    let (value, env) = eval(expression, env);
    match env.lookup(0, "x") {
        Some(Int(10)) => (),
        _ => panic!("Expected 10 got {}", value.to_str()),
    }
    assert_eq!(value.to_str(), "x");
}

#[test]
fn test_that_set_cannot_create_a_variable() {
    let env = test_env();
    let expression = parse("(set! x 10)").unwrap();
    let (value, env) = eval(expression, env);
    match value {
        Expression::Error(_) => (),
        _ => panic!("set! created a variable"),
    }
    assert!(env.lookup(0, "x").is_none());
}

#[test]
fn test_that_set_can_change_a_variable() {
    let mut env = test_env();
    env.define(0, "x".to_string(), Int(100));
    let expression = parse("(set! x 10)").unwrap();
    let (value, env) = eval(expression, env);
    match env.lookup(0, "x") {
        Some(Int(10)) => (),
        _ => panic!("Expected 10 got {}", value.to_str()),
    }
}

#[test]
fn test_that_set_returns_the_value_not_the_key() {
    let mut env = test_env();
    env.define(0, "x".to_string(), Int(100));
    let expression = parse("(set! x 10)").unwrap();
    let (value, _) = eval(expression, env);
    match value {
        Int(10) => (),
        Symbol(_) => panic!("set! returned the key, not the value"),
        other => panic!("Expected 10 got {}", other.to_str()),
    }
}

#[test]
fn test_that_begin_can_handle_one_argument() {
    let env = test_env();
    let expression = parse("(begin 10)").unwrap();
    let (value, _) = eval(expression, env);
    match value {
        Int(10) => (),
        other => panic!("Expected 10 got {}", other.to_str()),
    }
}

#[test]
fn test_that_begin_evaluates_all_arguments() {
    let env = test_env();
    let expression = parse("(begin (define x 10) x)").unwrap();
    let (value, env) = eval(expression, env);
    match env.lookup(0, "x") {
        Some(Int(10)) => (),
        _ => panic!("Expected 10 got {}", value.to_str()),
    }
    match value {
        Int(10) => (),
        other => panic!("Expected 10 got {}", other.to_str()),
    }
}

#[test]
fn test_that_other_symbols_are_evaluated_as_procs() {
    let env = test_env();
    let expression = parse("(+ 1 2)").unwrap();
    let (value, _) = eval(expression, env);
    match value {
        Int(3) => (),
        other => panic!("(+ 1 2) became {}", other.to_str()),
    }
}

#[test]
fn test_that_proc_params_are_evaluated() {
    let env = test_env();
    let expression = parse("(+ (+ 1 2) 3)").unwrap();
    let (value, _) = eval(expression, env);
    match value {
        Int(6) => (),
        other => panic!("(+ (+ 1 2) 3) became {}", other.to_str()),
    }
}

#[test]
fn test_that_lambda_evaluates_to_a_lambda() {
    let env = test_env();
    let expression = parse("(lambda (x) (* x x))").unwrap();
    let (value, _) = eval(expression, env);
    match value {
        Expression::Lambda(_, _, _, _) => (),
        _ => panic!("lambda doesn't turn into a Proc"),
    }
}

#[test]
fn test_that_lambda_without_variables_evals() {
    let env = test_env();
    let expression = parse("( (lambda () (+ 1 1))  )").unwrap();
    let (value, _) = eval(expression, env);
    match value {
        Int(2) => (),
        other => panic!("lambda evaluated to {}", other.to_str()),
    }
}

#[test]
fn test_that_lambda_with_a_variable_evals() {
    let env = test_env();
    let expression = parse("( (lambda (x) (+ x 1)) 1  )").unwrap();
    let (value, _) = eval(expression, env);
    match value {
        Int(2) => (),
        other => panic!("lambda evaluated to {}", other.to_str()),
    }
}

#[test]
fn sums_differences_products_and_quotients_of_two_integers() {
    for (a, b) in [(4i64, 2i64), (-7, 3), (0, 5), (123456789, -987654321), (7, -2), (-9, -4)] {
        assert_eq!(run(&format!("(+ {} {})", a, b)), (a + b).to_string());
        assert_eq!(run(&format!("(- {} {})", a, b)), (a - b).to_string());
        assert_eq!(run(&format!("(* {} {})", a, b)), (a * b).to_string());
        assert_eq!(run(&format!("(/ {} {})", a, b)), (a / b).to_string());
    }
    assert_eq!(run("(/ 1 0)"), "Error: Division by zero");
    assert_eq!(run("(+ 9223372036854775807 1)"), "-9223372036854775808");
}

#[test]
fn zero_is_the_only_false_integer() {
    assert_eq!(run("(if 0 2 3)"), "3");
    assert_eq!(run("(if 1 2 3)"), "2");
    assert_eq!(run("(if -1 2 3)"), "2");
    assert_eq!(run("(if 0.0 2 3)"), "3");
    assert_eq!(run("(if (quote ()) 2 3)"), "2");
    assert_eq!(run("(if (quote a) 2 3)"), "2");
    assert_eq!(run("(if (not 1) 2 3)"), "3");
}

#[test]
fn quote_does_not_evaluate() {
    assert_eq!(run("(quote (a b c))"), "(a b c)");
    assert_eq!(run("(quote a)"), "a");
    assert_eq!(run("(quote (+ 1 2))"), "(+ 1 2)");
    assert_eq!(run("(quote)"), "Error: Syntax Error: quote must take a single argument");
    assert_eq!(run("(quote a b)"), "Error: Syntax Error: quote must take a single argument");
}

#[test]
fn a_closure_is_called_with_its_argument() {
    assert_eq!(run("((lambda (x) (+ x 1)) 41)"), "42");
    assert_eq!(run("((lambda (x y) (- x y)) 10 4)"), "6");
    assert_eq!(run("((lambda (x x) x) 1 2)"), "2");
}

#[test]
fn two_closures_from_one_text_differ() {
    let out = run_all(&[
        "(define f (lambda (x) x))",
        "(define g (lambda (x) x))",
        "(equal? f g)",
        "(equal? f f)",
        "(eq? g g)",
        "f",
        "g",
    ]);
    assert_eq!(out[2], "#f");
    assert_eq!(out[3], "#t");
    assert_eq!(out[4], "#t");
    assert_eq!(out[5], out[6]);
}

#[test]
fn car_of_the_empty_list_is_an_error() {
    assert!(test_eval_to_error("(car (quote ()))", "car of nothing"));
    assert!(test_eval_to_error("(cdr (quote ()))", "cdr of nothing"));
}

#[test]
fn scoping_is_lexical() {
    let out = run_all(&[
        "(define x 1)",
        "(define get (lambda () x))",
        "(define call (lambda (x) (get)))",
        "(call 2)",
        "(define make (lambda (n) (lambda () n)))",
        "(define seven (make 7))",
        "(define n 0)",
        "(seven)",
    ]);
    assert_eq!(out[3], "1");
    assert_eq!(out[7], "7");
}

#[test]
fn closures_of_one_scope_share_its_bindings() {
    let out = run_all(&[
        "(define make (lambda (count) (list (lambda () (set! count (+ count 1))) (lambda () count))))",
        "(define pair (make 10))",
        "(define up (car pair))",
        "(define now (car (cdr pair)))",
        "(up)",
        "(up)",
        "(now)",
        "(define other (make 0))",
        "((car (cdr other)))",
        "(now)",
    ]);
    assert_eq!(out[4], "11");
    assert_eq!(out[5], "12");
    assert_eq!(out[6], "12");
    assert_eq!(out[8], "0");
    assert_eq!(out[9], "12");
}

#[test]
fn define_binds_in_the_current_scope_only() {
    let out = run_all(&[
        "(define x 1)",
        "((lambda () (begin (define x 2) x)))",
        "x",
        "((lambda () (begin (set! x 3) x)))",
        "x",
    ]);
    assert_eq!(out[0], "x");
    assert_eq!(out[1], "2");
    assert_eq!(out[2], "1");
    assert_eq!(out[3], "3");
    assert_eq!(out[4], "3");
}

#[test]
fn errors_are_values() {
    assert_eq!(run("(1 2)"), "Error: 1 is not a procedure");
    assert_eq!(run("(nothing 2)"), "Error: Error: Undefined symbol nothing is not a procedure");
    assert_eq!(run("(+ 1 nothing)"), "Error: Undefined symbol nothing");
    assert_eq!(run("(< nothing)"), "Error: Undefined symbol nothing");
    assert_eq!(run("((lambda (x) x) nothing)"), "Error: Undefined symbol nothing");
    assert_eq!(run("((lambda (x) x))"), "Error: Lambda takes 1 argument but was called with 0");
    assert_eq!(run("((lambda (x y) x) 1 2 3)"), "Error: Lambda takes 2 arguments but was called with 3");
    assert_eq!(run("((lambda (1) 2) 3)"), "Error: Variable names must be symbols");
    assert_eq!(run("(begin)"), "Error: Syntax Error: begin must take at least one argument");
    assert_eq!(run("(if 1 2)"), "Error: Syntax Error: if must take three arguments");
    assert_eq!(run("(define x)"), "Error: Syntax Error: define must take two arguments");
    assert_eq!(run("(define 1 2)"), "Error: Syntax Error: define takes a symbol as its first argument");
    assert_eq!(run("(set! x)"), "Error: Syntax Error: set! must take two arguments");
    assert_eq!(run("(set! 1 2)"), "Error: Syntax Error: set! takes a symbol as its first argument");
    assert_eq!(run("(set! x 2)"), "Error: Syntax Error: set! cannot create a variable");
    assert_eq!(run("(lambda x 1)"), "Error: Syntax Error: lambda requires 2 arguments, got 2");
    assert_eq!(run("(lambda (x))"), "Error: Syntax Error: lambda requires 2 arguments, got 1");
    assert_eq!(run("(define x nothing)"), "x");
}

#[test]
fn values_evaluate_to_themselves() {
    assert_eq!(run("12"), "12");
    assert_eq!(run("1.5"), "1.5");
    assert_eq!(run("()"), "()");
    assert_eq!(run("car"), "procedure: car");
    let (value, _) = eval(Expression::Error("e".to_string()), test_env());
    assert_eq!(value.to_str(), "Error: e");
    let (value, _) = eval(Expression::Bool(true), test_env());
    assert_eq!(value.to_str(), "#t");
}

#[test]
fn floats_in_programs() {
    assert_eq!(run("(+ 1.5 2)"), "3.5");
    assert_eq!(run("(* 2 0.25)"), "0.5");
    assert_eq!(run("(+ 0.5 0.5)"), "1.0");
    assert_eq!(run("(/ 1.0 4)"), "0.25");
    assert_eq!(run("(< 1 1.5 2)"), "#t");
    assert_eq!(run("(= 2 2.0)"), "#t");
    assert_eq!(run("(- 1.5)"), "-1.5");
}

#[test]
fn evaluations_that_nest_too_deeply_end_in_an_error() {
    let out = run_all(&["(define loop (lambda (n) (loop (+ n 1))))", "(loop 0)", "(+ 1 2)"]);
    assert!(out[1].starts_with("Error: "), "{}", out[1]);
    assert!(out[1].contains("Evaluation is nested too deeply"), "{}", out[1]);
    assert_eq!(out[2], "3");
    let mut env = test_env();
    let e = parse("(+ 1 (+ 2 3))").unwrap();
    assert_eq!(eval_in(&e, 0, &mut env, 0).to_str(), "Error: Evaluation is nested too deeply");
    assert_eq!(eval_in(&e, 0, &mut env, 3).to_str(), "6");
    assert_eq!(
        eval_in(&e, 0, &mut env, 2).to_str(),
        "Error: Error: Evaluation is nested too deeply is not a procedure"
    );
    assert_eq!(eval_in(&Int(1), 0, &mut env, 1).to_str(), "1");
    assert_eq!(eval_in(&e, 0, &mut env, DEPTH_LIMIT).to_str(), "6");
}

#[test]
fn recursion_within_the_limit() {
    let out = run_all(&[
        "(define fact (lambda (n) (if (< n 2) 1 (* n (fact (- n 1))))))",
        "(fact 10)",
        "(fact 20)",
        "(define count (lambda (n) (if (= n 0) 0 (+ 1 (count (- n 1))))))",
        "(count 50)",
    ]);
    assert_eq!(out[1], "3628800");
    assert_eq!(out[2], "2432902008176640000");
    assert_eq!(out[4], "50");
}

#[test]
fn evaluate_reads_and_evaluates() {
    let (value, env) = evaluate("(define x (+ 1 2))", test_env());
    assert_eq!(value.unwrap().to_str(), "x");
    let (value, env) = evaluate("(* x x)", env);
    assert_eq!(value.unwrap().to_str(), "9");
    let (value, env) = evaluate("(* x", env);
    assert!(matches!(value, Err(SyntaxError::UnexpectedEnd)));
    let (value, _) = evaluate("x", env);
    assert_eq!(value.unwrap().to_str(), "3");
}

#[test]
fn a_closure_of_another_environment_is_refused() {
    let closure = Expression::Lambda(Box::new(Int(1)), vec![], 5, 0);
    let (value, _) = eval(List(vec![closure]), test_env());
    assert_eq!(value.to_str(), "Error: The scope of the closure is not in this environment");
}

#[test]
fn the_scopes_of_a_call_are_discarded_where_no_closure_was_made() {
    let mut env = test_env();
    for text in [
        "(define count (lambda (n) (if (= n 0) 0 (+ 1 (count (- n 1))))))",
        "(count 30)",
        "((lambda (x) (begin (define y x) y)) 5)",
    ] {
        let (_, next) = eval(parse(text).unwrap(), env);
        env = next;
    }
    assert_eq!(env.scope_count(), 1);
    let (_, env) = eval(parse("(define seven ((lambda (n) (lambda () n)) 7))").unwrap(), env);
    assert_eq!(env.scope_count(), 2);
    let (value, env) = eval(parse("(seven)").unwrap(), env);
    assert_eq!(value.to_str(), "7");
    assert_eq!(env.scope_count(), 2);
}

#[test]
fn the_helpers_decide_by_equality_of_values() {
    assert!(test_eval("(quote (a (b 2)))", "(a (b 2))"));
    assert!(test_eval("(* -1 0.0)", "0.0"));
    assert!(!test_eval_fails("(* -1 0.0)", "0.0", "the two zeros are one number"));
    assert!(!test_eval("(+ 1 0.5)", "1"));
    assert!(!test_eval("(lambda (x) x)", "Lambda"));
    assert!(test_eval_fails("(lambda (x) x)", "Lambda", "a symbol is no closure"));
    assert!(!test_eval("car", "procedure:"));
    assert!(!test_eval("(car (quote ()))", "x"));
    assert!(test_eval_fails("(car (quote ()))", "x", "an error equals nothing"));
    assert!(!test_eval("nothing", "nothing"));
    assert!(!test_eval("(1", "1"));
    assert!(!test_eval_fails("(1", "1", "no expression"));
    assert!(!test_eval("1", ")"));
}

#[test]
fn the_helpers_take_the_printed_form_of_a_truth_value() {
    assert!(test_eval("(= 4 4)", "#t"));
    assert!(test_eval("(= 4 2)", "#f"));
    assert!(!test_eval("(= 4 4)", "#f"));
    assert!(test_eval_fails("(= 4 4)", "#f", "true is not false"));
    assert!(!test_eval_fails("(= 4 4)", "#t", "true is true"));
    assert!(test_eval("(quote #t)", "#t"));
    assert!(!test_eval("(quote #t)", "#f"));
    assert!(!test_eval("1", "#t"));
}
