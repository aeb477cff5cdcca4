use mini_scheme::builtins::append;
use mini_scheme::builtins::car;
use mini_scheme::builtins::cdr;
use mini_scheme::builtins::cons;
use mini_scheme::builtins::eq_;
use mini_scheme::builtins::equal_;
use mini_scheme::builtins::equals;
use mini_scheme::builtins::eqv_;
use mini_scheme::builtins::length;
use mini_scheme::builtins::list;
use mini_scheme::builtins::list_;
use mini_scheme::builtins::not;
use mini_scheme::builtins::null_;
use mini_scheme::builtins::sometimes_ess;
use mini_scheme::builtins::symbol_;
use mini_scheme::environment::Environment;
use mini_scheme::eval::eval;
use mini_scheme::eval::test_eval;
use mini_scheme::expression::Expression;
use mini_scheme::expression::Expression::Bool;
use mini_scheme::expression::Expression::Error;
use mini_scheme::expression::Expression::Float;
use mini_scheme::expression::Expression::Int;
use mini_scheme::expression::Expression::List;
use mini_scheme::expression::Expression::Symbol;
use mini_scheme::parse::parse;

fn env() -> Environment {
    Environment::new_global_environment()
}

fn symbol(name: &str) -> Expression {
    Symbol(name.to_string())
}

fn float(x: f64) -> Expression {
    Float(x.to_bits())
}

fn eqv__(args: Vec<Expression>) -> Expression {
    eqv_(args, &env())
}

#[test]
fn test_eqv_() {
    assert!(Bool(true) == eqv__(vec![Bool(true), Bool(true)]));
    assert!(Bool(true) == eqv__(vec![Bool(false), Bool(false)]));
    assert!(Bool(false) == eqv__(vec![Bool(true), Bool(false)]));
    assert!(Bool(true) == eqv__(vec![symbol("a"), symbol("a")]));
    assert!(Bool(false) == eqv__(vec![symbol("b"), symbol("a")]));
    assert!(Bool(true) == eqv__(vec![Int(1), Int(1)]));
    assert!(Bool(false) == eqv__(vec![Int(2), Int(1)]));
    assert!(Bool(true) == eqv__(vec![float(1.0), float(1.0)]));
    assert!(Bool(false) == eqv__(vec![float(2.0), float(1.0)]));
    assert!(Bool(true) == eqv__(vec![List(vec![]), List(vec![])]));
    assert!(Bool(false) == eqv__(vec![List(vec![Int(1)]), List(vec![])]));

    let environment = env();
    let (proc, environment) = eval(parse("(lambda (x) (* x x))").unwrap(), environment);
    let (proc2, _) = eval(parse("(lambda (x) (* x x))").unwrap(), environment);
    assert!(Bool(true) == eqv__(vec![proc.copy(), proc.copy()]));
    assert!(Bool(false) == eqv__(vec![proc.copy(), proc2.copy()]));
    assert_eq!(proc.to_str(), proc2.to_str());
}

#[test]
fn test_math() {
    assert!(test_eval("(+ 4 2)", "6"));
    assert!(test_eval("(- 4 2)", "2"));
    assert!(test_eval("(/ 4 2)", "2"));
    assert!(test_eval("(* 4 2)", "8"));
    assert!(test_eval("(= 4 2)", "#f"));
    assert!(test_eval("(= 4 4)", "#t"));
}

#[test]
fn test_list() {
    assert!(test_eval("(list? (quote ()))", "#t"));
    assert!(test_eval("(car (quote (1 2 3)))", "1"));
    assert!(test_eval("(cdr (quote (1 2 3)))", "(2 3)"));
    assert!(test_eval("(cons 1 (quote (2 3)))", "(1 2 3)"));
    assert!(test_eval("(list 1)", "(1)"));
    assert!(test_eval("(list)", "()"));
    assert!(test_eval("(list 1 2 3)", "(1 2 3)"));
    assert!(test_eval("(length (list))", "0"));
    assert!(test_eval("(length (list 1))", "1"));
    assert!(test_eval("(length (list 1 2))", "2"));
}

#[test]
fn the_plural_ending() {
    assert_eq!(sometimes_ess(0), "s");
    assert_eq!(sometimes_ess(1), "");
    assert_eq!(sometimes_ess(2), "s");
}

#[test]
fn arithmetic_folds_from_the_left() {
    let e = env();
    assert!(mini_scheme::builtins::add(vec![], &e) == Int(0));
    assert!(mini_scheme::builtins::sub(vec![], &e) == Int(0));
    assert!(mini_scheme::builtins::mul(vec![], &e) == Int(1));
    assert!(mini_scheme::builtins::div(vec![], &e) == Int(1));
    assert!(mini_scheme::builtins::add(vec![Int(5)], &e) == Int(5));
    assert!(mini_scheme::builtins::sub(vec![Int(5)], &e) == Int(-5));
    assert!(mini_scheme::builtins::mul(vec![Int(5)], &e) == Int(5));
    assert!(mini_scheme::builtins::div(vec![Int(5)], &e) == Int(0));
    assert!(mini_scheme::builtins::add(vec![Int(1), Int(2), Int(3)], &e) == Int(6));
    assert!(mini_scheme::builtins::sub(vec![Int(10), Int(2), Int(3)], &e) == Int(5));
    assert!(mini_scheme::builtins::mul(vec![Int(2), Int(3), Int(4)], &e) == Int(24));
    assert!(mini_scheme::builtins::div(vec![Int(100), Int(5), Int(2)], &e) == Int(10));
    assert!(mini_scheme::builtins::add(vec![Int(1), float(0.5), Int(2)], &e) == float(3.5));
    assert!(mini_scheme::builtins::div(vec![Int(1), Int(0)], &e).is_error());
    assert_eq!(mini_scheme::builtins::add(vec![Int(1), symbol("a"), Error("late".to_string())], &e).to_str(), "Error: late");
    assert_eq!(mini_scheme::builtins::add(vec![Int(1), symbol("a")], &e).to_str(), "Error: a was given where a number was expected");
}

#[test]
fn comparisons_hold_of_each_neighbouring_pair() {
    let e = env();
    assert!(mini_scheme::builtins::lt(vec![Int(1), Int(2), Int(3)], &e) == Bool(true));
    assert!(mini_scheme::builtins::lt(vec![Int(1), Int(3), Int(2)], &e) == Bool(false));
    assert!(mini_scheme::builtins::le(vec![Int(1), Int(1), Int(2)], &e) == Bool(true));
    assert!(mini_scheme::builtins::gt(vec![Int(3), Int(2), Int(1)], &e) == Bool(true));
    assert!(mini_scheme::builtins::gt(vec![Int(3), Int(3)], &e) == Bool(false));
    assert!(mini_scheme::builtins::ge(vec![Int(3), Int(3), Int(1)], &e) == Bool(true));
    assert!(mini_scheme::builtins::lt(vec![Int(1), float(1.5)], &e) == Bool(true));
    assert!(equals(vec![Int(4), Int(4), Int(4)], &e) == Bool(true));
    assert!(equals(vec![Int(4), Int(4), Int(2)], &e) == Bool(false));
    assert!(equals(vec![Int(1), float(1.0)], &e) == Bool(true));
    assert_eq!(mini_scheme::builtins::lt(vec![Int(1)], &e).to_str(), "Error: Built-in function '<' takes at least 2 arguments. It was called with 1 '(1)'");
    assert_eq!(equals(vec![], &e).to_str(), "Error: Built-in function '=' takes at least 2 arguments. It was called with 0 '()'");
    assert_eq!(mini_scheme::builtins::ge(vec![Int(1), symbol("a")], &e).to_str(), "Error: a was given where a number was expected");
    assert_eq!(mini_scheme::builtins::le(vec![Int(1), Error("e".to_string())], &e).to_str(), "Error: e");
}

#[test]
fn list_procedures() {
    let e = env();
    let one_two = || List(vec![Int(1), Int(2)]);
    assert!(car(vec![one_two()], &e) == Int(1));
    assert!(cdr(vec![one_two()], &e) == List(vec![Int(2)]));
    assert!(cdr(vec![List(vec![Int(1)])], &e) == List(vec![]));
    assert!(cons(vec![Int(0), one_two()], &e) == List(vec![Int(0), Int(1), Int(2)]));
    assert!(cons(vec![Int(0), Int(1)], &e) == List(vec![Int(0), Int(1)]));
    assert!(append(vec![one_two(), one_two()], &e) == List(vec![Int(1), Int(2), Int(1), Int(2)]));
    assert!(append(vec![one_two(), Int(3)], &e) == List(vec![Int(1), Int(2), Int(3)]));
    assert!(list(vec![], &e) == List(vec![]));
    assert!(list(vec![Int(1), symbol("a")], &e) == List(vec![Int(1), symbol("a")]));
    assert!(length(vec![one_two()], &e) == Int(2));
    assert!(length(vec![List(vec![])], &e) == Int(0));
    assert_eq!(car(vec![List(vec![])], &e).to_str(), "Error: Built-in function 'car' requires a list argument. It was called with ()");
    assert_eq!(car(vec![Int(1)], &e).to_str(), "Error: Built-in function 'car' requires a list argument. It was called with 1");
    assert_eq!(cdr(vec![List(vec![])], &e).to_str(), "Error: Built-in function 'cdr' requires a list argument. It was called with ()");
    assert_eq!(cdr(vec![symbol("a")], &e).to_str(), "Error: Built-in function 'cdr' requires a list argument. It was called with a");
    assert_eq!(append(vec![Int(1), one_two()], &e).to_str(), "Error: Built-in function 'append' requires a list as the first arguments. It was called with (1 (1 2))");
    assert_eq!(length(vec![Int(1)], &e).to_str(), "Error: Built-in function 'length' requires a list argument. It was called with (1)");
    assert_eq!(car(vec![], &e).to_str(), "Error: Built-in function 'car' takes only 1 argument. It was called with 0 '()'.");
    assert_eq!(cons(vec![Int(1)], &e).to_str(), "Error: Built-in function 'cons' takes only 2 arguments. It was called with 1 '(1)'.");
    assert_eq!(cons(vec![Int(1), Error("x".to_string())], &e).to_str(), "Error: x");
    assert_eq!(list(vec![Int(1), Error("x".to_string()), Error("y".to_string())], &e).to_str(), "Error: x");
}

#[test]
fn predicates() {
    let e = env();
    assert!(not(vec![Bool(false)], &e) == Bool(true));
    assert!(not(vec![Int(0)], &e) == Bool(true));
    assert!(not(vec![Int(3)], &e) == Bool(false));
    assert!(not(vec![List(vec![])], &e) == Bool(false));
    assert!(not(vec![], &e).is_error());
    assert!(symbol_(vec![symbol("a")], &e) == Bool(true));
    assert!(symbol_(vec![Int(1)], &e) == Bool(false));
    assert!(list_(vec![List(vec![])], &e) == Bool(true));
    assert!(list_(vec![Int(1)], &e) == Bool(false));
    assert!(null_(vec![List(vec![])], &e) == Bool(true));
    assert!(null_(vec![List(vec![Int(1)])], &e) == Bool(false));
    assert!(null_(vec![Int(1)], &e) == Bool(false));
    assert!(equal_(vec![List(vec![Int(1)]), List(vec![Int(1)])], &e) == Bool(true));
    assert!(eq_(vec![symbol("a"), symbol("b")], &e) == Bool(false));
    assert_eq!(eq_(vec![symbol("a")], &e).to_str(), "Error: Built-in function 'eq?' takes only 2 arguments. It was called with 1 '(a)'.");
    assert_eq!(equal_(vec![], &e).to_str(), "Error: Built-in function 'equal?' takes only 2 arguments. It was called with 0 '()'.");
    assert_eq!(eqv_(vec![Int(1), Int(1), Int(1)], &e).to_str(), "Error: Built-in function 'eqv?' takes only 2 arguments. It was called with 3 '(1 1 1)'.");
}
