use mini_scheme::expression::is_truthy;
use mini_scheme::expression::stringify_expression;
use mini_scheme::expression::Builtin;
use mini_scheme::expression::Expression;
use mini_scheme::expression::Expression::Bool;
use mini_scheme::expression::Expression::Error;
use mini_scheme::expression::Expression::Float;
use mini_scheme::expression::Expression::Int;
use mini_scheme::expression::Expression::List;
use mini_scheme::expression::Expression::Symbol;

fn float(x: f64) -> Expression {
    Float(x.to_bits())
}

fn symbol(name: &str) -> Expression {
    Symbol(name.to_string())
}

fn as_f64(e: &Expression) -> f64 {
    match e {
        Float(bits) => f64::from_bits(*bits),
        other => panic!("no float: {:?}", other),
    }
}

#[test]
fn test_that_adding_non_numbers_gives_an_error() {
    assert!(Int(1).add(&symbol("a")).is_error());
}

#[test]
fn test_to_bool_returns_true_for_non_zero_numbers() {
    assert!(Int(1).to_bool());
    assert!(Int(-1).to_bool());
    assert!(float(1.0).to_bool());
    assert!(float(-1.0).to_bool());
}

#[test]
fn test_to_bool_returns_false_for_zero_numbers() {
    assert!(!Int(0).to_bool());
    assert!(!float(0.0).to_bool());
}

#[test]
fn test_is_truthy_returns_true_for_non_zero_numbers() {
    assert!(is_truthy(Int(1)));
    assert!(is_truthy(Int(-1)));
    assert!(is_truthy(float(1.0)));
    assert!(is_truthy(float(-1.0)));
}

#[test]
fn test_is_truthy_returns_false_for_zero_numbers() {
    assert!(!is_truthy(Int(0)));
    assert!(!is_truthy(float(0.0)));
}

#[test]
fn test_that_integers_are_comparable() {
    assert!(Int(1) == Int(1));
    assert!(Int(1) != Int(2));
}

#[test]
fn test_that_floats_are_comparable() {
    assert!(float(1.0) == float(1.0));
    assert!(float(1.0) != float(2.0));
}

#[test]
fn test_that_symbols_are_comparable() {
    assert!(symbol("1") == symbol("1"));
    assert!(symbol("1") != symbol("2"));
}

#[test]
fn test_that_vectors_are_comparable() {
    assert!(List(vec![Int(1)]) == List(vec![Int(1)]));
    assert!(List(vec![Int(1)]) != List(vec![Int(2)]));
}

#[test]
fn truth_of_every_kind_of_value() {
    assert!(Bool(true).to_bool());
    assert!(!Bool(false).to_bool());
    assert!(!float(-0.0).to_bool());
    assert!(float(f64::NAN).to_bool());
    assert!(List(vec![]).to_bool());
    assert!(symbol("x").to_bool());
    assert!(Error("no".to_string()).to_bool());
    assert!(Expression::Proc(Builtin::Car).to_bool());
}

#[test]
fn equality_of_every_kind_of_value() {
    assert!(Bool(true) == Bool(true));
    assert!(Bool(true) != Bool(false));
    assert!(Int(1) != float(1.0));
    assert!(float(0.0) == float(-0.0));
    assert!(float(f64::NAN) != float(f64::NAN));
    assert!(Error("a".to_string()) != Error("a".to_string()));
    assert!(List(vec![]) == List(vec![]));
    assert!(List(vec![Int(1)]) != List(vec![]));
    assert!(List(vec![Int(1), List(vec![symbol("a")])]) == List(vec![Int(1), List(vec![symbol("a")])]));
    assert!(List(vec![Error("a".to_string())]) != List(vec![Error("a".to_string())]));
    assert!(Expression::Proc(Builtin::Car) == Expression::Proc(Builtin::Car));
    assert!(Expression::Proc(Builtin::Car) != Expression::Proc(Builtin::Cdr));
    let closure = |scope: usize, identity: u64| Expression::Lambda(Box::new(Int(1)), vec![symbol("x")], scope, identity);
    assert!(closure(0, 1) == closure(0, 1));
    assert!(closure(0, 1) != closure(0, 2));
    assert!(closure(0, 1) != closure(1, 1));
}

#[test]
fn arithmetic_on_integers_wraps_and_truncates() {
    assert!(Int(4).add(&Int(2)) == Int(6));
    assert!(Int(4).sub(&Int(6)) == Int(-2));
    assert!(Int(4).mul(&Int(-2)) == Int(-8));
    assert!(Int(7).div(&Int(2)) == Int(3));
    assert!(Int(-7).div(&Int(2)) == Int(-3));
    assert!(Int(7).div(&Int(-2)) == Int(-3));
    assert!(Int(-7).div(&Int(-2)) == Int(3));
    assert!(Int(0).div(&Int(5)) == Int(0));
    assert!(Int(i64::MAX).add(&Int(1)) == Int(i64::MIN));
    assert!(Int(i64::MIN).sub(&Int(1)) == Int(i64::MAX));
    assert!(Int(i64::MAX).mul(&Int(2)) == Int(-2));
    assert!(Int(i64::MIN).div(&Int(-1)) == Int(i64::MIN));
    assert_eq!(Int(1).div(&Int(0)).to_str(), "Error: Division by zero");
}

#[test]
fn arithmetic_with_a_float_is_done_in_floats() {
    assert_eq!(as_f64(&float(1.5).add(&float(2.25))), 3.75);
    assert_eq!(as_f64(&float(1.5).sub(&float(2.25))), -0.75);
    assert_eq!(as_f64(&float(1.5).mul(&float(2.0))), 3.0);
    assert_eq!(as_f64(&float(1.0).div(&float(4.0))), 0.25);
    assert_eq!(as_f64(&Int(1).add(&float(0.5))), 1.5);
    assert_eq!(as_f64(&float(0.5).mul(&Int(3))), 1.5);
    assert_eq!(as_f64(&float(0.1).add(&float(0.2))), 0.1 + 0.2);
    assert_eq!(as_f64(&float(1.0).div(&float(3.0))), 1.0 / 3.0);
    assert_eq!(as_f64(&float(1.0).div(&Int(0))), f64::INFINITY);
    assert!(as_f64(&float(0.0).div(&float(0.0))).is_nan());
    assert_eq!(as_f64(&Int(9007199254740993).add(&float(0.0))), 9007199254740993i64 as f64);
}

#[test]
fn arithmetic_hands_errors_on() {
    assert_eq!(Error("a".to_string()).add(&Int(1)).to_str(), "Error: a");
    assert_eq!(Int(1).add(&Error("b".to_string())).to_str(), "Error: b");
    assert_eq!(symbol("x").add(&Error("b".to_string())).to_str(), "Error: b");
    assert_eq!(symbol("x").mul(&Int(1)).to_str(), "Error: x was given where a number was expected");
    assert_eq!(float(1.0).sub(&List(vec![Int(1)])).to_str(), "Error: (1) was given where a number was expected");
}

#[test]
fn order_of_numbers() {
    assert!(Int(1).lt(&Int(2)));
    assert!(!Int(2).lt(&Int(2)));
    assert!(Int(2).le(&Int(2)));
    assert!(Int(3).gt(&Int(2)));
    assert!(Int(2).ge(&Int(2)));
    assert!(float(1.5).lt(&Int(2)));
    assert!(Int(1).lt(&float(1.5)));
    assert!(float(-1.5).lt(&float(-1.0)));
    assert!(float(-1.0).lt(&float(0.5)));
    assert!(!float(0.0).lt(&float(-0.0)));
    assert!(float(0.0).le(&float(-0.0)));
    assert!(float(f64::NEG_INFINITY).lt(&float(f64::INFINITY)));
    assert!(!float(f64::NAN).lt(&float(1.0)));
    assert!(!float(f64::NAN).ge(&float(1.0)));
    assert!(!float(1.0).le(&float(f64::NAN)));
    assert!(!symbol("a").lt(&Int(1)));
    assert!(!symbol("a").ge(&Int(1)));
}

#[test]
fn printed_forms() {
    assert_eq!(Bool(true).to_str(), "#t");
    assert_eq!(Bool(false).to_str(), "#f");
    assert_eq!(Int(0).to_str(), "0");
    assert_eq!(Int(-120).to_str(), "-120");
    assert_eq!(Int(i64::MIN).to_str(), "-9223372036854775808");
    assert_eq!(Int(i64::MAX).to_str(), "9223372036854775807");
    assert_eq!(symbol("xyz").to_str(), "xyz");
    assert_eq!(Error("bad".to_string()).to_str(), "Error: bad");
    assert_eq!(List(vec![]).to_str(), "()");
    assert_eq!(List(vec![Int(1)]).to_str(), "(1)");
    assert_eq!(List(vec![Int(1), List(vec![float(1.0), symbol("xyz")])]).to_str(), "(1 (1.0 xyz))");
    assert_eq!(Expression::Proc(Builtin::Car).to_str(), "procedure: car");
    assert_eq!(Expression::Lambda(Box::new(Int(1)), vec![], 0, 0).to_str(), "Lambda");
    assert_eq!(stringify_expression(List(vec![Int(1), Int(2)])), "(1 2)");
}

#[test]
fn printed_forms_of_floats() {
    assert_eq!(float(1.0).to_str(), "1.0");
    assert_eq!(float(-3.0).to_str(), "-3.0");
    assert_eq!(float(0.0).to_str(), "0.0");
    assert_eq!(float(-0.0).to_str(), "-0.0");
    assert_eq!(float(1e15).to_str(), "1000000000000000.0");
    assert_eq!(float(9223372036854775808.0).to_str(), "9223372036854775808.0");
    assert_eq!(float(10.1).to_str(), "10.1");
    assert_eq!(float(0.5).to_str(), "0.5");
    assert_eq!(float(-2.25).to_str(), "-2.25");
    assert_eq!(float(f64::NAN).to_str(), "NaN");
    assert_eq!(float(f64::INFINITY).to_str(), "+Inf");
    assert_eq!(float(f64::NEG_INFINITY).to_str(), "-Inf");
}

#[test]
fn a_copy_has_the_same_printed_form_and_is_equal() {
    let e = List(vec![Int(1), symbol("a"), List(vec![float(2.5), Bool(true)])]);
    let c = e.copy();
    assert_eq!(e.to_str(), c.to_str());
    assert!(e == c);
}

#[test]
fn a_procedure_as_a_value() {
    assert!(Expression::new_proc(Builtin::Cons) == Expression::Proc(Builtin::Cons));
    assert_eq!(Expression::new_proc(Builtin::IsNull).to_str(), "procedure: null?");
    assert_eq!(Builtin::Le.name(), "<=");
}

#[test]
fn a_large_double_without_a_fraction_has_all_its_digits() {
    let two_to_127 = 170141183460469231731687303715884105728.0f64;
    assert_eq!(float(two_to_127).to_str(), "170141183460469231731687303715884105728.0");
    assert_eq!(float(-two_to_127).to_str(), "-170141183460469231731687303715884105728.0");
    assert_eq!(float(two_to_127 / 2.0).to_str(), "85070591730234615865843651857942052864.0");
    for x in [1e300f64, -1e200, f64::MAX, f64::MIN, two_to_127 * 3.0, 1e39, 1.7976931348623157e308, 1e22, 9007199254740992.0] {
        assert_eq!(float(x).to_str(), format!("{:.1}", x), "{:e}", x);
    }
    assert_eq!(float(f64::INFINITY).to_str(), "+Inf");
    assert_eq!(float(f64::NAN).to_str(), "NaN");
}
