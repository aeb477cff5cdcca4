use mini_scheme::environment::Environment;
use mini_scheme::environment::EnvironmentError;
use mini_scheme::expression::Builtin;
use mini_scheme::expression::Expression;
use mini_scheme::expression::Expression::Int;

fn is_int(e: &Option<Expression>, n: i64) -> bool {
    matches!(e, Some(Expression::Int(x)) if *x == n)
}

#[test]
fn test_environment_accepts_new_value_and_returns_it() {
    let mut env = Environment::new_global_environment();
    let global = env.global();
    env.define(global, "monkey".to_string(), Int(1));
    env.define(global, "turkey".to_string(), Int(2));
    assert!(is_int(&env.lookup(global, "monkey"), 1), "Monkey wasn't an Int(1)");
    assert!(is_int(&env.lookup(global, "turkey"), 2), "Turkey wasn't an Int(2)");
}

#[test]
fn test_environment_allows_values_to_change() {
    let mut env = Environment::new_global_environment();
    let global = env.global();
    env.define(global, "monkey".to_string(), Int(1));
    assert!(is_int(&env.lookup(global, "monkey"), 1), "Monkey wasn't an Int(1) before mutation");
    env.define(global, "monkey".to_string(), Int(2));
    assert!(is_int(&env.lookup(global, "monkey"), 2), "Monkey wasn't an Int(2) after mutation");
}

#[test]
fn test_environment_checks_enclosing_environment() {
    let mut env = Environment::new_global_environment();
    let enclosure = env.global();
    env.define(enclosure, "monkey".to_string(), Int(1));
    let scope = env.new(enclosure);
    assert!(is_int(&env.lookup(scope, "monkey"), 1), "monkey wasn't found in env or enclosure... he's escaped?");
    assert!(is_int(&env.check_enclosure(scope, "monkey"), 1));
    assert!(env.check_enclosure(enclosure, "monkey").is_none());
}

#[test]
fn test_environments_with_shared_mapping_sets_share_changes() {
    let mut env = Environment::new_global_environment();
    let global_env = env.global();
    env.define(global_env, "monkey".to_string(), Int(1));
    let sub_env1 = env.new(global_env);
    let sub_env2 = env.new(global_env);
    assert!(env.reset(sub_env1, "monkey".to_string(), Int(2)).is_ok());
    match env.lookup(sub_env2, "monkey") {
        Some(Int(1)) => panic!("My monkeys are out of sync"),
        Some(Int(2)) => (),
        None => panic!("Monkey not found."),
        _ => panic!("Monkey of unexpected value"),
    }
}

#[test]
fn test_changes_to_new_scope_are_not_reflected_in_original_env() {
    let mut environment = Environment::new_global_environment();
    let env = environment.global();
    environment.define(env, "monkey".to_string(), Int(1));
    let sub_env = environment.new(env);
    environment.define(sub_env, "monkey".to_string(), Int(2));
    match environment.lookup(env, "monkey") {
        Some(Int(1)) => (),
        Some(Int(2)) => panic!("My monkey was changed!"),
        Some(_) => panic!("This is not my monkey"),
        _ => panic!("Where is my monkey?"),
    }
    assert!(is_int(&environment.lookup(sub_env, "monkey"), 2));
}

#[test]
fn test_changes_to_nested_scope_are_reflected_in_original_env() {
    let mut environment = Environment::new_global_environment();
    let env = environment.global();
    environment.define(env, "monkey".to_string(), Int(1));
    let sub_env = environment.new(env);
    assert!(environment.reset(sub_env, "monkey".to_string(), Int(2)).is_ok());
    match environment.lookup(env, "monkey") {
        Some(Int(2)) => (),
        Some(Int(1)) => panic!("My monkey was cloned?"),
        Some(_) => panic!("This is not my monkey"),
        _ => panic!("Where is my monkey?"),
    }
}

#[test]
fn test_environment_check_nested_scopes() {
    let mut environment = Environment::new_global_environment();
    let env = environment.global();
    environment.define(env, "monkey".to_string(), Int(1));
    let sub_env = environment.new(env);
    match environment.lookup(sub_env, "monkey") {
        Some(Int(1)) => (),
        Some(_) => panic!("This is not my monkey"),
        _ => panic!("Where is my monkey?"),
    }
}

#[test]
fn test_new_environment_allow_reset_of_defined_variable() {
    let mut environment = Environment::new_global_environment();
    let env = environment.global();
    environment.define(env, "monkey".to_string(), Int(1));
    assert!(environment.reset(env, "monkey".to_string(), Int(2)).is_ok());
    match environment.lookup(env, "monkey") {
        Some(Int(1)) => panic!("Monkey didn't change"),
        Some(Int(2)) => (),
        Some(_) => panic!("Monkey changed unrecognizably"),
        None => panic!("Monkey got lost?"),
    }
}

#[test]
fn test_new_environment_fails_to_reset_value() {
    let mut environment = Environment::new_global_environment();
    let env = environment.global();
    assert_eq!(environment.reset(env, "monkey".to_string(), Int(2)), Err(EnvironmentError::UndefinedVariable));
    assert!(environment.lookup(env, "monkey").is_none());
}

#[test]
fn test_new_environment_accepts_new_value() {
    let mut environment = Environment::new_global_environment();
    let env = environment.global();
    environment.define(env, "monkey".to_string(), Int(1));
    match environment.lookup(env, "monkey") {
        Some(Int(1)) => (),
        Some(_) => panic!("Monkey mutated?"),
        None => panic!("Monkey got lost?"),
    }
}

#[test]
fn test_new_environment_is_empty() {
    let environment = Environment::new_global_environment();
    match environment.lookup(environment.global(), "monkey") {
        Some(_) => panic!("Monkey already present?"),
        None => (),
    }
}

#[test]
fn the_global_environment_binds_every_procedure() {
    let env = Environment::new_global_environment();
    assert_eq!(env.scope_count(), 1);
    assert_eq!(env.closure_count(), 0);
    for (name, builtin) in mini_scheme::builtins::builtins() {
        match env.lookup(0, &name) {
            Some(Expression::Proc(b)) => assert_eq!(b, builtin, "{}", name),
            other => panic!("{} is bound to {:?}", name, other),
        }
    }
    assert!(matches!(env.lookup(0, "+"), Some(Expression::Proc(Builtin::Add))));
    assert!(matches!(env.lookup(0, "null?"), Some(Expression::Proc(Builtin::IsNull))));
    assert_eq!(mini_scheme::builtins::builtins().len(), 22);
}

#[test]
fn scopes_nest_and_shadow() {
    let mut env = Environment::empty();
    assert!(env.has_scope(0));
    assert!(!env.has_scope(1));
    let a = env.new(0);
    let b = env.new(a);
    assert_eq!((a, b), (1, 2));
    env.define(0, "x".to_string(), Int(1));
    env.define(a, "x".to_string(), Int(2));
    assert!(is_int(&env.lookup(b, "x"), 2));
    assert!(is_int(&env.lookup(0, "x"), 1));
    assert!(env.reset(b, "x".to_string(), Int(3)).is_ok());
    assert!(is_int(&env.lookup(a, "x"), 3));
    assert!(is_int(&env.lookup(0, "x"), 1));
    assert!(env.is_defined(b, "x"));
    assert!(!env.is_defined(b, "y"));
    assert!(env.lookup(7, "x").is_none());
    assert_eq!(env.new_identity(), Some(0));
    assert_eq!(env.new_identity(), Some(1));
    assert_eq!(env.closure_count(), 2);
}
