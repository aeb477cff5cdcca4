//! The evaluator.
//!
//! `eval_value` says what an expression evaluates to and what the evaluation
//! does to the store; the functions below it compute just that. Nested
//! evaluations are counted, and an evaluation that would nest deeper than its
//! limit ends in an error value instead.
use vstd::prelude::*;
use vstd::string::StringExecFns;
use crate::builtins::builtin_value;
use crate::builtins::first_error;
use crate::builtins::plural;
use crate::environment::global_store;
use crate::environment::Environment;
use crate::environment::Store;
use crate::expression::equal_values;
use crate::expression::text_of;
use crate::expression::truth_of;
use crate::expression::values_of;
use crate::expression::Expression;
use crate::expression::Value;
use crate::parse::parse_value;
use crate::parse::SyntaxError;
use crate::text::decimal;
use crate::text::push_decimal;
use crate::text::same_text;

verus! {

/// How deep evaluations may nest where no other limit is given.
pub const DEPTH_LIMIT: usize = 1000;

/// A value, and the store that its evaluation left.
pub struct Outcome {
    pub value: Value,
    pub store: Store,
}

/// The values of a run of expressions, and the store that their evaluation
/// left.
pub struct Outcomes {
    pub values: Seq<Value>,
    pub store: Store,
}

/// An error value with a message.
pub open spec fn failure(message: Seq<char>, store: Store) -> Outcome {
    Outcome { value: Value::Error(message), store }
}

/// Whether a value is the symbol with the given name.
pub open spec fn is_keyword(v: Value, name: Seq<char>) -> bool {
    v == Value::Symbol(name)
}

/// Whether every parameter is a symbol.
pub open spec fn all_symbols(parameters: Seq<Value>) -> bool {
    forall|i: int| 0 <= i < parameters.len() ==> (#[trigger] parameters[i]) is Symbol
}

/// The store after the first `n` parameters are bound to their arguments in
/// `scope`, in order.
pub open spec fn bound(
    store: Store,
    scope: nat,
    parameters: Seq<Value>,
    arguments: Seq<Value>,
    n: nat,
) -> Store
    decreases n,
{
    if n == 0 || n > parameters.len() || n > arguments.len() {
        store
    } else {
        let before = bound(store, scope, parameters, arguments, (n - 1) as nat);
        match parameters[n - 1] {
            Value::Symbol(name) => before.define(scope, name, arguments[n - 1]),
            _ => before,
        }
    }
}

/// The error for a closure that is called with the wrong number of arguments.
pub open spec fn closure_arity_error(wanted: int, given: int) -> Seq<char> {
    "Lambda takes "@ + decimal(wanted) + " argument"@ + plural(wanted) + " but was called with "@
        + decimal(given)
}

/// What an expression evaluates to in `scope`, and the store after it, where
/// evaluations may nest `depth` deep.
pub open spec fn eval_value(e: Value, scope: nat, store: Store, depth: nat) -> Outcome
    decreases depth, 0nat,
{
    if depth == 0 {
        failure("Evaluation is nested too deeply"@, store)
    } else {
        let d = (depth - 1) as nat;
        match e {
            Value::Symbol(name) => match store.lookup(scope, name) {
                Some(value) => Outcome { value, store },
                None => failure("Undefined symbol "@ + name, store),
            },
            Value::List(items) => if items.len() == 0 {
                Outcome { value: e, store }
            } else if is_keyword(items[0], "quote"@) {
                quote_value(items, store)
            } else if is_keyword(items[0], "begin"@) {
                begin_value(items, scope, store, d)
            } else if is_keyword(items[0], "if"@) {
                if_value(items, scope, store, d)
            } else if is_keyword(items[0], "define"@) {
                define_value(items, scope, store, d)
            } else if is_keyword(items[0], "set!"@) {
                set_value(items, scope, store, d)
            } else if is_keyword(items[0], "lambda"@) {
                lambda_value(items, scope, store)
            } else {
                let evaluated = eval_sequence(items, 0, scope, store, d);
                apply_value(evaluated.values, evaluated.store, d)
            },
            _ => Outcome { value: e, store },
        }
    }
}

/// The values of the items from index `from` on, evaluated in order, each in
/// the store that the one before it left.
pub open spec fn eval_sequence(items: Seq<Value>, from: int, scope: nat, store: Store, depth: nat) -> Outcomes
    decreases depth, items.len() - from + 1,
{
    if from < 0 || from >= items.len() {
        Outcomes { values: Seq::empty(), store }
    } else {
        let first = eval_value(items[from], scope, store, depth);
        let rest = eval_sequence(items, from + 1, scope, first.store, depth);
        Outcomes { values: seq![first.value] + rest.values, store: rest.store }
    }
}

/// `(quote e)` is `e` itself.
pub open spec fn quote_value(items: Seq<Value>, store: Store) -> Outcome {
    if items.len() == 2 {
        Outcome { value: items[1], store }
    } else {
        failure("Syntax Error: quote must take a single argument"@, store)
    }
}

/// `(begin e1 .. en)` evaluates every `e` in order and is the value of the
/// last.
pub open spec fn begin_value(items: Seq<Value>, scope: nat, store: Store, depth: nat) -> Outcome
    decreases depth, items.len() + 2,
{
    if items.len() < 2 {
        failure("Syntax Error: begin must take at least one argument"@, store)
    } else {
        let evaluated = eval_sequence(items, 1, scope, store, depth);
        Outcome { value: evaluated.values.last(), store: evaluated.store }
    }
}

/// `(if test then else)` evaluates the test, and then the one of the two
/// branches that its truth selects.
pub open spec fn if_value(items: Seq<Value>, scope: nat, store: Store, depth: nat) -> Outcome
    decreases depth, 1nat,
{
    if items.len() == 4 {
        let test = eval_value(items[1], scope, store, depth);
        if truth_of(test.value) {
            eval_value(items[2], scope, test.store, depth)
        } else {
            eval_value(items[3], scope, test.store, depth)
        }
    } else {
        failure("Syntax Error: if must take three arguments"@, store)
    }
}

/// `(define name e)` binds `name` in the current scope to the value of `e`,
/// and is the symbol `name`.
pub open spec fn define_value(items: Seq<Value>, scope: nat, store: Store, depth: nat) -> Outcome
    decreases depth, 1nat,
{
    if items.len() != 3 {
        failure("Syntax Error: define must take two arguments"@, store)
    } else {
        match items[1] {
            Value::Symbol(name) => {
                let evaluated = eval_value(items[2], scope, store, depth);
                Outcome {
                    value: items[1],
                    store: evaluated.store.define(scope, name, evaluated.value),
                }
            },
            _ => failure("Syntax Error: define takes a symbol as its first argument"@, store),
        }
    }
}

/// `(set! name e)` changes the binding of `name` that is seen from the
/// current scope to the value of `e`, and is that value. Where `name` is not
/// bound, it is an error and nothing is evaluated.
pub open spec fn set_value(items: Seq<Value>, scope: nat, store: Store, depth: nat) -> Outcome
    decreases depth, 1nat,
{
    if items.len() != 3 {
        failure("Syntax Error: set! must take two arguments"@, store)
    } else {
        match items[1] {
            Value::Symbol(name) => if store.lookup(scope, name).is_none() {
                failure("Syntax Error: set! cannot create a variable"@, store)
            } else {
                let evaluated = eval_value(items[2], scope, store, depth);
                Outcome {
                    value: evaluated.value,
                    store: evaluated.store.reset(scope, name, evaluated.value),
                }
            },
            _ => failure("Syntax Error: set! takes a symbol as its first argument"@, store),
        }
    }
}

/// `(lambda (p1 .. pn) body)` is a new closure over the current scope.
pub open spec fn lambda_value(items: Seq<Value>, scope: nat, store: Store) -> Outcome {
    if items.len() == 3 && items[1] is List {
        if store.closures < u64::MAX {
            Outcome {
                value: Value::Lambda(
                    Box::new(items[2]),
                    items[1]->List_0,
                    scope,
                    store.closures,
                ),
                store: store.count_closure(),
            }
        } else {
            failure("Too many closures"@, store)
        }
    } else {
        failure(
            "Syntax Error: lambda requires 2 arguments, got "@ + decimal(items.len() - 1),
            store,
        )
    }
}

/// What the call of a closure gives once its arguments are evaluated: a new
/// scope, enclosed by the scope that the closure was made in, binds the
/// parameters to the arguments, and the body is evaluated in it. Where no
/// closure was made meanwhile, nothing holds the scopes that the call made,
/// and they are discarded.
pub open spec fn closure_value(
    body: Value,
    parameters: Seq<Value>,
    captured: nat,
    arguments: Seq<Value>,
    store: Store,
    depth: nat,
) -> Outcome
    decreases depth, 1nat,
{
    if !store.has_scope(captured) {
        failure("The scope of the closure is not in this environment"@, store)
    } else if parameters.len() != arguments.len() {
        failure(closure_arity_error(parameters.len() as int, arguments.len() as int), store)
    } else if !all_symbols(parameters) {
        failure("Variable names must be symbols"@, store)
    } else {
        let scope = store.scopes.len();
        let inner = bound(store.extend(captured), scope, parameters, arguments, parameters.len());
        let outcome = eval_value(body, scope, inner, depth);
        if outcome.store.closures == store.closures && scope <= outcome.store.scopes.len() {
            Outcome { value: outcome.value, store: outcome.store.truncate(scope) }
        } else {
            outcome
        }
    }
}

/// What a call gives once all its items are evaluated: the first error among
/// the arguments, where the head is a procedure or a closure and there is
/// one; what the procedure returns; what the closure's body evaluates to; and
/// an error for every other head.
pub open spec fn apply_value(evaluated: Seq<Value>, store: Store, depth: nat) -> Outcome
    decreases depth, 2nat,
{
    if evaluated.len() == 0 {
        failure("Nothing to call"@, store)
    } else {
        let arguments = evaluated.subrange(1, evaluated.len() as int);
        match evaluated[0] {
            Value::Proc(builtin) => match first_error(arguments) {
                Some(e) => Outcome { value: e, store },
                None => Outcome { value: builtin_value(builtin, arguments), store },
            },
            Value::Lambda(body, parameters, captured, _) => match first_error(arguments) {
                Some(e) => Outcome { value: e, store },
                None => closure_value(*body, parameters, captured, arguments, store, depth),
            },
            other => failure(text_of(other) + " is not a procedure"@, store),
        }
    }
}

/// The error value with the given message.
fn failed(message: &str) -> (r: Expression)
    ensures
        r@ == Value::Error(message@),
{
    Expression::Error(String::from_str(message))
}

/// Whether an expression is the symbol with the given name.
fn is_symbol_named(e: &Expression, name: &str) -> (r: bool)
    ensures
        r == is_keyword(e@, name@),
{
    match e {
        Expression::Symbol(s) => same_text(s.as_str(), name),
        _ => false,
    }
}

/// Whether every parameter is a symbol.
fn only_symbols(parameters: &Vec<Expression>) -> (r: bool)
    ensures
        r == all_symbols(values_of(parameters@)),
{
    let ghost values = values_of(parameters@);
    let mut i: usize = 0;
    while i < parameters.len()
        invariant
            i <= parameters.len(),
            values == values_of(parameters@),
            forall|j: int| 0 <= j < i ==> (#[trigger] values[j]) is Symbol,
        decreases parameters.len() - i,
    {
        assert(values[i as int] == parameters@[i as int]@);
        match &parameters[i] {
            Expression::Symbol(_) => {},
            _ => {
                assert(!(values[i as int] is Symbol));
                return false;
            },
        }
        i = i + 1;
    }
    true
}

/// Evaluates the items from index `from` on, in order.
#[verifier::loop_isolation(false)]
fn eval_items(
    items: &Vec<Expression>,
    from: usize,
    scope: usize,
    env: &mut Environment,
    depth: usize,
) -> (r: Vec<Expression>)
    requires
        old(env).wf(),
        old(env)@.has_scope(scope as nat),
    ensures
        final(env).wf(),
        final(env)@.scopes.len() >= old(env)@.scopes.len(),
        (Outcomes { values: values_of(r@), store: final(env)@ }) == eval_sequence(
            values_of(items@),
            from as int,
            scope as nat,
            old(env)@,
            depth as nat,
        ),
        r@.len() == if from <= items@.len() {
            items@.len() - from
        } else {
            0
        },
    decreases depth, items@.len() - from + 1,
{
    let ghost values = values_of(items@);
    let ghost start = env@;
    let mut out: Vec<Expression> = Vec::new();
    assert(values_of(out@) =~= Seq::<Value>::empty());
    if from >= items.len() {
        return out;
    }
    let mut i: usize = from;
    assert(values_of(out@) + eval_sequence(values, i as int, scope as nat, env@, depth as nat).values
        =~= eval_sequence(values, from as int, scope as nat, start, depth as nat).values);
    while i < items.len()
        invariant
            from <= i <= items@.len(),
            out@.len() == i - from,
            env.wf(),
            env@.has_scope(scope as nat),
            env@.scopes.len() >= start.scopes.len(),
            values_of(out@) + eval_sequence(
                values,
                i as int,
                scope as nat,
                env@,
                depth as nat,
            ).values == eval_sequence(values, from as int, scope as nat, start, depth as nat).values,
            eval_sequence(values, i as int, scope as nat, env@, depth as nat).store
                == eval_sequence(values, from as int, scope as nat, start, depth as nat).store,
        decreases items@.len() - i,
    {
        let ghost before = values_of(out@);
        let ghost store = env@;
        assert(values[i as int] == items@[i as int]@);
        let value = eval_in(&items[i], scope, env, depth);
        let ghost rest = eval_sequence(values, i + 1, scope as nat, env@, depth as nat);
        assert(eval_sequence(values, i as int, scope as nat, store, depth as nat).values == seq![
            value@,
        ] + rest.values);
        out.push(value);
        assert(values_of(out@) =~= before.push(value@));
        assert(values_of(out@) + rest.values =~= before + (seq![value@] + rest.values));
        i = i + 1;
    }
    assert(eval_sequence(values, i as int, scope as nat, env@, depth as nat).values
        =~= Seq::<Value>::empty());
    assert(values_of(out@) + Seq::<Value>::empty() =~= values_of(out@));
    out
}

/// Calls a closure on its arguments.
#[verifier::loop_isolation(false)]
fn call_closure(
    body: &Expression,
    parameters: &Vec<Expression>,
    captured: usize,
    arguments: &Vec<Expression>,
    env: &mut Environment,
    depth: usize,
) -> (r: Expression)
    requires
        old(env).wf(),
    ensures
        final(env).wf(),
        final(env)@.scopes.len() >= old(env)@.scopes.len(),
        (Outcome { value: r@, store: final(env)@ }) == closure_value(
            body@,
            values_of(parameters@),
            captured as nat,
            values_of(arguments@),
            old(env)@,
            depth as nat,
        ),
    decreases depth, 1nat,
{
    let ghost names = values_of(parameters@);
    let ghost given = values_of(arguments@);
    if !env.has_scope(captured) {
        return failed("The scope of the closure is not in this environment");
    }
    if parameters.len() != arguments.len() {
        let mut message = String::from_str("Lambda takes ");
        push_decimal(&mut message, parameters.len() as i128);
        message.append(" argument");
        message.append(crate::builtins::sometimes_ess(parameters.len()));
        message.append(" but was called with ");
        push_decimal(&mut message, arguments.len() as i128);
        assert(message@ =~= closure_arity_error(names.len() as int, given.len() as int));
        return Expression::Error(message);
    }
    if !only_symbols(parameters) {
        return failed("Variable names must be symbols");
    }
    let made = env.closure_count();
    let scope = env.new(captured);
    let ghost extended = env@;
    let mut i: usize = 0;
    while i < parameters.len()
        invariant
            i <= parameters.len(),
            env.wf(),
            env@.has_scope(scope as nat),
            env@.scopes.len() == extended.scopes.len(),
            env@ == bound(extended, scope as nat, names, given, i as nat),
        decreases parameters.len() - i,
    {
        assert(names[i as int] == parameters@[i as int]@);
        assert(given[i as int] == arguments@[i as int]@);
        match &parameters[i] {
            Expression::Symbol(name) => {
                env.define(scope, name.clone(), arguments[i].copy());
            },
            _ => {},
        }
        i = i + 1;
    }
    let value = eval_in(body, scope, env, depth);
    if env.closure_count() == made {
        env.discard_from(scope);
    }
    value
}

/// Calls the head of an evaluated call on the arguments behind it.
fn apply(evaluated: Vec<Expression>, env: &mut Environment, depth: usize) -> (r: Expression)
    requires
        old(env).wf(),
    ensures
        final(env).wf(),
        final(env)@.scopes.len() >= old(env)@.scopes.len(),
        (Outcome { value: r@, store: final(env)@ }) == apply_value(
            values_of(evaluated@),
            old(env)@,
            depth as nat,
        ),
    decreases depth, 2nat,
{
    let mut arguments = evaluated;
    if arguments.len() == 0 {
        return failed("Nothing to call");
    }
    let ghost all = values_of(arguments@);
    let head = arguments.remove(0);
    assert(values_of(arguments@) =~= all.subrange(1, all.len() as int));
    assert(head@ == all[0]);
    match &head {
        Expression::Proc(builtin) => match crate::builtins::find_error(&arguments) {
            Some(e) => e,
            None => crate::builtins::apply(*builtin, arguments, env),
        },
        Expression::Lambda(body, parameters, captured, _) => {
            assert(head@->Lambda_1 =~= values_of(parameters@));
            match crate::builtins::find_error(&arguments) {
                Some(e) => e,
                None => call_closure(body, parameters, *captured, &arguments, env, depth),
            }
        },
        _ => crate::expression::error_about(&head, " is not a procedure"),
    }
}

/// Evaluates `(begin e1 .. en)`.
fn eval_begin(items: &Vec<Expression>, scope: usize, env: &mut Environment, depth: usize) -> (r:
    Expression)
    requires
        old(env).wf(),
        old(env)@.has_scope(scope as nat),
    ensures
        final(env).wf(),
        final(env)@.scopes.len() >= old(env)@.scopes.len(),
        (Outcome { value: r@, store: final(env)@ }) == begin_value(
            values_of(items@),
            scope as nat,
            old(env)@,
            depth as nat,
        ),
    decreases depth, items@.len() + 2,
{
    if items.len() < 2 {
        return failed("Syntax Error: begin must take at least one argument");
    }
    let mut evaluated = eval_items(items, 1, scope, env, depth);
    let ghost all = values_of(evaluated@);
    match evaluated.pop() {
        Some(last) => {
            assert(last@ == all.last());
            last
        },
        None => failed("Syntax Error: begin must take at least one argument"),
    }
}

/// Evaluates `(if test then else)`.
fn eval_if(items: &Vec<Expression>, scope: usize, env: &mut Environment, depth: usize) -> (r:
    Expression)
    requires
        old(env).wf(),
        old(env)@.has_scope(scope as nat),
    ensures
        final(env).wf(),
        final(env)@.scopes.len() >= old(env)@.scopes.len(),
        (Outcome { value: r@, store: final(env)@ }) == if_value(
            values_of(items@),
            scope as nat,
            old(env)@,
            depth as nat,
        ),
    decreases depth, 1nat,
{
    if items.len() != 4 {
        return failed("Syntax Error: if must take three arguments");
    }
    let ghost values = values_of(items@);
    assert(values[1] == items@[1]@ && values[2] == items@[2]@ && values[3] == items@[3]@);
    let test = eval_in(&items[1], scope, env, depth);
    if test.to_bool() {
        eval_in(&items[2], scope, env, depth)
    } else {
        eval_in(&items[3], scope, env, depth)
    }
}

/// Evaluates `(define name e)`.
fn eval_define(items: &Vec<Expression>, scope: usize, env: &mut Environment, depth: usize) -> (r:
    Expression)
    requires
        old(env).wf(),
        old(env)@.has_scope(scope as nat),
    ensures
        final(env).wf(),
        final(env)@.scopes.len() >= old(env)@.scopes.len(),
        (Outcome { value: r@, store: final(env)@ }) == define_value(
            values_of(items@),
            scope as nat,
            old(env)@,
            depth as nat,
        ),
    decreases depth, 1nat,
{
    if items.len() != 3 {
        return failed("Syntax Error: define must take two arguments");
    }
    let ghost values = values_of(items@);
    assert(values[1] == items@[1]@ && values[2] == items@[2]@);
    match &items[1] {
        Expression::Symbol(name) => {
            let value = eval_in(&items[2], scope, env, depth);
            env.define(scope, name.clone(), value);
            Expression::Symbol(name.clone())
        },
        _ => failed("Syntax Error: define takes a symbol as its first argument"),
    }
}

/// Evaluates `(set! name e)`.
fn eval_set(items: &Vec<Expression>, scope: usize, env: &mut Environment, depth: usize) -> (r:
    Expression)
    requires
        old(env).wf(),
        old(env)@.has_scope(scope as nat),
    ensures
        final(env).wf(),
        final(env)@.scopes.len() >= old(env)@.scopes.len(),
        (Outcome { value: r@, store: final(env)@ }) == set_value(
            values_of(items@),
            scope as nat,
            old(env)@,
            depth as nat,
        ),
    decreases depth, 1nat,
{
    if items.len() != 3 {
        return failed("Syntax Error: set! must take two arguments");
    }
    let ghost values = values_of(items@);
    assert(values[1] == items@[1]@ && values[2] == items@[2]@);
    match &items[1] {
        Expression::Symbol(name) => {
            if !env.is_defined(scope, name.as_str()) {
                return failed("Syntax Error: set! cannot create a variable");
            }
            let value = eval_in(&items[2], scope, env, depth);
            let result = value.copy();
            let ghost before = env@;
            let _ = env.reset(scope, name.clone(), value);
            proof {
                lemma_reset_keeps_scopes(before, scope as nat, name@, result@);
            }
            result
        },
        _ => failed("Syntax Error: set! takes a symbol as its first argument"),
    }
}

/// Binding and changing a name leave the number of scopes as it is.
pub proof fn lemma_reset_keeps_scopes(store: Store, scope: nat, key: Seq<char>, value: Value)
    ensures
        store.reset(scope, key, value).scopes.len() == store.scopes.len(),
        store.define(scope, key, value).scopes.len() == store.scopes.len(),
{
}

/// Evaluates `(lambda (p1 .. pn) body)`.
fn eval_lambda(items: &Vec<Expression>, scope: usize, env: &mut Environment) -> (r: Expression)
    requires
        old(env).wf(),
        old(env)@.has_scope(scope as nat),
    ensures
        final(env).wf(),
        final(env)@.scopes.len() >= old(env)@.scopes.len(),
        (Outcome { value: r@, store: final(env)@ }) == lambda_value(
            values_of(items@),
            scope as nat,
            old(env)@,
        ),
{
    let ghost values = values_of(items@);
    if items.len() == 3 {
        assert(values[1] == items@[1]@ && values[2] == items@[2]@);
        match &items[1] {
            Expression::List(parameters) => {
                assert(items@[1]@->List_0 =~= values_of(parameters@));
                match env.new_identity() {
                    Some(identity) => {
                        let body = items[2].copy();
                        let names = crate::expression::copy_items(parameters);
                        let r = Expression::Lambda(Box::new(body), names, scope, identity);
                        assert(r@->Lambda_1 =~= values_of(names@));
                        assert(r@->Lambda_0 == Box::new(body@));
                        return r;
                    },
                    None => {
                        return failed("Too many closures");
                    },
                }
            },
            _ => {},
        }
    }
    let mut message = String::from_str("Syntax Error: lambda requires 2 arguments, got ");
    if items.len() == 0 {
        push_decimal(&mut message, -1);
    } else {
        push_decimal(&mut message, (items.len() - 1) as i128);
    }
    assert(message@ =~= "Syntax Error: lambda requires 2 arguments, got "@ + decimal(
        values.len() - 1,
    ));
    Expression::Error(message)
}

/// Evaluates an expression in a scope of an environment, with at most `depth`
/// evaluations nested in one another.
pub fn eval_in(expression: &Expression, scope: usize, env: &mut Environment, depth: usize) -> (r:
    Expression)
    requires
        old(env).wf(),
        old(env)@.has_scope(scope as nat),
    ensures
        final(env).wf(),
        final(env)@.scopes.len() >= old(env)@.scopes.len(),
        (Outcome { value: r@, store: final(env)@ }) == eval_value(
            expression@,
            scope as nat,
            old(env)@,
            depth as nat,
        ),
    decreases depth, 0nat,
{
    if depth == 0 {
        return failed("Evaluation is nested too deeply");
    }
    let d = depth - 1;
    match expression {
        Expression::Symbol(name) => match env.lookup(scope, name.as_str()) {
            Some(value) => value,
            None => {
                let mut message = String::from_str("Undefined symbol ");
                message.append(name.as_str());
                Expression::Error(message)
            },
        },
        Expression::List(items) => {
            assert(expression@->List_0 =~= values_of(items@));
            if items.len() == 0 {
                return expression.copy();
            }
            assert(values_of(items@)[0] == items@[0]@);
            let head = &items[0];
            if is_symbol_named(head, "quote") {
                if items.len() == 2 {
                    assert(values_of(items@)[1] == items@[1]@);
                    items[1].copy()
                } else {
                    failed("Syntax Error: quote must take a single argument")
                }
            } else if is_symbol_named(head, "begin") {
                eval_begin(items, scope, env, d)
            } else if is_symbol_named(head, "if") {
                eval_if(items, scope, env, d)
            } else if is_symbol_named(head, "define") {
                eval_define(items, scope, env, d)
            } else if is_symbol_named(head, "set!") {
                eval_set(items, scope, env, d)
            } else if is_symbol_named(head, "lambda") {
                eval_lambda(items, scope, env)
            } else {
                let evaluated = eval_items(items, 0, scope, env, d);
                apply(evaluated, env, d)
            }
        },
        _ => expression.copy(),
    }
}

/// Evaluates an expression in the global scope of an environment, and hands
/// the environment back with what the evaluation bound or changed.
pub fn eval(expression: Expression, environment: Environment) -> (r: (Expression, Environment))
    requires
        environment.wf(),
    ensures
        r.1.wf(),
        (Outcome { value: r.0@, store: r.1@ }) == eval_value(
            expression@,
            0,
            environment@,
            DEPTH_LIMIT as nat,
        ),
{
    let mut env = environment;
    proof {
        env.lemma_wf();
    }
    let value = eval_in(&expression, 0, &mut env, DEPTH_LIMIT);
    (value, env)
}

/// What reading and evaluating a text gives: the value, or why the text is
/// no expression, and the store.
pub open spec fn evaluate_value(text: Seq<char>, store: Store) -> (Result<Value, SyntaxError>, Store) {
    match parse_value(text) {
        Ok(e) => {
            let outcome = eval_value(e, 0, store, DEPTH_LIMIT as nat);
            (Ok(outcome.value), outcome.store)
        },
        Err(x) => (Err(x), store),
    }
}

/// Reads one expression from a text and evaluates it in the global scope.
pub fn evaluate(text: &str, environment: Environment) -> (r: (
    Result<Expression, SyntaxError>,
    Environment,
))
    requires
        environment.wf(),
    ensures
        r.1.wf(),
        match r.0 {
            Ok(value) => evaluate_value(text@, environment@) == (
                Ok::<Value, SyntaxError>(value@),
                r.1@,
            ),
            Err(x) => evaluate_value(text@, environment@) == (Err::<Value, SyntaxError>(x), r.1@),
        },
{
    match crate::parse::parse(text) {
        Ok(expression) => {
            let (value, env) = eval(expression, environment);
            (Ok(value), env)
        },
        Err(x) => (Err(x), environment),
    }
}

/// The value of a text in a new global environment, where the text is an
/// expression.
pub open spec fn fresh_value(text: Seq<char>) -> Option<Value> {
    match parse_value(text) {
        Ok(e) => Some(eval_value(e, 0, global_store(), DEPTH_LIMIT as nat).value),
        Err(_) => None,
    }
}

/// Whether a value is what an expected expression stands for: the two are
/// equal; or the value is a truth value and the expected expression is the
/// symbol that it is printed as, `#t` or `#f`, since no text is read as a
/// truth value.
pub open spec fn meets(expected: Value, value: Value) -> bool {
    equal_values(expected, value) || (value is Bool && expected == Value::Symbol(text_of(value)))
}

/// Whether `expr` evaluates to what the expression that `result` denotes
/// stands for.
pub open spec fn evaluates_to(expr: Seq<char>, result: Seq<char>) -> bool {
    match (fresh_value(expr), parse_value(result)) {
        (Some(value), Ok(expected)) => meets(expected, value),
        _ => false,
    }
}

/// Whether `expr` evaluates to something else than what the expression that
/// `result` denotes stands for.
pub open spec fn evaluates_otherwise(expr: Seq<char>, result: Seq<char>) -> bool {
    match (fresh_value(expr), parse_value(result)) {
        (Some(value), Ok(expected)) => !meets(expected, value),
        _ => false,
    }
}

/// Whether a value is what an expected expression stands for.
fn meets_expected(expected: &Expression, value: &Expression) -> (r: bool)
    ensures
        r == meets(expected@, value@),
{
    if crate::expression::equal(expected, value) {
        return true;
    }
    match (value, expected) {
        (Expression::Bool(truth), Expression::Symbol(name)) => {
            if *truth {
                same_text(name.as_str(), "#t")
            } else {
                same_text(name.as_str(), "#f")
            }
        },
        _ => false,
    }
}

/// A new global environment.
pub fn test_env() -> (env: Environment)
    ensures
        env.wf(),
        env@ == global_store(),
{
    Environment::new_global_environment()
}

/// The value of a text in a new global environment.
fn fresh(text: &str) -> (r: Option<Expression>)
    ensures
        match r {
            Some(value) => fresh_value(text@) == Some(value@),
            None => fresh_value(text@).is_none(),
        },
{
    match crate::parse::parse(text) {
        Ok(expression) => {
            let (value, _) = eval(expression, test_env());
            Some(value)
        },
        Err(_) => None,
    }
}

/// Whether `expr`, evaluated in a new global environment, gives a value that
/// equals the expression that `result` denotes; a truth value is also met by
/// the symbol `#t` or `#f` that it is printed as. False where either text is
/// no expression, and so wherever the value is an error.
pub fn test_eval(expr: &str, result: &str) -> (r: bool)
    ensures
        r == evaluates_to(expr@, result@),
{
    match fresh(expr) {
        Some(value) => match crate::parse::parse(result) {
            Ok(expected) => meets_expected(&expected, &value),
            Err(_) => false,
        },
        None => false,
    }
}

/// Whether `expr`, evaluated in a new global environment, gives a value that
/// does not equal the expression that `result` denotes, nor is a truth value
/// that is printed as it; `reason` says why it should. False where either
/// text is no expression.
pub fn test_eval_fails(expr: &str, result: &str, reason: &str) -> (r: bool)
    ensures
        r == evaluates_otherwise(expr@, result@),
{
    match fresh(expr) {
        Some(value) => match crate::parse::parse(result) {
            Ok(expected) => !meets_expected(&expected, &value),
            Err(_) => false,
        },
        None => false,
    }
}

/// Whether `expr`, evaluated in a new global environment, gives an error
/// value; `reason` says why it should. False where `expr` is no expression.
pub fn test_eval_to_error(expr: &str, reason: &str) -> (r: bool)
    ensures
        r == match fresh_value(expr@) {
            Some(value) => value is Error,
            None => false,
        },
{
    match fresh(expr) {
        Some(value) => value.is_error(),
        None => false,
    }
}

} // verus!
