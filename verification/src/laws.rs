//! What holds of every evaluation.
use vstd::prelude::*;
use crate::builtins::builtin_table;
use crate::environment::global_bindings;
use crate::environment::global_store;
use crate::builtins::arithmetic_value;
use crate::builtins::builtin_value;
use crate::builtins::car_value;
use crate::builtins::first_error;
use crate::builtins::first_error_from;
use crate::builtins::folded;
use crate::eval::all_symbols;
use crate::eval::apply_value;
use crate::eval::bound;
use crate::eval::closure_value;
use crate::eval::eval_sequence;
use crate::eval::fresh_value;
use crate::eval::DEPTH_LIMIT;
use crate::expression::arithmetic;
use crate::expression::integer_result;
use crate::expression::joined_text;
use crate::expression::truncated_quotient;
use crate::expression::truth_of;
use crate::expression::Operator;
use crate::float::digit_run;
use crate::float::is_float_literal;
use crate::parse::atom_value;
use crate::parse::parse_value;
use crate::parse::SyntaxError;
use crate::roundtrip::is_plain;
use crate::roundtrip::float_free;
use crate::roundtrip::lemma_parse_text;
use crate::roundtrip::lemma_reread_without_doubles;
use crate::roundtrip::printable;
use crate::text::all_digits;
use crate::text::decimal;
use crate::text::integer_value;
use crate::text::is_digit;
use crate::text::is_space;
use crate::environment::Store;
use crate::eval::eval_value;
use crate::eval::Outcome;
use crate::expression::equal_values;
use crate::expression::text_of;
use crate::expression::Builtin;
use crate::expression::Value;

verus! {

/// The length and the first two characters of a text; a blank where it is
/// shorter.
pub open spec fn mark_of(s: Seq<char>) -> (nat, char, char) {
    (
        s.len(),
        if s.len() > 0 {
            s[0]
        } else {
            ' '
        },
        if s.len() > 1 {
            s[1]
        } else {
            ' '
        },
    )
}

/// The length and the first two characters of the name of a procedure.
pub open spec fn builtin_mark(builtin: Builtin) -> (nat, char, char) {
    match builtin {
        Builtin::Add => (1, '+', ' '),
        Builtin::Sub => (1, '-', ' '),
        Builtin::Mul => (1, '*', ' '),
        Builtin::Div => (1, '/', ' '),
        Builtin::Lt => (1, '<', ' '),
        Builtin::Le => (2, '<', '='),
        Builtin::Gt => (1, '>', ' '),
        Builtin::Ge => (2, '>', '='),
        Builtin::Equals => (1, '=', ' '),
        Builtin::Not => (3, 'n', 'o'),
        Builtin::Car => (3, 'c', 'a'),
        Builtin::Cdr => (3, 'c', 'd'),
        Builtin::Cons => (4, 'c', 'o'),
        Builtin::Append => (6, 'a', 'p'),
        Builtin::List => (4, 'l', 'i'),
        Builtin::Length => (6, 'l', 'e'),
        Builtin::Eq => (3, 'e', 'q'),
        Builtin::Eqv => (4, 'e', 'q'),
        Builtin::Equal => (6, 'e', 'q'),
        Builtin::IsSymbol => (7, 's', 'y'),
        Builtin::IsList => (5, 'l', 'i'),
        Builtin::IsNull => (5, 'n', 'u'),
    }
}

/// The name of a procedure has the mark that `builtin_mark` gives.
pub proof fn lemma_builtin_mark(builtin: Builtin)
    ensures
        mark_of(builtin.name_text()) == builtin_mark(builtin),
{
    reveal_strlit("+");
    reveal_strlit("-");
    reveal_strlit("*");
    reveal_strlit("/");
    reveal_strlit("<");
    reveal_strlit("<=");
    reveal_strlit(">");
    reveal_strlit(">=");
    reveal_strlit("=");
    reveal_strlit("not");
    reveal_strlit("car");
    reveal_strlit("cdr");
    reveal_strlit("cons");
    reveal_strlit("append");
    reveal_strlit("list");
    reveal_strlit("length");
    reveal_strlit("eq?");
    reveal_strlit("eqv?");
    reveal_strlit("equal?");
    reveal_strlit("symbol?");
    reveal_strlit("list?");
    reveal_strlit("null?");
}

/// Two procedures have two names.
pub proof fn lemma_names_differ(a: Builtin, b: Builtin)
    requires
        a != b,
    ensures
        a.name_text() != b.name_text(),
{
    lemma_builtin_mark(a);
    lemma_builtin_mark(b);
}

/// No procedure has the name of a special form.
pub proof fn lemma_names_are_no_keywords(builtin: Builtin)
    ensures
        builtin.name_text() != "quote"@,
        builtin.name_text() != "begin"@,
        builtin.name_text() != "if"@,
        builtin.name_text() != "define"@,
        builtin.name_text() != "set!"@,
        builtin.name_text() != "lambda"@,
{
    lemma_builtin_mark(builtin);
    lemma_keyword_marks();
}

/// The marks of the names of the special forms.
pub proof fn lemma_keyword_marks()
    ensures
        mark_of("quote"@) == (5nat, 'q', 'u'),
        mark_of("begin"@) == (5nat, 'b', 'e'),
        mark_of("if"@) == (2nat, 'i', 'f'),
        mark_of("define"@) == (6nat, 'd', 'e'),
        mark_of("set!"@) == (4nat, 's', 'e'),
        mark_of("lambda"@) == (6nat, 'l', 'a'),
{
    reveal_strlit("quote");
    reveal_strlit("begin");
    reveal_strlit("if");
    reveal_strlit("define");
    reveal_strlit("set!");
    reveal_strlit("lambda");
}

/// Once the first `n` procedures are bound, the procedure at index `k < n` is
/// what its name is bound to.
pub proof fn lemma_global_binding(n: nat, k: int)
    requires
        0 <= k < n <= builtin_table().len(),
    ensures
        global_bindings(n).contains_key(builtin_table()[k].name_text()),
        global_bindings(n)[builtin_table()[k].name_text()] == Value::Proc(builtin_table()[k]),
    decreases n,
{
    if k < n - 1 {
        lemma_global_binding((n - 1) as nat, k);
        lemma_table_has_no_doubles(k, n - 1);
        lemma_names_differ(builtin_table()[k], builtin_table()[n - 1]);
    }
}

/// No procedure stands twice in the table.
pub proof fn lemma_table_has_no_doubles(i: int, j: int)
    requires
        0 <= i < j < builtin_table().len(),
    ensures
        builtin_table()[i] != builtin_table()[j],
{
}

/// The index of a procedure in the table.
pub open spec fn table_index(builtin: Builtin) -> int {
    match builtin {
        Builtin::Add => 0,
        Builtin::Sub => 1,
        Builtin::Mul => 2,
        Builtin::Div => 3,
        Builtin::Lt => 4,
        Builtin::Le => 5,
        Builtin::Gt => 6,
        Builtin::Ge => 7,
        Builtin::Equals => 8,
        Builtin::Not => 9,
        Builtin::Car => 10,
        Builtin::Cdr => 11,
        Builtin::Cons => 12,
        Builtin::Append => 13,
        Builtin::List => 14,
        Builtin::Length => 15,
        Builtin::Eq => 16,
        Builtin::Eqv => 17,
        Builtin::Equal => 18,
        Builtin::IsSymbol => 19,
        Builtin::IsList => 20,
        Builtin::IsNull => 21,
    }
}

/// In a new interpreter the name of every procedure is bound to it.
pub proof fn law_global_scope_binds_procedures(builtin: Builtin)
    ensures
        global_store().lookup(0, builtin.name_text()) == Some(Value::Proc(builtin)),
        global_store().well_formed(),
{
    let k = table_index(builtin);
    assert(builtin_table()[k] == builtin);
    lemma_global_binding(builtin_table().len(), k);
}

/// The names of the special forms are six names.
pub proof fn lemma_keywords_differ()
    ensures
        "begin"@ != "quote"@,
        "if"@ != "quote"@,
        "if"@ != "begin"@,
        "define"@ != "quote"@,
        "define"@ != "begin"@,
        "define"@ != "if"@,
        "set!"@ != "quote"@,
        "set!"@ != "begin"@,
        "set!"@ != "if"@,
        "set!"@ != "define"@,
        "lambda"@ != "quote"@,
        "lambda"@ != "begin"@,
        "lambda"@ != "if"@,
        "lambda"@ != "define"@,
        "lambda"@ != "set!"@,
{
    lemma_keyword_marks();
}

/// `(quote e)` is `e` as it stands, whatever `e` is, and the store stays as
/// it is.
pub proof fn law_quote_gives_its_operand(e: Value, scope: nat, store: Store, depth: nat)
    requires
        depth >= 1,
    ensures
        eval_value(Value::List(seq![Value::Symbol("quote"@), e]), scope, store, depth) == (Outcome {
            value: e,
            store,
        }),
{
}

/// `(set! name e)` with a name that is not bound is an error, evaluates
/// nothing and leaves the store as it is: the name is still not bound.
pub proof fn law_set_cannot_create(name: Seq<char>, e: Value, scope: nat, store: Store, depth: nat)
    requires
        depth >= 1,
        store.lookup(scope, name).is_none(),
    ensures
        eval_value(
            Value::List(seq![Value::Symbol("set!"@), Value::Symbol(name), e]),
            scope,
            store,
            depth,
        ).value is Error,
        eval_value(
            Value::List(seq![Value::Symbol("set!"@), Value::Symbol(name), e]),
            scope,
            store,
            depth,
        ).store == store,
{
    lemma_keywords_differ();
}

/// The scope that binds a name for a given scope is a scope of the store, and
/// binds the name.
pub proof fn lemma_defining_scope(store: Store, scope: nat, key: Seq<char>)
    requires
        store.defining_scope(scope, key).is_some(),
    ensures
        store.has_scope(store.defining_scope(scope, key).unwrap()),
        store.defining_scope(scope, key).unwrap() <= scope,
        store.scopes[store.defining_scope(scope, key).unwrap() as int].bindings.contains_key(key),
    decreases scope,
{
    if !store.scopes[scope as int].bindings.contains_key(key) {
        match store.scopes[scope as int].parent {
            Some(p) => {
                lemma_defining_scope(store, p, key);
            },
            None => {},
        }
    }
}

/// After a binding is changed, the scopes that saw it see the new value.
pub proof fn lemma_reset_is_seen(store: Store, scope: nat, from: nat, key: Seq<char>, value: Value)
    requires
        store.defining_scope(scope, key).is_some(),
        store.defining_scope(from, key) == store.defining_scope(scope, key),
    ensures
        store.reset(scope, key, value).lookup(from, key) == Some(value),
    decreases from,
{
    lemma_defining_scope(store, scope, key);
    let d = store.defining_scope(scope, key).unwrap();
    let after = store.reset(scope, key, value);
    assert(after == store.define(d, key, value));
    if store.scopes[from as int].bindings.contains_key(key) {
        assert(d == from);
    } else {
        match store.scopes[from as int].parent {
            Some(p) => {
                lemma_defining_scope(store, p, key);
                lemma_reset_is_seen(store, scope, p, key, value);
                assert(after.scopes[from as int] == store.scopes[from as int]);
            },
            None => {},
        }
    }
}

/// `(set! name n)` with a name that is bound and an integer `n` is `n`, not
/// the name; and afterwards the name is bound to `n`.
pub proof fn law_set_changes_the_binding(name: Seq<char>, n: i64, scope: nat, store: Store, depth: nat)
    requires
        depth >= 2,
        store.lookup(scope, name).is_some(),
    ensures
        eval_value(
            Value::List(seq![Value::Symbol("set!"@), Value::Symbol(name), Value::Int(n)]),
            scope,
            store,
            depth,
        ).value == Value::Int(n),
        eval_value(
            Value::List(seq![Value::Symbol("set!"@), Value::Symbol(name), Value::Int(n)]),
            scope,
            store,
            depth,
        ).store.lookup(scope, name) == Some(Value::Int(n)),
{
    lemma_keywords_differ();
    lemma_reset_is_seen(store, scope, scope, name, Value::Int(n));
    let items = seq![Value::Symbol("set!"@), Value::Symbol(name), Value::Int(n)];
    assert(eval_value(items[2], scope, store, (depth - 1) as nat) == (Outcome {
        value: Value::Int(n),
        store,
    }));
}

/// Two closures that are made from one `lambda` expression in one scope, one
/// after the other, are not equal, though each equals itself and both are
/// printed alike.
pub proof fn law_closures_have_identity(
    parameters: Seq<Value>,
    body: Value,
    scope: nat,
    store: Store,
    depth: nat,
)
    requires
        depth >= 1,
        store.closures + 1 < u64::MAX,
    ensures
        ({
            let lambda = Value::List(
                seq![Value::Symbol("lambda"@), Value::List(parameters), body],
            );
            let first = eval_value(lambda, scope, store, depth);
            let second = eval_value(lambda, scope, first.store, depth);
            &&& first.value is Lambda
            &&& second.value is Lambda
            &&& !equal_values(first.value, second.value)
            &&& equal_values(first.value, first.value)
            &&& equal_values(second.value, second.value)
            &&& text_of(first.value) == text_of(second.value)
        }),
{
    lemma_keywords_differ();
}

/// `car` of the empty list is an error value.
pub proof fn law_car_of_the_empty_list_is_an_error()
    ensures
        car_value(seq![Value::List(Seq::empty())]) is Error,
{
    let args = seq![Value::List(Seq::<Value>::empty())];
    assert(crate::builtins::first_error_from(args, 1) is None);
    assert(crate::builtins::first_error(args) is None);
}

/// The procedure that does an operation.
pub open spec fn operator_builtin(op: Operator) -> Builtin {
    match op {
        Operator::Add => Builtin::Add,
        Operator::Sub => Builtin::Sub,
        Operator::Mul => Builtin::Mul,
        Operator::Div => Builtin::Div,
    }
}

/// The call of an operation on two integers, as an expression.
pub open spec fn operation(op: Operator, a: i64, b: i64) -> Value {
    Value::List(
        seq![Value::Symbol(operator_builtin(op).name_text()), Value::Int(a), Value::Int(b)],
    )
}

/// The call of an operation on two integers, as a text: `(+ 1 2)`.
pub open spec fn operation_text(op: Operator, a: i64, b: i64) -> Seq<char> {
    "("@ + operator_builtin(op).name_text() + " "@ + decimal(a as int) + " "@ + decimal(b as int)
        + ")"@
}

/// The name of an operation is a token that is read as a symbol.
pub proof fn lemma_operator_is_printable(op: Operator)
    ensures
        printable(Value::Symbol(operator_builtin(op).name_text())),
{
    let name = operator_builtin(op).name_text();
    lemma_builtin_mark(operator_builtin(op));
    assert(name.len() == 1);
    assert(!is_space(name[0]));
    assert(!is_digit(name[0]));
    assert(is_plain(name));
    if name != seq!['+'] && name != seq!['-'] {
        assert(name[0] != '+' && name[0] != '-') by {
            if name[0] == '+' {
                assert(name =~= seq!['+']);
            }
            if name[0] == '-' {
                assert(name =~= seq!['-']);
            }
        }
        assert(!all_digits(name));
        assert(integer_value(name).is_none());
        assert(digit_run(name, 0) == 0);
        assert(!is_float_literal(name));
    }
    assert(atom_value(name) == Value::Symbol(name));
}

/// The printed form of the call of an operation is its text.
pub proof fn lemma_operation_text(op: Operator, a: i64, b: i64)
    ensures
        text_of(operation(op, a, b)) == operation_text(op, a, b),
{
    let items = seq![
        Value::Symbol(operator_builtin(op).name_text()),
        Value::Int(a),
        Value::Int(b),
    ];
    assert(joined_text(items, 1) == text_of(items[0]));
    assert(joined_text(items, 2) == joined_text(items, 1) + " "@ + text_of(items[1]));
    assert(joined_text(items, 3) == joined_text(items, 2) + " "@ + text_of(items[2]));
    assert(text_of(operation(op, a, b)) =~= operation_text(op, a, b));
}

/// The call of an operation on two integers in a new interpreter gives what
/// the operation gives, and leaves the store as it is.
#[verifier::spinoff_prover]
#[verifier::rlimit(50)]
pub proof fn lemma_operation_value(op: Operator, a: i64, b: i64, depth: nat)
    requires
        depth >= 2,
    ensures
        eval_value(operation(op, a, b), 0, global_store(), depth) == (Outcome {
            value: integer_result(op, a, b),
            store: global_store(),
        }),
{
    let builtin = operator_builtin(op);
    let name = builtin.name_text();
    let items = seq![Value::Symbol(name), Value::Int(a), Value::Int(b)];
    let store = global_store();
    let d = (depth - 1) as nat;
    lemma_names_are_no_keywords(builtin);
    law_global_scope_binds_procedures(builtin);
    assert(eval_value(items[0], 0, store, d) == (Outcome { value: Value::Proc(builtin), store }));
    assert(eval_value(items[1], 0, store, d) == (Outcome { value: Value::Int(a), store }));
    assert(eval_value(items[2], 0, store, d) == (Outcome { value: Value::Int(b), store }));
    assert(eval_sequence(items, 3, 0, store, d).values =~= Seq::<Value>::empty());
    assert(eval_sequence(items, 3, 0, store, d).store == store);
    assert(eval_sequence(items, 2, 0, store, d).values =~= seq![Value::Int(b)]);
    assert(eval_sequence(items, 2, 0, store, d).store == store);
    assert(eval_sequence(items, 1, 0, store, d).values =~= seq![Value::Int(a), Value::Int(b)]);
    assert(eval_sequence(items, 1, 0, store, d).store == store);
    let evaluated = seq![Value::Proc(builtin), Value::Int(a), Value::Int(b)];
    assert(eval_sequence(items, 0, 0, store, d).values =~= evaluated);
    assert(eval_sequence(items, 0, 0, store, d).store == store);
    let arguments = seq![Value::Int(a), Value::Int(b)];
    assert(evaluated.subrange(1, 3) =~= arguments);
    assert(first_error_from(arguments, 2).is_none());
    assert(first_error_from(arguments, 1).is_none());
    assert(first_error(arguments).is_none());
    assert(folded(op, integer_result(op, a, b), arguments, 2) == integer_result(op, a, b));
    assert(arithmetic(op, arguments[0], arguments[1]) == integer_result(op, a, b));
    assert(folded(op, arguments[0], arguments, 1) == integer_result(op, a, b));
    assert(arithmetic_value(op, arguments) == integer_result(op, a, b));
    assert(builtin_value(builtin, arguments) == integer_result(op, a, b));
    assert(apply_value(evaluated, store, d) == (Outcome {
        value: integer_result(op, a, b),
        store,
    }));
}

/// Where the result of an operation on two integers is a 64-bit integer, the
/// operation gives it.
pub proof fn lemma_integer_results(op: Operator, a: i64, b: i64)
    ensures
        op == Operator::Add && i64::MIN <= a + b <= i64::MAX ==> integer_result(op, a, b)
            == Value::Int((a + b) as i64),
        op == Operator::Sub && i64::MIN <= a - b <= i64::MAX ==> integer_result(op, a, b)
            == Value::Int((a - b) as i64),
        op == Operator::Mul && i64::MIN <= a * b <= i64::MAX ==> integer_result(op, a, b)
            == Value::Int((a * b) as i64),
        op == Operator::Div && b != 0 && !(a == i64::MIN && b == -1) ==> integer_result(op, a, b)
            == Value::Int(truncated_quotient(a as int, b as int) as i64),
{
    if op == Operator::Mul && i64::MIN <= a * b <= i64::MAX {
        let product = a * b;
        assert(0x1_0000_0000_0000_0000 > 0);
        if product >= 0 {
            assert(product % 0x1_0000_0000_0000_0000 == product);
        } else {
            assert(product % 0x1_0000_0000_0000_0000 == product + 0x1_0000_0000_0000_0000);
        }
    }
}

/// The text `(+ a b)` with two integers is read as the call of `+` on them,
/// and evaluates in a new interpreter to their sum, where that is a 64-bit
/// integer; so with `-` and the difference, `*` and the product, and, for a
/// divisor that is not zero, `/` and the quotient rounded towards zero.
#[verifier::spinoff_prover]
#[verifier::rlimit(50)]
pub proof fn law_arithmetic_of_two_integers(op: Operator, a: i64, b: i64)
    ensures
        parse_value(operation_text(op, a, b)) == Ok::<Value, SyntaxError>(operation(op, a, b)),
        fresh_value(operation_text(op, a, b)) == Some(integer_result(op, a, b)),
        op == Operator::Add && i64::MIN <= a + b <= i64::MAX ==> integer_result(op, a, b)
            == Value::Int((a + b) as i64),
        op == Operator::Sub && i64::MIN <= a - b <= i64::MAX ==> integer_result(op, a, b)
            == Value::Int((a - b) as i64),
        op == Operator::Mul && i64::MIN <= a * b <= i64::MAX ==> integer_result(op, a, b)
            == Value::Int((a * b) as i64),
        op == Operator::Div && b != 0 && !(a == i64::MIN && b == -1) ==> integer_result(op, a, b)
            == Value::Int(truncated_quotient(a as int, b as int) as i64),
{
    lemma_operator_is_printable(op);
    let value = operation(op, a, b);
    assert(printable(value)) by {
        let items = value->List_0;
        assert forall|i: int| 0 <= i < items.len() implies printable(#[trigger] items[i]) by {}
    }
    lemma_parse_text(value);
    assert(float_free(value)) by {
        let items = value->List_0;
        assert forall|i: int| 0 <= i < items.len() implies float_free(#[trigger] items[i]) by {}
    }
    lemma_reread_without_doubles(value);
    lemma_operation_text(op, a, b);
    lemma_operation_value(op, a, b, DEPTH_LIMIT as nat);
    lemma_integer_results(op, a, b);
}

/// Zero is the only integer that counts as false: `(if n a b)` with an
/// integer `n` evaluates `a` where `n` is not zero, and `b` where it is.
pub proof fn law_zero_is_the_only_false_integer(
    n: i64,
    then: Value,
    other: Value,
    scope: nat,
    store: Store,
    depth: nat,
)
    requires
        depth >= 2,
    ensures
        eval_value(
            Value::List(seq![Value::Symbol("if"@), Value::Int(n), then, other]),
            scope,
            store,
            depth,
        ) == eval_value(
            if n != 0 {
                then
            } else {
                other
            },
            scope,
            store,
            (depth - 1) as nat,
        ),
{
    lemma_keywords_differ();
    let d = (depth - 1) as nat;
    assert(eval_value(Value::Int(n), scope, store, d) == (Outcome { value: Value::Int(n), store }));
    assert(truth_of(Value::Int(n)) == (n != 0));
}

/// `(car (quote ()))` evaluates in a new interpreter to an error value, and
/// leaves the store as it is.
#[verifier::spinoff_prover]
#[verifier::rlimit(50)]
pub proof fn law_car_of_quoted_empty_list(depth: nat)
    requires
        depth >= 3,
    ensures
        ({
            let empty = Value::List(Seq::empty());
            let quoted = Value::List(seq![Value::Symbol("quote"@), empty]);
            let call = Value::List(seq![Value::Symbol("car"@), quoted]);
            &&& eval_value(call, 0, global_store(), depth).value is Error
            &&& eval_value(call, 0, global_store(), depth).store == global_store()
        }),
{
    let empty = Value::List(Seq::<Value>::empty());
    let quoted = Value::List(seq![Value::Symbol("quote"@), empty]);
    let items = seq![Value::Symbol("car"@), quoted];
    let store = global_store();
    let d = (depth - 1) as nat;
    lemma_names_are_no_keywords(Builtin::Car);
    law_global_scope_binds_procedures(Builtin::Car);
    law_quote_gives_its_operand(empty, 0, store, d);
    assert(eval_value(items[0], 0, store, d) == (Outcome { value: Value::Proc(Builtin::Car), store }));
    assert(eval_value(items[1], 0, store, d) == (Outcome { value: empty, store }));
    assert(eval_sequence(items, 2, 0, store, d).values =~= Seq::<Value>::empty());
    assert(eval_sequence(items, 2, 0, store, d).store == store);
    assert(eval_sequence(items, 1, 0, store, d).values =~= seq![empty]);
    assert(eval_sequence(items, 1, 0, store, d).store == store);
    let evaluated = seq![Value::Proc(Builtin::Car), empty];
    assert(eval_sequence(items, 0, 0, store, d).values =~= evaluated);
    assert(eval_sequence(items, 0, 0, store, d).store == store);
    let arguments = seq![empty];
    assert(evaluated.subrange(1, 2) =~= arguments);
    assert(first_error_from(arguments, 1).is_none());
    assert(first_error(arguments).is_none());
    law_car_of_the_empty_list_is_an_error();
    assert(builtin_value(Builtin::Car, arguments) == car_value(arguments));
}

/// A closure is called with its argument: `((lambda (x) (+ x 1)) n)` with an
/// integer `n` evaluates in a new interpreter to `n + 1`, wrapped round at 64
/// bits.
#[verifier::spinoff_prover]
#[verifier::rlimit(50)]
pub proof fn law_closure_is_called_with_its_argument(n: i64, depth: nat)
    requires
        depth >= 3,
    ensures
        ({
            let body = Value::List(
                seq![Value::Symbol("+"@), Value::Symbol("x"@), Value::Int(1)],
            );
            let lambda = Value::List(
                seq![Value::Symbol("lambda"@), Value::List(seq![Value::Symbol("x"@)]), body],
            );
            let call = Value::List(seq![lambda, Value::Int(n)]);
            eval_value(call, 0, global_store(), depth).value == integer_result(Operator::Add, n, 1)
        }),
{
    let body_items = seq![Value::Symbol("+"@), Value::Symbol("x"@), Value::Int(1)];
    let body = Value::List(body_items);
    let parameters = seq![Value::Symbol("x"@)];
    let lambda = Value::List(seq![Value::Symbol("lambda"@), Value::List(parameters), body]);
    let items = seq![lambda, Value::Int(n)];
    let g = global_store();
    let d = (depth - 1) as nat;
    let e = (d - 1) as nat;
    lemma_keywords_differ();
    lemma_names_are_no_keywords(Builtin::Add);
    law_global_scope_binds_procedures(Builtin::Add);
    reveal_strlit("x");
    lemma_builtin_mark(Builtin::Add);
    assert("x"@ != "+"@) by {
        assert("x"@[0] == 'x');
        assert("+"@[0] == '+');
    }
    // The head makes the closure.
    let closure = Value::Lambda(Box::new(body), parameters, 0, 0);
    let g1 = g.count_closure();
    assert(eval_value(lambda, 0, g, d) == (Outcome { value: closure, store: g1 }));
    assert(eval_value(Value::Int(n), 0, g1, d) == (Outcome { value: Value::Int(n), store: g1 }));
    assert(eval_sequence(items, 2, 0, g1, d).values =~= Seq::<Value>::empty());
    assert(eval_sequence(items, 2, 0, g1, d).store == g1);
    assert(eval_sequence(items, 1, 0, g1, d).values =~= seq![Value::Int(n)]);
    assert(eval_sequence(items, 1, 0, g1, d).store == g1);
    let evaluated = seq![closure, Value::Int(n)];
    assert(eval_sequence(items, 0, 0, g, d).values =~= evaluated);
    assert(eval_sequence(items, 0, 0, g, d).store == g1);
    let arguments = seq![Value::Int(n)];
    assert(evaluated.subrange(1, 2) =~= arguments);
    assert(first_error_from(arguments, 1).is_none());
    assert(first_error(arguments).is_none());
    // The call binds the parameter in a new scope.
    assert(all_symbols(parameters));
    let extended = g1.extend(0);
    assert(bound(extended, 1, parameters, arguments, 0) == extended);
    let inner = extended.define(1, "x"@, Value::Int(n));
    assert(bound(extended, 1, parameters, arguments, 1) == inner);
    assert(inner.scopes[1].bindings.contains_key("x"@));
    assert(!inner.scopes[1].bindings.contains_key("+"@));
    assert(inner.scopes[0] == g.scopes[0]);
    assert(inner.lookup(1, "x"@) == Some(Value::Int(n)));
    assert(g.defining_scope(0, "+"@) == Some(0nat));
    assert(inner.defining_scope(0, "+"@) == Some(0nat));
    assert(inner.defining_scope(1, "+"@) == Some(0nat));
    assert(inner.lookup(1, "+"@) == Some(Value::Proc(Builtin::Add)));
    // The body is evaluated in that scope.
    assert(eval_value(body_items[0], 1, inner, e) == (Outcome {
        value: Value::Proc(Builtin::Add),
        store: inner,
    }));
    assert(eval_value(body_items[1], 1, inner, e) == (Outcome {
        value: Value::Int(n),
        store: inner,
    }));
    assert(eval_value(body_items[2], 1, inner, e) == (Outcome {
        value: Value::Int(1),
        store: inner,
    }));
    assert(eval_sequence(body_items, 3, 1, inner, e).values =~= Seq::<Value>::empty());
    assert(eval_sequence(body_items, 3, 1, inner, e).store == inner);
    assert(eval_sequence(body_items, 2, 1, inner, e).values =~= seq![Value::Int(1)]);
    assert(eval_sequence(body_items, 2, 1, inner, e).store == inner);
    assert(eval_sequence(body_items, 1, 1, inner, e).values =~= seq![Value::Int(n), Value::Int(1)]);
    assert(eval_sequence(body_items, 1, 1, inner, e).store == inner);
    let summands = seq![Value::Int(n), Value::Int(1)];
    let inner_evaluated = seq![Value::Proc(Builtin::Add), Value::Int(n), Value::Int(1)];
    assert(eval_sequence(body_items, 0, 1, inner, e).values =~= inner_evaluated);
    assert(eval_sequence(body_items, 0, 1, inner, e).store == inner);
    assert(inner_evaluated.subrange(1, 3) =~= summands);
    assert(first_error_from(summands, 2).is_none());
    assert(first_error_from(summands, 1).is_none());
    assert(first_error(summands).is_none());
    let sum = integer_result(Operator::Add, n, 1);
    assert(folded(Operator::Add, sum, summands, 2) == sum);
    assert(arithmetic(Operator::Add, summands[0], summands[1]) == sum);
    assert(folded(Operator::Add, summands[0], summands, 1) == sum);
    assert(arithmetic_value(Operator::Add, summands) == sum);
    assert(builtin_value(Builtin::Add, summands) == sum);
    assert(apply_value(inner_evaluated, inner, e) == (Outcome { value: sum, store: inner }));
    assert(eval_value(body, 1, inner, d) == (Outcome { value: sum, store: inner }));
    assert(closure_value(body, parameters, 0, arguments, g1, d).value == sum);
    assert(apply_value(evaluated, g1, d).value == sum);
}

} // verus!
