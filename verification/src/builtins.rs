//! The procedures that the language provides.
//!
//! Each takes the evaluated arguments of a call and the environment, and
//! returns a value; what goes wrong comes back as an `Error` value. An error
//! among the arguments is returned as it is, the first one first.
use vstd::prelude::*;
use vstd::string::StringExecFns;
use crate::environment::Environment;
use crate::expression::arithmetic;
use crate::expression::equal_values;
use crate::expression::is_number_value;
use crate::expression::not_a_number;
use crate::expression::related;
use crate::expression::text_of;
use crate::expression::truth_of;
use crate::expression::values_of;
use crate::expression::write_list;
use crate::expression::Builtin;
use crate::expression::Expression;
use crate::expression::Operator;
use crate::expression::Relation;
use crate::expression::Value;
use crate::text::decimal;
use crate::text::push_decimal;

verus! {

/// The first error among the arguments from index `from` on.
pub open spec fn first_error_from(args: Seq<Value>, from: int) -> Option<Value>
    decreases args.len() - from,
{
    if from < 0 || from >= args.len() {
        None
    } else if args[from] is Error {
        Some(args[from])
    } else {
        first_error_from(args, from + 1)
    }
}

/// The first error among the arguments.
pub open spec fn first_error(args: Seq<Value>) -> Option<Value> {
    first_error_from(args, 0)
}

/// The first argument from index `from` on that is no number.
pub open spec fn first_non_number_from(args: Seq<Value>, from: int) -> Option<Value>
    decreases args.len() - from,
{
    if from < 0 || from >= args.len() {
        None
    } else if !is_number_value(args[from]) {
        Some(args[from])
    } else {
        first_non_number_from(args, from + 1)
    }
}

/// The plural ending for a count.
pub open spec fn plural(count: int) -> Seq<char> {
    if count == 1 {
        ""@
    } else {
        "s"@
    }
}

/// The end of a message about a call: how many arguments it had, and which.
pub open spec fn called_with(args: Seq<Value>) -> Seq<char> {
    "It was called with "@ + decimal(args.len() as int) + " '"@ + text_of(Value::List(args))
        + "'"@
}

/// The error for a call of `name` that does not have exactly `count`
/// arguments.
pub open spec fn exact_arity_error(name: Seq<char>, count: int, args: Seq<Value>) -> Value {
    Value::Error(
        "Built-in function '"@ + name + "' takes only "@ + decimal(count) + " argument"@ + plural(
            count,
        ) + ". "@ + called_with(args) + "."@,
    )
}

/// The error for a call of `name` with fewer than `count` arguments.
pub open spec fn minimum_arity_error(name: Seq<char>, count: int, args: Seq<Value>) -> Value {
    Value::Error(
        "Built-in function '"@ + name + "' takes at least "@ + decimal(count) + " argument"@
            + plural(count) + ". "@ + called_with(args),
    )
}

/// The error for a call of `name` whose argument should have been a list that
/// `what` describes; `shown` is what the call had in its place.
pub open spec fn list_wanted_error(name: Seq<char>, what: Seq<char>, shown: Value) -> Value {
    Value::Error(
        "Built-in function '"@ + name + "' requires "@ + what + ". It was called with "@ + text_of(
            shown,
        ),
    )
}

/// The first error among the arguments.
pub fn find_error(args: &Vec<Expression>) -> (r: Option<Expression>)
    ensures
        match r {
            Some(e) => first_error(values_of(args@)) == Some(e@),
            None => first_error(values_of(args@)).is_none(),
        },
{
    let ghost values = values_of(args@);
    let mut i: usize = 0;
    while i < args.len()
        invariant
            i <= args.len(),
            values == values_of(args@),
            first_error(values) == first_error_from(values, i as int),
        decreases args.len() - i,
    {
        if args[i].is_error() {
            return Some(args[i].copy());
        }
        assert(values[i as int] == args@[i as int]@);
        i = i + 1;
    }
    None
}

/// The first argument that is no number.
fn find_non_number(args: &Vec<Expression>) -> (r: Option<usize>)
    ensures
        match r {
            Some(i) => i < args@.len() && first_non_number_from(values_of(args@), 0) == Some(
                args@[i as int]@,
            ),
            None => first_non_number_from(values_of(args@), 0).is_none(),
        },
{
    let ghost values = values_of(args@);
    let mut i: usize = 0;
    while i < args.len()
        invariant
            i <= args.len(),
            values == values_of(args@),
            first_non_number_from(values, 0) == first_non_number_from(values, i as int),
        decreases args.len() - i,
    {
        assert(values[i as int] == args@[i as int]@);
        if !args[i].is_number() {
            return Some(i);
        }
        i = i + 1;
    }
    None
}

/// Appends the end of a message about a call to `out`.
fn push_called_with(out: &mut String, args: &Vec<Expression>)
    ensures
        final(out)@ == old(out)@ + called_with(values_of(args@)),
{
    out.append("It was called with ");
    push_decimal(out, args.len() as i128);
    out.append(" '");
    write_list(args, out);
    out.append("'");
    assert(out@ =~= old(out)@ + called_with(values_of(args@)));
}

/// The plural ending for a count: none for one, an `s` for every other.
pub fn sometimes_ess(number: usize) -> (r: &'static str)
    ensures
        r@ == plural(number as int),
{
    if number == 1 {
        ""
    } else {
        "s"
    }
}

/// The error for a call of `name` that does not have exactly `count`
/// arguments.
fn exact_arity(name: &str, count: usize, args: &Vec<Expression>) -> (r: Expression)
    ensures
        r@ == exact_arity_error(name@, count as int, values_of(args@)),
{
    let mut out = String::from_str("Built-in function '");
    out.append(name);
    out.append("' takes only ");
    push_decimal(&mut out, count as i128);
    out.append(" argument");
    out.append(sometimes_ess(count));
    out.append(". ");
    push_called_with(&mut out, args);
    out.append(".");
    assert(out@ =~= exact_arity_error(name@, count as int, values_of(args@))->Error_0);
    Expression::Error(out)
}

/// The error for a call of `name` with fewer than `count` arguments.
fn minimum_arity(name: &str, count: usize, args: &Vec<Expression>) -> (r: Expression)
    ensures
        r@ == minimum_arity_error(name@, count as int, values_of(args@)),
{
    let mut out = String::from_str("Built-in function '");
    out.append(name);
    out.append("' takes at least ");
    push_decimal(&mut out, count as i128);
    out.append(" argument");
    out.append(sometimes_ess(count));
    out.append(". ");
    push_called_with(&mut out, args);
    assert(out@ =~= minimum_arity_error(name@, count as int, values_of(args@))->Error_0);
    Expression::Error(out)
}

/// The starting value of a fold: 0 for sums and differences, 1 for products
/// and quotients.
pub open spec fn identity_of(op: Operator) -> Value {
    match op {
        Operator::Add => Value::Int(0),
        Operator::Sub => Value::Int(0),
        Operator::Mul => Value::Int(1),
        Operator::Div => Value::Int(1),
    }
}

/// The arguments from index `from` on, folded onto `acc` from the left.
pub open spec fn folded(op: Operator, acc: Value, args: Seq<Value>, from: int) -> Value
    decreases args.len() - from,
{
    if from < 0 || from >= args.len() {
        acc
    } else {
        folded(op, arithmetic(op, acc, args[from]), args, from + 1)
    }
}

/// What an arithmetic procedure returns: the first error among the arguments;
/// else the starting value for no argument, the starting value combined with
/// the argument for one, and the arguments folded from the left for more.
pub open spec fn arithmetic_value(op: Operator, args: Seq<Value>) -> Value {
    match first_error(args) {
        Some(e) => e,
        None => if args.len() == 0 {
            identity_of(op)
        } else if args.len() == 1 {
            arithmetic(op, identity_of(op), args[0])
        } else {
            folded(op, args[0], args, 1)
        },
    }
}

/// Whether `relation` holds between each argument and the next.
pub open spec fn all_related(relation: Relation, args: Seq<Value>) -> bool {
    forall|i: int| 0 <= i < args.len() - 1 ==> related(relation, #[trigger] args[i], args[i + 1])
}

/// What a comparison returns: an error for fewer than two arguments, the first
/// error among the arguments, an error for the first argument that is no
/// number; else whether the relation holds between each argument and the next.
pub open spec fn comparison_value(relation: Relation, name: Seq<char>, args: Seq<Value>) -> Value {
    if args.len() < 2 {
        minimum_arity_error(name, 2, args)
    } else {
        match first_error(args) {
            Some(e) => e,
            None => match first_non_number_from(args, 0) {
                Some(v) => not_a_number(v),
                None => Value::Bool(all_related(relation, args)),
            },
        }
    }
}

/// The name of a relation as a procedure.
pub open spec fn relation_name(relation: Relation) -> Seq<char> {
    match relation {
        Relation::Lt => "<"@,
        Relation::Le => "<="@,
        Relation::Gt => ">"@,
        Relation::Ge => ">="@,
        Relation::Same => "="@,
    }
}

/// Folds the arguments with an operation.
pub fn fold_arithmetic(op: Operator, args: &Vec<Expression>) -> (r: Expression)
    ensures
        r@ == arithmetic_value(op, values_of(args@)),
{
    let ghost values = values_of(args@);
    match find_error(args) {
        Some(e) => {
            return e;
        },
        None => {},
    }
    let identity = match op {
        Operator::Add => Expression::Int(0),
        Operator::Sub => Expression::Int(0),
        Operator::Mul => Expression::Int(1),
        Operator::Div => Expression::Int(1),
    };
    if args.len() == 0 {
        return identity;
    }
    assert(values[0] == args@[0]@);
    if args.len() == 1 {
        return identity.operate(op, &args[0]);
    }
    let mut acc = args[0].copy();
    let mut i: usize = 1;
    while i < args.len()
        invariant
            1 <= i <= args.len(),
            values == values_of(args@),
            folded(op, values[0], values, 1) == folded(op, acc@, values, i as int),
        decreases args.len() - i,
    {
        assert(values[i as int] == args@[i as int]@);
        acc = acc.operate(op, &args[i]);
        i = i + 1;
    }
    acc
}

/// Compares each argument with the next.
#[verifier::loop_isolation(false)]
pub fn compare_all(relation: Relation, args: &Vec<Expression>) -> (r: Expression)
    ensures
        r@ == comparison_value(relation, relation_name(relation), values_of(args@)),
{
    let ghost values = values_of(args@);
    if args.len() < 2 {
        let name = match relation {
            Relation::Lt => "<",
            Relation::Le => "<=",
            Relation::Gt => ">",
            Relation::Ge => ">=",
            Relation::Same => "=",
        };
        return minimum_arity(name, 2, args);
    }
    match find_error(args) {
        Some(e) => {
            return e;
        },
        None => {},
    }
    match find_non_number(args) {
        Some(i) => {
            return crate::expression::error_about(&args[i], " was given where a number was expected");
        },
        None => {},
    }
    let mut i: usize = 0;
    while i + 1 < args.len()
        invariant
            i + 1 <= args.len(),
            values == values_of(args@),
            forall|j: int| 0 <= j < i ==> related(relation, #[trigger] values[j], values[j + 1]),
        decreases args.len() - i,
    {
        assert(values[i as int] == args@[i as int]@);
        assert(values[i + 1] == args@[i + 1]@);
        if !args[i].relate(relation, &args[i + 1]) {
            assert(!related(relation, values[i as int], values[i + 1]));
            assert(!all_related(relation, values));
            return Expression::Bool(false);
        }
        i = i + 1;
    }
    Expression::Bool(true)
}

/// `+`: the sum of the arguments.
pub fn add(args: Vec<Expression>, env: &Environment) -> (r: Expression)
    ensures
        r@ == arithmetic_value(Operator::Add, values_of(args@)),
{
    fold_arithmetic(Operator::Add, &args)
}

/// `-`: the first argument less the others.
pub fn sub(args: Vec<Expression>, env: &Environment) -> (r: Expression)
    ensures
        r@ == arithmetic_value(Operator::Sub, values_of(args@)),
{
    fold_arithmetic(Operator::Sub, &args)
}

/// `*`: the product of the arguments.
pub fn mul(args: Vec<Expression>, env: &Environment) -> (r: Expression)
    ensures
        r@ == arithmetic_value(Operator::Mul, values_of(args@)),
{
    fold_arithmetic(Operator::Mul, &args)
}

/// `/`: the first argument divided by the others in turn.
pub fn div(args: Vec<Expression>, env: &Environment) -> (r: Expression)
    ensures
        r@ == arithmetic_value(Operator::Div, values_of(args@)),
{
    fold_arithmetic(Operator::Div, &args)
}

/// `<`: whether each argument is less than the next.
pub fn lt(args: Vec<Expression>, env: &Environment) -> (r: Expression)
    ensures
        r@ == comparison_value(Relation::Lt, "<"@, values_of(args@)),
{
    compare_all(Relation::Lt, &args)
}

/// `<=`: whether each argument is at most the next.
pub fn le(args: Vec<Expression>, env: &Environment) -> (r: Expression)
    ensures
        r@ == comparison_value(Relation::Le, "<="@, values_of(args@)),
{
    compare_all(Relation::Le, &args)
}

/// `>`: whether each argument is greater than the next.
pub fn gt(args: Vec<Expression>, env: &Environment) -> (r: Expression)
    ensures
        r@ == comparison_value(Relation::Gt, ">"@, values_of(args@)),
{
    compare_all(Relation::Gt, &args)
}

/// `>=`: whether each argument is at least the next.
pub fn ge(args: Vec<Expression>, env: &Environment) -> (r: Expression)
    ensures
        r@ == comparison_value(Relation::Ge, ">="@, values_of(args@)),
{
    compare_all(Relation::Ge, &args)
}

/// `=`: whether each argument is the same number as the next.
pub fn equals(args: Vec<Expression>, env: &Environment) -> (r: Expression)
    ensures
        r@ == comparison_value(Relation::Same, "="@, values_of(args@)),
{
    compare_all(Relation::Same, &args)
}

/// What a procedure with a fixed number of arguments returns: the first
/// error among the arguments; an error where their number is not `count`;
/// else `result`.
pub open spec fn checked(name: Seq<char>, count: int, args: Seq<Value>, result: Value) -> Value {
    match first_error(args) {
        Some(e) => e,
        None => if args.len() != count {
            exact_arity_error(name, count, args)
        } else {
            result
        },
    }
}

/// What `not` returns.
pub open spec fn not_value(args: Seq<Value>) -> Value {
    checked("not"@, 1, args, Value::Bool(!truth_of(args[0])))
}

/// What `car` returns: the first item of a list that has one.
pub open spec fn car_value(args: Seq<Value>) -> Value {
    checked(
        "car"@,
        1,
        args,
        match args[0] {
            Value::List(items) => if items.len() > 0 {
                items[0]
            } else {
                list_wanted_error("car"@, "a list argument"@, args[0])
            },
            _ => list_wanted_error("car"@, "a list argument"@, args[0]),
        },
    )
}

/// What `cdr` returns: a list without its first item.
pub open spec fn cdr_value(args: Seq<Value>) -> Value {
    checked(
        "cdr"@,
        1,
        args,
        match args[0] {
            Value::List(items) => if items.len() > 0 {
                Value::List(items.subrange(1, items.len() as int))
            } else {
                list_wanted_error("cdr"@, "a list argument"@, args[0])
            },
            _ => list_wanted_error("cdr"@, "a list argument"@, args[0]),
        },
    )
}

/// What `cons` returns: the second argument with the first in front of it,
/// where it is a list; else the list of both.
pub open spec fn cons_value(args: Seq<Value>) -> Value {
    checked(
        "cons"@,
        2,
        args,
        match args[1] {
            Value::List(items) => Value::List(seq![args[0]] + items),
            _ => Value::List(seq![args[0], args[1]]),
        },
    )
}

/// What `append` returns: the first argument, a list, with the items of the
/// second behind it, where that is a list; else with the second itself.
pub open spec fn append_value(args: Seq<Value>) -> Value {
    checked(
        "append"@,
        2,
        args,
        match args[0] {
            Value::List(items) => match args[1] {
                Value::List(more) => Value::List(items + more),
                _ => Value::List(items.push(args[1])),
            },
            _ => list_wanted_error("append"@, "a list as the first arguments"@, Value::List(args)),
        },
    )
}

/// What `list` returns: the arguments as a list.
pub open spec fn list_value(args: Seq<Value>) -> Value {
    match first_error(args) {
        Some(e) => e,
        None => Value::List(args),
    }
}

/// The error for a list with more items than an integer can count.
pub open spec fn too_long_error() -> Value {
    Value::Error("Built-in function 'length' cannot count a list this long"@)
}

/// What `length` returns: the number of items of a list.
pub open spec fn length_value(args: Seq<Value>) -> Value {
    checked(
        "length"@,
        1,
        args,
        match args[0] {
            Value::List(items) => if items.len() <= i64::MAX {
                Value::Int(items.len() as i64)
            } else {
                too_long_error()
            },
            _ => list_wanted_error("length"@, "a list argument"@, Value::List(args)),
        },
    )
}

/// What `equal?`, `eq?` and `eqv?` return: whether the two arguments are
/// equal.
pub open spec fn equality_value(name: Seq<char>, args: Seq<Value>) -> Value {
    checked(name, 2, args, Value::Bool(equal_values(args[0], args[1])))
}

/// What `symbol?` returns.
pub open spec fn symbol_value(args: Seq<Value>) -> Value {
    checked("symbol?"@, 1, args, Value::Bool(args[0] is Symbol))
}

/// What `list?` returns.
pub open spec fn is_list_value(args: Seq<Value>) -> Value {
    checked("list?"@, 1, args, Value::Bool(args[0] is List))
}

/// What `null?` returns: whether the argument is the empty list.
pub open spec fn null_value(args: Seq<Value>) -> Value {
    checked(
        "null?"@,
        1,
        args,
        Value::Bool(
            match args[0] {
                Value::List(items) => items.len() == 0,
                _ => false,
            },
        ),
    )
}

/// What a procedure returns for given arguments.
pub open spec fn builtin_value(builtin: Builtin, args: Seq<Value>) -> Value {
    match builtin {
        Builtin::Add => arithmetic_value(Operator::Add, args),
        Builtin::Sub => arithmetic_value(Operator::Sub, args),
        Builtin::Mul => arithmetic_value(Operator::Mul, args),
        Builtin::Div => arithmetic_value(Operator::Div, args),
        Builtin::Lt => comparison_value(Relation::Lt, "<"@, args),
        Builtin::Le => comparison_value(Relation::Le, "<="@, args),
        Builtin::Gt => comparison_value(Relation::Gt, ">"@, args),
        Builtin::Ge => comparison_value(Relation::Ge, ">="@, args),
        Builtin::Equals => comparison_value(Relation::Same, "="@, args),
        Builtin::Not => not_value(args),
        Builtin::Car => car_value(args),
        Builtin::Cdr => cdr_value(args),
        Builtin::Cons => cons_value(args),
        Builtin::Append => append_value(args),
        Builtin::List => list_value(args),
        Builtin::Length => length_value(args),
        Builtin::Eq => equality_value("eq?"@, args),
        Builtin::Eqv => equality_value("eqv?"@, args),
        Builtin::Equal => equality_value("equal?"@, args),
        Builtin::IsSymbol => symbol_value(args),
        Builtin::IsList => is_list_value(args),
        Builtin::IsNull => null_value(args),
    }
}

/// The first error among the arguments, or the error for a wrong number of
/// them; `None` where there are `count` arguments and no error among them.
fn check(name: &str, count: usize, args: &Vec<Expression>) -> (r: Option<Expression>)
    ensures
        match r {
            Some(e) => forall|result: Value|
                e@ == #[trigger] checked(name@, count as int, values_of(args@), result),
            None => args@.len() == count && forall|result: Value|
                result == #[trigger] checked(name@, count as int, values_of(args@), result),
        },
{
    match find_error(args) {
        Some(e) => Some(e),
        None => if args.len() != count {
            Some(exact_arity(name, count, args))
        } else {
            None
        },
    }
}

/// The error for a call of `name` whose argument should have been a list.
fn list_wanted(name: &str, what: &str, shown: &Expression) -> (r: Expression)
    ensures
        r@ == list_wanted_error(name@, what@, shown@),
{
    let mut out = String::from_str("Built-in function '");
    out.append(name);
    out.append("' requires ");
    out.append(what);
    out.append(". It was called with ");
    shown.write_text(&mut out);
    assert(out@ =~= list_wanted_error(name@, what@, shown@)->Error_0);
    Expression::Error(out)
}

/// The error for a call of `name` whose argument should have been a list,
/// with all the arguments shown.
fn list_wanted_among(name: &str, what: &str, args: &Vec<Expression>) -> (r: Expression)
    ensures
        r@ == list_wanted_error(name@, what@, Value::List(values_of(args@))),
{
    let mut out = String::from_str("Built-in function '");
    out.append(name);
    out.append("' requires ");
    out.append(what);
    out.append(". It was called with ");
    write_list(args, &mut out);
    assert(out@ =~= list_wanted_error(name@, what@, Value::List(values_of(args@)))->Error_0);
    Expression::Error(out)
}

/// Appends copies of the items from index `from` on to `out`.
fn push_copies(out: &mut Vec<Expression>, items: &Vec<Expression>, from: usize)
    requires
        from <= items@.len(),
    ensures
        values_of(final(out)@) == values_of(old(out)@) + values_of(items@).subrange(
            from as int,
            items@.len() as int,
        ),
{
    let ghost start = values_of(out@);
    let ghost values = values_of(items@);
    let mut i: usize = from;
    assert(values_of(out@) =~= start + values.subrange(from as int, i as int));
    while i < items.len()
        invariant
            from <= i <= items@.len(),
            values == values_of(items@),
            values_of(out@) == start + values.subrange(from as int, i as int),
        decreases items@.len() - i,
    {
        let ghost before = values_of(out@);
        let item = items[i].copy();
        out.push(item);
        assert(values_of(out@) =~= before.push(item@));
        i = i + 1;
        assert(values_of(out@) =~= start + values.subrange(from as int, i as int));
    }
}

/// The list value of a vector of expressions.
fn list_of(items: Vec<Expression>) -> (r: Expression)
    ensures
        r@ == Value::List(values_of(items@)),
{
    proof {
        crate::expression::lemma_list_model(items);
    }
    Expression::List(items)
}

/// `not`: the opposite of the truth of the argument.
pub fn not(args: Vec<Expression>, env: &Environment) -> (r: Expression)
    ensures
        r@ == not_value(values_of(args@)),
{
    match check("not", 1, &args) {
        Some(e) => e,
        None => {
            assert(values_of(args@)[0] == args@[0]@);
            Expression::Bool(!args[0].to_bool())
        },
    }
}

/// `car`: the first item of a list.
pub fn car(args: Vec<Expression>, env: &Environment) -> (r: Expression)
    ensures
        r@ == car_value(values_of(args@)),
{
    match check("car", 1, &args) {
        Some(e) => e,
        None => {
            assert(values_of(args@)[0] == args@[0]@);
            match &args[0] {
                Expression::List(items) => {
                    assert(args@[0]@->List_0 =~= values_of(items@));
                    if items.len() > 0 {
                        items[0].copy()
                    } else {
                        list_wanted("car", "a list argument", &args[0])
                    }
                },
                _ => list_wanted("car", "a list argument", &args[0]),
            }
        },
    }
}

/// `cdr`: a list without its first item.
pub fn cdr(args: Vec<Expression>, env: &Environment) -> (r: Expression)
    ensures
        r@ == cdr_value(values_of(args@)),
{
    match check("cdr", 1, &args) {
        Some(e) => e,
        None => {
            assert(values_of(args@)[0] == args@[0]@);
            match &args[0] {
                Expression::List(items) => {
                    assert(args@[0]@->List_0 =~= values_of(items@));
                    if items.len() > 0 {
                        let mut rest: Vec<Expression> = Vec::new();
                        assert(values_of(rest@) =~= Seq::<Value>::empty());
                        push_copies(&mut rest, items, 1);
                        assert(values_of(rest@) =~= values_of(items@).subrange(
                            1,
                            items@.len() as int,
                        ));
                        list_of(rest)
                    } else {
                        list_wanted("cdr", "a list argument", &args[0])
                    }
                },
                _ => list_wanted("cdr", "a list argument", &args[0]),
            }
        },
    }
}

/// `cons`: a list with one more item in front.
pub fn cons(args: Vec<Expression>, env: &Environment) -> (r: Expression)
    ensures
        r@ == cons_value(values_of(args@)),
{
    match check("cons", 2, &args) {
        Some(e) => e,
        None => {
            assert(values_of(args@)[0] == args@[0]@);
            assert(values_of(args@)[1] == args@[1]@);
            let mut out: Vec<Expression> = Vec::new();
            let first = args[0].copy();
            out.push(first);
            assert(values_of(out@) =~= seq![args@[0]@]);
            match &args[1] {
                Expression::List(items) => {
                    assert(args@[1]@->List_0 =~= values_of(items@));
                    push_copies(&mut out, items, 0);
                    assert(values_of(out@) =~= seq![args@[0]@] + values_of(items@));
                },
                other => {
                    let second = other.copy();
                    out.push(second);
                    assert(values_of(out@) =~= seq![args@[0]@, args@[1]@]);
                },
            }
            list_of(out)
        },
    }
}

/// `append`: a list with more items behind.
pub fn append(args: Vec<Expression>, env: &Environment) -> (r: Expression)
    ensures
        r@ == append_value(values_of(args@)),
{
    match check("append", 2, &args) {
        Some(e) => e,
        None => {
            assert(values_of(args@)[0] == args@[0]@);
            assert(values_of(args@)[1] == args@[1]@);
            match &args[0] {
                Expression::List(items) => {
                    assert(args@[0]@->List_0 =~= values_of(items@));
                    let mut out: Vec<Expression> = Vec::new();
                    assert(values_of(out@) =~= Seq::<Value>::empty());
                    push_copies(&mut out, items, 0);
                    assert(values_of(out@) =~= values_of(items@));
                    match &args[1] {
                        Expression::List(more) => {
                            assert(args@[1]@->List_0 =~= values_of(more@));
                            push_copies(&mut out, more, 0);
                            assert(values_of(out@) =~= values_of(items@) + values_of(more@));
                        },
                        other => {
                            let second = other.copy();
                            out.push(second);
                            assert(values_of(out@) =~= values_of(items@).push(args@[1]@));
                        },
                    }
                    list_of(out)
                },
                _ => list_wanted_among("append", "a list as the first arguments", &args),
            }
        },
    }
}

/// `list`: the arguments as a list.
pub fn list(args: Vec<Expression>, env: &Environment) -> (r: Expression)
    ensures
        r@ == list_value(values_of(args@)),
{
    match find_error(&args) {
        Some(e) => e,
        None => list_of(args),
    }
}

/// `length`: the number of items of a list.
pub fn length(args: Vec<Expression>, env: &Environment) -> (r: Expression)
    ensures
        r@ == length_value(values_of(args@)),
{
    match check("length", 1, &args) {
        Some(e) => e,
        None => {
            assert(values_of(args@)[0] == args@[0]@);
            match &args[0] {
                Expression::List(items) => {
                    assert(args@[0]@->List_0 =~= values_of(items@));
                    let n: u64 = items.len() as u64;
                    if n <= 0x7fff_ffff_ffff_ffff {
                        Expression::Int(n as i64)
                    } else {
                        Expression::Error(
                            String::from_str(
                                "Built-in function 'length' cannot count a list this long",
                            ),
                        )
                    }
                },
                _ => list_wanted_among("length", "a list argument", &args),
            }
        },
    }
}

/// Whether the two arguments are equal, for the procedure `name`.
fn equality(name: &str, args: &Vec<Expression>) -> (r: Expression)
    ensures
        r@ == equality_value(name@, values_of(args@)),
{
    match check(name, 2, args) {
        Some(e) => e,
        None => {
            assert(values_of(args@)[0] == args@[0]@);
            assert(values_of(args@)[1] == args@[1]@);
            Expression::Bool(crate::expression::equal(&args[0], &args[1]))
        },
    }
}

/// `equal?`: whether the two arguments are equal.
pub fn equal_(args: Vec<Expression>, env: &Environment) -> (r: Expression)
    ensures
        r@ == equality_value("equal?"@, values_of(args@)),
{
    equality("equal?", &args)
}

/// `eq?`: whether the two arguments are equal.
pub fn eq_(args: Vec<Expression>, env: &Environment) -> (r: Expression)
    ensures
        r@ == equality_value("eq?"@, values_of(args@)),
{
    equality("eq?", &args)
}

/// `eqv?`: whether the two arguments are equal.
pub fn eqv_(args: Vec<Expression>, env: &Environment) -> (r: Expression)
    ensures
        r@ == equality_value("eqv?"@, values_of(args@)),
{
    equality("eqv?", &args)
}

/// `symbol?`: whether the argument is a symbol.
pub fn symbol_(args: Vec<Expression>, env: &Environment) -> (r: Expression)
    ensures
        r@ == symbol_value(values_of(args@)),
{
    match check("symbol?", 1, &args) {
        Some(e) => e,
        None => {
            assert(values_of(args@)[0] == args@[0]@);
            match &args[0] {
                Expression::Symbol(_) => Expression::Bool(true),
                _ => Expression::Bool(false),
            }
        },
    }
}

/// `list?`: whether the argument is a list.
pub fn list_(args: Vec<Expression>, env: &Environment) -> (r: Expression)
    ensures
        r@ == is_list_value(values_of(args@)),
{
    match check("list?", 1, &args) {
        Some(e) => e,
        None => {
            assert(values_of(args@)[0] == args@[0]@);
            match &args[0] {
                Expression::List(_) => Expression::Bool(true),
                _ => Expression::Bool(false),
            }
        },
    }
}

/// `null?`: whether the argument is the empty list.
pub fn null_(args: Vec<Expression>, env: &Environment) -> (r: Expression)
    ensures
        r@ == null_value(values_of(args@)),
{
    match check("null?", 1, &args) {
        Some(e) => e,
        None => {
            assert(values_of(args@)[0] == args@[0]@);
            match &args[0] {
                Expression::List(items) => {
                    assert(args@[0]@->List_0 =~= values_of(items@));
                    Expression::Bool(items.len() == 0)
                },
                _ => Expression::Bool(false),
            }
        },
    }
}

/// Calls a procedure on its arguments.
pub fn apply(builtin: Builtin, args: Vec<Expression>, env: &Environment) -> (r: Expression)
    ensures
        r@ == builtin_value(builtin, values_of(args@)),
{
    match builtin {
        Builtin::Add => self::add(args, env),
        Builtin::Sub => self::sub(args, env),
        Builtin::Mul => self::mul(args, env),
        Builtin::Div => self::div(args, env),
        Builtin::Lt => lt(args, env),
        Builtin::Le => le(args, env),
        Builtin::Gt => gt(args, env),
        Builtin::Ge => ge(args, env),
        Builtin::Equals => equals(args, env),
        Builtin::Not => not(args, env),
        Builtin::Car => car(args, env),
        Builtin::Cdr => cdr(args, env),
        Builtin::Cons => cons(args, env),
        Builtin::Append => append(args, env),
        Builtin::List => list(args, env),
        Builtin::Length => length(args, env),
        Builtin::Eq => eq_(args, env),
        Builtin::Eqv => eqv_(args, env),
        Builtin::Equal => equal_(args, env),
        Builtin::IsSymbol => symbol_(args, env),
        Builtin::IsList => list_(args, env),
        Builtin::IsNull => null_(args, env),
    }
}

/// The procedures in the order in which they are bound.
pub open spec fn builtin_table() -> Seq<Builtin> {
    seq![
        Builtin::Add,
        Builtin::Sub,
        Builtin::Mul,
        Builtin::Div,
        Builtin::Lt,
        Builtin::Le,
        Builtin::Gt,
        Builtin::Ge,
        Builtin::Equals,
        Builtin::Not,
        Builtin::Car,
        Builtin::Cdr,
        Builtin::Cons,
        Builtin::Append,
        Builtin::List,
        Builtin::Length,
        Builtin::Eq,
        Builtin::Eqv,
        Builtin::Equal,
        Builtin::IsSymbol,
        Builtin::IsList,
        Builtin::IsNull,
    ]
}

/// The procedures, each with the name under which it is bound.
pub fn builtins() -> (table: Vec<(String, Builtin)>)
    ensures
        table@.len() == builtin_table().len(),
        forall|i: int|
            0 <= i < table@.len() ==> (#[trigger] table@[i]).1 == builtin_table()[i]
                && table@[i].0@ == builtin_table()[i].name_text(),
{
    let all = [
        Builtin::Add,
        Builtin::Sub,
        Builtin::Mul,
        Builtin::Div,
        Builtin::Lt,
        Builtin::Le,
        Builtin::Gt,
        Builtin::Ge,
        Builtin::Equals,
        Builtin::Not,
        Builtin::Car,
        Builtin::Cdr,
        Builtin::Cons,
        Builtin::Append,
        Builtin::List,
        Builtin::Length,
        Builtin::Eq,
        Builtin::Eqv,
        Builtin::Equal,
        Builtin::IsSymbol,
        Builtin::IsList,
        Builtin::IsNull,
    ];
    assert(all@ =~= builtin_table());
    let mut table: Vec<(String, Builtin)> = Vec::new();
    let mut i: usize = 0;
    while i < 22
        invariant
            i <= 22,
            all@ == builtin_table(),
            table@.len() == i,
            forall|j: int|
                0 <= j < i ==> (#[trigger] table@[j]).1 == builtin_table()[j] && table@[j].0@
                    == builtin_table()[j].name_text(),
        decreases 22 - i,
    {
        let builtin = all[i];
        table.push((String::from_str(builtin.name()), builtin));
        i = i + 1;
    }
    table
}

} // verus!
