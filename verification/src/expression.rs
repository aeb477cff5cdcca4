//! The values of the language.
//!
//! `Expression` is what the interpreter holds at run time; `Value` is the
//! mathematical value that an expression stands for, and every contract in the
//! crate is stated over it.
use vstd::prelude::*;
use vstd::std_specs::cmp::PartialEqSpecImpl;
use vstd::string::StringExecFns;
use vstd::wrapping::i64_specs::wrapping_add;
use vstd::wrapping::i64_specs::wrapping_mul;
use vstd::wrapping::i64_specs::wrapping_sub;
use crate::float::float_difference;
use crate::float::float_equal;
use crate::float::float_integer;
use crate::float::float_is_large;
use crate::float::float_is_zero;
use crate::float::float_less;
use crate::float::float_less_equal;
use crate::float::float_long_text;
use crate::float::float_of_integer;
use crate::float::float_product;
use crate::float::float_quotient;
use crate::float::float_sum;
use crate::float::float_text;
use crate::float::FLOAT_NAN;
use crate::float::FLOAT_SIGN;
use crate::text::decimal;
use crate::text::push_decimal;

verus! {

/// The procedures that the language provides.
#[derive(Clone, Copy, Debug, PartialEq, Eq, Structural)]
pub enum Builtin {
    Add,
    Sub,
    Mul,
    Div,
    Lt,
    Le,
    Gt,
    Ge,
    Equals,
    Not,
    Car,
    Cdr,
    Cons,
    Append,
    List,
    Length,
    Eq,
    Eqv,
    Equal,
    IsSymbol,
    IsList,
    IsNull,
}

/// The mathematical value of an expression.
pub enum Value {
    Bool(bool),
    Int(i64),
    /// A double, by its IEEE 754 encoding.
    Float(u64),
    Symbol(Seq<char>),
    List(Seq<Value>),
    Proc(Builtin),
    /// A closure: body, parameters, the scope it was made in, and its identity.
    Lambda(Box<Value>, Seq<Value>, nat, nat),
    Error(Seq<char>),
}

/// A value of the language, and at the same time a piece of its code.
#[derive(Debug)]
pub enum Expression {
    Bool(bool),
    Int(i64),
    /// A double, by its IEEE 754 encoding.
    Float(u64),
    Symbol(String),
    List(Vec<Expression>),
    /// A procedure of the language itself.
    Proc(Builtin),
    /// A closure: its body, its parameters, the scope that it was made in, and
    /// a number that tells it from every other closure of its environment.
    Lambda(Box<Expression>, Vec<Expression>, usize, u64),
    /// An error, as a value.
    Error(String),
}

impl Expression {
    /// The value that this expression stands for.
    pub open spec fn model(&self) -> Value
        decreases self,
    {
        match self {
            Expression::Bool(b) => Value::Bool(*b),
            Expression::Int(n) => Value::Int(*n),
            Expression::Float(bits) => Value::Float(*bits),
            Expression::Symbol(name) => Value::Symbol(name@),
            Expression::List(items) => Value::List(
                Seq::new(
                    items@.len(),
                    |i: int|
                        if 0 <= i < items@.len() {
                            items@[i].model()
                        } else {
                            Value::Bool(false)
                        },
                ),
            ),
            Expression::Proc(builtin) => Value::Proc(*builtin),
            Expression::Lambda(body, parameters, scope, identity) => Value::Lambda(
                Box::new(body.model()),
                Seq::new(
                    parameters@.len(),
                    |i: int|
                        if 0 <= i < parameters@.len() {
                            parameters@[i].model()
                        } else {
                            Value::Bool(false)
                        },
                ),
                *scope as nat,
                *identity as nat,
            ),
            Expression::Error(message) => Value::Error(message@),
        }
    }
}

impl View for Expression {
    type V = Value;

    open spec fn view(&self) -> Value {
        self.model()
    }
}

/// The values of a vector of expressions, in order.
pub open spec fn values_of(items: Seq<Expression>) -> Seq<Value> {
    Seq::new(items.len(), |i: int| items[i]@)
}

/// The value of a list is the list of the values of its items.
pub proof fn lemma_list_model(items: Vec<Expression>)
    ensures
        Expression::List(items)@ == Value::List(values_of(items@)),
{
    assert(Expression::List(items)@->List_0 =~= values_of(items@));
}

/// A copy of a vector of expressions, item by item.
pub fn copy_items(items: &Vec<Expression>) -> (r: Vec<Expression>)
    ensures
        values_of(r@) == values_of(items@),
        r@.len() == items@.len(),
    decreases items,
{
    let mut out: Vec<Expression> = Vec::new();
    let mut i: usize = 0;
    while i < items.len()
        invariant
            i <= items.len(),
            out@.len() == i,
            forall|j: int| 0 <= j < i ==> out@[j]@ == items@[j]@,
        decreases items.len() - i,
    {
        let item = items[i].copy();
        out.push(item);
        i = i + 1;
    }
    assert(values_of(out@) =~= values_of(items@));
    out
}

impl Expression {
    /// A copy of this expression with the same value.
    pub fn copy(&self) -> (r: Expression)
        ensures
            r@ == self@,
        decreases self,
    {
        match self {
            Expression::Bool(b) => Expression::Bool(*b),
            Expression::Int(n) => Expression::Int(*n),
            Expression::Float(bits) => Expression::Float(*bits),
            Expression::Symbol(name) => Expression::Symbol(name.clone()),
            Expression::List(items) => {
                let copies = copy_items(items);
                let r = Expression::List(copies);
                assert forall|j: int| 0 <= j < items@.len() implies copies@[j]@ == items@[j]@ by {
                    assert(values_of(copies@)[j] == values_of(items@)[j]);
                }
                assert(r@->List_0 =~= self@->List_0);
                r
            },
            Expression::Proc(builtin) => Expression::Proc(*builtin),
            Expression::Lambda(body, parameters, scope, identity) => {
                let b = body.copy();
                let ps = copy_items(parameters);
                let r = Expression::Lambda(Box::new(b), ps, *scope, *identity);
                assert forall|j: int| 0 <= j < parameters@.len() implies ps@[j]@ == parameters@[j]@ by {
                    assert(values_of(ps@)[j] == values_of(parameters@)[j]);
                }
                assert(r@->Lambda_1 =~= self@->Lambda_1);
                r
            },
            Expression::Error(message) => Expression::Error(message.clone()),
        }
    }
}

impl Builtin {
    /// The name under which the procedure is bound.
    pub open spec fn name_text(self) -> Seq<char> {
        match self {
            Builtin::Add => "+"@,
            Builtin::Sub => "-"@,
            Builtin::Mul => "*"@,
            Builtin::Div => "/"@,
            Builtin::Lt => "<"@,
            Builtin::Le => "<="@,
            Builtin::Gt => ">"@,
            Builtin::Ge => ">="@,
            Builtin::Equals => "="@,
            Builtin::Not => "not"@,
            Builtin::Car => "car"@,
            Builtin::Cdr => "cdr"@,
            Builtin::Cons => "cons"@,
            Builtin::Append => "append"@,
            Builtin::List => "list"@,
            Builtin::Length => "length"@,
            Builtin::Eq => "eq?"@,
            Builtin::Eqv => "eqv?"@,
            Builtin::Equal => "equal?"@,
            Builtin::IsSymbol => "symbol?"@,
            Builtin::IsList => "list?"@,
            Builtin::IsNull => "null?"@,
        }
    }

    /// The name under which the procedure is bound.
    pub fn name(self) -> (r: &'static str)
        ensures
            r@ == self.name_text(),
    {
        match self {
            Builtin::Add => "+",
            Builtin::Sub => "-",
            Builtin::Mul => "*",
            Builtin::Div => "/",
            Builtin::Lt => "<",
            Builtin::Le => "<=",
            Builtin::Gt => ">",
            Builtin::Ge => ">=",
            Builtin::Equals => "=",
            Builtin::Not => "not",
            Builtin::Car => "car",
            Builtin::Cdr => "cdr",
            Builtin::Cons => "cons",
            Builtin::Append => "append",
            Builtin::List => "list",
            Builtin::Length => "length",
            Builtin::Eq => "eq?",
            Builtin::Eqv => "eqv?",
            Builtin::Equal => "equal?",
            Builtin::IsSymbol => "symbol?",
            Builtin::IsList => "list?",
            Builtin::IsNull => "null?",
        }
    }
}

/// Whether the value is an error.
pub open spec fn is_error_value(v: Value) -> bool {
    v is Error
}

/// Whether the value is an integer or a double.
pub open spec fn is_number_value(v: Value) -> bool {
    v is Int || v is Float
}

/// Whether the value counts as true: every value does, but `#f`, the integer
/// zero and the two floating-point zeros.
pub open spec fn truth_of(v: Value) -> bool {
    match v {
        Value::Bool(b) => b,
        Value::Int(n) => n != 0,
        Value::Float(bits) => !float_is_zero(bits),
        _ => true,
    }
}

/// The printed form of a double: the integer that it equals, followed by
/// `.0`, where it equals one; else the notation with all its digits. For an
/// integer of more than 127 bits the digits are those of the long notation.
pub open spec fn float_notation(bits: u64) -> Seq<char> {
    if bits == FLOAT_SIGN {
        "-0.0"@
    } else {
        match float_integer(bits) {
            Some(n) => decimal(n) + ".0"@,
            None => if float_is_large(bits) {
                float_long_text(bits) + ".0"@
            } else {
                float_text(bits)
            },
        }
    }
}

/// The printed form of a value.
pub open spec fn text_of(v: Value) -> Seq<char>
    decreases v, 0nat,
{
    match v {
        Value::Bool(b) => if b {
            "#t"@
        } else {
            "#f"@
        },
        Value::Int(n) => decimal(n as int),
        Value::Float(bits) => float_notation(bits),
        Value::Symbol(name) => name,
        Value::List(items) => "("@ + joined_text(items, items.len()) + ")"@,
        Value::Proc(builtin) => "procedure: "@ + builtin.name_text(),
        Value::Lambda(_, _, _, _) => "Lambda"@,
        Value::Error(message) => "Error: "@ + message,
    }
}

/// The printed forms of the first `n` items, with one space between two
/// neighbours.
pub open spec fn joined_text(items: Seq<Value>, n: nat) -> Seq<char>
    decreases items, n,
{
    if n == 0 || n > items.len() {
        Seq::empty()
    } else if n == 1 {
        text_of(items[0])
    } else {
        joined_text(items, (n - 1) as nat) + " "@ + text_of(items[n - 1])
    }
}

/// Appends the printed form of a double to `out`.
fn push_float(out: &mut String, bits: u64)
    ensures
        final(out)@ == old(out)@ + float_notation(bits),
{
    if bits == FLOAT_SIGN {
        out.append("-0.0");
    } else {
        match crate::float::to_integer(bits) {
            Some(n) => {
                push_decimal(out, n);
                out.append(".0");
                assert(out@ =~= old(out)@ + float_notation(bits));
            },
            None => {
                if crate::float::is_large(bits) {
                    let text = crate::float::to_long_text(bits);
                    out.append(text.as_str());
                    out.append(".0");
                    assert(out@ =~= old(out)@ + float_notation(bits));
                } else {
                    let text = crate::float::to_text(bits);
                    out.append(text.as_str());
                }
            },
        }
    }
}

/// Appends the printed form of the list of `items` to `out`.
pub fn write_list(items: &Vec<Expression>, out: &mut String)
    ensures
        final(out)@ == old(out)@ + text_of(Value::List(values_of(items@))),
    decreases items,
{
    out.append("(");
    let ghost values = values_of(items@);
    let ghost start = out@;
    let mut i: usize = 0;
    while i < items.len()
        invariant
            i <= items.len(),
            values == values_of(items@),
            out@ == start + joined_text(values, i as nat),
        decreases items.len() - i,
    {
        if i > 0 {
            out.append(" ");
        }
        items[i].write_text(out);
        i = i + 1;
        assert(out@ =~= start + joined_text(values, i as nat));
    }
    out.append(")");
    assert(out@ =~= old(out)@ + text_of(Value::List(values)));
}

impl Expression {
    /// The value that is a procedure of the language.
    pub fn new_proc(builtin: Builtin) -> (r: Expression)
        ensures
            r@ == Value::Proc(builtin),
    {
        Expression::Proc(builtin)
    }

    /// Whether this is an error.
    pub fn is_error(&self) -> (r: bool)
        ensures
            r == is_error_value(self@),
    {
        match self {
            Expression::Error(_) => true,
            _ => false,
        }
    }

    /// Whether this is an integer or a double.
    pub fn is_number(&self) -> (r: bool)
        ensures
            r == is_number_value(self@),
    {
        match self {
            Expression::Int(_) => true,
            Expression::Float(_) => true,
            _ => false,
        }
    }

    /// Whether this counts as true in a test.
    pub fn to_bool(&self) -> (r: bool)
        ensures
            r == truth_of(self@),
    {
        match self {
            Expression::Bool(b) => *b,
            Expression::Int(n) => *n != 0,
            Expression::Float(bits) => !crate::float::is_zero(*bits),
            _ => true,
        }
    }

    /// Appends the printed form of this expression to `out`.
    pub fn write_text(&self, out: &mut String)
        ensures
            final(out)@ == old(out)@ + text_of(self@),
        decreases self,
    {
        match self {
            Expression::Bool(b) => {
                if *b {
                    out.append("#t");
                } else {
                    out.append("#f");
                }
            },
            Expression::Int(n) => {
                push_decimal(out, *n as i128);
            },
            Expression::Float(bits) => {
                push_float(out, *bits);
            },
            Expression::Symbol(name) => {
                out.append(name.as_str());
            },
            Expression::List(items) => {
                assert(self@->List_0 =~= values_of(items@));
                write_list(items, out);
            },
            Expression::Proc(builtin) => {
                out.append("procedure: ");
                out.append(builtin.name());
                assert(out@ =~= old(out)@ + text_of(self@));
            },
            Expression::Lambda(_, _, _, _) => {
                out.append("Lambda");
            },
            Expression::Error(message) => {
                out.append("Error: ");
                out.append(message.as_str());
                assert(out@ =~= old(out)@ + text_of(self@));
            },
        }
    }

    /// The printed form of this expression.
    pub fn to_str(&self) -> (r: String)
        ensures
            r@ == text_of(self@),
    {
        let mut out = String::new();
        self.write_text(&mut out);
        assert(out@ =~= text_of(self@));
        out
    }
}

/// Whether two values are equal: numbers, symbols, truth values and
/// procedures by what they are, lists item by item, closures by identity. An
/// error equals nothing, itself included, and a NaN neither.
pub open spec fn equal_values(a: Value, b: Value) -> bool
    decreases a,
{
    match (a, b) {
        (Value::Bool(x), Value::Bool(y)) => x == y,
        (Value::Int(x), Value::Int(y)) => x == y,
        (Value::Float(x), Value::Float(y)) => float_equal(x, y),
        (Value::Symbol(x), Value::Symbol(y)) => x == y,
        (Value::List(xs), Value::List(ys)) => xs.len() == ys.len() && forall|i: int|
            0 <= i < xs.len() ==> equal_values(xs[i], ys[i]),
        (Value::Proc(x), Value::Proc(y)) => x == y,
        (Value::Lambda(_, _, s1, i1), Value::Lambda(_, _, s2, i2)) => s1 == s2 && i1 == i2,
        _ => false,
    }
}

/// Whether two expressions have equal values.
pub fn equal(a: &Expression, b: &Expression) -> (r: bool)
    ensures
        r == equal_values(a@, b@),
    decreases a,
{
    match (a, b) {
        (Expression::Bool(x), Expression::Bool(y)) => *x == *y,
        (Expression::Int(x), Expression::Int(y)) => *x == *y,
        (Expression::Float(x), Expression::Float(y)) => crate::float::eq(*x, *y),
        (Expression::Symbol(x), Expression::Symbol(y)) => *x == *y,
        (Expression::List(xs), Expression::List(ys)) => {
            if xs.len() != ys.len() {
                return false;
            }
            let mut i: usize = 0;
            while i < xs.len()
                invariant
                    i <= xs.len(),
                    xs@.len() == ys@.len(),
                    a@->List_0.len() == xs@.len(),
                    b@->List_0.len() == ys@.len(),
                    a@ is List,
                    b@ is List,
                    forall|j: int| 0 <= j < xs@.len() ==> a@->List_0[j] == #[trigger] xs@[j]@,
                    forall|j: int| 0 <= j < ys@.len() ==> b@->List_0[j] == #[trigger] ys@[j]@,
                    forall|j: int| 0 <= j < i ==> equal_values(a@->List_0[j], b@->List_0[j]),
                    decreases_to!(a => xs),
                decreases xs.len() - i,
            {
                if !equal(&xs[i], &ys[i]) {
                    assert(!equal_values(a@->List_0[i as int], b@->List_0[i as int]));
                    return false;
                }
                i = i + 1;
            }
            true
        },
        (Expression::Proc(x), Expression::Proc(y)) => *x == *y,
        (Expression::Lambda(_, _, s1, i1), Expression::Lambda(_, _, s2, i2)) => *s1 == *s2 && *i1
            == *i2,
        _ => false,
    }
}

impl PartialEq for Expression {
    fn eq(&self, other: &Expression) -> (r: bool) {
        equal(self, other)
    }
}

impl PartialEqSpecImpl for Expression {
    open spec fn obeys_eq_spec() -> bool {
        true
    }

    open spec fn eq_spec(&self, other: &Expression) -> bool {
        equal_values(self@, other@)
    }
}

impl Clone for Expression {
    fn clone(&self) -> (r: Expression)
        ensures
            r@ == self@,
    {
        self.copy()
    }
}

/// The four operations of arithmetic.
#[derive(Clone, Copy, Debug, PartialEq, Eq, Structural)]
pub enum Operator {
    Add,
    Sub,
    Mul,
    Div,
}

/// The relations between two numbers.
#[derive(Clone, Copy, Debug, PartialEq, Eq, Structural)]
pub enum Relation {
    Lt,
    Le,
    Gt,
    Ge,
    /// The same number.
    Same,
}

/// The double that a value counts as in mixed arithmetic: a NaN where it is no
/// number.
pub open spec fn float_of(v: Value) -> u64 {
    match v {
        Value::Int(n) => float_of_integer(n as int),
        Value::Float(bits) => bits,
        _ => FLOAT_NAN,
    }
}

/// The quotient of two integers, rounded towards zero.
pub open spec fn truncated_quotient(x: int, y: int) -> int
    recommends
        y != 0,
{
    let magnitude = (if x < 0 {
        -x
    } else {
        x
    }) / (if y < 0 {
        -y
    } else {
        y
    });
    if (x < 0) == (y < 0) {
        magnitude
    } else {
        -magnitude
    }
}

/// The result of an operation on two integers. Sums, differences and products
/// wrap round at 64 bits; a quotient is rounded towards zero, and division by
/// zero is an error.
pub open spec fn integer_result(op: Operator, x: i64, y: i64) -> Value {
    match op {
        Operator::Add => Value::Int(wrapping_add(x, y)),
        Operator::Sub => Value::Int(wrapping_sub(x, y)),
        Operator::Mul => Value::Int(wrapping_mul(x, y)),
        Operator::Div => if y == 0 {
            Value::Error("Division by zero"@)
        } else if x == i64::MIN && y == -1 {
            Value::Int(i64::MIN)
        } else {
            Value::Int(truncated_quotient(x as int, y as int) as i64)
        },
    }
}

/// The result of an operation on two doubles.
pub open spec fn float_result(op: Operator, a: u64, b: u64) -> u64 {
    match op {
        Operator::Add => float_sum(a, b),
        Operator::Sub => float_difference(a, b),
        Operator::Mul => float_product(a, b),
        Operator::Div => float_quotient(a, b),
    }
}

/// The error for a value that stands where a number is wanted.
pub open spec fn not_a_number(v: Value) -> Value {
    Value::Error(text_of(v) + " was given where a number was expected"@)
}

/// The result of an operation on two values: over integers where both are
/// integers; the first error among them, where there is one; an error for
/// the first operand that is no number; else over doubles.
pub open spec fn arithmetic(op: Operator, a: Value, b: Value) -> Value {
    match (a, b) {
        (Value::Int(x), Value::Int(y)) => integer_result(op, x, y),
        (Value::Error(m), _) => Value::Error(m),
        (_, Value::Error(m)) => Value::Error(m),
        _ => if !is_number_value(a) {
            not_a_number(a)
        } else if !is_number_value(b) {
            not_a_number(b)
        } else {
            Value::Float(float_result(op, float_of(a), float_of(b)))
        },
    }
}

/// Whether a relation holds of two values: between integers where both are
/// integers, else between the doubles that they count as.
pub open spec fn related(relation: Relation, a: Value, b: Value) -> bool {
    match (a, b) {
        (Value::Int(x), Value::Int(y)) => match relation {
            Relation::Lt => x < y,
            Relation::Le => x <= y,
            Relation::Gt => x > y,
            Relation::Ge => x >= y,
            Relation::Same => x == y,
        },
        _ => match relation {
            Relation::Lt => float_less(float_of(a), float_of(b)),
            Relation::Le => float_less_equal(float_of(a), float_of(b)),
            Relation::Gt => float_less(float_of(b), float_of(a)),
            Relation::Ge => float_less_equal(float_of(b), float_of(a)),
            Relation::Same => float_equal(float_of(a), float_of(b)),
        },
    }
}

/// The error value with the printed form of `v` in front of `tail`.
pub fn error_about(v: &Expression, tail: &str) -> (r: Expression)
    ensures
        r@ == Value::Error(text_of(v@) + tail@),
{
    let mut message = v.to_str();
    message.append(tail);
    Expression::Error(message)
}

/// The quotient of two integers, rounded towards zero.
fn integer_quotient(x: i64, y: i64) -> (q: i64)
    requires
        y != 0,
        !(x == i64::MIN && y == -1),
    ensures
        q == truncated_quotient(x as int, y as int),
{
    let ghost n: int = if x < 0 {
        -x
    } else {
        x as int
    };
    let ghost d: int = if y < 0 {
        -y
    } else {
        y as int
    };
    let ghost a: int = x * -1;
    let ghost b: int = y * -1;
    assert(a == -x && b == -y);
    assert(0 <= n / d <= n) by (nonlinear_arith)
        requires
            d > 0,
            n >= 0,
    ;
    assert(d >= 2 ==> 2 * (n / d) <= n) by (nonlinear_arith)
        requires
            d > 0,
            n >= 0,
    ;
    assert(n == 0 ==> n / d == 0);
    assert(d == 1 ==> n / d == n) by (nonlinear_arith)
        requires
            d > 0,
            n >= 0,
    ;
    if x < 0 && y < 0 {
        assert(a / b == n / d);
        assert((a / b) * 1 == n / d);
    } else if x < 0 {
        assert(a / (y as int) == n / d);
        assert((a / (y as int)) * -1 == -(n / d));
    } else if y < 0 {
        assert((x as int) / b == n / d);
        assert(((x as int) / b) * -1 == -(n / d));
    } else {
        assert((x as int) / (y as int) == n / d);
    }
    match x.checked_div(y) {
        Some(q) => q,
        None => {
            assert(false);
            0
        },
    }
}

/// The result of an operation on two integers.
fn integer_operation(op: Operator, x: i64, y: i64) -> (r: Expression)
    ensures
        r@ == integer_result(op, x, y),
{
    match op {
        Operator::Add => Expression::Int(x.wrapping_add(y)),
        Operator::Sub => Expression::Int(x.wrapping_sub(y)),
        Operator::Mul => Expression::Int(x.wrapping_mul(y)),
        Operator::Div => {
            if y == 0 {
                Expression::Error(String::from_str("Division by zero"))
            } else if x == i64::MIN && y == -1 {
                Expression::Int(i64::MIN)
            } else {
                Expression::Int(integer_quotient(x, y))
            }
        },
    }
}

impl Expression {
    /// The double that this counts as in mixed arithmetic.
    pub fn to_float(&self) -> (r: u64)
        ensures
            r == float_of(self@),
    {
        match self {
            Expression::Int(n) => crate::float::from_integer(*n),
            Expression::Float(bits) => *bits,
            _ => FLOAT_NAN,
        }
    }

    /// The result of an operation on this and another expression.
    pub fn operate(&self, op: Operator, other: &Expression) -> (r: Expression)
        ensures
            r@ == arithmetic(op, self@, other@),
    {
        match (self, other) {
            (Expression::Int(x), Expression::Int(y)) => integer_operation(op, *x, *y),
            (Expression::Error(m), _) => Expression::Error(m.clone()),
            (_, Expression::Error(m)) => Expression::Error(m.clone()),
            _ => {
                if !self.is_number() {
                    error_about(self, " was given where a number was expected")
                } else if !other.is_number() {
                    error_about(other, " was given where a number was expected")
                } else {
                    let a = self.to_float();
                    let b = other.to_float();
                    let bits = match op {
                        Operator::Add => crate::float::add(a, b),
                        Operator::Sub => crate::float::sub(a, b),
                        Operator::Mul => crate::float::mul(a, b),
                        Operator::Div => crate::float::div(a, b),
                    };
                    Expression::Float(bits)
                }
            },
        }
    }

    /// The sum of this and `other`.
    pub fn add(&self, other: &Expression) -> (r: Expression)
        ensures
            r@ == arithmetic(Operator::Add, self@, other@),
    {
        self.operate(Operator::Add, other)
    }

    /// The difference of this and `other`.
    pub fn sub(&self, other: &Expression) -> (r: Expression)
        ensures
            r@ == arithmetic(Operator::Sub, self@, other@),
    {
        self.operate(Operator::Sub, other)
    }

    /// The product of this and `other`.
    pub fn mul(&self, other: &Expression) -> (r: Expression)
        ensures
            r@ == arithmetic(Operator::Mul, self@, other@),
    {
        self.operate(Operator::Mul, other)
    }

    /// The quotient of this and `other`.
    pub fn div(&self, other: &Expression) -> (r: Expression)
        ensures
            r@ == arithmetic(Operator::Div, self@, other@),
    {
        self.operate(Operator::Div, other)
    }

    /// Whether `relation` holds of this and `other`.
    pub fn relate(&self, relation: Relation, other: &Expression) -> (r: bool)
        ensures
            r == related(relation, self@, other@),
    {
        match (self, other) {
            (Expression::Int(x), Expression::Int(y)) => match relation {
                Relation::Lt => *x < *y,
                Relation::Le => *x <= *y,
                Relation::Gt => *x > *y,
                Relation::Ge => *x >= *y,
                Relation::Same => *x == *y,
            },
            _ => {
                let a = self.to_float();
                let b = other.to_float();
                match relation {
                    Relation::Lt => crate::float::lt(a, b),
                    Relation::Le => crate::float::le(a, b),
                    Relation::Gt => crate::float::lt(b, a),
                    Relation::Ge => crate::float::le(b, a),
                    Relation::Same => crate::float::eq(a, b),
                }
            },
        }
    }

    /// Whether this is less than `other`.
    pub fn lt(&self, other: &Expression) -> (r: bool)
        ensures
            r == related(Relation::Lt, self@, other@),
    {
        self.relate(Relation::Lt, other)
    }

    /// Whether this is at most `other`.
    pub fn le(&self, other: &Expression) -> (r: bool)
        ensures
            r == related(Relation::Le, self@, other@),
    {
        self.relate(Relation::Le, other)
    }

    /// Whether this is greater than `other`.
    pub fn gt(&self, other: &Expression) -> (r: bool)
        ensures
            r == related(Relation::Gt, self@, other@),
    {
        self.relate(Relation::Gt, other)
    }

    /// Whether this is at least `other`.
    pub fn ge(&self, other: &Expression) -> (r: bool)
        ensures
            r == related(Relation::Ge, self@, other@),
    {
        self.relate(Relation::Ge, other)
    }
}

/// The printed form of an expression.
pub fn stringify_expression(expression: Expression) -> (r: String)
    ensures
        r@ == text_of(expression@),
{
    expression.to_str()
}

/// Whether an expression counts as true in a test.
pub fn is_truthy(expression: Expression) -> (r: bool)
    ensures
        r == truth_of(expression@),
{
    expression.to_bool()
}

} // verus!
