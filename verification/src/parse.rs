//! From text to expressions: the tokenizer and the reader.
use vstd::prelude::*;
use crate::expression::Expression;
use crate::expression::Value;
use crate::expression::values_of;
use crate::float::float_of_text;
use crate::float::is_float_literal;
use crate::float::is_float_text;
use crate::text::chars_of;
use crate::text::integer_value;
use crate::text::is_space;
use crate::text::is_whitespace;
use crate::text::parse_integer;
use crate::text::string_of;

verus! {

/// Why a text is no expression.
#[derive(Clone, Copy, Debug, PartialEq, Eq, Structural)]
pub enum SyntaxError {
    /// The text ends where an expression, or the end of a list, is due.
    UnexpectedEnd,
    /// A closing parenthesis stands where an expression is due.
    UnexpectedClose,
}

impl SyntaxError {
    /// What went wrong, in words.
    pub open spec fn description(self) -> Seq<char> {
        match self {
            SyntaxError::UnexpectedEnd => "Syntax Error: the text ends inside an expression"@,
            SyntaxError::UnexpectedClose => "Syntax Error: unbalanced parentheses"@,
        }
    }

    /// What went wrong, in words.
    pub fn describe(self) -> (r: &'static str)
        ensures
            r@ == self.description(),
    {
        match self {
            SyntaxError::UnexpectedEnd => "Syntax Error: the text ends inside an expression",
            SyntaxError::UnexpectedClose => "Syntax Error: unbalanced parentheses",
        }
    }
}

/// What a character becomes when parentheses are padded: a parenthesis gets a
/// space on either side, every other character stays as it is.
pub open spec fn padded_char(c: char) -> Seq<char> {
    if c == '(' || c == ')' {
        seq![' ', c, ' ']
    } else {
        seq![c]
    }
}

/// The text with a space on either side of each parenthesis.
pub open spec fn padded(s: Seq<char>) -> Seq<char>
    decreases s.len(),
{
    if s.len() == 0 {
        Seq::empty()
    } else {
        padded(s.drop_last()) + padded_char(s.last())
    }
}

/// The index just behind the word that starts at `i`: the first index from
/// `i` on that holds white space, or the length of the text.
pub open spec fn word_end(s: Seq<char>, i: int) -> int
    decreases s.len() - i,
{
    if 0 <= i < s.len() && !is_space(s[i]) {
        word_end(s, i + 1)
    } else {
        i
    }
}

/// The words of the text from index `i` on: its longest runs of characters
/// that are no white space.
pub open spec fn words_from(s: Seq<char>, i: int) -> Seq<Seq<char>>
    decreases s.len() - i,
{
    if i < 0 || i >= s.len() {
        Seq::empty()
    } else if is_space(s[i]) {
        words_from(s, i + 1)
    } else {
        let end = word_end(s, i);
        if i < end <= s.len() {
            seq![s.subrange(i, end)] + words_from(s, end)
        } else {
            Seq::empty()
        }
    }
}

/// The words of a text.
pub open spec fn words(s: Seq<char>) -> Seq<Seq<char>> {
    words_from(s, 0)
}

/// The tokens of a text: the words of the text with its parentheses padded.
pub open spec fn tokens_of(s: Seq<char>) -> Seq<Seq<char>> {
    words(padded(s))
}

/// The texts of a vector of strings.
pub open spec fn texts_of(tokens: Seq<String>) -> Seq<Seq<char>> {
    Seq::new(tokens.len(), |i: int| tokens[i]@)
}

/// A word ends inside the text, at or behind its start, and holds no white
/// space.
pub proof fn lemma_word_end(s: Seq<char>, i: int)
    requires
        0 <= i <= s.len(),
    ensures
        i <= word_end(s, i) <= s.len(),
        forall|j: int| i <= j < word_end(s, i) ==> !is_space(#[trigger] s[j]),
        word_end(s, i) < s.len() ==> is_space(s[word_end(s, i)]),
        i < s.len() && !is_space(s[i]) ==> word_end(s, i) > i,
    decreases s.len() - i,
{
    if i < s.len() && !is_space(s[i]) {
        lemma_word_end(s, i + 1);
    }
}

/// The characters of `input` with a space on either side of each parenthesis.
fn pad_chars(input: &Vec<char>) -> (r: Vec<char>)
    ensures
        r@ == padded(input@),
{
    let mut out: Vec<char> = Vec::new();
    let mut i: usize = 0;
    while i < input.len()
        invariant
            i <= input.len(),
            out@ == padded(input@.subrange(0, i as int)),
        decreases input.len() - i,
    {
        let c = input[i];
        let ghost before = out@;
        if c == '(' || c == ')' {
            out.push(' ');
            out.push(c);
            out.push(' ');
        } else {
            out.push(c);
        }
        i = i + 1;
        proof {
            let prefix = input@.subrange(0, i as int);
            assert(prefix.drop_last() =~= input@.subrange(0, i - 1));
            assert(prefix.last() == c);
            assert(out@ =~= before + padded_char(c));
        }
    }
    assert(input@.subrange(0, i as int) =~= input@);
    out
}

/// The text with a space on either side of each parenthesis.
pub fn pad_parentheses(input: &str) -> (r: String)
    ensures
        r@ == padded(input@),
{
    let chars = chars_of(input);
    let out = pad_chars(&chars);
    let r = string_of(&out, 0, out.len());
    assert(out@.subrange(0, out@.len() as int) =~= out@);
    r
}

/// The words of `s`.
fn split_words(s: &Vec<char>) -> (r: Vec<String>)
    ensures
        texts_of(r@) == words(s@),
{
    let mut out: Vec<String> = Vec::new();
    let mut i: usize = 0;
    while i < s.len()
        invariant
            i <= s.len(),
            words(s@) == texts_of(out@) + words_from(s@, i as int),
        decreases s.len() - i,
    {
        if is_whitespace(s[i]) {
            i = i + 1;
        } else {
            let start = i;
            let ghost before = texts_of(out@);
            while i < s.len() && !is_whitespace(s[i])
                invariant
                    start <= i <= s.len(),
                    word_end(s@, start as int) == word_end(s@, i as int),
                decreases s.len() - i,
            {
                i = i + 1;
            }
            proof {
                lemma_word_end(s@, start as int);
            }
            let word = string_of(s, start, i);
            out.push(word);
            assert(texts_of(out@) =~= before + seq![s@.subrange(start as int, i as int)]);
            assert(words(s@) =~= texts_of(out@) + words_from(s@, i as int));
        }
    }
    assert(words(s@) =~= texts_of(out@));
    out
}

/// The tokens of a text: parentheses, and the words between them.
pub fn tokenize(input: &str) -> (tokens: Vec<String>)
    ensures
        texts_of(tokens@) == tokens_of(input@),
{
    let chars = chars_of(input);
    let spaced = pad_chars(&chars);
    split_words(&spaced)
}

/// The value of a token that is no parenthesis: a plus or minus sign alone is
/// a symbol; an integer in decimal notation is that integer; another decimal
/// numeral is the double that it is read as; every other token is a symbol.
pub open spec fn atom_value(token: Seq<char>) -> Value {
    if token == seq!['+'] || token == seq!['-'] {
        Value::Symbol(token)
    } else {
        match integer_value(token) {
            Some(n) => Value::Int(n as i64),
            None => if is_float_literal(token) {
                Value::Float(float_of_text(token))
            } else {
                Value::Symbol(token)
            },
        }
    }
}

/// The expression for a token that is no parenthesis.
pub fn atom(input: String) -> (r: Expression)
    ensures
        r@ == atom_value(input@),
{
    let chars = chars_of(input.as_str());
    if chars.len() == 1 && (chars[0] == '+' || chars[0] == '-') {
        assert(input@ =~= seq![chars@[0]]);
        return Expression::Symbol(input);
    }
    assert(input@ != seq!['+'] && input@ != seq!['-']) by {
        if input@ == seq!['+'] || input@ == seq!['-'] {
            assert(input@.len() == 1);
        }
    }
    match parse_integer(&chars) {
        Some(n) => Expression::Int(n),
        None => {
            if is_float_text(&chars) {
                match crate::float::from_text(input.as_str()) {
                    Some(bits) => Expression::Float(bits),
                    None => {
                        // A numeral is always read.
                        assert(false);
                        Expression::Symbol(input)
                    },
                }
            } else {
                Expression::Symbol(input)
            }
        },
    }
}

/// The expression that starts at token `pos`, with the index behind it.
pub open spec fn read_at(tokens: Seq<Seq<char>>, pos: int) -> Result<(Value, int), SyntaxError>
    decreases tokens.len() - pos, 0nat,
{
    if pos < 0 || pos >= tokens.len() {
        Err(SyntaxError::UnexpectedEnd)
    } else if tokens[pos] == seq!['('] {
        read_items(tokens, pos + 1, Seq::empty())
    } else if tokens[pos] == seq![')'] {
        Err(SyntaxError::UnexpectedClose)
    } else {
        Ok((atom_value(tokens[pos]), pos + 1))
    }
}

/// The list whose first items are `items` and whose further items start at
/// token `pos`, with the index behind its closing parenthesis.
pub open spec fn read_items(tokens: Seq<Seq<char>>, pos: int, items: Seq<Value>) -> Result<
    (Value, int),
    SyntaxError,
>
    decreases tokens.len() - pos, 1nat,
{
    if pos < 0 || pos >= tokens.len() {
        Err(SyntaxError::UnexpectedEnd)
    } else if tokens[pos] == seq![')'] {
        Ok((Value::List(items), pos + 1))
    } else {
        match read_at(tokens, pos) {
            Ok((item, next)) => if pos < next <= tokens.len() {
                read_items(tokens, next, items.push(item))
            } else {
                Err(SyntaxError::UnexpectedEnd)
            },
            Err(e) => Err(e),
        }
    }
}

/// The first expression of a token sequence; what follows it is not read.
pub open spec fn read_value(tokens: Seq<Seq<char>>) -> Result<Value, SyntaxError> {
    match read_at(tokens, 0) {
        Ok((value, _)) => Ok(value),
        Err(e) => Err(e),
    }
}

/// The expression that a text denotes.
pub open spec fn parse_value(text: Seq<char>) -> Result<Value, SyntaxError> {
    read_value(tokens_of(text))
}

/// Whether a reader's result is the one that the model gives.
pub open spec fn read_matches(
    r: Result<(Expression, usize), SyntaxError>,
    model: Result<(Value, int), SyntaxError>,
) -> bool {
    match r {
        Ok((e, next)) => model == Ok::<(Value, int), SyntaxError>((e@, next as int)),
        Err(x) => model == Err::<(Value, int), SyntaxError>(x),
    }
}

/// Reads the expression that starts at token `pos`.
pub fn read_expression(tokens: &Vec<String>, pos: usize) -> (r: Result<
    (Expression, usize),
    SyntaxError,
>)
    ensures
        read_matches(r, read_at(texts_of(tokens@), pos as int)),
        r is Ok ==> pos < r->Ok_0.1 <= tokens@.len(),
    decreases tokens@.len() - pos,
{
    let ghost texts = texts_of(tokens@);
    if pos >= tokens.len() {
        return Err(SyntaxError::UnexpectedEnd);
    }
    proof {
        reveal_strlit("(");
        reveal_strlit(")");
        assert("("@ =~= seq!['(']);
        assert(")"@ =~= seq![')']);
    }
    assert(texts[pos as int] == tokens@[pos as int]@);
    if crate::text::same_text(tokens[pos].as_str(), "(") {
        let mut items: Vec<Expression> = Vec::new();
        let mut p: usize = pos + 1;
        assert(values_of(items@) =~= Seq::<Value>::empty());
        loop
            invariant
                pos < p <= tokens@.len(),
                texts == texts_of(tokens@),
                ")"@ == seq![')'],
                read_at(texts, pos as int) == read_items(texts, p as int, values_of(items@)),
            decreases tokens@.len() - p,
        {
            if p >= tokens.len() {
                return Err(SyntaxError::UnexpectedEnd);
            }
            assert(texts[p as int] == tokens@[p as int]@);
            if crate::text::same_text(tokens[p].as_str(), ")") {
                let r = Expression::List(items);
                proof {
                    crate::expression::lemma_list_model(items);
                }
                return Ok((r, p + 1));
            }
            match read_expression(tokens, p) {
                Ok((item, next)) => {
                    let ghost before = values_of(items@);
                    items.push(item);
                    assert(values_of(items@) =~= before.push(item@));
                    p = next;
                },
                Err(e) => {
                    return Err(e);
                },
            }
        }
    } else if crate::text::same_text(tokens[pos].as_str(), ")") {
        Err(SyntaxError::UnexpectedClose)
    } else {
        let token = tokens[pos].clone();
        Ok((atom(token), pos + 1))
    }
}

/// Reads the first expression of a token sequence; what follows it is not
/// read.
pub fn read(tokens: Vec<String>) -> (r: Result<Expression, SyntaxError>)
    ensures
        match r {
            Ok(e) => read_value(texts_of(tokens@)) == Ok::<Value, SyntaxError>(e@),
            Err(x) => read_value(texts_of(tokens@)) == Err::<Value, SyntaxError>(x),
        },
{
    match read_expression(&tokens, 0) {
        Ok((e, _)) => Ok(e),
        Err(x) => Err(x),
    }
}

/// Reads the expression that a text denotes.
pub fn parse(program: &str) -> (r: Result<Expression, SyntaxError>)
    ensures
        match r {
            Ok(e) => parse_value(program@) == Ok::<Value, SyntaxError>(e@),
            Err(x) => parse_value(program@) == Err::<Value, SyntaxError>(x),
        },
{
    read(tokenize(program))
}

} // verus!
