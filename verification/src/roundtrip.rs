//! Printing and reading back.
//!
//! The printed form of an expression that holds only integers, symbols and
//! lists is read back as the same expression, and what the reader gives for
//! any text is such an expression, but for the doubles in it. A double is
//! written and read by outside code; where its notation is read back as
//! something with the same notation, the same holds of the printed texts. So
//! printing what was read, reading it again and printing that gives the same
//! text.
use vstd::prelude::*;
use crate::expression::float_notation;
use crate::expression::joined_text;
use crate::expression::text_of;
use crate::expression::Value;
use crate::parse::atom_value;
use crate::parse::padded;
use crate::parse::parse_value;
use crate::parse::read_at;
use crate::parse::read_items;
use crate::parse::tokens_of;
use crate::parse::SyntaxError;
use crate::text::lemma_decimal_round_trip;
use crate::text::decimal;
use crate::text::digits;
use crate::text::is_digit;
use crate::text::lemma_digits;
use crate::parse::padded_char;
use crate::parse::word_end;
use crate::parse::words;
use crate::parse::words_from;
use crate::parse::lemma_word_end;
use crate::text::is_space;

verus! {

/// Padding a text that is put together from two pads each of them.
pub proof fn lemma_padded_concat(a: Seq<char>, b: Seq<char>)
    ensures
        padded(a + b) == padded(a) + padded(b),
    decreases b.len(),
{
    if b.len() == 0 {
        assert(a + b =~= a);
        assert(padded(a) + padded(b) =~= padded(a));
    } else {
        lemma_padded_concat(a, b.drop_last());
        assert((a + b).drop_last() =~= a + b.drop_last());
        assert((a + b).last() == b.last());
        assert(padded(a + b) =~= padded(a) + padded(b));
    }
}

/// Whether a text holds no parenthesis.
pub open spec fn no_parentheses(s: Seq<char>) -> bool {
    forall|i: int| 0 <= i < s.len() ==> #[trigger] s[i] != '(' && s[i] != ')'
}

/// Whether a text holds no white space.
pub open spec fn no_spaces(s: Seq<char>) -> bool {
    forall|i: int| 0 <= i < s.len() ==> !is_space(#[trigger] s[i])
}

/// Whether a text can be a token that is no parenthesis: it has a character,
/// and none of them is white space or a parenthesis.
pub open spec fn is_plain(s: Seq<char>) -> bool {
    s.len() > 0 && no_spaces(s) && no_parentheses(s)
}

/// Padding leaves a text without parentheses as it is.
pub proof fn lemma_padded_plain(s: Seq<char>)
    requires
        no_parentheses(s),
    ensures
        padded(s) == s,
    decreases s.len(),
{
    if s.len() == 0 {
        assert(padded(s) =~= s);
    } else {
        assert(no_parentheses(s.drop_last())) by {
            assert forall|i: int| 0 <= i < s.drop_last().len() implies #[trigger] s.drop_last()[i]
                != '(' && s.drop_last()[i] != ')' by {
                assert(s.drop_last()[i] == s[i]);
            }
        }
        lemma_padded_plain(s.drop_last());
        assert(s.last() == s[s.len() - 1]);
        assert(padded(s) =~= s);
    }
}

/// Where a word ends in a text that is put together from two.
pub proof fn lemma_word_end_concat(a: Seq<char>, b: Seq<char>, i: int)
    requires
        0 <= i <= a.len() + b.len(),
    ensures
        i >= a.len() ==> word_end(a + b, i) == a.len() + word_end(b, i - a.len()),
        i <= a.len() ==> word_end(a + b, i) == if word_end(a, i) < a.len() {
            word_end(a, i)
        } else {
            a.len() + word_end(b, 0)
        },
    decreases a.len() + b.len() - i,
{
    let s = a + b;
    if i < s.len() {
        lemma_word_end_concat(a, b, i + 1);
    }
    if i >= a.len() {
        if i < s.len() {
            assert(s[i] == b[i - a.len()]);
        }
    } else {
        assert(s[i] == a[i]);
        lemma_word_end(a, i);
        lemma_word_end(a, i + 1);
    }
}

/// The words of a text from an index behind its first part on are those of
/// its second part.
pub proof fn lemma_words_shift(a: Seq<char>, b: Seq<char>, j: int)
    requires
        0 <= j <= b.len(),
    ensures
        words_from(a + b, a.len() + j) == words_from(b, j),
    decreases b.len() - j,
{
    let s = a + b;
    if j < b.len() {
        assert(s[a.len() + j] == b[j]);
        if is_space(b[j]) {
            lemma_words_shift(a, b, j + 1);
        } else {
            lemma_word_end(b, j);
            lemma_word_end_concat(a, b, a.len() + j);
            let end = word_end(b, j);
            lemma_words_shift(a, b, end);
            assert(s.subrange(a.len() + j, a.len() + end) =~= b.subrange(j, end));
        }
    }
}

/// Whether two texts meet at white space, or one of them is empty.
pub open spec fn meet_at_space(a: Seq<char>, b: Seq<char>) -> bool {
    a.len() == 0 || b.len() == 0 || is_space(a.last()) || is_space(b[0])
}

/// The words of two texts that meet at white space, from an index of the
/// first on.
pub proof fn lemma_words_from_concat(a: Seq<char>, b: Seq<char>, i: int)
    requires
        meet_at_space(a, b),
        0 <= i <= a.len(),
    ensures
        words_from(a + b, i) == words_from(a, i) + words(b),
    decreases a.len() - i,
{
    let s = a + b;
    if i == a.len() {
        lemma_words_shift(a, b, 0);
        assert(words_from(a, i) + words(b) =~= words(b));
    } else {
        assert(s[i] == a[i]);
        if is_space(a[i]) {
            lemma_words_from_concat(a, b, i + 1);
        } else {
            lemma_word_end(a, i);
            lemma_word_end_concat(a, b, i);
            let end = word_end(a, i);
            if end < a.len() {
                lemma_words_from_concat(a, b, end);
                assert(s.subrange(i, end) =~= a.subrange(i, end));
                assert(words_from(s, i) =~= words_from(a, i) + words(b));
            } else {
                assert(!is_space(a[end - 1]));
                assert(a.last() == a[end - 1]);
                if b.len() > 0 {
                    assert(is_space(b[0]));
                }
                assert(word_end(b, 0) == 0);
                assert(word_end(s, i) == a.len());
                lemma_words_shift(a, b, 0);
                assert(s.subrange(i, end) =~= a.subrange(i, end));
                assert(words_from(a, end) =~= Seq::<Seq<char>>::empty());
                assert(words_from(s, i) =~= words_from(a, i) + words(b));
            }
        }
    }
}

/// The words of two texts that meet at white space are the words of the one
/// and then those of the other.
pub proof fn lemma_words_concat(a: Seq<char>, b: Seq<char>)
    requires
        meet_at_space(a, b),
    ensures
        words(a + b) == words(a) + words(b),
{
    lemma_words_from_concat(a, b, 0);
}

/// A text without white space is its only word.
pub proof fn lemma_words_of_word(w: Seq<char>)
    requires
        w.len() > 0,
        no_spaces(w),
    ensures
        words(w) == seq![w],
{
    lemma_word_end(w, 0);
    let end = word_end(w, 0);
    if end < w.len() {
        assert(is_space(w[end]));
    }
    assert(w.subrange(0, end) =~= w);
    assert(words_from(w, end) =~= Seq::<Seq<char>>::empty());
    assert(words(w) =~= seq![w]);
}

/// A space alone has no word.
pub proof fn lemma_words_of_space()
    ensures
        words(seq![' ']) == Seq::<Seq<char>>::empty(),
{
    let s = seq![' '];
    assert(is_space(s[0]));
    assert(words_from(s, 1) =~= Seq::<Seq<char>>::empty());
}

/// A character between two spaces is the only word of the three.
pub proof fn lemma_words_of_spaced(c: char)
    requires
        !is_space(c),
    ensures
        words(seq![' ', c, ' ']) == seq![seq![c]],
{
    let s = seq![' ', c, ' '];
    assert(is_space(s[0]));
    assert(is_space(s[2]));
    assert(!is_space(s[1]));
    assert(word_end(s, 2) == 2);
    assert(word_end(s, 1) == 2);
    assert(words_from(s, 3) =~= Seq::<Seq<char>>::empty());
    assert(words_from(s, 2) =~= Seq::<Seq<char>>::empty());
    assert(s.subrange(1, 2) =~= seq![c]);
    assert(words_from(s, 1) =~= seq![seq![c]]);
    assert(words_from(s, 0) =~= seq![seq![c]]);
}

/// Whether the notation of a double is a token, and is read back as a value
/// with the same printed form. What a double is written as and what a numeral
/// is read as are outside results, so this is a premise wherever a double is
/// printed and read again.
pub open spec fn stable_notation(bits: u64) -> bool {
    is_plain(float_notation(bits)) && text_of(atom_value(float_notation(bits))) == float_notation(
        bits,
    )
}

/// Whether a value is printed as a text that is read back as a value with the
/// same printed form: an integer; a double with a stable notation; a symbol
/// whose name is a token that is read as that symbol; a list of such values.
pub open spec fn printable(v: Value) -> bool
    decreases v,
{
    match v {
        Value::Int(_) => true,
        Value::Float(bits) => stable_notation(bits),
        Value::Symbol(name) => is_plain(name) && atom_value(name) == v,
        Value::List(items) => forall|i: int| 0 <= i < items.len() ==> printable(#[trigger] items[i]),
        _ => false,
    }
}

/// What the printed form of a printable value is read back as: the value
/// itself, but for a double, which is read back as whatever its notation
/// denotes.
pub open spec fn reread(v: Value) -> Value
    decreases v,
{
    match v {
        Value::Float(bits) => atom_value(float_notation(bits)),
        Value::List(items) => Value::List(
            Seq::new(
                items.len(),
                |i: int|
                    if 0 <= i < items.len() {
                        reread(items[i])
                    } else {
                        v
                    },
            ),
        ),
        _ => v,
    }
}

/// What the printed forms of the items of a list are read back as.
pub open spec fn reread_items(items: Seq<Value>) -> Seq<Value> {
    Seq::new(items.len(), |i: int| reread(items[i]))
}

/// The tokens of the printed form of a value.
pub open spec fn token_list(v: Value) -> Seq<Seq<char>>
    decreases v, 0nat,
{
    match v {
        Value::Int(n) => seq![decimal(n as int)],
        Value::Float(bits) => seq![float_notation(bits)],
        Value::Symbol(name) => seq![name],
        Value::List(items) => seq![seq!['(']] + item_tokens(items, items.len()) + seq![seq![')']],
        _ => Seq::empty(),
    }
}

/// The tokens of the printed forms of the first `n` items.
pub open spec fn item_tokens(items: Seq<Value>, n: nat) -> Seq<Seq<char>>
    decreases items, n,
{
    if n == 0 || n > items.len() {
        Seq::empty()
    } else {
        item_tokens(items, (n - 1) as nat) + token_list(items[n - 1])
    }
}

/// The decimal notation of an integer is a token that is no parenthesis.
pub proof fn lemma_decimal_is_plain(n: int)
    ensures
        is_plain(decimal(n)),
        decimal(n) != seq!['+'],
        decimal(n) != seq!['-'],
{
    let m: nat = if n < 0 {
        (-n) as nat
    } else {
        n as nat
    };
    lemma_digits(m);
    let s = decimal(n);
    assert forall|i: int| 0 <= i < s.len() implies (is_digit(#[trigger] s[i]) || s[i] == '-') by {
        if n < 0 {
            if i > 0 {
                assert(s[i] == digits(m)[i - 1]);
                assert(is_digit(digits(m)[i - 1]));
            }
        } else {
            assert(is_digit(digits(m)[i]));
        }
    }
    assert forall|i: int| 0 <= i < s.len() implies !is_space(#[trigger] s[i]) by {
        assert(is_digit(s[i]) || s[i] == '-');
    }
    assert forall|i: int| 0 <= i < s.len() implies #[trigger] s[i] != '(' && s[i] != ')' by {
        assert(is_digit(s[i]) || s[i] == '-');
    }
    if n < 0 {
        assert(s.len() >= 2);
    } else {
        assert(is_digit(s[0]));
    }
    if s == seq!['+'] {
        assert(s[0] == '+');
    }
    if s == seq!['-'] {
        assert(s[0] == '-');
        assert(s.len() == 1);
    }
}

/// The tokens of the printed form of a printable value are its token list.
pub proof fn lemma_tokens_of_text(v: Value)
    requires
        printable(v),
    ensures
        tokens_of(text_of(v)) == token_list(v),
    decreases v, 0nat,
{
    match v {
        Value::Int(n) => {
            lemma_decimal_is_plain(n as int);
            lemma_padded_plain(decimal(n as int));
            lemma_words_of_word(decimal(n as int));
        },
        Value::Float(bits) => {
            lemma_padded_plain(float_notation(bits));
            lemma_words_of_word(float_notation(bits));
        },
        Value::Symbol(name) => {
            lemma_padded_plain(name);
            lemma_words_of_word(name);
        },
        Value::List(items) => {
            reveal_strlit("(");
            reveal_strlit(")");
            let open = seq!['('];
            let close = seq![')'];
            let inner = joined_text(items, items.len());
            assert("("@ =~= open);
            assert(")"@ =~= close);
            assert(text_of(v) == open + inner + close);
            lemma_padded_concat(open + inner, close);
            lemma_padded_concat(open, inner);
            assert(open.drop_last() =~= Seq::<char>::empty());
            assert(close.drop_last() =~= Seq::<char>::empty());
            assert(padded(Seq::<char>::empty()) =~= Seq::<char>::empty());
            assert(padded(open) =~= seq![' ', '(', ' ']);
            assert(padded(close) =~= seq![' ', ')', ' ']);
            let left = seq![' ', '(', ' '];
            let right = seq![' ', ')', ' '];
            let middle = padded(inner);
            assert(padded(text_of(v)) == left + middle + right);
            lemma_joined_tokens(items, items.len());
            lemma_words_of_spaced('(');
            lemma_words_of_spaced(')');
            assert(is_space(left.last()));
            assert(is_space(right[0]));
            assert(left + middle + right =~= left + (middle + right));
            lemma_words_concat(left, middle + right);
            lemma_words_concat(middle, right);
        },
        _ => {},
    }
}

/// The tokens of the printed forms of the first `n` items, joined by spaces,
/// are the tokens of the items in order.
pub proof fn lemma_joined_tokens(items: Seq<Value>, n: nat)
    requires
        n <= items.len(),
        forall|i: int| 0 <= i < items.len() ==> printable(#[trigger] items[i]),
    ensures
        words(padded(joined_text(items, n))) == item_tokens(items, n),
    decreases items, n,
{
    if n == 0 {
        assert(padded(Seq::<char>::empty()) =~= Seq::<char>::empty());
        assert(joined_text(items, n) =~= Seq::<char>::empty());
    } else if n == 1 {
        lemma_tokens_of_text(items[0]);
        assert(item_tokens(items, 0) =~= Seq::<Seq<char>>::empty());
        assert(item_tokens(items, 1) =~= token_list(items[0]));
    } else {
        reveal_strlit(" ");
        let space = seq![' '];
        assert(" "@ =~= space);
        let before = joined_text(items, (n - 1) as nat);
        let last = text_of(items[n - 1]);
        assert(joined_text(items, n) == before + space + last);
        lemma_joined_tokens(items, (n - 1) as nat);
        lemma_tokens_of_text(items[n - 1]);
        lemma_padded_concat(before + space, last);
        lemma_padded_concat(before, space);
        assert(space.drop_last() =~= Seq::<char>::empty());
        assert(padded(Seq::<char>::empty()) =~= Seq::<char>::empty());
        assert(padded(space) =~= space);
        let a = padded(before);
        let b = padded(last);
        assert(padded(joined_text(items, n)) == a + space + b);
        assert(a + space + b =~= a + (space + b));
        assert(is_space(space[0]));
        assert((space + b)[0] == ' ');
        lemma_words_concat(a, space + b);
        assert(space.last() == ' ');
        lemma_words_concat(space, b);
        lemma_words_of_space();
        assert(words(space + b) =~= words(b));
    }
}

/// The token list of a printable value has a first token, which is no closing
/// parenthesis.
pub proof fn lemma_token_list_starts(v: Value)
    requires
        printable(v),
    ensures
        token_list(v).len() > 0,
        token_list(v)[0] != seq![')'],
{
    match v {
        Value::Int(n) => {
            lemma_decimal_is_plain(n as int);
            if decimal(n as int) == seq![')'] {
                assert(decimal(n as int)[0] == ')');
            }
        },
        Value::Float(bits) => {
            let name = float_notation(bits);
            if name == seq![')'] {
                assert(name[0] == ')');
            }
        },
        Value::Symbol(name) => {
            if name == seq![')'] {
                assert(name[0] == ')');
            }
        },
        Value::List(items) => {
            if seq!['('] == seq![')'] {
                assert(seq!['('][0] == seq![')'][0]);
            }
        },
        _ => {},
    }
}

/// The tokens of the first `j` items stand first among those of the first
/// `n`.
pub proof fn lemma_item_tokens_prefix(items: Seq<Value>, j: nat, n: nat)
    requires
        j <= n <= items.len(),
    ensures
        item_tokens(items, j).len() <= item_tokens(items, n).len(),
        item_tokens(items, n).subrange(0, item_tokens(items, j).len() as int) == item_tokens(
            items,
            j,
        ),
    decreases n,
{
    if j == n {
        assert(item_tokens(items, n).subrange(0, item_tokens(items, j).len() as int)
            =~= item_tokens(items, j));
    } else {
        lemma_item_tokens_prefix(items, j, (n - 1) as nat);
        assert(item_tokens(items, n).subrange(0, item_tokens(items, j).len() as int)
            =~= item_tokens(items, (n - 1) as nat).subrange(
            0,
            item_tokens(items, j).len() as int,
        ));
    }
}

/// Reading the token list of a printable value gives what the value is read
/// back as, and ends just behind the list.
pub proof fn lemma_read_token_list(tokens: Seq<Seq<char>>, pos: int, v: Value)
    requires
        printable(v),
        0 <= pos,
        pos + token_list(v).len() <= tokens.len(),
        tokens.subrange(pos, pos + token_list(v).len()) == token_list(v),
    ensures
        read_at(tokens, pos) == Ok::<(Value, int), SyntaxError>(
            (reread(v), pos + token_list(v).len()),
        ),
    decreases v, 0nat,
{
    let list = token_list(v);
    lemma_token_list_starts(v);
    assert(tokens[pos] == tokens.subrange(pos, pos + list.len())[0]);
    match v {
        Value::Int(n) => {
            lemma_decimal_is_plain(n as int);
            lemma_decimal_round_trip(n as int);
            let t = decimal(n as int);
            if t == seq!['('] {
                assert(t[0] == '(');
            }
        },
        Value::Float(bits) => {
            let name = float_notation(bits);
            if name == seq!['('] {
                assert(name[0] == '(');
            }
        },
        Value::Symbol(name) => {
            if name == seq!['('] {
                assert(name[0] == '(');
            }
        },
        Value::List(items) => {
            let inner = item_tokens(items, items.len());
            assert(list.len() == inner.len() + 2);
            assert(list[0] == seq!['(']);
            assert(tokens.subrange(pos + 1, pos + 1 + inner.len()) =~= inner) by {
                assert forall|k: int| 0 <= k < inner.len() implies tokens[pos + 1 + k] == inner[k] by {
                    assert(tokens[pos + 1 + k] == tokens.subrange(pos, pos + list.len())[1 + k]);
                }
            }
            assert(tokens[pos + 1 + inner.len()] == seq![')']) by {
                assert(tokens[pos + 1 + inner.len()] == tokens.subrange(pos, pos + list.len())[1
                    + inner.len() as int]);
            }
            lemma_read_item_tokens(tokens, pos + 1, items, 0);
            assert(reread_items(items).subrange(0, 0) =~= Seq::<Value>::empty());
            assert(reread(v)->List_0 =~= reread_items(items));
        },
        _ => {},
    }
}

/// Reading on in a list, behind the tokens of its first `j` items, gives the
/// list of what all the items are read back as, and ends behind its closing
/// parenthesis.
pub proof fn lemma_read_item_tokens(tokens: Seq<Seq<char>>, start: int, items: Seq<Value>, j: nat)
    requires
        forall|i: int| 0 <= i < items.len() ==> printable(#[trigger] items[i]),
        j <= items.len(),
        0 <= start,
        start + item_tokens(items, items.len()).len() < tokens.len(),
        tokens.subrange(start, start + item_tokens(items, items.len()).len()) == item_tokens(
            items,
            items.len(),
        ),
        tokens[start + item_tokens(items, items.len()).len()] == seq![')'],
    ensures
        read_items(
            tokens,
            start + item_tokens(items, j).len(),
            reread_items(items).subrange(0, j as int),
        ) == Ok::<(Value, int), SyntaxError>(
            (Value::List(reread_items(items)), start + item_tokens(items, items.len()).len() + 1),
        ),
    decreases items, items.len() - j + 1,
{
    let all = item_tokens(items, items.len());
    let here = start + item_tokens(items, j).len();
    lemma_item_tokens_prefix(items, j, items.len());
    if j == items.len() {
        assert(reread_items(items).subrange(0, j as int) =~= reread_items(items));
    } else {
        let item = items[j as int];
        let list = token_list(item);
        lemma_token_list_starts(item);
        lemma_item_tokens_prefix(items, j + 1, items.len());
        assert(item_tokens(items, j + 1) == item_tokens(items, j) + list);
        assert(tokens.subrange(here, here + list.len()) =~= list) by {
            assert forall|k: int| 0 <= k < list.len() implies tokens[here + k] == list[k] by {
                let at = item_tokens(items, j).len() as int + k;
                assert(tokens[here + k] == tokens.subrange(start, start + all.len())[at]);
                assert(all[at] == all.subrange(0, item_tokens(items, j + 1).len() as int)[at]);
                assert(item_tokens(items, j + 1)[at] == list[k]);
            }
        }
        assert(tokens[here] == list[0]) by {
            assert(tokens[here] == tokens.subrange(here, here + list.len())[0]);
        }
        lemma_read_token_list(tokens, here, item);
        lemma_read_item_tokens(tokens, start, items, j + 1);
        assert(reread_items(items).subrange(0, j as int).push(reread(item)) =~= reread_items(
            items,
        ).subrange(0, j as int + 1));
    }
}

/// The printed form of a printable value is read, and read as what the value
/// is read back as.
pub proof fn lemma_parse_text(v: Value)
    requires
        printable(v),
    ensures
        parse_value(text_of(v)) == Ok::<Value, SyntaxError>(reread(v)),
{
    lemma_tokens_of_text(v);
    let tokens = token_list(v);
    assert(tokens.subrange(0, tokens.len() as int) =~= tokens);
    lemma_read_token_list(tokens, 0, v);
}

/// What a printable value is read back as has the same printed form.
pub proof fn lemma_reread_text(v: Value)
    requires
        printable(v),
    ensures
        text_of(reread(v)) == text_of(v),
    decreases v, 0nat,
{
    match v {
        Value::List(items) => {
            assert(reread(v)->List_0 =~= reread_items(items));
            lemma_reread_joined(items, items.len());
        },
        _ => {},
    }
}

/// What the first `n` items of a list of printable values are read back as
/// has the same printed form, joined by spaces.
pub proof fn lemma_reread_joined(items: Seq<Value>, n: nat)
    requires
        n <= items.len(),
        forall|i: int| 0 <= i < items.len() ==> printable(#[trigger] items[i]),
    ensures
        joined_text(reread_items(items), n) == joined_text(items, n),
    decreases items, n,
{
    if n > 0 {
        lemma_reread_joined(items, (n - 1) as nat);
        lemma_reread_text(items[n - 1]);
        assert(reread_items(items)[n - 1] == reread(items[n - 1]));
    }
}

/// A value without a double is read back as itself.
pub proof fn lemma_reread_without_doubles(v: Value)
    requires
        float_free(v),
    ensures
        reread(v) == v,
    decreases v,
{
    match v {
        Value::List(items) => {
            reveal_with_fuel(float_free, 2);
            assert forall|i: int| 0 <= i < items.len() implies reread(#[trigger] items[i])
                == items[i] by {
                assert(float_free(items[i]));
                lemma_reread_without_doubles(items[i]);
            }
            assert(reread(v)->List_0 =~= items);
        },
        _ => {},
    }
}

/// Whether a character is a parenthesis.
pub open spec fn is_parenthesis(c: char) -> bool {
    c == '(' || c == ')'
}

/// Whether every parenthesis of a text stands between two spaces.
pub open spec fn parentheses_spaced(p: Seq<char>) -> bool {
    forall|j: int|
        0 <= j < p.len() && is_parenthesis(#[trigger] p[j]) ==> 0 < j < p.len() - 1 && p[j - 1]
            == ' ' && p[j + 1] == ' '
}

/// In a padded text every parenthesis stands between two spaces.
pub proof fn lemma_padded_spaced(s: Seq<char>)
    ensures
        parentheses_spaced(padded(s)),
    decreases s.len(),
{
    if s.len() > 0 {
        lemma_padded_spaced(s.drop_last());
        let before = padded(s.drop_last());
        let added = padded_char(s.last());
        let p = padded(s);
        assert(p == before + added);
        assert forall|j: int| 0 <= j < p.len() && is_parenthesis(#[trigger] p[j]) implies 0 < j
            < p.len() - 1 && p[j - 1] == ' ' && p[j + 1] == ' ' by {
            if j < before.len() {
                assert(p[j] == before[j]);
                assert(is_parenthesis(before[j]));
                assert(p[j - 1] == before[j - 1]);
                assert(p[j + 1] == before[j + 1]);
            } else {
                assert(p[j] == added[j - before.len()]);
                assert(is_parenthesis(s.last()));
                assert(j == before.len() + 1);
                assert(p[j - 1] == added[0]);
                assert(p[j + 1] == added[2]);
            }
        }
    }
}

/// Whether every token is a parenthesis alone or holds none.
pub open spec fn good_tokens(tokens: Seq<Seq<char>>) -> bool {
    forall|k: int|
        0 <= k < tokens.len() ==> (#[trigger] tokens[k]) == seq!['('] || tokens[k] == seq![')']
            || is_plain(tokens[k])
}

/// The words of a text whose parentheses stand between spaces are
/// parentheses alone, or hold none.
pub proof fn lemma_words_good(p: Seq<char>, i: int)
    requires
        parentheses_spaced(p),
        0 <= i <= p.len(),
    ensures
        good_tokens(words_from(p, i)),
    decreases p.len() - i,
{
    if i < p.len() {
        if is_space(p[i]) {
            lemma_words_good(p, i + 1);
        } else {
            lemma_word_end(p, i);
            let end = word_end(p, i);
            let w = p.subrange(i, end);
            lemma_words_good(p, end);
            assert(is_space(' '));
            assert forall|j: int| i <= j < end && is_parenthesis(p[j]) implies j == i && end == i
                + 1 by {
                if j > i {
                    assert(!is_space(p[j - 1]));
                }
                if j + 1 < end {
                    assert(!is_space(p[j + 1]));
                }
            }
            assert(w == seq!['('] || w == seq![')'] || is_plain(w)) by {
                if is_parenthesis(p[i]) {
                    assert(end == i + 1);
                    assert(w =~= seq![p[i]]);
                } else {
                    assert forall|k: int| 0 <= k < w.len() implies !is_space(#[trigger] w[k]) by {
                        assert(w[k] == p[i + k]);
                    }
                    assert forall|k: int| 0 <= k < w.len() implies #[trigger] w[k] != '(' && w[k]
                        != ')' by {
                        assert(w[k] == p[i + k]);
                        if is_parenthesis(p[i + k]) {
                            assert(i + k == i);
                        }
                    }
                }
            }
            let rest = words_from(p, end);
            let all = words_from(p, i);
            assert(all == seq![w] + rest);
            assert forall|k: int| 0 <= k < all.len() implies (#[trigger] all[k]) == seq!['(']
                || all[k] == seq![')'] || is_plain(all[k]) by {
                if k > 0 {
                    assert(all[k] == rest[k - 1]);
                }
            }
        }
    }
}

/// Every token of a text is a parenthesis alone or holds none.
pub proof fn lemma_tokens_good(text: Seq<char>)
    ensures
        good_tokens(tokens_of(text)),
{
    lemma_padded_spaced(text);
    lemma_words_good(padded(text), 0);
}

/// Whether a value holds no double.
pub open spec fn float_free(v: Value) -> bool
    decreases v,
{
    match v {
        Value::Float(_) => false,
        Value::List(items) => forall|i: int| 0 <= i < items.len() ==> float_free(#[trigger] items[i]),
        _ => true,
    }
}

/// Whether every double that a value holds has a stable notation.
pub open spec fn doubles_stable(v: Value) -> bool
    decreases v,
{
    match v {
        Value::Float(bits) => stable_notation(bits),
        Value::List(items) => forall|i: int|
            0 <= i < items.len() ==> doubles_stable(#[trigger] items[i]),
        _ => true,
    }
}

/// A value without a double holds no double with an unstable notation.
pub proof fn lemma_no_doubles_are_stable(v: Value)
    requires
        float_free(v),
    ensures
        doubles_stable(v),
    decreases v,
{
    match v {
        Value::List(items) => {
            reveal_with_fuel(float_free, 2);
            assert forall|i: int| 0 <= i < items.len() implies doubles_stable(
                #[trigger] items[i],
            ) by {
                assert(float_free(items[i]));
                lemma_no_doubles_are_stable(items[i]);
            }
        },
        _ => {},
    }
}

/// What is read from good tokens is printable, where its doubles have stable
/// notations.
pub proof fn lemma_read_printable(tokens: Seq<Seq<char>>, pos: int)
    requires
        good_tokens(tokens),
    ensures
        match read_at(tokens, pos) {
            Ok((v, _)) => doubles_stable(v) ==> printable(v),
            Err(_) => true,
        },
    decreases tokens.len() - pos, 0nat,
{
    if 0 <= pos < tokens.len() {
        let t = tokens[pos];
        if t == seq!['('] {
            lemma_read_items_printable(tokens, pos + 1, Seq::empty());
        } else if t == seq![')'] {
        } else {
            assert(is_plain(t));
        }
    }
}

/// What is read on in a list from good tokens is printable, where its
/// doubles have stable notations.
pub proof fn lemma_read_items_printable(tokens: Seq<Seq<char>>, pos: int, items: Seq<Value>)
    requires
        good_tokens(tokens),
        forall|i: int|
            0 <= i < items.len() ==> (doubles_stable(#[trigger] items[i]) ==> printable(items[i])),
    ensures
        match read_items(tokens, pos, items) {
            Ok((v, _)) => doubles_stable(v) ==> printable(v),
            Err(_) => true,
        },
    decreases tokens.len() - pos, 1nat,
{
    if 0 <= pos < tokens.len() {
        if tokens[pos] == seq![')'] {
            let v = Value::List(items);
            if doubles_stable(v) {
                reveal_with_fuel(doubles_stable, 2);
                assert(v->List_0 == items);
                assert(forall|i: int| 0 <= i < items.len() ==> doubles_stable(#[trigger] items[i]));
                assert forall|i: int| 0 <= i < items.len() implies printable(#[trigger] items[i]) by {
                    assert(doubles_stable(items[i]));
                }
            }
        } else {
            lemma_read_printable(tokens, pos);
            match read_at(tokens, pos) {
                Ok((item, next)) => {
                    if pos < next <= tokens.len() {
                        let more = items.push(item);
                        assert forall|i: int| 0 <= i < more.len() && doubles_stable(
                            #[trigger] more[i],
                        ) implies printable(more[i]) by {
                            if i < items.len() {
                                assert(more[i] == items[i]);
                            }
                        }
                        lemma_read_items_printable(tokens, next, more);
                    }
                },
                Err(_) => {},
            }
        }
    }
}

/// Printing is stable: where a text is read as a value, and every double in
/// it has a stable notation, the printed form of the value is read too, and
/// what it is read as is printed as the same text. So printing what was read,
/// reading that and printing again gives the same text.
pub proof fn law_printing_is_stable(text: Seq<char>)
    requires
        parse_value(text) is Ok,
        doubles_stable(parse_value(text)->Ok_0),
    ensures
        parse_value(text_of(parse_value(text)->Ok_0)) is Ok,
        text_of(parse_value(text_of(parse_value(text)->Ok_0))->Ok_0) == text_of(
            parse_value(text)->Ok_0,
        ),
{
    let v = parse_value(text)->Ok_0;
    lemma_tokens_good(text);
    lemma_read_printable(tokens_of(text), 0);
    lemma_parse_text(v);
    lemma_reread_text(v);
}

/// Where a text is read as a value that holds no double, the printed form of
/// the value is read back as the same value.
pub proof fn law_printing_is_read_back(text: Seq<char>)
    requires
        parse_value(text) is Ok,
        float_free(parse_value(text)->Ok_0),
    ensures
        parse_value(text_of(parse_value(text)->Ok_0)) == parse_value(text),
{
    let v = parse_value(text)->Ok_0;
    lemma_no_doubles_are_stable(v);
    lemma_tokens_good(text);
    lemma_read_printable(tokens_of(text), 0);
    lemma_parse_text(v);
    lemma_reread_without_doubles(v);
}

} // verus!
