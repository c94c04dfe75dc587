//! The grammar reads the canonical text of an expression back as the expression.
//!
//! The text of a node has no parentheses around operands, so this holds of the
//! expressions that the grammar can make, not of every tree that can be built
//! by hand: in `a | b & c` the grammar sees `a | (b & c)` and never `(a | b) & c`.

use super::grammar::{
    combine, expression_of, is_infix, parse_argument, parse_arguments, parse_at, parse_atom,
    parse_tail, parse_tokens, predicate_of, scan_time, time_pair_of, SyntaxError, AND_LEVEL,
    ATOM_LEVEL, NOT_LEVEL, OR_LEVEL, RELATION_LEVEL, SUM_LEVEL,
};
use super::lexer::{
    digits_len, is_date_shape, is_letter, is_space, keyword, letters_len, lex, prepend, scan,
    scan_date, Token,
};
use super::{Arithmetic, Expression, Function, PlaceholderUnit, Predicate};
use crate::calendar::Date;
use crate::digits::{
    decimal, digit_char, digit_value, is_digit, lemma_decimal_value, lemma_digit_char,
};
use crate::schedule::{Time, TimePair};
use vstd::prelude::*;

verus! {

/// The level of the operator at the top of an expression; the level of atoms
/// where there is none.
pub open spec fn level(e: Expression) -> nat {
    match e {
        Expression::Predicate(p) => match *p {
            Predicate::Or(_, _) => OR_LEVEL as nat,
            Predicate::And(_, _) => AND_LEVEL as nat,
            Predicate::Equality(_, _) => RELATION_LEVEL as nat,
            Predicate::Comparison { .. } => RELATION_LEVEL as nat,
            Predicate::Not(_) => NOT_LEVEL as nat,
        },
        Expression::Arithmetic(_) => SUM_LEVEL as nat,
        _ => ATOM_LEVEL as nat,
    }
}

/// The operator and the two operands of an expression that has an operator
/// between two operands at its top.
pub open spec fn infix_parts(e: Expression) -> Option<(Token, Expression, Expression)> {
    match e {
        Expression::Predicate(p) => match *p {
            Predicate::Or(l, r) => Some((Token::Pipe, l, r)),
            Predicate::And(l, r) => Some((Token::Amp, l, r)),
            Predicate::Equality(l, r) => Some((Token::Equal, l, r)),
            Predicate::Comparison { greater_than, or_equal, left, right } => Some(
                (
                    if greater_than {
                        if or_equal {
                            Token::GreaterEqual
                        } else {
                            Token::Greater
                        }
                    } else {
                        if or_equal {
                            Token::LessEqual
                        } else {
                            Token::Less
                        }
                    },
                    left,
                    right,
                ),
            ),
            Predicate::Not(_) => None,
        },
        Expression::Arithmetic(a) => match *a {
            Arithmetic::Addition(l, r) => Some((Token::Plus, l, r)),
            Arithmetic::Modulo(l, r) => Some((Token::Percent, l, r)),
        },
        _ => None,
    }
}

/// Whether the grammar can make the expression: whether every operand is of a
/// level that its place allows without parentheses, and every date is one that a
/// date literal can name. At an operator between two operands, the left operand
/// is of the operator's level at least, the right one of a stronger level.
pub open spec fn grammatical(e: Expression) -> bool
    decreases e,
{
    match e {
        Expression::Date(d) => d.wf() && 0 <= d.year() <= 9999,
        Expression::Predicate(p) => match *p {
            Predicate::Or(l, r) => grammatical(l) && grammatical(r) && level(l) >= OR_LEVEL
                && level(r) > OR_LEVEL,
            Predicate::And(l, r) => grammatical(l) && grammatical(r) && level(l) >= AND_LEVEL
                && level(r) > AND_LEVEL,
            Predicate::Equality(l, r) => grammatical(l) && grammatical(r) && level(l)
                >= RELATION_LEVEL && level(r) > RELATION_LEVEL,
            Predicate::Comparison { left, right, .. } => grammatical(left) && grammatical(right)
                && level(left) >= RELATION_LEVEL && level(right) > RELATION_LEVEL,
            Predicate::Not(operand) => grammatical(operand) && level(operand) >= NOT_LEVEL,
        },
        Expression::Arithmetic(a) => match *a {
            Arithmetic::Addition(l, r) => grammatical(l) && grammatical(r) && level(l) >= SUM_LEVEL
                && level(r) > SUM_LEVEL,
            Arithmetic::Modulo(l, r) => grammatical(l) && grammatical(r) && level(l) >= SUM_LEVEL
                && level(r) > SUM_LEVEL,
        },
        Expression::Function(f) => match *f {
            Function::Monthday(e) => grammatical(e),
            Function::Weekday(e) => grammatical(e),
            Function::WeekdayPredecessor { weekday, date } => grammatical(weekday) && grammatical(
                date,
            ),
            Function::NumberOfWeeks { low, high } => grammatical(low) && grammatical(high),
        },
        _ => true,
    }
}

/// The word that stands for a placeholder, as a token.
pub open spec fn placeholder_token(unit: PlaceholderUnit) -> Token {
    match unit {
        PlaceholderUnit::Weekday => Token::Wd,
        PlaceholderUnit::Monthday => Token::Md,
        PlaceholderUnit::Month => Token::Mo,
        PlaceholderUnit::Year => Token::Y,
        PlaceholderUnit::Date => Token::DateWord,
    }
}

/// The tokens of the canonical text of an expression.
pub open spec fn tokens(e: Expression) -> Seq<Token>
    decreases e,
{
    match e {
        Expression::Boolean(b) => seq![if b { Token::True } else { Token::False }],
        Expression::Number(n) => seq![Token::Number(n)],
        Expression::Placeholder(unit) => seq![placeholder_token(unit)],
        Expression::Weekday(wd) => seq![Token::Weekday(wd)],
        Expression::Month(m) => seq![Token::Month(m)],
        Expression::Date(d) => seq![Token::Date(d)],
        Expression::Predicate(p) => match *p {
            Predicate::Or(l, r) => tokens(l) + seq![Token::Pipe] + tokens(r),
            Predicate::And(l, r) => tokens(l) + seq![Token::Amp] + tokens(r),
            Predicate::Equality(l, r) => tokens(l) + seq![Token::Equal] + tokens(r),
            Predicate::Comparison { greater_than, or_equal, left, right } => tokens(left) + seq![
                if greater_than {
                    if or_equal { Token::GreaterEqual } else { Token::Greater }
                } else {
                    if or_equal { Token::LessEqual } else { Token::Less }
                },
            ] + tokens(right),
            Predicate::Not(operand) => seq![Token::Bang] + tokens(operand),
        },
        Expression::Arithmetic(a) => match *a {
            Arithmetic::Addition(l, r) => tokens(l) + seq![Token::Plus] + tokens(r),
            Arithmetic::Modulo(l, r) => tokens(l) + seq![Token::Percent] + tokens(r),
        },
        Expression::Function(f) => match *f {
            Function::Monthday(e) => seq![Token::Md, Token::LeftParen] + tokens(e) + seq![
                Token::RightParen,
            ],
            Function::Weekday(e) => seq![Token::Wd, Token::LeftParen] + tokens(e) + seq![
                Token::RightParen,
            ],
            Function::WeekdayPredecessor { weekday, date } => seq![Token::Wdp, Token::LeftParen]
                + tokens(weekday) + seq![Token::Comma] + tokens(date) + seq![Token::RightParen],
            Function::NumberOfWeeks { low, high } => seq![Token::Nw, Token::LeftParen] + tokens(low)
                + seq![Token::Comma] + tokens(high) + seq![Token::RightParen],
        },
    }
}

/// The texts of the tokens, one behind the other.
pub open spec fn render(ts: Seq<Token>) -> Seq<char>
    decreases ts.len(),
{
    if ts.len() == 0 {
        Seq::empty()
    } else {
        ts[0].text() + render(ts.skip(1))
    }
}

/// The text of two runs of tokens is the text of the first and then that of the second.
pub proof fn lemma_render_concat(a: Seq<Token>, b: Seq<Token>)
    ensures
        render(a + b) == render(a) + render(b),
    decreases a.len(),
{
    if a.len() == 0 {
        assert(a + b =~= b);
        assert(render(a) + render(b) =~= render(b));
    } else {
        lemma_render_concat(a.skip(1), b);
        assert((a + b).skip(1) =~= a.skip(1) + b);
        assert((a + b)[0] == a[0]);
        assert(render(a + b) =~= render(a) + render(b));
    }
}

/// The text of one token is the token's text.
pub proof fn lemma_render_one(t: Token)
    ensures
        render(seq![t]) == t.text(),
{
    assert(seq![t].skip(1) =~= Seq::<Token>::empty());
    assert(render(Seq::<Token>::empty()) =~= Seq::<char>::empty());
    assert(render(seq![t]) =~= t.text());
}

/// The text of two tokens.
pub proof fn lemma_render_two(a: Token, b: Token)
    ensures
        render(seq![a, b]) == a.text() + b.text(),
{
    assert(seq![a, b] =~= seq![a] + seq![b]);
    lemma_render_concat(seq![a], seq![b]);
    lemma_render_one(a);
    lemma_render_one(b);
}

/// The canonical text of an expression is the text of its tokens.
pub proof fn lemma_text_of_tokens(e: Expression)
    ensures
        e.text() == render(tokens(e)),
    decreases e,
{
    match e {
        Expression::Boolean(b) => {
            lemma_render_one(tokens(e)[0]);
        },
        Expression::Number(n) => {
            lemma_render_one(tokens(e)[0]);
        },
        Expression::Placeholder(unit) => {
            lemma_render_one(tokens(e)[0]);
        },
        Expression::Weekday(wd) => {
            lemma_render_one(tokens(e)[0]);
        },
        Expression::Month(m) => {
            lemma_render_one(tokens(e)[0]);
        },
        Expression::Date(d) => {
            lemma_render_one(tokens(e)[0]);
        },
        Expression::Predicate(p) => {
            match *p {
                Predicate::Not(operand) => {
                    lemma_text_of_tokens(operand);
                    lemma_render_one(Token::Bang);
                    lemma_render_concat(seq![Token::Bang], tokens(operand));
                },
                _ => {
                    lemma_text_of_infix(e);
                },
            }
        },
        Expression::Arithmetic(a) => {
            lemma_text_of_infix(e);
        },
        Expression::Function(f) => {
            match *f {
                Function::Monthday(x) => {
                    lemma_text_of_tokens(x);
                    lemma_text_of_call(Token::Md, x);
                },
                Function::Weekday(x) => {
                    lemma_text_of_tokens(x);
                    lemma_text_of_call(Token::Wd, x);
                },
                Function::WeekdayPredecessor { weekday, date } => {
                    lemma_text_of_tokens(weekday);
                    lemma_text_of_tokens(date);
                    lemma_text_of_long_call(Token::Wdp, weekday, date);
                },
                Function::NumberOfWeeks { low, high } => {
                    lemma_text_of_tokens(low);
                    lemma_text_of_tokens(high);
                    lemma_text_of_long_call(Token::Nw, low, high);
                },
            }
        },
    }
}

/// The text of an operator between two operands.
proof fn lemma_text_of_infix(e: Expression)
    requires
        infix_parts(e) is Some,
    ensures
        e.text() == render(tokens(e)),
    decreases e, 0nat,
{
    let (op, l, r) = infix_parts(e)->0;
    lemma_text_of_tokens(l);
    lemma_text_of_tokens(r);
    assert(tokens(e) == tokens(l) + seq![op] + tokens(r));
    assert(e.text() == l.text() + op.text() + r.text());
    lemma_render_concat(tokens(l) + seq![op], tokens(r));
    lemma_render_concat(tokens(l), seq![op]);
    lemma_render_one(op);
}

/// The text of the tokens of a call with one argument.
proof fn lemma_text_of_call(name: Token, argument: Expression)
    ensures
        render(seq![name, Token::LeftParen] + tokens(argument) + seq![Token::RightParen])
            == name.text() + "("@ + render(tokens(argument)) + ")"@,
{
    let head = seq![name, Token::LeftParen];
    lemma_render_two(name, Token::LeftParen);
    lemma_render_one(Token::RightParen);
    lemma_render_concat(head + tokens(argument), seq![Token::RightParen]);
    lemma_render_concat(head, tokens(argument));
}

/// The text of the tokens of a call with two arguments.
proof fn lemma_text_of_long_call(name: Token, first: Expression, second: Expression)
    ensures
        render(
            seq![name, Token::LeftParen] + tokens(first) + seq![Token::Comma] + tokens(second)
                + seq![Token::RightParen],
        ) == name.text() + "("@ + render(tokens(first)) + ", "@ + render(tokens(second)) + ")"@,
{
    let head = seq![name, Token::LeftParen];
    lemma_render_two(name, Token::LeftParen);
    lemma_render_one(Token::RightParen);
    lemma_render_one(Token::Comma);
    lemma_render_concat(
        head + tokens(first) + seq![Token::Comma] + tokens(second),
        seq![Token::RightParen],
    );
    lemma_render_concat(head + tokens(first) + seq![Token::Comma], tokens(second));
    lemma_render_concat(head + tokens(first), seq![Token::Comma]);
    lemma_render_concat(head, tokens(first));
}

/// The level of an operator between two operands.
pub open spec fn infix_level(op: Token) -> Option<nat> {
    match op {
        Token::Pipe => Some(OR_LEVEL as nat),
        Token::Amp => Some(AND_LEVEL as nat),
        Token::Equal | Token::Less | Token::LessEqual | Token::Greater | Token::GreaterEqual => Some(
            RELATION_LEVEL as nat,
        ),
        Token::Plus | Token::Percent => Some(SUM_LEVEL as nat),
        _ => None,
    }
}

/// Whether an expression of the given level ends where these tokens begin:
/// whether they are empty or begin with a closing parenthesis, a comma or a
/// weaker operator.
pub open spec fn stops(rest: Seq<Token>, level: nat) -> bool {
    rest.len() == 0 || rest[0] == Token::RightParen || rest[0] == Token::Comma || (infix_level(
        rest[0],
    ) matches Some(l) && l < level)
}

/// What an operator joins is the expression it was taken from.
proof fn lemma_infix_parts(e: Expression)
    requires
        infix_parts(e) is Some,
    ensures
        ({
            let (op, l, r) = infix_parts(e)->0;
            &&& combine(op, l, r) == e
            &&& infix_level(op) == Some(level(e))
            &&& is_infix(level(e), op)
            &&& level(e) < NOT_LEVEL
            &&& tokens(e) == tokens(l) + seq![op] + tokens(r)
            &&& grammatical(e) == (grammatical(l) && grammatical(r) && level(l) >= level(e)
                && level(r) > level(e))
        }),
{
}

/// Every expression has a token, and an atom starts with a word.
proof fn lemma_first_token(e: Expression)
    ensures
        tokens(e).len() >= 1,
        level(e) >= ATOM_LEVEL ==> tokens(e)[0].is_word(),
    decreases e,
{
    match infix_parts(e) {
        Some((op, l, r)) => {
            lemma_first_token(l);
        },
        None => {},
    }
}

/// Read at its own level or a weaker one, the tokens of an expression that the
/// grammar can make give the expression back, and what follows them is left over.
pub proof fn lemma_parse_tokens_at(e: Expression, at: nat, rest: Seq<Token>)
    requires
        grammatical(e),
        level(e) >= at,
        stops(rest, at),
    ensures
        parse_at(tokens(e) + rest, at) == Some((e, rest)),
    decreases e, 6 - at, 1nat,
{
    let ts = tokens(e) + rest;
    lemma_first_token(e);
    if at >= ATOM_LEVEL {
        lemma_parse_atom(e, rest);
    } else if at == NOT_LEVEL {
        if level(e) == NOT_LEVEL {
            let operand = e->Predicate_0->Not_0;
            assert(tokens(e) == seq![Token::Bang] + tokens(operand));
            assert(ts.skip(1) =~= tokens(operand) + rest);
            lemma_parse_tokens_at(operand, at, rest);
        } else {
            assert(ts[0] == tokens(e)[0]);
            lemma_parse_tokens_at(e, at + 1, rest);
        }
    } else {
        lemma_parse_first_operand(e, at, rest);
    }
}

/// Read one level above that of a chain of operators, the tokens of the chain
/// give its first operand, and going on from there along the chain gives the
/// whole of it.
proof fn lemma_parse_first_operand(e: Expression, at: nat, rest: Seq<Token>)
    requires
        grammatical(e),
        level(e) >= at,
        at < NOT_LEVEL,
        stops(rest, at + 1),
    ensures
        parse_at(tokens(e) + rest, at + 1) matches Some((first, mid)) && mid.len() <= (tokens(e)
            + rest).len() && parse_tail(mid, at, first) == parse_tail(rest, at, e),
    decreases e, 6 - at, 0nat,
{
    if level(e) > at {
        lemma_parse_tokens_at(e, at + 1, rest);
    } else {
        lemma_infix_parts(e);
        let (op, l, r) = infix_parts(e)->0;
        let rest_l = seq![op] + tokens(r) + rest;
        assert(tokens(e) + rest =~= tokens(l) + rest_l);
        lemma_parse_first_operand(l, at, rest_l);
        assert(rest_l.skip(1) =~= tokens(r) + rest);
        lemma_parse_tokens_at(r, at + 1, rest);
        lemma_first_token(r);
    }
}

/// The tokens of an atom, read as an atom, give the atom back.
proof fn lemma_parse_atom(e: Expression, rest: Seq<Token>)
    requires
        grammatical(e),
        level(e) >= ATOM_LEVEL,
        stops(rest, ATOM_LEVEL as nat),
    ensures
        parse_atom(tokens(e) + rest) == Some((e, rest)),
    decreases e, 0nat, 3nat,
{
    match e {
        Expression::Function(f) => {
            match *f {
                Function::Monthday(x) => {
                    lemma_parse_call(e, x, rest);
                },
                Function::Weekday(x) => {
                    lemma_parse_call(e, x, rest);
                },
                Function::WeekdayPredecessor { weekday, date } => {
                    lemma_parse_long_call(e, weekday, date, rest);
                },
                Function::NumberOfWeeks { low, high } => {
                    lemma_parse_long_call(e, low, high, rest);
                },
            }
        },
        _ => {
            lemma_parse_plain(e, rest);
        },
    }
}

/// The token of a literal or a placeholder, read as an atom, gives it back.
proof fn lemma_parse_plain(e: Expression, rest: Seq<Token>)
    requires
        level(e) >= ATOM_LEVEL,
        !(e is Function),
        stops(rest, ATOM_LEVEL as nat),
    ensures
        parse_atom(tokens(e) + rest) == Some((e, rest)),
{
    let ts = tokens(e) + rest;
    assert(tokens(e).len() == 1);
    assert(ts[0] == tokens(e)[0]);
    assert(ts.skip(1) =~= rest);
}

/// The tokens of a call with one argument, read as an atom, give the call back.
proof fn lemma_parse_call(e: Expression, x: Expression, rest: Seq<Token>)
    requires
        e == Expression::Function(Box::new(Function::Monthday(x))) || e == Expression::Function(
            Box::new(Function::Weekday(x)),
        ),
        grammatical(x),
    ensures
        parse_atom(tokens(e) + rest) == Some((e, rest)),
    decreases e, 0nat, 0nat,
{
    let ts = tokens(e) + rest;
    let after = seq![Token::LeftParen] + tokens(x) + seq![Token::RightParen] + rest;
    assert(ts.len() > 0);
    assert(ts.skip(1) =~= after);
    assert(after[0] == Token::LeftParen);
    match e {
        Expression::Function(f) => {
            match *f {
                Function::Monthday(inner) => {
                    assert(ts[0] == Token::Md);
                    lemma_parse_argument(inner, rest);
                },
                Function::Weekday(inner) => {
                    assert(ts[0] == Token::Wd);
                    lemma_parse_argument(inner, rest);
                },
                _ => {},
            }
        },
        _ => {},
    }
    assert(parse_argument(after) == Some((x, rest)));
}

/// The tokens of a call with two arguments, read as an atom, give the call back.
proof fn lemma_parse_long_call(
    e: Expression,
    first: Expression,
    second: Expression,
    rest: Seq<Token>,
)
    requires
        e == Expression::Function(
            Box::new(Function::WeekdayPredecessor { weekday: first, date: second }),
        ) || e == Expression::Function(
            Box::new(Function::NumberOfWeeks { low: first, high: second }),
        ),
        grammatical(first),
        grammatical(second),
    ensures
        parse_atom(tokens(e) + rest) == Some((e, rest)),
    decreases e, 0nat, 2nat,
{
    let ts = tokens(e) + rest;
    let after = seq![Token::LeftParen] + tokens(first) + seq![Token::Comma] + tokens(second)
        + seq![Token::RightParen] + rest;
    assert(ts.len() > 0);
    assert(ts.skip(1) =~= after);
    assert(ts[0] == tokens(e)[0]);
    lemma_parse_arguments(e, first, second, rest);
    assert(parse_arguments(after) == Some(((first, second), rest)));
}

/// The tokens of an argument in parentheses give the argument back.
proof fn lemma_parse_argument(x: Expression, rest: Seq<Token>)
    requires
        grammatical(x),
    ensures
        parse_argument(seq![Token::LeftParen] + tokens(x) + seq![Token::RightParen] + rest) == Some(
            (x, rest),
        ),
    decreases x, 7nat, 0nat,
{
    let ts = seq![Token::LeftParen] + tokens(x) + seq![Token::RightParen] + rest;
    let after = seq![Token::RightParen] + rest;
    assert(ts.skip(1) =~= tokens(x) + after);
    lemma_parse_tokens_at(x, OR_LEVEL as nat, after);
    assert(after.skip(1) =~= rest);
}

/// The tokens of two arguments in parentheses give the two back.
proof fn lemma_parse_arguments(
    call: Expression,
    first: Expression,
    second: Expression,
    rest: Seq<Token>,
)
    requires
        call == Expression::Function(
            Box::new(Function::WeekdayPredecessor { weekday: first, date: second }),
        ) || call == Expression::Function(
            Box::new(Function::NumberOfWeeks { low: first, high: second }),
        ),
        grammatical(first),
        grammatical(second),
    ensures
        parse_arguments(
            seq![Token::LeftParen] + tokens(first) + seq![Token::Comma] + tokens(second) + seq![
                Token::RightParen,
            ] + rest,
        ) == Some(((first, second), rest)),
    decreases call, 0nat, 0nat,
{
    let ts = seq![Token::LeftParen] + tokens(first) + seq![Token::Comma] + tokens(second) + seq![
        Token::RightParen,
    ] + rest;
    let middle = seq![Token::Comma] + tokens(second) + seq![Token::RightParen] + rest;
    let after = seq![Token::RightParen] + rest;
    assert(ts.skip(1) =~= tokens(first) + middle);
    assert(middle.skip(1) =~= tokens(second) + after);
    assert(after.skip(1) =~= rest);
    match call {
        Expression::Function(f) => {
            match *f {
                Function::WeekdayPredecessor { weekday, date } => {
                    lemma_parse_tokens_at(weekday, OR_LEVEL as nat, middle);
                    lemma_parse_tokens_at(date, OR_LEVEL as nat, after);
                },
                Function::NumberOfWeeks { low, high } => {
                    lemma_parse_tokens_at(low, OR_LEVEL as nat, middle);
                    lemma_parse_tokens_at(high, OR_LEVEL as nat, after);
                },
                _ => {},
            }
        },
        _ => {},
    }
    lemma_first_token(first);
    lemma_first_token(second);
}

/// The tokens of an expression that the grammar can make form that expression.
pub proof fn lemma_parse_tokens(e: Expression)
    requires
        grammatical(e),
    ensures
        parse_tokens(tokens(e)) == Some(e),
{
    lemma_parse_tokens_at(e, OR_LEVEL as nat, Seq::empty());
    assert(tokens(e) + Seq::<Token>::empty() =~= tokens(e));
}

/// Whether a token can be written as text and read back: whether, if it is a
/// date, it is a date with a year of four digits.
pub open spec fn printable(t: Token) -> bool {
    match t {
        Token::Date(d) => d.wf() && 0 <= d.year() <= 9999,
        _ => true,
    }
}

/// Whether no two words stand side by side in a run of tokens.
pub open spec fn separable(ts: Seq<Token>) -> bool {
    forall|i: int| 0 <= i < ts.len() - 1 ==> !(#[trigger] ts[i]).is_word() || !ts[i + 1].is_word()
}

/// Whether a text cannot be taken for the continuation of a word in front of it.
pub open spec fn starts_apart(text: Seq<char>) -> bool {
    text.len() == 0 || (!is_letter(text[0]) && !is_digit(text[0]) && text[0] != '-')
}

/// Whether a token is one of the words of the language.
pub open spec fn is_keyword(t: Token) -> bool {
    t.is_word() && !(t is Number) && !(t is Date)
}

/// A text that starts with white space splits as the text behind it does.
proof fn lemma_lex_space(s: Seq<char>)
    requires
        s.len() > 0,
        is_space(s[0]),
    ensures
        lex(s) == lex(s.skip(1)),
{
}

/// A text that starts with a token splits into that token and what the text
/// behind it splits into.
proof fn lemma_lex_scan(s: Seq<char>, t: Token, n: nat)
    requires
        s.len() > 0,
        !is_space(s[0]),
        scan(s) == Some((t, n)),
        0 < n <= s.len(),
    ensures
        lex(s) == prepend(seq![t], lex(s.skip(n as int))),
{
}

/// Letters in front of something that is no letter are all the letters there.
proof fn lemma_letters_run(word: Seq<char>, rest: Seq<char>)
    requires
        forall|i: int| 0 <= i < word.len() ==> is_letter(#[trigger] word[i]),
        rest.len() == 0 || !is_letter(rest[0]),
    ensures
        letters_len(word + rest) == word.len(),
    decreases word.len(),
{
    if word.len() == 0 {
        assert(word + rest =~= rest);
    } else {
        assert((word + rest).skip(1) =~= word.skip(1) + rest);
        assert((word + rest)[0] == word[0]);
        assert forall|i: int| 0 <= i < word.skip(1).len() implies is_letter(
            #[trigger] word.skip(1)[i],
        ) by {
            assert(word.skip(1)[i] == word[i + 1]);
        }
        lemma_letters_run(word.skip(1), rest);
    }
}

/// Digits in front of something that is no digit are all the digits there.
proof fn lemma_digits_run(digits: Seq<char>, rest: Seq<char>)
    requires
        forall|i: int| 0 <= i < digits.len() ==> is_digit(#[trigger] digits[i]),
        rest.len() == 0 || !is_digit(rest[0]),
    ensures
        digits_len(digits + rest) == digits.len(),
    decreases digits.len(),
{
    if digits.len() == 0 {
        assert(digits + rest =~= rest);
    } else {
        assert((digits + rest).skip(1) =~= digits.skip(1) + rest);
        assert((digits + rest)[0] == digits[0]);
        assert forall|i: int| 0 <= i < digits.skip(1).len() implies is_digit(
            #[trigger] digits.skip(1)[i],
        ) by {
            assert(digits.skip(1)[i] == digits[i + 1]);
        }
        lemma_digits_run(digits.skip(1), rest);
    }
}

/// Each word of the language is made of letters and stands for its own token.
proof fn lemma_keyword_text(t: Token)
    requires
        is_keyword(t),
    ensures
        t.text().len() > 0,
        forall|i: int| 0 <= i < t.text().len() ==> is_letter(#[trigger] t.text()[i]),
        keyword(t.text()) == Some(t),
{
    reveal_strlit("true");
    reveal_strlit("false");
    reveal_strlit("mon");
    reveal_strlit("tue");
    reveal_strlit("wed");
    reveal_strlit("thu");
    reveal_strlit("fri");
    reveal_strlit("sat");
    reveal_strlit("sun");
    reveal_strlit("jan");
    reveal_strlit("feb");
    reveal_strlit("mar");
    reveal_strlit("apr");
    reveal_strlit("may");
    reveal_strlit("jun");
    reveal_strlit("jul");
    reveal_strlit("aug");
    reveal_strlit("sep");
    reveal_strlit("oct");
    reveal_strlit("nov");
    reveal_strlit("dec");
    reveal_strlit("wd");
    reveal_strlit("md");
    reveal_strlit("mo");
    reveal_strlit("y");
    reveal_strlit("date");
    reveal_strlit("wdp");
    reveal_strlit("nw");
    assert("true"@.len() == 4 && "true"@[0] == 't' && "true"@[1] == 'r' && "true"@[2] == 'u' && "true"@[3] == 'e');
    assert("false"@.len() == 5 && "false"@[0] == 'f' && "false"@[1] == 'a' && "false"@[2] == 'l' && "false"@[3] == 's' && "false"@[4] == 'e');
    assert("mon"@.len() == 3 && "mon"@[0] == 'm' && "mon"@[1] == 'o' && "mon"@[2] == 'n');
    assert("tue"@.len() == 3 && "tue"@[0] == 't' && "tue"@[1] == 'u' && "tue"@[2] == 'e');
    assert("wed"@.len() == 3 && "wed"@[0] == 'w' && "wed"@[1] == 'e' && "wed"@[2] == 'd');
    assert("thu"@.len() == 3 && "thu"@[0] == 't' && "thu"@[1] == 'h' && "thu"@[2] == 'u');
    assert("fri"@.len() == 3 && "fri"@[0] == 'f' && "fri"@[1] == 'r' && "fri"@[2] == 'i');
    assert("sat"@.len() == 3 && "sat"@[0] == 's' && "sat"@[1] == 'a' && "sat"@[2] == 't');
    assert("sun"@.len() == 3 && "sun"@[0] == 's' && "sun"@[1] == 'u' && "sun"@[2] == 'n');
    assert("jan"@.len() == 3 && "jan"@[0] == 'j' && "jan"@[1] == 'a' && "jan"@[2] == 'n');
    assert("feb"@.len() == 3 && "feb"@[0] == 'f' && "feb"@[1] == 'e' && "feb"@[2] == 'b');
    assert("mar"@.len() == 3 && "mar"@[0] == 'm' && "mar"@[1] == 'a' && "mar"@[2] == 'r');
    assert("apr"@.len() == 3 && "apr"@[0] == 'a' && "apr"@[1] == 'p' && "apr"@[2] == 'r');
    assert("may"@.len() == 3 && "may"@[0] == 'm' && "may"@[1] == 'a' && "may"@[2] == 'y');
    assert("jun"@.len() == 3 && "jun"@[0] == 'j' && "jun"@[1] == 'u' && "jun"@[2] == 'n');
    assert("jul"@.len() == 3 && "jul"@[0] == 'j' && "jul"@[1] == 'u' && "jul"@[2] == 'l');
    assert("aug"@.len() == 3 && "aug"@[0] == 'a' && "aug"@[1] == 'u' && "aug"@[2] == 'g');
    assert("sep"@.len() == 3 && "sep"@[0] == 's' && "sep"@[1] == 'e' && "sep"@[2] == 'p');
    assert("oct"@.len() == 3 && "oct"@[0] == 'o' && "oct"@[1] == 'c' && "oct"@[2] == 't');
    assert("nov"@.len() == 3 && "nov"@[0] == 'n' && "nov"@[1] == 'o' && "nov"@[2] == 'v');
    assert("dec"@.len() == 3 && "dec"@[0] == 'd' && "dec"@[1] == 'e' && "dec"@[2] == 'c');
    assert("wd"@.len() == 2 && "wd"@[0] == 'w' && "wd"@[1] == 'd');
    assert("md"@.len() == 2 && "md"@[0] == 'm' && "md"@[1] == 'd');
    assert("mo"@.len() == 2 && "mo"@[0] == 'm' && "mo"@[1] == 'o');
    assert("y"@.len() == 1 && "y"@[0] == 'y');
    assert("date"@.len() == 4 && "date"@[0] == 'd' && "date"@[1] == 'a' && "date"@[2] == 't' && "date"@[3] == 'e');
    assert("wdp"@.len() == 3 && "wdp"@[0] == 'w' && "wdp"@[1] == 'd' && "wdp"@[2] == 'p');
    assert("nw"@.len() == 2 && "nw"@[0] == 'n' && "nw"@[1] == 'w');
}

/// A word of the language in front of something that does not continue it is
/// read as its token.
proof fn lemma_lex_keyword(t: Token, rest: Seq<char>)
    requires
        is_keyword(t),
        starts_apart(rest),
    ensures
        lex(t.text() + rest) == prepend(seq![t], lex(rest)),
{
    let word = t.text();
    let s = word + rest;
    lemma_keyword_text(t);
    lemma_letters_run(word, rest);
    assert(s[0] == word[0]);
    assert(is_letter(word[0]));
    assert(s.take(word.len() as int) =~= word);
    assert(s.skip(word.len() as int) =~= rest);
    assert(scan(s) == Some((t, word.len())));
    lemma_lex_scan(s, t, word.len());
}

/// The text of a number in front of something that does not continue it is read
/// as the number.
proof fn lemma_lex_number(n: u32, rest: Seq<char>)
    requires
        starts_apart(rest),
    ensures
        lex(decimal(n as nat) + rest) == prepend(seq![Token::Number(n)], lex(rest)),
{
    let digits = decimal(n as nat);
    let s = digits + rest;
    lemma_decimal_value(n as nat);
    lemma_digits_run(digits, rest);
    assert(s[0] == digits[0]);
    assert(is_digit(digits[0]));
    assert(s.take(digits.len() as int) =~= digits);
    assert(s.skip(digits.len() as int) =~= rest);
    assert(!is_date_shape(s)) by {
        if is_date_shape(s) {
            if digits.len() >= 5 {
                assert(s[4] == digits[4]);
                assert(is_digit(digits[4]));
            } else {
                assert(rest.len() > 0);
                assert(s[digits.len() as int] == rest[0]);
            }
        }
    }
    assert(scan(s) == Some((Token::Number(n), digits.len())));
    lemma_lex_scan(s, Token::Number(n), digits.len());
}

/// The text of a date with a year of four digits is read as the date, whatever
/// follows it.
proof fn lemma_lex_date(d: Date, rest: Seq<char>)
    requires
        d.wf(),
        0 <= d.year() <= 9999,
    ensures
        lex(d.text() + rest) == prepend(seq![Token::Date(d)], lex(rest)),
{
    let (year, month, day) = (d.year() as int, d.month() as int, d.day() as int);
    let text = d.text();
    let s = text + rest;
    lemma_digit_char(year / 100 / 10);
    lemma_digit_char(year / 100 % 10);
    lemma_digit_char(year % 100 / 10);
    lemma_digit_char(year % 100 % 10);
    lemma_digit_char(month / 10);
    lemma_digit_char(month % 10);
    lemma_digit_char(day / 10);
    lemma_digit_char(day % 10);
    assert(text =~= seq![
        digit_char(year / 100 / 10),
        digit_char(year / 100 % 10),
        digit_char(year % 100 / 10),
        digit_char(year % 100 % 10),
        '-',
        digit_char(month / 10),
        digit_char(month % 10),
        '-',
        digit_char(day / 10),
        digit_char(day % 10),
    ]);
    assert(text.len() == 10);
    assert forall|i: int| 0 <= i < 10 implies s[i] == text[i] by {}
    assert(is_date_shape(s));
    assert(1000 * (year / 100 / 10) + 100 * (year / 100 % 10) + 10 * (year % 100 / 10) + year % 100
        % 10 == year);
    assert(10 * (month / 10) + month % 10 == month);
    assert(10 * (day / 10) + day % 10 == day);
    Date::lemma_from_ymd(d.year(), d.month(), d.day());
    let made = Date::from_ymd(d.year(), d.month(), d.day());
    Date::lemma_same_fields(made->0, d);
    assert(scan_date(s) == Some((Token::Date(d), 10nat)));
    assert(s.skip(10) =~= rest);
    lemma_lex_scan(s, Token::Date(d), 10);
}

/// A token that is no word is read as itself, whatever follows it.
proof fn lemma_lex_symbol(t: Token, rest: Seq<char>)
    requires
        !t.is_word(),
    ensures
        lex(t.text() + rest) == prepend(seq![t], lex(rest)),
        starts_apart(t.text()),
        t.text().len() > 0,
{
    reveal_strlit("(");
    reveal_strlit(")");
    reveal_strlit(", ");
    reveal_strlit("!");
    reveal_strlit(" + ");
    reveal_strlit(" % ");
    reveal_strlit(" = ");
    reveal_strlit(" < ");
    reveal_strlit(" <= ");
    reveal_strlit(" > ");
    reveal_strlit(" >= ");
    reveal_strlit(" & ");
    reveal_strlit(" | ");
    let text = t.text();
    let s = text + rest;
    assert forall|i: int| 0 <= i < text.len() implies s[i] == text[i] by {}
    match t {
        Token::LeftParen | Token::RightParen | Token::Bang => {
            assert(s.skip(1) =~= rest);
            lemma_lex_scan(s, t, 1);
        },
        Token::Comma => {
            let after = s.skip(1);
            assert(after[0] == ' ');
            assert(after.skip(1) =~= rest);
            lemma_lex_scan(s, t, 1);
            lemma_lex_space(after);
        },
        Token::LessEqual | Token::GreaterEqual => {
            let sign = s.skip(1);
            assert(sign[0] == s[1]);
            assert(sign[1] == s[2]);
            let after = sign.skip(2);
            assert(after[0] == s[3]);
            assert(after.skip(1) =~= rest);
            lemma_lex_space(s);
            lemma_lex_scan(sign, t, 2);
            lemma_lex_space(after);
        },
        _ => {
            let sign = s.skip(1);
            assert(sign[0] == s[1]);
            assert(sign[1] == s[2]);
            let after = sign.skip(1);
            assert(after[0] == s[2]);
            assert(after.skip(1) =~= rest);
            lemma_lex_space(s);
            lemma_lex_scan(sign, t, 1);
            lemma_lex_space(after);
        },
    }
}

/// A token in front of a text that does not continue it is read as itself.
proof fn lemma_lex_token(t: Token, rest: Seq<char>)
    requires
        printable(t),
        t.is_word() ==> starts_apart(rest),
    ensures
        lex(t.text() + rest) == prepend(seq![t], lex(rest)),
        t.text().len() > 0,
        !t.is_word() ==> starts_apart(t.text()),
{
    match t {
        Token::Number(n) => {
            lemma_lex_number(n, rest);
            lemma_decimal_value(n as nat);
        },
        Token::Date(d) => {
            lemma_lex_date(d, rest);
            lemma_lex_date(d, Seq::empty());
        },
        _ => {
            if t.is_word() {
                lemma_lex_keyword(t, rest);
                lemma_keyword_text(t);
            } else {
                lemma_lex_symbol(t, rest);
            }
        },
    }
}

/// The text of tokens of which no two words stand side by side splits into
/// those tokens again.
pub proof fn lemma_lex_render(ts: Seq<Token>)
    requires
        separable(ts),
        forall|i: int| 0 <= i < ts.len() ==> printable(#[trigger] ts[i]),
    ensures
        lex(render(ts)) == Some(ts),
        ts.len() > 0 && !ts[0].is_word() ==> starts_apart(render(ts)),
    decreases ts.len(),
{
    if ts.len() > 0 {
        let rest = ts.skip(1);
        assert forall|i: int| 0 <= i < rest.len() - 1 implies !(#[trigger] rest[i]).is_word()
            || !rest[i + 1].is_word() by {
            assert(rest[i] == ts[i + 1]);
            assert(!ts[i + 1].is_word() || !ts[i + 1 + 1].is_word());
        }
        assert forall|i: int| 0 <= i < rest.len() implies printable(#[trigger] rest[i]) by {
            assert(rest[i] == ts[i + 1]);
        }
        lemma_lex_render(rest);
        if ts[0].is_word() && rest.len() > 0 {
            assert(rest[0] == ts[1]);
            assert(!ts[0int].is_word() || !ts[0int + 1].is_word());
        }
        if rest.len() == 0 {
            assert(render(rest) =~= Seq::<char>::empty());
        }
        lemma_lex_token(ts[0], render(rest));
        assert(seq![ts[0]] + rest =~= ts);
    }
}

/// Whether every token of a run can be written as text and read back.
pub open spec fn all_printable(ts: Seq<Token>) -> bool {
    forall|i: int| 0 <= i < ts.len() ==> printable(#[trigger] ts[i])
}

/// Two runs of tokens with a token that is no word between them keep their
/// words apart, if each of them does.
proof fn lemma_separable_join(a: Seq<Token>, t: Token, b: Seq<Token>)
    requires
        separable(a),
        separable(b),
        !t.is_word(),
    ensures
        separable(a + seq![t] + b),
{
    let ts = a + seq![t] + b;
    assert forall|i: int| 0 <= i < ts.len() - 1 implies !(#[trigger] ts[i]).is_word() || !ts[i
        + 1].is_word() by {
        if i + 1 < a.len() {
            assert(ts[i] == a[i]);
            assert(ts[i + 1] == a[i + 1]);
        } else if i + 1 == a.len() {
            assert(ts[i + 1] == t);
        } else if i == a.len() {
            assert(ts[i] == t);
        } else {
            assert(ts[i] == b[i - a.len() - 1]);
            assert(ts[i + 1] == b[i - a.len() - 1 + 1]);
        }
    }
}

/// Two runs of tokens that can be written and read back make one that can.
proof fn lemma_printable_join(a: Seq<Token>, b: Seq<Token>)
    requires
        all_printable(a),
        all_printable(b),
    ensures
        all_printable(a + b),
{
    assert forall|i: int| 0 <= i < (a + b).len() implies printable(#[trigger] (a + b)[i]) by {
        if i < a.len() {
            assert((a + b)[i] == a[i]);
        } else {
            assert((a + b)[i] == b[i - a.len()]);
        }
    }
}

/// In the tokens of an expression no two words stand side by side, and if the
/// grammar can make the expression, each of them can be written and read back.
pub proof fn lemma_tokens_shape(e: Expression)
    ensures
        separable(tokens(e)),
        grammatical(e) ==> all_printable(tokens(e)),
    decreases e,
{
    let none = Seq::<Token>::empty();
    match e {
        Expression::Predicate(p) => {
            match *p {
                Predicate::Not(operand) => {
                    lemma_tokens_shape(operand);
                    lemma_separable_join(none, Token::Bang, tokens(operand));
                    assert(none + seq![Token::Bang] + tokens(operand) =~= tokens(e));
                    if grammatical(e) {
                        lemma_printable_join(seq![Token::Bang], tokens(operand));
                    }
                },
                _ => {
                    lemma_infix_shape(e);
                },
            }
        },
        Expression::Arithmetic(a) => {
            lemma_infix_shape(e);
        },
        Expression::Function(f) => {
            match *f {
                Function::Monthday(x) => {
                    lemma_tokens_shape(x);
                    lemma_call_shape(Token::Md, tokens(x));
                },
                Function::Weekday(x) => {
                    lemma_tokens_shape(x);
                    lemma_call_shape(Token::Wd, tokens(x));
                },
                Function::WeekdayPredecessor { weekday, date } => {
                    lemma_tokens_shape(weekday);
                    lemma_tokens_shape(date);
                    lemma_separable_join(tokens(weekday), Token::Comma, tokens(date));
                    if grammatical(e) {
                        lemma_printable_join(tokens(weekday), seq![Token::Comma]);
                        lemma_printable_join(tokens(weekday) + seq![Token::Comma], tokens(date));
                    }
                    lemma_call_shape(Token::Wdp, tokens(weekday) + seq![Token::Comma] + tokens(date));
                    assert(tokens(e) =~= seq![Token::Wdp, Token::LeftParen] + (tokens(weekday)
                        + seq![Token::Comma] + tokens(date)) + seq![Token::RightParen]);
                },
                Function::NumberOfWeeks { low, high } => {
                    lemma_tokens_shape(low);
                    lemma_tokens_shape(high);
                    lemma_separable_join(tokens(low), Token::Comma, tokens(high));
                    if grammatical(e) {
                        lemma_printable_join(tokens(low), seq![Token::Comma]);
                        lemma_printable_join(tokens(low) + seq![Token::Comma], tokens(high));
                    }
                    lemma_call_shape(Token::Nw, tokens(low) + seq![Token::Comma] + tokens(high));
                    assert(tokens(e) =~= seq![Token::Nw, Token::LeftParen] + (tokens(low) + seq![
                        Token::Comma,
                    ] + tokens(high)) + seq![Token::RightParen]);
                },
            }
        },
        _ => {},
    }
}

/// The shape of the tokens of an operator between two operands.
proof fn lemma_infix_shape(e: Expression)
    requires
        infix_parts(e) is Some,
    ensures
        separable(tokens(e)),
        grammatical(e) ==> all_printable(tokens(e)),
    decreases e, 0nat,
{
    lemma_infix_parts(e);
    let (op, l, r) = infix_parts(e)->0;
    lemma_tokens_shape(l);
    lemma_tokens_shape(r);
    lemma_separable_join(tokens(l), op, tokens(r));
    if grammatical(e) {
        lemma_printable_join(tokens(l), seq![op]);
        lemma_printable_join(tokens(l) + seq![op], tokens(r));
    }
}

/// The shape of the tokens of a call.
proof fn lemma_call_shape(name: Token, inner: Seq<Token>)
    requires
        separable(inner),
        printable(name),
    ensures
        separable(seq![name, Token::LeftParen] + inner + seq![Token::RightParen]),
        all_printable(inner) ==> all_printable(
            seq![name, Token::LeftParen] + inner + seq![Token::RightParen],
        ),
{
    let none = Seq::<Token>::empty();
    let head = seq![name];
    lemma_separable_join(head, Token::LeftParen, inner);
    lemma_separable_join(head + seq![Token::LeftParen] + inner, Token::RightParen, none);
    assert(head + seq![Token::LeftParen] + inner + seq![Token::RightParen] + none =~= seq![
        name,
        Token::LeftParen,
    ] + inner + seq![Token::RightParen]);
    if all_printable(inner) {
        lemma_printable_join(seq![name, Token::LeftParen], inner);
        lemma_printable_join(seq![name, Token::LeftParen] + inner, seq![Token::RightParen]);
    }
}

/// The grammar reads the canonical text of an expression that it can make
/// back as that expression.
pub proof fn law_canonical_text_is_read_back(e: Expression)
    requires
        grammatical(e),
    ensures
        expression_of(e.text()) == Ok::<Expression, SyntaxError>(e),
{
    lemma_text_of_tokens(e);
    lemma_tokens_shape(e);
    lemma_lex_render(tokens(e));
    lemma_parse_tokens(e);
}

/// The same of a predicate: the grammar reads its canonical text back as the
/// predicate, if it can make it.
pub proof fn law_canonical_predicate_is_read_back(p: Predicate)
    requires
        grammatical(Expression::Predicate(Box::new(p))),
    ensures
        predicate_of(p.text()) == Ok::<Predicate, SyntaxError>(p),
{
    law_canonical_text_is_read_back(Expression::Predicate(Box::new(p)));
}

/// Whether `rest` is what is left of `ts` behind some of its tokens.
pub open spec fn is_tail(rest: Seq<Token>, ts: Seq<Token>) -> bool {
    rest.len() <= ts.len() && rest == ts.skip(ts.len() - rest.len())
}

/// What is left of what is left is left of the whole.
proof fn lemma_tail_of_tail(a: Seq<Token>, b: Seq<Token>, c: Seq<Token>)
    requires
        is_tail(a, b),
        is_tail(b, c),
    ensures
        is_tail(a, c),
{
    assert(c.skip(c.len() - b.len()).skip(b.len() - a.len()) =~= c.skip(c.len() - a.len()));
}

/// What is left behind the first token.
proof fn lemma_tail_behind_first(ts: Seq<Token>)
    requires
        ts.len() > 0,
    ensures
        is_tail(ts.skip(1), ts),
{
}

/// What is left of tokens that can be written and read back can be so too.
proof fn lemma_tail_printable(rest: Seq<Token>, ts: Seq<Token>)
    requires
        is_tail(rest, ts),
        all_printable(ts),
    ensures
        all_printable(rest),
{
    assert forall|i: int| 0 <= i < rest.len() implies printable(#[trigger] rest[i]) by {
        assert(rest[i] == ts[ts.len() - rest.len() + i]);
    }
}

/// What the grammar makes of tokens is an expression that it can make, of the
/// level asked for or a stronger one, and it takes at least one token for it.
pub proof fn lemma_parsed_at(ts: Seq<Token>, at: nat)
    requires
        all_printable(ts),
        at <= ATOM_LEVEL,
    ensures
        parse_at(ts, at) matches Some((e, rest)) ==> grammatical(e) && level(e) >= at && rest.len()
            < ts.len() && is_tail(rest, ts),
    decreases ts.len(), super::grammar::depth(at),
{
    if at >= ATOM_LEVEL {
        lemma_parsed_atom(ts);
    } else if at == NOT_LEVEL {
        if ts.len() > 0 && ts[0] == Token::Bang {
            lemma_tail_behind_first(ts);
            lemma_tail_printable(ts.skip(1), ts);
            lemma_parsed_at(ts.skip(1), at);
            if let Some((operand, rest)) = parse_at(ts.skip(1), at) {
                lemma_tail_of_tail(rest, ts.skip(1), ts);
            }
        } else {
            lemma_parsed_at(ts, at + 1);
        }
    } else {
        lemma_parsed_at(ts, at + 1);
        if let Some((first, mid)) = parse_at(ts, at + 1) {
            lemma_tail_printable(mid, ts);
            lemma_parsed_tail(mid, at, first);
            if let Some((e, rest)) = parse_tail(mid, at, first) {
                lemma_tail_of_tail(rest, mid, ts);
            }
        }
    }
}

/// What the grammar makes of a chain of operators is an expression that it can make.
proof fn lemma_parsed_tail(ts: Seq<Token>, at: nat, left: Expression)
    requires
        all_printable(ts),
        at < NOT_LEVEL,
        grammatical(left),
        level(left) >= at,
    ensures
        parse_tail(ts, at, left) matches Some((e, rest)) ==> grammatical(e) && level(e) >= at
            && is_tail(rest, ts),
    decreases ts.len(), (super::grammar::depth(at) - 1) as nat,
{
    if ts.len() > 0 && is_infix(at, ts[0]) {
        lemma_tail_behind_first(ts);
        lemma_tail_printable(ts.skip(1), ts);
        lemma_parsed_at(ts.skip(1), at + 1);
        if let Some((right, rest)) = parse_at(ts.skip(1), at + 1) {
            let joined = combine(ts[0], left, right);
            assert(grammatical(joined) && level(joined) == at);
            lemma_tail_of_tail(rest, ts.skip(1), ts);
            lemma_tail_printable(rest, ts);
            lemma_parsed_tail(rest, at, joined);
            if let Some((e, last)) = parse_tail(rest, at, joined) {
                lemma_tail_of_tail(last, rest, ts);
            }
        }
    } else {
        assert(ts.skip(0) =~= ts);
    }
}

/// What the grammar makes of the tokens of an atom is an atom that it can make.
proof fn lemma_parsed_atom(ts: Seq<Token>)
    requires
        all_printable(ts),
    ensures
        parse_atom(ts) matches Some((e, rest)) ==> grammatical(e) && level(e) >= ATOM_LEVEL
            && rest.len() < ts.len() && is_tail(rest, ts),
    decreases ts.len(), 0nat,
{
    if ts.len() > 0 {
        let rest = ts.skip(1);
        lemma_tail_behind_first(ts);
        lemma_tail_printable(rest, ts);
        assert(printable(ts[0]));
        match ts[0] {
            Token::Wd | Token::Md => {
                if rest.len() > 0 && rest[0] == Token::LeftParen {
                    lemma_parsed_argument(rest);
                    if let Some((e, last)) = parse_argument(rest) {
                        lemma_tail_of_tail(last, rest, ts);
                    }
                }
            },
            Token::Wdp | Token::Nw => {
                lemma_parsed_arguments(rest);
                if let Some((pair, last)) = parse_arguments(rest) {
                    lemma_tail_of_tail(last, rest, ts);
                }
            },
            _ => {},
        }
    }
}

/// What the grammar makes of an argument in parentheses is an expression that
/// it can make.
proof fn lemma_parsed_argument(ts: Seq<Token>)
    requires
        all_printable(ts),
        ts.len() > 0,
    ensures
        parse_argument(ts) matches Some((e, rest)) ==> grammatical(e) && rest.len() < ts.len()
            && is_tail(rest, ts),
    decreases ts.len(), 0nat,
{
    let inner = ts.skip(1);
    lemma_tail_behind_first(ts);
    lemma_tail_printable(inner, ts);
    lemma_parsed_at(inner, OR_LEVEL as nat);
    if let Some((e, rest)) = parse_at(inner, OR_LEVEL as nat) {
        if rest.len() > 0 {
            lemma_tail_behind_first(rest);
            lemma_tail_of_tail(rest.skip(1), rest, inner);
            lemma_tail_of_tail(rest.skip(1), inner, ts);
        }
    }
}

/// What the grammar makes of two arguments in parentheses are expressions
/// that it can make.
proof fn lemma_parsed_arguments(ts: Seq<Token>)
    requires
        all_printable(ts),
    ensures
        parse_arguments(ts) matches Some(((first, second), rest)) ==> grammatical(first)
            && grammatical(second) && rest.len() < ts.len() && is_tail(rest, ts),
    decreases ts.len(), 0nat,
{
    if ts.len() > 0 {
        let inner = ts.skip(1);
        lemma_tail_behind_first(ts);
        lemma_tail_printable(inner, ts);
        lemma_parsed_at(inner, OR_LEVEL as nat);
        if let Some((first, rest)) = parse_at(inner, OR_LEVEL as nat) {
            if rest.len() > 0 {
                let second_part = rest.skip(1);
                lemma_tail_behind_first(rest);
                lemma_tail_of_tail(second_part, rest, inner);
                lemma_tail_of_tail(second_part, inner, ts);
                lemma_tail_printable(second_part, ts);
                lemma_parsed_at(second_part, OR_LEVEL as nat);
                if let Some((second, last)) = parse_at(second_part, OR_LEVEL as nat) {
                    if last.len() > 0 {
                        lemma_tail_behind_first(last);
                        lemma_tail_of_tail(last.skip(1), last, second_part);
                        lemma_tail_of_tail(last.skip(1), second_part, ts);
                    }
                }
            }
        }
    }
}

/// The tokens that a text splits into can each be written as text and read back.
pub proof fn lemma_lexed_printable(s: Seq<char>)
    ensures
        lex(s) matches Some(ts) ==> all_printable(ts),
    decreases s.len(),
{
    if s.len() == 0 {
    } else if is_space(s[0]) {
        lemma_lexed_printable(s.skip(1));
    } else {
        match scan(s) {
            Some((token, n)) => {
                if 0 < n <= s.len() {
                    lemma_lexed_printable(s.skip(n as int));
                    if let Some(rest) = lex(s.skip(n as int)) {
                        if is_digit(s[0]) && is_date_shape(s) {
                            let year = 1000 * digit_value(s[0]) + 100 * digit_value(s[1]) + 10
                                * digit_value(s[2]) + digit_value(s[3]);
                            let month = 10 * digit_value(s[5]) + digit_value(s[6]);
                            let day = 10 * digit_value(s[8]) + digit_value(s[9]);
                            Date::lemma_from_ymd(year as i32, month as u32, day as u32);
                        }
                        assert(printable(token));
                        lemma_printable_join(seq![token], rest);
                    }
                }
            },
            None => {},
        }
    }
}

/// What the grammar makes of a text is an expression that it can make.
pub proof fn law_parsed_is_grammatical(text: Seq<char>)
    ensures
        expression_of(text) matches Ok(e) ==> grammatical(e),
{
    lemma_lexed_printable(text);
    if let Some(ts) = lex(text) {
        lemma_parsed_at(ts, OR_LEVEL as nat);
    }
}

/// The canonical text is stable: what the grammar makes of a text, it makes
/// again of the canonical text of what it made.
pub proof fn law_round_trip(text: Seq<char>)
    ensures
        expression_of(text) matches Ok(e) ==> expression_of(e.text()) == Ok::<
            Expression,
            SyntaxError,
        >(e),
        predicate_of(text) matches Ok(p) ==> predicate_of(p.text()) == Ok::<Predicate, SyntaxError>(
            p,
        ),
{
    law_parsed_is_grammatical(text);
    if let Ok(e) = expression_of(text) {
        law_canonical_text_is_read_back(e);
    }
}

/// The canonical text of a time of day, in front of something that is no
/// digit, is read as the time.
proof fn lemma_scan_time_text(time: Time, rest: Seq<char>)
    requires
        time.wf(),
        rest.len() == 0 || !is_digit(rest[0]),
    ensures
        scan_time(time.text() + rest) == Some((time, time.text().len())),
{
    let hour = decimal(time.hour() as nat);
    let minute = decimal(time.minute() as nat);
    let s = time.text() + rest;
    let behind_hour = seq![':'] + minute + rest;
    lemma_decimal_value(time.hour() as nat);
    lemma_decimal_value(time.minute() as nat);
    assert(s =~= hour + behind_hour);
    lemma_digits_run(hour, behind_hour);
    assert(s[hour.len() as int] == ':');
    let after = s.skip(hour.len() as int + 1);
    assert(after =~= minute + rest);
    lemma_digits_run(minute, rest);
    assert(s.take(hour.len() as int) =~= hour);
    assert(after.take(minute.len() as int) =~= minute);
    Time::lemma_from_hm(time.hour(), time.minute());
    Time::lemma_same_fields(Time::from_hm(time.hour(), time.minute())->0, time);
}

/// The grammar reads the canonical text of a pair of times back as the pair.
pub proof fn law_time_pair_is_read_back(pair: TimePair)
    requires
        pair.0.wf(),
        pair.1.wf(),
    ensures
        time_pair_of(pair.text()) == Ok::<TimePair, SyntaxError>(pair),
{
    let start = pair.0.text();
    let end = pair.1.text();
    let text = pair.text();
    let behind_start = seq!['-'] + end;
    assert(text =~= start + behind_start);
    lemma_scan_time_text(pair.0, behind_start);
    assert(text[start.len() as int] == '-');
    let rest = text.skip(start.len() as int + 1);
    assert(rest =~= end);
    assert(end + Seq::<char>::empty() =~= end);
    lemma_scan_time_text(pair.1, Seq::empty());
}

} // verus!
