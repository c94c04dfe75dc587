//! The grammar of the query language, and the parser that follows it.
//!
//! An expression is built from atoms by operators of four strengths. From the
//! weakest to the strongest: `|`; `&`; `=`, `<`, `<=`, `>`, `>=`; `+`, `%`. All
//! of them group to the left. `!` binds tighter than any of them, and an atom
//! is a literal, a placeholder or a function call. There are no parentheses but
//! those of a call.

use super::lexer::{chars_of, digits_end, digits_len, lex, number_at, tokenize, Token};
use super::roundtrip::{grammatical, law_parsed_is_grammatical};
use super::{Arithmetic, Expression, Function, PlaceholderUnit, Predicate};
use crate::digits::digits_value;
use crate::schedule::{Time, TimePair};
use vstd::prelude::*;

verus! {

/// The level of `|`, the weakest operator.
pub const OR_LEVEL: u8 = 0;

/// The level of `&`.
pub const AND_LEVEL: u8 = 1;

/// The level of `=`, `<`, `<=`, `>` and `>=`.
pub const RELATION_LEVEL: u8 = 2;

/// The level of `+` and `%`, the strongest operators between two operands.
pub const SUM_LEVEL: u8 = 3;

/// The level of `!`.
pub const NOT_LEVEL: u8 = 4;

/// The level of literals, placeholders and function calls.
pub const ATOM_LEVEL: u8 = 5;

/// Why a text is not what was asked for.
#[derive(Debug, Clone, Copy, PartialEq, Eq, Structural)]
pub enum SyntaxError {
    /// Some part of the text is no token of the language.
    UnknownToken,
    /// The tokens do not form an expression.
    UnexpectedToken,
    /// The text is an expression, but not a predicate.
    NotAPredicate,
    /// The text is not two times of day with a hyphen between them.
    NotATimePair,
}

/// Whether a token is an operator between two operands, of the given level.
pub open spec fn is_infix(level: nat, op: Token) -> bool {
    match op {
        Token::Pipe => level == OR_LEVEL,
        Token::Amp => level == AND_LEVEL,
        Token::Equal | Token::Less | Token::LessEqual | Token::Greater | Token::GreaterEqual => level
            == RELATION_LEVEL,
        Token::Plus | Token::Percent => level == SUM_LEVEL,
        _ => false,
    }
}

/// The expression that an operator makes of its two operands.
pub open spec fn combine(op: Token, left: Expression, right: Expression) -> Expression {
    match op {
        Token::Pipe => Expression::Predicate(Box::new(Predicate::Or(left, right))),
        Token::Amp => Expression::Predicate(Box::new(Predicate::And(left, right))),
        Token::Equal => Expression::Predicate(Box::new(Predicate::Equality(left, right))),
        Token::Less => Expression::Predicate(
            Box::new(Predicate::Comparison { greater_than: false, or_equal: false, left, right }),
        ),
        Token::LessEqual => Expression::Predicate(
            Box::new(Predicate::Comparison { greater_than: false, or_equal: true, left, right }),
        ),
        Token::Greater => Expression::Predicate(
            Box::new(Predicate::Comparison { greater_than: true, or_equal: false, left, right }),
        ),
        Token::GreaterEqual => Expression::Predicate(
            Box::new(Predicate::Comparison { greater_than: true, or_equal: true, left, right }),
        ),
        Token::Plus => Expression::Arithmetic(Box::new(Arithmetic::Addition(left, right))),
        Token::Percent => Expression::Arithmetic(Box::new(Arithmetic::Modulo(left, right))),
        _ => left,
    }
}

/// How far a parse at a level can descend before it takes a token.
pub open spec fn depth(level: nat) -> nat {
    if level >= ATOM_LEVEL {
        1
    } else {
        (2 * (6 - level) + 1) as nat
    }
}

/// An expression of the given level or a stronger one at the start of the
/// tokens, as long as it can be made, with the tokens behind it.
pub open spec fn parse_at(ts: Seq<Token>, level: nat) -> Option<(Expression, Seq<Token>)>
    decreases ts.len(), depth(level),
{
    if level >= ATOM_LEVEL {
        parse_atom(ts)
    } else if level == NOT_LEVEL {
        if ts.len() > 0 && ts[0] == Token::Bang {
            match parse_at(ts.skip(1), level) {
                Some((operand, rest)) => Some(
                    (Expression::Predicate(Box::new(Predicate::Not(operand))), rest),
                ),
                None => None,
            }
        } else {
            parse_at(ts, level + 1)
        }
    } else {
        match parse_at(ts, level + 1) {
            Some((first, rest)) => if rest.len() <= ts.len() {
                parse_tail(rest, level, first)
            } else {
                None
            },
            None => None,
        }
    }
}

/// What follows the first operand at a level: as long as an operator of that
/// level comes next, it joins what has been made so far with the operand behind it.
pub open spec fn parse_tail(ts: Seq<Token>, level: nat, left: Expression) -> Option<
    (Expression, Seq<Token>),
>
    decreases ts.len(), (depth(level) - 1) as nat,
{
    if level < NOT_LEVEL && ts.len() > 0 && is_infix(level, ts[0]) {
        match parse_at(ts.skip(1), level + 1) {
            Some((right, rest)) => if rest.len() < ts.len() {
                parse_tail(rest, level, combine(ts[0], left, right))
            } else {
                None
            },
            None => None,
        }
    } else {
        Some((left, ts))
    }
}

/// A literal, a placeholder or a function call at the start of the tokens.
/// `wd` and `md` are calls where a parenthesis follows, else placeholders.
pub open spec fn parse_atom(ts: Seq<Token>) -> Option<(Expression, Seq<Token>)>
    decreases ts.len(), 0nat,
{
    if ts.len() == 0 {
        None
    } else {
        let rest = ts.skip(1);
        match ts[0] {
            Token::True => Some((Expression::Boolean(true), rest)),
            Token::False => Some((Expression::Boolean(false), rest)),
            Token::Number(n) => Some((Expression::Number(n), rest)),
            Token::Date(d) => Some((Expression::Date(d), rest)),
            Token::Weekday(wd) => Some((Expression::Weekday(wd), rest)),
            Token::Month(m) => Some((Expression::Month(m), rest)),
            Token::Mo => Some((Expression::Placeholder(PlaceholderUnit::Month), rest)),
            Token::Y => Some((Expression::Placeholder(PlaceholderUnit::Year), rest)),
            Token::DateWord => Some((Expression::Placeholder(PlaceholderUnit::Date), rest)),
            Token::Wd => if rest.len() > 0 && rest[0] == Token::LeftParen {
                match parse_argument(rest) {
                    Some((e, rest)) => Some(
                        (Expression::Function(Box::new(Function::Weekday(e))), rest),
                    ),
                    None => None,
                }
            } else {
                Some((Expression::Placeholder(PlaceholderUnit::Weekday), rest))
            },
            Token::Md => if rest.len() > 0 && rest[0] == Token::LeftParen {
                match parse_argument(rest) {
                    Some((e, rest)) => Some(
                        (Expression::Function(Box::new(Function::Monthday(e))), rest),
                    ),
                    None => None,
                }
            } else {
                Some((Expression::Placeholder(PlaceholderUnit::Monthday), rest))
            },
            Token::Wdp => match parse_arguments(rest) {
                Some(((weekday, date), rest)) => Some(
                    (
                        Expression::Function(
                            Box::new(Function::WeekdayPredecessor { weekday, date }),
                        ),
                        rest,
                    ),
                ),
                None => None,
            },
            Token::Nw => match parse_arguments(rest) {
                Some(((low, high), rest)) => Some(
                    (Expression::Function(Box::new(Function::NumberOfWeeks { low, high })), rest),
                ),
                None => None,
            },
            _ => None,
        }
    }
}

/// One expression in parentheses at the start of the tokens.
pub open spec fn parse_argument(ts: Seq<Token>) -> Option<(Expression, Seq<Token>)>
    decreases ts.len(), 0nat,
{
    if ts.len() > 0 && ts[0] == Token::LeftParen {
        match parse_at(ts.skip(1), OR_LEVEL as nat) {
            Some((e, rest)) => if rest.len() > 0 && rest[0] == Token::RightParen {
                Some((e, rest.skip(1)))
            } else {
                None
            },
            None => None,
        }
    } else {
        None
    }
}

/// Two expressions in parentheses, with a comma between them, at the start of
/// the tokens.
pub open spec fn parse_arguments(ts: Seq<Token>) -> Option<((Expression, Expression), Seq<Token>)>
    decreases ts.len(), 0nat,
{
    if ts.len() > 0 && ts[0] == Token::LeftParen {
        match parse_at(ts.skip(1), OR_LEVEL as nat) {
            Some((first, rest)) => if rest.len() < ts.len() && rest.len() > 0 && rest[0]
                == Token::Comma {
                match parse_at(rest.skip(1), OR_LEVEL as nat) {
                    Some((second, rest)) => if rest.len() > 0 && rest[0] == Token::RightParen {
                        Some(((first, second), rest.skip(1)))
                    } else {
                        None
                    },
                    None => None,
                }
            } else {
                None
            },
            None => None,
        }
    } else {
        None
    }
}

/// The expression that the tokens form, all of them.
pub open spec fn parse_tokens(ts: Seq<Token>) -> Option<Expression> {
    match parse_at(ts, OR_LEVEL as nat) {
        Some((e, rest)) => if rest.len() == 0 {
            Some(e)
        } else {
            None
        },
        None => None,
    }
}

/// The expression that a text stands for, or why it stands for none.
pub open spec fn expression_of(text: Seq<char>) -> Result<Expression, SyntaxError> {
    match lex(text) {
        None => Err(SyntaxError::UnknownToken),
        Some(ts) => match parse_tokens(ts) {
            Some(e) => Ok(e),
            None => Err(SyntaxError::UnexpectedToken),
        },
    }
}

/// The predicate that a text stands for, or why it stands for none.
pub open spec fn predicate_of(text: Seq<char>) -> Result<Predicate, SyntaxError> {
    match expression_of(text) {
        Ok(Expression::Predicate(p)) => Ok(*p),
        Ok(_) => Err(SyntaxError::NotAPredicate),
        Err(e) => Err(e),
    }
}

/// What a parse that went from some position to another says of the tokens
/// behind each of the two.
pub open spec fn behind<T>(ts: Seq<Token>, result: Option<(T, usize)>) -> Option<(T, Seq<Token>)> {
    match result {
        Some((made, end)) => Some((made, ts.skip(end as int))),
        None => None,
    }
}

/// Joins two operands by an operator.
fn join(op: Token, left: Expression, right: Expression) -> (r: Expression)
    ensures
        r == combine(op, left, right),
{
    match op {
        Token::Pipe => Expression::Predicate(Box::new(Predicate::Or(left, right))),
        Token::Amp => Expression::Predicate(Box::new(Predicate::And(left, right))),
        Token::Equal => Expression::Predicate(Box::new(Predicate::Equality(left, right))),
        Token::Less => Expression::Predicate(
            Box::new(Predicate::Comparison { greater_than: false, or_equal: false, left, right }),
        ),
        Token::LessEqual => Expression::Predicate(
            Box::new(Predicate::Comparison { greater_than: false, or_equal: true, left, right }),
        ),
        Token::Greater => Expression::Predicate(
            Box::new(Predicate::Comparison { greater_than: true, or_equal: false, left, right }),
        ),
        Token::GreaterEqual => Expression::Predicate(
            Box::new(Predicate::Comparison { greater_than: true, or_equal: true, left, right }),
        ),
        Token::Plus => Expression::Arithmetic(Box::new(Arithmetic::Addition(left, right))),
        Token::Percent => Expression::Arithmetic(Box::new(Arithmetic::Modulo(left, right))),
        _ => left,
    }
}

/// Whether a token is an operator of the given level.
fn joins_at(level: u8, op: Token) -> (r: bool)
    ensures
        r == is_infix(level as nat, op),
{
    match op {
        Token::Pipe => level == OR_LEVEL,
        Token::Amp => level == AND_LEVEL,
        Token::Equal | Token::Less | Token::LessEqual | Token::Greater | Token::GreaterEqual => level
            == RELATION_LEVEL,
        Token::Plus | Token::Percent => level == SUM_LEVEL,
        _ => false,
    }
}

/// Whether the token at `pos` is an opening parenthesis.
fn opens_at(ts: &Vec<Token>, pos: usize) -> (r: bool)
    requires
        pos <= ts@.len(),
    ensures
        r == (ts@.skip(pos as int).len() > 0 && ts@.skip(pos as int)[0] == Token::LeftParen),
        r ==> pos < usize::MAX,
{
    pos < ts.len() && matches!(ts[pos], Token::LeftParen)
}

/// Parses an expression of the given level or a stronger one from `pos` on.
fn expression_at(ts: &Vec<Token>, pos: usize, level: u8) -> (r: Option<(Expression, usize)>)
    requires
        pos <= ts@.len(),
    ensures
        parse_at(ts@.skip(pos as int), level as nat) == behind(ts@, r),
        r matches Some((_, end)) ==> pos < end <= ts@.len(),
    decreases ts@.len() - pos, depth(level as nat),
{
    let ghost rest = ts@.skip(pos as int);
    if level >= ATOM_LEVEL {
        atom_at(ts, pos)
    } else if level == NOT_LEVEL {
        if pos < ts.len() && matches!(ts[pos], Token::Bang) {
            assert(rest.skip(1) =~= ts@.skip(pos + 1));
            match expression_at(ts, pos + 1, level) {
                Some((operand, end)) => Some(
                    (Expression::Predicate(Box::new(Predicate::Not(operand))), end),
                ),
                None => None,
            }
        } else {
            expression_at(ts, pos, level + 1)
        }
    } else {
        match expression_at(ts, pos, level + 1) {
            Some((first, end)) => tail_at(ts, end, level, first),
            None => None,
        }
    }
}

/// Parses the operators of the given level, and their right operands, from `pos` on.
fn tail_at(ts: &Vec<Token>, pos: usize, level: u8, left: Expression) -> (r: Option<
    (Expression, usize),
>)
    requires
        pos <= ts@.len(),
        level < NOT_LEVEL,
    ensures
        parse_tail(ts@.skip(pos as int), level as nat, left) == behind(ts@, r),
        r matches Some((_, end)) ==> pos <= end <= ts@.len(),
    decreases ts@.len() - pos, (depth(level as nat) - 1) as nat,
{
    let ghost rest = ts@.skip(pos as int);
    if pos < ts.len() && joins_at(level, ts[pos]) {
        let op = ts[pos];
        assert(rest.skip(1) =~= ts@.skip(pos + 1));
        match expression_at(ts, pos + 1, level + 1) {
            Some((right, end)) => tail_at(ts, end, level, join(op, left, right)),
            None => None,
        }
    } else {
        Some((left, pos))
    }
}

/// Parses a literal, a placeholder or a function call from `pos` on.
fn atom_at(ts: &Vec<Token>, pos: usize) -> (r: Option<(Expression, usize)>)
    requires
        pos <= ts@.len(),
    ensures
        parse_atom(ts@.skip(pos as int)) == behind(ts@, r),
        r matches Some((_, end)) ==> pos < end <= ts@.len(),
    decreases ts@.len() - pos, 0nat,
{
    let ghost rest = ts@.skip(pos as int);
    if pos >= ts.len() {
        return None;
    }
    assert(rest.skip(1) =~= ts@.skip(pos + 1));
    let next = pos + 1;
    match ts[pos] {
        Token::True => Some((Expression::Boolean(true), next)),
        Token::False => Some((Expression::Boolean(false), next)),
        Token::Number(n) => Some((Expression::Number(n), next)),
        Token::Date(d) => Some((Expression::Date(d), next)),
        Token::Weekday(wd) => Some((Expression::Weekday(wd), next)),
        Token::Month(m) => Some((Expression::Month(m), next)),
        Token::Mo => Some((Expression::Placeholder(PlaceholderUnit::Month), next)),
        Token::Y => Some((Expression::Placeholder(PlaceholderUnit::Year), next)),
        Token::DateWord => Some((Expression::Placeholder(PlaceholderUnit::Date), next)),
        Token::Wd => if opens_at(ts, next) {
            match argument_at(ts, next) {
                Some((e, end)) => Some((Expression::Function(Box::new(Function::Weekday(e))), end)),
                None => None,
            }
        } else {
            Some((Expression::Placeholder(PlaceholderUnit::Weekday), next))
        },
        Token::Md => if opens_at(ts, next) {
            match argument_at(ts, next) {
                Some((e, end)) => Some(
                    (Expression::Function(Box::new(Function::Monthday(e))), end),
                ),
                None => None,
            }
        } else {
            Some((Expression::Placeholder(PlaceholderUnit::Monthday), next))
        },
        Token::Wdp => match arguments_at(ts, next) {
            Some(((weekday, date), end)) => Some(
                (Expression::Function(Box::new(Function::WeekdayPredecessor { weekday, date })), end),
            ),
            None => None,
        },
        Token::Nw => match arguments_at(ts, next) {
            Some(((low, high), end)) => Some(
                (Expression::Function(Box::new(Function::NumberOfWeeks { low, high })), end),
            ),
            None => None,
        },
        _ => None,
    }
}

/// Parses one expression in parentheses from `pos` on.
fn argument_at(ts: &Vec<Token>, pos: usize) -> (r: Option<(Expression, usize)>)
    requires
        pos <= ts@.len(),
    ensures
        parse_argument(ts@.skip(pos as int)) == behind(ts@, r),
        r matches Some((_, end)) ==> pos < end <= ts@.len(),
    decreases ts@.len() - pos, 0nat,
{
    let ghost rest = ts@.skip(pos as int);
    if !opens_at(ts, pos) {
        return None;
    }
    assert(rest.skip(1) =~= ts@.skip(pos + 1));
    match expression_at(ts, pos + 1, OR_LEVEL) {
        Some((e, end)) => {
            if end < ts.len() && matches!(ts[end], Token::RightParen) {
                assert(ts@.skip(end as int).skip(1) =~= ts@.skip(end + 1));
                Some((e, end + 1))
            } else {
                None
            }
        },
        None => None,
    }
}

/// Parses two expressions in parentheses, with a comma between them, from `pos` on.
fn arguments_at(ts: &Vec<Token>, pos: usize) -> (r: Option<((Expression, Expression), usize)>)
    requires
        pos <= ts@.len(),
    ensures
        parse_arguments(ts@.skip(pos as int)) == behind(ts@, r),
        r matches Some((_, end)) ==> pos < end <= ts@.len(),
    decreases ts@.len() - pos, 0nat,
{
    let ghost rest = ts@.skip(pos as int);
    if !opens_at(ts, pos) {
        return None;
    }
    assert(rest.skip(1) =~= ts@.skip(pos + 1));
    let (first, comma) = match expression_at(ts, pos + 1, OR_LEVEL) {
        Some(found) => found,
        None => {
            return None;
        },
    };
    if !(comma < ts.len() && matches!(ts[comma], Token::Comma)) {
        return None;
    }
    assert(ts@.skip(comma as int).skip(1) =~= ts@.skip(comma + 1));
    match expression_at(ts, comma + 1, OR_LEVEL) {
        Some((second, end)) => {
            if end < ts.len() && matches!(ts[end], Token::RightParen) {
                assert(ts@.skip(end as int).skip(1) =~= ts@.skip(end + 1));
                Some(((first, second), end + 1))
            } else {
                None
            }
        },
        None => None,
    }
}

/// Parses the text of an expression. What comes out is an expression that the
/// grammar can make, so that its canonical text is parsed as the same expression.
pub fn parse_expression(text: &str) -> (r: Result<Expression, SyntaxError>)
    ensures
        r == expression_of(text@),
        r matches Ok(e) ==> grammatical(e),
{
    proof {
        law_parsed_is_grammatical(text@);
    }
    let ts = match tokenize(text) {
        Some(ts) => ts,
        None => {
            return Err(SyntaxError::UnknownToken);
        },
    };
    assert(ts@.skip(0) =~= ts@);
    match expression_at(&ts, 0, OR_LEVEL) {
        Some((e, end)) => if end == ts.len() {
            Ok(e)
        } else {
            Err(SyntaxError::UnexpectedToken)
        },
        None => Err(SyntaxError::UnexpectedToken),
    }
}

/// Parses the text of a predicate: of an expression that is a predicate at
/// its top.
pub fn parse_predicate(text: &str) -> (r: Result<Predicate, SyntaxError>)
    ensures
        r == predicate_of(text@),
        r matches Ok(p) ==> grammatical(Expression::Predicate(Box::new(p))),
{
    match parse_expression(text) {
        Ok(e) => match e.as_predicate() {
            Some(p) => Ok(p),
            None => Err(SyntaxError::NotAPredicate),
        },
        Err(e) => Err(e),
    }
}

/// The time of day at the start of a text, with the number of characters it
/// takes up: an hour below 24 and a minute below 60, each in digits, with a
/// colon between them.
pub open spec fn scan_time(s: Seq<char>) -> Option<(Time, nat)> {
    let h = digits_len(s);
    if h > 0 && s.len() > h && s[h as int] == ':' {
        let after = s.skip(h as int + 1);
        let m = digits_len(after);
        let hour = digits_value(s.take(h as int));
        let minute = digits_value(after.take(m as int));
        if m > 0 && hour <= u32::MAX && minute <= u32::MAX {
            match Time::from_hm(hour as u32, minute as u32) {
                Some(time) => Some((time, h + 1 + m)),
                None => None,
            }
        } else {
            None
        }
    } else {
        None
    }
}

/// The pair of times that a text stands for: a time of day, a hyphen and a
/// time of day, with nothing before, between or behind them.
pub open spec fn time_pair_of(text: Seq<char>) -> Result<TimePair, SyntaxError> {
    match scan_time(text) {
        Some((start, n)) => if text.len() > n && text[n as int] == '-' {
            let rest = text.skip(n as int + 1);
            match scan_time(rest) {
                Some((end, m)) => if m == rest.len() {
                    Ok(TimePair(start, end))
                } else {
                    Err(SyntaxError::NotATimePair)
                },
                None => Err(SyntaxError::NotATimePair),
            }
        } else {
            Err(SyntaxError::NotATimePair)
        },
        None => Err(SyntaxError::NotATimePair),
    }
}

/// Parses a time of day from `pos` on.
fn time_at(chars: &Vec<char>, pos: usize) -> (r: Option<(Time, usize)>)
    requires
        pos <= chars@.len(),
    ensures
        match scan_time(chars@.skip(pos as int)) {
            Some((time, n)) => pos + n <= chars@.len() && r == Some((time, (pos + n) as usize)),
            None => r is None,
        },
{
    let ghost s = chars@.skip(pos as int);
    let colon = digits_end(chars, pos);
    if colon == pos || colon >= chars.len() || chars[colon] != ':' {
        return None;
    }
    let ghost after = s.skip(colon - pos + 1);
    assert(after =~= chars@.skip(colon + 1));
    let end = digits_end(chars, colon + 1);
    assert(s.take(colon - pos) =~= chars@.subrange(pos as int, colon as int));
    assert(after.take(end - colon - 1) =~= chars@.subrange(colon + 1, end as int));
    if end == colon + 1 {
        return None;
    }
    let hour = match number_at(chars, pos, colon) {
        Some(hour) => hour,
        None => {
            return None;
        },
    };
    let minute = match number_at(chars, colon + 1, end) {
        Some(minute) => minute,
        None => {
            return None;
        },
    };
    match Time::from_hm(hour, minute) {
        Some(time) => Some((time, end)),
        None => None,
    }
}

/// Parses the text of a pair of times.
pub fn parse_time_pair(text: &str) -> (r: Result<TimePair, SyntaxError>)
    ensures
        r == time_pair_of(text@),
{
    let chars = chars_of(text);
    assert(chars@.skip(0) =~= chars@);
    let (start, hyphen) = match time_at(&chars, 0) {
        Some(found) => found,
        None => {
            return Err(SyntaxError::NotATimePair);
        },
    };
    if hyphen >= chars.len() || chars[hyphen] != '-' {
        return Err(SyntaxError::NotATimePair);
    }
    match time_at(&chars, hyphen + 1) {
        Some((end, stop)) => if stop == chars.len() {
            Ok(TimePair(start, end))
        } else {
            Err(SyntaxError::NotATimePair)
        },
        None => Err(SyntaxError::NotATimePair),
    }
}

} // verus!
