//! The syntax tree of the query language and what each node evaluates to.

use super::{Context, Evaluate};
use crate::calendar::{Date, Month, Weekday};
use vstd::prelude::*;

verus! {

/// The types that a resolved value or a placeholder can have.
#[derive(Debug, Clone, Copy, PartialEq, Eq, Structural)]
pub enum Type {
    Number,
    Placeholder,
    Weekday,
    Month,
    Date,
}

/// Why an evaluation failed.
#[derive(Debug, Clone, Copy, PartialEq, Eq, Structural)]
pub enum TypeError {
    /// An operand resolved to a value that the operator does not take.
    Mismatch,
}

/// What an evaluation yields: a value, or the reason why there is none.
pub type TypeResult<T> = Result<T, TypeError>;

/// A property of the date under test that a placeholder stands for.
#[derive(Debug, Clone, Copy, PartialEq, Eq, Structural)]
pub enum PlaceholderUnit {
    Weekday,
    Monthday,
    Month,
    Year,
    Date,
}

/// An expression: a value, a placeholder, or an operation on expressions.
#[derive(Debug, PartialEq, Eq)]
pub enum Expression {
    Boolean(bool),
    Number(u32),
    Placeholder(PlaceholderUnit),
    Weekday(Weekday),
    Month(Month),
    Date(Date),
    Predicate(Box<Predicate>),
    Arithmetic(Box<Arithmetic>),
    Function(Box<Function>),
}

/// An operation that yields a boolean.
#[derive(Debug, PartialEq, Eq)]
pub enum Predicate {
    Equality(Expression, Expression),
    And(Expression, Expression),
    Or(Expression, Expression),
    Not(Expression),
    Comparison { greater_than: bool, or_equal: bool, left: Expression, right: Expression },
}

/// An operation on dates and numbers.
#[derive(Debug, PartialEq, Eq)]
pub enum Arithmetic {
    Addition(Expression, Expression),
    Modulo(Expression, Expression),
}

/// A named function of dates.
#[derive(Debug, PartialEq, Eq)]
pub enum Function {
    Monthday(Expression),
    Weekday(Expression),
    WeekdayPredecessor { weekday: Expression, date: Expression },
    NumberOfWeeks { low: Expression, high: Expression },
}

/// The results of two operands taken together; if both failed, the left error.
pub open spec fn both(
    left: TypeResult<Expression>,
    right: TypeResult<Expression>,
) -> TypeResult<(Expression, Expression)> {
    match left {
        Err(e) => Err(e),
        Ok(l) => match right {
            Err(e) => Err(e),
            Ok(r) => Ok((l, r)),
        },
    }
}

/// Conjunction, of two booleans only.
pub open spec fn conjunction(left: Expression, right: Expression) -> TypeResult<bool> {
    match (left, right) {
        (Expression::Boolean(l), Expression::Boolean(r)) => Ok(l && r),
        _ => Err(TypeError::Mismatch),
    }
}

/// Disjunction, of two booleans only.
pub open spec fn disjunction(left: Expression, right: Expression) -> TypeResult<bool> {
    match (left, right) {
        (Expression::Boolean(l), Expression::Boolean(r)) => Ok(l || r),
        _ => Err(TypeError::Mismatch),
    }
}

/// Negation, of a boolean only.
pub open spec fn negation(operand: Expression) -> TypeResult<bool> {
    match operand {
        Expression::Boolean(b) => Ok(!b),
        _ => Err(TypeError::Mismatch),
    }
}

/// Whether `left` lies strictly on the asked side of `right`, or, where
/// `or_equal` is set, equals it.
pub open spec fn in_order(greater_than: bool, or_equal: bool, left: int, right: int) -> bool {
    (if greater_than {
        left > right
    } else {
        left < right
    }) || (or_equal && left == right)
}

/// Order comparison, of two numbers or of two dates only. Dates are ordered
/// by their place in time.
pub open spec fn comparison(
    greater_than: bool,
    or_equal: bool,
    left: Expression,
    right: Expression,
) -> TypeResult<bool> {
    match (left, right) {
        (Expression::Number(l), Expression::Number(r)) => Ok(
            in_order(greater_than, or_equal, l as int, r as int),
        ),
        (Expression::Date(l), Expression::Date(r)) => Ok(
            in_order(greater_than, or_equal, l.day_number(), r.day_number()),
        ),
        _ => Err(TypeError::Mismatch),
    }
}

/// A date moved by a number of days; a mismatch where the calendar does not
/// reach that far.
pub open spec fn shifted(date: Date, days: int) -> TypeResult<Expression> {
    match date.plus_days(days) {
        Some(d) => Ok(Expression::Date(d)),
        None => Err(TypeError::Mismatch),
    }
}

/// Addition, of a date and a number of days in either order.
pub open spec fn sum(left: Expression, right: Expression) -> TypeResult<Expression> {
    match (left, right) {
        (Expression::Date(date), Expression::Number(days)) => shifted(date, days as int),
        (Expression::Number(days), Expression::Date(date)) => shifted(date, days as int),
        _ => Err(TypeError::Mismatch),
    }
}

/// The remainder of a division of two numbers; a mismatch where the divisor is zero.
pub open spec fn remainder(left: Expression, right: Expression) -> TypeResult<Expression> {
    match (left, right) {
        (Expression::Number(l), Expression::Number(r)) => if r == 0 {
            Err(TypeError::Mismatch)
        } else {
            Ok(Expression::Number((l % r) as u32))
        },
        _ => Err(TypeError::Mismatch),
    }
}

/// The day of the month, of a date only.
pub open spec fn monthday(operand: Expression) -> TypeResult<Expression> {
    match operand {
        Expression::Date(d) => Ok(Expression::Number(d.day())),
        _ => Err(TypeError::Mismatch),
    }
}

/// The day of the week, of a date only.
pub open spec fn weekday(operand: Expression) -> TypeResult<Expression> {
    match operand {
        Expression::Date(d) => Ok(Expression::Weekday(d.weekday())),
        _ => Err(TypeError::Mismatch),
    }
}

/// The number of days by which the weekday predecessor moves its date: back by
/// the days since Sunday of the day under test and by six more, then forward by
/// the days since Monday of the asked weekday.
pub open spec fn predecessor_offset(today: Weekday, asked: Weekday) -> int {
    asked.index() - (today.index() + 1) % 7 - 6
}

/// The weekday predecessor, of a weekday and a date only. The week is anchored
/// on the weekday of the date under test, not on that of the operand.
pub open spec fn weekday_predecessor(
    context: &Context,
    weekday: Expression,
    date: Expression,
) -> TypeResult<Expression> {
    match (weekday, date) {
        (Expression::Weekday(wd), Expression::Date(d)) => shifted(
            d,
            predecessor_offset(context.date.weekday(), wd),
        ),
        _ => Err(TypeError::Mismatch),
    }
}

/// The number of whole weeks between two dates, in either order.
pub open spec fn number_of_weeks(low: Expression, high: Expression) -> TypeResult<Expression> {
    match (low, high) {
        (Expression::Date(l), Expression::Date(h)) => Ok(
            Expression::Number(l.weeks_between(&h) as u32),
        ),
        _ => Err(TypeError::Mismatch),
    }
}

impl Expression {
    /// Whether the expression is a resolved value: a boolean, a number, a
    /// weekday, a month or a date.
    pub open spec fn is_value(&self) -> bool {
        match self {
            Expression::Boolean(_) => true,
            Expression::Number(_) => true,
            Expression::Weekday(_) => true,
            Expression::Month(_) => true,
            Expression::Date(_) => true,
            _ => false,
        }
    }

    /// The predicate that the expression consists of, if it is one.
    pub fn as_predicate(self) -> (r: Option<Predicate>)
        ensures
            r == (match self {
                Expression::Predicate(p) => Some(*p),
                _ => None,
            }),
    {
        match self {
            Expression::Predicate(p) => Some(*p),
            _ => None,
        }
    }

    /// Whether two resolved values are the same value of the same type.
    fn same_value(&self, other: &Expression) -> (r: bool)
        requires
            self.is_value(),
            other.is_value(),
        ensures
            r == (*self == *other),
    {
        match (self, other) {
            (Expression::Boolean(l), Expression::Boolean(r)) => *l == *r,
            (Expression::Number(l), Expression::Number(r)) => *l == *r,
            (Expression::Weekday(l), Expression::Weekday(r)) => *l == *r,
            (Expression::Month(l), Expression::Month(r)) => *l == *r,
            (Expression::Date(l), Expression::Date(r)) => *l == *r,
            _ => false,
        }
    }
}

impl Evaluate<TypeResult<Expression>> for Expression {
    open spec fn evaluation(&self, context: &Context) -> TypeResult<Expression>
        decreases self,
    {
        match self {
            Expression::Placeholder(unit) => Ok(context.resolution(*unit)),
            Expression::Predicate(p) => match p.evaluation(context) {
                Ok(b) => Ok(Expression::Boolean(b)),
                Err(e) => Err(e),
            },
            Expression::Arithmetic(a) => a.evaluation(context),
            Expression::Function(f) => f.evaluation(context),
            _ => Ok(*self),
        }
    }

    fn evaluate(&self, context: &Context) -> (r: TypeResult<Expression>)
        ensures
            r matches Ok(v) ==> v.is_value(),
        decreases self,
    {
        match self {
            Expression::Boolean(b) => Ok(Expression::Boolean(*b)),
            Expression::Number(n) => Ok(Expression::Number(*n)),
            Expression::Weekday(wd) => Ok(Expression::Weekday(*wd)),
            Expression::Month(m) => Ok(Expression::Month(*m)),
            Expression::Date(d) => Ok(Expression::Date(*d)),
            Expression::Placeholder(unit) => Ok(context.resolve(*unit)),
            Expression::Predicate(p) => match p.evaluate(context) {
                Ok(b) => Ok(Expression::Boolean(b)),
                Err(e) => Err(e),
            },
            Expression::Arithmetic(a) => a.evaluate(context),
            Expression::Function(f) => f.evaluate(context),
        }
    }
}

impl Evaluate<TypeResult<bool>> for Predicate {
    open spec fn evaluation(&self, context: &Context) -> TypeResult<bool>
        decreases self,
    {
        match self {
            Predicate::Equality(l, r) => match both(l.evaluation(context), r.evaluation(context)) {
                Ok((l, r)) => Ok(l == r),
                Err(e) => Err(e),
            },
            Predicate::And(l, r) => match both(l.evaluation(context), r.evaluation(context)) {
                Ok((l, r)) => conjunction(l, r),
                Err(e) => Err(e),
            },
            Predicate::Or(l, r) => match both(l.evaluation(context), r.evaluation(context)) {
                Ok((l, r)) => disjunction(l, r),
                Err(e) => Err(e),
            },
            Predicate::Not(e) => match e.evaluation(context) {
                Ok(v) => negation(v),
                Err(e) => Err(e),
            },
            Predicate::Comparison { greater_than, or_equal, left, right } => match both(
                left.evaluation(context),
                right.evaluation(context),
            ) {
                Ok((l, r)) => comparison(*greater_than, *or_equal, l, r),
                Err(e) => Err(e),
            },
        }
    }

    fn evaluate(&self, context: &Context) -> (r: TypeResult<bool>)
        decreases self,
    {
        match self {
            Predicate::Equality(l, r) => {
                let l = match l.evaluate(context) {
                    Ok(v) => v,
                    Err(e) => return Err(e),
                };
                let r = match r.evaluate(context) {
                    Ok(v) => v,
                    Err(e) => return Err(e),
                };
                Ok(l.same_value(&r))
            },
            Predicate::And(l, r) => {
                let l = match l.evaluate(context) {
                    Ok(v) => v,
                    Err(e) => return Err(e),
                };
                let r = match r.evaluate(context) {
                    Ok(v) => v,
                    Err(e) => return Err(e),
                };
                match (l, r) {
                    (Expression::Boolean(l), Expression::Boolean(r)) => Ok(l && r),
                    _ => Err(TypeError::Mismatch),
                }
            },
            Predicate::Or(l, r) => {
                let l = match l.evaluate(context) {
                    Ok(v) => v,
                    Err(e) => return Err(e),
                };
                let r = match r.evaluate(context) {
                    Ok(v) => v,
                    Err(e) => return Err(e),
                };
                match (l, r) {
                    (Expression::Boolean(l), Expression::Boolean(r)) => Ok(l || r),
                    _ => Err(TypeError::Mismatch),
                }
            },
            Predicate::Not(e) => {
                let e = match e.evaluate(context) {
                    Ok(v) => v,
                    Err(e) => return Err(e),
                };
                match e {
                    Expression::Boolean(e) => Ok(!e),
                    _ => Err(TypeError::Mismatch),
                }
            },
            Predicate::Comparison { greater_than, or_equal, left, right } => {
                let left = match left.evaluate(context) {
                    Ok(v) => v,
                    Err(e) => return Err(e),
                };
                let right = match right.evaluate(context) {
                    Ok(v) => v,
                    Err(e) => return Err(e),
                };
                match (left, right) {
                    (Expression::Number(l), Expression::Number(r)) => {
                        let c = if *greater_than {
                            l > r
                        } else {
                            l < r
                        };
                        Ok(c || (*or_equal && l == r))
                    },
                    (Expression::Date(l), Expression::Date(r)) => {
                        let c = if *greater_than {
                            r.is_before(&l)
                        } else {
                            l.is_before(&r)
                        };
                        proof {
                            use_type_invariant(&l);
                            use_type_invariant(&r);
                            if l.day_number() == r.day_number() {
                                Date::lemma_same_day_number(l, r);
                            }
                        }
                        Ok(c || (*or_equal && l == r))
                    },
                    _ => Err(TypeError::Mismatch),
                }
            },
        }
    }
}

impl Evaluate<TypeResult<Expression>> for Arithmetic {
    open spec fn evaluation(&self, context: &Context) -> TypeResult<Expression>
        decreases self,
    {
        match self {
            Arithmetic::Addition(l, r) => match both(l.evaluation(context), r.evaluation(context)) {
                Ok((l, r)) => sum(l, r),
                Err(e) => Err(e),
            },
            Arithmetic::Modulo(l, r) => match both(l.evaluation(context), r.evaluation(context)) {
                Ok((l, r)) => remainder(l, r),
                Err(e) => Err(e),
            },
        }
    }

    fn evaluate(&self, context: &Context) -> (r: TypeResult<Expression>)
        ensures
            r matches Ok(v) ==> v.is_value(),
        decreases self,
    {
        match self {
            Arithmetic::Addition(l, r) => {
                let l = match l.evaluate(context) {
                    Ok(v) => v,
                    Err(e) => return Err(e),
                };
                let r = match r.evaluate(context) {
                    Ok(v) => v,
                    Err(e) => return Err(e),
                };
                match (l, r) {
                    (Expression::Date(date), Expression::Number(days)) => shift(&date, days as i64),
                    (Expression::Number(days), Expression::Date(date)) => shift(&date, days as i64),
                    _ => Err(TypeError::Mismatch),
                }
            },
            Arithmetic::Modulo(l, r) => {
                let l = match l.evaluate(context) {
                    Ok(v) => v,
                    Err(e) => return Err(e),
                };
                let r = match r.evaluate(context) {
                    Ok(v) => v,
                    Err(e) => return Err(e),
                };
                match (l, r) {
                    (Expression::Number(l), Expression::Number(r)) => if r == 0 {
                        Err(TypeError::Mismatch)
                    } else {
                        Ok(Expression::Number(l % r))
                    },
                    _ => Err(TypeError::Mismatch),
                }
            },
        }
    }
}

impl Evaluate<TypeResult<Expression>> for Function {
    open spec fn evaluation(&self, context: &Context) -> TypeResult<Expression>
        decreases self,
    {
        match self {
            Function::Monthday(e) => match e.evaluation(context) {
                Ok(v) => monthday(v),
                Err(e) => Err(e),
            },
            Function::Weekday(e) => match e.evaluation(context) {
                Ok(v) => weekday(v),
                Err(e) => Err(e),
            },
            Function::WeekdayPredecessor { weekday, date } => match both(
                weekday.evaluation(context),
                date.evaluation(context),
            ) {
                Ok((wd, d)) => weekday_predecessor(context, wd, d),
                Err(e) => Err(e),
            },
            Function::NumberOfWeeks { low, high } => match both(
                low.evaluation(context),
                high.evaluation(context),
            ) {
                Ok((l, h)) => number_of_weeks(l, h),
                Err(e) => Err(e),
            },
        }
    }

    fn evaluate(&self, context: &Context) -> (r: TypeResult<Expression>)
        ensures
            r matches Ok(v) ==> v.is_value(),
        decreases self,
    {
        match self {
            Function::Monthday(e) => match e.evaluate(context) {
                Ok(Expression::Date(d)) => Ok(Expression::Number(d.day())),
                Ok(_) => Err(TypeError::Mismatch),
                Err(e) => Err(e),
            },
            Function::Weekday(e) => match e.evaluate(context) {
                Ok(Expression::Date(d)) => Ok(Expression::Weekday(d.weekday())),
                Ok(_) => Err(TypeError::Mismatch),
                Err(e) => Err(e),
            },
            Function::WeekdayPredecessor { weekday, date } => {
                let weekday = match weekday.evaluate(context) {
                    Ok(v) => v,
                    Err(e) => return Err(e),
                };
                let date = match date.evaluate(context) {
                    Ok(v) => v,
                    Err(e) => return Err(e),
                };
                match (weekday, date) {
                    (Expression::Weekday(wd), Expression::Date(date)) => {
                        let back: i64 = context.date.weekday().days_since_sunday() as i64;
                        let forth: i64 = wd.days_since_monday() as i64;
                        shift(&date, forth - back - 6)
                    },
                    _ => Err(TypeError::Mismatch),
                }
            },
            Function::NumberOfWeeks { low, high } => {
                let low = match low.evaluate(context) {
                    Ok(v) => v,
                    Err(e) => return Err(e),
                };
                let high = match high.evaluate(context) {
                    Ok(v) => v,
                    Err(e) => return Err(e),
                };
                match (low, high) {
                    (Expression::Date(low), Expression::Date(high)) => Ok(
                        Expression::Number(low.whole_weeks_between(&high)),
                    ),
                    _ => Err(TypeError::Mismatch),
                }
            },
        }
    }
}

/// Moves a date by a number of days.
fn shift(date: &Date, days: i64) -> (r: TypeResult<Expression>)
    ensures
        r == shifted(*date, days as int),
{
    match date.checked_add_days(days) {
        Some(d) => Ok(Expression::Date(d)),
        None => Err(TypeError::Mismatch),
    }
}

impl Expression {
    fn copy(&self) -> (r: Expression)
        ensures
            r == *self,
        decreases self,
    {
        match self {
            Expression::Boolean(b) => Expression::Boolean(*b),
            Expression::Number(n) => Expression::Number(*n),
            Expression::Placeholder(unit) => Expression::Placeholder(*unit),
            Expression::Weekday(wd) => Expression::Weekday(*wd),
            Expression::Month(m) => Expression::Month(*m),
            Expression::Date(d) => Expression::Date(*d),
            Expression::Predicate(p) => Expression::Predicate(Box::new(p.copy())),
            Expression::Arithmetic(a) => Expression::Arithmetic(Box::new(a.copy())),
            Expression::Function(f) => Expression::Function(Box::new(f.copy())),
        }
    }
}

impl Predicate {
    fn copy(&self) -> (r: Predicate)
        ensures
            r == *self,
        decreases self,
    {
        match self {
            Predicate::Equality(l, r) => Predicate::Equality(l.copy(), r.copy()),
            Predicate::And(l, r) => Predicate::And(l.copy(), r.copy()),
            Predicate::Or(l, r) => Predicate::Or(l.copy(), r.copy()),
            Predicate::Not(e) => Predicate::Not(e.copy()),
            Predicate::Comparison { greater_than, or_equal, left, right } => Predicate::Comparison {
                greater_than: *greater_than,
                or_equal: *or_equal,
                left: left.copy(),
                right: right.copy(),
            },
        }
    }
}

impl Arithmetic {
    fn copy(&self) -> (r: Arithmetic)
        ensures
            r == *self,
        decreases self,
    {
        match self {
            Arithmetic::Addition(l, r) => Arithmetic::Addition(l.copy(), r.copy()),
            Arithmetic::Modulo(l, r) => Arithmetic::Modulo(l.copy(), r.copy()),
        }
    }
}

impl Function {
    fn copy(&self) -> (r: Function)
        ensures
            r == *self,
        decreases self,
    {
        match self {
            Function::Monthday(e) => Function::Monthday(e.copy()),
            Function::Weekday(e) => Function::Weekday(e.copy()),
            Function::WeekdayPredecessor { weekday, date } => Function::WeekdayPredecessor {
                weekday: weekday.copy(),
                date: date.copy(),
            },
            Function::NumberOfWeeks { low, high } => Function::NumberOfWeeks {
                low: low.copy(),
                high: high.copy(),
            },
        }
    }
}

impl Clone for Expression {
    fn clone(&self) -> (r: Expression)
        ensures
            r == *self,
    {
        self.copy()
    }
}

impl Clone for Predicate {
    fn clone(&self) -> (r: Predicate)
        ensures
            r == *self,
    {
        self.copy()
    }
}

impl Clone for Arithmetic {
    fn clone(&self) -> (r: Arithmetic)
        ensures
            r == *self,
    {
        self.copy()
    }
}

impl Clone for Function {
    fn clone(&self) -> (r: Function)
        ensures
            r == *self,
    {
        self.copy()
    }
}

} // verus!
