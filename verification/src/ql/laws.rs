//! What holds of every evaluation.

use super::ast::{number_of_weeks, predecessor_offset, shifted, sum, weekday_predecessor};
use super::{
    Arithmetic, Context, Evaluate, Expression, Function, PlaceholderUnit, Predicate, TypeError,
};
use crate::calendar::{Date, Weekday};
use vstd::prelude::*;

verus! {

/// Evaluation ends in a resolved value: what an expression evaluates to is a
/// boolean, a number, a weekday, a month or a date, never a node that is still
/// to be evaluated.
pub proof fn law_evaluation_is_resolved(expression: Expression, context: Context)
    ensures
        expression.evaluation(&context) matches Ok(v) ==> v.is_value(),
{
    match expression {
        Expression::Arithmetic(a) => {
            match *a {
                Arithmetic::Addition(l, r) => {},
                Arithmetic::Modulo(l, r) => {},
            }
        },
        Expression::Function(f) => {
            match *f {
                Function::Monthday(e) => {},
                Function::Weekday(e) => {},
                Function::WeekdayPredecessor { weekday, date } => {},
                Function::NumberOfWeeks { low, high } => {},
            }
        },
        _ => {},
    }
}

/// A resolved value evaluates to itself, under every context.
pub proof fn law_value_is_fixed(value: Expression, context: Context)
    requires
        value.is_value(),
    ensures
        value.evaluation(&context) == Ok::<Expression, TypeError>(value),
{
}

/// The date placeholder resolves to the date under test.
pub proof fn law_date_placeholder(context: Context)
    ensures
        Expression::Placeholder(PlaceholderUnit::Date).evaluation(&context) == Ok::<
            Expression,
            TypeError,
        >(Expression::Date(context.date)),
{
}

/// Equality compares resolved values as they are: two values of different
/// types are unequal, and that is no error.
pub proof fn law_equality_is_structural(left: Expression, right: Expression, context: Context)
    requires
        left.is_value(),
        right.is_value(),
    ensures
        Predicate::Equality(left, right).evaluation(&context) == Ok::<bool, TypeError>(
            left == right,
        ),
        left is Number && right is Weekday ==> Predicate::Equality(left, right).evaluation(&context)
            == Ok::<bool, TypeError>(false),
{
}

/// A number and a date cannot be compared for order, whichever comes first and
/// whichever comparison is asked for.
pub proof fn law_comparison_type_guard(
    greater_than: bool,
    or_equal: bool,
    number: u32,
    date: Date,
    context: Context,
)
    ensures
        (Predicate::Comparison {
            greater_than,
            or_equal,
            left: Expression::Number(number),
            right: Expression::Date(date),
        }).evaluation(&context) == Err::<bool, TypeError>(TypeError::Mismatch),
        (Predicate::Comparison {
            greater_than,
            or_equal,
            left: Expression::Date(date),
            right: Expression::Number(number),
        }).evaluation(&context) == Err::<bool, TypeError>(TypeError::Mismatch),
{
}

/// Addition does not depend on the order of its operands.
pub proof fn law_addition_commutes(left: Expression, right: Expression, context: Context)
    ensures
        Arithmetic::Addition(left, right).evaluation(&context) == Arithmetic::Addition(
            right,
            left,
        ).evaluation(&context),
{
    let l = left.evaluation(&context);
    let r = right.evaluation(&context);
    if l is Ok && r is Ok {
        assert(sum(l->Ok_0, r->Ok_0) == sum(r->Ok_0, l->Ok_0));
    }
}

/// A date plus a number of days, in either order, is the date that many days later.
pub proof fn law_addition_shifts(date: Date, days: u32, context: Context)
    ensures
        Arithmetic::Addition(Expression::Date(date), Expression::Number(days)).evaluation(&context)
            == shifted(date, days as int),
        Arithmetic::Addition(Expression::Number(days), Expression::Date(date)).evaluation(&context)
            == shifted(date, days as int),
        date.plus_days(days as int) matches Some(later) ==> later.day_number() == date.day_number()
            + days,
{
}

/// The number of weeks between two dates does not depend on their order.
pub proof fn law_number_of_weeks_symmetric(low: Expression, high: Expression, context: Context)
    ensures
        (Function::NumberOfWeeks { low, high }).evaluation(&context) == (Function::NumberOfWeeks {
            low: high,
            high: low,
        }).evaluation(&context),
{
    let l = low.evaluation(&context);
    let h = high.evaluation(&context);
    if l is Ok && h is Ok {
        assert(number_of_weeks(l->Ok_0, h->Ok_0) == number_of_weeks(h->Ok_0, l->Ok_0));
    }
}

/// What the weekday predecessor of a date is: a date on or before it, at most
/// twelve days back. It depends on the weekday of the date under test; where
/// the date it is asked of falls on that same weekday, it falls on the asked
/// weekday, in the week before that of the date.
pub proof fn law_weekday_predecessor(asked: Weekday, date: Date, context: Context)
    requires
        date.wf(),
    ensures
        weekday_predecessor(&context, Expression::Weekday(asked), Expression::Date(date)) == shifted(
            date,
            predecessor_offset(context.date.weekday(), asked),
        ),
        -12 <= predecessor_offset(context.date.weekday(), asked) <= 0,
        shifted(date, predecessor_offset(context.date.weekday(), asked)) matches Ok(
            Expression::Date(found),
        ) ==> {
            &&& date.day_number() - found.day_number() == -predecessor_offset(
                context.date.weekday(),
                asked,
            )
            &&& context.date.weekday() == date.weekday() ==> found.weekday() == asked
        },
{
}

} // verus!
