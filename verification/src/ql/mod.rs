//! The query language: its syntax tree, its evaluation and its text form.

use crate::calendar::{Date, Month};
use vstd::prelude::*;

pub mod ast;
pub mod grammar;
pub mod laws;
pub mod lexer;
pub mod roundtrip;
pub mod text;

pub use ast::{
    Arithmetic, Expression, Function, PlaceholderUnit, Predicate, Type, TypeError, TypeResult,
};

verus! {

/// What an expression is evaluated against: the date under test.
#[derive(Debug, Clone, Copy, PartialEq, Eq)]
pub struct Context {
    pub date: Date,
}

/// The number of a year within its era: the year itself from year 1 on, and
/// 1 for year 0, 2 for the year before, and so on.
pub open spec fn year_of_era(year: int) -> int {
    if year < 1 {
        1 - year
    } else {
        year
    }
}

impl Context {
    /// The value that a placeholder stands for under this context.
    pub open spec fn resolution(&self, unit: PlaceholderUnit) -> Expression {
        match unit {
            PlaceholderUnit::Weekday => Expression::Weekday(self.date.weekday()),
            PlaceholderUnit::Monthday => Expression::Number(self.date.day()),
            PlaceholderUnit::Month => Expression::Month(Month::from_number(self.date.month() as int)),
            PlaceholderUnit::Year => Expression::Number(year_of_era(self.date.year() as int) as u32),
            PlaceholderUnit::Date => Expression::Date(self.date),
        }
    }

    /// Resolves a placeholder against the date of this context.
    pub fn resolve(&self, unit: PlaceholderUnit) -> (r: Expression)
        ensures
            r == self.resolution(unit),
            r.is_value(),
    {
        match unit {
            PlaceholderUnit::Weekday => Expression::Weekday(self.date.weekday()),
            PlaceholderUnit::Monthday => Expression::Number(self.date.day()),
            PlaceholderUnit::Month => {
                match Month::from_u32(self.date.month()) {
                    Some(month) => Expression::Month(month),
                    None => Expression::Month(Month::December),
                }
            },
            PlaceholderUnit::Year => {
                let year = self.date.year();
                proof {
                    use_type_invariant(&self.date);
                }
                if year < 1 {
                    Expression::Number((1 - year) as u32)
                } else {
                    Expression::Number(year as u32)
                }
            },
            PlaceholderUnit::Date => Expression::Date(self.date),
        }
    }
}

/// A node that can be evaluated against a [`Context`].
pub trait Evaluate<T> {
    /// What evaluation yields, as a function of the node and the context.
    spec fn evaluation(&self, context: &Context) -> T;

    /// Evaluates the node against the context.
    fn evaluate(&self, context: &Context) -> (r: T)
        ensures
            r == self.evaluation(context),
    ;
}

} // verus!
