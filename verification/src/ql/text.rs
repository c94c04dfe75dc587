//! The canonical text of each node: the text that the grammar reads back as
//! the node.

use super::{Arithmetic, Expression, Function, PlaceholderUnit, Predicate};
use crate::digits::{append_decimal, decimal};
use vstd::prelude::*;
use vstd::string::*;

verus! {

/// The sign of an order comparison, with a space on each side.
pub open spec fn comparison_sign(greater_than: bool, or_equal: bool) -> Seq<char> {
    if greater_than {
        if or_equal {
            " >= "@
        } else {
            " > "@
        }
    } else {
        if or_equal {
            " <= "@
        } else {
            " < "@
        }
    }
}

impl PlaceholderUnit {
    /// The word that stands for the placeholder.
    pub open spec fn text(self) -> Seq<char> {
        match self {
            PlaceholderUnit::Weekday => "wd"@,
            PlaceholderUnit::Monthday => "md"@,
            PlaceholderUnit::Month => "mo"@,
            PlaceholderUnit::Year => "y"@,
            PlaceholderUnit::Date => "date"@,
        }
    }

    /// The word that stands for the placeholder.
    pub fn name(&self) -> (r: &'static str)
        ensures
            r@ == self.text(),
    {
        match self {
            PlaceholderUnit::Weekday => "wd",
            PlaceholderUnit::Monthday => "md",
            PlaceholderUnit::Month => "mo",
            PlaceholderUnit::Year => "y",
            PlaceholderUnit::Date => "date",
        }
    }

    /// The canonical text of the placeholder.
    pub fn to_string(&self) -> (r: String)
        ensures
            r@ == self.text(),
    {
        String::from_str(self.name())
    }
}

impl Expression {
    /// The canonical text of the expression.
    pub open spec fn text(&self) -> Seq<char>
        decreases self,
    {
        match self {
            Expression::Boolean(b) => if *b {
                "true"@
            } else {
                "false"@
            },
            Expression::Number(n) => decimal(*n as nat),
            Expression::Placeholder(unit) => unit.text(),
            Expression::Weekday(wd) => wd.text(),
            Expression::Month(m) => m.text(),
            Expression::Date(d) => d.text(),
            Expression::Predicate(p) => p.text(),
            Expression::Arithmetic(a) => a.text(),
            Expression::Function(f) => f.text(),
        }
    }

    /// The canonical text of the expression.
    pub fn to_string(&self) -> (r: String)
        ensures
            r@ == self.text(),
        decreases self,
    {
        match self {
            Expression::Boolean(b) => if *b {
                String::from_str("true")
            } else {
                String::from_str("false")
            },
            Expression::Number(n) => {
                let mut out = String::new();
                append_decimal(&mut out, *n);
                assert(out@ =~= decimal(*n as nat));
                out
            },
            Expression::Placeholder(unit) => unit.to_string(),
            Expression::Weekday(wd) => String::from_str(wd.name()),
            Expression::Month(m) => String::from_str(m.name()),
            Expression::Date(d) => d.to_string(),
            Expression::Predicate(p) => p.to_string(),
            Expression::Arithmetic(a) => a.to_string(),
            Expression::Function(f) => f.to_string(),
        }
    }
}

/// The texts of two operands with the text of their operator between them.
fn between(left: String, sign: &str, right: String) -> (r: String)
    ensures
        r@ == left@ + sign@ + right@,
{
    let mut out = left;
    out.append(sign);
    out.append(right.as_str());
    out
}

impl Predicate {
    /// The canonical text of the predicate.
    pub open spec fn text(&self) -> Seq<char>
        decreases self,
    {
        match self {
            Predicate::Equality(l, r) => l.text() + " = "@ + r.text(),
            Predicate::And(l, r) => l.text() + " & "@ + r.text(),
            Predicate::Or(l, r) => l.text() + " | "@ + r.text(),
            Predicate::Not(e) => "!"@ + e.text(),
            Predicate::Comparison { greater_than, or_equal, left, right } => left.text()
                + comparison_sign(*greater_than, *or_equal) + right.text(),
        }
    }

    /// The canonical text of the predicate.
    pub fn to_string(&self) -> (r: String)
        ensures
            r@ == self.text(),
        decreases self,
    {
        match self {
            Predicate::Equality(l, r) => between(l.to_string(), " = ", r.to_string()),
            Predicate::And(l, r) => between(l.to_string(), " & ", r.to_string()),
            Predicate::Or(l, r) => between(l.to_string(), " | ", r.to_string()),
            Predicate::Not(e) => {
                let mut out = String::from_str("!");
                let operand = e.to_string();
                out.append(operand.as_str());
                out
            },
            Predicate::Comparison { greater_than, or_equal, left, right } => {
                let sign = if *greater_than {
                    if *or_equal {
                        " >= "
                    } else {
                        " > "
                    }
                } else {
                    if *or_equal {
                        " <= "
                    } else {
                        " < "
                    }
                };
                between(left.to_string(), sign, right.to_string())
            },
        }
    }
}

impl Arithmetic {
    /// The canonical text of the operation.
    pub open spec fn text(&self) -> Seq<char>
        decreases self,
    {
        match self {
            Arithmetic::Addition(l, r) => l.text() + " + "@ + r.text(),
            Arithmetic::Modulo(l, r) => l.text() + " % "@ + r.text(),
        }
    }

    /// The canonical text of the operation.
    pub fn to_string(&self) -> (r: String)
        ensures
            r@ == self.text(),
        decreases self,
    {
        match self {
            Arithmetic::Addition(l, r) => between(l.to_string(), " + ", r.to_string()),
            Arithmetic::Modulo(l, r) => between(l.to_string(), " % ", r.to_string()),
        }
    }
}

/// The text of a call with one argument.
fn call(name: &str, argument: String) -> (r: String)
    ensures
        r@ == name@ + "("@ + argument@ + ")"@,
{
    let mut out = String::from_str(name);
    out.append("(");
    out.append(argument.as_str());
    out.append(")");
    out
}

/// The text of a call with two arguments.
fn call_with_two(name: &str, first: String, second: String) -> (r: String)
    ensures
        r@ == name@ + "("@ + first@ + ", "@ + second@ + ")"@,
{
    let mut out = String::from_str(name);
    out.append("(");
    out.append(first.as_str());
    out.append(", ");
    out.append(second.as_str());
    out.append(")");
    out
}

impl Function {
    /// The canonical text of the call.
    pub open spec fn text(&self) -> Seq<char>
        decreases self,
    {
        match self {
            Function::Monthday(e) => "md"@ + "("@ + e.text() + ")"@,
            Function::Weekday(e) => "wd"@ + "("@ + e.text() + ")"@,
            Function::WeekdayPredecessor { weekday, date } => "wdp"@ + "("@ + weekday.text() + ", "@
                + date.text() + ")"@,
            Function::NumberOfWeeks { low, high } => "nw"@ + "("@ + low.text() + ", "@ + high.text()
                + ")"@,
        }
    }

    /// The canonical text of the call.
    pub fn to_string(&self) -> (r: String)
        ensures
            r@ == self.text(),
        decreases self,
    {
        match self {
            Function::Monthday(e) => call("md", e.to_string()),
            Function::Weekday(e) => call("wd", e.to_string()),
            Function::WeekdayPredecessor { weekday, date } => call_with_two("wdp", weekday.to_string(), date.to_string()),
            Function::NumberOfWeeks { low, high } => call_with_two("nw", low.to_string(), high.to_string()),
        }
    }
}

} // verus!
