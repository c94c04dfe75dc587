//! A calendar whose events recur by rule.
//!
//! An event carries a predicate of a small query language, such as
//! `wd = tue & md(date) % 2 = 0`, and occurs on every date on which the
//! predicate holds. The crate holds the language (its tokens, its grammar, its
//! evaluation and its canonical text), the calendar arithmetic underneath it,
//! the schedule that asks it which events occur on a date, the form in which
//! events are stored, and the grid on which the widgets of the dashboard stand.
//!
//! What each function does is stated in its contract and proved. The laws
//! that hold across functions are proof functions of their own: see
//! [`ql::laws`], [`ql::roundtrip`] and [`configuration`].

pub mod calendar;
pub mod configuration;
pub mod digits;
pub mod ql;
pub mod schedule;
pub mod widget;
