//! The form with which an event is scheduled or edited, and what becomes of it.

use super::Event;
use crate::ql::grammar::{
    parse_predicate, parse_time_pair, predicate_of, time_pair_of, SyntaxError,
};
use crate::ql::Predicate;
use vstd::prelude::*;
use vstd::string::*;

verus! {

/// What was typed into the fields of the form.
#[derive(Debug, PartialEq, Eq)]
pub struct EventForm {
    pub title: String,
    pub description: String,
    pub predicate: String,
    pub time_pair: String,
}

/// The fields of the form that were refused.
#[derive(Debug, Clone, Copy, PartialEq, Eq, Structural)]
pub struct FormErrors {
    pub title: bool,
    pub predicate: bool,
    pub time_pair: bool,
}

/// The predicate that the predicate field stands for. An empty field stands
/// for the default predicate, where the form has one.
pub open spec fn field_predicate(text: Seq<char>, default: Option<Predicate>) -> Result<
    Predicate,
    SyntaxError,
> {
    match default {
        Some(predicate) => if text.len() == 0 {
            Ok(predicate)
        } else {
            predicate_of(text)
        },
        None => predicate_of(text),
    }
}

/// What becomes of a form: the event it describes, or the fields that were
/// refused. The texts of the predicate and of the times are looked at first, and
/// only if both are accepted the title, which must not be empty.
pub open spec fn outcome(form: EventForm, default: Option<Predicate>) -> Result<Event, FormErrors> {
    match (field_predicate(form.predicate@, default), time_pair_of(form.time_pair@)) {
        (Ok(predicate), Ok(time_pair)) => if form.title@.len() == 0 {
            Err(FormErrors { title: true, predicate: false, time_pair: false })
        } else {
            Ok(
                Event {
                    title: form.title,
                    description: form.description,
                    predicate,
                    time_pair,
                },
            )
        },
        (predicate, time_pair) => Err(
            FormErrors { title: false, predicate: predicate is Err, time_pair: time_pair is Err },
        ),
    }
}

impl EventForm {
    /// Reads the form: gives the event it describes, or the fields that were refused.
    pub fn read(self, default: Option<Predicate>) -> (r: Result<Event, FormErrors>)
        ensures
            r == outcome(self, default),
    {
        let predicate = match default {
            Some(predicate) => if self.predicate.as_str().unicode_len() == 0 {
                Ok(predicate)
            } else {
                parse_predicate(self.predicate.as_str())
            },
            None => parse_predicate(self.predicate.as_str()),
        };
        let time_pair = parse_time_pair(self.time_pair.as_str());
        match (predicate, time_pair) {
            (Ok(predicate), Ok(time_pair)) => if self.title.as_str().unicode_len() == 0 {
                Err(FormErrors { title: true, predicate: false, time_pair: false })
            } else {
                Ok(Event::new(self.title, self.description, predicate, time_pair))
            },
            (predicate, time_pair) => Err(
                FormErrors {
                    title: false,
                    predicate: predicate.is_err(),
                    time_pair: time_pair.is_err(),
                },
            ),
        }
    }
}

} // verus!
