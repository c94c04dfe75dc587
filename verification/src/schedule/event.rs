//! Events and the clock times they carry.

use crate::digits::{append_decimal, decimal};
use crate::ql::{Context, Evaluate, Predicate, TypeError};
use chrono::{NaiveTime, Timelike};
use vstd::prelude::*;
use vstd::string::*;

verus! {

/// Whether hour and minute name a time of day.
pub open spec fn is_time_of_day(hour: int, minute: int) -> bool {
    0 <= hour < 24 && 0 <= minute < 60
}

/// A time of day, to the minute.
#[derive(Debug, Clone, Copy, PartialEq, Eq, Structural)]
pub struct Time {
    hour: u32,
    minute: u32,
}

impl Time {
    /// The hour, as [`Time::hour`] gives it.
    pub closed spec fn spec_hour(&self) -> u32 {
        self.hour
    }

    /// The minute, as [`Time::minute`] gives it.
    pub closed spec fn spec_minute(&self) -> u32 {
        self.minute
    }

    /// A time of day has an hour below 24 and a minute below 60.
    #[verifier::type_invariant]
    pub open spec fn wf(&self) -> bool {
        is_time_of_day(self.hour() as int, self.minute() as int)
    }

    /// The number of minutes from midnight to the time.
    pub open spec fn minute_of_day(&self) -> int {
        self.hour() * 60 + self.minute()
    }

    /// The number of minutes from midnight to the time.
    pub fn minutes_since_midnight(&self) -> (r: u32)
        ensures
            r == self.minute_of_day(),
            r < 24 * 60,
    {
        proof {
            use_type_invariant(self);
        }
        self.hour * 60 + self.minute
    }

    /// The canonical text of the time: hour and minute as plain numbers with a
    /// colon between them.
    pub open spec fn text(&self) -> Seq<char> {
        decimal(self.hour() as nat) + seq![':'] + decimal(self.minute() as nat)
    }

    /// The time with the given hour and minute, if there is one; see
    /// [`Time::lemma_from_hm`].
    pub closed spec fn spec_from_hm(hour: u32, minute: u32) -> Option<Time> {
        if is_time_of_day(hour as int, minute as int) {
            Some(Time { hour, minute })
        } else {
            None
        }
    }

    /// The time with the given hour and minute, if there is one.
    #[verifier::when_used_as_spec(spec_from_hm)]
    pub fn from_hm(hour: u32, minute: u32) -> (r: Option<Time>)
        ensures
            r == Time::from_hm(hour, minute),
            r is Some <==> is_time_of_day(hour as int, minute as int),
            r matches Some(t) ==> t.hour() == hour && t.minute() == minute,
    {
        chrono_time(hour, minute)
    }

    /// There is a time for hour and minute exactly where they name a time of day,
    /// and it has that hour and minute.
    pub proof fn lemma_from_hm(hour: u32, minute: u32)
        ensures
            Time::from_hm(hour, minute) is Some <==> is_time_of_day(hour as int, minute as int),
            Time::from_hm(hour, minute) matches Some(t) ==> t.wf() && t.hour() == hour && t.minute()
                == minute,
    {
    }

    /// The hour, from 0 to 23.
    #[verifier::when_used_as_spec(spec_hour)]
    pub fn hour(&self) -> (r: u32)
        ensures
            r == self.hour(),
            r < 24,
    {
        proof {
            use_type_invariant(self);
        }
        self.hour
    }

    /// The minute, from 0 to 59.
    #[verifier::when_used_as_spec(spec_minute)]
    pub fn minute(&self) -> (r: u32)
        ensures
            r == self.minute(),
            r < 60,
    {
        proof {
            use_type_invariant(self);
        }
        self.minute
    }

    /// The canonical text of the time.
    pub fn to_string(&self) -> (r: String)
        ensures
            r@ == self.text(),
    {
        let mut out = String::new();
        append_decimal(&mut out, self.hour);
        out.append(":");
        append_decimal(&mut out, self.minute);
        proof {
            reveal_strlit(":");
            assert(":"@ =~= seq![':']);
            assert(out@ =~= self.text());
        }
        out
    }

    /// A time is its hour and minute.
    pub proof fn lemma_same_fields(a: Time, b: Time)
        requires
            a.hour() == b.hour(),
            a.minute() == b.minute(),
        ensures
            a == b,
    {
    }
}

/// Asks `chrono::NaiveTime::from_hms_opt`, with zero seconds, whether the time
/// exists. Claimed of it: it accepts exactly the hours below 24 with the minutes
/// below 60, and the time it makes has the hour and minute it was given.
#[verifier::external_body]
fn chrono_time(hour: u32, minute: u32) -> (r: Option<Time>)
    ensures
        r is Some <==> is_time_of_day(hour as int, minute as int),
        r matches Some(t) ==> t.hour == hour && t.minute == minute,
{
    match NaiveTime::from_hms_opt(hour, minute, 0) {
        Some(t) => Some(Time { hour: t.hour(), minute: t.minute() }),
        None => None,
    }
}

/// The start and the end of an event, as times of day. Nothing asks that the
/// start comes first.
#[derive(Debug, Clone, Copy, PartialEq, Eq, Structural)]
pub struct TimePair(pub Time, pub Time);

impl TimePair {
    /// The canonical text of the pair: start and end with a hyphen between them.
    pub open spec fn text(&self) -> Seq<char> {
        self.0.text() + seq!['-'] + self.1.text()
    }

    /// The canonical text of the pair.
    pub fn to_string(&self) -> (r: String)
        ensures
            r@ == self.text(),
    {
        let mut out = self.0.to_string();
        out.append("-");
        let end = self.1.to_string();
        out.append(end.as_str());
        proof {
            reveal_strlit("-");
            assert("-"@ =~= seq!['-']);
            assert(out@ =~= self.text());
        }
        out
    }
}

/// A scheduled event: what it is called, what is said of it, the predicate that
/// decides on which dates it occurs, and its times of day.
#[derive(Debug, PartialEq, Eq)]
pub struct Event {
    pub title: String,
    pub description: String,
    pub predicate: Predicate,
    pub time_pair: TimePair,
}

impl Event {
    /// Whether the event occurs on the date of the context: whether its predicate
    /// evaluates to true there. A predicate that fails to evaluate matches no date.
    pub open spec fn occurs_on(&self, context: &Context) -> bool {
        self.predicate.evaluation(context) == Ok::<bool, TypeError>(true)
    }

    /// The event with the fields replaced for which a new value is given.
    pub open spec fn edited(
        self,
        new_title: Option<String>,
        new_description: Option<String>,
        new_predicate: Option<Predicate>,
        new_time_pair: Option<TimePair>,
    ) -> Event {
        Event {
            title: match new_title {
                Some(title) => title,
                None => self.title,
            },
            description: match new_description {
                Some(description) => description,
                None => self.description,
            },
            predicate: match new_predicate {
                Some(predicate) => predicate,
                None => self.predicate,
            },
            time_pair: match new_time_pair {
                Some(time_pair) => time_pair,
                None => self.time_pair,
            },
        }
    }

    /// An event with the given title, description, predicate and times.
    pub fn new(title: String, description: String, predicate: Predicate, time_pair: TimePair) -> (r:
        Event)
        ensures
            r == (Event { title, description, predicate, time_pair }),
    {
        Event { title, description, predicate, time_pair }
    }

    /// What the event is called.
    pub fn title(&self) -> (r: &String)
        ensures
            *r == self.title,
    {
        &self.title
    }

    /// What is said of the event; empty where nothing is.
    pub fn description(&self) -> (r: &String)
        ensures
            *r == self.description,
    {
        &self.description
    }

    /// The predicate that decides on which dates the event occurs.
    pub fn predicate(&self) -> (r: &Predicate)
        ensures
            *r == self.predicate,
    {
        &self.predicate
    }

    /// The start and the end of the event.
    pub fn time_pair(&self) -> (r: TimePair)
        ensures
            r == self.time_pair,
    {
        self.time_pair
    }

    /// Whether the event is still to come on the date of the context: whether
    /// it occurs on that date and starts in a later minute than that of `now`.
    pub open spec fn is_upcoming(&self, context: &Context, now: Time) -> bool {
        self.occurs_on(context) && self.time_pair.0.minute_of_day() > now.minute_of_day()
    }

    /// Whether the event occurs on the date of the context.
    pub fn is_on(&self, context: &Context) -> (r: bool)
        ensures
            r == self.occurs_on(context),
    {
        match self.predicate.evaluate(context) {
            Ok(b) => b,
            Err(_) => false,
        }
    }
}

/// How long it is until an event that starts in the given number of seconds: in
/// whole hours and minutes, each left out where it is zero, and `now` where both are.
pub open spec fn eta(seconds: u32) -> Seq<char> {
    let hours = (seconds / 3600) as nat;
    let minutes = (seconds % 3600 / 60) as nat;
    if hours == 0 && minutes == 0 {
        "now"@
    } else if hours == 0 {
        "in "@ + decimal(minutes) + " minutes"@
    } else if minutes == 0 {
        "in "@ + decimal(hours) + " hours"@
    } else {
        "in "@ + decimal(hours) + " hours and "@ + decimal(minutes) + " minutes"@
    }
}

/// Says how long it is until an event that starts in the given number of seconds.
pub fn eta_text(seconds: u32) -> (r: String)
    ensures
        r@ == eta(seconds),
{
    let hours = seconds / 3600;
    let minutes = seconds % 3600 / 60;
    if hours == 0 && minutes == 0 {
        return String::from_str("now");
    }
    let mut out = String::from_str("in ");
    if hours != 0 {
        append_decimal(&mut out, hours);
        out.append(" hours");
        if minutes != 0 {
            out.append(" and ");
        }
    }
    if minutes != 0 {
        append_decimal(&mut out, minutes);
        out.append(" minutes");
    }
    proof {
        reveal_strlit(" hours");
        reveal_strlit(" and ");
        reveal_strlit(" hours and ");
        assert(" hours"@ + " and "@ =~= " hours and "@);
        assert(out@ =~= eta(seconds));
    }
    out
}

} // verus!
