//! Events and schedules as they are stored: with the predicate and the times
//! as text, which is parsed again when they are loaded.

use crate::ql::grammar::{parse_predicate, parse_time_pair, predicate_of, time_pair_of};
use crate::ql::roundtrip::{
    grammatical, law_canonical_predicate_is_read_back, law_time_pair_is_read_back,
};
use crate::ql::Expression;
use crate::schedule;
use vstd::prelude::*;
use vstd::string::*;

verus! {

/// An event as it is stored.
#[derive(Debug, PartialEq, Eq)]
pub struct Event {
    pub title: String,
    pub description: String,
    /// The canonical text of the predicate.
    pub predicate: String,
    /// The canonical text of the pair of times.
    pub time_pair: String,
}

impl Event {
    /// The event that the record stands for, if both its texts can be parsed.
    pub open spec fn parsed(self) -> Option<schedule::Event> {
        match (predicate_of(self.predicate@), time_pair_of(self.time_pair@)) {
            (Ok(predicate), Ok(time_pair)) => Some(
                schedule::Event {
                    title: self.title,
                    description: self.description,
                    predicate,
                    time_pair,
                },
            ),
            _ => None,
        }
    }

    /// Whether the record holds the title and the description of the event and
    /// the canonical texts of its predicate and its times.
    pub open spec fn records(self, event: schedule::Event) -> bool {
        &&& self.title@ == event.title@
        &&& self.description@ == event.description@
        &&& self.predicate@ == event.predicate.text()
        &&& self.time_pair@ == event.time_pair.text()
    }

    /// Parses the record into the event it stands for; `None` where the text of
    /// the predicate or that of the times cannot be parsed.
    pub fn parse(self) -> (r: Option<schedule::Event>)
        ensures
            r == self.parsed(),
    {
        let predicate = match parse_predicate(self.predicate.as_str()) {
            Ok(predicate) => predicate,
            Err(_) => {
                return None;
            },
        };
        let time_pair = match parse_time_pair(self.time_pair.as_str()) {
            Ok(time_pair) => time_pair,
            Err(_) => {
                return None;
            },
        };
        Some(schedule::Event::new(self.title, self.description, predicate, time_pair))
    }

    /// The record of an event.
    pub fn from(value: &schedule::Event) -> (r: Event)
        ensures
            r.records(*value),
    {
        Event {
            title: value.title.clone(),
            description: value.description.clone(),
            predicate: value.predicate.to_string(),
            time_pair: value.time_pair.to_string(),
        }
    }
}

/// The events that a run of records stands for, in their order, without the
/// records that cannot be parsed.
pub open spec fn reconstruct(records: Seq<Event>) -> Seq<schedule::Event>
    decreases records.len(),
{
    if records.len() == 0 {
        Seq::empty()
    } else {
        let before = reconstruct(records.drop_last());
        match records.last().parsed() {
            Some(event) => before.push(event),
            None => before,
        }
    }
}

/// A schedule as it is stored.
#[derive(Debug, PartialEq, Eq)]
pub struct Schedule {
    pub events: Vec<Event>,
}

impl Default for Schedule {
    fn default() -> (r: Schedule)
        ensures
            r.events@ == Seq::<Event>::empty(),
    {
        Schedule { events: Vec::new() }
    }
}

impl Schedule {
    /// Parses the records into a schedule. A record that cannot be parsed is
    /// left out; the others keep their order.
    pub fn parse(self) -> (r: schedule::Schedule)
        ensures
            r@ == reconstruct(self.events@),
    {
        let ghost all = self.events@;
        let mut events: Vec<schedule::Event> = Vec::new();
        for record in it: self.events
            invariant
                it.seq() == all,
                events@ == reconstruct(all.take(it.index() as int)),
        {
            proof {
                let i = it.index() as int;
                assert(all.take(i + 1).drop_last() =~= all.take(i));
                assert(all.take(i + 1).last() == all[i]);
            }
            match record.parse() {
                Some(event) => {
                    events.push(event);
                },
                None => {},
            }
        }
        assert(all.take(all.len() as int) =~= all);
        schedule::Schedule::new(events)
    }

    /// The records of the events of a schedule, in their order.
    pub fn from(value: &schedule::Schedule) -> (r: Schedule)
        ensures
            r.events@.len() == value@.len(),
            forall|i: int| 0 <= i < value@.len() ==> (#[trigger] r.events@[i]).records(value@[i]),
    {
        let events = value.events();
        let mut records: Vec<Event> = Vec::new();
        let mut i: usize = 0;
        while i < events.len()
            invariant
                i <= events@.len(),
                events@ == value@,
                records@.len() == i,
                forall|k: int| 0 <= k < i ==> (#[trigger] records@[k]).records(value@[k]),
            decreases events@.len() - i,
        {
            records.push(Event::from(&events[i]));
            i += 1;
        }
        Schedule { events: records }
    }
}

/// The events of two runs of records are those of the first and then those of
/// the second.
pub proof fn lemma_reconstruct_concat(a: Seq<Event>, b: Seq<Event>)
    ensures
        reconstruct(a + b) == reconstruct(a) + reconstruct(b),
    decreases b.len(),
{
    if b.len() == 0 {
        assert(a + b =~= a);
        assert(reconstruct(a) + reconstruct(b) =~= reconstruct(a));
    } else {
        lemma_reconstruct_concat(a, b.drop_last());
        assert((a + b).drop_last() =~= a + b.drop_last());
        assert((a + b).last() == b.last());
        assert(reconstruct(a + b) =~= reconstruct(a) + reconstruct(b));
    }
}

/// A record that cannot be parsed is dropped: the schedule is the same as if
/// the record had not been there, and the records around it are not touched.
pub proof fn law_unparsable_record_is_dropped(before: Seq<Event>, record: Event, after: Seq<Event>)
    requires
        record.parsed() is None,
    ensures
        reconstruct(before + seq![record] + after) == reconstruct(before + after),
{
    lemma_reconstruct_concat(before + seq![record], after);
    lemma_reconstruct_concat(before, seq![record]);
    lemma_reconstruct_concat(before, after);
    assert(seq![record].drop_last() =~= Seq::<Event>::empty());
    assert(reconstruct(Seq::<Event>::empty()) =~= Seq::<schedule::Event>::empty());
    assert(seq![record].last() == record);
    assert(reconstruct(seq![record]) =~= Seq::<schedule::Event>::empty());
    assert(reconstruct(before) + Seq::<schedule::Event>::empty() =~= reconstruct(before));
}

/// A record that can be parsed takes its place in the schedule, between the
/// events of the records before it and those of the records behind it.
pub proof fn law_parsable_record_is_kept(before: Seq<Event>, record: Event, after: Seq<Event>)
    requires
        record.parsed() is Some,
    ensures
        reconstruct(before + seq![record] + after) == reconstruct(before).push(record.parsed()->0)
            + reconstruct(after),
{
    lemma_reconstruct_concat(before + seq![record], after);
    lemma_reconstruct_concat(before, seq![record]);
    assert(seq![record].drop_last() =~= Seq::<Event>::empty());
    assert(reconstruct(Seq::<Event>::empty()) =~= Seq::<schedule::Event>::empty());
    assert(seq![record].last() == record);
    assert(reconstruct(seq![record]) =~= seq![record.parsed()->0]);
    assert(reconstruct(before) + seq![record.parsed()->0] =~= reconstruct(before).push(
        record.parsed()->0,
    ));
}

/// Storing and loading gives an event back: the record of an event whose
/// predicate the grammar can make is parsed into an event with the same title,
/// description, predicate and times.
pub proof fn law_stored_event_is_read_back(record: Event, event: schedule::Event)
    requires
        record.records(event),
        grammatical(Expression::Predicate(Box::new(event.predicate))),
        event.time_pair.0.wf(),
        event.time_pair.1.wf(),
    ensures
        record.parsed() matches Some(loaded) && loaded.title@ == event.title@
            && loaded.description@ == event.description@ && loaded.predicate == event.predicate
            && loaded.time_pair == event.time_pair,
{
    law_canonical_predicate_is_read_back(event.predicate);
    law_time_pair_is_read_back(event.time_pair);
}

} // verus!
