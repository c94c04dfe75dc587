//! The schedule: the events in the order in which they were added.

use crate::ql::{Context, Predicate};
use vstd::prelude::*;

pub mod event;
pub mod form;

pub use event::{Event, Time, TimePair};
pub use form::{EventForm, FormErrors};

verus! {

/// An ordered store of events. An event is addressed by its position, which
/// changes when an event before it is cancelled.
#[derive(Debug, PartialEq, Eq)]
pub struct Schedule {
    events: Vec<Event>,
}

impl View for Schedule {
    type V = Seq<Event>;

    closed spec fn view(&self) -> Seq<Event> {
        self.events@
    }
}

impl Default for Schedule {
    fn default() -> (r: Schedule)
        ensures
            r@ == Seq::<Event>::empty(),
    {
        Schedule { events: Vec::new() }
    }
}

/// Whether `a` comes before `b` among the events still to come: whether it
/// starts earlier, or at the same time and stands earlier in the schedule.
pub open spec fn comes_before(a: (usize, &Event), b: (usize, &Event)) -> bool {
    let start_a = a.1.time_pair.0.minute_of_day();
    let start_b = b.1.time_pair.0.minute_of_day();
    start_a < start_b || (start_a == start_b && a.0 < b.0)
}

impl Schedule {
    /// The schedule of the given events, in their order.
    pub fn new(events: Vec<Event>) -> (r: Schedule)
        ensures
            r@ == events@,
    {
        Schedule { events }
    }

    /// The events, in the order in which they were added.
    pub fn events(&self) -> (r: &Vec<Event>)
        ensures
            r@ == self@,
    {
        &self.events
    }

    /// Adds an event at the end.
    pub fn schedule_event(&mut self, event: Event)
        ensures
            final(self)@ == old(self)@.push(event),
    {
        self.events.push(event);
    }

    /// Removes the event at position `i` and returns it; the events behind it move
    /// up by one. Without an event at that position nothing changes.
    pub fn cancel_event(&mut self, i: usize) -> (r: Option<Event>)
        ensures
            i < old(self)@.len() ==> r == Some(old(self)@[i as int]) && final(self)@ == old(
                self,
            )@.remove(i as int),
            i >= old(self)@.len() ==> r is None && final(self)@ == old(self)@,
    {
        if i < self.events.len() {
            Some(self.events.remove(i))
        } else {
            None
        }
    }

    /// Replaces, in the event at position `i`, each field for which a new value is
    /// given. Without an event at that position nothing changes.
    pub fn edit_event(
        &mut self,
        i: usize,
        new_title: Option<String>,
        new_description: Option<String>,
        new_predicate: Option<Predicate>,
        new_time_pair: Option<TimePair>,
    )
        ensures
            i < old(self)@.len() ==> final(self)@ == old(self)@.update(
                i as int,
                old(self)@[i as int].edited(new_title, new_description, new_predicate, new_time_pair),
            ),
            i >= old(self)@.len() ==> final(self)@ == old(self)@,
    {
        if i < self.events.len() {
            let event = &mut self.events[i];
            if let Some(new_title) = new_title {
                event.title = new_title;
            }
            if let Some(new_description) = new_description {
                event.description = new_description;
            }
            if let Some(new_predicate) = new_predicate {
                event.predicate = new_predicate;
            }
            if let Some(new_time_pair) = new_time_pair {
                event.time_pair = new_time_pair;
            }
            assert(self.events@ =~= old(self)@.update(
                i as int,
                old(self)@[i as int].edited(new_title, new_description, new_predicate, new_time_pair),
            ));
        }
    }

    /// The event at position `i`, if there is one.
    pub fn get_event(&self, i: usize) -> (r: Option<&Event>)
        ensures
            i < self@.len() ==> r == Some(&self@[i as int]),
            i >= self@.len() ==> r is None,
    {
        if i < self.events.len() {
            Some(&self.events[i])
        } else {
            None
        }
    }

    /// The events that occur on the date of the context, each with its position,
    /// in the order of the schedule.
    pub fn get_events_on_date(&self, context: Context) -> (r: Vec<(usize, &Event)>)
        ensures
            forall|k: int|
                0 <= k < r@.len() ==> (#[trigger] r@[k]).0 < self@.len() && *r@[k].1 == self@[r@[k].0 as int]
                    && self@[r@[k].0 as int].occurs_on(&context),
            forall|j: int, k: int| 0 <= j < k < r@.len() ==> (#[trigger] r@[j]).0 < (#[trigger] r@[k]).0,
            forall|i: int|
                0 <= i < self@.len() && (#[trigger] self@[i]).occurs_on(&context) ==> exists|k: int|
                    0 <= k < r@.len() && (#[trigger] r@[k]).0 == i,
    {
        let mut found: Vec<(usize, &Event)> = Vec::new();
        let mut i: usize = 0;
        while i < self.events.len()
            invariant
                i <= self.events@.len(),
                forall|k: int|
                    0 <= k < found@.len() ==> (#[trigger] found@[k]).0 < i && *found@[k].1
                        == self.events@[found@[k].0 as int] && self.events@[found@[k].0 as int].occurs_on(
                        &context,
                    ),
                forall|j: int, k: int|
                    0 <= j < k < found@.len() ==> (#[trigger] found@[j]).0 < (#[trigger] found@[k]).0,
                forall|n: int|
                    0 <= n < i && (#[trigger] self.events@[n]).occurs_on(&context) ==> exists|k: int|
                        0 <= k < found@.len() && (#[trigger] found@[k]).0 == n,
            decreases self.events@.len() - i,
        {
            let event = &self.events[i];
            if event.is_on(&context) {
                let ghost before = found@;
                found.push((i, event));
                proof {
                    assert(forall|k: int| 0 <= k < before.len() ==> found@[k] == before[k]);
                    assert(found@[before.len() as int].0 == i);
                    assert forall|n: int|
                        0 <= n < i + 1 && (#[trigger] self.events@[n]).occurs_on(
                            &context,
                        ) implies exists|k: int| 0 <= k < found@.len() && (#[trigger] found@[k]).0 == n by {
                        if n < i {
                            let k = choose|k: int| 0 <= k < before.len() && (#[trigger] before[k]).0 == n;
                            assert(found@[k].0 == n);
                        } else {
                            assert(found@[before.len() as int].0 == n);
                        }
                    }
                }
            }
            i += 1;
        }
        found
    }

    /// The events that are still to come on the date of the context, each with
    /// its position: those that occur on that date and start in a later minute
    /// than that of `now`, the earliest first; of two that start at the same
    /// time, the one that stands first in the schedule.
    pub fn upcoming(&self, context: Context, now: Time) -> (r: Vec<(usize, &Event)>)
        ensures
            forall|k: int|
                0 <= k < r@.len() ==> (#[trigger] r@[k]).0 < self@.len() && *r@[k].1 == self@[r@[k].0 as int]
                    && self@[r@[k].0 as int].is_upcoming(&context, now),
            forall|j: int, k: int|
                0 <= j < k < r@.len() ==> comes_before(#[trigger] r@[j], #[trigger] r@[k]),
            forall|i: int|
                0 <= i < self@.len() && (#[trigger] self@[i]).is_upcoming(&context, now)
                    ==> exists|k: int| 0 <= k < r@.len() && (#[trigger] r@[k]).0 == i,
    {
        let mut found: Vec<(usize, &Event)> = Vec::new();
        let mut i: usize = 0;
        while i < self.events.len()
            invariant
                i <= self.events@.len(),
                forall|k: int|
                    0 <= k < found@.len() ==> (#[trigger] found@[k]).0 < i && *found@[k].1
                        == self.events@[found@[k].0 as int] && self.events@[found@[k].0 as int].is_upcoming(
                        &context,
                        now,
                    ),
                forall|j: int, k: int|
                    0 <= j < k < found@.len() ==> comes_before(
                        #[trigger] found@[j],
                        #[trigger] found@[k],
                    ),
                forall|n: int|
                    0 <= n < i && (#[trigger] self.events@[n]).is_upcoming(&context, now)
                        ==> exists|k: int| 0 <= k < found@.len() && (#[trigger] found@[k]).0 == n,
            decreases self.events@.len() - i,
        {
            let event = &self.events[i];
            let start = event.time_pair.0.minutes_since_midnight();
            if event.is_on(&context) && start > now.minutes_since_midnight() {
                let mut p = found.len();
                while p > 0 && found[p - 1].1.time_pair.0.minutes_since_midnight() > start
                    invariant
                        p <= found@.len(),
                        forall|q: int|
                            p <= q < found@.len() ==> (#[trigger] found@[q]).1.time_pair.0.minute_of_day()
                                > start,
                    decreases p,
                {
                    p -= 1;
                }
                let ghost before = found@;
                let entry = (i, event);
                assert forall|q: int| 0 <= q < p implies comes_before(
                    #[trigger] before[q],
                    entry,
                ) by {
                    if q < p - 1 {
                        assert(comes_before(before[q], before[p - 1]));
                    }
                }
                found.insert(p, entry);
                proof {
                    let after = found@;
                    assert(after.len() == before.len() + 1);
                    assert(after[p as int] == entry);
                    assert forall|k: int| 0 <= k < p implies after[k] == before[k] by {}
                    assert forall|k: int| p < k < after.len() implies after[k] == before[k - 1] by {}
                    assert forall|j: int, k: int| 0 <= j < k < after.len() implies comes_before(
                        #[trigger] after[j],
                        #[trigger] after[k],
                    ) by {
                        if k < p {
                            assert(comes_before(before[j], before[k]));
                        } else if k == p {
                            assert(comes_before(before[j], entry));
                        } else if j < p {
                            assert(comes_before(before[j], before[k - 1]));
                        } else if j == p {
                            assert(before[k - 1].1.time_pair.0.minute_of_day() > start);
                        } else {
                            assert(comes_before(before[j - 1], before[k - 1]));
                        }
                    }
                    assert forall|n: int|
                        0 <= n < i + 1 && (#[trigger] self.events@[n]).is_upcoming(
                            &context,
                            now,
                        ) implies exists|k: int| 0 <= k < after.len() && (#[trigger] after[k]).0 == n by {
                        if n < i {
                            let k = choose|k: int| 0 <= k < before.len() && (#[trigger] before[k]).0 == n;
                            if k < p {
                                assert(after[k].0 == n);
                            } else {
                                assert(after[k + 1].0 == n);
                            }
                        } else {
                            assert(after[p as int].0 == n);
                        }
                    }
                }
            }
            i += 1;
        }
        found
    }
}

} // verus!
