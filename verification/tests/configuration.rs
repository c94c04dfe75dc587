use calendar_ql::calendar::Date;
use calendar_ql::configuration::{Event, Schedule};
use calendar_ql::ql::grammar::{parse_predicate, parse_time_pair};
use calendar_ql::ql::Context;
use calendar_ql::schedule;

fn record(title: &str, predicate: &str, time_pair: &str) -> Event {
    Event {
        title: title.to_string(),
        description: format!("about {title}"),
        predicate: predicate.to_string(),
        time_pair: time_pair.to_string(),
    }
}

#[test]
fn a_record_is_parsed_into_its_event() {
    let parsed = record("Launch", "date = 2024-03-01", "9:00-10:30").parse();
    let expected = schedule::Event::new(
        "Launch".to_string(),
        "about Launch".to_string(),
        parse_predicate("date = 2024-03-01").unwrap(),
        parse_time_pair("9:00-10:30").unwrap(),
    );
    assert_eq!(parsed, Some(expected));
}

#[test]
fn a_record_with_a_text_that_cannot_be_parsed_is_no_event() {
    assert_eq!(record("a", "date = ", "9:00-10:30").parse(), None);
    assert_eq!(record("a", "date = 2024-02-30", "9:00-10:30").parse(), None);
    assert_eq!(record("a", "md", "9:00-10:30").parse(), None);
    assert_eq!(record("a", "", "9:00-10:30").parse(), None);
    assert_eq!(record("a", "date = 2024-03-01", "9:00").parse(), None);
    assert_eq!(record("a", "date = 2024-03-01", "25:00-26:00").parse(), None);
    assert_eq!(record("a", "date = 2024-03-01", "").parse(), None);
}

#[test]
fn malformed_stored_predicate_is_dropped() {
    let stored = Schedule {
        events: vec![
            record("first", "date = 2024-03-01", "9:00-10:00"),
            record("broken", "date === 2024-03-01", "9:00-10:00"),
            record("second", "wd = fri", "11:00-12:00"),
            record("late", "wd = fri", "11:00"),
        ],
    };
    let schedule = stored.parse();
    assert_eq!(schedule.events().len(), 2);
    assert_eq!(schedule.get_event(0).map(|e| e.title().as_str()), Some("first"));
    assert_eq!(schedule.get_event(1).map(|e| e.title().as_str()), Some("second"));
    let friday = Context { date: Date::from_ymd(2024, 3, 1).unwrap() };
    assert_eq!(schedule.get_events_on_date(friday).len(), 2);
}

#[test]
fn an_empty_store_is_an_empty_schedule() {
    assert!(Schedule::default().parse().events().is_empty());
    assert!(Schedule { events: vec![record("x", "?", "?")] }.parse().events().is_empty());
}

#[test]
fn the_record_of_an_event_holds_its_canonical_texts() {
    let event = schedule::Event::new(
        "Launch".to_string(),
        "Bring cake".to_string(),
        parse_predicate("date=2024-03-01&wd=fri").unwrap(),
        parse_time_pair("09:00-10:30").unwrap(),
    );
    let stored = Event::from(&event);
    assert_eq!(
        stored,
        Event {
            title: "Launch".to_string(),
            description: "Bring cake".to_string(),
            predicate: "date = 2024-03-01 & wd = fri".to_string(),
            time_pair: "9:0-10:30".to_string(),
        }
    );
    assert_eq!(stored.parse(), Some(event));
}

#[test]
fn storing_and_loading_a_schedule_gives_it_back() {
    let mut scheduled = schedule::Schedule::default();
    for (title, predicate, times) in [
        ("a", "date = 2024-03-01", "9:00-10:00"),
        ("b", "wd = mon | wd = wed", "0:0-23:59"),
        ("c", "nw(2024-01-01, date) % 2 = 0 & !(wd(date) = sun)", "18:30-19:00"),
    ] {
        if let (Ok(p), Ok(t)) = (parse_predicate(predicate), parse_time_pair(times)) {
            scheduled.schedule_event(schedule::Event::new(title.into(), String::new(), p, t));
        }
    }
    assert_eq!(scheduled.events().len(), 2);
    let stored = Schedule::from(&scheduled);
    assert_eq!(stored.events.len(), 2);
    assert_eq!(stored.events[1].predicate, "wd = mon | wd = wed");
    assert_eq!(stored.parse(), scheduled);
}
