use calendar_ql::calendar::Date;
use calendar_ql::ql::grammar::{parse_predicate, parse_time_pair};
use calendar_ql::ql::{Context, Expression, PlaceholderUnit, Predicate};
use calendar_ql::schedule::event::eta_text;
use calendar_ql::schedule::{Event, Schedule, Time, TimePair};

fn context(year: i32, month: u32, day: u32) -> Context {
    Context { date: Date::from_ymd(year, month, day).expect("a day of the calendar") }
}

fn event(title: &str, predicate: &str, times: &str) -> Event {
    Event::new(
        title.to_string(),
        String::new(),
        parse_predicate(predicate).expect("a predicate"),
        parse_time_pair(times).expect("a pair of times"),
    )
}

fn positions(found: Vec<(usize, &Event)>) -> Vec<usize> {
    found.into_iter().map(|(i, _)| i).collect()
}

#[test]
fn times_of_day() {
    let t = Time::from_hm(9, 5).expect("a time of day");
    assert_eq!(t.hour(), 9);
    assert_eq!(t.minute(), 5);
    assert_eq!(t.to_string(), "9:5");
    assert_eq!(Time::from_hm(0, 0).map(|t| t.to_string()), Some("0:0".to_string()));
    assert_eq!(Time::from_hm(23, 59).map(|t| t.to_string()), Some("23:59".to_string()));
    assert!(Time::from_hm(24, 0).is_none());
    assert!(Time::from_hm(23, 60).is_none());
    assert!(Time::from_hm(u32::MAX, u32::MAX).is_none());
}

#[test]
fn an_event_keeps_what_it_was_made_of() {
    let predicate = parse_predicate("wd = mon").unwrap();
    let times = parse_time_pair("9:00-10:30").unwrap();
    let e = Event::new("Standup".to_string(), "Daily".to_string(), predicate, times);
    assert_eq!(e.title(), "Standup");
    assert_eq!(e.description(), "Daily");
    assert_eq!(e.predicate(), &parse_predicate("wd = mon").unwrap());
    assert_eq!(e.time_pair(), times);
    assert_eq!(e.time_pair().to_string(), "9:0-10:30");
}

#[test]
fn an_event_occurs_where_its_predicate_holds() {
    let e = event("Payday", "md = 1", "9:00-9:30");
    assert!(e.is_on(&context(2024, 3, 1)));
    assert!(!e.is_on(&context(2024, 3, 2)));
    let mismatched = event("Never", "md = 1 & 5", "9:00-9:30");
    assert!(!mismatched.is_on(&context(2024, 3, 1)));
}

#[test]
fn schedule_query_scenario() {
    let mut schedule = Schedule::default();
    schedule.schedule_event(event("Launch", "date = 2024-03-01", "9:00-10:00"));
    let found = schedule.get_events_on_date(context(2024, 3, 1));
    assert_eq!(found.len(), 1);
    assert_eq!(found[0].0, 0);
    assert_eq!(found[0].1.title(), "Launch");
    assert!(schedule.get_events_on_date(context(2024, 3, 2)).is_empty());
}

#[test]
fn a_query_keeps_the_order_of_the_schedule() {
    let schedule = Schedule::new(vec![
        event("a", "wd = fri", "9:00-10:00"),
        event("b", "wd = sat", "9:00-10:00"),
        event("c", "md = 1", "9:00-10:00"),
        event("d", "md = 1 & 5", "9:00-10:00"),
        event("e", "mo = mar | mo = apr", "9:00-10:00"),
    ]);
    // 2024-03-01 is a Friday.
    assert_eq!(positions(schedule.get_events_on_date(context(2024, 3, 1))), vec![0, 2, 4]);
    assert_eq!(positions(schedule.get_events_on_date(context(2024, 3, 2))), vec![1, 4]);
    assert_eq!(positions(schedule.get_events_on_date(context(2024, 5, 5))), Vec::<usize>::new());
    let found = schedule.get_events_on_date(context(2024, 3, 1));
    assert_eq!(found[1].1.title(), "c");
}

#[test]
fn a_failing_predicate_matches_nothing_and_breaks_nothing() {
    let schedule = Schedule::new(vec![
        event("broken", "!md", "9:00-10:00"),
        event("zero", "md % 0 = 0", "9:00-10:00"),
        event("fine", "true = true", "9:00-10:00"),
    ]);
    assert_eq!(positions(schedule.get_events_on_date(context(2024, 3, 1))), vec![2]);
}

#[test]
fn edit_no_op_on_missing_index() {
    let mut schedule = Schedule::new(vec![event("Launch", "date = 2024-03-01", "9:00-10:00")]);
    schedule.edit_event(999, Some("x".into()), None, None, None);
    assert_eq!(schedule.events().len(), 1);
    assert_eq!(schedule.get_event(0).map(|e| e.title().as_str()), Some("Launch"));
    schedule.edit_event(1, Some("x".into()), Some("y".into()), None, None);
    assert_eq!(schedule.events()[0], event("Launch", "date = 2024-03-01", "9:00-10:00"));
}

#[test]
fn edit_replaces_the_given_fields_only() {
    let launch = || event("Launch", "date = 2024-03-01", "9:00-10:00");
    let mut schedule = Schedule::new(vec![launch(), launch()]);

    schedule.edit_event(1, Some("Landing".into()), None, None, None);
    assert_eq!(schedule.events()[1], event("Landing", "date = 2024-03-01", "9:00-10:00"));

    schedule.edit_event(1, None, Some("Bring cake".into()), None, None);
    assert_eq!(schedule.events()[1].title(), "Landing");
    assert_eq!(schedule.events()[1].description(), "Bring cake");

    schedule.edit_event(1, None, None, Some(parse_predicate("wd = sun").unwrap()), None);
    assert_eq!(schedule.events()[1].predicate().to_string(), "wd = sun");
    assert_eq!(schedule.events()[1].time_pair().to_string(), "9:0-10:0");

    schedule.edit_event(1, None, None, None, Some(parse_time_pair("20:15-21:45").unwrap()));
    assert_eq!(schedule.events()[1].time_pair().to_string(), "20:15-21:45");
    assert_eq!(schedule.events()[1].predicate().to_string(), "wd = sun");
    assert_eq!(schedule.events()[1].description(), "Bring cake");

    schedule.edit_event(1, None, None, None, None);
    assert_eq!(schedule.events()[1].title(), "Landing");
    assert_eq!(schedule.events()[0], launch());
    assert_eq!(schedule.events().len(), 2);
}

#[test]
fn edit_changes_what_a_query_finds() {
    let mut schedule = Schedule::new(vec![event("Launch", "date = 2024-03-01", "9:00-10:00")]);
    schedule.edit_event(
        0,
        Some("Launch".into()),
        Some(String::new()),
        Some(Predicate::Equality(
            Expression::Placeholder(PlaceholderUnit::Date),
            Expression::Date(Date::from_ymd(2024, 3, 2).unwrap()),
        )),
        Some(TimePair(Time::from_hm(9, 0).unwrap(), Time::from_hm(10, 0).unwrap())),
    );
    assert!(schedule.get_events_on_date(context(2024, 3, 1)).is_empty());
    assert_eq!(positions(schedule.get_events_on_date(context(2024, 3, 2))), vec![0]);
}

#[test]
fn cancel_then_query() {
    let mut schedule = Schedule::default();
    schedule.schedule_event(event("first", "date = 2024-03-01", "9:00-10:00"));
    schedule.schedule_event(event("second", "date = 2024-03-02", "11:00-12:00"));
    let cancelled = schedule.cancel_event(0);
    assert_eq!(cancelled, Some(event("first", "date = 2024-03-01", "9:00-10:00")));
    assert!(schedule.get_events_on_date(context(2024, 3, 1)).is_empty());
    let found = schedule.get_events_on_date(context(2024, 3, 2));
    assert_eq!(found.len(), 1);
    assert_eq!(found[0].0, 0);
    assert_eq!(found[0].1, &event("second", "date = 2024-03-02", "11:00-12:00"));
    assert_eq!(schedule.get_event(0), Some(&event("second", "date = 2024-03-02", "11:00-12:00")));
    assert_eq!(schedule.get_event(1), None);
}

#[test]
fn cancel_out_of_range_returns_nothing() {
    let mut schedule = Schedule::new(vec![event("only", "true = true", "9:00-10:00")]);
    assert_eq!(schedule.cancel_event(1), None);
    assert_eq!(schedule.cancel_event(usize::MAX), None);
    assert_eq!(schedule.events().len(), 1);
    assert!(schedule.cancel_event(0).is_some());
    assert_eq!(schedule.cancel_event(0), None);
    assert!(schedule.events().is_empty());
}

#[test]
fn cancel_in_the_middle_moves_the_later_events_up() {
    let mut schedule = Schedule::new(vec![
        event("a", "true = true", "9:00-10:00"),
        event("b", "true = true", "9:00-10:00"),
        event("c", "true = true", "9:00-10:00"),
    ]);
    assert_eq!(schedule.cancel_event(1).map(|e| e.title().clone()), Some("b".to_string()));
    assert_eq!(schedule.get_event(0).map(|e| e.title().as_str()), Some("a"));
    assert_eq!(schedule.get_event(1).map(|e| e.title().as_str()), Some("c"));
    assert_eq!(schedule.get_event(2), None);
}

#[test]
fn get_event_by_position() {
    let schedule = Schedule::new(vec![event("a", "true = true", "9:00-10:00")]);
    assert_eq!(schedule.get_event(0).map(|e| e.title().as_str()), Some("a"));
    assert_eq!(schedule.get_event(1), None);
    assert_eq!(Schedule::default().get_event(0), None);
    assert!(Schedule::default().events().is_empty());
}

#[test]
fn minutes_since_midnight() {
    assert_eq!(Time::from_hm(0, 0).unwrap().minutes_since_midnight(), 0);
    assert_eq!(Time::from_hm(9, 5).unwrap().minutes_since_midnight(), 545);
    assert_eq!(Time::from_hm(23, 59).unwrap().minutes_since_midnight(), 1439);
}

#[test]
fn upcoming_events_are_ordered_by_their_start() {
    let schedule = Schedule::new(vec![
        event("late", "wd = fri", "18:00-19:00"),
        event("other day", "wd = sat", "12:00-13:00"),
        event("passed", "wd = fri", "8:00-9:00"),
        event("noon", "wd = fri", "12:00-13:00"),
        event("now", "wd = fri", "10:30-11:00"),
        event("also noon", "wd = fri", "12:00-12:30"),
        event("next", "wd = fri", "10:31-11:00"),
        event("broken", "wd & fri", "12:00-13:00"),
    ]);
    let now = Time::from_hm(10, 30).unwrap();
    let titles: Vec<(usize, &str)> = schedule
        .upcoming(context(2024, 3, 1), now)
        .into_iter()
        .map(|(i, e)| (i, e.title().as_str()))
        .collect();
    assert_eq!(titles, vec![(6, "next"), (3, "noon"), (5, "also noon"), (0, "late")]);
    assert!(schedule.upcoming(context(2024, 3, 1), Time::from_hm(18, 0).unwrap()).is_empty());
    assert_eq!(schedule.upcoming(context(2024, 3, 2), Time::from_hm(0, 0).unwrap()).len(), 1);
    assert!(Schedule::default().upcoming(context(2024, 3, 1), now).is_empty());
}

#[test]
fn how_long_until_an_event() {
    assert_eq!(eta_text(0), "now");
    assert_eq!(eta_text(59), "now");
    assert_eq!(eta_text(60), "in 1 minutes");
    assert_eq!(eta_text(59 * 60 + 59), "in 59 minutes");
    assert_eq!(eta_text(3600), "in 1 hours");
    assert_eq!(eta_text(3600 + 59), "in 1 hours");
    assert_eq!(eta_text(2 * 3600 + 15 * 60 + 30), "in 2 hours and 15 minutes");
    assert_eq!(eta_text(23 * 3600 + 59 * 60), "in 23 hours and 59 minutes");
    assert_eq!(eta_text(u32::MAX), "in 1193046 hours and 28 minutes");
}
