use calendar_ql::calendar::{Date, Month, Weekday};
use calendar_ql::ql::grammar::{parse_expression, parse_predicate, parse_time_pair, SyntaxError};
use calendar_ql::ql::lexer::{tokenize, Token};
use calendar_ql::ql::{
    Arithmetic, Context, Evaluate, Expression, Function, PlaceholderUnit, Predicate,
};
use calendar_ql::schedule::{Time, TimePair};

fn a_date(year: i32, month: u32, day: u32) -> Expression {
    Expression::Date(Date::from_ymd(year, month, day).expect("a day of the calendar"))
}

fn num(n: u32) -> Expression {
    Expression::Number(n)
}

fn unit(u: PlaceholderUnit) -> Expression {
    Expression::Placeholder(u)
}

fn pred(p: Predicate) -> Expression {
    Expression::Predicate(Box::new(p))
}

fn arith(a: Arithmetic) -> Expression {
    Expression::Arithmetic(Box::new(a))
}

fn func(f: Function) -> Expression {
    Expression::Function(Box::new(f))
}

fn pair(h1: u32, m1: u32, h2: u32, m2: u32) -> TimePair {
    TimePair(
        Time::from_hm(h1, m1).expect("a time of day"),
        Time::from_hm(h2, m2).expect("a time of day"),
    )
}

#[test]
fn tokens_of_a_text() {
    let tokens = tokenize("wdp(mon, 2024-03-01) >= date & !true").expect("tokens");
    assert_eq!(
        tokens,
        vec![
            Token::Wdp,
            Token::LeftParen,
            Token::Weekday(Weekday::Mon),
            Token::Comma,
            Token::Date(Date::from_ymd(2024, 3, 1).unwrap()),
            Token::RightParen,
            Token::GreaterEqual,
            Token::DateWord,
            Token::Amp,
            Token::Bang,
            Token::True,
        ]
    );
}

#[test]
fn tokens_need_no_space_between_them() {
    assert_eq!(
        tokenize("md%2=0|y<=7").expect("tokens"),
        vec![
            Token::Md,
            Token::Percent,
            Token::Number(2),
            Token::Equal,
            Token::Number(0),
            Token::Pipe,
            Token::Y,
            Token::LessEqual,
            Token::Number(7),
        ]
    );
    assert_eq!(tokenize(" \t\n 5 \r\n").expect("tokens"), vec![Token::Number(5)]);
    assert_eq!(tokenize("").expect("tokens"), vec![]);
    assert_eq!(
        tokenize("< = > =").expect("tokens"),
        vec![Token::Less, Token::Equal, Token::Greater, Token::Equal]
    );
}

#[test]
fn a_word_takes_all_the_letters_there_are() {
    assert_eq!(tokenize("mo").expect("tokens"), vec![Token::Mo]);
    assert_eq!(tokenize("mon").expect("tokens"), vec![Token::Weekday(Weekday::Mon)]);
    assert_eq!(tokenize("wd").expect("tokens"), vec![Token::Wd]);
    assert_eq!(tokenize("wdp").expect("tokens"), vec![Token::Wdp]);
    assert_eq!(tokenize("date").expect("tokens"), vec![Token::DateWord]);
    assert_eq!(tokenize("dec").expect("tokens"), vec![Token::Month(Month::December)]);
    assert_eq!(tokenize("wd2").expect("tokens"), vec![Token::Wd, Token::Number(2)]);
    assert_eq!(tokenize("mond"), None);
    assert_eq!(tokenize("Mon"), None);
    assert_eq!(tokenize("dates"), None);
}

#[test]
fn numbers_and_dates_as_tokens() {
    assert_eq!(tokenize("007").expect("tokens"), vec![Token::Number(7)]);
    assert_eq!(tokenize("4294967295").expect("tokens"), vec![Token::Number(u32::MAX)]);
    assert_eq!(tokenize("4294967296"), None);
    assert_eq!(tokenize("99999999999999999999999999"), None);
    assert_eq!(
        tokenize("0000-01-01").expect("tokens"),
        vec![Token::Date(Date::from_ymd(0, 1, 1).unwrap())]
    );
    assert_eq!(tokenize("2023-02-29"), None);
    assert_eq!(tokenize("2023-13-01"), None);
    assert_eq!(tokenize("2023-1-01"), None);
    assert_eq!(tokenize("12024-03-01"), None);
    assert_eq!(
        tokenize("2024-03-011").expect("tokens"),
        vec![Token::Date(Date::from_ymd(2024, 3, 1).unwrap()), Token::Number(1)]
    );
}

#[test]
fn literals_and_placeholders() {
    assert_eq!(parse_expression("true"), Ok(Expression::Boolean(true)));
    assert_eq!(parse_expression("false"), Ok(Expression::Boolean(false)));
    assert_eq!(parse_expression("14"), Ok(num(14)));
    assert_eq!(parse_expression("tue"), Ok(Expression::Weekday(Weekday::Tue)));
    assert_eq!(parse_expression("sep"), Ok(Expression::Month(Month::September)));
    assert_eq!(parse_expression("2024-03-01"), Ok(a_date(2024, 3, 1)));
    assert_eq!(parse_expression("wd"), Ok(unit(PlaceholderUnit::Weekday)));
    assert_eq!(parse_expression("md"), Ok(unit(PlaceholderUnit::Monthday)));
    assert_eq!(parse_expression("mo"), Ok(unit(PlaceholderUnit::Month)));
    assert_eq!(parse_expression("y"), Ok(unit(PlaceholderUnit::Year)));
    assert_eq!(parse_expression("date"), Ok(unit(PlaceholderUnit::Date)));
}

#[test]
fn function_calls() {
    assert_eq!(
        parse_expression("md(date)"),
        Ok(func(Function::Monthday(unit(PlaceholderUnit::Date))))
    );
    assert_eq!(
        parse_expression("wd(2024-03-01)"),
        Ok(func(Function::Weekday(a_date(2024, 3, 1))))
    );
    assert_eq!(
        parse_expression("wdp(mon, date)"),
        Ok(func(Function::WeekdayPredecessor {
            weekday: Expression::Weekday(Weekday::Mon),
            date: unit(PlaceholderUnit::Date),
        }))
    );
    assert_eq!(
        parse_expression("nw(2024-01-01, date + 7)"),
        Ok(func(Function::NumberOfWeeks {
            low: a_date(2024, 1, 1),
            high: arith(Arithmetic::Addition(unit(PlaceholderUnit::Date), num(7))),
        }))
    );
    assert_eq!(
        parse_expression("md(wdp(fri, date) + 1)"),
        Ok(func(Function::Monthday(arith(Arithmetic::Addition(
            func(Function::WeekdayPredecessor {
                weekday: Expression::Weekday(Weekday::Fri),
                date: unit(PlaceholderUnit::Date),
            }),
            num(1),
        )))))
    );
}

#[test]
fn the_example_predicate() {
    let parsed = parse_expression("date = wd(date) & md(date) % 2 = 0");
    let expected = pred(Predicate::And(
        pred(Predicate::Equality(
            unit(PlaceholderUnit::Date),
            func(Function::Weekday(unit(PlaceholderUnit::Date))),
        )),
        pred(Predicate::Equality(
            arith(Arithmetic::Modulo(func(Function::Monthday(unit(PlaceholderUnit::Date))), num(2))),
            num(0),
        )),
    ));
    assert_eq!(parsed, Ok(expected));
}

#[test]
fn or_binds_weaker_than_and() {
    let t = || Expression::Boolean(true);
    let f = || Expression::Boolean(false);
    assert_eq!(
        parse_expression("true | false & true"),
        Ok(pred(Predicate::Or(t(), pred(Predicate::And(f(), t())))))
    );
    assert_eq!(
        parse_expression("true & false | true"),
        Ok(pred(Predicate::Or(pred(Predicate::And(t(), f())), t())))
    );
}

#[test]
fn relations_bind_weaker_than_sums_and_stronger_than_and() {
    assert_eq!(
        parse_expression("md % 2 = 0 & y > 2000 + 1"),
        Ok(pred(Predicate::And(
            pred(Predicate::Equality(
                arith(Arithmetic::Modulo(unit(PlaceholderUnit::Monthday), num(2))),
                num(0)
            )),
            pred(Predicate::Comparison {
                greater_than: true,
                or_equal: false,
                left: unit(PlaceholderUnit::Year),
                right: arith(Arithmetic::Addition(num(2000), num(1))),
            }),
        )))
    );
}

#[test]
fn not_binds_stronger_than_every_operator() {
    assert_eq!(
        parse_expression("!true = false"),
        Ok(pred(Predicate::Equality(
            pred(Predicate::Not(Expression::Boolean(true))),
            Expression::Boolean(false)
        )))
    );
    assert_eq!(
        parse_expression("!!true"),
        Ok(pred(Predicate::Not(pred(Predicate::Not(Expression::Boolean(true))))))
    );
    assert_eq!(
        parse_expression("true & !false"),
        Ok(pred(Predicate::And(
            Expression::Boolean(true),
            pred(Predicate::Not(Expression::Boolean(false)))
        )))
    );
}

#[test]
fn operators_group_to_the_left() {
    assert_eq!(
        parse_expression("date + 1 + 2"),
        Ok(arith(Arithmetic::Addition(
            arith(Arithmetic::Addition(unit(PlaceholderUnit::Date), num(1))),
            num(2)
        )))
    );
    assert_eq!(
        parse_expression("md % 4 % 2"),
        Ok(arith(Arithmetic::Modulo(
            arith(Arithmetic::Modulo(unit(PlaceholderUnit::Monthday), num(4))),
            num(2)
        )))
    );
    assert_eq!(
        parse_expression("1 = 1 = true"),
        Ok(pred(Predicate::Equality(
            pred(Predicate::Equality(num(1), num(1))),
            Expression::Boolean(true)
        )))
    );
    assert_eq!(
        parse_expression("true | false | true"),
        Ok(pred(Predicate::Or(
            pred(Predicate::Or(Expression::Boolean(true), Expression::Boolean(false))),
            Expression::Boolean(true)
        )))
    );
}

#[test]
fn the_four_order_comparisons() {
    let cmp = |greater_than, or_equal| {
        Ok(pred(Predicate::Comparison { greater_than, or_equal, left: num(1), right: num(2) }))
    };
    assert_eq!(parse_expression("1 < 2"), cmp(false, false));
    assert_eq!(parse_expression("1 <= 2"), cmp(false, true));
    assert_eq!(parse_expression("1 > 2"), cmp(true, false));
    assert_eq!(parse_expression("1 >= 2"), cmp(true, true));
}

#[test]
fn text_that_is_no_token() {
    assert_eq!(parse_expression("date = #"), Err(SyntaxError::UnknownToken));
    assert_eq!(parse_expression("monday"), Err(SyntaxError::UnknownToken));
    assert_eq!(parse_expression("2023-02-30"), Err(SyntaxError::UnknownToken));
    assert_eq!(parse_expression("4294967296"), Err(SyntaxError::UnknownToken));
    assert_eq!(parse_expression("1 - 2"), Err(SyntaxError::UnknownToken));
    assert_eq!(parse_expression("1 != 2"), Err(SyntaxError::UnexpectedToken));
    assert_eq!(parse_expression("TRUE"), Err(SyntaxError::UnknownToken));
    assert_eq!(parse_expression("date = \u{e9}"), Err(SyntaxError::UnknownToken));
}

#[test]
fn tokens_that_are_no_expression() {
    assert_eq!(parse_expression(""), Err(SyntaxError::UnexpectedToken));
    assert_eq!(parse_expression("   "), Err(SyntaxError::UnexpectedToken));
    assert_eq!(parse_expression("date ="), Err(SyntaxError::UnexpectedToken));
    assert_eq!(parse_expression("= date"), Err(SyntaxError::UnexpectedToken));
    assert_eq!(parse_expression("1 2"), Err(SyntaxError::UnexpectedToken));
    assert_eq!(parse_expression("(1)"), Err(SyntaxError::UnexpectedToken));
    assert_eq!(parse_expression("md(date"), Err(SyntaxError::UnexpectedToken));
    assert_eq!(parse_expression("md()"), Err(SyntaxError::UnexpectedToken));
    assert_eq!(parse_expression("md(date, date)"), Err(SyntaxError::UnexpectedToken));
    assert_eq!(parse_expression("wdp(mon)"), Err(SyntaxError::UnexpectedToken));
    assert_eq!(parse_expression("wdp mon, date"), Err(SyntaxError::UnexpectedToken));
    assert_eq!(parse_expression("nw(date, date, date)"), Err(SyntaxError::UnexpectedToken));
    assert_eq!(parse_expression("mo(date)"), Err(SyntaxError::UnexpectedToken));
    assert_eq!(parse_expression("true &"), Err(SyntaxError::UnexpectedToken));
    assert_eq!(parse_expression("!"), Err(SyntaxError::UnexpectedToken));
    assert_eq!(parse_expression("1 + 2)"), Err(SyntaxError::UnexpectedToken));
}

#[test]
fn the_predicate_entry_point() {
    assert_eq!(
        parse_predicate("date = 2024-03-01"),
        Ok(Predicate::Equality(unit(PlaceholderUnit::Date), a_date(2024, 3, 1)))
    );
    assert_eq!(parse_predicate("!true"), Ok(Predicate::Not(Expression::Boolean(true))));
    assert_eq!(parse_predicate("md"), Err(SyntaxError::NotAPredicate));
    assert_eq!(parse_predicate("true"), Err(SyntaxError::NotAPredicate));
    assert_eq!(parse_predicate("date + 1"), Err(SyntaxError::NotAPredicate));
    assert_eq!(parse_predicate("md(date)"), Err(SyntaxError::NotAPredicate));
    assert_eq!(parse_predicate("date = "), Err(SyntaxError::UnexpectedToken));
    assert_eq!(parse_predicate("date = ?"), Err(SyntaxError::UnknownToken));
}

#[test]
fn canonical_text_of_each_node() {
    assert_eq!(Expression::Boolean(true).to_string(), "true");
    assert_eq!(Expression::Boolean(false).to_string(), "false");
    assert_eq!(num(0).to_string(), "0");
    assert_eq!(num(4294967295).to_string(), "4294967295");
    assert_eq!(Expression::Weekday(Weekday::Thu).to_string(), "thu");
    assert_eq!(Expression::Month(Month::August).to_string(), "aug");
    assert_eq!(a_date(2024, 3, 1).to_string(), "2024-03-01");
    assert_eq!(unit(PlaceholderUnit::Weekday).to_string(), "wd");
    assert_eq!(unit(PlaceholderUnit::Monthday).to_string(), "md");
    assert_eq!(unit(PlaceholderUnit::Month).to_string(), "mo");
    assert_eq!(unit(PlaceholderUnit::Year).to_string(), "y");
    assert_eq!(unit(PlaceholderUnit::Date).to_string(), "date");
    assert_eq!(PlaceholderUnit::Date.to_string(), "date");
    assert_eq!(Predicate::Equality(num(1), num(2)).to_string(), "1 = 2");
    assert_eq!(Predicate::And(num(1), num(2)).to_string(), "1 & 2");
    assert_eq!(Predicate::Or(num(1), num(2)).to_string(), "1 | 2");
    assert_eq!(Predicate::Not(num(1)).to_string(), "!1");
    let cmp = |greater_than, or_equal| Predicate::Comparison {
        greater_than,
        or_equal,
        left: num(1),
        right: num(2),
    };
    assert_eq!(cmp(true, false).to_string(), "1 > 2");
    assert_eq!(cmp(true, true).to_string(), "1 >= 2");
    assert_eq!(cmp(false, false).to_string(), "1 < 2");
    assert_eq!(cmp(false, true).to_string(), "1 <= 2");
    assert_eq!(Arithmetic::Addition(num(1), num(2)).to_string(), "1 + 2");
    assert_eq!(Arithmetic::Modulo(num(1), num(2)).to_string(), "1 % 2");
    assert_eq!(Function::Monthday(num(1)).to_string(), "md(1)");
    assert_eq!(Function::Weekday(num(1)).to_string(), "wd(1)");
    assert_eq!(
        (Function::WeekdayPredecessor { weekday: num(1), date: num(2) }).to_string(),
        "wdp(1, 2)"
    );
    assert_eq!((Function::NumberOfWeeks { low: num(1), high: num(2) }).to_string(), "nw(1, 2)");
}

#[test]
fn round_trip_of_canonical_texts() {
    for text in [
        "true",
        "0",
        "4294967295",
        "sun",
        "may",
        "0000-01-01",
        "9999-12-31",
        "date = 2024-03-01",
        "date = wd(date) & md(date) % 2 = 0",
        "wd = mon | wd = wed | wd = fri",
        "!true & !!false | md >= 15",
        "nw(2024-01-01, date) % 2 = 0 & wd = tue",
        "wdp(fri, date + 6) = date",
        "md(wdp(sun, nw(date, date) + date)) <= y % 100",
        "date + 1 + 2 > 2024-12-31",
        "mo = dec & md = 24 | mo = jan & md < 7",
        "wd(md(wd(md(date)))) = 1 = false",
    ] {
        let parsed = parse_expression(text).expect("canonical text");
        assert_eq!(parsed.to_string(), text);
        assert_eq!(parse_expression(&parsed.to_string()), Ok(parsed));
    }
}

#[test]
fn round_trip_of_other_texts() {
    for (text, canonical) in [
        ("date=2024-03-01", "date = 2024-03-01"),
        ("  md( date )%2   =0  ", "md(date) % 2 = 0"),
        ("wdp(mon,date)", "wdp(mon, date)"),
        ("007", "7"),
        ("!\ttrue", "!true"),
        ("1<=2&3>=4", "1 <= 2 & 3 >= 4"),
    ] {
        let parsed = parse_expression(text).expect("a text of the language");
        assert_eq!(parsed.to_string(), canonical);
        assert_eq!(parse_expression(canonical), Ok(parsed));
    }
}

#[test]
fn text_without_parentheses_is_not_read_back_as_every_tree() {
    let by_hand = pred(Predicate::And(
        pred(Predicate::Or(Expression::Boolean(true), Expression::Boolean(false))),
        Expression::Boolean(false),
    ));
    let text = by_hand.to_string();
    assert_eq!(text, "true | false & false");
    let read = parse_expression(&text).expect("canonical text");
    assert_ne!(read, by_hand);
    let context = Context { date: Date::from_ymd(2024, 3, 1).unwrap() };
    assert_eq!(by_hand.evaluate(&context), Ok(Expression::Boolean(false)));
    assert_eq!(read.evaluate(&context), Ok(Expression::Boolean(true)));
}

#[test]
fn time_pairs() {
    assert_eq!(parse_time_pair("9:5-10:30"), Ok(pair(9, 5, 10, 30)));
    assert_eq!(parse_time_pair("09:05-10:30"), Ok(pair(9, 5, 10, 30)));
    assert_eq!(parse_time_pair("0:0-23:59"), Ok(pair(0, 0, 23, 59)));
    assert_eq!(parse_time_pair("18:00-8:00"), Ok(pair(18, 0, 8, 0)));
    assert_eq!(parse_time_pair("000012:00030-13:0"), Ok(pair(12, 30, 13, 0)));
}

#[test]
fn texts_that_are_no_time_pair() {
    for text in [
        "",
        "9:5",
        "9:5-",
        "9:5-10",
        "9:5-10:",
        "9-10",
        ":5-10:30",
        "9:-10:30",
        "24:00-10:30",
        "9:60-10:30",
        "9:05-24:00",
        "9:05-10:60",
        "9:5 - 10:30",
        " 9:5-10:30",
        "9:5-10:30 ",
        "9:5-10:30-11:00",
        "9.5-10.30",
        "a:b-c:d",
        "4294967296:00-10:30",
        "9:5\u{2013}10:30",
    ] {
        assert_eq!(parse_time_pair(text), Err(SyntaxError::NotATimePair), "{}", text);
    }
}

#[test]
fn round_trip_of_time_pairs() {
    for (h1, m1, h2, m2) in [(0, 0, 0, 0), (9, 5, 10, 30), (23, 59, 0, 1), (12, 0, 12, 0)] {
        let p = pair(h1, m1, h2, m2);
        assert_eq!(parse_time_pair(&p.to_string()), Ok(p));
    }
    assert_eq!(pair(9, 5, 10, 30).to_string(), "9:5-10:30");
    assert_eq!(pair(0, 0, 23, 59).to_string(), "0:0-23:59");
}
