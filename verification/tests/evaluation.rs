use calendar_ql::calendar::{Date, Month, Weekday};
use calendar_ql::ql::{
    Arithmetic, Context, Evaluate, Expression, Function, PlaceholderUnit, Predicate, TypeError,
};

fn date(year: i32, month: u32, day: u32) -> Date {
    Date::from_ymd(year, month, day).expect("a day of the calendar")
}

fn on(year: i32, month: u32, day: u32) -> Context {
    Context { date: date(year, month, day) }
}

fn number(n: u32) -> Expression {
    Expression::Number(n)
}

fn literal(year: i32, month: u32, day: u32) -> Expression {
    Expression::Date(date(year, month, day))
}

fn placeholder(unit: PlaceholderUnit) -> Expression {
    Expression::Placeholder(unit)
}

fn arithmetic(a: Arithmetic) -> Expression {
    Expression::Arithmetic(Box::new(a))
}

fn function(f: Function) -> Expression {
    Expression::Function(Box::new(f))
}

fn predicate(p: Predicate) -> Expression {
    Expression::Predicate(Box::new(p))
}

fn compare(greater_than: bool, or_equal: bool, left: Expression, right: Expression) -> Predicate {
    Predicate::Comparison { greater_than, or_equal, left, right }
}

#[test]
fn the_date_placeholder_resolves_to_the_context_date() {
    for (y, m, d) in [(2024, 3, 1), (1999, 12, 31), (0, 1, 1), (-262143, 1, 1), (262142, 12, 31)] {
        let context = on(y, m, d);
        assert_eq!(
            placeholder(PlaceholderUnit::Date).evaluate(&context),
            Ok(Expression::Date(date(y, m, d)))
        );
    }
}

#[test]
fn the_other_placeholders_resolve_against_the_context_date() {
    let context = on(2024, 3, 1);
    assert_eq!(
        placeholder(PlaceholderUnit::Weekday).evaluate(&context),
        Ok(Expression::Weekday(Weekday::Fri))
    );
    assert_eq!(placeholder(PlaceholderUnit::Monthday).evaluate(&context), Ok(number(1)));
    assert_eq!(
        placeholder(PlaceholderUnit::Month).evaluate(&context),
        Ok(Expression::Month(Month::March))
    );
    assert_eq!(placeholder(PlaceholderUnit::Year).evaluate(&context), Ok(number(2024)));
}

#[test]
fn the_year_placeholder_counts_within_the_era() {
    assert_eq!(placeholder(PlaceholderUnit::Year).evaluate(&on(1, 1, 1)), Ok(number(1)));
    assert_eq!(placeholder(PlaceholderUnit::Year).evaluate(&on(0, 6, 1)), Ok(number(1)));
    assert_eq!(placeholder(PlaceholderUnit::Year).evaluate(&on(-4, 6, 1)), Ok(number(5)));
    assert_eq!(
        placeholder(PlaceholderUnit::Year).evaluate(&on(-262143, 1, 1)),
        Ok(number(262144))
    );
}

#[test]
fn values_evaluate_to_themselves() {
    let context = on(2024, 3, 1);
    assert_eq!(Expression::Boolean(true).evaluate(&context), Ok(Expression::Boolean(true)));
    assert_eq!(number(7).evaluate(&context), Ok(number(7)));
    assert_eq!(
        Expression::Weekday(Weekday::Tue).evaluate(&context),
        Ok(Expression::Weekday(Weekday::Tue))
    );
    assert_eq!(
        Expression::Month(Month::May).evaluate(&context),
        Ok(Expression::Month(Month::May))
    );
    assert_eq!(literal(2020, 2, 29).evaluate(&context), Ok(literal(2020, 2, 29)));
}

#[test]
fn evaluation_ends_in_a_value() {
    let context = on(2024, 3, 1);
    let nested = arithmetic(Arithmetic::Modulo(
        function(Function::Monthday(arithmetic(Arithmetic::Addition(
            placeholder(PlaceholderUnit::Date),
            number(40),
        )))),
        number(7),
    ));
    // 2024-03-01 + 40 days is 2024-04-10; 10 % 7 is 3.
    assert_eq!(nested.evaluate(&context), Ok(number(3)));
    let wrapped = predicate(Predicate::Equality(nested, number(3)));
    assert_eq!(wrapped.evaluate(&context), Ok(Expression::Boolean(true)));
}

#[test]
fn equality_is_structural_not_typed() {
    let p = Predicate::Equality(number(3), Expression::Weekday(Weekday::Mon));
    for context in [on(2024, 3, 1), on(1970, 1, 1), on(-5, 7, 9)] {
        assert_eq!(p.evaluate(&context), Ok(false));
    }
}

#[test]
fn equality_of_values_of_one_type() {
    let context = on(2024, 3, 1);
    assert_eq!(Predicate::Equality(number(3), number(3)).evaluate(&context), Ok(true));
    assert_eq!(Predicate::Equality(number(3), number(4)).evaluate(&context), Ok(false));
    assert_eq!(
        Predicate::Equality(literal(2024, 3, 1), literal(2024, 3, 1)).evaluate(&context),
        Ok(true)
    );
    assert_eq!(
        Predicate::Equality(literal(2024, 3, 1), literal(2024, 3, 2)).evaluate(&context),
        Ok(false)
    );
    assert_eq!(
        Predicate::Equality(Expression::Boolean(true), Expression::Boolean(true))
            .evaluate(&context),
        Ok(true)
    );
    assert_eq!(
        Predicate::Equality(Expression::Month(Month::March), placeholder(PlaceholderUnit::Month))
            .evaluate(&context),
        Ok(true)
    );
    assert_eq!(
        Predicate::Equality(Expression::Weekday(Weekday::Fri), placeholder(PlaceholderUnit::Weekday))
            .evaluate(&context),
        Ok(true)
    );
    assert_eq!(
        Predicate::Equality(number(1), Expression::Boolean(true)).evaluate(&context),
        Ok(false)
    );
    assert_eq!(
        Predicate::Equality(Expression::Month(Month::January), Expression::Weekday(Weekday::Mon))
            .evaluate(&context),
        Ok(false)
    );
}

#[test]
fn comparison_type_guard() {
    let context = on(2024, 3, 1);
    for d in [date(2024, 3, 1), date(1, 1, 1), date(9999, 12, 31)] {
        for greater_than in [false, true] {
            for or_equal in [false, true] {
                let p = compare(greater_than, or_equal, number(1), Expression::Date(d));
                assert_eq!(p.evaluate(&context), Err(TypeError::Mismatch));
                let q = compare(greater_than, or_equal, Expression::Date(d), number(1));
                assert_eq!(q.evaluate(&context), Err(TypeError::Mismatch));
            }
        }
    }
}

#[test]
fn comparison_takes_no_booleans_weekdays_or_months() {
    let context = on(2024, 3, 1);
    assert_eq!(
        compare(true, true, Expression::Boolean(true), Expression::Boolean(true))
            .evaluate(&context),
        Err(TypeError::Mismatch)
    );
    assert_eq!(
        compare(false, false, Expression::Weekday(Weekday::Mon), Expression::Weekday(Weekday::Tue))
            .evaluate(&context),
        Err(TypeError::Mismatch)
    );
    assert_eq!(
        compare(false, true, Expression::Month(Month::May), Expression::Month(Month::May))
            .evaluate(&context),
        Err(TypeError::Mismatch)
    );
}

#[test]
fn comparison_of_numbers() {
    let context = on(2024, 3, 1);
    assert_eq!(compare(true, false, number(2), number(1)).evaluate(&context), Ok(true));
    assert_eq!(compare(true, false, number(1), number(1)).evaluate(&context), Ok(false));
    assert_eq!(compare(true, true, number(1), number(1)).evaluate(&context), Ok(true));
    assert_eq!(compare(true, true, number(0), number(1)).evaluate(&context), Ok(false));
    assert_eq!(compare(false, false, number(1), number(2)).evaluate(&context), Ok(true));
    assert_eq!(compare(false, false, number(2), number(2)).evaluate(&context), Ok(false));
    assert_eq!(compare(false, true, number(2), number(2)).evaluate(&context), Ok(true));
    assert_eq!(compare(false, true, number(3), number(2)).evaluate(&context), Ok(false));
}

#[test]
fn comparison_of_dates() {
    let context = on(2024, 3, 1);
    let early = || literal(2023, 12, 31);
    let late = || literal(2024, 1, 1);
    assert_eq!(compare(true, false, late(), early()).evaluate(&context), Ok(true));
    assert_eq!(compare(true, false, early(), late()).evaluate(&context), Ok(false));
    assert_eq!(compare(true, false, late(), late()).evaluate(&context), Ok(false));
    assert_eq!(compare(true, true, late(), late()).evaluate(&context), Ok(true));
    assert_eq!(compare(false, false, early(), late()).evaluate(&context), Ok(true));
    assert_eq!(compare(false, false, late(), early()).evaluate(&context), Ok(false));
    assert_eq!(compare(false, true, early(), early()).evaluate(&context), Ok(true));
    assert_eq!(compare(false, false, early(), early()).evaluate(&context), Ok(false));
}

#[test]
fn and_or_not_of_booleans() {
    let context = on(2024, 3, 1);
    let t = || Expression::Boolean(true);
    let f = || Expression::Boolean(false);
    assert_eq!(Predicate::And(t(), t()).evaluate(&context), Ok(true));
    assert_eq!(Predicate::And(t(), f()).evaluate(&context), Ok(false));
    assert_eq!(Predicate::And(f(), t()).evaluate(&context), Ok(false));
    assert_eq!(Predicate::Or(f(), f()).evaluate(&context), Ok(false));
    assert_eq!(Predicate::Or(f(), t()).evaluate(&context), Ok(true));
    assert_eq!(Predicate::Or(t(), f()).evaluate(&context), Ok(true));
    assert_eq!(Predicate::Not(t()).evaluate(&context), Ok(false));
    assert_eq!(Predicate::Not(f()).evaluate(&context), Ok(true));
}

#[test]
fn and_or_not_take_only_booleans() {
    let context = on(2024, 3, 1);
    let t = || Expression::Boolean(true);
    assert_eq!(Predicate::And(t(), number(1)).evaluate(&context), Err(TypeError::Mismatch));
    assert_eq!(Predicate::And(number(1), t()).evaluate(&context), Err(TypeError::Mismatch));
    assert_eq!(Predicate::Or(t(), number(1)).evaluate(&context), Err(TypeError::Mismatch));
    assert_eq!(
        Predicate::Or(literal(2024, 1, 1), t()).evaluate(&context),
        Err(TypeError::Mismatch)
    );
    assert_eq!(Predicate::Not(number(0)).evaluate(&context), Err(TypeError::Mismatch));
    assert_eq!(
        Predicate::Not(Expression::Weekday(Weekday::Mon)).evaluate(&context),
        Err(TypeError::Mismatch)
    );
}

#[test]
fn or_does_not_hide_a_mismatch_on_its_right() {
    let context = on(2024, 3, 1);
    let broken = predicate(Predicate::Not(number(1)));
    assert_eq!(
        Predicate::Or(Expression::Boolean(true), broken).evaluate(&context),
        Err(TypeError::Mismatch)
    );
}

#[test]
fn addition_commutes() {
    let context = on(2024, 3, 1);
    for (d, n, sum) in [
        (date(2024, 3, 1), 0u32, date(2024, 3, 1)),
        (date(2024, 2, 28), 2, date(2024, 3, 1)),
        (date(2023, 12, 25), 7, date(2024, 1, 1)),
        (date(2000, 1, 1), 366, date(2001, 1, 1)),
        (date(1, 1, 1), 738945, date(2024, 3, 1)),
    ] {
        let left = Arithmetic::Addition(Expression::Date(d), number(n));
        let right = Arithmetic::Addition(number(n), Expression::Date(d));
        assert_eq!(left.evaluate(&context), Ok(Expression::Date(sum)));
        assert_eq!(right.evaluate(&context), Ok(Expression::Date(sum)));
    }
}

#[test]
fn addition_beyond_the_calendar_is_a_mismatch() {
    let context = on(2024, 3, 1);
    let last = date(262142, 12, 31);
    assert_eq!(
        Arithmetic::Addition(Expression::Date(last), number(1)).evaluate(&context),
        Err(TypeError::Mismatch)
    );
    assert_eq!(
        Arithmetic::Addition(number(1), Expression::Date(last)).evaluate(&context),
        Err(TypeError::Mismatch)
    );
    assert_eq!(
        Arithmetic::Addition(literal(2024, 3, 1), number(u32::MAX)).evaluate(&context),
        Err(TypeError::Mismatch)
    );
    assert_eq!(
        Arithmetic::Addition(Expression::Date(last), number(0)).evaluate(&context),
        Ok(Expression::Date(last))
    );
}

#[test]
fn addition_takes_one_date_and_one_number() {
    let context = on(2024, 3, 1);
    assert_eq!(
        Arithmetic::Addition(number(1), number(2)).evaluate(&context),
        Err(TypeError::Mismatch)
    );
    assert_eq!(
        Arithmetic::Addition(literal(2024, 1, 1), literal(2024, 1, 2)).evaluate(&context),
        Err(TypeError::Mismatch)
    );
    assert_eq!(
        Arithmetic::Addition(literal(2024, 1, 1), Expression::Boolean(true)).evaluate(&context),
        Err(TypeError::Mismatch)
    );
}

#[test]
fn modulo_of_numbers() {
    let context = on(2024, 3, 1);
    assert_eq!(Arithmetic::Modulo(number(7), number(2)).evaluate(&context), Ok(number(1)));
    assert_eq!(Arithmetic::Modulo(number(8), number(2)).evaluate(&context), Ok(number(0)));
    assert_eq!(Arithmetic::Modulo(number(3), number(5)).evaluate(&context), Ok(number(3)));
    assert_eq!(
        Arithmetic::Modulo(number(u32::MAX), number(10)).evaluate(&context),
        Ok(number(5))
    );
    assert_eq!(
        Arithmetic::Modulo(placeholder(PlaceholderUnit::Monthday), number(2)).evaluate(&context),
        Ok(number(1))
    );
}

#[test]
fn modulo_by_zero_is_a_mismatch() {
    let context = on(2024, 3, 1);
    assert_eq!(
        Arithmetic::Modulo(number(7), number(0)).evaluate(&context),
        Err(TypeError::Mismatch)
    );
    assert_eq!(
        Arithmetic::Modulo(number(0), number(0)).evaluate(&context),
        Err(TypeError::Mismatch)
    );
}

#[test]
fn modulo_takes_only_numbers() {
    let context = on(2024, 3, 1);
    assert_eq!(
        Arithmetic::Modulo(literal(2024, 1, 1), number(2)).evaluate(&context),
        Err(TypeError::Mismatch)
    );
    assert_eq!(
        Arithmetic::Modulo(number(2), Expression::Weekday(Weekday::Mon)).evaluate(&context),
        Err(TypeError::Mismatch)
    );
}

#[test]
fn monthday_and_weekday_of_a_date() {
    let context = on(2024, 3, 1);
    assert_eq!(Function::Monthday(literal(2024, 2, 29)).evaluate(&context), Ok(number(29)));
    assert_eq!(
        Function::Weekday(literal(2024, 2, 29)).evaluate(&context),
        Ok(Expression::Weekday(Weekday::Thu))
    );
    assert_eq!(
        Function::Monthday(placeholder(PlaceholderUnit::Date)).evaluate(&context),
        Ok(number(1))
    );
    assert_eq!(Function::Monthday(number(1)).evaluate(&context), Err(TypeError::Mismatch));
    assert_eq!(Function::Weekday(number(1)).evaluate(&context), Err(TypeError::Mismatch));
    assert_eq!(
        Function::Weekday(Expression::Weekday(Weekday::Mon)).evaluate(&context),
        Err(TypeError::Mismatch)
    );
}

#[test]
fn weekday_predecessor_is_anchored_on_the_context() {
    let call = |wd: Weekday, d: Date| Function::WeekdayPredecessor {
        weekday: Expression::Weekday(wd),
        date: Expression::Date(d),
    };
    // The context is a Wednesday, three days after Sunday: back 3 and 6, forth by the weekday.
    let wednesday = on(2024, 3, 6);
    assert_eq!(
        call(Weekday::Mon, date(2024, 3, 20)).evaluate(&wednesday),
        Ok(literal(2024, 3, 11))
    );
    assert_eq!(
        call(Weekday::Fri, date(2024, 3, 20)).evaluate(&wednesday),
        Ok(literal(2024, 3, 15))
    );
    assert_eq!(
        call(Weekday::Sun, date(2024, 3, 20)).evaluate(&wednesday),
        Ok(literal(2024, 3, 17))
    );
    // The same call under a Sunday and under a Saturday.
    assert_eq!(
        call(Weekday::Mon, date(2024, 3, 20)).evaluate(&on(2024, 3, 3)),
        Ok(literal(2024, 3, 14))
    );
    assert_eq!(
        call(Weekday::Mon, date(2024, 3, 20)).evaluate(&on(2024, 3, 2)),
        Ok(literal(2024, 3, 8))
    );
    assert_eq!(
        call(Weekday::Sun, date(2024, 3, 3)).evaluate(&on(2024, 3, 3)),
        Ok(literal(2024, 3, 3))
    );
}

#[test]
fn weekday_predecessor_takes_a_weekday_and_a_date() {
    let context = on(2024, 3, 6);
    assert_eq!(
        (Function::WeekdayPredecessor { weekday: number(1), date: literal(2024, 3, 20) })
            .evaluate(&context),
        Err(TypeError::Mismatch)
    );
    assert_eq!(
        (Function::WeekdayPredecessor {
            weekday: Expression::Weekday(Weekday::Mon),
            date: number(1),
        })
        .evaluate(&context),
        Err(TypeError::Mismatch)
    );
    assert_eq!(
        (Function::WeekdayPredecessor {
            weekday: literal(2024, 3, 20),
            date: Expression::Weekday(Weekday::Mon),
        })
        .evaluate(&context),
        Err(TypeError::Mismatch)
    );
}

#[test]
fn weekday_predecessor_before_the_calendar_is_a_mismatch() {
    let context = on(2024, 3, 6);
    assert_eq!(
        (Function::WeekdayPredecessor {
            weekday: Expression::Weekday(Weekday::Mon),
            date: literal(-262143, 1, 5),
        })
        .evaluate(&context),
        Err(TypeError::Mismatch)
    );
}

#[test]
fn number_of_weeks_is_symmetric() {
    let context = on(2024, 3, 1);
    for (a, b, weeks) in [
        (date(2024, 1, 1), date(2024, 1, 15), 2u32),
        (date(2024, 1, 1), date(2024, 1, 14), 1),
        (date(2024, 1, 1), date(2024, 1, 1), 0),
        (date(2023, 12, 25), date(2024, 3, 1), 9),
        (date(1, 1, 1), date(2024, 3, 1), 105563),
    ] {
        let one = Function::NumberOfWeeks { low: Expression::Date(a), high: Expression::Date(b) };
        let other = Function::NumberOfWeeks { low: Expression::Date(b), high: Expression::Date(a) };
        assert_eq!(one.evaluate(&context), Ok(number(weeks)));
        assert_eq!(other.evaluate(&context), Ok(number(weeks)));
    }
}

#[test]
fn number_of_weeks_takes_two_dates() {
    let context = on(2024, 3, 1);
    assert_eq!(
        (Function::NumberOfWeeks { low: number(1), high: literal(2024, 1, 1) }).evaluate(&context),
        Err(TypeError::Mismatch)
    );
    assert_eq!(
        (Function::NumberOfWeeks { low: literal(2024, 1, 1), high: number(1) }).evaluate(&context),
        Err(TypeError::Mismatch)
    );
}

#[test]
fn a_mismatch_deep_inside_comes_out_at_the_top() {
    let context = on(2024, 3, 1);
    let broken = || arithmetic(Arithmetic::Modulo(number(1), Expression::Boolean(true)));
    assert_eq!(
        Predicate::Equality(broken(), number(1)).evaluate(&context),
        Err(TypeError::Mismatch)
    );
    assert_eq!(
        Predicate::Equality(number(1), broken()).evaluate(&context),
        Err(TypeError::Mismatch)
    );
    assert_eq!(Function::Monthday(broken()).evaluate(&context), Err(TypeError::Mismatch));
    assert_eq!(
        predicate(Predicate::Not(broken())).evaluate(&context),
        Err(TypeError::Mismatch)
    );
}

#[test]
fn as_predicate_takes_the_predicate_out() {
    let p = predicate(Predicate::Not(Expression::Boolean(true)));
    assert_eq!(p.as_predicate(), Some(Predicate::Not(Expression::Boolean(true))));
    assert_eq!(number(1).as_predicate(), None);
    assert_eq!(arithmetic(Arithmetic::Addition(number(1), number(2))).as_predicate(), None);
}

#[test]
fn a_clone_is_the_same_tree() {
    let tree = predicate(Predicate::Or(
        predicate(compare(
            true,
            true,
            function(Function::NumberOfWeeks {
                low: literal(2024, 1, 1),
                high: placeholder(PlaceholderUnit::Date),
            }),
            arithmetic(Arithmetic::Modulo(placeholder(PlaceholderUnit::Year), number(4))),
        )),
        predicate(Predicate::Not(Expression::Boolean(false))),
    ));
    assert_eq!(tree.clone(), tree);
    let p = Predicate::Equality(Expression::Month(Month::May), placeholder(PlaceholderUnit::Month));
    assert_eq!(p.clone(), p);
    let a = Arithmetic::Addition(literal(2024, 1, 1), number(1));
    assert_eq!(a.clone(), a);
    let f = Function::WeekdayPredecessor {
        weekday: Expression::Weekday(Weekday::Mon),
        date: literal(2024, 1, 1),
    };
    assert_eq!(f.clone(), f);
}
