use minti::clock::{duration_until_time, Moment};
use minti::duration::Duration;
use minti::error::Error;
use minti::number::Decimal;
use minti::single::{eval, interpret_single, parse_input};
use minti::token::Token;
use minti::units::TimeUnit;
use minti::units::TimeOfDay;

const MIN: i64 = 60_000;
const HOUR: i64 = 3_600_000;
const DAY: i64 = 86_400_000;
const SEC: i64 = 1000;

fn now() -> Moment {
    // 2023-11-14 22:13:20 UTC, read in a zone where it is 10:30 in the morning
    Moment { unix_ms: 1_700_000_000_000, day_ms: 10 * HOUR + 30 * MIN }
}

fn ms(x: i64) -> Duration {
    Duration::from_millis(x)
}

fn float_ms(x: f64, unit: i64) -> Duration {
    Duration::from_millis((x * unit as f64).round() as i64)
}

fn at(h: u8, m: u8, s: u8) -> Duration {
    duration_until_time(TimeOfDay::from_hms(h, m, s).unwrap(), now())
}

#[test]
fn interpreter_plain_int_as_mins() {
    assert_eq!(interpret_single("23", now()).unwrap(), ms(23 * MIN));
    assert_eq!(interpret_single("938", now()).unwrap(), ms(938 * MIN));
    assert_eq!(interpret_single("0", now()).unwrap(), ms(0));
}

#[test]
fn interpreter_single_units() {
    assert_eq!(interpret_single("3h", now()).unwrap(), ms(3 * HOUR));
    assert_eq!(interpret_single("10 h", now()).unwrap(), ms(10 * HOUR));
    assert_eq!(interpret_single("1.61 h", now()).unwrap(), float_ms(1.61, HOUR));
    assert_eq!(interpret_single("2 hours", now()).unwrap(), ms(2 * HOUR));
    assert_eq!(interpret_single("3m", now()).unwrap(), ms(3 * MIN));
    assert_eq!(interpret_single("49ms", now()).unwrap(), ms(49));
}

#[test]
fn interpreter_multiple_units() {
    assert_eq!(interpret_single("3h21m", now()).unwrap(), ms(3 * HOUR + 21 * MIN));
    assert_eq!(
        interpret_single("8d 23h 12m 5s 91ms", now()).unwrap(),
        ms(8 * DAY + 23 * HOUR + 12 * MIN + 5 * SEC + 91)
    );
}

#[test]
fn interpreter_trailing_number() {
    assert_eq!(interpret_single("3h4", now()).unwrap(), ms(3 * HOUR + 4 * MIN));
    assert_eq!(
        interpret_single("3d 23h 12.3m 2", now()).unwrap(),
        ms(3 * DAY + 23 * HOUR + float_ms(12.3, MIN).ms + 2 * SEC)
    );
}

#[test]
fn interpreter_specific_12h_time() {
    assert_eq!(interpret_single("3pm", now()).unwrap(), at(3 + 12, 0, 0));
    assert_eq!(interpret_single("3:12pm", now()).unwrap(), at(3 + 12, 12, 0));
    assert_eq!(interpret_single("5:12:30 am", now()).unwrap(), at(5, 12, 30));
}

#[test]
fn interpreter_raises_error() {
    for value in ["3.24x", "abc", "3:5:6:2:1", "", "h", "10s 300ms 10", "13:0:0am", "3pm 10"] {
        assert!(interpret_single(value, now()).is_err(), "{value} should have been an Err.");
    }
}

#[test]
fn parse_plain_int_as_mins() {
    assert_eq!(parse_input("23", now()).unwrap(), ms(23 * MIN));
    assert_eq!(parse_input("938", now()).unwrap(), ms(938 * MIN));
    assert_eq!(parse_input("0", now()).unwrap(), ms(0));
}

#[test]
fn parse_single_units() {
    assert_eq!(parse_input("3h", now()).unwrap(), ms(3 * HOUR));
    assert_eq!(parse_input("10 h", now()).unwrap(), ms(10 * HOUR));
    assert_eq!(parse_input("1.61 h", now()).unwrap(), float_ms(1.61, HOUR));
    assert_eq!(parse_input("2 hours", now()).unwrap(), ms(2 * HOUR));
    assert_eq!(parse_input("3m", now()).unwrap(), ms(3 * MIN));
    assert_eq!(parse_input("49ms", now()).unwrap(), ms(49));
}

#[test]
fn parse_multiple_units() {
    assert_eq!(parse_input("3h21m", now()).unwrap(), ms(3 * HOUR + 21 * MIN));
    assert_eq!(
        parse_input("8d 23h 12m 5s 91ms", now()).unwrap(),
        ms(8 * DAY + 23 * HOUR + 12 * MIN + 5 * SEC + 91)
    );
}

#[test]
fn parse_trailing_number() {
    assert_eq!(parse_input("3h4", now()).unwrap(), ms(3 * HOUR + 4 * MIN));
    assert_eq!(
        parse_input("3d 23h 12.3m 2", now()).unwrap(),
        ms(3 * DAY + 23 * HOUR + float_ms(12.3, MIN).ms + 2 * SEC)
    );
}

#[test]
fn parse_specific_12h_time() {
    assert_eq!(parse_input("3pm", now()).unwrap(), at(3 + 12, 0, 0));
    assert_eq!(parse_input("3:12pm", now()).unwrap(), at(3 + 12, 12, 0));
    assert_eq!(parse_input("5:12:30 am", now()).unwrap(), at(5, 12, 30));
}

#[test]
fn parse_raises_error() {
    for value in ["3.24x", "abc", "3:5:6:2:1", "", "h", "10s 300ms 10", "13:0:0am", "3pm 10"] {
        assert!(parse_input(value, now()).is_err(), "{value} should have been an Err.");
    }
}

#[test]
fn unit_synonyms_agree() {
    let n = now();
    assert_eq!(interpret_single("3h", n), interpret_single("3 hours", n));
    assert_eq!(interpret_single("2ms", n), interpret_single("2 milliseconds", n));
    assert_eq!(interpret_single("4d", n), interpret_single("4days", n));
    assert_eq!(interpret_single("5S", n), interpret_single("5 secs", n));
}

#[test]
fn trailing_number_takes_next_smaller_unit() {
    let n = now();
    assert_eq!(interpret_single("3h4", n), interpret_single("3h 4m", n));
    assert_eq!(interpret_single("2m 30", n), interpret_single("2m 30s", n));
    assert_eq!(interpret_single("1d2", n), interpret_single("1d 2h", n));
}

#[test]
fn closest_occurrence_without_meridiem() {
    // at 10:30, 3:00 is nearer after noon, 11:00 before noon
    assert_eq!(interpret_single("3:", now()).unwrap(), ms(4 * HOUR + 30 * MIN));
    assert_eq!(interpret_single("11:00", now()).unwrap(), ms(30 * MIN));
    assert_eq!(interpret_single("10:30", now()).unwrap(), ms(12 * HOUR));
    assert_eq!(interpret_single("12:00", now()).unwrap(), ms(HOUR + 30 * MIN));
}

#[test]
fn time_of_day_is_within_a_day() {
    assert_eq!(interpret_single("10:30am", now()).unwrap(), ms(DAY));
    assert_eq!(interpret_single("10:31am", now()).unwrap(), ms(MIN));
    assert_eq!(interpret_single("12am", now()).unwrap(), ms(13 * HOUR + 30 * MIN));
}

#[test]
fn each_error_variant() {
    let n = now();
    assert_eq!(interpret_single("3$", n), Err(Error::InvalidCharacter('$')));
    assert_eq!(interpret_single("1.2.3h", n), Err(Error::InvalidNumber("1.2.3".to_string())));
    assert_eq!(interpret_single("3.5:00", n), Err(Error::InvalidNumber("3.5".to_string())));
    assert_eq!(interpret_single("3x", n), Err(Error::InvalidUnit("x".to_string())));
    assert_eq!(
        interpret_single("2s 3ms 4", n),
        Err(Error::SmallerThanMilli(Decimal { mantissa: 4, scale: 0 }))
    );
    assert_eq!(interpret_single("3:00h", n), Err(Error::ClashingFormats));
    assert_eq!(interpret_single("1:2:3:4", n), Err(Error::TooManySeparators));
    assert_eq!(interpret_single("", n), Err(Error::Empty));
    assert_eq!(interpret_single("pm", n), Err(Error::Empty));
    assert_eq!(interpret_single("3pm 10", n), Err(Error::Unknown));
    assert_eq!(interpret_single("13:0:0am", n), Err(Error::Unknown));
    assert_eq!(interpret_single("99999999999999999999", n), Err(Error::Overflow));
}

#[test]
fn numbers_with_dots() {
    let n = now();
    assert_eq!(interpret_single("1.", n).unwrap(), ms(MIN));
    assert_eq!(interpret_single(".5", n).unwrap(), ms(30 * SEC));
    assert_eq!(interpret_single("0.0015s", n).unwrap(), ms(1));
    assert_eq!(interpret_single(".", n), Err(Error::InvalidNumber(".".to_string())));
}

#[test]
fn a_unit_needs_a_number_before_it() {
    let three = Decimal { mantissa: 3, scale: 0 };
    assert_eq!(interpret_single("h3", now()), Err(Error::ClashingFormats));
    assert_eq!(
        eval(&vec![Token::Unit(TimeUnit::Hour), Token::Number(three), Token::Unit(TimeUnit::Min)]),
        Err(Error::ClashingFormats)
    );
    assert_eq!(
        eval(&vec![Token::Number(three), Token::Unit(TimeUnit::Hour), Token::Unit(TimeUnit::Min)]),
        Err(Error::ClashingFormats)
    );
}

#[test]
fn synonyms_in_any_case_and_with_decimals() {
    let n = now();
    assert_eq!(interpret_single("1.5H", n), interpret_single("1.5 hours", n));
    assert_eq!(interpret_single("1.5 Hours", n).unwrap(), ms(90 * MIN));
    assert_eq!(interpret_single("2.25MIN", n).unwrap(), ms(135 * SEC));
}

#[test]
fn trailing_number_after_longer_units_text() {
    let n = now();
    assert_eq!(interpret_single("1d 2h 30m 15", n), interpret_single("1d 2h 30m 15 S", n));
    assert_eq!(interpret_single("1d 2h 30m 15", n).unwrap(), ms(DAY + 2 * HOUR + 30 * MIN + 15 * SEC));
    assert_eq!(
        interpret_single("2s 3ms 4", n),
        Err(Error::SmallerThanMilli(Decimal { mantissa: 4, scale: 0 }))
    );
}

#[test]
fn closest_occurrence_with_seconds() {
    // at 10:30 the nearer reading of 10:45:30 is before noon, of 1:00:00 after noon
    assert_eq!(interpret_single("10:45:30", now()).unwrap(), ms(15 * MIN + 30 * SEC));
    assert_eq!(interpret_single("1:00:00", now()).unwrap(), ms(2 * HOUR + 30 * MIN));
}
