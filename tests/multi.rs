use minti::error::Error;
use minti::multi::parse;
use minti::number::Decimal;
use minti::sequence::{interpret_multi, InputIter};

fn collect(mut it: InputIter) -> Vec<String> {
    let mut out = Vec::new();
    while let Some(s) = it.next() {
        out.push(s);
    }
    out
}

fn multi(input: &str) -> Vec<String> {
    collect(interpret_multi(input).unwrap())
}

#[test]
fn parse_valid() {
    assert_eq!(parse("1 + 2 * 3").unwrap().to_string(), "(+ 1 (* 2 3))");
    assert_eq!(parse("1").unwrap().to_string(), "1");
    // every duration literal is read first, and "a" to "e" are no durations
    assert_eq!(parse("a + b * c * d + e").err(), Some(Error::InvalidUnit("e".to_string())));
    assert_eq!(parse("a + b*").err(), Some(Error::InvalidUnit("b".to_string())));
    assert_eq!(parse("2 + (3 + 4)").unwrap().to_string(), "(+ 2 (+ 3 4))");
    assert_eq!(parse("2h + (15m + 45)*3").unwrap().to_string(), "(+ 2h (* (+ 15m 45) 3))");
    assert_eq!(parse("2h + 3*(15m + 45)").unwrap().to_string(), "(+ 2h (* 3 (+ 15m 45)))");
    assert_eq!(parse("2h + 3(15m + 45)").unwrap().to_string(), "(+ 2h (* 3 (+ 15m 45)))");
    assert_eq!(
        parse("2h + (15m + 45)*").unwrap().to_string(),
        format!("(+ 2h (* (+ 15m 45) {}))", u64::MAX)
    );
    assert_eq!(
        parse("2h+2(15+45m)2+3h").unwrap().to_string(),
        "(+ (+ 2h (* (* 2 (+ 15 45m)) 2)) 3h)"
    );
    assert_eq!(parse("(15*2m)*3+14d").unwrap().to_string(), "(+ (* (* 15 2m) 3) 14d)");
}

#[test]
fn parse_invalid() {
    assert_eq!(parse("1h)").err(), Some(Error::UnbalancedParens));
    assert_eq!(parse("(1h").err(), Some(Error::UnbalancedParens));
    assert_eq!(parse("+30d").err(), Some(Error::InvalidOp("+".to_string())));
    assert_eq!(parse("30d+").err(), Some(Error::InvalidOp("+".to_string())));
    assert_eq!(parse("12m+34d ++ 2h").err(), Some(Error::InvalidOp("+".to_string())));
    assert_eq!(parse("12m+34d +* 2h").err(), Some(Error::InvalidOp("*".to_string())));
    assert_eq!(parse("1d+20(2+)").err(), Some(Error::InvalidOp(")".to_string())));
}

#[test]
fn eval_durations() {
    assert_eq!(multi("1 + 2 * 3"), ["1", "2", "2", "2"]);
    assert_eq!(multi("1"), ["1"]);
    assert_eq!(multi("2 + (3 + 4)"), ["2", "3", "4"]);
    assert_eq!(multi("2h + (15m + 45)*3"), ["2h", "15m", "45", "15m", "45", "15m", "45"]);
    assert_eq!(multi("2h + 3*(15m + 45)"), ["2h", "15m", "45", "15m", "45", "15m", "45"]);
    assert_eq!(multi("2h + 3(15m + 45)"), ["2h", "15m", "45", "15m", "45", "15m", "45"]);
    assert_eq!(
        multi("2h+2(15+45m)2+3h"),
        ["2h", "15", "45m", "15", "45m", "15", "45m", "15", "45m", "3h"]
    );
    assert_eq!(multi("(3*2m)*2+14d"), ["2m", "2m", "2m", "2m", "2m", "2m", "14d"]);

    let mut inps = interpret_multi("2h + 1h*").unwrap();
    assert_eq!(inps.next(), Some("2h".to_string()));
    assert_eq!(inps.next(), Some("1h".to_string()));
    assert_eq!(inps.next(), Some("1h".to_string()));
    assert_eq!(inps.next(), Some("1h".to_string()));
    assert_eq!(inps.next(), Some("1h".to_string()));

    let mut inps = interpret_multi("2h + (15m + 45)*").unwrap();
    assert_eq!(inps.next(), Some("2h".to_string()));
    assert_eq!(inps.next(), Some("15m".to_string()));
    assert_eq!(inps.next(), Some("45".to_string()));
    assert_eq!(inps.next(), Some("15m".to_string()));
    assert_eq!(inps.next(), Some("45".to_string()));
}

#[test]
fn invalid_durations() {
    let inps = interpret_multi("2h + 4a + 3d");
    assert_eq!(inps.err(), Some(Error::InvalidUnit("a".to_string())));
    let inps = interpret_multi("(3h + 4 + (2ms 3)*2)*2");
    assert_eq!(inps.err(), Some(Error::SmallerThanMilli(Decimal { mantissa: 3, scale: 0 })));
    let inps = interpret_multi("3h * 2am");
    assert_eq!(inps.err(), Some(Error::MulDurations));
}

#[test]
fn multi_expression_examples() {
    assert_eq!(multi("3*2m"), ["2m", "2m", "2m"]);
    assert_eq!(multi("(10m+45)*3"), ["10m", "45", "10m", "45", "10m", "45"]);
    assert_eq!(multi("1+(3*2)"), ["1", "3", "3"]);
}

#[test]
fn multi_expression_errors() {
    assert_eq!(interpret_multi("1h)").err(), Some(Error::UnbalancedParens));
    assert_eq!(interpret_multi("3h * 2am").err(), Some(Error::MulDurations));
    assert_eq!(interpret_multi("").err(), Some(Error::Empty));
    assert_eq!(interpret_multi("(1h)(2h)").err(), Some(Error::UnbalancedParens));
    assert_eq!(multi("1h 2h"), ["1h 2h"]);
    assert_eq!(interpret_multi("18446744073709551615 + 1h").err(), Some(Error::Overflow));
}

#[test]
fn peek_leaves_the_cursor() {
    let mut it = interpret_multi("1h + 2h").unwrap();
    assert_eq!(it.peek(), Some("1h".to_string()));
    assert_eq!(it.peek(), Some("1h".to_string()));
    assert_eq!(it.next(), Some("1h".to_string()));
    assert_eq!(it.peek(), Some("2h".to_string()));
    assert_eq!(it.next(), Some("2h".to_string()));
    assert_eq!(it.peek(), None);
    assert_eq!(it.next(), None);
    let empty = InputIter::empty();
    assert_eq!(empty.peek(), None);
}

#[test]
fn zero_repetitions_give_nothing() {
    assert_eq!(multi("0*1h"), Vec::<String>::new());
    assert_eq!(multi("1h*0 + 2m"), ["2m"]);
}
