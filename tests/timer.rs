use minti::clock::{from_unix_millis, moment_of, to_unix_millis, Moment};
use minti::duration::Duration;
use minti::multi_timer::MultiTimer;
use minti::snapshot::{decode, decode_all, encode, TimerRecord};
use minti::timer::Timer;
use minti::timer_list::TimerList;
use minti::units::{new_12h_time, Meridiem, TimeOfDay, TimeUnit};

const MIN: i64 = 60_000;
const SEC: i64 = 1000;
const T0: i64 = 1_700_000_000_000;

fn at(offset: i64) -> Moment {
    Moment { unix_ms: T0 + offset, day_ms: (10 * 3_600_000 + offset) % 86_400_000 }
}

fn ms(x: i64) -> Duration {
    Duration::from_millis(x)
}

#[test]
fn timer_counts_down_and_pauses() {
    let mut t = Timer::new();
    assert!(!t.started());
    assert_eq!(t.get_time_remaining(T0), None);
    assert_eq!(t.get_time_elapsed(T0), ms(0));
    t.start(ms(10 * MIN), T0);
    assert!(t.running());
    assert_eq!(t.get_time_remaining(T0 + MIN), Some(ms(9 * MIN)));
    t.pause(T0 + MIN);
    assert!(t.paused());
    assert_eq!(t.get_time_remaining(T0 + 5 * MIN), Some(ms(9 * MIN)));
    assert_eq!(t.get_end_time(T0 + 5 * MIN), Some(T0 + 14 * MIN));
    t.resume(T0 + 5 * MIN);
    assert!(t.running());
    assert_eq!(t.acc_paused, ms(4 * MIN));
    assert_eq!(t.get_time_remaining(T0 + 6 * MIN), Some(ms(8 * MIN)));
    assert!(t.finished(T0 + 14 * MIN));
    assert_eq!(t.get_time_remaining(T0 + 15 * MIN), Some(ms(-MIN)));
    t.reset();
    assert!(!t.started());
}

#[test]
fn pausing_twice_is_pausing_once() {
    let mut once = Timer::new();
    once.start(ms(10 * MIN), T0);
    once.pause(T0 + MIN);
    let mut twice = once;
    twice.pause(T0 + 2 * MIN);
    assert_eq!(once, twice);
    assert_eq!(once.get_time_elapsed(T0 + 3 * MIN), twice.get_time_elapsed(T0 + 3 * MIN));
    assert_eq!(twice.get_time_elapsed(T0 + 3 * MIN), ms(MIN));
}

#[test]
fn subtracting_past_zero_saturates() {
    let mut t = Timer::new();
    t.start(ms(10 * MIN), T0);
    t.pause(T0 + 2 * MIN);
    t.add_duration(ms(-20 * MIN), T0 + 3 * MIN);
    assert_eq!(t.get_time_remaining(T0 + 3 * MIN), Some(ms(0)));
    assert!(t.running());
    assert_eq!(t.get_time_remaining(T0 + 4 * MIN), Some(ms(-MIN)));
}

#[test]
fn adding_time() {
    let mut t = Timer::new();
    t.add_duration(ms(MIN), T0);
    assert!(!t.started());
    t.start(ms(10 * MIN), T0);
    t.add_duration(ms(-MIN), T0);
    assert_eq!(t.get_time_remaining(T0), Some(ms(9 * MIN)));
    t.add_duration(ms(2 * MIN), T0);
    assert_eq!(t.get_time_remaining(T0), Some(ms(11 * MIN)));
    // a finished timer ignores subtraction and restarts on addition
    t.add_duration(ms(-MIN), T0 + 12 * MIN);
    assert_eq!(t.get_time_remaining(T0 + 12 * MIN), Some(ms(-MIN)));
    t.add_duration(ms(5 * MIN), T0 + 12 * MIN);
    assert_eq!(t.get_time_remaining(T0 + 12 * MIN), Some(ms(5 * MIN)));
    assert_eq!(t.start_time, Some(T0 + 12 * MIN));
}

#[test]
fn chain_runs_to_the_end() {
    let mut m = MultiTimer::new();
    m.input = "5m+10s".to_string();
    m.start(at(0)).unwrap();
    assert_eq!(m.time_remaining(at(0)), Some(ms(5 * MIN)));
    assert_eq!(m.peek(), Some("10s".to_string()));
    assert!(!m.tick(at(4 * MIN)));
    assert!(m.tick(at(5 * MIN)));
    assert_eq!(m.time_remaining(at(5 * MIN)), Some(ms(10 * SEC)));
    assert_eq!(m.consumed, 2);
    assert!(m.tick(at(5 * MIN + 10 * SEC)));
    assert_eq!(m.peek(), None);
    assert!(m.finished(at(5 * MIN + 10 * SEC)));
    assert!(!m.tick(at(6 * MIN)));
    assert!(m.finished(at(6 * MIN)));
    assert_eq!(m.consumed, 2);
}

#[test]
fn multi_timer_start_error_and_reset() {
    let mut m = MultiTimer::new();
    m.input = "3h * 2am".to_string();
    assert_eq!(m.start(at(0)), Err(minti::error::Error::MulDurations));
    assert!(!m.timer.started());
    m.input = "1m*".to_string();
    m.start(at(0)).unwrap();
    assert_eq!(m.next(at(MIN)), Some(ms(MIN)));
    assert_eq!(m.consumed, 2);
    m.reset();
    assert_eq!(m.consumed, 0);
    assert_eq!(m.peek(), None);
    assert_eq!(m.input, "1m*");
}

#[test]
fn snapshot_round_trip() {
    let mut m = MultiTimer::new();
    m.set_input("2m*3+1h".to_string());
    m.set_title("tea".to_string());
    m.start(at(0)).unwrap();
    m.next(at(SEC));
    m.pause(at(30 * SEC));
    let rec = encode(&m);
    assert_eq!(rec.consumed, 2);
    assert_eq!(rec.duration, Some(2 * MIN as u64));
    assert_eq!(rec.start, Some(T0 + SEC));
    assert_eq!(rec.last_pause, Some(T0 + 30 * SEC));
    let back = decode(&rec, at(10 * MIN)).unwrap();
    assert_eq!(encode(&back), rec);
    assert_eq!(back.time_remaining(at(10 * MIN)), m.time_remaining(at(10 * MIN)));
    assert_eq!(back.end_time(at(10 * MIN)), m.end_time(at(10 * MIN)));
    assert_eq!(back.peek(), Some("2m".to_string()));
}

#[test]
fn snapshot_invalid_entries_are_dropped() {
    let rec = TimerRecord {
        duration: None,
        start: None,
        last_pause: Some(T0),
        acc_pause_duration: 0,
        duration_input: String::new(),
        title: String::new(),
        consumed: 0,
    };
    assert!(decode(&rec, at(0)).is_none());
    let rec = TimerRecord { last_pause: None, duration_input: "1m".to_string(), consumed: 3, ..rec };
    assert!(decode(&rec, at(0)).is_none());
    let rec = TimerRecord { consumed: 1, ..rec };
    assert!(decode(&rec, at(0)).is_some());
}

#[test]
fn timer_list_is_never_empty() {
    let mut list = TimerList::new();
    assert!(list.is_initial());
    list.push_new();
    assert_eq!(list.len(), 2);
    let id = list.get(1).id();
    assert!(list.remove_id(id));
    assert!(!list.remove_id(id));
    list.remove_index(0);
    assert_eq!(list.len(), 1);
    list.clear();
    assert_eq!(list.len(), 1);
    assert!(list.is_initial());
}

#[test]
fn units_and_times() {
    assert_eq!(TimeUnit::Sec.larger_unit(), Some(TimeUnit::Min));
    assert_eq!(TimeUnit::Day.larger_unit(), None);
    assert_eq!(TimeUnit::Hour.smaller_unit(), Some(TimeUnit::Min));
    assert_eq!(TimeUnit::Milli.smaller_unit(), None);
    assert_eq!(TimeUnit::Day.numeric_value(), 4);
    assert_eq!(TimeUnit::number_to_variant(2), Some(TimeUnit::Min));
    assert_eq!(TimeUnit::number_to_variant(5), None);
    assert_eq!(new_12h_time(5, 30, 0, Meridiem::Ante), TimeOfDay::from_hms(5, 30, 0));
    assert_eq!(new_12h_time(5, 30, 0, Meridiem::Post), TimeOfDay::from_hms(17, 30, 0));
    assert_eq!(new_12h_time(12, 10, 0, Meridiem::Ante), TimeOfDay::from_hms(0, 10, 0));
    assert_eq!(new_12h_time(12, 0, 0, Meridiem::Post), TimeOfDay::from_hms(12, 0, 0));
    assert_eq!(new_12h_time(13, 10, 0, Meridiem::Ante), None);
    assert_eq!(new_12h_time(1, 60, 0, Meridiem::Ante), None);
}

#[test]
fn clock_conversions() {
    assert_eq!(to_unix_millis(1_700_000_000_123_456_789), 1_700_000_000_123);
    assert_eq!(to_unix_millis(-1_500_000), -1);
    assert_eq!(from_unix_millis(1_700_000_000_123), 1_700_000_000_123_000_000);
    let m = moment_of(0, 3600);
    assert_eq!(m, Moment { unix_ms: 0, day_ms: 3_600_000 });
    let m = moment_of(-1_000_000, 0);
    assert_eq!(m, Moment { unix_ms: -1, day_ms: 86_399_999 });
    let now = minti::clock::now();
    assert!(now.day_ms >= 0 && now.day_ms < 86_400_000);
}

#[test]
fn events_carry_name_and_text() {
    let e = minti::event::Event::new("tick".to_string(), "1".to_string());
    assert_eq!(e.id(), "tick");
    assert_eq!(e.payload(), "1");
}

#[test]
fn timers_get_distinct_ids() {
    let a = MultiTimer::new();
    let b = MultiTimer::new();
    assert_ne!(a.id(), b.id());
}

#[test]
fn snapshot_keeps_a_duration_without_start() {
    let rec = TimerRecord {
        duration: Some(300_000),
        start: None,
        last_pause: None,
        acc_pause_duration: 0,
        duration_input: "5m".to_string(),
        title: String::new(),
        consumed: 0,
    };
    let m = decode(&rec, at(0)).unwrap();
    assert_eq!(m.timer.total, Some(ms(300_000)));
    assert!(!m.timer.started());
    assert_eq!(m.time_remaining(at(0)), None);
    assert_eq!(encode(&m), rec);
    let rec2 = TimerRecord { duration: None, start: Some(T0), ..rec.clone() };
    let m2 = decode(&rec2, at(0)).unwrap();
    assert!(m2.timer.started());
    assert_eq!(m2.time_remaining(at(0)), None);
}

#[test]
fn decode_all_keeps_restorable_records_in_order() {
    let good = |title: &str| TimerRecord {
        duration: None,
        start: None,
        last_pause: None,
        acc_pause_duration: 0,
        duration_input: "1m".to_string(),
        title: title.to_string(),
        consumed: 0,
    };
    let bad = TimerRecord { last_pause: Some(T0), ..good("bad") };
    let list = decode_all(vec![good("a"), bad.clone(), good("b")], at(0));
    assert_eq!(list.len(), 2);
    assert_eq!(list.get(0).title, "a");
    assert_eq!(list.get(1).title, "b");
    let list = decode_all(vec![bad], at(0));
    assert_eq!(list.len(), 1);
    assert!(list.is_initial());
}
