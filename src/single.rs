use vstd::prelude::*;
use crate::clock::{duration_until_time, until, Moment};
use crate::duration::{Duration, MAX_SPAN_MS, MS_PER_MIN};
use crate::error::{Error, Failure};
use crate::lexer::{lex, lex_spec, Group, GroupView};
use crate::number::{decimal_text, is_whole, scaled_ms, whole_of, Decimal};
use crate::text::string_of;
use crate::token::{parse, tokens_of, Token};
use crate::units::{new_12h_time, rank, time_12h, unit_at, unit_ms, Meridiem, TimeOfDay, TimeUnit};

verus! {

/// What a single duration text means before the clock is read.
#[derive(Clone, Copy, Debug, PartialEq, Eq, Structural)]
pub enum Reading {
    /// A fixed span.
    Span(Duration),
    /// The next time the clock shows this time of day.
    At(TimeOfDay),
    /// Whichever of these two times of day (before and after noon) comes first.
    Closest(TimeOfDay, TimeOfDay),
}

/// Which of the three formats a token list is read in.
#[derive(Clone, Copy, Debug, PartialEq, Eq, Structural)]
pub enum InputFormat {
    /// Exactly one token: a number of minutes.
    SingleNumber,
    /// A `:` or a half of the day: a time of day.
    Time,
    /// Numbers each followed by a unit.
    Units,
}

pub open spec fn is_time_token(t: Token) -> bool {
    t is Separator || t is Meridiem
}

pub open spec fn format_of(ts: Seq<Token>) -> InputFormat {
    if ts.len() == 1 {
        InputFormat::SingleNumber
    } else if exists|i: int| 0 <= i < ts.len() && is_time_token(#[trigger] ts[i]) {
        InputFormat::Time
    } else {
        InputFormat::Units
    }
}

/// The running total and the number waiting for its unit while units are
/// read: a number must wait for no other, and a unit needs one waiting.
pub open spec fn units_fold(ts: Seq<Token>) -> Result<(int, Option<Decimal>), Failure>
    decreases ts.len(),
{
    if ts.len() == 0 {
        Ok((0, None))
    } else {
        match units_fold(ts.drop_last()) {
            Err(e) => Err(e),
            Ok((total, pending)) => match (ts.last(), pending) {
                (Token::Number(n), None) => Ok((total, Some(n))),
                (Token::Unit(u), Some(n)) => {
                    let t = total + scaled_ms(n, unit_ms(u));
                    if t > MAX_SPAN_MS {
                        Err(Failure::Overflow)
                    } else {
                        Ok((t, None))
                    }
                },
                _ => Err(Failure::ClashingFormats),
            },
        }
    }
}

/// Milliseconds in a list of numbers each followed by its unit; a
/// trailing number counts in the unit one smaller than the unit before it.
pub open spec fn units_value(ts: Seq<Token>) -> Result<int, Failure> {
    match units_fold(ts) {
        Err(e) => Err(e),
        Ok((total, None)) => Ok(total),
        Ok((total, Some(n))) => if ts.len() >= 2 && ts[ts.len() - 2] is Unit {
            match unit_at(rank(ts[ts.len() - 2]->Unit_0) - 1) {
                None => Err(Failure::SmallerThanMilli(n)),
                Some(smaller) => {
                    let t = total + scaled_ms(n, unit_ms(smaller));
                    if t > MAX_SPAN_MS {
                        Err(Failure::Overflow)
                    } else {
                        Ok(t)
                    }
                },
            }
        } else {
            Err(Failure::Unknown)
        },
    }
}

/// The state of reading a time of day: the half of the day if given, the
/// hour, minute and second fields, and the field being filled.
pub struct TimeState {
    pub meridiem: Option<Meridiem>,
    pub fields: Seq<int>,
    pub cur: int,
}

/// A whole number held in a byte, saturating at 255.
pub open spec fn sat_u8(v: int) -> int {
    if v > 255 {
        255
    } else {
        v
    }
}

pub open spec fn time_fold(ts: Seq<Token>) -> Result<TimeState, Failure>
    decreases ts.len(),
{
    if ts.len() == 0 {
        Ok(TimeState { meridiem: None, fields: seq![0, 0, 0], cur: 0 })
    } else {
        match time_fold(ts.drop_last()) {
            Err(e) => Err(e),
            Ok(st) => if st.meridiem is Some {
                Err(Failure::Unknown)
            } else {
                match ts.last() {
                    Token::Separator => if st.cur + 1 > 2 {
                        Err(Failure::TooManySeparators)
                    } else {
                        Ok(TimeState { cur: st.cur + 1, ..st })
                    },
                    Token::Number(n) => if is_whole(n) {
                        Ok(TimeState { fields: st.fields.update(st.cur, sat_u8(whole_of(n))), ..st })
                    } else {
                        Err(Failure::InvalidNumber(decimal_text(n)))
                    },
                    Token::Meridiem(m) => Ok(TimeState { meridiem: Some(m), ..st }),
                    Token::Unit(_) => Err(Failure::ClashingFormats),
                }
            },
        }
    }
}

pub open spec fn time_value(ts: Seq<Token>) -> Result<Reading, Failure> {
    match time_fold(ts) {
        Err(e) => Err(e),
        Ok(st) => {
            let (h, m, s) = (st.fields[0], st.fields[1], st.fields[2]);
            match st.meridiem {
                Some(mer) => match time_12h(h, m, s, mer) {
                    None => Err(Failure::Unknown),
                    Some(t) => Ok(Reading::At(t)),
                },
                None => match (time_12h(h, m, s, Meridiem::Ante), time_12h(h, m, s, Meridiem::Post)) {
                    (Some(a), Some(p)) => Ok(Reading::Closest(a, p)),
                    _ => Err(Failure::Unknown),
                },
            }
        },
    }
}

/// What a token list means.
pub open spec fn eval_spec(ts: Seq<Token>) -> Result<Reading, Failure> {
    if ts.len() == 0 {
        Err(Failure::Empty)
    } else {
        match format_of(ts) {
            InputFormat::SingleNumber => match ts[0] {
                Token::Number(n) => {
                    let v = scaled_ms(n, MS_PER_MIN as int);
                    if v > MAX_SPAN_MS {
                        Err(Failure::Overflow)
                    } else {
                        Ok(Reading::Span(Duration { ms: v as i64 }))
                    }
                },
                _ => Err(Failure::Empty),
            },
            InputFormat::Time => time_value(ts),
            InputFormat::Units => match units_value(ts) {
                Err(e) => Err(e),
                Ok(v) => Ok(Reading::Span(Duration { ms: v as i64 })),
            },
        }
    }
}

/// What a single duration text means.
pub open spec fn reading_of(s: Seq<char>) -> Result<Reading, Failure> {
    match lex_spec(s) {
        Err(e) => Err(e),
        Ok(gs) => match tokens_of(gs) {
            Err(e) => Err(e),
            Ok(ts) => eval_spec(ts),
        },
    }
}

/// The milliseconds that a reading comes to when the local time of day is `now_day`.
pub open spec fn resolve_spec(r: Reading, now_day: int) -> int {
    match r {
        Reading::Span(d) => d.ms as int,
        Reading::At(t) => until(t.spec_ms(), now_day),
        Reading::Closest(a, p) => {
            let da = until(a.spec_ms(), now_day);
            let dp = until(p.spec_ms(), now_day);
            if da <= dp {
                da
            } else {
                dp
            }
        },
    }
}

/// The milliseconds that a single duration text means at the local time of day `now_day`.
pub open spec fn interpretation(s: Seq<char>, now_day: int) -> Result<int, Failure> {
    match reading_of(s) {
        Err(e) => Err(e),
        Ok(r) => Ok(resolve_spec(r, now_day)),
    }
}

pub open spec fn reading_wf(r: Reading) -> bool {
    match r {
        Reading::Span(d) => 0 <= d.ms <= MAX_SPAN_MS,
        Reading::At(t) => t.wf(),
        Reading::Closest(a, p) => a.wf() && p.wf(),
    }
}

fn get_tokens_format(tokens: &Vec<Token>) -> (r: InputFormat)
    ensures
        r == format_of(tokens@),
{
    if tokens.len() == 1 {
        return InputFormat::SingleNumber;
    }
    let mut i: usize = 0;
    while i < tokens.len()
        invariant
            tokens@.len() != 1,
            i <= tokens@.len(),
            forall|j: int| 0 <= j < i ==> !is_time_token(#[trigger] tokens@[j]),
        decreases tokens@.len() - i,
    {
        match tokens[i] {
            Token::Separator => {
                assert(is_time_token(tokens@[i as int]));
                return InputFormat::Time;
            },
            Token::Meridiem(_) => {
                assert(is_time_token(tokens@[i as int]));
                return InputFormat::Time;
            },
            _ => {},
        }
        i = i + 1;
    }
    InputFormat::Units
}

fn eval_single_number(tokens: &Vec<Token>) -> (r: Result<Reading, Error>)
    requires
        tokens@.len() == 1,
    ensures
        res_view_reading(r) == eval_spec(tokens@),
        r matches Ok(rd) ==> reading_wf(rd),
{
    match tokens[0] {
        Token::Number(n) => match n.scaled_ms(MS_PER_MIN) {
            Some(v) => Ok(Reading::Span(Duration { ms: v })),
            None => Err(Error::Overflow),
        },
        _ => Err(Error::Empty),
    }
}

proof fn lemma_fold_err_prefix_units(ts: Seq<Token>, k: int)
    requires
        0 <= k <= ts.len(),
        units_fold(ts.take(k)) is Err,
    ensures
        units_fold(ts) == units_fold(ts.take(k)),
    decreases ts.len() - k,
{
    if k < ts.len() {
        assert(ts.take(k + 1).drop_last() == ts.take(k));
        lemma_fold_err_prefix_units(ts, k + 1);
    } else {
        assert(ts.take(k) == ts);
    }
}

proof fn lemma_fold_err_prefix_time(ts: Seq<Token>, k: int)
    requires
        0 <= k <= ts.len(),
        time_fold(ts.take(k)) is Err,
    ensures
        time_fold(ts) == time_fold(ts.take(k)),
    decreases ts.len() - k,
{
    if k < ts.len() {
        assert(ts.take(k + 1).drop_last() == ts.take(k));
        lemma_fold_err_prefix_time(ts, k + 1);
    } else {
        assert(ts.take(k) == ts);
    }
}

fn eval_units(tokens: &Vec<Token>) -> (r: Result<Reading, Error>)
    requires
        tokens@.len() >= 1,
    ensures
        res_view_reading(r) == (match units_value(tokens@) {
            Err(e) => Err(e),
            Ok(v) => Ok(Reading::Span(Duration { ms: v as i64 })),
        }),
        r matches Ok(rd) ==> reading_wf(rd),
{
    let mut total: i64 = 0;
    let mut pending: Option<Decimal> = None;
    let mut i: usize = 0;
    while i < tokens.len()
        invariant
            i <= tokens@.len(),
            units_fold(tokens@.take(i as int)) == Ok::<(int, Option<Decimal>), Failure>(
                (total as int, pending),
            ),
            0 <= total <= MAX_SPAN_MS,
        decreases tokens@.len() - i,
    {
        assert(tokens@.take(i as int + 1).drop_last() == tokens@.take(i as int));
        match (tokens[i], pending) {
            (Token::Number(n), None) => {
                pending = Some(n);
            },
            (Token::Unit(u), Some(n)) => {
                match n.scaled_ms(u.millis()) {
                    Some(v) => {
                        if v > MAX_SPAN_MS - total {
                            proof {
                                lemma_fold_err_prefix_units(tokens@, i as int + 1);
                            }
                            return Err(Error::Overflow);
                        }
                        total = total + v;
                        pending = None;
                    },
                    None => {
                        proof {
                            lemma_fold_err_prefix_units(tokens@, i as int + 1);
                        }
                        return Err(Error::Overflow);
                    },
                }
            },
            _ => {
                proof {
                    lemma_fold_err_prefix_units(tokens@, i as int + 1);
                }
                return Err(Error::ClashingFormats);
            },
        }
        i = i + 1;
    }
    assert(tokens@.take(tokens@.len() as int) == tokens@);
    let n = tokens.len();
    match pending {
        None => Ok(Reading::Span(Duration { ms: total })),
        Some(last) => {
            if n < 2 {
                return Err(Error::Unknown);
            }
            let unit = match tokens[n - 2] {
                Token::Unit(u) => u,
                _ => {
                    return Err(Error::Unknown);
                },
            };
            match unit.smaller_unit() {
                None => Err(Error::SmallerThanMilli(last)),
                Some(smaller) => match last.scaled_ms(smaller.millis()) {
                    Some(v) => {
                        if v > MAX_SPAN_MS - total {
                            Err(Error::Overflow)
                        } else {
                            Ok(Reading::Span(Duration { ms: total + v }))
                        }
                    },
                    None => Err(Error::Overflow),
                },
            }
        },
    }
}

fn eval_time(tokens: &Vec<Token>) -> (r: Result<Reading, Error>)
    ensures
        res_view_reading(r) == time_value(tokens@),
        r matches Ok(rd) ==> reading_wf(rd),
{
    let mut meridiem: Option<Meridiem> = None;
    let mut fields: [u8; 3] = [0, 0, 0];
    let mut cur: usize = 0;
    let mut i: usize = 0;
    while i < tokens.len()
        invariant
            i <= tokens@.len(),
            cur <= 2,
            time_fold(tokens@.take(i as int)) == Ok::<TimeState, Failure>(
                TimeState {
                    meridiem,
                    fields: seq![fields@[0] as int, fields@[1] as int, fields@[2] as int],
                    cur: cur as int,
                },
            ),
        decreases tokens@.len() - i,
    {
        assert(tokens@.take(i as int + 1).drop_last() == tokens@.take(i as int));
        if meridiem.is_some() {
            proof {
                lemma_fold_err_prefix_time(tokens@, i as int + 1);
            }
            return Err(Error::Unknown);
        }
        match tokens[i] {
            Token::Separator => {
                if cur + 1 > 2 {
                    proof {
                        lemma_fold_err_prefix_time(tokens@, i as int + 1);
                    }
                    return Err(Error::TooManySeparators);
                }
                cur = cur + 1;
                assert(time_fold(tokens@.take(i as int + 1)) == Ok::<TimeState, Failure>(
                    TimeState {
                        meridiem,
                        fields: seq![fields@[0] as int, fields@[1] as int, fields@[2] as int],
                        cur: cur as int,
                    },
                ));
            },
            Token::Number(n) => {
                match n.whole() {
                    Some(w) => {
                        let v: u8 = if w > 255 {
                            255
                        } else {
                            w as u8
                        };
                        let ghost before = seq![fields@[0] as int, fields@[1] as int, fields@[2] as int];
                        fields.set(cur, v);
                        assert(seq![fields@[0] as int, fields@[1] as int, fields@[2] as int]
                            =~= before.update(cur as int, v as int));
                        assert(time_fold(tokens@.take(i as int + 1)) == Ok::<TimeState, Failure>(
                            TimeState {
                                meridiem,
                                fields: seq![fields@[0] as int, fields@[1] as int, fields@[2] as int],
                                cur: cur as int,
                            },
                        ));
                    },
                    None => {
                        proof {
                            lemma_fold_err_prefix_time(tokens@, i as int + 1);
                        }
                        return Err(Error::InvalidNumber(string_of(&n.render())));
                    },
                }
            },
            Token::Meridiem(m) => {
                meridiem = Some(m);
            },
            Token::Unit(_) => {
                proof {
                    lemma_fold_err_prefix_time(tokens@, i as int + 1);
                }
                return Err(Error::ClashingFormats);
            },
        }
        i = i + 1;
    }
    assert(tokens@.take(tokens@.len() as int) == tokens@);
    let (h, m, s) = (fields[0], fields[1], fields[2]);
    match meridiem {
        Some(mer) => match new_12h_time(h, m, s, mer) {
            Some(t) => Ok(Reading::At(t)),
            None => Err(Error::Unknown),
        },
        None => {
            let am = new_12h_time(h, m, s, Meridiem::Ante);
            let pm = new_12h_time(h, m, s, Meridiem::Post);
            match (am, pm) {
                (Some(a), Some(p)) => Ok(Reading::Closest(a, p)),
                _ => Err(Error::Unknown),
            }
        },
    }
}

/// Reads a token list in the format that its shape selects.
pub fn eval(tokens: &Vec<Token>) -> (r: Result<Reading, Error>)
    ensures
        res_view_reading(r) == eval_spec(tokens@),
        r matches Ok(rd) ==> reading_wf(rd),
{
    if tokens.len() == 0 {
        return Err(Error::Empty);
    }
    match get_tokens_format(tokens) {
        InputFormat::SingleNumber => eval_single_number(tokens),
        InputFormat::Time => eval_time(tokens),
        InputFormat::Units => eval_units(tokens),
    }
}

/// Reads a single duration text without consulting the clock.
pub fn read_single(input: &str) -> (r: Result<Reading, Error>)
    ensures
        res_view_reading(r) == reading_of(input@),
        r matches Ok(rd) ==> reading_wf(rd),
{
    let groups = match lex(input) {
        Ok(gs) => gs,
        Err(e) => {
            return Err(e);
        },
    };
    let tokens = match parse(groups) {
        Ok(ts) => ts,
        Err(e) => {
            return Err(e);
        },
    };
    eval(&tokens)
}

/// The span that a reading comes to at `now`.
pub fn resolve(reading: Reading, now: Moment) -> (r: Duration)
    requires
        reading_wf(reading),
        now.wf(),
    ensures
        r.ms == resolve_spec(reading, now.day_ms as int),
        0 <= r.ms <= MAX_SPAN_MS,
{
    match reading {
        Reading::Span(d) => d,
        Reading::At(t) => duration_until_time(t, now),
        Reading::Closest(a, p) => {
            let da = duration_until_time(a, now);
            let dp = duration_until_time(p, now);
            if da.ms <= dp.ms {
                da
            } else {
                dp
            }
        },
    }
}

/// Reads a user's text as one duration.
///
/// Three formats are accepted: a bare number is minutes (`"23"`); a time
/// of day with `:` or am/pm (`"5:30pm"`) is the time until the clock next
/// shows it, before or after noon, whichever comes first when neither is
/// given; anything else is numbers with units (`"1h 30m"`), where a
/// trailing number counts in the unit one smaller than the one before it
/// (`"2m 30"` is two minutes and thirty seconds).
pub fn interpret_single(input: &str, now: Moment) -> (r: Result<Duration, Error>)
    requires
        now.wf(),
    ensures
        match r {
            Ok(d) => interpretation(input@, now.day_ms as int) == Ok::<int, Failure>(d.ms as int),
            Err(e) => interpretation(input@, now.day_ms as int) == Err::<int, Failure>(e@),
        },
        r matches Ok(d) ==> 0 <= d.ms <= MAX_SPAN_MS,
{
    match read_single(input) {
        Ok(reading) => Ok(resolve(reading, now)),
        Err(e) => Err(e),
    }
}

/// Reads a user's text as one duration; the same as [`interpret_single`].
pub fn parse_input(input: &str, now: Moment) -> (r: Result<Duration, Error>)
    requires
        now.wf(),
    ensures
        match r {
            Ok(d) => interpretation(input@, now.day_ms as int) == Ok::<int, Failure>(d.ms as int),
            Err(e) => interpretation(input@, now.day_ms as int) == Err::<int, Failure>(e@),
        },
{
    interpret_single(input, now)
}

pub open spec fn res_view_reading(r: Result<Reading, Error>) -> Result<Reading, Failure> {
    match r {
        Ok(v) => Ok(v),
        Err(e) => Err(e@),
    }
}

} // verus!
