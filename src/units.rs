use vstd::prelude::*;
use crate::duration::{Duration, MAX_SPAN_MS, MS_PER_DAY, MS_PER_HOUR, MS_PER_MIN, MS_PER_SEC};
use crate::number::{scaled_ms, Decimal};
use crate::text::same_text;

verus! {

/// A unit of duration, ordered from the smallest to the largest.
#[derive(Clone, Copy, Debug, PartialEq, Eq, Structural, PartialOrd, Ord, Hash)]
pub enum TimeUnit {
    Milli,
    Sec,
    Min,
    Hour,
    Day,
}

/// The position of a unit in the order `Milli < Sec < Min < Hour < Day`.
pub open spec fn rank(u: TimeUnit) -> nat {
    match u {
        TimeUnit::Milli => 0,
        TimeUnit::Sec => 1,
        TimeUnit::Min => 2,
        TimeUnit::Hour => 3,
        TimeUnit::Day => 4,
    }
}

/// The unit at a position of the order, if there is one.
pub open spec fn unit_at(n: int) -> Option<TimeUnit> {
    if n == 0 {
        Some(TimeUnit::Milli)
    } else if n == 1 {
        Some(TimeUnit::Sec)
    } else if n == 2 {
        Some(TimeUnit::Min)
    } else if n == 3 {
        Some(TimeUnit::Hour)
    } else if n == 4 {
        Some(TimeUnit::Day)
    } else {
        None
    }
}

/// The number of milliseconds in one of a unit.
pub open spec fn unit_ms(u: TimeUnit) -> int {
    match u {
        TimeUnit::Milli => 1,
        TimeUnit::Sec => MS_PER_SEC as int,
        TimeUnit::Min => MS_PER_MIN as int,
        TimeUnit::Hour => MS_PER_HOUR as int,
        TimeUnit::Day => MS_PER_DAY as int,
    }
}

/// The unit that a (lower-case) name stands for, among the accepted synonyms.
pub open spec fn unit_named(s: Seq<char>) -> Option<TimeUnit> {
    if s == "ms"@ || s == "milli"@ || s == "millis"@ || s == "millisec"@ || s == "millisecs"@
        || s == "millisecond"@ || s == "milliseconds"@ {
        Some(TimeUnit::Milli)
    } else if s == "s"@ || s == "sec"@ || s == "secs"@ || s == "second"@ || s == "seconds"@ {
        Some(TimeUnit::Sec)
    } else if s == "m"@ || s == "min"@ || s == "mins"@ || s == "minute"@ || s == "minutes"@ {
        Some(TimeUnit::Min)
    } else if s == "h"@ || s == "hr"@ || s == "hrs"@ || s == "hour"@ || s == "hours"@ {
        Some(TimeUnit::Hour)
    } else if s == "d"@ || s == "day"@ || s == "days"@ {
        Some(TimeUnit::Day)
    } else {
        None
    }
}

impl TimeUnit {
    /// The position of the unit in the order, from milliseconds (0) to days (4).
    pub fn numeric_value(&self) -> (r: u8)
        ensures
            r as nat == rank(*self),
    {
        match self {
            TimeUnit::Milli => 0,
            TimeUnit::Sec => 1,
            TimeUnit::Min => 2,
            TimeUnit::Hour => 3,
            TimeUnit::Day => 4,
        }
    }

    /// The unit at position `num` of the order; `None` outside `0..=4`.
    pub fn number_to_variant(num: u8) -> (r: Option<TimeUnit>)
        ensures
            r == unit_at(num as int),
    {
        if num == 0 {
            Some(TimeUnit::Milli)
        } else if num == 1 {
            Some(TimeUnit::Sec)
        } else if num == 2 {
            Some(TimeUnit::Min)
        } else if num == 3 {
            Some(TimeUnit::Hour)
        } else if num == 4 {
            Some(TimeUnit::Day)
        } else {
            None
        }
    }

    /// The next larger unit; `None` for days.
    pub fn larger_unit(&self) -> (r: Option<TimeUnit>)
        ensures
            r == unit_at(rank(*self) as int + 1),
    {
        TimeUnit::number_to_variant(self.numeric_value() + 1)
    }

    /// The next smaller unit; `None` for milliseconds.
    pub fn smaller_unit(&self) -> (r: Option<TimeUnit>)
        ensures
            r == unit_at(rank(*self) as int - 1),
    {
        let n = self.numeric_value();
        if n == 0 {
            None
        } else {
            TimeUnit::number_to_variant(n - 1)
        }
    }

    /// The number of milliseconds in one of this unit.
    pub fn millis(&self) -> (r: i64)
        ensures
            r == unit_ms(*self),
            1 <= r <= MS_PER_DAY,
    {
        match self {
            TimeUnit::Milli => 1,
            TimeUnit::Sec => MS_PER_SEC,
            TimeUnit::Min => MS_PER_MIN,
            TimeUnit::Hour => MS_PER_HOUR,
            TimeUnit::Day => MS_PER_DAY,
        }
    }

    /// `value` of this unit as a duration, rounded down to the millisecond;
    /// `None` beyond the library's range of spans.
    pub fn to_duration(&self, value: Decimal) -> (r: Option<Duration>)
        ensures
            match r {
                Some(d) => d.ms == scaled_ms(value, unit_ms(*self)),
                None => scaled_ms(value, unit_ms(*self)) > MAX_SPAN_MS,
            },
    {
        match value.scaled_ms(self.millis()) {
            Some(ms) => Some(Duration { ms }),
            None => None,
        }
    }

    /// Reads a lower-case unit name, such as `"h"`, `"hrs"` or `"hours"`.
    pub fn from_name(s: &Vec<char>) -> (r: Option<TimeUnit>)
        ensures
            r == unit_named(s@),
    {
        if same_text(s, "ms") || same_text(s, "milli") || same_text(s, "millis") || same_text(
            s,
            "millisec",
        ) || same_text(s, "millisecs") || same_text(s, "millisecond") || same_text(
            s,
            "milliseconds",
        ) {
            Some(TimeUnit::Milli)
        } else if same_text(s, "s") || same_text(s, "sec") || same_text(s, "secs") || same_text(
            s,
            "second",
        ) || same_text(s, "seconds") {
            Some(TimeUnit::Sec)
        } else if same_text(s, "m") || same_text(s, "min") || same_text(s, "mins") || same_text(
            s,
            "minute",
        ) || same_text(s, "minutes") {
            Some(TimeUnit::Min)
        } else if same_text(s, "h") || same_text(s, "hr") || same_text(s, "hrs") || same_text(
            s,
            "hour",
        ) || same_text(s, "hours") {
            Some(TimeUnit::Hour)
        } else if same_text(s, "d") || same_text(s, "day") || same_text(s, "days") {
            Some(TimeUnit::Day)
        } else {
            None
        }
    }
}

/// Before or after noon.
#[derive(Clone, Copy, Debug, PartialEq, Eq, Structural, Hash)]
pub enum Meridiem {
    Ante,
    Post,
}

/// The half of the day that a (lower-case) name stands for.
pub open spec fn meridiem_named(s: Seq<char>) -> Option<Meridiem> {
    if s == "am"@ || s == "a.m."@ {
        Some(Meridiem::Ante)
    } else if s == "pm"@ || s == "p.m."@ {
        Some(Meridiem::Post)
    } else {
        None
    }
}

impl Meridiem {
    /// Reads `"am"`, `"a.m."`, `"pm"` or `"p.m."`.
    pub fn from_name(s: &Vec<char>) -> (r: Option<Meridiem>)
        ensures
            r == meridiem_named(s@),
    {
        if same_text(s, "am") || same_text(s, "a.m.") {
            Some(Meridiem::Ante)
        } else if same_text(s, "pm") || same_text(s, "p.m.") {
            Some(Meridiem::Post)
        } else {
            None
        }
    }
}

/// A time of day, to the second.
#[derive(Clone, Copy, Debug, PartialEq, Eq, Structural, Hash)]
pub struct TimeOfDay {
    pub hour: u8,
    pub minute: u8,
    pub second: u8,
}

impl TimeOfDay {
    /// Whether the fields name a time on a 24-hour clock.
    pub open spec fn wf(self) -> bool {
        self.hour < 24 && self.minute < 60 && self.second < 60
    }

    /// Milliseconds from midnight to this time.
    pub open spec fn spec_ms(self) -> int {
        self.hour * MS_PER_HOUR + self.minute * MS_PER_MIN + self.second * MS_PER_SEC
    }

    /// The time with the given fields on a 24-hour clock, if it exists.
    pub fn from_hms(hour: u8, minute: u8, second: u8) -> (r: Option<TimeOfDay>)
        ensures
            r == (if hour < 24 && minute < 60 && second < 60 {
                Some(TimeOfDay { hour, minute, second })
            } else {
                None::<TimeOfDay>
            }),
    {
        if hour < 24 && minute < 60 && second < 60 {
            Some(TimeOfDay { hour, minute, second })
        } else {
            None
        }
    }

    /// Milliseconds from midnight to this time.
    pub fn day_ms(&self) -> (r: i64)
        requires
            self.wf(),
        ensures
            r == self.spec_ms(),
            0 <= r < MS_PER_DAY,
    {
        self.hour as i64 * MS_PER_HOUR + self.minute as i64 * MS_PER_MIN + self.second as i64
            * MS_PER_SEC
    }
}

/// The 24-hour hour of a 12-hour hour: 12am is 0, 12pm is 12, and hours
/// above 12 have none.
pub open spec fn hour_24(hour: int, m: Meridiem) -> Option<int> {
    if hour > 12 {
        None
    } else {
        match m {
            Meridiem::Ante => Some(if hour == 12 { 0 } else { hour }),
            Meridiem::Post => Some(if hour == 12 { 12 } else { hour + 12 }),
        }
    }
}

/// The time of day written in 12-hour notation; `None` for an hour above 12,
/// a minute or a second above 59. An hour of 0 counts as 12.
pub open spec fn time_12h(hour: int, min: int, sec: int, m: Meridiem) -> Option<TimeOfDay> {
    match hour_24(hour, m) {
        None => None,
        Some(h) => if 0 <= h < 24 && 0 <= min < 60 && 0 <= sec < 60 {
            Some(TimeOfDay { hour: h as u8, minute: min as u8, second: sec as u8 })
        } else {
            None
        },
    }
}

/// Builds a time of day from 12-hour notation.
pub fn new_12h_time(hour: u8, min: u8, sec: u8, meridiem: Meridiem) -> (r: Option<TimeOfDay>)
    ensures
        r == time_12h(hour as int, min as int, sec as int, meridiem),
        r matches Some(t) ==> t.wf(),
{
    if hour > 12 {
        return None;
    }
    let hour_24: u8 = match meridiem {
        Meridiem::Ante => if hour == 12 {
            0
        } else {
            hour
        },
        Meridiem::Post => if hour == 12 {
            12
        } else {
            hour + 12
        },
    };
    TimeOfDay::from_hms(hour_24, min, sec)
}

} // verus!
