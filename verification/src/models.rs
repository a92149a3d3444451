//! The data that the proxy reports: activity entries and stream envelopes.

use vstd::prelude::*;

use crate::text;

verus! {

/// The first and the last year of the calendar that `chrono` counts.
pub const MIN_YEAR: i32 = -262143;

pub const MAX_YEAR: i32 = 262142;

/// Whether a year of the Gregorian calendar has 366 days.
pub open spec fn is_leap_year(year: int) -> bool {
    year % 4 == 0 && (year % 100 != 0 || year % 400 == 0)
}

/// The number of days in a month.
pub open spec fn days_in_month(year: int, month: int) -> int {
    if month == 2 {
        if is_leap_year(year) {
            29
        } else {
            28
        }
    } else if month == 4 || month == 6 || month == 9 || month == 11 {
        30
    } else {
        31
    }
}

/// A moment of coordinated universal time, field by field.
#[verifier::ext_equal]
pub struct Moment {
    pub year: int,
    pub month: int,
    pub day: int,
    pub hour: int,
    pub minute: int,
    pub second: int,
    /// A leap second continues the count past one second.
    pub nanosecond: int,
}

impl Moment {
    /// Whether the calendar has such a day, and the day such a time.
    pub open spec fn in_calendar(self) -> bool {
        &&& MIN_YEAR <= self.year <= MAX_YEAR
        &&& 1 <= self.month <= 12
        &&& 1 <= self.day <= days_in_month(self.year, self.month)
        &&& 0 <= self.hour < 24
        &&& 0 <= self.minute < 60
        &&& 0 <= self.second < 60
        &&& 0 <= self.nanosecond < 2_000_000_000
        &&& self.nanosecond >= 1_000_000_000 ==> self.second == 59
    }

    /// The moment up to its minute: `YYYY-MM-DDTHH-MM`.
    pub open spec fn minute_text(self) -> Seq<char> {
        year_text(self.year) + seq!['-'] + text::padded(self.month as nat, 2) + seq!['-']
            + text::padded(self.day as nat, 2) + seq!['T'] + text::padded(self.hour as nat, 2)
            + seq!['-'] + text::padded(self.minute as nat, 2)
    }
}

/// The moment with these fields.
pub open spec fn moment(
    year: i32,
    month: u32,
    day: u32,
    hour: u32,
    minute: u32,
    second: u32,
    nanosecond: u32,
) -> Moment {
    Moment {
        year: year as int,
        month: month as int,
        day: day as int,
        hour: hour as int,
        minute: minute as int,
        second: second as int,
        nanosecond: nanosecond as int,
    }
}

/// A year in four digits, with a sign where four digits do not do.
pub open spec fn year_text(year: int) -> Seq<char> {
    if year < 0 {
        seq!['-'] + text::padded((-year) as nat, 4)
    } else if year > 9999 {
        seq!['+'] + text::padded(year as nat, 4)
    } else {
        text::padded(year as nat, 4)
    }
}

/// The pattern, in the notation of `chrono`, of a moment up to its minute.
pub open spec fn minute_pattern() -> Seq<char> {
    "%Y-%m-%dT%H-%M"@
}

/// A moment of coordinated universal time that the calendar has.
#[derive(Clone, Copy, Debug)]
pub struct Timestamp {
    year: i32,
    month: u32,
    day: u32,
    hour: u32,
    minute: u32,
    second: u32,
    nanosecond: u32,
}

impl View for Timestamp {
    type V = Moment;

    closed spec fn view(&self) -> Moment {
        moment(
            self.year,
            self.month,
            self.day,
            self.hour,
            self.minute,
            self.second,
            self.nanosecond,
        )
    }
}

impl Timestamp {
    #[verifier::type_invariant]
    spec fn well_formed(self) -> bool {
        self@.in_calendar()
    }

    /// The moment with these fields, where the calendar has it.
    pub fn new(
        year: i32,
        month: u32,
        day: u32,
        hour: u32,
        minute: u32,
        second: u32,
        nanosecond: u32,
    ) -> (r: Option<Timestamp>)
        ensures
            r is Some <==> moment(year, month, day, hour, minute, second, nanosecond).in_calendar(),
            r matches Some(timestamp) ==> timestamp@ == moment(
                year,
                month,
                day,
                hour,
                minute,
                second,
                nanosecond,
            ),
    {
        if MIN_YEAR <= year && year <= MAX_YEAR && 1 <= month && month <= 12 && 1 <= day && day
            <= month_length(year, month) && hour < 24 && minute < 60 && second < 60 && nanosecond
            < 2_000_000_000 && (nanosecond < 1_000_000_000 || second == 59) {
            Some(Timestamp { year, month, day, hour, minute, second, nanosecond })
        } else {
            None
        }
    }

    /// The moment up to its minute: `YYYY-MM-DDTHH-MM`.
    pub fn minute_text(&self) -> (r: String)
        ensures
            r@ == self@.minute_text(),
            self@.in_calendar(),
    {
        proof {
            use_type_invariant(self);
        }
        format_moment(
            self.year,
            self.month,
            self.day,
            self.hour,
            self.minute,
            self.second,
            self.nanosecond,
            "%Y-%m-%dT%H-%M",
        )
    }

    /// The year of the Gregorian calendar.
    pub fn year(&self) -> (r: i32)
        ensures
            r == self@.year,
    {
        self.year
    }

    /// The month, from 1 on.
    pub fn month(&self) -> (r: u32)
        ensures
            r == self@.month,
    {
        self.month
    }

    /// The day of the month, from 1 on.
    pub fn day(&self) -> (r: u32)
        ensures
            r == self@.day,
    {
        self.day
    }

    /// The hour of the day, from 0 on.
    pub fn hour(&self) -> (r: u32)
        ensures
            r == self@.hour,
    {
        self.hour
    }

    /// The minute of the hour, from 0 on.
    pub fn minute(&self) -> (r: u32)
        ensures
            r == self@.minute,
    {
        self.minute
    }

    /// The second of the minute, from 0 on.
    pub fn second(&self) -> (r: u32)
        ensures
            r == self@.second,
    {
        self.second
    }

    /// The nanosecond of the second, from 0 on.
    pub fn nanosecond(&self) -> (r: u32)
        ensures
            r == self@.nanosecond,
    {
        self.nanosecond
    }
}

/// What was counted of a request and its response. The two rates are carried as
/// the bits of double-precision floating-point numbers.
#[derive(Clone, Copy, Debug)]
pub struct TokenMetrics {
    pub cache_tokens: i64,
    pub input_tokens: i64,
    pub output_tokens: i64,
    pub prompt_per_second: u64,
    pub tokens_per_second: u64,
}

impl Default for TokenMetrics {
    fn default() -> (r: Self)
        ensures
            r == (TokenMetrics {
                cache_tokens: 0,
                input_tokens: 0,
                output_tokens: 0,
                prompt_per_second: 0,
                tokens_per_second: 0,
            }),
    {
        TokenMetrics {
            cache_tokens: 0,
            input_tokens: 0,
            output_tokens: 0,
            prompt_per_second: 0,
            tokens_per_second: 0,
        }
    }
}

/// A request that went through the proxy, and its response.
#[derive(Clone, Debug)]
pub struct ActivityLogEntry {
    pub id: i64,
    pub timestamp: Timestamp,
    pub model: String,
    pub req_path: String,
    pub resp_content_type: String,
    pub resp_status_code: i64,
    pub tokens: TokenMetrics,
    pub duration_ms: i64,
    pub has_capture: bool,
    pub capture: Option<serde_json::Map<String, serde_json::Value>>,
}

/// What an event of the stream carries.
#[derive(Debug)]
pub struct SSEEnvelope {
    pub type_: String,
    pub data: String,
}

/// The number of days in a month.
fn month_length(year: i32, month: u32) -> (r: u32)
    ensures
        r == days_in_month(year as int, month as int),
{
    if month == 2 {
        // The calendar repeats itself every 400 years.
        let shifted: i64 = year as i64 + 400 * 5_368_710;
        if shifted % 4 == 0 && (shifted % 100 != 0 || shifted % 400 == 0) {
            29
        } else {
            28
        }
    } else if month == 4 || month == 6 || month == 9 || month == 11 {
        30
    } else {
        31
    }
}

/// Calls `chrono::DateTime::format` on the `chrono::DateTime<Utc>` with these
/// fields: the moment is written as the pattern says, each field but the year in
/// two digits, and the year in four, with a sign before the year 0 and after the
/// year 9999.
#[verifier::external_body]
fn format_moment(
    year: i32,
    month: u32,
    day: u32,
    hour: u32,
    minute: u32,
    second: u32,
    nanosecond: u32,
    pattern: &str,
) -> (r: String)
    requires
        moment(year, month, day, hour, minute, second, nanosecond).in_calendar(),
        pattern@ == minute_pattern(),
    ensures
        r@ == moment(year, month, day, hour, minute, second, nanosecond).minute_text(),
{
    let date = chrono::NaiveDate::from_ymd_opt(year, month, day).unwrap();
    let time = date.and_hms_nano_opt(hour, minute, second, nanosecond).unwrap();
    time.and_utc().format(pattern).to_string()
}

} // verus!
