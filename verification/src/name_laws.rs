//! What holds of every timestamp and of every name of a file.

use vstd::prelude::*;

use crate::capture::capture_file_name;
use crate::capture_laws::file_names_differ;
use crate::models::{year_text, Timestamp, TokenMetrics};
use crate::text::{digits, padded, padded_integer};
use crate::text_laws::{integers_are_integers, is_integer, is_numeral, padded_is_a_numeral};

verus! {

/// Whether a year has a day behind the 28th of February: every fourth one, but of
/// the full centuries only every fourth one.
pub open spec fn has_leap_day(year: int) -> bool {
    if year % 100 == 0 {
        year % 400 == 0
    } else {
        year % 4 == 0
    }
}

/// Whether a month of a year has a day of this number.
pub open spec fn has_day(year: int, month: int, day: int) -> bool {
    &&& 1 <= month <= 12
    &&& 1 <= day <= 31
    &&& day == 31 ==> {
        ||| month == 1
        ||| month == 3
        ||| month == 5
        ||| month == 7
        ||| month == 8
        ||| month == 10
        ||| month == 12
    }
    &&& month == 2 ==> day <= 29
    &&& month == 2 && day == 29 ==> has_leap_day(year)
}

/// Whatever `Timestamp::new` returns, a timestamp is made of the fields of a time of
/// a day of the calendar, and of no others. A leap second goes on where the last
/// second of a minute ends.
pub proof fn timestamps_are_times_of_days(
    year: i32,
    month: u32,
    day: u32,
    hour: u32,
    minute: u32,
    second: u32,
    nanosecond: u32,
    made: Option<Timestamp>,
)
    requires
        call_ensures(
            Timestamp::new,
            (year, month, day, hour, minute, second, nanosecond),
            made,
        ),
    ensures
        made is Some <==> {
            &&& -262143 <= year <= 262142
            &&& has_day(year as int, month as int, day as int)
            &&& hour <= 23
            &&& minute <= 59
            &&& second <= 59
            &&& nanosecond <= 999_999_999 || (second == 59 && nanosecond <= 1_999_999_999)
        },
{
}

/// Whatever the fields of a timestamp are read as, they are what it was made of.
pub proof fn timestamps_keep_their_fields(
    year: i32,
    month: u32,
    day: u32,
    hour: u32,
    minute: u32,
    second: u32,
    nanosecond: u32,
    timestamp: Timestamp,
    read: (i32, u32, u32, u32, u32, u32, u32),
)
    requires
        call_ensures(
            Timestamp::new,
            (year, month, day, hour, minute, second, nanosecond),
            Some(timestamp),
        ),
        call_ensures(Timestamp::year, (&timestamp,), read.0),
        call_ensures(Timestamp::month, (&timestamp,), read.1),
        call_ensures(Timestamp::day, (&timestamp,), read.2),
        call_ensures(Timestamp::hour, (&timestamp,), read.3),
        call_ensures(Timestamp::minute, (&timestamp,), read.4),
        call_ensures(Timestamp::second, (&timestamp,), read.5),
        call_ensures(Timestamp::nanosecond, (&timestamp,), read.6),
    ensures
        read == (year, month, day, hour, minute, second, nanosecond),
{
}

/// The digit of a value below ten.
pub open spec fn digit_char(value: int) -> char {
    (48 + value) as char
}

/// Two digits.
pub open spec fn two_digits(n: int) -> Seq<char> {
    seq![digit_char(n / 10), digit_char(n % 10)]
}

/// Whether a text is that of a year: four digits, or a sign and at least four.
pub open spec fn is_year(text: Seq<char>, year: int) -> bool {
    if 0 <= year <= 9999 {
        text.len() == 4 && is_numeral(text, year, 4)
    } else {
        &&& text.len() > 0
        &&& text[0] == if year < 0 {
            '-'
        } else {
            '+'
        }
        &&& is_numeral(
            text.skip(1),
            if year < 0 {
                -year
            } else {
                year
            },
            4,
        )
    }
}

proof fn lemma_two_digits(n: nat)
    requires
        n < 100,
    ensures
        padded(n, 2) == two_digits(n as int),
{
    reveal_with_fuel(digits, 2);
    if n < 10 {
        assert(padded(n, 2) =~= two_digits(n as int));
    } else {
        assert(digits(n) =~= two_digits(n as int));
        assert(padded(n, 2) =~= digits(n));
    }
}

proof fn lemma_year(year: int)
    ensures
        is_year(year_text(year), year),
{
    if 0 <= year <= 9999 {
        padded_is_a_numeral(year as nat, 4);
        reveal_with_fuel(digits, 5);
        assert(digits(year as nat).len() <= 4);
    } else {
        let size = if year < 0 {
            -year
        } else {
            year
        };
        padded_is_a_numeral(size as nat, 4);
        assert(year_text(year).skip(1) =~= padded(size as nat, 4));
    }
}

/// Whatever `Timestamp::minute_text` and `capture_file_name` return, a name holds
/// the year, the month, the day, the hour and the minute of the timestamp, and
/// behind them the whole id, in four characters or more.
pub proof fn names_hold_the_minute_and_the_id(
    year: i32,
    month: u32,
    day: u32,
    hour: u32,
    minute: u32,
    second: u32,
    nanosecond: u32,
    timestamp: Timestamp,
    id: i64,
    minute_text: String,
    name: String,
)
    requires
        call_ensures(
            Timestamp::new,
            (year, month, day, hour, minute, second, nanosecond),
            Some(timestamp),
        ),
        call_ensures(Timestamp::minute_text, (&timestamp,), minute_text),
        call_ensures(capture_file_name, (&timestamp, id), name),
    ensures
        exists|years: Seq<char>| #[trigger]
            is_year(years, year as int) && minute_text@ == years + seq!['-'] + two_digits(
                month as int,
            ) + seq!['-'] + two_digits(day as int) + seq!['T'] + two_digits(hour as int)
                + seq!['-'] + two_digits(minute as int),
        exists|numeral: Seq<char>| #[trigger]
            is_integer(numeral, id as int, 4) && name@ == minute_text@ + seq!['_'] + numeral
                + seq!['.', 'j', 's', 'o', 'n'],
{
    lemma_year(year as int);
    lemma_two_digits(month as nat);
    lemma_two_digits(day as nat);
    lemma_two_digits(hour as nat);
    lemma_two_digits(minute as nat);
    integers_are_integers(id as int, 4);
    reveal_strlit("_");
    reveal_strlit(".json");
    assert("_"@ =~= seq!['_']);
    assert(".json"@ =~= seq!['.', 'j', 's', 'o', 'n']);
    let years = year_text(year as int);
    assert(is_year(years, year as int));
    let numeral = padded_integer(id as int, 4);
    assert(is_integer(numeral, id as int, 4));
    assert(name@ =~= minute_text@ + seq!['_'] + numeral + seq!['.', 'j', 's', 'o', 'n']);
}

/// Whatever `capture_file_name` returns for two captures, the names are the same
/// only where the ids are and all fields of the timestamps down to the minute.
pub proof fn names_tell_captures_apart(
    timestamp: Timestamp,
    id: i64,
    name: String,
    other_timestamp: Timestamp,
    other_id: i64,
    other_name: String,
    read: (i32, u32, u32, u32, u32),
    other_read: (i32, u32, u32, u32, u32),
)
    requires
        call_ensures(capture_file_name, (&timestamp, id), name),
        call_ensures(capture_file_name, (&other_timestamp, other_id), other_name),
        call_ensures(Timestamp::year, (&timestamp,), read.0),
        call_ensures(Timestamp::month, (&timestamp,), read.1),
        call_ensures(Timestamp::day, (&timestamp,), read.2),
        call_ensures(Timestamp::hour, (&timestamp,), read.3),
        call_ensures(Timestamp::minute, (&timestamp,), read.4),
        call_ensures(Timestamp::year, (&other_timestamp,), other_read.0),
        call_ensures(Timestamp::month, (&other_timestamp,), other_read.1),
        call_ensures(Timestamp::day, (&other_timestamp,), other_read.2),
        call_ensures(Timestamp::hour, (&other_timestamp,), other_read.3),
        call_ensures(Timestamp::minute, (&other_timestamp,), other_read.4),
    ensures
        name@ == other_name@ <==> id == other_id && read == other_read,
{
    if name@ == other_name@ {
        file_names_differ(timestamp@, id as int, other_timestamp@, other_id as int);
    }
}

/// Whatever `TokenMetrics::default` returns counts nothing.
pub proof fn default_metrics_count_nothing(metrics: TokenMetrics)
    requires
        call_ensures(<TokenMetrics as Default>::default, (), metrics),
    ensures
        metrics.cache_tokens == 0,
        metrics.input_tokens == 0,
        metrics.output_tokens == 0,
        metrics.prompt_per_second == 0,
        metrics.tokens_per_second == 0,
{
}

} // verus!
