//! The time label of a message line: its local time of day when it was
//! sent today, else also its weekday.

use vstd::prelude::*;
use chrono::{Datelike, TimeZone};
use crate::decimal::is_digit;

verus! {

/// `HH:MM`: two digits, a colon, two digits.
pub open spec fn is_clock_text(s: Seq<char>) -> bool {
    &&& s.len() == 5
    &&& is_digit(s[0]) && is_digit(s[1])
    &&& s[2] == ':'
    &&& is_digit(s[3]) && is_digit(s[4])
}

/// An English weekday abbreviation, as chrono's `%a` writes it.
pub open spec fn is_weekday_abbreviation(s: Seq<char>) -> bool {
    ||| s == "Sun"@
    ||| s == "Mon"@
    ||| s == "Tue"@
    ||| s == "Wed"@
    ||| s == "Thu"@
    ||| s == "Fri"@
    ||| s == "Sat"@
}

/// `Mon HH:MM`.
pub open spec fn is_day_clock_text(s: Seq<char>) -> bool {
    &&& s.len() == 9
    &&& is_weekday_abbreviation(s.take(3))
    &&& s[3] == ' '
    &&& is_clock_text(s.skip(4))
}

/// A moment in the machine's local time zone: its calendar date (year,
/// month, day) and its texts in two formats.
#[derive(Debug)]
pub struct LocalTime {
    pub date: (i32, u32, u32),
    pub short_text: String,
    pub long_text: String,
}

/// The latest Unix time (the end of year 9999, UTC) up to which a local
/// time is certainly found.
pub const LATEST_LOCAL_TIME: i64 = 253_402_300_799;

/// The local time of the Unix time `ts`, from
/// `chrono::Local.timestamp_opt(ts, 0).single()`, with its date and its
/// texts in the chrono `format` patterns `%H:%M` and `%a %H:%M`; `None`
/// when `ts` has no single local time. The values depend on the machine's
/// time zone. What is stated: a time from 1970 to the end of year 9999
/// has a local time (chrono's range reaches much further); a month is 1
/// to 12 and a day 1 to 31; the first text is a zero-padded hour and
/// minute, the second a three-letter English weekday, a space and the
/// same. Not stated, because it rests on the machine: chrono stops with a
/// panic when it cannot read the local time zone rules ("unable to select
/// local time type").
#[verifier::external_body]
fn local_time(ts: i64, short_pattern: &str, long_pattern: &str) -> (r: Option<LocalTime>)
    requires
        short_pattern@ == "%H:%M"@,
        long_pattern@ == "%a %H:%M"@,
    ensures
        0 <= ts <= LATEST_LOCAL_TIME ==> r is Some,
        r matches Some(t) ==> {
            &&& 1 <= t.date.1 <= 12
            &&& 1 <= t.date.2 <= 31
            &&& is_clock_text(t.short_text@)
            &&& is_day_clock_text(t.long_text@)
        },
{
    match chrono::Local.timestamp_opt(ts, 0).single() {
        Some(t) => Some(LocalTime {
            date: (t.year(), t.month(), t.day()),
            short_text: t.format(short_pattern).to_string(),
            long_text: t.format(long_pattern).to_string(),
        }),
        None => None,
    }
}

/// Which label a message gets.
#[derive(Debug, Clone, Copy, PartialEq, Eq, Structural)]
pub enum LabelFormat {
    /// The message's time of day (`HH:MM`): it was sent today.
    Clock,
    /// The message's weekday and time of day (`Mon HH:MM`): sent earlier.
    DayAndClock,
    /// The current time of day: the message's time has no local time.
    NowClock,
}

/// The label of a message sent on local date `message_date` (none when its
/// time has no local time), read on local date `today`.
pub open spec fn label_format_spec(
    message_date: Option<(i32, u32, u32)>,
    today: Option<(i32, u32, u32)>,
) -> LabelFormat {
    match message_date {
        None => LabelFormat::NowClock,
        Some(d) => if today == Some(d) {
            LabelFormat::Clock
        } else {
            LabelFormat::DayAndClock
        },
    }
}

/// Picks the label of a message: its time of day when it was sent today,
/// its weekday and time of day when earlier, and the current time of day
/// when its time has no local time.
pub fn label_format(message_date: Option<(i32, u32, u32)>, today: Option<(i32, u32, u32)>) -> (r:
    LabelFormat)
    ensures
        r == label_format_spec(message_date, today),
{
    match message_date {
        None => LabelFormat::NowClock,
        Some(d) => match today {
            Some(t) => if d.0 == t.0 && d.1 == t.1 && d.2 == t.2 {
                LabelFormat::Clock
            } else {
                LabelFormat::DayAndClock
            },
            None => LabelFormat::DayAndClock,
        },
    }
}

/// The date of a local time, if there is one.
pub open spec fn date_of(t: Option<LocalTime>) -> Option<(i32, u32, u32)> {
    match t {
        Some(t) => Some(t.date),
        None => None,
    }
}

/// The label of a message whose local time is `message`, read at the local
/// time `now`: the message's time of day when it was sent today, its
/// weekday and time of day when earlier, the current time of day when the
/// message's time has no local time (empty if neither has one).
pub open spec fn label_text(message: Option<LocalTime>, now: Option<LocalTime>) -> Seq<char> {
    match label_format_spec(date_of(message), date_of(now)) {
        LabelFormat::Clock => match message {
            Some(m) => m.short_text@,
            None => Seq::<char>::empty(),
        },
        LabelFormat::DayAndClock => match message {
            Some(m) => m.long_text@,
            None => Seq::<char>::empty(),
        },
        LabelFormat::NowClock => match now {
            Some(n) => n.short_text@,
            None => Seq::<char>::empty(),
        },
    }
}

/// A message gets its time of day alone exactly when it was sent on the
/// reading day: the same year, month and day. Any other date, earlier
/// month or year included, gets the weekday too; a message without a
/// local time gets the current time of day.
pub proof fn lemma_label_format_compares_whole_dates(
    message_date: Option<(i32, u32, u32)>,
    today: Option<(i32, u32, u32)>,
)
    ensures
        (label_format_spec(message_date, today) == LabelFormat::Clock) <==> (
        message_date is Some && today is Some && (message_date->0).0 == (today->0).0
            && (message_date->0).1 == (today->0).1 && (message_date->0).2 == (today->0).2),
        (label_format_spec(message_date, today) == LabelFormat::NowClock) <==> message_date is None,
        (label_format_spec(message_date, today) == LabelFormat::DayAndClock) <==> (
        message_date is Some && !(today is Some && (message_date->0).0 == (today->0).0
            && (message_date->0).1 == (today->0).1 && (message_date->0).2 == (today->0).2)),
{
}

/// Takes the label of a message from its local time and the current one,
/// as `label_format` picks it.
pub fn pick_label(message: Option<LocalTime>, now: Option<LocalTime>) -> (r: String)
    ensures
        r@ == label_text(message, now),
{
    let message_date = match &message {
        Some(t) => Some(t.date),
        None => None,
    };
    let today = match &now {
        Some(t) => Some(t.date),
        None => None,
    };
    match label_format(message_date, today) {
        LabelFormat::Clock => match message {
            Some(t) => t.short_text,
            None => String::new(),
        },
        LabelFormat::DayAndClock => match message {
            Some(t) => t.long_text,
            None => String::new(),
        },
        LabelFormat::NowClock => match now {
            Some(t) => t.short_text,
            None => String::new(),
        },
    }
}

/// The time label of a message sent at Unix time `ts`, read at Unix time
/// `now`: `pick_label` on their local times. It is `HH:MM` or `Mon HH:MM`,
/// and never empty when either time lies between 1970 and the end of year
/// 9999.
pub fn time_label(ts: i64, now: i64) -> (r: String)
    ensures
        is_clock_text(r@) || is_day_clock_text(r@) || r@.len() == 0,
        (0 <= ts <= LATEST_LOCAL_TIME || 0 <= now <= LATEST_LOCAL_TIME) ==> r@.len() > 0,
{
    let message_time = local_time(ts, "%H:%M", "%a %H:%M");
    let now_time = local_time(now, "%H:%M", "%a %H:%M");
    pick_label(message_time, now_time)
}

} // verus!
