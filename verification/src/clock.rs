//! The clock: the time of day, the date, and how long ago something was.
use vstd::prelude::*;

use crate::text;

verus! {

/// A point in time on the machine's clock.
#[derive(Clone, Copy, PartialEq, Eq, Debug, Structural)]
pub struct Moment {
    /// Unix seconds.
    pub secs: i64,
    /// Nanoseconds within the second; more than a second's worth in a leap
    /// second.
    pub nanos: u32,
    /// Seconds by which the local time is ahead of UTC.
    pub offset: i32,
}

/// The date and time at `secs` and `nanos` in a zone that is `offset` seconds
/// ahead of UTC, written by the strftime pattern `pattern`. `None` where the
/// calendar does not reach that far, where there is no such zone, or where
/// `pattern` is no pattern.
pub uninterp spec fn written(
    secs: i64,
    nanos: u32,
    offset: i32,
    pattern: Seq<char>,
) -> Option<Seq<char>>;

/// A string's characters, if there is one.
pub open spec fn seen(s: Option<String>) -> Option<Seq<char>> {
    match s {
        Some(s) => Some(s@),
        None => None,
    }
}

/// `chrono::DateTime::format`, on the `DateTime<FixedOffset>` that the three
/// numbers give through `DateTime::from_timestamp` and
/// `FixedOffset::east_opt`. What it writes is a function of the numbers and
/// the pattern: names of days and months are English, and no setting of the
/// machine comes in. What it writes is not stated beyond that. `None` is its
/// error, or one of the other two calls' `None`.
#[verifier::external_body]
fn write_time(secs: i64, nanos: u32, offset: i32, pattern: &str) -> (r: Option<String>)
    ensures
        seen(r) == written(secs, nanos, offset, pattern@),
{
    let zone = chrono::FixedOffset::east_opt(offset)?;
    let time = chrono::DateTime::from_timestamp(secs, nanos)?.with_timezone(&zone);
    let mut out = String::new();
    time.format(pattern).write_to(&mut out).ok()?;
    Some(out)
}

impl Moment {
    /// The moment, written by `pattern`.
    pub fn format(&self, pattern: &str) -> (r: Option<String>)
        ensures
            seen(r) == written(self.secs, self.nanos, self.offset, pattern@),
    {
        write_time(self.secs, self.nanos, self.offset, pattern)
    }
}

/// What the bar and the panel say of the time.
#[derive(Debug, PartialEq, Eq)]
pub struct Times {
    pub clock: String,
    pub date: String,
    /// The date as the clock panel spells it out: "Monday 15 September".
    pub long_date: String,
}

/// The three texts at `now`, by the patterns in the settings. `None` where
/// one of those is no pattern.
pub fn times(now: Moment, clock_format: &str, date_format: &str) -> (r: Option<Times>)
    ensures
        match (
            written(now.secs, now.nanos, now.offset, clock_format@),
            written(now.secs, now.nanos, now.offset, date_format@),
            written(now.secs, now.nanos, now.offset, "%A %-d %B"@),
        ) {
            (Some(clock), Some(date), Some(long_date)) => r matches Some(t) && t.clock@ == clock
                && t.date@ == date && t.long_date@ == long_date,
            _ => r is None,
        },
{
    let clock = now.format(clock_format);
    let date = now.format(date_format);
    let long_date = now.format("%A %-d %B");
    match (clock, date, long_date) {
        (Some(clock), Some(date), Some(long_date)) => Some(Times { clock, date, long_date }),
        _ => None,
    }
}

/// How long ago `arrived` was at `now`, as the panel says it, where `day` is
/// what it calls the day of `arrived`.
pub open spec fn ago_text(arrived: int, now: int, day: Seq<char>) -> Seq<char> {
    let s = now - arrived;
    if s < 60 {
        "now"@
    } else if s < 3600 {
        text::decimal((s / 60) as nat) + " min ago"@
    } else if s < 86400 {
        text::decimal((s / 3600) as nat) + " h ago"@
    } else {
        day
    }
}

/// The text for a distance in time, given the name of the day.
pub fn ago_on(arrived: i64, now: i64, day: String) -> (r: String)
    ensures
        r@ == ago_text(arrived as int, now as int, day@),
{
    let s: i128 = now as i128 - arrived as i128;
    if s < 60 {
        "now".to_owned()
    } else if s < 3600 {
        let mut r = text::decimal_of((s / 60) as u64);
        r.append(" min ago");
        r
    } else if s < 86400 {
        let mut r = text::decimal_of((s / 3600) as u64);
        r.append(" h ago");
        r
    } else {
        day
    }
}

/// How long ago `arrived` was at `now`, as the panel says it, where the local
/// time was `offset` seconds ahead of UTC then.
pub open spec fn ago_said(arrived: i64, now: i64, offset: i32) -> Seq<char> {
    ago_text(
        arrived as int,
        now as int,
        match written(arrived, 0, offset, "%d %b"@) {
            Some(day) => day,
            None => Seq::empty(),
        },
    )
}

/// How long ago a notification arrived, as the panel says it. `offset` is
/// what the local time was ahead of UTC when it did.
pub fn ago(arrived: i64, now: i64, offset: i32) -> (r: String)
    ensures
        r@ == ago_said(arrived, now, offset),
{
    let day = match write_time(arrived, 0, offset, "%d %b") {
        Some(day) => day,
        None => String::new(),
    };
    ago_on(arrived, now, day)
}

/// How many milliseconds to wait until the next whole second, `millis` into
/// this one, so that the clock flips on time.
pub fn until_next_second(millis: u32) -> (r: u64)
    ensures
        r == if millis < 1000 {
            1000 - millis
        } else {
            1
        },
        1 <= r <= 1000,
{
    if millis < 999 {
        1000 - millis as u64
    } else {
        1
    }
}

/// The panel counts minutes from one to fifty-nine and hours from one to
/// twenty-three: it never says "0 min ago", "60 min ago" or "24 h ago".
pub proof fn law_ago_counts(arrived: int, now: int, day: Seq<char>)
    ensures
        60 <= now - arrived < 3600 ==> exists|n: nat|
            1 <= n <= 59 && n * 60 <= now - arrived < (n + 1) * 60 && ago_text(arrived, now, day)
                == #[trigger] text::decimal(n) + " min ago"@,
        3600 <= now - arrived < 86400 ==> exists|n: nat|
            1 <= n <= 23 && n * 3600 <= now - arrived < (n + 1) * 3600 && ago_text(
                arrived,
                now,
                day,
            ) == #[trigger] text::decimal(n) + " h ago"@,
{
    let s = now - arrived;
    if 60 <= s < 3600 {
        let n = (s / 60) as nat;
        assert(ago_text(arrived, now, day) == text::decimal(n) + " min ago"@);
    }
    if 3600 <= s < 86400 {
        let n = (s / 3600) as nat;
        assert(ago_text(arrived, now, day) == text::decimal(n) + " h ago"@);
    }
}

/// What is said depends on how long ago it was alone, whenever that is: less
/// than a minute, and anything that has not come yet, is now; a day and more is
/// the day.
pub proof fn law_ago(arrived: int, now: int, later: int, day: Seq<char>)
    ensures
        ago_text(arrived, now, day) == ago_text(arrived + later, now + later, day),
        now - arrived < 60 ==> ago_text(arrived, now, day) == "now"@,
        now - arrived >= 86400 ==> ago_text(arrived, now, day) == day,
        forall|a: Seq<char>, b: Seq<char>|
            now - arrived < 86400 ==> #[trigger] ago_text(arrived, now, a) == #[trigger] ago_text(
                arrived,
                now,
                b,
            ),
{
}

/// [`ago`] says it of the day that the notification arrived on, where it
/// arrived.
pub proof fn law_ago_said(arrived: i64, now: i64, offset: i32, r: String)
    requires
        call_ensures(ago, (arrived, now, offset), r),
    ensures
        now - arrived < 60 ==> r@ == "now"@,
        now - arrived >= 86400 ==> r@ == match written(arrived, 0, offset, "%d %b"@) {
            Some(day) => day,
            None => Seq::empty(),
        },
{
}

/// The wait ends with the second: what has gone by of it and the wait make up a
/// thousand milliseconds. It is never none.
pub proof fn law_next_second(millis: u32, r: u64)
    requires
        call_ensures(until_next_second, (millis,), r),
    ensures
        millis < 1000 ==> millis + r == 1000,
        millis >= 1000 ==> r == 1,
        r >= 1,
{
}

/// The clock, the date and the date in words are of the same moment, each by
/// its own pattern, and there is one exactly if there are all.
pub proof fn law_times(now: Moment, clock: &str, date: &str, r: Option<Times>)
    requires
        call_ensures(times, (now, clock, date), r),
    ensures
        r matches Some(t) ==> {
            &&& written(now.secs, now.nanos, now.offset, clock@) == Some(t.clock@)
            &&& written(now.secs, now.nanos, now.offset, date@) == Some(t.date@)
            &&& written(now.secs, now.nanos, now.offset, "%A %-d %B"@) == Some(t.long_date@)
        },
        r is None ==> written(now.secs, now.nanos, now.offset, clock@) is None || written(
            now.secs,
            now.nanos,
            now.offset,
            date@,
        ) is None || written(now.secs, now.nanos, now.offset, "%A %-d %B"@) is None,
{
}

} // verus!
