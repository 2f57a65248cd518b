//! Points in time and how long ago they were.

use crate::outside::{days_between, local_now, utc_date};
use crate::text::{concat2, decimal, decimal_text};
use vstd::prelude::*;

verus! {

/// A point in time: seconds since the Unix epoch, and nanoseconds behind them.
#[derive(Clone, Copy, Debug, PartialEq, Eq, Structural)]
pub struct Timestamp {
    pub secs: i64,
    pub nanos: u32,
}

/// The first second that has a date.
pub const MIN_SECS: i64 = -8_334_601_228_800;

/// The last second that has a date.
pub const MAX_SECS: i64 = 8_210_266_876_799;

impl Timestamp {
    /// The point in time has a date.
    pub open spec fn has_date(self) -> bool {
        MIN_SECS <= self.secs <= MAX_SECS && self.nanos < 1_000_000_000
    }

    /// Nanoseconds since the Unix epoch.
    pub open spec fn in_nanos(self) -> int {
        self.secs * 1_000_000_000 + self.nanos
    }
}

/// The nanoseconds of a day.
pub open spec fn day_nanos() -> int {
    86_400_000_000_000
}

/// The whole days from `then` to `now`, counted towards zero.
pub open spec fn whole_days(now: Timestamp, then: Timestamp) -> int {
    let elapsed = now.in_nanos() - then.in_nanos();
    if elapsed >= 0 {
        elapsed / day_nanos()
    } else {
        -((-elapsed) / day_nanos())
    }
}

/// How long ago so many days are.
pub open spec fn days_ago_text(days: int) -> Seq<char> {
    if days > 365 {
        decimal_text((days / 365) as nat) + " years ago"@
    } else if days > 30 {
        decimal_text((days / 30) as nat) + " months ago"@
    } else if days > 0 {
        decimal_text(days as nat) + " days ago"@
    } else {
        "recent"@
    }
}

/// How long ago `time` was at `now`; a time that is not known is a dash.
pub open spec fn time_ago_text(time: Option<Timestamp>, now: Timestamp) -> Seq<char> {
    match time {
        Some(time) => days_ago_text(whole_days(now, time)),
        None => "-"@,
    }
}

/// How long ago so many days are.
pub fn days_ago(days: i64) -> (r: String)
    ensures
        r@ == days_ago_text(days as int),
{
    if days > 365 {
        let years = decimal((days / 365) as u64);
        concat2(years.as_str(), " years ago")
    } else if days > 30 {
        let months = decimal((days / 30) as u64);
        concat2(months.as_str(), " months ago")
    } else if days > 0 {
        let count = decimal(days as u64);
        concat2(count.as_str(), " days ago")
    } else {
        "recent".to_owned()
    }
}

/// How long ago `time` was at `now`.
pub fn time_ago(time: Option<Timestamp>, now: Timestamp) -> (r: String)
    requires
        now.has_date(),
        time matches Some(time) ==> time.has_date(),
    ensures
        r@ == time_ago_text(time, now),
{
    match time {
        Some(time) => days_ago(days_between(now, time)),
        None => "-".to_owned(),
    }
}

/// How long ago `time` is now, by a clock that does not stand before the Unix epoch.
pub fn format_time_ago(time: Option<Timestamp>) -> (r: String)
    requires
        time matches Some(time) ==> time.has_date(),
    ensures
        exists|now: Timestamp|
            now.has_date() && now.secs >= 0 && r@ == #[trigger] time_ago_text(time, now),
{
    let now = local_now();
    time_ago(time, now)
}

/// A date of the Gregorian calendar, which is taken to hold for all time.
#[derive(Clone, Copy, Debug, PartialEq, Eq, Structural)]
pub struct Date {
    pub year: i32,
    pub month: u32,
    pub day: u32,
}

/// The year has a leap day.
pub open spec fn is_leap(year: int) -> bool {
    year % 4 == 0 && (year % 100 != 0 || year % 400 == 0)
}

/// The days of a month.
pub open spec fn days_in_month(year: int, month: int) -> int {
    if month == 2 {
        if is_leap(year) {
            29
        } else {
            28
        }
    } else if month == 4 || month == 6 || month == 9 || month == 11 {
        30
    } else {
        31
    }
}

/// The days of the year before a month.
pub open spec fn days_before_month(year: int, month: int) -> int
    decreases month,
{
    if month <= 1 {
        0
    } else {
        days_before_month(year, month - 1) + days_in_month(year, month - 1)
    }
}

/// The days from the Unix epoch to the start of a year.
pub open spec fn days_before_year(year: int) -> int {
    365 * (year - 1970) + (year - 1) / 4 - (year - 1) / 100 + (year - 1) / 400 - 477
}

impl Date {
    /// There is such a date.
    pub open spec fn valid(self) -> bool {
        1 <= self.month <= 12 && 1 <= self.day <= days_in_month(
            self.year as int,
            self.month as int,
        )
    }

    /// The days from the Unix epoch to this date.
    pub open spec fn day_number(self) -> int {
        days_before_year(self.year as int) + days_before_month(
            self.year as int,
            self.month as int,
        ) + self.day - 1
    }
}

/// The date, in Coordinated Universal Time, on which a point in time lies.
pub open spec fn utc_date_of(time: Timestamp) -> Date {
    choose|date: Date| date.valid() && #[trigger] date.day_number() == time.secs as int / 86_400
}

proof fn lemma_years(a: int, b: int)
    requires
        a < b,
    ensures
        days_before_year(a) + 365 + (if is_leap(a) {
            1int
        } else {
            0int
        }) <= days_before_year(b),
    decreases b - a,
{
    if a + 1 < b {
        lemma_years(a, b - 1);
    }
}

proof fn lemma_months(year: int, a: int, b: int)
    requires
        1 <= a < b <= 13,
    ensures
        days_before_month(year, a) + days_in_month(year, a) <= days_before_month(year, b),
    decreases b - a,
{
    if a + 1 < b {
        lemma_months(year, a, b - 1);
    }
}

proof fn lemma_day_of_year(date: Date)
    requires
        date.valid(),
    ensures
        days_before_year(date.year as int) <= date.day_number() < days_before_year(
            date.year as int,
        ) + 365 + (if is_leap(date.year as int) {
            1int
        } else {
            0int
        }),
        date.day_number() < days_before_year(date.year as int) + days_before_month(
            date.year as int,
            date.month + 1,
        ),
{
    let year = date.year as int;
    lemma_months(year, date.month as int, 13);
    reveal_with_fuel(days_before_month, 13);
}

/// There is one date for each day.
pub proof fn law_one_date_per_day(a: Date, b: Date)
    requires
        a.valid(),
        b.valid(),
        a.day_number() == b.day_number(),
    ensures
        a == b,
{
    lemma_day_of_year(a);
    lemma_day_of_year(b);
    if a.year < b.year {
        lemma_years(a.year as int, b.year as int);
    }
    if b.year < a.year {
        lemma_years(b.year as int, a.year as int);
    }
    if a.month < b.month {
        lemma_months(a.year as int, a.month as int, b.month as int);
    }
    if b.month < a.month {
        lemma_months(a.year as int, b.month as int, a.month as int);
    }
}

proof fn lemma_year_from(day: int, year: int) -> (r: int)
    requires
        year >= 1970,
        days_before_year(year) <= day,
    ensures
        r >= year,
        days_before_year(r) <= day < days_before_year(r + 1),
    decreases day - days_before_year(year),
{
    if day < days_before_year(year + 1) {
        year
    } else {
        lemma_year_from(day, year + 1)
    }
}

proof fn lemma_year_upto(day: int, year: int) -> (r: int)
    requires
        year < 1970,
        day < days_before_year(year + 1),
    ensures
        r <= year,
        days_before_year(r) <= day < days_before_year(r + 1),
    decreases days_before_year(year + 1) - day,
{
    if days_before_year(year) <= day {
        year
    } else {
        lemma_year_upto(day, year - 1)
    }
}

proof fn lemma_month_of(year: int, k: int, month: int) -> (r: int)
    requires
        1 <= month <= 12,
        days_before_month(year, month) <= k,
        0 <= k < 365 + (if is_leap(year) {
            1int
        } else {
            0int
        }),
    ensures
        month <= r <= 12,
        days_before_month(year, r) <= k < days_before_month(year, r + 1),
    decreases 12 - month,
{
    if k < days_before_month(year, month + 1) {
        month
    } else {
        if month == 12 {
            reveal_with_fuel(days_before_month, 13);
        }
        lemma_month_of(year, k, month + 1)
    }
}

/// Every point in time that has a date lies on one.
pub proof fn law_date_exists(time: Timestamp)
    requires
        time.has_date(),
    ensures
        utc_date_of(time).valid(),
        utc_date_of(time).day_number() == time.secs as int / 86_400,
{
    let day = time.secs as int / 86_400;
    let year = if day >= 0 {
        lemma_year_from(day, 1970)
    } else {
        lemma_year_upto(day, 1969)
    };
    assert(-300_000 < year < 300_000);
    let k = day - days_before_year(year);
    let month = lemma_month_of(year, k, 1);
    let date = Date {
        year: year as i32,
        month: month as u32,
        day: (k - days_before_month(year, month) + 1) as u32,
    };
    assert(date.valid());
    assert(date.day_number() == day);
}

/// Whether a point in time has a date.
pub fn has_date(time: Timestamp) -> (r: bool)
    ensures
        r == time.has_date(),
{
    MIN_SECS <= time.secs && time.secs <= MAX_SECS && time.nanos < 1_000_000_000
}

/// The date, in Coordinated Universal Time, on which `time` lies.
pub fn date_of(time: Timestamp) -> (r: Date)
    requires
        time.has_date(),
    ensures
        r == utc_date_of(time),
        r.valid(),
{
    let date = utc_date(time);
    proof {
        let other = utc_date_of(time);
        assert(date.valid() && date.day_number() == time.secs as int / 86_400);
        law_one_date_per_day(date, other);
    }
    date
}

/// How long ago a time was, by the nanoseconds that have gone by since: less than a day is
/// recent, up to thirty days are counted as days, up to a year as months of thirty days,
/// and all beyond as years of three hundred and sixty-five.
pub proof fn law_time_ago(time: Timestamp, now: Timestamp)
    ensures
        ({
            let elapsed = (now.secs * 1_000_000_000 + now.nanos) - (time.secs * 1_000_000_000
                + time.nanos);
            let days = elapsed / 86_400_000_000_000;
            time_ago_text(Some(time), now) == if elapsed < 86_400_000_000_000 {
                "recent"@
            } else if days <= 30 {
                decimal_text(days as nat) + " days ago"@
            } else if days <= 365 {
                decimal_text((days / 30) as nat) + " months ago"@
            } else {
                decimal_text((days / 365) as nat) + " years ago"@
            }
        }),
        time_ago_text(None, now) == "-"@,
{
    let elapsed = now.in_nanos() - time.in_nanos();
    if elapsed < 0 {
        assert((-elapsed) / day_nanos() >= 0);
    }
}

/// The dates there are: those of the Gregorian calendar.
pub proof fn law_dates(date: Date)
    ensures
        date.valid() <==> date.day >= 1 && {
            ||| date.day <= 31 && (date.month == 1 || date.month == 3 || date.month == 5
                || date.month == 7 || date.month == 8 || date.month == 10 || date.month == 12)
            ||| date.day <= 30 && (date.month == 4 || date.month == 6 || date.month == 9
                || date.month == 11)
            ||| date.day <= 28 && date.month == 2
            ||| date.day == 29 && date.month == 2 && date.year as int % 4 == 0 && (date.year as int
                % 100 != 0 || date.year as int % 400 == 0)
        },
{
}

/// The day that follows a date: the next one of its month or, after the last one, the first
/// of the next month or year.
pub open spec fn follows(b: Date, a: Date) -> bool {
    let last = if a.month == 2 {
        if a.year as int % 4 == 0 && (a.year as int % 100 != 0 || a.year as int % 400 == 0) {
            29int
        } else {
            28
        }
    } else if a.month == 4 || a.month == 6 || a.month == 9 || a.month == 11 {
        30
    } else {
        31
    };
    if a.day < last {
        b.year == a.year && b.month == a.month && b.day == a.day + 1
    } else if a.month < 12 {
        b.year == a.year && b.month == a.month + 1 && b.day == 1
    } else {
        b.year == a.year + 1 && b.month == 1 && b.day == 1
    }
}

/// Days are numbered from the first one of 1970 on: the day that follows a date has the
/// next number.
pub proof fn law_next_day(a: Date, b: Date)
    requires
        a.valid(),
        follows(b, a),
    ensures
        b.valid(),
        b.day_number() == a.day_number() + 1,
        a.year == 1970 && a.month == 1 && a.day == 1 ==> a.day_number() == 0,
{
    if b.year != a.year {
        reveal_with_fuel(days_before_month, 13);
    }
}

} // verus!
