//! The proleptic Gregorian calendar as a mathematical model, and the value
//! types that the library uses for dates and date-times.
use vstd::prelude::*;

verus! {

/// Earliest year that a date can have.
pub const MIN_YEAR: i32 = -262143;

/// Latest year that a date can have.
pub const MAX_YEAR: i32 = 262142;

/// Timestamp (seconds since 1970-01-01 00:00:00 UTC) of the earliest date-time.
pub const MIN_TIMESTAMP: i64 = -8334601228800;

/// Timestamp of the latest date-time.
pub const MAX_TIMESTAMP: i64 = 8210266876799;

/// A calendar date: year, month (1 to 12) and day of the month.
#[derive(Clone, Copy, Debug, PartialEq, Eq, Structural)]
pub struct Date {
    pub year: i32,
    pub month: u32,
    pub day: u32,
}

/// A date together with a time of day, without time zone.
#[derive(Clone, Copy, Debug, PartialEq, Eq, Structural)]
pub struct DateTime {
    pub date: Date,
    pub hour: u32,
    pub minute: u32,
    pub second: u32,
}

pub open spec fn is_leap_year(y: int) -> bool {
    y % 4 == 0 && (y % 100 != 0 || y % 400 == 0)
}

pub open spec fn days_in_month(y: int, m: int) -> int {
    if m == 2 {
        if is_leap_year(y) { 29 } else { 28 }
    } else if m == 4 || m == 6 || m == 9 || m == 11 {
        30
    } else {
        31
    }
}

pub open spec fn days_in_year(y: int) -> int {
    if is_leap_year(y) { 366 } else { 365 }
}

pub open spec fn year_in_range(y: int) -> bool {
    MIN_YEAR <= y <= MAX_YEAR
}

/// The triple names a day that exists and lies in the supported range of years.
pub open spec fn is_valid_ymd(y: int, m: int, d: int) -> bool {
    &&& year_in_range(y)
    &&& 1 <= m <= 12
    &&& 1 <= d <= days_in_month(y, m)
}

/// Number of leap years in the years before `y` (counted from year 1 on, negative below it).
pub open spec fn leap_years_before(y: int) -> int {
    (y - 1) / 4 - (y - 1) / 100 + (y - 1) / 400
}

/// Days from 1970-01-01 to January 1 of year `y` (negative before 1970).
pub open spec fn days_before_year(y: int) -> int {
    365 * (y - 1970) + leap_years_before(y) - leap_years_before(1970)
}

/// Days from January 1 to the first day of month `m` of year `y`.
pub open spec fn days_before_month(y: int, m: int) -> int
    decreases m,
{
    if m <= 1 {
        0
    } else {
        days_before_month(y, m - 1) + days_in_month(y, m - 1)
    }
}

/// Days from 1970-01-01 to the given day.
pub open spec fn day_number(y: int, m: int, d: int) -> int {
    days_before_year(y) + days_before_month(y, m) + d - 1
}

impl Date {
    pub open spec fn is_valid(self) -> bool {
        is_valid_ymd(self.year as int, self.month as int, self.day as int)
    }

    pub open spec fn day_number(self) -> int {
        day_number(self.year as int, self.month as int, self.day as int)
    }
}

impl DateTime {
    pub open spec fn is_valid(self) -> bool {
        &&& self.date.is_valid()
        &&& self.hour < 24
        &&& self.minute < 60
        &&& self.second < 60
    }

    pub open spec fn seconds_of_day(self) -> int {
        self.hour * 3600 + self.minute * 60 + self.second
    }

    /// Seconds since 1970-01-01 00:00:00, reading the date-time as UTC.
    pub open spec fn timestamp(self) -> int {
        self.date.day_number() * 86400 + self.seconds_of_day()
    }
}

pub open spec fn timestamp_in_range(ts: int) -> bool {
    MIN_TIMESTAMP <= ts <= MAX_TIMESTAMP
}

/// Whether a timestamp is that of a date-time in the supported range.
pub fn in_timestamp_range(ts: i64) -> (r: bool)
    ensures
        r == timestamp_in_range(ts as int),
{
    MIN_TIMESTAMP <= ts && ts <= MAX_TIMESTAMP
}

/// A year has as many days as the difference of the day numbers of its first day and the next year's.
pub proof fn lemma_days_before_next_year(y: int)
    ensures
        days_before_year(y + 1) == days_before_year(y) + days_in_year(y),
{
    assert(leap_years_before(y + 1) - leap_years_before(y) == if is_leap_year(y) { 1int } else { 0int });
}

pub proof fn lemma_days_before_year_monotone(a: int, b: int)
    requires
        a < b,
    ensures
        days_before_year(a) + days_in_year(a) <= days_before_year(b),
    decreases b - a,
{
    lemma_days_before_next_year(a);
    if a + 1 < b {
        lemma_days_before_year_monotone(a + 1, b);
    }
}


pub proof fn lemma_days_before_month_monotone(y: int, a: int, b: int)
    requires
        1 <= a < b,
    ensures
        days_before_month(y, a) + days_in_month(y, a) <= days_before_month(y, b),
    decreases b - a,
{
    if a + 1 < b {
        lemma_days_before_month_monotone(y, a + 1, b);
    }
}

/// The twelve months together make up the year.
pub proof fn lemma_days_before_month_13(y: int)
    ensures
        days_before_month(y, 13) == days_in_year(y),
{
    reveal_with_fuel(days_before_month, 13);
}

/// The day number of a valid date lies within the days of its year.
pub proof fn lemma_day_number_within_year(y: int, m: int, d: int)
    requires
        is_valid_ymd(y, m, d),
    ensures
        days_before_year(y) <= day_number(y, m, d) < days_before_year(y) + days_in_year(y),
{
    lemma_days_before_month_13(y);
    if m < 12 {
        lemma_days_before_month_monotone(y, m, 13);
    }
    assert(days_before_month(y, m) >= 0) by {
        lemma_days_before_month_nonneg(y, m);
    }
}

pub proof fn lemma_days_before_month_nonneg(y: int, m: int)
    ensures
        days_before_month(y, m) >= 0,
    decreases m,
{
    if m > 1 {
        lemma_days_before_month_nonneg(y, m - 1);
    }
}

/// Distinct valid dates have distinct day numbers.
pub proof fn lemma_day_number_injective(a: Date, b: Date)
    requires
        a.is_valid(),
        b.is_valid(),
        a.day_number() == b.day_number(),
    ensures
        a == b,
{
    let (ya, ma, da) = (a.year as int, a.month as int, a.day as int);
    let (yb, mb, db) = (b.year as int, b.month as int, b.day as int);
    lemma_day_number_within_year(ya, ma, da);
    lemma_day_number_within_year(yb, mb, db);
    if ya < yb {
        lemma_days_before_year_monotone(ya, yb);
    } else if yb < ya {
        lemma_days_before_year_monotone(yb, ya);
    }
    assert(ya == yb);
    if ma < mb {
        lemma_days_before_month_monotone(ya, ma, mb);
    } else if mb < ma {
        lemma_days_before_month_monotone(ya, mb, ma);
    }
    assert(ma == mb);
}

/// Distinct valid date-times have distinct timestamps.
pub proof fn lemma_timestamp_injective(a: DateTime, b: DateTime)
    requires
        a.is_valid(),
        b.is_valid(),
        a.timestamp() == b.timestamp(),
    ensures
        a == b,
{
    let na = a.date.day_number();
    let nb = b.date.day_number();
    assert(0 <= a.seconds_of_day() < 86400);
    assert(0 <= b.seconds_of_day() < 86400);
    if na < nb {
        assert(na * 86400 + 86400 <= nb * 86400);
    } else if nb < na {
        assert(nb * 86400 + 86400 <= na * 86400);
    }
    assert(na == nb);
    lemma_day_number_injective(a.date, b.date);
}

/// The bounds of the supported range are the timestamps of its first and last second.
pub proof fn lemma_timestamp_bounds()
    ensures
        MIN_TIMESTAMP == days_before_year(MIN_YEAR as int) * 86400,
        MAX_TIMESTAMP == days_before_year(MAX_YEAR + 1) * 86400 - 1,
{
}

/// Every valid date-time has a timestamp in the supported range.
pub proof fn lemma_valid_timestamp_in_range(dt: DateTime)
    requires
        dt.is_valid(),
    ensures
        timestamp_in_range(dt.timestamp()),
{
    let y = dt.date.year as int;
    lemma_timestamp_bounds();
    lemma_day_number_within_year(y, dt.date.month as int, dt.date.day as int);
    lemma_days_before_next_year(y);
    if MIN_YEAR < y {
        lemma_days_before_year_monotone(MIN_YEAR as int, y);
    }
    if y < MAX_YEAR {
        lemma_days_before_year_monotone(y + 1, MAX_YEAR + 1);
        lemma_days_before_next_year(y + 1);
    }
    let n = dt.date.day_number();
    assert(days_before_year(MIN_YEAR as int) <= n < days_before_year(MAX_YEAR + 1));
    assert(days_before_year(MIN_YEAR as int) * 86400 <= n * 86400);
    assert(n * 86400 + 86400 <= days_before_year(MAX_YEAR + 1) * 86400);
}

/// The valid date-time with a given timestamp.
pub open spec fn datetime_at(ts: int) -> DateTime {
    choose|dt: DateTime| dt.is_valid() && dt.timestamp() == ts
}

/// A valid date-time is the one that its own timestamp names.
pub proof fn lemma_datetime_at(dt: DateTime)
    requires
        dt.is_valid(),
    ensures
        datetime_at(dt.timestamp()) == dt,
{
    let other = datetime_at(dt.timestamp());
    assert(other.is_valid() && other.timestamp() == dt.timestamp());
    lemma_timestamp_injective(other, dt);
}

/// Every day number between the first days of years `a` and `b` falls in one of those years.
pub proof fn lemma_year_of_day(n: int, a: int, b: int) -> (y: int)
    requires
        a < b,
        days_before_year(a) <= n < days_before_year(b),
    ensures
        a <= y < b,
        days_before_year(y) <= n < days_before_year(y) + days_in_year(y),
    decreases b - a,
{
    lemma_days_before_next_year(a);
    if n < days_before_year(a + 1) {
        a
    } else {
        lemma_year_of_day(n, a + 1, b)
    }
}

/// Every day of a year, counted from its first day, falls in one of its months.
pub proof fn lemma_month_of_day(y: int, k: int, m: int) -> (mm: int)
    requires
        1 <= m <= 12,
        days_before_month(y, m) <= k < days_before_month(y, 13),
    ensures
        m <= mm <= 12,
        days_before_month(y, mm) <= k < days_before_month(y, mm) + days_in_month(y, mm),
    decreases 13 - m,
{
    if k < days_before_month(y, m + 1) {
        m
    } else {
        lemma_month_of_day(y, k, m + 1)
    }
}

/// Every timestamp in the supported range is the timestamp of a valid date-time.
pub proof fn lemma_timestamp_in_range_has_datetime(ts: int)
    requires
        timestamp_in_range(ts),
    ensures
        datetime_at(ts).is_valid(),
        datetime_at(ts).timestamp() == ts,
{
    lemma_timestamp_bounds();
    let n = ts / 86400;
    let sod = ts % 86400;
    assert(n * 86400 + sod == ts);
    assert(days_before_year(MIN_YEAR as int) <= n < days_before_year(MAX_YEAR + 1));
    let y = lemma_year_of_day(n, MIN_YEAR as int, MAX_YEAR + 1);
    let k = n - days_before_year(y);
    lemma_days_before_month_13(y);
    let m = lemma_month_of_day(y, k, 1);
    let d = k - days_before_month(y, m) + 1;
    let h = sod / 3600;
    let mi = (sod % 3600) / 60;
    let s = sod % 60;
    assert(h * 3600 + mi * 60 + s == sod);
    let dt = DateTime {
        date: Date { year: y as i32, month: m as u32, day: d as u32 },
        hour: h as u32,
        minute: mi as u32,
        second: s as u32,
    };
    assert(dt.date.day_number() == n);
    assert(dt.is_valid() && dt.timestamp() == ts);
    lemma_datetime_at(dt);
}

} // verus!
