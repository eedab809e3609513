//! The first second of the month that a timestamp falls in.
use vstd::prelude::*;
use crate::bridge::{date_from_ymd, datetime_from_timestamp, datetime_timestamp};
use crate::calendar::{
    datetime_at, days_in_month, lemma_datetime_at, lemma_valid_timestamp_in_range, timestamp_in_range,
    Date, DateTime,
};

verus! {

/// The first second of a date-time's month.
pub open spec fn month_start(dt: DateTime) -> DateTime {
    DateTime {
        date: Date { year: dt.date.year, month: dt.date.month, day: 1 },
        hour: 0,
        minute: 0,
        second: 0,
    }
}

/// The timestamp of the first second of the month (UTC) that `ts` falls in.
pub open spec fn start_of_month_spec(ts: int) -> int {
    month_start(datetime_at(ts)).timestamp()
}

/// The timestamp of 00:00:00 UTC on the first day of the month that `ts` falls in.
pub fn start_of_month(ts: i64) -> (r: i64)
    requires
        timestamp_in_range(ts as int),
    ensures
        r == start_of_month_spec(ts as int),
{
    let dt = datetime_from_timestamp(ts);
    assert(dt is Some);
    let dt = dt.unwrap();
    proof {
        lemma_datetime_at(dt);
    }
    let first = date_from_ymd(dt.date.year, dt.date.month, 1);
    assert(first is Some);
    datetime_timestamp(DateTime { date: first.unwrap(), hour: 0, minute: 0, second: 0 })
}

/// A month starts at most a month's length before any of its timestamps, and
/// never after them.
pub proof fn lemma_start_of_month_bounds(ts: int)
    requires
        timestamp_in_range(ts),
    ensures
        start_of_month_spec(ts) <= ts,
        ts - start_of_month_spec(ts) < days_in_month(
            datetime_at(ts).date.year as int,
            datetime_at(ts).date.month as int,
        ) * 86400,
        timestamp_in_range(start_of_month_spec(ts)),
{
    crate::calendar::lemma_timestamp_in_range_has_datetime(ts);
    let dt = datetime_at(ts);
    let first = month_start(dt);
    assert(first.date.day_number() + dt.date.day - 1 == dt.date.day_number());
    assert(first.date.day_number() * 86400 + (dt.date.day - 1) * 86400 == dt.date.day_number() * 86400);
    lemma_valid_timestamp_in_range(first);
}

/// Taking the start of the month twice changes nothing.
pub proof fn lemma_start_of_month_idempotent(ts: int)
    requires
        timestamp_in_range(ts),
    ensures
        start_of_month_spec(start_of_month_spec(ts)) == start_of_month_spec(ts),
{
    crate::calendar::lemma_timestamp_in_range_has_datetime(ts);
    let first = month_start(datetime_at(ts));
    lemma_datetime_at(first);
}

/// A later timestamp never has an earlier month start.
pub proof fn lemma_start_of_month_monotone(t: int, t2: int)
    requires
        timestamp_in_range(t),
        timestamp_in_range(t2),
        t <= t2,
    ensures
        start_of_month_spec(t) <= start_of_month_spec(t2),
{
    lemma_start_of_month_bounds(t);
    lemma_start_of_month_bounds(t2);
    crate::calendar::lemma_timestamp_in_range_has_datetime(t);
    crate::calendar::lemma_timestamp_in_range_has_datetime(t2);
    let a = month_start(datetime_at(t));
    let b = month_start(datetime_at(t2));
    let na = a.date.day_number();
    let nb = b.date.day_number();
    if start_of_month_spec(t) > start_of_month_spec(t2) {
        let dim = days_in_month(b.date.year as int, b.date.month as int);
        assert(na * 86400 > nb * 86400);
        assert(na * 86400 < nb * 86400 + dim * 86400);
        assert(nb < na < nb + dim);
        let c = Date { year: b.date.year, month: b.date.month, day: (1 + (na - nb)) as u32 };
        assert(c.is_valid());
        assert(c.day_number() == na);
        crate::calendar::lemma_day_number_injective(a.date, c);
        assert(false);
    }
}

/// The start of the month of `t`: the first second (UTC) of its month, never
/// after `t`, unchanged when taken again, and never earlier for a later `t2`.
pub proof fn lemma_start_of_month_laws(t: int, t2: int)
    requires
        timestamp_in_range(t),
        timestamp_in_range(t2),
    ensures
        start_of_month_spec(t) == month_start(datetime_at(t)).timestamp(),
        month_start(datetime_at(t)).is_valid(),
        start_of_month_spec(t) <= t,
        start_of_month_spec(start_of_month_spec(t)) == start_of_month_spec(t),
        t <= t2 ==> start_of_month_spec(t) <= start_of_month_spec(t2),
{
    lemma_start_of_month_bounds(t);
    lemma_start_of_month_idempotent(t);
    crate::calendar::lemma_timestamp_in_range_has_datetime(t);
    if t <= t2 {
        lemma_start_of_month_monotone(t, t2);
    }
}

} // verus!
