//! The last day of a month.
use vstd::prelude::*;
use crate::bridge::{date_from_ymd, date_pred, local_now, previous_day};
use crate::calendar::{days_in_month, is_valid_ymd, year_in_range, Date, MAX_YEAR, MIN_YEAR};
use crate::text::{decimal_text, u32_text};
use crate::utils::ParseDateStrError;

verus! {

/// The day from which `last_day_of_month` steps back by one: the first day of
/// the next month if it exists, else January 1 of the next year if that exists,
/// else `today`.
pub open spec fn month_end_anchor(year: int, month: int, today: Date) -> Date {
    if is_valid_ymd(year, month + 1, 1) {
        Date { year: year as i32, month: (month + 1) as u32, day: 1 }
    } else if is_valid_ymd(year + 1, 1, 1) {
        Date { year: (year + 1) as i32, month: 1, day: 1 }
    } else {
        today
    }
}

/// What `last_day_of_month` returns for a month from 1 to 12.
pub open spec fn last_day_of_month_spec(year: int, month: int, today: Date) -> Date {
    previous_day(month_end_anchor(year, month, today)).unwrap()
}

/// Inputs on which the computation cannot finish: the year after `year`
/// overflows, or the day before the anchor does not exist.
pub open spec fn last_day_of_month_fails(year: int, month: int) -> bool {
    1 <= month <= 12 && (year == MIN_YEAR - 1 || year == i32::MAX)
}

/// A date that can stand for today: a valid date with a day before it.
pub open spec fn can_be_today(t: Date) -> bool {
    t.is_valid() && t.year > MIN_YEAR
}

/// For a year in range, the result is the month's last day, except in December
/// of the last supported year, where the next year does not exist.
pub proof fn lemma_last_day_of_month_spec(year: int, month: int, today: Date)
    requires
        year_in_range(year),
        1 <= month <= 12,
        !(year == MAX_YEAR && month == 12),
    ensures
        last_day_of_month_spec(year, month, today) == (Date {
            year: year as i32,
            month: month as u32,
            day: days_in_month(year, month) as u32,
        }),
{
}

/// `last_day_of_month` with today's date given.
pub fn last_day_of_month_at(year: i32, month: u32, today: Date) -> (r: Result<Date, ParseDateStrError>)
    requires
        !last_day_of_month_fails(year as int, month as int),
        can_be_today(today),
    ensures
        !(1 <= month <= 12) ==> (r matches Err(ParseDateStrError::DatePart(t)) && t@ == decimal_text(
            month as nat,
        )),
        1 <= month <= 12 ==> r == Ok::<Date, ParseDateStrError>(
            last_day_of_month_spec(year as int, month as int, today),
        ),
        r matches Ok(d) ==> d.is_valid(),
{
    if !(1 <= month && month <= 12) {
        return Err(ParseDateStrError::DatePart(u32_text(month)));
    }
    let next_jan_first = match date_from_ymd(year + 1, 1, 1) {
        Some(d) => d,
        None => today,
    };
    let next = match date_from_ymd(year, month + 1, 1) {
        Some(d) => d,
        None => next_jan_first,
    };
    let prev = date_pred(next);
    assert(prev is Some);
    Ok(prev.unwrap())
}

/// The last day of `month` in `year`, or `DatePart` with the month's text when
/// the month is not 1 to 12. Where the next month and the next year do not
/// exist, the day before today's date is returned.
pub fn last_day_of_month(year: i32, month: u32) -> (r: Result<Date, ParseDateStrError>)
    requires
        !last_day_of_month_fails(year as int, month as int),
    ensures
        !(1 <= month <= 12) ==> (r matches Err(ParseDateStrError::DatePart(t)) && t@ == decimal_text(
            month as nat,
        )),
        1 <= month <= 12 ==> exists|today: Date|
            can_be_today(today) && r == Ok::<Date, ParseDateStrError>(
                #[trigger] last_day_of_month_spec(year as int, month as int, today),
            ),
        year_in_range(year as int) && 1 <= month <= 12 && !(year == MAX_YEAR && month == 12) ==> r
            == Ok::<Date, ParseDateStrError>(
            Date { year, month, day: days_in_month(year as int, month as int) as u32 },
        ),
{
    let (_, today) = local_now();
    let r = last_day_of_month_at(year, month, today);
    proof {
        if year_in_range(year as int) && 1 <= month <= 12 && !(year == MAX_YEAR && month == 12) {
            lemma_last_day_of_month_spec(year as int, month as int, today);
        }
    }
    r
}

} // verus!
