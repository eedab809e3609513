//! Reading a date typed by a user: `DD/MM/YYYY`, `MM/YYYY` or `YYYY`.
use vstd::prelude::*;
use crate::bridge::{date_from_ymd, day_month_year_text, local_now, previous_day, two_digit_text, year_text, zero_padded_text};
use crate::calendar::{
    days_in_month, is_valid_ymd, lemma_days_before_month_nonneg, year_in_range, Date, DateTime, MAX_YEAR, MIN_YEAR,
};
use crate::text::{
    all_digits, chars_of, decimal_text, digit_char, digit_value, digits_value, equals_char, is_digit, lemma_decimal_text,
    lemma_leading_zeros, lemma_split_by_concat, lemma_split_by_none, parse_i32, parse_i32_text, parse_u32,
    parse_u32_text, split_chars, split_on,
};
use crate::utils::last_day_of_month::{
    can_be_today, last_day_of_month_at, last_day_of_month_spec, lemma_last_day_of_month_spec, month_end_anchor,
};
use crate::utils::DateRound;

verus! {

/// The date at the first second (`Floor`) or last second (`Ceil`) of its day.
pub open spec fn at_day_edge(d: Date, round: DateRound) -> DateTime {
    match round {
        DateRound::Ceil => DateTime { date: d, hour: 23, minute: 59, second: 59 },
        DateRound::Floor => DateTime { date: d, hour: 0, minute: 0, second: 0 },
    }
}

/// The day of the month that a month-and-year text stands for.
pub open spec fn edge_day_of_month(year: int, month: int, round: DateRound, today: Date) -> u32 {
    match round {
        DateRound::Ceil => last_day_of_month_spec(year, month, today).day,
        DateRound::Floor => 1,
    }
}

/// The texts on which reading a date cannot finish: a month-and-year whose month
/// is not 1 to 12 or whose year is out of range, or a lone year out of range.
pub open spec fn date_str_panics(s: Seq<char>) -> bool {
    let parts = split_on(s, '/');
    if parts.len() == 2 {
        parse_u32_text(parts[0]) is Some && parse_i32_text(parts[1]) is Some && !(1
            <= parse_u32_text(parts[0])->0 <= 12 && year_in_range(parse_i32_text(parts[1])->0 as int))
    } else if parts.len() == 1 {
        parse_i32_text(parts[0]) is Some && !year_in_range(parse_i32_text(parts[0])->0 as int)
    } else {
        false
    }
}

/// The date-time that a text stands for, or `None` when it is not a date.
/// The text is split at `/`: three parts are day, month and year; two are month
/// and year, standing for the month's first or last day; one is a year,
/// standing for January 1 or December 31.
pub open spec fn parsed_date_str(s: Seq<char>, round: DateRound, today: Date) -> Option<DateTime> {
    let parts = split_on(s, '/');
    if parts.len() == 3 {
        match (parse_u32_text(parts[0]), parse_u32_text(parts[1]), parse_i32_text(parts[2])) {
            (Some(d), Some(m), Some(y)) => if is_valid_ymd(y as int, m as int, d as int) {
                Some(at_day_edge(Date { year: y, month: m, day: d }, round))
            } else {
                None
            },
            _ => None,
        }
    } else if parts.len() == 2 {
        match (parse_u32_text(parts[0]), parse_i32_text(parts[1])) {
            (Some(m), Some(y)) => Some(
                at_day_edge(
                    Date { year: y, month: m, day: edge_day_of_month(y as int, m as int, round, today) },
                    round,
                ),
            ),
            _ => None,
        }
    } else if parts.len() == 1 {
        match parse_i32_text(parts[0]) {
            Some(y) => {
                let m: u32 = match round {
                    DateRound::Ceil => 12,
                    DateRound::Floor => 1,
                };
                Some(
                    at_day_edge(
                        Date { year: y, month: m, day: edge_day_of_month(y as int, m as int, round, today) },
                        round,
                    ),
                )
            },
            None => None,
        }
    } else {
        None
    }
}

/// `parse_date_str` with today's date given.
pub fn parse_date_str_at(date_str: &str, round: DateRound, today: Date) -> (r: Result<DateTime, String>)
    requires
        !date_str_panics(date_str@),
        can_be_today(today),
    ensures
        match r {
            Ok(dt) => parsed_date_str(date_str@, round, today) == Some(dt),
            Err(e) => parsed_date_str(date_str@, round, today) is None
                && e@ == "Invalid date format, doesn't match any of the supported formats"@,
        },
        r matches Ok(dt) ==> dt.is_valid(),
{
    let chars = chars_of(date_str);
    match parse_date_chars(&chars, round, today) {
        Some(d) => Ok(d),
        None => Err("Invalid date format, doesn't match any of the supported formats".to_string()),
    }
}

/// Whether reading `s` as a date cannot finish (see `date_str_panics`).
pub fn date_chars_panic(s: &Vec<char>) -> (r: bool)
    ensures
        r == date_str_panics(s@),
{
    let parts = split_chars(s, '/');
    assert(parts@.len() == split_on(s@, '/').len());
    if parts.len() == 2 {
        assert(parts@[0]@ == split_on(s@, '/')[0]);
        assert(parts@[1]@ == split_on(s@, '/')[1]);
        match (parse_u32(&parts[0]), parse_i32(&parts[1])) {
            (Some(m), Some(y)) => !(1 <= m && m <= 12 && MIN_YEAR <= y && y <= MAX_YEAR),
            _ => false,
        }
    } else if parts.len() == 1 {
        assert(parts@[0]@ == split_on(s@, '/')[0]);
        match parse_i32(&parts[0]) {
            Some(y) => !(MIN_YEAR <= y && y <= MAX_YEAR),
            None => false,
        }
    } else {
        false
    }
}

/// Reads a date from its characters; see `parsed_date_str`.
pub fn parse_date_chars(s: &Vec<char>, round: DateRound, today: Date) -> (r: Option<DateTime>)
    requires
        !date_str_panics(s@),
        can_be_today(today),
    ensures
        r == parsed_date_str(s@, round, today),
        r matches Some(dt) ==> dt.is_valid(),
{
    let parts = split_chars(s, '/');
    assert(parts@.len() == split_on(s@, '/').len());
    if parts.len() == 3 {
        assert(parts@[0]@ == split_on(s@, '/')[0]);
        assert(parts@[1]@ == split_on(s@, '/')[1]);
        assert(parts@[2]@ == split_on(s@, '/')[2]);
        let day = parse_u32(&parts[0]);
        let month = parse_u32(&parts[1]);
        let year = parse_i32(&parts[2]);
        match (day, month, year) {
            (Some(d), Some(m), Some(y)) => match date_from_ymd(y, m, d) {
                Some(date) => Some(at_edge(date, round)),
                None => None,
            },
            _ => None,
        }
    } else if parts.len() == 2 {
        assert(parts@[0]@ == split_on(s@, '/')[0]);
        assert(parts@[1]@ == split_on(s@, '/')[1]);
        let month = parse_u32(&parts[0]);
        let year = parse_i32(&parts[1]);
        match (year, month) {
            (Some(y), Some(m)) => {
                let day = edge_day(y, m, round, today);
                let d = date_from_ymd(y, m, day);
                assert(d is Some);
                Some(at_edge(d.unwrap(), round))
            },
            _ => None,
        }
    } else if parts.len() == 1 {
        assert(parts@[0]@ == split_on(s@, '/')[0]);
        let year = parse_i32(&parts[0]);
        match year {
            Some(y) => {
                let m: u32 = match round {
                    DateRound::Ceil => 12,
                    DateRound::Floor => 1,
                };
                let day = edge_day(y, m, round, today);
                let d = date_from_ymd(y, m, day);
                assert(d is Some);
                Some(at_edge(d.unwrap(), round))
            },
            None => None,
        }
    } else {
        None
    }
}

fn at_edge(d: Date, round: DateRound) -> (r: DateTime)
    ensures
        r == at_day_edge(d, round),
{
    match round {
        DateRound::Ceil => DateTime { date: d, hour: 23, minute: 59, second: 59 },
        DateRound::Floor => DateTime { date: d, hour: 0, minute: 0, second: 0 },
    }
}

fn edge_day(year: i32, month: u32, round: DateRound, today: Date) -> (r: u32)
    requires
        year_in_range(year as int),
        1 <= month <= 12,
        can_be_today(today),
    ensures
        r == edge_day_of_month(year as int, month as int, round, today),
        is_valid_ymd(year as int, month as int, r as int),
{
    match round {
        DateRound::Ceil => {
            let last = last_day_of_month_at(year, month, today);
            assert(last is Ok);
            last.unwrap().day
        },
        DateRound::Floor => 1,
    }
}

/// Whether a text names December of the last supported year, as a month and a
/// year or as a lone year: the only texts whose last day is taken from today.
pub open spec fn names_last_december(s: Seq<char>) -> bool {
    let parts = split_on(s, '/');
    ||| parts.len() == 2 && parse_u32_text(parts[0]) == Some(12u32) && parse_i32_text(parts[1]) == Some(
        MAX_YEAR,
    )
    ||| parts.len() == 1 && parse_i32_text(parts[0]) == Some(MAX_YEAR)
}

/// Today's date plays no part in reading a text, unless the text names December
/// of the last supported year.
pub proof fn lemma_parsed_date_str_ignores_today(s: Seq<char>, round: DateRound, t1: Date, t2: Date)
    requires
        !date_str_panics(s),
        !names_last_december(s),
    ensures
        parsed_date_str(s, round, t1) == parsed_date_str(s, round, t2),
{
    let parts = split_on(s, '/');
    if parts.len() == 2 {
        if parse_u32_text(parts[0]) is Some && parse_i32_text(parts[1]) is Some {
            let m = parse_u32_text(parts[0])->0 as int;
            let y = parse_i32_text(parts[1])->0 as int;
            lemma_last_day_of_month_spec(y, m, t1);
            lemma_last_day_of_month_spec(y, m, t2);
        }
    } else if parts.len() == 1 {
        if parse_i32_text(parts[0]) is Some {
            let y = parse_i32_text(parts[0])->0 as int;
            lemma_last_day_of_month_spec(y, 12, t1);
            lemma_last_day_of_month_spec(y, 12, t2);
        }
    }
}

/// Reads `DD/MM/YYYY`, `MM/YYYY` or `YYYY` (numbers as `str::parse` reads them)
/// as the first or last second of the period it names.
pub fn parse_date_str(date_str: &str, round: DateRound) -> (r: Result<DateTime, String>)
    requires
        !date_str_panics(date_str@),
    ensures
        exists|today: Date|
            can_be_today(today) && match r {
                Ok(dt) => #[trigger] parsed_date_str(date_str@, round, today) == Some(dt),
                Err(e) => parsed_date_str(date_str@, round, today) is None
                    && e@ == "Invalid date format, doesn't match any of the supported formats"@,
            },
        !names_last_december(date_str@) ==> forall|today: Date|
            match r {
                Ok(dt) => #[trigger] parsed_date_str(date_str@, round, today) == Some(dt),
                Err(_) => parsed_date_str(date_str@, round, today) is None,
            },
        r matches Ok(dt) ==> dt.is_valid(),
{
    let (_, today) = local_now();
    let r = parse_date_str_at(date_str, round, today);
    proof {
        if !names_last_december(date_str@) {
            assert forall|t: Date|
                match r {
                    Ok(dt) => #[trigger] parsed_date_str(date_str@, round, t) == Some(dt),
                    Err(_) => parsed_date_str(date_str@, round, t) is None,
                } by {
                lemma_parsed_date_str_ignores_today(date_str@, round, today, t);
            }
        }
    }
    r
}

/// Two digits denote the number they were written for.
proof fn lemma_two_digit_text(n: int)
    requires
        0 <= n < 100,
    ensures
        two_digit_text(n).len() == 2,
        all_digits(two_digit_text(n)),
        digits_value(two_digit_text(n)) == n,
{
    let t = two_digit_text(n);
    assert(t.drop_last() =~= seq![digit_char(n / 10)]);
    assert(seq![digit_char(n / 10)].drop_last() =~= Seq::<char>::empty());
    let one = seq![digit_char(n / 10)];
    assert(digit_value(digit_char(n / 10)) == n / 10);
    assert(digit_value(digit_char(n % 10)) == n % 10);
    assert(one.last() == digit_char(n / 10));
    assert(digits_value(one) == digits_value(one.drop_last()) * 10 + digit_value(one.last()));
    assert(digits_value(one) == n / 10);
    assert(t.last() == digit_char(n % 10));
    assert(digits_value(t) == digits_value(t.drop_last()) * 10 + digit_value(t.last()));
}

/// Zero-padded digits denote the padded number.
proof fn lemma_zero_padded_text(n: nat, width: nat)
    ensures
        zero_padded_text(n, width).len() >= 1,
        all_digits(zero_padded_text(n, width)),
        digits_value(zero_padded_text(n, width)) == n,
{
    lemma_decimal_text(n);
    let digits = decimal_text(n);
    if digits.len() < width {
        let zeros = Seq::new((width - digits.len()) as nat, |i: int| '0');
        lemma_leading_zeros(zeros, digits);
    }
}

/// The year as chrono writes it reads back, as `str::parse::<i32>` reads it, as the same year.
proof fn lemma_year_text(y: int)
    requires
        year_in_range(y),
    ensures
        parse_i32_text(year_text(y)) == Some(y as i32),
        forall|i: int| 0 <= i < year_text(y).len() ==> year_text(y)[i] != '/',
{
    if 0 <= y <= 9999 {
        lemma_zero_padded_text(y as nat, 4);
        let t = year_text(y);
        assert(is_digit(t[0]));
    } else if y < 0 {
        lemma_zero_padded_text((-y) as nat, 4);
        let t = year_text(y);
        assert(t.drop_first() =~= zero_padded_text((-y) as nat, 4));
        assert forall|i: int| 0 <= i < t.len() implies t[i] != '/' by {
            if i > 0 {
                assert(t[i] == t.drop_first()[i - 1]);
                assert(is_digit(t.drop_first()[i - 1]));
            }
        }
    } else {
        lemma_zero_padded_text(y as nat, 4);
        let t = year_text(y);
        assert(t.drop_first() =~= zero_padded_text(y as nat, 4));
        assert forall|i: int| 0 <= i < t.len() implies t[i] != '/' by {
            if i > 0 {
                assert(t[i] == t.drop_first()[i - 1]);
                assert(is_digit(t.drop_first()[i - 1]));
            }
        }
    }
}

/// Reading back the text that chrono writes for a date with `%d/%m/%Y` gives
/// that same date, at the first or the last second of the day.
pub proof fn lemma_parse_formatted_date(d: Date, round: DateRound, today: Date)
    requires
        d.is_valid(),
    ensures
        !date_str_panics(day_month_year_text(d, '/')),
        parsed_date_str(day_month_year_text(d, '/'), round, today) == Some(at_day_edge(d, round)),
{
    let a = two_digit_text(d.day as int);
    let b = two_digit_text(d.month as int);
    let c = year_text(d.year as int);
    lemma_two_digit_text(d.day as int);
    lemma_two_digit_text(d.month as int);
    lemma_year_text(d.year as int);
    let sep = equals_char('/');
    let text = day_month_year_text(d, '/');
    assert(text =~= a.push('/') + (b.push('/') + c));
    lemma_split_by_concat(a, '/', b.push('/') + c, sep);
    lemma_split_by_concat(b, '/', c, sep);
    assert forall|i: int| 0 <= i < a.len() implies !sep(#[trigger] a[i]) by {
        assert(is_digit(a[i]));
    }
    assert forall|i: int| 0 <= i < b.len() implies !sep(#[trigger] b[i]) by {
        assert(is_digit(b[i]));
    }
    assert forall|i: int| 0 <= i < c.len() implies !sep(#[trigger] c[i]) by {
        assert(c[i] != '/');
    }
    lemma_split_by_none(a, sep);
    lemma_split_by_none(b, sep);
    lemma_split_by_none(c, sep);
    let parts = split_on(text, '/');
    assert(parts =~= seq![a, b, c]);
    assert(is_digit(a[0]) && is_digit(b[0]));
    assert(parse_u32_text(a) == Some(d.day));
    assert(parse_u32_text(b) == Some(d.month));
}

/// A date that is read is a valid date-time.
pub proof fn lemma_parsed_date_valid(s: Seq<char>, round: DateRound, today: Date)
    requires
        !date_str_panics(s),
        can_be_today(today),
    ensures
        parsed_date_str(s, round, today) matches Some(dt) ==> dt.is_valid(),
{
    let parts = split_on(s, '/');
    if (parts.len() == 2 || parts.len() == 1) && parsed_date_str(s, round, today) is Some
        && round == DateRound::Ceil {
        let y = if parts.len() == 2 { parse_i32_text(parts[1])->0 } else { parse_i32_text(parts[0])->0 };
        let m: u32 = if parts.len() == 2 { parse_u32_text(parts[0])->0 } else { 12 };
        let anchor = month_end_anchor(y as int, m as int, today);
        assert(previous_day(anchor) is Some);
    }
}

/// A date that can be read at one end of its period can be read at the other.
pub proof fn lemma_floor_ceil_same_texts(s: Seq<char>, today: Date)
    ensures
        parsed_date_str(s, DateRound::Floor, today) is Some <==> parsed_date_str(
            s,
            DateRound::Ceil,
            today,
        ) is Some,
{
}

/// The first second of the period a text names comes before its last second.
pub proof fn lemma_floor_before_ceil(s: Seq<char>, today: Date)
    requires
        !date_str_panics(s),
        can_be_today(today),
        parsed_date_str(s, DateRound::Floor, today) is Some,
    ensures
        parsed_date_str(s, DateRound::Ceil, today) is Some,
        parsed_date_str(s, DateRound::Floor, today)->0.timestamp() < parsed_date_str(
            s,
            DateRound::Ceil,
            today,
        )->0.timestamp(),
{
    let parts = split_on(s, '/');
    if parts.len() == 2 || parts.len() == 1 {
        let y = if parts.len() == 2 { parse_i32_text(parts[1])->0 } else { parse_i32_text(parts[0])->0 };
        let m: u32 = if parts.len() == 2 { parse_u32_text(parts[0])->0 } else { 12 };
        let anchor = month_end_anchor(y as int, m as int, today);
        assert(previous_day(anchor) is Some);
        let last = last_day_of_month_spec(y as int, m as int, today);
        assert(last.day >= 1);
        lemma_days_before_month_nonneg(y as int, m as int);
    }
}

/// A month and a year (month 1 to 12, year in range) can always be read: the
/// `Floor` reading is the first second of that month, and the `Ceil` reading
/// is 23:59:59 on its last day (the day after it is not in the month), except
/// for December of the last supported year, whose last day comes from today.
pub proof fn lemma_month_year_reading(s: Seq<char>, m: u32, y: i32, today: Date)
    requires
        split_on(s, '/').len() == 2,
        parse_u32_text(split_on(s, '/')[0]) == Some(m),
        parse_i32_text(split_on(s, '/')[1]) == Some(y),
        1 <= m <= 12,
        year_in_range(y as int),
    ensures
        !date_str_panics(s),
        parsed_date_str(s, DateRound::Floor, today) == Some(
            DateTime { date: Date { year: y, month: m, day: 1 }, hour: 0, minute: 0, second: 0 },
        ),
        !(y == MAX_YEAR && m == 12) ==> parsed_date_str(s, DateRound::Ceil, today) == Some(
            DateTime {
                date: Date { year: y, month: m, day: days_in_month(y as int, m as int) as u32 },
                hour: 23,
                minute: 59,
                second: 59,
            },
        ),
        !(y == MAX_YEAR && m == 12) ==> is_valid_ymd(y as int, m as int, days_in_month(y as int, m as int))
            && !is_valid_ymd(y as int, m as int, days_in_month(y as int, m as int) + 1),
{
    if !(y == MAX_YEAR && m == 12) {
        lemma_last_day_of_month_spec(y as int, m as int, today);
    }
}

/// A lone year in range is read as January 1 at 00:00:00 (`Floor`) and, except
/// for the last supported year, December 31 at 23:59:59 (`Ceil`).
pub proof fn lemma_year_reading(s: Seq<char>, y: i32, today: Date)
    requires
        split_on(s, '/').len() == 1,
        parse_i32_text(split_on(s, '/')[0]) == Some(y),
        year_in_range(y as int),
    ensures
        !date_str_panics(s),
        parsed_date_str(s, DateRound::Floor, today) == Some(
            DateTime { date: Date { year: y, month: 1, day: 1 }, hour: 0, minute: 0, second: 0 },
        ),
        y != MAX_YEAR ==> parsed_date_str(s, DateRound::Ceil, today) == Some(
            DateTime { date: Date { year: y, month: 12, day: 31 }, hour: 23, minute: 59, second: 59 },
        ),
{
    if y != MAX_YEAR {
        lemma_last_day_of_month_spec(y as int, 12, today);
    }
}

/// A text is refused as unreadable only when it is a month and a year whose
/// month is not 1 to 12 or whose year is out of range, or a lone year out of
/// range.
pub proof fn lemma_date_str_panics_only_out_of_range(s: Seq<char>)
    ensures
        date_str_panics(s) ==> (split_on(s, '/').len() == 2 && parse_u32_text(split_on(s, '/')[0]) is Some
            && parse_i32_text(split_on(s, '/')[1]) is Some && (parse_u32_text(split_on(s, '/')[0])->0 < 1
            || parse_u32_text(split_on(s, '/')[0])->0 > 12 || !year_in_range(
            parse_i32_text(split_on(s, '/')[1])->0 as int,
        ))) || (split_on(s, '/').len() == 1 && parse_i32_text(split_on(s, '/')[0]) is Some && !year_in_range(
            parse_i32_text(split_on(s, '/')[0])->0 as int,
        )),
{
}

} // verus!
