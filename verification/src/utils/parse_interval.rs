//! Reading the interval of dates that a slash command names.
use vstd::prelude::*;
use crate::bridge::{local_now, lowercase, lowercase_text, string_from_chars};
use crate::calendar::{Date, DateTime};
use crate::text::{
    chars_of, equals_char, is_white_space, lemma_non_empty_pieces_push, lemma_split_by_concat, lemma_split_by_none,
    non_empty_pieces, split_chars, split_on, trim, trim_chars, trim_end, trim_start, views,
};
use crate::utils::last_day_of_month::can_be_today;
use crate::utils::parse_date_str::{
    date_chars_panic, date_str_panics, lemma_floor_before_ceil, lemma_parsed_date_str_ignores_today,
    lemma_month_year_reading, names_last_december, parse_date_chars, parsed_date_str,
};
use crate::calendar::year_in_range;
use crate::text::{parse_i32_text, parse_u32_text};
use crate::utils::{DateRound, ParseDateStrError};

verus! {

/// The words of the (lower-cased) command text: split at single spaces after
/// trimming, empty pieces dropped.
pub open spec fn interval_tokens(lowered: Seq<char>) -> Seq<Seq<char>> {
    non_empty_pieces(split_on(trim(lowered), ' '))
}

/// The command texts on which reading a date cannot finish.
pub open spec fn interval_panics(lowered: Seq<char>) -> bool {
    let t = interval_tokens(lowered);
    ||| t.len() == 1 && date_str_panics(t[0])
    ||| t.len() == 2 && (date_str_panics(t[0]) || date_str_panics(t[1]))
}

/// What reading the interval gives, given the original text, its lower-cased
/// form and today's date.
pub open spec fn interval_result(
    text: Seq<char>,
    lowered: Seq<char>,
    today: Date,
    r: Result<(DateTime, DateTime), ParseDateStrError>,
) -> bool {
    let t = interval_tokens(lowered);
    if t.len() == 0 {
        r matches Err(ParseDateStrError::NoDate)
    } else if t.len() == 1 {
        match (
            parsed_date_str(t[0], DateRound::Floor, today),
            parsed_date_str(t[0], DateRound::Ceil, today),
        ) {
            (Some(from), Some(to)) => r == Ok::<(DateTime, DateTime), ParseDateStrError>((from, to)),
            _ => r matches Err(ParseDateStrError::Date(x)) && x@ == t[0],
        }
    } else if t.len() == 2 {
        match (
            parsed_date_str(t[0], DateRound::Floor, today),
            parsed_date_str(t[1], DateRound::Ceil, today),
        ) {
            (Some(from), Some(to)) => r == Ok::<(DateTime, DateTime), ParseDateStrError>((from, to)),
            (None, _) => r matches Err(ParseDateStrError::Date(x)) && x@ == t[0],
            (Some(_), None) => r matches Err(ParseDateStrError::Date(x)) && x@ == t[1],
        }
    } else {
        r matches Err(ParseDateStrError::Interval(x)) && x@ == text
    }
}

/// Whether the date that ends the interval names December of the last
/// supported year (see `names_last_december`).
pub open spec fn interval_names_last_december(lowered: Seq<char>) -> bool {
    let t = interval_tokens(lowered);
    ||| t.len() == 1 && names_last_december(t[0])
    ||| t.len() == 2 && names_last_december(t[1])
}

/// Today's date plays no part in reading an interval, unless its end names
/// December of the last supported year.
pub proof fn lemma_interval_result_ignores_today(
    text: Seq<char>,
    lowered: Seq<char>,
    t1: Date,
    t2: Date,
    r: Result<(DateTime, DateTime), ParseDateStrError>,
)
    requires
        interval_result(text, lowered, t1, r),
        !interval_panics(lowered),
        !interval_names_last_december(lowered),
    ensures
        interval_result(text, lowered, t2, r),
{
    let t = interval_tokens(lowered);
    if t.len() == 1 {
        lemma_parsed_date_str_ignores_today(t[0], DateRound::Floor, t1, t2);
        lemma_parsed_date_str_ignores_today(t[0], DateRound::Ceil, t1, t2);
    } else if t.len() == 2 {
        assert(parsed_date_str(t[0], DateRound::Floor, t1) == parsed_date_str(t[0], DateRound::Floor, t2));
        lemma_parsed_date_str_ignores_today(t[1], DateRound::Ceil, t1, t2);
    }
}

/// Every character is a space.
pub open spec fn only_spaces(p: Seq<char>) -> bool {
    forall|i: int| 0 <= i < p.len() ==> p[i] == ' '
}

/// No character is white space.
pub open spec fn no_white_space(a: Seq<char>) -> bool {
    forall|i: int| 0 <= i < a.len() ==> !is_white_space(#[trigger] a[i])
}

proof fn lemma_trim_start_spaces(p: Seq<char>, x: Seq<char>)
    requires
        only_spaces(p),
        x.len() > 0,
        !is_white_space(x[0]),
    ensures
        trim_start(p + x) == x,
    decreases p.len(),
{
    if p.len() == 0 {
        assert(p + x =~= x);
    } else {
        assert((p + x)[0] == ' ');
        assert((p + x).drop_first() =~= p.drop_first() + x);
        lemma_trim_start_spaces(p.drop_first(), x);
    }
}

proof fn lemma_trim_end_spaces(x: Seq<char>, p: Seq<char>)
    requires
        only_spaces(p),
        x.len() > 0,
        !is_white_space(x.last()),
    ensures
        trim_end(x + p) == x,
    decreases p.len(),
{
    if p.len() == 0 {
        assert(x + p =~= x);
    } else {
        assert((x + p).last() == ' ');
        assert((x + p).drop_last() =~= x + p.drop_last());
        lemma_trim_end_spaces(x, p.drop_last());
    }
}

/// `n` empty pieces.
spec fn empty_pieces(n: nat) -> Seq<Seq<char>> {
    Seq::new(n, |i: int| Seq::<char>::empty())
}

proof fn lemma_split_leading_spaces(p: Seq<char>, b: Seq<char>)
    requires
        only_spaces(p),
    ensures
        split_on(p + b, ' ') == empty_pieces(p.len()) + split_on(b, ' '),
    decreases p.len(),
{
    if p.len() == 0 {
        assert(p + b =~= b);
        assert(empty_pieces(0) + split_on(b, ' ') =~= split_on(b, ' '));
    } else {
        let rest = p.drop_first() + b;
        assert(p + b =~= Seq::<char>::empty().push(' ') + rest);
        lemma_split_by_concat(Seq::<char>::empty(), ' ', rest, equals_char(' '));
        lemma_split_by_none(Seq::<char>::empty(), equals_char(' '));
        lemma_split_leading_spaces(p.drop_first(), b);
        assert(seq![Seq::<char>::empty()] + (empty_pieces(p.drop_first().len()) + split_on(b, ' '))
            =~= empty_pieces(p.len()) + split_on(b, ' '));
    }
}

proof fn lemma_non_empty_pieces_of_empties(x: Seq<Seq<char>>, n: nat)
    ensures
        non_empty_pieces(x + empty_pieces(n)) == non_empty_pieces(x),
    decreases n,
{
    if n == 0 {
        assert(x + empty_pieces(0) =~= x);
    } else {
        lemma_non_empty_pieces_of_empties(x, (n - 1) as nat);
        assert(x + empty_pieces(n) =~= (x + empty_pieces((n - 1) as nat)).push(Seq::<char>::empty()));
        lemma_non_empty_pieces_push(x + empty_pieces((n - 1) as nat), Seq::<char>::empty());
    }
}

proof fn lemma_single_piece(a: Seq<char>)
    requires
        a.len() > 0,
    ensures
        non_empty_pieces(seq![a]) == seq![a],
{
    lemma_non_empty_pieces_push(Seq::<Seq<char>>::empty(), a);
    reveal_with_fuel(Seq::filter, 1);
    assert(Seq::<Seq<char>>::empty().push(a) =~= seq![a]);
    assert(non_empty_pieces(Seq::<Seq<char>>::empty()) =~= Seq::<Seq<char>>::empty());
}

proof fn lemma_no_spaces_split(a: Seq<char>)
    requires
        no_white_space(a),
    ensures
        split_on(a, ' ') == seq![a],
{
    assert forall|i: int| 0 <= i < a.len() implies !equals_char(' ')(#[trigger] a[i]) by {
        assert(!is_white_space(a[i]));
    }
    lemma_split_by_none(a, equals_char(' '));
}

/// A date among spaces is one token, and two dates among spaces (at least one
/// between them) are two tokens, whatever the number of spaces.
pub proof fn lemma_interval_tokens_among_spaces(
    p1: Seq<char>,
    a: Seq<char>,
    p2: Seq<char>,
    b: Seq<char>,
    p3: Seq<char>,
)
    requires
        only_spaces(p1),
        only_spaces(p2),
        only_spaces(p3),
        p2.len() > 0,
        a.len() > 0,
        b.len() > 0,
        no_white_space(a),
        no_white_space(b),
    ensures
        interval_tokens(p1 + a + p3) == seq![a],
        interval_tokens(p1 + a + p2 + b + p3) == seq![a, b],
{
    assert(!is_white_space(a[0]) && !is_white_space(a.last()) && !is_white_space(b.last()));
    lemma_trim_start_spaces(p1, a + p3);
    assert(p1 + a + p3 =~= p1 + (a + p3));
    assert((a + p3)[0] == a[0]);
    lemma_trim_end_spaces(a, p3);
    assert(trim(p1 + a + p3) == a);
    lemma_no_spaces_split(a);
    lemma_single_piece(a);

    let mid = a + p2 + b;
    assert(p1 + a + p2 + b + p3 =~= p1 + (mid + p3));
    assert((mid + p3)[0] == a[0]);
    lemma_trim_start_spaces(p1, mid + p3);
    assert(mid.last() == b.last());
    lemma_trim_end_spaces(mid, p3);
    assert(trim(p1 + a + p2 + b + p3) == mid);
    let rest = p2.drop_first() + b;
    assert(mid =~= a.push(' ') + rest);
    lemma_split_by_concat(a, ' ', rest, equals_char(' '));
    lemma_split_leading_spaces(p2.drop_first(), b);
    lemma_no_spaces_split(b);
    let pieces = seq![a] + (empty_pieces(p2.drop_first().len()) + seq![b]);
    assert(split_on(mid, ' ') == pieces);
    assert(pieces =~= (seq![a] + empty_pieces(p2.drop_first().len())).push(b));
    lemma_non_empty_pieces_push(seq![a] + empty_pieces(p2.drop_first().len()), b);
    lemma_non_empty_pieces_of_empties(seq![a], p2.drop_first().len());
    assert(seq![a].push(b) =~= seq![a, b]);
}

/// One date, or two dates among spaces, read as the date reader reads each:
/// the interval is the first one's `Floor` and the last one's `Ceil`, and an
/// error exactly when one of them cannot be read.
pub proof fn lemma_interval_of_dates_among_spaces(
    text: Seq<char>,
    p1: Seq<char>,
    a: Seq<char>,
    p2: Seq<char>,
    b: Seq<char>,
    p3: Seq<char>,
    today: Date,
    from: DateTime,
    to: DateTime,
    r1: Result<(DateTime, DateTime), ParseDateStrError>,
    r2: Result<(DateTime, DateTime), ParseDateStrError>,
)
    requires
        only_spaces(p1),
        only_spaces(p2),
        only_spaces(p3),
        p2.len() > 0,
        a.len() > 0,
        b.len() > 0,
        no_white_space(a),
        no_white_space(b),
        interval_result(text, p1 + a + p3, today, r1),
        interval_result(text, p1 + a + p2 + b + p3, today, r2),
    ensures
        r1 == Ok::<(DateTime, DateTime), ParseDateStrError>((from, to)) <==> (parsed_date_str(
            a,
            DateRound::Floor,
            today,
        ) == Some(from) && parsed_date_str(a, DateRound::Ceil, today) == Some(to)),
        r1 is Err <==> (parsed_date_str(a, DateRound::Floor, today) is None || parsed_date_str(
            a,
            DateRound::Ceil,
            today,
        ) is None),
        r2 == Ok::<(DateTime, DateTime), ParseDateStrError>((from, to)) <==> (parsed_date_str(
            a,
            DateRound::Floor,
            today,
        ) == Some(from) && parsed_date_str(b, DateRound::Ceil, today) == Some(to)),
        r2 is Err <==> (parsed_date_str(a, DateRound::Floor, today) is None || parsed_date_str(
            b,
            DateRound::Ceil,
            today,
        ) is None),
{
    lemma_interval_tokens_among_spaces(p1, a, p2, b, p3);
}

/// An interval named by a single date starts before it ends.
pub proof fn lemma_single_date_interval_ordered(
    text: Seq<char>,
    lowered: Seq<char>,
    today: Date,
    r: Result<(DateTime, DateTime), ParseDateStrError>,
)
    requires
        interval_result(text, lowered, today, r),
        interval_tokens(lowered).len() == 1,
        !interval_panics(lowered),
        can_be_today(today),
    ensures
        r matches Ok((from, to)) ==> from.timestamp() < to.timestamp(),
{
    let t = interval_tokens(lowered)[0];
    if parsed_date_str(t, DateRound::Floor, today) is Some {
        lemma_floor_before_ceil(t, today);
    }
}

/// The date-times of an interval that was read are valid.
pub proof fn lemma_interval_results_valid(
    text: Seq<char>,
    lowered: Seq<char>,
    today: Date,
    r: Result<(DateTime, DateTime), ParseDateStrError>,
)
    requires
        interval_result(text, lowered, today, r),
        !interval_panics(lowered),
        can_be_today(today),
    ensures
        r matches Ok((from, to)) ==> from.is_valid() && to.is_valid(),
{
    let t = interval_tokens(lowered);
    if t.len() == 1 {
        crate::utils::parse_date_str::lemma_parsed_date_valid(t[0], DateRound::Floor, today);
        crate::utils::parse_date_str::lemma_parsed_date_valid(t[0], DateRound::Ceil, today);
    } else if t.len() == 2 {
        crate::utils::parse_date_str::lemma_parsed_date_valid(t[0], DateRound::Floor, today);
        crate::utils::parse_date_str::lemma_parsed_date_valid(t[1], DateRound::Ceil, today);
    }
}

/// The tokens of a lower-cased command text.
fn interval_words(lowered: &str) -> (r: Vec<Vec<char>>)
    ensures
        views(r@) == interval_tokens(lowered@),
{
    let chars = chars_of(lowered);
    let trimmed = trim_chars(&chars);
    let pieces = split_chars(&trimmed, ' ');
    let mut words: Vec<Vec<char>> = Vec::new();
    let mut i: usize = 0;
    let ghost all = views(pieces@);
    assert(all.take(0) =~= Seq::<Seq<char>>::empty());
    proof {
        reveal_with_fuel(Seq::filter, 1);
    }
    while i < pieces.len()
        invariant
            i <= pieces@.len(),
            all == views(pieces@),
            all == split_on(trim(lowered@), ' '),
            views(words@) == non_empty_pieces(all.take(i as int)),
        decreases pieces@.len() - i,
    {
        proof {
            lemma_non_empty_pieces_push(all.take(i as int), all[i as int]);
        }
        assert(all.take(i + 1) =~= all.take(i as int).push(all[i as int]));
        if pieces[i].len() > 0 {
            words.push(pieces[i].clone());
            assert(views(words@) =~= non_empty_pieces(all.take(i as int)).push(all[i as int]));
        }
        i += 1;
    }
    assert(all.take(pieces@.len() as int) =~= all);
    words
}

/// Whether reading the interval in this lower-cased text cannot finish.
pub fn interval_text_panics(lowered: &str) -> (r: bool)
    ensures
        r == interval_panics(lowered@),
{
    let words = interval_words(lowered);
    if words.len() == 1 {
        date_chars_panic(&words[0])
    } else if words.len() == 2 {
        date_chars_panic(&words[0]) || date_chars_panic(&words[1])
    } else {
        false
    }
}

/// `parse_interval` with the lower-cased text and today's date given.
pub fn parse_interval_at(command_text: &str, lowered: &str, today: Date) -> (r: Result<
    (DateTime, DateTime),
    ParseDateStrError,
>)
    requires
        !interval_panics(lowered@),
        can_be_today(today),
    ensures
        interval_result(command_text@, lowered@, today, r),
{
    let words = interval_words(lowered);
    let n = words.len();
    if n == 0 {
        Err(ParseDateStrError::NoDate)
    } else if n == 1 {
        let from = parse_date_chars(&words[0], DateRound::Floor, today);
        let to = parse_date_chars(&words[0], DateRound::Ceil, today);
        match (from, to) {
            (Some(from), Some(to)) => Ok((from, to)),
            _ => Err(ParseDateStrError::Date(string_from_chars(&words[0]))),
        }
    } else if n == 2 {
        let from = parse_date_chars(&words[0], DateRound::Floor, today);
        let to = parse_date_chars(&words[1], DateRound::Ceil, today);
        match (from, to) {
            (Some(from), Some(to)) => Ok((from, to)),
            (None, _) => Err(ParseDateStrError::Date(string_from_chars(&words[0]))),
            (Some(_), None) => Err(ParseDateStrError::Date(string_from_chars(&words[1]))),
        }
    } else {
        Err(ParseDateStrError::Interval(command_text.to_string()))
    }
}

/// Reads a command's text as an interval of dates: one date stands for its own
/// first and last second, two dates for the first second of the first and the
/// last second of the second. The text is lower-cased and trimmed, and split at
/// spaces.
pub fn parse_interval(command_text: &str) -> (r: Result<(DateTime, DateTime), ParseDateStrError>)
    requires
        !interval_panics(lowercase_text(command_text@)),
    ensures
        exists|today: Date|
            can_be_today(today) && #[trigger] interval_result(
                command_text@,
                lowercase_text(command_text@),
                today,
                r,
            ),
        !interval_names_last_december(lowercase_text(command_text@)) ==> forall|today: Date|
            #[trigger] interval_result(command_text@, lowercase_text(command_text@), today, r),
{
    let lowered = lowercase(command_text);
    let (_, today) = local_now();
    let r = parse_interval_at(command_text, lowered.as_str(), today);
    proof {
        if !interval_names_last_december(lowered@) {
            assert forall|t: Date| #[trigger] interval_result(command_text@, lowered@, t, r) by {
                lemma_interval_result_ignores_today(command_text@, lowered@, today, t, r);
            }
        }
    }
    r
}

/// `parse_interval` for any text: `None` exactly on the texts on which it cannot
/// finish (a month out of 1 to 12, or a year out of range, in a month-and-year or
/// a lone year).
pub fn checked_parse_interval(command_text: &str) -> (r: Option<
    Result<(DateTime, DateTime), ParseDateStrError>,
>)
    ensures
        r is None <==> interval_panics(lowercase_text(command_text@)),
        r matches Some(res) ==> exists|today: Date|
            can_be_today(today) && #[trigger] interval_result(
                command_text@,
                lowercase_text(command_text@),
                today,
                res,
            ),
        r matches Some(res) ==> (!interval_names_last_december(lowercase_text(command_text@))
            ==> forall|today: Date| #[trigger] interval_result(command_text@, lowercase_text(command_text@), today, res)),
{
    let lowered = lowercase(command_text);
    if interval_text_panics(lowered.as_str()) {
        None
    } else {
        Some(parse_interval(command_text))
    }
}

/// A token that names a month (1 to 12) of a year in the supported range.
pub open spec fn is_month_year(t: Seq<char>) -> bool {
    &&& split_on(t, '/').len() == 2
    &&& parse_u32_text(split_on(t, '/')[0]) matches Some(m)
    &&& 1 <= m <= 12
    &&& parse_i32_text(split_on(t, '/')[1]) matches Some(y)
    &&& year_in_range(y as int)
}

/// An interval of one or two months of years in range (such as `01/2024 03/2024`)
/// is never unreadable: it is always read, to a result or an error reply.
pub proof fn lemma_month_year_interval_readable(lowered: Seq<char>)
    requires
        forall|i: int|
            0 <= i < interval_tokens(lowered).len() ==> is_month_year(#[trigger] interval_tokens(lowered)[i]),
    ensures
        !interval_panics(lowered),
{
    let t = interval_tokens(lowered);
    assert forall|i: int| 0 <= i < t.len() implies !date_str_panics(#[trigger] t[i]) by {
        assert(is_month_year(t[i]));
        let parts = split_on(t[i], '/');
        lemma_month_year_reading(
            t[i],
            parse_u32_text(parts[0])->0,
            parse_i32_text(parts[1])->0,
            Date { year: 2000, month: 1, day: 1 },
        );
    }
    if t.len() == 1 {
        assert(!date_str_panics(t[0]));
    } else if t.len() == 2 {
        assert(!date_str_panics(t[0]));
        assert(!date_str_panics(t[1]));
    }
}

} // verus!
