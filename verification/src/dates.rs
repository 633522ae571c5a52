//! The Gregorian calendar.

use vstd::prelude::*;

use crate::digits::{
    decimal, decimal_of, law_padded_numeral_is_read_back, lemma_padded_numeral_length, number_in,
    pad_left, padded_left,
};
use crate::text::owned;

verus! {

/// Nanoseconds in a day.
pub const DAY_NANOS: i128 = 86_400_000_000_000;

/// Whether `year` has a 29th of February.
pub open spec fn is_leap(year: int) -> bool {
    year % 4 == 0 && (year % 100 != 0 || year % 400 == 0)
}

/// The number of days in a month.
pub open spec fn days_in_month(year: int, month: int) -> int {
    if month == 2 {
        if is_leap(year) {
            29
        } else {
            28
        }
    } else if month == 4 || month == 6 || month == 9 || month == 11 {
        30
    } else {
        31
    }
}

/// The number of days in the months of `year` before `month`.
pub open spec fn days_before_month(year: int, month: int) -> int
    decreases month,
{
    if month <= 1 {
        0
    } else {
        days_before_month(year, month - 1) + days_in_month(year, month - 1)
    }
}

/// The number of days from the first of January of the year 1 to that of `year`.
pub open spec fn days_before_year(year: int) -> int {
    365 * (year - 1) + (year - 1) / 4 - (year - 1) / 100 + (year - 1) / 400
}

/// The number of days from the first of January 1970 to a date.
pub open spec fn day_number(year: int, month: int, day: int) -> int {
    days_before_year(year) + days_before_month(year, month) + (day - 1) - 719_162
}

/// Whether there is such a date.
pub open spec fn is_date(year: int, month: int, day: int) -> bool {
    &&& 1 <= month <= 12
    &&& 1 <= day <= days_in_month(year, month)
}

/// The months up to `month` are those before it and itself, and the whole year has 365 or 366 days.
proof fn lemma_months_grow(year: int, earlier: int, later: int)
    requires
        1 <= earlier < later <= 13,
    ensures
        days_before_month(year, earlier) + days_in_month(year, earlier) <= days_before_month(
            year,
            later,
        ),
    decreases later,
{
    if earlier < later - 1 {
        lemma_months_grow(year, earlier, later - 1);
    }
}

proof fn lemma_year_length(year: int)
    ensures
        days_before_month(year, 13) == if is_leap(year) {
            366int
        } else {
            365int
        },
        days_before_year(year + 1) == days_before_year(year) + days_before_month(year, 13),
{
    reveal_with_fuel(days_before_month, 14);
}

proof fn lemma_years_grow(earlier: int, later: int)
    requires
        earlier < later,
    ensures
        days_before_year(earlier) + days_before_month(earlier, 13) <= days_before_year(later),
    decreases later - earlier,
{
    lemma_year_length(later - 1);
    lemma_year_length(earlier);
    if earlier < later - 1 {
        lemma_years_grow(earlier, later - 1);
    }
}

proof fn lemma_earlier_year(
    year: int,
    month: int,
    day: int,
    other_year: int,
    other_month: int,
    other_day: int,
)
    requires
        is_date(year, month, day),
        is_date(other_year, other_month, other_day),
        year < other_year,
    ensures
        day_number(year, month, day) < day_number(other_year, other_month, other_day),
{
    lemma_years_grow(year, other_year);
    lemma_months_grow(year, month, 13);
    lemma_month_starts(other_year, other_month);
}

proof fn lemma_month_starts(year: int, month: int)
    ensures
        days_before_month(year, month) >= 0,
    decreases month,
{
    if month > 1 {
        lemma_month_starts(year, month - 1);
    }
}

/// No two dates have the same number.
pub proof fn law_day_number_is_unique(
    year: int,
    month: int,
    day: int,
    other_year: int,
    other_month: int,
    other_day: int,
)
    requires
        is_date(year, month, day),
        is_date(other_year, other_month, other_day),
        day_number(year, month, day) == day_number(other_year, other_month, other_day),
    ensures
        year == other_year,
        month == other_month,
        day == other_day,
{
    if year < other_year {
        lemma_earlier_year(year, month, day, other_year, other_month, other_day);
    } else if other_year < year {
        lemma_earlier_year(other_year, other_month, other_day, year, month, day);
    } else if month < other_month {
        lemma_months_grow(year, month, other_month);
    } else if other_month < month {
        lemma_months_grow(year, other_month, month);
    }
}

/// Calls `time::OffsetDateTime::from_unix_timestamp_nanos` and `to_calendar_date`: the date in UTC
/// at a moment given in nanoseconds since the start of 1970, for the years from -9999 to 9999.
#[verifier::external_body]
fn calendar_date(nanos: i128) -> (date: Option<(i32, u8, u8)>)
    ensures
        match date {
            Some((year, month, day)) => -9999 <= year <= 9999 && is_date(
                year as int,
                month as int,
                day as int,
            ) && day_number(year as int, month as int, day as int) == nanos as int
                / DAY_NANOS as int,
            None => nanos as int / (DAY_NANOS as int) < day_number(-9999, 1, 1) || nanos as int
                / (DAY_NANOS as int) > day_number(9999, 12, 31),
        },
{
    let moment = time::OffsetDateTime::from_unix_timestamp_nanos(nanos).ok()?;
    let (year, month, day) = moment.to_calendar_date();
    Some((year, u8::from(month), day))
}

/// A date written as `yyyyMMdd`, with a hyphen in front where the year is negative.
pub open spec fn date_text(year: int, month: int, day: int) -> Seq<char> {
    let years = if year < 0 {
        "-"@ + padded_left(decimal((-year) as nat), 4, '0')
    } else {
        padded_left(decimal(year as nat), 4, '0')
    };
    years + padded_left(decimal(month as nat), 2, '0') + padded_left(decimal(day as nat), 2, '0')
}

/// Whether the moment lies in the years that can be written.
pub open spec fn is_in_calendar(nanos: int) -> bool {
    day_number(-9999, 1, 1) <= nanos / (DAY_NANOS as int) <= day_number(9999, 12, 31)
}

/// Whether `text` is the date in UTC at the moment `nanos`.
pub open spec fn is_date_text_of(text: Seq<char>, nanos: int) -> bool {
    exists|year: int, month: int, day: int| #[trigger]
        is_date(year, month, day) && day_number(year, month, day) == nanos / (DAY_NANOS as int)
            && text == date_text(year, month, day)
}

/// Writes a date as `yyyyMMdd`.
fn write_date(year: i32, month: u8, day: u8) -> (text: String)
    requires
        -9999 <= year <= 9999,
    ensures
        text@ == date_text(year as int, month as int, day as int),
{
    let mut text = String::new();
    let years: u64 = if year < 0 {
        text = owned("-");
        (-year) as u64
    } else {
        year as u64
    };
    let ghost sign = text@;
    text.append(pad_left(decimal_of(years).as_str(), 4, '0').as_str());
    if year >= 0 {
        assert(text@ =~= padded_left(decimal(years as nat), 4, '0'));
    }
    text.append(pad_left(decimal_of(month as u64).as_str(), 2, '0').as_str());
    text.append(pad_left(decimal_of(day as u64).as_str(), 2, '0').as_str());
    text
}

/// The date in UTC at a moment given in nanoseconds since the start of 1970, written as
/// `yyyyMMdd`.
pub fn utc_date(nanos: i128) -> (text: Option<String>)
    ensures
        match text {
            Some(text) => is_in_calendar(nanos as int) && is_date_text_of(text@, nanos as int),
            None => !is_in_calendar(nanos as int),
        },
{
    match calendar_date(nanos) {
        Some((year, month, day)) => {
            let text = write_date(year, month, day);
            proof {
                assert(is_date(year as int, month as int, day as int));
                if year > -9999 {
                    lemma_earlier_year(-9999, 1, 1, year as int, month as int, day as int);
                } else if month > 1 {
                    lemma_months_grow(year as int, 1, month as int);
                }
                if year < 9999 {
                    lemma_earlier_year(year as int, month as int, day as int, 9999, 12, 31);
                } else if month < 12 {
                    lemma_months_grow(year as int, month as int, 12);
                }
            }
            Some(text)
        },
        None => None,
    }
}

/// Days are counted one by one, within a month, over the end of a month and over the end of a year,
/// and the first day of 1970 has the number 0.
pub proof fn law_days_are_counted_one_by_one(year: int, month: int, day: int)
    requires
        is_date(year, month, day),
    ensures
        is_date(year, month, day + 1) ==> day_number(year, month, day + 1) == day_number(
            year,
            month,
            day,
        ) + 1,
        !is_date(year, month, day + 1) && month < 12 ==> day_number(year, month + 1, 1)
            == day_number(year, month, day) + 1,
        !is_date(year, month, day + 1) && month == 12 ==> day_number(year + 1, 1, 1) == day_number(
            year,
            month,
            day,
        ) + 1,
        day_number(1970, 1, 1) == 0,
{
    lemma_year_length(year);
    reveal_with_fuel(days_before_month, 14);
}

/// A year has twelve months of 28 to 31 days, 365 days in all or 366, and 366 exactly where its
/// number is divisible by four, but by a hundred only where it is by four hundred.
pub proof fn law_months_make_up_the_year(year: int)
    ensures
        forall|month: int| 1 <= month <= 12 ==> 28 <= #[trigger] days_in_month(year, month) <= 31,
        forall|month: int|
            (#[trigger] days_in_month(year, month) < 30 <==> month == 2) && (days_in_month(
                year,
                month,
            ) == 30 <==> month == 4 || month == 6 || month == 9 || month == 11),
        day_number(year + 1, 1, 1) - day_number(year, 1, 1) == if year % 4 == 0 && (year % 100 != 0
            || year % 400 == 0) {
            366int
        } else {
            365int
        },
        day_number(year + 400, 1, 1) - day_number(year, 1, 1) == 146_097,
{
    lemma_year_length(year);
    reveal_with_fuel(days_before_month, 14);
}

/// The text of a date holds the year, the month and the day in four, two and two digits, one behind
/// the other.
pub proof fn law_date_text_is_read_back(
    text: Seq<char>,
    nanos: int,
    year: int,
    month: int,
    day: int,
)
    requires
        is_date_text_of(text, nanos),
        is_date(year, month, day),
        day_number(year, month, day) == nanos / (DAY_NANOS as int),
        0 <= year <= 9999,
    ensures
        text.len() == 8,
        number_in(text.take(4), 10) == year,
        number_in(text.subrange(4, 6), 10) == month,
        number_in(text.skip(6), 10) == day,
{
    let (other_year, other_month, other_day) = choose|
        other_year: int,
        other_month: int,
        other_day: int,
    | #[trigger]
        is_date(other_year, other_month, other_day) && day_number(
            other_year,
            other_month,
            other_day,
        ) == nanos / (DAY_NANOS as int) && text == date_text(other_year, other_month, other_day);
    law_day_number_is_unique(year, month, day, other_year, other_month, other_day);
    let years = padded_left(decimal(year as nat), 4, '0');
    let months = padded_left(decimal(month as nat), 2, '0');
    let days = padded_left(decimal(day as nat), 2, '0');
    reveal_with_fuel(vstd::arithmetic::power::pow, 5);
    lemma_padded_numeral_length(year as nat, 10, 4);
    lemma_padded_numeral_length(month as nat, 10, 2);
    lemma_padded_numeral_length(day as nat, 10, 2);
    law_padded_numeral_is_read_back(year as nat, 10, 4);
    law_padded_numeral_is_read_back(month as nat, 10, 2);
    law_padded_numeral_is_read_back(day as nat, 10, 2);
    assert(text.take(4) =~= years);
    assert(text.subrange(4, 6) =~= months);
    assert(text.skip(6) =~= days);
}

/// The calendar goes from the first day of the year -9999 to the last of the year 9999, which are
/// counted from the first day of 1970.
pub proof fn law_calendar_has_its_bounds(nanos: int)
    ensures
        is_in_calendar(nanos) <==> -4_371_587 <= nanos / 86_400_000_000_000 <= 2_932_896,
        day_number(-9999, 1, 1) == -4_371_587,
        day_number(9999, 12, 31) == 2_932_896,
{
    reveal_with_fuel(days_before_month, 13);
}

/// The text of a date before the year 0 begins with a sign, and goes on like that of any other.
pub proof fn law_early_date_text_is_read_back(year: int, month: int, day: int)
    requires
        is_date(year, month, day),
        -9999 <= year < 0,
    ensures
        date_text(year, month, day).len() == 9,
        date_text(year, month, day)[0] == '-',
        date_text(year, month, day).skip(1) == date_text(-year, month, day),
{
    reveal_strlit("-");
    assert("-"@ =~= seq!['-']);
    let years = padded_left(decimal((-year) as nat), 4, '0');
    let months = padded_left(decimal(month as nat), 2, '0');
    let days = padded_left(decimal(day as nat), 2, '0');
    assert(vstd::arithmetic::power::pow(10, 4) == 10_000 && vstd::arithmetic::power::pow(10, 2)
        == 100) by {
        reveal_with_fuel(vstd::arithmetic::power::pow, 5);
    }
    lemma_padded_numeral_length((-year) as nat, 10, 4);
    lemma_padded_numeral_length(month as nat, 10, 2);
    lemma_padded_numeral_length(day as nat, 10, 2);
    assert(date_text(year, month, day) =~= seq!['-'] + years + months + days);
    assert(date_text(year, month, day).skip(1) =~= date_text(-year, month, day));
}

} // verus!
