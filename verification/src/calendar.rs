//! Dates of the proleptic Gregorian calendar.
use vstd::prelude::*;

use crate::chars;
use crate::number;
use crate::text;

verus! {

pub open spec fn is_leap(year: int) -> bool {
    year % 4 == 0 && (year % 100 != 0 || year % 400 == 0)
}

pub open spec fn days_in_month(year: int, month: int) -> int {
    if month == 2 {
        if is_leap(year) {
            29
        } else {
            28
        }
    } else if month == 4 || month == 6 || month == 9 || month == 11 {
        30
    } else {
        31
    }
}

pub open spec fn days_in_year(year: int) -> int {
    if is_leap(year) {
        366
    } else {
        365
    }
}

pub open spec fn is_date(year: int, month: int, day: int) -> bool {
    1 <= month <= 12 && 1 <= day <= days_in_month(year, month)
}

/// Days from the start of 1970 to the start of `year`.
pub open spec fn year_start(year: int) -> int {
    365 * (year - 1) + (year - 1) / 4 - (year - 1) / 100 + (year - 1) / 400 - 719_162
}

/// Days from the start of `year` to the start of `month`.
pub open spec fn days_before_month(year: int, month: int) -> int
    decreases month,
{
    if month <= 1 {
        0
    } else {
        days_before_month(year, month - 1) + days_in_month(year, month - 1)
    }
}

/// Days from 1970-01-01 to a date.
pub open spec fn day_number(year: int, month: int, day: int) -> int {
    year_start(year) + days_before_month(year, month) + day - 1
}

/// Days from 1970-01-01 to the first of March of `year`.
spec fn march_start(year: int) -> int {
    365 * year + year / 4 - year / 100 + year / 400 - 719_468
}

proof fn lemma_month_table(year: int)
    ensures
        days_before_month(year, 1) == 0,
        days_before_month(year, 2) == 31,
        days_before_month(year, 3) == 59 + (days_in_year(year) - 365),
        days_before_month(year, 4) == 90 + (days_in_year(year) - 365),
        days_before_month(year, 5) == 120 + (days_in_year(year) - 365),
        days_before_month(year, 6) == 151 + (days_in_year(year) - 365),
        days_before_month(year, 7) == 181 + (days_in_year(year) - 365),
        days_before_month(year, 8) == 212 + (days_in_year(year) - 365),
        days_before_month(year, 9) == 243 + (days_in_year(year) - 365),
        days_before_month(year, 10) == 273 + (days_in_year(year) - 365),
        days_before_month(year, 11) == 304 + (days_in_year(year) - 365),
        days_before_month(year, 12) == 334 + (days_in_year(year) - 365),
{
    reveal_with_fuel(days_before_month, 13);
}

/// Consecutive years start as many days apart as the year between has days.
pub proof fn law_years_follow_each_other(year: int)
    ensures
        year_start(1970) == 0,
        year_start(year + 1) == year_start(year) + days_in_year(year),
{
}

/// Every date is the day after the date before it: within a month, from the
/// last of a month to the first of the next, and from December to January.
pub proof fn law_days_follow_each_other(year: int, month: int, day: int)
    requires
        is_date(year, month, day),
    ensures
        is_date(year, month, day + 1) ==> day_number(year, month, day + 1) == day_number(
            year,
            month,
            day,
        ) + 1,
        day == days_in_month(year, month) && month < 12 ==> day_number(year, month + 1, 1)
            == day_number(year, month, day) + 1,
        day == days_in_month(year, month) && month == 12 ==> day_number(year + 1, 1, 1)
            == day_number(year, month, day) + 1,
{
    lemma_month_table(year);
    lemma_month_table(year + 1);
    law_years_follow_each_other(year);
}

proof fn lemma_floor_step(n: int, k: int)
    requires
        k == 4 || k == 100 || k == 400,
    ensures
        n / k == (n - 1) / k + (if n % k == 0 {
            1int
        } else {
            0int
        }),
{
}

proof fn lemma_march(year: int)
    ensures
        march_start(year) == year_start(year) + 59 + (days_in_year(year) - 365),
        march_start(year) + 306 == year_start(year + 1),
{
    lemma_floor_step(year, 4);
    lemma_floor_step(year, 100);
    lemma_floor_step(year, 400);
    assert(year % 400 == 0 ==> year % 100 == 0);
    assert(year % 100 == 0 ==> year % 4 == 0);
}

/// Within an era of 400 years, counted from the first of March, day
/// `day_of_era` falls in the year that the quotient names.
proof fn lemma_year_of_era(day_of_era: int, year_of_era: int)
    requires
        0 <= day_of_era < 146_097,
        year_of_era == (day_of_era - day_of_era / 1_460 + day_of_era / 36_524 - day_of_era
            / 146_096) / 365,
    ensures
        0 <= year_of_era < 400,
        365 * year_of_era + year_of_era / 4 - year_of_era / 100 <= day_of_era,
        day_of_era <= 365 * year_of_era + year_of_era / 4 - year_of_era / 100 + 365,
        day_of_era == 365 * year_of_era + year_of_era / 4 - year_of_era / 100 + 365 ==> is_leap(
            year_of_era + 1,
        ),
{
    let d = day_of_era as u32;
    assert(d < 146_097 ==> {
        let y = (((d + 0u32) as u32 - d / 1_460) as u32 + d / 36_524 - d / 146_096) as u32 / 365;
        &&& y < 400
        &&& 365 * y + y / 4 - y / 100 <= d
        &&& d <= 365 * y + y / 4 - y / 100 + 365
    }) by (bit_vector);
}

/// Within a year counted from the first of March, day `day_of_year` falls in
/// the month that the quotient names.
proof fn lemma_month_of_year(year: int, day_of_year: int, month_prime: int)
    requires
        0 <= day_of_year <= 365,
        day_of_year == 365 ==> is_leap(year + 1),
        month_prime == (5 * day_of_year + 2) / 153,
    ensures
        0 <= month_prime < 12,
        0 <= day_of_year - (153 * month_prime + 2) / 5,
        month_prime < 10 ==> {
            &&& is_date(year, month_prime + 3, day_of_year - (153 * month_prime + 2) / 5 + 1)
            &&& day_number(year, month_prime + 3, day_of_year - (153 * month_prime + 2) / 5 + 1)
                == march_start(year) + day_of_year
        },
        month_prime >= 10 ==> {
            &&& is_date(year + 1, month_prime - 9, day_of_year - (153 * month_prime + 2) / 5 + 1)
            &&& day_number(
                year + 1,
                month_prime - 9,
                day_of_year - (153 * month_prime + 2) / 5 + 1,
            ) == march_start(year) + day_of_year
        },
{
    lemma_month_table(year);
    lemma_month_table(year + 1);
    lemma_march(year);
    assert(month_prime == 0 || month_prime == 1 || month_prime == 2 || month_prime == 3
        || month_prime == 4 || month_prime == 5 || month_prime == 6 || month_prime == 7
        || month_prime == 8 || month_prime == 9 || month_prime == 10 || month_prime == 11);
}

proof fn lemma_era(era: int, year_of_era: int)
    requires
        0 <= year_of_era < 400,
    ensures
        march_start(year_of_era + era * 400) == era * 146_097 + 365 * year_of_era + year_of_era / 4
            - year_of_era / 100 - 719_468,
        is_leap(year_of_era + 1 + era * 400) == is_leap(year_of_era + 1),
{
    let year = year_of_era + era * 400;
    assert(year / 4 == year_of_era / 4 + era * 100) by (nonlinear_arith)
        requires
            year == year_of_era + era * 400,
            0 <= year_of_era < 400,
    ;
    assert(year / 100 == year_of_era / 100 + era * 4) by (nonlinear_arith)
        requires
            year == year_of_era + era * 400,
            0 <= year_of_era < 400,
    ;
    assert(year / 400 == era) by (nonlinear_arith)
        requires
            year == year_of_era + era * 400,
            0 <= year_of_era < 400,
    ;
    assert((year + 1) % 4 == (year_of_era + 1) % 4) by (nonlinear_arith)
        requires
            year == year_of_era + era * 400,
            0 <= year_of_era < 400,
    ;
    assert((year + 1) % 100 == (year_of_era + 1) % 100) by (nonlinear_arith)
        requires
            year == year_of_era + era * 400,
            0 <= year_of_era < 400,
    ;
    assert((year + 1) % 400 == (year_of_era + 1) % 400) by (nonlinear_arith)
        requires
            year == year_of_era + era * 400,
            0 <= year_of_era < 400,
    ;
}

/// The date that is `days` days after 1970-01-01.
pub fn civil_date_from_unix_days(days: i64) -> (res: (i64, i64, i64))
    requires
        days <= i64::MAX - 719_468,
    ensures
        is_date(res.0 as int, res.1 as int, res.2 as int),
        day_number(res.0 as int, res.1 as int, res.2 as int) == days,
{
    let ghost unix_days = days;
    let days: i64 = days + 719_468;
    let era: i64 = if days >= 0 {
        days / 146_097
    } else {
        -((146_096 - days) / 146_097)
    };
    let day_of_era: i64 = days - era * 146_097;
    let year_of_era: i64 = (day_of_era - day_of_era / 1_460 + day_of_era / 36_524 - day_of_era
        / 146_096) / 365;
    proof {
        lemma_year_of_era(day_of_era as int, year_of_era as int);
        lemma_era(era as int, year_of_era as int);
    }
    let mut year: i64 = year_of_era + era * 400;
    let day_of_year: i64 = day_of_era - (365 * year_of_era + year_of_era / 4 - year_of_era / 100);
    let month_prime: i64 = (5 * day_of_year + 2) / 153;
    proof {
        lemma_month_of_year(year as int, day_of_year as int, month_prime as int);
    }
    let day: i64 = day_of_year - (153 * month_prime + 2) / 5 + 1;
    let month: i64 = if month_prime < 10 {
        month_prime + 3
    } else {
        month_prime - 9
    };
    if month <= 2 {
        year += 1;
    }
    (year, month, day)
}

proof fn lemma_year_start_grows(a: int, b: int)
    requires
        a <= b,
    ensures
        year_start(a) <= year_start(b),
    decreases b - a,
{
    if a < b {
        lemma_year_start_grows(a, b - 1);
        law_years_follow_each_other(b - 1);
    }
}

proof fn lemma_month_grows(year: int, a: int, b: int)
    requires
        1 <= a < b <= 13,
    ensures
        days_before_month(year, a) + days_in_month(year, a) <= days_before_month(year, b),
    decreases b - a,
{
    if a + 1 < b {
        lemma_month_grows(year, a, b - 1);
    }
}

/// Whether a date stands before another in the calendar.
pub open spec fn earlier(y1: int, m1: int, d1: int, y2: int, m2: int, d2: int) -> bool {
    y1 < y2 || (y1 == y2 && (m1 < m2 || (m1 == m2 && d1 < d2)))
}

/// A date stands before another exactly when fewer days lead up to it; so a
/// day has one date only.
pub proof fn law_day_numbers_order_dates(y1: int, m1: int, d1: int, y2: int, m2: int, d2: int)
    requires
        is_date(y1, m1, d1),
        is_date(y2, m2, d2),
    ensures
        earlier(y1, m1, d1, y2, m2, d2) <==> day_number(y1, m1, d1) < day_number(y2, m2, d2),
        day_number(y1, m1, d1) == day_number(y2, m2, d2) ==> (y1, m1, d1) == (y2, m2, d2),
{
    if earlier(y1, m1, d1, y2, m2, d2) {
        lemma_earlier_is_fewer(y1, m1, d1, y2, m2, d2);
    } else if earlier(y2, m2, d2, y1, m1, d1) {
        lemma_earlier_is_fewer(y2, m2, d2, y1, m1, d1);
    }
}

proof fn lemma_earlier_is_fewer(y1: int, m1: int, d1: int, y2: int, m2: int, d2: int)
    requires
        is_date(y1, m1, d1),
        is_date(y2, m2, d2),
        earlier(y1, m1, d1, y2, m2, d2),
    ensures
        day_number(y1, m1, d1) < day_number(y2, m2, d2),
{
    lemma_month_table(y1);
    lemma_month_table(y2);
    if y1 < y2 {
        law_years_follow_each_other(y1);
        lemma_year_start_grows(y1 + 1, y2);
        if m1 < 12 {
            lemma_month_grows(y1, m1, 12);
        }
        if m2 > 1 {
            lemma_month_grows(y2, 1, m2);
        }
    } else if m1 < m2 {
        lemma_month_grows(y1, m1, m2);
    }
}

/// A date as `YYYY-MM-DD`.
pub open spec fn date_text(year: int, month: int, day: int) -> Seq<char> {
    number::padded(year as nat, 4) + seq!['-'] + number::padded(month as nat, 2) + seq!['-'] + number::padded(day as nat, 2)
}

/// The date in UTC, as `YYYY-MM-DD`, that the given second of Unix time falls on.
pub fn utc_date(unix_seconds: u64) -> (res: String)
    ensures
        exists|y: int, m: int, d: int|
            {
                &&& is_date(y, m, d)
                &&& #[trigger] day_number(y, m, d) == unix_seconds / 86_400
                &&& y >= 1970
                &&& res@ == date_text(y, m, d)
            },
{
    let days = (unix_seconds / 86_400) as i64;
    let (year, month, day) = civil_date_from_unix_days(days);
    proof {
        if year < 1970 {
            lemma_month_table(1970);
            lemma_earlier_is_fewer(year as int, month as int, day as int, 1970, 1, 1);
        }
    }
    let mut out = number::padded_text(year as u64, 4);
    out.push('-');
    out.append(number::padded_text(month as u64, 2).as_str());
    out.push('-');
    out.append(number::padded_text(day as u64, 2).as_str());
    assert(out@ =~= date_text(year as int, month as int, day as int));
    assert(day_number(year as int, month as int, day as int) == unix_seconds / 86_400);
    out
}

proof fn lemma_padded(n: nat, width: nat)
    requires
        (width == 2 && n < 100) || (width == 4 && n < 10_000),
    ensures
        number::padded(n, width).len() == width,
        number::all_digits(number::padded(n, width)),
        number::digits_value(number::padded(n, width)) == n,
{
    reveal_with_fuel(number::decimal, 5);
    number::lemma_padded_value(n, width);
}

proof fn lemma_digits_order(a: Seq<char>, b: Seq<char>)
    requires
        a.len() == b.len(),
        number::all_digits(a),
        number::all_digits(b),
    ensures
        text::precedes(a, b) <==> number::digits_value(a) < number::digits_value(b),
        number::digits_value(a) == number::digits_value(b) ==> a == b,
    decreases a.len(),
{
    if a.len() == 0 {
        assert(a =~= b);
    } else {
        let x = a.drop_last();
        let y = b.drop_last();
        assert(number::all_digits(x)) by {
            assert forall|i: int| 0 <= i < x.len() implies chars::is_digit(#[trigger] x[i]) by {
                assert(x[i] == a[i]);
            }
        }
        assert(number::all_digits(y)) by {
            assert forall|i: int| 0 <= i < y.len() implies chars::is_digit(#[trigger] y[i]) by {
                assert(y[i] == b[i]);
            }
        }
        assert(chars::is_digit(a[a.len() - 1]) && chars::is_digit(b[b.len() - 1]));
        lemma_digits_order(x, y);
        let c = seq![a.last()];
        let d = seq![b.last()];
        assert(a =~= x + c);
        assert(b =~= y + d);
        text::lemma_precedes_concat(x, y, c, d);
        assert(c.skip(1) =~= Seq::empty());
        assert(d.skip(1) =~= Seq::empty());
        reveal_with_fuel(text::precedes, 2);
    }
}

/// Written as `YYYY-MM-DD`, dates of four-digit years stand in the order of
/// the days they name.
pub proof fn law_date_texts_stand_in_calendar_order(
    y1: int,
    m1: int,
    d1: int,
    y2: int,
    m2: int,
    d2: int,
)
    requires
        is_date(y1, m1, d1),
        is_date(y2, m2, d2),
        0 <= y1 <= 9999,
        0 <= y2 <= 9999,
    ensures
        text::precedes(date_text(y1, m1, d1), date_text(y2, m2, d2)) <==> day_number(y1, m1, d1)
            < day_number(y2, m2, d2),
{
    law_day_numbers_order_dates(y1, m1, d1, y2, m2, d2);
    let dash = seq!['-'];
    let (a1, a2) = (number::padded(y1 as nat, 4), number::padded(y2 as nat, 4));
    let (b1, b2) = (number::padded(m1 as nat, 2), number::padded(m2 as nat, 2));
    let (c1, c2) = (number::padded(d1 as nat, 2), number::padded(d2 as nat, 2));
    lemma_padded(y1 as nat, 4);
    lemma_padded(y2 as nat, 4);
    lemma_padded(m1 as nat, 2);
    lemma_padded(m2 as nat, 2);
    lemma_padded(d1 as nat, 2);
    lemma_padded(d2 as nat, 2);
    lemma_digits_order(a1, a2);
    lemma_digits_order(b1, b2);
    lemma_digits_order(c1, c2);
    assert(date_text(y1, m1, d1) =~= a1 + (dash + (b1 + (dash + c1))));
    assert(date_text(y2, m2, d2) =~= a2 + (dash + (b2 + (dash + c2))));
    text::lemma_precedes_concat(a1, a2, dash + (b1 + (dash + c1)), dash + (b2 + (dash + c2)));
    text::lemma_precedes_concat(dash, dash, b1 + (dash + c1), b2 + (dash + c2));
    text::lemma_precedes_concat(b1, b2, dash + c1, dash + c2);
    text::lemma_precedes_concat(dash, dash, c1, c2);
}

/// The months have their days, and February one more in every fourth year, but
/// not in the last of a century unless the century's number is a fourth one.
pub proof fn law_months_have_their_days(year: int, month: int)
    requires
        1 <= month <= 12,
    ensures
        month != 2 ==> days_in_month(year, month) == seq![
            31int,
            28,
            31,
            30,
            31,
            30,
            31,
            31,
            30,
            31,
            30,
            31,
        ][month - 1],
        year % 4 != 0 ==> days_in_month(year, 2) == 28,
        year % 4 == 0 && year % 100 != 0 ==> days_in_month(year, 2) == 29,
        year % 100 == 0 && year % 400 != 0 ==> days_in_month(year, 2) == 28,
        year % 400 == 0 ==> days_in_month(year, 2) == 29,
        days_in_year(year) == 337 + days_in_month(year, 2),
        days_before_month(year, 1) == 0,
        days_before_month(year, month + 1) == days_before_month(year, month) + days_in_month(
            year,
            month,
        ),
{
}

/// A date of a four-digit year is written with four, two and two digits and
/// dashes between them, and is read back from them.
pub proof fn law_dates_are_read_back(year: int, month: int, day: int)
    requires
        is_date(year, month, day),
        0 <= year <= 9999,
    ensures
        ({
            let t = date_text(year, month, day);
            &&& t.len() == 10
            &&& t[4] == '-'
            &&& t[7] == '-'
            &&& number::unsigned_value(t.subrange(0, 4)) == Some(year as nat)
            &&& number::unsigned_value(t.subrange(5, 7)) == Some(month as nat)
            &&& number::unsigned_value(t.subrange(8, 10)) == Some(day as nat)
        }),
{
    let a = number::padded(year as nat, 4);
    let b = number::padded(month as nat, 2);
    let c = number::padded(day as nat, 2);
    lemma_padded(year as nat, 4);
    lemma_padded(month as nat, 2);
    lemma_padded(day as nat, 2);
    number::law_written_numbers_read_back(year as nat, 4);
    number::law_written_numbers_read_back(month as nat, 2);
    number::law_written_numbers_read_back(day as nat, 2);
    let t = date_text(year, month, day);
    assert(t.subrange(0, 4) =~= a);
    assert(t.subrange(5, 7) =~= b);
    assert(t.subrange(8, 10) =~= c);
}

} // verus!
