//! Dates in the Gregorian calendar.

use vstd::prelude::*;

use crate::text;

verus! {

/// A year that has a 29th of February.
pub open spec fn is_leap(year: int) -> bool {
    year % 4 == 0 && (year % 100 != 0 || year % 400 == 0)
}

/// How many days a month has.
pub open spec fn month_length(year: int, month: int) -> int {
    if month == 2 {
        if is_leap(year) {
            29
        } else {
            28
        }
    } else if month == 4 || month == 6 || month == 9 || month == 11 {
        30
    } else {
        31
    }
}

/// A day of a month of a year that exists in the calendar.
pub open spec fn is_date(date: (int, int, int)) -> bool {
    1 <= date.1 <= 12 && 1 <= date.2 <= month_length(date.0, date.1)
}

/// The day after a date.
pub open spec fn next_day(date: (int, int, int)) -> (int, int, int) {
    if date.2 < month_length(date.0, date.1) {
        (date.0, date.1, date.2 + 1)
    } else if date.1 < 12 {
        (date.0, date.1 + 1, 1)
    } else {
        (date.0 + 1, 1, 1)
    }
}

/// How many days of a year lie before a month.
pub open spec fn days_before_month(year: int, month: int) -> int
    decreases month,
{
    if month <= 1 {
        0
    } else {
        days_before_month(year, month - 1) + month_length(year, month - 1)
    }
}

/// How many days lie between the first of January of the year 1 and that of
/// `year`.
pub open spec fn days_before_year(year: int) -> int {
    let past = year - 1;
    365 * past + past / 4 - past / 100 + past / 400
}

/// How many days a date lies after the first of January 1970.
pub open spec fn day_number(date: (int, int, int)) -> int {
    days_before_year(date.0) - days_before_year(1970) + days_before_month(date.0, date.1) + date.2
        - 1
}

/// The date that lies `days` days after the first of January 1970.
pub open spec fn civil_date(days: int) -> (int, int, int) {
    choose|date: (int, int, int)| #[trigger] is_date(date) && day_number(date) == days
}

/// The year, month and day of a number of seconds since the epoch, and its time
/// of day, as a label in UTC.
pub open spec fn utc_text(timestamp: u32) -> Seq<char> {
    let date = civil_date(timestamp as int / 86400);
    let second = timestamp as int % 86400;
    text::padded_decimal(date.0 as nat, 4) + "-"@ + text::padded_decimal(date.1 as nat, 2) + "-"@
        + text::padded_decimal(date.2 as nat, 2) + " "@ + text::padded_decimal(
        (second / 3600) as nat,
        2,
    ) + ":"@ + text::padded_decimal((second % 3600 / 60) as nat, 2) + " UTC"@
}

/// A year is 365 days long, and a leap year one more.
pub proof fn year_has_its_days(year: int)
    ensures
        days_before_year(year + 1) == days_before_year(year) + if is_leap(year) {
            366int
        } else {
            365int
        },
{
}

proof fn month_table(year: int)
    ensures
        ({
            let leap: int = if is_leap(year) {
                1
            } else {
                0
            };
            &&& days_before_month(year, 1) == 0
            &&& days_before_month(year, 2) == 31
            &&& days_before_month(year, 3) == 59 + leap
            &&& days_before_month(year, 4) == 90 + leap
            &&& days_before_month(year, 5) == 120 + leap
            &&& days_before_month(year, 6) == 151 + leap
            &&& days_before_month(year, 7) == 181 + leap
            &&& days_before_month(year, 8) == 212 + leap
            &&& days_before_month(year, 9) == 243 + leap
            &&& days_before_month(year, 10) == 273 + leap
            &&& days_before_month(year, 11) == 304 + leap
            &&& days_before_month(year, 12) == 334 + leap
        }),
{
    reveal_with_fuel(days_before_month, 13);
}

/// The next day's number is the next number.
pub proof fn next_day_is_one_later(date: (int, int, int))
    requires
        is_date(date),
    ensures
        is_date(next_day(date)),
        day_number(next_day(date)) == day_number(date) + 1,
{
    month_table(date.0);
    month_table(date.0 + 1);
    year_has_its_days(date.0);
}

proof fn years_grow(a: int, b: int)
    requires
        a <= b,
    ensures
        days_before_year(a) <= days_before_year(b),
    decreases b - a,
{
    if a < b {
        years_grow(a, b - 1);
        year_has_its_days(b - 1);
    }
}

proof fn within_year(date: (int, int, int))
    requires
        is_date(date),
    ensures
        days_before_year(date.0) <= day_number(date) + days_before_year(1970) < days_before_year(
            date.0 + 1,
        ),
{
    month_table(date.0);
    year_has_its_days(date.0);
}

/// No two dates have the same number.
pub proof fn numbers_tell_dates_apart(a: (int, int, int), b: (int, int, int))
    requires
        is_date(a),
        is_date(b),
        day_number(a) == day_number(b),
    ensures
        a == b,
{
    within_year(a);
    within_year(b);
    if a.0 < b.0 {
        years_grow(a.0 + 1, b.0);
    } else if b.0 < a.0 {
        years_grow(b.0 + 1, a.0);
    }
    month_table(a.0);
}

proof fn civil_date_is(date: (int, int, int), days: int)
    requires
        is_date(date),
        day_number(date) == days,
    ensures
        civil_date(days) == date,
{
    let chosen = civil_date(days);
    assert(is_date(chosen) && day_number(chosen) == days);
    numbers_tell_dates_apart(chosen, date);
}

/// The year within a 400-year era that begins in March, and the day within that
/// year, of a day of the era.
proof fn year_of_era_bounds(day_of_era: int)
    requires
        0 <= day_of_era < 146_097,
    ensures
        ({
            let y = (day_of_era - day_of_era / 1460 + day_of_era / 36_524 - day_of_era / 146_096)
                / 365;
            let d = day_of_era - (365 * y + y / 4 - y / 100);
            &&& 0 <= y < 400
            &&& 0 <= d <= 365
            &&& d == 365 ==> (y + 1) % 4 == 0 && ((y + 1) % 100 != 0 || y + 1 == 400)
        }),
{
    let y = (day_of_era - day_of_era / 1460 + day_of_era / 36_524 - day_of_era / 146_096) / 365;
    if day_of_era == 146_096 {
        assert(y == 399);
    } else {
        let b = day_of_era / 36_524;
        let r = day_of_era % 36_524;
        let p = r / 1461;
        let s = r % 1461;
        assert(0 <= b <= 3);
        assert(0 <= p <= 24);
        let e: int = if 24 * b + p + s >= 1460 {
            1
        } else {
            0
        };
        assert(day_of_era == 1460 * (25 * b + p) + (24 * b + p + s));
        assert(day_of_era / 1460 == 25 * b + p + e);
        let t = (s - e) / 365;
        assert(day_of_era - day_of_era / 1460 + b == 365 * (100 * b + 4 * p) + (s - e));
        assert(0 <= t <= 3);
        assert(y == 100 * b + 4 * p + t);
        assert(y / 4 == 25 * b + p);
        assert(4 * p + t < 100);
        assert(y / 100 == b);
        assert(day_of_era - (365 * y + y / 4 - y / 100) == s - 365 * t);
        if s - 365 * t == 365 {
            assert(t == 3 && s == 1460);
            assert(p < 24);
        }
    }
}

/// The month of a year that begins in March, and where it begins, of a day of
/// that year.
proof fn march_month_bounds(day_of_year: int)
    requires
        0 <= day_of_year <= 365,
    ensures
        ({
            let mp = (5 * day_of_year + 2) / 153;
            let first = (153 * mp + 2) / 5;
            &&& 0 <= mp <= 11
            &&& first <= day_of_year
            &&& first == march_month_start(mp)
            &&& mp < 11 ==> day_of_year < march_month_start(mp + 1)
        }),
{
    let mp = (5 * day_of_year + 2) / 153;
    assert(mp == 0 || mp == 1 || mp == 2 || mp == 3 || mp == 4 || mp == 5 || mp == 6 || mp == 7
        || mp == 8 || mp == 9 || mp == 10 || mp == 11);
}

/// How many days lie between the first of March and the first of the month that
/// comes `mp` months later.
spec fn march_month_start(mp: int) -> int {
    if mp <= 0 {
        0
    } else if mp == 1 {
        31
    } else if mp == 2 {
        61
    } else if mp == 3 {
        92
    } else if mp == 4 {
        122
    } else if mp == 5 {
        153
    } else if mp == 6 {
        184
    } else if mp == 7 {
        214
    } else if mp == 8 {
        245
    } else if mp == 9 {
        275
    } else if mp == 10 {
        306
    } else {
        337
    }
}

/// The date of a day of a year that begins in March.
proof fn march_date(year: int, day_of_year: int)
    requires
        0 <= day_of_year <= 365,
        day_of_year == 365 ==> is_leap(year + 1),
    ensures
        ({
            let mp = (5 * day_of_year + 2) / 153;
            let month = if mp < 10 {
                mp + 3
            } else {
                mp - 9
            };
            let civil_year = if month <= 2 {
                year + 1
            } else {
                year
            };
            let date = (civil_year, month, day_of_year - (153 * mp + 2) / 5 + 1);
            &&& 1 <= month <= 12
            &&& is_date(date)
            &&& day_number(date) == days_before_year(year + 1) - 306 - days_before_year(1970)
                + day_of_year
        }),
{
    march_month_bounds(day_of_year);
    month_table(year);
    month_table(year + 1);
    year_has_its_days(year);
}

/// Where a year begins, of a year within a 400-year era.
proof fn era_year_start(era: int, year_of_era: int)
    requires
        0 <= year_of_era < 400,
    ensures
        days_before_year(400 * era + year_of_era + 1) == 146_097 * era + 365 * year_of_era
            + year_of_era / 4 - year_of_era / 100,
        is_leap(400 * era + year_of_era + 1) <==> (year_of_era + 1) % 4 == 0 && ((year_of_era + 1)
            % 100 != 0 || year_of_era + 1 == 400),
{
    let year = 400 * era + year_of_era;
    assert(year / 4 == 100 * era + year_of_era / 4);
    assert(year / 100 == 4 * era + year_of_era / 100);
    assert(year / 400 == era);
    assert((year + 1) % 4 == (year_of_era + 1) % 4);
    assert((year + 1) % 100 == (year_of_era + 1) % 100);
    assert((year + 1) % 400 == (year_of_era + 1) % 400);
}

/// Days since the Unix epoch to a civil date (Howard Hinnant's algorithm).
pub fn civil_from_days(days: i64) -> (r: (i64, u32, u32))
    requires
        days + 719_468 <= i64::MAX,
    ensures
        (r.0 as int, r.1 as int, r.2 as int) == civil_date(days as int),
        is_date((r.0 as int, r.1 as int, r.2 as int)),
        day_number((r.0 as int, r.1 as int, r.2 as int)) == days,
{
    // Shift the era so that it starts on 0000-03-01.
    let z: i64 = days + 719_468;
    let era: i64 = if z >= 0 {
        z / 146_097
    } else {
        -((146_096 - z) / 146_097)
    };
    let day_of_era: i64 = z - era * 146_097;
    proof {
        year_of_era_bounds(day_of_era as int);
        assert(days_before_year(1970) == 719_162);
    }
    let year_of_era: i64 = (day_of_era - day_of_era / 1460 + day_of_era / 36_524 - day_of_era
        / 146_096) / 365;
    let year: i64 = year_of_era + era * 400;
    let day_of_year: i64 = day_of_era - (365 * year_of_era + year_of_era / 4 - year_of_era / 100);
    proof {
        era_year_start(era as int, year_of_era as int);
        march_month_bounds(day_of_year as int);
        march_date(year as int, day_of_year as int);
    }
    let mp: i64 = (5 * day_of_year + 2) / 153;
    let day: u32 = (day_of_year - (153 * mp + 2) / 5 + 1) as u32;
    let month: u32 = if mp < 10 {
        (mp + 3) as u32
    } else {
        (mp - 9) as u32
    };
    let civil_year: i64 = if month <= 2 {
        year + 1
    } else {
        year
    };
    proof {
        civil_date_is((civil_year as int, month as int, day as int), days as int);
    }
    (civil_year, month, day)
}

/// Render a Unix timestamp as a UTC date.
///
/// Rendering in local time would need the system timezone database; UTC is
/// unambiguous and needs no dependency, so the label says so explicitly.
pub fn format_unix_utc(timestamp: u32) -> (r: String)
    ensures
        r@ == utc_text(timestamp),
{
    let days: i64 = (timestamp / 86_400) as i64;
    let time_of_day: u32 = timestamp % 86_400;
    let (year, month, day) = civil_from_days(days);
    proof {
        let date = (year as int, month as int, day as int);
        within_year(date);
        if year < 1970 {
            years_grow(year + 1, 1970);
        }
    }
    let hour: u32 = time_of_day / 3600;
    let minute: u32 = time_of_day % 3600 / 60;
    let mut s = String::new();
    text::push_padded(&mut s, year as u64, 4);
    s.append("-");
    text::push_padded(&mut s, month as u64, 2);
    s.append("-");
    text::push_padded(&mut s, day as u64, 2);
    s.append(" ");
    text::push_padded(&mut s, hour as u64, 2);
    s.append(":");
    text::push_padded(&mut s, minute as u64, 2);
    s.append(" UTC");
    s
}

/// Every number of days has its date.
pub proof fn every_day_has_a_date(days: int)
    ensures
        is_date(civil_date(days)),
        day_number(civil_date(days)) == days,
{
    let z = days + 719_468;
    let era = z / 146_097;
    let day_of_era = z - era * 146_097;
    year_of_era_bounds(day_of_era);
    assert(days_before_year(1970) == 719_162);
    let year_of_era = (day_of_era - day_of_era / 1460 + day_of_era / 36_524 - day_of_era / 146_096)
        / 365;
    let year = year_of_era + era * 400;
    let day_of_year = day_of_era - (365 * year_of_era + year_of_era / 4 - year_of_era / 100);
    era_year_start(era, year_of_era);
    march_month_bounds(day_of_year);
    march_date(year, day_of_year);
    let mp = (5 * day_of_year + 2) / 153;
    let month = if mp < 10 {
        mp + 3
    } else {
        mp - 9
    };
    let civil_year = if month <= 2 {
        year + 1
    } else {
        year
    };
    civil_date_is((civil_year, month, day_of_year - (153 * mp + 2) / 5 + 1), days);
}

/// Of two dates the one with the lesser number is the one in the earlier year,
/// else in the earlier month, else on the earlier day.
pub proof fn numbers_order_dates(a: (int, int, int), b: (int, int, int))
    requires
        is_date(a),
        is_date(b),
        day_number(a) < day_number(b),
    ensures
        a.0 < b.0 || a.0 == b.0 && (a.1 < b.1 || a.1 == b.1 && a.2 < b.2),
{
    within_year(a);
    within_year(b);
    if b.0 < a.0 {
        years_grow(b.0 + 1, a.0);
    }
    month_table(a.0);
}

proof fn label_parts(timestamp: u32)
    ensures
        ({
            let date = civil_date(timestamp as int / 86400);
            &&& is_date(date)
            &&& day_number(date) == timestamp as int / 86400
            &&& 1970 <= date.0 < text::ten_to(4)
            &&& date.1 < text::ten_to(2)
            &&& date.2 < text::ten_to(2)
            &&& text::ten_to(2) == 100
        }),
{
    let days = timestamp as int / 86400;
    every_day_has_a_date(days);
    let date = civil_date(days);
    within_year(date);
    if date.0 < 1970 {
        years_grow(date.0 + 1, 1970);
    }
    if date.0 > 9999 {
        years_grow(10_000, date.0);
    }
    assert(text::ten_to(2) == 100 && text::ten_to(4) == 10_000) by {
        reveal_with_fuel(text::ten_to, 5);
    }
}

/// Every label is 20 characters long.
pub proof fn labels_have_one_length(timestamp: u32)
    ensures
        utc_text(timestamp).len() == 20,
{
    label_parts(timestamp);
    let date = civil_date(timestamp as int / 86400);
    let second = timestamp as int % 86400;
    text::padded_decimal_parts(date.0 as nat, 4);
    text::padded_decimal_parts(date.1 as nat, 2);
    text::padded_decimal_parts(date.2 as nat, 2);
    text::padded_decimal_parts((second / 3600) as nat, 2);
    text::padded_decimal_parts((second % 3600 / 60) as nat, 2);
    reveal_strlit("-");
    reveal_strlit(" ");
    reveal_strlit(":");
    reveal_strlit(" UTC");
}

/// A label from its hour on.
spec fn clock_text(second: int) -> Seq<char> {
    text::padded_decimal((second / 3600) as nat, 2) + (":"@ + (text::padded_decimal(
        (second % 3600 / 60) as nat,
        2,
    ) + " UTC"@))
}

proof fn regrouped(a: Seq<char>, b: Seq<char>, c: Seq<char>)
    ensures
        (a + b) + c == a + (b + c),
{
    assert((a + b) + c =~= a + (b + c));
}

proof fn label_is(timestamp: u32)
    ensures
        ({
            let date = civil_date(timestamp as int / 86400);
            let second = timestamp as int % 86400;
            let year = text::padded_decimal(date.0 as nat, 4);
            let month = text::padded_decimal(date.1 as nat, 2);
            let day = text::padded_decimal(date.2 as nat, 2);
            utc_text(timestamp) == year + ("-"@ + (month + ("-"@ + (day + (" "@ + clock_text(
                second,
            ))))))
        }),
{
    let date = civil_date(timestamp as int / 86400);
    let second = timestamp as int % 86400;
    let year = text::padded_decimal(date.0 as nat, 4);
    let month = text::padded_decimal(date.1 as nat, 2);
    let day = text::padded_decimal(date.2 as nat, 2);
    let hour = text::padded_decimal((second / 3600) as nat, 2);
    let minute = text::padded_decimal((second % 3600 / 60) as nat, 2);
    let to_month = year + "-"@ + month;
    let to_day = to_month + "-"@ + day;
    let to_hour = to_day + " "@ + hour;
    let clock = clock_text(second);
    regrouped(to_hour + ":"@, minute, " UTC"@);
    regrouped(to_hour, ":"@, minute + " UTC"@);
    regrouped(to_day + " "@, hour, ":"@ + (minute + " UTC"@));
    regrouped(to_day, " "@, clock);
    regrouped(to_month + "-"@, day, " "@ + clock);
    regrouped(to_month, "-"@, day + (" "@ + clock));
    regrouped(year + "-"@, month, "-"@ + (day + (" "@ + clock)));
    regrouped(year, "-"@, month + ("-"@ + (day + (" "@ + clock))));
}

proof fn behind_the_month(year: Seq<char>, month: Seq<char>, rest: Seq<char>)
    ensures
        year + "-"@ + month + "-"@ + rest == year + ("-"@ + (month + ("-"@ + rest))),
{
    regrouped(year + "-"@ + month, "-"@, rest);
    regrouped(year + "-"@, month, "-"@ + rest);
    regrouped(year, "-"@, month + ("-"@ + rest));
}

proof fn behind_the_date(year: Seq<char>, month: Seq<char>, day: Seq<char>, rest: Seq<char>)
    ensures
        year + "-"@ + month + "-"@ + day + " "@ + rest == year + ("-"@ + (month + ("-"@ + (day + (
        " "@ + rest))))),
{
    regrouped(year + "-"@ + month + "-"@ + day, " "@, rest);
    regrouped(year + "-"@ + month + "-"@, day, " "@ + rest);
    behind_the_month(year, month, day + (" "@ + rest));
}

proof fn clocks_are_ordered(front: Seq<char>, a: int, b: int)
    requires
        0 <= a < 86400,
        0 <= b < 86400,
        a / 60 < b / 60,
    ensures
        text::at_most(front + clock_text(a), front + clock_text(b)),
        front + clock_text(a) != front + clock_text(b),
{
    assert(text::ten_to(2) == 100) by {
        reveal_with_fuel(text::ten_to, 3);
    }
    let hour_a = (a / 3600) as nat;
    let hour_b = (b / 3600) as nat;
    let minute_a = (a % 3600 / 60) as nat;
    let minute_b = (b % 3600 / 60) as nat;
    let rest_a = ":"@ + (text::padded_decimal(minute_a, 2) + " UTC"@);
    let rest_b = ":"@ + (text::padded_decimal(minute_b, 2) + " UTC"@);
    if hour_a < hour_b {
        text::padded_numbers_decide(front, hour_a, hour_b, 2, rest_a, rest_b);
    } else {
        assert(a / 60 == 60 * (a / 3600) + a % 3600 / 60);
        assert(b / 60 == 60 * (b / 3600) + b % 3600 / 60);
        let hour = text::padded_decimal(hour_a, 2);
        let more = front + hour + ":"@;
        let end_a = text::padded_decimal(minute_a, 2) + " UTC"@;
        let end_b = text::padded_decimal(minute_b, 2) + " UTC"@;
        text::padded_numbers_decide(more, minute_a, minute_b, 2, " UTC"@, " UTC"@);
        regrouped(front, hour, ":"@ + end_a);
        regrouped(front + hour, ":"@, end_a);
        regrouped(front, hour, ":"@ + end_b);
        regrouped(front + hour, ":"@, end_b);
    }
}

proof fn later_labels_follow(a: u32, b: u32)
    requires
        a as int / 60 < b as int / 60,
    ensures
        text::at_most(utc_text(a), utc_text(b)),
        utc_text(a) != utc_text(b),
{
    label_parts(a);
    label_parts(b);
    label_is(a);
    label_is(b);
    let da = civil_date(a as int / 86400);
    let db = civil_date(b as int / 86400);
    let sa = a as int % 86400;
    let sb = b as int % 86400;
    let year = text::padded_decimal(da.0 as nat, 4);
    let month = text::padded_decimal(da.1 as nat, 2);
    let day = text::padded_decimal(da.2 as nat, 2);
    let days_a = text::padded_decimal(da.2 as nat, 2) + (" "@ + clock_text(sa));
    let days_b = text::padded_decimal(db.2 as nat, 2) + (" "@ + clock_text(sb));
    let months_a = text::padded_decimal(da.1 as nat, 2) + ("-"@ + days_a);
    let months_b = text::padded_decimal(db.1 as nat, 2) + ("-"@ + days_b);
    if a as int / 86400 == b as int / 86400 {
        let front = year + "-"@ + month + "-"@ + day + " "@;
        behind_the_date(year, month, day, clock_text(sa));
        behind_the_date(year, month, day, clock_text(sb));
        assert(a as int / 60 == 1440 * (a as int / 86400) + sa / 60);
        assert(b as int / 60 == 1440 * (b as int / 86400) + sb / 60);
        clocks_are_ordered(front, sa, sb);
    } else {
        numbers_order_dates(da, db);
        if da.0 < db.0 {
            let none = Seq::<char>::empty();
            text::padded_numbers_decide(
                none,
                da.0 as nat,
                db.0 as nat,
                4,
                "-"@ + months_a,
                "-"@ + months_b,
            );
            assert(utc_text(a) =~= none + utc_text(a));
            assert(utc_text(b) =~= none + utc_text(b));
        } else if da.1 < db.1 {
            let front = year + "-"@;
            text::padded_numbers_decide(
                front,
                da.1 as nat,
                db.1 as nat,
                2,
                "-"@ + days_a,
                "-"@ + days_b,
            );
            regrouped(year, "-"@, months_a);
            regrouped(year, "-"@, months_b);
        } else {
            let front = year + "-"@ + month + "-"@;
            behind_the_month(year, month, days_a);
            behind_the_month(year, month, days_b);
            text::padded_numbers_decide(
                front,
                da.2 as nat,
                db.2 as nat,
                2,
                " "@ + clock_text(sa),
                " "@ + clock_text(sb),
            );
        }
    }
}

/// Labels are ordered as texts by the minute that they tell, and two are the same
/// only within a minute.
pub proof fn labels_are_ordered_by_minute(a: u32, b: u32)
    ensures
        text::at_most(utc_text(a), utc_text(b)) <==> a as int / 60 <= b as int / 60,
        utc_text(a) == utc_text(b) <==> a as int / 60 == b as int / 60,
{
    text::at_most_is_total(utc_text(a), utc_text(b));
    if a as int / 60 < b as int / 60 {
        later_labels_follow(a, b);
    } else if b as int / 60 < a as int / 60 {
        later_labels_follow(b, a);
    } else {
        let sa = a as int % 86400;
        let sb = b as int % 86400;
        assert(a as int / 86400 == (a as int / 60) / 1440);
        assert(b as int / 86400 == (b as int / 60) / 1440);
        assert(sa / 60 == (a as int / 60) - 1440 * (a as int / 86400));
        assert(sb / 60 == (b as int / 60) - 1440 * (b as int / 86400));
        assert(sa / 3600 == (sa / 60) / 60 && sb / 3600 == (sb / 60) / 60);
        assert(sa % 3600 / 60 == sa / 60 - 60 * (sa / 3600));
        assert(sb % 3600 / 60 == sb / 60 - 60 * (sb / 3600));
    }
}

/// The days are counted from the first of January 1970 on.
pub proof fn counting_begins_in_1970()
    ensures
        is_date((1970, 1, 1)),
        day_number((1970, 1, 1)) == 0,
        civil_date(0) == (1970int, 1int, 1int),
{
    month_table(1970);
    civil_date_is((1970, 1, 1), 0);
}

/// A moment is shown by its date and the time of day in hours and minutes, each with as
/// many digits as its place has.
pub proof fn moments_are_shown(
    timestamp: u32,
    date: (int, int, int),
    hour: int,
    minute: int,
    second: int,
)
    requires
        is_date(date),
        0 <= hour < 24,
        0 <= minute < 60,
        0 <= second < 60,
        timestamp == 86400 * day_number(date) + 3600 * hour + 60 * minute + second,
    ensures
        utc_text(timestamp) == text::padded_decimal(date.0 as nat, 4) + "-"@ + text::padded_decimal(
            date.1 as nat,
            2,
        ) + "-"@ + text::padded_decimal(date.2 as nat, 2) + " "@ + text::padded_decimal(
            hour as nat,
            2,
        ) + ":"@ + text::padded_decimal(minute as nat, 2) + " UTC"@,
{
    let days = day_number(date);
    let rest = 3600 * hour + 60 * minute + second;
    assert(timestamp as int / 86400 == days && timestamp as int % 86400 == rest);
    assert(rest / 3600 == hour && rest % 3600 / 60 == minute);
    civil_date_is(date, days);
}

/// Months have the days that they have: thirty in April, June, September and November, in
/// February twenty-eight, or twenty-nine in a leap year, and thirty-one in the others. A
/// leap year is every fourth, of the centuries every fourth.
pub proof fn months_have_their_days(year: int, month: int)
    requires
        1 <= month <= 12,
    ensures
        month_length(year, month) == 30 <==> month == 4 || month == 6 || month == 9 || month == 11,
        month_length(year, month) == 31 <==> month == 1 || month == 3 || month == 5 || month == 7
            || month == 8 || month == 10 || month == 12,
        month_length(year, 2) == 29 <==> is_leap(year),
        month_length(year, 2) == 28 <==> !is_leap(year),
        year % 4 != 0 ==> !is_leap(year),
        year % 4 == 0 && year % 100 != 0 ==> is_leap(year),
        year % 100 == 0 && year % 400 != 0 ==> !is_leap(year),
        year % 400 == 0 ==> is_leap(year),
{
}

} // verus!
