//! Calendar arithmetic on unix timestamps.
use vstd::prelude::*;
use crate::text::{decimal_digits, digit_char, push_char, push_decimal, push_padded, push_str, repeat_char, zero_padded};
use std::time::{Duration, SystemTime, UNIX_EPOCH};
use vstd::arithmetic::div_mod::lemma_fundamental_div_mod_converse;
use vstd::arithmetic::div_mod::lemma_fundamental_div_mod;

verus! {

// ----------------------------------------------------------------------
// The proleptic Gregorian calendar
// ----------------------------------------------------------------------

pub open spec fn is_leap_year(y: int) -> bool {
    y % 4 == 0 && (y % 100 != 0 || y % 400 == 0)
}

pub open spec fn days_in_month(y: int, m: int) -> int {
    if m == 2 {
        if is_leap_year(y) { 29 } else { 28 }
    } else if m == 4 || m == 6 || m == 9 || m == 11 {
        30
    } else {
        31
    }
}

/// Number of leap years `x` with `0 < x <= y` (negative for `y < 0`,
/// counting down from zero).
pub open spec fn leap_years_through(y: int) -> int {
    y / 4 - y / 100 + y / 400
}

/// Days of year `y` that precede the first day of month `m` (`1 <= m <= 12`).
pub open spec fn days_before_month(y: int, m: int) -> int {
    let leap: int = if is_leap_year(y) { 1 } else { 0 };
    if m <= 1 { 0 }
    else if m == 2 { 31 }
    else if m == 3 { 59 + leap }
    else if m == 4 { 90 + leap }
    else if m == 5 { 120 + leap }
    else if m == 6 { 151 + leap }
    else if m == 7 { 181 + leap }
    else if m == 8 { 212 + leap }
    else if m == 9 { 243 + leap }
    else if m == 10 { 273 + leap }
    else if m == 11 { 304 + leap }
    else { 334 + leap }
}

/// Days from 1970-01-01 to the date `y-m-d` (negative before it).
pub open spec fn days_from_civil(y: int, m: int, d: int) -> int {
    365 * (y - 1970) + (leap_years_through(y - 1) - leap_years_through(1969))
        + days_before_month(y, m) + (d - 1)
}

pub open spec fn is_valid_date(y: int, m: int, d: int) -> bool {
    1 <= m <= 12 && 1 <= d <= days_in_month(y, m)
}

/// The table of month lengths agrees with `days_in_month`.
pub proof fn lemma_days_before_month_step(y: int, m: int)
    requires
        1 <= m < 12,
    ensures
        days_before_month(y, m + 1) == days_before_month(y, m) + days_in_month(y, m),
{
}

/// Each year is 365 days long, 366 when it is a leap year.
pub proof fn lemma_year_length(y: int)
    ensures
        days_from_civil(y + 1, 1, 1) - days_from_civil(y, 1, 1) == if is_leap_year(y) {
            366int
        } else {
            365int
        },
{
    lemma_leap_years_step(y);
}

/// `leap_years_through` grows by one exactly at leap years.
proof fn lemma_leap_years_step(y: int)
    ensures
        leap_years_through(y) - leap_years_through(y - 1) == if is_leap_year(y) {
            1int
        } else {
            0int
        },
{
    lemma_div_step(y, 4);
    lemma_div_step(y, 100);
    lemma_div_step(y, 400);
    lemma_fundamental_div_mod(y, 4);
    lemma_fundamental_div_mod(y, 100);
    lemma_fundamental_div_mod(y, 400);
    // 100 | y and 400 | y imply 4 | y
    if y % 100 == 0 {
        lemma_fundamental_div_mod_converse(y, 4, 25 * (y / 100), 0);
    }
    if y % 400 == 0 {
        lemma_fundamental_div_mod_converse(y, 100, 4 * (y / 400), 0);
    }
}

/// `y / d - (y - 1) / d` is 1 when `d` divides `y`, else 0.
proof fn lemma_div_step(y: int, d: int)
    requires
        d > 0,
    ensures
        y / d - (y - 1) / d == if y % d == 0 { 1int } else { 0int },
{
    lemma_fundamental_div_mod(y, d);
    let q = y / d;
    let r = y % d;
    assert((q - 1) * d == q * d - d) by (nonlinear_arith);
    assert(q * d == d * q) by (nonlinear_arith);
    if r == 0 {
        lemma_fundamental_div_mod_converse(y - 1, d, q - 1, d - 1);
    } else {
        lemma_fundamental_div_mod_converse(y - 1, d, q, r - 1);
    }
}

/// Later years start later: by at least a year's 365 days each.
proof fn lemma_year_starts_increase(y1: int, y2: int)
    requires
        y1 < y2,
    ensures
        days_from_civil(y1, 1, 1) + 365 * (y2 - y1) <= days_from_civil(y2, 1, 1),
    decreases y2 - y1,
{
    lemma_year_length(y1);
    if y1 + 1 < y2 {
        lemma_year_starts_increase(y1 + 1, y2);
    }
}

/// A valid date lies within its year: on or after its first day, before
/// the first day of the next.
proof fn lemma_date_within_year(y: int, m: int, d: int)
    requires
        is_valid_date(y, m, d),
    ensures
        days_from_civil(y, 1, 1) <= days_from_civil(y, m, d) < days_from_civil(y + 1, 1, 1),
{
    lemma_year_length(y);
}

/// Within a year, an earlier month ends before a later one starts.
proof fn lemma_months_in_order(y: int, m1: int, d1: int, m2: int, d2: int)
    requires
        is_valid_date(y, m1, d1),
        is_valid_date(y, m2, d2),
        m1 < m2,
    ensures
        days_from_civil(y, m1, d1) < days_from_civil(y, m2, d2),
{
}

/// Different valid dates fall on different days.
pub proof fn law_days_from_civil_is_one_to_one(y1: int, m1: int, d1: int, y2: int, m2: int, d2: int)
    requires
        is_valid_date(y1, m1, d1),
        is_valid_date(y2, m2, d2),
        days_from_civil(y1, m1, d1) == days_from_civil(y2, m2, d2),
    ensures
        y1 == y2,
        m1 == m2,
        d1 == d2,
{
    lemma_date_within_year(y1, m1, d1);
    lemma_date_within_year(y2, m2, d2);
    if y1 < y2 {
        lemma_year_starts_increase(y1 + 1, y2 + 1);
        if y1 + 1 < y2 {
            lemma_year_starts_increase(y1 + 1, y2);
        }
    } else if y2 < y1 {
        if y2 + 1 < y1 {
            lemma_year_starts_increase(y2 + 1, y1);
        }
    }
    if y1 == y2 {
        if m1 < m2 {
            lemma_months_in_order(y1, m1, d1, m2, d2);
        } else if m2 < m1 {
            lemma_months_in_order(y1, m2, d2, m1, d1);
        }
    }
}

/// The calendar reading of an instant in a given day and second names
/// that day and that second: a valid date, at any second of it, reads
/// back as itself.
pub proof fn law_calendar_reading_round_trip(date: Date, y: int, m: int, d: int, s: int)
    requires
        is_valid_date(y, m, d),
        0 <= s < 86400,
        is_date_of(date, days_from_civil(y, m, d) * 86400 + s),
    ensures
        date.year == y as u32,
        date.month == m,
        date.day_of_month == d,
        date.hour == s / 3600,
        date.minute == (s / 60) % 60,
        date.second == s % 60,
{
    let t = days_from_civil(y, m, d) * 86400 + s;
    lemma_fundamental_div_mod_converse(t, 86400, days_from_civil(y, m, d), s);
    let y2 = choose|y2: int|
        #![trigger days_from_civil(y2, date.month as int, date.day_of_month as int)]
        date.year == y2 as u32 && is_valid_date(y2, date.month as int, date.day_of_month as int)
            && days_from_civil(y2, date.month as int, date.day_of_month as int) == t / 86400;
    law_days_from_civil_is_one_to_one(y, m, d, y2, date.month as int, date.day_of_month as int);
}

// ----------------------------------------------------------------------
// Dates
// ----------------------------------------------------------------------

/// A calendar reading of a unix timestamp, in UTC.
#[derive(Debug, Clone)]
pub struct Date {
    pub year: u32,
    pub month: u32,
    pub day_of_month: u32,
    /// 0 is Sunday.
    pub day_of_week: u32,
    pub hour: u32,
    pub minute: u32,
    pub second: u32,
}

/// `date` is the UTC calendar reading of the instant `t` seconds after
/// 1970-01-01T00:00:00Z; the year is kept modulo 2^32, as `u32` holds it.
pub open spec fn is_date_of(date: Date, t: int) -> bool {
    let days = t / 86400;
    let secs = t % 86400;
    &&& exists|y: int|
        #![trigger days_from_civil(y, date.month as int, date.day_of_month as int)]
        date.year == y as u32 && is_valid_date(y, date.month as int, date.day_of_month as int)
            && days_from_civil(y, date.month as int, date.day_of_month as int) == days
    &&& date.day_of_week == (days + 4) % 7
    &&& date.hour == secs / 3600
    &&& date.minute == (secs / 60) % 60
    &&& date.second == secs % 60
}

/// "YYYY-MM-DD", each field zero-padded.
pub open spec fn ymd_text(year: nat, month: nat, day: nat) -> Seq<char> {
    zero_padded(year, 4) + seq!['-'] + zero_padded(month, 2) + seq!['-'] + zero_padded(day, 2)
}

impl Date {
    pub fn ymd(&self) -> (r: String)
        ensures
            r@ == ymd_text(self.year as nat, self.month as nat, self.day_of_month as nat),
    {
        let mut out = String::new();
        push_padded(&mut out, self.year as u64, 4);
        push_char(&mut out, '-');
        push_padded(&mut out, self.month as u64, 2);
        push_char(&mut out, '-');
        push_padded(&mut out, self.day_of_month as u64, 2);
        out
    }
}

/// Floor division and its non-negative remainder.
fn floor_divmod(a: i64, b: i64) -> (res: (i64, i64))
    requires
        b > 0,
    ensures
        res.0 == a / b,
        res.1 == a % b,
{
    if a >= 0 {
        let q = a / b;
        let r = a % b;
        proof {
            lemma_fundamental_div_mod(a as int, b as int);
        }
        (q, r)
    } else {
        let p: i64 = -(a + 1);
        let qp = p / b;
        let rp = p % b;
        proof {
            lemma_fundamental_div_mod(p as int, b as int);
            assert(b * qp <= p) by (nonlinear_arith)
                requires
                    p == b * qp + rp,
                    0 <= rp,
            ;
            assert(qp >= 0) by (nonlinear_arith)
                requires
                    p >= 0,
                    b > 0,
                    qp == p / b,
            ;
            assert((-qp - 1) * b + (b - 1 - rp) == a) by (nonlinear_arith)
                requires
                    p == b * qp + rp,
                    a == -p - 1,
            ;
            lemma_fundamental_div_mod_converse(a as int, b as int, -qp - 1, b - 1 - rp);
        }
        (-qp - 1, b - 1 - rp)
    }
}

/// Length of the `k`-th month of a year that starts in March (`k = 0` is
/// March, `k = 11` is February, taken at its longest).
pub open spec fn march_month_len(k: int) -> int {
    if k == 11 { 29 }
    else if k == 1 || k == 3 || k == 6 || k == 8 { 30 }
    else { 31 }
}

/// Days in the first `k` months of a year that starts in March.
pub open spec fn march_days_before(k: int) -> int
    decreases k,
{
    if k <= 0 { 0 } else { march_days_before(k - 1) + march_month_len(k - 1) }
}

fn month_len_from_march(k: i64) -> (r: i64)
    ensures
        r == march_month_len(k as int),
{
    if k == 11 {
        29
    } else if k == 1 || k == 3 || k == 6 || k == 8 {
        30
    } else {
        31
    }
}

/// March 1 of year `2000 + 400 qc + 100 c + 4 q + r` falls `11017 + 146097 qc
/// + 36524 c + 1461 q + 365 r` days after the epoch.
proof fn lemma_march_first(qc: int, c: int, q: int, r: int)
    requires
        0 <= c <= 3,
        0 <= q <= 24,
        0 <= r <= 3,
    ensures
        days_from_civil(2000 + 400 * qc + 100 * c + 4 * q + r, 3, 1) == 11017 + 146097 * qc
            + 36524 * c + 1461 * q + 365 * r,
{
    let y = 2000 + 400 * qc + 100 * c + 4 * q + r;
    lemma_leap_years_step(y);
    lemma_fundamental_div_mod_converse(y, 4, 500 + 100 * qc + 25 * c + q, r);
    lemma_fundamental_div_mod_converse(y, 100, 20 + 4 * qc + c, 4 * q + r);
    lemma_fundamental_div_mod_converse(y, 400, 5 + qc, 100 * c + 4 * q + r);
    lemma_leap_years_1969();
}

proof fn lemma_leap_years_1969()
    ensures
        leap_years_through(1969) == 477,
{
    lemma_fundamental_div_mod_converse(1969, 4, 492, 1);
    lemma_fundamental_div_mod_converse(1969, 100, 19, 69);
    lemma_fundamental_div_mod_converse(1969, 400, 4, 369);
}

/// Where in the calendar day `days` (counted from 1970-01-01) falls.
proof fn lemma_civil_of_march_year(qc: int, c: int, q: int, r: int, k: int, d: int)
    requires
        0 <= c <= 3,
        0 <= q <= 24,
        0 <= r <= 3,
        0 <= k <= 11,
        0 <= d,
    ensures
        ({
            let y = 2000 + 400 * qc + 100 * c + 4 * q + r;
            let start = 11017 + 146097 * qc + 36524 * c + 1461 * q + 365 * r;
            &&& k < 10 ==> days_from_civil(y, k + 3, d + 1) == start + march_days_before(k) + d
            &&& k >= 10 ==> days_from_civil(y + 1, k - 9, d + 1) == start + march_days_before(k) + d
        }),
{
    let y = 2000 + 400 * qc + 100 * c + 4 * q + r;
    lemma_march_first(qc, c, q, r);
    lemma_leap_years_step(y);
    lemma_leap_years_step(y + 1);
    reveal_with_fuel(march_days_before, 12);
}

/// `d0` days after 2000-03-01 lie `qc` 400-year cycles, `c` centuries,
/// `q` four-year cycles, `r` years and `rd` days further on, each period
/// starting on March 1.
pub open spec fn is_cycle_split(d0: int, qc: int, c: int, q: int, r: int, rd: int) -> bool {
    &&& 0 <= c <= 3
    &&& 0 <= q <= 24
    &&& 0 <= r <= 3
    &&& 0 <= rd <= 365
    &&& d0 == 146097 * qc + 36524 * c + 1461 * q + 365 * r + rd
    &&& rd == 365 ==> r == 3 && (q < 24 || c == 3)
}

fn split_cycles(d0: i64) -> (res: (i64, i64, i64, i64, i64))
    requires
        -200000000000000 <= d0 <= 200000000000000,
    ensures
        is_cycle_split(d0 as int, res.0 as int, res.1 as int, res.2 as int, res.3 as int, res.4 as int),
        -2000000000 <= res.0 <= 2000000000,
{
    let (qc_cycles, rem400) = floor_divmod(d0, 146097);
    proof {
        lemma_fundamental_div_mod(d0 as int, 146097);
    }
    let mut c_cycles: i64 = rem400 / 36524;
    if c_cycles == 4 {
        c_cycles = 3;
    }
    let rem100: i64 = rem400 - c_cycles * 36524;
    let mut q_cycles: i64 = rem100 / 1461;
    if q_cycles == 25 {
        q_cycles = 24;
    }
    let rem4: i64 = rem100 - q_cycles * 1461;
    let mut remyears: i64 = rem4 / 365;
    if remyears == 4 {
        remyears = 3;
    }
    let remdays0: i64 = rem4 - remyears * 365;
    (qc_cycles, c_cycles, q_cycles, remyears, remdays0)
}

/// The calendar reading of a unix timestamp (UTC).
pub fn secs_to_date(unixtime: u64) -> (date: Date)
    ensures
        is_date_of(date, (unixtime as i64) as int),
{
    let t: i64 = unixtime as i64;
    let (days, remsecs) = floor_divmod(t, 86400);
    proof {
        lemma_fundamental_div_mod(t as int, 86400);
    }
    // days since 2000-03-01, the day after a 400-year cycle's leap day
    let d0: i64 = days - 11017;
    let (wday0, wday) = floor_divmod(d0 + 3, 7);
    let (qc_cycles, c_cycles, q_cycles, remyears, remdays0) = split_cycles(d0);
    let mut years: i64 = remyears + 4 * q_cycles + 100 * c_cycles + 400 * qc_cycles;
    let mut months: i64 = 0;
    let mut remdays: i64 = remdays0;
    while month_len_from_march(months) <= remdays
        invariant
            0 <= months <= 11,
            0 <= remdays,
            remdays0 <= 365,
            remdays0 == remdays + march_days_before(months as int),
        decreases remdays,
    {
        proof {
            reveal_with_fuel(march_days_before, 13);
        }
        remdays = remdays - month_len_from_march(months);
        months = months + 1;
    }
    let ghost y0: int = 2000 + years;
    let month: i64;
    if months >= 10 {
        month = months - 9;
        years = years + 1;
    } else {
        month = months + 3;
    }
    let ghost y: int = years + 2000;
    proof {
        lemma_date_of_split(d0 as int, qc_cycles as int, c_cycles as int, q_cycles as int,
            remyears as int, remdays0 as int, months as int, remdays as int);
    }
    let date = Date {
        year: (years + 2000) as u32,
        month: month as u32,
        day_of_month: (remdays + 1) as u32,
        day_of_week: wday as u32,
        hour: (remsecs / 3600) as u32,
        minute: ((remsecs / 60) % 60) as u32,
        second: (remsecs % 60) as u32,
    };
    proof {
        assert(days_from_civil(y, date.month as int, date.day_of_month as int) == days);
        lemma_fundamental_div_mod_converse(days + 4, 7, wday0 + 1574, wday as int);
    }
    date
}

/// The month loop's result names a valid date with the right day count.
proof fn lemma_date_of_split(d0: int, qc: int, c: int, q: int, r: int, rd0: int, k: int, rd: int)
    requires
        is_cycle_split(d0, qc, c, q, r, rd0),
        0 <= k <= 11,
        0 <= rd < march_month_len(k),
        rd0 == rd + march_days_before(k),
    ensures
        ({
            let y0 = 2000 + 400 * qc + 100 * c + 4 * q + r;
            &&& k < 10 ==> days_from_civil(y0, k + 3, rd + 1) == d0 + 11017
                && is_valid_date(y0, k + 3, rd + 1)
            &&& k >= 10 ==> days_from_civil(y0 + 1, k - 9, rd + 1) == d0 + 11017
                && is_valid_date(y0 + 1, k - 9, rd + 1)
        }),
{
    let y0 = 2000 + 400 * qc + 100 * c + 4 * q + r;
    lemma_civil_of_march_year(qc, c, q, r, k, rd);
    reveal_with_fuel(march_days_before, 13);
    if k == 11 {
        // February: its 29th day exists only in leap years
        if r == 3 {
            lemma_fundamental_div_mod_converse(y0 + 1, 4, 500 + 100 * qc + 25 * c + q + 1, 0);
            if q < 24 {
                lemma_fundamental_div_mod_converse(y0 + 1, 100, 20 + 4 * qc + c, 4 * q + 4);
            } else if c == 3 {
                lemma_fundamental_div_mod_converse(y0 + 1, 400, 6 + qc, 0);
            }
        }
    }
}

// ----------------------------------------------------------------------
// Relative times
// ----------------------------------------------------------------------

/// Seconds in a mean solar year.
pub const SOLAR_YEAR_SECS: u64 = 31556926;

/// The count and unit that describe an age of `diff` seconds.
pub open spec fn age_amount_and_unit(diff: nat) -> (nat, Seq<char>) {
    if diff < 60 {
        (diff, "second"@)
    } else if diff < 60 * 60 {
        (diff / 60, "minute"@)
    } else if diff < 60 * 60 * 24 {
        (diff / (60 * 60), "hour"@)
    } else if diff < SOLAR_YEAR_SECS * 2 {
        (diff / (60 * 60 * 24), "day"@)
    } else {
        ((diff / SOLAR_YEAR_SECS as nat) * 2, "year"@)
    }
}

/// How long before `now` the instant `unixtime` lies, in words:
/// "1 minute ago", "3 days ago", or "in the future".
pub open spec fn timeago_text(unixtime: nat, now: nat) -> Seq<char> {
    if unixtime > now {
        "in the future"@
    } else {
        let (amount, unit) = age_amount_and_unit((now - unixtime) as nat);
        decimal_digits(amount) + " "@ + unit + (if amount == 1 { Seq::empty() } else { "s"@ }) + " ago"@
    }
}

/// An age reads "in the future" exactly when the instant lies after now;
/// otherwise it starts with its count.
pub proof fn law_future_times_read_as_future(unixtime: nat, now: nat)
    ensures
        (timeago_text(unixtime, now) == "in the future"@) <==> unixtime > now,
        unixtime <= now ==> '0' <= timeago_text(unixtime, now)[0] <= '9',
{
    reveal_strlit("in the future");
    if unixtime <= now {
        let (amount, unit) = age_amount_and_unit((now - unixtime) as nat);
        lemma_decimal_digits_are_digits(amount);
        let t = timeago_text(unixtime, now);
        assert(decimal_digits(amount).len() > 0);
        assert(t[0] == decimal_digits(amount)[0]);
        assert(t[0] != "in the future"@[0]);
    }
}

/// The decimal text of a positive number does not start with '0'.
proof fn lemma_positive_decimal_leads_nonzero(n: nat)
    requires
        n >= 1,
    ensures
        decimal_digits(n).len() > 0,
        decimal_digits(n)[0] != '0',
    decreases n,
{
    if n < 10 {
        assert(digit_char(n) as int == 48 + n);
    } else {
        lemma_positive_decimal_leads_nonzero(n / 10);
    }
}

/// An age of an hour or more but under a day reads in whole hours: the
/// number of hours, then " hour ago" or " hours ago".
pub proof fn law_ages_within_a_day_read_in_hours(unixtime: nat, now: nat)
    requires
        unixtime <= now,
        3600 <= now - unixtime < 86400,
    ensures
        timeago_text(unixtime, now) == decimal_digits(((now - unixtime) / 3600) as nat) + (if (now
            - unixtime) / 3600 == 1 {
            " hour ago"@
        } else {
            " hours ago"@
        }),
        (now - unixtime) / 3600 >= 1,
{
    reveal_strlit(" hour ago");
    reveal_strlit(" hours ago");
    reveal_strlit(" ");
    reveal_strlit("hour");
    reveal_strlit("s");
    reveal_strlit(" ago");
    let d = decimal_digits(((now - unixtime) / 3600) as nat);
    if (now - unixtime) / 3600 == 1 {
        assert(timeago_text(unixtime, now) =~= d + " hour ago"@);
    } else {
        assert(timeago_text(unixtime, now) =~= d + " hours ago"@);
    }
}

/// The count of an age of a minute or more is never zero: its text does
/// not start with '0'. Under a minute the count is the seconds.
pub proof fn law_age_counts_are_never_zero(unixtime: nat, now: nat)
    requires
        unixtime <= now,
    ensures
        now - unixtime >= 60 ==> timeago_text(unixtime, now)[0] != '0',
        now - unixtime < 60 ==> timeago_text(unixtime, now).take(
            decimal_digits((now - unixtime) as nat).len() as int,
        ) == decimal_digits((now - unixtime) as nat),
{
    let diff = (now - unixtime) as nat;
    let (amount, unit) = age_amount_and_unit(diff);
    let t = timeago_text(unixtime, now);
    let d = decimal_digits(amount);
    if diff >= 60 {
        if diff < 3600 {
            assert(amount == diff / 60);
        } else if diff < 86400 {
            assert(amount == diff / 3600);
        } else if diff < 2 * 31556926 {
            assert(amount == diff / 86400);
        } else {
            assert(diff / 31556926 >= 2);
        }
        assert(amount >= 1);
        lemma_positive_decimal_leads_nonzero(amount);
        assert(t[0] == d[0]);
    } else {
        assert(amount == diff);
        assert(t.take(d.len() as int) =~= d);
    }
}

/// How long before `now` the instant `unixtime` lies, in words.
pub fn timeago_at(unixtime: u64, now: u64) -> (r: String)
    ensures
        r@ == timeago_text(unixtime as nat, now as nat),
{
    if unixtime > now {
        let mut out = String::new();
        push_str(&mut out, "in the future");
        return out;
    }
    let diff = now - unixtime;
    let amount: u64;
    let metric: &str;
    if diff < 60 {
        amount = diff;
        metric = "second";
    } else if diff < 60 * 60 {
        amount = diff / 60;
        metric = "minute";
    } else if diff < 60 * 60 * 24 {
        amount = diff / (60 * 60);
        metric = "hour";
    } else if diff < SOLAR_YEAR_SECS * 2 {
        amount = diff / (60 * 60 * 24);
        metric = "day";
    } else {
        amount = diff / SOLAR_YEAR_SECS * 2;
        metric = "year";
    }
    let mut out = String::new();
    push_decimal(&mut out, amount);
    push_str(&mut out, " ");
    push_str(&mut out, metric);
    if amount != 1 {
        push_str(&mut out, "s");
    }
    push_str(&mut out, " ago");
    assert(out@ =~= timeago_text(unixtime as nat, now as nat));
    out
}

/// Reads the system clock (`SystemTime::now`).
#[verifier::external_body]
fn system_now() -> SystemTime {
    SystemTime::now()
}

/// The time from the unix epoch to `t` (`SystemTime::duration_since`), or
/// `None` when `t` lies before the epoch.
#[verifier::external_body]
fn since_epoch(t: SystemTime) -> Option<Duration> {
    t.duration_since(UNIX_EPOCH).ok()
}

/// The whole seconds of `d` (`Duration::as_secs`).
#[verifier::external_body]
fn whole_seconds(d: Duration) -> u64 {
    d.as_secs()
}

/// Whole seconds from the unix epoch to `t`, or `None` when `t` lies
/// before the epoch.
fn seconds_since_epoch(t: SystemTime) -> (r: Option<u64>) {
    match since_epoch(t) {
        Some(d) => Some(whole_seconds(d)),
        None => None,
    }
}

/// Seconds since the unix epoch by the system clock; `None` when it reads
/// a time before 1970.
pub fn clock_seconds() -> (r: Option<u64>) {
    seconds_since_epoch(system_now())
}

/// How long ago the instant `unixtime` lies, by the system clock; `None`
/// when the clock reads a time before 1970.
pub fn timeago(unixtime: u64) -> (r: Option<String>)
    ensures
        r matches Some(text) ==> exists|now: nat| text@ == timeago_text(unixtime as nat, now),
{
    match clock_seconds() {
        Some(now) => Some(timeago_at(unixtime, now)),
        None => None,
    }
}

#[verifier::external_type_specification]
#[verifier::external_body]
pub struct ExSystemTime(SystemTime);

// ----------------------------------------------------------------------
// Dates as written in mail headers
// ----------------------------------------------------------------------

/// A date and time as a mail header states it, with the sender's offset
/// from UTC (the fields of `mail_parser::DateTime`).
#[derive(Debug, Clone, Copy, PartialEq, Eq)]
pub struct MailDate {
    pub year: u16,
    pub month: u8,
    pub day: u8,
    pub hour: u8,
    pub minute: u8,
    pub second: u8,
    pub tz_before_gmt: bool,
    pub tz_hour: u8,
    pub tz_minute: u8,
}

/// 1970-01-01T00:00:00Z.
pub open spec fn spec_epoch() -> MailDate {
    MailDate {
        year: 1970,
        month: 1,
        day: 1,
        hour: 0,
        minute: 0,
        second: 0,
        tz_before_gmt: false,
        tz_hour: 0,
        tz_minute: 0,
    }
}

/// Seconds from the unix epoch to the local reading of `d`, ignoring its
/// offset (March-based day count, months before March belonging to the
/// previous year).
pub open spec fn local_timestamp(d: MailDate) -> int {
    march_based_days(d.year as int, d.month as int, d.day as int) * 86400 + d.hour * 3600
        + d.minute * 60 + d.second
}

/// The day number of `y-m-d` counted in years that start on March 1
/// (January and February belong to the year before), with the first of
/// those years 4800 years before year 0, shifted so that 1970-01-01 is
/// day 0. For a month from 1 to 12 this is `days_from_civil` (see
/// `lemma_march_based_days_is_civil`).
pub open spec fn march_based_days(y: int, m: int, d: int) -> int {
    let carry: int = if m < 3 { 1 } else { 0 };
    let march_month: int = if m >= 3 { m - 3 } else { m + 9 };
    let y_adj: int = y + 4800 - carry;
    let month_days: int = (march_month * 62719 + 769) / 2048;
    y_adj * 365 + leap_years_through(y_adj) + month_days + (d - 1) - 2472632
}

/// Shifting a year by 4800 (twelve 400-year cycles) adds 1164 leap years.
proof fn lemma_leap_years_shift(x: int)
    ensures
        leap_years_through(x + 4800) == leap_years_through(x) + 1164,
{
    lemma_fundamental_div_mod(x, 4);
    lemma_fundamental_div_mod(x, 100);
    lemma_fundamental_div_mod(x, 400);
    lemma_fundamental_div_mod_converse(x + 4800, 4, x / 4 + 1200, x % 4);
    lemma_fundamental_div_mod_converse(x + 4800, 100, x / 100 + 48, x % 100);
    lemma_fundamental_div_mod_converse(x + 4800, 400, x / 400 + 12, x % 400);
}

/// For a month from 1 to 12, the March-based day number is the number of
/// days from 1970-01-01 in the proleptic Gregorian calendar.
pub proof fn lemma_march_based_days_is_civil(y: int, m: int, d: int)
    requires
        1 <= m <= 12,
    ensures
        march_based_days(y, m, d) == days_from_civil(y, m, d),
{
    let carry: int = if m < 3 { 1 } else { 0 };
    lemma_leap_years_shift(y - carry);
    lemma_leap_years_step(y);
    lemma_leap_years_1969();
    if m == 1 {
        assert((10 * 62719 + 769) / 2048 == 306);
    } else if m == 2 {
        assert((11 * 62719 + 769) / 2048 == 337);
    } else if m == 3 {
        assert((0 * 62719 + 769) / 2048 == 0);
    } else if m == 4 {
        assert((1 * 62719 + 769) / 2048 == 31);
    } else if m == 5 {
        assert((2 * 62719 + 769) / 2048 == 61);
    } else if m == 6 {
        assert((3 * 62719 + 769) / 2048 == 92);
    } else if m == 7 {
        assert((4 * 62719 + 769) / 2048 == 122);
    } else if m == 8 {
        assert((5 * 62719 + 769) / 2048 == 153);
    } else if m == 9 {
        assert((6 * 62719 + 769) / 2048 == 184);
    } else if m == 10 {
        assert((7 * 62719 + 769) / 2048 == 214);
    } else if m == 11 {
        assert((8 * 62719 + 769) / 2048 == 245);
    } else {
        assert((9 * 62719 + 769) / 2048 == 275);
    }
}

/// Seconds from the unix epoch to the instant `d` names.
pub open spec fn mail_timestamp(d: MailDate) -> int {
    local_timestamp(d) + (d.tz_hour * 3600 + d.tz_minute * 60) * (if d.tz_before_gmt {
        1int
    } else {
        -1int
    })
}

/// Every timestamp of a mail date fits in an `i64`, with room to spare.
pub proof fn lemma_mail_timestamp_fits(d: MailDate)
    ensures
        -0x100000000000 < mail_timestamp(d) < 0x100000000000,
{
    let carry: int = if d.month < 3 { 1 } else { 0 };
    let march_month: int = if d.month >= 3 { d.month - 3 } else { d.month + 9 };
    let y_adj: int = d.year + 4800 - carry;
    let month_days: int = (march_month * 62719 + 769) / 2048;
    let leap_days: int = y_adj / 4 - y_adj / 100 + y_adj / 400;
    assert(0 <= month_days <= 10000) by (nonlinear_arith)
        requires
            0 <= march_month <= 300,
            month_days == (march_month * 62719 + 769) / 2048,
    ;
    assert(0 <= leap_days <= 100000) by (nonlinear_arith)
        requires
            4799 <= y_adj <= 70335,
            leap_days == y_adj / 4 - y_adj / 100 + y_adj / 400,
    ;
    let days: int = y_adj * 365 + leap_days + month_days + (d.day - 1) - 2472632;
    assert(-10000000 < days < 100000000);
    assert(-0x100000000000 < days * 86400 < 0x100000000000 - 10000000) by (nonlinear_arith)
        requires
            -10000000 < days < 100000000,
    ;
    assert(local_timestamp(d) == days * 86400 + d.hour * 3600 + d.minute * 60 + d.second);
    let offset: int = d.tz_hour * 3600 + d.tz_minute * 60;
    assert(0 <= offset <= 1000000);
    if d.tz_before_gmt {
        assert(offset * 1int == offset);
    } else {
        assert(offset * -1int == -offset);
    }
}

proof fn lemma_digit_char_is_digit(d: nat)
    requires
        d < 10,
    ensures
        '0' <= digit_char(d) <= '9',
{
    assert(digit_char(d) as int == 48 + d);
}

proof fn lemma_decimal_digits_are_digits(n: nat)
    ensures
        forall|i: int|
            0 <= i < decimal_digits(n).len() ==> '0' <= #[trigger] decimal_digits(n)[i] <= '9',
    decreases n,
{
    lemma_digit_char_is_digit(n % 10);
    if n >= 10 {
        lemma_decimal_digits_are_digits(n / 10);
        let p = decimal_digits(n / 10);
        assert(decimal_digits(n) == p.push(digit_char(n % 10)));
        assert forall|i: int| 0 <= i < decimal_digits(n).len() implies '0'
            <= #[trigger] decimal_digits(n)[i] <= '9' by {
            if i < p.len() {
                assert(decimal_digits(n)[i] == p[i]);
            }
        }
    } else {
        lemma_digit_char_is_digit(n);
    }
}

proof fn lemma_zero_padded_are_digits(n: nat, width: nat)
    ensures
        forall|i: int|
            0 <= i < zero_padded(n, width).len() ==> '0' <= #[trigger] zero_padded(n, width)[i]
                <= '9',
{
    lemma_decimal_digits_are_digits(n);
    let d = decimal_digits(n);
    if d.len() < width {
        let pad = repeat_char('0', (width - d.len()) as nat);
        assert forall|i: int| 0 <= i < zero_padded(n, width).len() implies '0'
            <= #[trigger] zero_padded(n, width)[i] <= '9' by {
            if i < pad.len() {
                assert(zero_padded(n, width)[i] == pad[i]);
            } else {
                assert(zero_padded(n, width)[i] == d[i - pad.len()]);
            }
        }
    }
}

proof fn lemma_ymd_has_no_t(year: nat, month: nat, day: nat)
    ensures
        forall|i: int|
            0 <= i < ymd_text(year, month, day).len() ==> #[trigger] ymd_text(year, month, day)[i]
                != 'T',
{
    let y = zero_padded(year, 4);
    let m = zero_padded(month, 2);
    let dd = zero_padded(day, 2);
    lemma_zero_padded_are_digits(year, 4);
    lemma_zero_padded_are_digits(month, 2);
    lemma_zero_padded_are_digits(day, 2);
    let ymd = ymd_text(year, month, day);
    assert forall|i: int| 0 <= i < ymd.len() implies #[trigger] ymd[i] != 'T' by {
        if i < y.len() {
            assert(ymd[i] == y[i]);
        } else if i == y.len() {
            assert(ymd[i] == '-');
        } else if i < y.len() + 1 + m.len() {
            assert(ymd[i] == m[i - y.len() - 1]);
        } else if i == y.len() + 1 + m.len() {
            assert(ymd[i] == '-');
        } else {
            assert(ymd[i] == dd[i - y.len() - 2 - m.len()]);
        }
    }
}

/// What an RFC 3339 text holds after its date part.
pub open spec fn rfc3339_after_date(d: MailDate) -> Seq<char> {
    let time = "T"@ + zero_padded(d.hour as nat, 2) + ":"@ + zero_padded(d.minute as nat, 2) + ":"@
        + zero_padded(d.second as nat, 2);
    if has_offset(d) {
        time + (if d.tz_before_gmt { "-"@ } else { "+"@ }) + zero_padded(d.tz_hour as nat, 2)
            + ":"@ + zero_padded(d.tz_minute as nat, 2)
    } else {
        time + "Z"@
    }
}

proof fn lemma_rfc3339_split(d: MailDate)
    ensures
        rfc3339_text(d) == ymd_text(d.year as nat, d.month as nat, d.day as nat) + rfc3339_after_date(d),
{
    assert(rfc3339_text(d) =~= ymd_text(d.year as nat, d.month as nat, d.day as nat)
        + rfc3339_after_date(d));
}

/// The date part of an RFC 3339 text is the "YYYY-MM-DD" text: all of it
/// before the first 'T', which the date part does not hold.
pub proof fn law_rfc3339_starts_with_its_date(d: MailDate)
    ensures
        ({
            let ymd = ymd_text(d.year as nat, d.month as nat, d.day as nat);
            &&& rfc3339_text(d).take(ymd.len() as int) == ymd
            &&& rfc3339_text(d)[ymd.len() as int] == 'T'
            &&& forall|i: int| 0 <= i < ymd.len() ==> #[trigger] ymd[i] != 'T'
        }),
{
    reveal_strlit("T");
    let ymd = ymd_text(d.year as nat, d.month as nat, d.day as nat);
    lemma_ymd_has_no_t(d.year as nat, d.month as nat, d.day as nat);
    lemma_rfc3339_split(d);
    let rest = rfc3339_after_date(d);
    assert(rest[0] == 'T');
    assert((ymd + rest).take(ymd.len() as int) =~= ymd);
    assert((ymd + rest)[ymd.len() as int] == rest[0]);
}

/// Whether the offset part of an RFC 3339 text is written out (else "Z").
pub open spec fn has_offset(d: MailDate) -> bool {
    d.tz_hour != 0 || d.tz_minute != 0
}

/// RFC 3339 text of `d`: "YYYY-MM-DDThh:mm:ssZ", or with "+hh:mm" /
/// "-hh:mm" in place of "Z" when it has an offset.
pub open spec fn rfc3339_text(d: MailDate) -> Seq<char> {
    let date_time = ymd_text(d.year as nat, d.month as nat, d.day as nat) + "T"@
        + zero_padded(d.hour as nat, 2) + ":"@ + zero_padded(d.minute as nat, 2) + ":"@
        + zero_padded(d.second as nat, 2);
    if has_offset(d) {
        date_time + (if d.tz_before_gmt { "-"@ } else { "+"@ }) + zero_padded(d.tz_hour as nat, 2)
            + ":"@ + zero_padded(d.tz_minute as nat, 2)
    } else {
        date_time + "Z"@
    }
}

impl MailDate {
    /// 1970-01-01T00:00:00Z.
    pub fn epoch() -> (r: MailDate)
        ensures
            r == spec_epoch(),
    {
        MailDate {
            year: 1970,
            month: 1,
            day: 1,
            hour: 0,
            minute: 0,
            second: 0,
            tz_before_gmt: false,
            tz_hour: 0,
            tz_minute: 0,
        }
    }

    /// Seconds since the unix epoch.
    pub fn to_timestamp(&self) -> (r: i64)
        ensures
            r == mail_timestamp(*self),
    {
        let carry: i64 = if self.month < 3 { 1 } else { 0 };
        let march_month: i64 = if self.month >= 3 {
            self.month as i64 - 3
        } else {
            self.month as i64 + 9
        };
        let y_adj: i64 = self.year as i64 + 4800 - carry;
        let month_days: i64 = (march_month * 62719 + 769) / 2048;
        let leap_days: i64 = y_adj / 4 - y_adj / 100 + y_adj / 400;
        let local: i64 = (y_adj * 365 + leap_days + month_days + (self.day as i64 - 1) - 2472632)
            * 86400 + self.hour as i64 * 3600 + self.minute as i64 * 60 + self.second as i64;
        let offset: i64 = self.tz_hour as i64 * 3600 + self.tz_minute as i64 * 60;
        assert(local == local_timestamp(*self));
        assert(offset * 1 == offset && offset * -1 == -offset) by (nonlinear_arith);
        if self.tz_before_gmt {
            local + offset
        } else {
            local - offset
        }
    }

    /// RFC 3339 text of this date.
    pub fn to_rfc3339(&self) -> (r: String)
        ensures
            r@ == rfc3339_text(*self),
    {
        let mut out = String::new();
        push_padded(&mut out, self.year as u64, 4);
        push_char(&mut out, '-');
        push_padded(&mut out, self.month as u64, 2);
        push_char(&mut out, '-');
        push_padded(&mut out, self.day as u64, 2);
        push_str(&mut out, "T");
        push_padded(&mut out, self.hour as u64, 2);
        push_str(&mut out, ":");
        push_padded(&mut out, self.minute as u64, 2);
        push_str(&mut out, ":");
        push_padded(&mut out, self.second as u64, 2);
        proof {
            assert(out@ =~= ymd_text(self.year as nat, self.month as nat, self.day as nat) + "T"@
                + zero_padded(self.hour as nat, 2) + ":"@ + zero_padded(self.minute as nat, 2)
                + ":"@ + zero_padded(self.second as nat, 2));
        }
        if self.tz_hour != 0 || self.tz_minute != 0 {
            if self.tz_before_gmt {
                push_str(&mut out, "-");
            } else {
                push_str(&mut out, "+");
            }
            push_padded(&mut out, self.tz_hour as u64, 2);
            push_str(&mut out, ":");
            push_padded(&mut out, self.tz_minute as u64, 2);
        } else {
            push_str(&mut out, "Z");
        }
        out
    }

    /// The "YYYY-MM-DD" part of this date's RFC 3339 text.
    pub fn ymd(&self) -> (r: String)
        ensures
            r@ == ymd_text(self.year as nat, self.month as nat, self.day as nat),
    {
        let mut out = String::new();
        push_padded(&mut out, self.year as u64, 4);
        push_char(&mut out, '-');
        push_padded(&mut out, self.month as u64, 2);
        push_char(&mut out, '-');
        push_padded(&mut out, self.day as u64, 2);
        out
    }
}

} // verus!
