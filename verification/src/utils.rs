//! Day counts and timestamps of civil dates.
use vstd::prelude::*;
use crate::time::{MailDate, days_from_civil, lemma_march_based_days_is_civil, local_timestamp, mail_timestamp, march_based_days};

verus! {

/// Days since 1970-01-01 of the date `y-m-d`, counted in years that start
/// on March 1: for a month from 1 to 12 it is the proleptic Gregorian day
/// count (`days_from_civil`); for other month numbers the same arithmetic
/// is carried on (a month 0 counts as the ninth month after March).
pub fn epoch_days(y: u32, m: u32, d: u32) -> (r: i64)
    ensures
        r == march_based_days(y as int, m as int, d as int),
        1 <= m <= 12 ==> r == days_from_civil(y as int, m as int, d as int),
{
    let year_base: i64 = 4800;
    let carry: i64 = if m < 3 { 1 } else { 0 };
    let march_month: i64 = if m < 3 { m as i64 + 9 } else { m as i64 - 3 };
    let y_adj: i64 = y as i64 + year_base - carry;
    assert(0 <= march_month * 62719 + 769 <= 0x10000000000000) by (nonlinear_arith)
        requires
            0 <= march_month <= 0x100000000,
    ;
    let month_days: i64 = (march_month * 62719 + 769) / 2048;
    let leap_days: i64 = y_adj / 4 - y_adj / 100 + y_adj / 400;
    assert(0 <= leap_days <= y_adj) by (nonlinear_arith)
        requires
            0 <= y_adj,
            leap_days == y_adj / 4 - y_adj / 100 + y_adj / 400,
    ;
    proof {
        if 1 <= m <= 12 {
            lemma_march_based_days_is_civil(y as int, m as int, d as int);
        }
    }
    y_adj * 365 + leap_days + month_days + (d as i64 - 1) - 2472632
}

/// Seconds since the unix epoch of the instant `dt` names: its day count,
/// its time of day, and its offset from UTC taken away.
pub fn epoch_time(dt: &MailDate) -> (r: i64)
    ensures
        r == mail_timestamp(*dt),
        1 <= dt.month <= 12 ==> r == days_from_civil(dt.year as int, dt.month as int, dt.day as int)
            * 86400 + (dt.hour + dt.tz_hour * (if dt.tz_before_gmt { 1int } else { -1int })) * 3600
            + (dt.minute + dt.tz_minute * (if dt.tz_before_gmt { 1int } else { -1int })) * 60 + dt.second,
{
    let mut h: i64 = dt.hour as i64;
    let mut m: i64 = dt.minute as i64;
    let adj: i64 = if dt.tz_before_gmt { 1 } else { -1 };
    h = h + dt.tz_hour as i64 * adj;
    m = m + dt.tz_minute as i64 * adj;
    let days = epoch_days(dt.year as u32, dt.month as u32, dt.day as u32);
    assert(dt.tz_hour as i64 * adj == dt.tz_hour * (if dt.tz_before_gmt { 1int } else { -1int }))
        by (nonlinear_arith)
        requires
            adj == (if dt.tz_before_gmt { 1int } else { -1int }),
    ;
    assert(dt.tz_minute as i64 * adj == dt.tz_minute * (if dt.tz_before_gmt { 1int } else { -1int }))
        by (nonlinear_arith)
        requires
            adj == (if dt.tz_before_gmt { 1int } else { -1int }),
    ;
    assert(-10000000000 <= days <= 10000000000);
    proof {
        assert(local_timestamp(*dt) == days * 86400 + dt.hour * 3600 + dt.minute * 60 + dt.second);
        let o: int = dt.tz_hour * 3600 + dt.tz_minute * 60;
        if dt.tz_before_gmt {
            assert(o * 1int == o);
            assert(dt.tz_hour * 1int == dt.tz_hour && dt.tz_minute * 1int == dt.tz_minute);
        } else {
            assert(o * -1int == -o);
            assert(dt.tz_hour * -1int == -dt.tz_hour && dt.tz_minute * -1int == -dt.tz_minute);
        }
    }
    days * 86400 + h * 3600 + m * 60 + dt.second as i64
}

} // verus!
