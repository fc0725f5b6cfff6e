//! The template filter of the mbox archive tool: ages in words, counted in
//! days from one day on.
use vstd::prelude::*;
use crate::text::{decimal_digits, push_decimal, push_str};

verus! {

/// The count and unit that describe an age of `diff` seconds: seconds,
/// minutes, hours, then days however long.
pub open spec fn age_in_days_and_unit(diff: nat) -> (nat, Seq<char>) {
    if diff < 60 {
        (diff, "second"@)
    } else if diff < 60 * 60 {
        (diff / 60, "minute"@)
    } else if diff < 60 * 60 * 24 {
        (diff / (60 * 60), "hour"@)
    } else {
        (diff / (60 * 60 * 24), "day"@)
    }
}

/// How long before `now` the instant `unixtime` lies, in words.
pub open spec fn days_ago_text(unixtime: nat, now: nat) -> Seq<char> {
    if unixtime > now {
        "in the future"@
    } else {
        let (amount, unit) = age_in_days_and_unit((now - unixtime) as nat);
        decimal_digits(amount) + " "@ + unit + (if amount == 1 { Seq::empty() } else { "s"@ }) + " ago"@
    }
}

/// How long before `now` the instant `unixtime` lies, in words.
pub fn timeago_at(unixtime: u64, now: u64) -> (r: String)
    ensures
        r@ == days_ago_text(unixtime as nat, now as nat),
{
    if unixtime > now {
        let mut out = String::new();
        push_str(&mut out, "in the future");
        proof {
            reveal_strlit("in the future");
        }
        assert(out@ =~= "in the future"@);
        return out;
    }
    let diff = now - unixtime;
    let amount: u64;
    let metric: &str;
    if diff < 60 {
        amount = diff;
        metric = "second";
    } else if diff < 60 * 60 {
        amount = diff / 60;
        metric = "minute";
    } else if diff < 60 * 60 * 24 {
        amount = diff / (60 * 60);
        metric = "hour";
    } else {
        amount = diff / (60 * 60 * 24);
        metric = "day";
    }
    let mut out = String::new();
    push_decimal(&mut out, amount);
    push_str(&mut out, " ");
    push_str(&mut out, metric);
    if amount != 1 {
        push_str(&mut out, "s");
    }
    push_str(&mut out, " ago");
    assert(out@ =~= days_ago_text(unixtime as nat, now as nat));
    out
}

/// How long ago the instant `amount` (seconds since the unix epoch) lies,
/// by the system clock; `None` when the clock reads a time before 1970.
pub fn time_ago(amount: &u64) -> (r: Option<String>)
    ensures
        r matches Some(text) ==> exists|now: nat| text@ == days_ago_text(*amount as nat, now),
{
    match crate::time::clock_seconds() {
        Some(now) => Some(timeago_at(*amount, now)),
        None => None,
    }
}

} // verus!
