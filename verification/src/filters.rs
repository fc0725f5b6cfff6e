//! Filters for page templates.
use vstd::prelude::*;
use crate::time::{timeago, timeago_text};

verus! {

/// How long ago the instant `amount` (seconds since the unix epoch) lies,
/// by the system clock; `None` when the clock reads a time before 1970.
pub fn time_ago(amount: &u64) -> (r: Option<String>)
    ensures
        r matches Some(text) ==> exists|now: nat| text@ == timeago_text(*amount as nat, now),
{
    timeago(*amount)
}

} // verus!
