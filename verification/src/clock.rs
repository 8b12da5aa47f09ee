use vstd::prelude::*;

verus! {

/// A deadline of 0 is the sentinel for "no deadline configured".
pub open spec fn spec_betting_open(now: int, deadline: int) -> bool {
    deadline == 0 || now <= deadline
}

/// The market may be closed once the deadline (if any) has passed.
pub open spec fn spec_past_deadline(now: int, deadline: int) -> bool {
    deadline == 0 || now > deadline
}

/// Betting is open at `now` when no deadline is configured (`deadline == 0`)
/// or `now` has not passed the deadline.
pub fn is_betting_open(now: i64, deadline: i64) -> (r: bool)
    ensures
        r == spec_betting_open(now as int, deadline as int),
{
    deadline == 0 || now <= deadline
}

/// Closing is allowed at `now` when no deadline is configured (immediately)
/// or `now` is strictly past the deadline.
pub fn is_past_deadline(now: i64, deadline: i64) -> (r: bool)
    ensures
        r == spec_past_deadline(now as int, deadline as int),
{
    deadline == 0 || now > deadline
}

/// The UTC epoch-second value that a well-formed `YYYY-MM-DD HH:MM` deadline
/// string denotes, or `None` for a string that does not match the pattern.
/// The value depends on the characters of the string alone.
pub uninterp spec fn deadline_epoch_of(s: Seq<char>) -> Option<i64>;

/// Relies on chrono's `NaiveDateTime::parse_from_str` with the fixed format
/// `%Y-%m-%d %H:%M`, interpreted as UTC and converted to epoch seconds by
/// `NaiveDateTime::and_utc` and `DateTime::timestamp`: parsing and conversion
/// are deterministic functions of the input characters alone.
#[verifier::external_body]
pub fn parse_deadline_utc(s: &str) -> (r: Option<i64>)
    ensures
        r == deadline_epoch_of(s@),
{
    match chrono::NaiveDateTime::parse_from_str(s, "%Y-%m-%d %H:%M") {
        Ok(dt) => Some(dt.and_utc().timestamp()),
        Err(_) => None,
    }
}

} // verus!
