//! Points in time, as numbers.

use vstd::prelude::*;

verus! {

/// The first millisecond since the epoch that has a date.
pub const MIN_MILLIS: i64 = -8334601228800000;

/// The last millisecond since the epoch that has a date.
pub const MAX_MILLIS: i64 = 8210266876799999;

/// Calls `chrono::DateTime::<Utc>::from_timestamp_millis` and reads the time back with
/// `timestamp_millis`. Claimed of them: there is a time exactly from the start of the year
/// -262143 to the end of the year 262142, and it is the one that was asked for.
#[verifier::external_body]
pub(crate) fn time_of_millis(millis: i64) -> (r: Option<i64>)
    ensures
        r == if MIN_MILLIS <= millis <= MAX_MILLIS {
            Some(millis)
        } else {
            None
        },
{
    chrono::DateTime::<chrono::Utc>::from_timestamp_millis(millis).map(|t| t.timestamp_millis())
}

/// The time that a text names, in the relaxed form of RFC 3339 that `chrono` reads: seconds
/// since the epoch, and nanoseconds.
pub uninterp spec fn parsed_time(s: Seq<char>) -> Option<(i64, u32)>;

/// Calls `<chrono::DateTime<Utc> as FromStr>::from_str` and reads the time back with
/// `timestamp` and `timestamp_subsec_nanos`. Claimed of it: what comes out is a function of
/// the text. Which texts name a time is left unsaid.
#[verifier::external_body]
pub(crate) fn parse_time(s: &str) -> (r: Option<(i64, u32)>)
    ensures
        r == parsed_time(s@),
{
    match s.parse::<chrono::DateTime<chrono::Utc>>() {
        Ok(t) => Some((t.timestamp(), t.timestamp_subsec_nanos())),
        Err(_) => None,
    }
}

/// The times that can be told lie between the years -262143 and 262142.
pub proof fn lemma_time_range()
    ensures
        MIN_MILLIS == -8_334_601_228_800_000,
        MAX_MILLIS == 8_210_266_876_799_999,
{
}

}
