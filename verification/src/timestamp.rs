//! The window of feed rows that one cycle asks for, from the watermark to
//! one hour past it.

use vstd::prelude::*;

verus! {

/// The fourteen-digit timestamp (`YYYYMMDDHHMMSS`) of the time that lies
/// the given seconds after the time that `timestamp` names; none where
/// `timestamp` is no such timestamp of an existing date and time.
pub uninterp spec fn timestamp_after(timestamp: Seq<char>, seconds: u64) -> Option<Seq<char>>;

/// `wikimisc::timestamp::TimeStamp::str2utc`, the sum of its result and a
/// `std::time::Duration` of the given seconds, and
/// `wikimisc::timestamp::TimeStamp::datetime` of the sum. The result is a
/// function of the text and the number alone. The sum is in range: a
/// timestamp names a year up to 9999, the seconds are less than 137 years,
/// and the calendar behind it reaches far beyond.
#[verifier::external_body]
fn later_timestamp(timestamp: &str, seconds: u64) -> (r: Option<String>)
    requires
        seconds <= u32::MAX,
    ensures
        match r {
            Some(text) => timestamp_after(timestamp@, seconds) == Some(text@),
            None => timestamp_after(timestamp@, seconds) is None,
        },
{
    wikimisc::timestamp::TimeStamp::str2utc(timestamp).map(
        |time|
            wikimisc::timestamp::TimeStamp::datetime(
                &(time + std::time::Duration::from_secs(seconds)),
            ),
    )
}

/// The seconds of one hour, the length of a window.
pub const HOUR: u64 = 3600;

/// The upper end of a window, given its end as it was written: that end,
/// or the latest timestamp there is where none was written.
pub open spec fn window_end_of(written: Option<Seq<char>>) -> Seq<char> {
    match written {
        Some(text) => text,
        None => "99991231235900"@,
    }
}

/// The upper end of the window of feed rows that starts at the watermark
/// `oldest`: one hour later, or the latest timestamp there is where the
/// watermark is no timestamp.
pub open spec fn window_end(oldest: Seq<char>) -> Seq<char> {
    window_end_of(timestamp_after(oldest, HOUR))
}

/// The upper end of a window whose end was written as `written`.
pub fn upper_limit_of(written: Option<String>) -> (r: String)
    ensures
        r@ == window_end_of(
            match written {
                Some(text) => Some(text@),
                None => None,
            },
        ),
{
    match written {
        Some(text) => text,
        None => "99991231235900".to_owned(),
    }
}

/// The upper end of the window of feed rows that starts at `oldest`.
pub fn upper_limit(oldest: &str) -> (r: String)
    ensures
        r@ == window_end(oldest@),
{
    upper_limit_of(later_timestamp(oldest, HOUR))
}

} // verus!
