//! Commit times as the app shows them: in UTC, in the format of RFC 2822.
use vstd::prelude::*;
use chrono::{DateTime, FixedOffset, TimeZone, Utc};

verus! {

#[verifier::external_type_specification]
#[verifier::external_body]
pub struct ExFixedOffset(FixedOffset);

/// The earliest second, counted from the Unix epoch, whose year RFC 2822 can write: the start
/// of the year 0.
pub const RFC2822_FIRST_SECOND: i64 = -62_167_219_200;

/// The last such second: the end of the year 9999.
pub const RFC2822_LAST_SECOND: i64 = 253_402_300_799;

/// The RFC 2822 text of the instant `seconds` after the Unix epoch, in UTC.
pub uninterp spec fn rfc2822_text(seconds: i64) -> Seq<char>;

/// `chrono::FixedOffset::east_opt`: an offset of `secs` east of UTC, which exists exactly when
/// it is less than a day either way.
#[verifier::external_body]
fn offset_east(secs: i32) -> (r: Option<FixedOffset>)
    ensures
        r is Some <==> -86_400 < secs < 86_400,
{
    FixedOffset::east_opt(secs)
}

/// `chrono::DateTime::to_rfc2822`, of the instant `seconds` after the epoch taken to `offset` and
/// back to UTC with `TimeZone::from_utc_datetime` and `DateTime::with_timezone`, which keep the
/// instant. The contract names the text, which depends on `seconds` alone, and leaves out the
/// instants whose year RFC 2822 cannot write, on which the call panics.
#[verifier::external_body]
fn rfc2822_through(offset: &FixedOffset, seconds: i64) -> (s: String)
    requires
        RFC2822_FIRST_SECOND <= seconds <= RFC2822_LAST_SECOND,
    ensures
        s@ == rfc2822_text(seconds),
{
    let utc = DateTime::from_timestamp(seconds, 0).unwrap();
    offset.from_utc_datetime(&utc.naive_utc()).with_timezone(&Utc).to_rfc2822()
}

/// Whether a commit time can be shown: its offset is less than a day either way and its year
/// is one RFC 2822 can write.
pub open spec fn showable_time(seconds: i64, offset_minutes: i32) -> bool {
    &&& -86_400 < offset_minutes * 60 < 86_400
    &&& RFC2822_FIRST_SECOND <= seconds <= RFC2822_LAST_SECOND
}

/// A commit's time, `seconds` after the epoch and recorded at `offset_minutes` east of UTC, shown
/// in UTC.
pub fn timestamp_to_utc(seconds: i64, offset_minutes: i32) -> (s: String)
    requires
        showable_time(seconds, offset_minutes),
    ensures
        s@ == rfc2822_text(seconds),
{
    match offset_east(offset_minutes * 60) {
        Some(offset) => rfc2822_through(&offset, seconds),
        None => {
            proof {
                assert(false);
            }
            String::new()
        },
    }
}

/// The same, or nothing for a time that cannot be shown.
pub fn timestamp_to_utc_checked(seconds: i64, offset_minutes: i32) -> (s: Option<String>)
    ensures
        match s {
            Some(text) => showable_time(seconds, offset_minutes) && text@ == rfc2822_text(seconds),
            None => !showable_time(seconds, offset_minutes),
        },
{
    if offset_minutes <= -1440 || offset_minutes >= 1440 {
        return None;
    }
    if seconds < RFC2822_FIRST_SECOND || seconds > RFC2822_LAST_SECOND {
        return None;
    }
    Some(timestamp_to_utc(seconds, offset_minutes))
}

} // verus!
