//! The time stamp in a report's file name. The text of a stamp is `chrono`'s;
//! nothing in this file is proved but what is built around it.

use vstd::prelude::*;

verus! {

/// The pattern of a stamp: year, month, day, an underscore, hour, minute and
/// second, each with leading zeros.
pub const STAMP_PATTERN: &'static str = "%Y%m%d_%H%M%S";

/// The stamp of the second `seconds`, counted from the start of 1970: what
/// `chrono` writes for that second under `STAMP_PATTERN`, and nothing where
/// `chrono` cannot hold the second.
pub uninterp spec fn stamp_text(seconds: int) -> Option<Seq<char>>;

/// `chrono::DateTime::from_timestamp`, and `format` on what it gives, under
/// `STAMP_PATTERN`. The first gives nothing for a second outside the years
/// that `chrono` holds. The second writes the date and the time of day of the
/// second without regard to any time zone, so that the text depends on
/// `seconds` alone.
#[verifier::external_body]
pub(crate) fn format_stamp(seconds: i64) -> (stamp: Option<String>)
    ensures
        match stamp {
            Some(text) => stamp_text(seconds as int) == Some(text@),
            None => stamp_text(seconds as int) is None,
        },
{
    match chrono::DateTime::from_timestamp(seconds, 0) {
        Some(time) => Some(time.format(STAMP_PATTERN).to_string()),
        None => None,
    }
}

} // verus!
