//! The human-readable timestamp shown in a post's title line.

use vstd::prelude::*;

use vstd::string::StringExecFns;

verus! {

/// The smallest count of seconds since the epoch whose UTC date the
/// calendar can place (the first instant of its earliest year).
pub open spec fn min_calendar_secs() -> int {
    -8334601228800
}

/// The largest count of seconds since the epoch whose UTC date the
/// calendar can place (the last instant of its final year).
pub open spec fn max_calendar_secs() -> int {
    8210266876799
}

/// The wall-clock text of a timestamp: hours and minutes, then month, day
/// and year, in UTC — what the calendar arithmetic yields for the given
/// number of seconds since the epoch.
pub uninterp spec fn title_stamp(secs: int) -> Seq<char>;

/// Relies on chrono's DateTime::from_timestamp and its UTC formatting
/// (`%H:%M on %b %-d, %Y`): a pure function of the timestamp, named here by
/// [`title_stamp`]. `None` exactly on a timestamp whose date falls outside
/// the calendar's year range, the day arithmetic `from_timestamp` performs
/// against the date type's bounds.
#[verifier::external_body]
fn format_timestamp(secs: i64) -> (r: Option<String>)
    ensures
        r matches Some(s) ==> s@ == title_stamp(secs as int),
        r is Some <==> min_calendar_secs() <= secs <= max_calendar_secs(),
{
    chrono::DateTime::from_timestamp(secs, 0).map(
        |dt| dt.naive_utc().format("%H:%M on %b %-d, %Y").to_string(),
    )
}

/// The timestamp text for a post's title line. A timestamp too large to
/// hold in a signed count of seconds, or one past the calendar's last
/// placeable day, degrades to a fixed phrase instead of failing.
pub fn title_time_string(time: u64) -> (r: String)
    ensures
        time > i64::MAX ==> r@ == "200 years in the future???"@,
        time <= i64::MAX && time > max_calendar_secs() ==> r@ == "an unknown time"@,
        time <= max_calendar_secs() ==> r@ == title_stamp(time as int),
{
    if time > i64::MAX as u64 {
        String::from_str("200 years in the future???")
    } else {
        match format_timestamp(time as i64) {
            Some(s) => s,
            None => String::from_str("an unknown time"),
        }
    }
}

} // verus!
