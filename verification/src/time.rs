//! Points in time as the store keeps them: written as RFC 3339 text, read
//! back through chrono (falling back to the Unix epoch when the text does not
//! parse), and shown as a day (`%Y-%m-%d`) or a day and minute
//! (`%Y-%m-%d %H:%M`).

use vstd::prelude::*;
use chrono::{DateTime, Utc};

verus! {

/// What chrono's `str::parse::<DateTime<Utc>>` yields for `text`: the Unix
/// seconds and the sub-second nanoseconds of the instant, or `None` when the
/// text is rejected.
pub uninterp spec fn utc_parse(text: Seq<char>) -> Option<(i64, u32)>;

/// What chrono yields for `DateTime::<Utc>::from_timestamp(secs, nanos)`
/// rendered with `format(pattern)`: `None` when no instant has those
/// coordinates.
pub uninterp spec fn utc_format(secs: i64, nanos: u32, pattern: Seq<char>) -> Option<Seq<char>>;

/// The pattern that shows the calendar day.
pub open spec fn day_pattern() -> Seq<char> {
    "%Y-%m-%d"@
}

/// The pattern that shows the calendar day, hour and minute.
pub open spec fn minute_pattern() -> Seq<char> {
    "%Y-%m-%d %H:%M"@
}

/// The instant a stored text denotes: its parse, or the epoch when it does
/// not parse.
pub open spec fn stored_time(text: Seq<char>) -> (i64, u32) {
    match utc_parse(text) {
        Some(t) => t,
        None => (0i64, 0u32),
    }
}

/// An instant in UTC, as Unix seconds and nanoseconds within the second.
/// Every value comes from chrono, so it can always be shown.
#[derive(Clone, Copy, Debug, PartialEq, Eq)]
pub struct UtcTime {
    secs: i64,
    nanos: u32,
}

impl View for UtcTime {
    type V = (i64, u32);

    closed spec fn view(&self) -> (i64, u32) {
        (self.secs, self.nanos)
    }
}

/// Parses `text` as an instant with chrono (`str::parse::<DateTime<Utc>>`):
/// the result is `utc_parse(text)`, and chrono can show every instant that
/// it parsed (`DateTime::from_timestamp` gives back what `timestamp` and
/// `timestamp_subsec_nanos` took apart).
#[verifier::external_body]
fn parse_utc(text: &str) -> (res: Option<UtcTime>)
    ensures
        match res {
            Some(t) => {
                &&& utc_parse(text@) == Some(t@)
                &&& utc_format(t@.0, t@.1, day_pattern()) is Some
                &&& utc_format(t@.0, t@.1, minute_pattern()) is Some
            },
            None => utc_parse(text@) is None,
        },
{
    text.parse::<DateTime<Utc>>().ok().map(
        |d| UtcTime { secs: d.timestamp(), nanos: d.timestamp_subsec_nanos() },
    )
}

/// chrono's `DateTime::<Utc>::default()`, the Unix epoch
/// (1970-01-01 00:00:00 UTC), taken apart into seconds and nanoseconds.
#[verifier::external_body]
fn epoch_utc() -> (res: UtcTime)
    ensures
        res@ == (0i64, 0u32),
        utc_format(res@.0, res@.1, day_pattern()) == Some("1970-01-01"@),
        utc_format(res@.0, res@.1, minute_pattern()) == Some("1970-01-01 00:00"@),
{
    let d = DateTime::<Utc>::default();
    UtcTime { secs: d.timestamp(), nanos: d.timestamp_subsec_nanos() }
}

/// chrono's `DateTime::<Utc>::from_timestamp(secs, nanos)` shown with
/// `format(pattern)`; the patterns admitted are the two this library uses.
#[verifier::external_body]
fn format_utc(secs: i64, nanos: u32, pattern: &str) -> (res: Option<String>)
    requires
        pattern@ == day_pattern() || pattern@ == minute_pattern(),
    ensures
        match res {
            Some(s) => utc_format(secs, nanos, pattern@) == Some(s@),
            None => utc_format(secs, nanos, pattern@) is None,
        },
{
    DateTime::<Utc>::from_timestamp(secs, nanos).map(|d| d.format(pattern).to_string())
}

/// The current time as RFC 3339 text (chrono's `Utc::now().to_rfc3339()`).
/// Which instant it names depends on the clock and is not stated; what is
/// stated is that chrono parses it back (`DateTime<Utc>`'s `FromStr` reads
/// the RFC 3339 form that `to_rfc3339` writes).
#[verifier::external_body]
pub(crate) fn now_rfc3339() -> (res: String)
    ensures
        utc_parse(res@) is Some,
{
    Utc::now().to_rfc3339()
}

impl UtcTime {
    #[verifier::type_invariant]
    spec fn showable(self) -> bool {
        &&& utc_format(self.secs, self.nanos, day_pattern()) is Some
        &&& utc_format(self.secs, self.nanos, minute_pattern()) is Some
    }

    /// The Unix epoch.
    pub fn epoch() -> (res: UtcTime)
        ensures
            res@ == (0i64, 0u32),
    {
        epoch_utc()
    }

    /// The instant that stored text denotes; text that does not parse
    /// denotes the epoch.
    pub fn parse_or_epoch(text: &str) -> (res: UtcTime)
        ensures
            res@ == stored_time(text@),
    {
        match parse_utc(text) {
            Some(t) => t,
            None => epoch_utc(),
        }
    }

    /// The calendar day, as `YYYY-MM-DD`.
    pub fn day(&self) -> (res: String)
        ensures
            utc_format(self@.0, self@.1, day_pattern()) == Some(res@),
    {
        proof {
            use_type_invariant(self);
        }
        match format_utc(self.secs, self.nanos, "%Y-%m-%d") {
            Some(s) => s,
            None => {
                assert(false);
                String::new()
            },
        }
    }

    /// The calendar day and the time to the minute, as `YYYY-MM-DD HH:MM`.
    pub fn day_minute(&self) -> (res: String)
        ensures
            utc_format(self@.0, self@.1, minute_pattern()) == Some(res@),
    {
        proof {
            use_type_invariant(self);
        }
        match format_utc(self.secs, self.nanos, "%Y-%m-%d %H:%M") {
            Some(s) => s,
            None => {
                assert(false);
                String::new()
            },
        }
    }
}

} // verus!
