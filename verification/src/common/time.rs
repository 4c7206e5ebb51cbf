//! Date and time parsing, done by the `chrono` and `chrono-tz` crates.
//! A point in time is held as seconds and nanoseconds since the UNIX
//! epoch (UTC).

use vstd::prelude::*;

use chrono::TimeZone;

verus! {

/// The instant that `text` denotes in `format` (a strftime format) at the
/// fixed UTC offset `secs` (east of UTC), as `chrono` parses it.
pub uninterp spec fn offset_datetime(secs: int, text: Seq<char>, format: Seq<char>) -> Option<(i64, u32)>;

/// The instant that `text` denotes in `format` in the named time zone of
/// the tz database, as `chrono-tz` and `chrono` parse it.
pub uninterp spec fn zone_datetime(zone: Seq<char>, text: Seq<char>, format: Seq<char>) -> Option<(i64, u32)>;

/// The name is a time zone of the tz database known to `chrono-tz`.
pub uninterp spec fn zone_known(zone: Seq<char>) -> bool;

/// The instant that an RFC 3339 text denotes, as `chrono` parses it, or
/// the text of `chrono`'s error.
pub uninterp spec fn rfc3339_instant(text: Seq<char>) -> Result<(i64, u32), Seq<char>>;

/// A fixed UTC offset in seconds is one that `chrono` accepts (less than a
/// day either way).
pub open spec fn valid_offset(secs: int) -> bool {
    -86_400 < secs < 86_400
}

/// Parses `text` with `chrono`'s `TimeZone::datetime_from_str` at the
/// fixed offset `secs` (made with `FixedOffset::east_opt`, which accepts
/// exactly the offsets of `valid_offset`), and gives the instant in UTC.
/// Claimed: the result is `offset_datetime` of the arguments.
#[verifier::external_body]
#[allow(deprecated)]
pub(crate) fn parse_at_offset(secs: i32, text: &str, format: &str) -> (r: Option<(i64, u32)>)
    requires
        valid_offset(secs as int),
    ensures
        r == offset_datetime(secs as int, text@, format@),
{
    let offset = chrono::FixedOffset::east_opt(secs)?;
    let dt = offset.datetime_from_str(text, format).ok()?;
    Some((dt.timestamp(), dt.timestamp_subsec_nanos()))
}

/// Parses `text` with `chrono`'s `TimeZone::datetime_from_str` in the time
/// zone named `zone` (read with `chrono-tz`'s `FromStr` for `Tz`), and
/// gives the instant in UTC. Claimed: the result is `zone_datetime` of the
/// arguments.
#[verifier::external_body]
#[allow(deprecated)]
pub(crate) fn parse_in_zone(zone: &str, text: &str, format: &str) -> (r: Option<(i64, u32)>)
    ensures
        r == zone_datetime(zone@, text@, format@),
{
    let tz: chrono_tz::Tz = zone.parse().ok()?;
    let dt = tz.datetime_from_str(text, format).ok()?;
    Some((dt.timestamp(), dt.timestamp_subsec_nanos()))
}

/// Whether `chrono-tz`'s `FromStr` for `Tz` accepts the name. Claimed: the
/// result is `zone_known` of the name.
#[verifier::external_body]
pub(crate) fn known_zone(zone: &str) -> (r: bool)
    ensures
        r == zone_known(zone@),
{
    zone.parse::<chrono_tz::Tz>().is_ok()
}

/// Parses an RFC 3339 text with `chrono`'s `DateTime::parse_from_rfc3339`
/// and gives the instant in UTC, or the text of the parse error (its
/// `Display`). Claimed: the result is `rfc3339_instant` of the text.
#[verifier::external_body]
pub(crate) fn parse_rfc3339(text: &str) -> (r: Result<(i64, u32), String>)
    ensures
        match (r, rfc3339_instant(text@)) {
            (Ok(a), Ok(b)) => a == b,
            (Err(a), Err(b)) => a@ == b,
            _ => false,
        },
{
    match chrono::DateTime::parse_from_rfc3339(text) {
        Ok(dt) => Ok((dt.timestamp(), dt.timestamp_subsec_nanos())),
        Err(e) => Err(e.to_string()),
    }
}

} // verus!
