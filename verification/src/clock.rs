//! Calendar text for instants, computed by `chrono`.
use vstd::prelude::*;

verus! {

/// What `DateTime::to_rfc3339` writes for the UTC instant `secs` seconds
/// and `nanos` nanoseconds after the Unix epoch.
pub uninterp spec fn rfc3339_text(secs: i64, nanos: u32) -> Seq<char>;

/// What `DateTime::to_rfc2822` writes for the UTC instant `secs` seconds
/// and `nanos` nanoseconds after the Unix epoch.
pub uninterp spec fn rfc2822_text(secs: i64, nanos: u32) -> Seq<char>;

/// What `format("%Y-%m-%dT%H:%M:%SZ")` writes for the UTC instant `secs`
/// seconds and `nanos` nanoseconds after the Unix epoch: RFC 3339 in UTC,
/// whole seconds, with the `Z` suffix.
pub uninterp spec fn date_time_text(secs: i64, nanos: u32) -> Seq<char>;

/// The instants that `chrono` can hold: from the first second of year
/// -262143 to the last second of year 262142.
pub open spec fn in_chrono_range(secs: i64) -> bool {
    -8334601315200 <= secs <= 8210266876799
}

/// The instants that RFC 2822 can write: years 0 to 9999.
pub open spec fn in_rfc2822_range(secs: i64) -> bool {
    -62167219200 <= secs <= 253402300799
}

/// Whether the instant starting at `secs` can be held by `chrono`.
pub fn chrono_can_hold(secs: i64) -> (b: bool)
    ensures
        b == in_chrono_range(secs),
{
    -8334601315200 <= secs && secs <= 8210266876799
}

/// Whether the instant starting at `secs` can be written in RFC 2822.
pub fn rfc2822_can_write(secs: i64) -> (b: bool)
    ensures
        b == in_rfc2822_range(secs),
{
    -62167219200 <= secs && secs <= 253402300799
}

/// `DateTime::to_rfc3339` on the UTC instant given by `secs` and `nanos`.
/// `DateTime::from_timestamp` gives `Some` for such an instant (its
/// documentation: `None` only for out-of-range seconds or an invalid
/// nanosecond); the text itself is only named.
#[verifier::external_body]
pub(crate) fn rfc3339(secs: i64, nanos: u32) -> (s: String)
    requires
        in_chrono_range(secs),
        nanos < 1_000_000_000,
    ensures
        s@ == rfc3339_text(secs, nanos),
{
    chrono::DateTime::from_timestamp(secs, nanos).unwrap().to_rfc3339()
}

/// `DateTime::to_rfc2822` on the UTC instant given by `secs` and `nanos`;
/// it panics outside years 0 to 9999, which `requires` leaves out. The text
/// itself is only named.
#[verifier::external_body]
pub(crate) fn rfc2822(secs: i64, nanos: u32) -> (s: String)
    requires
        in_rfc2822_range(secs),
        nanos < 1_000_000_000,
    ensures
        s@ == rfc2822_text(secs, nanos),
{
    chrono::DateTime::from_timestamp(secs, nanos).unwrap().to_rfc2822()
}

/// `DateTime::format("%Y-%m-%dT%H:%M:%SZ")` on the UTC instant given by
/// `secs` and `nanos`, written out. The text itself is only named.
#[verifier::external_body]
pub(crate) fn date_time(secs: i64, nanos: u32) -> (s: String)
    requires
        in_chrono_range(secs),
        nanos < 1_000_000_000,
    ensures
        s@ == date_time_text(secs, nanos),
{
    chrono::DateTime::from_timestamp(secs, nanos).unwrap().format("%Y-%m-%dT%H:%M:%SZ").to_string()
}

} // verus!
