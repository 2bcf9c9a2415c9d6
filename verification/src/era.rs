//! Classification of a video into the legacy or the current
//! advertiser-data era.
//!
//! A video belongs to the legacy era exactly when its `first_retrieve`
//! timestamp lies strictly before the fixed boundary instant
//! 2017-12-13T00:00:00+09:00.

use vstd::prelude::*;
use crate::AdvertError;

verus! {

/// The instant that an RFC 3339 date-and-time string denotes, as seconds
/// since the Unix epoch together with the nanoseconds past that second;
/// `None` when the string is not a valid RFC 3339 date-and-time.
pub uninterp spec fn rfc3339_instant(s: Seq<char>) -> Option<(int, int)>;

/// Relies on `chrono::DateTime::parse_from_rfc3339` together with the
/// `timestamp` and `timestamp_subsec_nanos` accessors: parsing succeeds
/// or fails, and the denoted instant is determined, by the characters of
/// the string alone.
#[verifier::external_body]
fn parse_rfc3339(s: &str) -> (r: Option<(i64, u32)>)
    ensures
        r is Some <==> rfc3339_instant(s@) is Some,
        r matches Some(t) ==> rfc3339_instant(s@) == Some((t.0 as int, t.1 as int)),
{
    match chrono::DateTime::parse_from_rfc3339(s) {
        Ok(dt) => Some((dt.timestamp(), dt.timestamp_subsec_nanos())),
        Err(_) => None,
    }
}

/// The two advertiser-data eras.
#[derive(Clone, Copy, Debug, PartialEq, Eq, Structural)]
pub enum EraClassification {
    /// Strictly before the boundary: the CSV mirror may also hold data.
    Legacy,
    /// At or after the boundary: the JSON API is the only source.
    Current,
}

/// Chronological order on instants: earlier second, or the same second
/// and fewer nanoseconds.
pub open spec fn spec_instant_lt(a: (int, int), b: (int, int)) -> bool {
    a.0 < b.0 || (a.0 == b.0 && a.1 < b.1)
}

/// The boundary between the two eras, written as the RFC 3339 string
/// from which it is parsed.
pub open spec fn spec_boundary_str() -> Seq<char> {
    "2017-12-13T00:00:00+09:00"@
}

/// The boundary instant.
pub open spec fn spec_boundary_instant() -> Option<(int, int)> {
    rfc3339_instant(spec_boundary_str())
}

/// Classifies a video by its `first_retrieve` timestamp: `Legacy` exactly
/// when the timestamp denotes an instant strictly earlier than the
/// boundary, `Current` otherwise; a string that is not a valid RFC 3339
/// date-and-time is rejected as malformed metadata.
pub fn classify_first_retrieve(first_retrieve: &str) -> (r: Result<
    EraClassification,
    AdvertError,
>)
    ensures
        r is Ok <==> rfc3339_instant(first_retrieve@) is Some && spec_boundary_instant() is Some,
        r matches Ok(era) ==> (era == EraClassification::Legacy <==> spec_instant_lt(
            rfc3339_instant(first_retrieve@).unwrap(),
            spec_boundary_instant().unwrap(),
        )),
        r matches Err(e) ==> e == AdvertError::MetadataParseError,
{
    let target = parse_rfc3339(first_retrieve);
    let boundary = parse_rfc3339("2017-12-13T00:00:00+09:00");
    match (target, boundary) {
        (Some(t), Some(b)) => {
            if t.0 < b.0 || (t.0 == b.0 && t.1 < b.1) {
                Ok(EraClassification::Legacy)
            } else {
                Ok(EraClassification::Current)
            }
        },
        _ => Err(AdvertError::MetadataParseError),
    }
}

} // verus!
