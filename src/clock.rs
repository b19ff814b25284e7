//! Instants on the UTC time line, as the relay stamps messages.
use vstd::prelude::*;

verus! {

/// An instant: whole seconds since 1970-01-01T00:00:00Z, and the
/// nanoseconds past that second.
#[derive(Clone, Copy, Debug, PartialEq, Eq, Structural)]
pub struct Timestamp {
    pub seconds: i64,
    pub nanos: u32,
}

/// The RFC 3339 text that chrono writes for an instant, where chrono can
/// represent it.
pub uninterp spec fn rfc3339_of(seconds: i64, nanos: u32) -> Option<Seq<char>>;

/// Relies on `chrono::Utc::now`: the current instant, read from the system
/// clock; and on `DateTime::from_timestamp`, documented to round-trip with
/// `timestamp` and `timestamp_subsec_nanos`, so the instant has an RFC 3339
/// form.
#[verifier::external_body]
pub(crate) fn now() -> (r: Timestamp)
    ensures
        rfc3339_of(r.seconds, r.nanos) is Some,
{
    let t = chrono::Utc::now();
    Timestamp { seconds: t.timestamp(), nanos: t.timestamp_subsec_nanos() }
}

/// Relies on `chrono::DateTime::from_timestamp` and `DateTime::to_rfc3339`:
/// the instant in RFC 3339 form, or nothing where it is out of chrono's range.
#[verifier::external_body]
pub(crate) fn rfc3339(t: Timestamp) -> (r: Option<String>)
    ensures
        r matches Some(s) ==> rfc3339_of(t.seconds, t.nanos) == Some(s@),
        r is None ==> rfc3339_of(t.seconds, t.nanos) is None,
{
    chrono::DateTime::from_timestamp(t.seconds, t.nanos).map(|d| d.to_rfc3339())
}

} // verus!
