//! Time stamps and fresh identifiers.

use vstd::prelude::*;

verus! {

/// What [`time::OffsetDateTime::parse`] makes of an RFC 3339 text: the seconds
/// since the Unix epoch, rounded down, and the nanoseconds beyond them, or the
/// error in words.
pub uninterp spec fn rfc3339_time(s: Seq<char>) -> Result<(i64, u32), Seq<char>>;

/// [`time::OffsetDateTime::parse`] with the RFC 3339 format. The result depends on
/// the text alone and goes by the name [`rfc3339_time`]; of the date only the
/// instant is kept, from `unix_timestamp` and `nanosecond`.
#[verifier::external_body]
pub(crate) fn parse_time(s: &str) -> (r: Result<(i64, u32), String>)
    ensures
        match r {
            Ok(t) => rfc3339_time(s@) == Ok::<(i64, u32), Seq<char>>(t),
            Err(e) => rfc3339_time(s@) == Err::<(i64, u32), Seq<char>>(e@),
        },
{
    match time::OffsetDateTime::parse(s, &time::format_description::well_known::Rfc3339) {
        Ok(t) => Ok((t.unix_timestamp(), t.nanosecond())),
        Err(e) => Err(e.to_string()),
    }
}

/// [`time::OffsetDateTime::now_utc`] as RFC 3339 text. It depends on the clock, so
/// nothing is said of it.
#[verifier::external_body]
pub(crate) fn now_text() -> (r: Result<String, String>) {
    match time::OffsetDateTime::now_utc().format(&time::format_description::well_known::Rfc3339) {
        Ok(s) => Ok(s),
        Err(e) => Err(e.to_string()),
    }
}

/// [`time::OffsetDateTime::now_utc`] as seconds since the Unix epoch and
/// nanoseconds beyond them. It depends on the clock, so nothing is said of it.
#[verifier::external_body]
pub(crate) fn now_moment() -> (r: (i64, u32)) {
    let t = time::OffsetDateTime::now_utc();
    (t.unix_timestamp(), t.nanosecond())
}

/// A random UUID: four of its bits give its version, 4, and two its variant.
pub open spec fn is_v4(id: u128) -> bool {
    &&& id / 0x1000_0000_0000_0000_0000 % 16 == 4
    &&& id / 0x4000_0000_0000_0000 % 4 == 2
}

/// [`uuid::Uuid::new_v4`] as a number, most significant byte first. It is random
/// but for the four bits that give its version, 4, and the two that give its
/// variant.
#[verifier::external_body]
pub(crate) fn fresh_id() -> (r: u128)
    ensures
        is_v4(r),
{
    uuid::Uuid::new_v4().as_u128()
}

/// An instant in nanoseconds since the Unix epoch.
pub open spec fn nanos_of(t: (i64, u32)) -> int {
    t.0 * 1_000_000_000 + t.1
}

/// A parsed time in nanoseconds.
pub open spec fn instant(r: Result<(i64, u32), Seq<char>>) -> Result<int, Seq<char>> {
    match r {
        Ok(t) => Ok(nanos_of(t)),
        Err(e) => Err(e),
    }
}

/// An instant in nanoseconds since the Unix epoch.
pub fn nanos(t: (i64, u32)) -> (n: i128)
    ensures
        n == nanos_of(t),
        n == t.0 * 1_000_000_000 + t.1,
        -10_000_000_000_000_000_000_000_000_000 < n < 10_000_000_000_000_000_000_000_000_000,
{
    t.0 as i128 * 1_000_000_000 + t.1 as i128
}

/// An instant is later than another by the time between them, in nanoseconds; a time that
/// cannot be read is no instant.
pub proof fn instants_are_nanoseconds(t: (i64, u32), seconds: i64, e: Seq<char>)
    requires
        i64::MIN <= t.0 + seconds <= i64::MAX,
    ensures
        nanos_of(((t.0 + seconds) as i64, t.1)) == nanos_of(t) + seconds * 1_000_000_000,
        nanos_of((0, t.1)) == t.1,
        instant(Ok(t)) == Ok::<int, Seq<char>>(t.0 * 1_000_000_000 + t.1),
        instant(Err(e)) == Err::<int, Seq<char>>(e),
{
}

} // verus!
