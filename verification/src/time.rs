//! RFC 3339 timestamps, read and written by chrono and carried here as
//! plain values: seconds since the Unix epoch, the sub-second nanoseconds
//! and the UTC offset they were written with.
use vstd::prelude::*;

verus! {

/// A point in time as chrono's `DateTime<FixedOffset>` holds it.
#[derive(Debug, Clone, Copy, PartialEq, Eq, Structural)]
pub struct Rfc3339Time {
    /// Whole seconds since 1970-01-01T00:00:00Z.
    pub secs: i64,
    /// Nanoseconds past `secs` (above one second only inside a leap second).
    pub nanos: u32,
    /// The offset from UTC, in seconds east.
    pub offset_secs: i32,
}

impl Rfc3339Time {
    pub open spec fn as_tuple(self) -> (i64, u32, i32) {
        (self.secs, self.nanos, self.offset_secs)
    }
}

/// What `DateTime::parse_from_rfc3339` gives for a string, as
/// (seconds, nanoseconds, offset), or `None` where it fails.
pub uninterp spec fn rfc3339_parse(s: Seq<char>) -> Option<(i64, u32, i32)>;

/// What `DateTime::checked_add_signed` gives for a time and a number of
/// seconds (`None` also when the plain values name no `DateTime`).
pub uninterp spec fn rfc3339_add_seconds(t: (i64, u32, i32), secs: i64) -> Option<(i64, u32, i32)>;

/// What `DateTime::to_rfc3339_opts(SecondsFormat::Secs, true)` writes for a
/// time (`None` when the plain values name no `DateTime`).
pub uninterp spec fn rfc3339_format_secs(t: (i64, u32, i32)) -> Option<Seq<char>>;

/// The plain values of an optional time.
pub open spec fn opt_time_tuple(t: Option<Rfc3339Time>) -> Option<(i64, u32, i32)> {
    match t {
        Some(t) => Some(t.as_tuple()),
        None => None,
    }
}

/// Local times, in seconds since the epoch, that RFC 3339 can write: the
/// years 0000 to 9999.
pub open spec fn four_digit_year_local(local: int) -> bool {
    -62_167_219_200 <= local <= 253_402_300_799
}

/// Calls `chrono::DateTime::parse_from_rfc3339`; the result is the named one.
/// chrono reads exactly four year digits and accepts offsets from -23:59 to
/// +23:59, so a parsed time's local second lies in the years 0000 to 9999
/// and its offset is under a day.
#[verifier::external_body]
fn rfc3339_from_str(s: &str) -> (r: Option<Rfc3339Time>)
    ensures
        opt_time_tuple(r) == rfc3339_parse(s@),
        r is Some ==> four_digit_year_local(r->0.secs + r->0.offset_secs),
        r is Some ==> -86_400 < r->0.offset_secs < 86_400,
{
    match chrono::DateTime::parse_from_rfc3339(s) {
        Ok(dt) => Some(
            Rfc3339Time {
                secs: dt.timestamp(),
                nanos: dt.timestamp_subsec_nanos(),
                offset_secs: dt.offset().local_minus_utc(),
            },
        ),
        Err(_) => None,
    }
}

/// Calls `chrono::DateTime::checked_add_signed` with `TimeDelta::seconds(secs)`;
/// the result is the named one. The offset is kept, and the timestamp moves
/// by `secs` (one more when a negative shift leaves a leap second).
#[verifier::external_body]
fn add_seconds(t: Rfc3339Time, secs: i64) -> (r: Option<Rfc3339Time>)
    requires
        -9_223_372_036_854_775 <= secs <= 9_223_372_036_854_775,
    ensures
        opt_time_tuple(r) == rfc3339_add_seconds(t.as_tuple(), secs),
        r is Some ==> r->0.offset_secs == t.offset_secs,
        r is Some ==> t.secs + secs <= r->0.secs <= t.secs + secs + 1,
{
    let offset = chrono::FixedOffset::east_opt(t.offset_secs)?;
    let dt = chrono::DateTime::from_timestamp(t.secs, t.nanos)?.with_timezone(&offset);
    let moved = dt.checked_add_signed(chrono::TimeDelta::seconds(secs))?;
    Some(
        Rfc3339Time {
            secs: moved.timestamp(),
            nanos: moved.timestamp_subsec_nanos(),
            offset_secs: moved.offset().local_minus_utc(),
        },
    )
}

/// The local seconds a `NaiveDateTime` can hold: from the start of year
/// -262143 to the end of year 262142.
pub open spec fn naive_local_in_range(local: int) -> bool {
    -8_334_601_315_200 <= local <= 8_210_266_876_799
}

/// Calls `chrono::DateTime::to_rfc3339_opts(SecondsFormat::Secs, true)`; the
/// result is the named one. chrono panics when the local time (the instant
/// plus its offset) leaves the range of `NaiveDateTime`; `requires` leaves
/// those times out.
#[verifier::external_body]
fn format_rfc3339_secs(t: Rfc3339Time) -> (r: Option<String>)
    requires
        naive_local_in_range(t.secs + t.offset_secs),
    ensures
        match r {
            Some(s) => rfc3339_format_secs(t.as_tuple()) == Some(s@),
            None => rfc3339_format_secs(t.as_tuple()) is None,
        },
{
    let offset = chrono::FixedOffset::east_opt(t.offset_secs)?;
    let dt = chrono::DateTime::from_timestamp(t.secs, t.nanos)?.with_timezone(&offset);
    Some(dt.to_rfc3339_opts(chrono::SecondsFormat::Secs, true))
}

/// The instant `secs` seconds and `nanos` nanoseconds after the epoch, in
/// nanoseconds.
pub open spec fn instant_spec(secs: i64, nanos: u32) -> int {
    secs * 1_000_000_000 + nanos
}

/// The instant of a time, in nanoseconds since the epoch.
pub fn instant_of(secs: i64, nanos: u32) -> (n: i128)
    ensures
        n == instant_spec(secs, nanos),
        -0x10000000000000000000000000 < n < 0x10000000000000000000000000,
{
    secs as i128 * 1_000_000_000 + nanos as i128
}

/// The instant an RFC 3339 string names, in nanoseconds since the epoch, as
/// `DateTime::parse_from_rfc3339(s).ok().map(|dt| dt.with_timezone(&Utc))`
/// locates it.
pub fn parse_instant(s: &str) -> (r: Option<i128>)
    ensures
        r == match rfc3339_parse(s@) {
            Some(t) => Some(instant_spec(t.0, t.1) as i128),
            None => None::<i128>,
        },
        r is Some ==> -0x10000000000000000000000000 < r->0 < 0x10000000000000000000000000,
{
    match rfc3339_from_str(s) {
        Some(t) => Some(instant_of(t.secs, t.nanos)),
        None => None,
    }
}

/// An instant written as RFC 3339 in UTC with whole seconds and a `Z`
/// (`DateTime::<Utc>::to_rfc3339_opts(SecondsFormat::Secs, true)`): `secs`
/// seconds and `nanos` nanoseconds after the epoch. `None` when the instant
/// lies outside the years chrono can write, or names no time.
pub fn utc_rfc3339_secs(secs: i64, nanos: u32) -> (r: Option<String>)
    ensures
        !naive_local_in_range(secs as int) ==> r is None,
        naive_local_in_range(secs as int) ==> match r {
            Some(s) => rfc3339_format_secs((secs, nanos, 0i32)) == Some(s@),
            None => rfc3339_format_secs((secs, nanos, 0i32)) is None,
        },
{
    if secs < -8_334_601_315_200 || secs > 8_210_266_876_799 {
        return None;
    }
    format_rfc3339_secs(Rfc3339Time { secs, nanos, offset_secs: 0 })
}

/// The UTC instant an optional RFC 3339 string names, as whole seconds since
/// the epoch and the nanoseconds past them (above a second only inside a
/// leap second); `None` when there is no string or it does not parse.
pub fn parse_rfc3339(s: Option<&str>) -> (r: Option<(i64, u32)>)
    ensures
        r == match s {
            None => None::<(i64, u32)>,
            Some(s) => match rfc3339_parse(s@) {
                Some(t) => Some((t.0, t.1)),
                None => None::<(i64, u32)>,
            },
        },
{
    match s {
        None => None,
        Some(s) => match rfc3339_from_str(s) {
            Some(t) => Some((t.secs, t.nanos)),
            None => None,
        },
    }
}

/// Moves an RFC 3339 timestamp one second later, written back with whole
/// seconds and the offset it had (`Z` for UTC), so that GitHub's inclusive
/// `since` filter becomes exclusive. A string that does not parse comes back
/// unchanged. `None` when the timestamp cannot be moved on: it lies at the
/// very end of chrono's range.
pub fn advance_timestamp_by_one_sec(ts: &str) -> (r: Option<String>)
    ensures
        match rfc3339_parse(ts@) {
            None => r is Some && r->0@ == ts@,
            Some(t) => match rfc3339_add_seconds(t, 1) {
                None => r is None,
                Some(t2) => match rfc3339_format_secs(t2) {
                    Some(out) => r is Some && r->0@ == out,
                    None => r is None,
                },
            },
        },
{
    match rfc3339_from_str(ts) {
        None => Some(ts.to_owned()),
        Some(t) => match add_seconds(t, 1) {
            None => None,
            Some(t2) => format_rfc3339_secs(t2),
        },
    }
}

} // verus!
