//! Publish timestamps: an instant with the UTC offset it was written in.
use vstd::prelude::*;

verus! {

/// A point in time as seconds and nanoseconds since the Unix epoch (UTC),
/// with the offset from UTC, in seconds, that the source text carried.
///
/// `nanos` may exceed one second's worth during a leap second, so instants are
/// ordered by `secs` first and `nanos` second.
#[derive(Clone, Copy, Debug, PartialEq, Eq, Structural)]
pub struct Timestamp {
    pub secs: i64,
    pub nanos: u32,
    pub offset: i32,
}

impl Timestamp {
    /// The instant as one integer that orders timestamps as `(secs, nanos)` does.
    pub open spec fn instant(self) -> int {
        self.secs as int * 0x1_0000_0000 + self.nanos as int
    }

    /// Whether `self` is strictly later than `other`; offsets play no part.
    pub fn is_after(&self, other: &Timestamp) -> (r: bool)
        ensures
            r == (self.instant() > other.instant()),
    {
        self.secs > other.secs || (self.secs == other.secs && self.nanos > other.nanos)
    }
}

/// The later of a running mark and a timestamp; an absent mark yields `t`.
pub open spec fn later_of(mark: Option<Timestamp>, t: Timestamp) -> Timestamp {
    match mark {
        Some(m) => if t.instant() > m.instant() { t } else { m },
        None => t,
    }
}

/// Executable form of `later_of`.
pub fn later(mark: Option<Timestamp>, t: Timestamp) -> (r: Timestamp)
    ensures
        r == later_of(mark, t),
        r.instant() >= t.instant(),
        mark matches Some(m) ==> r.instant() >= m.instant(),
{
    match mark {
        Some(m) => if t.is_after(&m) { t } else { m },
        None => t,
    }
}

/// What RFC 2822 parsing makes of a text: seconds since the epoch, the
/// nanoseconds within that second, and the UTC offset in seconds; `None` when the
/// text is not an RFC 2822 date.
pub uninterp spec fn rfc2822_parts(s: Seq<char>) -> Option<(i64, u32, i32)>;

/// The timestamp that a triple of `rfc2822_parts` stands for.
pub open spec fn stamp_of(p: Option<(i64, u32, i32)>) -> Option<Timestamp> {
    match p {
        Some((secs, nanos, offset)) => Some(Timestamp { secs, nanos, offset }),
        None => None,
    }
}

#[verifier::external_type_specification]
#[verifier::external_body]
pub struct ExParseError(chrono::ParseError);

/// Relies on chrono's `DateTime::parse_from_rfc2822`, read through
/// `timestamp`, `timestamp_subsec_nanos` and the offset's `local_minus_utc`:
/// the outcome depends on the text alone.
#[verifier::external_body]
fn parse_rfc2822(s: &str) -> (r: Result<Timestamp, chrono::ParseError>)
    ensures
        match r {
            Ok(t) => rfc2822_parts(s@) == Some((t.secs, t.nanos, t.offset)),
            Err(_) => rfc2822_parts(s@) is None,
        },
{
    match chrono::DateTime::parse_from_rfc2822(s) {
        Ok(d) => Ok(
            Timestamp {
                secs: d.timestamp(),
                nanos: d.timestamp_subsec_nanos(),
                offset: d.offset().local_minus_utc(),
            },
        ),
        Err(e) => Err(e),
    }
}

/// Reads a feed's publish date. `None` marks the item as undatable.
pub fn parse_pub_date(s: &str) -> (r: Option<Timestamp>)
    ensures
        r == stamp_of(rfc2822_parts(s@)),
{
    match parse_rfc2822(s) {
        Ok(t) => Some(t),
        Err(_) => None,
    }
}

} // verus!
