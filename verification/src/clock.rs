//! Points in time, and how they are written.
use vstd::prelude::*;
use vstd::string::*;

verus! {

/// A point in time: whole seconds since 1970-01-01 00:00:00 UTC, and the
/// nanoseconds after them.
#[derive(Debug, Clone, Copy, PartialEq, Eq, Structural)]
pub struct Timestamp {
    pub seconds: i64,
    pub nanos: u32,
}

/// The first second of the years that can be written down.
pub const FIRST_SECOND: i64 = -8_334_601_228_800;

/// The last second of the years that can be written down.
pub const LAST_SECOND: i64 = 8_210_266_876_799;

impl Timestamp {
    /// Whether the calendar reaches as far as this point in time.
    pub open spec fn in_calendar(self) -> bool {
        &&& FIRST_SECOND <= self.seconds <= LAST_SECOND
        &&& self.nanos < 1_000_000_000
    }

    pub open spec fn before(self, other: Timestamp) -> bool {
        self.seconds < other.seconds || (self.seconds == other.seconds && self.nanos < other.nanos)
    }

    /// Whether this point in time comes before `other`.
    pub fn is_before(self, other: Timestamp) -> (r: bool)
        ensures
            r == self.before(other),
    {
        self.seconds < other.seconds || (self.seconds == other.seconds && self.nanos < other.nanos)
    }

    /// The whole milliseconds since 1970-01-01 00:00:00 UTC.
    pub fn millis(self) -> (r: i64)
        requires
            self.in_calendar(),
        ensures
            r == self.seconds * 1000 + self.nanos / 1_000_000,
    {
        self.seconds * 1000 + (self.nanos / 1_000_000) as i64
    }
}

/// The RFC 3339 text of the point in time `nanos` nanoseconds after `seconds`.
pub uninterp spec fn rfc3339_text(seconds: i64, nanos: u32) -> Seq<char>;

/// The text `YYYYMMDD-HHMMSS` of the second `seconds`.
pub uninterp spec fn compact_text(seconds: i64) -> Seq<char>;

/// Calls `chrono::Utc::now`. The time that it reads is within chrono's
/// calendar; nothing else is known of it. It panics where the clock of the
/// system stands before 1970.
#[verifier::external_body]
pub(crate) fn utc_now() -> (r: Timestamp)
    ensures
        r.in_calendar(),
{
    let now = chrono::Utc::now();
    Timestamp { seconds: now.timestamp(), nanos: now.timestamp_subsec_nanos() }
}

/// Calls `chrono::DateTime::to_rfc3339` on the point in time that
/// `chrono::DateTime::from_timestamp` makes of the two numbers, which succeeds
/// within the calendar. The text is a function of the two numbers.
#[verifier::external_body]
fn chrono_rfc3339(seconds: i64, nanos: u32) -> (r: String)
    requires
        (Timestamp { seconds, nanos }).in_calendar(),
    ensures
        r@ == rfc3339_text(seconds, nanos),
{
    chrono::DateTime::from_timestamp(seconds, nanos).unwrap().to_rfc3339()
}

/// Calls `chrono::DateTime::format` with `%Y%m%d-%H%M%S` on the second that
/// `chrono::DateTime::from_timestamp` makes of the number, which succeeds
/// within the calendar. The text is a function of the number.
#[verifier::external_body]
fn chrono_compact(seconds: i64) -> (r: String)
    requires
        FIRST_SECOND <= seconds <= LAST_SECOND,
    ensures
        r@ == compact_text(seconds),
{
    chrono::DateTime::from_timestamp(seconds, 0).unwrap().format("%Y%m%d-%H%M%S").to_string()
}

/// A point in time as it stands in results and in the history.
pub fn format_timestamp(at: Timestamp) -> (r: String)
    requires
        at.in_calendar(),
    ensures
        r@ == rfc3339_text(at.seconds, at.nanos),
{
    chrono_rfc3339(at.seconds, at.nanos)
}

/// A point in time as it stands in the names of backups.
pub fn format_backup_stamp(at: Timestamp) -> (r: String)
    requires
        at.in_calendar(),
    ensures
        r@ == compact_text(at.seconds),
{
    chrono_compact(at.seconds)
}

/// The time now.
pub fn current_time() -> (r: Timestamp)
    ensures
        r.in_calendar(),
{
    utc_now()
}

/// The second before which a backup has outlived `days` days.
pub open spec fn cutoff_second(now: Timestamp, days: u64) -> int {
    now.seconds - days * 86_400
}

/// Whether something last written at `modified` is older than `days` days at `now`.
pub open spec fn has_outlived(now: Timestamp, days: u64, modified: Timestamp) -> bool {
    modified.seconds < cutoff_second(now, days) || (modified.seconds == cutoff_second(now, days)
        && modified.nanos < now.nanos)
}

/// The point in time before which a backup has outlived `days` days, or `None`
/// where the calendar does not reach as far back.
pub fn retention_cutoff(now: Timestamp, days: u64) -> (r: Option<Timestamp>)
    requires
        now.in_calendar(),
    ensures
        r is Some <==> cutoff_second(now, days) >= FIRST_SECOND,
        r matches Some(cutoff) ==> cutoff.seconds == cutoff_second(now, days) && cutoff.nanos
            == now.nanos,
{
    let cutoff: i128 = now.seconds as i128 - days as i128 * 86_400;
    if cutoff >= FIRST_SECOND as i128 {
        Some(Timestamp { seconds: cutoff as i64, nanos: now.nanos })
    } else {
        None
    }
}

/// Whether a backup last written at `modified` is to be removed.
pub fn is_expired(modified: Timestamp, cutoff: Timestamp) -> (r: bool)
    ensures
        r == modified.before(cutoff),
{
    modified.is_before(cutoff)
}

/// A backup that has outlived a time of keeping has outlived every shorter one.
pub proof fn shorter_retention_removes_more(now: Timestamp, short: u64, long: u64, modified: Timestamp)
    requires
        short <= long,
        has_outlived(now, long, modified),
    ensures
        has_outlived(now, short, modified),
{
}

/// A point in time comes before another exactly where fewer nanoseconds lie
/// between 1970 and it.
pub proof fn earlier_is_fewer_nanoseconds(a: Timestamp, b: Timestamp)
    requires
        a.nanos < 1_000_000_000,
        b.nanos < 1_000_000_000,
    ensures
        a.before(b) <==> a.seconds * 1_000_000_000 + a.nanos < b.seconds * 1_000_000_000 + b.nanos,
{
}

/// Something has outlived a number of days exactly where more than that many
/// times twenty-four hours lie between it and now.
pub proof fn days_are_twenty_four_hours(now: Timestamp, days: u64, modified: Timestamp)
    requires
        now.nanos < 1_000_000_000,
        modified.nanos < 1_000_000_000,
    ensures
        has_outlived(now, days, modified) <==> (now.seconds - modified.seconds) * 1_000_000_000
            + now.nanos - modified.nanos > days * 24 * 60 * 60 * 1_000_000_000,
{
    assert(days * 24 * 60 * 60 == days * 86_400);
}

} // verus!
