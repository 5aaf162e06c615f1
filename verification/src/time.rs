//! Points in time, and how long ago they were.

use vstd::prelude::*;
use crate::text::push_signed_decimal;

verus! {

/// Nanoseconds in a second.
pub const SECOND: i64 = 1_000_000_000;

/// Seconds in a day.
pub const DAY: i64 = 86_400;

/// A point in time: seconds since 1970-01-01T00:00:00Z, and nanoseconds since the
/// last of them. Within a leap second the nanoseconds run on past a whole second.
#[derive(Clone, Copy, Debug, PartialEq, Eq, Structural)]
pub struct Instant {
    pub seconds: i64,
    pub nanos: u32,
}

/// Whether `seconds` and `nanos` are a point in time between the years -262143
/// and 262142.
pub open spec fn is_timestamp(seconds: i64, nanos: u32) -> bool {
    &&& -8_334_601_228_800 <= seconds <= 8_210_266_876_799
    &&& nanos < 2 * SECOND
    &&& nanos >= SECOND ==> seconds % 60 == 59
}

impl Instant {
    pub open spec fn valid(self) -> bool {
        is_timestamp(self.seconds, self.nanos)
    }

    /// Nanoseconds from `earlier` to `self`. A leap second that `earlier` or `self`
    /// lies in counts where it falls between their times of day.
    pub open spec fn nanos_since(self, earlier: Instant) -> int {
        let leap: int = if self.seconds % DAY > earlier.seconds % DAY && earlier.nanos >= SECOND {
            1
        } else if self.seconds % DAY < earlier.seconds % DAY && self.nanos >= SECOND {
            -1
        } else {
            0
        };
        (self.seconds - earlier.seconds + leap) * SECOND + self.nanos - earlier.nanos
    }

    /// Whole days from `earlier` to `self`, negative where `earlier` is the later.
    pub open spec fn days_since(self, earlier: Instant) -> int {
        let nanos = self.nanos_since(earlier);
        if nanos >= 0 {
            nanos / (DAY * SECOND)
        } else {
            -((-nanos) / (DAY * SECOND))
        }
    }
}

/// The point in time, as seconds and nanoseconds, that the RFC 3339 date and time
/// `text` names; `None` where `text` is none.
pub uninterp spec fn rfc3339_timestamp(text: Seq<char>) -> Option<(i64, u32)>;

/// Reads an RFC 3339 date and time with `chrono::DateTime::parse_from_rfc3339`,
/// taken to UTC. The contract names the result, a function of the text alone, and
/// claims that it lies in the range of chrono's dates, with nanoseconds beyond a
/// second in the last second of a minute only.
#[verifier::external_body]
fn parse_rfc3339(text: &str) -> (timestamp: Option<(i64, u32)>)
    ensures
        timestamp == rfc3339_timestamp(text@),
        timestamp matches Some((seconds, nanos)) ==> is_timestamp(seconds, nanos),
{
    match chrono::DateTime::parse_from_rfc3339(text) {
        Ok(date) => {
            let utc = date.with_timezone(&chrono::Utc);
            Some((utc.timestamp(), utc.timestamp_subsec_nanos()))
        },
        Err(_) => None,
    }
}

/// Subtracts two dates of chrono and takes `TimeDelta::num_days` of the difference.
/// The contract claims that this is the number of whole days between them.
#[verifier::external_body]
fn days_between(earlier: Instant, later: Instant) -> (days: i64)
    requires
        earlier.valid(),
        later.valid(),
    ensures
        days == later.days_since(earlier),
{
    let from = chrono::DateTime::from_timestamp(earlier.seconds, earlier.nanos).unwrap();
    let to = chrono::DateTime::from_timestamp(later.seconds, later.nanos).unwrap();
    (to - from).num_days()
}

/// Reads the system clock with `chrono::Utc::now`, which panics if the clock is set
/// before 1970. The contract claims that the result is in the range of chrono's
/// dates, not before 1970, and never in a leap second, since the clock gives whole
/// seconds and less than a second beyond; which point in time it is, is left unsaid.
#[verifier::external_body]
fn utc_now() -> (now: Instant)
    ensures
        now.valid(),
        0 <= now.seconds,
        now.nanos < SECOND,
{
    let now = chrono::Utc::now();
    Instant { seconds: now.timestamp(), nanos: now.timestamp_subsec_nanos() }
}

/// The present, by the system clock. It is never in a leap second: while the clock is
/// not set back, days counted from it never become fewer. Which point in time it is
/// rests on the clock and is left unsaid.
pub fn current_instant() -> (now: Instant)
    ensures
        now.valid(),
        0 <= now.seconds,
        now.nanos < SECOND,
{
    utc_now()
}

/// The instant that `text` names; `None` where it names none.
pub open spec fn instant_of(text: Seq<char>) -> Option<Instant> {
    match rfc3339_timestamp(text) {
        Some((seconds, nanos)) => Some(Instant { seconds, nanos }),
        None => None,
    }
}

/// Reads an RFC 3339 date and time.
pub fn parse_date(text: &str) -> (instant: Option<Instant>)
    ensures
        instant == instant_of(text@),
        instant matches Some(i) ==> i.valid(),
{
    match parse_rfc3339(text) {
        Some((seconds, nanos)) => Some(Instant { seconds, nanos }),
        None => None,
    }
}

/// Whole days between `date` and `now`; `None` where `date` names no instant.
pub open spec fn days_before(date: Seq<char>, now: Instant) -> Option<int> {
    match instant_of(date) {
        Some(then) => Some(now.days_since(then)),
        None => None,
    }
}

/// Whole days between `date` and `now`; `None` where `date` names no instant.
pub fn days_ago(date: &str, now: Instant) -> (days: Option<i64>)
    requires
        now.valid(),
    ensures
        days is Some <==> days_before(date@, now) is Some,
        days matches Some(d) ==> days_before(date@, now) == Some(d as int),
{
    match parse_date(date) {
        Some(then) => Some(days_between(then, now)),
        None => None,
    }
}

/// A number of days ago, in words.
pub open spec fn age_text(days: int) -> Seq<char> {
    if days == 0 {
        "Today"@
    } else if days == 1 {
        "Yesterday"@
    } else {
        crate::text::signed_decimal(days) + " days ago"@
    }
}

/// How long before `now` `date` was, in words; `date` itself where it names no
/// instant.
pub open spec fn days_ago_text(date: Seq<char>, now: Instant) -> Seq<char> {
    match days_before(date, now) {
        Some(days) => age_text(days),
        None => date,
    }
}

/// Puts a number of days ago in words.
pub fn format_age(days: i64) -> (text: String)
    ensures
        text@ == age_text(days as int),
{
    let mut text = String::new();
    if days == 0 {
        text.append("Today");
    } else if days == 1 {
        text.append("Yesterday");
    } else {
        push_signed_decimal(&mut text, days);
        text.append(" days ago");
    }
    assert(text@ =~= age_text(days as int));
    text
}

/// Puts in words how long before `now` `date` was; hands back a `date` that cannot
/// be read.
pub fn format_days_ago_at(date: &str, now: Instant) -> (text: String)
    requires
        now.valid(),
    ensures
        text@ == days_ago_text(date@, now),
{
    match days_ago(date, now) {
        Some(days) => format_age(days),
        None => date.to_owned(),
    }
}

/// Puts in words how long ago `date` was, by the system clock. Which point in time the
/// days are counted from rests on the clock and is left unsaid.
pub fn format_days_ago(date: &str) -> (text: String)
    ensures
        exists|now: Instant| #[trigger]
            now.valid() && 0 <= now.seconds && now.nanos < SECOND && text@ == days_ago_text(
                date@,
                now,
            ),
{
    let now = current_instant();
    format_days_ago_at(date, now)
}

} // verus!
