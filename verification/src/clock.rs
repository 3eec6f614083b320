//! Points in time, as the queue records and compares them.
use vstd::prelude::*;

verus! {

/// Seconds since the epoch of the earliest moment that `chrono` can hold.
pub const MIN_SECONDS: i64 = -8_334_601_228_800;

/// Seconds since the epoch of the latest whole second that `chrono` can hold.
pub const MAX_SECONDS: i64 = 8_210_266_876_799;

/// The pattern of the `handledAt` field.
pub const HANDLED_AT_FORMAT: &'static str = "%Y-%m-%dT%H:%M:%S%.6f+00:00";

/// A moment in UTC: whole seconds since the unix epoch and the nanoseconds after them.
///
/// The nanoseconds reach beyond one second only inside a leap second.
#[derive(Clone, Copy, Debug, PartialEq, Eq)]
pub struct Timestamp {
    seconds: i64,
    nanos: u32,
}

/// `chrono` can hold the moment.
pub open spec fn representable(seconds: int, nanos: int) -> bool {
    &&& MIN_SECONDS <= seconds <= MAX_SECONDS
    &&& 0 <= nanos < 2_000_000_000
    &&& nanos >= 1_000_000_000 ==> seconds % 60 == 59
}

/// Milliseconds since the unix epoch.
pub open spec fn millis_of(seconds: int, nanos: int) -> int {
    seconds * 1000 + nanos / 1_000_000
}

/// The text that `chrono` formats a moment to.
pub uninterp spec fn datetime_text(seconds: int, nanos: int, format: Seq<char>) -> Seq<char>;

/// `chrono::DateTime::from_timestamp`, then `format`. A moment within the range of `chrono`
/// converts, and its text is a function of the moment and the pattern. Only the one pattern
/// that the queue uses is let through, since a malformed one would panic.
#[verifier::external_body]
fn format_datetime(seconds: i64, nanos: u32, format: &str) -> (text: Option<String>)
    requires
        representable(seconds as int, nanos as int),
        format@ == HANDLED_AT_FORMAT@,
    ensures
        match text {
            Some(t) => t@ == datetime_text(seconds as int, nanos as int, format@),
            None => false,
        },
{
    chrono::DateTime::from_timestamp(seconds, nanos).map(|at| at.format(format).to_string())
}

impl Timestamp {
    pub closed spec fn spec_seconds(self) -> int {
        self.seconds as int
    }

    pub closed spec fn spec_nanos(self) -> int {
        self.nanos as int
    }

    #[verifier::type_invariant]
    spec fn well_formed(self) -> bool {
        representable(self.seconds as int, self.nanos as int)
    }

    /// Milliseconds since the unix epoch.
    pub open spec fn spec_millis(self) -> int {
        millis_of(self.spec_seconds(), self.spec_nanos())
    }

    /// Nanoseconds since the unix epoch.
    pub open spec fn spec_epoch_nanos(self) -> int {
        total_nanos(self.spec_seconds(), self.spec_nanos())
    }

    /// The text of this moment in the `handledAt` field.
    pub open spec fn spec_text(self) -> Seq<char> {
        datetime_text(self.spec_seconds(), self.spec_nanos(), HANDLED_AT_FORMAT@)
    }

    /// The moment `nanos` nanoseconds after `seconds`, unless it is out of range.
    pub fn new(seconds: i64, nanos: u32) -> (timestamp: Option<Timestamp>)
        ensures
            timestamp is Some <==> representable(seconds as int, nanos as int),
            timestamp matches Some(t) ==> t.spec_seconds() == seconds && t.spec_nanos() == nanos,
    {
        if seconds < MIN_SECONDS || seconds > MAX_SECONDS || nanos >= 2_000_000_000 {
            return None;
        }
        let within_minute = seconds.checked_rem_euclid(60);
        if nanos >= 1_000_000_000 && within_minute != Some(59i64) {
            return None;
        }
        Some(Timestamp { seconds, nanos })
    }

    /// Whole seconds since the unix epoch.
    pub fn seconds(&self) -> (seconds: i64)
        ensures
            seconds == self.spec_seconds(),
    {
        self.seconds
    }

    /// Nanoseconds after the whole second.
    pub fn subsec_nanos(&self) -> (nanos: u32)
        ensures
            nanos == self.spec_nanos(),
    {
        self.nanos
    }

    /// Milliseconds since the unix epoch.
    pub fn timestamp_millis(&self) -> (millis: i64)
        ensures
            millis == self.spec_millis(),
            -i64::MAX <= millis,
    {
        proof {
            use_type_invariant(self);
        }
        self.seconds * 1000 + (self.nanos / 1_000_000) as i64
    }

    /// The text of this moment in the `handledAt` field.
    pub fn handled_at_text(&self) -> (text: String)
        ensures
            text@ == self.spec_text(),
    {
        proof {
            use_type_invariant(self);
        }
        match format_datetime(self.seconds, self.nanos, HANDLED_AT_FORMAT) {
            Some(text) => text,
            None => String::new(),
        }
    }
}

/// A span of time: whole seconds, and the nanoseconds that they leave out.
///
/// Both parts have the sign of the span.
#[derive(Clone, Copy, Debug, PartialEq, Eq)]
pub struct Duration {
    seconds: i64,
    subsec_nanos: i32,
}

/// A span of so many seconds and nanoseconds, in nanoseconds.
pub open spec fn total_nanos(seconds: int, subsec_nanos: int) -> int {
    seconds * 1_000_000_000 + subsec_nanos
}

/// Division that rounds towards zero.
pub open spec fn truncated_div(dividend: int, divisor: int) -> int {
    if dividend >= 0 {
        dividend / divisor
    } else {
        -((-dividend) / divisor)
    }
}

/// `chrono` can hold the span, and these are its parts: it reaches as far as the milliseconds
/// of an `i64` in either direction.
pub open spec fn is_duration(seconds: int, subsec_nanos: int) -> bool {
    let limit = i64::MAX * 1_000_000;
    &&& -1_000_000_000 < subsec_nanos < 1_000_000_000
    &&& seconds > 0 ==> subsec_nanos >= 0
    &&& seconds < 0 ==> subsec_nanos <= 0
    &&& -limit <= total_nanos(seconds, subsec_nanos) <= limit
}

impl Duration {
    /// The span in nanoseconds.
    pub closed spec fn spec_nanos(self) -> int {
        total_nanos(self.seconds as int, self.subsec_nanos as int)
    }

    #[verifier::type_invariant]
    spec fn well_formed(self) -> bool {
        is_duration(self.seconds as int, self.subsec_nanos as int)
    }

    /// The span in whole milliseconds.
    pub open spec fn spec_millis(self) -> int {
        truncated_div(self.spec_nanos(), 1_000_000)
    }

    /// The span of so many seconds and nanoseconds, unless these are not the parts of one.
    pub fn new(seconds: i64, subsec_nanos: i32) -> (duration: Option<Duration>)
        ensures
            duration is Some <==> is_duration(seconds as int, subsec_nanos as int),
            duration matches Some(d) ==> d.spec_nanos() == total_nanos(
                seconds as int,
                subsec_nanos as int,
            ),
    {
        if subsec_nanos <= -1_000_000_000 || subsec_nanos >= 1_000_000_000 {
            return None;
        }
        if (seconds > 0 && subsec_nanos < 0) || (seconds < 0 && subsec_nanos > 0) {
            return None;
        }
        let nanos: i128 = seconds as i128 * 1_000_000_000 + subsec_nanos as i128;
        let limit: i128 = i64::MAX as i128 * 1_000_000;
        if nanos < -limit || nanos > limit {
            return None;
        }
        Some(Duration { seconds, subsec_nanos })
    }

    /// The span of so many milliseconds.
    pub fn milliseconds(millis: i64) -> (duration: Duration)
        requires
            millis > i64::MIN,
        ensures
            duration.spec_nanos() == millis * 1_000_000,
            duration.spec_millis() == millis,
    {
        if millis >= 0 {
            Duration {
                seconds: millis / 1000,
                subsec_nanos: (millis % 1000) as i32 * 1_000_000,
            }
        } else {
            let magnitude = -millis;
            Duration {
                seconds: -(magnitude / 1000),
                subsec_nanos: -((magnitude % 1000) as i32 * 1_000_000),
            }
        }
    }

    /// The span in whole milliseconds.
    pub fn num_milliseconds(&self) -> (millis: i64)
        ensures
            millis == self.spec_millis(),
    {
        proof {
            use_type_invariant(self);
        }
        if self.seconds >= 0 && self.subsec_nanos >= 0 {
            self.seconds * 1000 + (self.subsec_nanos / 1_000_000) as i64
        } else {
            -(-self.seconds * 1000 + (-self.subsec_nanos / 1_000_000) as i64)
        }
    }
}

/// So many nanoseconds since the unix epoch are within the range of moments.
pub open spec fn is_moment(epoch_nanos: int) -> bool {
    MIN_SECONDS * 1_000_000_000 <= epoch_nanos < (MAX_SECONDS + 1) * 1_000_000_000
}

/// A clock that stands still until it is advanced.
#[derive(Clone, Copy, Debug, PartialEq, Eq)]
pub struct TestClock {
    now: Timestamp,
}

impl TestClock {
    /// What the clock shows.
    pub closed spec fn spec_now(self) -> Timestamp {
        self.now
    }

    /// Advanced by this span, the clock would still show a moment that can be expressed.
    pub open spec fn reaches(self, delta: Duration) -> bool {
        is_moment(self.spec_now().spec_epoch_nanos() + delta.spec_nanos())
    }

    /// A clock that shows this moment.
    pub fn new(now: Timestamp) -> (clock: TestClock)
        ensures
            clock.spec_now() == now,
    {
        TestClock { now }
    }

    /// What the clock shows.
    pub fn now(&self) -> (now: Timestamp)
        ensures
            now == self.spec_now(),
    {
        self.now
    }

    /// Nanoseconds since the epoch that the clock would show, advanced by this span.
    fn advanced_nanos(&self, delta: Duration) -> (nanos: i128)
        ensures
            nanos == self.spec_now().spec_epoch_nanos() + delta.spec_nanos(),
    {
        proof {
            use_type_invariant(&self.now);
            use_type_invariant(&delta);
        }
        let shown: i128 = self.now.seconds as i128 * 1_000_000_000 + self.now.nanos as i128;
        let span: i128 = delta.seconds as i128 * 1_000_000_000 + delta.subsec_nanos as i128;
        shown + span
    }

    /// Whether the clock can be advanced by this span.
    pub fn can_advance(&self, delta: Duration) -> (can: bool)
        ensures
            can == self.reaches(delta),
    {
        let nanos = self.advanced_nanos(delta);
        let earliest: i128 = MIN_SECONDS as i128 * 1_000_000_000;
        let beyond: i128 = (MAX_SECONDS as i128 + 1) * 1_000_000_000;
        earliest <= nanos && nanos < beyond
    }

    /// Move the clock by a span, forwards or backwards.
    pub fn advance(&mut self, delta: Duration)
        requires
            old(self).reaches(delta),
        ensures
            final(self).spec_now().spec_epoch_nanos() == old(
                self,
            ).spec_now().spec_epoch_nanos() + delta.spec_nanos(),
            final(self).spec_now().spec_nanos() < 1_000_000_000,
    {
        let nanos = self.advanced_nanos(delta);
        let since_earliest: i128 = nanos - MIN_SECONDS as i128 * 1_000_000_000;
        let whole: i128 = since_earliest / 1_000_000_000;
        let part: i128 = since_earliest % 1_000_000_000;
        let seconds = (MIN_SECONDS as i128 + whole) as i64;
        self.now = Timestamp { seconds, nanos: part as u32 };
    }
}

} // verus!
