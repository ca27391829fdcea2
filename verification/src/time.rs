//! Instants and durations.

use vstd::prelude::*;

verus! {

/// Nanoseconds in a second.
pub const NANOS_PER_SEC: u32 = 1_000_000_000;

/// Seconds in a day.
pub const SECS_PER_DAY: i64 = 86_400;

/// The first second that an instant can lie in.
pub const FIRST_SECOND: i64 = -8_334_601_228_800;

/// The last second that an instant can lie in.
pub const LAST_SECOND: i64 = 8_210_266_876_799;

/// A span of time.
#[derive(Debug, Clone, Copy, PartialEq, Eq, Structural)]
pub struct Duration {
    pub secs: u64,
    pub nanos: u32,
}

impl Duration {
    /// A span of whole seconds.
    pub fn from_secs(secs: u64) -> (r: Duration)
        ensures
            r == (Duration { secs, nanos: 0 }),
    {
        Duration { secs, nanos: 0 }
    }
}

/// Whether seconds since the epoch and nanoseconds within the second give an
/// instant. The nanoseconds pass a second only within a leap second, which
/// prolongs the last second of a minute.
pub open spec fn is_instant(secs: i64, nanos: u32) -> bool {
    &&& FIRST_SECOND <= secs <= LAST_SECOND
    &&& nanos < 2 * NANOS_PER_SEC
    &&& nanos >= NANOS_PER_SEC ==> secs as int % 60 == 59
}

/// An instant in universal time: seconds since the epoch, and nanoseconds
/// within the second.
#[derive(Debug, Clone, Copy, PartialEq, Eq, Structural)]
pub struct Timestamp {
    secs: i64,
    nanos: u32,
}

/// The text of an instant, as `chrono` writes it: with `Z` or with `+00:00`
/// for the offset.
pub uninterp spec fn instant_text(secs: i64, nanos: u32, use_z: bool) -> Seq<char>;

/// The nanoseconds from one instant to another, leap seconds counted on the
/// day that they fall on.
pub open spec fn elapsed(to_secs: i64, to_nanos: u32, from_secs: i64, from_nanos: u32) -> int {
    let day = SECS_PER_DAY as int;
    let leap: int = if to_secs as int % day > from_secs as int % day && from_nanos
        >= NANOS_PER_SEC {
        1
    } else if (to_secs as int % day) < from_secs as int % day && to_nanos >= NANOS_PER_SEC {
        -1
    } else {
        0
    };
    (to_secs - from_secs + leap) * NANOS_PER_SEC + (to_nanos - from_nanos)
}

/// The span of a number of nanoseconds; none for a negative number.
pub open spec fn span_of(nanos: int) -> Option<(u64, u32)> {
    if nanos < 0 {
        None
    } else {
        Some(((nanos / NANOS_PER_SEC as int) as u64, (nanos % NANOS_PER_SEC as int) as u32))
    }
}

/// `DateTime::to_rfc3339_opts` of `chrono`, on the instant that
/// `DateTime::from_timestamp` gives, with as many digits after the second as
/// needed: a function of the instant and of the way to write the offset.
/// `DateTime::to_rfc3339` is this with `+00:00`, and `chrono` serialises an
/// instant as this with `Z`.
#[verifier::external_body]
fn rfc3339(secs: i64, nanos: u32, use_z: bool) -> (r: String)
    requires
        is_instant(secs, nanos),
    ensures
        r@ == instant_text(secs, nanos, use_z),
{
    let at = chrono::DateTime::from_timestamp(secs, nanos).unwrap();
    at.to_rfc3339_opts(chrono::SecondsFormat::AutoSi, use_z)
}

/// The difference of two `DateTime`s of `chrono`, turned into a span by
/// `TimeDelta::to_std`: the nanoseconds that elapse from the one to the other,
/// and nothing where the difference is negative.
#[verifier::external_body]
fn difference(
    to_secs: i64,
    to_nanos: u32,
    from_secs: i64,
    from_nanos: u32,
) -> (r: Option<(u64, u32)>)
    requires
        is_instant(to_secs, to_nanos),
        is_instant(from_secs, from_nanos),
    ensures
        r == span_of(elapsed(to_secs, to_nanos, from_secs, from_nanos)),
{
    let to = chrono::DateTime::from_timestamp(to_secs, to_nanos).unwrap();
    let from = chrono::DateTime::from_timestamp(from_secs, from_nanos).unwrap();
    (to - from).to_std().ok().map(|d| (d.as_secs(), d.subsec_nanos()))
}

impl Timestamp {
    #[verifier::type_invariant]
    spec fn valid(self) -> bool {
        is_instant(self.secs, self.nanos)
    }

    /// Seconds since the epoch.
    pub closed spec fn at_secs(self) -> i64 {
        self.secs
    }

    /// Nanoseconds within the second.
    pub closed spec fn at_nanos(self) -> u32 {
        self.nanos
    }

    /// Whether an instant comes after another.
    pub open spec fn is_after(self, other: Timestamp) -> bool {
        self.at_secs() > other.at_secs() || (self.at_secs() == other.at_secs() && self.at_nanos()
            > other.at_nanos())
    }

    /// The text of the instant.
    pub open spec fn text(self, use_z: bool) -> Seq<char> {
        instant_text(self.at_secs(), self.at_nanos(), use_z)
    }

    /// The nanoseconds from another instant to this one.
    pub open spec fn since(self, other: Timestamp) -> int {
        elapsed(self.at_secs(), self.at_nanos(), other.at_secs(), other.at_nanos())
    }

    /// The instant of seconds since the epoch and nanoseconds, if there is one.
    pub fn new(secs: i64, nanos: u32) -> (r: Option<Timestamp>)
        ensures
            r is Some <==> is_instant(secs, nanos),
            r is Some <==> -8_334_601_228_800 <= secs <= 8_210_266_876_799 && nanos
                < 2_000_000_000 && (nanos >= 1_000_000_000 ==> secs as int % 60 == 59),
            r matches Some(t) ==> t.at_secs() == secs && t.at_nanos() == nanos,
    {
        if secs < FIRST_SECOND || secs > LAST_SECOND || nanos >= 2 * NANOS_PER_SEC {
            return None;
        }
        if nanos >= NANOS_PER_SEC && (secs - FIRST_SECOND) % 60 != 59 {
            return None;
        }
        Some(Timestamp { secs, nanos })
    }

    /// Seconds since the epoch.
    pub fn secs(&self) -> (r: i64)
        ensures
            r == self.at_secs(),
    {
        self.secs
    }

    /// Nanoseconds within the second.
    pub fn nanos(&self) -> (r: u32)
        ensures
            r == self.at_nanos(),
    {
        self.nanos
    }

    /// Whether this instant comes after another.
    pub fn after(&self, other: &Timestamp) -> (r: bool)
        ensures
            r == self.is_after(*other),
            r == (self.at_secs() > other.at_secs() || (self.at_secs() == other.at_secs()
                && self.at_nanos() > other.at_nanos())),
    {
        self.secs > other.secs || (self.secs == other.secs && self.nanos > other.nanos)
    }

    /// The text of the instant with `+00:00` for the offset.
    pub fn to_rfc3339(&self) -> (r: String)
        ensures
            r@ == self.text(false),
            r@ == instant_text(self.at_secs(), self.at_nanos(), false),
    {
        proof {
            use_type_invariant(self);
        }
        rfc3339(self.secs, self.nanos, false)
    }

    /// The text that stands for the instant in JSON.
    pub fn to_json_text(&self) -> (r: String)
        ensures
            r@ == self.text(true),
            r@ == instant_text(self.at_secs(), self.at_nanos(), true),
    {
        proof {
            use_type_invariant(self);
        }
        rfc3339(self.secs, self.nanos, true)
    }

    /// The span from another instant to this one; zero where this one comes
    /// first.
    pub fn wait_from(&self, now: &Timestamp) -> (r: Duration)
        ensures
            match span_of(self.since(*now)) {
                Some((secs, nanos)) => r == (Duration { secs, nanos }),
                None => r == (Duration { secs: 0, nanos: 0 }),
            },
    {
        proof {
            use_type_invariant(self);
            use_type_invariant(now);
        }
        match difference(self.secs, self.nanos, now.secs, now.nanos) {
            Some((secs, nanos)) => Duration { secs, nanos },
            None => Duration { secs: 0, nanos: 0 },
        }
    }
}

/// The order of instants is a strict total order.
pub proof fn instants_are_ordered(a: Timestamp, b: Timestamp, c: Timestamp)
    ensures
        !a.is_after(a),
        a.is_after(b) && b.is_after(c) ==> a.is_after(c),
        a != b ==> a.is_after(b) || b.is_after(a),
{
}

/// An instant comes after another where it lies in a later second, or later
/// within the same.
pub proof fn later_seconds_come_after(a: Timestamp, b: Timestamp)
    ensures
        a.at_secs() > b.at_secs() ==> a.is_after(b),
        a.at_secs() < b.at_secs() ==> !a.is_after(b),
        a.at_secs() == b.at_secs() ==> (a.is_after(b) <==> a.at_nanos() > b.at_nanos()),
{
}

/// Between instants outside leap seconds elapse the seconds and nanoseconds
/// that they lie apart.
pub proof fn instants_lie_apart(a: Timestamp, b: Timestamp)
    requires
        a.at_nanos() < NANOS_PER_SEC,
        b.at_nanos() < NANOS_PER_SEC,
    ensures
        a.since(b) == (a.at_secs() - b.at_secs()) * 1_000_000_000 + (a.at_nanos() - b.at_nanos()),
        a.since(b) == -b.since(a),
{
}

/// A span has the nanoseconds that it was made of, fewer than a second of them
/// beside its seconds.
pub proof fn spans_keep_their_length(nanos: int)
    requires
        nanos / 1_000_000_000 <= u64::MAX,
    ensures
        nanos < 0 ==> span_of(nanos) is None,
        nanos >= 0 ==> (span_of(nanos) matches Some((secs, rest)) && secs * 1_000_000_000 + rest
            == nanos && rest < 1_000_000_000),
{
}

/// From within a leap second to a later time of the day one second more
/// elapses, and to within one from a later time of the day one second less.
pub proof fn leap_seconds_count_on_their_day(a: Timestamp, b: Timestamp)
    ensures
        ({
            let apart = (a.at_secs() - b.at_secs()) * 1_000_000_000 + (a.at_nanos() - b.at_nanos());
            let later = a.at_secs() as int % 86_400 > b.at_secs() as int % 86_400;
            let earlier = (a.at_secs() as int % 86_400) < b.at_secs() as int % 86_400;
            &&& later && b.at_nanos() >= 1_000_000_000 ==> a.since(b) == apart + 1_000_000_000
            &&& earlier && a.at_nanos() >= 1_000_000_000 ==> a.since(b) == apart - 1_000_000_000
            &&& !(later && b.at_nanos() >= 1_000_000_000) && !(earlier && a.at_nanos()
                >= 1_000_000_000) ==> a.since(b) == apart
        }),
{
}

}
