//! Spans of time with nanosecond resolution.

use vstd::prelude::*;

verus! {

/// Nanoseconds in one second.
pub const NANOS_PER_SEC: u128 = 1_000_000_000;

/// Nanoseconds in one millisecond.
pub const NANOS_PER_MILLI: u128 = 1_000_000;

/// The longest span: `u64::MAX` seconds and 999999999 nanoseconds.
pub const MAX_NANOS: u128 = 18_446_744_073_709_551_615_999_999_999;

/// A span of time, up to `u64::MAX` whole seconds and a fraction of a second in nanoseconds.
/// Its view is its length in nanoseconds.
#[derive(Debug, Clone, Copy, PartialEq, Eq)]
pub struct Duration {
    nanos: u128,
}

impl View for Duration {
    type V = nat;

    closed spec fn view(&self) -> nat {
        self.nanos as nat
    }
}

impl Duration {
    #[verifier::type_invariant]
    spec fn well_formed(self) -> bool {
        self.nanos <= MAX_NANOS
    }

    /// A span of `secs` whole seconds.
    pub fn from_secs(secs: u64) -> (d: Duration)
        ensures
            d@ == secs * NANOS_PER_SEC,
    {
        Duration { nanos: secs as u128 * NANOS_PER_SEC }
    }

    /// A span of `millis` whole milliseconds.
    pub fn from_millis(millis: u64) -> (d: Duration)
        ensures
            d@ == millis * NANOS_PER_MILLI,
    {
        Duration { nanos: millis as u128 * NANOS_PER_MILLI }
    }

    /// A span of `secs` whole seconds and `nanos` nanoseconds.
    pub fn from_parts(secs: u64, nanos: u32) -> (d: Duration)
        requires
            nanos < NANOS_PER_SEC,
        ensures
            d@ == secs * NANOS_PER_SEC + nanos,
    {
        Duration { nanos: secs as u128 * NANOS_PER_SEC + nanos as u128 }
    }

    /// The whole seconds in the span.
    pub fn as_secs(&self) -> (secs: u64)
        ensures
            secs == self@ / NANOS_PER_SEC as nat,
    {
        proof {
            use_type_invariant(self);
        }
        (self.nanos / NANOS_PER_SEC) as u64
    }

    /// The nanoseconds beyond the whole seconds.
    pub fn subsec_nanos(&self) -> (nanos: u32)
        ensures
            nanos == self@ % NANOS_PER_SEC as nat,
    {
        (self.nanos % NANOS_PER_SEC) as u32
    }

    /// The whole milliseconds in the span.
    pub fn as_millis(&self) -> (millis: u128)
        ensures
            millis == self@ / NANOS_PER_MILLI as nat,
    {
        self.nanos / NANOS_PER_MILLI
    }

    /// The sum of two spans, if it is not longer than the longest span.
    pub fn checked_add(&self, other: &Duration) -> (sum: Option<Duration>)
        ensures
            sum is Some <==> self@ + other@ <= MAX_NANOS,
            sum matches Some(d) ==> d@ == self@ + other@,
    {
        proof {
            use_type_invariant(self);
            use_type_invariant(other);
        }
        let nanos: u128 = self.nanos + other.nanos;
        if nanos <= MAX_NANOS {
            Some(Duration { nanos })
        } else {
            None
        }
    }

    /// The sum of two spans, which must not be longer than the longest span.
    pub fn plus(&self, other: &Duration) -> (sum: Duration)
        requires
            self@ + other@ <= MAX_NANOS,
        ensures
            sum@ == self@ + other@,
    {
        Duration { nanos: self.nanos + other.nanos }
    }

    /// The sum of this span and `other`, or `limit` if that is shorter.
    pub fn plus_up_to(&self, other: &Duration, limit: &Duration) -> (sum: Duration)
        ensures
            sum@ == if self@ + other@ <= limit@ {
                self@ + other@
            } else {
                limit@
            },
    {
        proof {
            use_type_invariant(self);
            use_type_invariant(other);
            use_type_invariant(limit);
        }
        let nanos: u128 = self.nanos + other.nanos;
        if nanos <= limit.nanos {
            Duration { nanos }
        } else {
            Duration { nanos: limit.nanos }
        }
    }

    /// What is left of this span after `other`; nothing if `other` is longer.
    pub fn saturating_sub(&self, other: &Duration) -> (rest: Duration)
        ensures
            rest@ == if self@ >= other@ {
                self@ - other@
            } else {
                0
            },
    {
        proof {
            use_type_invariant(self);
        }
        if self.nanos >= other.nanos {
            Duration { nanos: self.nanos - other.nanos }
        } else {
            Duration { nanos: 0 }
        }
    }

    /// Whether this span is at least as long as `other`.
    pub fn at_least(&self, other: &Duration) -> (longer: bool)
        ensures
            longer == (self@ >= other@),
    {
        self.nanos >= other.nanos
    }
}

/// A span made of seconds and nanoseconds gives both back, and its whole milliseconds.
pub proof fn law_parts_are_given_back(
    secs: u64,
    nanos: u32,
    span: Duration,
    got_secs: u64,
    got_nanos: u32,
    got_millis: u128,
)
    requires
        nanos < 1_000_000_000,
        call_ensures(Duration::from_parts, (secs, nanos), span),
        call_ensures(Duration::as_secs, (&span,), got_secs),
        call_ensures(Duration::subsec_nanos, (&span,), got_nanos),
        call_ensures(Duration::as_millis, (&span,), got_millis),
    ensures
        got_secs == secs,
        got_nanos == nanos,
        got_millis == secs * 1000 + nanos / 1_000_000,
        span@ == secs * 1_000_000_000 + nanos,
{
}

/// Seconds and milliseconds are spans of as many nanoseconds as they have.
pub proof fn law_units(n: u64, secs: Duration, millis: Duration)
    requires
        call_ensures(Duration::from_secs, (n,), secs),
        call_ensures(Duration::from_millis, (n,), millis),
    ensures
        secs@ == n * 1_000_000_000,
        millis@ == n * 1_000_000,
{
}

/// Adding a span and taking it away again gives the first span back, where the sum is a span at
/// all; the sum is at least as long as either; and a limit cuts it off.
pub proof fn law_sums(
    a: &Duration,
    b: &Duration,
    limit: &Duration,
    sum: Option<Duration>,
    cut: Duration,
    rest: Duration,
    longer: bool,
)
    requires
        call_ensures(Duration::checked_add, (a, b), sum),
        call_ensures(Duration::plus_up_to, (a, b, limit), cut),
        sum matches Some(s) ==> call_ensures(Duration::saturating_sub, (&s, b), rest)
            && call_ensures(Duration::at_least, (&s, a), longer),
    ensures
        sum is Some <==> a@ + b@ <= 18_446_744_073_709_551_615_999_999_999,
        sum matches Some(s) ==> s@ == a@ + b@ && rest@ == a@ && longer,
        cut@ <= limit@,
        cut@ <= a@ + b@,
        cut@ == limit@ || cut@ == a@ + b@,
{
}

} // verus!
