//! Spans of time and the monotonic clock that the jitter buffer reads.
use vstd::prelude::*;

verus! {

pub const NANOS_PER_MILLI: u128 = 1_000_000;

pub const NANOS_PER_SEC: u128 = 1_000_000_000;

/// The longest span: `u64::MAX` seconds and 999 999 999 nanoseconds.
pub const MAX_NANOS: u128 = 18_446_744_073_709_551_615_999_999_999;

/// A span of time with nanosecond resolution.
#[derive(Clone, Copy, Debug, PartialEq, Eq, Structural)]
pub struct Duration {
    nanos: u128,
}

impl Duration {
    /// The length of the span in nanoseconds.
    pub closed spec fn nanos(self) -> nat {
        self.nanos as nat
    }

    #[verifier::type_invariant]
    spec fn in_range(self) -> bool {
        self.nanos <= MAX_NANOS
    }

    pub fn from_secs(secs: u64) -> (d: Duration)
        ensures
            d.nanos() == secs * NANOS_PER_SEC,
    {
        Duration { nanos: secs as u128 * NANOS_PER_SEC }
    }

    pub fn from_millis(millis: u64) -> (d: Duration)
        ensures
            d.nanos() == millis * NANOS_PER_MILLI,
    {
        Duration { nanos: millis as u128 * NANOS_PER_MILLI }
    }

    /// The span of `nanos` nanoseconds, or the longest span where that is too much.
    pub fn from_nanos_saturating(nanos: u128) -> (d: Duration)
        ensures
            d.nanos() == if nanos <= MAX_NANOS { nanos as nat } else { MAX_NANOS as nat },
    {
        if nanos <= MAX_NANOS {
            Duration { nanos }
        } else {
            Duration { nanos: MAX_NANOS }
        }
    }

    pub fn as_nanos(&self) -> (n: u128)
        ensures
            n == self.nanos(),
            n <= MAX_NANOS,
    {
        proof {
            use_type_invariant(self);
        }
        self.nanos
    }

    pub fn as_millis(&self) -> (n: u128)
        ensures
            n == self.nanos() / NANOS_PER_MILLI as nat,
    {
        self.nanos / NANOS_PER_MILLI
    }

    pub fn as_secs(&self) -> (n: u64)
        ensures
            n == self.nanos() / NANOS_PER_SEC as nat,
    {
        proof {
            use_type_invariant(self);
        }
        (self.nanos / NANOS_PER_SEC) as u64
    }

    /// `self * k`, or `None` where that is longer than the longest span.
    pub fn checked_mul(&self, k: u32) -> (d: Option<Duration>)
        ensures
            d is Some <==> self.nanos() * k <= MAX_NANOS,
            d matches Some(v) ==> v.nanos() == self.nanos() * k,
    {
        proof {
            use_type_invariant(self);
            assert(self.nanos * k <= MAX_NANOS * 0xffff_ffff) by (nonlinear_arith)
                requires
                    self.nanos <= MAX_NANOS,
                    k <= 0xffff_ffffu32,
            ;
        }
        let n: u128 = self.nanos * (k as u128);
        if n <= MAX_NANOS {
            Some(Duration { nanos: n })
        } else {
            None
        }
    }

    /// `self + other`, or `None` where that is longer than the longest span.
    pub fn checked_add(&self, other: Duration) -> (d: Option<Duration>)
        ensures
            d is Some <==> self.nanos() + other.nanos() <= MAX_NANOS,
            d matches Some(v) ==> v.nanos() == self.nanos() + other.nanos(),
    {
        proof {
            use_type_invariant(self);
            use_type_invariant(&other);
        }
        let n: u128 = self.nanos + other.nanos;
        if n <= MAX_NANOS {
            Some(Duration { nanos: n })
        } else {
            None
        }
    }

    /// `self - other`, or the empty span where `other` is longer.
    pub fn saturating_sub(&self, other: Duration) -> (d: Duration)
        ensures
            d.nanos() == if other.nanos() <= self.nanos() {
                (self.nanos() - other.nanos()) as nat
            } else {
                0
            },
    {
        proof {
            use_type_invariant(self);
        }
        if other.nanos <= self.nanos {
            Duration { nanos: self.nanos - other.nanos }
        } else {
            Duration { nanos: 0 }
        }
    }

    /// The shorter of the two spans.
    pub fn min(&self, other: Duration) -> (d: Duration)
        ensures
            d.nanos() == if other.nanos() < self.nanos() { other.nanos() } else { self.nanos() },
            d == *self || d == other,
    {
        if other.nanos < self.nanos {
            other
        } else {
            *self
        }
    }

    /// Whether this span is at least as long as `other`.
    pub fn at_least(&self, other: Duration) -> (b: bool)
        ensures
            b == (self.nanos() >= other.nanos()),
    {
        self.nanos >= other.nanos
    }
}

/// `std::time::Instant`, a reading of the monotonic clock. It is carried, never looked into.
#[verifier::external_type_specification]
#[verifier::external_body]
pub struct ExInstant(std::time::Instant);

/// `std::time::Instant::now`: some instant. Nothing is claimed of it.
pub assume_specification[ std::time::Instant::now ]() -> (r: std::time::Instant);

/// `std::time::Instant::elapsed`, in nanoseconds. The reading depends on when the call is made,
/// so nothing is claimed of it.
#[verifier::external_body]
fn elapsed_nanos(start: &std::time::Instant) -> (n: u128) {
    start.elapsed().as_nanos()
}

/// A clock that counts from the moment it was started.
#[derive(Clone, Copy)]
pub struct Clock {
    start: std::time::Instant,
}

impl Clock {
    /// Starts a clock now.
    pub(crate) fn start() -> Clock {
        Clock { start: std::time::Instant::now() }
    }

    /// Nanoseconds since the clock was started.
    pub(crate) fn nanos(&self) -> u128 {
        elapsed_nanos(&self.start)
    }
}

} // verus!
