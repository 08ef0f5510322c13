//! Exact nanosecond durations and clock readings used by progress sampling,
//! scheduling cadence and retry delays.
use vstd::prelude::*;

verus! {

/// Nanoseconds in one millisecond.
pub const NANOS_PER_MILLI: u128 = 1_000_000;
/// Nanoseconds in one second.
pub const NANOS_PER_SEC: u128 = 1_000_000_000;

/// A span of time with nanosecond precision.
#[derive(Debug, Clone, Copy, PartialEq, Eq, PartialOrd, Ord, Hash, Structural)]
pub struct Duration {
    pub nanos: u128,
}

impl Duration {
    /// A span of whole seconds.
    pub fn from_secs(secs: u64) -> (d: Duration)
        ensures
            d.nanos == secs * NANOS_PER_SEC,
    {
        assert(secs * NANOS_PER_SEC <= u64::MAX * NANOS_PER_SEC) by (nonlinear_arith);
        Duration { nanos: secs as u128 * NANOS_PER_SEC }
    }

    /// A span of whole milliseconds.
    pub fn from_millis(millis: u64) -> (d: Duration)
        ensures
            d.nanos == millis * NANOS_PER_MILLI,
    {
        assert(millis * NANOS_PER_MILLI <= u64::MAX * NANOS_PER_MILLI) by (nonlinear_arith);
        Duration { nanos: millis as u128 * NANOS_PER_MILLI }
    }

    /// A span of nanoseconds.
    pub fn from_nanos(nanos: u64) -> (d: Duration)
        ensures
            d.nanos == nanos,
    {
        Duration { nanos: nanos as u128 }
    }

    /// The empty span.
    pub fn zero() -> (d: Duration)
        ensures
            d.nanos == 0,
    {
        Duration { nanos: 0 }
    }

    /// Whole nanoseconds.
    pub fn as_nanos(self) -> (n: u128)
        ensures
            n == self.nanos,
    {
        self.nanos
    }

    /// Whole milliseconds, rounded down.
    pub fn as_millis(self) -> (m: u128)
        ensures
            m == self.nanos / NANOS_PER_MILLI,
    {
        self.nanos / NANOS_PER_MILLI
    }

    /// Whether the span is empty.
    pub fn is_zero(self) -> (z: bool)
        ensures
            z == (self.nanos == 0),
    {
        self.nanos == 0
    }

    /// `self - other`, or zero when `other` is longer.
    pub fn saturating_sub(self, other: Duration) -> (d: Duration)
        ensures
            d.nanos == if self.nanos >= other.nanos { self.nanos - other.nanos } else { 0 },
    {
        if self.nanos >= other.nanos {
            Duration { nanos: self.nanos - other.nanos }
        } else {
            Duration { nanos: 0 }
        }
    }
}

/// A clock reading in nanoseconds from the clock's origin: the Unix epoch
/// for the wall clock ([`Instant::now`]), or the start of a
/// [`MonotonicClock`]. Readings compare only with readings of the same clock.
#[derive(Debug, Clone, Copy, PartialEq, Eq, PartialOrd, Ord, Hash, Structural)]
pub struct Instant {
    pub nanos: u128,
}

/// Reads `std::time::SystemTime::now()` and measures it from `UNIX_EPOCH`
/// with `duration_since`. The result depends on the machine's clock; nothing
/// is promised of it beyond its type. A clock set before the epoch yields
/// `None`.
#[verifier::external_body]
pub(crate) fn system_clock_nanos() -> (nanos: Option<u128>) {
    std::time::SystemTime::now().duration_since(std::time::UNIX_EPOCH).ok().map(|d| d.as_nanos())
}

impl Instant {
    /// The current wall-clock reading (the epoch itself when the clock
    /// predates it), for comparison with calendar dates such as an HTTP
    /// `Retry-After` date. Elapsed time is measured with a
    /// [`MonotonicClock`] instead.
    pub fn now() -> (now: Instant) {
        match system_clock_nanos() {
            Some(nanos) => Instant { nanos },
            None => Instant { nanos: 0 },
        }
    }

    /// A reading a given number of nanoseconds after the epoch.
    pub fn from_nanos_since_epoch(nanos: u128) -> (instant: Instant)
        ensures
            instant.nanos == nanos,
    {
        Instant { nanos }
    }

    /// `self + span`, or `None` when it cannot be represented.
    pub fn checked_add(self, span: Duration) -> (later: Option<Instant>)
        ensures
            later is Some <==> self.nanos + span.nanos <= u128::MAX,
            later matches Some(t) ==> t.nanos == self.nanos + span.nanos,
    {
        match self.nanos.checked_add(span.nanos) {
            Some(nanos) => Some(Instant { nanos }),
            None => None,
        }
    }

    /// `self - span`, or `None` before the epoch.
    pub fn checked_sub(self, span: Duration) -> (earlier: Option<Instant>)
        ensures
            earlier is Some <==> self.nanos >= span.nanos,
            earlier matches Some(t) ==> t.nanos == self.nanos - span.nanos,
    {
        if self.nanos >= span.nanos {
            Some(Instant { nanos: self.nanos - span.nanos })
        } else {
            None
        }
    }

    /// Time elapsed from `earlier` to `self`, or zero if `earlier` is later.
    pub fn saturating_duration_since(self, earlier: Instant) -> (d: Duration)
        ensures
            d.nanos == if self.nanos >= earlier.nanos { self.nanos - earlier.nanos } else { 0 },
    {
        if self.nanos >= earlier.nanos {
            Duration { nanos: self.nanos - earlier.nanos }
        } else {
            Duration { nanos: 0 }
        }
    }
}


/// The monotonic clock type of `std`.
#[verifier::external_type_specification]
#[verifier::external_body]
pub struct ExStdInstant(std::time::Instant);

/// Calls `std::time::Instant::now()`. The reading is opaque; nothing is
/// promised of it.
#[verifier::external_body]
fn monotonic_origin() -> (origin: std::time::Instant) {
    std::time::Instant::now()
}

/// Calls `Instant::elapsed` on `origin` and reads `Duration::as_nanos`.
/// `std` documents the monotonic clock as never going backwards and
/// `elapsed` as saturating at zero; what the reading is depends on the time
/// of the call, so nothing is promised of the value.
#[verifier::external_body]
fn monotonic_elapsed_nanos(origin: &std::time::Instant) -> (nanos: u128) {
    origin.elapsed().as_nanos()
}

/// A monotonic clock measuring from the moment it was started; its readings
/// never go backwards, whatever happens to the wall clock.
#[derive(Debug, Clone, Copy)]
pub struct MonotonicClock {
    origin: std::time::Instant,
    last: u128,
}

impl MonotonicClock {
    /// The latest reading handed out.
    pub closed spec fn spec_last(self) -> u128 {
        self.last
    }

    /// Starts a clock at zero.
    pub fn start() -> (clock: MonotonicClock)
        ensures
            clock.spec_last() == 0,
    {
        MonotonicClock { origin: monotonic_origin(), last: 0 }
    }

    /// The time since the clock started; never earlier than a previous
    /// reading of this clock.
    pub fn now(&mut self) -> (now: Instant)
        ensures
            now.nanos >= old(self).spec_last(),
            final(self).spec_last() == now.nanos,
    {
        let elapsed = monotonic_elapsed_nanos(&self.origin);
        let nanos = if elapsed < self.last { self.last } else { elapsed };
        self.last = nanos;
        Instant { nanos }
    }
}

} // verus!
