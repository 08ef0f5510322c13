//! Bounded progress sampling, smoothed speed, and conservative ETA estimates.
use vstd::prelude::*;
use std::collections::VecDeque;
use crate::clock::{Duration, Instant, MonotonicClock, NANOS_PER_SEC};

verus! {

/// Largest exact integer representable by protocol-v2 JavaScript consumers.
pub const MAX_SAFE_INTEGER: u64 = 9_007_199_254_740_991;

pub const MIN_EVENT_INTERVAL_NANOS: u128 = 100_000_000;
pub const MAX_EVENT_INTERVAL_NANOS: u128 = 60_000_000_000;
pub const MIN_SPEED_WINDOW_NANOS: u128 = 1_000_000_000;
pub const MAX_SPEED_WINDOW_NANOS: u128 = 60_000_000_000;
pub const MIN_RATE_SPAN_NANOS: u128 = 500_000_000;
pub const MAX_RATE_SAMPLES: usize = 256;
pub const STABILITY_RATIO: u64 = 4;

/// Invalid progress sampling configuration.
#[derive(Debug, Clone, Copy, PartialEq, Eq, Structural)]
pub enum ProgressConfigError {
    /// Event interval was below 100 ms or above 60 seconds.
    InvalidEventInterval,
    /// Speed window was below one second, above 60 seconds, or shorter than
    /// the event interval.
    InvalidSpeedWindow,
}

/// Rate-limited event cadence and smoothed-rate window.
#[derive(Debug, Clone, Copy, PartialEq, Eq, Structural)]
pub struct ProgressPolicy {
    event_interval: Duration,
    speed_window: Duration,
}

impl ProgressPolicy {
    pub closed spec fn spec_event_interval(self) -> Duration {
        self.event_interval
    }

    pub closed spec fn spec_speed_window(self) -> Duration {
        self.speed_window
    }

    /// Constructs bounded progress behavior. Rejects event intervals outside
    /// 100 ms through 60 seconds, then speed windows outside one through 60
    /// seconds or shorter than the event interval.
    pub fn new(event_interval: Duration, speed_window: Duration) -> (policy: Result<ProgressPolicy, ProgressConfigError>)
        ensures
            !(MIN_EVENT_INTERVAL_NANOS <= event_interval.nanos <= MAX_EVENT_INTERVAL_NANOS)
                ==> policy == Err::<ProgressPolicy, ProgressConfigError>(ProgressConfigError::InvalidEventInterval),
            (MIN_EVENT_INTERVAL_NANOS <= event_interval.nanos <= MAX_EVENT_INTERVAL_NANOS
                && !(MIN_SPEED_WINDOW_NANOS <= speed_window.nanos <= MAX_SPEED_WINDOW_NANOS
                    && speed_window.nanos >= event_interval.nanos))
                ==> policy == Err::<ProgressPolicy, ProgressConfigError>(ProgressConfigError::InvalidSpeedWindow),
            policy is Ok <==> (MIN_EVENT_INTERVAL_NANOS <= event_interval.nanos <= MAX_EVENT_INTERVAL_NANOS
                && MIN_SPEED_WINDOW_NANOS <= speed_window.nanos <= MAX_SPEED_WINDOW_NANOS
                && speed_window.nanos >= event_interval.nanos),
            policy matches Ok(p) ==> p.spec_event_interval() == event_interval && p.spec_speed_window() == speed_window,
    {
        if event_interval.nanos < MIN_EVENT_INTERVAL_NANOS || event_interval.nanos > MAX_EVENT_INTERVAL_NANOS {
            return Err(ProgressConfigError::InvalidEventInterval);
        }
        if speed_window.nanos < MIN_SPEED_WINDOW_NANOS || speed_window.nanos > MAX_SPEED_WINDOW_NANOS
            || speed_window.nanos < event_interval.nanos {
            return Err(ProgressConfigError::InvalidSpeedWindow);
        }
        Ok(ProgressPolicy { event_interval, speed_window })
    }

    /// Minimum interval between ordinary progress events.
    pub fn event_interval(self) -> (interval: Duration)
        ensures
            interval == self.spec_event_interval(),
    {
        self.event_interval
    }

    /// Sliding time window used for speed smoothing.
    pub fn speed_window(self) -> (window: Duration)
        ensures
            window == self.spec_speed_window(),
    {
        self.speed_window
    }
}

impl Default for ProgressPolicy {
    /// Events at most every 250 ms, speed smoothed over 5 seconds.
    fn default() -> (policy: Self)
        ensures
            policy.spec_event_interval().nanos == 250_000_000,
            policy.spec_speed_window().nanos == 5_000_000_000,
    {
        ProgressPolicy {
            event_interval: Duration { nanos: 250_000_000 },
            speed_window: Duration { nanos: 5_000_000_000 },
        }
    }
}

/// Smoothed speed and conservative ETA derived from an absolute sample.
#[derive(Debug, Clone, Copy, PartialEq, Eq, Structural)]
pub struct ProgressEstimate {
    speed_bytes_per_second: Option<u64>,
    eta_seconds: Option<u64>,
    stable: bool,
}

impl ProgressEstimate {
    pub closed spec fn spec_speed(self) -> Option<u64> {
        self.speed_bytes_per_second
    }

    pub closed spec fn spec_eta(self) -> Option<u64> {
        self.eta_seconds
    }

    pub closed spec fn spec_stable(self) -> bool {
        self.stable
    }

    /// Smoothed byte rate after enough observation time, including zero when a
    /// sufficiently long window made no progress.
    pub fn speed_bytes_per_second(self) -> (speed: Option<u64>)
        ensures
            speed == self.spec_speed(),
    {
        self.speed_bytes_per_second
    }

    /// Ceiling ETA for a known remaining size and stable positive rate.
    pub fn eta_seconds(self) -> (eta: Option<u64>)
        ensures
            eta == self.spec_eta(),
    {
        self.eta_seconds
    }

    /// Whether interval rates were stable enough to expose an ETA.
    pub fn is_stable(self) -> (stable: bool)
        ensures
            stable == self.spec_stable(),
    {
        self.stable
    }
}

/// One absolute byte counter observed at one instant.
#[derive(Debug, Clone, Copy, PartialEq, Eq, Structural)]
pub struct RateSample {
    pub at: Instant,
    pub bytes: u64,
}

/// Integer bytes per second over a span, capped at `MAX_SAFE_INTEGER`; zero
/// for an empty span.
pub open spec fn rate_of(bytes: int, nanos: int) -> int {
    if nanos == 0 {
        0
    } else if bytes * NANOS_PER_SEC / nanos > MAX_SAFE_INTEGER {
        MAX_SAFE_INTEGER as int
    } else {
        bytes * NANOS_PER_SEC / nanos
    }
}

/// Rates are stable when there are at least two, and either all are zero or
/// all are positive and none exceeds four times another.
pub open spec fn rates_stable(rates: Seq<u64>) -> bool {
    rates.len() >= 2 && (
        (forall|i: int| 0 <= i < rates.len() ==> #[trigger] rates[i] == 0)
        || ((forall|i: int| 0 <= i < rates.len() ==> #[trigger] rates[i] > 0)
            && (forall|i: int, j: int| 0 <= i < rates.len() && 0 <= j < rates.len()
                ==> #[trigger] rates[i] <= STABILITY_RATIO * #[trigger] rates[j]))
    )
}

/// The rate of each consecutive pair of samples.
pub open spec fn interval_rates(samples: Seq<RateSample>) -> Seq<u64>
    recommends
        samples.len() >= 1,
{
    Seq::new((samples.len() - 1) as nat, |i: int| rate_of(
        samples[i + 1].bytes - samples[i].bytes,
        samples[i + 1].at.nanos - samples[i].at.nanos,
    ) as u64)
}

/// Zero when the known size is already reached.
pub open spec fn completed_eta_of(expected_size: Option<u64>, bytes: u64) -> Option<u64> {
    match expected_size {
        Some(expected) => if expected == bytes { Some(0u64) } else { None },
        None => None,
    }
}

/// `numerator / denominator`, rounded up.
pub open spec fn ceil_div_of(numerator: int, denominator: int) -> int {
    if numerator % denominator == 0 { numerator / denominator } else { numerator / denominator + 1 }
}

/// The estimate reported for a retained sample history.
pub open spec fn estimate_of(samples: Seq<RateSample>, expected_size: Option<u64>) -> (Option<u64>, Option<u64>, bool) {
    if samples.len() == 0 {
        (None, None, false)
    } else if samples.len() < 3
        || samples.last().at.nanos - samples[0].at.nanos < MIN_RATE_SPAN_NANOS {
        (None, completed_eta_of(expected_size, samples.last().bytes), false)
    } else {
        let speed = rate_of(samples.last().bytes - samples[0].bytes, samples.last().at.nanos - samples[0].at.nanos);
        let stable = rates_stable(interval_rates(samples));
        let eta = match expected_size {
            Some(expected) => if samples.last().bytes == expected {
                Some(0u64)
            } else if samples.last().bytes < expected && speed > 0 && stable {
                let remaining = ceil_div_of(expected - samples.last().bytes, speed);
                Some((if remaining > MAX_SAFE_INTEGER { MAX_SAFE_INTEGER as int } else { remaining }) as u64)
            } else {
                None
            },
            None => None,
        };
        (Some(speed as u64), eta, stable)
    }
}

/// Samples ordered by strictly increasing time with non-decreasing bytes.
pub open spec fn well_ordered(samples: Seq<RateSample>) -> bool {
    forall|i: int, j: int| 0 <= i < j < samples.len() ==>
        #[trigger] samples[i].at.nanos < #[trigger] samples[j].at.nanos && samples[i].bytes <= samples[j].bytes
}

/// History after recording a new absolute sample: a backwards clock or byte
/// counter starts a new window, and a sample at the same instant replaces
/// the previous one.
pub open spec fn appended(samples: Seq<RateSample>, bytes: u64, now: Instant) -> Seq<RateSample> {
    let restarted = if samples.len() > 0 && (now.nanos < samples.last().at.nanos || bytes < samples.last().bytes) {
        Seq::<RateSample>::empty()
    } else {
        samples
    };
    let replaced = if restarted.len() > 0 && restarted.last().at == now { restarted.drop_last() } else { restarted };
    replaced.push(RateSample { at: now, bytes })
}

/// Drops samples that fell out of the window, always keeping the last one
/// before the window start, and at least two samples.
pub open spec fn trim_window(samples: Seq<RateSample>, cutoff: Option<int>) -> Seq<RateSample>
    decreases samples.len(),
{
    if samples.len() > 2 && cutoff is Some && samples[1].at.nanos < cutoff.unwrap() {
        trim_window(samples.drop_first(), cutoff)
    } else {
        samples
    }
}

/// Keeps only the newest `MAX_RATE_SAMPLES` samples.
pub open spec fn trim_count(samples: Seq<RateSample>) -> Seq<RateSample> {
    if samples.len() > MAX_RATE_SAMPLES { samples.skip(samples.len() - MAX_RATE_SAMPLES) } else { samples }
}

/// The start of the smoothing window, if it lies after the epoch.
pub open spec fn window_cutoff(now: Instant, window: Duration) -> Option<int> {
    if now.nanos >= window.nanos { Some(now.nanos - window.nanos) } else { None }
}

proof fn lemma_skip_ordered(samples: Seq<RateSample>, k: int)
    requires
        well_ordered(samples),
        0 <= k <= samples.len(),
    ensures
        well_ordered(samples.skip(k)),
{
    assert forall|i: int, j: int| 0 <= i < j < samples.skip(k).len() implies
        #[trigger] samples.skip(k)[i].at.nanos < #[trigger] samples.skip(k)[j].at.nanos
            && samples.skip(k)[i].bytes <= samples.skip(k)[j].bytes by {
        assert(samples.skip(k)[i] == samples[i + k] && samples.skip(k)[j] == samples[j + k]);
        assert(samples[i + k].at.nanos < samples[j + k].at.nanos);
    }
}

proof fn lemma_appended_ordered(samples: Seq<RateSample>, bytes: u64, now: Instant)
    requires
        well_ordered(samples),
    ensures
        well_ordered(appended(samples, bytes, now)),
        appended(samples, bytes, now).len() <= samples.len() + 1,
{
    let restarted = if samples.len() > 0 && (now.nanos < samples.last().at.nanos || bytes < samples.last().bytes) {
        Seq::<RateSample>::empty()
    } else {
        samples
    };
    let replaced = if restarted.len() > 0 && restarted.last().at == now { restarted.drop_last() } else { restarted };
    let result = replaced.push(RateSample { at: now, bytes });
    assert(replaced.len() == 0 || (replaced == samples.take(replaced.len() as int)));
    assert forall|i: int, j: int| 0 <= i < j < result.len() implies
        #[trigger] result[i].at.nanos < #[trigger] result[j].at.nanos && result[i].bytes <= result[j].bytes by {
        if j < replaced.len() {
            assert(result[i] == samples[i] && result[j] == samples[j]);
        } else {
            assert(result[i] == samples[i]);
            if i < samples.len() - 1 {
                assert(samples[i].at.nanos < samples[samples.len() - 1].at.nanos);
            }
        }
    }
}

proof fn lemma_trim_window_ordered(samples: Seq<RateSample>, cutoff: Option<int>)
    requires
        well_ordered(samples),
    ensures
        well_ordered(trim_window(samples, cutoff)),
        trim_window(samples, cutoff).len() <= samples.len(),
    decreases samples.len(),
{
    if samples.len() > 2 && cutoff is Some && samples[1].at.nanos < cutoff.unwrap() {
        lemma_skip_ordered(samples, 1);
        assert(samples.drop_first() =~= samples.skip(1));
        lemma_trim_window_ordered(samples.drop_first(), cutoff);
    }
}

proof fn lemma_trim_count_ordered(samples: Seq<RateSample>)
    requires
        well_ordered(samples),
    ensures
        well_ordered(trim_count(samples)),
        trim_count(samples).len() <= MAX_RATE_SAMPLES,
        trim_count(samples).len() <= samples.len(),
{
    if samples.len() > MAX_RATE_SAMPLES {
        lemma_skip_ordered(samples, samples.len() - MAX_RATE_SAMPLES);
    }
}

/// Bounded sliding-window estimator over absolute byte counters.
#[derive(Debug)]
pub struct SpeedEstimator {
    window: Duration,
    samples: VecDeque<RateSample>,
    clock: MonotonicClock,
}

impl SpeedEstimator {
    /// Window bounds, ordered samples and the sample cap.
    pub closed spec fn wf(self) -> bool {
        &&& MIN_SPEED_WINDOW_NANOS <= self.window.nanos <= MAX_SPEED_WINDOW_NANOS
        &&& well_ordered(self.samples@)
        &&& self.samples@.len() <= MAX_RATE_SAMPLES
    }

    /// The retained sample history, oldest first.
    pub closed spec fn history(self) -> Seq<RateSample> {
        self.samples@
    }

    /// The smoothing window.
    pub closed spec fn spec_window(self) -> Duration {
        self.window
    }

    /// The latest reading of the estimator's monotonic clock.
    pub closed spec fn spec_clock_last(self) -> u128 {
        self.clock.spec_last()
    }

    /// Creates an estimator for a one-through-60-second window.
    pub fn new(window: Duration) -> (estimator: Result<SpeedEstimator, ProgressConfigError>)
        ensures
            estimator is Ok <==> MIN_SPEED_WINDOW_NANOS <= window.nanos <= MAX_SPEED_WINDOW_NANOS,
            estimator matches Ok(e) ==> e.history().len() == 0 && e.spec_window() == window && e.wf()
                && e.spec_clock_last() == 0,
            estimator matches Err(e) ==> e == ProgressConfigError::InvalidSpeedWindow,
    {
        if window.nanos < MIN_SPEED_WINDOW_NANOS || window.nanos > MAX_SPEED_WINDOW_NANOS {
            return Err(ProgressConfigError::InvalidSpeedWindow);
        }
        Ok(SpeedEstimator { window, samples: VecDeque::new(), clock: MonotonicClock::start() })
    }

    /// Discards previous timing history, such as after pause or a stream
    /// restart from byte zero.
    pub fn reset(&mut self)
        requires
            old(self).wf(),
        ensures
            final(self).wf(),
            final(self).history().len() == 0,
            final(self).spec_window() == old(self).spec_window(),
            final(self).spec_clock_last() == old(self).spec_clock_last(),
    {
        self.samples.clear();
    }

    /// Adds an absolute sample at the current reading of the estimator's
    /// monotonic clock, which started with the estimator.
    pub fn sample(&mut self, bytes: u64, expected_size: Option<u64>) -> (estimate: ProgressEstimate)
        requires
            old(self).wf(),
        ensures
            final(self).wf(),
            final(self).spec_window() == old(self).spec_window(),
            final(self).spec_clock_last() >= old(self).spec_clock_last(),
            exists|now: Instant| {
                &&& now.nanos >= old(self).spec_clock_last()
                &&& now.nanos == final(self).spec_clock_last()
                &&& #[trigger] final(self).history() == trim_count(trim_window(
                    appended(old(self).history(), bytes, now), window_cutoff(now, old(self).spec_window())))
                &&& (estimate.spec_speed(), estimate.spec_eta(), estimate.spec_stable())
                    == estimate_of(final(self).history(), expected_size)
            },
    {
        let now = self.clock.now();
        assert(self.history() == old(self).history());
        let estimate = self.sample_at(bytes, expected_size, now);
        assert(self.history() == trim_count(trim_window(
            appended(old(self).history(), bytes, now), window_cutoff(now, old(self).spec_window()))));
        estimate
    }

    /// Adds an absolute sample at an explicit clock reading.
    ///
    /// A backwards timestamp or byte counter starts a new window rather than
    /// producing a negative or inflated rate. ETA remains absent for unknown
    /// sizes, zero rates, and interval rates differing by more than 4×.
    pub fn sample_at(&mut self, bytes: u64, expected_size: Option<u64>, now: Instant) -> (estimate: ProgressEstimate)
        requires
            old(self).wf(),
        ensures
            final(self).wf(),
            final(self).spec_window() == old(self).spec_window(),
            final(self).history() == trim_count(trim_window(
                appended(old(self).history(), bytes, now), window_cutoff(now, old(self).spec_window()))),
            (estimate.spec_speed(), estimate.spec_eta(), estimate.spec_stable())
                == estimate_of(final(self).history(), expected_size),
            final(self).spec_clock_last() == old(self).spec_clock_last(),
    {
        let ghost original = self.samples@;
        let len = self.samples.len();
        if len > 0 && (now.nanos < self.samples[len - 1].at.nanos || bytes < self.samples[len - 1].bytes) {
            self.samples.clear();
        }
        let len = self.samples.len();
        if len > 0 && self.samples[len - 1].at.nanos == now.nanos {
            self.samples.pop_back();
        }
        self.samples.push_back(RateSample { at: now, bytes });
        proof {
            assert(self.samples@ == appended(original, bytes, now));
            lemma_appended_ordered(original, bytes, now);
        }
        self.trim(now);
        proof {
            let c = window_cutoff(now, self.window);
            lemma_trim_window_ordered(appended(original, bytes, now), c);
            lemma_trim_count_ordered(trim_window(appended(original, bytes, now), c));
        }
        self.estimate(expected_size)
    }

    fn trim(&mut self, now: Instant)
        requires
            MIN_SPEED_WINDOW_NANOS <= old(self).window.nanos <= MAX_SPEED_WINDOW_NANOS,
            well_ordered(old(self).samples@),
            old(self).samples@.len() <= MAX_RATE_SAMPLES + 1,
        ensures
            final(self).window == old(self).window,
            final(self).clock == old(self).clock,
            final(self).samples@ == trim_count(trim_window(old(self).samples@, window_cutoff(now, old(self).window))),
    {
        let cutoff = now.checked_sub(self.window);
        let ghost c = window_cutoff(now, self.window);
        loop
            invariant
                trim_window(self.samples@, c) == trim_window(old(self).samples@, c),
                self.window == old(self).window,
                self.clock == old(self).clock,
                c == window_cutoff(now, self.window),
                cutoff matches Some(t) ==> c == Some(t.nanos as int),
                cutoff is None ==> c is None,
            ensures
                self.samples@ == trim_window(old(self).samples@, c),
                self.window == old(self).window,
                self.clock == old(self).clock,
            decreases self.samples@.len(),
        {
            let drop = match cutoff {
                Some(limit) => self.samples.len() > 2 && self.samples[1].at.nanos < limit.nanos,
                None => false,
            };
            if !drop {
                break;
            }
            self.samples.pop_front();
        }
        let ghost windowed = self.samples@;
        while self.samples.len() > MAX_RATE_SAMPLES
            invariant
                self.samples@.len() >= MAX_RATE_SAMPLES ==> trim_count(windowed) == self.samples@.skip(self.samples@.len() - MAX_RATE_SAMPLES),
                self.samples@.len() <= MAX_RATE_SAMPLES ==> self.samples@ == trim_count(windowed),
                self.window == old(self).window,
                self.clock == old(self).clock,
            decreases self.samples@.len(),
        {
            self.samples.pop_front();
            proof {
                if self.samples@.len() == MAX_RATE_SAMPLES {
                    assert(self.samples@.skip(0) =~= self.samples@);
                }
            }
        }
    }

    fn estimate(&self, expected_size: Option<u64>) -> (estimate: ProgressEstimate)
        requires
            well_ordered(self.samples@),
        ensures
            (estimate.speed_bytes_per_second, estimate.eta_seconds, estimate.stable)
                == estimate_of(self.samples@, expected_size),
    {
        let len = self.samples.len();
        if len == 0 {
            return ProgressEstimate { speed_bytes_per_second: None, eta_seconds: None, stable: false };
        }
        let first = self.samples[0];
        let last = self.samples[len - 1];
        if len < 3 {
            return ProgressEstimate {
                speed_bytes_per_second: None,
                eta_seconds: completed_eta(expected_size, last.bytes),
                stable: false,
            };
        }
        let span = last.at.saturating_duration_since(first.at);
        if span.nanos < MIN_RATE_SPAN_NANOS || span.is_zero() {
            return ProgressEstimate {
                speed_bytes_per_second: None,
                eta_seconds: completed_eta(expected_size, last.bytes),
                stable: false,
            };
        }
        let delta = last.bytes - first.bytes;
        let speed = rate(delta, span);
        let mut rates: Vec<u64> = Vec::new();
        let mut index: usize = 1;
        while index < len
            invariant
                len == self.samples@.len(),
                1 <= index <= len,
                well_ordered(self.samples@),
                rates@ =~= interval_rates(self.samples@).take(index - 1),
            decreases len - index,
        {
            let previous = self.samples[index - 1];
            let current = self.samples[index];
            let interval = current.at.saturating_duration_since(previous.at);
            if !interval.is_zero() {
                rates.push(rate(current.bytes - previous.bytes, interval));
            }
            index += 1;
        }
        proof {
            assert(interval_rates(self.samples@).take(len - 1) =~= interval_rates(self.samples@));
        }
        let stable = rates_are_stable(&rates);
        let eta_seconds = match expected_size {
            Some(expected) => if last.bytes == expected {
                Some(0)
            } else if last.bytes < expected && speed > 0 && stable {
                let remaining = ceil_div(expected - last.bytes, speed);
                Some(if remaining > MAX_SAFE_INTEGER { MAX_SAFE_INTEGER } else { remaining })
            } else {
                None
            },
            None => None,
        };
        ProgressEstimate { speed_bytes_per_second: Some(speed), eta_seconds, stable }
    }
}

/// Integer bytes per second over `elapsed`, capped at `MAX_SAFE_INTEGER`.
pub fn rate(bytes: u64, elapsed: Duration) -> (r: u64)
    ensures
        r == rate_of(bytes as int, elapsed.nanos as int),
{
    let nanos = elapsed.as_nanos();
    if nanos == 0 {
        return 0;
    }
    assert(bytes * NANOS_PER_SEC <= u64::MAX * NANOS_PER_SEC) by (nonlinear_arith);
    let value = bytes as u128 * NANOS_PER_SEC / nanos;
    if value > MAX_SAFE_INTEGER as u128 {
        MAX_SAFE_INTEGER
    } else {
        value as u64
    }
}

/// Whether at least two interval rates agree within a factor of four (or are
/// all zero).
pub fn rates_are_stable(rates: &[u64]) -> (stable: bool)
    ensures
        stable == rates_stable(rates@),
{
    if rates.len() < 2 {
        return false;
    }
    let mut minimum = rates[0];
    let mut maximum = rates[0];
    let mut index: usize = 1;
    while index < rates.len()
        invariant
            1 <= index <= rates@.len(),
            forall|k: int| 0 <= k < index ==> minimum <= #[trigger] rates@[k] <= maximum,
            exists|k: int| 0 <= k < index && minimum == #[trigger] rates@[k],
            exists|k: int| 0 <= k < index && maximum == #[trigger] rates@[k],
        decreases rates@.len() - index,
    {
        if rates[index] < minimum {
            minimum = rates[index];
        }
        if rates[index] > maximum {
            maximum = rates[index];
        }
        index += 1;
    }
    if maximum == 0 {
        return true;
    }
    let stable = minimum > 0 && maximum as u128 <= minimum as u128 * STABILITY_RATIO as u128;
    proof {
        let lo = choose|k: int| 0 <= k < rates@.len() && minimum == #[trigger] rates@[k];
        let hi = choose|k: int| 0 <= k < rates@.len() && maximum == #[trigger] rates@[k];
        if stable {
            assert forall|i: int, j: int| 0 <= i < rates@.len() && 0 <= j < rates@.len()
                implies #[trigger] rates@[i] <= STABILITY_RATIO * #[trigger] rates@[j] by {
                assert(rates@[i] <= maximum && minimum <= rates@[j]);
            }
        } else {
            if minimum > 0 {
                assert(rates@[hi] > STABILITY_RATIO * rates@[lo]);
            } else {
                assert(rates@[lo] == 0 && rates@[hi] > 0);
            }
        }
    }
    stable
}

/// Zero when a known size has been reached, otherwise unknown.
pub fn completed_eta(expected_size: Option<u64>, bytes: u64) -> (eta: Option<u64>)
    ensures
        eta == completed_eta_of(expected_size, bytes),
{
    match expected_size {
        Some(expected) => if expected == bytes { Some(0) } else { None },
        None => None,
    }
}

/// `numerator / denominator`, rounded up.
pub fn ceil_div(numerator: u64, denominator: u64) -> (q: u64)
    requires
        denominator > 0,
    ensures
        q == ceil_div_of(numerator as int, denominator as int),
{
    let quotient = numerator / denominator;
    if numerator % denominator == 0 {
        quotient
    } else {
        assert(quotient < u64::MAX) by (nonlinear_arith)
            requires quotient == numerator / denominator, denominator > 0, numerator % denominator != 0;
        quotient + 1
    }
}


/// The history after one sample at an explicit reading.
pub open spec fn sampled_history(history: Seq<RateSample>, window: Duration, bytes: u64, now: Instant) -> Seq<RateSample> {
    trim_count(trim_window(appended(history, bytes, now), window_cutoff(now, window)))
}

/// What a sequence of `sample_at(bytes, expected_size, now)` calls reports,
/// in order, starting from `history` with `window`.
pub open spec fn replay(history: Seq<RateSample>, window: Duration, samples: Seq<(u64, Option<u64>, Instant)>) -> Seq<
    (Option<u64>, Option<u64>, bool),
>
    decreases samples.len(),
{
    if samples.len() == 0 {
        Seq::empty()
    } else {
        let next = sampled_history(history, window, samples[0].0, samples[0].2);
        seq![estimate_of(next, samples[0].1)] + replay(next, window, samples.drop_first())
    }
}

/// An estimator after [`SpeedEstimator::reset`] behaves as a fresh one
/// made with the same window: every later sequence of samples reports
/// exactly what it reports on the fresh estimator, and leaves the same
/// history; no earlier timing survives the reset.
pub proof fn lemma_reset_is_fresh(
    after_reset: SpeedEstimator,
    fresh: SpeedEstimator,
    samples: Seq<(u64, Option<u64>, Instant)>,
)
    requires
        after_reset.history().len() == 0,
        fresh.history().len() == 0,
        after_reset.spec_window() == fresh.spec_window(),
    ensures
        replay(after_reset.history(), after_reset.spec_window(), samples) == replay(
            fresh.history(),
            fresh.spec_window(),
            samples,
        ),
{
    assert(after_reset.history() =~= fresh.history());
}

} // verus!
