use vstd::prelude::*;

use crate::balancing_algorithms::AlgorithmType;

verus! {

/// The least time, in milliseconds, between two automatic policy switches.
pub const DEBOUNCE_MS: u128 = 10000;

/// The mean of `n` samples averaging `avg`, after one more sample `x`.
pub open spec fn running_mean(avg: int, n: int, x: int) -> int {
    (avg * n + x) / (n + 1)
}

/// The sample counter after one more sample; it stays at `u64::MAX` once it
/// gets there.
pub open spec fn next_count(n: nat) -> nat {
    if n < u64::MAX {
        n + 1
    } else {
        n
    }
}

/// tokio's monotonic instant, carried as an opaque value: the meter keeps the
/// one it was built at as the origin of its clock.
#[verifier::external_type_specification]
#[verifier::external_body]
pub struct ExInstant(tokio::time::Instant);

/// Relies on tokio::time::Instant::now to read the monotonic clock; nothing
/// is known of the instant it returns.
pub assume_specification[ tokio::time::Instant::now ]() -> tokio::time::Instant;

/// Relies on tokio::time::Instant::elapsed and std's Duration::as_millis: the
/// whole milliseconds since `origin`, as the clock reads now.
#[verifier::external_body]
fn millis_since(origin: &tokio::time::Instant) -> u128 {
    origin.elapsed().as_millis()
}

/// Per-policy running means of request latency, and the time of the last
/// policy switch.
pub struct Metrics {
    round_robin_average: Option<u64>,
    least_connections_average: Option<u64>,
    request_count: u64,
    previous_switch_ms: u128,
    clock_origin: tokio::time::Instant,
}

impl Metrics {
    /// The mean latency in milliseconds recorded for `kind` since it was last
    /// reset, if any was recorded.
    pub closed spec fn average(&self, kind: AlgorithmType) -> Option<int> {
        let a = match kind {
            AlgorithmType::RoundRobin => self.round_robin_average,
            AlgorithmType::LeastConnections => self.least_connections_average,
        };
        match a {
            Some(v) => Some(v as int),
            None => None,
        }
    }

    /// The sample counter shared by both kinds.
    pub closed spec fn sample_count(&self) -> nat {
        self.request_count as nat
    }

    /// When the last switch happened, in milliseconds of the meter's clock,
    /// which reads 0 at construction.
    pub closed spec fn last_switch_ms(&self) -> nat {
        self.previous_switch_ms as nat
    }

    /// A meter with no samples whose debounce period starts now.
    pub fn new() -> (r: Self)
        ensures
            r.average(AlgorithmType::RoundRobin).is_none(),
            r.average(AlgorithmType::LeastConnections).is_none(),
            r.sample_count() == 0,
            r.last_switch_ms() == 0,
    {
        Metrics {
            round_robin_average: None,
            least_connections_average: None,
            request_count: 0,
            previous_switch_ms: 0,
            clock_origin: tokio::time::Instant::now(),
        }
    }

    /// The milliseconds since this meter was constructed, as the clock reads
    /// now.
    pub fn elapsed_ms(&self) -> u128 {
        millis_since(&self.clock_origin)
    }

    /// Folds a latency sample of `time_ms` milliseconds into the mean of
    /// `algorithm_type`, which starts at 0 when absent.
    pub fn record_response_time(&mut self, algorithm_type: AlgorithmType, time_ms: u64)
        ensures
            final(self).average(algorithm_type) == Some(
                running_mean(
                    match old(self).average(algorithm_type) {
                        Some(a) => a,
                        None => 0,
                    },
                    old(self).sample_count() as int,
                    time_ms as int,
                ),
            ),
            forall|k: AlgorithmType| k != algorithm_type ==> final(self).average(k) == old(self).average(k),
            final(self).sample_count() == next_count(old(self).sample_count()),
            final(self).last_switch_ms() == old(self).last_switch_ms(),
    {
        let avg = self.get_average_response_time_ms(algorithm_type);
        let a = avg as u128;
        let n = self.request_count as u128;
        let x = time_ms as u128;
        proof {
            assert(a * n <= (u64::MAX as int) * (u64::MAX as int)) by (nonlinear_arith)
                requires a <= u64::MAX, n <= u64::MAX;
        }
        let total = a * n + x;
        let mean = total / (n + 1);
        proof {
            let ai = a as int;
            let ni = n as int;
            let xi = x as int;
            let ti = total as int;
            let mi: int = if ai >= xi { ai } else { xi };
            assert(ti <= mi * (ni + 1)) by (nonlinear_arith)
                requires ti == ai * ni + xi, ai <= mi, xi <= mi, ni >= 0;
            assert(ti / (ni + 1) <= mi) by (nonlinear_arith)
                requires ti <= mi * (ni + 1), ni >= 0, mi >= 0, ti >= 0;
        }
        let mean = mean as u64;
        match algorithm_type {
            AlgorithmType::RoundRobin => self.round_robin_average = Some(mean),
            AlgorithmType::LeastConnections => self.least_connections_average = Some(mean),
        }
        if self.request_count < u64::MAX {
            self.request_count = self.request_count + 1;
        }
    }

    /// The mean latency recorded for `algorithm_type` since its last reset;
    /// `None` when none was.
    pub fn average_response_time_ms(&self, algorithm_type: AlgorithmType) -> (r: Option<u64>)
        ensures
            match r {
                Some(v) => self.average(algorithm_type) == Some(v as int),
                None => self.average(algorithm_type).is_none(),
            },
    {
        match algorithm_type {
            AlgorithmType::RoundRobin => self.round_robin_average,
            AlgorithmType::LeastConnections => self.least_connections_average,
        }
    }

    /// The mean latency recorded for `algorithm_type`, 0 when none is.
    pub fn get_average_response_time_ms(&self, algorithm_type: AlgorithmType) -> (r: u64)
        ensures
            r as int == match self.average(algorithm_type) {
                Some(a) => a,
                None => 0,
            },
    {
        match self.average_response_time_ms(algorithm_type) {
            Some(v) => v,
            None => 0,
        }
    }

    /// Drops the mean of `algorithm_type`, zeroes the sample counter and
    /// starts a debounce period at `now_ms`.
    pub fn reset_at(&mut self, algorithm_type: AlgorithmType, now_ms: u128)
        ensures
            final(self).average(algorithm_type).is_none(),
            forall|k: AlgorithmType| k != algorithm_type ==> final(self).average(k) == old(self).average(k),
            final(self).sample_count() == 0,
            final(self).last_switch_ms() == now_ms,
    {
        match algorithm_type {
            AlgorithmType::RoundRobin => self.round_robin_average = None,
            AlgorithmType::LeastConnections => self.least_connections_average = None,
        }
        self.request_count = 0;
        self.previous_switch_ms = now_ms;
    }

    /// Drops the mean of `algorithm_type`, zeroes the sample counter and
    /// starts a debounce period now.
    pub fn reset(&mut self, algorithm_type: AlgorithmType)
        ensures
            final(self).average(algorithm_type).is_none(),
            forall|k: AlgorithmType| k != algorithm_type ==> final(self).average(k) == old(self).average(k),
            final(self).sample_count() == 0,
    {
        let now_ms = self.elapsed_ms();
        self.reset_at(algorithm_type, now_ms);
    }

    /// Whether the debounce period has run out at `now_ms`.
    pub fn should_switch_at(&self, now_ms: u128) -> (r: bool)
        ensures
            r == (now_ms >= self.last_switch_ms() + DEBOUNCE_MS),
    {
        now_ms >= self.previous_switch_ms && now_ms - self.previous_switch_ms >= DEBOUNCE_MS
    }

    /// Whether the debounce period has run out, as the clock reads now.
    pub fn should_switch(&self) -> bool {
        let now_ms = self.elapsed_ms();
        self.should_switch_at(now_ms)
    }
}

} // verus!
