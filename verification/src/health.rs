//! Health of one endpoint: its rolling probe statistics and the status
//! that follows from them.
//!
//! Probes are counted over a window of time. A probe that arrives after the
//! window has run out starts a new window. An endpoint is healthy while at
//! least one in five probes of the window succeeded.

use vstd::prelude::*;

verus! {

/// What is known of an endpoint's availability.
#[derive(Clone, Copy, Debug, PartialEq, Eq, Structural)]
pub enum HealthStatus {
    /// Not probed yet; treated as eligible.
    Unknown,
    /// At least 20% of the probes of the window succeeded.
    Healthy,
    /// Fewer than 20% of the probes of the window succeeded.
    Unhealthy,
}

/// Probe counters of the current window. Times are in ticks of the
/// caller's clock.
#[derive(Clone, Copy, Debug, PartialEq, Eq, Structural)]
pub struct ProbeStats {
    pub successes: u64,
    pub attempts: u64,
    pub window_start: u64,
}

/// Counters that are consistent: no more successes than attempts.
pub open spec fn stats_wf(stats: ProbeStats) -> bool {
    stats.successes <= stats.attempts
}

/// Whether a probe at `now` starts a new window: nothing was counted yet,
/// the clock went back, the window has run out, or a counter is full.
pub open spec fn starts_new_window(stats: ProbeStats, now: u64, window: u64) -> bool {
    ||| stats.attempts == 0
    ||| now < stats.window_start
    ||| now - stats.window_start >= window
    ||| stats.attempts == u64::MAX
    ||| stats.successes == u64::MAX
}

/// The counters after a probe at `now`.
pub open spec fn stats_after_probe(
    stats: ProbeStats,
    success: bool,
    now: u64,
    window: u64,
) -> ProbeStats {
    let gained: u64 = if success {
        1
    } else {
        0
    };
    if starts_new_window(stats, now, window) {
        ProbeStats { successes: gained, attempts: 1, window_start: now }
    } else {
        ProbeStats {
            successes: (stats.successes + gained) as u64,
            attempts: (stats.attempts + 1) as u64,
            window_start: stats.window_start,
        }
    }
}

/// Whether `successes` out of `attempts` is at least 20%.
pub open spec fn meets_threshold(successes: nat, attempts: nat) -> bool {
    successes * 5 >= attempts
}

/// The status that follows from the counters.
pub open spec fn status_for(stats: ProbeStats) -> HealthStatus {
    if stats.attempts == 0 {
        HealthStatus::Unknown
    } else if meets_threshold(stats.successes as nat, stats.attempts as nat) {
        HealthStatus::Healthy
    } else {
        HealthStatus::Unhealthy
    }
}

/// Counters of an endpoint that was never probed.
pub fn no_probes() -> (stats: ProbeStats)
    ensures
        stats == (ProbeStats { successes: 0, attempts: 0, window_start: 0 }),
        status_for(stats) == HealthStatus::Unknown,
{
    ProbeStats { successes: 0, attempts: 0, window_start: 0 }
}

/// Counts one probe made at `now`.
pub fn record_probe(stats: ProbeStats, success: bool, now: u64, window: u64) -> (out: ProbeStats)
    ensures
        out == stats_after_probe(stats, success, now, window),
        stats_wf(stats) ==> stats_wf(out),
        out.attempts >= 1,
{
    let gained: u64 = if success {
        1
    } else {
        0
    };
    if stats.attempts == 0 || now < stats.window_start || now - stats.window_start >= window
        || stats.attempts == u64::MAX || stats.successes == u64::MAX {
        ProbeStats { successes: gained, attempts: 1, window_start: now }
    } else {
        ProbeStats {
            successes: stats.successes + gained,
            attempts: stats.attempts + 1,
            window_start: stats.window_start,
        }
    }
}

/// The status that follows from the counters.
pub fn evaluate(stats: ProbeStats) -> (status: HealthStatus)
    ensures
        status == status_for(stats),
{
    if stats.attempts == 0 {
        HealthStatus::Unknown
    } else if stats.successes as u128 * 5 >= stats.attempts as u128 {
        HealthStatus::Healthy
    } else {
        HealthStatus::Unhealthy
    }
}

/// After a probe an endpoint is never `Unknown`: it is `Healthy` exactly
/// when at least 20% of the probes of its window succeeded, and
/// `Unhealthy` otherwise.
pub proof fn lemma_status_after_probe(stats: ProbeStats, success: bool, now: u64, window: u64)
    requires
        stats_wf(stats),
    ensures
        ({
            let out = stats_after_probe(stats, success, now, window);
            &&& status_for(out) != HealthStatus::Unknown
            &&& status_for(out) == HealthStatus::Healthy <==> out.successes * 100 >= out.attempts
                * 20
            &&& status_for(out) == HealthStatus::Unhealthy <==> out.successes * 100 < out.attempts
                * 20
        }),
{
}

} // verus!
