//! The health prober's decisions: which endpoint to probe next, under a
//! budget of probes per second, and whether the router may take traffic.
//!
//! The prober itself runs outside this library: it asks `next_probe` whom
//! to probe, makes the probe, and reports the result to the registry.

use crate::registry::{endpoint_views, EndpointModel, IngesterEndpoint};
use vstd::prelude::*;

verus! {

/// The prober's state as a mathematical value.
pub struct ProberModel {
    pub probes_per_second: u64,
    pub ticks_per_second: u64,
    pub second_start: u64,
    pub sent: u64,
    pub cursor: nat,
}

/// Whether a call at `now` starts a new second of budget: the clock went
/// back, or the second that was being counted has passed.
pub open spec fn budget_renews(m: ProberModel, now: u64) -> bool {
    now < m.second_start || now - m.second_start >= m.ticks_per_second
}

/// Probes already sent in the second that `now` belongs to.
pub open spec fn sent_at(m: ProberModel, now: u64) -> u64 {
    if budget_renews(m, now) {
        0
    } else {
        m.sent
    }
}

/// Whether a probe is granted at `now` with `n` endpoints known.
pub open spec fn probe_granted(m: ProberModel, n: nat, now: u64) -> bool {
    n > 0 && sent_at(m, now) < m.probes_per_second
}

/// The endpoint that the cursor points at, among `n`.
pub open spec fn cursor_target(m: ProberModel, n: nat) -> nat {
    m.cursor % n
}

/// The prober's state after a call of `next_probe` at `now`.
pub open spec fn after_next_probe(m: ProberModel, n: nat, now: u64) -> ProberModel {
    if n == 0 {
        m
    } else {
        ProberModel {
            probes_per_second: m.probes_per_second,
            ticks_per_second: m.ticks_per_second,
            second_start: if budget_renews(m, now) {
                now
            } else {
                m.second_start
            },
            sent: if probe_granted(m, n, now) {
                (sent_at(m, now) + 1) as u64
            } else {
                sent_at(m, now)
            },
            cursor: if probe_granted(m, n, now) {
                if cursor_target(m, n) + 1 == n {
                    0
                } else {
                    cursor_target(m, n) + 1
                }
            } else {
                m.cursor
            },
        }
    }
}

/// Whether some endpoint has answered a probe of its current window.
pub open spec fn any_responded(endpoints: Seq<EndpointModel>) -> bool {
    exists|i: int| 0 <= i < endpoints.len() && (#[trigger] endpoints[i]).stats.successes > 0
}

/// Chooses the endpoints to probe, round-robin, at no more than a fixed
/// number of probes per second.
#[derive(Debug)]
pub struct HealthProber {
    probes_per_second: u64,
    ticks_per_second: u64,
    second_start: u64,
    sent: u64,
    cursor: usize,
}

impl View for HealthProber {
    type V = ProberModel;

    closed spec fn view(&self) -> ProberModel {
        ProberModel {
            probes_per_second: self.probes_per_second,
            ticks_per_second: self.ticks_per_second,
            second_start: self.second_start,
            sent: self.sent,
            cursor: self.cursor as nat,
        }
    }
}

impl HealthProber {
    /// The prober's invariant: it never sent more than its budget.
    pub open spec fn wf(&self) -> bool {
        self@.sent <= self@.probes_per_second
    }

    /// A prober that grants `probes_per_second` probes in every
    /// `ticks_per_second` ticks of the clock.
    pub fn new(probes_per_second: u64, ticks_per_second: u64) -> (p: HealthProber)
        ensures
            p@ == (ProberModel {
                probes_per_second,
                ticks_per_second,
                second_start: 0,
                sent: 0,
                cursor: 0,
            }),
            p.wf(),
    {
        HealthProber { probes_per_second, ticks_per_second, second_start: 0, sent: 0, cursor: 0 }
    }

    /// Decides at `now` which of `endpoint_count` endpoints to probe:
    /// the one at the cursor, or none where there is no endpoint or this
    /// second's budget is spent.
    pub fn next_probe(&mut self, endpoint_count: usize, now: u64) -> (target: Option<usize>)
        ensures
            final(self)@ == after_next_probe(old(self)@, endpoint_count as nat, now),
            target is Some == probe_granted(old(self)@, endpoint_count as nat, now),
            target matches Some(i) ==> i == cursor_target(old(self)@, endpoint_count as nat) && i
                < endpoint_count,
            old(self).wf() ==> final(self).wf(),
    {
        if endpoint_count == 0 {
            return None;
        }
        if now < self.second_start || now - self.second_start >= self.ticks_per_second {
            self.second_start = now;
            self.sent = 0;
        }
        if self.sent >= self.probes_per_second {
            return None;
        }
        let i = self.cursor % endpoint_count;
        self.sent = self.sent + 1;
        self.cursor = if i + 1 == endpoint_count {
            0
        } else {
            i + 1
        };
        Some(i)
    }

    /// Probes sent in the second that is being counted.
    pub fn sent_this_second(&self) -> (n: u64)
        ensures
            n == self@.sent,
    {
        self.sent
    }
}

/// Two probes granted one after the other go to neighbouring endpoints:
/// the second goes to the endpoint after the first, and to the first
/// endpoint after the last.
pub proof fn lemma_round_robin(m: ProberModel, n: nat, first: u64, second: u64)
    requires
        probe_granted(m, n, first),
        probe_granted(after_next_probe(m, n, first), n, second),
    ensures
        cursor_target(after_next_probe(m, n, first), n) == (cursor_target(m, n) + 1) as nat % n,
{
    let i = cursor_target(m, n);
    assert(0 <= i < n) by (nonlinear_arith)
        requires
            i == m.cursor % n,
            n > 0,
    ;
    if i + 1 == n {
        assert(0nat % n == 0) by (nonlinear_arith)
            requires
                n > 0,
        ;
        assert((i + 1) as nat % n == 0) by (nonlinear_arith)
            requires
                i + 1 == n,
                n > 0,
        ;
    } else {
        vstd::arithmetic::div_mod::lemma_small_mod((i + 1) as nat, n);
    }
}

/// Within one second of budget, the count of probes sent never passes the
/// budget.
pub proof fn lemma_budget_kept(m: ProberModel, n: nat, now: u64)
    requires
        m.sent <= m.probes_per_second,
    ensures
        after_next_probe(m, n, now).sent <= m.probes_per_second,
        after_next_probe(m, n, now).probes_per_second == m.probes_per_second,
{
}

/// Whether the router may take traffic at startup: at once where it was
/// told not to wait, else as soon as one endpoint has answered a probe.
pub fn ready_for_traffic(no_wait: bool, endpoints: &Vec<IngesterEndpoint>) -> (ready: bool)
    ensures
        ready == (no_wait || any_responded(endpoint_views(endpoints@))),
{
    if no_wait {
        return true;
    }
    let ghost all = endpoint_views(endpoints@);
    let mut i: usize = 0;
    while i < endpoints.len()
        invariant
            i <= endpoints.len(),
            all == endpoint_views(endpoints@),
            forall|j: int| 0 <= j < i ==> (#[trigger] all[j]).stats.successes == 0,
        decreases endpoints.len() - i,
    {
        assert(all[i as int] == endpoints@[i as int]@);
        if endpoints[i].stats.successes > 0 {
            return true;
        }
        i = i + 1;
    }
    false
}

} // verus!
