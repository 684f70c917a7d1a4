//! The replica dispatcher: one write, from its plan to its outcome.
//!
//! A write goes through `Pending`, `Dispatching` and one of the final
//! phases `FullySucceeded`, `PartiallySucceeded` and `Failed`. The library
//! decides; the caller makes the calls. `start` says how many calls are to
//! be made, one to each planned endpoint, all at once; `settle` takes the
//! result of each as it comes in. The outcome exists only once every call
//! has settled, and depends on the results alone, not on their order.
//! No call is made again.

use crate::error::{call_error, from_call, WriteError, WriteErrorModel};
use crate::outcome::{
    aggregate, lemma_success_count, potentially_queryable, status_of, success_count,
    AggregatedStatus, CallResult, RpcErrorCause,
};
use crate::plan::{
    make_plan, next_cursor, plan_from_cursor, planned_views, PlannedModel, ReplicationPlan,
};
use crate::registry::{endpoint_views, IngesterEndpoint};
use vstd::prelude::*;

verus! {

/// Where a write stands.
#[derive(Clone, Copy, Debug, PartialEq, Eq, Structural)]
pub enum WritePhase {
    /// Planned, nothing sent.
    Pending,
    /// Sent; at least one call has not settled.
    Dispatching,
    /// Final: every planned endpoint acknowledged.
    FullySucceeded,
    /// Final: some planned endpoints acknowledged, not all.
    PartiallySucceeded,
    /// Final: no endpoint acknowledged.
    Failed,
}

/// A write in progress, as a mathematical value.
pub struct DispatchModel {
    pub plan: Seq<PlannedModel>,
    pub results: Seq<Option<CallResult>>,
    pub started: bool,
}

/// Whether every call has settled.
pub open spec fn all_settled(results: Seq<Option<CallResult>>) -> bool {
    forall|i: int| 0 <= i < results.len() ==> (#[trigger] results[i]) is Some
}

/// The results of the calls, once all have settled.
pub open spec fn settled(results: Seq<Option<CallResult>>) -> Seq<CallResult> {
    Seq::new(results.len(), |i: int| results[i].unwrap())
}

/// The phase that belongs to a status.
pub open spec fn final_phase(status: AggregatedStatus) -> WritePhase {
    match status {
        AggregatedStatus::FullySucceeded => WritePhase::FullySucceeded,
        AggregatedStatus::PartiallySucceeded { .. } => WritePhase::PartiallySucceeded,
        AggregatedStatus::Failed => WritePhase::Failed,
    }
}

/// Whether a write is over: it was started and every call has settled.
pub open spec fn is_over(m: DispatchModel) -> bool {
    m.started && all_settled(m.results)
}

/// Where the write stands.
pub open spec fn phase_of(m: DispatchModel) -> WritePhase {
    if !m.started {
        WritePhase::Pending
    } else if !all_settled(m.results) {
        WritePhase::Dispatching
    } else {
        final_phase(status_of(settled(m.results)))
    }
}

/// A write is well-formed: one result slot per planned endpoint, all
/// empty until the write is started.
pub open spec fn dispatch_wf(m: DispatchModel) -> bool {
    &&& m.results.len() == m.plan.len()
    &&& !m.started ==> forall|i: int| 0 <= i < m.results.len() ==> (#[trigger] m.results[i]) is None
}

/// A write that was planned and not yet started.
pub open spec fn pending(plan: Seq<PlannedModel>) -> DispatchModel {
    DispatchModel {
        plan,
        results: Seq::new(plan.len(), |i: int| None::<CallResult>),
        started: false,
    }
}

/// The write after `start`. A payload larger than `max` settles every
/// call at once as `MessageTooLarge`; no call is to be made.
pub open spec fn after_start(m: DispatchModel, payload_len: nat, max: nat) -> DispatchModel {
    if m.started {
        m
    } else if payload_len > max {
        DispatchModel {
            plan: m.plan,
            results: Seq::new(
                m.plan.len(),
                |i: int| Some(CallResult::Error(RpcErrorCause::MessageTooLarge)),
            ),
            started: true,
        }
    } else {
        DispatchModel { plan: m.plan, results: m.results, started: true }
    }
}

/// Number of calls that `start` asks for: one per planned endpoint, or
/// none where the payload is too large or the write was started before.
pub open spec fn calls_to_make(m: DispatchModel, payload_len: nat, max: nat) -> nat {
    if m.started || payload_len > max {
        0
    } else {
        m.plan.len()
    }
}

/// Whether the result of the call at `position` is taken: the write was
/// started, the position is planned, and its call has not settled yet.
pub open spec fn accepts(m: DispatchModel, position: int) -> bool {
    m.started && 0 <= position < m.results.len() && m.results[position] is None
}

/// The write after the call at `position` settled with `result`. A result
/// that is not taken changes nothing: the first result of a call stands.
pub open spec fn after_settle(
    m: DispatchModel,
    position: int,
    result: CallResult,
) -> DispatchModel {
    if accepts(m, position) {
        DispatchModel {
            plan: m.plan,
            results: m.results.update(position, Some(result)),
            started: m.started,
        }
    } else {
        m
    }
}

/// The result of one endpoint, as a mathematical value.
pub struct OutcomeModel {
    pub address: Seq<char>,
    pub result: CallResult,
}

/// The result of one endpoint.
#[derive(Debug)]
pub struct EndpointOutcome {
    pub address: String,
    pub result: CallResult,
}

impl View for EndpointOutcome {
    type V = OutcomeModel;

    open spec fn view(&self) -> OutcomeModel {
        OutcomeModel { address: self.address@, result: self.result }
    }
}

/// The models of `v`, in order.
pub open spec fn outcome_views(v: Seq<EndpointOutcome>) -> Seq<OutcomeModel> {
    Seq::new(v.len(), |i: int| v[i]@)
}

/// The results held by `outcomes`, in order.
pub open spec fn results_of(outcomes: Seq<OutcomeModel>) -> Seq<CallResult> {
    Seq::new(outcomes.len(), |i: int| outcomes[i].result)
}

/// The per-endpoint results of a write that is over, in plan order.
pub open spec fn outcomes_of(m: DispatchModel) -> Seq<OutcomeModel> {
    Seq::new(
        m.results.len(),
        |i: int| OutcomeModel { address: m.plan[i].address, result: m.results[i].unwrap() },
    )
}

/// The errors that `outcomes` stand for: one for every endpoint that did
/// not acknowledge, in plan order.
pub open spec fn failures_of(outcomes: Seq<OutcomeModel>) -> Seq<WriteErrorModel>
    decreases outcomes.len(),
{
    if outcomes.len() == 0 {
        Seq::empty()
    } else {
        let rest = failures_of(outcomes.drop_last());
        match call_error(outcomes.last().address, outcomes.last().result) {
            Some(e) => rest.push(e),
            None => rest,
        }
    }
}

/// The models of `v`, in order.
pub open spec fn error_views(v: Seq<WriteError>) -> Seq<WriteErrorModel> {
    Seq::new(v.len(), |i: int| v[i]@)
}

/// No failure is dropped: there is one error for every endpoint that did
/// not acknowledge.
pub proof fn lemma_failures_counted(outcomes: Seq<OutcomeModel>)
    ensures
        failures_of(outcomes).len() + success_count(results_of(outcomes)) == outcomes.len(),
    decreases outcomes.len(),
{
    if outcomes.len() > 0 {
        lemma_failures_counted(outcomes.drop_last());
        assert(results_of(outcomes).drop_last() =~= results_of(outcomes.drop_last()));
    }
}

/// A payload that is too large fails the write before any call: every
/// planned endpoint is recorded as `MessageTooLarge`, and the write is
/// over and `Failed`.
pub proof fn lemma_oversized_fails(m: DispatchModel, payload_len: nat, max: nat)
    requires
        dispatch_wf(m),
        !m.started,
        payload_len > max,
    ensures
        calls_to_make(m, payload_len, max) == 0,
        is_over(after_start(m, payload_len, max)),
        phase_of(after_start(m, payload_len, max)) == WritePhase::Failed,
        forall|i: int|
            0 <= i < m.plan.len() ==> (#[trigger] after_start(m, payload_len, max).results[i])
                == Some(CallResult::Error(RpcErrorCause::MessageTooLarge)),
{
    let after = after_start(m, payload_len, max);
    lemma_success_count(settled(after.results));
}

/// The phase of a write follows from the results alone: it is final
/// exactly when the write is over, and then it is the phase of the
/// aggregated status.
pub proof fn lemma_phase(m: DispatchModel)
    ensures
        phase_of(m) == WritePhase::Pending <==> !m.started,
        phase_of(m) == WritePhase::Dispatching <==> m.started && !all_settled(m.results),
        is_over(m) <==> (phase_of(m) == WritePhase::FullySucceeded || phase_of(m)
            == WritePhase::PartiallySucceeded || phase_of(m) == WritePhase::Failed),
        is_over(m) ==> phase_of(m) == final_phase(status_of(settled(m.results))),
{
}

/// A write that is over stays as it is: no result is taken any more, and
/// starting it again does nothing.
pub proof fn lemma_over_is_final(
    m: DispatchModel,
    position: int,
    result: CallResult,
    payload_len: nat,
    max: nat,
)
    requires
        is_over(m),
    ensures
        !accepts(m, position),
        after_settle(m, position, result) == m,
        after_start(m, payload_len, max) == m,
        calls_to_make(m, payload_len, max) == 0,
{
}

/// A result that is taken settles its call and no other: the write moves
/// on, and is over once the last call has settled.
pub proof fn lemma_settle_step(m: DispatchModel, position: int, result: CallResult)
    requires
        dispatch_wf(m),
        accepts(m, position),
    ensures
        dispatch_wf(after_settle(m, position, result)),
        after_settle(m, position, result).results[position] == Some(result),
        forall|i: int|
            0 <= i < m.results.len() && i != position ==> after_settle(
                m,
                position,
                result,
            ).results[i] == m.results[i],
        is_over(after_settle(m, position, result)) <==> (forall|i: int|
            0 <= i < m.results.len() && i != position ==> (#[trigger] m.results[i]) is Some),
{
    let after = after_settle(m, position, result);
    if forall|i: int|
        0 <= i < m.results.len() && i != position ==> (#[trigger] m.results[i]) is Some {
        assert forall|i: int| 0 <= i < after.results.len() implies (
        #[trigger] after.results[i]) is Some by {
            if i != position {
                assert(m.results[i] is Some);
            }
        }
    }
    if is_over(after) {
        assert forall|i: int| 0 <= i < m.results.len() && i != position implies (
        #[trigger] m.results[i]) is Some by {
            assert(after.results[i] is Some);
        }
    }
}

/// The outcome of a write, as a mathematical value.
pub struct WriteOutcomeModel {
    pub results: Seq<OutcomeModel>,
    pub status: AggregatedStatus,
}

/// The outcome of a write: what every planned endpoint reported, and the
/// status that the reports add up to.
#[derive(Debug)]
pub struct WriteOutcome {
    results: Vec<EndpointOutcome>,
    status: AggregatedStatus,
}

impl View for WriteOutcome {
    type V = WriteOutcomeModel;

    closed spec fn view(&self) -> WriteOutcomeModel {
        WriteOutcomeModel { results: outcome_views(self.results@), status: self.status }
    }
}

impl WriteOutcome {
    /// The outcome's invariant: the status is the one that the results add
    /// up to.
    pub open spec fn wf(&self) -> bool {
        self@.status == status_of(results_of(self@.results))
    }

    /// The aggregated status.
    pub fn status(&self) -> (s: AggregatedStatus)
        ensures
            s == self@.status,
    {
        self.status
    }

    /// What every planned endpoint reported, in plan order.
    pub fn results(&self) -> (r: &Vec<EndpointOutcome>)
        ensures
            outcome_views(r@) == self@.results,
    {
        &self.results
    }

    /// Whether the write may be found by queries: at least one endpoint
    /// acknowledged it.
    pub fn is_potentially_queryable(&self) -> (b: bool)
        ensures
            b == potentially_queryable(self@.status),
    {
        match self.status {
            AggregatedStatus::Failed => false,
            _ => true,
        }
    }

    /// The warning that goes with a partial write: `PartialWriteError` with
    /// the counts, for a write that is `PartiallySucceeded`, and nothing
    /// for any other.
    pub fn partial_write_error(&self) -> (e: Option<WriteError>)
        ensures
            match self@.status {
                AggregatedStatus::PartiallySucceeded { succeeded, planned } => e matches Some(err)
                    && err@ == (WriteErrorModel::PartialWriteError {
                    succeeded: succeeded as nat,
                    planned: planned as nat,
                }),
                _ => e is None,
            },
    {
        match self.status {
            AggregatedStatus::PartiallySucceeded { succeeded, planned } => Some(
                WriteError::PartialWriteError { succeeded, planned },
            ),
            _ => None,
        }
    }

    /// Which endpoints failed and how: one error for every endpoint that
    /// did not acknowledge, in plan order.
    pub fn failures(&self) -> (errors: Vec<WriteError>)
        ensures
            error_views(errors@) == failures_of(self@.results),
    {
        let ghost all = outcome_views(self.results@);
        let mut errors: Vec<WriteError> = Vec::new();
        let mut i: usize = 0;
        assert(all.take(0) =~= Seq::<OutcomeModel>::empty());
        assert(error_views(errors@) =~= Seq::<WriteErrorModel>::empty());
        while i < self.results.len()
            invariant
                i <= self.results.len(),
                all == outcome_views(self.results@),
                error_views(errors@) == failures_of(all.take(i as int)),
            decreases self.results.len() - i,
        {
            proof {
                let next = all.take(i as int + 1);
                assert(next.drop_last() =~= all.take(i as int));
                assert(next.last() == self.results@[i as int]@);
            }
            let ghost before = error_views(errors@);
            match from_call(&self.results[i].address, self.results[i].result) {
                Some(e) => {
                    errors.push(e);
                    assert(error_views(errors@) =~= before.push(e@));
                },
                None => {},
            }
            i = i + 1;
        }
        assert(all.take(i as int) =~= all);
        errors
    }
}

/// One write on its way through the dispatcher.
#[derive(Debug)]
pub struct WriteDispatch {
    plan: ReplicationPlan,
    results: Vec<Option<CallResult>>,
    started: bool,
}

impl View for WriteDispatch {
    type V = DispatchModel;

    closed spec fn view(&self) -> DispatchModel {
        DispatchModel { plan: self.plan@, results: self.results@, started: self.started }
    }
}

impl WriteDispatch {
    /// The write's invariant.
    pub open spec fn wf(&self) -> bool {
        dispatch_wf(self@)
    }

    /// A write that is planned and not yet started.
    pub fn new(plan: ReplicationPlan) -> (d: WriteDispatch)
        ensures
            d@ == pending(plan@),
            d.wf(),
    {
        let mut results: Vec<Option<CallResult>> = Vec::new();
        let n = plan.len();
        let mut i: usize = 0;
        while i < n
            invariant
                i <= n,
                results.len() == i,
                forall|j: int| 0 <= j < i ==> (#[trigger] results@[j]) is None,
            decreases n - i,
        {
            results.push(None);
            i = i + 1;
        }
        assert(results@ =~= Seq::new(plan@.len(), |i: int| None::<CallResult>));
        WriteDispatch { plan, results, started: false }
    }

    /// The plan of the write.
    pub fn plan(&self) -> (p: &ReplicationPlan)
        ensures
            p@ == self@.plan,
    {
        &self.plan
    }

    /// Starts the write. Says how many calls the caller is to make: one to
    /// each planned endpoint, at once. For a payload of more than
    /// `max_outgoing_bytes` bytes it asks for none and records
    /// `MessageTooLarge` for every planned endpoint.
    pub fn start(&mut self, payload_len: usize, max_outgoing_bytes: usize) -> (calls: usize)
        requires
            old(self).wf(),
        ensures
            final(self)@ == after_start(old(self)@, payload_len as nat, max_outgoing_bytes as nat),
            calls == calls_to_make(old(self)@, payload_len as nat, max_outgoing_bytes as nat),
            final(self).wf(),
    {
        if self.started {
            return 0;
        }
        self.started = true;
        if payload_len > max_outgoing_bytes {
            let n = self.results.len();
            let mut i: usize = 0;
            while i < n
                invariant
                    i <= n,
                    n == self.results.len(),
                    self.plan@ == old(self).plan@,
                    self.started,
                    forall|j: int|
                        0 <= j < i ==> (#[trigger] self.results@[j]) == Some(
                            CallResult::Error(RpcErrorCause::MessageTooLarge),
                        ),
                decreases n - i,
            {
                self.results.set(i, Some(CallResult::Error(RpcErrorCause::MessageTooLarge)));
                i = i + 1;
            }
            assert(self.results@ =~= Seq::new(
                self.plan@.len(),
                |i: int| Some(CallResult::Error(RpcErrorCause::MessageTooLarge)),
            ));
            0
        } else {
            self.results.len()
        }
    }

    /// Takes the result of the call at `position` of the plan. Says
    /// whether it was taken; the first result of a call stands.
    pub fn settle(&mut self, position: usize, result: CallResult) -> (taken: bool)
        ensures
            final(self)@ == after_settle(old(self)@, position as int, result),
            taken == accepts(old(self)@, position as int),
            old(self).wf() ==> final(self).wf(),
    {
        if !self.started || position >= self.results.len() {
            return false;
        }
        if self.results[position].is_some() {
            return false;
        }
        self.results.set(position, Some(result));
        true
    }

    /// Whether every call has settled.
    fn settled_all(&self) -> (b: bool)
        ensures
            b == all_settled(self@.results),
    {
        let mut i: usize = 0;
        while i < self.results.len()
            invariant
                i <= self.results.len(),
                forall|j: int| 0 <= j < i ==> (#[trigger] self.results@[j]) is Some,
            decreases self.results.len() - i,
        {
            if self.results[i].is_none() {
                return false;
            }
            i = i + 1;
        }
        true
    }

    /// Whether the write is over.
    pub fn is_over(&self) -> (b: bool)
        ensures
            b == is_over(self@),
    {
        self.started && self.settled_all()
    }

    /// The outcome of the write: there is none before the write is over.
    pub fn outcome(&self) -> (out: Option<WriteOutcome>)
        requires
            self.wf(),
        ensures
            out is Some == is_over(self@),
            out matches Some(o) ==> {
                &&& o@.results == outcomes_of(self@)
                &&& o@.status == status_of(settled(self@.results))
                &&& o.wf()
            },
    {
        if !self.is_over() {
            return None;
        }
        let planned = self.plan.endpoints();
        let mut results: Vec<EndpointOutcome> = Vec::new();
        let mut plain: Vec<CallResult> = Vec::new();
        let n = self.results.len();
        let mut i: usize = 0;
        while i < n
            invariant
                i <= n,
                n == self.results.len(),
                n == planned.len(),
                planned_views(planned@) == self@.plan,
                all_settled(self@.results),
                results.len() == i,
                plain.len() == i,
                forall|j: int| 0 <= j < i ==> (#[trigger] results@[j])@ == outcomes_of(self@)[j],
                forall|j: int| 0 <= j < i ==> (#[trigger] plain@[j]) == self@.results[j].unwrap(),
            decreases n - i,
        {
            assert(planned_views(planned@)[i as int] == planned@[i as int]@);
            assert(self@.results[i as int] is Some);
            match self.results[i] {
                Some(r) => {
                    results.push(
                        EndpointOutcome { address: planned[i].address.clone(), result: r },
                    );
                    plain.push(r);
                },
                None => {},
            }
            i = i + 1;
        }
        assert(outcome_views(results@) =~= outcomes_of(self@));
        assert(plain@ =~= settled(self@.results));
        assert(results_of(outcomes_of(self@)) =~= settled(self@.results));
        let status = aggregate(&plain);
        Some(WriteOutcome { results, status })
    }

    /// Where the write stands.
    pub fn phase(&self) -> (p: WritePhase)
        requires
            self.wf(),
        ensures
            p == phase_of(self@),
    {
        if !self.started {
            return WritePhase::Pending;
        }
        match self.outcome() {
            None => WritePhase::Dispatching,
            Some(o) => match o.status() {
                AggregatedStatus::FullySucceeded => WritePhase::FullySucceeded,
                AggregatedStatus::PartiallySucceeded { .. } => WritePhase::PartiallySucceeded,
                AggregatedStatus::Failed => WritePhase::Failed,
            },
        }
    }
}

/// The dispatcher as a mathematical value.
pub struct DispatcherModel {
    pub replicas: nat,
    pub max_outgoing_bytes: nat,
    pub cursor: nat,
}

/// Plans and starts writes: holds the replica count, the largest message
/// that may be sent, and the round-robin cursor.
#[derive(Debug)]
pub struct Dispatcher {
    replicas: usize,
    max_outgoing_bytes: usize,
    cursor: usize,
}

impl View for Dispatcher {
    type V = DispatcherModel;

    closed spec fn view(&self) -> DispatcherModel {
        DispatcherModel {
            replicas: self.replicas as nat,
            max_outgoing_bytes: self.max_outgoing_bytes as nat,
            cursor: self.cursor as nat,
        }
    }
}

impl Dispatcher {
    /// A dispatcher that sends each write to `replicas` endpoints. There
    /// is none for a replica count of zero.
    pub fn new(replicas: usize, max_outgoing_bytes: usize) -> (d: Option<Dispatcher>)
        ensures
            d is Some == (replicas >= 1),
            d matches Some(dispatcher) ==> dispatcher@ == (DispatcherModel {
                replicas: replicas as nat,
                max_outgoing_bytes: max_outgoing_bytes as nat,
                cursor: 0,
            }),
    {
        if replicas == 0 {
            None
        } else {
            Some(Dispatcher { replicas, max_outgoing_bytes, cursor: 0 })
        }
    }

    /// The replica count.
    pub fn replicas(&self) -> (n: usize)
        ensures
            n == self@.replicas,
    {
        self.replicas
    }

    /// Makes the plan of the next write over `snapshot` and moves the
    /// cursor on by one endpoint.
    pub fn plan(&mut self, snapshot: &Vec<IngesterEndpoint>) -> (plan: ReplicationPlan)
        ensures
            plan@ == plan_from_cursor(
                endpoint_views(snapshot@),
                old(self)@.cursor,
                old(self)@.replicas,
            ),
            plan@.len() <= old(self)@.replicas,
            final(self)@ == (DispatcherModel {
                replicas: old(self)@.replicas,
                max_outgoing_bytes: old(self)@.max_outgoing_bytes,
                cursor: next_cursor(old(self)@.cursor, snapshot.len() as nat),
            }),
    {
        let plan = make_plan(snapshot, self.cursor, self.replicas);
        let n = snapshot.len();
        if n > 0 {
            let at = self.cursor % n;
            self.cursor = if at + 1 == n {
                0
            } else {
                at + 1
            };
        }
        plan
    }

    /// Plans the next write over `snapshot` and starts it for a payload of
    /// `payload_len` bytes. Gives the write and the number of calls to
    /// make.
    pub fn begin(&mut self, snapshot: &Vec<IngesterEndpoint>, payload_len: usize) -> (r: (
        WriteDispatch,
        usize,
    ))
        ensures
            r.0@ == after_start(
                pending(
                    plan_from_cursor(
                        endpoint_views(snapshot@),
                        old(self)@.cursor,
                        old(self)@.replicas,
                    ),
                ),
                payload_len as nat,
                old(self)@.max_outgoing_bytes,
            ),
            r.1 == calls_to_make(
                pending(
                    plan_from_cursor(
                        endpoint_views(snapshot@),
                        old(self)@.cursor,
                        old(self)@.replicas,
                    ),
                ),
                payload_len as nat,
                old(self)@.max_outgoing_bytes,
            ),
            r.0.wf(),
            final(self)@ == (DispatcherModel {
                replicas: old(self)@.replicas,
                max_outgoing_bytes: old(self)@.max_outgoing_bytes,
                cursor: next_cursor(old(self)@.cursor, snapshot.len() as nat),
            }),
    {
        let plan = self.plan(snapshot);
        let mut write = WriteDispatch::new(plan);
        let calls = write.start(payload_len, self.max_outgoing_bytes);
        (write, calls)
    }
}

} // verus!
