//! The write path: admission, parsing and validation, planning, and the
//! release of the permit when the write is done.
//!
//! `begin_write` takes a request as far as the calls to the ingesters.
//! The caller makes those calls and reports each result with `settle`;
//! `finish_write` then gives the outcome and releases the permit. A
//! request that is refused on the way holds no permit and has caused no
//! call.

use crate::admission::{AdmissionController, AdmissionModel, Permit};
use crate::batch::{payload_meaning, OpModel, WriteBatch};
use crate::bytes::copy_bytes;
use crate::catalog::{GuardrailStateModel, NamespaceGuardrailState};
use crate::config::{ConfigError, RouterConfig};
use crate::dispatch::{
    accepts, after_settle, after_start, calls_to_make, is_over, outcomes_of, pending, settled,
    Dispatcher, DispatcherModel, WriteDispatch, WriteOutcome,
};
use crate::error::{from_rejection, WriteError, WriteErrorModel};
use crate::outcome::{status_of, CallResult};
use crate::plan::{next_cursor, plan_from_cursor};
use crate::prober::{
    after_next_probe, any_responded, cursor_target, probe_granted, ready_for_traffic, HealthProber,
    ProberModel,
};
use crate::registry::EndpointRegistry;
use crate::validator::{catalog_after_parse, parse, validation_error};
use std::time::Duration;
use vstd::prelude::*;

verus! {

/// A write as it arrives: who writes, where to, and what.
#[derive(Debug)]
pub struct WriteRequest {
    pub tenant: Vec<u8>,
    pub namespace: Vec<u8>,
    pub payload: Vec<u8>,
}

impl WriteRequest {
    /// The request's size in bytes: the length of its payload.
    pub open spec fn byte_size(&self) -> nat {
        self.payload@.len()
    }

    /// The request's size in bytes.
    pub fn size(&self) -> (n: usize)
        ensures
            n == self.byte_size(),
    {
        self.payload.len()
    }
}

/// Why a write to `namespace` of `tenant` with `payload` goes no further
/// than validation, if it does not: it is not admitted, a line is
/// malformed, or the guardrails refuse it, looked at in this order.
pub open spec fn refusal(
    admission: AdmissionModel,
    catalog: GuardrailStateModel,
    tenant: Seq<u8>,
    namespace: Seq<u8>,
    payload: Seq<u8>,
) -> Option<WriteErrorModel> {
    match admission.rejection(payload.len()) {
        Some(r) => Some(WriteErrorModel::AdmissionRejected(r)),
        None => validation_error(catalog, tenant, namespace, payload),
    }
}

/// The catalog after the write: touched only by a write that was admitted
/// and has passed validation.
pub open spec fn catalog_after(
    admission: AdmissionModel,
    catalog: GuardrailStateModel,
    tenant: Seq<u8>,
    namespace: Seq<u8>,
    payload: Seq<u8>,
) -> GuardrailStateModel {
    match admission.rejection(payload.len()) {
        Some(r) => catalog,
        None => catalog_after_parse(catalog, tenant, namespace, payload),
    }
}

/// A write that was admitted, validated, planned and started, and whose
/// calls are being made.
#[derive(Debug)]
pub struct PendingWrite {
    permit: Permit,
    batch: WriteBatch,
    dispatch: WriteDispatch,
    calls: usize,
}

impl PendingWrite {
    /// The byte size of the permit that the write holds.
    pub closed spec fn permit_size(&self) -> nat {
        self.permit@
    }

    /// The batch that the write carries.
    pub closed spec fn batch_model(&self) -> Seq<OpModel> {
        self.batch@
    }

    /// The state of the write's dispatch.
    pub closed spec fn dispatch_model(&self) -> crate::dispatch::DispatchModel {
        self.dispatch@
    }

    /// The number of calls that the caller was asked to make.
    pub closed spec fn calls_model(&self) -> nat {
        self.calls as nat
    }

    /// The write's invariant.
    pub closed spec fn wf(&self) -> bool {
        self.dispatch.wf()
    }

    /// The batch that the write carries.
    pub fn batch(&self) -> (b: &WriteBatch)
        ensures
            b@ == self.batch_model(),
    {
        &self.batch
    }

    /// The write's dispatch: its plan and where it stands.
    pub fn dispatch(&self) -> (d: &WriteDispatch)
        ensures
            d@ == self.dispatch_model(),
            self.wf() ==> d.wf(),
    {
        &self.dispatch
    }

    /// The number of calls to make: one to each planned endpoint, or none
    /// where the payload is too large to be sent.
    pub fn calls(&self) -> (n: usize)
        ensures
            n == self.calls_model(),
    {
        self.calls
    }

    /// Takes the result of the call at `position` of the plan. Says
    /// whether it was taken.
    pub fn settle(&mut self, position: usize, result: CallResult) -> (taken: bool)
        ensures
            old(self).wf() ==> final(self).wf(),
            final(self).dispatch_model() == after_settle(
                old(self).dispatch_model(),
                position as int,
                result,
            ),
            taken == accepts(old(self).dispatch_model(), position as int),
            final(self).permit_size() == old(self).permit_size(),
            final(self).batch_model() == old(self).batch_model(),
            final(self).calls_model() == old(self).calls_model(),
    {
        self.dispatch.settle(position, result)
    }
}

/// The write path's state: the admission controller, the catalog with its
/// guardrails, the endpoint registry, the dispatcher and the prober.
pub struct Router {
    pub admission: AdmissionController,
    pub catalog: NamespaceGuardrailState,
    pub registry: EndpointRegistry,
    pub dispatcher: Dispatcher,
    pub prober: HealthProber,
    /// Whether traffic is taken before an endpoint has answered a probe.
    pub no_wait_rpc_upstreams: bool,
    /// How long one call to an endpoint may take before it is recorded as
    /// a timeout.
    pub rpc_write_timeout: Duration,
    /// Address of the authorization service, where one is configured.
    pub authz_address: Option<String>,
}

/// What is handed to the authorization service for one write: the
/// service's address and the identity of the tenant. The check itself is
/// the service's.
#[derive(Debug)]
pub struct AuthzRequest {
    pub address: String,
    pub tenant: Vec<u8>,
}

impl Router {
    /// The router's invariant: that of its parts.
    pub open spec fn wf(&self) -> bool {
        self.admission.wf() && self.catalog.wf() && self.registry.wf() && self.prober.wf()
    }

    /// Builds the write path from a configuration, or says which rule the
    /// configuration breaks. Probe windows last `window` ticks of the
    /// caller's clock, which makes `ticks_per_second` ticks in a second.
    pub fn from_config(config: &RouterConfig, window: u64, ticks_per_second: u64) -> (r: Result<
        Router,
        ConfigError,
    >)
        ensures
            r is Ok == config.valid(),
            r matches Err(e) ==> config.defect() == Some(e),
            r matches Ok(router) ==> {
                &&& router.wf()
                &&& router.admission@.request_limit == config.http_request_limit
                &&& router.admission@.byte_limit == (match config.max_in_flight_byte_limit {
                    Some(limit) => Some(limit as nat),
                    None => None,
                })
                &&& router.admission@.outstanding == Seq::<nat>::empty()
                &&& router.catalog@ == (GuardrailStateModel {
                    namespaces: Seq::empty(),
                    autocreate: config.namespace_autocreation_enabled,
                    default_retention_hours: config.new_namespace_retention_hours,
                    column_limit: config.table_column_limit_max as nat,
                })
                &&& router.dispatcher@ == (DispatcherModel {
                    replicas: config.rpc_write_replicas as nat,
                    max_outgoing_bytes: config.rpc_write_max_outgoing_bytes as nat,
                    cursor: 0,
                })
                &&& router.registry@.endpoints == crate::registry::joined_all(
                    Seq::new(
                        config.ingester_addresses@.len(),
                        |i: int| config.ingester_addresses@[i]@,
                    ),
                )
                &&& router.registry@.window == window
                &&& router.prober@ == (ProberModel {
                    probes_per_second: config.rpc_write_health_num_probes,
                    ticks_per_second,
                    second_start: 0,
                    sent: 0,
                    cursor: 0,
                })
                &&& router.no_wait_rpc_upstreams == config.no_wait_rpc_upstreams
                &&& router.rpc_write_timeout == config.rpc_write_timeout_seconds
                &&& router.authz_address is Some == config.authz_address is Some
                &&& (router.authz_address matches Some(a) ==> a@
                    == config.authz_address.unwrap()@)
            },
    {
        match config.validate() {
            Err(e) => {
                return Err(e);
            },
            Ok(()) => {},
        }
        let byte_limit = match config.max_in_flight_byte_limit {
            Some(limit) => Some(limit as u64),
            None => None,
        };
        let dispatcher = match Dispatcher::new(
            config.rpc_write_replicas,
            config.rpc_write_max_outgoing_bytes,
        ) {
            Some(d) => d,
            None => {
                return Err(ConfigError::ZeroReplicas);
            },
        };
        let registry = EndpointRegistry::with_addresses(&config.ingester_addresses, window);
        Ok(
            Router {
                admission: AdmissionController::new(config.http_request_limit, byte_limit),
                catalog: NamespaceGuardrailState::new(
                    config.namespace_autocreation_enabled,
                    config.new_namespace_retention_hours,
                    config.table_column_limit_max,
                ),
                registry,
                dispatcher,
                prober: HealthProber::new(config.rpc_write_health_num_probes, ticks_per_second),
                no_wait_rpc_upstreams: config.no_wait_rpc_upstreams,
                rpc_write_timeout: config.rpc_write_timeout_seconds,
                authz_address: match &config.authz_address {
                    Some(a) => Some(a.clone()),
                    None => None,
                },
            },
        )
    }

    /// Decides at `now` which endpoint the health prober is to probe: the
    /// address of the endpoint at the prober's cursor, or none where no
    /// endpoint is known or this second's budget of probes is spent.
    pub fn next_probe(&mut self, now: u64) -> (target: Option<String>)
        ensures
            final(self).prober@ == after_next_probe(
                old(self).prober@,
                old(self).registry@.endpoints.len(),
                now,
            ),
            target is Some == probe_granted(
                old(self).prober@,
                old(self).registry@.endpoints.len(),
                now,
            ),
            target matches Some(address) ==> address@ == old(self).registry@.endpoints[cursor_target(
                old(self).prober@,
                old(self).registry@.endpoints.len(),
            ) as int].address,
            final(self).registry@ == old(self).registry@,
            final(self).catalog@ == old(self).catalog@,
            final(self).admission@ == old(self).admission@,
            final(self).dispatcher@ == old(self).dispatcher@,
            final(self).no_wait_rpc_upstreams == old(self).no_wait_rpc_upstreams,
            final(self).rpc_write_timeout == old(self).rpc_write_timeout,
            final(self).authz_address == old(self).authz_address,
            old(self).wf() ==> final(self).wf(),
    {
        match self.prober.next_probe(self.registry.len(), now) {
            Some(position) => self.registry.address_at(position),
            None => None,
        }
    }

    /// What is forwarded to the authorization service for `request`: the
    /// configured address and the request's tenant; nothing where no
    /// address is configured.
    pub fn authz_request(&self, request: &WriteRequest) -> (r: Option<AuthzRequest>)
        ensures
            r is Some == self.authz_address is Some,
            r matches Some(a) ==> a.address@ == self.authz_address.unwrap()@ && a.tenant@
                == request.tenant@,
    {
        match &self.authz_address {
            Some(address) => Some(
                AuthzRequest {
                    address: address.clone(),
                    tenant: copy_bytes(request.tenant.as_slice()),
                },
            ),
            None => None,
        }
    }

    /// Whether the router may take traffic: at once where it was told not
    /// to wait for its upstreams, else as soon as one endpoint has
    /// answered a probe.
    pub fn ready_for_traffic(&self) -> (ready: bool)
        ensures
            ready == (self.no_wait_rpc_upstreams || any_responded(self.registry@.endpoints)),
    {
        let snapshot = self.registry.snapshot();
        ready_for_traffic(self.no_wait_rpc_upstreams, &snapshot)
    }

    /// Takes a request through admission, parsing, validation and
    /// planning, and starts its dispatch.
    ///
    /// A request that is refused leaves both admission counters and the
    /// catalog as they were, and causes no call. The registry is only read.
    pub fn begin_write(&mut self, request: &WriteRequest) -> (r: Result<PendingWrite, WriteError>)
        requires
            old(self).wf(),
        ensures
            final(self).wf(),
            final(self).registry@ == old(self).registry@,
            final(self).prober@ == old(self).prober@,
            final(self).no_wait_rpc_upstreams == old(self).no_wait_rpc_upstreams,
            final(self).rpc_write_timeout == old(self).rpc_write_timeout,
            final(self).authz_address == old(self).authz_address,
            final(self).catalog@ == catalog_after(
                old(self).admission@,
                old(self).catalog@,
                request.tenant@,
                request.namespace@,
                request.payload@,
            ),
            final(self).admission@.request_limit == old(self).admission@.request_limit,
            final(self).admission@.byte_limit == old(self).admission@.byte_limit,
            match r {
                Err(e) => {
                    &&& refusal(
                        old(self).admission@,
                        old(self).catalog@,
                        request.tenant@,
                        request.namespace@,
                        request.payload@,
                    ) == Some(e@)
                    &&& final(self).catalog@ == old(self).catalog@
                    &&& final(self).admission@.requests() == old(self).admission@.requests()
                    &&& final(self).admission@.bytes() == old(self).admission@.bytes()
                    &&& final(self).dispatcher@ == old(self).dispatcher@
                },
                Ok(write) => {
                    &&& refusal(
                        old(self).admission@,
                        old(self).catalog@,
                        request.tenant@,
                        request.namespace@,
                        request.payload@,
                    ) is None
                    &&& final(self).admission@ == old(self).admission@.admitted(
                        request.byte_size(),
                    )
                    &&& final(self).admission@.holds(write.permit_size())
                    &&& write.wf()
                    &&& write.permit_size() == request.byte_size()
                    &&& payload_meaning(request.payload@) == Ok::<
                        Seq<OpModel>,
                        (nat, crate::line_protocol::ParseFailure),
                    >(write.batch_model())
                    &&& write.dispatch_model() == after_start(
                        pending(
                            plan_from_cursor(
                                old(self).registry@.endpoints,
                                old(self).dispatcher@.cursor,
                                old(self).dispatcher@.replicas,
                            ),
                        ),
                        request.byte_size(),
                        old(self).dispatcher@.max_outgoing_bytes,
                    )
                    &&& write.calls_model() == calls_to_make(
                        pending(
                            plan_from_cursor(
                                old(self).registry@.endpoints,
                                old(self).dispatcher@.cursor,
                                old(self).dispatcher@.replicas,
                            ),
                        ),
                        request.byte_size(),
                        old(self).dispatcher@.max_outgoing_bytes,
                    )
                    &&& final(self).dispatcher@ == (DispatcherModel {
                        replicas: old(self).dispatcher@.replicas,
                        max_outgoing_bytes: old(self).dispatcher@.max_outgoing_bytes,
                        cursor: next_cursor(
                            old(self).dispatcher@.cursor,
                            old(self).registry@.endpoints.len(),
                        ),
                    })
                },
            },
    {
        let size = request.payload.len() as u64;
        let permit = match self.admission.try_admit(size) {
            Ok(p) => p,
            Err(r) => {
                return Err(from_rejection(r));
            },
        };
        proof {
            crate::admission::lemma_counters_step(old(self).admission@, size as nat);
        }
        let batch = match parse(
            request.payload.as_slice(),
            request.tenant.as_slice(),
            request.namespace.as_slice(),
            &mut self.catalog,
        ) {
            Ok(b) => b,
            Err(e) => {
                self.admission.release(permit);
                return Err(e);
            },
        };
        let snapshot = self.registry.snapshot();
        let (dispatch, calls) = self.dispatcher.begin(&snapshot, request.payload.len());
        Ok(PendingWrite { permit, batch, dispatch, calls })
    }

    /// Ends a write whose calls have all settled: releases its permit and
    /// gives its outcome. A write that is not over is handed back as it
    /// is, and keeps its permit: there is no outcome before every call has
    /// settled.
    pub fn finish_write(&mut self, write: PendingWrite) -> (r: Result<WriteOutcome, PendingWrite>)
        requires
            old(self).wf(),
            write.wf(),
            old(self).admission@.holds(write.permit_size()),
        ensures
            final(self).wf(),
            final(self).registry@ == old(self).registry@,
            final(self).catalog@ == old(self).catalog@,
            final(self).dispatcher@ == old(self).dispatcher@,
            final(self).prober@ == old(self).prober@,
            final(self).no_wait_rpc_upstreams == old(self).no_wait_rpc_upstreams,
            final(self).rpc_write_timeout == old(self).rpc_write_timeout,
            final(self).authz_address == old(self).authz_address,
            r is Ok == is_over(write.dispatch_model()),
            match r {
                Ok(outcome) => {
                    &&& outcome.wf()
                    &&& outcome@.results == outcomes_of(write.dispatch_model())
                    &&& outcome@.status == status_of(settled(write.dispatch_model().results))
                    &&& final(self).admission@ == old(self).admission@.released(
                        write.permit_size(),
                    )
                    &&& final(self).catalog@ == old(self).catalog@
                    &&& final(self).admission@.requests() == old(self).admission@.requests() - 1
                    &&& final(self).admission@.bytes() == old(self).admission@.bytes()
                        - write.permit_size()
                },
                Err(back) => {
                    &&& final(self).admission@ == old(self).admission@
                    &&& back.wf()
                    &&& back.dispatch_model() == write.dispatch_model()
                    &&& back.permit_size() == write.permit_size()
                    &&& back.batch_model() == write.batch_model()
                    &&& back.calls_model() == write.calls_model()
                },
            },
    {
        match write.dispatch.outcome() {
            Some(outcome) => {
                self.admission.release(write.permit);
                Ok(outcome)
            },
            None => Err(write),
        }
    }

    /// Abandons a write, whatever its calls did: releases its permit.
    pub fn abandon_write(&mut self, write: PendingWrite)
        requires
            old(self).wf(),
            old(self).admission@.holds(write.permit_size()),
        ensures
            final(self).wf(),
            final(self).registry@ == old(self).registry@,
            final(self).catalog@ == old(self).catalog@,
            final(self).dispatcher@ == old(self).dispatcher@,
            final(self).prober@ == old(self).prober@,
            final(self).no_wait_rpc_upstreams == old(self).no_wait_rpc_upstreams,
            final(self).rpc_write_timeout == old(self).rpc_write_timeout,
            final(self).authz_address == old(self).authz_address,
            final(self).admission@ == old(self).admission@.released(write.permit_size()),
            final(self).admission@.requests() == old(self).admission@.requests() - 1,
            final(self).admission@.bytes() == old(self).admission@.bytes() - write.permit_size(),
    {
        self.admission.release(write.permit);
    }
}

} // verus!
