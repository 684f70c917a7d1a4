use write_router::batch::WriteBatch;
use write_router::catalog::NamespaceGuardrailState;
use write_router::config::{ConfigError, RouterConfig};
use write_router::dispatch::WritePhase;
use write_router::error::{from_guardrail_error, from_parse_error, from_rejection, WriteError};
use write_router::admission::AdmissionRejected;
use write_router::batch::ParseError;
use write_router::catalog::GuardrailError;
use write_router::health::HealthStatus;
use write_router::line_protocol::ParseFailure;
use write_router::outcome::{AggregatedStatus, CallResult};
use write_router::registry::MembershipEvent;
use write_router::router::{Router, WriteRequest};
use write_router::validator::parse;

fn config(addresses: &[&str]) -> RouterConfig {
    RouterConfig::with_defaults(addresses.iter().map(|a| a.to_string()).collect())
}

fn request(namespace: &str, payload: &str) -> WriteRequest {
    WriteRequest {
        tenant: b"acme".to_vec(),
        namespace: namespace.as_bytes().to_vec(),
        payload: payload.as_bytes().to_vec(),
    }
}

#[test]
fn a_write_goes_from_admission_to_outcome() {
    let mut c = config(&["a", "b", "c"]);
    c.rpc_write_replicas = 3;
    let mut router = Router::from_config(&c, 1000, 1000).ok().unwrap();
    let req = request("prod", "cpu,host=a usage=1 10\n");
    let mut write = router.begin_write(&req).unwrap();
    assert_eq!(router.admission.in_flight_requests(), 1);
    assert_eq!(router.admission.in_flight_bytes(), req.payload.len() as u128);
    assert_eq!(write.calls(), 3);
    assert_eq!(write.batch().table_count(), 1);
    assert_eq!(write.dispatch().plan().len(), 3);
    assert_eq!(write.dispatch().phase(), WritePhase::Dispatching);
    assert!(write.settle(0, CallResult::Success));
    assert!(write.settle(1, CallResult::Success));
    let mut write = match router.finish_write(write) {
        Ok(_) => panic!("a write is not over before every call has settled"),
        Err(back) => back,
    };
    assert_eq!(router.admission.in_flight_requests(), 1);
    assert!(write.settle(2, CallResult::Timeout));
    let outcome = router.finish_write(write).ok().unwrap();
    assert_eq!(
        outcome.status(),
        AggregatedStatus::PartiallySucceeded { succeeded: 2, planned: 3 }
    );
    assert!(outcome.is_potentially_queryable());
    assert_eq!(router.admission.in_flight_requests(), 0);
    assert_eq!(router.admission.in_flight_bytes(), 0);
    assert_eq!(router.catalog.column_count(b"acme", b"prod", b"cpu"), Some(2));
}

#[test]
fn unknown_namespace_changes_nothing_at_all() {
    let mut c = config(&["a"]);
    c.namespace_autocreation_enabled = false;
    let mut router = Router::from_config(&c, 1000, 1000).ok().unwrap();
    router.registry.record_probe_result(&"a".to_string(), true, 5);
    let r = router.begin_write(&request("nowhere", "cpu usage=1"));
    assert_eq!(r.unwrap_err(), WriteError::NamespaceNotFound);
    assert_eq!(router.admission.in_flight_requests(), 0);
    assert_eq!(router.admission.in_flight_bytes(), 0);
    assert_eq!(router.catalog.namespace_count(), 0);
    let snap = router.registry.snapshot();
    assert_eq!(snap.len(), 1);
    assert_eq!(snap[0].status, HealthStatus::Healthy);
    assert_eq!(snap[0].stats.attempts, 1);
    let next = router.dispatcher.plan(&snap);
    assert_eq!(next.endpoints()[0].index, 0);
}

#[test]
fn refused_writes_hold_no_permit() {
    let mut c = config(&["a"]);
    c.http_request_limit = 1;
    c.max_in_flight_byte_limit = Some(20);
    c.table_column_limit_max = 1;
    let mut router = Router::from_config(&c, 1000, 1000).ok().unwrap();

    let too_big = router.begin_write(&request("ns", "cpu usage=1234567890123"));
    assert_eq!(
        too_big.unwrap_err(),
        WriteError::AdmissionRejected(AdmissionRejected::TooManyBytes)
    );
    let malformed = router.begin_write(&request("ns", "cpu a=1\nbroken"));
    assert_eq!(
        malformed.unwrap_err(),
        WriteError::ParseError { line: 2, reason: ParseFailure::MissingFields }
    );
    assert_eq!(router.catalog.namespace_count(), 0);
    let too_wide = router.begin_write(&request("ns", "cpu a=1,b=2"));
    assert_eq!(
        too_wide.unwrap_err(),
        WriteError::ColumnLimitExceeded { table: b"cpu".to_vec(), limit: 1 }
    );
    assert_eq!(router.catalog.namespace_count(), 0);
    assert_eq!(router.admission.in_flight_requests(), 0);
    assert_eq!(router.admission.in_flight_bytes(), 0);

    let held = router.begin_write(&request("ns", "cpu a=1")).unwrap();
    let second = router.begin_write(&request("ns", "cpu a=1"));
    assert_eq!(
        second.unwrap_err(),
        WriteError::AdmissionRejected(AdmissionRejected::TooManyRequests)
    );
    assert_eq!(router.admission.in_flight_requests(), 1);
    router.abandon_write(held);
    assert_eq!(router.admission.in_flight_requests(), 0);
    assert_eq!(router.admission.in_flight_bytes(), 0);
    assert!(router.begin_write(&request("ns", "cpu a=1")).is_ok());
}

#[test]
fn oversized_payload_is_admitted_and_fails_without_a_call() {
    let mut c = config(&["a", "b"]);
    c.rpc_write_replicas = 2;
    c.rpc_write_max_outgoing_bytes = 10;
    let mut router = Router::from_config(&c, 1000, 1000).ok().unwrap();
    let write = router.begin_write(&request("ns", "cpu usage=1,idle=2")).unwrap();
    assert_eq!(write.calls(), 0);
    let outcome = router.finish_write(write).ok().unwrap();
    assert_eq!(outcome.status(), AggregatedStatus::Failed);
    assert_eq!(outcome.failures(), vec![WriteError::MessageTooLarge, WriteError::MessageTooLarge]);
    assert_eq!(router.admission.in_flight_requests(), 0);
}

#[test]
fn writes_are_spread_over_the_endpoints() {
    let mut router = Router::from_config(&config(&["a", "b", "c"]), 1000, 1000).ok().unwrap();
    let mut seen = Vec::new();
    for _ in 0..4 {
        let mut w = router.begin_write(&request("ns", "cpu a=1")).unwrap();
        seen.push(w.dispatch().plan().endpoints()[0].address.clone());
        w.settle(0, CallResult::Success);
        assert!(router.finish_write(w).is_ok());
    }
    assert_eq!(seen, vec!["a", "b", "c", "a"]);
}

#[test]
fn membership_and_health_steer_the_plan() {
    let mut router = Router::from_config(&config(&["a", "b"]), 1000, 1000).ok().unwrap();
    for i in 0..5 {
        router.registry.record_probe_result(&"a".to_string(), false, i);
    }
    router.registry.apply_membership_event(MembershipEvent::Add("c".to_string()));
    router.registry.record_probe_result(&"c".to_string(), true, 9);
    let w = router.begin_write(&request("ns", "cpu a=1")).unwrap();
    assert_eq!(w.dispatch().plan().endpoints()[0].address, "c");
    router.abandon_write(w);
    router.registry.apply_membership_event(MembershipEvent::Remove("c".to_string()));
    router.registry.apply_membership_event(MembershipEvent::Remove("b".to_string()));
    let w = router.begin_write(&request("ns", "cpu a=1")).unwrap();
    assert_eq!(w.dispatch().plan().endpoints()[0].address, "a");
    router.abandon_write(w);
}

#[test]
fn invalid_configuration_builds_no_router() {
    let mut c = config(&["a"]);
    c.rpc_write_replicas = 0;
    assert_eq!(Router::from_config(&c, 1000, 1000).err(), Some(ConfigError::ZeroReplicas));
    assert_eq!(
        Router::from_config(&config(&[]), 1000, 1000).err(),
        Some(ConfigError::NoIngesterAddress)
    );
}

#[test]
fn router_takes_its_parts_from_the_configuration() {
    let mut c = config(&["a", "b", "a"]);
    c.http_request_limit = 7;
    c.max_in_flight_byte_limit = Some(99);
    c.new_namespace_retention_hours = Some(12);
    c.table_column_limit_max = 44;
    c.no_wait_rpc_upstreams = true;
    c.rpc_write_health_num_probes = 2;
    let mut router = Router::from_config(&c, 1000, 1000).ok().unwrap();
    assert_eq!(router.admission.request_limit(), 7);
    assert_eq!(router.admission.byte_limit(), Some(99));
    assert_eq!(router.catalog.column_limit(), 44);
    assert_eq!(router.registry.len(), 2);
    assert!(router.no_wait_rpc_upstreams);
    assert_eq!(router.prober.next_probe(2, 0), Some(0));
    assert_eq!(router.prober.next_probe(2, 1), Some(1));
    assert_eq!(router.prober.next_probe(2, 2), None);
    let w = router.begin_write(&request("ns", "cpu a=1")).unwrap();
    router.abandon_write(w);
    assert_eq!(router.catalog.retention_hours(b"acme", b"ns"), Some(Some(12)));
}

#[test]
fn parse_checks_the_payload_against_the_namespace() {
    let mut state = NamespaceGuardrailState::new(true, None, 2);
    let batch = parse(b"cpu a=1\ncpu b=2", b"t", b"ns", &mut state).unwrap();
    assert_eq!(batch.ops()[0].rows, 2);
    assert_eq!(state.column_count(b"t", b"ns", b"cpu"), Some(2));
    assert_eq!(
        parse(b"cpu c=3", b"t", b"ns", &mut state).unwrap_err(),
        WriteError::ColumnLimitExceeded { table: b"cpu".to_vec(), limit: 2 }
    );
    assert_eq!(
        parse(b"cpu", b"t", b"ns", &mut state).unwrap_err(),
        WriteError::ParseError { line: 1, reason: ParseFailure::MissingFields }
    );
    let mut closed = NamespaceGuardrailState::new(false, None, 2);
    assert_eq!(
        parse(b"cpu a=1", b"t", b"ns", &mut closed).unwrap_err(),
        WriteError::NamespaceNotFound
    );
    assert_eq!(closed.namespace_count(), 0);
    assert_eq!(
        parse(b"cpu", b"t", b"ns", &mut closed).unwrap_err(),
        WriteError::ParseError { line: 1, reason: ParseFailure::MissingFields }
    );
}

#[test]
fn errors_of_the_parts_become_write_errors() {
    assert_eq!(
        from_rejection(AdmissionRejected::TooManyRequests),
        WriteError::AdmissionRejected(AdmissionRejected::TooManyRequests)
    );
    assert_eq!(
        from_parse_error(ParseError { line: 9, reason: ParseFailure::MalformedTag }),
        WriteError::ParseError { line: 9, reason: ParseFailure::MalformedTag }
    );
    assert_eq!(
        from_guardrail_error(&GuardrailError::NamespaceNotFound),
        WriteError::NamespaceNotFound
    );
    assert_eq!(
        from_guardrail_error(&GuardrailError::ColumnLimitExceeded {
            table: b"t".to_vec(),
            limit: 5
        }),
        WriteError::ColumnLimitExceeded { table: b"t".to_vec(), limit: 5 }
    );
    let _ = WriteBatch::parse(b"").unwrap();
}

#[test]
fn probes_go_round_the_endpoints_within_the_budget() {
    let mut c = config(&["a", "b", "c"]);
    c.rpc_write_health_num_probes = 4;
    let mut router = Router::from_config(&c, 1000, 1000).ok().unwrap();
    assert!(!router.ready_for_traffic());
    assert_eq!(router.next_probe(0), Some("a".to_string()));
    assert_eq!(router.next_probe(1), Some("b".to_string()));
    assert_eq!(router.next_probe(2), Some("c".to_string()));
    assert_eq!(router.next_probe(3), Some("a".to_string()));
    assert_eq!(router.next_probe(4), None);
    assert_eq!(router.next_probe(1000), Some("b".to_string()));
    router.registry.record_probe_result(&"b".to_string(), true, 1000);
    assert!(router.ready_for_traffic());
    assert_eq!(router.registry.address_at(2), Some("c".to_string()));
    assert_eq!(router.registry.address_at(3), None);
    assert_eq!(request("ns", "abc").size(), 3);
}

#[test]
fn router_without_wait_takes_traffic_at_once() {
    let mut c = config(&["a"]);
    c.no_wait_rpc_upstreams = true;
    let router = Router::from_config(&c, 1000, 1000).ok().unwrap();
    assert!(router.ready_for_traffic());
}

#[test]
fn router_keeps_the_timeout_and_the_authorization_address() {
    let mut c = config(&["a"]);
    c.rpc_write_timeout_seconds = std::time::Duration::from_secs(9);
    let router = Router::from_config(&c, 1000, 1000).ok().unwrap();
    assert_eq!(router.rpc_write_timeout, std::time::Duration::from_secs(9));
    assert!(router.authz_request(&request("ns", "cpu a=1")).is_none());

    c.single_tenant_deployment = true;
    c.authz_address = Some("http://authz:9000".to_string());
    let router = Router::from_config(&c, 1000, 1000).ok().unwrap();
    let forwarded = router.authz_request(&request("ns", "cpu a=1")).unwrap();
    assert_eq!(forwarded.address, "http://authz:9000");
    assert_eq!(forwarded.tenant, b"acme".to_vec());
}
