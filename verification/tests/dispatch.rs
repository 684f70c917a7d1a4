use write_router::dispatch::{Dispatcher, WriteDispatch, WritePhase};
use write_router::error::{from_call, WriteError};
use write_router::health::{HealthStatus, ProbeStats};
use write_router::outcome::{
    aggregate, count_successes, is_potentially_queryable, AggregatedStatus, CallResult,
    RpcErrorCause,
};
use write_router::plan::make_plan;
use write_router::registry::IngesterEndpoint;
use CallResult::{Error, Success, Timeout};

fn endpoint(address: &str, status: HealthStatus) -> IngesterEndpoint {
    IngesterEndpoint {
        address: address.to_string(),
        status,
        stats: ProbeStats { successes: 0, attempts: 0, window_start: 0 },
    }
}

fn three_healthy() -> Vec<IngesterEndpoint> {
    vec![
        endpoint("a", HealthStatus::Healthy),
        endpoint("b", HealthStatus::Healthy),
        endpoint("c", HealthStatus::Healthy),
    ]
}

#[test]
fn aggregation_by_count() {
    assert_eq!(aggregate(&vec![Success, Success, Success]), AggregatedStatus::FullySucceeded);
    assert_eq!(
        aggregate(&vec![Success, Timeout, Success]),
        AggregatedStatus::PartiallySucceeded { succeeded: 2, planned: 3 }
    );
    assert_eq!(
        aggregate(&vec![Error(RpcErrorCause::Upstream), Success]),
        AggregatedStatus::PartiallySucceeded { succeeded: 1, planned: 2 }
    );
    assert_eq!(
        aggregate(&vec![Timeout, Error(RpcErrorCause::MalformedResponse)]),
        AggregatedStatus::Failed
    );
    assert_eq!(aggregate(&vec![Success]), AggregatedStatus::FullySucceeded);
    assert_eq!(aggregate(&vec![Timeout]), AggregatedStatus::Failed);
    assert_eq!(aggregate(&Vec::new()), AggregatedStatus::Failed);
    assert_eq!(count_successes(&vec![Success, Timeout, Success]), 2);
    assert!(is_potentially_queryable(AggregatedStatus::FullySucceeded));
    assert!(is_potentially_queryable(AggregatedStatus::PartiallySucceeded {
        succeeded: 1,
        planned: 2
    }));
    assert!(!is_potentially_queryable(AggregatedStatus::Failed));
}

#[test]
fn two_of_three_is_a_partial_write_that_may_be_queried() {
    let mut dispatcher = Dispatcher::new(3, 1024).unwrap();
    let (mut write, calls) = dispatcher.begin(&three_healthy(), 100);
    assert_eq!(calls, 3);
    assert_eq!(write.phase(), WritePhase::Dispatching);
    assert!(write.settle(0, CallResult::Success));
    assert!(write.settle(2, CallResult::Timeout));
    assert!(write.outcome().is_none());
    assert_eq!(write.phase(), WritePhase::Dispatching);
    assert!(write.settle(1, CallResult::Success));
    assert_eq!(write.phase(), WritePhase::PartiallySucceeded);
    let outcome = write.outcome().unwrap();
    assert_eq!(
        outcome.status(),
        AggregatedStatus::PartiallySucceeded { succeeded: 2, planned: 3 }
    );
    assert!(outcome.is_potentially_queryable());
    assert_eq!(
        outcome.partial_write_error(),
        Some(WriteError::PartialWriteError { succeeded: 2, planned: 3 })
    );
    assert_eq!(outcome.failures(), vec![WriteError::RpcTimeout { endpoint: "c".to_string() }]);
    let results = outcome.results();
    assert_eq!(results.len(), 3);
    assert_eq!(results[0].address, "a");
    assert_eq!(results[0].result, CallResult::Success);
    assert_eq!(results[2].address, "c");
    assert_eq!(results[2].result, CallResult::Timeout);
}

#[test]
fn only_endpoint_unhealthy_is_still_written_to() {
    let snap = vec![endpoint("only", HealthStatus::Unhealthy)];
    let mut dispatcher = Dispatcher::new(1, 1024).unwrap();
    let (mut write, calls) = dispatcher.begin(&snap, 10);
    assert_eq!(calls, 1);
    assert_eq!(write.plan().len(), 1);
    assert_eq!(write.plan().endpoints()[0].address, "only");
    assert!(write.settle(0, CallResult::Success));
    let outcome = write.outcome().unwrap();
    assert_eq!(outcome.status(), AggregatedStatus::FullySucceeded);
    assert!(outcome.failures().is_empty());
    assert_eq!(outcome.partial_write_error(), None);

    let (mut second, _) = dispatcher.begin(&snap, 10);
    assert!(second.settle(0, CallResult::Error(RpcErrorCause::Upstream)));
    let failed = second.outcome().unwrap();
    assert_eq!(failed.status(), AggregatedStatus::Failed);
    assert!(!failed.is_potentially_queryable());
    assert_eq!(
        failed.failures(),
        vec![WriteError::RpcError { endpoint: "only".to_string(), cause: RpcErrorCause::Upstream }]
    );
}

#[test]
fn oversized_payload_fails_every_endpoint_without_a_call() {
    let mut dispatcher = Dispatcher::new(2, 100).unwrap();
    let (mut write, calls) = dispatcher.begin(&three_healthy(), 101);
    assert_eq!(calls, 0);
    assert!(write.is_over());
    assert_eq!(write.phase(), WritePhase::Failed);
    assert!(!write.settle(0, CallResult::Success));
    let outcome = write.outcome().unwrap();
    assert_eq!(outcome.status(), AggregatedStatus::Failed);
    assert_eq!(outcome.results().len(), 2);
    assert_eq!(outcome.failures(), vec![WriteError::MessageTooLarge, WriteError::MessageTooLarge]);
    let (fits, calls) = dispatcher.begin(&three_healthy(), 100);
    assert_eq!(calls, 2);
    assert_eq!(fits.phase(), WritePhase::Dispatching);
}

#[test]
fn write_is_pending_until_started() {
    let plan = make_plan(&three_healthy(), 0, 2);
    let mut write = WriteDispatch::new(plan);
    assert_eq!(write.phase(), WritePhase::Pending);
    assert!(!write.is_over());
    assert!(!write.settle(0, CallResult::Success));
    assert!(write.outcome().is_none());
    assert_eq!(write.start(5, 10), 2);
    assert_eq!(write.start(5, 10), 0);
    assert_eq!(write.start(500, 10), 0);
    assert_eq!(write.phase(), WritePhase::Dispatching);
}

#[test]
fn first_result_of_a_call_stands() {
    let mut dispatcher = Dispatcher::new(2, 1024).unwrap();
    let (mut write, _) = dispatcher.begin(&three_healthy(), 1);
    assert!(write.settle(0, CallResult::Timeout));
    assert!(!write.settle(0, CallResult::Success));
    assert!(!write.settle(2, CallResult::Success));
    assert!(!write.settle(usize::MAX, CallResult::Success));
    assert!(write.settle(1, CallResult::Timeout));
    assert_eq!(write.outcome().unwrap().status(), AggregatedStatus::Failed);
}

#[test]
fn outcome_does_not_depend_on_the_order_of_results() {
    let mut dispatcher = Dispatcher::new(3, 1024).unwrap();
    let (mut forward, _) = dispatcher.begin(&three_healthy(), 1);
    let mut other = Dispatcher::new(3, 1024).unwrap();
    let (mut backward, _) = other.begin(&three_healthy(), 1);
    let results = [
        CallResult::Success,
        CallResult::Error(RpcErrorCause::MalformedResponse),
        CallResult::Timeout,
    ];
    for i in 0..3 {
        forward.settle(i, results[i]);
        backward.settle(2 - i, results[2 - i]);
    }
    let f = forward.outcome().unwrap();
    let b = backward.outcome().unwrap();
    assert_eq!(f.status(), b.status());
    assert_eq!(f.failures(), b.failures());
    assert_eq!(
        f.failures(),
        vec![
            WriteError::RpcError {
                endpoint: "b".to_string(),
                cause: RpcErrorCause::MalformedResponse
            },
            WriteError::RpcTimeout { endpoint: "c".to_string() },
        ]
    );
}

#[test]
fn empty_plan_is_a_failed_write() {
    let mut dispatcher = Dispatcher::new(2, 1024).unwrap();
    let (write, calls) = dispatcher.begin(&Vec::new(), 1);
    assert_eq!(calls, 0);
    assert!(write.is_over());
    let outcome = write.outcome().unwrap();
    assert_eq!(outcome.status(), AggregatedStatus::Failed);
    assert!(outcome.failures().is_empty());
}

#[test]
fn dispatcher_needs_a_replica_and_moves_its_cursor() {
    assert!(Dispatcher::new(0, 10).is_none());
    let mut d = Dispatcher::new(1, 10).unwrap();
    assert_eq!(d.replicas(), 1);
    let snap = three_healthy();
    assert_eq!(d.plan(&snap).endpoints()[0].address, "a");
    assert_eq!(d.plan(&snap).endpoints()[0].address, "b");
    assert_eq!(d.plan(&snap).endpoints()[0].address, "c");
    assert_eq!(d.plan(&snap).endpoints()[0].address, "a");
    assert!(d.plan(&Vec::new()).endpoints().is_empty());
    assert_eq!(d.plan(&snap).endpoints()[0].address, "b");
}

#[test]
fn call_results_as_errors() {
    let e = "x".to_string();
    assert_eq!(from_call(&e, CallResult::Success), None);
    assert_eq!(
        from_call(&e, CallResult::Timeout),
        Some(WriteError::RpcTimeout { endpoint: "x".to_string() })
    );
    assert_eq!(
        from_call(&e, CallResult::Error(RpcErrorCause::MessageTooLarge)),
        Some(WriteError::MessageTooLarge)
    );
    assert_eq!(
        from_call(&e, CallResult::Error(RpcErrorCause::Upstream)),
        Some(WriteError::RpcError { endpoint: "x".to_string(), cause: RpcErrorCause::Upstream })
    );
}
