use write_router::admission::{AdmissionController, AdmissionRejected};

#[test]
fn admits_within_both_limits() {
    let mut c = AdmissionController::new(2, Some(10));
    let p = c.try_admit(4).unwrap();
    assert_eq!(p.bytes(), 4);
    assert_eq!(c.in_flight_requests(), 1);
    assert_eq!(c.in_flight_bytes(), 4);
    let q = c.try_admit(6).unwrap();
    assert_eq!(c.in_flight_requests(), 2);
    assert_eq!(c.in_flight_bytes(), 10);
    c.release(p);
    c.release(q);
}

#[test]
fn rejects_when_request_limit_would_be_passed() {
    let mut c = AdmissionController::new(1, None);
    let p = c.try_admit(1).unwrap();
    assert_eq!(c.try_admit(1).unwrap_err(), AdmissionRejected::TooManyRequests);
    assert_eq!(c.in_flight_requests(), 1);
    assert_eq!(c.in_flight_bytes(), 1);
    c.release(p);
    assert!(c.try_admit(1).is_ok());
}

#[test]
fn rejects_when_byte_limit_would_be_passed() {
    let mut c = AdmissionController::new(10, Some(100));
    let p = c.try_admit(60).unwrap();
    assert_eq!(c.try_admit(41).unwrap_err(), AdmissionRejected::TooManyBytes);
    assert_eq!(c.in_flight_requests(), 1);
    assert_eq!(c.in_flight_bytes(), 60);
    let q = c.try_admit(40).unwrap();
    assert_eq!(c.in_flight_bytes(), 100);
    c.release(p);
    c.release(q);
    assert_eq!(c.in_flight_bytes(), 0);
}

#[test]
fn request_limit_is_looked_at_before_byte_limit() {
    let mut c = AdmissionController::new(1, Some(5));
    let _p = c.try_admit(5).unwrap();
    assert_eq!(c.try_admit(50).unwrap_err(), AdmissionRejected::TooManyRequests);
}

#[test]
fn zero_request_limit_admits_nothing() {
    let mut c = AdmissionController::new(0, None);
    assert_eq!(c.try_admit(0).unwrap_err(), AdmissionRejected::TooManyRequests);
    assert_eq!(c.request_limit(), 0);
    assert_eq!(c.byte_limit(), None);
}

#[test]
fn without_byte_limit_bytes_are_unbounded() {
    let mut c = AdmissionController::new(3, None);
    let a = c.try_admit(u64::MAX).unwrap();
    let b = c.try_admit(u64::MAX).unwrap();
    let d = c.try_admit(u64::MAX).unwrap();
    assert_eq!(c.in_flight_bytes(), 3 * (u64::MAX as u128));
    c.release(a);
    c.release(b);
    c.release(d);
    assert_eq!(c.in_flight_bytes(), 0);
    assert_eq!(c.in_flight_requests(), 0);
}

#[test]
fn round_trip_returns_counters_to_their_values() {
    let mut c = AdmissionController::new(100, Some(1_000_000));
    let held = c.try_admit(17).unwrap();
    let requests_before = c.in_flight_requests();
    let bytes_before = c.in_flight_bytes();
    let sizes: [u64; 5] = [10, 0, 999, 17, 3];
    let mut permits = Vec::new();
    for s in sizes {
        permits.push(c.try_admit(s).unwrap());
    }
    assert_eq!(c.in_flight_requests(), requests_before + 5);
    assert_eq!(c.in_flight_bytes(), bytes_before + 1029);
    while let Some(p) = permits.pop() {
        c.release(p);
    }
    assert_eq!(c.in_flight_requests(), requests_before);
    assert_eq!(c.in_flight_bytes(), bytes_before);
    c.release(held);
    assert_eq!(c.in_flight_requests(), 0);
    assert_eq!(c.in_flight_bytes(), 0);
}

#[test]
fn byte_limit_of_zero_admits_only_empty_requests() {
    let mut c = AdmissionController::new(5, Some(0));
    assert_eq!(c.byte_limit(), Some(0));
    assert!(c.try_admit(0).is_ok());
    assert_eq!(c.try_admit(1).unwrap_err(), AdmissionRejected::TooManyBytes);
}

#[test]
fn permits_can_be_released_in_any_order() {
    let mut c = AdmissionController::new(10, None);
    let a = c.try_admit(5).unwrap();
    let b = c.try_admit(7).unwrap();
    let d = c.try_admit(5).unwrap();
    let e = c.try_admit(1).unwrap();
    c.release(b);
    assert_eq!(c.in_flight_requests(), 3);
    assert_eq!(c.in_flight_bytes(), 11);
    c.release(a);
    c.release(e);
    assert_eq!(c.in_flight_requests(), 1);
    assert_eq!(c.in_flight_bytes(), 5);
    c.release(d);
    assert_eq!(c.in_flight_requests(), 0);
    assert_eq!(c.in_flight_bytes(), 0);
}
