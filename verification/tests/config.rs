use std::time::Duration;
use std::num::IntErrorKind;
use write_router::config::{parse_duration, ConfigError, NumberErrorKind, RouterConfig};

fn valid() -> RouterConfig {
    RouterConfig::with_defaults(vec!["http://127.0.0.1:8083".to_string()])
}

#[test]
fn parse_duration_reads_whole_seconds() {
    assert_eq!(parse_duration("3").unwrap(), Duration::from_secs(3));
    assert_eq!(parse_duration("0").unwrap(), Duration::from_secs(0));
    assert_eq!(parse_duration("+7").unwrap(), Duration::from_secs(7));
    assert_eq!(parse_duration("007").unwrap(), Duration::from_secs(7));
    assert_eq!(
        parse_duration("18446744073709551615").unwrap(),
        Duration::from_secs(u64::MAX)
    );
    assert_eq!(parse_duration("3").unwrap().as_secs(), 3);
    assert_eq!(parse_duration("3").unwrap().subsec_nanos(), 0);
}

#[test]
fn parse_duration_rejects_everything_else() {
    assert!(parse_duration("").is_err());
    assert!(parse_duration("+").is_err());
    assert!(parse_duration("-1").is_err());
    assert!(parse_duration("abc").is_err());
    assert!(parse_duration(" 3").is_err());
    assert!(parse_duration("3 ").is_err());
    assert!(parse_duration("3s").is_err());
    assert!(parse_duration("1.5").is_err());
    assert!(parse_duration("1_000").is_err());
    assert!(parse_duration("++1").is_err());
    assert!(parse_duration("18446744073709551616").is_err());
    assert!(parse_duration("\u{0663}").is_err());
}

#[test]
fn defaults() {
    let c = valid();
    assert_eq!(c.authz_address, None);
    assert!(!c.single_tenant_deployment);
    assert_eq!(c.http_request_limit, 200);
    assert_eq!(c.max_http_request_size, 10 * 1024 * 1024);
    assert_eq!(c.max_in_flight_byte_limit, None);
    assert_eq!(c.ingester_addresses, vec!["http://127.0.0.1:8083".to_string()]);
    assert_eq!(c.new_namespace_retention_hours, None);
    assert!(c.namespace_autocreation_enabled);
    assert_eq!(c.table_column_limit_max, 1000);
    assert_eq!(c.rpc_write_timeout_seconds, Duration::from_secs(3));
    assert_eq!(c.rpc_write_max_outgoing_bytes, 100 * 1024 * 1024);
    assert_eq!(c.rpc_write_replicas, 1);
    assert_eq!(c.rpc_write_health_num_probes, 10);
    assert!(!c.no_wait_rpc_upstreams);
    assert!(!c.admin_ui_storage_api_enabled);
    assert_eq!(c.validate(), Ok(()));
}

#[test]
fn every_rule_is_checked() {
    let mut c = valid();
    c.http_request_limit = 0;
    assert_eq!(c.validate(), Err(ConfigError::ZeroRequestLimit));
    let mut c = valid();
    c.max_http_request_size = 0;
    assert_eq!(c.validate(), Err(ConfigError::ZeroRequestSize));
    let c = RouterConfig::with_defaults(Vec::new());
    assert_eq!(c.validate(), Err(ConfigError::NoIngesterAddress));
    let mut c = valid();
    c.new_namespace_retention_hours = Some(0);
    assert_eq!(c.validate(), Err(ConfigError::ZeroRetention));
    c.new_namespace_retention_hours = Some(1);
    assert_eq!(c.validate(), Ok(()));
    let mut c = valid();
    c.table_column_limit_max = 0;
    assert_eq!(c.validate(), Err(ConfigError::ZeroColumnLimit));
    let mut c = valid();
    c.rpc_write_replicas = 0;
    assert_eq!(c.validate(), Err(ConfigError::ZeroReplicas));
    let mut c = valid();
    c.single_tenant_deployment = true;
    assert_eq!(c.validate(), Err(ConfigError::MissingAuthzAddress));
    c.authz_address = Some("http://authz:9000".to_string());
    assert_eq!(c.validate(), Ok(()));
    c.single_tenant_deployment = false;
    assert_eq!(c.validate(), Ok(()));
}

#[test]
fn first_broken_rule_is_reported() {
    let mut c = RouterConfig::with_defaults(Vec::new());
    c.rpc_write_replicas = 0;
    c.table_column_limit_max = 0;
    assert_eq!(c.validate(), Err(ConfigError::NoIngesterAddress));
    c.http_request_limit = 0;
    assert_eq!(c.validate(), Err(ConfigError::ZeroRequestLimit));
}

#[test]
fn configuration_can_be_cloned() {
    let mut c = valid();
    c.rpc_write_replicas = 3;
    let d = c.clone();
    assert_eq!(d.rpc_write_replicas, 3);
    assert_eq!(d.rpc_write_timeout_seconds, c.rpc_write_timeout_seconds);
    assert_eq!(d.ingester_addresses, c.ingester_addresses);
}

#[test]
fn parse_duration_names_the_kind_of_defect() {
    for text in ["1.5", "-1", "3s", " 3", "3 ", "+", "-", "abc", "1_000", "++1", "\u{0663}"] {
        let e = parse_duration(text).unwrap_err();
        assert_eq!(e.kind, NumberErrorKind::InvalidDigit);
        assert_eq!(e.source.kind(), &IntErrorKind::InvalidDigit);
    }
    let empty = parse_duration("").unwrap_err();
    assert_eq!(empty.kind, NumberErrorKind::Empty);
    assert_eq!(empty.source.kind(), &IntErrorKind::Empty);
    for text in ["18446744073709551616", "+18446744073709551616", "99999999999999999999999"] {
        let e = parse_duration(text).unwrap_err();
        assert_eq!(e.kind, NumberErrorKind::PosOverflow);
        assert_eq!(e.source.kind(), &IntErrorKind::PosOverflow);
    }
    let both = parse_duration("99999999999999999999999x").unwrap_err();
    assert!(both.kind == NumberErrorKind::PosOverflow || both.kind == NumberErrorKind::InvalidDigit);
}
