//! The router's configuration: the values that the core consumes, and the
//! rules they obey.

use crate::search::{first_match, lemma_first_match};
use std::num::{IntErrorKind, ParseIntError};
use std::time::Duration;
use vstd::prelude::*;

verus! {

/// The error of std's integer parsing, carried through opaquely.
#[verifier::external_type_specification]
#[verifier::external_body]
pub struct ExParseIntError(ParseIntError);

/// The duration of `secs` whole seconds: what `Duration::from_secs`
/// returns.
pub uninterp spec fn seconds(secs: u64) -> Duration;

/// `Duration::from_secs` returns the duration of that many whole seconds.
pub assume_specification[ Duration::from_secs ](secs: u64) -> (d: Duration)
    ensures
        d == seconds(secs),
;

/// A clone of a `Duration` is the same duration.
pub assume_specification[ <Duration as Clone>::clone ](d: &Duration) -> (c: Duration)
    ensures
        c == *d,
;

/// Whether `c` is an ASCII decimal digit.
pub open spec fn is_decimal_digit(c: char) -> bool {
    '0' <= c <= '9'
}

/// `s` without its plus sign, where it starts with one.
pub open spec fn unsigned_digits(s: Seq<char>) -> Seq<char> {
    if s.len() > 0 && s[0] == '+' {
        s.skip(1)
    } else {
        s
    }
}

/// The number that the decimal digits `s` write.
pub open spec fn decimal_value(s: Seq<char>) -> nat
    decreases s.len(),
{
    if s.len() == 0 {
        0
    } else {
        decimal_value(s.drop_last()) * 10 + (s.last() as nat - '0' as nat) as nat
    }
}

/// Whether `s` writes a `u64`: an optional `+`, then one or more ASCII
/// decimal digits and nothing else, for a number that fits.
pub open spec fn writes_u64(s: Seq<char>) -> bool {
    let digits = unsigned_digits(s);
    &&& digits.len() > 0
    &&& forall|i: int| 0 <= i < digits.len() ==> is_decimal_digit(#[trigger] digits[i])
    &&& decimal_value(digits) <= u64::MAX
}

/// Why a text writes no number: the kinds of error that std's integer
/// parsing tells apart.
#[derive(Clone, Copy, Debug, PartialEq, Eq, Structural)]
pub enum NumberErrorKind {
    /// The text is empty.
    Empty,
    /// The text holds a character that is no digit where a digit must
    /// stand, or a sign alone.
    InvalidDigit,
    /// The number is too large for the type.
    PosOverflow,
    /// The number is too small for the type.
    NegOverflow,
    /// The number is zero where zero is not allowed.
    Zero,
    /// A kind that std has added since.
    Other,
}

/// Why a text is no duration: the kind of the defect, and std's own error
/// as it came.
#[derive(Debug)]
pub struct ParseDurationError {
    pub kind: NumberErrorKind,
    pub source: ParseIntError,
}

/// The test for a character that is no decimal digit.
pub open spec fn not_a_digit() -> spec_fn(char) -> bool {
    |c: char| !is_decimal_digit(c)
}

/// The decimal digits that `d` starts with.
pub open spec fn digit_run(d: Seq<char>) -> Seq<char> {
    d.take(first_match(d, not_a_digit()))
}

/// Whether `kind` is the kind of error that a text `s` which writes no
/// `u64` is rejected with:
/// `Empty` for the empty text, `PosOverflow` for digits that write too
/// large a number, `InvalidDigit` for a sign alone and for a character
/// that is no digit. Where the digits in front of such a character
/// already write too large a number, both defects are there, and either
/// of the two kinds fits.
pub open spec fn kind_fits(s: Seq<char>, kind: NumberErrorKind) -> bool {
    let d = unsigned_digits(s);
    let run = digit_run(d);
    if s.len() == 0 {
        kind == NumberErrorKind::Empty
    } else if d.len() > 0 && run.len() == d.len() {
        kind == NumberErrorKind::PosOverflow
    } else if decimal_value(run) <= u64::MAX {
        kind == NumberErrorKind::InvalidDigit
    } else {
        kind == NumberErrorKind::InvalidDigit || kind == NumberErrorKind::PosOverflow
    }
}

/// Calls `str::parse::<u64>`, and reads the kind of its error with
/// `ParseIntError::kind`.
///
/// Claimed of it, as std documents both: the text is accepted exactly when
/// it is an optional `+` followed by one or more ASCII decimal digits and
/// nothing else, and the number fits in a `u64`; the result is then that
/// number. A text that is not accepted gives an error of a kind that fits
/// it: `Empty` for the empty text, `PosOverflow` for a number that is too
/// large, `InvalidDigit` for a sign alone or a character that is no digit.
#[verifier::external_body]
fn parse_u64(input: &str) -> (r: Result<u64, ParseDurationError>)
    ensures
        r is Ok == writes_u64(input@),
        r matches Ok(v) ==> v == decimal_value(unsigned_digits(input@)),
        r matches Err(e) ==> kind_fits(input@, e.kind),
{
    match input.parse::<u64>() {
        Ok(v) => Ok(v),
        Err(source) => {
            let kind = match source.kind() {
                IntErrorKind::Empty => NumberErrorKind::Empty,
                IntErrorKind::InvalidDigit => NumberErrorKind::InvalidDigit,
                IntErrorKind::PosOverflow => NumberErrorKind::PosOverflow,
                IntErrorKind::NegOverflow => NumberErrorKind::NegOverflow,
                IntErrorKind::Zero => NumberErrorKind::Zero,
                _ => NumberErrorKind::Other,
            };
            Err(ParseDurationError { kind, source })
        },
    }
}

/// A text that writes no `u64` is rejected as empty, for a character that
/// is no digit, or for a number that is too large, never otherwise: as
/// empty exactly when it is empty, and as too large only where its leading
/// digits write a number that is too large.
pub proof fn lemma_kind_of_error(s: Seq<char>, kind: NumberErrorKind)
    requires
        kind_fits(s, kind),
    ensures
        kind == NumberErrorKind::Empty || kind == NumberErrorKind::InvalidDigit || kind
            == NumberErrorKind::PosOverflow,
        kind == NumberErrorKind::Empty <==> s.len() == 0,
        kind == NumberErrorKind::PosOverflow && !writes_u64(s) ==> decimal_value(
            digit_run(unsigned_digits(s)),
        ) > u64::MAX,
        kind == NumberErrorKind::InvalidDigit ==> !writes_u64(s),
{
    let d = unsigned_digits(s);
    lemma_first_match(d, not_a_digit());
    if d.len() > 0 && digit_run(d).len() == d.len() {
        assert(digit_run(d) =~= d);
        assert forall|i: int| 0 <= i < d.len() implies is_decimal_digit(#[trigger] d[i]) by {
            assert(!not_a_digit()(d[i]));
        }
    } else if d.len() > 0 {
        let k = first_match(d, not_a_digit());
        assert(not_a_digit()(d[k]));
    }
}

/// Reads a whole number of seconds: the duration of that many seconds
/// where `input` writes a `u64`, else the kind of its defect with std's
/// error.
pub fn parse_duration(input: &str) -> (r: Result<Duration, ParseDurationError>)
    ensures
        r is Ok == writes_u64(input@),
        r matches Ok(d) ==> d == seconds(decimal_value(unsigned_digits(input@)) as u64),
        r matches Err(e) ==> kind_fits(input@, e.kind),
{
    match parse_u64(input) {
        Ok(secs) => Ok(Duration::from_secs(secs)),
        Err(e) => Err(e),
    }
}

/// The rule that a configuration breaks.
#[derive(Clone, Copy, Debug, PartialEq, Eq, Structural)]
pub enum ConfigError {
    /// The limit on concurrent requests is zero.
    ZeroRequestLimit,
    /// The largest request size is zero.
    ZeroRequestSize,
    /// No ingester address is given.
    NoIngesterAddress,
    /// The retention of new namespaces is zero hours.
    ZeroRetention,
    /// The column limit is zero.
    ZeroColumnLimit,
    /// The replica count is zero.
    ZeroReplicas,
    /// A single-tenant deployment without an authorization address.
    MissingAuthzAddress,
}

/// The router's configuration.
#[derive(Debug, Clone)]
pub struct RouterConfig {
    /// Address of the authorization service, handed on to it together with
    /// the tenant's identity.
    pub authz_address: Option<String>,
    /// Whether this is a single-tenant deployment.
    pub single_tenant_deployment: bool,
    /// The most requests that are served at the same time.
    pub http_request_limit: usize,
    /// The largest request body, in bytes.
    pub max_http_request_size: u32,
    /// The most payload bytes that are held at the same time; `None` puts
    /// no bound on them.
    pub max_in_flight_byte_limit: Option<usize>,
    /// The ingesters' addresses.
    pub ingester_addresses: Vec<String>,
    /// How long a namespace that is created by a write is kept, in hours;
    /// `None` keeps it for ever.
    pub new_namespace_retention_hours: Option<u64>,
    /// Whether a write to an unknown namespace creates it.
    pub namespace_autocreation_enabled: bool,
    /// The most columns that a write may take a table to.
    pub table_column_limit_max: usize,
    /// How long one call to an ingester may take.
    pub rpc_write_timeout_seconds: Duration,
    /// The largest message that is sent to an ingester, in bytes.
    pub rpc_write_max_outgoing_bytes: usize,
    /// The number of ingesters that each write is sent to.
    pub rpc_write_replicas: usize,
    /// The most health probes that are sent in a second.
    pub rpc_write_health_num_probes: u64,
    /// Whether the router takes traffic before an ingester has answered.
    pub no_wait_rpc_upstreams: bool,
    /// Whether the storage API of the admin UI is served.
    pub admin_ui_storage_api_enabled: bool,
}

impl RouterConfig {
    /// The first rule that the configuration breaks, in the order of
    /// `ConfigError`; none where it is valid.
    pub open spec fn defect(&self) -> Option<ConfigError> {
        if self.http_request_limit == 0 {
            Some(ConfigError::ZeroRequestLimit)
        } else if self.max_http_request_size == 0 {
            Some(ConfigError::ZeroRequestSize)
        } else if self.ingester_addresses@.len() == 0 {
            Some(ConfigError::NoIngesterAddress)
        } else if self.new_namespace_retention_hours == Some(0u64) {
            Some(ConfigError::ZeroRetention)
        } else if self.table_column_limit_max == 0 {
            Some(ConfigError::ZeroColumnLimit)
        } else if self.rpc_write_replicas == 0 {
            Some(ConfigError::ZeroReplicas)
        } else if self.single_tenant_deployment && self.authz_address is None {
            Some(ConfigError::MissingAuthzAddress)
        } else {
            None
        }
    }

    /// Whether the configuration is valid: every count that must not be
    /// zero is at least one, there is an ingester, and a single-tenant
    /// deployment names its authorization service.
    pub open spec fn valid(&self) -> bool {
        &&& self.http_request_limit >= 1
        &&& self.max_http_request_size >= 1
        &&& self.ingester_addresses@.len() >= 1
        &&& (self.new_namespace_retention_hours matches Some(h) ==> h >= 1)
        &&& self.table_column_limit_max >= 1
        &&& self.rpc_write_replicas >= 1
        &&& (self.single_tenant_deployment ==> self.authz_address is Some)
    }

    /// The configuration with every value at its default, for the given
    /// ingesters: 200 requests, bodies of 10 MiB, no byte limit, namespaces
    /// created on demand and kept for ever, 1000 columns, calls of 3
    /// seconds and 100 MiB, one replica, 10 probes a second.
    pub fn with_defaults(ingester_addresses: Vec<String>) -> (c: RouterConfig)
        ensures
            c.authz_address is None,
            !c.single_tenant_deployment,
            c.http_request_limit == 200,
            c.max_http_request_size == 10_485_760,
            c.max_in_flight_byte_limit is None,
            c.ingester_addresses == ingester_addresses,
            c.new_namespace_retention_hours is None,
            c.namespace_autocreation_enabled,
            c.table_column_limit_max == 1000,
            c.rpc_write_timeout_seconds == seconds(3),
            c.rpc_write_max_outgoing_bytes == 104_857_600,
            c.rpc_write_replicas == 1,
            c.rpc_write_health_num_probes == 10,
            !c.no_wait_rpc_upstreams,
            !c.admin_ui_storage_api_enabled,
            c.valid() == (ingester_addresses@.len() >= 1),
    {
        RouterConfig {
            authz_address: None,
            single_tenant_deployment: false,
            http_request_limit: 200,
            max_http_request_size: 10_485_760,
            max_in_flight_byte_limit: None,
            ingester_addresses,
            new_namespace_retention_hours: None,
            namespace_autocreation_enabled: true,
            table_column_limit_max: 1000,
            rpc_write_timeout_seconds: Duration::from_secs(3),
            rpc_write_max_outgoing_bytes: 104_857_600,
            rpc_write_replicas: 1,
            rpc_write_health_num_probes: 10,
            no_wait_rpc_upstreams: false,
            admin_ui_storage_api_enabled: false,
        }
    }

    /// Checks the configuration: gives the first rule it breaks.
    pub fn validate(&self) -> (r: Result<(), ConfigError>)
        ensures
            r is Ok == self.valid(),
            match r {
                Ok(()) => self.defect() is None,
                Err(e) => self.defect() == Some(e),
            },
    {
        if self.http_request_limit == 0 {
            return Err(ConfigError::ZeroRequestLimit);
        }
        if self.max_http_request_size == 0 {
            return Err(ConfigError::ZeroRequestSize);
        }
        if self.ingester_addresses.len() == 0 {
            return Err(ConfigError::NoIngesterAddress);
        }
        match self.new_namespace_retention_hours {
            Some(h) => {
                if h == 0 {
                    return Err(ConfigError::ZeroRetention);
                }
            },
            None => {},
        }
        if self.table_column_limit_max == 0 {
            return Err(ConfigError::ZeroColumnLimit);
        }
        if self.rpc_write_replicas == 0 {
            return Err(ConfigError::ZeroReplicas);
        }
        if self.single_tenant_deployment && self.authz_address.is_none() {
            return Err(ConfigError::MissingAuthzAddress);
        }
        Ok(())
    }
}

} // verus!
