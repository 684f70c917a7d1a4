//! The errors of the write path.

use crate::admission::AdmissionRejected;
use crate::batch::ParseError;
use crate::bytes::copy_bytes;
use crate::catalog::GuardrailError;
use crate::line_protocol::ParseFailure;
use crate::outcome::{CallResult, RpcErrorCause};
use vstd::prelude::*;

verus! {

/// An error of the write path, as a mathematical value.
pub enum WriteErrorModel {
    AdmissionRejected(AdmissionRejected),
    ParseError { line: nat, reason: ParseFailure },
    NamespaceNotFound,
    ColumnLimitExceeded { table: Seq<u8>, limit: nat },
    MessageTooLarge,
    RpcTimeout { endpoint: Seq<char> },
    RpcError { endpoint: Seq<char>, cause: RpcErrorCause },
    PartialWriteError { succeeded: nat, planned: nat },
}

/// An error of the write path.
#[derive(Debug, PartialEq, Eq)]
pub enum WriteError {
    /// The request was not admitted.
    AdmissionRejected(AdmissionRejected),
    /// Line `line` of the payload, counted from 1, is malformed.
    ParseError { line: usize, reason: ParseFailure },
    /// The namespace is unknown and is not created on demand.
    NamespaceNotFound,
    /// The write would take `table` beyond `limit` columns.
    ColumnLimitExceeded { table: Vec<u8>, limit: usize },
    /// The payload is larger than the largest message that may be sent.
    MessageTooLarge,
    /// The call to `endpoint` did not settle in time.
    RpcTimeout { endpoint: String },
    /// The call to `endpoint` ended in an error.
    RpcError { endpoint: String, cause: RpcErrorCause },
    /// Only `succeeded` of `planned` endpoints acknowledged the write. The
    /// write may be found by queries all the same.
    PartialWriteError { succeeded: usize, planned: usize },
}

impl View for WriteError {
    type V = WriteErrorModel;

    open spec fn view(&self) -> WriteErrorModel {
        match self {
            WriteError::AdmissionRejected(r) => WriteErrorModel::AdmissionRejected(*r),
            WriteError::ParseError { line, reason } => WriteErrorModel::ParseError {
                line: *line as nat,
                reason: *reason,
            },
            WriteError::NamespaceNotFound => WriteErrorModel::NamespaceNotFound,
            WriteError::ColumnLimitExceeded { table, limit } => {
                WriteErrorModel::ColumnLimitExceeded { table: table@, limit: *limit as nat }
            },
            WriteError::MessageTooLarge => WriteErrorModel::MessageTooLarge,
            WriteError::RpcTimeout { endpoint } => WriteErrorModel::RpcTimeout {
                endpoint: endpoint@,
            },
            WriteError::RpcError { endpoint, cause } => WriteErrorModel::RpcError {
                endpoint: endpoint@,
                cause: *cause,
            },
            WriteError::PartialWriteError { succeeded, planned } => {
                WriteErrorModel::PartialWriteError {
                    succeeded: *succeeded as nat,
                    planned: *planned as nat,
                }
            },
        }
    }
}

/// The error that a call to `endpoint` with `result` stands for; none for
/// a success. An oversized payload is `MessageTooLarge` whatever the
/// endpoint.
pub open spec fn call_error(endpoint: Seq<char>, result: CallResult) -> Option<WriteErrorModel> {
    match result {
        CallResult::Success => None,
        CallResult::Timeout => Some(WriteErrorModel::RpcTimeout { endpoint }),
        CallResult::Error(RpcErrorCause::MessageTooLarge) => Some(WriteErrorModel::MessageTooLarge),
        CallResult::Error(cause) => Some(WriteErrorModel::RpcError { endpoint, cause }),
    }
}

/// The write-path error for a rejected admission.
pub fn from_rejection(r: AdmissionRejected) -> (e: WriteError)
    ensures
        e@ == WriteErrorModel::AdmissionRejected(r),
{
    WriteError::AdmissionRejected(r)
}

/// The write-path error for a malformed line.
pub fn from_parse_error(p: ParseError) -> (e: WriteError)
    ensures
        e@ == (WriteErrorModel::ParseError { line: p.line as nat, reason: p.reason }),
{
    WriteError::ParseError { line: p.line, reason: p.reason }
}

/// The write-path error for a refusal by the guardrails.
pub fn from_guardrail_error(g: &GuardrailError) -> (e: WriteError)
    ensures
        e@ == match g@ {
            crate::catalog::GuardrailErrorModel::NamespaceNotFound => {
                WriteErrorModel::NamespaceNotFound
            },
            crate::catalog::GuardrailErrorModel::ColumnLimitExceeded { table, limit } => {
                WriteErrorModel::ColumnLimitExceeded { table, limit }
            },
        },
{
    match g {
        GuardrailError::NamespaceNotFound => WriteError::NamespaceNotFound,
        GuardrailError::ColumnLimitExceeded { table, limit } => WriteError::ColumnLimitExceeded {
            table: copy_bytes(table.as_slice()),
            limit: *limit,
        },
    }
}

/// The write-path error that a call to `endpoint` with `result` stands
/// for.
pub fn from_call(endpoint: &String, result: CallResult) -> (e: Option<WriteError>)
    ensures
        match e {
            Some(err) => call_error(endpoint@, result) == Some(err@),
            None => call_error(endpoint@, result) is None,
        },
{
    match result {
        CallResult::Success => None,
        CallResult::Timeout => Some(WriteError::RpcTimeout { endpoint: endpoint.clone() }),
        CallResult::Error(cause) => match cause {
            RpcErrorCause::MessageTooLarge => Some(WriteError::MessageTooLarge),
            _ => Some(WriteError::RpcError { endpoint: endpoint.clone(), cause }),
        },
    }
}

} // verus!
