//! Parsing and validation of a write: from a raw payload to a batch that
//! the guardrails have passed.

use crate::batch::{batch_wf, payload_meaning, OpModel, WriteBatch};
use crate::catalog::{
    after_write, write_verdict, GuardrailErrorModel, GuardrailStateModel, NamespaceGuardrailState,
};
use crate::error::{from_guardrail_error, from_parse_error, WriteError, WriteErrorModel};
use crate::line_protocol::ParseFailure;
use vstd::prelude::*;

verus! {

/// Why a write of `payload` to `namespace` of `tenant` does not pass, if
/// it does not: its first malformed line, or else what the guardrails
/// refuse.
pub open spec fn validation_error(
    catalog: GuardrailStateModel,
    tenant: Seq<u8>,
    namespace: Seq<u8>,
    payload: Seq<u8>,
) -> Option<WriteErrorModel> {
    match payload_meaning(payload) {
        Err((line, reason)) => Some(WriteErrorModel::ParseError { line, reason }),
        Ok(ops) => match write_verdict(catalog, tenant, namespace, ops) {
            Err(GuardrailErrorModel::NamespaceNotFound) => Some(WriteErrorModel::NamespaceNotFound),
            Err(GuardrailErrorModel::ColumnLimitExceeded { table, limit }) => Some(
                WriteErrorModel::ColumnLimitExceeded { table, limit },
            ),
            Ok(()) => None,
        },
    }
}

/// The catalog after a write of `payload`: untouched unless the write
/// passes.
pub open spec fn catalog_after_parse(
    catalog: GuardrailStateModel,
    tenant: Seq<u8>,
    namespace: Seq<u8>,
    payload: Seq<u8>,
) -> GuardrailStateModel {
    match payload_meaning(payload) {
        Err(e) => catalog,
        Ok(ops) => after_write(catalog, tenant, namespace, ops),
    }
}

/// Turns a raw payload into a batch and checks it against the namespace's
/// guardrails in `state`, which gains the batch's new tables and columns
/// where it passes.
pub fn parse(
    payload: &[u8],
    tenant: &[u8],
    namespace: &[u8],
    state: &mut NamespaceGuardrailState,
) -> (r: Result<WriteBatch, WriteError>)
    ensures
        final(state)@ == catalog_after_parse(old(state)@, tenant@, namespace@, payload@),
        match r {
            Ok(batch) => {
                &&& validation_error(old(state)@, tenant@, namespace@, payload@) is None
                &&& payload_meaning(payload@) == Ok::<Seq<OpModel>, (nat, ParseFailure)>(batch@)
                &&& batch_wf(batch@)
            },
            Err(e) => validation_error(old(state)@, tenant@, namespace@, payload@) == Some(e@),
        },
        r is Err ==> final(state)@ == old(state)@,
        old(state).wf() ==> final(state).wf(),
{
    let batch = match WriteBatch::parse(payload) {
        Ok(b) => b,
        Err(e) => {
            return Err(from_parse_error(e));
        },
    };
    match state.write(tenant, namespace, &batch) {
        Ok(()) => Ok(batch),
        Err(g) => Err(from_guardrail_error(&g)),
    }
}

/// A write that does not pass changes nothing in the catalog.
pub proof fn lemma_refused_write_changes_nothing(
    catalog: GuardrailStateModel,
    tenant: Seq<u8>,
    namespace: Seq<u8>,
    payload: Seq<u8>,
)
    requires
        validation_error(catalog, tenant, namespace, payload) is Some,
    ensures
        catalog_after_parse(catalog, tenant, namespace, payload) == catalog,
{
}

} // verus!
