//! How the HTTP API answers a failed request: the status code for each kind
//! of failure, and whether the caller is shown the failure's detail.
//!
//! Client mistakes (a bad input, an unknown execution, an exhausted budget)
//! are explained. Failures inside the service (database, pool, JSON, an
//! internal error, a stale execution) are answered with a bare 500 so that
//! no internal detail leaks.

use vstd::prelude::*;
use crate::types::ProtocolError;

verus! {

/// The kinds of failure a long-running request can end in.
#[derive(Debug, Clone, Copy, PartialEq, Eq, Structural)]
pub enum FailureKind {
    Database,
    Pool,
    Json,
    BudgetExceeded,
    Stale,
    NotFound,
    InvalidInput,
    Internal,
}

/// The HTTP status code answered for a kind of failure.
pub open spec fn status_of(kind: FailureKind) -> u16 {
    match kind {
        FailureKind::NotFound => 404,
        FailureKind::InvalidInput => 400,
        FailureKind::BudgetExceeded => 402,
        _ => 500,
    }
}

/// Whether the caller is shown the failure's own message.
pub open spec fn discloses(kind: FailureKind) -> bool {
    kind == FailureKind::NotFound || kind == FailureKind::InvalidInput || kind
        == FailureKind::BudgetExceeded
}

/// The body answered in place of an undisclosed failure.
pub open spec fn withheld_body() -> Seq<char> {
    "internal server error"@
}

/// The status code answered for a kind of failure.
pub fn http_status(kind: FailureKind) -> (code: u16)
    ensures
        code == status_of(kind),
{
    match kind {
        FailureKind::NotFound => 404,
        FailureKind::InvalidInput => 400,
        FailureKind::BudgetExceeded => 402,
        _ => 500,
    }
}

/// The status code and body answered for a failure whose message is
/// `message`.
pub fn error_response(kind: FailureKind, message: String) -> (resp: (u16, String))
    ensures
        resp.0 == status_of(kind),
        resp.1@ == (if discloses(kind) {
            message@
        } else {
            withheld_body()
        }),
{
    let code = http_status(kind);
    match kind {
        FailureKind::NotFound | FailureKind::InvalidInput | FailureKind::BudgetExceeded => (
            code,
            message,
        ),
        _ => (code, String::from_str("internal server error")),
    }
}

/// The kind of failure a protocol refusal is.
pub fn kind_of(e: &ProtocolError) -> (kind: FailureKind)
    ensures
        kind == (match *e {
            ProtocolError::InvalidInput(_) => FailureKind::InvalidInput,
            ProtocolError::NotFound(_) => FailureKind::NotFound,
        }),
{
    match e {
        ProtocolError::InvalidInput(_) => FailureKind::InvalidInput,
        ProtocolError::NotFound(_) => FailureKind::NotFound,
    }
}

/// A failure's message reaches the caller only with a client-error status
/// (400, 402 or 404); every other failure is a 500 with a fixed body.
pub proof fn lemma_details_only_on_client_errors(kind: FailureKind)
    ensures
        discloses(kind) <==> (400 <= status_of(kind) < 500),
        !discloses(kind) <==> status_of(kind) == 500,
{
}

/// A protocol refusal is always answered as a client error that explains
/// itself.
pub proof fn lemma_refusals_are_explained(e: ProtocolError)
    ensures
        discloses(
            match e {
                ProtocolError::InvalidInput(_) => FailureKind::InvalidInput,
                ProtocolError::NotFound(_) => FailureKind::NotFound,
            },
        ),
{
}

} // verus!
