//! Health of the long-running service: down when no database connection can be
//! had, degraded when the executions table cannot be read, healthy
//! otherwise.

use vstd::prelude::*;

verus! {

/// Health reported by the extension.
#[derive(Debug, Clone)]
pub enum HealthStatus {
    Healthy,
    Degraded(String),
    Down(String),
}

/// The reason given when the executions table cannot be read.
pub open spec fn table_reason() -> Seq<char> {
    "lr_executions table inaccessible"@
}

/// The reason given when no connection can be had.
pub open spec fn pool_reason(error: Seq<char>) -> Seq<char> {
    "pool error: "@ + error
}

/// The health verdict from the outcome of getting a connection (`Some`
/// holds the pool's error message) and of reading the executions table.
pub fn health_verdict(pool_error: Option<String>, table_readable: bool) -> (h: HealthStatus)
    ensures
        match pool_error {
            Some(e) => h matches HealthStatus::Down(r) && r@ == pool_reason(e@),
            None => if table_readable {
                h is Healthy
            } else {
                h matches HealthStatus::Degraded(r) && r@ == table_reason()
            },
        },
{
    match pool_error {
        Some(e) => HealthStatus::Down(String::from_str("pool error: ").concat(e.as_str())),
        None => if table_readable {
            HealthStatus::Healthy
        } else {
            HealthStatus::Degraded(String::from_str("lr_executions table inaccessible"))
        },
    }
}

} // verus!
