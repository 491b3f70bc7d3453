//! Failure values of the ledger.
//!
//! Every operation surfaces its failure as a distinct, inspectable value:
//! nothing is retried, and no failure is downgraded to a default balance.

use vstd::prelude::*;

verus! {

/// Diagnostic context of malformed persisted data: the row and the field
/// that failed to parse or to validate.
#[derive(Debug)]
pub struct IntegrityFault {
    pub id_num: i32,
    pub field: String,
}

/// A failure of a ledger operation.
#[derive(Debug)]
pub enum LedgerError {
    /// The persistence layer was unreachable or refused a query.
    Connectivity(String),
    /// A latest-row query found an empty table.
    NotFound,
    /// Persisted data is malformed; the ledger itself is untrustworthy.
    Integrity(IntegrityFault),
    /// The account set is empty, or a transaction names an unknown account.
    Schema(String),
}

} // verus!
