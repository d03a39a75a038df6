//! Errors returned by the adjudicator and by its payment receiver.

use vstd::prelude::*;

verus! {

/// Failures of the payment receiver while proving an external transfer.
#[derive(PartialEq, Eq, Structural, Debug, Clone, Copy)]
pub enum ICPReceiverError {
    /// The ledger entry is neither a transfer nor a mint.
    TransactionType,
    /// The transfer was not addressed to this adjudicator.
    Recipient,
    /// The block was already credited.
    DuplicateTransaction,
    /// The ledger could not be queried for the block.
    FailedToQuery,
}

/// Every error an adjudicator operation can return.
#[derive(PartialEq, Eq, Structural, Debug, Clone, Copy)]
pub enum Error {
    /// Any kind of signature mismatch.
    Authentication,
    /// A settled channel was needed and none was found, or a final state was
    /// needed and a non-final one was given.
    NotFinalized,
    /// The channel is already settled and the operation would change it.
    AlreadyConcluded,
    /// The parameters and the state do not fit together.
    InvalidInput,
    /// The allocation claims more than was deposited for the channel.
    InsufficientFunding,
    /// The state is not strictly newer than the registered one.
    OutdatedState,
    /// The external transfer of a withdrawal failed; the drained funds were
    /// restored.
    LedgerError,
    /// The payment receiver refused a transaction.
    ReceiverError(ICPReceiverError),
}

/// Result of an adjudicator operation.
pub type Result<T> = core::result::Result<T, Error>;

} // verus!
