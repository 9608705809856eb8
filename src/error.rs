//! Error kinds of the ledger core.
use vstd::prelude::*;

verus! {

/// Why an operation on the ledger did not succeed.
#[derive(Debug, Clone, Copy, PartialEq, Eq, Structural)]
pub enum LedgerError {
    MalformedTransaction,
    InvalidSignature,
    DuplicateSignature,
    OutOfGas,
    InvalidInstruction,
    StackIndexOutOfRange,
    DivisionByZero,
    NotFound,
    InvalidCursor,
    InsufficientFunds,
}

} // verus!
