//! The error taxonomy of the ledger core.
//!
//! Authorization denial and the soft failure of `set_key` are deliberately
//! *not* errors: they are ordinary responses (see the authorization and key modules).

use vstd::prelude::*;

verus! {

/// Every hard failure an operation of this crate can report.
///
/// An operation that returns `Err` leaves the ledger state exactly as it
/// found it; the contracts of the mutating operations state this.
#[derive(Debug, Clone, Copy, PartialEq, Eq, Structural)]
pub enum Error {
    /// Token name, symbol or decimals outside the documented format.
    InvalidFormat,
    /// A debit would exceed the available balance.
    InsufficientFunds,
    /// A `transfer_from` would exceed the granted allowance.
    InsufficientAllowance,
    /// A deposit with no attached native funds.
    ZeroDeposit,
    /// An addition would exceed the 128-bit range.
    Overflow,
    /// A stored integer is not the expected fixed width.
    CorruptStorage,
    /// An account identifier is not a canonical fixed-size identifier.
    InvalidAddress,
}

} // verus!
