use vstd::prelude::*;

verus! {

/// The ways a ledger operation can be rejected. A rejected operation changes
/// nothing.
#[derive(Clone, Copy, Debug, PartialEq, Eq, Structural)]
pub enum TokenError {
    /// A mint or an account identifier names no record.
    NotFound,
    /// The amount is zero.
    InvalidAmount,
    /// The claimed authority is not the one recorded for the mint or account.
    Unauthorized,
    /// The accounts, or the account and the mint, belong to different mints.
    MintMismatch,
    /// The account holds less than the amount to take from it.
    InsufficientBalance,
    /// The result would exceed the unsigned 64-bit range.
    SupplyOverflow,
    /// The result would be negative.
    SupplyUnderflow,
}

} // verus!
