//! Typed failure outcomes of every market operation.

use vstd::prelude::*;

verus! {

/// Every way a market operation can fail. Each validation or authorization
/// failure is reported as its own variant, never silently downgraded to a
/// default value: a losing bettor receives `NoWinningStake`, not a zero
/// payout.
#[derive(Clone, Copy, Debug, PartialEq, Eq, Structural)]
pub enum ErrorCode {
    /// The market has already been resolved; it cannot take bets or be
    /// resolved a second time.
    MarketAlreadyResolved,
    /// The market has not been resolved yet, so winnings cannot be claimed.
    MarketNotResolved,
    /// A market with the same external identifier already exists.
    MarketAlreadyExists,
    /// The external identifier exceeds the bound of `MAX_ID_LEN` bytes.
    IdTooLong,
    /// A bet's amount must be strictly positive.
    InvalidAmount,
    /// The escrow transfer of a deposit failed for lack of funds.
    InsufficientFunds,
    /// The caller's bet has already been paid out.
    AlreadyClaimed,
    /// The caller staked nothing on the winning side.
    NoWinningStake,
    /// The winning side's total is zero, so no proportional share exists.
    SettlementUnavailable,
    /// The caller is not the identity this operation requires.
    Unauthorized,
    /// A checked addition on a running total would overflow.
    ArithmeticOverflow,
}

} // verus!
