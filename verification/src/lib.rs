//! A pooled binary-outcome prediction market: users stake on the "Yes" or
//! "No" side of a market, an authority records the outcome once, and winners
//! withdraw a proportional share of the combined pool.
//!
//! The library covers the market/bet state machine, the authorization rules
//! gating state transitions, and the proportional-payout settlement math.
//! Moving actual funds between a user and a market's escrow vault is left to
//! the caller, which is expected to run each operation's validate / transfer /
//! commit sequence (see `Market::check_bet` and `Market::check_claim`).
//!
//! Every operation preserves the ledger invariant that a market's running
//! totals equal the sums of its bets' stakes (`Market::wf`), and on that
//! ground the settlement math is proved conservative: the payouts of a
//! resolved market never exceed its pool, and the dust the vault keeps is
//! strictly smaller than the winning side's total
//! (`settlement::lemma_conservation`).

pub mod error;
pub mod state;
pub mod settlement;
pub mod engine;
