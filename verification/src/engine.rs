//! The market state machine: placing bets, resolving, claiming winnings,
//! and the registry of markets keyed by external identifier.
//!
//! Operations that move funds are split for the caller into a validate step
//! (`check_bet`, `check_claim`), the external escrow transfer, and the
//! commit (`place_bet`, `claim_winnings`); the commit re-validates, so a
//! failed transfer leaves the ledger untouched.

use vstd::prelude::*;
use crate::error::ErrorCode;
use crate::settlement::{compute_payout, payout_amount};
use crate::state::{
    bet_after_stake, first_bet, lemma_bet_index_unique, lemma_stake_le_sum, lemma_sum_side_push,
    lemma_sum_side_update, owners_distinct, stake_on, Exchange, Market, UserBet,
    MAX_ID_LEN,
};

verus! {

impl Market {
    /// Whether a bet of `amount` on the given side can be accepted: the
    /// market is still open, the amount is positive, and the side's running
    /// total does not overflow.
    pub open spec fn can_bet(self, amount: u64, side_yes: bool) -> bool {
        &&& !self.resolved
        &&& amount > 0
        &&& self.side_total(side_yes) + amount <= u64::MAX
    }

    /// The error a rejected bet reports, in validation order: a resolved
    /// market first, then a zero amount, then overflow of the running total.
    pub open spec fn bet_error(self, amount: u64, side_yes: bool) -> ErrorCode {
        if self.resolved {
            ErrorCode::MarketAlreadyResolved
        } else if amount == 0 {
            ErrorCode::InvalidAmount
        } else {
            ErrorCode::ArithmeticOverflow
        }
    }

    /// Validates a bet without touching any state: run this before the
    /// deposit transfer; `place_bet` accepts exactly when this returns `Ok`.
    pub fn check_bet(&self, amount: u64, side_yes: bool) -> (r: Result<(), ErrorCode>)
        ensures
            r is Ok <==> self.can_bet(amount, side_yes),
            r is Err ==> r == Err::<(), ErrorCode>(self.bet_error(amount, side_yes)),
    {
        if self.resolved {
            Err(ErrorCode::MarketAlreadyResolved)
        } else if amount == 0 {
            Err(ErrorCode::InvalidAmount)
        } else if side_yes && self.total_yes > u64::MAX - amount {
            Err(ErrorCode::ArithmeticOverflow)
        } else if !side_yes && self.total_no > u64::MAX - amount {
            Err(ErrorCode::ArithmeticOverflow)
        } else {
            Ok(())
        }
    }

    /// Finds the index of `user`'s bet record, if one exists.
    pub fn find_bet(&self, user: u64) -> (r: Option<usize>)
        ensures
            match r {
                Some(i) => i < self.bets@.len() && self.bets@[i as int].owner == user,
                None => !self.has_bet(user),
            },
    {
        let mut i: usize = 0;
        while i < self.bets.len()
            invariant
                i <= self.bets@.len(),
                forall|j: int| 0 <= j < i ==> self.bets@[j].owner != user,
            decreases self.bets@.len() - i,
        {
            if self.bets[i].owner == user {
                return Some(i);
            }
            i = i + 1;
        }
        None
    }

    /// Records an accepted bet: adds `amount` to the chosen side's running
    /// total and to the caller's record, creating that record (bound to
    /// `user`) on a first bet. Rejected bets leave the market untouched.
    /// The caller must already have deposited `amount` into the vault.
    pub fn place_bet(&mut self, user: u64, amount: u64, side_yes: bool) -> (r: Result<
        (),
        ErrorCode,
    >)
        requires
            old(self).wf(),
        ensures
            final(self).wf(),
            !old(self).can_bet(amount, side_yes) ==> r == Err::<(), ErrorCode>(
                old(self).bet_error(amount, side_yes),
            ) && *final(self) == *old(self),
            old(self).can_bet(amount, side_yes) ==> {
                &&& r is Ok
                &&& final(self).external_id@ == old(self).external_id@
                &&& final(self).authority == old(self).authority
                &&& final(self).vault == old(self).vault
                &&& final(self).resolved == old(self).resolved
                &&& final(self).outcome == old(self).outcome
                &&& final(self).side_total(side_yes) == old(self).side_total(side_yes) + amount
                &&& final(self).side_total(!side_yes) == old(self).side_total(!side_yes)
                &&& (if old(self).has_bet(user) {
                    final(self).bets@ == old(self).bets@.update(
                        old(self).bet_index(user),
                        bet_after_stake(old(self).bet_of(user), amount, side_yes),
                    )
                } else {
                    final(self).bets@ == old(self).bets@.push(first_bet(user, amount, side_yes))
                })
            },
    {
        if self.resolved {
            return Err(ErrorCode::MarketAlreadyResolved);
        }
        if amount == 0 {
            return Err(ErrorCode::InvalidAmount);
        }
        if side_yes && self.total_yes > u64::MAX - amount {
            return Err(ErrorCode::ArithmeticOverflow);
        }
        if !side_yes && self.total_no > u64::MAX - amount {
            return Err(ErrorCode::ArithmeticOverflow);
        }
        match self.find_bet(user) {
            Some(i) => {
                proof {
                    lemma_bet_index_unique(*self, user, i as int);
                    lemma_stake_le_sum(self.bets@, side_yes, i as int);
                }
                let mut b = self.bets[i];
                if side_yes {
                    self.total_yes = self.total_yes + amount;
                    b.amount_yes = b.amount_yes + amount;
                } else {
                    self.total_no = self.total_no + amount;
                    b.amount_no = b.amount_no + amount;
                }
                let ghost before = old(self).bets@;
                self.bets[i] = b;
                proof {
                    lemma_sum_side_update(before, true, i as int, b);
                    lemma_sum_side_update(before, false, i as int, b);
                    assert(owners_distinct(self.bets@)) by {
                        assert(forall|k: int|
                            0 <= k < self.bets@.len() ==> self.bets@[k].owner
                                == before[k].owner);
                    }
                }
                Ok(())
            },
            None => {
                if side_yes {
                    self.total_yes = self.total_yes + amount;
                } else {
                    self.total_no = self.total_no + amount;
                }
                let b = UserBet {
                    owner: user,
                    amount_yes: if side_yes {
                        amount
                    } else {
                        0
                    },
                    amount_no: if side_yes {
                        0
                    } else {
                        amount
                    },
                    claimed: false,
                };
                let ghost before = old(self).bets@;
                self.bets.push(b);
                proof {
                    lemma_sum_side_push(before, true, b);
                    lemma_sum_side_push(before, false, b);
                    assert(owners_distinct(self.bets@)) by {
                        assert(forall|k: int|
                            0 <= k < before.len() ==> self.bets@[k] == before[k]);
                        assert(forall|k: int|
                            0 <= k < before.len() ==> before[k].owner != user);
                    }
                }
                Ok(())
            },
        }
    }

    /// Records the outcome, exactly once, and only at the hand of the
    /// authority fixed at creation: any other caller is turned away with no
    /// mutation, and a second resolution always fails `MarketAlreadyResolved`
    /// with the market unchanged.
    pub fn resolve_market(&mut self, caller: u64, outcome_yes: bool) -> (r: Result<
        (),
        ErrorCode,
    >)
        requires
            old(self).wf(),
        ensures
            final(self).wf(),
            caller != old(self).authority ==> r == Err::<(), ErrorCode>(ErrorCode::Unauthorized)
                && *final(self) == *old(self),
            caller == old(self).authority && old(self).resolved ==> r == Err::<(), ErrorCode>(
                ErrorCode::MarketAlreadyResolved,
            ) && *final(self) == *old(self),
            caller == old(self).authority && !old(self).resolved ==> r is Ok && *final(self)
                == (Market { resolved: true, outcome: Some(outcome_yes), ..*old(self) }),
    {
        if caller != self.authority {
            return Err(ErrorCode::Unauthorized);
        }
        if self.resolved {
            return Err(ErrorCode::MarketAlreadyResolved);
        }
        self.resolved = true;
        self.outcome = Some(outcome_yes);
        Ok(())
    }

    /// What a claim by `caller` comes to, in validation order: the market
    /// must be resolved, the bet still unclaimed, the caller must hold a
    /// positive stake on the winning side, that side's total must be
    /// positive (a defensive guard, unreachable on a well-formed market
    /// once a winning stake exists), and the pool must fit the balance
    /// type; then the payout is the floor of the caller's proportional
    /// share of the pool.
    pub open spec fn claim_decision(self, caller: u64) -> Result<int, ErrorCode> {
        let b = self.bet_of(caller);
        let wa = stake_on(b, self.winning_side());
        if !self.resolved {
            Err(ErrorCode::MarketNotResolved)
        } else if b.claimed {
            Err(ErrorCode::AlreadyClaimed)
        } else if wa == 0 {
            Err(ErrorCode::NoWinningStake)
        } else if self.winning_total() == 0 {
            Err(ErrorCode::SettlementUnavailable)
        } else if self.pool() > u64::MAX {
            Err(ErrorCode::ArithmeticOverflow)
        } else {
            Ok(payout_amount(wa, self.pool(), self.winning_total()))
        }
    }

    /// Validates a claim and computes the payout without touching any
    /// state: run this before the withdrawal transfer; `claim_winnings`
    /// agrees with it exactly.
    pub fn check_claim(&self, caller: u64) -> (r: Result<u64, ErrorCode>)
        requires
            self.wf(),
            self.has_bet(caller),
        ensures
            match self.claim_decision(caller) {
                Ok(p) => r matches Ok(q) && q == p && p <= self.pool(),
                Err(e) => r == Err::<u64, ErrorCode>(e),
            },
    {
        if !self.resolved {
            return Err(ErrorCode::MarketNotResolved);
        }
        let i = match self.find_bet(caller) {
            Some(i) => i,
            None => {
                return vstd::pervasive::unreached();  // a bet record exists
            },
        };
        proof {
            lemma_bet_index_unique(*self, caller, i as int);
        }
        let b = self.bets[i];
        if b.claimed {
            return Err(ErrorCode::AlreadyClaimed);
        }
        let outcome_yes = match self.outcome {
            Some(o) => o,
            None => {
                return vstd::pervasive::unreached();  // resolved, so an outcome is recorded
            },
        };
        let winning_amount = if outcome_yes {
            b.amount_yes
        } else {
            b.amount_no
        };
        if winning_amount == 0 {
            return Err(ErrorCode::NoWinningStake);
        }
        let winning_total = if outcome_yes {
            self.total_yes
        } else {
            self.total_no
        };
        if winning_total == 0 {
            return Err(ErrorCode::SettlementUnavailable);
        }
        let pool = match self.total_yes.checked_add(self.total_no) {
            Some(p) => p,
            None => {
                return Err(ErrorCode::ArithmeticOverflow);
            },
        };
        proof {
            lemma_stake_le_sum(self.bets@, outcome_yes, i as int);
        }
        Ok(compute_payout(winning_amount, pool, winning_total))
    }

    /// Pays out a winning bet, exactly once: on success the payout is
    /// returned and the bet's `claimed` flag flips, so a repeat always
    /// fails `AlreadyClaimed`; every failure leaves the market untouched.
    /// The caller must first run `check_claim` and withdraw the payout from
    /// the vault; only then is the claim committed here.
    pub fn claim_winnings(&mut self, caller: u64) -> (r: Result<u64, ErrorCode>)
        requires
            old(self).wf(),
            old(self).has_bet(caller),
        ensures
            final(self).wf(),
            match old(self).claim_decision(caller) {
                Ok(p) => {
                    &&& r matches Ok(q) && q == p
                    &&& p <= old(self).pool()
                    &&& final(self).external_id@ == old(self).external_id@
                    &&& final(self).authority == old(self).authority
                    &&& final(self).vault == old(self).vault
                    &&& final(self).total_yes == old(self).total_yes
                    &&& final(self).total_no == old(self).total_no
                    &&& final(self).resolved == old(self).resolved
                    &&& final(self).outcome == old(self).outcome
                    &&& final(self).bets@ == old(self).bets@.update(
                        old(self).bet_index(caller),
                        (UserBet { claimed: true, ..old(self).bet_of(caller) }),
                    )
                },
                Err(e) => r == Err::<u64, ErrorCode>(e) && *final(self) == *old(self),
            },
    {
        let payout = match self.check_claim(caller) {
            Ok(p) => p,
            Err(e) => {
                return Err(e);
            },
        };
        let i = match self.find_bet(caller) {
            Some(i) => i,
            None => {
                return vstd::pervasive::unreached();  // a bet record exists
            },
        };
        proof {
            lemma_bet_index_unique(*self, caller, i as int);
        }
        let mut b = self.bets[i];
        b.claimed = true;
        let ghost before = old(self).bets@;
        self.bets[i] = b;
        proof {
            lemma_sum_side_update(before, true, i as int, b);
            lemma_sum_side_update(before, false, i as int, b);
            assert(owners_distinct(self.bets@)) by {
                assert(forall|k: int|
                    0 <= k < self.bets@.len() ==> self.bets@[k].owner == before[k].owner);
            }
        }
        Ok(payout)
    }
}

/// Byte-for-byte equality of two identifiers.
fn bytes_eq(a: &Vec<u8>, b: &Vec<u8>) -> (r: bool)
    ensures
        r == (a@ == b@),
{
    if a.len() != b.len() {
        return false;
    }
    let mut i: usize = 0;
    while i < a.len()
        invariant
            a@.len() == b@.len(),
            i <= a@.len(),
            forall|j: int| 0 <= j < i ==> a@[j] == b@[j],
        decreases a@.len() - i,
    {
        if a[i] != b[i] {
            return false;
        }
        i = i + 1;
    }
    proof {
        assert(a@ =~= b@);
    }
    true
}

impl Exchange {
    /// An exchange with no markets yet.
    pub fn new() -> (r: Exchange)
        ensures
            r.wf(),
            r.markets@.len() == 0,
    {
        Exchange { markets: Vec::new() }
    }

    /// Creates a market with zeroed totals, unresolved, owned by
    /// `authority` and settling through the vault named by `vault`. Fails
    /// `IdTooLong` past the identifier bound and `MarketAlreadyExists` on a
    /// collision, leaving the registry untouched; otherwise returns the new
    /// market's handle. The caller provisions the empty vault itself.
    pub fn initialize_market(&mut self, external_id: Vec<u8>, authority: u64, vault: u64) -> (r:
        Result<usize, ErrorCode>)
        requires
            old(self).wf(),
        ensures
            final(self).wf(),
            external_id@.len() > MAX_ID_LEN ==> r == Err::<usize, ErrorCode>(ErrorCode::IdTooLong)
                && *final(self) == *old(self),
            external_id@.len() <= MAX_ID_LEN && old(self).has_market(external_id@) ==> r == Err::<
                usize,
                ErrorCode,
            >(ErrorCode::MarketAlreadyExists) && *final(self) == *old(self),
            external_id@.len() <= MAX_ID_LEN && !old(self).has_market(external_id@) ==> {
                &&& r == Ok::<usize, ErrorCode>(old(self).markets@.len() as usize)
                &&& final(self).markets@.len() == old(self).markets@.len() + 1
                &&& forall|k: int|
                    0 <= k < old(self).markets@.len() ==> final(self).markets@[k] == old(
                        self,
                    ).markets@[k]
                &&& final(self).markets@.last().external_id@ == external_id@
                &&& final(self).markets@.last().authority == authority
                &&& final(self).markets@.last().vault == vault
                &&& final(self).markets@.last().total_yes == 0
                &&& final(self).markets@.last().total_no == 0
                &&& final(self).markets@.last().resolved == false
                &&& final(self).markets@.last().outcome is None
                &&& final(self).markets@.last().bets@.len() == 0
            },
    {
        if external_id.len() > MAX_ID_LEN {
            return Err(ErrorCode::IdTooLong);
        }
        let mut i: usize = 0;
        while i < self.markets.len()
            invariant
                *self == *old(self),
                old(self).wf(),
                external_id@.len() <= MAX_ID_LEN,
                i <= self.markets@.len(),
                forall|j: int| 0 <= j < i ==> self.markets@[j].external_id@ != external_id@,
            decreases self.markets@.len() - i,
        {
            if bytes_eq(&self.markets[i].external_id, &external_id) {
                return Err(ErrorCode::MarketAlreadyExists);
            }
            i = i + 1;
        }
        let handle = self.markets.len();
        let market = Market {
            external_id,
            authority,
            vault,
            total_yes: 0,
            total_no: 0,
            resolved: false,
            outcome: None,
            bets: Vec::new(),
        };
        self.markets.push(market);
        Ok(handle)
    }

    /// Finds the handle of the market carrying this identifier, if any.
    pub fn find_market(&self, external_id: &Vec<u8>) -> (r: Option<usize>)
        ensures
            match r {
                Some(i) => i < self.markets@.len() && self.markets@[i as int].external_id@
                    == external_id@,
                None => !self.has_market(external_id@),
            },
    {
        let mut i: usize = 0;
        while i < self.markets.len()
            invariant
                i <= self.markets@.len(),
                forall|j: int| 0 <= j < i ==> self.markets@[j].external_id@ != external_id@,
            decreases self.markets@.len() - i,
        {
            if bytes_eq(&self.markets[i].external_id, external_id) {
                return Some(i);
            }
            i = i + 1;
        }
        None
    }
}

} // verus!
