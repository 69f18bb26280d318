//! Ledger types: `Market` and `UserBet` records, their views as sums over
//! the bet sequence, and the well-formedness invariant every operation
//! preserves.

use vstd::prelude::*;

verus! {

/// Upper bound, in bytes, on a market's external identifier.
pub const MAX_ID_LEN: usize = 50;

/// A user's accumulated stakes in one market. One record exists per
/// (market, user) pair; it is created on the user's first bet, with the
/// owner identity bound permanently at creation.
#[derive(Clone, Copy, Debug, PartialEq, Eq, Structural)]
pub struct UserBet {
    /// Identity of the bettor; immutable after the record is created.
    pub owner: u64,
    /// Total staked on the "Yes" side, accumulated over all of the user's bets.
    pub amount_yes: u64,
    /// Total staked on the "No" side, accumulated over all of the user's bets.
    pub amount_no: u64,
    /// Whether this bet's winnings have been paid out; flips false to true
    /// exactly once.
    pub claimed: bool,
}

/// One binary-outcome betting pool, together with every `UserBet` placed on
/// it. The escrow vault that physically holds the pool is referenced by
/// identity only; moving funds in and out of it is the caller's concern.
pub struct Market {
    /// External identifier, at most `MAX_ID_LEN` bytes, unique among markets.
    pub external_id: Vec<u8>,
    /// Identity allowed to resolve this market; fixed at creation.
    pub authority: u64,
    /// Identity of the escrow vault holding this market's pool.
    pub vault: u64,
    /// Sum of all "Yes" stakes; only grows, and only while unresolved.
    pub total_yes: u64,
    /// Sum of all "No" stakes; only grows, and only while unresolved.
    pub total_no: u64,
    /// Whether the outcome has been recorded; flips false to true exactly once.
    pub resolved: bool,
    /// The recorded outcome; `Some` exactly when `resolved`.
    pub outcome: Option<bool>,
    /// All bets placed on this market, one record per bettor.
    pub bets: Vec<UserBet>,
}

/// The stake a bet holds on one side: `amount_yes` when `side_yes`, else
/// `amount_no`.
pub open spec fn stake_on(b: UserBet, side_yes: bool) -> int {
    if side_yes {
        b.amount_yes as int
    } else {
        b.amount_no as int
    }
}

/// The bet record as it stands after `amount` more is staked on one side.
pub open spec fn bet_after_stake(b: UserBet, amount: u64, side_yes: bool) -> UserBet {
    UserBet {
        owner: b.owner,
        amount_yes: if side_yes {
            (b.amount_yes + amount) as u64
        } else {
            b.amount_yes
        },
        amount_no: if side_yes {
            b.amount_no
        } else {
            (b.amount_no + amount) as u64
        },
        claimed: b.claimed,
    }
}

/// A fresh bet record for `user`'s first stake of `amount` on one side.
pub open spec fn first_bet(user: u64, amount: u64, side_yes: bool) -> UserBet {
    UserBet {
        owner: user,
        amount_yes: if side_yes {
            amount
        } else {
            0
        },
        amount_no: if side_yes {
            0
        } else {
            amount
        },
        claimed: false,
    }
}

/// Sum of the stakes on one side over a sequence of bets.
pub open spec fn sum_side(bets: Seq<UserBet>, side_yes: bool) -> int
    decreases bets.len(),
{
    if bets.len() == 0 {
        0
    } else {
        sum_side(bets.drop_last(), side_yes) + stake_on(bets.last(), side_yes)
    }
}

/// No two bets in the sequence belong to the same owner.
pub open spec fn owners_distinct(bets: Seq<UserBet>) -> bool {
    forall|i: int, j: int|
        0 <= i < j < bets.len() ==> bets[i].owner != bets[j].owner
}

impl Market {
    /// The combined pool: everything ever deposited into the vault by bets.
    pub open spec fn pool(self) -> int {
        self.total_yes + self.total_no
    }

    /// The running total of one side.
    pub open spec fn side_total(self, side_yes: bool) -> int {
        if side_yes {
            self.total_yes as int
        } else {
            self.total_no as int
        }
    }

    /// Well-formedness: the identifier is within bounds, each running total
    /// equals the sum of the matching stakes over all bets, each bettor has
    /// exactly one record, and the outcome is recorded exactly when the
    /// market is resolved.
    pub open spec fn wf(self) -> bool {
        &&& self.external_id@.len() <= MAX_ID_LEN
        &&& self.total_yes == sum_side(self.bets@, true)
        &&& self.total_no == sum_side(self.bets@, false)
        &&& owners_distinct(self.bets@)
        &&& (self.resolved <==> self.outcome is Some)
    }

    /// Whether `user` has a bet record on this market.
    pub open spec fn has_bet(self, user: u64) -> bool {
        exists|i: int| 0 <= i < self.bets@.len() && self.bets@[i].owner == user
    }

    /// The index of `user`'s bet record; meaningful when `has_bet(user)`
    /// holds, and unique when owners are distinct.
    pub open spec fn bet_index(self, user: u64) -> int {
        choose|i: int| 0 <= i < self.bets@.len() && self.bets@[i].owner == user
    }

    /// `user`'s bet record; meaningful when `has_bet(user)` holds.
    pub open spec fn bet_of(self, user: u64) -> UserBet {
        self.bets@[self.bet_index(user)]
    }

    /// Whether the recorded outcome is "Yes"; meaningful once resolved.
    pub open spec fn winning_side(self) -> bool {
        self.outcome == Some(true)
    }

    /// The running total of the winning side; meaningful once resolved.
    pub open spec fn winning_total(self) -> int {
        self.side_total(self.winning_side())
    }
}

/// The registry of all markets, keyed by external identifier: creation
/// fails on a collision, so identifiers stay unique.
pub struct Exchange {
    /// Every market created so far, in creation order.
    pub markets: Vec<Market>,
}

impl Exchange {
    /// Well-formedness: every market is well-formed and no two markets
    /// share an external identifier.
    pub open spec fn wf(self) -> bool {
        &&& forall|i: int| 0 <= i < self.markets@.len() ==> self.markets@[i].wf()
        &&& forall|i: int, j: int|
            0 <= i < j < self.markets@.len() ==> self.markets@[i].external_id@
                != self.markets@[j].external_id@
    }

    /// Whether some market already carries this external identifier.
    pub open spec fn has_market(self, id: Seq<u8>) -> bool {
        exists|i: int| 0 <= i < self.markets@.len() && self.markets@[i].external_id@ == id
    }
}

/// Every per-side sum of stakes is nonnegative.
pub proof fn lemma_sum_side_nonneg(bets: Seq<UserBet>, side_yes: bool)
    ensures
        sum_side(bets, side_yes) >= 0,
    decreases bets.len(),
{
    if bets.len() > 0 {
        lemma_sum_side_nonneg(bets.drop_last(), side_yes);
    }
}

/// A single bet's stake never exceeds the side's sum over all bets.
pub proof fn lemma_stake_le_sum(bets: Seq<UserBet>, side_yes: bool, i: int)
    requires
        0 <= i < bets.len(),
    ensures
        stake_on(bets[i], side_yes) <= sum_side(bets, side_yes),
    decreases bets.len(),
{
    if i == bets.len() - 1 {
        lemma_sum_side_nonneg(bets.drop_last(), side_yes);
    } else {
        lemma_stake_le_sum(bets.drop_last(), side_yes, i);
    }
}

/// Appending a bet adds its stake to each side's sum.
pub proof fn lemma_sum_side_push(bets: Seq<UserBet>, side_yes: bool, b: UserBet)
    ensures
        sum_side(bets.push(b), side_yes) == sum_side(bets, side_yes) + stake_on(b, side_yes),
{
    assert(bets.push(b).drop_last() =~= bets);
}

/// Replacing the bet at `i` shifts each side's sum by the difference of the
/// stakes.
pub proof fn lemma_sum_side_update(bets: Seq<UserBet>, side_yes: bool, i: int, b: UserBet)
    requires
        0 <= i < bets.len(),
    ensures
        sum_side(bets.update(i, b), side_yes)
            == sum_side(bets, side_yes) - stake_on(bets[i], side_yes) + stake_on(b, side_yes),
    decreases bets.len(),
{
    if i == bets.len() - 1 {
        assert(bets.update(i, b).drop_last() =~= bets.drop_last());
        assert(bets.update(i, b).last() == b);
    } else {
        assert(bets.update(i, b).drop_last() =~= bets.drop_last().update(i, b));
        assert(bets.update(i, b).last() == bets.last());
        lemma_sum_side_update(bets.drop_last(), side_yes, i, b);
    }
}

/// Under distinct owners, any index holding `user`'s record is the
/// `bet_index`.
pub proof fn lemma_bet_index_unique(m: Market, user: u64, i: int)
    requires
        owners_distinct(m.bets@),
        0 <= i < m.bets@.len(),
        m.bets@[i].owner == user,
    ensures
        m.has_bet(user),
        m.bet_index(user) == i,
        m.bet_of(user) == m.bets@[i],
{
    assert(m.has_bet(user));
    let j = m.bet_index(user);
    assert(0 <= j < m.bets@.len() && m.bets@[j].owner == user);
    if i < j {
        assert(m.bets@[i].owner != m.bets@[j].owner);
    } else if j < i {
        assert(m.bets@[j].owner != m.bets@[i].owner);
    }
}

} // verus!
