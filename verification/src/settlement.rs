//! Proportional-payout settlement math, and the conservation laws bounding
//! the sum of all payouts of a resolved market.

use vstd::prelude::*;
use vstd::arithmetic::div_mod::{
    lemma_div_is_ordered, lemma_div_multiples_vanish, lemma_fundamental_div_mod,
    lemma_mod_division_less_than_divisor,
};
use vstd::arithmetic::mul::{
    lemma_mul_inequality, lemma_mul_is_distributive_add_other_way, lemma_mul_nonnegative,
    lemma_mul_upper_bound,
};
use crate::state::{stake_on, sum_side, Market, UserBet};

verus! {

/// A winner's payout: the floor of their proportional share of the pool,
/// `winning_amount * pool / winning_side_total`.
pub open spec fn payout_amount(winning_amount: int, pool: int, winning_side_total: int) -> int {
    winning_amount * pool / winning_side_total
}

/// Computes `floor(winning_amount * pool / winning_side_total)` with a
/// double-width intermediate, so the multiplication loses no precision. As
/// long as the winner's stake is within the side's total, the payout is
/// within the pool.
pub fn compute_payout(winning_amount: u64, pool: u64, winning_side_total: u64) -> (r: u64)
    requires
        winning_side_total > 0,
        winning_amount <= winning_side_total,
    ensures
        r == payout_amount(winning_amount as int, pool as int, winning_side_total as int),
        r <= pool,
{
    proof {
        lemma_mul_upper_bound(
            winning_amount as int,
            u64::MAX as int,
            pool as int,
            u64::MAX as int,
        );
        lemma_mul_nonnegative(winning_amount as int, pool as int);
        lemma_mul_inequality(winning_amount as int, winning_side_total as int, pool as int);
        lemma_div_is_ordered(
            winning_amount as int * pool as int,
            winning_side_total as int * pool as int,
            winning_side_total as int,
        );
        lemma_div_multiples_vanish(pool as int, winning_side_total as int);
    }
    let wide: u128 = (winning_amount as u128) * (pool as u128);
    let q: u128 = wide / (winning_side_total as u128);
    q as u64
}

/// Sum of `payout_amount` over a sequence of bets, taking each bet's stake
/// on the winning side as its winning amount. A bet with nothing on the
/// winning side contributes zero (it can never claim, and its share is zero
/// anyway), so this sum equals the sum over the winning bets alone.
pub open spec fn sum_payouts(bets: Seq<UserBet>, outcome_yes: bool, pool: int, wst: int) -> int
    decreases bets.len(),
{
    if bets.len() == 0 {
        0
    } else {
        sum_payouts(bets.drop_last(), outcome_yes, pool, wst) + payout_amount(
            stake_on(bets.last(), outcome_yes),
            pool,
            wst,
        )
    }
}

/// How many bets hold a positive stake on the winning side.
pub open spec fn count_winning(bets: Seq<UserBet>, outcome_yes: bool) -> int
    decreases bets.len(),
{
    if bets.len() == 0 {
        0
    } else {
        count_winning(bets.drop_last(), outcome_yes) + if stake_on(
            bets.last(),
            outcome_yes,
        ) > 0 {
            1int
        } else {
            0int
        }
    }
}

/// Each bet with a positive winning stake holds at least one unit of it, so
/// the number of winning bets is at most the winning side's sum.
pub proof fn lemma_count_le_sum(bets: Seq<UserBet>, outcome_yes: bool)
    ensures
        count_winning(bets, outcome_yes) <= sum_side(bets, outcome_yes),
    decreases bets.len(),
{
    if bets.len() > 0 {
        lemma_count_le_sum(bets.drop_last(), outcome_yes);
    }
}

/// Bounds the sum of all floor-division payouts in terms of exact shares:
/// scaled by the winning side's total `wst`, the payouts fall short of the
/// exact proportional shares by less than one division remainder per winning
/// bet.
pub proof fn lemma_sum_payouts_bounds(bets: Seq<UserBet>, outcome_yes: bool, pool: int, wst: int)
    requires
        wst > 0,
        pool >= 0,
    ensures
        wst * sum_payouts(bets, outcome_yes, pool, wst) <= sum_side(bets, outcome_yes) * pool,
        wst * sum_payouts(bets, outcome_yes, pool, wst) >= sum_side(bets, outcome_yes) * pool
            - count_winning(bets, outcome_yes) * (wst - 1),
    decreases bets.len(),
{
    if bets.len() == 0 {
    } else {
        let rest = bets.drop_last();
        let a = stake_on(bets.last(), outcome_yes);
        let q = payout_amount(a, pool, wst);
        let r = (a * pool) % wst;
        lemma_sum_payouts_bounds(rest, outcome_yes, pool, wst);
        lemma_mul_nonnegative(a, pool);
        lemma_fundamental_div_mod(a * pool, wst);
        lemma_mod_division_less_than_divisor(a * pool, wst);
        assert(a * pool == wst * q + r);
        if a == 0 {
            assert(a * pool == 0);
            assert(wst * q + r == 0);
            assert(q == 0 && r == 0) by {
                lemma_div_is_ordered(0, 0, wst);
                assert(q == 0 * pool / wst);
                assert(0 * pool == 0);
                assert(q == 0);
            }
        }
        lemma_mul_is_distributive_add_other_way(pool, sum_side(rest, outcome_yes), a);
        assert(sum_side(bets, outcome_yes) * pool == sum_side(rest, outcome_yes) * pool + a
            * pool);
        assert(wst * sum_payouts(bets, outcome_yes, pool, wst) == wst * sum_payouts(
            rest,
            outcome_yes,
            pool,
            wst,
        ) + wst * q) by {
            lemma_mul_is_distributive_add_other_way(
                wst,
                sum_payouts(rest, outcome_yes, pool, wst),
                q,
            );
            assert(sum_payouts(bets, outcome_yes, pool, wst) == sum_payouts(
                rest,
                outcome_yes,
                pool,
                wst,
            ) + q);
            assert((sum_payouts(rest, outcome_yes, pool, wst) + q) * wst == sum_payouts(
                rest,
                outcome_yes,
                pool,
                wst,
            ) * wst + q * wst);
            vstd::arithmetic::mul::lemma_mul_is_commutative(
                wst,
                sum_payouts(bets, outcome_yes, pool, wst),
            );
            vstd::arithmetic::mul::lemma_mul_is_commutative(
                wst,
                sum_payouts(rest, outcome_yes, pool, wst),
            );
            vstd::arithmetic::mul::lemma_mul_is_commutative(wst, q);
        }
        if a > 0 {
            lemma_mul_is_distributive_add_other_way(
                wst - 1,
                count_winning(rest, outcome_yes),
                1,
            );
        }
    }
}

/// Conservation bound for a resolved market: the payouts of all winning bets
/// sum to at most the pool, and the residual dust the vault keeps is
/// strictly less than the winning side's total.
pub proof fn lemma_conservation(m: Market)
    requires
        m.wf(),
        m.resolved,
        m.winning_total() > 0,
    ensures
        sum_payouts(m.bets@, m.winning_side(), m.pool(), m.winning_total()) <= m.pool(),
        m.pool() - sum_payouts(m.bets@, m.winning_side(), m.pool(), m.winning_total())
            < m.winning_total(),
{
    let oy = m.winning_side();
    let w = m.winning_total();
    let p = m.pool();
    let s = sum_payouts(m.bets@, oy, p, w);
    let c = count_winning(m.bets@, oy);
    assert(sum_side(m.bets@, oy) == w);
    lemma_sum_payouts_bounds(m.bets@, oy, p, w);
    assert(w * s <= w * p) by {
        vstd::arithmetic::mul::lemma_mul_is_commutative(w, p);
    }
    assert(s <= p) by (nonlinear_arith)
        requires
            w * s <= w * p,
            w > 0,
    ;
    lemma_count_le_sum(m.bets@, oy);
    lemma_mul_inequality(c, w, w - 1);
    assert(w * (p - s) <= c * (w - 1)) by {
        vstd::arithmetic::mul::lemma_mul_is_distributive_sub(w, p, s);
        vstd::arithmetic::mul::lemma_mul_is_commutative(w, p);
    }
    assert(w * (p - s) < w * w) by {
        vstd::arithmetic::mul::lemma_mul_is_distributive_sub(w, w, 1);
    }
    assert(p - s < w) by (nonlinear_arith)
        requires
            w * (p - s) < w * w,
            w > 0,
    ;
}

} // verus!
