use truthblink::error::ErrorCode;
use truthblink::state::{Exchange, Market, UserBet};

fn open_market(authority: u64) -> Market {
    Market {
        external_id: vec![b'm', b'1'],
        authority,
        vault: 900,
        total_yes: 0,
        total_no: 0,
        resolved: false,
        outcome: None,
        bets: Vec::new(),
    }
}

#[test]
fn proportional_payouts_with_dust() {
    // totals 300 yes / 100 no, outcome yes: A gets floor(100*400/300) = 133,
    // B gets floor(200*400/300) = 266; 399 of 400 paid out, 1 unit of dust.
    let mut m = open_market(1);
    assert_eq!(m.place_bet(10, 100, true), Ok(()));
    assert_eq!(m.place_bet(11, 200, true), Ok(()));
    assert_eq!(m.place_bet(12, 100, false), Ok(()));
    assert_eq!(m.total_yes, 300);
    assert_eq!(m.total_no, 100);
    assert_eq!(m.resolve_market(1, true), Ok(()));
    let a = m.claim_winnings(10);
    let b = m.claim_winnings(11);
    assert_eq!(a, Ok(133));
    assert_eq!(b, Ok(266));
    assert!(133 + 266 <= 400);
}

#[test]
fn losing_bettor_gets_no_winning_stake() {
    // A bettor who staked only "No" on a yes-resolved market is refused,
    // never handed a zero payout as success.
    let mut m = open_market(1);
    assert_eq!(m.place_bet(10, 100, true), Ok(()));
    assert_eq!(m.place_bet(12, 100, false), Ok(()));
    assert_eq!(m.resolve_market(1, true), Ok(()));
    assert_eq!(m.claim_winnings(12), Err(ErrorCode::NoWinningStake));
    assert_eq!(m.check_claim(12), Err(ErrorCode::NoWinningStake));
}

#[test]
fn claim_is_exactly_once() {
    let mut m = open_market(1);
    assert_eq!(m.place_bet(10, 50, true), Ok(()));
    assert_eq!(m.resolve_market(1, true), Ok(()));
    assert_eq!(m.claim_winnings(10), Ok(50));
    assert!(m.bets[0].claimed);
    assert_eq!(m.claim_winnings(10), Err(ErrorCode::AlreadyClaimed));
    assert_eq!(m.check_claim(10), Err(ErrorCode::AlreadyClaimed));
}

#[test]
fn resolve_is_exactly_once() {
    let mut m = open_market(7);
    assert_eq!(m.place_bet(10, 5, false), Ok(()));
    assert_eq!(m.resolve_market(7, false), Ok(()));
    assert_eq!(m.resolved, true);
    assert_eq!(m.outcome, Some(false));
    let before = (
        m.external_id.clone(),
        m.authority,
        m.vault,
        m.total_yes,
        m.total_no,
        m.resolved,
        m.outcome,
        m.bets.clone(),
    );
    assert_eq!(m.resolve_market(7, true), Err(ErrorCode::MarketAlreadyResolved));
    let after = (
        m.external_id.clone(),
        m.authority,
        m.vault,
        m.total_yes,
        m.total_no,
        m.resolved,
        m.outcome,
        m.bets.clone(),
    );
    assert_eq!(before, after);
    assert_eq!(m.outcome, Some(false));
}

#[test]
fn non_authority_cannot_resolve() {
    let mut m = open_market(7);
    assert_eq!(m.resolve_market(8, true), Err(ErrorCode::Unauthorized));
    assert_eq!(m.resolved, false);
    assert_eq!(m.outcome, None);
}

#[test]
fn zero_amount_bet_is_rejected() {
    let mut m = open_market(1);
    assert_eq!(m.place_bet(10, 0, true), Err(ErrorCode::InvalidAmount));
    assert_eq!(m.check_bet(0, false), Err(ErrorCode::InvalidAmount));
    assert_eq!(m.total_yes, 0);
    assert_eq!(m.total_no, 0);
    assert!(m.bets.is_empty());
}

#[test]
fn no_bets_once_resolved() {
    let mut m = open_market(1);
    assert_eq!(m.resolve_market(1, true), Ok(()));
    assert_eq!(m.place_bet(10, 5, true), Err(ErrorCode::MarketAlreadyResolved));
    assert_eq!(m.check_bet(5, true), Err(ErrorCode::MarketAlreadyResolved));
    assert_eq!(m.total_yes, 0);
}

#[test]
fn claim_needs_resolution() {
    let mut m = open_market(1);
    assert_eq!(m.place_bet(10, 5, true), Ok(()));
    assert_eq!(m.claim_winnings(10), Err(ErrorCode::MarketNotResolved));
    assert_eq!(m.check_claim(10), Err(ErrorCode::MarketNotResolved));
    assert!(!m.bets[0].claimed);
}

#[test]
fn stakes_accumulate_per_user_and_side() {
    let mut m = open_market(1);
    assert_eq!(m.place_bet(10, 30, true), Ok(()));
    assert_eq!(m.place_bet(10, 20, true), Ok(()));
    assert_eq!(m.place_bet(10, 5, false), Ok(()));
    assert_eq!(m.bets.len(), 1);
    assert_eq!(
        m.bets[0],
        UserBet { owner: 10, amount_yes: 50, amount_no: 5, claimed: false }
    );
    assert_eq!(m.total_yes, 50);
    assert_eq!(m.total_no, 5);
}

#[test]
fn total_overflow_is_rejected() {
    let mut m = open_market(1);
    assert_eq!(m.place_bet(10, u64::MAX, true), Ok(()));
    assert_eq!(m.place_bet(11, 1, true), Err(ErrorCode::ArithmeticOverflow));
    assert_eq!(m.check_bet(1, true), Err(ErrorCode::ArithmeticOverflow));
    assert_eq!(m.total_yes, u64::MAX);
    assert_eq!(m.bets.len(), 1);
    // The other side is unaffected by the full "yes" side.
    assert_eq!(m.check_bet(1, false), Ok(()));
}

#[test]
fn pool_overflow_fails_the_claim() {
    let mut m = open_market(1);
    assert_eq!(m.place_bet(10, u64::MAX, true), Ok(()));
    assert_eq!(m.place_bet(11, 1, false), Ok(()));
    assert_eq!(m.resolve_market(1, true), Ok(()));
    assert_eq!(m.claim_winnings(10), Err(ErrorCode::ArithmeticOverflow));
    assert!(!m.bets[0].claimed);
}

#[test]
fn single_winner_takes_whole_pool() {
    let mut m = open_market(1);
    assert_eq!(m.place_bet(10, 7, false), Ok(()));
    assert_eq!(m.place_bet(11, 93, true), Ok(()));
    assert_eq!(m.resolve_market(1, false), Ok(()));
    // floor(7 * 100 / 7) = 100: the lone winner drains the pool, no dust.
    assert_eq!(m.check_claim(10), Ok(100));
    assert_eq!(m.claim_winnings(10), Ok(100));
}

#[test]
fn check_and_commit_agree() {
    let mut m = open_market(1);
    assert_eq!(m.check_bet(40, true), Ok(()));
    assert_eq!(m.place_bet(10, 40, true), Ok(()));
    assert_eq!(m.resolve_market(1, true), Ok(()));
    assert_eq!(m.check_claim(10), Ok(40));
    assert_eq!(m.claim_winnings(10), Ok(40));
}

#[test]
fn market_ids_are_unique() {
    let mut ex = Exchange::new();
    let id = vec![b'w', b'c', b'f'];
    assert_eq!(ex.initialize_market(id.clone(), 1, 500), Ok(0));
    assert_eq!(
        ex.initialize_market(id.clone(), 2, 501),
        Err(ErrorCode::MarketAlreadyExists)
    );
    assert_eq!(ex.markets.len(), 1);
    assert_eq!(ex.initialize_market(vec![b'x'], 2, 501), Ok(1));
    assert_eq!(ex.find_market(&id), Some(0));
    assert_eq!(ex.find_market(&vec![b'x']), Some(1));
    assert_eq!(ex.find_market(&vec![b'y']), None);
}

#[test]
fn long_market_id_is_rejected() {
    let mut ex = Exchange::new();
    assert_eq!(ex.initialize_market(vec![b'a'; 51], 1, 500), Err(ErrorCode::IdTooLong));
    assert!(ex.markets.is_empty());
    // Exactly at the bound is still accepted.
    assert_eq!(ex.initialize_market(vec![b'a'; 50], 1, 500), Ok(0));
}

#[test]
fn new_market_starts_empty_and_open() {
    let mut ex = Exchange::new();
    assert_eq!(ex.initialize_market(vec![b'm'], 3, 700), Ok(0));
    let m = &ex.markets[0];
    assert_eq!(m.authority, 3);
    assert_eq!(m.vault, 700);
    assert_eq!(m.total_yes, 0);
    assert_eq!(m.total_no, 0);
    assert_eq!(m.resolved, false);
    assert_eq!(m.outcome, None);
    assert!(m.bets.is_empty());
}
