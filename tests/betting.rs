use vex_contracts::betting::Payout;
use vex_contracts::contract::Contract;
use vex_contracts::lifecycle::Settlement;
use vex_contracts::types::{ContractError, PayState, Team};

fn s(x: &str) -> String {
    x.to_string()
}

fn setup() -> (Contract, String) {
    let mut c = Contract::init(
        s("admin.testnet"),
        s("usdc.testnet"),
        s("vex_token.testnet"),
        s("treasury.testnet"),
        s("ref_finance.testnet"),
        1,
        100,
        10,
        500,
    );
    let id = c
        .create_match(
            &s("admin.testnet"),
            s("CSGO"),
            s("RUBY"),
            s("Nexus"),
            &s("17/08/2024"),
            625_000_000,
            375_000_000,
        )
        .unwrap();
    (c, id)
}

#[test]
fn bet_is_refused_on_bad_input() {
    let (mut c, id) = setup();
    let usdc = s("usdc.testnet");
    assert_eq!(
        c.bet(&s("vex_token.testnet"), s("alice"), 10_000_000, &id, Team::Team1, 1),
        Err(ContractError::PermissionDenied)
    );
    assert_eq!(
        c.bet(&usdc, s("alice"), 999_999, &id, Team::Team1, 1),
        Err(ContractError::InsufficientBalance)
    );
    assert_eq!(
        c.bet(&usdc, s("alice"), 10_000_000, &s("Furia-Nexus-17/08/2024"), Team::Team1, 1),
        Err(ContractError::NotFound)
    );
    c.end_betting(&s("admin.testnet"), &id).unwrap();
    assert_eq!(
        c.bet(&usdc, s("alice"), 10_000_000, &id, Team::Team1, 1),
        Err(ContractError::InvalidState)
    );
    assert_eq!(c.last_bet_id, 0);
    assert!(c.bets.is_empty());
}

#[test]
fn bets_update_pools_and_settle_with_profit() {
    let (mut c, id) = setup();
    let usdc = s("usdc.testnet");
    assert_eq!(c.bet(&usdc, s("alice"), 10_000_000, &id, Team::Team1, 11_000_000), Ok(1));
    assert_eq!(c.bet(&usdc, s("bob"), 20_000_000, &id, Team::Team2, 30_000_000), Ok(2));
    let m = c.get_match(&id).unwrap();
    assert_eq!(m.team_1_total_bets, 635_000_000);
    assert_eq!(m.team_2_total_bets, 395_000_000);
    assert_eq!(m.team_1_potential_winnings, 11_000_000);
    assert_eq!(m.team_2_potential_winnings, 30_000_000);
    assert_eq!(m.team_2_real_bets(), 20_000_000);
    let bet = c.get_bet(&s("alice"), 1).unwrap();
    assert_eq!(bet.bet_amount, 10_000_000);
    assert_eq!(bet.potential_winnings, 11_000_000);
    assert_eq!(bet.pay_state, None);
    assert!(c.get_bet(&s("bob"), 1).is_none());
    let admin = s("admin.testnet");
    c.end_betting(&admin, &id).unwrap();
    assert_eq!(c.finish_match(&admin, &id, Team::Team1), Ok(Settlement::Profit(19_000_000)));
    assert_eq!(c.get_funds_to_payout(), 11_000_000);
}

#[test]
fn finish_reports_loss_and_even() {
    let (mut c, id) = setup();
    let usdc = s("usdc.testnet");
    c.bet(&usdc, s("alice"), 10_000_000, &id, Team::Team1, 40_000_000).unwrap();
    c.end_betting(&s("admin.testnet"), &id).unwrap();
    assert_eq!(
        c.finish_match(&s("admin.testnet"), &id, Team::Team1),
        Ok(Settlement::Loss(30_000_000))
    );

    let (mut c, id) = setup();
    c.bet(&usdc, s("alice"), 10_000_000, &id, Team::Team1, 10_000_000).unwrap();
    c.end_betting(&s("admin.testnet"), &id).unwrap();
    assert_eq!(c.finish_match(&s("admin.testnet"), &id, Team::Team1), Ok(Settlement::Even));
}

#[test]
fn winner_claims_once() {
    let (mut c, id) = setup();
    let usdc = s("usdc.testnet");
    let admin = s("admin.testnet");
    c.bet(&usdc, s("alice"), 10_000_000, &id, Team::Team1, 11_000_000).unwrap();
    c.bet(&usdc, s("bob"), 20_000_000, &id, Team::Team2, 30_000_000).unwrap();
    assert_eq!(c.claim(&s("alice"), 1), Err(ContractError::InvalidState));
    c.end_betting(&admin, &id).unwrap();
    c.finish_match(&admin, &id, Team::Team1).unwrap();
    assert_eq!(c.claim(&s("alice"), 3), Err(ContractError::NotFound));
    assert_eq!(c.claim(&s("bob"), 1), Err(ContractError::NotFound));
    assert_eq!(c.claim(&s("bob"), 2), Err(ContractError::InvalidState));
    assert_eq!(c.claim(&s("alice"), 1), Ok(Payout::Winnings(11_000_000)));
    assert_eq!(c.get_bet(&s("alice"), 1).unwrap().pay_state, Some(PayState::Paid));
    assert_eq!(c.claim(&s("alice"), 1), Err(ContractError::InvalidState));
}

#[test]
fn failed_transfer_allows_a_new_claim() {
    let (mut c, id) = setup();
    let usdc = s("usdc.testnet");
    let admin = s("admin.testnet");
    c.bet(&usdc, s("alice"), 10_000_000, &id, Team::Team1, 11_000_000).unwrap();
    c.cancel_match(&admin, &id).unwrap();
    assert_eq!(c.claim(&s("alice"), 1), Ok(Payout::Refund(10_000_000)));
    assert_eq!(c.get_bet(&s("alice"), 1).unwrap().pay_state, Some(PayState::RefundPaid));
    assert_eq!(c.claim_callback(&s("alice"), 1, true), Ok(()));
    assert_eq!(c.get_bet(&s("alice"), 1).unwrap().pay_state, Some(PayState::RefundPaid));
    assert_eq!(c.claim_callback(&s("bob"), 1, false), Err(ContractError::NotFound));
    assert_eq!(c.claim_callback(&s("alice"), 1, false), Ok(()));
    assert_eq!(c.get_bet(&s("alice"), 1).unwrap().pay_state, None);
    assert_eq!(c.claim(&s("alice"), 1), Ok(Payout::Refund(10_000_000)));
    assert_eq!(c.claim(&s("alice"), 1), Err(ContractError::InvalidState));
}

#[test]
fn bet_that_would_overflow_is_refused() {
    let (mut c, id) = setup();
    let usdc = s("usdc.testnet");
    assert_eq!(c.bet(&usdc, s("alice"), 1_000_000, &id, Team::Team1, u128::MAX), Ok(1));
    assert_eq!(
        c.bet(&usdc, s("bob"), 1_000_000, &id, Team::Team1, 1),
        Err(ContractError::InvariantViolation)
    );
    assert_eq!(c.bet(&usdc, s("bob"), 1_000_000, &id, Team::Team2, 1), Ok(2));
    assert_eq!(c.last_bet_id, 2);
}
