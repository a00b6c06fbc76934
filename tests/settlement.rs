use vex_contracts::contract::Contract;
use vex_contracts::settlement::{LossSaga, ProfitSettlement, SettlementAction};
use vex_contracts::types::{MatchState, Team};
use vex_contracts::types::{ContractError, MatchStakeInfo};
use vex_contracts::vesting::StakeSwap;

fn s(x: &str) -> String {
    x.to_string()
}

fn setup() -> Contract {
    Contract::init(
        s("admin.testnet"),
        s("usdc.testnet"),
        s("vex_token.testnet"),
        s("treasury.testnet"),
        s("ref_finance.testnet"),
        1,
        100,
        10,
        500,
    )
}

fn with_insurance(amount: u128) -> Contract {
    let mut c = setup();
    assert_eq!(c.add_usdc(&s("vex_token.testnet"), amount), Err(ContractError::PermissionDenied));
    c.add_usdc(&s("usdc.testnet"), amount).unwrap();
    assert_eq!(c.get_insurance_fund(), amount);
    c
}

#[test]
fn insurance_covers_a_small_loss() {
    let mut c = with_insurance(25);
    assert_eq!(c.handle_loss(10), LossSaga::Settled);
    assert_eq!(c.get_insurance_fund(), 15);
}

#[test]
fn larger_loss_starts_the_saga() {
    let mut c = with_insurance(25);
    let staked = c.get_total_staked_balance();
    assert_eq!(c.handle_loss(30), LossSaga::AwaitingQuote { shortfall: 5 });
    assert_eq!(c.get_insurance_fund(), 25);
    assert_eq!(c.get_total_staked_balance(), staked);
}

#[test]
fn loss_saga_runs_to_the_end() {
    let mut c = with_insurance(25);
    let staked = c.get_total_staked_balance();
    assert_eq!(c.handle_loss(30), LossSaga::AwaitingQuote { shortfall: 5 });
    assert_eq!(c.get_insurance_fund(), 25);
    assert_eq!(
        c.ref_loss_view_callback(5, Some(100)),
        LossSaga::AwaitingDeposit { shortfall: 5, amount: 105 }
    );
    assert_eq!(
        c.ref_loss_deposit_callback(5, Some(105)),
        Ok(LossSaga::AwaitingSwap { shortfall: 5, amount: 105 })
    );
    assert_eq!(c.get_insurance_fund(), 0);
    assert_eq!(c.get_total_staked_balance(), staked - 105);
    assert_eq!(
        c.ref_loss_swap_callback(5, Some(7)),
        Ok(LossSaga::AwaitingWithdraw { shortfall: 5, amount: 7 })
    );
    assert_eq!(c.ref_loss_withdraw_callback(5, Some(7)), Ok(LossSaga::Settled));
    assert_eq!(c.get_insurance_fund(), 2);
    assert_eq!(c.get_funds_to_add(), 0);
}

#[test]
fn short_proceeds_are_recorded_and_paid_down() {
    let mut c = with_insurance(25);
    assert_eq!(
        c.ref_loss_withdraw_callback(5, Some(3)),
        Ok(LossSaga::Degraded { outstanding: 2 })
    );
    assert_eq!(c.get_funds_to_add(), 2);
    c.add_usdc(&s("usdc.testnet"), 1).unwrap();
    assert_eq!(c.get_funds_to_add(), 1);
    assert_eq!(c.get_insurance_fund(), 25);
    c.add_usdc(&s("usdc.testnet"), 4).unwrap();
    assert_eq!(c.get_funds_to_add(), 0);
    assert_eq!(c.get_insurance_fund(), 28);
}

#[test]
fn failures_after_commitment_degrade() {
    let mut c = with_insurance(25);
    assert_eq!(c.ref_loss_deposit_callback(5, None), Ok(LossSaga::Degraded { outstanding: 5 }));
    assert_eq!(c.ref_loss_swap_callback(5, None), Ok(LossSaga::Degraded { outstanding: 5 }));
    assert_eq!(c.ref_loss_withdraw_callback(5, None), Ok(LossSaga::Degraded { outstanding: 5 }));
    assert_eq!(c.get_funds_to_add(), 15);
    assert_eq!(c.get_insurance_fund(), 25);
}

#[test]
fn profit_is_split_sixty_thirty_five_and_rest() {
    let mut c = setup();
    assert_eq!(
        c.handle_profit(1_000_001, 0),
        Ok(ProfitSettlement { treasury_transfer: 300_000, swap: None })
    );
    assert_eq!(c.get_fees_fund(), 50_001);
    assert_eq!(c.get_insurance_fund(), 50_000);
    assert_eq!(c.get_usdc_staking_rewards(), 600_000);
    let q: Vec<MatchStakeInfo> = c.get_staking_rewards_queue().iter().copied().collect();
    assert_eq!(q, vec![MatchStakeInfo { staking_rewards: 600_000, stake_end_time: 100 }]);
}

#[test]
fn second_profit_swaps_what_has_vested() {
    let mut c = setup();
    c.handle_profit(1_000_000, 0).unwrap();
    let r = c.handle_profit(100, 50).unwrap();
    assert_eq!(r.treasury_transfer, 30);
    assert_eq!(
        r.swap,
        Some(StakeSwap { amount: 300_000, previous_timestamp: 0, swap_timestamp: 50 })
    );
    assert_eq!(c.get_usdc_staking_rewards(), 600_060);
    assert_eq!(c.get_staking_rewards_queue().len(), 2);
    assert_eq!(c.get_fees_fund(), 50_000 + 5);
    assert_eq!(c.get_insurance_fund(), 50_000 + 5);
}

#[test]
fn failed_quote_changes_nothing_and_can_be_retried() {
    let mut c = with_insurance(25);
    let staked = c.get_total_staked_balance();
    assert_eq!(c.handle_loss(30), LossSaga::AwaitingQuote { shortfall: 5 });
    assert_eq!(c.ref_loss_view_callback(5, None), LossSaga::RolledBack { shortfall: 5 });
    assert_eq!(c.ref_loss_view_callback(7, Some(u128::MAX)), LossSaga::RolledBack { shortfall: 7 });
    assert_eq!(c.get_insurance_fund(), 25);
    assert_eq!(c.get_total_staked_balance(), staked);
    assert_eq!(c.retry_loss(&s("bob"), 5), Err(ContractError::PermissionDenied));
    assert_eq!(c.retry_loss(&s("admin.testnet"), 5), Ok(LossSaga::AwaitingQuote { shortfall: 5 }));
}

#[test]
fn tiny_profit_is_split_without_a_swap() {
    let mut c = setup();
    c.perform_stake_swap_internal(10_000, 1000).unwrap();
    c.fees_fund = 7;
    c.insurance_fund = 3;
    assert_eq!(
        c.handle_profit(1, 1001),
        Ok(ProfitSettlement { treasury_transfer: 0, swap: None })
    );
    assert_eq!(c.get_fees_fund(), 8);
    assert_eq!(c.get_insurance_fund(), 3);
    assert_eq!(c.get_last_stake_swap_timestamp(), 1000);
    assert_eq!(c.get_usdc_staking_rewards(), 10_000);
    let r = c.handle_profit(10, 1002).unwrap();
    assert_eq!(r.treasury_transfer, 3);
    assert_eq!(r.swap, Some(StakeSwap { amount: 200, previous_timestamp: 1000, swap_timestamp: 1002 }));
    assert_eq!(c.get_usdc_staking_rewards(), 10_006);
}

#[test]
fn reward_ending_before_the_last_is_refused() {
    let mut c = setup();
    c.perform_stake_swap_internal(10_000, 1000).unwrap();
    assert_eq!(c.handle_profit(100, 900), Err(ContractError::InvariantViolation));
    assert_eq!(c.get_fees_fund(), 0);
    assert_eq!(c.get_staking_rewards_queue().len(), 1);
}

fn finished_with(c: &mut Contract, pw_1: u128) -> String {
    let admin = s("admin.testnet");
    let id = c
        .create_match(&admin, s("CSGO"), s("RUBY"), s("Nexus"), &s("17/08/2024"), 500, 500)
        .unwrap();
    c.bet(&s("usdc.testnet"), s("alice"), 10_000_000, &id, Team::Team1, pw_1).unwrap();
    c.end_betting(&admin, &id).unwrap();
    id
}

#[test]
fn finish_and_settle_books_a_profit() {
    let mut c = setup();
    let id = finished_with(&mut c, 6_000_000);
    let r = c.finish_and_settle(&s("admin.testnet"), &id, Team::Team1, 0).unwrap();
    assert_eq!(
        r,
        SettlementAction::Profit(ProfitSettlement { treasury_transfer: 1_200_000, swap: None })
    );
    assert_eq!(c.get_fees_fund(), 200_000);
    assert_eq!(c.get_insurance_fund(), 200_000);
    assert_eq!(c.get_usdc_staking_rewards(), 2_400_000);
    assert_eq!(c.get_match(&id).unwrap().match_state, MatchState::Finished);
    assert_eq!(
        c.finish_and_settle(&s("admin.testnet"), &id, Team::Team1, 0),
        Err(ContractError::InvalidState)
    );
}

#[test]
fn finish_and_settle_starts_the_loss_saga() {
    let mut c = with_insurance(25);
    let id = finished_with(&mut c, 10_000_030);
    assert_eq!(
        c.finish_and_settle(&s("admin.testnet"), &id, Team::Team1, 0),
        Ok(SettlementAction::Loss(LossSaga::AwaitingQuote { shortfall: 5 }))
    );
    assert_eq!(c.get_insurance_fund(), 25);
    assert_eq!(c.get_funds_to_payout(), 10_000_030);
}

#[test]
fn finish_and_settle_even_and_refused() {
    let mut c = setup();
    let id = finished_with(&mut c, 10_000_000);
    assert_eq!(
        c.finish_and_settle(&s("admin.testnet"), &id, Team::Team2, 0),
        Ok(SettlementAction::Profit(ProfitSettlement { treasury_transfer: 3_000_000, swap: None }))
    );
    let mut c = setup();
    let id = finished_with(&mut c, 10_000_000);
    assert_eq!(
        c.finish_and_settle(&s("bob"), &id, Team::Team1, 0),
        Err(ContractError::PermissionDenied)
    );
    assert_eq!(
        c.finish_and_settle(&s("admin.testnet"), &id, Team::Team1, 0),
        Ok(SettlementAction::Even)
    );

    let mut c = setup();
    c.perform_stake_swap_internal(10_000, 1000).unwrap();
    let id = finished_with(&mut c, 0);
    assert_eq!(
        c.finish_and_settle(&s("admin.testnet"), &id, Team::Team1, 500),
        Err(ContractError::InvariantViolation)
    );
    let m = c.get_match(&id).unwrap();
    assert_eq!(m.match_state, MatchState::Current);
    assert_eq!(m.winner, None);
    assert_eq!(c.get_fees_fund(), 0);
    assert_eq!(c.get_funds_to_payout(), 0);
}
