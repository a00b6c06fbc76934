use vex_contracts::contract::Contract;
use vex_contracts::types::{ContractError, MatchStakeInfo};
use vex_contracts::vesting::StakeSwap;

fn s(x: &str) -> String {
    x.to_string()
}

fn setup() -> Contract {
    Contract::init(
        s("admin.testnet"),
        s("usdc.testnet"),
        s("vex_token.testnet"),
        s("treasury.testnet"),
        s("ref_finance.testnet"),
        1,
        100,
        10,
        500,
    )
}

#[test]
fn reward_vests_linearly_and_leaves_after_its_period() {
    let mut c = setup();
    assert_eq!(c.perform_stake_swap_internal(10_000, 1000), Ok(None));
    assert_eq!(c.get_last_stake_swap_timestamp(), 1000);
    assert_eq!(c.get_usdc_staking_rewards(), 10_000);
    let q: Vec<MatchStakeInfo> = c.get_staking_rewards_queue().iter().copied().collect();
    assert_eq!(q, vec![MatchStakeInfo { staking_rewards: 10_000, stake_end_time: 1100 }]);

    let half = c.perform_stake_swap(1050).unwrap().unwrap();
    assert_eq!(half, StakeSwap { amount: 5_000, previous_timestamp: 1000, swap_timestamp: 1050 });
    assert_eq!(c.ref_profit_deposit_callback(half, Some(5_000)), Some(5_000));
    assert_eq!(c.get_staking_rewards_queue().len(), 1);
    assert_eq!(c.get_usdc_staking_rewards(), 10_000);

    assert!(c.can_stake_swap_happen(1100));
    let at_end = c.perform_stake_swap(1100).unwrap().unwrap();
    assert_eq!(at_end.amount, 5_000);
    assert_eq!(c.ref_profit_deposit_callback(at_end, Some(5_000)), Some(5_000));
    assert_eq!(c.get_staking_rewards_queue().len(), 1);
}

#[test]
fn finished_entry_is_dequeued_after_its_end() {
    let mut c = setup();
    c.perform_stake_swap_internal(10_000, 1000).unwrap();
    let half = c.perform_stake_swap(1050).unwrap().unwrap();
    c.ref_profit_deposit_callback(half, Some(5_000));
    let last = c.perform_stake_swap(1101).unwrap().unwrap();
    assert_eq!(last.amount, 5_000);
    assert_eq!(c.get_staking_rewards_queue().len(), 1);
    c.ref_profit_deposit_callback(last, Some(5_000));
    assert_eq!(c.get_staking_rewards_queue().len(), 0);
    assert_eq!(c.get_usdc_staking_rewards(), 0);
}

#[test]
fn small_swap_is_refused() {
    let mut c = setup();
    assert_eq!(c.perform_stake_swap(10), Ok(None));
    c.perform_stake_swap_internal(10_000, 1000).unwrap();
    assert!(!c.can_stake_swap_happen(1005));
    assert_eq!(c.perform_stake_swap(1005), Err(ContractError::InsufficientBalance));
    assert_eq!(c.get_last_stake_swap_timestamp(), 1000);
    assert!(c.can_stake_swap_happen(1006));
}

#[test]
fn failed_deposit_restores_the_clock() {
    let mut c = setup();
    c.perform_stake_swap_internal(10_000, 1000).unwrap();
    let swap = c.perform_stake_swap(1050).unwrap().unwrap();
    assert_eq!(c.get_last_stake_swap_timestamp(), 1050);
    assert_eq!(c.ref_profit_deposit_callback(swap, None), None);
    assert_eq!(c.get_last_stake_swap_timestamp(), 1000);
    let retry = c.perform_stake_swap(1060).unwrap().unwrap();
    assert_eq!(retry.amount, 6_000);
}

#[test]
fn profit_swap_rewards_the_caller() {
    let mut c = setup();
    let before = c.get_total_staked_balance();
    assert_eq!(c.ref_profit_swap_callback(Some(777)), Ok(777));
    assert_eq!(c.ref_profit_swap_callback(None), Err(ContractError::ExternalCallFailure));
    assert_eq!(c.ref_profit_withdraw_callback(Some(1_234)), Ok(12));
    assert_eq!(c.get_total_staked_balance(), before + 1_222);
    assert_eq!(c.ref_profit_withdraw_callback(None), Err(ContractError::ExternalCallFailure));
}
