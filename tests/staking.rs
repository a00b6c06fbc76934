use vex_contracts::contract::Contract;
use vex_contracts::fixed_point::mul_div_floor;
use vex_contracts::types::{ContractError, UserStake};

fn s(x: &str) -> String {
    x.to_string()
}

const VEX: u128 = 1_000_000_000_000_000_000;

fn setup() -> Contract {
    Contract::init(
        s("admin.testnet"),
        s("usdc.testnet"),
        s("vex_token.testnet"),
        s("treasury.testnet"),
        s("ref_finance.testnet"),
        1,
        100,
        10,
        500,
    )
}

fn price_not_lower(b0: u128, s0: u128, b1: u128, s1: u128) -> bool {
    mul_div_floor(b1, s0, s1).unwrap() >= b0
}

#[test]
fn initial_pool_state() {
    let c = setup();
    assert_eq!(c.get_total_staked_balance(), 49_999_000_000_000_000_000);
    assert_eq!(c.get_total_stake_shares(), 49_999_000_000_000_000_000);
    assert_eq!(c.get_user_stake_info(&s("alice")), None);
    assert_eq!(c.get_user_staked_bal(&s("alice")), None);
}

#[test]
fn deposit_and_stake() {
    let mut c = setup();
    let vex = s("vex_token.testnet");
    assert_eq!(
        c.deposit(&s("usdc.testnet"), s("alice"), 200 * VEX),
        Err(ContractError::PermissionDenied)
    );
    assert_eq!(c.stake(&s("alice"), 100 * VEX, 0), Err(ContractError::NotFound));
    assert_eq!(c.deposit(&vex, s("alice"), 200 * VEX), Ok(()));
    assert_eq!(c.stake(&s("alice"), 300 * VEX, 0), Err(ContractError::InsufficientBalance));
    assert_eq!(c.stake(&s("alice"), 100 * VEX, 0), Ok(100 * VEX));
    assert_eq!(
        c.get_user_stake_info(&s("alice")),
        Some(UserStake { stake_shares: 100 * VEX, unstaked_balance: 100 * VEX, unstake_timestamp: 10 })
    );
    assert_eq!(c.get_total_staked_balance(), 149_999_000_000_000_000_000);
    assert_eq!(c.get_total_stake_shares(), 149_999_000_000_000_000_000);
    assert_eq!(c.get_user_staked_bal(&s("alice")), Some(100 * VEX));
}

#[test]
fn unstake_after_profit_rounds_for_the_protocol() {
    let mut c = setup();
    c.deposit(&s("vex_token.testnet"), s("alice"), 200 * VEX).unwrap();
    c.stake(&s("alice"), 100 * VEX, 0).unwrap();
    assert_eq!(c.unstake(&s("alice"), 50 * VEX, 5), Err(ContractError::InvalidState));
    assert_eq!(c.unstake(&s("alice"), 0, 10), Err(ContractError::InsufficientBalance));
    assert_eq!(c.ref_profit_withdraw_callback(Some(VEX)), Ok(10_000_000_000_000_000));
    assert_eq!(c.get_total_staked_balance(), 150_989_000_000_000_000_000);
    let (b0, s0) = (c.total_staked_balance, c.total_stake_shares);
    assert_eq!(c.unstake(&s("alice"), 50 * VEX, 10), Ok(50_000_000_000_000_000_001));
    assert_eq!(c.get_total_staked_balance(), 100_989_000_000_000_000_000);
    assert_eq!(c.get_total_stake_shares(), 100_326_838_451_807_747_584);
    let a = c.get_user_stake_info(&s("alice")).unwrap();
    assert_eq!(a.stake_shares, 50_327_838_451_807_747_584);
    assert_eq!(a.unstaked_balance, 150_000_000_000_000_000_001);
    assert!(price_not_lower(b0, s0, c.total_staked_balance, c.total_stake_shares));
    assert_eq!(c.unstake(&s("alice"), 1000 * VEX, 10), Err(ContractError::InsufficientBalance));
}

#[test]
fn stake_after_profit_keeps_price() {
    let mut c = setup();
    let vex = s("vex_token.testnet");
    c.deposit(&vex, s("alice"), 200 * VEX).unwrap();
    c.stake(&s("alice"), 100 * VEX, 0).unwrap();
    c.ref_profit_withdraw_callback(Some(VEX)).unwrap();
    c.unstake(&s("alice"), 50 * VEX, 10).unwrap();
    c.deposit(&vex, s("bob"), 80 * VEX).unwrap();
    let (b0, s0) = (c.total_staked_balance, c.total_stake_shares);
    assert_eq!(c.stake(&s("bob"), 30 * VEX, 20), Err(ContractError::InsufficientBalance));
    assert_eq!(c.stake(&s("bob"), 60 * VEX, 20), Ok(59_606_593_857_830_702_898));
    assert_eq!(c.get_total_staked_balance(), 160_989_000_000_000_000_000);
    let bob = c.get_user_stake_info(&s("bob")).unwrap();
    assert_eq!(bob.unstaked_balance, 20 * VEX);
    assert_eq!(bob.unstake_timestamp, 30);
    assert!(price_not_lower(b0, s0, c.total_staked_balance, c.total_stake_shares));
}

#[test]
fn share_round_trip_never_gains() {
    let mut c = setup();
    c.deposit(&s("vex_token.testnet"), s("alice"), 200 * VEX).unwrap();
    c.stake(&s("alice"), 100 * VEX, 0).unwrap();
    c.ref_profit_withdraw_callback(Some(VEX)).unwrap();
    c.unstake(&s("alice"), 50 * VEX, 10).unwrap();
    let x: u128 = 12_345_678_901_234_567_890;
    let shares = c.num_shares_from_staked_amount_rounded_down(x).unwrap();
    assert_eq!(shares, 12_264_731_136_084_641_589);
    let back = c.staked_amount_from_num_shares_rounded_down(shares).unwrap();
    assert_eq!(back, 12_345_678_901_234_567_889);
    assert!(back <= x);
    let up = c.staked_amount_from_num_shares_rounded_up(shares).unwrap();
    assert_eq!(up, back + 1);
    assert_eq!(c.num_shares_from_staked_amount_rounded_up(x).unwrap(), shares + 1);
}

#[test]
fn conversions_need_a_pool() {
    let mut c = setup();
    c.total_staked_balance = 0;
    c.total_stake_shares = 0;
    assert_eq!(c.num_shares_from_staked_amount_rounded_down(5), None);
    assert_eq!(c.staked_amount_from_num_shares_rounded_up(5), None);
}

#[test]
fn unstake_all_and_withdraw() {
    let mut c = setup();
    c.deposit(&s("vex_token.testnet"), s("alice"), 200 * VEX).unwrap();
    c.stake(&s("alice"), 100 * VEX, 0).unwrap();
    c.ref_profit_withdraw_callback(Some(VEX)).unwrap();
    c.unstake(&s("alice"), 50 * VEX, 10).unwrap();
    assert_eq!(c.withdraw(&s("alice"), 120 * VEX), Err(ContractError::InsufficientBalance));
    assert_eq!(c.withdraw(&s("alice"), 200 * VEX), Err(ContractError::InsufficientBalance));
    assert_eq!(c.withdraw(&s("alice"), 100 * VEX), Ok(100 * VEX));
    assert_eq!(c.withdraw_all(&s("alice")), Ok(50 * VEX + 1));
    assert_eq!(c.withdraw_all(&s("alice")), Err(ContractError::InsufficientBalance));
    let staked = c.get_user_staked_bal(&s("alice")).unwrap();
    assert_eq!(staked, 50_660_004_400_029_333_528);
    let got = c.unstake_all(&s("alice"), 10).unwrap();
    assert!(got >= staked);
    let a = c.get_user_stake_info(&s("alice")).unwrap();
    assert_eq!(a.unstaked_balance, got);
    assert_eq!(c.withdraw_all(&s("alice")), Ok(got));
}

#[test]
fn emptied_account_is_closed() {
    let mut c = setup();
    c.deposit(&s("vex_token.testnet"), s("bob"), 40 * VEX).unwrap();
    assert_eq!(c.withdraw(&s("bob"), 0), Err(ContractError::InsufficientBalance));
    assert_eq!(c.withdraw(&s("carol"), 1), Err(ContractError::NotFound));
    assert_eq!(c.withdraw_all(&s("bob")), Ok(40 * VEX));
    assert_eq!(c.get_user_stake_info(&s("bob")), None);
    assert!(c.users_stake.is_empty());
}

#[test]
fn stake_worth_no_share_is_refused() {
    let mut c = setup();
    c.deposit(&s("vex_token.testnet"), s("alice"), 100 * VEX).unwrap();
    c.total_staked_balance = 2 * c.total_stake_shares;
    assert_eq!(c.stake(&s("alice"), 1, 0), Err(ContractError::InvariantViolation));
    c.total_staked_balance = 2;
    c.total_stake_shares = 3;
    assert_eq!(c.stake(&s("alice"), 1, 0), Err(ContractError::InvariantViolation));
    assert_eq!(c.stake(&s("alice"), 2, 0), Err(ContractError::InsufficientBalance));
    assert_eq!(c.stake(&s("alice"), 50 * VEX, 0), Ok(75 * VEX));
}

#[test]
fn stake_must_reach_fifty_vex() {
    let mut c = setup();
    let vex = s("vex_token.testnet");
    c.deposit(&vex, s("alice"), 100 * VEX).unwrap();
    assert_eq!(c.stake(&s("alice"), 49 * VEX, 0), Err(ContractError::InsufficientBalance));
    assert_eq!(c.get_total_stake_shares(), 49_999_000_000_000_000_000);
    assert_eq!(c.stake(&s("alice"), 50 * VEX, 0), Ok(50 * VEX));
    assert_eq!(c.stake(&s("alice"), 1, 20), Ok(1));
}
