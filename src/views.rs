//! Read-only views of the contract.

use crate::contract::{find_key, is_first_key, lacks_key, Contract};
use crate::types::{AccountId, Bet, BetId, Match, MatchId, MatchStakeInfo, UserStake};
use std::collections::VecDeque;
use vstd::prelude::*;

verus! {

/// The contract's configuration.
pub struct ContractInfo {
    pub admin: AccountId,
    pub usdc_token_contract: AccountId,
    pub vex_token_contract: AccountId,
    pub treasury: AccountId,
    pub ref_contract: AccountId,
    pub ref_pool_id: u64,
}

impl Contract {
    pub fn get_contract_info(&self) -> (r: ContractInfo)
        ensures
            r.admin == self.admin,
            r.usdc_token_contract == self.usdc_token_contract,
            r.vex_token_contract == self.vex_token_contract,
            r.treasury == self.treasury,
            r.ref_contract == self.ref_contract,
            r.ref_pool_id == self.ref_pool_id,
    {
        ContractInfo {
            admin: self.admin.clone(),
            usdc_token_contract: self.usdc_token_contract.clone(),
            vex_token_contract: self.vex_token_contract.clone(),
            treasury: self.treasury.clone(),
            ref_contract: self.ref_contract.clone(),
            ref_pool_id: self.ref_pool_id,
        }
    }

    pub fn get_admin(&self) -> (r: &AccountId)
        ensures
            *r == self.admin,
    {
        &self.admin
    }

    /// The match with id `match_id`.
    pub fn get_match(&self, match_id: &MatchId) -> (r: Option<&Match>)
        ensures
            lacks_key(self.matches@, match_id@) ==> r is None,
            forall|i: int|
                is_first_key(self.matches@, match_id@, i) ==> r == Some(&self.matches@[i].1),
    {
        match find_key(&self.matches, match_id) {
            Some(i) => Some(&self.matches[i].1),
            None => None,
        }
    }

    /// The bet `bet_id` of `bettor`.
    pub fn get_bet(&self, bettor: &AccountId, bet_id: BetId) -> (r: Option<&Bet>)
        requires
            self.wf(),
        ensures
            !(1 <= bet_id <= self.bets@.len() && self.bets@[bet_id - 1].0@ == bettor@) ==> r is None,
            1 <= bet_id <= self.bets@.len() && self.bets@[bet_id - 1].0@ == bettor@ ==> r == Some(
                &self.bets@[bet_id - 1].1,
            ),
    {
        if bet_id == 0 || bet_id > self.last_bet_id {
            return None;
        }
        let n = self.bets.len();
        assert(bet_id - 1 < n);
        let k = (bet_id - 1) as usize;
        if self.bets[k].0.eq(bettor) {
            Some(&self.bets[k].1)
        } else {
            None
        }
    }

    /// The stake account of `account_id`.
    pub fn get_user_stake_info(&self, account_id: &AccountId) -> (r: Option<UserStake>)
        ensures
            lacks_key(self.users_stake@, account_id@) ==> r is None,
            forall|i: int|
                is_first_key(self.users_stake@, account_id@, i) ==> r == Some(
                    self.users_stake@[i].1,
                ),
    {
        match find_key(&self.users_stake, account_id) {
            Some(i) => Some(self.users_stake[i].1),
            None => None,
        }
    }

    pub fn get_staking_rewards_queue(&self) -> (r: &VecDeque<MatchStakeInfo>)
        ensures
            r@ == self.staking_rewards_queue@,
    {
        &self.staking_rewards_queue
    }

    pub fn get_usdc_staking_rewards(&self) -> (r: u128)
        ensures
            r == self.usdc_staking_rewards,
    {
        self.usdc_staking_rewards
    }

    pub fn get_last_stake_swap_timestamp(&self) -> (r: u64)
        ensures
            r == self.last_stake_swap_timestamp,
    {
        self.last_stake_swap_timestamp
    }

    pub fn get_total_staked_balance(&self) -> (r: u128)
        ensures
            r == self.total_staked_balance,
    {
        self.total_staked_balance
    }

    pub fn get_total_stake_shares(&self) -> (r: u128)
        ensures
            r == self.total_stake_shares,
    {
        self.total_stake_shares
    }

    pub fn get_fees_fund(&self) -> (r: u128)
        ensures
            r == self.fees_fund,
    {
        self.fees_fund
    }

    pub fn get_insurance_fund(&self) -> (r: u128)
        ensures
            r == self.insurance_fund,
    {
        self.insurance_fund
    }

    pub fn get_funds_to_add(&self) -> (r: u128)
        ensures
            r == self.funds_to_add,
    {
        self.funds_to_add
    }

    pub fn get_funds_to_payout(&self) -> (r: u128)
        ensures
            r == self.funds_to_payout,
    {
        self.funds_to_payout
    }
}

impl Match {
    /// The real bets on team 1, without its seeded pool.
    pub fn team_1_real_bets(&self) -> (r: u128)
        requires
            self.wf(),
        ensures
            r == self.team_1_total_bets - self.team_1_initial_pool,
    {
        self.team_1_total_bets - self.team_1_initial_pool
    }

    /// The real bets on team 2, without its seeded pool.
    pub fn team_2_real_bets(&self) -> (r: u128)
        requires
            self.wf(),
        ensures
            r == self.team_2_total_bets - self.team_2_initial_pool,
    {
        self.team_2_total_bets - self.team_2_initial_pool
    }
}

} // verus!
