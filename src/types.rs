//! Entities of the betting market and the staking pool.

use vstd::prelude::*;

verus! {

/// A unique identifier for a match of the form "team_1-team_2-date".
pub type MatchId = String;

/// A unique identifier for a bet; bets are numbered from one upwards.
pub type BetId = u64;

/// An account on the chain, by its name.
pub type AccountId = String;

/// One USDC in its lowest denomination (six decimals).
pub const ONE_USDC: u128 = 1_000_000;

/// Fifty VEX in its lowest denomination (eighteen decimals).
pub const FIFTY_VEX: u128 = 50_000_000_000_000_000_000;

/// VEX set aside to absorb the rounding of share conversions.
pub const STAKE_SHARE_PRICE_GUARANTEE_FUND: u128 = 1_000_000_000_000_000;

/// The VEX balance the contract is initialised with.
pub const INITIAL_ACCOUNT_BALANCE: u128 = 50_000_000_000_000_000_000;

#[derive(PartialEq, Eq, Structural, Clone, Copy, Debug)]
pub enum Team {
    Team1,
    Team2,
}

#[derive(PartialEq, Eq, Structural, Clone, Copy, Debug)]
pub enum PayState {
    Paid,
    RefundPaid,
}

#[derive(PartialEq, Eq, Structural, Clone, Copy, Debug)]
pub enum MatchState {
    Future,
    Current,
    Finished,
    Error,
}

/// The kinds of failure of the contract's actions.
#[derive(PartialEq, Eq, Structural, Clone, Copy, Debug)]
pub enum ContractError {
    /// The caller is not the principal the action is reserved for.
    PermissionDenied,
    /// The match, bet or saga is in the wrong state for the action.
    InvalidState,
    /// No such match, bet or stake account.
    NotFound,
    /// A balance, fund or amount is too small for the action.
    InsufficientBalance,
    /// Arithmetic yielded a non-positive or out-of-range amount.
    InvariantViolation,
    /// An outside call failed or returned an error.
    ExternalCallFailure,
}

pub struct Match {
    /// What game is being played.
    pub game: String,
    pub team_1: String,
    pub team_2: String,
    /// Total bets on team 1 in USDC, the initial pool included.
    pub team_1_total_bets: u128,
    /// Total bets on team 2 in USDC, the initial pool included.
    pub team_2_total_bets: u128,
    /// The synthetic pool seeded for team 1 at creation.
    pub team_1_initial_pool: u128,
    /// The synthetic pool seeded for team 2 at creation.
    pub team_2_initial_pool: u128,
    /// USDC to be paid out if team 1 wins.
    pub team_1_potential_winnings: u128,
    /// USDC to be paid out if team 2 wins.
    pub team_2_potential_winnings: u128,
    pub match_state: MatchState,
    pub winner: Option<Team>,
}

impl Match {
    /// The pools never fall below what was seeded, and seeding is positive.
    pub open spec fn wf(&self) -> bool {
        &&& self.team_1_initial_pool > 0
        &&& self.team_2_initial_pool > 0
        &&& self.team_1_total_bets >= self.team_1_initial_pool
        &&& self.team_2_total_bets >= self.team_2_initial_pool
        &&& self.real_bets() <= u128::MAX
        &&& (self.match_state == MatchState::Finished) == (self.winner is Some)
    }

    /// The real bets placed on the match, without the seeded pools.
    pub open spec fn real_bets(&self) -> int {
        (self.team_1_total_bets - self.team_1_initial_pool) + (self.team_2_total_bets
            - self.team_2_initial_pool)
    }

    /// What the operator owes if `team` wins.
    pub open spec fn liability(&self, team: Team) -> int {
        match team {
            Team::Team1 => self.team_1_potential_winnings as int,
            Team::Team2 => self.team_2_potential_winnings as int,
        }
    }
}

pub struct Bet {
    /// The match that is being bet on.
    pub match_id: MatchId,
    pub team: Team,
    /// The amount of USDC being bet.
    pub bet_amount: u128,
    /// The winnings in USDC if the bet is successful, fixed when it was placed.
    pub potential_winnings: u128,
    /// Whether the bet has been paid out.
    pub pay_state: Option<PayState>,
}

#[derive(PartialEq, Eq, Structural, Clone, Copy, Debug)]
pub struct UserStake {
    /// The number of stake shares the user holds.
    pub stake_shares: u128,
    /// The VEX the user holds in the contract that is not staked.
    pub unstaked_balance: u128,
    /// The time from which the user may unstake.
    pub unstake_timestamp: u64,
}

impl UserStake {
    /// An account with nothing in it.
    pub fn default() -> (r: UserStake)
        ensures
            r.stake_shares == 0,
            r.unstaked_balance == 0,
            r.unstake_timestamp == 0,
    {
        UserStake { stake_shares: 0, unstaked_balance: 0, unstake_timestamp: 0 }
    }
}

/// A match's USDC reward that vests linearly until `stake_end_time`.
#[derive(PartialEq, Eq, Structural, Clone, Copy, Debug)]
pub struct MatchStakeInfo {
    pub staking_rewards: u128,
    pub stake_end_time: u64,
}

} // verus!
