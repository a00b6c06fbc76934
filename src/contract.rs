//! The contract's single aggregate root and the lookups shared by its handlers.

use crate::types::{
    AccountId, Bet, BetId, Match, MatchId, MatchStakeInfo, UserStake, INITIAL_ACCOUNT_BALANCE,
    STAKE_SHARE_PRICE_GUARANTEE_FUND,
};
use std::collections::VecDeque;
use vstd::prelude::*;

verus! {

/// All state of the contract. Keyed collections are vectors of
/// `(key, value)` entries in which a key is found at its first occurrence.
pub struct Contract {
    /// The account allowed to drive match lifecycles and spend the funds.
    pub admin: AccountId,
    /// The USDC token contract.
    pub usdc_token_contract: AccountId,
    /// The VEX token contract.
    pub vex_token_contract: AccountId,
    /// The account that receives the treasury share of profits.
    pub treasury: AccountId,
    /// The liquidity pool contract.
    pub ref_contract: AccountId,
    /// The liquidity pool between USDC and VEX.
    pub ref_pool_id: u64,
    /// All matches, by id.
    pub matches: Vec<(MatchId, Match)>,
    /// All bets with their bettor; bet `k` is entry `k - 1`.
    pub bets: Vec<(AccountId, Bet)>,
    /// The id of the latest bet.
    pub last_bet_id: BetId,
    /// Stake accounts, by account.
    pub users_stake: Vec<(AccountId, UserStake)>,
    /// Rewards still vesting, oldest first.
    pub staking_rewards_queue: VecDeque<MatchStakeInfo>,
    /// The USDC in the staking rewards fund: the sum of the queue.
    pub usdc_staking_rewards: u128,
    /// When the vested rewards were last swapped.
    pub last_stake_swap_timestamp: u64,
    /// The staked VEX, the shares' backing.
    pub total_staked_balance: u128,
    /// The number of stake shares.
    pub total_stake_shares: u128,
    /// USDC collected as fees.
    pub fees_fund: u128,
    /// USDC that absorbs losses first.
    pub insurance_fund: u128,
    /// USDC owed to winning bettors, as booked when matches finish; it
    /// stops at its maximum rather than overflow.
    pub funds_to_payout: u128,
    /// USDC missing after a loss could not be covered in full.
    pub funds_to_add: u128,
    /// How long a match's reward takes to vest, in nanoseconds.
    pub rewards_period: u64,
    /// How long staked VEX stays locked, in nanoseconds.
    pub unstake_time_buffer: u64,
    /// A swap of vested rewards must exceed this amount.
    pub min_swap_amount: u128,
}

/// The sum of the first `k` rewards of a queue.
pub open spec fn prefix_rewards(q: Seq<MatchStakeInfo>, k: int) -> int
    decreases k,
{
    if k <= 0 {
        0
    } else {
        prefix_rewards(q, k - 1) + q[k - 1].staking_rewards
    }
}

/// The sum of all rewards in a queue.
pub open spec fn queue_rewards(q: Seq<MatchStakeInfo>) -> int {
    prefix_rewards(q, q.len() as int)
}

/// Whether `i` is the first entry holding `key`.
pub open spec fn is_first_key<V>(s: Seq<(String, V)>, key: Seq<char>, i: int) -> bool {
    &&& 0 <= i < s.len()
    &&& s[i].0@ == key
    &&& forall|j: int| 0 <= j < i ==> s[j].0@ != key
}

/// Whether no entry holds `key`.
pub open spec fn lacks_key<V>(s: Seq<(String, V)>, key: Seq<char>) -> bool {
    forall|j: int| 0 <= j < s.len() ==> s[j].0@ != key
}

/// A key that some entry holds has a first entry.
pub proof fn lemma_first_key_exists<V>(s: Seq<(String, V)>, key: Seq<char>)
    requires
        !lacks_key(s, key),
    ensures
        exists|i: int| is_first_key(s, key, i),
    decreases s.len(),
{
    let t = s.drop_last();
    let last = s.len() - 1;
    if lacks_key(t, key) {
        let j = choose|j: int| 0 <= j < s.len() && s[j].0@ == key;
        if j < last {
            assert(t[j].0@ == key);
        }
        assert forall|k: int| 0 <= k < last implies s[k].0@ != key by {
            assert(t[k] == s[k]);
        }
        assert(is_first_key(s, key, last));
    } else {
        lemma_first_key_exists(t, key);
        let i = choose|i: int| is_first_key(t, key, i);
        assert forall|k: int| 0 <= k < i implies s[k].0@ != key by {
            assert(t[k] == s[k]);
        }
        assert(t[i] == s[i]);
        assert(is_first_key(s, key, i));
    }
}

/// Whether no two entries hold the same key.
pub open spec fn keys_unique<V>(s: Seq<(String, V)>) -> bool {
    forall|i: int, j: int|
        0 <= i < s.len() && 0 <= j < s.len() && i != j ==> #[trigger] s[i].0@ != #[trigger] s[j].0@
}

/// Whether the queue's entries stop vesting in the order they stand.
pub open spec fn ordered_by_end(q: Seq<MatchStakeInfo>) -> bool {
    forall|i: int, j: int|
        0 <= i <= j < q.len() ==> #[trigger] q[i].stake_end_time <= #[trigger] q[j].stake_end_time
}

/// The shares held by all stake accounts.
pub open spec fn shares_sum(s: Seq<(String, UserStake)>) -> int
    decreases s.len(),
{
    if s.len() == 0 {
        0
    } else {
        shares_sum(s.drop_last()) + s.last().1.stake_shares
    }
}

/// Replacing one account changes the sum by the difference of its shares.
pub proof fn lemma_shares_sum_update(s: Seq<(String, UserStake)>, i: int, e: (String, UserStake))
    requires
        0 <= i < s.len(),
    ensures
        shares_sum(s.update(i, e)) == shares_sum(s) - s[i].1.stake_shares + e.1.stake_shares,
    decreases s.len(),
{
    if i == s.len() - 1 {
        assert(s.update(i, e).drop_last() =~= s.drop_last());
    } else {
        assert(s.update(i, e).drop_last() =~= s.drop_last().update(i, e));
        lemma_shares_sum_update(s.drop_last(), i, e);
    }
}

/// Removing one account takes its shares from the sum.
pub proof fn lemma_shares_sum_remove(s: Seq<(String, UserStake)>, i: int)
    requires
        0 <= i < s.len(),
    ensures
        shares_sum(s.remove(i)) == shares_sum(s) - s[i].1.stake_shares,
    decreases s.len(),
{
    if i == s.len() - 1 {
        assert(s.remove(i) =~= s.drop_last());
    } else {
        assert(s.remove(i).drop_last() =~= s.drop_last().remove(i));
        lemma_shares_sum_remove(s.drop_last(), i);
    }
}

/// One account holds at most the sum of all shares.
pub proof fn lemma_shares_sum_entry(s: Seq<(String, UserStake)>, i: int)
    requires
        0 <= i < s.len(),
    ensures
        0 <= s[i].1.stake_shares <= shares_sum(s),
    decreases s.len(),
{
    lemma_shares_sum_nonneg(s.drop_last());
    if i < s.len() - 1 {
        lemma_shares_sum_entry(s.drop_last(), i);
    }
}

proof fn lemma_shares_sum_nonneg(s: Seq<(String, UserStake)>)
    ensures
        shares_sum(s) >= 0,
    decreases s.len(),
{
    if s.len() > 0 {
        lemma_shares_sum_nonneg(s.drop_last());
    }
}

/// Finds the entry that holds `key`.
pub fn find_key<V>(s: &Vec<(String, V)>, key: &String) -> (r: Option<usize>)
    ensures
        r matches Some(i) ==> is_first_key(s@, key@, i as int),
        r is None <==> lacks_key(s@, key@),
{
    let mut i: usize = 0;
    while i < s.len()
        invariant
            i <= s.len(),
            forall|j: int| 0 <= j < i ==> s@[j].0@ != key@,
        decreases s.len() - i,
    {
        if s[i].0.eq(key) {
            return Some(i);
        }
        i = i + 1;
    }
    None
}

impl Contract {
    /// The contract's invariant.
    pub open spec fn wf(&self) -> bool {
        &&& self.rewards_period > 0
        &&& self.last_bet_id == self.bets@.len()
        &&& self.usdc_staking_rewards == queue_rewards(self.staking_rewards_queue@)
        &&& ordered_by_end(self.staking_rewards_queue@)
        &&& keys_unique(self.matches@)
        &&& keys_unique(self.users_stake@)
        &&& shares_sum(self.users_stake@) <= self.total_stake_shares
        &&& forall|i: int| 0 <= i < self.matches@.len() ==> (#[trigger] self.matches@[i]).1.wf()
    }

    /// Whether `caller` is the admin.
    pub open spec fn is_admin(&self, caller: Seq<char>) -> bool {
        self.admin@ == caller
    }

    /// A new contract: no matches, bets or stakes, and the initial balance,
    /// less the rounding guarantee, staked as shares that nobody owns.
    pub fn init(
        admin: AccountId,
        usdc_token_contract: AccountId,
        vex_token_contract: AccountId,
        treasury: AccountId,
        ref_contract: AccountId,
        ref_pool_id: u64,
        rewards_period: u64,
        unstake_time_buffer: u64,
        min_swap_amount: u128,
    ) -> (r: Contract)
        requires
            rewards_period > 0,
        ensures
            r.wf(),
            r.admin == admin,
            r.usdc_token_contract == usdc_token_contract,
            r.vex_token_contract == vex_token_contract,
            r.treasury == treasury,
            r.ref_contract == ref_contract,
            r.ref_pool_id == ref_pool_id,
            r.matches@.len() == 0,
            r.bets@.len() == 0,
            r.users_stake@.len() == 0,
            r.staking_rewards_queue@.len() == 0,
            r.usdc_staking_rewards == 0,
            r.last_stake_swap_timestamp == 0,
            r.total_staked_balance == INITIAL_ACCOUNT_BALANCE - STAKE_SHARE_PRICE_GUARANTEE_FUND,
            r.total_stake_shares == r.total_staked_balance,
            r.fees_fund == 0,
            r.insurance_fund == 0,
            r.funds_to_payout == 0,
            r.funds_to_add == 0,
            r.rewards_period == rewards_period,
            r.unstake_time_buffer == unstake_time_buffer,
            r.min_swap_amount == min_swap_amount,
    {
        let total_staked_balance = INITIAL_ACCOUNT_BALANCE - STAKE_SHARE_PRICE_GUARANTEE_FUND;
        Contract {
            admin,
            usdc_token_contract,
            vex_token_contract,
            treasury,
            ref_contract,
            ref_pool_id,
            matches: Vec::new(),
            bets: Vec::new(),
            last_bet_id: 0,
            users_stake: Vec::new(),
            staking_rewards_queue: VecDeque::new(),
            usdc_staking_rewards: 0,
            last_stake_swap_timestamp: 0,
            total_staked_balance,
            total_stake_shares: total_staked_balance,
            fees_fund: 0,
            insurance_fund: 0,
            funds_to_payout: 0,
            funds_to_add: 0,
            rewards_period,
            unstake_time_buffer,
            min_swap_amount,
        }
    }
}

} // verus!
