//! The reward vesting queue: each match's USDC reward vests linearly over
//! the rewards period, and what has vested is swapped for VEX for stakers.

use crate::contract::{prefix_rewards, queue_rewards, Contract};
use crate::fixed_point::{mul_div_down, mul_div_floor};
use crate::types::{ContractError, MatchStakeInfo};
use vstd::prelude::*;

verus! {

/// A swap of vested rewards that was accepted and awaits its deposit.
#[derive(PartialEq, Eq, Structural, Clone, Copy, Debug)]
pub struct StakeSwap {
    /// The USDC to deposit and swap.
    pub amount: u128,
    /// The last swap time before this one, restored if the deposit fails.
    pub previous_timestamp: u64,
    /// When this swap was accepted.
    pub swap_timestamp: u64,
}

/// The time from `since` to `t`, or zero where `t` is not later.
pub open spec fn elapsed(t: u64, since: u64) -> int {
    if t > since {
        t - since
    } else {
        0
    }
}

/// The index of the first entry, from `i` on, still vesting at `now`.
pub open spec fn count_from(q: Seq<MatchStakeInfo>, now: u64, i: int) -> int
    decreases q.len() - i,
{
    if 0 <= i < q.len() && q[i].stake_end_time < now {
        count_from(q, now, i + 1)
    } else {
        i
    }
}

/// How many entries at the front of the queue have finished vesting at `now`.
pub open spec fn finished_count(q: Seq<MatchStakeInfo>, now: u64) -> int {
    count_from(q, now, 0)
}

/// What of a finished entry has vested since `last` and not been swapped.
pub open spec fn remaining_share(e: MatchStakeInfo, last: u64, period: u64) -> int {
    mul_div_down(elapsed(e.stake_end_time, last), e.staking_rewards as int, period as int)
}

/// The remaining shares of the first `k` entries.
pub open spec fn finished_share(q: Seq<MatchStakeInfo>, last: u64, period: u64, k: int) -> int
    decreases k,
{
    if k <= 0 {
        0
    } else {
        finished_share(q, last, period, k - 1) + remaining_share(q[k - 1], last, period)
    }
}

/// What a swap at `now` takes: the remaining share of each finished entry,
/// plus the slice of the still-vesting rewards for the time since `last`.
pub open spec fn swap_amount(
    q: Seq<MatchStakeInfo>,
    total: int,
    last: u64,
    now: u64,
    period: u64,
) -> int {
    let k = finished_count(q, now);
    finished_share(q, last, period, k) + mul_div_down(
        elapsed(now, last),
        total - prefix_rewards(q, k),
        period as int,
    )
}

proof fn lemma_count_bounds(q: Seq<MatchStakeInfo>, now: u64, i: int)
    requires
        0 <= i <= q.len(),
    ensures
        i <= count_from(q, now, i) <= q.len(),
        forall|j: int| i <= j < count_from(q, now, i) ==> q[j].stake_end_time < now,
        count_from(q, now, i) < q.len() ==> q[count_from(q, now, i)].stake_end_time >= now,
    decreases q.len() - i,
{
    if i < q.len() && q[i].stake_end_time < now {
        lemma_count_bounds(q, now, i + 1);
    }
}

proof fn lemma_nonneg_div(a: int, b: int, c: int)
    requires
        a >= 0,
        b >= 0,
        c > 0,
    ensures
        mul_div_down(a, b, c) >= 0,
{
    assert(a * b >= 0) by (nonlinear_arith)
        requires
            a >= 0,
            b >= 0,
    ;
    vstd::arithmetic::div_mod::lemma_div_pos_is_pos(a * b, c);
}

proof fn lemma_finished_share_grows(q: Seq<MatchStakeInfo>, last: u64, period: u64, k1: int, k2: int)
    requires
        period > 0,
        0 <= k1 <= k2 <= q.len(),
    ensures
        0 <= finished_share(q, last, period, k1) <= finished_share(q, last, period, k2),
    decreases k2,
{
    if k2 > 0 {
        lemma_nonneg_div(elapsed(q[k2 - 1].stake_end_time, last), q[k2 - 1].staking_rewards as int, period as int);
        if k1 < k2 {
            lemma_finished_share_grows(q, last, period, k1, k2 - 1);
        } else {
            lemma_finished_share_grows(q, last, period, k2 - 1, k2 - 1);
        }
    }
}

proof fn lemma_prefix_rewards_grows(q: Seq<MatchStakeInfo>, k1: int, k2: int)
    requires
        0 <= k1 <= k2 <= q.len(),
    ensures
        0 <= prefix_rewards(q, k1) <= prefix_rewards(q, k2),
    decreases k2,
{
    if k2 > 0 {
        if k1 < k2 {
            lemma_prefix_rewards_grows(q, k1, k2 - 1);
        } else {
            lemma_prefix_rewards_grows(q, k2 - 1, k2 - 1);
        }
    }
}

/// The rewards of a queue split at `k` into its front and its rest.
proof fn lemma_prefix_split(q: Seq<MatchStakeInfo>, k: int, n: int)
    requires
        0 <= k <= n <= q.len(),
    ensures
        prefix_rewards(q, n) == prefix_rewards(q, k) + prefix_rewards(q.subrange(k, q.len() as int), n - k),
    decreases n,
{
    if n > k {
        lemma_prefix_split(q, k, n - 1);
        assert(q.subrange(k, q.len() as int)[n - k - 1] == q[n - 1]);
    }
}

/// The rewards of a queue with an entry added at the back.
proof fn lemma_prefix_push(q: Seq<MatchStakeInfo>, e: MatchStakeInfo, n: int)
    requires
        0 <= n <= q.len(),
    ensures
        prefix_rewards(q.push(e), n) == prefix_rewards(q, n),
    decreases n,
{
    if n > 0 {
        lemma_prefix_push(q, e, n - 1);
        assert(q.push(e)[n - 1] == q[n - 1]);
    }
}

/// The queue after a reward of `extra` is added at `now`, where there is one.
pub open spec fn with_reward(q: Seq<MatchStakeInfo>, extra: u128, now: u64, period: u64) -> Seq<
    MatchStakeInfo,
> {
    if extra > 0 {
        q.push(MatchStakeInfo { staking_rewards: extra, stake_end_time: (now + period) as u64 })
    } else {
        q
    }
}

/// Whether the end of a new entry added at `now` would come before the end
/// of the queue's last entry: the clock would have gone back.
pub open spec fn out_of_order(q: Seq<MatchStakeInfo>, now: u64, period: u64) -> bool {
    q.len() > 0 && q.last().stake_end_time > now + period
}

/// Whether adding a reward of `extra` and swapping at `now` is refused: the
/// clock, the rewards total or the swap amount would go beyond what the
/// contract can hold, or the new entry would end before the last one.
pub open spec fn reward_refused(c: Contract, extra: u128, now: u64) -> bool {
    ||| extra > 0 && (now + c.rewards_period > u64::MAX || c.usdc_staking_rewards + extra
        > u128::MAX || out_of_order(c.staking_rewards_queue@, now, c.rewards_period))
    ||| c.staking_rewards_queue@.len() > 0 && swap_amount(
        c.staking_rewards_queue@,
        c.usdc_staking_rewards as int,
        c.last_stake_swap_timestamp,
        now,
        c.rewards_period,
    ) > u128::MAX
}

/// What an attempt to swap the vested rewards at `now` does, with `extra`
/// new rewards to add to the queue. A new entry must not end before the
/// queue's last one. Where the queue is empty nothing has
/// vested: the reward is added and the clock moves to `now`. Otherwise what
/// has vested is computed; a public call must find more than the minimum.
/// An accepted swap moves the clock to `now` and adds the reward; the
/// finished entries leave the queue once the deposit succeeds.
pub open spec fn swap_outcome(
    before: Contract,
    after: Contract,
    extra: u128,
    now: u64,
    r: Result<Option<StakeSwap>, ContractError>,
) -> bool {
    let q = before.staking_rewards_queue@;
    let total = before.usdc_staking_rewards as int;
    let last = before.last_stake_swap_timestamp;
    let period = before.rewards_period;
    let amount = swap_amount(q, total, last, now, period);
    let accepted = after.staking_rewards_queue@ == with_reward(q, extra, now, period) && after == (
    Contract {
        staking_rewards_queue: after.staking_rewards_queue,
        usdc_staking_rewards: (total + extra) as u128,
        last_stake_swap_timestamp: now,
        ..before
    });
    if extra > 0 && (now + period > u64::MAX || total + extra > u128::MAX || out_of_order(
        q,
        now,
        period,
    )) {
        r == Err::<Option<StakeSwap>, ContractError>(ContractError::InvariantViolation) && after
            == before
    } else if q.len() == 0 {
        r == Ok::<Option<StakeSwap>, ContractError>(None) && accepted
    } else if amount > u128::MAX {
        r == Err::<Option<StakeSwap>, ContractError>(ContractError::InvariantViolation) && after
            == before
    } else if extra == 0 && amount <= before.min_swap_amount {
        r == Err::<Option<StakeSwap>, ContractError>(ContractError::InsufficientBalance) && after
            == before
    } else if amount == 0 {
        r == Ok::<Option<StakeSwap>, ContractError>(None) && accepted
    } else {
        r == Ok::<Option<StakeSwap>, ContractError>(
            Some(StakeSwap { amount: amount as u128, previous_timestamp: last, swap_timestamp: now }),
        ) && accepted
    }
}

/// A reward `r` that alone fills the queue, added when the clock was last
/// moved at `t`, vests linearly: a swap at `now`, up to the end of its period
/// `p`, takes `(now - t) * r / p`, rounded down. The entry stays in the queue
/// through a swap at the end of its period and leaves with the first one after.
pub proof fn lemma_single_reward_vests_linearly(r: u128, t: u64, p: u64, now: u64)
    requires
        p > 0,
        t <= now <= t + p,
        t + p <= u64::MAX,
    ensures
        ({
            let q = seq![MatchStakeInfo { staking_rewards: r, stake_end_time: (t + p) as u64 }];
            &&& swap_amount(q, r as int, t, now, p) == mul_div_down(now - t, r as int, p as int)
            &&& finished_count(q, now) == 0
            &&& forall|later: u64| later > t + p ==> #[trigger] finished_count(q, later) == 1
        }),
{
    let q = seq![MatchStakeInfo { staking_rewards: r, stake_end_time: (t + p) as u64 }];
    assert(count_from(q, now, 0) == 0);
    assert(prefix_rewards(q, 0) == 0);
    assert(finished_share(q, t, p, 0) == 0);
    assert forall|later: u64| later > t + p implies #[trigger] finished_count(q, later) == 1 by {
        assert(count_from(q, later, 1) == 1);
        assert(count_from(q, later, 0) == count_from(q, later, 1));
    }
}

impl Contract {
    /// What a swap at `now` would take, or `None` where it does not fit in
    /// 128 bits.
    fn vested_amount(&self, now: u64) -> (r: Option<u128>)
        requires
            self.wf(),
        ensures
            r matches Some(v) ==> v == swap_amount(
                self.staking_rewards_queue@,
                self.usdc_staking_rewards as int,
                self.last_stake_swap_timestamp,
                now,
                self.rewards_period,
            ),
            r is None ==> swap_amount(
                self.staking_rewards_queue@,
                self.usdc_staking_rewards as int,
                self.last_stake_swap_timestamp,
                now,
                self.rewards_period,
            ) > u128::MAX,
    {
        let ghost q = self.staking_rewards_queue@;
        let last = self.last_stake_swap_timestamp;
        let period = self.rewards_period;
        let ghost kk = finished_count(q, now);
        proof {
            lemma_count_bounds(q, now, 0);
            lemma_prefix_rewards_grows(q, kk, q.len() as int);
            lemma_finished_share_grows(q, last, period, 0, kk);
        }
        let mut k: usize = 0;
        let mut finished: u128 = 0;
        let mut principal: u128 = 0;
        while k < self.staking_rewards_queue.len()
            invariant
                q == self.staking_rewards_queue@,
                last == self.last_stake_swap_timestamp,
                period == self.rewards_period,
                period > 0,
                0 <= k <= kk,
                kk == finished_count(q, now),
                kk <= q.len(),
                forall|j: int| 0 <= j < kk ==> q[j].stake_end_time < now,
                kk < q.len() ==> q[kk].stake_end_time >= now,
                finished == finished_share(q, last, period, k as int),
                principal == prefix_rewards(q, k as int),
                prefix_rewards(q, kk) <= self.usdc_staking_rewards,
            ensures
                k == kk,
                finished == finished_share(q, last, period, k as int),
                principal == prefix_rewards(q, k as int),
            decreases q.len() - k,
        {
            let e = self.staking_rewards_queue[k];
            if e.stake_end_time >= now {
                break;
            }
            let since: u64 = if e.stake_end_time > last {
                e.stake_end_time - last
            } else {
                0
            };
            proof {
                assert(k < kk);
                assert(e == q[k as int]);
                assert(since == elapsed(e.stake_end_time, last));
                lemma_finished_share_grows(q, last, period, k as int, k as int);
                lemma_finished_share_grows(q, last, period, k + 1, kk);
                assert(finished_share(q, last, period, k + 1) == finished_share(q, last, period, k as int)
                    + remaining_share(q[k as int], last, period));
                assert(swap_amount(q, self.usdc_staking_rewards as int, last, now, period)
                    == finished_share(q, last, period, kk) + mul_div_down(
                    elapsed(now, last),
                    self.usdc_staking_rewards - prefix_rewards(q, kk),
                    period as int,
                ));
                lemma_prefix_rewards_grows(q, k + 1, kk);
                lemma_nonneg_div(
                    elapsed(now, last),
                    self.usdc_staking_rewards - prefix_rewards(q, kk),
                    period as int,
                );
            }
            let share = match mul_div_floor(since as u128, e.staking_rewards, period as u128) {
                Some(v) => v,
                None => {
                    assert(finished_share(q, last, period, k + 1) > u128::MAX);
                    return None;
                },
            };
            if finished > u128::MAX - share {
                assert(finished_share(q, last, period, k + 1) > u128::MAX);
                return None;
            }
            finished = finished + share;
            principal = principal + e.staking_rewards;
            k = k + 1;
        }
        let since_last: u64 = if now > last {
            now - last
        } else {
            0
        };
        let active = match mul_div_floor(
            since_last as u128,
            self.usdc_staking_rewards - principal,
            period as u128,
        ) {
            Some(v) => v,
            None => return None,
        };
        if finished > u128::MAX - active {
            return None;
        }
        Some(finished + active)
    }

    /// Swaps the rewards that have vested since the last swap, after adding
    /// `extra_usdc_for_staking` of new rewards, at `now`. Returns the swap to
    /// make, if any.
    pub fn perform_stake_swap_internal(&mut self, extra_usdc_for_staking: u128, now: u64) -> (r:
        Result<Option<StakeSwap>, ContractError>)
        requires
            old(self).wf(),
        ensures
            final(self).wf(),
            swap_outcome(*old(self), *final(self), extra_usdc_for_staking, now, r),
    {
        let extra = extra_usdc_for_staking;
        let period = self.rewards_period;
        if extra > 0 && (now > u64::MAX - period || self.usdc_staking_rewards > u128::MAX - extra) {
            return Err(ContractError::InvariantViolation);
        }
        let len = self.staking_rewards_queue.len();
        if extra > 0 && len > 0 && self.staking_rewards_queue[len - 1].stake_end_time > now + period {
            return Err(ContractError::InvariantViolation);
        }
        let mut swap: Option<StakeSwap> = None;
        if self.staking_rewards_queue.len() > 0 {
            let amount = match self.vested_amount(now) {
                Some(v) => v,
                None => return Err(ContractError::InvariantViolation),
            };
            if extra == 0 && amount <= self.min_swap_amount {
                return Err(ContractError::InsufficientBalance);
            }
            if amount > 0 {
                swap = Some(
                    StakeSwap {
                        amount,
                        previous_timestamp: self.last_stake_swap_timestamp,
                        swap_timestamp: now,
                    },
                );
            }
        }
        self.last_stake_swap_timestamp = now;
        if extra > 0 {
            let ghost q = self.staking_rewards_queue@;
            let entry = MatchStakeInfo { staking_rewards: extra, stake_end_time: now + period };
            self.staking_rewards_queue.push_back(entry);
            self.usdc_staking_rewards = self.usdc_staking_rewards + extra;
            proof {
                lemma_prefix_push(q, entry, q.len() as int);
                assert(self.staking_rewards_queue@ == q.push(entry));
            }
        }
        Ok(swap)
    }

    /// The public, incentivised swap of vested rewards at `now`.
    pub fn perform_stake_swap(&mut self, now: u64) -> (r: Result<Option<StakeSwap>, ContractError>)
        requires
            old(self).wf(),
        ensures
            final(self).wf(),
            swap_outcome(*old(self), *final(self), 0, now, r),
    {
        self.perform_stake_swap_internal(0, now)
    }

    /// Whether a public swap at `now` would be accepted.
    pub fn can_stake_swap_happen(&self, now: u64) -> (r: bool)
        requires
            self.wf(),
        ensures
            r == (self.staking_rewards_queue@.len() > 0 && swap_amount(
                self.staking_rewards_queue@,
                self.usdc_staking_rewards as int,
                self.last_stake_swap_timestamp,
                now,
                self.rewards_period,
            ) > self.min_swap_amount),
    {
        if self.staking_rewards_queue.len() == 0 {
            return false;
        }
        match self.vested_amount(now) {
            Some(v) => v > self.min_swap_amount,
            None => true,
        }
    }

    /// Continues an accepted swap once its deposit is answered. A failed
    /// deposit puts the clock back, so that a retry takes the same rewards
    /// again; a successful one removes the entries that had finished vesting
    /// and returns the amount to swap.
    pub fn ref_profit_deposit_callback(&mut self, swap: StakeSwap, deposited: Option<u128>) -> (r:
        Option<u128>)
        requires
            old(self).wf(),
        ensures
            final(self).wf(),
            r == deposited,
            deposited is None && old(self).last_stake_swap_timestamp == swap.swap_timestamp
                ==> *final(self) == (Contract {
                last_stake_swap_timestamp: swap.previous_timestamp,
                ..*old(self)
            }),
            deposited is None && old(self).last_stake_swap_timestamp != swap.swap_timestamp
                ==> *final(self) == *old(self),
            deposited is Some ==> {
                let q = old(self).staking_rewards_queue@;
                let k = finished_count(q, swap.swap_timestamp);
                &&& final(self).staking_rewards_queue@ == q.subrange(k, q.len() as int)
                &&& *final(self) == (Contract {
                    staking_rewards_queue: final(self).staking_rewards_queue,
                    usdc_staking_rewards: (old(self).usdc_staking_rewards - prefix_rewards(q, k)) as u128,
                    ..*old(self)
                })
            },
    {
        match deposited {
            None => {
                if self.last_stake_swap_timestamp == swap.swap_timestamp {
                    self.last_stake_swap_timestamp = swap.previous_timestamp;
                }
                None
            },
            Some(d) => {
                let ghost q = self.staking_rewards_queue@;
                let ghost kk = finished_count(q, swap.swap_timestamp);
                proof {
                    lemma_count_bounds(q, swap.swap_timestamp, 0);
                    lemma_prefix_rewards_grows(q, kk, q.len() as int);
                    lemma_prefix_split(q, kk, q.len() as int);
                }
                let ghost mut j: int = 0;
                while self.staking_rewards_queue.len() > 0
                    invariant
                        0 <= j <= kk <= q.len(),
                        kk == finished_count(q, swap.swap_timestamp),
                        forall|i: int| 0 <= i < kk ==> q[i].stake_end_time < swap.swap_timestamp,
                        kk < q.len() ==> q[kk].stake_end_time >= swap.swap_timestamp,
                        self.staking_rewards_queue@ == q.subrange(j, q.len() as int),
                        self.usdc_staking_rewards == old(self).usdc_staking_rewards - prefix_rewards(q, j),
                        prefix_rewards(q, kk) <= old(self).usdc_staking_rewards,
                        *self == (Contract {
                            staking_rewards_queue: self.staking_rewards_queue,
                            usdc_staking_rewards: self.usdc_staking_rewards,
                            ..*old(self)
                        }),
                    ensures
                        j == kk,
                        self.staking_rewards_queue@ == q.subrange(j, q.len() as int),
                        self.usdc_staking_rewards == old(self).usdc_staking_rewards - prefix_rewards(q, j),
                        *self == (Contract {
                            staking_rewards_queue: self.staking_rewards_queue,
                            usdc_staking_rewards: self.usdc_staking_rewards,
                            ..*old(self)
                        }),
                    decreases self.staking_rewards_queue@.len(),
                {
                    let front = self.staking_rewards_queue[0];
                    if front.stake_end_time >= swap.swap_timestamp {
                        break;
                    }
                    proof {
                        assert(front == q[j]);
                        assert(j < kk);
                        lemma_prefix_rewards_grows(q, j + 1, kk);
                    }
                    self.staking_rewards_queue.pop_front();
                    self.usdc_staking_rewards = self.usdc_staking_rewards - front.staking_rewards;
                    proof {
                        j = j + 1;
                        assert(self.staking_rewards_queue@ =~= q.subrange(j, q.len() as int));
                    }
                }
                proof {
                    assert(queue_rewards(self.staking_rewards_queue@) == prefix_rewards(
                        q.subrange(kk, q.len() as int),
                        q.len() - kk,
                    ));
                }
                Some(d)
            },
        }
    }

    /// Passes on the VEX that the swap gave, to be withdrawn from the pool.
    pub fn ref_profit_swap_callback(&self, swapped: Option<u128>) -> (r: Result<u128, ContractError>)
        ensures
            swapped matches Some(v) ==> r == Ok::<u128, ContractError>(v),
            swapped is None ==> r == Err::<u128, ContractError>(ContractError::ExternalCallFailure),
    {
        match swapped {
            Some(v) => Ok(v),
            None => Err(ContractError::ExternalCallFailure),
        }
    }

    /// Books the VEX withdrawn from the pool: one hundredth rewards the
    /// caller of the swap and is returned, the rest is added to the staked
    /// balance, raising the share price.
    pub fn ref_profit_withdraw_callback(&mut self, withdrawn: Option<u128>) -> (r: Result<
        u128,
        ContractError,
    >)
        requires
            old(self).wf(),
        ensures
            final(self).wf(),
            withdrawn is None ==> r == Err::<u128, ContractError>(ContractError::ExternalCallFailure),
            r is Err ==> *final(self) == *old(self),
            withdrawn matches Some(w) ==> {
                let reward = w / 100;
                if old(self).total_staked_balance + (w - reward) > u128::MAX {
                    r == Err::<u128, ContractError>(ContractError::InvariantViolation)
                } else {
                    &&& r == Ok::<u128, ContractError>(reward)
                    &&& *final(self) == (Contract {
                        total_staked_balance: (old(self).total_staked_balance + (w - reward)) as u128,
                        ..*old(self)
                    })
                }
            },
    {
        let w = match withdrawn {
            Some(w) => w,
            None => return Err(ContractError::ExternalCallFailure),
        };
        let reward = w / 100;
        let kept = w - reward;
        if self.total_staked_balance > u128::MAX - kept {
            return Err(ContractError::InvariantViolation);
        }
        self.total_staked_balance = self.total_staked_balance + kept;
        Ok(reward)
    }
}

} // verus!
