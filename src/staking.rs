//! Share-based stake accounting. Conversions round in the protocol's favour,
//! so that the price of a share never falls through staking or unstaking.

use crate::contract::{
    find_key, is_first_key, lacks_key, lemma_first_key_exists, lemma_shares_sum_entry,
    lemma_shares_sum_remove, lemma_shares_sum_update, Contract,
};
use crate::fixed_point::{mul_div_ceil, mul_div_down, mul_div_floor, mul_div_up};
use crate::types::{AccountId, ContractError, UserStake, FIFTY_VEX};
use vstd::arithmetic::div_mod::{lemma_fundamental_div_mod, lemma_mod_bound};
use vstd::prelude::*;

verus! {

/// A conversion's result, where it fits in 128 bits and the divisor is not
/// zero.
pub open spec fn converted(value: int, divisor: int) -> Option<u128> {
    if divisor == 0 || value > u128::MAX {
        None
    } else {
        Some(value as u128)
    }
}

/// The share price `balance / shares` is at least `old_balance / old_shares`,
/// compared without division.
pub open spec fn price_not_lower(old_balance: int, old_shares: int, balance: int, shares: int) -> bool {
    balance * old_shares >= old_balance * shares
}

/// Converting an amount to shares and back, both rounded down, never gives
/// more than the amount.
pub proof fn lemma_round_trip_not_above(balance: int, shares: int, amount: int)
    requires
        balance > 0,
        shares > 0,
        amount >= 0,
    ensures
        mul_div_down(balance, mul_div_down(shares, amount, balance), shares) <= amount,
{
    let n = mul_div_down(shares, amount, balance);
    lemma_fundamental_div_mod(shares * amount, balance);
    lemma_mod_bound(shares * amount, balance);
    assert(balance * n <= shares * amount) by (nonlinear_arith)
        requires
            shares * amount == balance * n + (shares * amount) % balance,
            (shares * amount) % balance >= 0,
    ;
    assert(n >= 0) by (nonlinear_arith)
        requires
            balance > 0,
            shares >= 0,
            amount >= 0,
            n == (shares * amount) / balance,
    ;
    let m = mul_div_down(balance, n, shares);
    lemma_fundamental_div_mod(balance * n, shares);
    lemma_mod_bound(balance * n, shares);
    assert(m <= amount) by (nonlinear_arith)
        requires
            balance * n == shares * m + (balance * n) % shares,
            (balance * n) % shares >= 0,
            balance * n <= shares * amount,
            shares > 0,
    ;
}

/// The share price never falls over a run of operations that each keep it:
/// not falling is transitive while the middle state has shares.
pub proof fn lemma_price_chain(b0: int, s0: int, b1: int, s1: int, b2: int, s2: int)
    requires
        s0 >= 0,
        s1 > 0,
        s2 >= 0,
        price_not_lower(b0, s0, b1, s1),
        price_not_lower(b1, s1, b2, s2),
    ensures
        price_not_lower(b0, s0, b2, s2),
{
    assert(b2 * s0 >= b0 * s2) by (nonlinear_arith)
        requires
            s0 >= 0,
            s1 > 0,
            s2 >= 0,
            b1 * s0 >= b0 * s1,
            b2 * s1 >= b1 * s2,
    ;
}

/// Rounding up what is added to the balance keeps the price.
proof fn lemma_stake_keeps_price(b: int, s: int, n: int)
    requires
        b >= 0,
        s > 0,
        n >= 0,
    ensures
        price_not_lower(b, s, b + mul_div_up(b, n, s), s + n),
{
    let up = mul_div_up(b, n, s);
    lemma_fundamental_div_mod(b * n + s - 1, s);
    lemma_mod_bound(b * n + s - 1, s);
    assert((b + up) * s >= b * (s + n)) by (nonlinear_arith)
        requires
            b * n + s - 1 == s * up + (b * n + s - 1) % s,
            (b * n + s - 1) % s < s,
    ;
}

/// Rounding down what is taken from the balance keeps the price.
proof fn lemma_unstake_keeps_price(b: int, s: int, n: int)
    requires
        b >= 0,
        s > 0,
        0 <= n,
    ensures
        price_not_lower(b, s, b - mul_div_down(b, n, s), s - n),
{
    let down = mul_div_down(b, n, s);
    lemma_fundamental_div_mod(b * n, s);
    lemma_mod_bound(b * n, s);
    assert((b - down) * s >= b * (s - n)) by (nonlinear_arith)
        requires
            b * n == s * down + (b * n) % s,
            (b * n) % s >= 0,
    ;
}

/// A part of the balance, rounded down, is at most the balance.
proof fn lemma_part_of_balance(b: int, s: int, n: int)
    requires
        b >= 0,
        s > 0,
        0 <= n <= s,
    ensures
        0 <= mul_div_down(b, n, s) <= b,
{
    assert(b * n <= b * s) by (nonlinear_arith)
        requires
            b >= 0,
            n <= s,
    ;
    assert(0 <= b * n) by (nonlinear_arith)
        requires
            b >= 0,
            n >= 0,
    ;
    vstd::arithmetic::div_mod::lemma_div_is_ordered(b * n, b * s, s);
    vstd::arithmetic::div_mod::lemma_div_pos_is_pos(b * n, s);
    assert((b * s) / s == b) by {
        vstd::arithmetic::div_mod::lemma_div_by_multiple(b, s);
    }
}

/// What staking `amount` out of the caller's unstaked balance does. The
/// shares are rounded down and must be worth something rounded down; the
/// caller's staked value with the amount must reach fifty VEX. The caller is
/// charged, and the totals credited, the shares' value rounded up. The
/// lockup restarts.
pub open spec fn stake_outcome(
    before: Contract,
    after: Contract,
    caller: Seq<char>,
    amount: u128,
    now: u64,
    r: Result<u128, ContractError>,
) -> bool {
    let b = before.total_staked_balance as int;
    let s = before.total_stake_shares as int;
    if lacks_key(before.users_stake@, caller) {
        r == Err::<u128, ContractError>(ContractError::NotFound) && after == before
    } else {
        forall|i: int|
            is_first_key(before.users_stake@, caller, i) ==> {
                let a = before.users_stake@[i].1;
                let n = mul_div_down(s, amount as int, b);
                let charge = mul_div_up(b, n, s);
                let held = mul_div_down(b, a.stake_shares as int, s);
                if b == 0 || n > u128::MAX || n == 0 || mul_div_down(b, n, s) == 0 || charge
                    > u128::MAX {
                    r == Err::<u128, ContractError>(ContractError::InvariantViolation) && after
                        == before
                } else if held + amount < FIFTY_VEX {
                    r == Err::<u128, ContractError>(ContractError::InsufficientBalance) && after
                        == before
                } else if a.unstaked_balance < charge {
                    r == Err::<u128, ContractError>(ContractError::InsufficientBalance) && after
                        == before
                } else if a.stake_shares + n > u128::MAX || b + charge > u128::MAX || s + n
                    > u128::MAX || now + before.unstake_time_buffer > u64::MAX {
                    r == Err::<u128, ContractError>(ContractError::InvariantViolation) && after
                        == before
                } else {
                    &&& r == Ok::<u128, ContractError>(n as u128)
                    &&& after.users_stake@ == before.users_stake@.update(
                        i,
                        (
                            before.users_stake@[i].0,
                            UserStake {
                                stake_shares: (a.stake_shares + n) as u128,
                                unstaked_balance: (a.unstaked_balance - charge) as u128,
                                unstake_timestamp: (now + before.unstake_time_buffer) as u64,
                            },
                        ),
                    )
                    &&& after == (Contract {
                        users_stake: after.users_stake,
                        total_staked_balance: (b + charge) as u128,
                        total_stake_shares: (s + n) as u128,
                        ..before
                    })
                }
            }
    }
}

/// What unstaking `amount` does once the lockup has passed. The shares
/// taken are rounded up and the caller is credited their value rounded up;
/// the totals are debited that value rounded down.
pub open spec fn unstake_outcome(
    before: Contract,
    after: Contract,
    caller: Seq<char>,
    amount: u128,
    now: u64,
    r: Result<u128, ContractError>,
) -> bool {
    let b = before.total_staked_balance as int;
    let s = before.total_stake_shares as int;
    if amount == 0 {
        r == Err::<u128, ContractError>(ContractError::InsufficientBalance) && after == before
    } else if lacks_key(before.users_stake@, caller) {
        r == Err::<u128, ContractError>(ContractError::NotFound) && after == before
    } else {
        forall|i: int|
            is_first_key(before.users_stake@, caller, i) ==> {
                let a = before.users_stake@[i].1;
                let n = mul_div_up(s, amount as int, b);
                let receive = mul_div_up(b, n, s);
                let debit = mul_div_down(b, n, s);
                if now < a.unstake_timestamp {
                    r == Err::<u128, ContractError>(ContractError::InvalidState) && after == before
                } else if b == 0 || n > u128::MAX || n == 0 {
                    r == Err::<u128, ContractError>(ContractError::InvariantViolation) && after
                        == before
                } else if a.stake_shares < n {
                    r == Err::<u128, ContractError>(ContractError::InsufficientBalance) && after
                        == before
                } else if receive > u128::MAX || receive == 0 || a.unstaked_balance
                    + receive > u128::MAX {
                    r == Err::<u128, ContractError>(ContractError::InvariantViolation) && after
                        == before
                } else {
                    &&& r == Ok::<u128, ContractError>(receive as u128)
                    &&& after.users_stake@ == before.users_stake@.update(
                        i,
                        (
                            before.users_stake@[i].0,
                            UserStake {
                                stake_shares: (a.stake_shares - n) as u128,
                                unstaked_balance: (a.unstaked_balance + receive) as u128,
                                ..a
                            },
                        ),
                    )
                    &&& after == (Contract {
                        users_stake: after.users_stake,
                        total_staked_balance: (b - debit) as u128,
                        total_stake_shares: (s - n) as u128,
                        ..before
                    })
                }
            }
    }
}

/// A staking operation: `true` for a stake, `false` for an unstake, by a
/// caller, of an amount, at a time.
pub type StakeOp = (bool, Seq<char>, u128, u64);

/// `after` is what operation `op` makes of `before`, with result `r`.
pub open spec fn stake_step(before: Contract, after: Contract, op: StakeOp, r: Result<u128, ContractError>) -> bool {
    if op.0 {
        stake_outcome(before, after, op.1, op.2, op.3, r)
    } else {
        unstake_outcome(before, after, op.1, op.2, op.3, r)
    }
}

/// The share price of `after` is at least that of `before`.
pub open spec fn price_kept(before: Contract, after: Contract) -> bool {
    price_not_lower(
        before.total_staked_balance as int,
        before.total_stake_shares as int,
        after.total_staked_balance as int,
        after.total_stake_shares as int,
    )
}

/// One stake or unstake keeps the share price, and from a pool without
/// shares it changes nothing.
proof fn lemma_step_keeps_price(before: Contract, after: Contract, op: StakeOp, r: Result<u128, ContractError>)
    requires
        before.wf(),
        stake_step(before, after, op, r),
    ensures
        price_kept(before, after),
        before.total_stake_shares == 0 ==> after == before,
{
    let b = before.total_staked_balance as int;
    let s = before.total_stake_shares as int;
    let caller = op.1;
    let amount = op.2 as int;
    assert(b * s >= b * s);
    if !lacks_key(before.users_stake@, caller) && !(!op.0 && op.2 == 0) {
        lemma_first_key_exists(before.users_stake@, caller);
        let i = choose|i: int| is_first_key(before.users_stake@, caller, i);
        assert(is_first_key(before.users_stake@, caller, i));
        lemma_shares_sum_entry(before.users_stake@, i);
        if op.0 {
            let n = mul_div_down(s, amount, b);
            if s == 0 && b != 0 {
                assert(n == 0);
            }
            if s > 0 && n >= 0 {
                lemma_stake_keeps_price(b, s, n);
            }
            if b != 0 {
                assert(n >= 0) by (nonlinear_arith)
                    requires
                        s >= 0,
                        amount >= 0,
                        b > 0,
                        n == (s * amount) / b,
                ;
            }
        } else {
            let n = mul_div_up(s, amount, b);
            if s == 0 && b != 0 {
                assert(n == 0) by (nonlinear_arith)
                    requires
                        s == 0,
                        b > 0,
                        n == (s * amount + b - 1) / b,
                ;
            }
            if s > 0 && n >= 0 {
                lemma_unstake_keeps_price(b, s, n);
            }
            if s > 0 && 0 <= n <= s {
                lemma_part_of_balance(b, s, n);
            }
            if b != 0 {
                assert(n >= 0) by (nonlinear_arith)
                    requires
                        s >= 0,
                        amount >= 0,
                        b > 0,
                        n == (s * amount + b - 1) / b,
                ;
            }
        }
    }
}

/// Over any run of stakes and unstakes, with no profit or loss between
/// them, the share price at the end is at least the price at the start.
pub proof fn lemma_price_never_falls(
    states: Seq<Contract>,
    ops: Seq<StakeOp>,
    results: Seq<Result<u128, ContractError>>,
)
    requires
        states.len() == ops.len() + 1,
        results.len() == ops.len(),
        forall|i: int| 0 <= i < states.len() ==> (#[trigger] states[i]).wf(),
        forall|i: int| 0 <= i < ops.len() ==> stake_step(states[i], states[i + 1], ops[i], results[i]),
    ensures
        price_kept(states[0], states.last()),
    decreases ops.len(),
{
    let first = states[0];
    assert(first.total_staked_balance * first.total_stake_shares >= first.total_staked_balance
        * first.total_stake_shares);
    if ops.len() > 0 {
        let k = ops.len() - 1;
        lemma_price_never_falls(states.drop_last(), ops.drop_last(), results.drop_last());
        assert(states.drop_last().last() == states[k]);
        assert(stake_step(states[k], states[k + 1], ops[k], results[k]));
        lemma_step_keeps_price(states[k], states[k + 1], ops[k], results[k]);
        let mid = states[k];
        if mid.total_stake_shares > 0 {
            lemma_price_chain(
                first.total_staked_balance as int,
                first.total_stake_shares as int,
                mid.total_staked_balance as int,
                mid.total_stake_shares as int,
                states.last().total_staked_balance as int,
                states.last().total_stake_shares as int,
            );
        }
    }
}

impl Contract {
    /// Shares worth `amount`, rounded down.
    pub fn num_shares_from_staked_amount_rounded_down(&self, amount: u128) -> (r: Option<u128>)
        ensures
            r == converted(
                mul_div_down(self.total_stake_shares as int, amount as int, self.total_staked_balance as int),
                self.total_staked_balance as int,
            ),
    {
        if self.total_staked_balance == 0 {
            return None;
        }
        mul_div_floor(self.total_stake_shares, amount, self.total_staked_balance)
    }

    /// Shares worth `amount`, rounded up.
    pub fn num_shares_from_staked_amount_rounded_up(&self, amount: u128) -> (r: Option<u128>)
        ensures
            r == converted(
                mul_div_up(self.total_stake_shares as int, amount as int, self.total_staked_balance as int),
                self.total_staked_balance as int,
            ),
    {
        if self.total_staked_balance == 0 {
            return None;
        }
        mul_div_ceil(self.total_stake_shares, amount, self.total_staked_balance)
    }

    /// The staked amount that `num_shares` are worth, rounded down.
    pub fn staked_amount_from_num_shares_rounded_down(&self, num_shares: u128) -> (r: Option<u128>)
        ensures
            r == converted(
                mul_div_down(self.total_staked_balance as int, num_shares as int, self.total_stake_shares as int),
                self.total_stake_shares as int,
            ),
    {
        if self.total_stake_shares == 0 {
            return None;
        }
        mul_div_floor(self.total_staked_balance, num_shares, self.total_stake_shares)
    }

    /// The staked amount that `num_shares` are worth, rounded up.
    pub fn staked_amount_from_num_shares_rounded_up(&self, num_shares: u128) -> (r: Option<u128>)
        ensures
            r == converted(
                mul_div_up(self.total_staked_balance as int, num_shares as int, self.total_stake_shares as int),
                self.total_stake_shares as int,
            ),
    {
        if self.total_stake_shares == 0 {
            return None;
        }
        mul_div_ceil(self.total_staked_balance, num_shares, self.total_stake_shares)
    }

    /// Stakes `amount` of the caller's unstaked VEX and returns the shares
    /// received. The share price does not fall.
    pub fn stake(&mut self, caller: &AccountId, amount: u128, now: u64) -> (r: Result<
        u128,
        ContractError,
    >)
        requires
            old(self).wf(),
        ensures
            final(self).wf(),
            stake_outcome(*old(self), *final(self), caller@, amount, now, r),
            r is Ok ==> price_not_lower(
                old(self).total_staked_balance as int,
                old(self).total_stake_shares as int,
                final(self).total_staked_balance as int,
                final(self).total_stake_shares as int,
            ),
    {
        let i = match find_key(&self.users_stake, caller) {
            Some(i) => i,
            None => return Err(ContractError::NotFound),
        };
        let n = match self.num_shares_from_staked_amount_rounded_down(amount) {
            Some(n) => n,
            None => return Err(ContractError::InvariantViolation),
        };
        if n == 0 {
            return Err(ContractError::InvariantViolation);
        }
        proof {
            if self.total_stake_shares > 0 {
                let bn = self.total_staked_balance * n;
                vstd::arithmetic::div_mod::lemma_div_is_ordered(
                    bn,
                    bn + self.total_stake_shares - 1,
                    self.total_stake_shares as int,
                );
            }
        }
        let worth = match self.staked_amount_from_num_shares_rounded_down(n) {
            Some(v) => v,
            None => return Err(ContractError::InvariantViolation),
        };
        if worth == 0 {
            return Err(ContractError::InvariantViolation);
        }
        let charge = match self.staked_amount_from_num_shares_rounded_up(n) {
            Some(c) => c,
            None => return Err(ContractError::InvariantViolation),
        };
        let a = self.users_stake[i].1;
        proof {
            lemma_shares_sum_entry(self.users_stake@, i as int);
            lemma_part_of_balance(
                self.total_staked_balance as int,
                self.total_stake_shares as int,
                a.stake_shares as int,
            );
        }
        let held = match self.staked_amount_from_num_shares_rounded_down(a.stake_shares) {
            Some(v) => v,
            None => return Err(ContractError::InvariantViolation),
        };
        if amount < FIFTY_VEX && held < FIFTY_VEX - amount {
            return Err(ContractError::InsufficientBalance);
        }
        if a.unstaked_balance < charge {
            return Err(ContractError::InsufficientBalance);
        }
        if a.stake_shares > u128::MAX - n || self.total_staked_balance > u128::MAX - charge
            || self.total_stake_shares > u128::MAX - n || now > u64::MAX
            - self.unstake_time_buffer {
            return Err(ContractError::InvariantViolation);
        }
        proof {
            lemma_stake_keeps_price(
                self.total_staked_balance as int,
                self.total_stake_shares as int,
                n as int,
            );
        }
        self.users_stake[i].1 = UserStake {
            stake_shares: a.stake_shares + n,
            unstaked_balance: a.unstaked_balance - charge,
            unstake_timestamp: now + self.unstake_time_buffer,
        };
        self.total_staked_balance = self.total_staked_balance + charge;
        self.total_stake_shares = self.total_stake_shares + n;
        proof {
            assert(self.users_stake@ =~= old(self).users_stake@.update(
                i as int,
                (old(self).users_stake@[i as int].0, self.users_stake@[i as int].1),
            ));
            lemma_shares_sum_update(
                old(self).users_stake@,
                i as int,
                (old(self).users_stake@[i as int].0, self.users_stake@[i as int].1),
            );
        }
        Ok(n)
    }

    /// Unstakes `amount` of the caller's staked VEX into their unstaked
    /// balance, once the lockup has passed, and returns what was credited.
    /// The share price does not fall.
    pub fn unstake(&mut self, caller: &AccountId, amount: u128, now: u64) -> (r: Result<
        u128,
        ContractError,
    >)
        requires
            old(self).wf(),
        ensures
            final(self).wf(),
            unstake_outcome(*old(self), *final(self), caller@, amount, now, r),
            r is Ok ==> price_not_lower(
                old(self).total_staked_balance as int,
                old(self).total_stake_shares as int,
                final(self).total_staked_balance as int,
                final(self).total_stake_shares as int,
            ),
    {
        if amount == 0 {
            return Err(ContractError::InsufficientBalance);
        }
        let i = match find_key(&self.users_stake, caller) {
            Some(i) => i,
            None => return Err(ContractError::NotFound),
        };
        let a = self.users_stake[i].1;
        if now < a.unstake_timestamp {
            return Err(ContractError::InvalidState);
        }
        let n = match self.num_shares_from_staked_amount_rounded_up(amount) {
            Some(n) => n,
            None => return Err(ContractError::InvariantViolation),
        };
        if n == 0 {
            return Err(ContractError::InvariantViolation);
        }
        if a.stake_shares < n {
            return Err(ContractError::InsufficientBalance);
        }
        proof {
            lemma_shares_sum_entry(self.users_stake@, i as int);
        }
        let receive = match self.staked_amount_from_num_shares_rounded_up(n) {
            Some(v) => v,
            None => return Err(ContractError::InvariantViolation),
        };
        if receive == 0 || a.unstaked_balance > u128::MAX - receive {
            return Err(ContractError::InvariantViolation);
        }
        proof {
            lemma_part_of_balance(
                self.total_staked_balance as int,
                self.total_stake_shares as int,
                n as int,
            );
            lemma_unstake_keeps_price(
                self.total_staked_balance as int,
                self.total_stake_shares as int,
                n as int,
            );
        }
        let debit = match self.staked_amount_from_num_shares_rounded_down(n) {
            Some(v) => v,
            None => return Err(ContractError::InvariantViolation),
        };
        self.users_stake[i].1 = UserStake {
            stake_shares: a.stake_shares - n,
            unstaked_balance: a.unstaked_balance + receive,
            unstake_timestamp: a.unstake_timestamp,
        };
        self.total_staked_balance = self.total_staked_balance - debit;
        self.total_stake_shares = self.total_stake_shares - n;
        proof {
            assert(self.users_stake@ =~= old(self).users_stake@.update(
                i as int,
                (old(self).users_stake@[i as int].0, self.users_stake@[i as int].1),
            ));
            lemma_shares_sum_update(
                old(self).users_stake@,
                i as int,
                (old(self).users_stake@[i as int].0, self.users_stake@[i as int].1),
            );
        }
        Ok(receive)
    }

    /// Unstakes what all of the caller's shares are worth, rounded down.
    pub fn unstake_all(&mut self, caller: &AccountId, now: u64) -> (r: Result<u128, ContractError>)
        requires
            old(self).wf(),
        ensures
            final(self).wf(),
            lacks_key(old(self).users_stake@, caller@) ==> r == Err::<u128, ContractError>(
                ContractError::NotFound,
            ) && *final(self) == *old(self),
            !lacks_key(old(self).users_stake@, caller@) && old(self).total_stake_shares == 0 ==> r
                == Err::<u128, ContractError>(
                ContractError::InvariantViolation,
            ) && *final(self) == *old(self),
            forall|i: int|
                is_first_key(old(self).users_stake@, caller@, i) && old(self).total_stake_shares
                    > 0 ==> {
                    let amount = mul_div_down(
                        old(self).total_staked_balance as int,
                        old(self).users_stake@[i].1.stake_shares as int,
                        old(self).total_stake_shares as int,
                    );
                    if amount > u128::MAX {
                        r == Err::<u128, ContractError>(ContractError::InvariantViolation)
                            && *final(self) == *old(self)
                    } else {
                        unstake_outcome(*old(self), *final(self), caller@, amount as u128, now, r)
                    }
                },
    {
        let i = match find_key(&self.users_stake, caller) {
            Some(i) => i,
            None => return Err(ContractError::NotFound),
        };
        let amount = match self.staked_amount_from_num_shares_rounded_down(
            self.users_stake[i].1.stake_shares,
        ) {
            Some(v) => v,
            None => return Err(ContractError::InvariantViolation),
        };
        self.unstake(caller, amount, now)
    }

    /// Credits `amount` of VEX, forwarded by `token`, to the sender's
    /// unstaked balance, opening a stake account where there is none.
    pub fn deposit(&mut self, token: &AccountId, sender_id: AccountId, amount: u128) -> (r: Result<
        (),
        ContractError,
    >)
        requires
            old(self).wf(),
        ensures
            final(self).wf(),
            token@ != old(self).vex_token_contract@ ==> r == Err::<(), ContractError>(
                ContractError::PermissionDenied,
            ),
            r is Err ==> *final(self) == *old(self),
            token@ == old(self).vex_token_contract@ && lacks_key(
                old(self).users_stake@,
                sender_id@,
            ) ==> r is Ok && final(self).users_stake@ == old(self).users_stake@.push(
                (sender_id, UserStake { stake_shares: 0, unstaked_balance: amount, unstake_timestamp: 0 }),
            ) && *final(self) == (Contract { users_stake: final(self).users_stake, ..*old(self) }),
            forall|i: int|
                is_first_key(old(self).users_stake@, sender_id@, i) && token@ == old(
                    self,
                ).vex_token_contract@ ==> {
                    let a = old(self).users_stake@[i].1;
                    if a.unstaked_balance + amount > u128::MAX {
                        r == Err::<(), ContractError>(ContractError::InvariantViolation)
                    } else {
                        &&& r is Ok
                        &&& final(self).users_stake@ == old(self).users_stake@.update(
                            i,
                            (
                                old(self).users_stake@[i].0,
                                UserStake { unstaked_balance: (a.unstaked_balance + amount) as u128, ..a },
                            ),
                        )
                        &&& *final(self) == (Contract {
                            users_stake: final(self).users_stake,
                            ..*old(self)
                        })
                    }
                },
    {
        if !self.vex_token_contract.eq(token) {
            return Err(ContractError::PermissionDenied);
        }
        match find_key(&self.users_stake, &sender_id) {
            Some(i) => {
                let a = self.users_stake[i].1;
                if a.unstaked_balance > u128::MAX - amount {
                    return Err(ContractError::InvariantViolation);
                }
                self.users_stake[i].1 = UserStake {
                    unstaked_balance: a.unstaked_balance + amount,
                    ..a
                };
                proof {
                    assert(self.users_stake@ =~= old(self).users_stake@.update(
                        i as int,
                        (old(self).users_stake@[i as int].0, self.users_stake@[i as int].1),
                    ));
                    lemma_shares_sum_update(
                        old(self).users_stake@,
                        i as int,
                        (old(self).users_stake@[i as int].0, self.users_stake@[i as int].1),
                    );
                }
            },
            None => {
                let fresh = UserStake::default();
                self.users_stake.push(
                    (sender_id, UserStake { unstaked_balance: amount, ..fresh }),
                );
                proof {
                    assert(self.users_stake@.drop_last() =~= old(self).users_stake@);
                }
            },
        }
        Ok(())
    }

    /// Withdraws `amount` of the caller's unstaked VEX, to be sent to them.
    /// What stays must be at least fifty VEX unless nothing stays; an account
    /// left with neither shares nor unstaked VEX is closed.
    pub fn withdraw(&mut self, caller: &AccountId, amount: u128) -> (r: Result<
        u128,
        ContractError,
    >)
        requires
            old(self).wf(),
        ensures
            final(self).wf(),
            amount == 0 ==> r == Err::<u128, ContractError>(ContractError::InsufficientBalance),
            amount > 0 && lacks_key(old(self).users_stake@, caller@) ==> r == Err::<
                u128,
                ContractError,
            >(ContractError::NotFound),
            r is Err ==> *final(self) == *old(self),
            forall|i: int|
                is_first_key(old(self).users_stake@, caller@, i) && amount > 0 ==> {
                    let a = old(self).users_stake@[i].1;
                    let rest = a.unstaked_balance - amount;
                    if rest < 0 || (0 < rest < FIFTY_VEX) {
                        r == Err::<u128, ContractError>(ContractError::InsufficientBalance)
                    } else {
                        &&& r == Ok::<u128, ContractError>(amount)
                        &&& final(self).users_stake@ == if rest == 0 && a.stake_shares == 0 {
                            old(self).users_stake@.remove(i)
                        } else {
                            old(self).users_stake@.update(
                                i,
                                (
                                    old(self).users_stake@[i].0,
                                    UserStake { unstaked_balance: rest as u128, ..a },
                                ),
                            )
                        }
                        &&& *final(self) == (Contract {
                            users_stake: final(self).users_stake,
                            ..*old(self)
                        })
                    }
                },
    {
        if amount == 0 {
            return Err(ContractError::InsufficientBalance);
        }
        let i = match find_key(&self.users_stake, caller) {
            Some(i) => i,
            None => return Err(ContractError::NotFound),
        };
        let a = self.users_stake[i].1;
        if a.unstaked_balance < amount {
            return Err(ContractError::InsufficientBalance);
        }
        let rest = a.unstaked_balance - amount;
        if rest > 0 && rest < FIFTY_VEX {
            return Err(ContractError::InsufficientBalance);
        }
        if rest == 0 && a.stake_shares == 0 {
            self.users_stake.remove(i);
            proof {
                lemma_shares_sum_remove(old(self).users_stake@, i as int);
            }
        } else {
            self.users_stake[i].1 = UserStake { unstaked_balance: rest, ..a };
            proof {
                assert(self.users_stake@ =~= old(self).users_stake@.update(
                    i as int,
                    (old(self).users_stake@[i as int].0, self.users_stake@[i as int].1),
                ));
                lemma_shares_sum_update(
                    old(self).users_stake@,
                    i as int,
                    (old(self).users_stake@[i as int].0, self.users_stake@[i as int].1),
                );
            }
        }
        Ok(amount)
    }

    /// Withdraws all of the caller's unstaked VEX.
    pub fn withdraw_all(&mut self, caller: &AccountId) -> (r: Result<u128, ContractError>)
        requires
            old(self).wf(),
        ensures
            final(self).wf(),
            lacks_key(old(self).users_stake@, caller@) ==> r == Err::<u128, ContractError>(
                ContractError::NotFound,
            ) && *final(self) == *old(self),
            forall|i: int|
                is_first_key(old(self).users_stake@, caller@, i) ==> {
                    let a = old(self).users_stake@[i].1;
                    if a.unstaked_balance == 0 {
                        r == Err::<u128, ContractError>(ContractError::InsufficientBalance)
                            && *final(self) == *old(self)
                    } else {
                        &&& r == Ok::<u128, ContractError>(a.unstaked_balance)
                        &&& final(self).users_stake@ == if a.stake_shares == 0 {
                            old(self).users_stake@.remove(i)
                        } else {
                            old(self).users_stake@.update(
                                i,
                                (
                                    old(self).users_stake@[i].0,
                                    UserStake { unstaked_balance: 0, ..a },
                                ),
                            )
                        }
                        &&& *final(self) == (Contract {
                            users_stake: final(self).users_stake,
                            ..*old(self)
                        })
                    }
                },
    {
        let i = match find_key(&self.users_stake, caller) {
            Some(i) => i,
            None => return Err(ContractError::NotFound),
        };
        let amount = self.users_stake[i].1.unstaked_balance;
        self.withdraw(caller, amount)
    }

    /// What the caller's shares are worth now, rounded down; `None` for an
    /// account without a stake record.
    pub fn get_user_staked_bal(&self, account_id: &AccountId) -> (r: Option<u128>)
        ensures
            lacks_key(self.users_stake@, account_id@) ==> r is None,
            forall|i: int|
                is_first_key(self.users_stake@, account_id@, i) ==> r == converted(
                    mul_div_down(
                        self.total_staked_balance as int,
                        self.users_stake@[i].1.stake_shares as int,
                        self.total_stake_shares as int,
                    ),
                    self.total_stake_shares as int,
                ),
    {
        match find_key(&self.users_stake, account_id) {
            Some(i) => self.staked_amount_from_num_shares_rounded_down(
                self.users_stake[i].1.stake_shares,
            ),
            None => None,
        }
    }
}

} // verus!
