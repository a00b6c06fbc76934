//! Settling a finished match: a profit is split between stakers, treasury,
//! insurance and fees; a loss is taken from the insurance fund, and what it
//! cannot cover is raised by selling staked VEX in a saga of outside steps.

use crate::contract::{find_key, is_first_key, lacks_key, Contract};
use crate::lifecycle::{finished_from, settlement_of, transition, LifecycleAction, Settlement};
use crate::fixed_point::{mul_div_down, mul_div_floor};
use crate::types::{AccountId, ContractError, MatchId, MatchState, Team};
use crate::vesting::{reward_refused, swap_outcome, StakeSwap};
use vstd::prelude::*;

verus! {

/// What finishing a match leads to, for the caller to carry out.
#[derive(PartialEq, Eq, Structural, Clone, Copy, Debug)]
pub enum SettlementAction {
    /// Nothing is owed either way.
    Even,
    /// The profit was split; the treasury transfer and swap are to be made.
    Profit(ProfitSettlement),
    /// The loss was covered, or its saga is to be carried on.
    Loss(LossSaga),
}

/// What settling a finished match does, from `before` (the match already
/// finished) to `after`, with the action `r`.
pub open spec fn settled(
    before: Contract,
    after: Contract,
    settlement: Settlement,
    now: u64,
    r: SettlementAction,
) -> bool {
    match settlement {
        Settlement::Even => r == SettlementAction::Even && after == before,
        Settlement::Profit(p) => r matches SettlementAction::Profit(ps) && profit_outcome(
            before,
            after,
            p,
            now,
            Ok(ps),
        ),
        Settlement::Loss(l) => r matches SettlementAction::Loss(saga) && loss_outcome(
            before,
            after,
            l,
            saga,
        ),
    }
}

/// Whether settling a profit from `before` fails with `e`, changing nothing.
pub open spec fn profit_refused(before: Contract, settlement: Settlement, now: u64, e: ContractError) -> bool {
    match settlement {
        Settlement::Profit(p) => profit_outcome(before, before, p, now, Err(e)),
        _ => false,
    }
}

/// What the profit of a match leads to.
#[derive(PartialEq, Eq, Structural, Clone, Copy, Debug)]
pub struct ProfitSettlement {
    /// USDC to transfer to the treasury.
    pub treasury_transfer: u128,
    /// The swap of vested rewards to make, if any.
    pub swap: Option<StakeSwap>,
}

/// Where the loss saga stands, and so what the caller is to do next.
#[derive(PartialEq, Eq, Structural, Clone, Copy, Debug)]
pub enum LossSaga {
    /// Nothing more is owed.
    Settled,
    /// Ask the pool how much VEX sells for `shortfall` USDC.
    AwaitingQuote { shortfall: u128 },
    /// Deposit `amount` VEX into the pool.
    AwaitingDeposit { shortfall: u128, amount: u128 },
    /// Swap the `amount` VEX deposited for USDC.
    AwaitingSwap { shortfall: u128, amount: u128 },
    /// Withdraw the `amount` USDC that the swap gave.
    AwaitingWithdraw { shortfall: u128, amount: u128 },
    /// The quote failed before any change; the admin may start the saga
    /// again for `shortfall`.
    RolledBack { shortfall: u128 },
    /// A step failed after the staked balance was committed; `outstanding`
    /// USDC was added to the funds still to be added, for an operator.
    Degraded { outstanding: u128 },
}

/// The stakers' share of a profit: sixty percent, rounded down.
pub open spec fn staking_share(profit: int) -> int {
    mul_div_down(60, profit, 100)
}

/// The treasury's share of a profit: thirty percent, rounded down.
pub open spec fn treasury_share(profit: int) -> int {
    mul_div_down(30, profit, 100)
}

/// The insurance fund's share of a profit: five percent, rounded down.
pub open spec fn insurance_share(profit: int) -> int {
    mul_div_down(5, profit, 100)
}

/// The fees' share of a profit: what the other shares leave.
pub open spec fn fees_share(profit: int) -> int {
    profit - staking_share(profit) - treasury_share(profit) - insurance_share(profit)
}

/// The VEX deposited to cover a quote: five percent more, rounded down.
pub open spec fn padded(quote: int) -> int {
    mul_div_down(105, quote, 100)
}

/// `c` with `outstanding` more USDC recorded as still to be added.
pub open spec fn with_outstanding(c: Contract, outstanding: int) -> Contract {
    Contract { funds_to_add: (c.funds_to_add + outstanding) as u128, ..c }
}

/// Whether the fees and insurance funds can take their shares of a profit.
pub open spec fn fits_profit(c: Contract, profit: int) -> bool {
    c.fees_fund + fees_share(profit) <= u128::MAX && c.insurance_fund + insurance_share(profit)
        <= u128::MAX
}

/// `c` with the fees and insurance shares of a profit credited.
pub open spec fn with_profit_funds(c: Contract, profit: int) -> Contract {
    Contract {
        fees_fund: (c.fees_fund + fees_share(profit)) as u128,
        insurance_fund: (c.insurance_fund + insurance_share(profit)) as u128,
        ..c
    }
}

/// The shares of a profit are whole parts of it and add up to it.
pub proof fn lemma_profit_split(profit: int)
    requires
        0 <= profit,
    ensures
        0 <= staking_share(profit),
        0 <= treasury_share(profit),
        0 <= insurance_share(profit),
        0 <= fees_share(profit),
        staking_share(profit) + treasury_share(profit) + insurance_share(profit) + fees_share(
            profit,
        ) == profit,
{
    assert(0 <= staking_share(profit) && 0 <= treasury_share(profit) && 0 <= insurance_share(
        profit,
    ) && staking_share(profit) + treasury_share(profit) + insurance_share(profit) <= profit)
        by (nonlinear_arith)
        requires
            0 <= profit,
    ;
}

/// The record of a saga step that failed after the commitment.
fn degrade(c: &mut Contract, shortfall: u128) -> (r: Result<LossSaga, ContractError>)
    requires
        old(c).wf(),
    ensures
        final(c).wf(),
        old(c).funds_to_add + shortfall > u128::MAX ==> r == Err::<LossSaga, ContractError>(
            ContractError::InvariantViolation,
        ) && *final(c) == *old(c),
        old(c).funds_to_add + shortfall <= u128::MAX ==> r == Ok::<LossSaga, ContractError>(
            LossSaga::Degraded { outstanding: shortfall },
        ) && *final(c) == with_outstanding(*old(c), shortfall as int),
{
    if c.funds_to_add > u128::MAX - shortfall {
        return Err(ContractError::InvariantViolation);
    }
    c.funds_to_add = c.funds_to_add + shortfall;
    Ok(LossSaga::Degraded { outstanding: shortfall })
}

/// What settling `profit` at `now` does. Fees and insurance are credited
/// whatever the swap attempt gives; it fails only where an amount would not
/// fit, and then changes nothing.
pub open spec fn profit_outcome(
    before: Contract,
    after: Contract,
    profit: u128,
    now: u64,
    r: Result<ProfitSettlement, ContractError>,
) -> bool {
    let credited = with_profit_funds(before, profit as int);
    let staking = staking_share(profit as int) as u128;
    &&& r is Err ==> after == before
    &&& r is Err ==> r == Err::<ProfitSettlement, ContractError>(ContractError::InvariantViolation)
    &&& !fits_profit(before, profit as int) ==> r is Err
    &&& fits_profit(before, profit as int) && staking == 0 ==> r == Ok::<
        ProfitSettlement,
        ContractError,
    >(ProfitSettlement { treasury_transfer: treasury_share(profit as int) as u128, swap: None })
        && after == credited
    &&& fits_profit(before, profit as int) && staking > 0 ==> {
        &&& !reward_refused(credited, staking, now) ==> r is Ok
        &&& r matches Ok(p) ==> p.treasury_transfer == treasury_share(profit as int)
            && swap_outcome(credited, after, staking, now, Ok(p.swap))
        &&& r matches Err(e) ==> swap_outcome(credited, credited, staking, now, Err(e))
    }
}

/// What settling `loss` does: the insurance fund pays a loss it covers;
/// otherwise nothing changes and a quote for the shortfall is asked for.
pub open spec fn loss_outcome(before: Contract, after: Contract, loss: u128, r: LossSaga) -> bool {
    if loss <= before.insurance_fund {
        r == LossSaga::Settled && after == (Contract {
            insurance_fund: (before.insurance_fund - loss) as u128,
            ..before
        })
    } else {
        r == (LossSaga::AwaitingQuote { shortfall: (loss - before.insurance_fund) as u128 })
            && after == before
    }
}

impl Contract {
    /// Settles a profit at `now`: fees and insurance are credited, the
    /// stakers' share joins the vesting queue with an immediate swap
    /// attempt, and the treasury's share is returned for transfer. The split
    /// does not depend on the attempt: it fails only where an amount would
    /// not fit.
    pub fn handle_profit(&mut self, profit: u128, now: u64) -> (r: Result<
        ProfitSettlement,
        ContractError,
    >)
        requires
            old(self).wf(),
        ensures
            final(self).wf(),
            profit_outcome(*old(self), *final(self), profit, now, r),
    {
        proof {
            lemma_profit_split(profit as int);
        }
        let staking = match mul_div_floor(60, profit, 100) {
            Some(v) => v,
            None => return Err(ContractError::InvariantViolation),
        };
        let treasury = match mul_div_floor(30, profit, 100) {
            Some(v) => v,
            None => return Err(ContractError::InvariantViolation),
        };
        let insurance = match mul_div_floor(5, profit, 100) {
            Some(v) => v,
            None => return Err(ContractError::InvariantViolation),
        };
        let fees = profit - staking - treasury - insurance;
        if self.fees_fund > u128::MAX - fees || self.insurance_fund > u128::MAX - insurance {
            return Err(ContractError::InvariantViolation);
        }
        let old_fees = self.fees_fund;
        let old_insurance = self.insurance_fund;
        self.fees_fund = old_fees + fees;
        self.insurance_fund = old_insurance + insurance;
        if staking == 0 {
            return Ok(ProfitSettlement { treasury_transfer: treasury, swap: None });
        }
        let ghost credited = *self;
        let s = self.perform_stake_swap_internal(staking, now);
        match s {
            Ok(swap) => Ok(ProfitSettlement { treasury_transfer: treasury, swap }),
            Err(e) => {
                self.fees_fund = old_fees;
                self.insurance_fund = old_insurance;
                proof {
                    assert(swap_outcome(credited, credited, staking, now, s));
                }
                Err(e)
            },
        }
    }

    /// Settles a loss: the insurance fund pays it where it can. Otherwise
    /// nothing changes yet and the saga starts with a quote for the
    /// shortfall; the first change comes with the deposit.
    pub fn handle_loss(&mut self, loss: u128) -> (r: LossSaga)
        requires
            old(self).wf(),
        ensures
            final(self).wf(),
            loss_outcome(*old(self), *final(self), loss, r),
    {
        if loss <= self.insurance_fund {
            self.insurance_fund = self.insurance_fund - loss;
            LossSaga::Settled
        } else {
            LossSaga::AwaitingQuote { shortfall: loss - self.insurance_fund }
        }
    }

    /// The admin starts the saga again for a shortfall whose quote failed.
    pub fn retry_loss(&self, caller: &AccountId, shortfall: u128) -> (r: Result<
        LossSaga,
        ContractError,
    >)
        ensures
            !self.is_admin(caller@) ==> r == Err::<LossSaga, ContractError>(
                ContractError::PermissionDenied,
            ),
            self.is_admin(caller@) ==> r == Ok::<LossSaga, ContractError>(
                LossSaga::AwaitingQuote { shortfall },
            ),
    {
        if !self.admin.eq(caller) {
            return Err(ContractError::PermissionDenied);
        }
        Ok(LossSaga::AwaitingQuote { shortfall })
    }

    /// Continues the saga with the pool's quote of the VEX to sell: a
    /// padded amount is to be deposited. A failed quote, or one too large to
    /// pad, changes nothing; the saga can be started again.
    pub fn ref_loss_view_callback(&self, shortfall: u128, quote: Option<u128>) -> (r: LossSaga)
        ensures
            quote matches Some(q) ==> (padded(q as int) <= u128::MAX ==> r == (
            LossSaga::AwaitingDeposit { shortfall, amount: padded(q as int) as u128 })),
            (quote is None || padded(quote.unwrap() as int) > u128::MAX) ==> r == (
            LossSaga::RolledBack { shortfall }),
    {
        if let Some(q) = quote {
            if let Some(amount) = mul_div_floor(105, q, 100) {
                return LossSaga::AwaitingDeposit { shortfall, amount };
            }
        }
        LossSaga::RolledBack { shortfall }
    }

    /// Continues the saga once the deposit is answered. A successful deposit
    /// is the first change: the insurance fund is spent on the loss and the
    /// deposited VEX leaves the staked balance. A failure is recorded as
    /// outstanding.
    pub fn ref_loss_deposit_callback(&mut self, shortfall: u128, deposited: Option<u128>) -> (r:
        Result<LossSaga, ContractError>)
        requires
            old(self).wf(),
        ensures
            final(self).wf(),
            r is Err ==> *final(self) == *old(self),
            (deposited is None || deposited.unwrap() > old(self).total_staked_balance)
                ==> if old(self).funds_to_add + shortfall > u128::MAX {
                r == Err::<LossSaga, ContractError>(ContractError::InvariantViolation)
            } else {
                r == Ok::<LossSaga, ContractError>(LossSaga::Degraded { outstanding: shortfall })
                    && *final(self) == with_outstanding(*old(self), shortfall as int)
            },
            deposited matches Some(d) ==> d <= old(self).total_staked_balance ==> r == Ok::<
                LossSaga,
                ContractError,
            >(LossSaga::AwaitingSwap { shortfall, amount: d }) && *final(self) == (Contract {
                insurance_fund: 0,
                total_staked_balance: (old(self).total_staked_balance - d) as u128,
                ..*old(self)
            }),
    {
        match deposited {
            Some(d) => {
                if d <= self.total_staked_balance {
                    self.insurance_fund = 0;
                    self.total_staked_balance = self.total_staked_balance - d;
                    Ok(LossSaga::AwaitingSwap { shortfall, amount: d })
                } else {
                    degrade(self, shortfall)
                }
            },
            None => degrade(self, shortfall),
        }
    }

    /// Continues the saga with the USDC that the swap gave, to be withdrawn.
    /// A failure is recorded as outstanding.
    pub fn ref_loss_swap_callback(&mut self, shortfall: u128, swapped: Option<u128>) -> (r: Result<
        LossSaga,
        ContractError,
    >)
        requires
            old(self).wf(),
        ensures
            final(self).wf(),
            r is Err ==> *final(self) == *old(self),
            swapped matches Some(v) ==> r == Ok::<LossSaga, ContractError>(
                LossSaga::AwaitingWithdraw { shortfall, amount: v },
            ) && *final(self) == *old(self),
            swapped is None ==> if old(self).funds_to_add + shortfall > u128::MAX {
                r == Err::<LossSaga, ContractError>(ContractError::InvariantViolation)
            } else {
                r == Ok::<LossSaga, ContractError>(LossSaga::Degraded { outstanding: shortfall })
                    && *final(self) == with_outstanding(*old(self), shortfall as int)
            },
    {
        match swapped {
            Some(v) => Ok(LossSaga::AwaitingWithdraw { shortfall, amount: v }),
            None => degrade(self, shortfall),
        }
    }

    /// Ends the saga with the USDC withdrawn from the pool: what exceeds the
    /// shortfall goes back to the insurance fund, and what falls short of it
    /// is recorded as outstanding, as is a failed withdrawal.
    pub fn ref_loss_withdraw_callback(&mut self, shortfall: u128, withdrawn: Option<u128>) -> (r:
        Result<LossSaga, ContractError>)
        requires
            old(self).wf(),
        ensures
            final(self).wf(),
            r is Err ==> r == Err::<LossSaga, ContractError>(ContractError::InvariantViolation)
                && *final(self) == *old(self),
            withdrawn is None ==> (old(self).funds_to_add + shortfall <= u128::MAX <==> r is Ok),
            withdrawn is None && r is Ok ==> r == Ok::<LossSaga, ContractError>(
                LossSaga::Degraded { outstanding: shortfall },
            ) && *final(self) == with_outstanding(*old(self), shortfall as int),
            withdrawn matches Some(w) ==> if w >= shortfall {
                if old(self).insurance_fund + (w - shortfall) > u128::MAX {
                    r is Err
                } else {
                    r == Ok::<LossSaga, ContractError>(LossSaga::Settled) && *final(self) == (
                    Contract {
                        insurance_fund: (old(self).insurance_fund + (w - shortfall)) as u128,
                        ..*old(self)
                    })
                }
            } else {
                if old(self).funds_to_add + (shortfall - w) > u128::MAX {
                    r is Err
                } else {
                    r == Ok::<LossSaga, ContractError>(
                        LossSaga::Degraded { outstanding: (shortfall - w) as u128 },
                    ) && *final(self) == with_outstanding(*old(self), shortfall - w)
                }
            },
    {
        match withdrawn {
            None => degrade(self, shortfall),
            Some(w) => {
                if w >= shortfall {
                    let excess = w - shortfall;
                    if self.insurance_fund > u128::MAX - excess {
                        return Err(ContractError::InvariantViolation);
                    }
                    self.insurance_fund = self.insurance_fund + excess;
                    Ok(LossSaga::Settled)
                } else {
                    degrade(self, shortfall - w)
                }
            },
        }
    }

    /// Adds USDC, forwarded by `token`: it first pays down what is still to
    /// be added after a loss, and the rest goes to the insurance fund.
    pub fn add_usdc(&mut self, token: &AccountId, amount: u128) -> (r: Result<(), ContractError>)
        requires
            old(self).wf(),
        ensures
            final(self).wf(),
            token@ != old(self).usdc_token_contract@ ==> r == Err::<(), ContractError>(
                ContractError::PermissionDenied,
            ),
            r is Err ==> *final(self) == *old(self),
            token@ == old(self).usdc_token_contract@ ==> if amount < old(self).funds_to_add {
                r is Ok && *final(self) == (Contract {
                    funds_to_add: (old(self).funds_to_add - amount) as u128,
                    ..*old(self)
                })
            } else if old(self).insurance_fund + (amount - old(self).funds_to_add) > u128::MAX {
                r == Err::<(), ContractError>(ContractError::InvariantViolation)
            } else {
                r is Ok && *final(self) == (Contract {
                    funds_to_add: 0,
                    insurance_fund: (old(self).insurance_fund + (amount - old(self).funds_to_add)) as u128,
                    ..*old(self)
                })
            },
    {
        if !self.usdc_token_contract.eq(token) {
            return Err(ContractError::PermissionDenied);
        }
        if amount < self.funds_to_add {
            self.funds_to_add = self.funds_to_add - amount;
            return Ok(());
        }
        let left_over = amount - self.funds_to_add;
        if self.insurance_fund > u128::MAX - left_over {
            return Err(ContractError::InvariantViolation);
        }
        self.funds_to_add = 0;
        self.insurance_fund = self.insurance_fund + left_over;
        Ok(())
    }

    /// Finishes a Current match with `winner` and settles it once, at `now`:
    /// a profit is split, a loss taken from insurance or handed to the saga.
    /// Where the profit cannot be booked, the match stays Current and
    /// nothing changes.
    pub fn finish_and_settle(
        &mut self,
        caller: &AccountId,
        match_id: &MatchId,
        winner: Team,
        now: u64,
    ) -> (r: Result<SettlementAction, ContractError>)
        requires
            old(self).wf(),
        ensures
            final(self).wf(),
            !old(self).is_admin(caller@) ==> r == Err::<SettlementAction, ContractError>(
                ContractError::PermissionDenied,
            ),
            old(self).is_admin(caller@) && lacks_key(old(self).matches@, match_id@) ==> r == Err::<
                SettlementAction,
                ContractError,
            >(ContractError::NotFound),
            r is Err ==> final(self).matches@ == old(self).matches@ && *final(self) == (Contract {
                matches: final(self).matches,
                ..*old(self)
            }),
            forall|i: int|
                is_first_key(old(self).matches@, match_id@, i) && old(self).is_admin(caller@)
                    ==> {
                    let m = old(self).matches@[i].1;
                    let settlement = settlement_of(m, winner);
                    if transition(m.match_state, LifecycleAction::FinishMatch) is None {
                        r == Err::<SettlementAction, ContractError>(ContractError::InvalidState)
                    } else {
                        &&& r matches Ok(action) ==> exists|mid: Contract|
                            #[trigger] finished_from(*old(self), mid, i, winner) && settled(
                                mid,
                                *final(self),
                                settlement,
                                now,
                                action,
                            )
                        &&& r matches Err(e) ==> exists|mid: Contract|
                            #[trigger] finished_from(*old(self), mid, i, winner) && profit_refused(
                                mid,
                                settlement,
                                now,
                                e,
                            )
                    }
                },
    {
        let found = find_key(&self.matches, match_id);
        let old_payout = self.funds_to_payout;
        let settlement = match self.finish_match(caller, match_id, winner) {
            Ok(st) => st,
            Err(e) => return Err(e),
        };
        let i = match found {
            Some(i) => i,
            None => return Err(ContractError::NotFound),
        };
        let ghost mid = *self;
        proof {
            assert(finished_from(*old(self), mid, i as int, winner));
        }
        match settlement {
            Settlement::Even => Ok(SettlementAction::Even),
            Settlement::Profit(p) => match self.handle_profit(p, now) {
                Ok(ps) => Ok(SettlementAction::Profit(ps)),
                Err(e) => {
                    self.matches[i].1.match_state = MatchState::Current;
                    self.matches[i].1.winner = None;
                    self.funds_to_payout = old_payout;
                    proof {
                        assert(self.matches@ =~= old(self).matches@);
                        assert forall|j: int| 0 <= j < self.matches@.len() implies (
                        #[trigger] self.matches@[j]).1.wf() by {
                            assert(self.matches@[j] == old(self).matches@[j]);
                        }
                    }
                    Err(e)
                },
            },
            Settlement::Loss(l) => Ok(SettlementAction::Loss(self.handle_loss(l))),
        }
    }
}

} // verus!
