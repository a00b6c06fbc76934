//! Placing bets and claiming their winnings or refunds.

use crate::contract::{find_key, is_first_key, lacks_key, lemma_first_key_exists, Contract};
use crate::types::{
    AccountId, Bet, BetId, ContractError, Match, MatchId, MatchState, PayState, Team, ONE_USDC,
};
use vstd::prelude::*;

verus! {

/// What a successful claim owes the bettor, to be sent by a token transfer.
#[derive(PartialEq, Eq, Structural, Clone, Copy, Debug)]
pub enum Payout {
    /// The potential winnings of a bet on the winner of a finished match.
    Winnings(u128),
    /// The stake of a bet on a cancelled match.
    Refund(u128),
}

/// The match after a bet of `amount` on `team` with `potential_winnings`.
pub open spec fn with_bet(m: Match, team: Team, amount: u128, potential_winnings: u128) -> Match {
    match team {
        Team::Team1 => Match {
            team_1_total_bets: (m.team_1_total_bets + amount) as u128,
            team_1_potential_winnings: (m.team_1_potential_winnings + potential_winnings) as u128,
            ..m
        },
        Team::Team2 => Match {
            team_2_total_bets: (m.team_2_total_bets + amount) as u128,
            team_2_potential_winnings: (m.team_2_potential_winnings + potential_winnings) as u128,
            ..m
        },
    }
}

/// Whether a bet would take one of the match's amounts, or the bet count,
/// beyond what the contract can hold.
pub open spec fn bet_overflows(
    m: Match,
    team: Team,
    amount: u128,
    potential_winnings: u128,
    last_bet_id: u64,
) -> bool {
    ||| m.real_bets() + amount > u128::MAX
    ||| last_bet_id == u64::MAX
    ||| match team {
        Team::Team1 => m.team_1_total_bets + amount > u128::MAX || m.team_1_potential_winnings
            + potential_winnings > u128::MAX,
        Team::Team2 => m.team_2_total_bets + amount > u128::MAX || m.team_2_potential_winnings
            + potential_winnings > u128::MAX,
    }
}

/// Whether `bettor` placed the bet numbered `bet_id`.
pub open spec fn owns_bet(c: Contract, bettor: Seq<char>, bet_id: BetId) -> bool {
    1 <= bet_id <= c.bets@.len() && c.bets@[bet_id - 1].0@ == bettor
}

/// What claiming a bet does. The bettor's unpaid bet on a finished match
/// that their team won is marked Paid and owes its potential winnings; one
/// on a cancelled match is marked RefundPaid and owes its stake. Every other
/// claim fails and changes nothing.
pub open spec fn claim_outcome(
    before: Contract,
    after: Contract,
    bettor: Seq<char>,
    bet_id: BetId,
    r: Result<Payout, ContractError>,
) -> bool {
    if !owns_bet(before, bettor, bet_id) {
        r == Err::<Payout, ContractError>(ContractError::NotFound) && after == before
    } else {
        let b = before.bets@[bet_id - 1].1;
        if b.pay_state is Some {
            r == Err::<Payout, ContractError>(ContractError::InvalidState) && after == before
        } else if lacks_key(before.matches@, b.match_id@) {
            r == Err::<Payout, ContractError>(ContractError::NotFound) && after == before
        } else {
            forall|i: int|
                is_first_key(before.matches@, b.match_id@, i) ==> {
                    let m = before.matches@[i].1;
                    if m.match_state == MatchState::Finished && m.winner == Some(b.team) {
                        paid(before, after, bet_id, PayState::Paid) && r == Ok::<
                            Payout,
                            ContractError,
                        >(Payout::Winnings(b.potential_winnings))
                    } else if m.match_state == MatchState::Error {
                        paid(before, after, bet_id, PayState::RefundPaid) && r == Ok::<
                            Payout,
                            ContractError,
                        >(Payout::Refund(b.bet_amount))
                    } else {
                        r == Err::<Payout, ContractError>(ContractError::InvalidState) && after
                            == before
                    }
                }
        }
    }
}

/// `after` is `before` with the pay state of bet `bet_id` set to `state`.
pub open spec fn paid(before: Contract, after: Contract, bet_id: BetId, state: PayState) -> bool {
    &&& after.bets@ == before.bets@.update(
        bet_id - 1,
        (
            before.bets@[bet_id - 1].0,
            Bet { pay_state: Some(state), ..before.bets@[bet_id - 1].1 },
        ),
    )
    &&& after == (Contract { bets: after.bets, ..before })
}

/// A bet is paid at most once: after a successful claim, a second claim of
/// the same bet fails and changes nothing.
pub proof fn lemma_second_claim_fails(
    c0: Contract,
    c1: Contract,
    c2: Contract,
    bettor: Seq<char>,
    bet_id: BetId,
    r1: Result<Payout, ContractError>,
    r2: Result<Payout, ContractError>,
)
    requires
        claim_outcome(c0, c1, bettor, bet_id, r1),
        r1 is Ok,
        claim_outcome(c1, c2, bettor, bet_id, r2),
    ensures
        r2 == Err::<Payout, ContractError>(ContractError::InvalidState),
        c2 == c1,
{
    let b = c0.bets@[bet_id - 1].1;
    lemma_first_key_exists(c0.matches@, b.match_id@);
    let i = choose|i: int| is_first_key(c0.matches@, b.match_id@, i);
    assert(is_first_key(c0.matches@, b.match_id@, i));
    assert(c1.bets@[bet_id - 1].1.pay_state is Some);
}

impl Contract {
    /// Places a bet of `amount` USDC, forwarded by `token`, from `sender_id`
    /// on `team` in a Future match, with the potential winnings priced for
    /// the match's current pools. Returns the new bet's id.
    pub fn bet(
        &mut self,
        token: &AccountId,
        sender_id: AccountId,
        amount: u128,
        match_id: &MatchId,
        team: Team,
        potential_winnings: u128,
    ) -> (r: Result<BetId, ContractError>)
        requires
            old(self).wf(),
        ensures
            final(self).wf(),
            token@ != old(self).usdc_token_contract@ ==> r == Err::<BetId, ContractError>(
                ContractError::PermissionDenied,
            ),
            token@ == old(self).usdc_token_contract@ && amount < ONE_USDC ==> r == Err::<
                BetId,
                ContractError,
            >(ContractError::InsufficientBalance),
            token@ == old(self).usdc_token_contract@ && amount >= ONE_USDC && lacks_key(
                old(self).matches@,
                match_id@,
            ) ==> r == Err::<BetId, ContractError>(ContractError::NotFound),
            r is Err ==> *final(self) == *old(self),
            forall|i: int|
                is_first_key(old(self).matches@, match_id@, i) && token@ == old(
                    self,
                ).usdc_token_contract@ && amount >= ONE_USDC ==> {
                    let m = old(self).matches@[i].1;
                    if m.match_state != MatchState::Future {
                        r == Err::<BetId, ContractError>(ContractError::InvalidState)
                    } else if bet_overflows(
                        m,
                        team,
                        amount,
                        potential_winnings,
                        old(self).last_bet_id,
                    ) {
                        r == Err::<BetId, ContractError>(ContractError::InvariantViolation)
                    } else {
                        &&& r == Ok::<BetId, ContractError>((old(self).last_bet_id + 1) as u64)
                        &&& final(self).matches@ == old(self).matches@.update(
                            i,
                            (
                                old(self).matches@[i].0,
                                with_bet(m, team, amount, potential_winnings),
                            ),
                        )
                        &&& final(self).bets@.len() == old(self).bets@.len() + 1
                        &&& final(self).bets@.drop_last() == old(self).bets@
                        &&& final(self).bets@.last().0 == sender_id
                        &&& final(self).bets@.last().1.match_id@ == match_id@
                        &&& final(self).bets@.last().1.team == team
                        &&& final(self).bets@.last().1.bet_amount == amount
                        &&& final(self).bets@.last().1.potential_winnings == potential_winnings
                        &&& final(self).bets@.last().1.pay_state is None
                        &&& *final(self) == (Contract {
                            matches: final(self).matches,
                            bets: final(self).bets,
                            last_bet_id: (old(self).last_bet_id + 1) as u64,
                            ..*old(self)
                        })
                    }
                },
    {
        if !self.usdc_token_contract.eq(token) {
            return Err(ContractError::PermissionDenied);
        }
        if amount < ONE_USDC {
            return Err(ContractError::InsufficientBalance);
        }
        let i = match find_key(&self.matches, match_id) {
            Some(i) => i,
            None => return Err(ContractError::NotFound),
        };
        let m = &self.matches[i].1;
        if m.match_state != MatchState::Future {
            return Err(ContractError::InvalidState);
        }
        let collected = (m.team_1_total_bets - m.team_1_initial_pool) + (m.team_2_total_bets
            - m.team_2_initial_pool);
        if amount > u128::MAX - collected || self.last_bet_id == u64::MAX {
            return Err(ContractError::InvariantViolation);
        }
        let (total, owed) = match team {
            Team::Team1 => (m.team_1_total_bets, m.team_1_potential_winnings),
            Team::Team2 => (m.team_2_total_bets, m.team_2_potential_winnings),
        };
        if amount > u128::MAX - total || potential_winnings > u128::MAX - owed {
            return Err(ContractError::InvariantViolation);
        }
        match team {
            Team::Team1 => {
                self.matches[i].1.team_1_total_bets = total + amount;
                self.matches[i].1.team_1_potential_winnings = owed + potential_winnings;
            },
            Team::Team2 => {
                self.matches[i].1.team_2_total_bets = total + amount;
                self.matches[i].1.team_2_potential_winnings = owed + potential_winnings;
            },
        }
        let new_bet = Bet {
            match_id: match_id.clone(),
            team,
            bet_amount: amount,
            potential_winnings,
            pay_state: None,
        };
        self.bets.push((sender_id, new_bet));
        self.last_bet_id = self.last_bet_id + 1;
        proof {
            let m0 = old(self).matches@[i as int].1;
            assert(self.matches@ =~= old(self).matches@.update(
                i as int,
                (old(self).matches@[i as int].0, with_bet(m0, team, amount, potential_winnings)),
            ));
            assert(self.bets@.drop_last() =~= old(self).bets@);
            assert forall|j: int| 0 <= j < self.matches@.len() implies (
            #[trigger] self.matches@[j]).1.wf() by {
                if j != i {
                    assert(self.matches@[j] == old(self).matches@[j]);
                }
            }
        }
        Ok(self.last_bet_id)
    }

    /// Claims the winnings or the refund of the caller's bet `bet_id`. The
    /// bet is marked paid before the transfer is made; a failed transfer is
    /// undone by `claim_callback`.
    pub fn claim(&mut self, caller: &AccountId, bet_id: BetId) -> (r: Result<
        Payout,
        ContractError,
    >)
        requires
            old(self).wf(),
        ensures
            final(self).wf(),
            claim_outcome(*old(self), *final(self), caller@, bet_id, r),
    {
        if bet_id == 0 || bet_id > self.last_bet_id {
            return Err(ContractError::NotFound);
        }
        let n = self.bets.len();
        assert(bet_id - 1 < n);
        let k = (bet_id - 1) as usize;
        if !self.bets[k].0.eq(caller) {
            return Err(ContractError::NotFound);
        }
        if self.bets[k].1.pay_state.is_some() {
            return Err(ContractError::InvalidState);
        }
        let i = match find_key(&self.matches, &self.bets[k].1.match_id) {
            Some(i) => i,
            None => return Err(ContractError::NotFound),
        };
        let state = self.matches[i].1.match_state;
        let winner = self.matches[i].1.winner;
        let team = self.bets[k].1.team;
        let payout = match state {
            MatchState::Finished => {
                if winner != Some(team) {
                    return Err(ContractError::InvalidState);
                }
                self.bets[k].1.pay_state = Some(PayState::Paid);
                Payout::Winnings(self.bets[k].1.potential_winnings)
            },
            MatchState::Error => {
                self.bets[k].1.pay_state = Some(PayState::RefundPaid);
                Payout::Refund(self.bets[k].1.bet_amount)
            },
            MatchState::Future | MatchState::Current => {
                return Err(ContractError::InvalidState);
            },
        };
        proof {
            let b0 = old(self).bets@[k as int];
            assert(self.bets@ =~= old(self).bets@.update(
                k as int,
                (b0.0, Bet { pay_state: self.bets@[k as int].1.pay_state, ..b0.1 }),
            ));
        }
        Ok(payout)
    }

    /// Finishes a claim once its transfer is done: a failed transfer puts the
    /// bet back to unpaid, so that it can be claimed again.
    pub fn claim_callback(&mut self, bettor: &AccountId, bet_id: BetId, transfer_succeeded: bool) -> (r:
        Result<(), ContractError>)
        requires
            old(self).wf(),
        ensures
            final(self).wf(),
            transfer_succeeded ==> r is Ok && *final(self) == *old(self),
            !transfer_succeeded && !owns_bet(*old(self), bettor@, bet_id) ==> r == Err::<
                (),
                ContractError,
            >(ContractError::NotFound) && *final(self) == *old(self),
            !transfer_succeeded && owns_bet(*old(self), bettor@, bet_id) ==> {
                &&& r is Ok
                &&& final(self).bets@ == old(self).bets@.update(
                    bet_id - 1,
                    (
                        old(self).bets@[bet_id - 1].0,
                        Bet { pay_state: None, ..old(self).bets@[bet_id - 1].1 },
                    ),
                )
                &&& *final(self) == (Contract { bets: final(self).bets, ..*old(self) })
            },
    {
        if transfer_succeeded {
            return Ok(());
        }
        if bet_id == 0 || bet_id > self.last_bet_id {
            return Err(ContractError::NotFound);
        }
        let n = self.bets.len();
        assert(bet_id - 1 < n);
        let k = (bet_id - 1) as usize;
        if !self.bets[k].0.eq(bettor) {
            return Err(ContractError::NotFound);
        }
        self.bets[k].1.pay_state = None;
        proof {
            let b0 = old(self).bets@[k as int];
            assert(self.bets@ =~= old(self).bets@.update(
                k as int,
                (b0.0, Bet { pay_state: None, ..b0.1 }),
            ));
        }
        Ok(())
    }
}

} // verus!
