//! Match creation, the match lifecycle state machine, and the admin's funds.

use crate::contract::{find_key, is_first_key, lacks_key, Contract};
use crate::types::{AccountId, ContractError, Match, MatchId, MatchState, Team};
use vstd::prelude::*;
use vstd::string::StringExecFns;

verus! {

/// The admin actions that move a match along its lifecycle.
#[derive(PartialEq, Eq, Structural, Clone, Copy, Debug)]
pub enum LifecycleAction {
    EndBetting,
    FinishMatch,
    CancelMatch,
}

/// How a finished match settles for the operator.
#[derive(PartialEq, Eq, Structural, Clone, Copy, Debug)]
pub enum Settlement {
    /// The real bets equal what the winners are owed.
    Even,
    /// The real bets exceed what the winners are owed, by this much.
    Profit(u128),
    /// The winners are owed more than the real bets, by this much.
    Loss(u128),
}

/// The state a lifecycle action leads to, or `None` where the action is not
/// allowed from `state`.
pub open spec fn transition(state: MatchState, action: LifecycleAction) -> Option<MatchState> {
    match (state, action) {
        (MatchState::Future, LifecycleAction::EndBetting) => Some(MatchState::Current),
        (MatchState::Current, LifecycleAction::FinishMatch) => Some(MatchState::Finished),
        (MatchState::Future, LifecycleAction::CancelMatch) => Some(MatchState::Error),
        (MatchState::Current, LifecycleAction::CancelMatch) => Some(MatchState::Error),
        (MatchState::Future, LifecycleAction::FinishMatch) => None,
        (MatchState::Current, LifecycleAction::EndBetting) => None,
        (MatchState::Finished, _) => None,
        (MatchState::Error, _) => None,
    }
}

/// The lifecycle's transition table.
pub fn next_state(state: MatchState, action: LifecycleAction) -> (r: Option<MatchState>)
    ensures
        r == transition(state, action),
{
    match (state, action) {
        (MatchState::Future, LifecycleAction::EndBetting) => Some(MatchState::Current),
        (MatchState::Current, LifecycleAction::FinishMatch) => Some(MatchState::Finished),
        (MatchState::Future, LifecycleAction::CancelMatch) => Some(MatchState::Error),
        (MatchState::Current, LifecycleAction::CancelMatch) => Some(MatchState::Error),
        (MatchState::Future, LifecycleAction::FinishMatch) => None,
        (MatchState::Current, LifecycleAction::EndBetting) => None,
        (MatchState::Finished, _) => None,
        (MatchState::Error, _) => None,
    }
}

/// Only three edges are legal: Future to Current by ending betting, Current
/// to Finished by finishing, and Future or Current to Error by cancelling.
/// Every other pair of state and action is refused, so a match only moves
/// forward and never leaves Finished or Error.
pub proof fn lemma_transition_table(state: MatchState, action: LifecycleAction)
    ensures
        transition(state, action) is Some <==> {
            ||| state == MatchState::Future && action == LifecycleAction::EndBetting
            ||| state == MatchState::Current && action == LifecycleAction::FinishMatch
            ||| (state == MatchState::Future || state == MatchState::Current) && action
                == LifecycleAction::CancelMatch
        },
        transition(state, action) matches Some(next) ==> next != MatchState::Future,
        state == MatchState::Finished || state == MatchState::Error ==> transition(
            state,
            action,
        ) is None,
{
}

/// How a match settles if `winner` wins.
pub open spec fn settlement_of(m: Match, winner: Team) -> Settlement {
    let collected = m.real_bets();
    let owed = m.liability(winner);
    if collected > owed {
        Settlement::Profit((collected - owed) as u128)
    } else if collected == owed {
        Settlement::Even
    } else {
        Settlement::Loss((owed - collected) as u128)
    }
}

/// `after` is `before` with its entry `i` finished with `winner`, and what
/// the winners are owed booked.
pub open spec fn finished_from(before: Contract, after: Contract, i: int, winner: Team) -> bool {
    let m = before.matches@[i].1;
    &&& after.matches@ == before.matches@.update(
        i,
        (before.matches@[i].0, Match { match_state: MatchState::Finished, winner: Some(winner), ..m }),
    )
    &&& after == (Contract {
        matches: after.matches,
        funds_to_payout: before.funds_to_payout.saturating_add(m.liability(winner) as u128),
        ..before
    })
}

/// The id of a match between two teams on a date: "team_1-team_2-date".
pub open spec fn match_id_of(team_1: Seq<char>, team_2: Seq<char>, date: Seq<char>) -> Seq<char> {
    team_1 + seq!['-'] + team_2 + seq!['-'] + date
}

/// What a lifecycle action does: the admin's action on an existing match
/// whose state allows it moves that match to the next state and changes
/// nothing else; any other call fails and changes nothing.
pub open spec fn moved_along(
    before: Contract,
    after: Contract,
    caller: Seq<char>,
    match_id: Seq<char>,
    action: LifecycleAction,
    r: Result<(), ContractError>,
) -> bool {
    if !before.is_admin(caller) {
        r == Err::<(), ContractError>(ContractError::PermissionDenied) && after == before
    } else if lacks_key(before.matches@, match_id) {
        r == Err::<(), ContractError>(ContractError::NotFound) && after == before
    } else {
        forall|i: int|
            is_first_key(before.matches@, match_id, i) ==> {
                let m = before.matches@[i].1;
                match transition(m.match_state, action) {
                    None => r == Err::<(), ContractError>(ContractError::InvalidState) && after
                        == before,
                    Some(next) => {
                        &&& r == Ok::<(), ContractError>(())
                        &&& after.matches@ == before.matches@.update(
                            i,
                            (before.matches@[i].0, Match { match_state: next, ..m }),
                        )
                        &&& after == (Contract { matches: after.matches, ..before })
                    },
                }
            }
    }
}

impl Contract {
    /// The index of the match that an admin action addresses.
    fn admin_match_index(&self, caller: &AccountId, match_id: &MatchId) -> (r: Result<
        usize,
        ContractError,
    >)
        ensures
            !self.is_admin(caller@) ==> r == Err::<usize, ContractError>(
                ContractError::PermissionDenied,
            ),
            self.is_admin(caller@) && lacks_key(self.matches@, match_id@) ==> r == Err::<
                usize,
                ContractError,
            >(ContractError::NotFound),
            self.is_admin(caller@) && !lacks_key(self.matches@, match_id@) ==> r is Ok,
            r matches Ok(i) ==> is_first_key(self.matches@, match_id@, i as int),
    {
        if !self.admin.eq(caller) {
            return Err(ContractError::PermissionDenied);
        }
        match find_key(&self.matches, match_id) {
            Some(i) => Ok(i),
            None => Err(ContractError::NotFound),
        }
    }

    /// Moves the addressed match along `action`'s edge of the lifecycle.
    fn apply_transition(
        &mut self,
        caller: &AccountId,
        match_id: &MatchId,
        action: LifecycleAction,
    ) -> (r: Result<(), ContractError>)
        requires
            old(self).wf(),
            action != LifecycleAction::FinishMatch,
        ensures
            final(self).wf(),
            moved_along(*old(self), *final(self), caller@, match_id@, action, r),
    {
        let i = match self.admin_match_index(caller, match_id) {
            Ok(i) => i,
            Err(e) => return Err(e),
        };
        match next_state(self.matches[i].1.match_state, action) {
            None => Err(ContractError::InvalidState),
            Some(next) => {
                self.matches[i].1.match_state = next;
                proof {
                    assert(self.matches@ =~= old(self).matches@.update(
                        i as int,
                        (old(self).matches@[i as int].0, Match {
                            match_state: next,
                            ..old(self).matches@[i as int].1
                        }),
                    ));
                    assert forall|j: int| 0 <= j < self.matches@.len() implies (
                    #[trigger] self.matches@[j]).1.wf() by {
                        if j != i {
                            assert(self.matches@[j] == old(self).matches@[j]);
                        }
                    }
                }
                Ok(())
            },
        }
    }

    /// Closes betting on a Future match when it starts: it becomes Current.
    pub fn end_betting(&mut self, caller: &AccountId, match_id: &MatchId) -> (r: Result<
        (),
        ContractError,
    >)
        requires
            old(self).wf(),
        ensures
            final(self).wf(),
            moved_along(*old(self), *final(self), caller@, match_id@, LifecycleAction::EndBetting, r),
    {
        self.apply_transition(caller, match_id, LifecycleAction::EndBetting)
    }

    /// Cancels a Future or Current match: it becomes Error, and its bets
    /// can be refunded.
    pub fn cancel_match(&mut self, caller: &AccountId, match_id: &MatchId) -> (r: Result<
        (),
        ContractError,
    >)
        requires
            old(self).wf(),
        ensures
            final(self).wf(),
            moved_along(*old(self), *final(self), caller@, match_id@, LifecycleAction::CancelMatch, r),
    {
        self.apply_transition(caller, match_id, LifecycleAction::CancelMatch)
    }

    /// Finishes a Current match with `winner`, books what the winners are
    /// owed, and says how the match settles. The transition is consumed, so a
    /// match settles once. The admin's finish of a Current match always
    /// succeeds; the owed total is a report that stops at its maximum.
    pub fn finish_match(&mut self, caller: &AccountId, match_id: &MatchId, winner: Team) -> (r:
        Result<Settlement, ContractError>)
        requires
            old(self).wf(),
        ensures
            final(self).wf(),
            !old(self).is_admin(caller@) ==> r == Err::<Settlement, ContractError>(
                ContractError::PermissionDenied,
            ),
            old(self).is_admin(caller@) && lacks_key(old(self).matches@, match_id@) ==> r == Err::<
                Settlement,
                ContractError,
            >(ContractError::NotFound),
            r is Err ==> *final(self) == *old(self),
            forall|i: int|
                is_first_key(old(self).matches@, match_id@, i) && old(self).is_admin(caller@)
                    ==> {
                    let m = old(self).matches@[i].1;
                    if transition(m.match_state, LifecycleAction::FinishMatch) is None {
                        r == Err::<Settlement, ContractError>(ContractError::InvalidState)
                    } else {
                        &&& r == Ok::<Settlement, ContractError>(settlement_of(m, winner))
                        &&& final(self).matches@ == old(self).matches@.update(
                            i,
                            (
                                old(self).matches@[i].0,
                                Match {
                                    match_state: MatchState::Finished,
                                    winner: Some(winner),
                                    ..m
                                },
                            ),
                        )
                        &&& *final(self) == (Contract {
                            matches: final(self).matches,
                            funds_to_payout: old(self).funds_to_payout.saturating_add(
                                m.liability(winner) as u128,
                            ),
                            ..*old(self)
                        })
                    }
                },
    {
        let i = match self.admin_match_index(caller, match_id) {
            Ok(i) => i,
            Err(e) => return Err(e),
        };
        if next_state(self.matches[i].1.match_state, LifecycleAction::FinishMatch).is_none() {
            return Err(ContractError::InvalidState);
        }
        let m = &self.matches[i].1;
        let owed = match winner {
            Team::Team1 => m.team_1_potential_winnings,
            Team::Team2 => m.team_2_potential_winnings,
        };
        let collected = (m.team_1_total_bets - m.team_1_initial_pool) + (m.team_2_total_bets
            - m.team_2_initial_pool);
        let settlement = if collected > owed {
            Settlement::Profit(collected - owed)
        } else if collected == owed {
            Settlement::Even
        } else {
            Settlement::Loss(owed - collected)
        };
        self.funds_to_payout = self.funds_to_payout.saturating_add(owed);
        self.matches[i].1.match_state = MatchState::Finished;
        self.matches[i].1.winner = Some(winner);
        proof {
            let m0 = old(self).matches@[i as int].1;
            assert(self.matches@ =~= old(self).matches@.update(
                i as int,
                (
                    old(self).matches@[i as int].0,
                    Match { match_state: MatchState::Finished, winner: Some(winner), ..m0 },
                ),
            ));
            assert forall|j: int| 0 <= j < self.matches@.len() implies (
            #[trigger] self.matches@[j]).1.wf() by {
                if j != i {
                    assert(self.matches@[j] == old(self).matches@[j]);
                }
            }
        }
        Ok(settlement)
    }

    /// Creates a Future match between two teams, with pools seeded from the
    /// admin's odds, and returns its id "team_1-team_2-date". An id that is
    /// already taken is refused: matches are never replaced.
    pub fn create_match(
        &mut self,
        caller: &AccountId,
        game: String,
        team_1: String,
        team_2: String,
        date: &String,
        team_1_initial_pool: u128,
        team_2_initial_pool: u128,
    ) -> (r: Result<MatchId, ContractError>)
        requires
            old(self).wf(),
            team_1_initial_pool > 0,
            team_2_initial_pool > 0,
        ensures
            final(self).wf(),
            !old(self).is_admin(caller@) ==> r == Err::<MatchId, ContractError>(
                ContractError::PermissionDenied,
            ),
            old(self).is_admin(caller@) && !lacks_key(
                old(self).matches@,
                match_id_of(team_1@, team_2@, date@),
            ) ==> r == Err::<MatchId, ContractError>(ContractError::InvalidState),
            r is Err ==> *final(self) == *old(self),
            old(self).is_admin(caller@) && lacks_key(
                old(self).matches@,
                match_id_of(team_1@, team_2@, date@),
            ) ==> r is Ok,
            r matches Ok(id) ==> {
                &&& id@ == match_id_of(team_1@, team_2@, date@)
                &&& final(self).matches@ == old(self).matches@.push(
                    (
                        id,
                        Match {
                            game,
                            team_1,
                            team_2,
                            team_1_total_bets: team_1_initial_pool,
                            team_2_total_bets: team_2_initial_pool,
                            team_1_initial_pool,
                            team_2_initial_pool,
                            team_1_potential_winnings: 0,
                            team_2_potential_winnings: 0,
                            match_state: MatchState::Future,
                            winner: None,
                        },
                    ),
                )
                &&& *final(self) == (Contract { matches: final(self).matches, ..*old(self) })
            },
    {
        if !self.admin.eq(caller) {
            return Err(ContractError::PermissionDenied);
        }
        let match_id = team_1.clone().concat("-").concat(team_2.as_str()).concat("-").concat(
            date.as_str(),
        );
        proof {
            reveal_strlit("-");
            assert(match_id@ =~= match_id_of(team_1@, team_2@, date@));
        }
        if find_key(&self.matches, &match_id).is_some() {
            return Err(ContractError::InvalidState);
        }
        let new_match = Match {
            game,
            team_1,
            team_2,
            team_1_total_bets: team_1_initial_pool,
            team_2_total_bets: team_2_initial_pool,
            team_1_initial_pool,
            team_2_initial_pool,
            team_1_potential_winnings: 0,
            team_2_potential_winnings: 0,
            match_state: MatchState::Future,
            winner: None,
        };
        self.matches.push((match_id.clone(), new_match));
        proof {
            assert forall|j: int| 0 <= j < self.matches@.len() implies (
            #[trigger] self.matches@[j]).1.wf() by {
                if j < old(self).matches@.len() {
                    assert(self.matches@[j] == old(self).matches@[j]);
                }
            }
        }
        Ok(match_id)
    }

    /// Hands the admin role to another account.
    pub fn change_admin(&mut self, caller: &AccountId, new_admin: AccountId) -> (r: Result<
        (),
        ContractError,
    >)
        requires
            old(self).wf(),
        ensures
            final(self).wf(),
            !old(self).is_admin(caller@) ==> r == Err::<(), ContractError>(
                ContractError::PermissionDenied,
            ) && *final(self) == *old(self),
            old(self).is_admin(caller@) ==> r is Ok && *final(self) == (Contract {
                admin: new_admin,
                ..*old(self)
            }),
    {
        if !self.admin.eq(caller) {
            return Err(ContractError::PermissionDenied);
        }
        self.admin = new_admin;
        Ok(())
    }

    /// Takes `amount` out of the fees fund, to be sent to a receiver, and
    /// returns what is left in the fund.
    pub fn take_from_fees_fund(&mut self, caller: &AccountId, amount: u128) -> (r: Result<
        u128,
        ContractError,
    >)
        requires
            old(self).wf(),
        ensures
            final(self).wf(),
            !old(self).is_admin(caller@) ==> r == Err::<u128, ContractError>(
                ContractError::PermissionDenied,
            ),
            old(self).is_admin(caller@) && old(self).fees_fund < amount ==> r == Err::<
                u128,
                ContractError,
            >(ContractError::InsufficientBalance),
            r is Err ==> *final(self) == *old(self),
            old(self).is_admin(caller@) && old(self).fees_fund >= amount ==> {
                &&& r == Ok::<u128, ContractError>((old(self).fees_fund - amount) as u128)
                &&& *final(self) == (Contract {
                    fees_fund: (old(self).fees_fund - amount) as u128,
                    ..*old(self)
                })
            },
    {
        if !self.admin.eq(caller) {
            return Err(ContractError::PermissionDenied);
        }
        if self.fees_fund < amount {
            return Err(ContractError::InsufficientBalance);
        }
        self.fees_fund = self.fees_fund - amount;
        Ok(self.fees_fund)
    }

    /// Takes `amount` out of the insurance fund, to be sent to a receiver,
    /// and returns what is left in the fund.
    pub fn take_from_insurance_fund(&mut self, caller: &AccountId, amount: u128) -> (r: Result<
        u128,
        ContractError,
    >)
        requires
            old(self).wf(),
        ensures
            final(self).wf(),
            !old(self).is_admin(caller@) ==> r == Err::<u128, ContractError>(
                ContractError::PermissionDenied,
            ),
            old(self).is_admin(caller@) && old(self).insurance_fund < amount ==> r == Err::<
                u128,
                ContractError,
            >(ContractError::InsufficientBalance),
            r is Err ==> *final(self) == *old(self),
            old(self).is_admin(caller@) && old(self).insurance_fund >= amount ==> {
                &&& r == Ok::<u128, ContractError>((old(self).insurance_fund - amount) as u128)
                &&& *final(self) == (Contract {
                    insurance_fund: (old(self).insurance_fund - amount) as u128,
                    ..*old(self)
                })
            },
    {
        if !self.admin.eq(caller) {
            return Err(ContractError::PermissionDenied);
        }
        if self.insurance_fund < amount {
            return Err(ContractError::InsufficientBalance);
        }
        self.insurance_fund = self.insurance_fund - amount;
        Ok(self.insurance_fund)
    }
}

} // verus!
