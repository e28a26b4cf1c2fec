//! Bonding: depositing into a locked position, unlocking, re-locking,
//! extending the unbond period and clearing finished positions.
use vstd::prelude::*;
use crate::locking_position::{LockingPosition, pos_locked, pos_unlocked};
use crate::meta_vote::voting::lemma_votes_keep;
use crate::meta_vote::{MetaVoteContract, MetaVoteError, voter_vp_fn, sum_voter_vp, all_balanced, all_voters_wf, lemma_replace_voter, lemma_push_voter, lemma_voters_vp_nonneg};
use crate::seq_sum::{sum_of, lemma_sum_update, lemma_sum_push, lemma_sum_ge_elem, lemma_sum_nonneg};
use crate::utils::{checked_voting_power, spec_voting_power, voting_power_defined, days_to_millis, millis_to_days, spec_millis_to_days};
use crate::voter::{ClearError, Voter, locked_voting_power, locked_vp_fn, used_votes, sort_desc, clear_result, amount_fn};

verus! {

/// The position is locked and has this unbond period.
pub open spec fn locked_with(p: LockingPosition, days: u16) -> bool {
    p.locking_period == days && pos_locked(p)
}

/// The index of the first locked position with this unbond period.
pub open spec fn first_locked_index(s: Seq<LockingPosition>, days: u16) -> Option<int>
    decreases s.len(),
{
    if s.len() == 0 {
        None
    } else {
        match first_locked_index(s.drop_last(), days) {
            Some(i) => Some(i),
            None => if locked_with(s.last(), days) {
                Some(s.len() - 1)
            } else {
                None
            },
        }
    }
}

pub proof fn lemma_first_locked_index(s: Seq<LockingPosition>, days: u16)
    ensures
        match first_locked_index(s, days) {
            Some(i) => 0 <= i < s.len() && locked_with(s[i], days) && forall|j: int|
                0 <= j < i ==> !locked_with(#[trigger] s[j], days),
            None => forall|j: int| 0 <= j < s.len() ==> !locked_with(#[trigger] s[j], days),
        },
    decreases s.len(),
{
    if s.len() > 0 {
        lemma_first_locked_index(s.drop_last(), days);
        let t = s.drop_last();
        assert forall|j: int| 0 <= j < t.len() implies t[j] == s[j] by {}
    }
}

/// A position that the deposit creates.
pub open spec fn new_locked_position(amount: u128, days: u16) -> LockingPosition {
    LockingPosition {
        amount,
        locking_period: days,
        voting_power: spec_voting_power(amount as int, days as int) as u128,
        unlocking_started_at: None,
    }
}

/// The positions after depositing `amount` for `days`: added to the first
/// locked position with that period, or a new position at the end.
pub open spec fn deposited_positions(s: Seq<LockingPosition>, amount: u128, days: u16) -> Seq<LockingPosition> {
    let vp = spec_voting_power(amount as int, days as int);
    match first_locked_index(s, days) {
        Some(i) => s.update(
            i,
            LockingPosition {
                amount: (s[i].amount + amount) as u128,
                voting_power: (s[i].voting_power + vp) as u128,
                ..s[i]
            },
        ),
        None => s.push(new_locked_position(amount, days)),
    }
}

/// Why a deposit of `amount` for `days` into positions `s` with free voting
/// power `available` is refused, if it is, for unbond periods between `min`
/// and `max`, at most `max_positions` positions and a contract total `total`.
pub open spec fn deposit_error_with(min: u16, max: u16, max_positions: u8, total: u128, s: Seq<LockingPosition>, available: u128, amount: u128, days: u16) -> Option<MetaVoteError> {
    let vp = spec_voting_power(amount as int, days as int);
    if !(min <= days && days <= max) {
        Some(MetaVoteError::UnbondPeriodOutOfRange)
    } else {
        match first_locked_index(s, days) {
            Some(i) => if !voting_power_defined(amount as int, days as int) {
                Some(MetaVoteError::VotingPowerUndefined)
            } else if s[i].amount + amount > u128::MAX || s[i].voting_power + vp > u128::MAX
                || available + vp > u128::MAX || total + vp > u128::MAX {
                Some(MetaVoteError::Overflow)
            } else {
                None
            },
            None => if s.len() >= max_positions {
                Some(MetaVoteError::TooManyLockingPositions)
            } else if !voting_power_defined(amount as int, days as int) {
                Some(MetaVoteError::VotingPowerUndefined)
            } else if available + vp > u128::MAX || total + vp > u128::MAX {
                Some(MetaVoteError::Overflow)
            } else {
                None
            },
        }
    }
}

/// Why a deposit of `amount` for `days` into positions `s` with free voting
/// power `available` is refused by contract `c`, if it is.
pub open spec fn deposit_error(c: MetaVoteContract, s: Seq<LockingPosition>, available: u128, amount: u128, days: u16) -> Option<MetaVoteError> {
    deposit_error_with(c.min_unbond_period, c.max_unbond_period, c.max_locking_positions, c.total_voting_power, s, available, amount, days)
}

/// A deposit adds its amount to the amounts of the positions.
pub proof fn lemma_deposit_amount(s: Seq<LockingPosition>, amount: u128, days: u16)
    requires
        first_locked_index(s, days) matches Some(i) ==> s[i].amount + amount <= u128::MAX,
    ensures
        sum_of(deposited_positions(s, amount, days), amount_fn()) == sum_of(s, amount_fn()) + amount,
{
    lemma_first_locked_index(s, days);
    match first_locked_index(s, days) {
        Some(i) => {
            let np = LockingPosition {
                amount: (s[i].amount + amount) as u128,
                voting_power: (s[i].voting_power + spec_voting_power(amount as int, days as int)) as u128,
                ..s[i]
            };
            lemma_sum_update(s, i, np, amount_fn());
        },
        None => {
            lemma_sum_push(s, new_locked_position(amount, days), amount_fn());
        },
    }
}

pub proof fn lemma_deposit_locked_vp(s: Seq<LockingPosition>, amount: u128, days: u16)
    requires
        voting_power_defined(amount as int, days as int),
        first_locked_index(s, days) matches Some(i) ==> s[i].amount + amount <= u128::MAX
            && s[i].voting_power + spec_voting_power(amount as int, days as int) <= u128::MAX,
    ensures
        locked_voting_power(deposited_positions(s, amount, days)) == locked_voting_power(s)
            + spec_voting_power(amount as int, days as int),
        deposited_positions(s, amount, days).len() == s.len() + if first_locked_index(
            s,
            days,
        ) is Some {
            0int
        } else {
            1int
        },
{
    lemma_first_locked_index(s, days);
    let vp = spec_voting_power(amount as int, days as int);
    assert(vp >= 0) by (nonlinear_arith)
        requires
            vp == amount * 1_000_000_000_000_000_000 * days / 60,
            amount >= 0,
            days >= 0,
    ;
    match first_locked_index(s, days) {
        Some(i) => {
            lemma_sum_update(s, i, deposited_positions(s, amount, days)[i], locked_vp_fn());
        },
        None => {
            lemma_sum_push(s, new_locked_position(amount, days), locked_vp_fn());
        },
    }
}

impl MetaVoteContract {
    /// Checks a deposit of `amount` for `days` into `voter`; on success gives
    /// the voting power that the deposit adds.
    pub(crate) fn deposit_check(&self, positions: &Vec<LockingPosition>, available: u128, amount: u128, days: u16) -> (r: Result<u128, MetaVoteError>)
        ensures
            r is Ok <==> deposit_error(*self, positions@, available, amount, days) is None,
            r matches Err(e) ==> deposit_error(*self, positions@, available, amount, days) == Some(e),
            r matches Ok(vp) ==> vp == spec_voting_power(amount as int, days as int),
    {
        if !(self.min_unbond_period <= days && days <= self.max_unbond_period) {
            return Err(MetaVoteError::UnbondPeriodOutOfRange);
        }
        proof {
            lemma_first_locked_index(positions@, days);
        }
        match find_locked_in(positions, days) {
            Some(i) => {
                proof {
                    lemma_first_locked_unique(positions@, days, i as int);
                }
                let vp = match checked_voting_power(amount, days) {
                    Some(vp) => vp,
                    None => return Err(MetaVoteError::VotingPowerUndefined),
                };
                let n = positions.len();
                assert(i < n);
                let p = positions[i as usize];
                if p.amount.checked_add(amount).is_none() || p.voting_power.checked_add(vp).is_none()
                    || available.checked_add(vp).is_none()
                    || self.total_voting_power.checked_add(vp).is_none() {
                    return Err(MetaVoteError::Overflow);
                }
                Ok(vp)
            },
            None => {
                if positions.len() >= self.max_locking_positions as usize {
                    return Err(MetaVoteError::TooManyLockingPositions);
                }
                let vp = match checked_voting_power(amount, days) {
                    Some(vp) => vp,
                    None => return Err(MetaVoteError::VotingPowerUndefined),
                };
                if available.checked_add(vp).is_none()
                    || self.total_voting_power.checked_add(vp).is_none() {
                    return Err(MetaVoteError::Overflow);
                }
                Ok(vp)
            },
        }
    }

    /// Deposits `amount` for `days` into `positions`, as
    /// `deposit_locking_position` does, with the free voting power and the
    /// contract total held in `available` and `total`. Nothing changes on an
    /// error.
    pub(crate) fn deposit_into(&self, positions: &mut Vec<LockingPosition>, available: &mut u128, total: &mut u128, amount: u128, days: u16) -> (r: Result<(), MetaVoteError>)
        ensures
            r == (match deposit_error_with(self.min_unbond_period, self.max_unbond_period, self.max_locking_positions, *old(total), old(positions)@, *old(available), amount, days) {
                Some(e) => Err(e),
                None => Ok(()),
            }),
            r is Err ==> final(positions)@ == old(positions)@ && *final(available) == *old(available) && *final(total) == *old(total),
            r is Ok ==> ({
                let vp = spec_voting_power(amount as int, days as int);
                &&& final(positions)@ == deposited_positions(old(positions)@, amount, days)
                &&& *final(available) == *old(available) + vp
                &&& *final(total) == *old(total) + vp
                &&& locked_voting_power(final(positions)@) == locked_voting_power(old(positions)@) + vp
                &&& final(positions)@.len() <= old(positions)@.len() + 1
                &&& final(positions)@.len() <= self.max_locking_positions || final(positions)@.len() == old(positions)@.len()
            }),
    {
        if !(self.min_unbond_period <= days && days <= self.max_unbond_period) {
            return Err(MetaVoteError::UnbondPeriodOutOfRange);
        }
        proof {
            lemma_first_locked_index(positions@, days);
        }
        let found = find_locked_in(positions, days);
        match found {
            Some(i) => {
                proof {
                    lemma_first_locked_unique(positions@, days, i as int);
                }
            },
            None => {
                if positions.len() >= self.max_locking_positions as usize {
                    return Err(MetaVoteError::TooManyLockingPositions);
                }
            },
        }
        let vp = match checked_voting_power(amount, days) {
            Some(vp) => vp,
            None => return Err(MetaVoteError::VotingPowerUndefined),
        };
        let new_available = match available.checked_add(vp) {
            Some(x) => x,
            None => return Err(MetaVoteError::Overflow),
        };
        let new_total = match total.checked_add(vp) {
            Some(x) => x,
            None => return Err(MetaVoteError::Overflow),
        };
        match found {
            Some(i) => {
                let n = positions.len();
                assert(i < n);
                let p = positions[i as usize];
                let new_amount = match p.amount.checked_add(amount) {
                    Some(x) => x,
                    None => return Err(MetaVoteError::Overflow),
                };
                let new_vp = match p.voting_power.checked_add(vp) {
                    Some(x) => x,
                    None => return Err(MetaVoteError::Overflow),
                };
                proof {
                    lemma_deposit_locked_vp(positions@, amount, days);
                }
                positions.set(i as usize, LockingPosition { amount: new_amount, voting_power: new_vp, ..p });
            },
            None => {
                proof {
                    lemma_deposit_locked_vp(positions@, amount, days);
                }
                positions.push(LockingPosition::new(amount, days, vp, None));
            },
        }
        *available = new_available;
        *total = new_total;
        Ok(())
    }

    /// Deposits `amount` for `days` into `voter`: into its first locked
    /// position with that period, or into a new position. The voter's free
    /// voting power and the contract's total grow by the voting power of the
    /// amount. The caller stores the voter.
    pub(crate) fn deposit_locking_position(&mut self, voter: &mut Voter, amount: u128, days: u16, vp: u128)
        requires
            old(voter).wf(),
            deposit_error(*old(self), old(voter).locking_positions@, old(voter).available_voting_power, amount, days) is None,
            vp == spec_voting_power(amount as int, days as int),
        ensures
            final(voter).wf(),
            final(voter).locking_positions@ == deposited_positions(old(voter).locking_positions@, amount, days),
            final(voter).available_voting_power == old(voter).available_voting_power + vp,
            final(voter).balance == old(voter).balance,
            final(voter).vote_positions == old(voter).vote_positions,
            locked_voting_power(final(voter).locking_positions@) == locked_voting_power(old(voter).locking_positions@) + vp,
            *final(self) == (MetaVoteContract { total_voting_power: (old(self).total_voting_power + vp) as u128, ..*old(self) }),
    {
        proof {
            lemma_first_locked_index(voter.locking_positions@, days);
            lemma_deposit_locked_vp(voter.locking_positions@, amount, days);
        }
        match voter.find_locked_position(days) {
            Some(i) => {
                proof {
                    lemma_first_locked_unique(voter.locking_positions@, days, i as int);
                }
                let p = voter.get_position(i);
                let n = voter.locking_positions.len();
                assert(i < n);
                voter.locking_positions[i as usize] = LockingPosition {
                    amount: p.amount + amount,
                    voting_power: p.voting_power + vp,
                    ..p
                };
            },
            None => {
                voter.locking_positions.push(LockingPosition::new(amount, days, vp, None));
            },
        }
        voter.available_voting_power = voter.available_voting_power + vp;
        self.total_voting_power = self.total_voting_power + vp;
    }
}

impl MetaVoteContract {
    /// Starts the unbond period of the caller's position `index`: its voting
    /// power leaves the caller's free voting power and the contract's total
    /// (the total does not go under zero).
    pub fn unlock_position(&mut self, caller: &String, index: u64, now: u64) -> (r: Result<(), MetaVoteError>)
        requires
            old(self).wf(),
        ensures
            final(self).wf(),
            r is Ok ==> (old(self).votes_accounted() ==> final(self).votes_accounted()),
            !old(self).voters@.contains_key(caller@) ==> r == Err::<(), MetaVoteError>(MetaVoteError::VoterNotFound),
            old(self).voters@.contains_key(caller@) && index >= old(self).voter(caller@).locking_positions@.len()
                ==> r == Err::<(), MetaVoteError>(MetaVoteError::IndexOutOfRange),
            old(self).voters@.contains_key(caller@) && index < old(self).voter(caller@).locking_positions@.len()
                && old(self).voter(caller@).available_voting_power < old(self).voter(caller@).locking_positions@[index as int].voting_power
                ==> r == Err::<(), MetaVoteError>(MetaVoteError::NotEnoughVotingPower),
            r is Ok <==> old(self).voters@.contains_key(caller@) && index < old(self).voter(caller@).locking_positions@.len()
                && old(self).voter(caller@).available_voting_power >= old(self).voter(caller@).locking_positions@[index as int].voting_power,
            r is Err ==> *final(self) == *old(self),
            r is Ok ==> ({
                let v = old(self).voter(caller@);
                let p = v.locking_positions@[index as int];
                let nv = final(self).voter(caller@);
                &&& old(self).voter_replaced(final(self), caller@)
                &&& nv.locking_positions@ == v.locking_positions@.update(index as int, LockingPosition { unlocking_started_at: Some(now), ..p })
                &&& nv.available_voting_power == v.available_voting_power - p.voting_power
                &&& nv.balance == v.balance
                &&& nv.vote_positions == v.vote_positions
                &&& final(self).total_voting_power == if old(self).total_voting_power >= p.voting_power {
                    old(self).total_voting_power - p.voting_power
                } else {
                    0
                }
                &&& *final(self) == (MetaVoteContract { voters: final(self).voters, total_voting_power: final(self).total_voting_power, ..*old(self) })
            }),
            r is Ok && pos_locked(old(self).voter(caller@).locking_positions@[index as int]) ==> (
                (old(self).voters_balanced() ==> final(self).voters_balanced())
                && (old(self).vp_accounted() ==> final(self).vp_accounted())),
    {
        let i = match self.voters.find(caller) {
            Some(i) => i,
            None => return Err(MetaVoteError::VoterNotFound),
        };
        proof {
            self.voters.lemma_index(i as int);
        }
        let n = self.voters.vals[i].locking_positions.len();
        if index >= n as u64 {
            return Err(MetaVoteError::IndexOutOfRange);
        }
        let p = self.voters.vals[i].get_position(index);
        if self.voters.vals[i].available_voting_power < p.voting_power {
            return Err(MetaVoteError::NotEnoughVotingPower);
        }
        let ghost old_self = *self;
        let mut voter = self.voters.take_at(i, Voter::new());
        let ghost v0 = voter;
        voter.locking_positions[index as usize] = LockingPosition { unlocking_started_at: Some(now), ..p };
        voter.available_voting_power = voter.available_voting_power - p.voting_power;
        self.total_voting_power = self.total_voting_power.saturating_sub(p.voting_power);
        proof {
            if pos_locked(p) {
                lemma_sum_update(v0.locking_positions@, index as int, voter.locking_positions@[index as int], locked_vp_fn());
                if old_self.vp_accounted() {
                    lemma_voters_vp_nonneg(old_self.voters.vals@);
                    lemma_sum_ge_elem(old_self.voters.vals@, i as int, voter_vp_fn());
                    lemma_sum_nonneg(v0.locking_positions@, locked_vp_fn());
                    lemma_sum_ge_elem(v0.locking_positions@, index as int, locked_vp_fn());
                }
            }
            lemma_replace_voter(old_self.voters.vals@, i as int, voter);
            if old_self.votes_accounted() {
                lemma_votes_keep(old_self.votes, old_self.voters.vals@, i as int, voter);
            }
        }
        self.voters.set_at(i, voter);
        proof {
            assert(self.voters.vals@ == old_self.voters.vals@.update(i as int, voter));
            self.voters.lemma_index(i as int);
        }
        Ok(())
    }
}

/// Why extending position `index` of voter `id` to `new_days` is refused, if it is.
pub open spec fn extend_error(c: MetaVoteContract, id: Seq<char>, index: u64, new_days: u16) -> Option<MetaVoteError> {
    if !c.voters@.contains_key(id) {
        Some(MetaVoteError::VoterNotFound)
    } else if index >= c.voter(id).locking_positions@.len() {
        Some(MetaVoteError::IndexOutOfRange)
    } else {
        let v = c.voter(id);
        let p = v.locking_positions@[index as int];
        let nvp = spec_voting_power(p.amount as int, new_days as int);
        if !pos_locked(p) {
            Some(MetaVoteError::PositionNotLocked)
        } else if new_days <= p.locking_period {
            Some(MetaVoteError::PeriodNotGreater)
        } else if new_days > c.max_unbond_period {
            Some(MetaVoteError::UnbondPeriodOutOfRange)
        } else if !voting_power_defined(p.amount as int, new_days as int) {
            Some(MetaVoteError::VotingPowerUndefined)
        } else if nvp < p.voting_power || c.total_voting_power + (nvp - p.voting_power) > u128::MAX
            || v.available_voting_power + (nvp - p.voting_power) > u128::MAX {
            Some(MetaVoteError::Overflow)
        } else {
            None
        }
    }
}

/// Why unlocking `amount` of position `index` of voter `id` is refused, if it
/// is (the case of the whole amount is `unlock_position`).
pub open spec fn partial_unlock_error(c: MetaVoteContract, id: Seq<char>, index: u64, amount: u128) -> Option<MetaVoteError> {
    if !c.voters@.contains_key(id) {
        Some(MetaVoteError::VoterNotFound)
    } else if index >= c.voter(id).locking_positions@.len() {
        Some(MetaVoteError::IndexOutOfRange)
    } else {
        let v = c.voter(id);
        let p = v.locking_positions@[index as int];
        let rvp = spec_voting_power(amount as int, p.locking_period as int);
        if p.amount <= amount {
            Some(MetaVoteError::AmountTooLarge)
        } else if p.amount - amount < c.min_deposit_amount {
            Some(MetaVoteError::PositionBelowMinimum)
        } else if amount < crate::utils::ONE_MPDAO {
            Some(MetaVoteError::BelowOneMpdao)
        } else if !voting_power_defined(amount as int, p.locking_period as int) {
            Some(MetaVoteError::VotingPowerUndefined)
        } else if p.voting_power < rvp || v.available_voting_power < rvp {
            Some(MetaVoteError::NotEnoughVotingPower)
        } else if v.locking_positions@.len() >= c.max_locking_positions {
            Some(MetaVoteError::TooManyLockingPositions)
        } else if p.amount - amount < crate::utils::ONE_MPDAO {
            Some(MetaVoteError::BelowOneMpdao)
        } else {
            None
        }
    }
}

impl MetaVoteContract {
    /// Extends the unbond period of the caller's locked position `index`;
    /// its voting power is computed anew and the difference is added to the
    /// caller's free voting power and to the contract's total. The new period
    /// must be longer than the old one and no longer than `max_unbond_period`.
    pub fn locking_position_extend_days(&mut self, caller: &String, index: u64, new_locking_period: u16) -> (r: Result<(), MetaVoteError>)
        requires
            old(self).wf(),
        ensures
            final(self).wf(),
            r is Ok ==> (old(self).votes_accounted() ==> final(self).votes_accounted()),
            r == (match extend_error(*old(self), caller@, index, new_locking_period) {
                Some(e) => Err(e),
                None => Ok(()),
            }),
            r is Err ==> *final(self) == *old(self),
            r is Ok ==> ({
                let v = old(self).voter(caller@);
                let p = v.locking_positions@[index as int];
                let nvp = spec_voting_power(p.amount as int, new_locking_period as int);
                let nv = final(self).voter(caller@);
                &&& old(self).voter_replaced(final(self), caller@)
                &&& nv.locking_positions@ == v.locking_positions@.update(index as int, LockingPosition { locking_period: new_locking_period, voting_power: nvp as u128, ..p })
                &&& nv.available_voting_power == v.available_voting_power + (nvp - p.voting_power)
                &&& nv.balance == v.balance
                &&& nv.vote_positions == v.vote_positions
                &&& final(self).total_voting_power == old(self).total_voting_power + (nvp - p.voting_power)
                &&& *final(self) == (MetaVoteContract { voters: final(self).voters, total_voting_power: final(self).total_voting_power, ..*old(self) })
            }),
            r is Ok ==> (old(self).voters_balanced() ==> final(self).voters_balanced())
                && (old(self).vp_accounted() ==> final(self).vp_accounted()),
    {
        let i = match self.voters.find(caller) {
            Some(i) => i,
            None => return Err(MetaVoteError::VoterNotFound),
        };
        proof {
            self.voters.lemma_index(i as int);
        }
        let n = self.voters.vals[i].locking_positions.len();
        if index >= n as u64 {
            return Err(MetaVoteError::IndexOutOfRange);
        }
        let p = self.voters.vals[i].get_position(index);
        if !p.is_locked() {
            return Err(MetaVoteError::PositionNotLocked);
        }
        if new_locking_period <= p.locking_period {
            return Err(MetaVoteError::PeriodNotGreater);
        }
        if new_locking_period > self.max_unbond_period {
            return Err(MetaVoteError::UnbondPeriodOutOfRange);
        }
        let nvp = match checked_voting_power(p.amount, new_locking_period) {
            Some(v) => v,
            None => return Err(MetaVoteError::VotingPowerUndefined),
        };
        if nvp < p.voting_power {
            return Err(MetaVoteError::Overflow);
        }
        let delta = nvp - p.voting_power;
        let new_total = match self.total_voting_power.checked_add(delta) {
            Some(t) => t,
            None => return Err(MetaVoteError::Overflow),
        };
        let new_available = match self.voters.vals[i].available_voting_power.checked_add(delta) {
            Some(t) => t,
            None => return Err(MetaVoteError::Overflow),
        };
        let ghost old_self = *self;
        let mut voter = self.voters.take_at(i, Voter::new());
        let ghost v0 = voter;
        voter.locking_positions[index as usize] = LockingPosition { locking_period: new_locking_period, voting_power: nvp, ..p };
        voter.available_voting_power = new_available;
        self.total_voting_power = new_total;
        proof {
            lemma_sum_update(v0.locking_positions@, index as int, voter.locking_positions@[index as int], locked_vp_fn());
            if old_self.voters_balanced() {
                assert(old_self.voters.vals@[i as int].vp_balanced());
                assert(voter.vp_balanced());
            }
            lemma_replace_voter(old_self.voters.vals@, i as int, voter);
            if old_self.votes_accounted() {
                lemma_votes_keep(old_self.votes, old_self.voters.vals@, i as int, voter);
            }
        }
        self.voters.set_at(i, voter);
        proof {
            assert(self.voters.vals@ == old_self.voters.vals@.update(i as int, voter));
            self.voters.lemma_index(i as int);
        }
        Ok(())
    }

    /// Starts the unbond period of `amount` out of the caller's position
    /// `index`: a new unlocking position with that amount and its voting power
    /// is added at the end, and the position keeps the rest. The whole amount
    /// is `unlock_position`.
    pub fn unlock_partial_position(&mut self, caller: &String, index: u64, amount: u128, now: u64) -> (r: Result<(), MetaVoteError>)
        requires
            old(self).wf(),
        ensures
            final(self).wf(),
            r is Ok ==> (old(self).votes_accounted() ==> final(self).votes_accounted()),
            old(self).voters@.contains_key(caller@) && index < old(self).voter(caller@).locking_positions@.len()
                && amount == old(self).voter(caller@).locking_positions@[index as int].amount ==> ({
                let v = old(self).voter(caller@);
                let p = v.locking_positions@[index as int];
                &&& (r is Ok <==> v.available_voting_power >= p.voting_power)
                &&& (r is Err ==> r == Err::<(), MetaVoteError>(MetaVoteError::NotEnoughVotingPower))
                &&& (r is Ok ==> final(self).voter(caller@).locking_positions@ == v.locking_positions@.update(index as int, LockingPosition { unlocking_started_at: Some(now), ..p })
                    && final(self).voter(caller@).available_voting_power == v.available_voting_power - p.voting_power
                    && final(self).total_voting_power == if old(self).total_voting_power >= p.voting_power {
                        old(self).total_voting_power - p.voting_power
                    } else {
                        0
                    })
            }),
            !(old(self).voters@.contains_key(caller@) && index < old(self).voter(caller@).locking_positions@.len()
                && amount == old(self).voter(caller@).locking_positions@[index as int].amount) ==> ({
                &&& r == (match partial_unlock_error(*old(self), caller@, index, amount) {
                    Some(e) => Err(e),
                    None => Ok(()),
                })
                &&& (r is Ok ==> ({
                    let v = old(self).voter(caller@);
                    let p = v.locking_positions@[index as int];
                    let rvp = spec_voting_power(amount as int, p.locking_period as int) as u128;
                    let nv = final(self).voter(caller@);
                    &&& nv.locking_positions@ == v.locking_positions@.update(index as int, LockingPosition { amount: (p.amount - amount) as u128, voting_power: (p.voting_power - rvp) as u128, ..p })
                        .push(LockingPosition { amount, locking_period: p.locking_period, voting_power: rvp, unlocking_started_at: Some(now) })
                    &&& nv.available_voting_power == v.available_voting_power - rvp
                    &&& final(self).total_voting_power == if old(self).total_voting_power >= rvp {
                        old(self).total_voting_power - rvp
                    } else {
                        0
                    }
                }))
            }),
            r is Err ==> *final(self) == *old(self),
            r is Ok ==> ({
                let v = old(self).voter(caller@);
                let nv = final(self).voter(caller@);
                &&& old(self).voter_replaced(final(self), caller@)
                &&& nv.balance == v.balance
                &&& nv.vote_positions == v.vote_positions
                &&& *final(self) == (MetaVoteContract { voters: final(self).voters, total_voting_power: final(self).total_voting_power, ..*old(self) })
            }),
            r is Ok && pos_locked(old(self).voter(caller@).locking_positions@[index as int]) ==> (
                (old(self).voters_balanced() ==> final(self).voters_balanced())
                && (old(self).vp_accounted() ==> final(self).vp_accounted())),
    {
        let i = match self.voters.find(caller) {
            Some(i) => i,
            None => return Err(MetaVoteError::VoterNotFound),
        };
        proof {
            self.voters.lemma_index(i as int);
        }
        let n = self.voters.vals[i].locking_positions.len();
        if index >= n as u64 {
            return Err(MetaVoteError::IndexOutOfRange);
        }
        let p = self.voters.vals[i].get_position(index);
        if amount == p.amount {
            return self.unlock_position(caller, index, now);
        }
        if p.amount <= amount {
            return Err(MetaVoteError::AmountTooLarge);
        }
        if p.amount - amount < self.min_deposit_amount {
            return Err(MetaVoteError::PositionBelowMinimum);
        }
        if amount < crate::utils::ONE_MPDAO {
            return Err(MetaVoteError::BelowOneMpdao);
        }
        let rvp = match checked_voting_power(amount, p.locking_period) {
            Some(v) => v,
            None => return Err(MetaVoteError::VotingPowerUndefined),
        };
        if p.voting_power < rvp || self.voters.vals[i].available_voting_power < rvp {
            return Err(MetaVoteError::NotEnoughVotingPower);
        }
        if n >= self.max_locking_positions as usize {
            return Err(MetaVoteError::TooManyLockingPositions);
        }
        if p.amount - amount < crate::utils::ONE_MPDAO {
            return Err(MetaVoteError::BelowOneMpdao);
        }
        let ghost old_self = *self;
        let mut voter = self.voters.take_at(i, Voter::new());
        let ghost v0 = voter;
        voter.locking_positions[index as usize] = LockingPosition { amount: p.amount - amount, voting_power: p.voting_power - rvp, ..p };
        let ghost v1 = voter;
        voter.locking_positions.push(LockingPosition::new(amount, p.locking_period, rvp, Some(now)));
        voter.available_voting_power = voter.available_voting_power - rvp;
        self.total_voting_power = self.total_voting_power.saturating_sub(rvp);
        proof {
            if pos_locked(p) {
                lemma_sum_update(v0.locking_positions@, index as int, v1.locking_positions@[index as int], locked_vp_fn());
                lemma_sum_push(v1.locking_positions@, LockingPosition { amount, locking_period: p.locking_period, voting_power: rvp, unlocking_started_at: Some(now) }, locked_vp_fn());
                if old_self.vp_accounted() {
                    lemma_voters_vp_nonneg(old_self.voters.vals@);
                    lemma_sum_ge_elem(old_self.voters.vals@, i as int, voter_vp_fn());
                    lemma_sum_nonneg(v0.locking_positions@, locked_vp_fn());
                    lemma_sum_ge_elem(v0.locking_positions@, index as int, locked_vp_fn());
                }
            }
            if old_self.voters_balanced() && pos_locked(p) {
                assert(old_self.voters.vals@[i as int].vp_balanced());
                assert(voter.vp_balanced());
            }
            lemma_replace_voter(old_self.voters.vals@, i as int, voter);
            if old_self.votes_accounted() {
                lemma_votes_keep(old_self.votes, old_self.voters.vals@, i as int, voter);
            }
        }
        self.voters.set_at(i, voter);
        proof {
            assert(self.voters.vals@ == old_self.voters.vals@.update(i as int, voter));
            self.voters.lemma_index(i as int);
        }
        Ok(())
    }
}

impl MetaVoteContract {
    /// Clears the caller's positions of `position_index_list` whose unbond
    /// period is over at `now`, as `Voter::clear_fully_unlocked_positions`
    /// does. Refused for an empty list, an unknown caller, an index out of
    /// range, or a balance that would overflow.
    pub fn clear_locking_position(&mut self, caller: &String, position_index_list: Vec<u64>, now: u64) -> (r: Result<(), MetaVoteError>)
        requires
            old(self).wf(),
        ensures
            final(self).wf(),
            r == (if position_index_list@.len() == 0 {
                Err(MetaVoteError::EmptyIndexList)
            } else if !old(self).voters@.contains_key(caller@) {
                Err(MetaVoteError::VoterNotFound)
            } else {
                let v = old(self).voter(caller@);
                match clear_result((v.balance as int, v.locking_positions@), sort_desc(position_index_list@), now) {
                    Err(ClearError::IndexOutOfRange) => Err(MetaVoteError::IndexOutOfRange),
                    Err(ClearError::BalanceOverflow) => Err(MetaVoteError::Overflow),
                    Ok(_) => Ok(()),
                }
            }),
            r is Err ==> *final(self) == *old(self),
            r is Ok ==> ({
                let v = old(self).voter(caller@);
                let nv = final(self).voter(caller@);
                let st = clear_result((v.balance as int, v.locking_positions@), sort_desc(position_index_list@), now)->Ok_0;
                &&& old(self).voter_replaced(final(self), caller@)
                &&& nv.balance == st.0
                &&& nv.locking_positions@ == st.1
                &&& nv.available_voting_power == v.available_voting_power
                &&& nv.vote_positions == v.vote_positions
                &&& *final(self) == (MetaVoteContract { voters: final(self).voters, ..*old(self) })
            }),
            r is Ok ==> (old(self).voters_balanced() ==> final(self).voters_balanced())
                && (old(self).vp_accounted() ==> final(self).vp_accounted())
                && (old(self).votes_accounted() ==> final(self).votes_accounted()),
    {
        if position_index_list.len() == 0 {
            return Err(MetaVoteError::EmptyIndexList);
        }
        let i = match self.voters.find(caller) {
            Some(i) => i,
            None => return Err(MetaVoteError::VoterNotFound),
        };
        proof {
            self.voters.lemma_index(i as int);
        }
        let ghost list = position_index_list@;
        let mut scratch = Voter::new();
        scratch.balance = self.voters.vals[i].balance;
        scratch.locking_positions = self.voters.vals[i].locking_positions.clone();
        assert(scratch.locking_positions@ =~= self.voters.vals@[i as int].locking_positions@);
        let ghost st0 = (scratch.balance as int, scratch.locking_positions@);
        match scratch.clear_fully_unlocked_positions(position_index_list, now) {
            Ok(()) => {},
            Err(ClearError::IndexOutOfRange) => return Err(MetaVoteError::IndexOutOfRange),
            Err(ClearError::BalanceOverflow) => return Err(MetaVoteError::Overflow),
        }
        let ghost old_self = *self;
        let mut voter = self.voters.take_at(i, Voter::new());
        voter.balance = scratch.balance;
        voter.locking_positions = scratch.locking_positions;
        proof {
            if old_self.voters_balanced() {
                assert(old_self.voters.vals@[i as int].vp_balanced());
            }
            lemma_replace_voter(old_self.voters.vals@, i as int, voter);
            if old_self.votes_accounted() {
                lemma_votes_keep(old_self.votes, old_self.voters.vals@, i as int, voter);
            }
        }
        self.voters.set_at(i, voter);
        proof {
            assert(self.voters.vals@ == old_self.voters.vals@.update(i as int, voter));
            self.voters.lemma_index(i as int);
        }
        Ok(())
    }
}

/// The first locked position with this period.
pub fn find_locked_in(positions: &Vec<LockingPosition>, days: u16) -> (r: Option<u64>)
    ensures
        match r {
            Some(i) => {
                &&& i < positions@.len()
                &&& locked_with(positions@[i as int], days)
                &&& forall|j: int| 0 <= j < i ==> !(#[trigger] positions@[j].locking_period == days && pos_locked(positions@[j]))
            },
            None => forall|j: int| 0 <= j < positions@.len() ==> !(#[trigger] positions@[j].locking_period == days && pos_locked(positions@[j])),
        },
{
    let mut i: usize = 0;
    while i < positions.len()
        invariant
            0 <= i <= positions@.len(),
            forall|j: int| 0 <= j < i ==> !(#[trigger] positions@[j].locking_period == days && pos_locked(positions@[j])),
        decreases positions@.len() - i,
    {
        if positions[i].locking_period == days && positions[i].is_locked() {
            return Some(i as u64);
        }
        i = i + 1;
    }
    None
}

/// The first locked position with the period is the one `find_locked_position` finds.
pub proof fn lemma_first_locked_unique(s: Seq<LockingPosition>, days: u16, i: int)
    requires
        0 <= i < s.len(),
        locked_with(s[i], days),
        forall|j: int| 0 <= j < i ==> !(#[trigger] s[j].locking_period == days && pos_locked(s[j])),
    ensures
        first_locked_index(s, days) == Some(i),
{
    lemma_first_locked_index(s, days);
    match first_locked_index(s, days) {
        Some(k) => {
            if k < i {
                assert(!(s[k].locking_period == days && pos_locked(s[k])));
            } else if k > i {
                assert(!locked_with(s[i], days));
            }
        },
        None => {
            assert(!locked_with(s[i], days));
        },
    }
}

} // verus!
