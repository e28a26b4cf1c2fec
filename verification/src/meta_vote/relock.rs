//! Re-locking: bonding again what sits in an unlocking or unlocked position,
//! or in the free balance; and bonding what an account can claim.
use vstd::prelude::*;
use crate::locking_position::{LockingPosition, pos_locked};
use crate::meta_vote::voting::lemma_votes_keep;
use crate::meta_vote::{MetaVoteContract, MetaVoteError, sum_voter_vp, all_balanced, all_voters_wf, lemma_replace_voter, claimable_of, claims_removed, claim_remove};
use crate::meta_vote::locking::{deposit_error, deposited_positions, lemma_deposit_locked_vp, lemma_deposit_amount, first_locked_index};
use crate::seq_sum::{sum_of, lemma_sum_swap_remove, lemma_sum_update};
use crate::utils::{spec_voting_power, voting_power_defined, checked_voting_power, days_to_millis, millis_to_days, spec_millis_to_days};
use crate::voter::{Voter, locked_voting_power, locked_vp_fn, amount_fn, holdings};

verus! {

/// The positions without the one at `i`; the last one takes its place.
pub open spec fn without_position(s: Seq<LockingPosition>, i: int) -> Seq<LockingPosition> {
    s.update(i, s.last()).drop_last()
}

/// When the unbond period of an unlocking position ends (milliseconds).
pub open spec fn unlock_end(p: LockingPosition) -> int {
    p.unlocking_started_at.unwrap() + p.locking_period * 86_400_000
}

/// Re-locking position `p` for `days` at `now` is refused where the end of
/// its unbond period does not fit in 64 bits, or where that end is still
/// ahead and the new period is not longer than what remains.
pub open spec fn relock_date_error(p: LockingPosition, days: u16, now: u64) -> Option<MetaVoteError> {
    if unlock_end(p) > u64::MAX {
        Some(MetaVoteError::Overflow)
    } else if now < unlock_end(p) && !(unlock_end(p) - now < days * 86_400_000) {
        Some(MetaVoteError::PeriodTooShort(spec_millis_to_days((unlock_end(p) - now) as u64) as u16))
    } else {
        None
    }
}

/// Why re-locking position `index` of voter `id` plus `from_balance` of its
/// balance for `days` is refused, if it is.
pub open spec fn relock_error(c: MetaVoteContract, id: Seq<char>, index: u64, days: u16, from_balance: u128, now: u64) -> Option<MetaVoteError> {
    if !c.voters@.contains_key(id) {
        Some(MetaVoteError::VoterNotFound)
    } else if index >= c.voter(id).locking_positions@.len() {
        Some(MetaVoteError::IndexOutOfRange)
    } else {
        let v = c.voter(id);
        let p = v.locking_positions@[index as int];
        if v.balance < from_balance {
            Some(MetaVoteError::NotEnoughBalance)
        } else if pos_locked(p) {
            Some(MetaVoteError::PositionIsLocked)
        } else if relock_date_error(p, days, now) is Some {
            relock_date_error(p, days, now)
        } else if p.amount + from_balance > u128::MAX {
            Some(MetaVoteError::Overflow)
        } else {
            deposit_error(
                c,
                without_position(v.locking_positions@, index as int),
                v.available_voting_power,
                (p.amount + from_balance) as u128,
                days,
            )
        }
    }
}

/// The balance and positions of voter `v` after taking `from_position` out
/// of its unlocking position `index` and `from_balance` out of its balance,
/// before the deposit: while the unbond period runs the position keeps the
/// rest (with its voting power computed anew), after it the rest goes to the
/// balance and the position is removed.
pub open spec fn relock_partial_parts(v: Voter, index: u64, from_position: u128, from_balance: u128, now: u64) -> (int, Seq<LockingPosition>) {
    let s = v.locking_positions@;
    let p = s[index as int];
    let rest = p.amount - from_position;
    if now < unlock_end(p) {
        (
            v.balance - from_balance,
            s.update(
                index as int,
                LockingPosition {
                    amount: rest as u128,
                    voting_power: spec_voting_power(rest, p.locking_period as int) as u128,
                    ..p
                },
            ),
        )
    } else {
        (v.balance + rest - from_balance, without_position(s, index as int))
    }
}

/// Why re-locking `from_position` of position `index` plus `from_balance` of
/// the balance of voter `id` for `days` is refused, if it is.
pub open spec fn relock_partial_error(c: MetaVoteContract, id: Seq<char>, index: u64, from_position: u128, days: u16, from_balance: u128, now: u64) -> Option<MetaVoteError> {
    if !c.voters@.contains_key(id) {
        Some(MetaVoteError::VoterNotFound)
    } else if index >= c.voter(id).locking_positions@.len() {
        Some(MetaVoteError::IndexOutOfRange)
    } else {
        let v = c.voter(id);
        let p = v.locking_positions@[index as int];
        let amount = from_balance + from_position;
        let rest = p.amount - from_position;
        if v.balance < from_balance {
            Some(MetaVoteError::NotEnoughBalance)
        } else if p.amount < from_position {
            Some(MetaVoteError::PositionAmountNotEnough)
        } else if amount > u128::MAX {
            Some(MetaVoteError::Overflow)
        } else if amount < c.min_deposit_amount {
            Some(MetaVoteError::BelowMinDeposit)
        } else if pos_locked(p) {
            Some(MetaVoteError::PositionIsLocked)
        } else if relock_date_error(p, days, now) is Some {
            relock_date_error(p, days, now)
        } else if now < unlock_end(p) && rest == 0 {
            Some(MetaVoteError::UseRelockPosition)
        } else if now < unlock_end(p) && !voting_power_defined(rest, p.locking_period as int) {
            Some(MetaVoteError::VotingPowerUndefined)
        } else if now >= unlock_end(p) && v.balance + rest > u128::MAX {
            Some(MetaVoteError::Overflow)
        } else {
            deposit_error(
                c,
                relock_partial_parts(v, index, from_position, from_balance, now).1,
                v.available_voting_power,
                amount as u128,
                days,
            )
        }
    }
}

/// Re-locking a whole position keeps what the voter holds: the position's
/// amount and what comes from the balance go into the deposit.
pub proof fn lemma_relock_keeps_holdings(v: Voter, nv: Voter, index: u64, from_balance: u128, days: u16)
    requires
        index < v.locking_positions@.len(),
        v.balance >= from_balance,
        v.locking_positions@[index as int].amount + from_balance <= u128::MAX,
        ({
            let s = without_position(v.locking_positions@, index as int);
            let amount = (v.locking_positions@[index as int].amount + from_balance) as u128;
            &&& first_locked_index(s, days) matches Some(j) ==> s[j].amount + amount <= u128::MAX
            &&& nv.locking_positions@ == deposited_positions(s, amount, days)
        }),
        nv.balance == v.balance - from_balance,
    ensures
        holdings(nv) == holdings(v),
{
    let s = without_position(v.locking_positions@, index as int);
    let amount = (v.locking_positions@[index as int].amount + from_balance) as u128;
    lemma_sum_swap_remove(v.locking_positions@, index as int, amount_fn());
    lemma_deposit_amount(s, amount, days);
}

/// Re-locking part of a position keeps what the voter holds: the part and
/// what comes from the balance go into the deposit, and the rest stays in
/// the position or, once its unbond period is over, goes to the balance.
pub proof fn lemma_relock_partial_keeps_holdings(v: Voter, nv: Voter, index: u64, from_position: u128, from_balance: u128, days: u16, now: u64)
    requires
        index < v.locking_positions@.len(),
        from_position <= v.locking_positions@[index as int].amount,
        from_position + from_balance <= u128::MAX,
        ({
            let parts = relock_partial_parts(v, index, from_position, from_balance, now);
            let amount = (from_position + from_balance) as u128;
            &&& first_locked_index(parts.1, days) matches Some(j) ==> parts.1[j].amount + amount <= u128::MAX
            &&& nv.locking_positions@ == deposited_positions(parts.1, amount, days)
            &&& nv.balance == parts.0
        }),
    ensures
        holdings(nv) == holdings(v),
{
    let s = v.locking_positions@;
    let p = s[index as int];
    let parts = relock_partial_parts(v, index, from_position, from_balance, now);
    let amount = (from_position + from_balance) as u128;
    if now < unlock_end(p) {
        let rest = p.amount - from_position;
        lemma_sum_update(s, index as int, LockingPosition {
            amount: rest as u128,
            voting_power: spec_voting_power(rest, p.locking_period as int) as u128,
            ..p
        }, amount_fn());
    } else {
        lemma_sum_swap_remove(s, index as int, amount_fn());
    }
    lemma_deposit_amount(parts.1, amount, days);
}

/// Why bonding `amount` of the balance of voter `id` for `days` is refused, if it is.
pub open spec fn relock_from_balance_error(c: MetaVoteContract, id: Seq<char>, days: u16, amount: u128) -> Option<MetaVoteError> {
    if !c.voters@.contains_key(id) {
        Some(MetaVoteError::VoterNotFound)
    } else if c.voter(id).balance < amount {
        Some(MetaVoteError::NotEnoughBalance)
    } else if amount < c.min_deposit_amount {
        Some(MetaVoteError::BelowMinDeposit)
    } else {
        deposit_error(c, c.voter(id).locking_positions@, c.voter(id).available_voting_power, amount, days)
    }
}

/// Why claiming `amount` of mpDAO into a position of `days` is refused, if it is.
pub open spec fn claim_and_lock_error(c: MetaVoteContract, id: Seq<char>, amount: u128, days: u16) -> Option<MetaVoteError> {
    if amount < c.min_deposit_amount {
        Some(MetaVoteError::BelowMinDeposit)
    } else if claimable_of(c.claimable_mpdao, id) < amount {
        Some(MetaVoteError::NotEnoughClaimable)
    } else if c.total_unclaimed_mpdao < amount {
        Some(MetaVoteError::Overflow)
    } else if !c.voters@.contains_key(id) {
        Some(MetaVoteError::VoterNotFound)
    } else {
        deposit_error(c, c.voter(id).locking_positions@, c.voter(id).available_voting_power, amount, days)
    }
}

impl MetaVoteContract {
    /// Bonds again the caller's unlocking or unlocked position `index`,
    /// together with `amount_from_balance` of its balance, for
    /// `locking_period` days: the position is removed (the last one takes its
    /// place) and the sum is deposited as `ft_on_transfer` deposits.
    pub fn relock_position(&mut self, caller: &String, index: u64, locking_period: u16, amount_from_balance: u128, now: u64) -> (r: Result<(), MetaVoteError>)
        requires
            old(self).wf(),
        ensures
            final(self).wf(),
            r is Ok ==> (old(self).votes_accounted() ==> final(self).votes_accounted()),
            r == (match relock_error(*old(self), caller@, index, locking_period, amount_from_balance, now) {
                Some(e) => Err(e),
                None => Ok(()),
            }),
            r is Err ==> *final(self) == *old(self),
            r is Ok ==> ({
                let v = old(self).voter(caller@);
                let p = v.locking_positions@[index as int];
                let amount = (p.amount + amount_from_balance) as u128;
                let vp = spec_voting_power(amount as int, locking_period as int);
                let nv = final(self).voter(caller@);
                &&& old(self).voter_replaced(final(self), caller@)
                &&& nv.locking_positions@ == deposited_positions(without_position(v.locking_positions@, index as int), amount, locking_period)
                &&& nv.balance == v.balance - amount_from_balance
                &&& nv.available_voting_power == v.available_voting_power + vp
                &&& nv.vote_positions == v.vote_positions
                &&& final(self).total_voting_power == old(self).total_voting_power + vp
                &&& *final(self) == (MetaVoteContract { voters: final(self).voters, total_voting_power: final(self).total_voting_power, ..*old(self) })
            }),
            r is Ok ==> (old(self).voters_balanced() ==> final(self).voters_balanced())
                && (old(self).vp_accounted() ==> final(self).vp_accounted()),
            r is Ok ==> holdings(final(self).voter(caller@)) == holdings(old(self).voter(caller@)),
    {
        let i = match self.voters.find(caller) {
            Some(i) => i,
            None => return Err(MetaVoteError::VoterNotFound),
        };
        proof {
            self.voters.lemma_index(i as int);
        }
        let n = self.voters.vals[i].locking_positions.len();
        if index >= n as u64 {
            return Err(MetaVoteError::IndexOutOfRange);
        }
        let p = self.voters.vals[i].get_position(index);
        if self.voters.vals[i].balance < amount_from_balance {
            return Err(MetaVoteError::NotEnoughBalance);
        }
        if p.is_locked() {
            return Err(MetaVoteError::PositionIsLocked);
        }
        let _end = self.check_relock_date(&p, locking_period, now)?;
        let amount = match p.amount.checked_add(amount_from_balance) {
            Some(a) => a,
            None => return Err(MetaVoteError::Overflow),
        };
        let mut rest: Vec<LockingPosition> = self.voters.vals[i].locking_positions.clone();
        assert(rest@ =~= self.voters.vals@[i as int].locking_positions@);
        rest.swap_remove(index as usize);
        let vp = self.deposit_check(&rest, self.voters.vals[i].available_voting_power, amount, locking_period)?;
        let ghost old_self = *self;
        let mut voter = self.voters.take_at(i, Voter::new());
        let ghost v0 = voter;
        voter.remove_position(index);
        voter.balance = voter.balance - amount_from_balance;
        proof {
            lemma_sum_swap_remove(v0.locking_positions@, index as int, locked_vp_fn());
        }
        self.deposit_locking_position(&mut voter, amount, locking_period, vp);
        proof {
            if old_self.voters_balanced() {
                assert(old_self.voters.vals@[i as int].vp_balanced());
            }
            lemma_replace_voter(old_self.voters.vals@, i as int, voter);
            if old_self.votes_accounted() {
                lemma_votes_keep(old_self.votes, old_self.voters.vals@, i as int, voter);
            }
        }
        self.voters.set_at(i, voter);
        proof {
            assert(self.voters.vals@ == old_self.voters.vals@.update(i as int, voter));
            self.voters.lemma_index(i as int);
            lemma_relock_keeps_holdings(v0, voter, index, amount_from_balance, locking_period);
        }
        Ok(())
    }

    /// Bonds again `amount_from_position` of the caller's unlocking or
    /// unlocked position `index`, together with `amount_from_balance` of its
    /// balance, for `locking_period` days. While the unbond period runs the
    /// position keeps the rest; after it the rest goes to the balance and the
    /// position is removed. The sum is deposited as `ft_on_transfer` deposits.
    pub fn relock_partial_position(&mut self, caller: &String, index: u64, amount_from_position: u128, locking_period: u16, amount_from_balance: u128, now: u64) -> (r: Result<(), MetaVoteError>)
        requires
            old(self).wf(),
        ensures
            final(self).wf(),
            r is Ok ==> (old(self).votes_accounted() ==> final(self).votes_accounted()),
            r == (match relock_partial_error(*old(self), caller@, index, amount_from_position, locking_period, amount_from_balance, now) {
                Some(e) => Err(e),
                None => Ok(()),
            }),
            r is Err ==> *final(self) == *old(self),
            r is Ok ==> ({
                let v = old(self).voter(caller@);
                let amount = (amount_from_position + amount_from_balance) as u128;
                let vp = spec_voting_power(amount as int, locking_period as int);
                let parts = relock_partial_parts(v, index, amount_from_position, amount_from_balance, now);
                let nv = final(self).voter(caller@);
                &&& old(self).voter_replaced(final(self), caller@)
                &&& nv.locking_positions@ == deposited_positions(parts.1, amount, locking_period)
                &&& nv.balance == parts.0
                &&& nv.available_voting_power == v.available_voting_power + vp
                &&& nv.vote_positions == v.vote_positions
                &&& final(self).total_voting_power == old(self).total_voting_power + vp
                &&& *final(self) == (MetaVoteContract { voters: final(self).voters, total_voting_power: final(self).total_voting_power, ..*old(self) })
            }),
            r is Ok ==> (old(self).voters_balanced() ==> final(self).voters_balanced())
                && (old(self).vp_accounted() ==> final(self).vp_accounted()),
            r is Ok ==> holdings(final(self).voter(caller@)) == holdings(old(self).voter(caller@)),
    {
        let i = match self.voters.find(caller) {
            Some(i) => i,
            None => return Err(MetaVoteError::VoterNotFound),
        };
        proof {
            self.voters.lemma_index(i as int);
        }
        let n = self.voters.vals[i].locking_positions.len();
        if index >= n as u64 {
            return Err(MetaVoteError::IndexOutOfRange);
        }
        let p = self.voters.vals[i].get_position(index);
        let balance = self.voters.vals[i].balance;
        if balance < amount_from_balance {
            return Err(MetaVoteError::NotEnoughBalance);
        }
        if p.amount < amount_from_position {
            return Err(MetaVoteError::PositionAmountNotEnough);
        }
        let amount = match amount_from_balance.checked_add(amount_from_position) {
            Some(a) => a,
            None => return Err(MetaVoteError::Overflow),
        };
        if amount < self.min_deposit_amount {
            return Err(MetaVoteError::BelowMinDeposit);
        }
        if p.is_locked() {
            return Err(MetaVoteError::PositionIsLocked);
        }
        let end = self.check_relock_date(&p, locking_period, now)?;
        let rest = p.amount - amount_from_position;
        let still_unlocking = now < end;
        let mut positions: Vec<LockingPosition> = self.voters.vals[i].locking_positions.clone();
        assert(positions@ =~= self.voters.vals@[i as int].locking_positions@);
        let new_balance: u128;
        if still_unlocking {
            if rest == 0 {
                return Err(MetaVoteError::UseRelockPosition);
            }
            let rest_vp = match checked_voting_power(rest, p.locking_period) {
                Some(x) => x,
                None => return Err(MetaVoteError::VotingPowerUndefined),
            };
            positions.set(index as usize, LockingPosition { amount: rest, voting_power: rest_vp, ..p });
            new_balance = balance - amount_from_balance;
        } else {
            let b = match balance.checked_add(rest) {
                Some(b) => b,
                None => return Err(MetaVoteError::Overflow),
            };
            positions.swap_remove(index as usize);
            new_balance = b - amount_from_balance;
        }
        let ghost v_old = self.voters.vals@[i as int];
        assert(positions@ == relock_partial_parts(v_old, index, amount_from_position, amount_from_balance, now).1);
        let vp = self.deposit_check(&positions, self.voters.vals[i].available_voting_power, amount, locking_period)?;
        let ghost old_self = *self;
        let mut voter = self.voters.take_at(i, Voter::new());
        let ghost v0 = voter;
        voter.locking_positions = positions;
        voter.balance = new_balance;
        proof {
            if still_unlocking {
                lemma_sum_update(v0.locking_positions@, index as int, voter.locking_positions@[index as int], locked_vp_fn());
            } else {
                lemma_sum_swap_remove(v0.locking_positions@, index as int, locked_vp_fn());
            }
        }
        self.deposit_locking_position(&mut voter, amount, locking_period, vp);
        proof {
            if old_self.voters_balanced() {
                assert(old_self.voters.vals@[i as int].vp_balanced());
            }
            lemma_replace_voter(old_self.voters.vals@, i as int, voter);
            if old_self.votes_accounted() {
                lemma_votes_keep(old_self.votes, old_self.voters.vals@, i as int, voter);
            }
        }
        self.voters.set_at(i, voter);
        proof {
            assert(self.voters.vals@ == old_self.voters.vals@.update(i as int, voter));
            self.voters.lemma_index(i as int);
            lemma_relock_partial_keeps_holdings(v0, voter, index, amount_from_position, amount_from_balance, locking_period, now);
        }
        Ok(())
    }

    /// Bonds `amount_from_balance` of the caller's balance for
    /// `locking_period` days, as `ft_on_transfer` deposits.
    pub fn relock_from_balance(&mut self, caller: &String, locking_period: u16, amount_from_balance: u128) -> (r: Result<(), MetaVoteError>)
        requires
            old(self).wf(),
        ensures
            final(self).wf(),
            r is Ok ==> (old(self).votes_accounted() ==> final(self).votes_accounted()),
            r == (match relock_from_balance_error(*old(self), caller@, locking_period, amount_from_balance) {
                Some(e) => Err(e),
                None => Ok(()),
            }),
            r is Err ==> *final(self) == *old(self),
            r is Ok ==> ({
                let v = old(self).voter(caller@);
                let vp = spec_voting_power(amount_from_balance as int, locking_period as int);
                let nv = final(self).voter(caller@);
                &&& old(self).voter_replaced(final(self), caller@)
                &&& nv.locking_positions@ == deposited_positions(v.locking_positions@, amount_from_balance, locking_period)
                &&& nv.balance == v.balance - amount_from_balance
                &&& nv.available_voting_power == v.available_voting_power + vp
                &&& nv.vote_positions == v.vote_positions
                &&& final(self).total_voting_power == old(self).total_voting_power + vp
                &&& *final(self) == (MetaVoteContract { voters: final(self).voters, total_voting_power: final(self).total_voting_power, ..*old(self) })
            }),
            r is Ok ==> (old(self).voters_balanced() ==> final(self).voters_balanced())
                && (old(self).vp_accounted() ==> final(self).vp_accounted()),
    {
        let i = match self.voters.find(caller) {
            Some(i) => i,
            None => return Err(MetaVoteError::VoterNotFound),
        };
        proof {
            self.voters.lemma_index(i as int);
        }
        if self.voters.vals[i].balance < amount_from_balance {
            return Err(MetaVoteError::NotEnoughBalance);
        }
        if amount_from_balance < self.min_deposit_amount {
            return Err(MetaVoteError::BelowMinDeposit);
        }
        let vp = self.deposit_check(&self.voters.vals[i].locking_positions, self.voters.vals[i].available_voting_power, amount_from_balance, locking_period)?;
        let ghost old_self = *self;
        let mut voter = self.voters.take_at(i, Voter::new());
        voter.balance = voter.balance - amount_from_balance;
        self.deposit_locking_position(&mut voter, amount_from_balance, locking_period, vp);
        proof {
            if old_self.voters_balanced() {
                assert(old_self.voters.vals@[i as int].vp_balanced());
            }
            lemma_replace_voter(old_self.voters.vals@, i as int, voter);
            if old_self.votes_accounted() {
                lemma_votes_keep(old_self.votes, old_self.voters.vals@, i as int, voter);
            }
        }
        self.voters.set_at(i, voter);
        proof {
            assert(self.voters.vals@ == old_self.voters.vals@.update(i as int, voter));
            self.voters.lemma_index(i as int);
        }
        Ok(())
    }

    /// Bonds `amount` of the mpDAO that the caller can claim for
    /// `locking_period` days: the claim shrinks by `amount` and the amount is
    /// deposited as `ft_on_transfer` deposits.
    pub fn claim_and_lock(&mut self, caller: &String, amount: u128, locking_period: u16) -> (r: Result<(), MetaVoteError>)
        requires
            old(self).wf(),
        ensures
            final(self).wf(),
            r is Ok ==> (old(self).votes_accounted() ==> final(self).votes_accounted()),
            r == (match claim_and_lock_error(*old(self), caller@, amount, locking_period) {
                Some(e) => Err(e),
                None => Ok(()),
            }),
            r is Err ==> *final(self) == *old(self),
            r is Ok ==> ({
                let v = old(self).voter(caller@);
                let vp = spec_voting_power(amount as int, locking_period as int);
                let nv = final(self).voter(caller@);
                &&& old(self).voter_replaced(final(self), caller@)
                &&& nv.locking_positions@ == deposited_positions(v.locking_positions@, amount, locking_period)
                &&& nv.balance == v.balance
                &&& nv.available_voting_power == v.available_voting_power + vp
                &&& nv.vote_positions == v.vote_positions
                &&& final(self).total_voting_power == old(self).total_voting_power + vp
                &&& final(self).claimable_mpdao@ == claims_removed(old(self).claimable_mpdao, caller@, amount)
                &&& final(self).total_unclaimed_mpdao == old(self).total_unclaimed_mpdao - amount
                &&& *final(self) == (MetaVoteContract {
                    voters: final(self).voters,
                    total_voting_power: final(self).total_voting_power,
                    claimable_mpdao: final(self).claimable_mpdao,
                    total_unclaimed_mpdao: final(self).total_unclaimed_mpdao,
                    ..*old(self)
                })
            }),
            r is Ok ==> (old(self).voters_balanced() ==> final(self).voters_balanced())
                && (old(self).vp_accounted() ==> final(self).vp_accounted())
                && (old(self).claims_accounted() ==> final(self).claims_accounted()),
    {
        if amount < self.min_deposit_amount {
            return Err(MetaVoteError::BelowMinDeposit);
        }
        let claimable: u128 = match self.claimable_mpdao.get(caller) {
            Some(c) => *c,
            None => 0,
        };
        if claimable < amount {
            return Err(MetaVoteError::NotEnoughClaimable);
        }
        if self.total_unclaimed_mpdao < amount {
            return Err(MetaVoteError::Overflow);
        }
        let i = match self.voters.find(caller) {
            Some(i) => i,
            None => return Err(MetaVoteError::VoterNotFound),
        };
        proof {
            self.voters.lemma_index(i as int);
        }
        let vp = self.deposit_check(&self.voters.vals[i].locking_positions, self.voters.vals[i].available_voting_power, amount, locking_period)?;
        let ghost old_self = *self;
        let removed = claim_remove(&mut self.claimable_mpdao, &mut self.total_unclaimed_mpdao, caller, amount);
        assert(removed is Ok);
        let mut voter = self.voters.take_at(i, Voter::new());
        self.deposit_locking_position(&mut voter, amount, locking_period, vp);
        proof {
            if old_self.voters_balanced() {
                assert(old_self.voters.vals@[i as int].vp_balanced());
            }
            lemma_replace_voter(old_self.voters.vals@, i as int, voter);
            if old_self.votes_accounted() {
                lemma_votes_keep(old_self.votes, old_self.voters.vals@, i as int, voter);
            }
        }
        self.voters.set_at(i, voter);
        proof {
            assert(self.voters.vals@ == old_self.voters.vals@.update(i as int, voter));
            self.voters.lemma_index(i as int);
        }
        Ok(())
    }

    /// Refuses a re-lock for `days` of position `p` at `now` as `relock_date_error` says.
    /// On success gives the end of the unbond period.
    fn check_relock_date(&self, p: &LockingPosition, days: u16, now: u64) -> (r: Result<u64, MetaVoteError>)
        requires
            !pos_locked(*p),
        ensures
            r is Ok <==> relock_date_error(*p, days, now) is None,
            r matches Err(e) ==> relock_date_error(*p, days, now) == Some(e),
            r matches Ok(end) ==> end == unlock_end(*p),
    {
        let start = match p.unlocking_started_at {
            Some(s) => s,
            None => return Ok(0),
        };
        let end = match start.checked_add(p.locking_period_millis()) {
            Some(e) => e,
            None => return Err(MetaVoteError::Overflow),
        };
        if now < end {
            let remaining = end - now;
            if !(remaining < days_to_millis(days)) {
                return Err(MetaVoteError::PeriodTooShort(millis_to_days(remaining)));
            }
        }
        Ok(end)
    }
}

} // verus!
