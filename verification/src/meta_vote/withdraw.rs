//! Withdrawing free mpDAO, claiming stNEAR, and the callbacks that give a
//! failed transfer back.
use vstd::prelude::*;
use crate::locking_position::LockingPosition;
use crate::meta_vote::{MetaVoteContract, MetaVoteError, TokenTransfer, sum_voter_vp, all_balanced, all_voters_wf, lemma_replace_voter, lemma_push_voter, lemma_swap_remove_voter, claimable_of, claims_added, claims_removed, claim_add, claim_remove};
use crate::meta_vote::voting::{lemma_votes_keep, lemma_votes_push_empty, lemma_votes_remove_silent};
use crate::seq_sum::{lemma_sum_empty, lemma_sum_nonneg, lemma_sum_swap_remove};
use crate::str_map::StrMap;
use crate::voter::{ClearError, Voter, locked_voting_power, locked_vp_fn, inner_sum_fn, used_votes, votes_at, sort_desc, clear_result, clear_step, unlocked_amount, unlocked_amount_fn};
use crate::locking_position::pos_unlocked;
use crate::votes::lemma_votes_at_le_used;

verus! {

/// What withdrawing leaves of voter `v`: its balance and positions after
/// clearing the positions of `list` (when it is not empty) and taking out the
/// amount, and the amount (the whole balance where none is given); or why it
/// is refused.
pub open spec fn withdraw_result(v: Voter, list: Seq<u64>, amount: Option<u128>, now: u64) -> Result<(int, Seq<LockingPosition>, u128), MetaVoteError> {
    let cleared = if list.len() > 0 {
        clear_result((v.balance as int, v.locking_positions@), sort_desc(list), now)
    } else {
        Ok((v.balance as int, v.locking_positions@))
    };
    match cleared {
        Err(ClearError::IndexOutOfRange) => Err(MetaVoteError::IndexOutOfRange),
        Err(ClearError::BalanceOverflow) => Err(MetaVoteError::Overflow),
        Ok(st) => {
            let total = match amount {
                Some(a) => a as int,
                None => st.0,
            };
            if total == 0 {
                Err(MetaVoteError::NothingToWithdraw)
            } else if st.0 < total {
                Err(MetaVoteError::NotEnoughBalance)
            } else {
                Ok((st.0 - total, st.1, total as u128))
            }
        },
    }
}

/// Clearing positions moves the amount of each position whose unbond period
/// is over from the positions to the balance: the balance plus what is
/// unbonded stays the same.
proof fn lemma_clear_keeps_withdrawable(st: (int, Seq<LockingPosition>), l: Seq<u64>, now: u64)
    requires
        clear_result(st, l, now) is Ok,
    ensures
        clear_result(st, l, now)->Ok_0.0 + unlocked_amount(clear_result(st, l, now)->Ok_0.1, now)
            == st.0 + unlocked_amount(st.1, now),
        clear_result(st, l, now)->Ok_0.0 >= st.0,
    decreases l.len(),
{
    if l.len() > 0 {
        lemma_clear_keeps_withdrawable(st, l.drop_last(), now);
        let s2 = clear_result(st, l.drop_last(), now)->Ok_0;
        let i = l.last() as int;
        if pos_unlocked(s2.1[i], now) {
            lemma_sum_swap_remove(s2.1, i, unlocked_amount_fn(now));
        }
    }
}

/// Tokens leave only after their unbond period: a withdrawal pays at most the
/// voter's free balance plus the amounts of its positions whose unbond period
/// is over at `now`, and what stays is the rest of that sum.
pub proof fn lemma_withdraw_waits_for_unbond(v: Voter, list: Seq<u64>, amount: Option<u128>, now: u64)
    requires
        withdraw_result(v, list, amount, now) is Ok,
    ensures
        ({
            let res = withdraw_result(v, list, amount, now)->Ok_0;
            &&& res.2 <= v.balance + unlocked_amount(v.locking_positions@, now)
            &&& res.0 + res.2 + unlocked_amount(res.1, now) == v.balance + unlocked_amount(v.locking_positions@, now)
        }),
{
    let st0 = (v.balance as int, v.locking_positions@);
    let cleared = if list.len() > 0 {
        clear_result(st0, sort_desc(list), now)
    } else {
        Ok(st0)
    };
    if list.len() > 0 {
        lemma_clear_keeps_withdrawable(st0, sort_desc(list), now);
    }
    let st = cleared->Ok_0;
    assert(st.0 <= u128::MAX) by {
        if list.len() > 0 && sort_desc(list).len() > 0 {
            let l = sort_desc(list);
            let s2 = clear_result(st0, l.drop_last(), now)->Ok_0;
            assert(clear_step(s2, l.last(), now) is Some);
        }
    }
    assert(st.0 + unlocked_amount(st.1, now) == v.balance + unlocked_amount(v.locking_positions@, now));
    let total = match amount {
        Some(a) => a as int,
        None => st.0,
    };
    assert(cleared is Ok);
    assert(st.0 >= 0);
    assert(total != 0 && st.0 >= total);
    assert(withdraw_result(v, list, amount, now) == Ok::<(int, Seq<LockingPosition>, u128), MetaVoteError>((st.0 - total, st.1, total as u128)));
    let res = withdraw_result(v, list, amount, now)->Ok_0;
    assert(res.0 + res.2 == st.0 && res.1 == st.1 && res.0 >= 0);
    assert forall|i: int| 0 <= i < res.1.len() implies unlocked_amount_fn(now)(#[trigger] res.1[i]) >= 0 by {}
    lemma_sum_nonneg(res.1, unlocked_amount_fn(now));
}

/// Why withdrawing is refused, if it is.
pub open spec fn withdraw_error(c: MetaVoteContract, id: Seq<char>, attached_deposit: u128, list: Seq<u64>, amount: Option<u128>, now: u64) -> Option<MetaVoteError> {
    if attached_deposit != 1 {
        Some(MetaVoteError::RequiresOneYocto)
    } else if !c.voters@.contains_key(id) {
        Some(MetaVoteError::VoterNotFound)
    } else {
        match withdraw_result(c.voter(id), list, amount, now) {
            Err(e) => Some(e),
            Ok(_) => None,
        }
    }
}

/// The state after a withdrawal of voter `id` that leaves balance `b` and
/// positions `ps`: a voter left with nothing loses its record.
pub open spec fn withdrawn(old: MetaVoteContract, new: MetaVoteContract, id: Seq<char>, b: int, ps: Seq<LockingPosition>) -> bool {
    let v = old.voter(id);
    &&& b == 0 && ps.len() == 0 ==> new.voters@ == old.voters@.remove(id)
    &&& !(b == 0 && ps.len() == 0) ==> {
        let nv = new.voter(id);
        &&& old.voter_replaced(&new, id)
        &&& nv.balance == b
        &&& nv.locking_positions@ == ps
        &&& nv.available_voting_power == v.available_voting_power
        &&& nv.vote_positions == v.vote_positions
    }
    &&& new == (MetaVoteContract { voters: new.voters, ..old })
}

impl MetaVoteContract {
    /// Withdraws free mpDAO of `caller` after clearing the positions of
    /// `position_index_list`; on success gives the transfer to make.
    fn internal_withdraw(&mut self, caller: &String, attached_deposit: u128, position_index_list: Vec<u64>, amount: Option<u128>, now: u64) -> (r: Result<TokenTransfer, MetaVoteError>)
        requires
            old(self).wf(),
        ensures
            final(self).wf(),
            r matches Err(e) ==> withdraw_error(*old(self), caller@, attached_deposit, position_index_list@, amount, now) == Some(e),
            r is Ok <==> withdraw_error(*old(self), caller@, attached_deposit, position_index_list@, amount, now) is None,
            r is Err ==> *final(self) == *old(self),
            r matches Ok(t) ==> ({
                let res = withdraw_result(old(self).voter(caller@), position_index_list@, amount, now)->Ok_0;
                &&& t == (TokenTransfer { token: old(self).mpdao_token_contract_address, receiver: *caller, amount: res.2, source: *caller })
                &&& withdrawn(*old(self), *final(self), caller@, res.0, res.1)
            }),
            r is Ok ==> (old(self).voters_balanced() ==> final(self).voters_balanced())
                && (old(self).vp_accounted() ==> final(self).vp_accounted())
                && (old(self).votes_accounted() && old(self).voters_balanced() ==> final(self).votes_accounted()),
    {
        if attached_deposit != 1 {
            return Err(MetaVoteError::RequiresOneYocto);
        }
        let i = match self.voters.find(caller) {
            Some(i) => i,
            None => return Err(MetaVoteError::VoterNotFound),
        };
        proof {
            self.voters.lemma_index(i as int);
        }
        let ghost list = position_index_list@;
        let mut scratch = Voter::new();
        scratch.balance = self.voters.vals[i].balance;
        scratch.locking_positions = self.voters.vals[i].locking_positions.clone();
        assert(scratch.locking_positions@ =~= self.voters.vals@[i as int].locking_positions@);
        if position_index_list.len() > 0 {
            match scratch.clear_fully_unlocked_positions(position_index_list, now) {
                Ok(()) => {},
                Err(ClearError::IndexOutOfRange) => return Err(MetaVoteError::IndexOutOfRange),
                Err(ClearError::BalanceOverflow) => return Err(MetaVoteError::Overflow),
            }
        }
        let total = match amount {
            Some(a) => a,
            None => scratch.balance,
        };
        if total == 0 {
            return Err(MetaVoteError::NothingToWithdraw);
        }
        if scratch.balance < total {
            return Err(MetaVoteError::NotEnoughBalance);
        }
        let new_balance = scratch.balance - total;
        let ghost old_self = *self;
        let ghost v0 = self.voters.vals@[i as int];
        if new_balance == 0 && scratch.locking_positions.len() == 0 {
            proof {
                crate::seq_sum::lemma_sum_empty(scratch.locking_positions@, locked_vp_fn());
                assert(locked_voting_power(v0.locking_positions@) == 0);
                lemma_swap_remove_voter(old_self.voters.vals@, i as int);
                if old_self.votes_accounted() && old_self.voters_balanced() {
                    assert(v0.vp_balanced());
                    assert(v0.wf());
                    assert forall|x: Seq<char>, y: Seq<char>| #[trigger] votes_at(v0.vote_positions, x, y) == 0 by {
                        lemma_votes_at_le_used(v0.vote_positions, x, y);
                    }
                    lemma_votes_remove_silent(old_self.votes, old_self.voters.vals@, i as int);
                }
            }
            self.voters.remove(caller);
            proof {
                assert(self.voters.vals@ == old_self.voters.vals@.update(i as int, old_self.voters.vals@.last()).drop_last());
                assert forall|j: int| 0 <= j < self.voters.vals@.len() implies (#[trigger] self.voters.vals@[j]).wf() by {
                    if j == i {
                        assert(self.voters.vals@[j] == old_self.voters.vals@[old_self.voters.vals@.len() - 1]);
                    } else {
                        assert(self.voters.vals@[j] == old_self.voters.vals@[j]);
                    }
                }
            }
        } else {
            let mut voter = self.voters.take_at(i, Voter::new());
            voter.balance = new_balance;
            voter.locking_positions = scratch.locking_positions;
            proof {
                if old_self.voters_balanced() {
                    assert(old_self.voters.vals@[i as int].vp_balanced());
                }
                lemma_replace_voter(old_self.voters.vals@, i as int, voter);
                if old_self.votes_accounted() {
                    lemma_votes_keep(old_self.votes, old_self.voters.vals@, i as int, voter);
                }
            }
            self.voters.set_at(i, voter);
            proof {
                assert(self.voters.vals@ == old_self.voters.vals@.update(i as int, voter));
                self.voters.lemma_index(i as int);
            }
        }
        Ok(TokenTransfer { token: self.mpdao_token_contract_address.clone(), receiver: caller.clone(), amount: total, source: caller.clone() })
    }

    /// Withdraws `amount_from_balance` of the caller's free mpDAO (all of it
    /// where the amount is zero), after clearing the positions of
    /// `position_index_list` whose unbond period is over. The call attaches
    /// one yoctoNEAR. A voter left with nothing loses its record. On success
    /// gives the transfer of mpDAO to the caller, whose result comes back
    /// through `after_transfer_mpdao_callback`.
    pub fn withdraw(&mut self, caller: &String, attached_deposit: u128, position_index_list: Vec<u64>, amount_from_balance: u128, now: u64) -> (r: Result<TokenTransfer, MetaVoteError>)
        requires
            old(self).wf(),
        ensures
            final(self).wf(),
            ({
                let amount = if amount_from_balance == 0 { None } else { Some(amount_from_balance) };
                &&& r matches Err(e) ==> withdraw_error(*old(self), caller@, attached_deposit, position_index_list@, amount, now) == Some(e)
                &&& r is Ok <==> withdraw_error(*old(self), caller@, attached_deposit, position_index_list@, amount, now) is None
                &&& r matches Ok(t) ==> ({
                    let res = withdraw_result(old(self).voter(caller@), position_index_list@, amount, now)->Ok_0;
                    &&& t == (TokenTransfer { token: old(self).mpdao_token_contract_address, receiver: *caller, amount: res.2, source: *caller })
                    &&& withdrawn(*old(self), *final(self), caller@, res.0, res.1)
                })
            }),
            r is Err ==> *final(self) == *old(self),
            r is Ok ==> (old(self).voters_balanced() ==> final(self).voters_balanced())
                && (old(self).vp_accounted() ==> final(self).vp_accounted())
                && (old(self).votes_accounted() && old(self).voters_balanced() ==> final(self).votes_accounted()),
    {
        let amount = if amount_from_balance == 0 { None } else { Some(amount_from_balance) };
        self.internal_withdraw(caller, attached_deposit, position_index_list, amount, now)
    }

    /// Withdraws all of the caller's free mpDAO after clearing every position
    /// whose unbond period is over at `now`.
    pub fn withdraw_all(&mut self, caller: &String, attached_deposit: u128, now: u64) -> (r: Result<TokenTransfer, MetaVoteError>)
        requires
            old(self).wf(),
        ensures
            final(self).wf(),
            !old(self).voters@.contains_key(caller@) ==> r == Err::<TokenTransfer, MetaVoteError>(MetaVoteError::VoterNotFound),
            old(self).voters@.contains_key(caller@) ==> exists|list: Seq<u64>| {
                &&& (forall|k: int| 0 <= k < list.len() ==> #[trigger] list[k] < old(self).voter(caller@).locking_positions@.len()
                    && crate::locking_position::pos_unlocked(old(self).voter(caller@).locking_positions@[list[k] as int], now))
                &&& (forall|i: int| 0 <= i < old(self).voter(caller@).locking_positions@.len()
                    && crate::locking_position::pos_unlocked(old(self).voter(caller@).locking_positions@[i], now) ==> list.contains(i as u64))
                &&& (forall|k: int, m: int| 0 <= k < m < list.len() ==> list[k] < list[m])
                &&& (r matches Err(e) ==> withdraw_error(*old(self), caller@, attached_deposit, list, None, now) == Some(e))
                &&& (r is Ok <==> withdraw_error(*old(self), caller@, attached_deposit, list, None, now) is None)
                &&& (r matches Ok(t) ==> ({
                    let res = withdraw_result(old(self).voter(caller@), list, None, now)->Ok_0;
                    &&& t == (TokenTransfer { token: old(self).mpdao_token_contract_address, receiver: *caller, amount: res.2, source: *caller })
                    &&& withdrawn(*old(self), *final(self), caller@, res.0, res.1)
                }))
            },
            r is Err ==> *final(self) == *old(self),
            r is Ok ==> (old(self).voters_balanced() ==> final(self).voters_balanced())
                && (old(self).vp_accounted() ==> final(self).vp_accounted())
                && (old(self).votes_accounted() && old(self).voters_balanced() ==> final(self).votes_accounted()),
    {
        let i = match self.voters.find(caller) {
            Some(i) => i,
            None => return Err(MetaVoteError::VoterNotFound),
        };
        proof {
            self.voters.lemma_index(i as int);
        }
        let list = self.voters.vals[i].get_unlocked_position_indexes(now);
        let ghost l = list@;
        let r = self.internal_withdraw(caller, attached_deposit, list, None, now);
        assert(forall|k: int| 0 <= k < l.len() ==> #[trigger] l[k] < old(self).voter(caller@).locking_positions@.len());
        r
    }

    /// The result of a transfer of `amount` mpDAO to `voter_id`: when it
    /// failed the amount returns to the voter's balance (a voter without a
    /// record gets a new one).
    pub fn after_transfer_mpdao_callback(&mut self, voter_id: &String, amount: u128, success: bool) -> (r: Result<(), MetaVoteError>)
        requires
            old(self).wf(),
        ensures
            final(self).wf(),
            success ==> r is Ok && *final(self) == *old(self),
            !success && old(self).voters@.contains_key(voter_id@) ==> ({
                let v = old(self).voter(voter_id@);
                &&& (r is Ok <==> v.balance + amount <= u128::MAX)
                &&& (r is Err ==> r == Err::<(), MetaVoteError>(MetaVoteError::Overflow))
                &&& (r is Ok ==> ({
                    let nv = final(self).voter(voter_id@);
                    &&& old(self).voter_replaced(final(self), voter_id@)
                    &&& nv.balance == v.balance + amount
                    &&& nv.locking_positions == v.locking_positions
                    &&& nv.available_voting_power == v.available_voting_power
                    &&& nv.vote_positions == v.vote_positions
                }))
            }),
            !success && !old(self).voters@.contains_key(voter_id@) ==> r is Ok && ({
                let nv = final(self).voter(voter_id@);
                &&& final(self).voters@.dom() == old(self).voters@.dom().insert(voter_id@)
                &&& final(self).voters@.remove(voter_id@) == old(self).voters@.remove(voter_id@)
                &&& nv.balance == amount
                &&& nv.locking_positions@.len() == 0
                &&& nv.available_voting_power == 0
                &&& nv.vote_positions@ == Map::<Seq<char>, StrMap<u128>>::empty()
            }),
            r is Err ==> *final(self) == *old(self),
            r is Ok ==> *final(self) == (MetaVoteContract { voters: final(self).voters, ..*old(self) }),
            r is Ok ==> (old(self).voters_balanced() ==> final(self).voters_balanced())
                && (old(self).vp_accounted() ==> final(self).vp_accounted())
                && (old(self).votes_accounted() ==> final(self).votes_accounted()),
    {
        if success {
            return Ok(());
        }
        self.restore_transfer_to_mpdao(amount, voter_id)
    }

    /// Gives `amount` back to the balance of `voter_id`.
    fn restore_transfer_to_mpdao(&mut self, amount: u128, voter_id: &String) -> (r: Result<(), MetaVoteError>)
        requires
            old(self).wf(),
        ensures
            final(self).wf(),
            old(self).voters@.contains_key(voter_id@) ==> ({
                let v = old(self).voter(voter_id@);
                &&& (r is Ok <==> v.balance + amount <= u128::MAX)
                &&& (r is Err ==> r == Err::<(), MetaVoteError>(MetaVoteError::Overflow))
                &&& (r is Ok ==> ({
                    let nv = final(self).voter(voter_id@);
                    &&& old(self).voter_replaced(final(self), voter_id@)
                    &&& nv.balance == v.balance + amount
                    &&& nv.locking_positions == v.locking_positions
                    &&& nv.available_voting_power == v.available_voting_power
                    &&& nv.vote_positions == v.vote_positions
                }))
            }),
            !old(self).voters@.contains_key(voter_id@) ==> r is Ok && ({
                let nv = final(self).voter(voter_id@);
                &&& final(self).voters@.dom() == old(self).voters@.dom().insert(voter_id@)
                &&& final(self).voters@.remove(voter_id@) == old(self).voters@.remove(voter_id@)
                &&& nv.balance == amount
                &&& nv.locking_positions@.len() == 0
                &&& nv.available_voting_power == 0
                &&& nv.vote_positions@ == Map::<Seq<char>, StrMap<u128>>::empty()
            }),
            r is Err ==> *final(self) == *old(self),
            r is Ok ==> *final(self) == (MetaVoteContract { voters: final(self).voters, ..*old(self) }),
            r is Ok ==> (old(self).voters_balanced() ==> final(self).voters_balanced())
                && (old(self).vp_accounted() ==> final(self).vp_accounted())
                && (old(self).votes_accounted() ==> final(self).votes_accounted()),
    {
        let ghost old_self = *self;
        match self.voters.find(voter_id) {
            Some(i) => {
                proof {
                    self.voters.lemma_index(i as int);
                }
                let balance = match self.voters.vals[i].balance.checked_add(amount) {
                    Some(b) => b,
                    None => return Err(MetaVoteError::Overflow),
                };
                let mut voter = self.voters.take_at(i, Voter::new());
                voter.balance = balance;
                proof {
                    if old_self.voters_balanced() {
                        assert(old_self.voters.vals@[i as int].vp_balanced());
                    }
                    lemma_replace_voter(old_self.voters.vals@, i as int, voter);
                    if old_self.votes_accounted() {
                        lemma_votes_keep(old_self.votes, old_self.voters.vals@, i as int, voter);
                    }
                }
                self.voters.set_at(i, voter);
                proof {
                    assert(self.voters.vals@ == old_self.voters.vals@.update(i as int, voter));
                    self.voters.lemma_index(i as int);
                }
                Ok(())
            },
            None => {
                let mut voter = Voter::new();
                voter.balance = amount;
                proof {
                    lemma_push_voter(old_self.voters.vals@, voter);
                    if old_self.votes_accounted() {
                        lemma_votes_push_empty(old_self.votes, old_self.voters.vals@, voter);
                    }
                }
                self.voters.insert(voter_id, voter);
                proof {
                    self.voters.lemma_index(self.voters.keys@.len() - 1);
                    assert(self.voters@.dom() =~= old_self.voters@.dom().insert(voter_id@));
                    assert(self.voters@.remove(voter_id@) =~= old_self.voters@.remove(voter_id@));
                }
                Ok(())
            },
        }
    }

    /// Claims `amount` of the stNEAR that the caller can claim; on success
    /// gives the transfer of stNEAR to the caller, whose result comes back
    /// through `after_transfer_stnear_callback`.
    pub fn claim_stnear(&mut self, caller: &String, amount: u128) -> (r: Result<TokenTransfer, MetaVoteError>)
        requires
            old(self).wf(),
        ensures
            final(self).wf(),
            r is Ok <==> claimable_of(old(self).claimable_stnear, caller@) >= amount && old(self).total_unclaimed_stnear >= amount,
            claimable_of(old(self).claimable_stnear, caller@) < amount ==> r == Err::<TokenTransfer, MetaVoteError>(MetaVoteError::NotEnoughClaimable),
            claimable_of(old(self).claimable_stnear, caller@) >= amount && old(self).total_unclaimed_stnear < amount
                ==> r == Err::<TokenTransfer, MetaVoteError>(MetaVoteError::Overflow),
            r is Err ==> *final(self) == *old(self),
            r matches Ok(t) ==> t == (TokenTransfer { token: old(self).stnear_token_contract_address, receiver: *caller, amount, source: *caller }),
            r is Ok ==> final(self).claimable_stnear@ == claims_removed(old(self).claimable_stnear, caller@, amount)
                && final(self).total_unclaimed_stnear == old(self).total_unclaimed_stnear - amount,
            r is Ok ==> *final(self) == (MetaVoteContract {
                claimable_stnear: final(self).claimable_stnear,
                total_unclaimed_stnear: final(self).total_unclaimed_stnear,
                ..*old(self)
            }),
            r is Ok ==> (old(self).claims_accounted() ==> final(self).claims_accounted()),
    {
        claim_remove(&mut self.claimable_stnear, &mut self.total_unclaimed_stnear, caller, amount)?;
        Ok(TokenTransfer { token: self.stnear_token_contract_address.clone(), receiver: caller.clone(), amount, source: caller.clone() })
    }

    /// The result of a transfer of `amount` stNEAR claimed by `source`: when
    /// it failed the amount becomes claimable again.
    pub fn after_transfer_stnear_callback(&mut self, source: &String, amount: u128, success: bool) -> (r: Result<(), MetaVoteError>)
        requires
            old(self).wf(),
        ensures
            final(self).wf(),
            success ==> r is Ok && *final(self) == *old(self),
            !success ==> r == (if amount == 0 {
                Err(MetaVoteError::ZeroClaim)
            } else if claimable_of(old(self).claimable_stnear, source@) + amount > u128::MAX || old(self).total_unclaimed_stnear + amount > u128::MAX {
                Err(MetaVoteError::Overflow)
            } else {
                Ok(())
            }),
            r is Err ==> *final(self) == *old(self),
            !success && r is Ok ==> final(self).claimable_stnear@ == claims_added(old(self).claimable_stnear, source@, amount)
                && final(self).total_unclaimed_stnear == old(self).total_unclaimed_stnear + amount,
            r is Ok ==> *final(self) == (MetaVoteContract {
                claimable_stnear: final(self).claimable_stnear,
                total_unclaimed_stnear: final(self).total_unclaimed_stnear,
                ..*old(self)
            }),
            r is Ok ==> (old(self).claims_accounted() ==> final(self).claims_accounted()),
    {
        if success {
            return Ok(());
        }
        claim_add(&mut self.claimable_stnear, &mut self.total_unclaimed_stnear, source, amount)
    }
}

} // verus!
