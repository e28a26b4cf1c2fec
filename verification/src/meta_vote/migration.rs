//! Moving locking positions over from the previous governance contract, and
//! the operator's bulk setting of associated data.
use vstd::prelude::*;
use crate::locking_position::LockingPosition;
use crate::meta_vote::{MetaVoteContract, MetaVoteError, all_balanced, all_voters_wf, lemma_replace_voter, lemma_push_voter};
use crate::meta_vote::locking::{deposit_error_with, deposited_positions};
use crate::meta_vote::voting::{lemma_votes_keep, lemma_votes_push_empty};
use crate::str_map::StrMap;
use crate::utils::spec_voting_power;
use crate::voter::{Voter, locked_voting_power, locked_vp_fn, inner_sum_fn};

verus! {

/// The mpDAO of an amount of the previous token (24 decimals; mpDAO has 6).
pub open spec fn mpdao_of(amount: u128) -> u128 {
    (amount / 1_000_000_000_000_000_000) as u128
}

/// Depositing the positions `lps` (amount of the previous token, days) one
/// by one into positions `s` with free voting power `available`, for a
/// contract total `total`: the positions, free voting power and total at the
/// end, or the first error.
pub open spec fn migrated(c: MetaVoteContract, s: Seq<LockingPosition>, available: u128, total: u128, lps: Seq<(u128, u16)>) -> Result<(Seq<LockingPosition>, u128, u128), MetaVoteError>
    decreases lps.len(),
{
    if lps.len() == 0 {
        Ok((s, available, total))
    } else {
        match migrated(c, s, available, total, lps.drop_last()) {
            Err(e) => Err(e),
            Ok(st) => {
                let amount = mpdao_of(lps.last().0);
                let days = lps.last().1;
                match deposit_error_with(c.min_unbond_period, c.max_unbond_period, c.max_locking_positions, st.2, st.0, st.1, amount, days) {
                    Some(e) => Err(e),
                    None => {
                        let vp = spec_voting_power(amount as int, days as int);
                        Ok((deposited_positions(st.0, amount, days), (st.1 + vp) as u128, (st.2 + vp) as u128))
                    },
                }
            },
        }
    }
}

/// The positions and free voting power of account `id` (none for an account
/// without a record).
pub open spec fn current_of(c: MetaVoteContract, id: Seq<char>) -> (Seq<LockingPosition>, u128) {
    if c.voters@.contains_key(id) {
        (c.voter(id).locking_positions@, c.voter(id).available_voting_power)
    } else {
        (Seq::empty(), 0)
    }
}

/// Why moving positions `lps` over for `voter_id` is refused, if it is.
pub open spec fn migration_error(c: MetaVoteContract, caller: Seq<char>, voter_id: Seq<char>, lps: Seq<(u128, u16)>) -> Option<MetaVoteError> {
    if caller != c.prev_governance_contract@ {
        Some(MetaVoteError::OnlyPrevGovContract)
    } else {
        match migrated(c, current_of(c, voter_id).0, current_of(c, voter_id).1, c.total_voting_power, lps) {
            Err(e) => Some(e),
            Ok(_) => None,
        }
    }
}

impl MetaVoteContract {
    /// Moves positions over from the previous governance contract (which is
    /// the only caller): each `(amount, days)` is deposited for `voter_id`,
    /// the amount turned from 24 decimals into mpDAO. Where `data` is given
    /// and the caller has no associated data, it becomes the caller's.
    pub fn migration_create_lps(&mut self, caller: &String, voter_id: &String, locking_positions: Vec<(u128, u16)>, encrypted_associated_user_data: Option<String>) -> (r: Result<(), MetaVoteError>)
        requires
            old(self).wf(),
        ensures
            final(self).wf(),
            r == (match migration_error(*old(self), caller@, voter_id@, locking_positions@) {
                Some(e) => Err(e),
                None => Ok(()),
            }),
            r is Err ==> *final(self) == *old(self),
            r is Ok && locking_positions@.len() > 0 ==> ({
                let cur = current_of(*old(self), voter_id@);
                let st = migrated(*old(self), cur.0, cur.1, old(self).total_voting_power, locking_positions@)->Ok_0;
                let nv = final(self).voter(voter_id@);
                &&& final(self).voters@.dom() == old(self).voters@.dom().insert(voter_id@)
                &&& final(self).voters@.remove(voter_id@) == old(self).voters@.remove(voter_id@)
                &&& nv.locking_positions@ == st.0
                &&& nv.available_voting_power == st.1
                &&& old(self).voters@.contains_key(voter_id@) ==> nv.balance == old(self).voter(voter_id@).balance
                    && nv.vote_positions == old(self).voter(voter_id@).vote_positions
                &&& !old(self).voters@.contains_key(voter_id@) ==> nv.balance == 0
                    && nv.vote_positions@ == Map::<Seq<char>, StrMap<u128>>::empty()
                &&& final(self).total_voting_power == st.2
            }),
            r is Ok && locking_positions@.len() == 0 ==> final(self).voters == old(self).voters
                && final(self).total_voting_power == old(self).total_voting_power,
            r is Ok ==> final(self).associated_user_data@ == match encrypted_associated_user_data {
                Some(d) => if old(self).associated_user_data@.contains_key(caller@) {
                    old(self).associated_user_data@
                } else {
                    old(self).associated_user_data@.insert(caller@, d)
                },
                None => old(self).associated_user_data@,
            },
            r is Ok ==> *final(self) == (MetaVoteContract {
                voters: final(self).voters,
                total_voting_power: final(self).total_voting_power,
                associated_user_data: final(self).associated_user_data,
                ..*old(self)
            }),
            r is Ok ==> (old(self).voters_balanced() ==> final(self).voters_balanced())
                && (old(self).vp_accounted() ==> final(self).vp_accounted())
                && (old(self).votes_accounted() ==> final(self).votes_accounted()),
    {
        if *caller != self.prev_governance_contract {
            return Err(MetaVoteError::OnlyPrevGovContract);
        }
        let ghost old_self = *self;
        let found = self.voters.find(voter_id);
        let mut positions: Vec<LockingPosition>;
        let mut available: u128;
        match found {
            Some(i) => {
                proof {
                    self.voters.lemma_index(i as int);
                }
                positions = self.voters.vals[i].locking_positions.clone();
                assert(positions@ =~= self.voters.vals@[i as int].locking_positions@);
                available = self.voters.vals[i].available_voting_power;
            },
            None => {
                positions = Vec::new();
                assert(positions@ =~= Seq::<LockingPosition>::empty());
                available = 0;
            },
        }
        let ghost p0 = positions@;
        let ghost a0 = available;
        let mut total = self.total_voting_power;
        let ghost lps = locking_positions@;
        let mut k: usize = 0;
        assert(lps.take(0) =~= Seq::<(u128, u16)>::empty());
        while k < locking_positions.len()
            invariant
                0 <= k <= lps.len(),
                lps == locking_positions@,
                *self == old_self,
                self.wf(),
                caller@ == old_self.prev_governance_contract@,
                p0 == current_of(old_self, voter_id@).0,
                a0 == current_of(old_self, voter_id@).1,
                migrated(old_self, p0, a0, old_self.total_voting_power, lps.take(k as int)) == Ok::<(Seq<LockingPosition>, u128, u128), MetaVoteError>((positions@, available, total)),
                locked_voting_power(positions@) - locked_voting_power(p0) == total - old_self.total_voting_power,
                available - a0 == total - old_self.total_voting_power,
                p0.len() < 256 ==> positions@.len() < 256,
            decreases lps.len() - k,
        {
            assert(lps.take(k as int + 1).drop_last() =~= lps.take(k as int));
            assert(lps.take(k as int + 1).last() == lps[k as int]);
            let amount = locking_positions[k].0 / 1_000_000_000_000_000_000;
            let days = locking_positions[k].1;
            match self.deposit_into(&mut positions, &mut available, &mut total, amount, days) {
                Ok(()) => {},
                Err(e) => {
                    assert(migrated(old_self, p0, a0, old_self.total_voting_power, lps.take(k as int + 1)) == Err::<(Seq<LockingPosition>, u128, u128), MetaVoteError>(e));
                    proof {
                        lemma_migrated_err_prefix(old_self, p0, a0, old_self.total_voting_power, lps, k as int + 1);
                    }
                    assert(migration_error(old_self, caller@, voter_id@, lps) == Some(e));
                    return Err(e);
                },
            }
            k = k + 1;
        }
        assert(lps.take(k as int) =~= lps);
        assert(migrated(old_self, p0, a0, old_self.total_voting_power, lps) is Ok);
        assert(migration_error(old_self, caller@, voter_id@, lps) is None);
        if locking_positions.len() > 0 {
            match found {
                Some(i) => {
                    let mut voter = self.voters.take_at(i, Voter::new());
                    voter.locking_positions = positions;
                    voter.available_voting_power = available;
                    self.total_voting_power = total;
                    proof {
                        if old_self.voters_balanced() {
                            assert(old_self.voters.vals@[i as int].vp_balanced());
                        }
                        assert(old_self.voters.vals@[i as int].wf());
                        lemma_replace_voter(old_self.voters.vals@, i as int, voter);
                        if old_self.votes_accounted() {
                            lemma_votes_keep(old_self.votes, old_self.voters.vals@, i as int, voter);
                        }
                    }
                    self.voters.set_at(i, voter);
                    proof {
                        assert(self.voters.vals@ == old_self.voters.vals@.update(i as int, voter));
                        self.voters.lemma_index(i as int);
                        assert(self.voters@.dom() =~= old_self.voters@.dom().insert(voter_id@));
                        assert(self.voters@.remove(voter_id@) =~= old_self.voters@.remove(voter_id@));
                    }
                },
                None => {
                    let voter = Voter {
                        balance: 0,
                        locking_positions: positions,
                        available_voting_power: available,
                        vote_positions: StrMap::new(),
                    };
                    proof {
                        crate::seq_sum::lemma_sum_empty(p0, locked_vp_fn());
                        crate::seq_sum::lemma_sum_empty(voter.vote_positions.vals@, inner_sum_fn());
                        assert(voter.vp_balanced());
                        lemma_push_voter(old_self.voters.vals@, voter);
                        if old_self.votes_accounted() {
                            lemma_votes_push_empty(old_self.votes, old_self.voters.vals@, voter);
                        }
                    }
                    self.total_voting_power = total;
                    self.voters.insert(voter_id, voter);
                    proof {
                        self.voters.lemma_index(self.voters.keys@.len() - 1);
                        assert(self.voters@.dom() =~= old_self.voters@.dom().insert(voter_id@));
                        assert(self.voters@.remove(voter_id@) =~= old_self.voters@.remove(voter_id@));
                    }
                },
            }
        }
        match encrypted_associated_user_data {
            Some(d) => {
                if self.associated_user_data.get(caller).is_none() {
                    self.associated_user_data.insert(caller, d);
                }
            },
            None => {},
        }
        Ok(())
    }

    /// Sets the associated data of several accounts (operator).
    pub fn operator_multi_set_airdrop_data(&mut self, caller: &String, data: Vec<(String, String)>) -> (r: Result<(), MetaVoteError>)
        requires
            old(self).wf(),
        ensures
            final(self).wf(),
            r is Ok <==> caller@ == old(self).operator_id@,
            r matches Err(e) ==> e == MetaVoteError::OnlyOperator,
            r is Err ==> *final(self) == *old(self),
            r is Ok ==> final(self).associated_user_data@ == inserted_all(old(self).associated_user_data@, data@),
            r is Ok ==> *final(self) == (MetaVoteContract { associated_user_data: final(self).associated_user_data, ..*old(self) }),
    {
        self.assert_operator(caller)?;
        let ghost m0 = self.associated_user_data@;
        let mut k: usize = 0;
        assert(data@.take(0) =~= Seq::<(String, String)>::empty());
        while k < data.len()
            invariant
                0 <= k <= data@.len(),
                self.associated_user_data.wf(),
                old(self).wf(),
                *self == (MetaVoteContract { associated_user_data: self.associated_user_data, ..*old(self) }),
                self.associated_user_data@ == inserted_all(m0, data@.take(k as int)),
            decreases data@.len() - k,
        {
            assert(data@.take(k as int + 1).drop_last() =~= data@.take(k as int));
            assert(data@.take(k as int + 1).last() == data@[k as int]);
            self.associated_user_data.insert(&data[k].0, data[k].1.clone());
            k = k + 1;
        }
        assert(data@.take(k as int) =~= data@);
        Ok(())
    }

    /// The associated data of the accounts from position `from_index`, at
    /// most `limit` of them.
    pub fn get_airdrop_accounts(&self, from_index: u32, limit: u32) -> (r: Vec<(String, String)>)
        requires
            self.associated_user_data.wf(),
        ensures
            ({
                let n = self.associated_user_data.keys@.len() as int;
                let end = if from_index + limit < n { from_index + limit } else { n };
                &&& r@.len() == if end > from_index { end - from_index } else { 0 }
                &&& forall|k: int| 0 <= k < r@.len() ==> (#[trigger] r@[k]).0@ == self.associated_user_data.key_seq()[from_index + k]
                    && r@[k].1 == self.associated_user_data.vals@[from_index + k]
            }),
    {
        let len = self.associated_user_data.len();
        let stop = (from_index as u64) + (limit as u64);
        let end: usize = if stop < len as u64 { stop as usize } else { len };
        let start: usize = from_index as usize;
        let mut v: Vec<(String, String)> = Vec::new();
        if start >= end {
            return v;
        }
        let mut k: usize = start;
        while k < end
            invariant
                start == from_index,
                start <= k <= end,
                end <= self.associated_user_data.keys@.len(),
                self.associated_user_data.wf(),
                v@.len() == k - start,
                forall|j: int| 0 <= j < v@.len() ==> (#[trigger] v@[j]).0@ == self.associated_user_data.key_seq()[from_index + j]
                    && v@[j].1 == self.associated_user_data.vals@[from_index + j],
            decreases end - k,
        {
            let key = self.associated_user_data.key_at(k).clone();
            let val = self.associated_user_data.val_at(k).clone();
            let ghost v0 = v@;
            v.push((key, val));
            assert forall|j: int| 0 <= j < v@.len() implies (#[trigger] v@[j]).0@ == self.associated_user_data.key_seq()[from_index + j]
                && v@[j].1 == self.associated_user_data.vals@[from_index + j] by {
                if j < v0.len() {
                    assert(v@[j] == v0[j]);
                }
            }
            k = k + 1;
        }
        v
    }
}

/// The map after setting each `(key, value)` of `data` in order.
pub open spec fn inserted_all(m: Map<Seq<char>, String>, data: Seq<(String, String)>) -> Map<Seq<char>, String>
    decreases data.len(),
{
    if data.len() == 0 {
        m
    } else {
        inserted_all(m, data.drop_last()).insert(data.last().0@, data.last().1)
    }
}

/// An error in a prefix of a migration is the error of the whole.
proof fn lemma_migrated_err_prefix(c: MetaVoteContract, s: Seq<LockingPosition>, available: u128, total: u128, lps: Seq<(u128, u16)>, k: int)
    requires
        0 < k <= lps.len(),
        migrated(c, s, available, total, lps.take(k)) is Err,
    ensures
        migrated(c, s, available, total, lps) == migrated(c, s, available, total, lps.take(k)),
    decreases lps.len() - k,
{
    if k < lps.len() {
        assert(lps.take(k + 1).drop_last() =~= lps.take(k));
        lemma_migrated_err_prefix(c, s, available, total, lps, k + 1);
    } else {
        assert(lps.take(k) =~= lps);
    }
}

} // verus!
