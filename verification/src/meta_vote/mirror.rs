//! Mirroring the locking positions of an external (EVM) address: the
//! operator replaces the positions of the address's pseudo account, taking
//! back votes first while they exceed the new voting power.
use vstd::prelude::*;
use crate::locking_position::LockingPosition;
use crate::meta_vote::{MetaVoteContract, MetaVoteError, sum_voter_vp, all_balanced, all_voters_wf, lemma_replace_voter, lemma_push_voter};
use crate::meta_vote::locking::{first_locked_index, lemma_first_locked_index, new_locked_position, find_locked_in, lemma_first_locked_unique};
use crate::meta_vote::voting::{voter_votes_fn, votes_of, has_votes};
use crate::seq_sum::{sum_of, lemma_sum_push, lemma_sum_update, lemma_sum_empty, lemma_sum_nonneg};
use crate::str_map::StrMap;
use crate::utils::{checked_voting_power, spec_voting_power, voting_power_defined, pseudo_near_address};
use crate::voter::{Voter, VotePositions, locked_voting_power, locked_vp_fn, inner_sum_fn, used_votes, votes_at, votes_wf};
use crate::votes::{model_of, remove_first, model_count, lemma_remove_first_count, copy_votes, checked_used_votes, remove_votes, set_votes, lemma_votes_at_le_used, model_has, model_get, model_lowered, lemma_model_lookup, lemma_model_set, lemma_model_remove};

verus! {

/// The state of the loop that takes votes back: the voter's votes in order,
/// the contract's totals in order, the free and the given voting power.
pub type MirrorState = (Seq<(Seq<char>, Seq<Seq<char>>, Seq<u128>)>, Seq<(Seq<char>, Seq<Seq<char>>, Seq<u128>)>, int, int);

/// Taking back the first vote (first object of the first address): it
/// returns to the free voting power and leaves the contract's total; or why
/// that is refused.
pub open spec fn mirror_step(s: MirrorState) -> Result<MirrorState, MetaVoteError> {
    let m = s.0;
    if m.len() == 0 || m[0].1.len() == 0 || m[0].2.len() == 0 {
        Err(MetaVoteError::NoVotesForObject)
    } else {
        let a = m[0].0;
        let o = m[0].1[0];
        let v = m[0].2[0];
        let t = s.1;
        if s.2 + v > u128::MAX {
            Err(MetaVoteError::Overflow)
        } else if !model_has(t, a, o) {
            Err(MetaVoteError::NoTotalsForObject)
        } else if model_get(t, a, o) < v {
            Err(MetaVoteError::TotalVotesTooSmall)
        } else {
            Ok((remove_first(m), model_lowered(t, a, o, (model_get(t, a, o) - v) as u128), s.2 + v, s.3 - v))
        }
    }
}

/// `k` steps of taking back votes.
pub open spec fn mirror_iter(s: MirrorState, k: nat) -> Result<MirrorState, MetaVoteError>
    decreases k,
{
    if k == 0 {
        Ok(s)
    } else {
        match mirror_iter(s, (k - 1) as nat) {
            Err(e) => Err(e),
            Ok(t) => mirror_step(t),
        }
    }
}

/// The loop stops after `k` steps: every earlier state still gave more than
/// `target`, and the state after `k` steps is an error or gives at most `target`.
pub open spec fn mirror_stops_at(s: MirrorState, target: int, k: nat) -> bool {
    &&& forall|j: nat| j < k ==> (#[trigger] mirror_iter(s, j)) is Ok && mirror_iter(s, j)->Ok_0.3 > target
    &&& mirror_iter(s, k) is Err || mirror_iter(s, k)->Ok_0.3 <= target
}

/// The voting power of the positions `lps` (days, amount), or the first
/// error: a period where the formula is not defined, or a sum that does not fit.
pub open spec fn new_voting_power(lps: Seq<(u16, u128)>) -> Result<int, MetaVoteError>
    decreases lps.len(),
{
    if lps.len() == 0 {
        Ok(0)
    } else {
        match new_voting_power(lps.drop_last()) {
            Err(e) => Err(e),
            Ok(sum) => {
                let (days, amount) = lps.last();
                if !voting_power_defined(amount as int, days as int) {
                    Err(MetaVoteError::VotingPowerUndefined)
                } else if sum + spec_voting_power(amount as int, days as int) > u128::MAX {
                    Err(MetaVoteError::Overflow)
                } else {
                    Ok(sum + spec_voting_power(amount as int, days as int))
                }
            },
        }
    }
}

/// Creating the locked positions `lps` (days, amount) one by one into `s`,
/// with free voting power `available` and contract total `total`: at most
/// `max` positions and one locked position per period.
pub open spec fn created(max: u8, s: Seq<LockingPosition>, available: int, total: int, lps: Seq<(u16, u128)>) -> Result<(Seq<LockingPosition>, int, int), MetaVoteError>
    decreases lps.len(),
{
    if lps.len() == 0 {
        Ok((s, available, total))
    } else {
        match created(max, s, available, total, lps.drop_last()) {
            Err(e) => Err(e),
            Ok(st) => {
                let (days, amount) = lps.last();
                let vp = spec_voting_power(amount as int, days as int);
                if st.0.len() >= max {
                    Err(MetaVoteError::TooManyLockingPositions)
                } else if first_locked_index(st.0, days) is Some {
                    Err(MetaVoteError::LockedPositionExists)
                } else if !voting_power_defined(amount as int, days as int) {
                    Err(MetaVoteError::VotingPowerUndefined)
                } else if st.1 + vp > u128::MAX || st.2 + vp > u128::MAX {
                    Err(MetaVoteError::Overflow)
                } else {
                    Ok((st.0.push(new_locked_position(amount, days)), st.1 + vp, st.2 + vp))
                }
            },
        }
    }
}

/// The votes (in order), free and given voting power of account `id` (none
/// for an account without a record).
pub open spec fn mirror_voter(c: MetaVoteContract, id: Seq<char>) -> (Seq<(Seq<char>, Seq<Seq<char>>, Seq<u128>)>, int, int) {
    if c.voters@.contains_key(id) {
        (model_of(c.voter(id).vote_positions), c.voter(id).available_voting_power as int, used_votes(c.voter(id).vote_positions))
    } else {
        (Seq::empty(), 0, 0)
    }
}

/// The checks before votes are taken back, and on success the loop's start,
/// its target and the voting power the voter had.
pub open spec fn mirror_pre(c: MetaVoteContract, caller: Seq<char>, id: Seq<char>, lps: Seq<(u16, u128)>) -> Result<(MirrorState, int, int), MetaVoteError> {
    let v = mirror_voter(c, id);
    if caller != c.operator_id@ {
        Err(MetaVoteError::OnlyOperator)
    } else if v.2 > u128::MAX || v.1 + v.2 > u128::MAX {
        Err(MetaVoteError::Overflow)
    } else {
        match new_voting_power(lps) {
            Err(e) => Err(e),
            Ok(target) => Ok(((v.0, model_of(c.votes), v.1, v.2), target, v.1 + v.2)),
        }
    }
}

/// After the loop: the new positions, free voting power and contract total,
/// or why that is refused.
pub open spec fn mirror_finish(c: MetaVoteContract, lps: Seq<(u16, u128)>, used: int, prev: int) -> Result<(Seq<LockingPosition>, int, int), MetaVoteError> {
    match created(c.max_locking_positions, Seq::empty(), 0, c.total_voting_power as int, lps) {
        Err(e) => Err(e),
        Ok(st) => if st.1 < used || st.2 < prev {
            Err(MetaVoteError::Overflow)
        } else {
            Ok((st.0, st.1 - used, st.2 - prev))
        },
    }
}

/// What the mirroring of account `id` gives when the loop that takes votes
/// back stops after `k` steps: the error of the step that failed, the error
/// of the creation of the new positions, or the new state of the contract.
pub open spec fn mirror_outcome(c: MetaVoteContract, c2: MetaVoteContract, r: Result<(), MetaVoteError>, caller: Seq<char>, id: Seq<char>, lps: Seq<(u16, u128)>, k: nat) -> bool {
    let p = mirror_pre(c, caller, id, lps)->Ok_0;
    &&& mirror_stops_at(p.0, p.1, k)
    &&& match mirror_iter(p.0, k) {
        Err(e) => r == Err::<(), MetaVoteError>(e),
        Ok(st) => match mirror_finish(c, lps, st.3, p.2) {
            Err(e) => r == Err::<(), MetaVoteError>(e),
            Ok(fin) => {
                let nv = c2.voter(id);
                &&& r is Ok
                &&& c2.voters@.dom() == c.voters@.dom().insert(id)
                &&& c2.voters@.remove(id) == c.voters@.remove(id)
                &&& model_of(nv.vote_positions) == st.0
                &&& nv.locking_positions@ == fin.0
                &&& nv.available_voting_power == fin.1
                &&& nv.balance == if c.voters@.contains_key(id) { c.voter(id).balance } else { 0 }
                &&& model_of(c2.votes) == st.1
                &&& c2.total_voting_power == fin.2
                &&& c2 == (MetaVoteContract {
                    voters: c2.voters,
                    votes: c2.votes,
                    total_voting_power: c2.total_voting_power,
                    ..c
                })
            },
        },
    }
}

/// An error in a prefix of the loop is the error of any longer run.
proof fn lemma_iter_err(s: MirrorState, j: nat, k: nat)
    requires
        j <= k,
        mirror_iter(s, j) is Err,
    ensures
        mirror_iter(s, k) == mirror_iter(s, j),
    decreases k - j,
{
    if j < k {
        lemma_iter_err(s, j, (k - 1) as nat);
    }
}

/// A step that fails stops the loop with that error.
proof fn lemma_stop_err(init: MirrorState, target: int, k: nat, e: MetaVoteError)
    requires
        forall|j: nat| j < k ==> (#[trigger] mirror_iter(init, j)) is Ok && mirror_iter(init, j)->Ok_0.3 > target,
        mirror_iter(init, k) is Ok,
        mirror_iter(init, k)->Ok_0.3 > target,
        mirror_step(mirror_iter(init, k)->Ok_0) == Err::<MirrorState, MetaVoteError>(e),
    ensures
        mirror_stops_at(init, target, k + 1),
        mirror_iter(init, k + 1) == Err::<MirrorState, MetaVoteError>(e),
{
    assert forall|j: nat| j < k + 1 implies (#[trigger] mirror_iter(init, j)) is Ok && mirror_iter(init, j)->Ok_0.3 > target by {
        if j < k {
        }
    }
}

/// An error in a prefix of creations is the error of the whole.
proof fn lemma_created_err_prefix(max: u8, s: Seq<LockingPosition>, a: int, t: int, lps: Seq<(u16, u128)>, k: int)
    requires
        0 < k <= lps.len(),
        created(max, s, a, t, lps.take(k)) is Err,
    ensures
        created(max, s, a, t, lps) == created(max, s, a, t, lps.take(k)),
    decreases lps.len() - k,
{
    if k < lps.len() {
        assert(lps.take(k + 1).drop_last() =~= lps.take(k));
        lemma_created_err_prefix(max, s, a, t, lps, k + 1);
    } else {
        assert(lps.take(k) =~= lps);
    }
}

/// A prefix of the new voting power that fails.
proof fn lemma_new_vp_err_prefix(lps: Seq<(u16, u128)>, k: int)
    requires
        0 < k <= lps.len(),
        new_voting_power(lps.take(k)) is Err,
    ensures
        new_voting_power(lps) == new_voting_power(lps.take(k)),
    decreases lps.len() - k,
{
    if k < lps.len() {
        assert(lps.take(k + 1).drop_last() =~= lps.take(k));
        lemma_new_vp_err_prefix(lps, k + 1);
    } else {
        assert(lps.take(k) =~= lps);
    }
}

/// The number of objects of a well-formed voter is nonnegative.
proof fn lemma_count_nonneg(m: Seq<(Seq<char>, Seq<Seq<char>>, Seq<u128>)>)
    ensures
        model_count(m) >= 0,
{
    lemma_sum_nonneg(m, |e: (Seq<char>, Seq<Seq<char>>, Seq<u128>)| e.1.len() as int);
}

/// The voting power of the positions `lps` (days, amount).
fn compute_new_voting_power(lps: &Vec<(u16, u128)>) -> (r: Result<u128, MetaVoteError>)
    ensures
        r is Ok <==> new_voting_power(lps@) is Ok,
        r matches Err(e) ==> new_voting_power(lps@) == Err::<int, MetaVoteError>(e),
        r matches Ok(x) ==> x == new_voting_power(lps@)->Ok_0,
{
    let mut sum: u128 = 0;
    let mut k: usize = 0;
    assert(lps@.take(0) =~= Seq::<(u16, u128)>::empty());
    while k < lps.len()
        invariant
            0 <= k <= lps@.len(),
            new_voting_power(lps@.take(k as int)) == Ok::<int, MetaVoteError>(sum as int),
        decreases lps@.len() - k,
    {
        assert(lps@.take(k as int + 1).drop_last() =~= lps@.take(k as int));
        assert(lps@.take(k as int + 1).last() == lps@[k as int]);
        let (days, amount) = lps[k];
        let vp = match checked_voting_power(amount, days) {
            Some(x) => x,
            None => {
                proof {
                    lemma_new_vp_err_prefix(lps@, k as int + 1);
                }
                return Err(MetaVoteError::VotingPowerUndefined);
            },
        };
        sum = match sum.checked_add(vp) {
            Some(x) => x,
            None => {
                proof {
                    lemma_new_vp_err_prefix(lps@, k as int + 1);
                }
                return Err(MetaVoteError::Overflow);
            },
        };
        k = k + 1;
    }
    assert(lps@.take(k as int) =~= lps@);
    Ok(sum)
}

impl MetaVoteContract {
    /// Creates the locked positions `lps` (days, amount) into `positions`, as
    /// the mirroring does; nothing changes on an error.
    fn create_all(&self, positions: &mut Vec<LockingPosition>, available: &mut u128, total: &mut u128, lps: &Vec<(u16, u128)>) -> (r: Result<(), MetaVoteError>)
        ensures
            r is Ok <==> created(self.max_locking_positions, old(positions)@, *old(available) as int, *old(total) as int, lps@) is Ok,
            r matches Err(e) ==> created(self.max_locking_positions, old(positions)@, *old(available) as int, *old(total) as int, lps@)
                == Err::<(Seq<LockingPosition>, int, int), MetaVoteError>(e),
            r is Ok ==> created(self.max_locking_positions, old(positions)@, *old(available) as int, *old(total) as int, lps@)
                == Ok::<(Seq<LockingPosition>, int, int), MetaVoteError>((final(positions)@, *final(available) as int, *final(total) as int)),
            r is Ok ==> locked_voting_power(final(positions)@) - locked_voting_power(old(positions)@) == *final(available) - *old(available),
            r is Ok ==> *final(total) - *old(total) == *final(available) - *old(available),
            r is Ok ==> final(positions)@.len() <= self.max_locking_positions || final(positions)@.len() == old(positions)@.len(),
    {
        let ghost p0 = positions@;
        let ghost a0 = *available;
        let ghost t0 = *total;
        assert(p0 == old(positions)@ && a0 == *old(available) && t0 == *old(total));
        let mut k: usize = 0;
        assert(lps@.take(0) =~= Seq::<(u16, u128)>::empty());
        while k < lps.len()
            invariant
                0 <= k <= lps@.len(),
                p0 == old(positions)@ && a0 == *old(available) && t0 == *old(total),
                created(self.max_locking_positions, p0, a0 as int, t0 as int, lps@.take(k as int))
                    == Ok::<(Seq<LockingPosition>, int, int), MetaVoteError>((positions@, *available as int, *total as int)),
                locked_voting_power(positions@) - locked_voting_power(p0) == *available - a0,
                *total - t0 == *available - a0,
                positions@.len() <= self.max_locking_positions || positions@.len() == p0.len(),
            decreases lps@.len() - k,
        {
            assert(lps@.take(k as int + 1).drop_last() =~= lps@.take(k as int));
            assert(lps@.take(k as int + 1).last() == lps@[k as int]);
            let (days, amount) = lps[k];
            if positions.len() >= self.max_locking_positions as usize {
                assert(created(self.max_locking_positions, p0, a0 as int, t0 as int, lps@.take(k as int + 1)) == Err::<(Seq<LockingPosition>, int, int), MetaVoteError>(MetaVoteError::TooManyLockingPositions));
                proof {
                    lemma_created_err_prefix(self.max_locking_positions, p0, a0 as int, t0 as int, lps@, k as int + 1);
                }
                return Err(MetaVoteError::TooManyLockingPositions);
            }
            proof {
                lemma_first_locked_index(positions@, days);
            }
            match find_locked_in(positions, days) {
                Some(i) => {
                    proof {
                        lemma_first_locked_unique(positions@, days, i as int);
                        lemma_created_err_prefix(self.max_locking_positions, p0, a0 as int, t0 as int, lps@, k as int + 1);
                    }
                    return Err(MetaVoteError::LockedPositionExists);
                },
                None => {},
            }
            let vp = match checked_voting_power(amount, days) {
                Some(x) => x,
                None => {
                    proof {
                        lemma_created_err_prefix(self.max_locking_positions, p0, a0 as int, t0 as int, lps@, k as int + 1);
                    }
                    return Err(MetaVoteError::VotingPowerUndefined);
                },
            };
            if available.checked_add(vp).is_none() || total.checked_add(vp).is_none() {
                proof {
                    lemma_created_err_prefix(self.max_locking_positions, p0, a0 as int, t0 as int, lps@, k as int + 1);
                }
                return Err(MetaVoteError::Overflow);
            }
            proof {
                lemma_sum_push(positions@, new_locked_position(amount, days), locked_vp_fn());
            }
            positions.push(LockingPosition::new(amount, days, vp, None));
            *available = *available + vp;
            *total = *total + vp;
            k = k + 1;
        }
        assert(lps@.take(k as int) =~= lps@);
        Ok(())
    }

    /// Replaces the locking positions of the pseudo account of
    /// `external_address` by `locking_positions` (days, amount), all locked
    /// (operator). While the votes of the account exceed the new voting
    /// power, its first vote (first object of its first address) is taken
    /// back. The contract total moves from the old voting power of the
    /// account to the new one. An account without a record gets one.
    pub fn operator_mirror_lps(&mut self, caller: &String, external_address: &String, locking_positions: Vec<(u16, u128)>) -> (r: Result<(), MetaVoteError>)
        requires
            old(self).wf(),
        ensures
            final(self).wf(),
            r is Err ==> *final(self) == *old(self),
            mirror_pre(*old(self), caller@, external_address@ + ".evmp.near"@, locking_positions@) matches Err(e)
                ==> r == Err::<(), MetaVoteError>(e),
            mirror_pre(*old(self), caller@, external_address@ + ".evmp.near"@, locking_positions@) is Ok
                ==> exists|k: nat| #[trigger] mirror_outcome(*old(self), *final(self), r, caller@, external_address@ + ".evmp.near"@, locking_positions@, k),
            r is Ok ==> (old(self).voters_balanced() ==> final(self).voters_balanced())
                && (old(self).vp_accounted() && old(self).voters_balanced() ==> final(self).vp_accounted())
                && (old(self).votes_accounted() ==> final(self).votes_accounted()),
    {
        self.assert_operator(caller)?;
        let voter_id = pseudo_near_address(external_address);
        let ghost id = voter_id@;
        let found = self.voters.find(&voter_id);
        let mut vp_copy: VotePositions;
        let mut available: u128;
        match found {
            Some(i) => {
                proof {
                    self.voters.lemma_index(i as int);
                    assert(self.voters.vals@[i as int].wf());
                }
                vp_copy = copy_votes(&self.voters.vals[i].vote_positions);
                available = self.voters.vals[i].available_voting_power;
            },
            None => {
                vp_copy = StrMap::new();
                available = 0;
                proof {
                    lemma_sum_empty(vp_copy.vals@, inner_sum_fn());
                    assert(model_of(vp_copy) =~= Seq::<(Seq<char>, Seq<Seq<char>>, Seq<u128>)>::empty());
                }
            },
        }
        let mut used = match checked_used_votes(&vp_copy) {
            Some(u) => u,
            None => return Err(MetaVoteError::Overflow),
        };
        let prev_voting_power = match available.checked_add(used) {
            Some(x) => x,
            None => return Err(MetaVoteError::Overflow),
        };
        let new_vp = compute_new_voting_power(&locking_positions)?;
        let ghost init: MirrorState = (model_of(vp_copy), model_of(self.votes), available as int, used as int);
        let ghost orig_vp = vp_copy;
        let mut totals = copy_votes(&self.votes);
        let ghost mut k: nat = 0;
        assert(mirror_voter(*old(self), id) == (init.0, init.2, init.3));
        assert(mirror_pre(*old(self), caller@, id, locking_positions@) == Ok::<(MirrorState, int, int), MetaVoteError>((init, new_vp as int, prev_voting_power as int)));
        while used > new_vp
            invariant
                *self == *old(self),
                old(self).wf(),
                id == external_address@ + ".evmp.near"@,
                voter_id@ == id,
                mirror_pre(*old(self), caller@, id, locking_positions@) == Ok::<(MirrorState, int, int), MetaVoteError>((init, new_vp as int, prev_voting_power as int)),
                votes_wf(vp_copy),
                votes_wf(totals),
                used == used_votes(vp_copy),
                mirror_iter(init, k) == Ok::<MirrorState, MetaVoteError>((model_of(vp_copy), model_of(totals), available as int, used as int)),
                forall|j: nat| j < k ==> (#[trigger] mirror_iter(init, j)) is Ok && mirror_iter(init, j)->Ok_0.3 > new_vp,
                forall|x: Seq<char>, y: Seq<char>| #[trigger] votes_at(totals, x, y) - votes_at(vp_copy, x, y)
                    == votes_at(old(self).votes, x, y) - votes_at(orig_vp, x, y),
                init.2 + init.3 == prev_voting_power,
                found matches Some(i) ==> i < self.voters.vals@.len()
                    && init.2 == self.voters.vals@[i as int].available_voting_power
                    && init.3 == used_votes(self.voters.vals@[i as int].vote_positions)
                    && forall|x: Seq<char>, y: Seq<char>| #[trigger] votes_at(orig_vp, x, y) == votes_at(self.voters.vals@[i as int].vote_positions, x, y),
                found is None ==> init.2 == 0 && init.3 == 0,
            decreases model_count(model_of(vp_copy)),
        {
            let ghost st = (model_of(vp_copy), model_of(totals), available as int, used as int);
            if vp_copy.keys.len() == 0 || vp_copy.vals[0].keys.len() == 0 {
                proof {
                    if vp_copy.keys@.len() == 0 {
                        lemma_sum_empty(vp_copy.vals@, inner_sum_fn());
                    }
                    assert(mirror_step(st) == Err::<MirrorState, MetaVoteError>(MetaVoteError::NoVotesForObject));
                    lemma_stop_err(init, new_vp as int, k, MetaVoteError::NoVotesForObject);
                }
                let res = Err(MetaVoteError::NoVotesForObject);
                proof {
                    assert(mirror_outcome(*old(self), *self, res, caller@, id, locking_positions@, k + 1));
                }
                return res;
            }
            proof {
                vp_copy.lemma_index(0);
                assert(vp_copy.vals@[0].wf());
                vp_copy.vals@[0].lemma_index(0);
            }
            let a = vp_copy.key_at(0).clone();
            let o = vp_copy.vals[0].key_at(0).clone();
            let v = *vp_copy.vals[0].val_at(0);
            assert(votes_at(vp_copy, a@, o@) == v);
            let new_available = match available.checked_add(v) {
                Some(x) => x,
                None => {
                    proof {
                        assert(mirror_step(st) == Err::<MirrorState, MetaVoteError>(MetaVoteError::Overflow));
                        lemma_stop_err(init, new_vp as int, k, MetaVoteError::Overflow);
                    }
                    let res = Err(MetaVoteError::Overflow);
                    proof {
                        assert(mirror_outcome(*old(self), *self, res, caller@, id, locking_positions@, k + 1));
                    }
                    return res;
                },
            };
            proof {
                lemma_model_lookup(totals, a@, o@);
            }
            let t = match votes_of(&totals, &a, &o) {
                Some(x) => x,
                None => {
                    proof {
                        assert(mirror_step(st) == Err::<MirrorState, MetaVoteError>(MetaVoteError::NoTotalsForObject));
                        lemma_stop_err(init, new_vp as int, k, MetaVoteError::NoTotalsForObject);
                    }
                    let res = Err(MetaVoteError::NoTotalsForObject);
                    proof {
                        assert(mirror_outcome(*old(self), *self, res, caller@, id, locking_positions@, k + 1));
                    }
                    return res;
                },
            };
            if t < v {
                proof {
                    assert(mirror_step(st) == Err::<MirrorState, MetaVoteError>(MetaVoteError::TotalVotesTooSmall));
                    lemma_stop_err(init, new_vp as int, k, MetaVoteError::TotalVotesTooSmall);
                }
                let res = Err(MetaVoteError::TotalVotesTooSmall);
                proof {
                    assert(mirror_outcome(*old(self), *self, res, caller@, id, locking_positions@, k + 1));
                }
                return res;
            }
            proof {
                lemma_votes_at_le_used(vp_copy, a@, o@);
                lemma_remove_first_count(model_of(vp_copy));
                lemma_count_nonneg(model_of(vp_copy));
            }
            let ghost vp0 = vp_copy;
            let ghost t0 = totals;
            remove_votes(&mut vp_copy, &a, &o);
            if t - v == 0 {
                remove_votes(&mut totals, &a, &o);
                proof {
                    lemma_model_remove(t0, totals, a@, o@);
                }
            } else {
                set_votes(&mut totals, &a, &o, t - v);
                proof {
                    lemma_model_set(t0, totals, a@, o@, (t - v) as u128);
                }
            }
            available = new_available;
            used = used - v;
            proof {
                assert(model_of(vp_copy) == remove_first(model_of(vp0)));
                lemma_count_nonneg(model_of(vp_copy));
                assert(mirror_step(st) == Ok::<MirrorState, MetaVoteError>((model_of(vp_copy), model_of(totals), available as int, used as int)));
                assert(forall|j: nat| j < k + 1 ==> (#[trigger] mirror_iter(init, j)) is Ok && mirror_iter(init, j)->Ok_0.3 > new_vp) by {
                    assert forall|j: nat| j < k + 1 implies (#[trigger] mirror_iter(init, j)) is Ok && mirror_iter(init, j)->Ok_0.3 > new_vp by {}
                }
                k = k + 1;
            }
        }
        proof {
            assert(mirror_stops_at(init, new_vp as int, k));
        }
        let mut positions: Vec<LockingPosition> = Vec::new();
        let mut avail2: u128 = 0;
        let mut total2: u128 = self.total_voting_power;
        proof {
            lemma_sum_empty(positions@, locked_vp_fn());
            assert(positions@ =~= Seq::<LockingPosition>::empty());
        }
        match self.create_all(&mut positions, &mut avail2, &mut total2, &locking_positions) {
            Ok(()) => {},
            Err(e) => {
                let res = Err(e);
                proof {
                    assert(mirror_outcome(*old(self), *self, res, caller@, id, locking_positions@, k));
                }
                return res;
            },
        }
        if avail2 < used || total2 < prev_voting_power {
            let res = Err(MetaVoteError::Overflow);
            proof {
                assert(mirror_outcome(*old(self), *self, res, caller@, id, locking_positions@, k));
            }
            return res;
        }
        let final_available = avail2 - used;
        let final_total = total2 - prev_voting_power;
        let ghost old_self = *self;
        match found {
            Some(i) => {
                let mut voter = self.voters.take_at(i, Voter::new());
                let ghost v0 = voter;
                voter.vote_positions = vp_copy;
                voter.locking_positions = positions;
                voter.available_voting_power = final_available;
                self.total_voting_power = final_total;
                self.votes = totals;
                proof {
                    assert(v0 == old_self.voters.vals@[i as int]);
                    assert(locked_voting_power(positions@) == avail2);
                    assert(voter.vp_balanced());
                    if old_self.voters_balanced() {
                        assert(v0.vp_balanced());
                        assert(prev_voting_power == locked_voting_power(v0.locking_positions@));
                    }
                    lemma_replace_voter(old_self.voters.vals@, i as int, voter);
                    if old_self.votes_accounted() {
                        assert forall|x: Seq<char>, y: Seq<char>| #[trigger] votes_at(self.votes, x, y)
                            == sum_of(old_self.voters.vals@.update(i as int, voter), voter_votes_fn(x, y)) by {
                            lemma_sum_update(old_self.voters.vals@, i as int, voter, voter_votes_fn(x, y));
                            assert(votes_at(orig_vp, x, y) == votes_at(v0.vote_positions, x, y));
                        }
                    }
                }
                self.voters.set_at(i, voter);
                proof {
                    assert(self.voters.vals@ == old_self.voters.vals@.update(i as int, voter));
                    self.voters.lemma_index(i as int);
                    assert(self.voters@.dom() =~= old_self.voters@.dom().insert(id));
                    assert(self.voters@.remove(id) =~= old_self.voters@.remove(id));
                }
            },
            None => {
                let voter = Voter {
                    balance: 0,
                    locking_positions: positions,
                    available_voting_power: final_available,
                    vote_positions: vp_copy,
                };
                self.total_voting_power = final_total;
                self.votes = totals;
                proof {
                    assert(locked_voting_power(positions@) == avail2);
                    assert(voter.vp_balanced());
                    lemma_push_voter(old_self.voters.vals@, voter);
                    if old_self.votes_accounted() {
                        assert forall|x: Seq<char>, y: Seq<char>| #[trigger] votes_at(self.votes, x, y)
                            == sum_of(old_self.voters.vals@.push(voter), voter_votes_fn(x, y)) by {
                            lemma_sum_push(old_self.voters.vals@, voter, voter_votes_fn(x, y));
                        }
                    }
                }
                self.voters.insert(&voter_id, voter);
                proof {
                    self.voters.lemma_index(self.voters.keys@.len() - 1);
                    assert(self.voters@.dom() =~= old_self.voters@.dom().insert(id));
                    assert(self.voters@.remove(id) =~= old_self.voters@.remove(id));
                }
            },
        }
        proof {
            assert(mirror_outcome(*old(self), *self, Ok(()), caller@, id, locking_positions@, k));
        }
        Ok(())
    }
}

} // verus!
