//! Receiving tokens: a bond of mpDAO for a number of days (for the sender or,
//! from the owner, for another account), or mpDAO or stNEAR to distribute as
//! claims between accounts.
use vstd::prelude::*;
use crate::meta_vote::{MetaVoteContract, MetaVoteError, sum_voter_vp, all_balanced, all_voters_wf, lemma_replace_voter, lemma_push_voter, claimable_of, claim_add};
use crate::meta_vote::locking::{deposit_error, deposited_positions};
use crate::meta_vote::voting::{lemma_votes_keep, lemma_votes_push_empty};
use crate::seq_sum::sum_u128;
use crate::str_map::StrMap;
use crate::text::{json_account_amounts, json_account_days, pairs_view, parse_account_amounts, parse_account_days, parse_u16, spec_parse_u16};
use crate::utils::spec_voting_power;
use crate::voter::{Voter, locked_voting_power};
use crate::locking_position::LockingPosition;
use vstd::utf8::{encode_utf8, is_char_boundary};
use crate::votes::{amount_in, set_amount};

verus! {

/// mpDAO has 6 decimals: a distributed mpDAO amount is given in whole mpDAO.
pub const MPDAO_UNIT: u128 = 1_000_000;

/// A distributed stNEAR amount is given with 4 decimals; stNEAR has 24.
pub const E20: u128 = 100_000_000_000_000_000_000;

/// The value under `k` of a map of amounts (zero where there is none).
pub open spec fn get0(m: Map<Seq<char>, u128>, k: Seq<char>) -> int {
    if m.contains_key(k) {
        m[k] as int
    } else {
        0
    }
}

/// Adding the items `(account, units)` of a distribution one by one to the
/// claims `m`, each worth `units * unit`, where the unclaimed total starts at
/// `start`: the claims and the sum distributed so far, or the first error
/// (a zero amount, or an amount, a claim or a total that does not fit).
pub open spec fn distribution(m: Map<Seq<char>, u128>, start: int, unit: int, items: Seq<(Seq<char>, u64)>) -> Result<(Map<Seq<char>, u128>, int), MetaVoteError>
    decreases items.len(),
{
    if items.len() == 0 {
        Ok((m, 0))
    } else {
        match distribution(m, start, unit, items.drop_last()) {
            Err(e) => Err(e),
            Ok(st) => {
                let acc = items.last().0;
                let amount = items.last().1 * unit;
                if amount == 0 {
                    Err(MetaVoteError::ZeroClaim)
                } else if amount > u128::MAX || get0(st.0, acc) + amount > u128::MAX || start + st.1 + amount > u128::MAX {
                    Err(MetaVoteError::Overflow)
                } else {
                    Ok((st.0.insert(acc, (get0(st.0, acc) + amount) as u128), st.1 + amount))
                }
            },
        }
    }
}

/// What a distribution of `items` in the tokens of contract `token` changes
/// from `c` to `c2`: the claims of that token (mpDAO, otherwise stNEAR) and
/// its unclaimed and distributed totals grow by the distributed sum.
pub open spec fn claims_distributed(c: MetaVoteContract, c2: MetaVoteContract, token: Seq<char>, items: Seq<(Seq<char>, u64)>) -> bool {
    if token == c.mpdao_token_contract_address@ {
        let st = distribution(c.claimable_mpdao@, c.total_unclaimed_mpdao as int, 1_000_000, items)->Ok_0;
        &&& c2.claimable_mpdao@ == st.0
        &&& c2.total_unclaimed_mpdao == c.total_unclaimed_mpdao + st.1
        &&& c2.accumulated_mpdao_distributed_for_claims == c.accumulated_mpdao_distributed_for_claims + st.1
        &&& c2 == (MetaVoteContract {
            claimable_mpdao: c2.claimable_mpdao,
            total_unclaimed_mpdao: c2.total_unclaimed_mpdao,
            accumulated_mpdao_distributed_for_claims: c2.accumulated_mpdao_distributed_for_claims,
            ..c
        })
    } else {
        let st = distribution(c.claimable_stnear@, c.total_unclaimed_stnear as int, 100_000_000_000_000_000_000, items)->Ok_0;
        &&& c2.claimable_stnear@ == st.0
        &&& c2.total_unclaimed_stnear == c.total_unclaimed_stnear + st.1
        &&& c2.accum_distributed_stnear_for_claims == c.accum_distributed_stnear_for_claims + st.1
        &&& c2 == (MetaVoteContract {
            claimable_stnear: c2.claimable_stnear,
            total_unclaimed_stnear: c2.total_unclaimed_stnear,
            accum_distributed_stnear_for_claims: c2.accum_distributed_stnear_for_claims,
            ..c
        })
    }
}

/// The tag that starts the message of a distribution: `for-claims:`.
pub open spec fn for_claims_tag() -> Seq<u8> {
    seq![102u8, 111u8, 114u8, 45u8, 99u8, 108u8, 97u8, 105u8, 109u8, 115u8, 58u8]
}

/// Why a distribution of `total_amount` sent by `token` is refused, if it is.
pub open spec fn distribute_error(c: MetaVoteContract, token: Seq<char>, total_amount: u128, items: Seq<(Seq<char>, u64)>) -> Option<MetaVoteError> {
    if token == c.mpdao_token_contract_address@ {
        match distribution(c.claimable_mpdao@, c.total_unclaimed_mpdao as int, 1_000_000, items) {
            Err(e) => Some(e),
            Ok(st) => if c.accumulated_mpdao_distributed_for_claims + st.1 > u128::MAX {
                Some(MetaVoteError::Overflow)
            } else if st.1 != total_amount {
                Some(MetaVoteError::DistributionMismatch)
            } else {
                None
            },
        }
    } else if token == c.stnear_token_contract_address@ {
        match distribution(c.claimable_stnear@, c.total_unclaimed_stnear as int, 100_000_000_000_000_000_000, items) {
            Err(e) => Some(e),
            Ok(st) => if c.accum_distributed_stnear_for_claims + st.1 > u128::MAX {
                Some(MetaVoteError::Overflow)
            } else if st.1 != total_amount {
                Some(MetaVoteError::DistributionMismatch)
            } else {
                None
            },
        }
    } else {
        Some(MetaVoteError::UnknownToken)
    }
}

/// A prefix of a distribution that succeeds succeeds too.
proof fn lemma_distribution_prefix(m: Map<Seq<char>, u128>, start: int, unit: int, items: Seq<(Seq<char>, u64)>, k: int)
    requires
        0 <= k <= items.len(),
        distribution(m, start, unit, items) is Ok,
    ensures
        distribution(m, start, unit, items.take(k)) is Ok,
    decreases items.len() - k,
{
    if k < items.len() {
        lemma_distribution_prefix(m, start, unit, items, k + 1);
        assert(items.take(k + 1).drop_last() =~= items.take(k));
    } else {
        assert(items.take(k) =~= items);
    }
}

/// The sum distributed so far is nonnegative.
proof fn lemma_distribution_nonneg(m: Map<Seq<char>, u128>, start: int, unit: int, items: Seq<(Seq<char>, u64)>)
    requires
        unit >= 0,
        distribution(m, start, unit, items) is Ok,
    ensures
        distribution(m, start, unit, items)->Ok_0.1 >= 0,
    decreases items.len(),
{
    if items.len() > 0 {
        lemma_distribution_nonneg(m, start, unit, items.drop_last());
        assert(items.last().1 * unit >= 0) by (nonlinear_arith)
            requires
                unit >= 0,
                items.last().1 >= 0,
        ;
    }
}

/// The view of one item of a distribution.
proof fn lemma_pairs_view_index(v: Seq<(String, u64)>, k: int)
    requires
        0 <= k < v.len(),
    ensures
        pairs_view(v)[k] == (v[k].0@, v[k].1),
        pairs_view(v).len() == v.len(),
{
}

impl MetaVoteContract {
    /// Checks a distribution without changing anything: on success gives the
    /// sum distributed.
    fn distribution_check(m: &StrMap<u128>, start: u128, unit: u128, items: &Vec<(String, u64)>) -> (r: Result<u128, MetaVoteError>)
        requires
            m.wf(),
            unit > 0,
        ensures
            r is Ok <==> distribution(m@, start as int, unit as int, pairs_view(items@)) is Ok,
            r matches Err(e) ==> distribution(m@, start as int, unit as int, pairs_view(items@)) == Err::<(Map<Seq<char>, u128>, int), MetaVoteError>(e),
            r matches Ok(s) ==> s == distribution(m@, start as int, unit as int, pairs_view(items@))->Ok_0.1,
    {
        let ghost pv = pairs_view(items@);
        let mut pending: StrMap<u128> = StrMap::new();
        let mut sum: u128 = 0;
        let mut k: usize = 0;
        assert(pv.take(0) =~= Seq::<(Seq<char>, u64)>::empty());
        assert(m@.union_prefer_right(pending@) =~= m@);
        while k < items.len()
            invariant
                m.wf(),
                pending.wf(),
                unit > 0,
                0 <= k <= items@.len(),
                pv == pairs_view(items@),
                pv.len() == items@.len(),
                distribution(m@, start as int, unit as int, pv.take(k as int)) == Ok::<(Map<Seq<char>, u128>, int), MetaVoteError>((m@.union_prefer_right(pending@), sum as int)),
            decreases items@.len() - k,
        {
            proof {
                lemma_pairs_view_index(items@, k as int);
                assert(pv.take(k as int + 1).drop_last() =~= pv.take(k as int));
                assert(pv.take(k as int + 1).last() == pv[k as int]);
            }
            let acc = &items[k].0;
            let units = items[k].1;
            let amount = match (units as u128).checked_mul(unit) {
                Some(a) => a,
                None => {
                    proof {
                        lemma_distribution_err_prefix(m@, start as int, unit as int, pv, k as int + 1);
                    }
                    return Err(MetaVoteError::Overflow);
                },
            };
            if amount == 0 {
                proof {
                    lemma_distribution_err_prefix(m@, start as int, unit as int, pv, k as int + 1);
                }
                return Err(MetaVoteError::ZeroClaim);
            }
            let current: u128 = match pending.get(acc) {
                Some(x) => *x,
                None => match m.get(acc) {
                    Some(x) => *x,
                    None => 0,
                },
            };
            let ghost cur_map = m@.union_prefer_right(pending@);
            assert(current == get0(cur_map, acc@));
            let next = match current.checked_add(amount) {
                Some(x) => x,
                None => {
                    proof {
                        lemma_distribution_err_prefix(m@, start as int, unit as int, pv, k as int + 1);
                    }
                    return Err(MetaVoteError::Overflow);
                },
            };
            let new_sum = match sum.checked_add(amount) {
                Some(x) => x,
                None => {
                    proof {
                        lemma_distribution_err_prefix(m@, start as int, unit as int, pv, k as int + 1);
                    }
                    return Err(MetaVoteError::Overflow);
                },
            };
            if start.checked_add(new_sum).is_none() {
                proof {
                    lemma_distribution_err_prefix(m@, start as int, unit as int, pv, k as int + 1);
                }
                return Err(MetaVoteError::Overflow);
            }
            set_amount(&mut pending, acc, next);
            proof {
                assert(m@.union_prefer_right(pending@) =~= cur_map.insert(acc@, next));
            }
            sum = new_sum;
            k = k + 1;
        }
        assert(pv.take(k as int) =~= pv);
        Ok(sum)
    }

    /// Distributes `total_amount` of mpDAO or stNEAR (the token contract is
    /// `token`) between the accounts of `items`, each receiving its number of
    /// whole mpDAO, or of stNEAR with 4 decimals, as a claim.
    pub fn distribute_for_claims(&mut self, token: &String, total_amount: u128, items: &Vec<(String, u64)>) -> (r: Result<(), MetaVoteError>)
        requires
            old(self).wf(),
        ensures
            final(self).wf(),
            r == (match distribute_error(*old(self), token@, total_amount, pairs_view(items@)) {
                Some(e) => Err(e),
                None => Ok(()),
            }),
            r is Err ==> *final(self) == *old(self),
            r is Ok ==> claims_distributed(*old(self), *final(self), token@, pairs_view(items@)),
            r is Ok ==> (old(self).claims_accounted() ==> final(self).claims_accounted()),
    {
        if *token == self.mpdao_token_contract_address {
            let sum = Self::distribution_check(&self.claimable_mpdao, self.total_unclaimed_mpdao, MPDAO_UNIT, items)?;
            let accumulated = match self.accumulated_mpdao_distributed_for_claims.checked_add(sum) {
                Some(x) => x,
                None => return Err(MetaVoteError::Overflow),
            };
            if sum != total_amount {
                return Err(MetaVoteError::DistributionMismatch);
            }
            apply_distribution(&mut self.claimable_mpdao, &mut self.total_unclaimed_mpdao, MPDAO_UNIT, items);
            self.accumulated_mpdao_distributed_for_claims = accumulated;
            Ok(())
        } else if *token == self.stnear_token_contract_address {
            let sum = Self::distribution_check(&self.claimable_stnear, self.total_unclaimed_stnear, E20, items)?;
            let accumulated = match self.accum_distributed_stnear_for_claims.checked_add(sum) {
                Some(x) => x,
                None => return Err(MetaVoteError::Overflow),
            };
            if sum != total_amount {
                return Err(MetaVoteError::DistributionMismatch);
            }
            apply_distribution(&mut self.claimable_stnear, &mut self.total_unclaimed_stnear, E20, items);
            self.accum_distributed_stnear_for_claims = accumulated;
            Ok(())
        } else {
            Err(MetaVoteError::UnknownToken)
        }
    }
}

/// The positions and free voting power of account `id`, or none for an
/// account without a record.
pub open spec fn positions_of(c: MetaVoteContract, id: Seq<char>) -> (Seq<LockingPosition>, u128) {
    if c.voters@.contains_key(id) {
        (c.voter(id).locking_positions@, c.voter(id).available_voting_power)
    } else {
        (Seq::empty(), 0)
    }
}

/// Why a bond of `amount` for `days` for account `id` is refused, if it is.
pub open spec fn deposit_for_error(c: MetaVoteContract, id: Seq<char>, amount: u128, days: u16) -> Option<MetaVoteError> {
    deposit_error(c, positions_of(c, id).0, positions_of(c, id).1, amount, days)
}

/// Who a bond is for and for how many days, read from the message `b`
/// (bytes) sent by `sender`: a JSON pair `[account, days]`, which only the
/// owner may send, or a number of days for the sender.
pub open spec fn bond_target(c: MetaVoteContract, sender: Seq<char>, b: Seq<u8>) -> Result<(Seq<char>, u16), MetaVoteError> {
    if b.len() >= 1 && !is_char_boundary(b, 1) {
        Err(MetaVoteError::MessageNotCharBoundary)
    } else if b.len() >= 1 && b[0] == 91u8 {
        match json_account_days(b) {
            None => Err(MetaVoteError::BadDepositMessage),
            Some(p) => if sender != c.owner_id@ {
                Err(MetaVoteError::OnlyOwnerDepositsForOthers)
            } else {
                Ok(p)
            },
        }
    } else {
        match spec_parse_u16(b) {
            None => Err(MetaVoteError::BadDaysMessage),
            Some(d) => Ok((sender, d)),
        }
    }
}

/// The message starts with the tag of a distribution.
pub open spec fn is_claims_message(b: Seq<u8>) -> bool {
    b.len() >= 11 && b.subrange(0, 11) == for_claims_tag()
}

/// Why receiving `amount` of the tokens of contract `token`, sent by
/// `sender` with message `msg`, is refused, if it is.
pub open spec fn transfer_error(c: MetaVoteContract, token: Seq<char>, sender: Seq<char>, amount: u128, msg: Seq<char>) -> Option<MetaVoteError> {
    let b = encode_utf8(msg);
    if b.len() >= 11 && !is_char_boundary(b, 11) {
        Some(MetaVoteError::MessageNotCharBoundary)
    } else if is_claims_message(b) {
        match json_account_amounts(b.subrange(11, b.len() as int)) {
            None => Some(MetaVoteError::BadClaimsMessage),
            Some(items) => distribute_error(c, token, amount, items),
        }
    } else if token != c.mpdao_token_contract_address@ {
        Some(MetaVoteError::WrongToken)
    } else {
        match bond_target(c, sender, b) {
            Err(e) => Some(e),
            Ok(t) => if amount < c.min_deposit_amount {
                Some(MetaVoteError::BelowMinDeposit)
            } else {
                deposit_for_error(c, t.0, amount, t.1)
            },
        }
    }
}

impl MetaVoteContract {
    /// Bonds `amount` for `days` for account `voter_id`, which gets a record
    /// (at the end) if it has none.
    fn deposit_for(&mut self, voter_id: &String, amount: u128, days: u16) -> (r: Result<(), MetaVoteError>)
        requires
            old(self).wf(),
        ensures
            final(self).wf(),
            r == (match deposit_for_error(*old(self), voter_id@, amount, days) {
                Some(e) => Err(e),
                None => Ok(()),
            }),
            r is Err ==> *final(self) == *old(self),
            r is Ok ==> ({
                let prev = positions_of(*old(self), voter_id@);
                let vp = spec_voting_power(amount as int, days as int);
                let nv = final(self).voter(voter_id@);
                &&& final(self).voters@.dom() == old(self).voters@.dom().insert(voter_id@)
                &&& final(self).voters@.remove(voter_id@) == old(self).voters@.remove(voter_id@)
                &&& nv.locking_positions@ == deposited_positions(prev.0, amount, days)
                &&& nv.available_voting_power == prev.1 + vp
                &&& old(self).voters@.contains_key(voter_id@) ==> nv.balance == old(self).voter(voter_id@).balance
                    && nv.vote_positions == old(self).voter(voter_id@).vote_positions
                &&& !old(self).voters@.contains_key(voter_id@) ==> nv.balance == 0
                    && nv.vote_positions@ == Map::<Seq<char>, StrMap<u128>>::empty()
                &&& final(self).total_voting_power == old(self).total_voting_power + vp
                &&& *final(self) == (MetaVoteContract { voters: final(self).voters, total_voting_power: final(self).total_voting_power, ..*old(self) })
            }),
            r is Ok ==> (old(self).voters_balanced() ==> final(self).voters_balanced())
                && (old(self).vp_accounted() ==> final(self).vp_accounted())
                && (old(self).votes_accounted() ==> final(self).votes_accounted()),
    {
        let ghost old_self = *self;
        match self.voters.find(voter_id) {
            Some(i) => {
                proof {
                    self.voters.lemma_index(i as int);
                }
                let mut positions: Vec<LockingPosition> = self.voters.vals[i].locking_positions.clone();
                assert(positions@ =~= self.voters.vals@[i as int].locking_positions@);
                let mut available = self.voters.vals[i].available_voting_power;
                let mut total = self.total_voting_power;
                self.deposit_into(&mut positions, &mut available, &mut total, amount, days)?;
                let mut voter = self.voters.take_at(i, Voter::new());
                voter.locking_positions = positions;
                voter.available_voting_power = available;
                self.total_voting_power = total;
                proof {
                    if old_self.voters_balanced() {
                        assert(old_self.voters.vals@[i as int].vp_balanced());
                    }
                    assert(old_self.voters.vals@[i as int].wf());
                    lemma_replace_voter(old_self.voters.vals@, i as int, voter);
                    if old_self.votes_accounted() {
                        lemma_votes_keep(old_self.votes, old_self.voters.vals@, i as int, voter);
                    }
                }
                self.voters.set_at(i, voter);
                proof {
                    assert(self.voters.vals@ == old_self.voters.vals@.update(i as int, voter));
                    self.voters.lemma_index(i as int);
                    assert(self.voters@.dom() =~= old_self.voters@.dom().insert(voter_id@));
                    assert(self.voters@.remove(voter_id@) =~= old_self.voters@.remove(voter_id@));
                }
                Ok(())
            },
            None => {
                let mut positions: Vec<LockingPosition> = Vec::new();
                assert(positions@ =~= Seq::<LockingPosition>::empty());
                let mut available: u128 = 0;
                let mut total = self.total_voting_power;
                self.deposit_into(&mut positions, &mut available, &mut total, amount, days)?;
                let voter = Voter {
                    balance: 0,
                    locking_positions: positions,
                    available_voting_power: available,
                    vote_positions: StrMap::new(),
                };
                proof {
                    crate::seq_sum::lemma_sum_empty(Seq::<LockingPosition>::empty(), crate::voter::locked_vp_fn());
                    crate::seq_sum::lemma_sum_empty(voter.vote_positions.vals@, crate::voter::inner_sum_fn());
                    assert(voter.vp_balanced());
                    lemma_push_voter(old_self.voters.vals@, voter);
                    if old_self.votes_accounted() {
                        lemma_votes_push_empty(old_self.votes, old_self.voters.vals@, voter);
                    }
                }
                self.total_voting_power = total;
                self.voters.insert(voter_id, voter);
                proof {
                    self.voters.lemma_index(self.voters.keys@.len() - 1);
                    assert(self.voters@.dom() =~= old_self.voters@.dom().insert(voter_id@));
                    assert(self.voters@.remove(voter_id@) =~= old_self.voters@.remove(voter_id@));
                }
                Ok(())
            },
        }
    }

    /// Receives `amount` of the tokens of contract `token` sent by `sender_id`
    /// with message `msg`. A message `for-claims:` followed by a JSON list of
    /// `[account, amount]` distributes the tokens as claims; any other
    /// message bonds mpDAO: a JSON pair `[account, days]` (from the owner
    /// only) bonds for that account, a number of days bonds for the sender.
    /// Gives back the amount that is not used, always zero.
    pub fn ft_on_transfer(&mut self, token: &String, sender_id: &String, amount: u128, msg: &String) -> (r: Result<u128, MetaVoteError>)
        requires
            old(self).wf(),
        ensures
            final(self).wf(),
            r == (match transfer_error(*old(self), token@, sender_id@, amount, msg@) {
                Some(e) => Err(e),
                None => Ok(0u128),
            }),
            r is Err ==> *final(self) == *old(self),
            r is Ok && !is_claims_message(encode_utf8(msg@)) ==> ({
                let t = bond_target(*old(self), sender_id@, encode_utf8(msg@))->Ok_0;
                let prev = positions_of(*old(self), t.0);
                let vp = spec_voting_power(amount as int, t.1 as int);
                let nv = final(self).voter(t.0);
                &&& final(self).voters@.dom() == old(self).voters@.dom().insert(t.0)
                &&& final(self).voters@.remove(t.0) == old(self).voters@.remove(t.0)
                &&& nv.locking_positions@ == deposited_positions(prev.0, amount, t.1)
                &&& nv.available_voting_power == prev.1 + vp
                &&& old(self).voters@.contains_key(t.0) ==> nv.balance == old(self).voter(t.0).balance
                    && nv.vote_positions == old(self).voter(t.0).vote_positions
                &&& !old(self).voters@.contains_key(t.0) ==> nv.balance == 0
                    && nv.vote_positions@ == Map::<Seq<char>, StrMap<u128>>::empty()
                &&& final(self).total_voting_power == old(self).total_voting_power + vp
                &&& *final(self) == (MetaVoteContract { voters: final(self).voters, total_voting_power: final(self).total_voting_power, ..*old(self) })
            }),
            r is Ok && is_claims_message(encode_utf8(msg@)) ==> claims_distributed(
                *old(self),
                *final(self),
                token@,
                json_account_amounts(encode_utf8(msg@).subrange(11, encode_utf8(msg@).len() as int))->Some_0,
            ),
            r is Ok ==> (old(self).voters_balanced() ==> final(self).voters_balanced())
                && (old(self).vp_accounted() ==> final(self).vp_accounted())
                && (old(self).votes_accounted() ==> final(self).votes_accounted())
                && (old(self).claims_accounted() ==> final(self).claims_accounted()),
    {
        let text = msg.as_str();
        let bytes = text.as_bytes();
        let len = bytes.len();
        if len >= 11 && !text.is_char_boundary(11) {
            return Err(MetaVoteError::MessageNotCharBoundary);
        }
        let tag = for_claims_tag_bytes();
        let head = if len >= 11 {
            vstd::slice::slice_subrange(bytes, 0, 11)
        } else {
            bytes
        };
        if len >= 11 && bytes_equal(head, tag.as_slice()) {
            let rest = vstd::slice::slice_subrange(bytes, 11, len);
            let items = match parse_account_amounts(rest) {
                Some(items) => items,
                None => return Err(MetaVoteError::BadClaimsMessage),
            };
            self.distribute_for_claims(token, amount, &items)?;
            return Ok(0);
        }
        if *token != self.mpdao_token_contract_address {
            return Err(MetaVoteError::WrongToken);
        }
        let (voter_id, days) = if len >= 1 && !text.is_char_boundary(1) {
            return Err(MetaVoteError::MessageNotCharBoundary);
        } else if len >= 1 && bytes[0] == 91u8 {
            match parse_account_days(bytes) {
                Some(pair) => {
                    if *sender_id != self.owner_id {
                        return Err(MetaVoteError::OnlyOwnerDepositsForOthers);
                    }
                    pair
                },
                None => return Err(MetaVoteError::BadDepositMessage),
            }
        } else {
            match parse_u16(bytes) {
                Some(days) => (sender_id.clone(), days),
                None => return Err(MetaVoteError::BadDaysMessage),
            }
        };
        if amount < self.min_deposit_amount {
            return Err(MetaVoteError::BelowMinDeposit);
        }
        self.deposit_for(&voter_id, amount, days)?;
        proof {
            assert(old(self).claims_accounted() ==> self.claims_accounted());
        }
        Ok(0)
    }
}

/// The bytes of `for-claims:`.
fn for_claims_tag_bytes() -> (r: Vec<u8>)
    ensures
        r@ == for_claims_tag(),
{
    let r = vec![102u8, 111u8, 114u8, 45u8, 99u8, 108u8, 97u8, 105u8, 109u8, 115u8, 58u8];
    assert(r@ =~= for_claims_tag());
    r
}

/// Whether two byte strings are equal.
fn bytes_equal(a: &[u8], b: &[u8]) -> (r: bool)
    ensures
        r == (a@ == b@),
{
    if a.len() != b.len() {
        return false;
    }
    let mut i: usize = 0;
    while i < a.len()
        invariant
            a@.len() == b@.len(),
            0 <= i <= a@.len(),
            forall|j: int| 0 <= j < i ==> a@[j] == b@[j],
        decreases a@.len() - i,
    {
        if a[i] != b[i] {
            return false;
        }
        i = i + 1;
    }
    assert(a@ =~= b@);
    true
}

/// An error in a prefix of a distribution is the error of the whole.
proof fn lemma_distribution_err_prefix(m: Map<Seq<char>, u128>, start: int, unit: int, items: Seq<(Seq<char>, u64)>, k: int)
    requires
        0 < k <= items.len(),
        distribution(m, start, unit, items.take(k)) is Err,
    ensures
        distribution(m, start, unit, items) == distribution(m, start, unit, items.take(k)),
    decreases items.len() - k,
{
    if k < items.len() {
        assert(items.take(k + 1).drop_last() =~= items.take(k));
        lemma_distribution_err_prefix(m, start, unit, items, k + 1);
    } else {
        assert(items.take(k) =~= items);
    }
}

/// Adds the claims of a distribution that `distribution_check` accepted.
fn apply_distribution(m: &mut StrMap<u128>, total: &mut u128, unit: u128, items: &Vec<(String, u64)>)
    requires
        old(m).wf(),
        unit > 0,
        distribution(old(m)@, *old(total) as int, unit as int, pairs_view(items@)) is Ok,
    ensures
        final(m).wf(),
        ({
            let st = distribution(old(m)@, *old(total) as int, unit as int, pairs_view(items@))->Ok_0;
            &&& final(m)@ == st.0
            &&& *final(total) == *old(total) + st.1
            &&& sum_u128(final(m).vals@) == sum_u128(old(m).vals@) + st.1
        }),
{
    let ghost pv = pairs_view(items@);
    let ghost m0 = *m;
    let ghost t0 = *total;
    let mut k: usize = 0;
    assert(pv.take(0) =~= Seq::<(Seq<char>, u64)>::empty());
    while k < items.len()
        invariant
            m.wf(),
            unit > 0,
            0 <= k <= items@.len(),
            pv == pairs_view(items@),
            pv.len() == items@.len(),
            distribution(m0@, t0 as int, unit as int, pv) is Ok,
            distribution(m0@, t0 as int, unit as int, pv.take(k as int)) == Ok::<(Map<Seq<char>, u128>, int), MetaVoteError>((m@, *total - t0)),
            sum_u128(m.vals@) == sum_u128(m0.vals@) + (*total - t0),
        decreases items@.len() - k,
    {
        proof {
            lemma_pairs_view_index(items@, k as int);
            assert(pv.take(k as int + 1).drop_last() =~= pv.take(k as int));
            assert(pv.take(k as int + 1).last() == pv[k as int]);
            lemma_distribution_prefix(m0@, t0 as int, unit as int, pv, k as int + 1);
        }
        let acc = &items[k].0;
        let amount = (items[k].1 as u128) * unit;
        assert(claimable_of(*m, acc@) == get0(m@, acc@));
        let r = claim_add(m, total, acc, amount);
        assert(r is Ok);
        k = k + 1;
    }
    assert(pv.take(k as int) =~= pv);
}

} // verus!
