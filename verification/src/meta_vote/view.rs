//! Read-only queries of the contract's state.
use vstd::prelude::*;
use crate::locking_position::LockingPositionJSON;
use crate::meta_vote::{MetaVoteContract, MetaVoteError, claimable_of};
use crate::meta_vote::voting::{votes_of, has_votes};
use crate::str_map::StrMap;
use crate::voter::{Voter, VoterJSON, VotePositionJSON, VotePositions, locked_amount, unlocking_amount, unlocked_amount, used_votes, votes_at, votes_wf, positions_json, pos_json, flat_votes, entry_view, inner_entries};

verus! {

/// The contract's settings and totals, as the views report them.
pub struct ContractInfoJson {
    pub owner_id: String,
    pub operator_id: String,
    pub voter_count: u64,
    pub min_unbond_period: u16,
    pub max_unbond_period: u16,
    pub min_deposit_amount: u128,
    pub max_locking_positions: u8,
    pub max_voting_positions: u8,
    pub mpdao_token_contract_address: String,
    pub stnear_token_contract_address: String,
    pub registration_cost: u128,
    pub prev_governance_contract: String,
    pub accumulated_mpdao_distributed_for_claims: u128,
    pub total_unclaimed_mpdao: u128,
    pub accum_distributed_stnear_for_claims: u128,
    pub total_unclaimed_stnear: u128,
    pub evm_delegates_count: u64,
}

/// Votes given to an object of a contract, as the views report them.
pub struct VotableObjectJSON {
    pub votable_contract: String,
    pub id: String,
    pub current_votes: u128,
}

/// Inserts `x` after the leading elements with no more votes than it.
pub open spec fn insert_by_votes(s: Seq<VotableObjectJSON>, x: VotableObjectJSON) -> Seq<VotableObjectJSON>
    decreases s.len(),
{
    if s.len() == 0 {
        seq![x]
    } else if x.current_votes < s[0].current_votes {
        seq![x] + s
    } else {
        seq![s[0]] + insert_by_votes(s.drop_first(), x)
    }
}

/// `s` sorted by votes, smallest first; equal votes keep their order.
pub open spec fn sort_by_votes(s: Seq<VotableObjectJSON>) -> Seq<VotableObjectJSON>
    decreases s.len(),
{
    if s.len() == 0 {
        Seq::empty()
    } else {
        insert_by_votes(sort_by_votes(s.drop_last()), s.last())
    }
}

proof fn lemma_insert_by_votes_at(s: Seq<VotableObjectJSON>, x: VotableObjectJSON, k: int)
    requires
        0 <= k <= s.len(),
        forall|j: int| 0 <= j < k ==> (#[trigger] s[j]).current_votes <= x.current_votes,
        k < s.len() ==> x.current_votes < s[k].current_votes,
    ensures
        insert_by_votes(s, x) == s.insert(k, x),
    decreases s.len(),
{
    if s.len() == 0 {
        assert(s.insert(k, x) =~= seq![x]);
    } else if k == 0 {
        assert(s.insert(k, x) =~= seq![x] + s);
    } else {
        lemma_insert_by_votes_at(s.drop_first(), x, k - 1);
        assert(s.insert(k, x) =~= seq![s[0]] + s.drop_first().insert(k - 1, x));
    }
}

/// Sorts objects by votes, smallest first, keeping the order of equal votes.
pub fn sort_objects_by_votes(v: Vec<VotableObjectJSON>) -> (r: Vec<VotableObjectJSON>)
    ensures
        r@ == sort_by_votes(v@),
{
    let mut r: Vec<VotableObjectJSON> = Vec::new();
    let mut v = v;
    let ghost orig = v@;
    let mut rest: Vec<VotableObjectJSON> = Vec::new();
    // take the elements out in order
    let n = v.len();
    let mut i: usize = 0;
    while i < n
        invariant
            n == orig.len(),
            0 <= i <= n,
            v@ == orig.subrange(i as int, n as int),
            r@ == sort_by_votes(orig.take(i as int)),
        decreases n - i,
    {
        let x = v.remove(0);
        assert(x == orig[i as int]);
        let mut k: usize = 0;
        while k < r.len() && r[k].current_votes <= x.current_votes
            invariant
                0 <= k <= r@.len(),
                forall|j: int| 0 <= j < k ==> (#[trigger] r@[j]).current_votes <= x.current_votes,
            decreases r@.len() - k,
        {
            k = k + 1;
        }
        proof {
            lemma_insert_by_votes_at(r@, x, k as int);
            assert(orig.take(i as int + 1).drop_last() =~= orig.take(i as int));
            assert(orig.take(i as int + 1).last() == x);
            assert(v@ =~= orig.subrange(i as int + 1, n as int));
        }
        r.insert(k, x);
        i = i + 1;
    }
    assert(orig.take(n as int) =~= orig);
    r
}

/// The objects of a map of votes, each with `contract` as its contract.
pub open spec fn objects_of(contract: Seq<char>, m: StrMap<u128>) -> Seq<(Seq<char>, Seq<char>, u128)> {
    inner_entries(contract, m)
}

/// An object by its views.
pub open spec fn object_view(o: VotableObjectJSON) -> (Seq<char>, Seq<char>, u128) {
    (o.votable_contract@, o.id@, o.current_votes)
}

/// `j` reports the voter at position `i` of `voters` at `now`.
pub open spec fn voter_json_at(voters: StrMap<Voter>, i: int, j: VoterJSON, now: u64) -> bool {
    let v = voters.vals@[i];
    &&& j.voter_id@ == voters.key_seq()[i]
    &&& j.locking_positions@ == positions_json(v.locking_positions@, now)
    &&& j.balance_in_contract == v.balance
    &&& j.voting_power == v.available_voting_power
    &&& j.vote_positions@.map_values(|e: VotePositionJSON| entry_view(e)) == flat_votes(v.vote_positions, v.vote_positions.keys@.len())
}

/// The claims from position `from_index`, at most `limit` of them.
fn claims_page(m: &StrMap<u128>, from_index: u32, limit: u32) -> (r: Vec<(String, u128)>)
    requires
        m.wf(),
    ensures
        ({
            let n = m.keys@.len() as int;
            let end = if from_index + limit < n { from_index + limit } else { n };
            &&& r@.len() == if end > from_index { end - from_index } else { 0 }
            &&& forall|k: int| 0 <= k < r@.len() ==> (#[trigger] r@[k]).0@ == m.key_seq()[from_index + k]
                && r@[k].1 == m.vals@[from_index + k]
        }),
{
    let len = m.len();
    let stop = (from_index as u64) + (limit as u64);
    let end: usize = if stop < len as u64 { stop as usize } else { len };
    let start: usize = from_index as usize;
    let mut v: Vec<(String, u128)> = Vec::new();
    if start >= end {
        return v;
    }
    let mut k: usize = start;
    while k < end
        invariant
            start == from_index,
            start <= k <= end,
            end <= m.keys@.len(),
            m.wf(),
            v@.len() == k - start,
            forall|j: int| 0 <= j < v@.len() ==> (#[trigger] v@[j]).0@ == m.key_seq()[from_index + j]
                && v@[j].1 == m.vals@[from_index + j],
        decreases end - k,
    {
        let key = m.key_at(k).clone();
        let val = *m.val_at(k);
        let ghost v0 = v@;
        v.push((key, val));
        assert forall|j: int| 0 <= j < v@.len() implies (#[trigger] v@[j]).0@ == m.key_seq()[from_index + j]
            && v@[j].1 == m.vals@[from_index + j] by {
            if j < v0.len() {
                assert(v@[j] == v0[j]);
            }
        }
        k = k + 1;
    }
    v
}

/// The objects of a map of votes with their votes, in the map's order.
fn objects_list(contract: &String, m: &StrMap<u128>) -> (r: Vec<VotableObjectJSON>)
    requires
        m.wf(),
    ensures
        r@.map_values(|o: VotableObjectJSON| object_view(o)) == objects_of(contract@, *m),
{
    let mut r: Vec<VotableObjectJSON> = Vec::new();
    let mut j: usize = 0;
    while j < m.keys.len()
        invariant
            m.wf(),
            0 <= j <= m.keys@.len(),
            r@.map_values(|o: VotableObjectJSON| object_view(o)) == objects_of(contract@, *m).take(j as int),
        decreases m.keys@.len() - j,
    {
        let ghost r0 = r@;
        r.push(VotableObjectJSON { votable_contract: contract.clone(), id: m.key_at(j).clone(), current_votes: *m.val_at(j) });
        assert(r@.map_values(|o: VotableObjectJSON| object_view(o)) =~= r0.map_values(|o: VotableObjectJSON| object_view(o)).push(objects_of(contract@, *m)[j as int]));
        assert(objects_of(contract@, *m).take(j as int + 1) =~= objects_of(contract@, *m).take(j as int).push(objects_of(contract@, *m)[j as int]));
        j = j + 1;
    }
    assert(objects_of(contract@, *m).take(j as int) =~= objects_of(contract@, *m));
    r
}

impl MetaVoteContract {
    /// The owner.
    pub fn get_owner_id(&self) -> (r: String)
        ensures
            r == self.owner_id,
    {
        self.owner_id.clone()
    }

    /// The operator.
    pub fn get_operator_id(&self) -> (r: String)
        ensures
            r == self.operator_id,
    {
        self.operator_id.clone()
    }

    /// The contract's settings and totals.
    pub fn get_contract_info(&self) -> (r: ContractInfoJson)
        ensures
            r.owner_id == self.owner_id,
            r.operator_id == self.operator_id,
            r.voter_count == self.voters.keys@.len(),
            r.min_unbond_period == self.min_unbond_period,
            r.max_unbond_period == self.max_unbond_period,
            r.min_deposit_amount == self.min_deposit_amount,
            r.max_locking_positions == self.max_locking_positions,
            r.max_voting_positions == self.max_voting_positions,
            r.mpdao_token_contract_address == self.mpdao_token_contract_address,
            r.stnear_token_contract_address == self.stnear_token_contract_address,
            r.registration_cost == self.registration_cost,
            r.prev_governance_contract == self.prev_governance_contract,
            r.accumulated_mpdao_distributed_for_claims == self.accumulated_mpdao_distributed_for_claims,
            r.total_unclaimed_mpdao == self.total_unclaimed_mpdao,
            r.accum_distributed_stnear_for_claims == self.accum_distributed_stnear_for_claims,
            r.total_unclaimed_stnear == self.total_unclaimed_stnear,
            r.evm_delegates_count == self.evm_delegates.keys@.len(),
    {
        ContractInfoJson {
            owner_id: self.owner_id.clone(),
            operator_id: self.operator_id.clone(),
            voter_count: self.voters.len() as u64,
            min_unbond_period: self.min_unbond_period,
            max_unbond_period: self.max_unbond_period,
            min_deposit_amount: self.min_deposit_amount,
            max_locking_positions: self.max_locking_positions,
            max_voting_positions: self.max_voting_positions,
            mpdao_token_contract_address: self.mpdao_token_contract_address.clone(),
            stnear_token_contract_address: self.stnear_token_contract_address.clone(),
            registration_cost: self.registration_cost,
            prev_governance_contract: self.prev_governance_contract.clone(),
            accumulated_mpdao_distributed_for_claims: self.accumulated_mpdao_distributed_for_claims,
            total_unclaimed_mpdao: self.total_unclaimed_mpdao,
            accum_distributed_stnear_for_claims: self.accum_distributed_stnear_for_claims,
            total_unclaimed_stnear: self.total_unclaimed_stnear,
            evm_delegates_count: self.evm_delegates.len() as u64,
        }
    }

    /// The number of voters.
    pub fn get_voters_count(&self) -> (r: u64)
        ensures
            r == self.voters.keys@.len(),
    {
        self.voters.len() as u64
    }

    /// The voting power of all locked positions.
    pub fn get_total_voting_power(&self) -> (r: u128)
        ensures
            r == self.total_voting_power,
    {
        self.total_voting_power
    }

    /// The record of `voter_id`, or an empty record where it has none.
    fn voter_or_empty(&self, voter_id: &String) -> (r: Option<&Voter>)
        requires
            self.wf(),
        ensures
            r is Some <==> self.voters@.contains_key(voter_id@),
            r matches Some(v) ==> *v == self.voter(voter_id@) && v.wf(),
    {
        match self.voters.find(voter_id) {
            Some(i) => {
                proof {
                    self.voters.lemma_index(i as int);
                }
                Some(self.voters.val_at(i))
            },
            None => None,
        }
    }

    /// Everything about `voter_id` at `now`; empty where it has no record.
    pub fn get_voter_info(&self, voter_id: &String, now: u64) -> (r: VoterJSON)
        requires
            self.wf(),
        ensures
            r.voter_id@ == voter_id@,
            self.voters@.contains_key(voter_id@) ==> ({
                let v = self.voter(voter_id@);
                &&& r.locking_positions@ == positions_json(v.locking_positions@, now)
                &&& r.balance_in_contract == v.balance
                &&& r.voting_power == v.available_voting_power
                &&& r.vote_positions@.map_values(|e: VotePositionJSON| entry_view(e)) == flat_votes(v.vote_positions, v.vote_positions.keys@.len())
            }),
            !self.voters@.contains_key(voter_id@) ==> r.locking_positions@.len() == 0 && r.balance_in_contract == 0
                && r.voting_power == 0 && r.vote_positions@.len() == 0,
    {
        match self.voter_or_empty(voter_id) {
            Some(v) => v.to_json(voter_id, now),
            None => VoterJSON {
                voter_id: voter_id.clone(),
                locking_positions: Vec::new(),
                balance_in_contract: 0,
                voting_power: 0,
                vote_positions: Vec::new(),
            },
        }
    }

    /// Everything about the voters from position `from_index`, at most
    /// `limit` of them, at `now`.
    pub fn get_voters(&self, from_index: u32, limit: u32, now: u64) -> (r: Vec<VoterJSON>)
        requires
            self.wf(),
        ensures
            ({
                let n = self.voters.keys@.len() as int;
                let end = if from_index + limit < n { from_index + limit } else { n };
                &&& r@.len() == if end > from_index { end - from_index } else { 0 }
                &&& forall|k: int| 0 <= k < r@.len() ==> voter_json_at(self.voters, from_index + k, #[trigger] r@[k], now)
            }),
    {
        let len = self.voters.len();
        let stop = (from_index as u64) + (limit as u64);
        let end: usize = if stop < len as u64 { stop as usize } else { len };
        let start: usize = from_index as usize;
        let mut out: Vec<VoterJSON> = Vec::new();
        if start >= end {
            return out;
        }
        let mut k: usize = start;
        while k < end
            invariant
                self.wf(),
                start == from_index,
                start <= k <= end,
                end <= self.voters.keys@.len(),
                out@.len() == k - start,
                forall|j: int| 0 <= j < out@.len() ==> voter_json_at(self.voters, from_index + j, #[trigger] out@[j], now),
            decreases end - k,
        {
            assert(self.voters.vals@[k as int].wf());
            let json = self.voters.val_at(k).to_json(self.voters.key_at(k), now);
            let ghost o0 = out@;
            out.push(json);
            assert forall|j: int| 0 <= j < out@.len() implies voter_json_at(self.voters, from_index + j, #[trigger] out@[j], now) by {
                if j < o0.len() {
                    assert(out@[j] == o0[j]);
                }
            }
            k = k + 1;
        }
        out
    }

    /// Free mpDAO of `voter_id` plus mpDAO whose unbond period is over at `now`.
    pub fn get_balance(&self, voter_id: &String, now: u64) -> (r: u128)
        requires
            self.wf(),
            self.voters@.contains_key(voter_id@) ==> self.voter(voter_id@).balance + unlocked_amount(
                self.voter(voter_id@).locking_positions@,
                now,
            ) <= u128::MAX,
        ensures
            self.voters@.contains_key(voter_id@) ==> r == self.voter(voter_id@).balance + unlocked_amount(self.voter(voter_id@).locking_positions@, now),
            !self.voters@.contains_key(voter_id@) ==> r == 0,
    {
        match self.voter_or_empty(voter_id) {
            Some(v) => {
                proof {
                    crate::seq_sum::lemma_sum_nonneg(v.locking_positions@, crate::voter::unlocked_amount_fn(now));
                }
                v.balance + v.sum_unlocked(now)
            },
            None => 0,
        }
    }

    /// The mpDAO that `voter_id` can claim.
    pub fn get_claimable_mpdao(&self, voter_id: &String) -> (r: u128)
        requires
            self.wf(),
        ensures
            r == claimable_of(self.claimable_mpdao, voter_id@),
    {
        match self.claimable_mpdao.get(voter_id) {
            Some(x) => *x,
            None => 0,
        }
    }

    /// Same as `get_claimable_mpdao` (name kept as published).
    pub fn get_claimable_meta(&self, voter_id: &String) -> (r: u128)
        requires
            self.wf(),
        ensures
            r == claimable_of(self.claimable_mpdao, voter_id@),
    {
        self.get_claimable_mpdao(voter_id)
    }

    /// The stNEAR that `voter_id` can claim.
    pub fn get_claimable_stnear(&self, voter_id: &String) -> (r: u128)
        requires
            self.wf(),
        ensures
            r == claimable_of(self.claimable_stnear, voter_id@),
    {
        match self.claimable_stnear.get(voter_id) {
            Some(x) => *x,
            None => 0,
        }
    }

    /// The stNEAR claims from position `from_index`, at most `limit` of them.
    pub fn get_stnear_claims(&self, from_index: u32, limit: u32) -> (r: Vec<(String, u128)>)
        requires
            self.wf(),
        ensures
            ({
                let m = self.claimable_stnear;
                let n = m.keys@.len() as int;
                let end = if from_index + limit < n { from_index + limit } else { n };
                &&& r@.len() == if end > from_index { end - from_index } else { 0 }
                &&& forall|k: int| 0 <= k < r@.len() ==> (#[trigger] r@[k]).0@ == m.key_seq()[from_index + k]
                    && r@[k].1 == m.vals@[from_index + k]
            }),
    {
        claims_page(&self.claimable_stnear, from_index, limit)
    }

    /// The mpDAO claims from position `from_index`, at most `limit` of them.
    pub fn get_claims(&self, from_index: u32, limit: u32) -> (r: Vec<(String, u128)>)
        requires
            self.wf(),
        ensures
            ({
                let m = self.claimable_mpdao;
                let n = m.keys@.len() as int;
                let end = if from_index + limit < n { from_index + limit } else { n };
                &&& r@.len() == if end > from_index { end - from_index } else { 0 }
                &&& forall|k: int| 0 <= k < r@.len() ==> (#[trigger] r@[k]).0@ == m.key_seq()[from_index + k]
                    && r@[k].1 == m.vals@[from_index + k]
            }),
    {
        claims_page(&self.claimable_mpdao, from_index, limit)
    }

    /// mpDAO in the locked positions of `voter_id`.
    pub fn get_locked_balance(&self, voter_id: &String) -> (r: u128)
        requires
            self.wf(),
            self.voters@.contains_key(voter_id@) ==> locked_amount(self.voter(voter_id@).locking_positions@) <= u128::MAX,
        ensures
            self.voters@.contains_key(voter_id@) ==> r == locked_amount(self.voter(voter_id@).locking_positions@),
            !self.voters@.contains_key(voter_id@) ==> r == 0,
    {
        match self.voter_or_empty(voter_id) {
            Some(v) => v.sum_locked(),
            None => 0,
        }
    }

    /// mpDAO of `voter_id` whose unbond period runs at `now`.
    pub fn get_unlocking_balance(&self, voter_id: &String, now: u64) -> (r: u128)
        requires
            self.wf(),
            self.voters@.contains_key(voter_id@) ==> unlocking_amount(self.voter(voter_id@).locking_positions@, now) <= u128::MAX,
        ensures
            self.voters@.contains_key(voter_id@) ==> r == unlocking_amount(self.voter(voter_id@).locking_positions@, now),
            !self.voters@.contains_key(voter_id@) ==> r == 0,
    {
        match self.voter_or_empty(voter_id) {
            Some(v) => v.sum_unlocking(now),
            None => 0,
        }
    }

    /// The free voting power of `voter_id`.
    pub fn get_available_voting_power(&self, voter_id: &String) -> (r: u128)
        requires
            self.wf(),
        ensures
            self.voters@.contains_key(voter_id@) ==> r == self.voter(voter_id@).available_voting_power,
            !self.voters@.contains_key(voter_id@) ==> r == 0,
    {
        match self.voter_or_empty(voter_id) {
            Some(v) => v.available_voting_power,
            None => 0,
        }
    }

    /// The voting power that `voter_id` gives to objects.
    pub fn get_used_voting_power(&self, voter_id: &String) -> (r: u128)
        requires
            self.wf(),
            self.voters@.contains_key(voter_id@) ==> used_votes(self.voter(voter_id@).vote_positions) <= u128::MAX,
        ensures
            self.voters@.contains_key(voter_id@) ==> r == used_votes(self.voter(voter_id@).vote_positions),
            !self.voters@.contains_key(voter_id@) ==> r == 0,
    {
        match self.voter_or_empty(voter_id) {
            Some(v) => v.sum_used_votes(),
            None => 0,
        }
    }

    /// The minimum and maximum unbond periods.
    pub fn get_locking_period(&self) -> (r: (u16, u16))
        ensures
            r == (self.min_unbond_period, self.max_unbond_period),
    {
        (self.min_unbond_period, self.max_unbond_period)
    }

    /// All positions of `voter_id` at `now`.
    pub fn get_all_locking_positions(&self, voter_id: &String, now: u64) -> (r: Vec<LockingPositionJSON>)
        requires
            self.wf(),
        ensures
            self.voters@.contains_key(voter_id@) ==> r@ == positions_json(self.voter(voter_id@).locking_positions@, now),
            !self.voters@.contains_key(voter_id@) ==> r@.len() == 0,
    {
        match self.voter_or_empty(voter_id) {
            Some(v) => v.positions_to_json(now),
            None => Vec::new(),
        }
    }

    /// Position `index` of `voter_id` at `now`, if it exists.
    pub fn get_locking_position(&self, index: u64, voter_id: &String, now: u64) -> (r: Option<LockingPositionJSON>)
        requires
            self.wf(),
        ensures
            ({
                let s = if self.voters@.contains_key(voter_id@) { self.voter(voter_id@).locking_positions@ } else { Seq::empty() };
                &&& r is Some <==> index < s.len()
                &&& r matches Some(p) ==> p == pos_json(s[index as int], index, now)
            }),
    {
        match self.voter_or_empty(voter_id) {
            Some(v) => {
                if index < v.locking_positions.len() as u64 {
                    Some(v.get_position(index).to_json(Some(index), now))
                } else {
                    None
                }
            },
            None => None,
        }
    }

    /// The votes of all voters for object `votable_object_id` of `contract_address`.
    pub fn get_total_votes(&self, contract_address: &String, votable_object_id: &String) -> (r: u128)
        requires
            self.wf(),
        ensures
            r == votes_at(self.votes, contract_address@, votable_object_id@),
    {
        match votes_of(&self.votes, contract_address, votable_object_id) {
            Some(x) => x,
            None => 0,
        }
    }

    /// The objects of `app_or_contract_address` with their votes, in the
    /// order of the contract's map.
    pub fn get_votes_by_app(&self, app_or_contract_address: &String) -> (r: Vec<(String, u128)>)
        requires
            self.wf(),
        ensures
            self.votes@.contains_key(app_or_contract_address@) ==> r@.map_values(|p: (String, u128)| (p.0@, p.1)) == inner_entries(
                app_or_contract_address@,
                self.votes@[app_or_contract_address@],
            ).map_values(|e: (Seq<char>, Seq<char>, u128)| (e.1, e.2)),
            !self.votes@.contains_key(app_or_contract_address@) ==> r@.len() == 0,
    {
        let mut r: Vec<(String, u128)> = Vec::new();
        match self.votes.get(app_or_contract_address) {
            Some(m) => {
                proof {
                    let i = self.votes.key_seq().index_of(app_or_contract_address@);
                    self.votes.lemma_has_index(app_or_contract_address@);
                    self.votes.lemma_index(i);
                    assert(self.votes.vals@[i].wf());
                }
                let ghost want = inner_entries(app_or_contract_address@, *m).map_values(|e: (Seq<char>, Seq<char>, u128)| (e.1, e.2));
                let mut j: usize = 0;
                while j < m.keys.len()
                    invariant
                        m.wf(),
                        0 <= j <= m.keys@.len(),
                        want == inner_entries(app_or_contract_address@, *m).map_values(|e: (Seq<char>, Seq<char>, u128)| (e.1, e.2)),
                        r@.map_values(|p: (String, u128)| (p.0@, p.1)) == want.take(j as int),
                    decreases m.keys@.len() - j,
                {
                    let ghost r0 = r@;
                    r.push((m.key_at(j).clone(), *m.val_at(j)));
                    assert(r@.map_values(|p: (String, u128)| (p.0@, p.1)) =~= r0.map_values(|p: (String, u128)| (p.0@, p.1)).push(want[j as int]));
                    assert(want.take(j as int + 1) =~= want.take(j as int).push(want[j as int]));
                    j = j + 1;
                }
                assert(want.take(j as int) =~= want);
                r
            },
            None => r,
        }
    }

    /// The objects of `contract_address` with their votes, sorted by votes
    /// (smallest first, equal votes in the order of the contract's map).
    pub fn get_votes_by_contract(&self, contract_address: &String) -> (r: Vec<VotableObjectJSON>)
        requires
            self.wf(),
        ensures
            exists|unsorted: Seq<VotableObjectJSON>| {
                &&& r@ == sort_by_votes(unsorted)
                &&& self.votes@.contains_key(contract_address@) ==> unsorted.map_values(|o: VotableObjectJSON| object_view(o))
                    == objects_of(contract_address@, self.votes@[contract_address@])
                &&& !self.votes@.contains_key(contract_address@) ==> unsorted.len() == 0
            },
    {
        let list: Vec<VotableObjectJSON> = match self.votes.get(contract_address) {
            Some(m) => {
                proof {
                    let i = self.votes.key_seq().index_of(contract_address@);
                    self.votes.lemma_has_index(contract_address@);
                    self.votes.lemma_index(i);
                    assert(self.votes.vals@[i].wf());
                }
                objects_list(contract_address, m)
            },
            None => Vec::new(),
        };
        let ghost unsorted = list@;
        let r = sort_objects_by_votes(list);
        assert(r@ == sort_by_votes(unsorted));
        r
    }

    /// The votes of `voter_id` per object, sorted by votes (smallest first,
    /// equal votes address after address, each in the order of its map).
    pub fn get_votes_by_voter(&self, voter_id: &String) -> (r: Vec<VotableObjectJSON>)
        requires
            self.wf(),
        ensures
            exists|unsorted: Seq<VotableObjectJSON>| {
                &&& r@ == sort_by_votes(unsorted)
                &&& self.voters@.contains_key(voter_id@) ==> unsorted.map_values(|o: VotableObjectJSON| object_view(o))
                    == flat_votes(self.voter(voter_id@).vote_positions, self.voter(voter_id@).vote_positions.keys@.len())
                &&& !self.voters@.contains_key(voter_id@) ==> unsorted.len() == 0
            },
    {
        let mut list: Vec<VotableObjectJSON> = Vec::new();
        match self.voter_or_empty(voter_id) {
            Some(v) => {
                let vp = &v.vote_positions;
                let mut i: usize = 0;
                while i < vp.keys.len()
                    invariant
                        votes_wf(*vp),
                        0 <= i <= vp.keys@.len(),
                        list@.map_values(|o: VotableObjectJSON| object_view(o)) == flat_votes(*vp, i as nat),
                    decreases vp.keys@.len() - i,
                {
                    let address = vp.key_at(i);
                    let inner = vp.val_at(i);
                    assert(inner.wf());
                    let ghost before = list@.map_values(|o: VotableObjectJSON| object_view(o));
                    let mut j: usize = 0;
                    while j < inner.keys.len()
                        invariant
                            inner.wf(),
                            0 <= j <= inner.keys@.len(),
                            list@.map_values(|o: VotableObjectJSON| object_view(o)) == before + inner_entries(address@, *inner).take(j as int),
                        decreases inner.keys@.len() - j,
                    {
                        let ghost l0 = list@;
                        list.push(VotableObjectJSON {
                            votable_contract: address.clone(),
                            id: inner.key_at(j).clone(),
                            current_votes: *inner.val_at(j),
                        });
                        assert(list@.map_values(|o: VotableObjectJSON| object_view(o)) =~= l0.map_values(|o: VotableObjectJSON| object_view(o)).push(inner_entries(address@, *inner)[j as int]));
                        assert(inner_entries(address@, *inner).take(j as int + 1) =~= inner_entries(address@, *inner).take(j as int).push(inner_entries(address@, *inner)[j as int]));
                        j = j + 1;
                    }
                    assert(inner_entries(address@, *inner).take(j as int) =~= inner_entries(address@, *inner));
                    i = i + 1;
                }
            },
            None => {},
        }
        let ghost unsorted = list@;
        let r = sort_objects_by_votes(list);
        r
    }

    /// The votes that `voter_id` gives to object `votable_object_id` of `contract_address`.
    pub fn get_votes_for_object(&self, voter_id: &String, contract_address: &String, votable_object_id: &String) -> (r: u128)
        requires
            self.wf(),
        ensures
            self.voters@.contains_key(voter_id@) ==> r == votes_at(self.voter(voter_id@).vote_positions, contract_address@, votable_object_id@),
            !self.voters@.contains_key(voter_id@) ==> r == 0,
    {
        match self.voter_or_empty(voter_id) {
            Some(v) => match votes_of(&v.vote_positions, contract_address, votable_object_id) {
                Some(x) => x,
                None => 0,
            },
            None => 0,
        }
    }

    /// mpDAO distributed for claims and not yet claimed.
    pub fn get_total_unclaimed_mpdao(&self) -> (r: u128)
        ensures
            r == self.total_unclaimed_mpdao,
    {
        self.total_unclaimed_mpdao
    }

    /// Same as `get_total_unclaimed_mpdao` (name kept as published).
    pub fn get_total_unclaimed_meta(&self) -> (r: u128)
        ensures
            r == self.total_unclaimed_mpdao,
    {
        self.get_total_unclaimed_mpdao()
    }

    /// All mpDAO ever distributed for claims.
    pub fn get_accumulated_mpdao_distributed_for_claims(&self) -> (r: u128)
        ensures
            r == self.accumulated_mpdao_distributed_for_claims,
    {
        self.accumulated_mpdao_distributed_for_claims
    }

    /// Same as `get_accumulated_mpdao_distributed_for_claims` (name kept as published).
    pub fn get_accumulated_distributed_for_claims(&self) -> (r: u128)
        ensures
            r == self.accumulated_mpdao_distributed_for_claims,
    {
        self.get_accumulated_mpdao_distributed_for_claims()
    }
}

} // verus!
