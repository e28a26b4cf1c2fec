//! Meta Pool improvement proposals (MPIPs): proposals, their votes, and the
//! states a proposal goes through.
pub mod contract;

use vstd::prelude::*;
use crate::str_map::StrMap;
use crate::seq_sum::{sum_of, lemma_sum_push, lemma_sum_update, lemma_sum_swap_remove, lemma_sum_empty};

verus! {

/// The states of a proposal.
#[derive(Debug, Clone, Copy, PartialEq, Eq, Structural)]
pub enum MpipState {
    /// Shared by its creator for discussion.
    Draft,
    /// Reviewed and accepted by the managers; the vote has not started.
    Active,
    /// In its voting period.
    VotingProcess,
    /// Accepted by the votes.
    Accepted,
    /// Rejected by the votes.
    Rejected,
    /// Executed.
    Executed,
    /// Canceled by a manager or its creator.
    Canceled,
}

/// How a vote is cast.
#[derive(Debug, Clone, Copy, PartialEq, Eq, Structural)]
pub enum VoteType {
    Against,
    For,
    Abstain,
}

/// One account's vote on a proposal.
pub struct Vote {
    pub mpip_id: u32,
    pub vote_type: VoteType,
    pub voting_power: u128,
    pub memo: String,
}

/// A vote as the views report it.
pub struct VoteJson {
    pub mpip_id: u32,
    pub voter_id: String,
    pub vote_type: VoteType,
    pub voting_power: u128,
    pub memo: String,
}

/// The votes on one proposal: the three tallies and each account's vote.
pub struct ProposalVote {
    pub for_votes: u128,
    pub against_votes: u128,
    pub abstain_votes: u128,
    pub has_voted: StrMap<Vote>,
}

/// The votes on one proposal as the views report them.
pub struct ProposalVoteJson {
    pub for_votes: u128,
    pub against_votes: u128,
    pub abstain_votes: u128,
    pub has_voted: Vec<VoteJson>,
}

/// A proposal.
pub struct Mpip {
    pub mpip_id: u32,
    pub title: String,
    pub short_description: String,
    pub body: String,
    pub data: String,
    pub extra: String,
    pub creator_id: String,
    pub vote_start_timestamp: Option<u64>,
    pub vote_end_timestamp: Option<u64>,
    pub draft: bool,
    pub executed: bool,
    pub canceled: bool,
    /// The votes (for plus abstain) that the proposal needs, fixed when its
    /// vote starts.
    pub v_power_quorum_to_reach: Option<u128>,
}

/// A proposal as the views report it.
pub struct MpipJSON {
    pub mpip_id: u32,
    pub title: String,
    pub body: String,
    pub data: String,
    pub extra: String,
    pub creator_id: String,
    pub vote_start_timestamp: Option<u64>,
    pub vote_end_timestamp: Option<u64>,
    pub draft: bool,
    pub executed: bool,
    pub canceled: bool,
}

/// A proposal as the views report it (all but its short description and
/// its quorum).
pub open spec fn mpip_json(p: Mpip) -> MpipJSON {
    MpipJSON {
        mpip_id: p.mpip_id,
        title: p.title,
        body: p.body,
        data: p.data,
        extra: p.extra,
        creator_id: p.creator_id,
        vote_start_timestamp: p.vote_start_timestamp,
        vote_end_timestamp: p.vote_end_timestamp,
        draft: p.draft,
        executed: p.executed,
        canceled: p.canceled,
    }
}

/// The voting power that `v` adds to the tally of `t`.
pub open spec fn vote_weight(v: Vote, t: VoteType) -> int {
    if v.vote_type == t {
        v.voting_power as int
    } else {
        0
    }
}

pub open spec fn weight_fn(t: VoteType) -> spec_fn(Vote) -> int {
    |v: Vote| vote_weight(v, t)
}

/// The voting power of all votes of type `t` in `votes`.
pub open spec fn tally(votes: Seq<Vote>, t: VoteType) -> int {
    sum_of(votes, weight_fn(t))
}

impl Vote {
    /// A vote.
    pub fn new(mpip_id: u32, vote_type: VoteType, voting_power: u128, memo: String) -> (r: Self)
        ensures
            r == (Vote { mpip_id, vote_type, voting_power, memo }),
    {
        Vote { mpip_id, vote_type, voting_power, memo }
    }

    /// A copy of the vote.
    pub fn copy(&self) -> (r: Self)
        ensures
            r == *self,
    {
        Vote { mpip_id: self.mpip_id, vote_type: self.vote_type, voting_power: self.voting_power, memo: self.memo.clone() }
    }

    /// The vote of `voter_id` as the views report it.
    pub fn to_json(&self, voter_id: &String) -> (r: VoteJson)
        ensures
            r.mpip_id == self.mpip_id,
            r.voter_id == *voter_id,
            r.vote_type == self.vote_type,
            r.voting_power == self.voting_power,
            r.memo == self.memo,
    {
        VoteJson {
            mpip_id: self.mpip_id,
            voter_id: voter_id.clone(),
            vote_type: self.vote_type,
            voting_power: self.voting_power,
            memo: self.memo.clone(),
        }
    }
}

impl ProposalVote {
    /// No votes yet.
    pub fn new() -> (r: Self)
        ensures
            r.for_votes == 0,
            r.against_votes == 0,
            r.abstain_votes == 0,
            r.has_voted.wf(),
            r.has_voted.keys@.len() == 0,
            r.tallies_accounted(),
    {
        let r = ProposalVote { for_votes: 0, against_votes: 0, abstain_votes: 0, has_voted: StrMap::new() };
        proof {
            lemma_sum_empty(r.has_voted.vals@, weight_fn(VoteType::For));
            lemma_sum_empty(r.has_voted.vals@, weight_fn(VoteType::Against));
            lemma_sum_empty(r.has_voted.vals@, weight_fn(VoteType::Abstain));
        }
        r
    }

    /// Each tally is the voting power of the votes of its type.
    pub open spec fn tallies_accounted(&self) -> bool {
        &&& self.for_votes == tally(self.has_voted.vals@, VoteType::For)
        &&& self.against_votes == tally(self.has_voted.vals@, VoteType::Against)
        &&& self.abstain_votes == tally(self.has_voted.vals@, VoteType::Abstain)
    }

    /// The votes as the views report them, in the order they were cast
    /// (a removed vote's place goes to the last one).
    pub fn to_json(&self) -> (r: ProposalVoteJson)
        requires
            self.has_voted.wf(),
        ensures
            r.for_votes == self.for_votes,
            r.against_votes == self.against_votes,
            r.abstain_votes == self.abstain_votes,
            r.has_voted@.len() == self.has_voted.keys@.len(),
            forall|k: int| 0 <= k < r.has_voted@.len() ==> {
                let j = #[trigger] r.has_voted@[k];
                let v = self.has_voted.vals@[k];
                &&& j.voter_id@ == self.has_voted.key_seq()[k]
                &&& j.mpip_id == v.mpip_id
                &&& j.vote_type == v.vote_type
                &&& j.voting_power == v.voting_power
                &&& j.memo == v.memo
            },
    {
        let mut votes: Vec<VoteJson> = Vec::new();
        let mut k: usize = 0;
        while k < self.has_voted.keys.len()
            invariant
                self.has_voted.wf(),
                0 <= k <= self.has_voted.keys@.len(),
                votes@.len() == k,
                forall|i: int| 0 <= i < k ==> {
                    let j = #[trigger] votes@[i];
                    let v = self.has_voted.vals@[i];
                    &&& j.voter_id@ == self.has_voted.key_seq()[i]
                    &&& j.mpip_id == v.mpip_id
                    &&& j.vote_type == v.vote_type
                    &&& j.voting_power == v.voting_power
                    &&& j.memo == v.memo
                },
            decreases self.has_voted.keys@.len() - k,
        {
            let json = self.has_voted.val_at(k).to_json(self.has_voted.key_at(k));
            votes.push(json);
            k = k + 1;
        }
        ProposalVoteJson {
            for_votes: self.for_votes,
            against_votes: self.against_votes,
            abstain_votes: self.abstain_votes,
            has_voted: votes,
        }
    }
}

impl Mpip {
    /// A new proposal of `creator_id`, in draft, with no vote dates.
    pub fn new(
        id: u32,
        title: String,
        short_description: String,
        body: String,
        data: String,
        extra: String,
        creator_id: String,
    ) -> (r: Self)
        ensures
            r == (Mpip {
                mpip_id: id,
                title,
                short_description,
                body,
                data,
                extra,
                creator_id,
                vote_start_timestamp: None,
                vote_end_timestamp: None,
                draft: true,
                executed: false,
                canceled: false,
                v_power_quorum_to_reach: None,
            }),
    {
        Mpip {
            mpip_id: id,
            title,
            short_description,
            body,
            data,
            extra,
            creator_id,
            vote_start_timestamp: None,
            vote_end_timestamp: None,
            draft: true,
            executed: false,
            canceled: false,
            v_power_quorum_to_reach: None,
        }
    }

    /// The proposal as the views report it.
    pub fn to_json(&self) -> (r: MpipJSON)
        ensures
            r == mpip_json(*self),
    {
        MpipJSON {
            mpip_id: self.mpip_id,
            title: self.title.clone(),
            body: self.body.clone(),
            data: self.data.clone(),
            extra: self.extra.clone(),
            creator_id: self.creator_id.clone(),
            vote_start_timestamp: self.vote_start_timestamp,
            vote_end_timestamp: self.vote_end_timestamp,
            draft: self.draft,
            executed: self.executed,
            canceled: self.canceled,
        }
    }
}

/// The proposal is active or in draft at `now`: not canceled nor executed,
/// and its vote has not started.
pub open spec fn spec_active_or_draft(p: Mpip, now: u64) -> bool {
    &&& !p.canceled
    &&& !p.executed
    &&& match p.vote_start_timestamp {
        Some(date) => now <= date,
        None => true,
    }
}

/// The proposal is active at `now`: active or in draft, and not in draft.
pub open spec fn spec_active(p: Mpip, now: u64) -> bool {
    spec_active_or_draft(p, now) && !p.draft
}

/// The proposal is in its voting period at `now`.
pub open spec fn spec_on_voting(p: Mpip, now: u64) -> bool {
    match p.vote_start_timestamp {
        Some(date) => {
            &&& now >= date
            &&& p.vote_end_timestamp is Some
            &&& now <= p.vote_end_timestamp.unwrap()
            &&& !p.draft
            &&& !p.canceled
            &&& !p.executed
        },
        None => false,
    }
}

/// The votes reach the quorum fixed for the proposal.
pub open spec fn spec_quorum_reached(p: Mpip, pv: ProposalVote) -> bool {
    p.v_power_quorum_to_reach.unwrap() <= pv.for_votes + pv.abstain_votes
}

/// The state of proposal `p` with votes `pv` at `now` (meaningful where a
/// proposal that is past its vote has a quorum).
pub open spec fn spec_state(p: Mpip, pv: ProposalVote, now: u64) -> MpipState {
    if p.executed {
        MpipState::Executed
    } else if p.canceled {
        MpipState::Canceled
    } else if p.draft {
        MpipState::Draft
    } else if spec_on_voting(p, now) {
        MpipState::VotingProcess
    } else if spec_active(p, now) {
        MpipState::Active
    } else if spec_quorum_reached(p, pv) && pv.for_votes > pv.against_votes {
        MpipState::Accepted
    } else {
        MpipState::Rejected
    }
}

impl Mpip {
    /// Whether the proposal is active or in draft at `now`.
    pub fn is_active_or_draft(&self, now: u64) -> (r: bool)
        ensures
            r == spec_active_or_draft(*self, now),
    {
        match self.vote_start_timestamp {
            Some(date) => now <= date && !self.canceled && !self.executed,
            None => !self.canceled && !self.executed,
        }
    }

    /// Whether the proposal is active at `now`.
    pub fn is_active(&self, now: u64) -> (r: bool)
        ensures
            r == spec_active(*self, now),
    {
        match self.vote_start_timestamp {
            Some(date) => now <= date && !self.draft && !self.canceled && !self.executed,
            None => !self.draft && !self.canceled && !self.executed,
        }
    }

    /// Whether the proposal is in its voting period at `now`.
    pub fn is_on_voting(&self, now: u64) -> (r: bool)
        ensures
            r == spec_on_voting(*self, now),
    {
        match self.vote_start_timestamp {
            Some(date) => {
                now >= date && match self.vote_end_timestamp {
                    Some(end) => now <= end,
                    None => false,
                } && !self.draft && !self.canceled && !self.executed
            },
            None => false,
        }
    }
}

/// A voter of proposals: its votes and the voting power they use.
pub struct MpipVoter {
    pub votes: Vec<Vote>,
    pub used_voting_power: u128,
}

/// A voter as the views report it.
pub struct MpipVoterJson {
    pub voter_id: String,
    pub votes: Vec<VoteJson>,
    pub used_voting_power: u128,
}

/// The proposal ids of a list of votes.
pub open spec fn vote_ids(votes: Seq<Vote>) -> Seq<u32> {
    votes.map_values(|v: Vote| v.mpip_id)
}

/// The votes without the one on proposal `id`: the last vote takes its
/// place (the list is unchanged where there is none).
pub open spec fn without_vote(votes: Seq<Vote>, id: u32) -> Seq<Vote> {
    if vote_ids(votes).contains(id) {
        votes.update(vote_ids(votes).index_of(id), votes.last()).drop_last()
    } else {
        votes
    }
}

/// The voting power of a list of votes.
pub open spec fn power_fn() -> spec_fn(Vote) -> int {
    |v: Vote| v.voting_power as int
}

/// The voting power of all the votes of a list.
pub open spec fn votes_power(votes: Seq<Vote>) -> int {
    sum_of(votes, power_fn())
}

/// The vote on proposal `id` in a list of votes, if there is one.
pub open spec fn vote_on(votes: Seq<Vote>, id: u32) -> Option<Vote> {
    if vote_ids(votes).contains(id) {
        Some(votes[vote_ids(votes).index_of(id)])
    } else {
        None
    }
}

/// A vote pushed on a list without a vote on its proposal is the vote on
/// that proposal, and the other proposals' votes stay.
pub proof fn lemma_vote_on_push(votes: Seq<Vote>, v: Vote, id: u32)
    requires
        vote_ids(votes).no_duplicates(),
        !vote_ids(votes).contains(v.mpip_id),
    ensures
        vote_on(votes.push(v), id) == if id == v.mpip_id { Some(v) } else { vote_on(votes, id) },
        vote_ids(votes.push(v)).no_duplicates(),
        votes_power(votes.push(v)) == votes_power(votes) + v.voting_power,
{
    let ids = vote_ids(votes);
    let ids2 = vote_ids(votes.push(v));
    assert(ids2 =~= ids.push(v.mpip_id));
    lemma_sum_push(votes, v, power_fn());
    if id == v.mpip_id {
        assert(ids2[ids.len() as int] == id);
        assert(ids2.contains(id));
        assert(ids2.index_of(id) == ids.len()) by {
            assert forall|j: int| 0 <= j < ids.len() implies ids2[j] != id by {
                assert(ids2[j] == ids[j]);
            }
        }
    } else if ids.contains(id) {
        let k = ids.index_of(id);
        assert(ids2[k] == id);
        assert(ids2.contains(id));
        assert(ids2.index_of(id) == k);
    } else {
        assert forall|j: int| 0 <= j < ids2.len() implies ids2[j] != id by {
            if j < ids.len() {
                assert(ids2[j] == ids[j]);
            }
        }
    }
}

/// Removing the vote on proposal `m` leaves the votes on the other proposals,
/// and takes its voting power off the list's.
pub proof fn lemma_vote_on_without(votes: Seq<Vote>, m: u32, id: u32)
    requires
        vote_ids(votes).no_duplicates(),
    ensures
        vote_on(without_vote(votes, m), id) == if id == m { None } else { vote_on(votes, id) },
        vote_ids(without_vote(votes, m)).no_duplicates(),
        vote_on(votes, m) matches Some(v) ==> votes_power(without_vote(votes, m)) == votes_power(votes) - v.voting_power,
        vote_on(votes, m) is None ==> votes_power(without_vote(votes, m)) == votes_power(votes),
{
    let ids = vote_ids(votes);
    if ids.contains(m) {
        let i = ids.index_of(m);
        let n = votes.len();
        let w = without_vote(votes, m);
        let ids2 = vote_ids(w);
        lemma_sum_swap_remove(votes, i, power_fn());
        assert(ids2 =~= ids.update(i, ids.last()).drop_last());
        assert forall|a: int, b: int| 0 <= a < ids2.len() && 0 <= b < ids2.len() && a != b implies ids2[a] != ids2[b] by {
            let ia = if a == i { n - 1 } else { a };
            let ib = if b == i { n - 1 } else { b };
            assert(ids2[a] == ids[ia]);
            assert(ids2[b] == ids[ib]);
        }
        if id == m {
            assert forall|j: int| 0 <= j < ids2.len() implies ids2[j] != id by {
                let ij = if j == i { n - 1 } else { j };
                assert(ids2[j] == ids[ij]);
            }
        } else if ids.contains(id) {
            let k = ids.index_of(id);
            let k2 = if k == n - 1 { i } else { k };
            assert(ids2[k2] == id);
            assert(ids2.contains(id));
            assert(ids2.index_of(id) == k2);
            assert(w[k2] == votes[k]);
        } else {
            assert forall|j: int| 0 <= j < ids2.len() implies ids2[j] != id by {
                let ij = if j == i { n - 1 } else { j };
                assert(ids2[j] == ids[ij]);
            }
        }
    }
}

impl MpipVoter {
    /// A voter without votes.
    pub fn new() -> (r: Self)
        ensures
            r.votes@.len() == 0,
            r.used_voting_power == 0,
            r.wf(),
    {
        MpipVoter { votes: Vec::new(), used_voting_power: 0 }
    }

    /// No proposal has two votes.
    pub open spec fn wf(&self) -> bool {
        vote_ids(self.votes@).no_duplicates()
    }

    /// The position of the vote on proposal `id`.
    pub fn find(&self, id: u32) -> (r: Option<usize>)
        ensures
            r is Some <==> vote_ids(self.votes@).contains(id),
            r matches Some(i) ==> i < self.votes@.len() && self.votes@[i as int].mpip_id == id,
    {
        let mut i: usize = 0;
        while i < self.votes.len()
            invariant
                0 <= i <= self.votes@.len(),
                forall|j: int| 0 <= j < i ==> (#[trigger] self.votes@[j]).mpip_id != id,
            decreases self.votes@.len() - i,
        {
            if self.votes[i].mpip_id == id {
                assert(vote_ids(self.votes@)[i as int] == id);
                return Some(i);
            }
            i = i + 1;
        }
        assert forall|j: int| 0 <= j < vote_ids(self.votes@).len() implies vote_ids(self.votes@)[j] != id by {
            assert(vote_ids(self.votes@)[j] == self.votes@[j].mpip_id);
        }
        None
    }

    /// Records `vote`, in place of a vote on the same proposal, else at the end.
    pub fn insert_vote(&mut self, vote: Vote)
        requires
            old(self).wf(),
        ensures
            final(self).wf(),
            final(self).used_voting_power == old(self).used_voting_power,
            vote_ids(old(self).votes@).contains(vote.mpip_id) ==> final(self).votes@ == old(self).votes@.update(
                vote_ids(old(self).votes@).index_of(vote.mpip_id),
                vote,
            ),
            !vote_ids(old(self).votes@).contains(vote.mpip_id) ==> final(self).votes@ == old(self).votes@.push(vote),
    {
        match self.find(vote.mpip_id) {
            Some(i) => {
                proof {
                    let ids = vote_ids(old(self).votes@);
                    assert(ids[i as int] == vote.mpip_id);
                    assert(ids.index_of(vote.mpip_id) == i) by {
                        assert(ids.contains(vote.mpip_id));
                    }
                }
                self.votes.set(i, vote);
                proof {
                    assert(vote_ids(self.votes@) =~= vote_ids(old(self).votes@));
                }
            },
            None => {
                let ghost id = vote.mpip_id;
                self.votes.push(vote);
                proof {
                    assert(vote_ids(self.votes@) =~= vote_ids(old(self).votes@).push(id));
                }
            },
        }
    }

    /// Removes the vote on proposal `id`, if any (the last vote takes its place).
    pub fn remove_vote(&mut self, id: u32)
        requires
            old(self).wf(),
        ensures
            final(self).wf(),
            final(self).used_voting_power == old(self).used_voting_power,
            !vote_ids(final(self).votes@).contains(id),
            final(self).votes@ == without_vote(old(self).votes@, id),
    {
        match self.find(id) {
            Some(i) => {
                let ghost ids = vote_ids(old(self).votes@);
                proof {
                    assert(ids[i as int] == id);
                    assert(ids.index_of(id) == i) by {
                        assert(ids.contains(id));
                    }
                }
                self.votes.swap_remove(i);
                proof {
                    let n = ids.len();
                    assert(vote_ids(self.votes@) =~= ids.update(i as int, ids.last()).drop_last());
                    assert forall|a: int, b: int|
                        0 <= a < vote_ids(self.votes@).len() && 0 <= b < vote_ids(self.votes@).len() && a != b
                        implies vote_ids(self.votes@)[a] != vote_ids(self.votes@)[b] by {
                        let ia = if a == i { n - 1 } else { a };
                        let ib = if b == i { n - 1 } else { b };
                        assert(vote_ids(self.votes@)[a] == ids[ia]);
                        assert(vote_ids(self.votes@)[b] == ids[ib]);
                    }
                    assert forall|j: int| 0 <= j < vote_ids(self.votes@).len() implies vote_ids(self.votes@)[j] != id by {
                        let ij = if j == i { n - 1 } else { j };
                        assert(vote_ids(self.votes@)[j] == ids[ij]);
                        assert(ij != i);
                    }
                }
            },
            None => {},
        }
    }

    /// The voter as the views report it.
    pub fn to_json(&self, voter_id: &String) -> (r: MpipVoterJson)
        ensures
            r.voter_id == *voter_id,
            r.used_voting_power == self.used_voting_power,
            r.votes@.len() == self.votes@.len(),
            forall|k: int| 0 <= k < r.votes@.len() ==> {
                let j = #[trigger] r.votes@[k];
                let v = self.votes@[k];
                &&& j.voter_id == *voter_id
                &&& j.mpip_id == v.mpip_id
                &&& j.vote_type == v.vote_type
                &&& j.voting_power == v.voting_power
                &&& j.memo == v.memo
            },
    {
        let mut votes: Vec<VoteJson> = Vec::new();
        let mut k: usize = 0;
        while k < self.votes.len()
            invariant
                0 <= k <= self.votes@.len(),
                votes@.len() == k,
                forall|i: int| 0 <= i < k ==> {
                    let j = #[trigger] votes@[i];
                    let v = self.votes@[i];
                    &&& j.voter_id == *voter_id
                    &&& j.mpip_id == v.mpip_id
                    &&& j.vote_type == v.vote_type
                    &&& j.voting_power == v.voting_power
                    &&& j.memo == v.memo
                },
            decreases self.votes@.len() - k,
        {
            votes.push(self.votes[k].to_json(voter_id));
            k = k + 1;
        }
        MpipVoterJson { voter_id: voter_id.clone(), votes, used_voting_power: self.used_voting_power }
    }
}

/// Recording a new vote adds its voting power to the tally of its type.
pub proof fn lemma_tally_push(votes: Seq<Vote>, v: Vote)
    ensures
        tally(votes.push(v), VoteType::For) == tally(votes, VoteType::For) + vote_weight(v, VoteType::For),
        tally(votes.push(v), VoteType::Against) == tally(votes, VoteType::Against) + vote_weight(v, VoteType::Against),
        tally(votes.push(v), VoteType::Abstain) == tally(votes, VoteType::Abstain) + vote_weight(v, VoteType::Abstain),
{
    lemma_sum_push(votes, v, weight_fn(VoteType::For));
    lemma_sum_push(votes, v, weight_fn(VoteType::Against));
    lemma_sum_push(votes, v, weight_fn(VoteType::Abstain));
}

/// Removing vote `i` (the last one takes its place) takes its voting power
/// off the tally of its type.
pub proof fn lemma_tally_swap_remove(votes: Seq<Vote>, i: int)
    requires
        0 <= i < votes.len(),
    ensures
        tally(votes.update(i, votes.last()).drop_last(), VoteType::For) == tally(votes, VoteType::For) - vote_weight(votes[i], VoteType::For),
        tally(votes.update(i, votes.last()).drop_last(), VoteType::Against) == tally(votes, VoteType::Against) - vote_weight(votes[i], VoteType::Against),
        tally(votes.update(i, votes.last()).drop_last(), VoteType::Abstain) == tally(votes, VoteType::Abstain) - vote_weight(votes[i], VoteType::Abstain),
{
    lemma_sum_swap_remove(votes, i, weight_fn(VoteType::For));
    lemma_sum_swap_remove(votes, i, weight_fn(VoteType::Against));
    lemma_sum_swap_remove(votes, i, weight_fn(VoteType::Abstain));
}

/// Replacing vote `i` changes each tally by the difference.
pub proof fn lemma_tally_update(votes: Seq<Vote>, i: int, v: Vote)
    requires
        0 <= i < votes.len(),
    ensures
        tally(votes.update(i, v), VoteType::For) == tally(votes, VoteType::For) - vote_weight(votes[i], VoteType::For) + vote_weight(v, VoteType::For),
        tally(votes.update(i, v), VoteType::Against) == tally(votes, VoteType::Against) - vote_weight(votes[i], VoteType::Against) + vote_weight(v, VoteType::Against),
        tally(votes.update(i, v), VoteType::Abstain) == tally(votes, VoteType::Abstain) - vote_weight(votes[i], VoteType::Abstain) + vote_weight(v, VoteType::Abstain),
{
    lemma_sum_update(votes, i, v, weight_fn(VoteType::For));
    lemma_sum_update(votes, i, v, weight_fn(VoteType::Against));
    lemma_sum_update(votes, i, v, weight_fn(VoteType::Abstain));
}

} // verus!
