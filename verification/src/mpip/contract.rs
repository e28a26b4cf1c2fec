//! The MPIP contract: admin and operator settings, creating and updating
//! proposals, starting their vote, voting and counting.
//!
//! Calls that need the Meta Vote contract are split in two: the first checks
//! and gives what to ask, the callback takes the answer (`None` when the
//! call failed) and decides. `signer` is the account that signed the
//! transaction, `caller` the account that calls, `now` the time in
//! milliseconds.
use vstd::prelude::*;
use crate::mpip::{Mpip, MpipJSON, mpip_json, without_vote, vote_on, votes_power, lemma_vote_on_push, lemma_vote_on_without, MpipState, MpipVoter, MpipVoterJson, ProposalVote, ProposalVoteJson, Vote, VoteJson, VoteType, spec_active, spec_active_or_draft, spec_on_voting, spec_quorum_reached, spec_state, tally, vote_ids, vote_weight, lemma_tally_push, lemma_tally_update, lemma_tally_swap_remove};
use crate::seq_sum::{sum_of, sum_u128, lemma_sum_take_push};
use crate::str_map::StrMap;
use crate::utils::days_to_millis;

verus! {

/// 100% in basis points.
pub const ONE_HUNDRED: u16 = 10_000;

/// Why a call is refused.
#[derive(Debug, Clone, Copy, PartialEq, Eq, Structural)]
pub enum MpipError {
    /// The quorum is over 100%.
    IncorrectQuorum,
    /// Only the admin may call this.
    OnlyAdmin,
    /// Only the operator or the admin may call this.
    OnlyOperatorOrAdmin,
    /// Only the operator or the proposal's creator may call this.
    OnlyOperatorOrCreator,
    /// Only the proposal's creator may call this.
    OnlyCreator,
    /// No proposal has that id.
    MpipNotFound,
    /// The proposal is neither active nor in draft.
    NotActiveOrDraft,
    /// The proposal is not in its voting period.
    NotOnVoting,
    /// The voting period of the proposal has not ended.
    VotingNotFinished,
    /// The account has already voted.
    AlreadyVoted,
    /// The account has not voted.
    NotVoted,
    /// The voting power is under the proposal threshold.
    ThresholdNotReached,
    /// New proposals are not accepted.
    NotOpenForNewMpips,
    /// The attached deposit does not cover the proposal's storage.
    StorageNotCovered,
    /// The Meta Vote contract did not answer.
    MetaVoteUnavailable,
    /// Not enough voting power for the vote.
    NotEnoughVotingPower,
    /// The proposal's quorum has not been set.
    QuorumNotSet,
    /// There are as many proposals as ids.
    TooManyProposals,
    /// An amount does not fit in 128 bits.
    Overflow,
}

/// The state of the MPIP contract.
pub struct MpipContract {
    pub admin_id: String,
    pub operator_id: String,
    pub meta_token_contract_address: String,
    pub meta_vote_contract_address: String,
    /// Proposal `i` has id `i`.
    pub proposals: Vec<Mpip>,
    /// The votes on proposal `i`.
    pub votes: Vec<ProposalVote>,
    pub voters: StrMap<MpipVoter>,
    pub proposers: StrMap<Vec<u32>>,
    /// Duration of the voting period, in days.
    pub voting_period: u16,
    pub voting_delay_millis: u64,
    pub min_meta_amount: u128,
    pub min_st_near_amount: u128,
    /// Voting power needed to create a proposal (the proposal threshold).
    pub min_voting_power_amount: u128,
    pub mpip_cost_in_meta: u128,
    /// NEAR to attach for a proposal's storage.
    pub mpip_storage_near: u128,
    pub open_for_new_mpips: bool,
    /// Part of the total voting power that a proposal needs, in basis points.
    pub quorum_floor: u16,
}

/// The sum of a list of voting powers.
pub open spec fn spec_total(vps: Seq<u128>) -> int {
    sum_u128(vps)
}

/// The sum of the voting powers of locking positions, or `None` where it
/// does not fit in 128 bits.
pub fn sum_voting_power(vps: &Vec<u128>) -> (r: Option<u128>)
    ensures
        r is Some <==> spec_total(vps@) <= u128::MAX,
        r matches Some(t) ==> t == spec_total(vps@),
{
    let mut total: u128 = 0;
    let mut i: usize = 0;
    while i < vps.len()
        invariant
            0 <= i <= vps@.len(),
            total == sum_u128(vps@.take(i as int)),
        decreases vps@.len() - i,
    {
        proof {
            lemma_sum_take_push(vps@, i as int, |x: u128| x as int);
        }
        match total.checked_add(vps[i]) {
            Some(t) => {
                total = t;
            },
            None => {
                proof {
                    lemma_prefix_le(vps@, i as int + 1);
                }
                return None;
            },
        }
        i = i + 1;
    }
    assert(vps@.take(i as int) =~= vps@);
    Some(total)
}

/// The sum over a prefix is at most the sum over the whole.
proof fn lemma_prefix_le(s: Seq<u128>, k: int)
    requires
        0 <= k <= s.len(),
    ensures
        sum_u128(s.take(k)) <= sum_u128(s),
    decreases s.len() - k,
{
    if k < s.len() {
        lemma_prefix_le(s, k + 1);
        lemma_sum_take_push(s, k, |x: u128| x as int);
    } else {
        assert(s.take(k) =~= s);
    }
}

/// The quorum for a total voting power: `total * quorum_floor / 100 / 100`.
pub open spec fn spec_quorum(total: u128, quorum_floor: u16) -> int {
    total * quorum_floor / 100 / 100
}

impl MpipContract {
    /// Proposal ids are positions, and every map is well formed.
    pub open spec fn wf(&self) -> bool {
        &&& self.proposals@.len() == self.votes@.len()
        &&& self.proposals@.len() <= u32::MAX + 1
        &&& forall|i: int| 0 <= i < self.proposals@.len() ==> (#[trigger] self.proposals@[i]).mpip_id == i
        &&& forall|i: int| 0 <= i < self.votes@.len() ==> (#[trigger] self.votes@[i]).has_voted.wf()
        &&& self.voters.wf()
        &&& forall|i: int| 0 <= i < self.voters.vals@.len() ==> (#[trigger] self.voters.vals@[i]).wf()
        &&& self.proposers.wf()
    }

    /// Every proposal's tallies are the voting power of its votes by type.
    pub open spec fn tallies_accounted(&self) -> bool {
        forall|i: int| 0 <= i < self.votes@.len() ==> (#[trigger] self.votes@[i]).tallies_accounted()
    }

    /// Creates the contract; refused for a quorum over 100%.
    pub fn new(
        admin_id: String,
        operator_id: String,
        meta_token_contract_address: String,
        meta_vote_contract_address: String,
        voting_period: u16,
        min_voting_power_amount: u128,
        mpip_storage_near: u128,
        quorum_floor: u16,
    ) -> (r: Result<Self, MpipError>)
        ensures
            r is Ok <==> quorum_floor <= 10_000,
            r matches Err(e) ==> e == MpipError::IncorrectQuorum,
            r matches Ok(c) ==> {
                &&& c.wf()
                &&& c.tallies_accounted()
                &&& c.votes_recorded()
                &&& c.admin_id == admin_id
                &&& c.operator_id == operator_id
                &&& c.meta_token_contract_address == meta_token_contract_address
                &&& c.meta_vote_contract_address == meta_vote_contract_address
                &&& c.voting_period == voting_period
                &&& c.min_voting_power_amount == min_voting_power_amount
                &&& c.mpip_storage_near == mpip_storage_near
                &&& c.quorum_floor == quorum_floor
                &&& c.proposals@.len() == 0
                &&& c.voters.keys@.len() == 0
                &&& c.proposers.keys@.len() == 0
                &&& c.voting_delay_millis == 0
                &&& c.min_meta_amount == 0
                &&& c.min_st_near_amount == 0
                &&& c.mpip_cost_in_meta == 0
                &&& c.open_for_new_mpips
            },
    {
        if quorum_floor > ONE_HUNDRED {
            return Err(MpipError::IncorrectQuorum);
        }
        Ok(MpipContract {
            admin_id,
            operator_id,
            meta_token_contract_address,
            meta_vote_contract_address,
            proposals: Vec::new(),
            votes: Vec::new(),
            voters: StrMap::new(),
            proposers: StrMap::new(),
            voting_period,
            voting_delay_millis: 0,
            min_meta_amount: 0,
            min_st_near_amount: 0,
            min_voting_power_amount,
            mpip_cost_in_meta: 0,
            mpip_storage_near,
            open_for_new_mpips: true,
            quorum_floor,
        })
    }

    /// Refuses signers other than the admin.
    pub(crate) fn assert_only_admin(&self, signer: &String) -> (r: Result<(), MpipError>)
        ensures
            r is Ok <==> signer@ == self.admin_id@,
            r matches Err(e) ==> e == MpipError::OnlyAdmin,
    {
        if *signer == self.admin_id {
            Ok(())
        } else {
            Err(MpipError::OnlyAdmin)
        }
    }

    /// Refuses signers other than the admin and the operator.
    pub(crate) fn assert_only_operator(&self, signer: &String) -> (r: Result<(), MpipError>)
        ensures
            r is Ok <==> signer@ == self.admin_id@ || signer@ == self.operator_id@,
            r matches Err(e) ==> e == MpipError::OnlyOperatorOrAdmin,
    {
        if *signer == self.admin_id || *signer == self.operator_id {
            Ok(())
        } else {
            Err(MpipError::OnlyOperatorOrAdmin)
        }
    }

    /// Stops or resumes accepting new proposals (admin).
    pub fn update_open_for_new_mpips(&mut self, signer: &String, new_value: bool) -> (r: Result<(), MpipError>)
        ensures
            r is Ok <==> signer@ == old(self).admin_id@,
            r matches Err(e) ==> e == MpipError::OnlyAdmin,
            r is Err ==> *final(self) == *old(self),
            r is Ok ==> *final(self) == (MpipContract { open_for_new_mpips: new_value, ..*old(self) }),
    {
        self.assert_only_admin(signer)?;
        self.open_for_new_mpips = new_value;
        Ok(())
    }

    /// Sets the operator (admin).
    pub fn update_operator_role(&mut self, signer: &String, new_value: String) -> (r: Result<(), MpipError>)
        ensures
            r is Ok <==> signer@ == old(self).admin_id@,
            r matches Err(e) ==> e == MpipError::OnlyAdmin,
            r is Err ==> *final(self) == *old(self),
            r is Ok ==> *final(self) == (MpipContract { operator_id: new_value, ..*old(self) }),
    {
        self.assert_only_admin(signer)?;
        self.operator_id = new_value;
        Ok(())
    }

    /// Sets the admin (admin).
    pub fn update_admin_role(&mut self, signer: &String, new_value: String) -> (r: Result<(), MpipError>)
        ensures
            r is Ok <==> signer@ == old(self).admin_id@,
            r matches Err(e) ==> e == MpipError::OnlyAdmin,
            r is Err ==> *final(self) == *old(self),
            r is Ok ==> *final(self) == (MpipContract { admin_id: new_value, ..*old(self) }),
    {
        self.assert_only_admin(signer)?;
        self.admin_id = new_value;
        Ok(())
    }

    /// Sets the voting period in days (operator or admin).
    pub fn update_voting_period(&mut self, signer: &String, new_value: u16) -> (r: Result<(), MpipError>)
        ensures
            r is Ok <==> signer@ == old(self).admin_id@ || signer@ == old(self).operator_id@,
            r matches Err(e) ==> e == MpipError::OnlyOperatorOrAdmin,
            r is Err ==> *final(self) == *old(self),
            r is Ok ==> *final(self) == (MpipContract { voting_period: new_value, ..*old(self) }),
    {
        self.assert_only_operator(signer)?;
        self.voting_period = new_value;
        Ok(())
    }

    /// Sets the delay before a vote starts, in milliseconds (operator or admin).
    pub fn update_voting_delay(&mut self, signer: &String, new_value: u64) -> (r: Result<(), MpipError>)
        ensures
            r is Ok <==> signer@ == old(self).admin_id@ || signer@ == old(self).operator_id@,
            r matches Err(e) ==> e == MpipError::OnlyOperatorOrAdmin,
            r is Err ==> *final(self) == *old(self),
            r is Ok ==> *final(self) == (MpipContract { voting_delay_millis: new_value, ..*old(self) }),
    {
        self.assert_only_operator(signer)?;
        self.voting_delay_millis = new_value;
        Ok(())
    }

    /// Sets the minimum META to submit a proposal (operator or admin).
    pub fn update_min_meta_amount(&mut self, signer: &String, new_value: u128) -> (r: Result<(), MpipError>)
        ensures
            r is Ok <==> signer@ == old(self).admin_id@ || signer@ == old(self).operator_id@,
            r matches Err(e) ==> e == MpipError::OnlyOperatorOrAdmin,
            r is Err ==> *final(self) == *old(self),
            r is Ok ==> *final(self) == (MpipContract { min_meta_amount: new_value, ..*old(self) }),
    {
        self.assert_only_operator(signer)?;
        self.min_meta_amount = new_value;
        Ok(())
    }

    /// Sets the proposal threshold (operator or admin).
    pub fn update_min_voting_power_amount(&mut self, signer: &String, new_value: u128) -> (r: Result<(), MpipError>)
        ensures
            r is Ok <==> signer@ == old(self).admin_id@ || signer@ == old(self).operator_id@,
            r matches Err(e) ==> e == MpipError::OnlyOperatorOrAdmin,
            r is Err ==> *final(self) == *old(self),
            r is Ok ==> *final(self) == (MpipContract { min_voting_power_amount: new_value, ..*old(self) }),
    {
        self.assert_only_operator(signer)?;
        self.min_voting_power_amount = new_value;
        Ok(())
    }

    /// Sets the NEAR to attach for a proposal's storage (operator or admin).
    pub fn update_mpip_storage_near(&mut self, signer: &String, new_value: u128) -> (r: Result<(), MpipError>)
        ensures
            r is Ok <==> signer@ == old(self).admin_id@ || signer@ == old(self).operator_id@,
            r matches Err(e) ==> e == MpipError::OnlyOperatorOrAdmin,
            r is Err ==> *final(self) == *old(self),
            r is Ok ==> *final(self) == (MpipContract { mpip_storage_near: new_value, ..*old(self) }),
    {
        self.assert_only_operator(signer)?;
        self.mpip_storage_near = new_value;
        Ok(())
    }

    /// Sets the quorum in basis points (operator or admin); at most 100%.
    pub fn update_quorum_floor(&mut self, signer: &String, new_value: u16) -> (r: Result<(), MpipError>)
        ensures
            !(signer@ == old(self).admin_id@ || signer@ == old(self).operator_id@) ==> r == Err::<(), MpipError>(MpipError::OnlyOperatorOrAdmin),
            (signer@ == old(self).admin_id@ || signer@ == old(self).operator_id@) && new_value > 10_000 ==> r == Err::<(), MpipError>(MpipError::IncorrectQuorum),
            r is Ok <==> (signer@ == old(self).admin_id@ || signer@ == old(self).operator_id@) && new_value <= 10_000,
            r is Err ==> *final(self) == *old(self),
            r is Ok ==> *final(self) == (MpipContract { quorum_floor: new_value, ..*old(self) }),
    {
        self.assert_only_operator(signer)?;
        if new_value > ONE_HUNDRED {
            return Err(MpipError::IncorrectQuorum);
        }
        self.quorum_floor = new_value;
        Ok(())
    }

    /// The proposal with id `mpip_id`.
    pub open spec fn proposal(&self, mpip_id: u32) -> Mpip {
        self.proposals@[mpip_id as int]
    }

    /// Refuses signers other than the operator and the proposal's creator.
    fn assert_only_operator_or_creator(&self, signer: &String, mpip_id: u32) -> (r: Result<(), MpipError>)
        ensures
            r == (if mpip_id >= self.proposals@.len() {
                Err(MpipError::MpipNotFound)
            } else if signer@ == self.operator_id@ || signer@ == self.proposal(mpip_id).creator_id@ {
                Ok(())
            } else {
                Err(MpipError::OnlyOperatorOrCreator)
            }),
    {
        if mpip_id as usize >= self.proposals.len() {
            return Err(MpipError::MpipNotFound);
        }
        let p = &self.proposals[mpip_id as usize];
        if *signer == self.operator_id || *signer == p.creator_id {
            Ok(())
        } else {
            Err(MpipError::OnlyOperatorOrCreator)
        }
    }

    /// Checks that a vote on `mpip_id` may start at `now`; gives the Meta Vote
    /// contract to ask for the total voting power, to hand to
    /// `start_voting_period_callback`.
    pub fn start_voting_period(&self, signer: &String, mpip_id: u32, now: u64) -> (r: Result<String, MpipError>)
        ensures
            r matches Err(e) ==> e == (if mpip_id >= self.proposals@.len() {
                MpipError::MpipNotFound
            } else if !(signer@ == self.operator_id@ || signer@ == self.proposal(mpip_id).creator_id@) {
                MpipError::OnlyOperatorOrCreator
            } else {
                MpipError::NotActiveOrDraft
            }),
            r is Ok <==> mpip_id < self.proposals@.len()
                && (signer@ == self.operator_id@ || signer@ == self.proposal(mpip_id).creator_id@)
                && spec_active_or_draft(self.proposal(mpip_id), now),
            r matches Ok(a) ==> a == self.meta_vote_contract_address,
    {
        self.assert_only_operator_or_creator(signer, mpip_id)?;
        if !self.proposals[mpip_id as usize].is_active_or_draft(now) {
            return Err(MpipError::NotActiveOrDraft);
        }
        Ok(self.meta_vote_contract_address.clone())
    }

    /// Starts the vote on `mpip_id` at `now` with the total voting power that
    /// Meta Vote reported (`None` where it did not answer): the vote ends after
    /// the voting period, the proposal leaves its draft, and its quorum is fixed.
    pub fn start_voting_period_callback(&mut self, mpip_id: u32, total_voting_power: Option<u128>, now: u64) -> (r: Result<(), MpipError>)
        requires
            old(self).wf(),
        ensures
            final(self).wf(),
            r == (if total_voting_power is None {
                Err(MpipError::MetaVoteUnavailable)
            } else if mpip_id >= old(self).proposals@.len() {
                Err(MpipError::MpipNotFound)
            } else if now + old(self).voting_period * 86_400_000 > u64::MAX || total_voting_power.unwrap() * old(self).quorum_floor > u128::MAX {
                Err(MpipError::Overflow)
            } else {
                Ok(())
            }),
            r is Err ==> *final(self) == *old(self),
            r is Ok ==> ({
                let p = old(self).proposal(mpip_id);
                &&& final(self).proposals@ == old(self).proposals@.update(mpip_id as int, Mpip {
                    vote_start_timestamp: Some(now),
                    vote_end_timestamp: Some((now + old(self).voting_period * 86_400_000) as u64),
                    draft: false,
                    v_power_quorum_to_reach: Some(spec_quorum(total_voting_power.unwrap(), old(self).quorum_floor) as u128),
                    ..p
                })
                &&& *final(self) == (MpipContract { proposals: final(self).proposals, ..*old(self) })
            }),
            r is Ok ==> (old(self).tallies_accounted() ==> final(self).tallies_accounted()),
    {
        let total = match total_voting_power {
            Some(t) => t,
            None => return Err(MpipError::MetaVoteUnavailable),
        };
        if mpip_id as usize >= self.proposals.len() {
            return Err(MpipError::MpipNotFound);
        }
        let end = match now.checked_add(days_to_millis(self.voting_period)) {
            Some(e) => e,
            None => return Err(MpipError::Overflow),
        };
        let product = match total.checked_mul(self.quorum_floor as u128) {
            Some(x) => x,
            None => return Err(MpipError::Overflow),
        };
        let quorum = product / 100 / 100;
        let i = mpip_id as usize;
        let p = self.proposals.remove(i);
        let updated = Mpip {
            vote_start_timestamp: Some(now),
            vote_end_timestamp: Some(end),
            draft: false,
            v_power_quorum_to_reach: Some(quorum),
            ..p
        };
        self.proposals.insert(i, updated);
        assert(self.proposals@ =~= old(self).proposals@.update(i as int, self.proposals@[i as int]));
        Ok(())
    }

    /// The voting power of the proposal's creator (the sum over its locking
    /// positions, as Meta Vote reported them; `None` where it did not
    /// answer) reaches the threshold, the contract accepts proposals and the
    /// attached deposit covers the storage: the proposal is created in draft
    /// with the next id, which is given back.
    pub fn create_proposal_callback(
        &mut self,
        signer: &String,
        attached_deposit: u128,
        positions_voting_power: Option<Vec<u128>>,
        title: String,
        short_description: String,
        body: String,
        data: String,
        extra: String,
    ) -> (r: Result<u32, MpipError>)
        requires
            old(self).wf(),
        ensures
            final(self).wf(),
            r matches Err(e) ==> e == (match positions_voting_power {
                None => MpipError::MetaVoteUnavailable,
                Some(vps) => if spec_total(vps@) > u128::MAX {
                    MpipError::Overflow
                } else if old(self).min_voting_power_amount > spec_total(vps@) {
                    MpipError::ThresholdNotReached
                } else if !old(self).open_for_new_mpips {
                    MpipError::NotOpenForNewMpips
                } else if attached_deposit < old(self).mpip_storage_near {
                    MpipError::StorageNotCovered
                } else {
                    MpipError::TooManyProposals
                },
            }),
            r is Ok <==> (positions_voting_power matches Some(vps) && spec_total(vps@) <= u128::MAX
                && old(self).min_voting_power_amount <= spec_total(vps@))
                && old(self).open_for_new_mpips && attached_deposit >= old(self).mpip_storage_near
                && old(self).proposals@.len() <= u32::MAX,
            r is Err ==> *final(self) == *old(self),
            r matches Ok(id) ==> {
                &&& id == old(self).proposals@.len()
                &&& final(self).proposals@ == old(self).proposals@.push(Mpip {
                    mpip_id: id,
                    title,
                    short_description,
                    body,
                    data,
                    extra,
                    creator_id: *signer,
                    vote_start_timestamp: None,
                    vote_end_timestamp: None,
                    draft: true,
                    executed: false,
                    canceled: false,
                    v_power_quorum_to_reach: None,
                })
                &&& final(self).votes@.len() == old(self).votes@.len() + 1
                &&& final(self).votes@.last().for_votes == 0
                &&& final(self).votes@.last().against_votes == 0
                &&& final(self).votes@.last().abstain_votes == 0
                &&& final(self).votes@.last().has_voted.keys@.len() == 0
                &&& forall|i: int| 0 <= i < old(self).votes@.len() ==> final(self).votes@[i] == old(self).votes@[i]
                &&& *final(self) == (MpipContract { proposals: final(self).proposals, votes: final(self).votes, ..*old(self) })
            },
            r is Ok ==> (old(self).tallies_accounted() ==> final(self).tallies_accounted()),
            r is Ok ==> (old(self).votes_recorded() ==> final(self).votes_recorded()),
    {
        let vps = match positions_voting_power {
            Some(v) => v,
            None => return Err(MpipError::MetaVoteUnavailable),
        };
        let total = match sum_voting_power(&vps) {
            Some(t) => t,
            None => return Err(MpipError::Overflow),
        };
        if !(self.min_voting_power_amount <= total) {
            return Err(MpipError::ThresholdNotReached);
        }
        if !self.open_for_new_mpips {
            return Err(MpipError::NotOpenForNewMpips);
        }
        if attached_deposit < self.mpip_storage_near {
            return Err(MpipError::StorageNotCovered);
        }
        let n = self.proposals.len();
        if n as u64 > u32::MAX as u64 {
            return Err(MpipError::TooManyProposals);
        }
        let id = n as u32;
        let proposal = Mpip::new(id, title, short_description, body, data, extra, signer.clone());
        self.proposals.push(proposal);
        self.votes.push(ProposalVote::new());
        proof {
            assert forall|i: int| 0 <= i < self.votes@.len() implies (#[trigger] self.votes@[i]).has_voted.wf() by {
                if i < old(self).votes@.len() {
                    assert(self.votes@[i] == old(self).votes@[i]);
                }
            }
            if old(self).tallies_accounted() {
                assert forall|i: int| 0 <= i < self.votes@.len() implies (#[trigger] self.votes@[i]).tallies_accounted() by {
                    if i < old(self).votes@.len() {
                        assert(self.votes@[i] == old(self).votes@[i]);
                    }
                }
            }
            if old(self).votes_recorded() {
                lemma_recorded_after_create(*old(self), *self);
            }
        }
        Ok(id)
    }

    /// Cancels proposal `mpip_id`, active or in draft at `now` (operator or creator).
    pub fn cancel_proposal(&mut self, signer: &String, mpip_id: u32, now: u64) -> (r: Result<(), MpipError>)
        requires
            old(self).wf(),
        ensures
            final(self).wf(),
            r matches Err(e) ==> e == (if mpip_id >= old(self).proposals@.len() {
                MpipError::MpipNotFound
            } else if !(signer@ == old(self).operator_id@ || signer@ == old(self).proposal(mpip_id).creator_id@) {
                MpipError::OnlyOperatorOrCreator
            } else {
                MpipError::NotActiveOrDraft
            }),
            r is Ok <==> mpip_id < old(self).proposals@.len()
                && (signer@ == old(self).operator_id@ || signer@ == old(self).proposal(mpip_id).creator_id@)
                && spec_active_or_draft(old(self).proposal(mpip_id), now),
            r is Err ==> *final(self) == *old(self),
            r is Ok ==> final(self).proposals@ == old(self).proposals@.update(mpip_id as int, Mpip { canceled: true, ..old(self).proposal(mpip_id) })
                && *final(self) == (MpipContract { proposals: final(self).proposals, ..*old(self) }),
    {
        self.assert_only_operator_or_creator(signer, mpip_id)?;
        let i = mpip_id as usize;
        if !self.proposals[i].is_active_or_draft(now) {
            return Err(MpipError::NotActiveOrDraft);
        }
        let p = self.proposals.remove(i);
        self.proposals.insert(i, Mpip { canceled: true, ..p });
        assert(self.proposals@ =~= old(self).proposals@.update(i as int, self.proposals@[i as int]));
        Ok(())
    }

    /// Updates the texts of proposal `mpip_id`, active or in draft at `now` (creator).
    pub fn update_proposal(
        &mut self,
        signer: &String,
        mpip_id: u32,
        title: String,
        short_description: String,
        body: String,
        data: String,
        extra: String,
        now: u64,
    ) -> (r: Result<(), MpipError>)
        requires
            old(self).wf(),
        ensures
            final(self).wf(),
            r matches Err(e) ==> e == (if mpip_id >= old(self).proposals@.len() {
                MpipError::MpipNotFound
            } else if signer@ != old(self).proposal(mpip_id).creator_id@ {
                MpipError::OnlyCreator
            } else {
                MpipError::NotActiveOrDraft
            }),
            r is Ok <==> mpip_id < old(self).proposals@.len() && signer@ == old(self).proposal(mpip_id).creator_id@
                && spec_active_or_draft(old(self).proposal(mpip_id), now),
            r is Err ==> *final(self) == *old(self),
            r is Ok ==> final(self).proposals@ == old(self).proposals@.update(mpip_id as int, Mpip {
                title,
                short_description,
                body,
                data,
                extra,
                ..old(self).proposal(mpip_id)
            }) && *final(self) == (MpipContract { proposals: final(self).proposals, ..*old(self) }),
    {
        if mpip_id as usize >= self.proposals.len() {
            return Err(MpipError::MpipNotFound);
        }
        let i = mpip_id as usize;
        if self.proposals[i].creator_id != *signer {
            return Err(MpipError::OnlyCreator);
        }
        if !self.proposals[i].is_active_or_draft(now) {
            return Err(MpipError::NotActiveOrDraft);
        }
        let p = self.proposals.remove(i);
        self.proposals.insert(i, Mpip { title, short_description, body, data, extra, ..p });
        assert(self.proposals@ =~= old(self).proposals@.update(i as int, self.proposals@[i as int]));
        Ok(())
    }

    /// The proposals recorded for `proposer_id`.
    pub fn get_my_proposals(&self, proposer_id: &String) -> (r: Vec<u32>)
        requires
            self.wf(),
        ensures
            self.proposers@.contains_key(proposer_id@) ==> r@ == self.proposers@[proposer_id@]@,
            !self.proposers@.contains_key(proposer_id@) ==> r@.len() == 0,
    {
        match self.proposers.get(proposer_id) {
            Some(l) => l.clone(),
            None => Vec::new(),
        }
    }

    /// Whether `voting_power` reaches the proposal threshold.
    pub fn check_proposal_threshold(&self, voting_power: u128) -> (r: bool)
        ensures
            r == (self.min_voting_power_amount <= voting_power),
    {
        self.min_voting_power_amount <= voting_power
    }

    /// The NEAR to attach for a proposal's storage.
    pub fn get_mpip_storage_near(&self) -> (r: u128)
        ensures
            r == self.mpip_storage_near,
    {
        self.mpip_storage_near
    }

    /// The votes on `mpip_id` (none for an unknown id).
    pub fn get_proposal_votes(&self, mpip_id: u32) -> (r: ProposalVoteJson)
        requires
            self.wf(),
        ensures
            mpip_id < self.votes@.len() ==> ({
                let pv = self.votes@[mpip_id as int];
                &&& r.for_votes == pv.for_votes
                &&& r.against_votes == pv.against_votes
                &&& r.abstain_votes == pv.abstain_votes
                &&& r.has_voted@.len() == pv.has_voted.keys@.len()
                &&& forall|k: int| 0 <= k < r.has_voted@.len() ==> {
                    let j = #[trigger] r.has_voted@[k];
                    let v = pv.has_voted.vals@[k];
                    &&& j.voter_id@ == pv.has_voted.key_seq()[k]
                    &&& j.mpip_id == v.mpip_id
                    &&& j.vote_type == v.vote_type
                    &&& j.voting_power == v.voting_power
                    &&& j.memo == v.memo
                }
            }),
            mpip_id >= self.votes@.len() ==> r.for_votes == 0 && r.against_votes == 0 && r.abstain_votes == 0
                && r.has_voted@.len() == 0,
    {
        if (mpip_id as usize) < self.votes.len() {
            self.votes[mpip_id as usize].to_json()
        } else {
            ProposalVote::new().to_json()
        }
    }

    /// Whether the votes on `mpip_id` reach its quorum (operator or admin).
    pub fn get_quorum_reached(&self, signer: &String, mpip_id: u32) -> (r: Result<bool, MpipError>)
        requires
            self.wf(),
        ensures
            r == (if !(signer@ == self.admin_id@ || signer@ == self.operator_id@) {
                Err(MpipError::OnlyOperatorOrAdmin)
            } else if mpip_id >= self.proposals@.len() {
                Err(MpipError::MpipNotFound)
            } else if self.proposal(mpip_id).v_power_quorum_to_reach is None {
                Err(MpipError::QuorumNotSet)
            } else if self.votes@[mpip_id as int].for_votes + self.votes@[mpip_id as int].abstain_votes > u128::MAX {
                Err(MpipError::Overflow)
            } else {
                Ok(spec_quorum_reached(self.proposal(mpip_id), self.votes@[mpip_id as int]))
            }),
    {
        self.assert_only_operator(signer)?;
        self.is_quorum_reached(mpip_id)
    }

    /// Whether the votes on `mpip_id` reach its quorum.
    fn is_quorum_reached(&self, mpip_id: u32) -> (r: Result<bool, MpipError>)
        requires
            self.wf(),
        ensures
            r == (if mpip_id >= self.proposals@.len() {
                Err(MpipError::MpipNotFound)
            } else if self.proposal(mpip_id).v_power_quorum_to_reach is None {
                Err(MpipError::QuorumNotSet)
            } else if self.votes@[mpip_id as int].for_votes + self.votes@[mpip_id as int].abstain_votes > u128::MAX {
                Err(MpipError::Overflow)
            } else {
                Ok(spec_quorum_reached(self.proposal(mpip_id), self.votes@[mpip_id as int]))
            }),
    {
        if mpip_id as usize >= self.proposals.len() {
            return Err(MpipError::MpipNotFound);
        }
        let i = mpip_id as usize;
        let quorum = match self.proposals[i].v_power_quorum_to_reach {
            Some(q) => q,
            None => return Err(MpipError::QuorumNotSet),
        };
        let pv = &self.votes[i];
        match pv.for_votes.checked_add(pv.abstain_votes) {
            Some(s) => Ok(quorum <= s),
            None => Err(MpipError::Overflow),
        }
    }

    /// Whether more voting power is for `mpip_id` than against it.
    pub fn get_proposal_vote_succeeded(&self, mpip_id: u32) -> (r: bool)
        requires
            self.wf(),
        ensures
            mpip_id < self.votes@.len() ==> r == (self.votes@[mpip_id as int].for_votes > self.votes@[mpip_id as int].against_votes),
            mpip_id >= self.votes@.len() ==> !r,
    {
        if (mpip_id as usize) < self.votes.len() {
            let pv = &self.votes[mpip_id as usize];
            pv.for_votes > pv.against_votes
        } else {
            false
        }
    }

    /// The state of `mpip_id` at `now`. Refused for an unknown id, and for a
    /// proposal past its vote without a quorum.
    pub fn get_proposal_state(&self, mpip_id: u32, now: u64) -> (r: Result<MpipState, MpipError>)
        requires
            self.wf(),
        ensures
            mpip_id >= self.proposals@.len() ==> r == Err::<MpipState, MpipError>(MpipError::MpipNotFound),
            mpip_id < self.proposals@.len() ==> ({
                let p = self.proposal(mpip_id);
                let pv = self.votes@[mpip_id as int];
                let decided = !p.executed && !p.canceled && !p.draft && !spec_on_voting(p, now) && !spec_active(p, now);
                &&& !decided ==> r == Ok::<MpipState, MpipError>(spec_state(p, pv, now))
                &&& decided && p.v_power_quorum_to_reach is None ==> r == Err::<MpipState, MpipError>(MpipError::QuorumNotSet)
                &&& decided && p.v_power_quorum_to_reach is Some && pv.for_votes + pv.abstain_votes > u128::MAX ==> r == Err::<MpipState, MpipError>(MpipError::Overflow)
                &&& decided && p.v_power_quorum_to_reach is Some && pv.for_votes + pv.abstain_votes <= u128::MAX ==> r == Ok::<MpipState, MpipError>(spec_state(p, pv, now))
            }),
    {
        if mpip_id as usize >= self.proposals.len() {
            return Err(MpipError::MpipNotFound);
        }
        let i = mpip_id as usize;
        let p = &self.proposals[i];
        if p.executed {
            return Ok(MpipState::Executed);
        } else if p.canceled {
            return Ok(MpipState::Canceled);
        } else if p.draft {
            return Ok(MpipState::Draft);
        }
        if p.is_on_voting(now) {
            return Ok(MpipState::VotingProcess);
        } else if p.is_active(now) {
            return Ok(MpipState::Active);
        }
        let reached = self.is_quorum_reached(mpip_id)?;
        if reached && self.get_proposal_vote_succeeded(mpip_id) {
            Ok(MpipState::Accepted)
        } else {
            Ok(MpipState::Rejected)
        }
    }

    /// Proposal `mpip_id` as the views report it.
    pub fn get_proposal(&self, mpip_id: u32) -> (r: Result<MpipJSON, MpipError>)
        requires
            self.wf(),
        ensures
            r is Ok <==> mpip_id < self.proposals@.len(),
            r matches Err(e) ==> e == MpipError::MpipNotFound,
            r matches Ok(j) ==> j == mpip_json(self.proposal(mpip_id)),
    {
        if mpip_id as usize >= self.proposals.len() {
            return Err(MpipError::MpipNotFound);
        }
        Ok(self.proposals[mpip_id as usize].to_json())
    }

    /// The proposals from position `from_index`, at most `limit` of them;
    /// `None` where `from_index` is past the end.
    pub fn get_proposals(&self, from_index: u32, limit: u32) -> (r: Option<Vec<MpipJSON>>)
        requires
            self.wf(),
        ensures
            r is None <==> from_index >= self.proposals@.len(),
            r matches Some(v) ==> ({
                let n = self.proposals@.len() as int;
                let end = if from_index + limit < n { from_index + limit } else { n };
                &&& v@ == self.proposals@.subrange(from_index as int, end).map_values(|p: Mpip| mpip_json(p))
            }),
    {
        let len = self.proposals.len();
        if from_index as usize >= len {
            return None;
        }
        let stop = (from_index as u64) + (limit as u64);
        let end: usize = if stop < len as u64 { stop as usize } else { len };
        let mut v: Vec<MpipJSON> = Vec::new();
        let mut k: usize = from_index as usize;
        while k < end
            invariant
                self.wf(),
                from_index <= k <= end,
                end <= self.proposals@.len(),
                v@ == self.proposals@.subrange(from_index as int, k as int).map_values(|p: Mpip| mpip_json(p)),
            decreases end - k,
        {
            v.push(self.proposals[k].to_json());
            k = k + 1;
            assert(v@ =~= self.proposals@.subrange(from_index as int, k as int).map_values(|p: Mpip| mpip_json(p)));
        }
        Some(v)
    }

    /// The id of the last proposal, if any.
    pub fn get_last_proposal_id(&self) -> (r: Option<u32>)
        requires
            self.wf(),
        ensures
            self.proposals@.len() == 0 ==> r is None,
            self.proposals@.len() > 0 ==> r == Some((self.proposals@.len() - 1) as u32),
    {
        let n = self.proposals.len();
        if n > 0 {
            Some((n - 1) as u32)
        } else {
            None
        }
    }

    /// The quorum in basis points.
    pub fn get_quorum_floor(&self) -> (r: u16)
        ensures
            r == self.quorum_floor,
    {
        self.quorum_floor
    }

    /// The proposal threshold.
    pub fn get_proposal_threshold(&self) -> (r: u128)
        ensures
            r == self.min_voting_power_amount,
    {
        self.min_voting_power_amount
    }

    /// The number of voters, written in decimal (as `u64::to_string` writes it).
    pub fn get_total_voters(&self) -> (r: String)
        ensures
            vstd::string::to_string_from_display_ensures::<u64>(&(self.voters.keys@.len() as u64), r),
    {
        let n: u64 = self.voters.len() as u64;
        n.to_string()
    }

    /// Whether `mpip_id` is active or in draft at `now` (false for an unknown id).
    pub fn get_proposal_is_active_or_draft(&self, mpip_id: u32, now: u64) -> (r: bool)
        requires
            self.wf(),
        ensures
            r == (mpip_id < self.proposals@.len() && spec_active_or_draft(self.proposal(mpip_id), now)),
    {
        if mpip_id as usize >= self.proposals.len() {
            return false;
        }
        self.proposals[mpip_id as usize].is_active_or_draft(now)
    }

    /// Whether `voter_id` has voted on `mpip_id`.
    pub fn has_voted(&self, voter_id: &String, mpip_id: u32) -> (r: bool)
        requires
            self.wf(),
        ensures
            r == (mpip_id < self.votes@.len() && self.votes@[mpip_id as int].has_voted@.contains_key(voter_id@)),
    {
        if mpip_id as usize >= self.votes.len() {
            return false;
        }
        self.votes[mpip_id as usize].has_voted.get(voter_id).is_some()
    }
}

/// The record of a voter of proposals (a voter without one has no votes).
pub open spec fn voter_or_new(c: MpipContract, id: Seq<char>) -> (Seq<Vote>, u128) {
    if c.voters@.contains_key(id) {
        (c.voters@[id].votes@, c.voters@[id].used_voting_power)
    } else {
        (Seq::empty(), 0)
    }
}

/// The tally of type `t` of proposal votes `pv`.
pub open spec fn tally_of(pv: ProposalVote, t: VoteType) -> int {
    match t {
        VoteType::For => pv.for_votes as int,
        VoteType::Against => pv.against_votes as int,
        VoteType::Abstain => pv.abstain_votes as int,
    }
}

/// The vote of account `x` on proposal `i` in the account's own record.
pub open spec fn recorded_vote(c: MpipContract, x: Seq<char>, i: u32) -> Option<Vote> {
    if c.voters@.contains_key(x) {
        vote_on(c.voters@[x].votes@, i)
    } else {
        None
    }
}

impl MpipContract {
    /// Each vote is recorded alike on its proposal and in its voter's record,
    /// a voter's record only names existing proposals, and a voter's used
    /// voting power is the voting power of its votes.
    pub open spec fn votes_recorded(&self) -> bool {
        &&& forall|x: Seq<char>| #[trigger] self.voters@.contains_key(x)
            ==> self.voters@[x].used_voting_power == votes_power(self.voters@[x].votes@)
        &&& forall|x: Seq<char>, k: int| #[trigger] self.voters@.contains_key(x) && 0 <= k < self.voters@[x].votes@.len()
            ==> (#[trigger] self.voters@[x].votes@[k]).mpip_id < self.votes@.len()
        &&& forall|x: Seq<char>, i: int| 0 <= i < self.votes@.len()
            ==> #[trigger] self.votes@[i].has_voted@.get(x) == recorded_vote(*self, x, i as u32)
    }
}

/// The tallies and the records of votes depend only on the proposals' votes
/// and the voters: a call that changes neither (such as starting a vote,
/// canceling, editing or executing a proposal, or a setting) keeps them.
pub proof fn lemma_records_unchanged(c1: MpipContract, c2: MpipContract)
    requires
        c2.votes == c1.votes,
        c2.voters == c1.voters,
    ensures
        c1.tallies_accounted() == c2.tallies_accounted(),
        c1.votes_recorded() == c2.votes_recorded(),
{
    assert forall|x: Seq<char>, i: u32| recorded_vote(c1, x, i) == recorded_vote(c2, x, i) by {}
}

/// No vote of a voter whose record names only proposals below `n` is on proposal `n`.
proof fn lemma_vote_on_past_end(votes: Seq<Vote>, n: int)
    requires
        0 <= n <= u32::MAX,
        forall|k: int| 0 <= k < votes.len() ==> (#[trigger] votes[k]).mpip_id < n,
    ensures
        vote_on(votes, n as u32) is None,
        !vote_ids(votes).contains(n as u32),
{
    assert forall|j: int| 0 <= j < vote_ids(votes).len() implies vote_ids(votes)[j] != n as u32 by {
        assert(vote_ids(votes)[j] == votes[j].mpip_id);
    }
}

/// A new proposal, with no votes, keeps each vote recorded alike on both sides.
proof fn lemma_recorded_after_create(c0: MpipContract, c1: MpipContract)
    requires
        c0.votes_recorded(),
        c0.votes@.len() <= u32::MAX,
        c1.voters == c0.voters,
        c1.votes@.len() == c0.votes@.len() + 1,
        forall|i: int| 0 <= i < c0.votes@.len() ==> c1.votes@[i] == c0.votes@[i],
        c1.votes@.last().has_voted.keys@.len() == 0,
    ensures
        c1.votes_recorded(),
{
    let n = c0.votes@.len() as int;
    assert forall|x: Seq<char>, i: int| 0 <= i < c1.votes@.len()
        implies #[trigger] c1.votes@[i].has_voted@.get(x) == recorded_vote(c1, x, i as u32) by {
        if i < n {
            assert(c0.votes@[i].has_voted@.get(x) == recorded_vote(c0, x, i as u32));
        } else {
            assert(!c1.votes@[i].has_voted.key_seq().contains(x));
            if c1.voters@.contains_key(x) {
                assert forall|k: int| 0 <= k < c1.voters@[x].votes@.len() implies (#[trigger] c1.voters@[x].votes@[k]).mpip_id < n by {
                    assert(c0.voters@.contains_key(x));
                }
                lemma_vote_on_past_end(c1.voters@[x].votes@, n);
            }
        }
    }
}

/// A vote of an account that had not voted on the proposal keeps each vote
/// recorded alike on both sides, and the used voting power in step.
proof fn lemma_recorded_after_vote(c0: MpipContract, c1: MpipContract, m: int, x0: Seq<char>, vote: Vote)
    requires
        c0.wf(),
        c0.votes_recorded(),
        0 <= m < c0.votes@.len(),
        vote.mpip_id == m,
        !c0.votes@[m].has_voted@.contains_key(x0),
        c1.votes@.len() == c0.votes@.len(),
        forall|i: int| 0 <= i < c0.votes@.len() && i != m ==> c1.votes@[i] == c0.votes@[i],
        c1.votes@[m].has_voted@ == c0.votes@[m].has_voted@.insert(x0, vote),
        c1.voters@.dom() == c0.voters@.dom().insert(x0),
        c1.voters@.remove(x0) == c0.voters@.remove(x0),
        c1.voters@[x0].used_voting_power == voter_or_new(c0, x0).1 + vote.voting_power,
        !vote_ids(voter_or_new(c0, x0).0).contains(vote.mpip_id) ==> c1.voters@[x0].votes@ == voter_or_new(c0, x0).0.push(vote),
    ensures
        c1.votes_recorded(),
{
    let prev = voter_or_new(c0, x0);
    assert(c0.votes@[m].has_voted@.get(x0) == recorded_vote(c0, x0, m as u32));
    if c0.voters@.contains_key(x0) {
        c0.voters.lemma_has_index(x0);
        c0.voters.lemma_index(c0.voters.key_seq().index_of(x0));
        assert(c0.voters@[x0].wf());
    }
    assert(!vote_ids(prev.0).contains(m as u32));
    assert(vote_ids(prev.0).no_duplicates());
    assert forall|x: Seq<char>| x != x0 && c0.voters@.contains_key(x) implies c1.voters@.contains_key(x) && c1.voters@[x] == c0.voters@[x] by {
        broadcast use vstd::map::group_map_axioms, vstd::set::group_set_axioms;
        assert(c0.voters@.remove(x0).dom().contains(x));
        assert(c1.voters@.remove(x0).dom().contains(x));
        assert(c1.voters@.dom().contains(x));
        assert(c1.voters@.remove(x0)[x] == c1.voters@[x]);
        assert(c0.voters@.remove(x0)[x] == c0.voters@[x]);
    }
    assert forall|x: Seq<char>| #[trigger] c1.voters@.contains_key(x)
        implies c1.voters@[x].used_voting_power == votes_power(c1.voters@[x].votes@) by {
        if x == x0 {
            lemma_vote_on_push(prev.0, vote, 0);
            if !c0.voters@.contains_key(x0) {
                crate::seq_sum::lemma_sum_empty(prev.0, crate::mpip::power_fn());
            }
        } else {
            assert(c0.voters@.contains_key(x));
        }
    }
    assert forall|x: Seq<char>, k: int| #[trigger] c1.voters@.contains_key(x) && 0 <= k < c1.voters@[x].votes@.len()
        implies (#[trigger] c1.voters@[x].votes@[k]).mpip_id < c1.votes@.len() by {
        if x == x0 {
            if k < prev.0.len() {
                assert(c1.voters@[x].votes@[k] == prev.0[k]);
            }
        } else {
            assert(c0.voters@.contains_key(x));
        }
    }
    assert forall|x: Seq<char>, i: int| 0 <= i < c1.votes@.len()
        implies #[trigger] c1.votes@[i].has_voted@.get(x) == recorded_vote(c1, x, i as u32) by {
        assert(c0.votes@[i].has_voted@.get(x) == recorded_vote(c0, x, i as u32));
        if x == x0 {
            lemma_vote_on_push(prev.0, vote, i as u32);
        } else if c0.voters@.contains_key(x) {
            assert(c1.voters@[x] == c0.voters@[x]);
        }
    }
}

/// Removing the vote of an account keeps each vote recorded alike on both
/// sides, and the used voting power in step.
proof fn lemma_recorded_after_remove(c0: MpipContract, c1: MpipContract, m: int, x0: Seq<char>)
    requires
        c0.wf(),
        c0.votes_recorded(),
        0 <= m < c0.votes@.len(),
        c0.votes@[m].has_voted@.contains_key(x0),
        c1.votes@.len() == c0.votes@.len(),
        forall|i: int| 0 <= i < c0.votes@.len() && i != m ==> c1.votes@[i] == c0.votes@[i],
        c1.votes@[m].has_voted@ == c0.votes@[m].has_voted@.remove(x0),
        c1.voters@.remove(x0) == c0.voters@.remove(x0),
        c1.voters@.contains_key(x0) <==> without_vote(voter_or_new(c0, x0).0, m as u32).len() > 0,
        c1.voters@.contains_key(x0) ==> c1.voters@[x0].used_voting_power
            == voter_or_new(c0, x0).1 - c0.votes@[m].has_voted@[x0].voting_power
            && c1.voters@[x0].votes@ == without_vote(voter_or_new(c0, x0).0, m as u32),
    ensures
        c1.votes_recorded(),
{
    let prev = voter_or_new(c0, x0);
    let w = without_vote(prev.0, m as u32);
    assert(c0.votes@[m].has_voted@.get(x0) == recorded_vote(c0, x0, m as u32));
    assert(c0.voters@.contains_key(x0));
    c0.voters.lemma_has_index(x0);
    c0.voters.lemma_index(c0.voters.key_seq().index_of(x0));
    assert(c0.voters@[x0].wf());
    assert forall|x: Seq<char>| x != x0 && c0.voters@.contains_key(x) implies c1.voters@.contains_key(x) && c1.voters@[x] == c0.voters@[x] by {
        broadcast use vstd::map::group_map_axioms, vstd::set::group_set_axioms;
        assert(c0.voters@.remove(x0).dom().contains(x));
        assert(c1.voters@.remove(x0).dom().contains(x));
        assert(c1.voters@.dom().contains(x));
        assert(c1.voters@.remove(x0)[x] == c1.voters@[x]);
        assert(c0.voters@.remove(x0)[x] == c0.voters@[x]);
    }
    assert forall|x: Seq<char>| x != x0 && #[trigger] c1.voters@.contains_key(x) implies c0.voters@.contains_key(x) by {
        assert(c1.voters@.remove(x0).contains_key(x));
    }
    lemma_vote_on_without(prev.0, m as u32, 0);
    assert forall|x: Seq<char>| #[trigger] c1.voters@.contains_key(x)
        implies c1.voters@[x].used_voting_power == votes_power(c1.voters@[x].votes@) by {
        if x != x0 {
            assert(c0.voters@.contains_key(x));
        }
    }
    assert forall|x: Seq<char>, k: int| #[trigger] c1.voters@.contains_key(x) && 0 <= k < c1.voters@[x].votes@.len()
        implies (#[trigger] c1.voters@[x].votes@[k]).mpip_id < c1.votes@.len() by {
        if x == x0 {
            let ids = vote_ids(prev.0);
            let i = ids.index_of(m as u32);
            let n = prev.0.len();
            let kk = if k == i { n - 1 } else { k };
            assert(w[k] == prev.0[kk]);
        } else {
            assert(c0.voters@.contains_key(x));
        }
    }
    assert forall|x: Seq<char>, i: int| 0 <= i < c1.votes@.len()
        implies #[trigger] c1.votes@[i].has_voted@.get(x) == recorded_vote(c1, x, i as u32) by {
        assert(c0.votes@[i].has_voted@.get(x) == recorded_vote(c0, x, i as u32));
        if x == x0 {
            lemma_vote_on_without(prev.0, m as u32, i as u32);
            if !c1.voters@.contains_key(x0) {
                assert(w.len() == 0);
                assert(vote_ids(w).len() == 0);
                assert(!vote_ids(w).contains(i as u32));
            }
        } else if c0.voters@.contains_key(x) {
            assert(c1.voters@[x] == c0.voters@[x]);
        }
    }
}

/// `new` is `pv` with the tally of type `t` changed by `delta` and the others kept.
pub open spec fn tallies_moved(pv: ProposalVote, new: ProposalVote, t: VoteType, delta: int) -> bool {
    &&& new.for_votes == pv.for_votes + if t == VoteType::For { delta } else { 0 }
    &&& new.against_votes == pv.against_votes + if t == VoteType::Against { delta } else { 0 }
    &&& new.abstain_votes == pv.abstain_votes + if t == VoteType::Abstain { delta } else { 0 }
}

/// What recording `vote` (on `mpip_id`, with `voting_power`) by `voter`
/// changes from `c` to `c2`: the vote goes to the proposal's votes and to its
/// tally, and to the voter's votes (in place of one on the same proposal, else
/// at the end) and used voting power; nothing else changes.
pub open spec fn vote_cast(c: MpipContract, c2: MpipContract, mpip_id: u32, voting_power: u128, voter: Seq<char>, vote: Vote) -> bool {
    let pv = c.votes@[mpip_id as int];
    let npv = c2.votes@[mpip_id as int];
    let prev = voter_or_new(c, voter);
    &&& c2.proposals == c.proposals
    &&& c2.votes@.len() == c.votes@.len()
    &&& forall|i: int| 0 <= i < c.votes@.len() && i != mpip_id ==> c2.votes@[i] == c.votes@[i]
    &&& npv.has_voted@ =~= pv.has_voted@.insert(voter, vote)
    &&& tallies_moved(pv, npv, vote.vote_type, voting_power as int)
    &&& c2.voters@.dom() =~= c.voters@.dom().insert(voter)
    &&& c2.voters@.remove(voter) =~= c.voters@.remove(voter)
    &&& c2.voters@[voter].used_voting_power == prev.1 + voting_power
    &&& vote_ids(prev.0).contains(mpip_id) ==> c2.voters@[voter].votes@ =~= prev.0.update(vote_ids(prev.0).index_of(mpip_id), vote)
    &&& !vote_ids(prev.0).contains(mpip_id) ==> c2.voters@[voter].votes@ =~= prev.0.push(vote)
    &&& c2 == (MpipContract { votes: c2.votes, voters: c2.voters, ..c })
}

/// What removing the vote of `voter` on `mpip_id` changes from `c` to `c2`:
/// the vote leaves the proposal's votes and its tally, and the voter's votes
/// (the last one taking its place) and used voting power; a voter left
/// without votes loses its record.
pub open spec fn vote_removed(c: MpipContract, c2: MpipContract, mpip_id: u32, voter: Seq<char>) -> bool {
    let v = vote_of(c, mpip_id, voter);
    let pv = c.votes@[mpip_id as int];
    let npv = c2.votes@[mpip_id as int];
    let prev = voter_or_new(c, voter);
    &&& c2.proposals == c.proposals
    &&& c2.votes@.len() == c.votes@.len()
    &&& forall|i: int| 0 <= i < c.votes@.len() && i != mpip_id ==> c2.votes@[i] == c.votes@[i]
    &&& npv.has_voted@ =~= pv.has_voted@.remove(voter)
    &&& tallies_moved(pv, npv, v.vote_type, -(v.voting_power as int))
    &&& c2.voters@.remove(voter) =~= c.voters@.remove(voter)
    &&& c2.voters@.contains_key(voter) <==> without_vote(prev.0, mpip_id).len() > 0
    &&& c2.voters@.contains_key(voter) ==> c2.voters@[voter].used_voting_power == prev.1 - v.voting_power
        && c2.voters@[voter].votes@ =~= without_vote(prev.0, mpip_id)
    &&& c2 == (MpipContract { votes: c2.votes, voters: c2.voters, ..c })
}

/// Removing a vote undoes it for the voter too: after an account that had
/// not voted on a proposal casts a vote on it and then removes it, the
/// account's votes and used voting power are what they were (an account
/// that had no record has none again), the other accounts' records are
/// unchanged, and so are the proposal's votes and tallies.
pub proof fn lemma_remove_vote_restores_voter(c0: MpipContract, c1: MpipContract, c2: MpipContract, mpip_id: u32, voting_power: u128, voter: Seq<char>, vote: Vote)
    requires
        c0.wf(),
        c0.votes_recorded(),
        mpip_id < c0.votes@.len(),
        !c0.votes@[mpip_id as int].has_voted@.contains_key(voter),
        vote.mpip_id == mpip_id,
        vote.voting_power == voting_power,
        vote_cast(c0, c1, mpip_id, voting_power, voter, vote),
        vote_removed(c1, c2, mpip_id, voter),
    ensures
        voter_or_new(c2, voter) == voter_or_new(c0, voter),
        c2.voters@.remove(voter) == c0.voters@.remove(voter),
        c2.votes@[mpip_id as int].has_voted@ == c0.votes@[mpip_id as int].has_voted@,
        tally_of(c2.votes@[mpip_id as int], VoteType::For) == tally_of(c0.votes@[mpip_id as int], VoteType::For),
        tally_of(c2.votes@[mpip_id as int], VoteType::Against) == tally_of(c0.votes@[mpip_id as int], VoteType::Against),
        tally_of(c2.votes@[mpip_id as int], VoteType::Abstain) == tally_of(c0.votes@[mpip_id as int], VoteType::Abstain),
        forall|i: int| 0 <= i < c0.votes@.len() && i != mpip_id ==> c2.votes@[i] == c0.votes@[i],
        c2.proposals == c0.proposals,
{
    let prev = voter_or_new(c0, voter);
    assert(c0.votes@[mpip_id as int].has_voted@.get(voter) == recorded_vote(c0, voter, mpip_id));
    assert(!vote_ids(prev.0).contains(mpip_id));
    let pushed = prev.0.push(vote);
    assert(voter_or_new(c1, voter) == (pushed, (prev.1 + voting_power) as u128));
    assert(vote_ids(pushed) =~= vote_ids(prev.0).push(mpip_id));
    assert(vote_ids(pushed).index_of(mpip_id) == prev.0.len()) by {
        assert(vote_ids(pushed)[prev.0.len() as int] == mpip_id);
        assert forall|j: int| 0 <= j < prev.0.len() implies vote_ids(pushed)[j] != mpip_id by {
            assert(vote_ids(prev.0)[j] == vote_ids(pushed)[j]);
        }
    }
    assert(vote_ids(pushed).contains(mpip_id));
    assert(pushed.update(prev.0.len() as int, pushed.last()) =~= pushed);
    assert(pushed.drop_last() =~= prev.0);
    assert(without_vote(pushed, mpip_id) =~= prev.0);
    assert(vote_of(c1, mpip_id, voter) == vote);
    if c0.voters@.contains_key(voter) {
        if prev.0.len() == 0 {
            assert(votes_power(prev.0) == 0);
        }
    }
    assert(c2.voters@.remove(voter) =~= c0.voters@.remove(voter));
    assert(c2.votes@[mpip_id as int].has_voted@ =~= c0.votes@[mpip_id as int].has_voted@);
}

/// Removing a vote undoes it on the proposal: after an account that had not
/// voted casts a vote and then removes it, the tallies and the votes by
/// account are what they were.
pub proof fn lemma_remove_vote_undoes_vote(pv0: ProposalVote, pv1: ProposalVote, pv2: ProposalVote, voter: Seq<char>, vote: Vote)
    requires
        !pv0.has_voted@.contains_key(voter),
        pv1.has_voted@ == pv0.has_voted@.insert(voter, vote),
        tallies_moved(pv0, pv1, vote.vote_type, vote.voting_power as int),
        pv2.has_voted@ == pv1.has_voted@.remove(voter),
        tallies_moved(pv1, pv2, pv1.has_voted@[voter].vote_type, -(pv1.has_voted@[voter].voting_power as int)),
    ensures
        pv2.has_voted@ == pv0.has_voted@,
        pv2.for_votes == pv0.for_votes,
        pv2.against_votes == pv0.against_votes,
        pv2.abstain_votes == pv0.abstain_votes,
{
    assert(pv2.has_voted@ =~= pv0.has_voted@);
}

/// Why checking a vote on `mpip_id` at `now` by `caller` is refused, if it is.
pub open spec fn vote_check_error(c: MpipContract, caller: Seq<char>, mpip_id: u32, now: u64) -> Option<MpipError> {
    if mpip_id >= c.proposals@.len() {
        Some(MpipError::MpipNotFound)
    } else if !spec_on_voting(c.proposal(mpip_id), now) {
        Some(MpipError::NotOnVoting)
    } else if c.votes@[mpip_id as int].has_voted@.contains_key(caller) {
        Some(MpipError::AlreadyVoted)
    } else {
        None
    }
}

/// Why recording the vote of `voter_id` is refused, if it is.
pub open spec fn vote_callback_error(c: MpipContract, mpip_id: u32, voting_power: u128, voter_id: Seq<char>, vote_type: VoteType, vps: Option<Seq<u128>>) -> Option<MpipError> {
    match vps {
        None => Some(MpipError::MetaVoteUnavailable),
        Some(vps) => {
            let used = voter_or_new(c, voter_id).1;
            if spec_total(vps) > u128::MAX {
                Some(MpipError::Overflow)
            } else if voting_power + used > u128::MAX {
                Some(MpipError::Overflow)
            } else if spec_total(vps) < voting_power + used {
                Some(MpipError::NotEnoughVotingPower)
            } else if mpip_id >= c.votes@.len() {
                Some(MpipError::MpipNotFound)
            } else if tally_of(c.votes@[mpip_id as int], vote_type) + voting_power > u128::MAX {
                Some(MpipError::Overflow)
            } else {
                None
            }
        },
    }
}

impl MpipContract {
    /// Stores `voter` as the record of `id`, in place or as a new record at
    /// the end.
    fn store_voter(&mut self, id: &String, voter: MpipVoter)
        requires
            old(self).wf(),
            voter.wf(),
        ensures
            final(self).wf(),
            final(self).voters@ == old(self).voters@.insert(id@, voter),
            *final(self) == (MpipContract { voters: final(self).voters, ..*old(self) }),
    {
        let ghost v0 = self.voters;
        self.voters.insert(id, voter);
        proof {
            assert forall|i: int| 0 <= i < self.voters.vals@.len() implies (#[trigger] self.voters.vals@[i]).wf() by {
                if i < v0.vals@.len() && self.voters.vals@[i] != voter {
                    assert(self.voters.vals@[i] == v0.vals@[i]);
                }
            }
        }
    }

    /// Checks that `caller` may vote on `mpip_id` at `now`; gives the Meta
    /// Vote contract to ask for the caller's locking positions, whose voting
    /// power goes to `vote_proposal_callback`.
    pub fn vote_proposal(&self, caller: &String, mpip_id: u32, now: u64) -> (r: Result<String, MpipError>)
        requires
            self.wf(),
        ensures
            r is Ok <==> vote_check_error(*self, caller@, mpip_id, now) is None,
            r matches Err(e) ==> vote_check_error(*self, caller@, mpip_id, now) == Some(e),
            r matches Ok(a) ==> a == self.meta_vote_contract_address,
    {
        if mpip_id as usize >= self.proposals.len() {
            return Err(MpipError::MpipNotFound);
        }
        if !self.proposals[mpip_id as usize].is_on_voting(now) {
            return Err(MpipError::NotOnVoting);
        }
        if self.votes[mpip_id as usize].has_voted.get(caller).is_some() {
            return Err(MpipError::AlreadyVoted);
        }
        Ok(self.meta_vote_contract_address.clone())
    }

    /// Records the vote of `voter_id` on `mpip_id` with `voting_power`, given
    /// the voting power of its locking positions as Meta Vote reported it
    /// (`None` where it did not answer): what the voter already uses plus
    /// this vote must fit in it. The vote goes to the proposal's votes and to
    /// its tally, and to the voter's votes and used voting power.
    pub fn vote_proposal_callback(
        &mut self,
        mpip_id: u32,
        voting_power: u128,
        voter_id: &String,
        vote_type: VoteType,
        memo: String,
        positions_voting_power: Option<Vec<u128>>,
    ) -> (r: Result<(), MpipError>)
        requires
            old(self).wf(),
        ensures
            final(self).wf(),
            r == (match vote_callback_error(*old(self), mpip_id, voting_power, voter_id@, vote_type, match positions_voting_power {
                Some(v) => Some(v@),
                None => None,
            }) {
                Some(e) => Err(e),
                None => Ok(()),
            }),
            r is Err ==> *final(self) == *old(self),
            r is Ok ==> vote_cast(*old(self), *final(self), mpip_id, voting_power, voter_id@, Vote { mpip_id, vote_type, voting_power, memo }),
            r is Ok && !old(self).votes@[mpip_id as int].has_voted@.contains_key(voter_id@) ==> (
                old(self).tallies_accounted() ==> final(self).tallies_accounted())
                && (old(self).votes_recorded() ==> final(self).votes_recorded()),
    {
        let vps = match positions_voting_power {
            Some(v) => v,
            None => return Err(MpipError::MetaVoteUnavailable),
        };
        let total = match sum_voting_power(&vps) {
            Some(t) => t,
            None => return Err(MpipError::Overflow),
        };
        let found = self.voters.find(voter_id);
        let used: u128 = match found {
            Some(i) => {
                proof {
                    self.voters.lemma_index(i as int);
                }
                self.voters.vals[i].used_voting_power
            },
            None => 0,
        };
        let needed = match voting_power.checked_add(used) {
            Some(x) => x,
            None => return Err(MpipError::Overflow),
        };
        if total < needed {
            return Err(MpipError::NotEnoughVotingPower);
        }
        if mpip_id as usize >= self.votes.len() {
            return Err(MpipError::MpipNotFound);
        }
        let k = mpip_id as usize;
        let current = match vote_type {
            VoteType::For => self.votes[k].for_votes,
            VoteType::Against => self.votes[k].against_votes,
            VoteType::Abstain => self.votes[k].abstain_votes,
        };
        let new_tally = match current.checked_add(voting_power) {
            Some(x) => x,
            None => return Err(MpipError::Overflow),
        };
        let ghost old_self = *self;
        let vote = Vote::new(mpip_id, vote_type, voting_power, memo);
        let ghost gvote = vote;
        let mut pv = self.votes.remove(k);
        let ghost pv0 = pv;
        let ghost had = pv0.has_voted.has(voter_id@);
        pv.has_voted.insert(voter_id, vote.copy());
        match vote_type {
            VoteType::For => {
                pv.for_votes = new_tally;
            },
            VoteType::Against => {
                pv.against_votes = new_tally;
            },
            VoteType::Abstain => {
                pv.abstain_votes = new_tally;
            },
        }
        proof {
            if !had && old_self.tallies_accounted() {
                assert(old_self.votes@[k as int].tallies_accounted());
                lemma_tally_push(pv0.has_voted.vals@, vote);
            }
        }
        self.votes.insert(k, pv);
        proof {
            assert(self.votes@ =~= old_self.votes@.update(k as int, pv));
            assert forall|i: int| 0 <= i < self.votes@.len() implies (#[trigger] self.votes@[i]).has_voted.wf() by {
                if i != k {
                    assert(self.votes@[i] == old_self.votes@[i]);
                }
            }
            if !had && old_self.tallies_accounted() {
                assert forall|i: int| 0 <= i < self.votes@.len() implies (#[trigger] self.votes@[i]).tallies_accounted() by {
                    if i != k {
                        assert(self.votes@[i] == old_self.votes@[i]);
                    }
                }
            }
        }
        let mut voter = match found {
            Some(i) => self.voters.take_at(i, MpipVoter::new()),
            None => MpipVoter::new(),
        };
        let ghost prev_votes = voter.votes@;
        proof {
            match found {
                Some(i) => {
                    assert(voter == old_self.voters.vals@[i as int]);
                    assert(voter.wf());
                },
                None => {},
            }
        }
        voter.insert_vote(vote);
        voter.used_voting_power = needed;
        let ghost mid = *self;
        self.store_voter(voter_id, voter);
        proof {
            assert(self.voters@.dom() =~= old_self.voters@.dom().insert(voter_id@));
            match found {
                Some(i) => {
                    assert(mid.voters.key_seq() == old_self.voters.key_seq());
                    assert forall|x: Seq<char>| x != voter_id@ && #[trigger] old_self.voters@.contains_key(x) implies
                        mid.voters@[x] == old_self.voters@[x] by {
                        let j = old_self.voters.key_seq().index_of(x);
                        old_self.voters.lemma_has_index(x);
                        old_self.voters.lemma_index(j);
                        mid.voters.lemma_index(j);
                        assert(j != i);
                    }
                    assert forall|x: Seq<char>| #[trigger] mid.voters@.contains_key(x) == old_self.voters@.contains_key(x) by {}
                },
                None => {
                    assert(mid.voters == old_self.voters);
                },
            }
            assert(self.voters@.remove(voter_id@) =~= old_self.voters@.remove(voter_id@));
            if !had && old_self.votes_recorded() {
                match found {
                    Some(i) => {
                        old_self.voters.lemma_index(i as int);
                        assert(old_self.voters@[voter_id@] == old_self.voters.vals@[i as int]);
                    },
                    None => {},
                }
                assert(prev_votes == voter_or_new(old_self, voter_id@).0);
                lemma_recorded_after_vote(old_self, *self, k as int, voter_id@, gvote);
            }
        }
        Ok(())
    }
}

/// The vote of `voter` on `mpip_id` (meaningful where it has voted).
pub open spec fn vote_of(c: MpipContract, mpip_id: u32, voter: Seq<char>) -> Vote {
    c.votes@[mpip_id as int].has_voted@[voter]
}

/// Why removing the vote of `caller` on `mpip_id` at `now` is refused, if it is.
pub open spec fn remove_vote_error(c: MpipContract, caller: Seq<char>, mpip_id: u32, now: u64) -> Option<MpipError> {
    if mpip_id >= c.proposals@.len() {
        Some(MpipError::MpipNotFound)
    } else if !spec_on_voting(c.proposal(mpip_id), now) {
        Some(MpipError::NotOnVoting)
    } else if !c.votes@[mpip_id as int].has_voted@.contains_key(caller) {
        Some(MpipError::NotVoted)
    } else {
        let v = vote_of(c, mpip_id, caller);
        if tally_of(c.votes@[mpip_id as int], v.vote_type) < v.voting_power {
            Some(MpipError::Overflow)
        } else if voter_or_new(c, caller).1 < v.voting_power {
            Some(MpipError::Overflow)
        } else {
            None
        }
    }
}

/// Why `caller` taking back its voting power from `mpip_id` at `now` is
/// refused, if it is.
pub open spec fn withdraw_vp_error(c: MpipContract, caller: Seq<char>, mpip_id: u32, now: u64) -> Option<MpipError> {
    if mpip_id >= c.proposals@.len() {
        Some(MpipError::MpipNotFound)
    } else if !(c.proposal(mpip_id).vote_end_timestamp matches Some(end) && now > end) {
        Some(MpipError::VotingNotFinished)
    } else if !c.votes@[mpip_id as int].has_voted@.contains_key(caller) {
        Some(MpipError::NotVoted)
    } else if voter_or_new(c, caller).1 < 2 * vote_of(c, mpip_id, caller).voting_power {
        Some(MpipError::Overflow)
    } else {
        None
    }
}

impl MpipContract {
    /// Removes the record of `id`.
    fn drop_voter(&mut self, id: &String)
        requires
            old(self).wf(),
        ensures
            final(self).wf(),
            final(self).voters@ == old(self).voters@.remove(id@),
            *final(self) == (MpipContract { voters: final(self).voters, ..*old(self) }),
    {
        let ghost v0 = self.voters;
        self.voters.remove(id);
        proof {
            if v0.has(id@) {
                let i = v0.key_seq().index_of(id@);
                v0.lemma_has_index(id@);
                assert forall|j: int| 0 <= j < self.voters.vals@.len() implies (#[trigger] self.voters.vals@[j]).wf() by {
                    if j == i {
                        assert(self.voters.vals@[j] == v0.vals@[v0.vals@.len() - 1]);
                    } else {
                        assert(self.voters.vals@[j] == v0.vals@[j]);
                    }
                }
            }
        }
    }

    /// The record of `id`, taken out (a new one where there is none).
    fn take_voter(&mut self, id: &String) -> (r: MpipVoter)
        requires
            old(self).wf(),
        ensures
            final(self).proposals == old(self).proposals,
            final(self).votes == old(self).votes,
            final(self).voters.keys == old(self).voters.keys,
            final(self).wf(),
            final(self).voters@.remove(id@) == old(self).voters@.remove(id@),
            final(self).voters@.dom() == old(self).voters@.dom(),
            final(self).proposers == old(self).proposers,
            r.wf(),
            r.votes@ == voter_or_new(*old(self), id@).0,
            r.used_voting_power == voter_or_new(*old(self), id@).1,
            old(self).voters@.contains_key(id@) ==> r == old(self).voters@[id@],
            *final(self) == (MpipContract { voters: final(self).voters, ..*old(self) }),
    {
        match self.voters.find(id) {
            Some(i) => {
                proof {
                    self.voters.lemma_index(i as int);
                }
                let v = self.voters.take_at(i, MpipVoter::new());
                assert forall|j: int| 0 <= j < self.voters.vals@.len() implies (#[trigger] self.voters.vals@[j]).wf() by {
                    if j != i {
                        assert(self.voters.vals@[j] == old(self).voters.vals@[j]);
                    }
                }
                assert(self.voters@.remove(id@) =~= old(self).voters@.remove(id@));
                assert(self.voters@.dom() =~= old(self).voters@.dom());
                v
            },
            None => MpipVoter::new(),
        }
    }

    /// Removes the caller's vote on `mpip_id`, in its voting period at `now`:
    /// the vote leaves the proposal's votes and its tally, and the voter's
    /// votes and used voting power; a voter left without votes loses its record.
    pub fn remove_vote_proposal(&mut self, caller: &String, mpip_id: u32, now: u64) -> (r: Result<(), MpipError>)
        requires
            old(self).wf(),
        ensures
            final(self).wf(),
            r == (match remove_vote_error(*old(self), caller@, mpip_id, now) {
                Some(e) => Err(e),
                None => Ok(()),
            }),
            r is Err ==> *final(self) == *old(self),
            r is Ok ==> vote_removed(*old(self), *final(self), mpip_id, caller@),
            r is Ok ==> (old(self).tallies_accounted() ==> final(self).tallies_accounted()),
            r is Ok ==> (old(self).votes_recorded() ==> final(self).votes_recorded()),
    {
        if mpip_id as usize >= self.proposals.len() {
            return Err(MpipError::MpipNotFound);
        }
        let k = mpip_id as usize;
        if !self.proposals[k].is_on_voting(now) {
            return Err(MpipError::NotOnVoting);
        }
        let (vote_type, vp) = match self.votes[k].has_voted.get(caller) {
            Some(v) => (v.vote_type, v.voting_power),
            None => return Err(MpipError::NotVoted),
        };
        let current = match vote_type {
            VoteType::For => self.votes[k].for_votes,
            VoteType::Against => self.votes[k].against_votes,
            VoteType::Abstain => self.votes[k].abstain_votes,
        };
        if current < vp {
            return Err(MpipError::Overflow);
        }
        let used: u128 = match self.voters.get(caller) {
            Some(v) => v.used_voting_power,
            None => 0,
        };
        if used < vp {
            return Err(MpipError::Overflow);
        }
        let ghost old_self = *self;
        let mut pv = self.votes.remove(k);
        let ghost pv0 = pv;
        match vote_type {
            VoteType::For => {
                pv.for_votes = current - vp;
            },
            VoteType::Against => {
                pv.against_votes = current - vp;
            },
            VoteType::Abstain => {
                pv.abstain_votes = current - vp;
            },
        }
        pv.has_voted.remove(caller);
        proof {
            pv0.has_voted.lemma_has_index(caller@);
            let j = pv0.has_voted.key_seq().index_of(caller@);
            pv0.has_voted.lemma_index(j);
            lemma_tally_swap_remove(pv0.has_voted.vals@, j);
            if old_self.tallies_accounted() {
                assert(old_self.votes@[k as int].tallies_accounted());
            }
        }
        self.votes.insert(k, pv);
        proof {
            assert(self.votes@ =~= old_self.votes@.update(k as int, pv));
            assert forall|i: int| 0 <= i < self.votes@.len() implies (#[trigger] self.votes@[i]).has_voted.wf() by {
                if i != k {
                    assert(self.votes@[i] == old_self.votes@[i]);
                }
            }
            if old_self.tallies_accounted() {
                assert forall|i: int| 0 <= i < self.votes@.len() implies (#[trigger] self.votes@[i]).tallies_accounted() by {
                    if i != k {
                        assert(self.votes@[i] == old_self.votes@[i]);
                    }
                }
            }
        }
        let mut voter = self.take_voter(caller);
        voter.remove_vote(mpip_id);
        voter.used_voting_power = voter.used_voting_power - vp;
        if voter.votes.len() == 0 {
            self.drop_voter(caller);
        } else {
            self.store_voter(caller, voter);
        }
        proof {
            assert(self.voters@.remove(caller@) =~= old_self.voters@.remove(caller@));
            if old_self.votes_recorded() {
                lemma_recorded_after_remove(old_self, *self, k as int, caller@);
            }
        }
        Ok(())
    }
}

impl MpipContract {
    /// The caller takes back the voting power of its vote on `mpip_id` after
    /// the vote ended (`now` past its end): the used voting power goes down
    /// by twice the vote's voting power, and
    /// the vote leaves the voter's votes (not the proposal's); a voter left
    /// without votes loses its record.
    pub fn withdraw_voting_power(&mut self, caller: &String, mpip_id: u32, now: u64) -> (r: Result<(), MpipError>)
        requires
            old(self).wf(),
        ensures
            final(self).wf(),
            r == (match withdraw_vp_error(*old(self), caller@, mpip_id, now) {
                Some(e) => Err(e),
                None => Ok(()),
            }),
            r is Err ==> *final(self) == *old(self),
            r is Ok ==> ({
                let v = vote_of(*old(self), mpip_id, caller@);
                let prev = voter_or_new(*old(self), caller@);
                &&& final(self).proposals == old(self).proposals
                &&& final(self).votes == old(self).votes
                &&& final(self).voters@.remove(caller@) == old(self).voters@.remove(caller@)
                &&& final(self).voters@.contains_key(caller@) <==> without_vote(prev.0, mpip_id).len() > 0
                &&& final(self).voters@.contains_key(caller@) ==> final(self).voters@[caller@].used_voting_power == prev.1 - 2 * v.voting_power
                    && final(self).voters@[caller@].votes@ == without_vote(prev.0, mpip_id)
                &&& *final(self) == (MpipContract { voters: final(self).voters, ..*old(self) })
            }),
    {
        if mpip_id as usize >= self.proposals.len() {
            return Err(MpipError::MpipNotFound);
        }
        let k = mpip_id as usize;
        let finished = match self.proposals[k].vote_end_timestamp {
            Some(end) => now > end,
            None => false,
        };
        if !finished {
            return Err(MpipError::VotingNotFinished);
        }
        let vp = match self.votes[k].has_voted.get(caller) {
            Some(v) => v.voting_power,
            None => return Err(MpipError::NotVoted),
        };
        let used: u128 = match self.voters.get(caller) {
            Some(v) => v.used_voting_power,
            None => 0,
        };
        if used < vp || used - vp < vp {
            return Err(MpipError::Overflow);
        }
        let mut voter = self.take_voter(caller);
        voter.used_voting_power = voter.used_voting_power - vp;
        voter.remove_vote(mpip_id);
        voter.used_voting_power = voter.used_voting_power - vp;
        if voter.votes.len() == 0 {
            self.drop_voter(caller);
        } else {
            self.store_voter(caller, voter);
        }
        proof {
            assert(self.voters@.remove(caller@) =~= old(self).voters@.remove(caller@));
        }
        Ok(())
    }

    /// Marks `mpip_id` executed when its vote ends at `now` with the quorum
    /// reached (operator or admin); nothing happens outside its voting period.
    pub fn process_voting_status(&mut self, signer: &String, mpip_id: u32, now: u64) -> (r: Result<(), MpipError>)
        requires
            old(self).wf(),
        ensures
            final(self).wf(),
            !(signer@ == old(self).admin_id@ || signer@ == old(self).operator_id@) ==> r == Err::<(), MpipError>(MpipError::OnlyOperatorOrAdmin),
            (signer@ == old(self).admin_id@ || signer@ == old(self).operator_id@) ==> ({
                &&& mpip_id >= old(self).proposals@.len() ==> r == Err::<(), MpipError>(MpipError::MpipNotFound)
                &&& mpip_id < old(self).proposals@.len() ==> ({
                    let p = old(self).proposal(mpip_id);
                    let pv = old(self).votes@[mpip_id as int];
                    let ends = spec_on_voting(p, now) && now >= p.vote_end_timestamp.unwrap();
                    &&& !ends ==> r is Ok && *final(self) == *old(self)
                    &&& ends && p.v_power_quorum_to_reach is None ==> r == Err::<(), MpipError>(MpipError::QuorumNotSet)
                    &&& ends && p.v_power_quorum_to_reach is Some && pv.for_votes + pv.abstain_votes > u128::MAX ==> r == Err::<(), MpipError>(MpipError::Overflow)
                    &&& ends && p.v_power_quorum_to_reach is Some && pv.for_votes + pv.abstain_votes <= u128::MAX ==> r is Ok && (
                        spec_quorum_reached(p, pv) ==> final(self).proposals@ == old(self).proposals@.update(mpip_id as int, Mpip { executed: true, ..p })
                            && *final(self) == (MpipContract { proposals: final(self).proposals, ..*old(self) }))
                        && (!spec_quorum_reached(p, pv) ==> *final(self) == *old(self))
                })
            }),
            r is Err ==> *final(self) == *old(self),
    {
        self.assert_only_operator(signer)?;
        if mpip_id as usize >= self.proposals.len() {
            return Err(MpipError::MpipNotFound);
        }
        let k = mpip_id as usize;
        if !self.proposals[k].is_on_voting(now) {
            return Ok(());
        }
        let end = match self.proposals[k].vote_end_timestamp {
            Some(e) => e,
            None => return Ok(()),
        };
        if now >= end {
            if self.is_quorum_reached(mpip_id)? {
                let p = self.proposals.remove(k);
                self.proposals.insert(k, Mpip { executed: true, ..p });
                assert(self.proposals@ =~= old(self).proposals@.update(k as int, self.proposals@[k as int]));
            }
        }
        Ok(())
    }

    /// The vote of `voter_id` on `mpip_id`, if it has voted.
    pub fn get_my_vote(&self, voter_id: &String, mpip_id: u32) -> (r: Option<VoteJson>)
        requires
            self.wf(),
        ensures
            r is Some <==> mpip_id < self.votes@.len() && self.votes@[mpip_id as int].has_voted@.contains_key(voter_id@),
            r matches Some(j) ==> ({
                let v = vote_of(*self, mpip_id, voter_id@);
                &&& j.voter_id == *voter_id
                &&& j.mpip_id == v.mpip_id
                &&& j.vote_type == v.vote_type
                &&& j.voting_power == v.voting_power
                &&& j.memo == v.memo
            }),
    {
        if mpip_id as usize >= self.votes.len() {
            return None;
        }
        match self.votes[mpip_id as usize].has_voted.get(voter_id) {
            Some(v) => Some(v.to_json(voter_id)),
            None => None,
        }
    }

    /// The votes and used voting power of `voter_id` (none without a record).
    pub fn get_voter(&self, voter_id: &String) -> (r: MpipVoterJson)
        requires
            self.wf(),
        ensures
            r.voter_id == *voter_id,
            r.used_voting_power == voter_or_new(*self, voter_id@).1,
            r.votes@.len() == voter_or_new(*self, voter_id@).0.len(),
            forall|k: int| 0 <= k < r.votes@.len() ==> {
                let j = #[trigger] r.votes@[k];
                let v = voter_or_new(*self, voter_id@).0[k];
                &&& j.voter_id == *voter_id
                &&& j.mpip_id == v.mpip_id
                &&& j.vote_type == v.vote_type
                &&& j.voting_power == v.voting_power
                &&& j.memo == v.memo
            },
    {
        match self.voters.get(voter_id) {
            Some(v) => v.to_json(voter_id),
            None => MpipVoter::new().to_json(voter_id),
        }
    }

    /// The voting power that `voter_id` uses in votes.
    pub fn get_voter_used_voting_power(&self, voter_id: &String) -> (r: u128)
        requires
            self.wf(),
        ensures
            r == voter_or_new(*self, voter_id@).1,
    {
        match self.voters.get(voter_id) {
            Some(v) => v.used_voting_power,
            None => 0,
        }
    }
}


/// Against votes never count toward the quorum: the quorum of a proposal is
/// reached exactly when the voting power for it and the abstentions together
/// reach the proposal's quorum, so two vote counts that differ only in their
/// against votes reach it alike.
pub proof fn law_quorum_ignores_against_votes(p: Mpip, pv: ProposalVote, pv2: ProposalVote)
    requires
        p.v_power_quorum_to_reach is Some,
        pv2.for_votes == pv.for_votes,
        pv2.abstain_votes == pv.abstain_votes,
    ensures
        spec_quorum_reached(p, pv) <==> p.v_power_quorum_to_reach.unwrap() <= pv.for_votes + pv.abstain_votes,
        spec_quorum_reached(p, pv2) == spec_quorum_reached(p, pv),
{
}

/// A proposal past its vote is accepted only when its quorum is reached and
/// strictly more voting power is for it than against it; abstentions count
/// toward the quorum but never toward acceptance. Otherwise it is rejected.
pub proof fn law_accepted_needs_more_for_than_against(p: Mpip, pv: ProposalVote, now: u64)
    requires
        p.v_power_quorum_to_reach is Some,
    ensures
        spec_state(p, pv, now) == MpipState::Accepted ==> pv.for_votes > pv.against_votes
            && p.v_power_quorum_to_reach.unwrap() <= pv.for_votes + pv.abstain_votes,
        pv.for_votes <= pv.against_votes ==> spec_state(p, pv, now) != MpipState::Accepted,
        !p.executed && !p.canceled && !p.draft && !spec_on_voting(p, now) && !spec_active(p, now) ==> (
            spec_state(p, pv, now) == MpipState::Accepted || spec_state(p, pv, now) == MpipState::Rejected),
        !p.executed && !p.canceled && !p.draft && !spec_on_voting(p, now) && !spec_active(p, now)
            && pv.for_votes > pv.against_votes && p.v_power_quorum_to_reach.unwrap() <= pv.for_votes + pv.abstain_votes
            ==> spec_state(p, pv, now) == MpipState::Accepted,
{
}

/// A vote is accepted only within the voter's voting power: what the voter
/// already uses plus the new vote fits in the voting power of its positions,
/// so after the vote its used voting power is at most that voting power.
pub proof fn law_vote_fits_voting_power(c: MpipContract, c2: MpipContract, mpip_id: u32, voting_power: u128, voter: Seq<char>, vote: Vote, vps: Seq<u128>)
    requires
        vote_callback_error(c, mpip_id, voting_power, voter, vote.vote_type, Some(vps)) is None,
        vote_cast(c, c2, mpip_id, voting_power, voter, vote),
    ensures
        voter_or_new(c, voter).1 + voting_power <= sum_u128(vps),
        c2.voters@[voter].used_voting_power <= sum_u128(vps),
{
}

/// A vote is refused for want of voting power exactly when what the voter
/// already uses plus the new vote exceeds the voting power of its positions.
pub proof fn law_not_enough_voting_power(c: MpipContract, mpip_id: u32, voting_power: u128, voter: Seq<char>, vote_type: VoteType, vps: Seq<u128>)
    ensures
        vote_callback_error(c, mpip_id, voting_power, voter, vote_type, Some(vps)) == Some(MpipError::NotEnoughVotingPower)
            ==> voter_or_new(c, voter).1 + voting_power > sum_u128(vps),
        sum_u128(vps) <= u128::MAX && voter_or_new(c, voter).1 + voting_power <= u128::MAX
            && voter_or_new(c, voter).1 + voting_power > sum_u128(vps)
            ==> vote_callback_error(c, mpip_id, voting_power, voter, vote_type, Some(vps)) == Some(MpipError::NotEnoughVotingPower),
{
}

/// Two votes of one voter share its voting power: where the second vote is
/// accepted after the first, with the same positions, the two together and
/// what the voter used before fit in the positions' voting power.
pub proof fn law_votes_share_voting_power(
    c0: MpipContract,
    c1: MpipContract,
    c2: MpipContract,
    id0: u32,
    id1: u32,
    vp0: u128,
    vp1: u128,
    voter: Seq<char>,
    v0: Vote,
    v1: Vote,
    vps: Seq<u128>,
)
    requires
        vote_callback_error(c0, id0, vp0, voter, v0.vote_type, Some(vps)) is None,
        vote_cast(c0, c1, id0, vp0, voter, v0),
        vote_callback_error(c1, id1, vp1, voter, v1.vote_type, Some(vps)) is None,
        vote_cast(c1, c2, id1, vp1, voter, v1),
    ensures
        voter_or_new(c0, voter).1 + vp0 + vp1 <= sum_u128(vps),
        c2.voters@[voter].used_voting_power == voter_or_new(c0, voter).1 + vp0 + vp1,
{
    assert(c1.voters@.contains_key(voter));
}

/// A vote is removed only while its proposal is in its voting period: the
/// vote has started, its end is set and not passed, and the proposal is not
/// a draft, canceled or executed. After the end the removal is refused.
pub proof fn law_remove_vote_only_while_voting(c: MpipContract, caller: Seq<char>, mpip_id: u32, now: u64)
    ensures
        remove_vote_error(c, caller, mpip_id, now) is None ==> ({
            let p = c.proposals@[mpip_id as int];
            &&& mpip_id < c.proposals@.len()
            &&& p.vote_start_timestamp matches Some(start) && start <= now
            &&& p.vote_end_timestamp matches Some(end) && now <= end
            &&& !p.draft && !p.canceled && !p.executed
        }),
        mpip_id < c.proposals@.len() && (c.proposals@[mpip_id as int].vote_end_timestamp matches Some(end) && now > end)
            ==> remove_vote_error(c, caller, mpip_id, now) is Some,
        mpip_id < c.proposals@.len() && !({
            let p = c.proposals@[mpip_id as int];
            &&& p.vote_start_timestamp matches Some(start) && start <= now
            &&& p.vote_end_timestamp matches Some(end) && now <= end
            &&& !p.draft && !p.canceled && !p.executed
        }) ==> remove_vote_error(c, caller, mpip_id, now) == Some(MpipError::NotOnVoting),
{
}

} // verus!
