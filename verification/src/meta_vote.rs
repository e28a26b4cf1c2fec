//! The Meta Vote contract: voters bond mpDAO for an unbond period and receive
//! voting power, which they give to objects of other contracts.
//!
//! Every method takes the account that calls it and, where it matters, the
//! current time in milliseconds and the attached deposit in yoctoNEAR. A
//! method that the contract would abort returns an error and leaves the state
//! as it was.
pub mod locking;
pub mod relock;
pub mod voting;
pub mod deposit;
pub mod withdraw;
pub mod evm_delegate;
pub mod migration;
pub mod mirror;
pub mod view;

use vstd::prelude::*;
use crate::str_map::StrMap;
use crate::seq_sum::{sum_of, sum_u128, lemma_sum_update, lemma_sum_push, lemma_sum_swap_remove, lemma_sum_empty};
use crate::voter::{Voter, VotePositions, locked_voting_power, votes_wf, votes_at};

verus! {

/// Why a call is refused.
#[derive(Debug, Clone, Copy, PartialEq, Eq, Structural)]
pub enum MetaVoteError {
    /// The minimum unbond period is not below the maximum.
    InvalidUnbondPeriods,
    /// The call must attach exactly one yoctoNEAR.
    RequiresOneYocto,
    /// Only the owner may call this.
    OnlyOwner,
    /// Only the operator may call this.
    OnlyOperator,
    /// Only the previous governance contract may call this.
    OnlyPrevGovContract,
    /// The attached deposit is not the registration cost.
    WrongRegistrationCost,
    /// The account has no voter record.
    VoterNotFound,
    /// The account has no associated data.
    AccountDataNotFound,
    /// The amount is below the minimum deposit.
    BelowMinDeposit,
    /// The amount is below one mpDAO.
    BelowOneMpdao,
    /// The account cannot claim that much.
    NotEnoughClaimable,
    /// No locking position has that index.
    IndexOutOfRange,
    /// Not enough free voting power.
    NotEnoughVotingPower,
    /// The amount is larger than the position.
    AmountTooLarge,
    /// A position would hold less than the minimum deposit.
    PositionBelowMinimum,
    /// The voting-power formula is not defined on these inputs.
    VotingPowerUndefined,
    /// The position is not locked.
    PositionNotLocked,
    /// The new unbond period is not greater than the current one.
    PeriodNotGreater,
    /// Not enough free balance.
    NotEnoughBalance,
    /// A locked position cannot be re-locked.
    PositionIsLocked,
    /// The new period must be longer than what remains of the unbond period
    /// (the whole days that remain are given).
    PeriodTooShort(u16),
    /// The position holds less than the amount to re-lock.
    PositionAmountNotEnough,
    /// Re-locking everything: use the call that re-locks a whole position.
    UseRelockPosition,
    /// The unbond period is outside the allowed range.
    UnbondPeriodOutOfRange,
    /// The voter has the maximum number of locking positions.
    TooManyLockingPositions,
    /// A locked position for that period already exists.
    LockedPositionExists,
    /// The list of indexes is empty.
    EmptyIndexList,
    /// There is nothing to withdraw.
    NothingToWithdraw,
    /// The voter has too many voting positions.
    TooManyVotingPositions,
    /// The voter has no votes for that object.
    NoVotesForObject,
    /// The new voting power equals the current one.
    SameVotingPower,
    /// Votes for that object cannot be removed before the given time (ms).
    VotesLocked(u64),
    /// The contract's totals for that object are smaller than what is removed.
    TotalVotesTooSmall,
    /// The contract has no total for that object.
    NoTotalsForObject,
    /// Tokens other than mpDAO cannot be bonded.
    WrongToken,
    /// Only the owner can bond for another account.
    OnlyOwnerDepositsForOthers,
    /// The message of a claims distribution does not parse.
    BadClaimsMessage,
    /// The message of a deposit for another account does not parse.
    BadDepositMessage,
    /// The message is not a number of days.
    BadDaysMessage,
    /// The message cannot be cut at the needed byte.
    MessageNotCharBoundary,
    /// Tokens from that contract cannot be distributed.
    UnknownToken,
    /// The distributed total is not the amount sent.
    DistributionMismatch,
    /// A distributed amount is zero.
    ZeroClaim,
    /// An amount or a total does not fit in 128 bits.
    Overflow,
    /// EVM addresses cannot contain dots.
    EvmAddressWithDot,
    /// The EVM address is not delegated.
    NotDelegated,
    /// The EVM address is delegated to another account.
    NotDelegatedToCaller,
    /// The starting index is past the end.
    FromIndexOutOfRange,
    /// The account that an EVM address is delegated to has no list of addresses.
    MissingDelegateList,
}

/// A transfer of fungible tokens that the contract asks for; its result is
/// reported back through the matching callback, with `source` and `amount`.
#[derive(Debug, PartialEq, Eq)]
pub struct TokenTransfer {
    /// The token contract.
    pub token: String,
    pub receiver: String,
    pub amount: u128,
    /// The account that gets the amount back if the transfer fails.
    pub source: String,
}

/// The state of the contract.
pub struct MetaVoteContract {
    pub owner_id: String,
    pub operator_id: String,
    pub voters: StrMap<Voter>,
    /// Contract address -> votable object id -> votes of all voters.
    pub votes: StrMap<StrMap<u128>>,
    pub min_unbond_period: u16,
    pub max_unbond_period: u16,
    pub min_deposit_amount: u128,
    pub max_locking_positions: u8,
    pub max_voting_positions: u8,
    pub mpdao_token_contract_address: String,
    pub total_voting_power: u128,
    pub claimable_mpdao: StrMap<u128>,
    pub accumulated_mpdao_distributed_for_claims: u128,
    pub total_unclaimed_mpdao: u128,
    pub stnear_token_contract_address: String,
    pub claimable_stnear: StrMap<u128>,
    pub accum_distributed_stnear_for_claims: u128,
    pub total_unclaimed_stnear: u128,
    pub registration_cost: u128,
    pub associated_user_data: StrMap<String>,
    pub prev_governance_contract: String,
    pub evm_delegates: StrMap<Vec<String>>,
    pub evm_pre_delegation: StrMap<(String, String)>,
    pub evm_delegation_signatures: StrMap<(String, String)>,
    pub lock_votes_in_end_timestamp_ms: u64,
    pub lock_votes_in_address: Option<String>,
    pub lock_votes_in_numeric_id: u16,
}

pub open spec fn voter_vp_fn() -> spec_fn(Voter) -> int {
    |v: Voter| locked_voting_power(v.locking_positions@)
}

/// Voting power of the locked positions of all voters.
pub open spec fn sum_voter_vp(voters: Seq<Voter>) -> int {
    sum_of(voters, voter_vp_fn())
}

/// Every voter's free plus given voting power equals the voting power of its
/// locked positions.
pub open spec fn all_balanced(voters: Seq<Voter>) -> bool {
    forall|i: int| 0 <= i < voters.len() ==> (#[trigger] voters[i]).vp_balanced()
}

/// Every voter record is well formed.
pub open spec fn all_voters_wf(voters: Seq<Voter>) -> bool {
    forall|i: int| 0 <= i < voters.len() ==> (#[trigger] voters[i]).wf()
}

/// Replacing one voter: how the totals over all voters change.
pub proof fn lemma_replace_voter(vals: Seq<Voter>, i: int, v: Voter)
    requires
        0 <= i < vals.len(),
    ensures
        sum_voter_vp(vals.update(i, v)) == sum_voter_vp(vals) - locked_voting_power(
            vals[i].locking_positions@,
        ) + locked_voting_power(v.locking_positions@),
        all_balanced(vals) && v.vp_balanced() ==> all_balanced(vals.update(i, v)),
        all_voters_wf(vals) && v.wf() ==> all_voters_wf(vals.update(i, v)),
{
    lemma_sum_update(vals, i, v, voter_vp_fn());
}

/// Every voter's locked voting power is nonnegative.
pub proof fn lemma_voters_vp_nonneg(vals: Seq<Voter>)
    ensures
        forall|j: int| 0 <= j < vals.len() ==> voter_vp_fn()(#[trigger] vals[j]) >= 0,
        sum_voter_vp(vals) >= 0,
{
    assert forall|j: int| 0 <= j < vals.len() implies voter_vp_fn()(#[trigger] vals[j]) >= 0 by {
        crate::seq_sum::lemma_sum_nonneg(vals[j].locking_positions@, crate::voter::locked_vp_fn());
    }
    crate::seq_sum::lemma_sum_nonneg(vals, voter_vp_fn());
}

/// Adding a voter at the end: how the totals over all voters change.
pub proof fn lemma_push_voter(vals: Seq<Voter>, v: Voter)
    ensures
        sum_voter_vp(vals.push(v)) == sum_voter_vp(vals) + locked_voting_power(
            v.locking_positions@,
        ),
        all_balanced(vals) && v.vp_balanced() ==> all_balanced(vals.push(v)),
        all_voters_wf(vals) && v.wf() ==> all_voters_wf(vals.push(v)),
{
    lemma_sum_push(vals, v, voter_vp_fn());
    if all_balanced(vals) && v.vp_balanced() {
        assert forall|i: int| 0 <= i < vals.push(v).len() implies (#[trigger] vals.push(v)[i]).vp_balanced() by {
            if i < vals.len() {
                assert(vals.push(v)[i] == vals[i]);
            }
        }
    }
    if all_voters_wf(vals) && v.wf() {
        assert forall|i: int| 0 <= i < vals.push(v).len() implies (#[trigger] vals.push(v)[i]).wf() by {
            if i < vals.len() {
                assert(vals.push(v)[i] == vals[i]);
            }
        }
    }
}

/// Removing a voter (the last one takes its place): how the totals change.
pub proof fn lemma_swap_remove_voter(vals: Seq<Voter>, i: int)
    requires
        0 <= i < vals.len(),
    ensures
        sum_voter_vp(vals.update(i, vals.last()).drop_last()) == sum_voter_vp(vals)
            - locked_voting_power(vals[i].locking_positions@),
        all_balanced(vals) ==> all_balanced(vals.update(i, vals.last()).drop_last()),
        all_voters_wf(vals) ==> all_voters_wf(vals.update(i, vals.last()).drop_last()),
{
    lemma_sum_swap_remove(vals, i, voter_vp_fn());
    let r = vals.update(i, vals.last()).drop_last();
    assert forall|j: int| 0 <= j < r.len() implies #[trigger] r[j] == vals[j] || r[j] == vals.last() by {
        if j == i {
        }
    }
}

/// What an account can claim from a claims map (zero where it has no entry).
pub open spec fn claimable_of(m: StrMap<u128>, account: Seq<char>) -> int {
    if m@.contains_key(account) {
        m@[account] as int
    } else {
        0
    }
}

/// The claims map after adding `amount` for `account`.
pub open spec fn claims_added(m: StrMap<u128>, account: Seq<char>, amount: u128) -> Map<Seq<char>, u128> {
    m@.insert(account, (claimable_of(m, account) + amount) as u128)
}

/// The claims map after removing `amount` from `account` (an entry that
/// reaches zero is removed).
pub open spec fn claims_removed(m: StrMap<u128>, account: Seq<char>, amount: u128) -> Map<Seq<char>, u128> {
    if claimable_of(m, account) - amount == 0 {
        m@.remove(account)
    } else {
        m@.insert(account, (claimable_of(m, account) - amount) as u128)
    }
}

proof fn lemma_claim_sum_insert(m: StrMap<u128>, nm: StrMap<u128>, account: Seq<char>, v: u128)
    requires
        m.wf(),
        old_new_insert(m, nm, account, v),
    ensures
        sum_u128(nm.vals@) == sum_u128(m.vals@) - claimable_of(m, account) + v,
{
    if m.has(account) {
        m.lemma_has_index(account);
        m.lemma_index(m.key_seq().index_of(account));
        lemma_sum_update(m.vals@, m.key_seq().index_of(account), v, |x: u128| x as int);
    } else {
        lemma_sum_push(m.vals@, v, |x: u128| x as int);
    }
}

/// `nm` is `m` after `insert(account, v)`.
pub open spec fn old_new_insert(m: StrMap<u128>, nm: StrMap<u128>, account: Seq<char>, v: u128) -> bool {
    &&& m.has(account) ==> nm.vals@ == m.vals@.update(m.key_seq().index_of(account), v)
    &&& !m.has(account) ==> nm.vals@ == m.vals@.push(v)
}

/// Adds `amount` to what `account` can claim and to the unclaimed total.
/// Refused for a zero amount or where a sum overflows.
pub(crate) fn claim_add(m: &mut StrMap<u128>, total: &mut u128, account: &String, amount: u128) -> (r: Result<(), MetaVoteError>)
    requires
        old(m).wf(),
    ensures
        final(m).wf(),
        r == (if amount == 0 {
            Err(MetaVoteError::ZeroClaim)
        } else if claimable_of(*old(m), account@) + amount > u128::MAX || *old(total) + amount > u128::MAX {
            Err(MetaVoteError::Overflow)
        } else {
            Ok(())
        }),
        r is Err ==> *final(m) == *old(m) && *final(total) == *old(total),
        r is Ok ==> final(m)@ == claims_added(*old(m), account@, amount) && *final(total) == *old(total) + amount,
        r is Ok ==> sum_u128(final(m).vals@) == sum_u128(old(m).vals@) + amount,
{
    if amount == 0 {
        return Err(MetaVoteError::ZeroClaim);
    }
    let current: u128 = match m.get(account) {
        Some(v) => *v,
        None => 0,
    };
    let next = match current.checked_add(amount) {
        Some(v) => v,
        None => return Err(MetaVoteError::Overflow),
    };
    let new_total = match total.checked_add(amount) {
        Some(v) => v,
        None => return Err(MetaVoteError::Overflow),
    };
    let ghost m0 = *m;
    m.insert(account, next);
    proof {
        lemma_claim_sum_insert(m0, *m, account@, next);
    }
    *total = new_total;
    Ok(())
}

/// Removes `amount` from what `account` can claim and from the unclaimed
/// total; an entry that reaches zero is removed.
pub(crate) fn claim_remove(m: &mut StrMap<u128>, total: &mut u128, account: &String, amount: u128) -> (r: Result<(), MetaVoteError>)
    requires
        old(m).wf(),
    ensures
        final(m).wf(),
        r == (if claimable_of(*old(m), account@) < amount {
            Err(MetaVoteError::NotEnoughClaimable)
        } else if *old(total) < amount {
            Err(MetaVoteError::Overflow)
        } else {
            Ok(())
        }),
        r is Err ==> *final(m) == *old(m) && *final(total) == *old(total),
        r is Ok ==> final(m)@ == claims_removed(*old(m), account@, amount) && *final(total) == *old(total) - amount,
        r is Ok ==> sum_u128(final(m).vals@) == sum_u128(old(m).vals@) - amount,
{
    let current: u128 = match m.get(account) {
        Some(v) => *v,
        None => 0,
    };
    if current < amount {
        return Err(MetaVoteError::NotEnoughClaimable);
    }
    if *total < amount {
        return Err(MetaVoteError::Overflow);
    }
    let after = current - amount;
    let ghost m0 = *m;
    if after == 0 {
        m.remove(account);
        proof {
            if m0.has(account@) {
                m0.lemma_has_index(account@);
                m0.lemma_index(m0.key_seq().index_of(account@));
                lemma_sum_swap_remove(m0.vals@, m0.key_seq().index_of(account@), |x: u128| x as int);
            }
        }
    } else {
        m.insert(account, after);
        proof {
            lemma_claim_sum_insert(m0, *m, account@, after);
        }
    }
    *total = *total - amount;
    Ok(())
}

impl MetaVoteContract {
    /// `new` differs from `self` at most in the record of voter `id` and in the
    /// given fields.
    pub open spec fn voter_replaced(&self, new: &Self, id: Seq<char>) -> bool {
        self.voters.only_changed_at(new.voters, self.voter_index(id))
    }

    /// The maps are well formed and so is every voter record.
    pub open spec fn wf(&self) -> bool {
        &&& self.voters.wf()
        &&& all_voters_wf(self.voters.vals@)
        &&& votes_wf(self.votes)
        &&& self.claimable_mpdao.wf()
        &&& self.claimable_stnear.wf()
        &&& self.associated_user_data.wf()
        &&& self.evm_delegates.wf()
        &&& self.evm_pre_delegation.wf()
        &&& self.evm_delegation_signatures.wf()
    }

    /// The contract's total voting power is the voting power of all locked positions.
    pub open spec fn vp_accounted(&self) -> bool {
        self.total_voting_power == sum_voter_vp(self.voters.vals@)
    }

    /// Each voter's voting power is either free or given to an object.
    pub open spec fn voters_balanced(&self) -> bool {
        all_balanced(self.voters.vals@)
    }

    /// The unclaimed totals are the sums of what each account can claim.
    pub open spec fn claims_accounted(&self) -> bool {
        &&& self.total_unclaimed_mpdao == sum_u128(self.claimable_mpdao.vals@)
        &&& self.total_unclaimed_stnear == sum_u128(self.claimable_stnear.vals@)
    }

    /// The voter record of an account.
    pub open spec fn voter(&self, id: Seq<char>) -> Voter {
        self.voters@[id]
    }

    /// The position of an account's record.
    pub open spec fn voter_index(&self, id: Seq<char>) -> int {
        self.voters.key_seq().index_of(id)
    }

    /// Creates the contract.
    pub fn new(
        owner_id: String,
        operator_id: String,
        min_unbond_period: u16,
        max_unbond_period: u16,
        min_deposit_amount: u128,
        max_locking_positions: u8,
        max_voting_positions: u8,
        mpdao_token_contract_address: String,
        stnear_token_contract_address: String,
        registration_cost: u128,
        prev_governance_contract: String,
    ) -> (r: Result<Self, MetaVoteError>)
        ensures
            r is Ok <==> min_unbond_period < max_unbond_period,
            r matches Err(e) ==> e == MetaVoteError::InvalidUnbondPeriods,
            r matches Ok(c) ==> {
                &&& c.wf()
                &&& c.vp_accounted()
                &&& c.voters_balanced()
                &&& c.claims_accounted()
                &&& c.votes_accounted()
                &&& c.delegations_consistent()
                &&& c.owner_id == owner_id
                &&& c.operator_id == operator_id
                &&& c.min_unbond_period == min_unbond_period
                &&& c.max_unbond_period == max_unbond_period
                &&& c.min_deposit_amount == min_deposit_amount
                &&& c.max_locking_positions == max_locking_positions
                &&& c.max_voting_positions == max_voting_positions
                &&& c.mpdao_token_contract_address == mpdao_token_contract_address
                &&& c.stnear_token_contract_address == stnear_token_contract_address
                &&& c.registration_cost == registration_cost
                &&& c.prev_governance_contract == prev_governance_contract
                &&& c.voters@ == Map::<Seq<char>, Voter>::empty()
                &&& c.voters.keys@.len() == 0
                &&& c.votes.keys@.len() == 0
                &&& c.claimable_mpdao.keys@.len() == 0
                &&& c.claimable_stnear.keys@.len() == 0
                &&& c.associated_user_data.keys@.len() == 0
                &&& c.evm_delegates.keys@.len() == 0
                &&& c.evm_pre_delegation.keys@.len() == 0
                &&& c.evm_delegation_signatures.keys@.len() == 0
                &&& c.total_voting_power == 0
                &&& c.accumulated_mpdao_distributed_for_claims == 0
                &&& c.total_unclaimed_mpdao == 0
                &&& c.accum_distributed_stnear_for_claims == 0
                &&& c.total_unclaimed_stnear == 0
                &&& c.lock_votes_in_end_timestamp_ms == 0
                &&& c.lock_votes_in_address is None
                &&& c.lock_votes_in_numeric_id == 0
            },
    {
        if min_unbond_period >= max_unbond_period {
            return Err(MetaVoteError::InvalidUnbondPeriods);
        }
        let c = MetaVoteContract {
            owner_id,
            operator_id,
            voters: StrMap::new(),
            votes: StrMap::new(),
            min_unbond_period,
            max_unbond_period,
            min_deposit_amount,
            max_locking_positions,
            max_voting_positions,
            mpdao_token_contract_address,
            total_voting_power: 0,
            claimable_mpdao: StrMap::new(),
            accumulated_mpdao_distributed_for_claims: 0,
            total_unclaimed_mpdao: 0,
            stnear_token_contract_address,
            claimable_stnear: StrMap::new(),
            accum_distributed_stnear_for_claims: 0,
            total_unclaimed_stnear: 0,
            registration_cost,
            associated_user_data: StrMap::new(),
            prev_governance_contract,
            evm_delegates: StrMap::new(),
            evm_pre_delegation: StrMap::new(),
            evm_delegation_signatures: StrMap::new(),
            lock_votes_in_end_timestamp_ms: 0,
            lock_votes_in_address: None,
            lock_votes_in_numeric_id: 0,
        };
        proof {
            assert forall|a: Seq<char>, o: Seq<char>|
                #[trigger] votes_at(c.votes, a, o) == sum_of(c.voters.vals@, crate::meta_vote::voting::voter_votes_fn(a, o)) by {
                lemma_sum_empty(c.voters.vals@, crate::meta_vote::voting::voter_votes_fn(a, o));
            }
            assert forall|a: Seq<char>, e: Seq<char>|
                #[trigger] crate::meta_vote::evm_delegate::delegated_to(crate::meta_vote::evm_delegate::delegates_view(c.evm_delegates), a).contains(e)
                <==> (crate::meta_vote::evm_delegate::pairs_map_view(c.evm_delegation_signatures).contains_key(e)
                    && crate::meta_vote::evm_delegate::pairs_map_view(c.evm_delegation_signatures)[e].0 == a) by {}
        }
        Ok(c)
    }

    /// Refuses callers other than the owner.
    pub(crate) fn assert_only_owner(&self, caller: &String) -> (r: Result<(), MetaVoteError>)
        ensures
            r is Ok <==> caller@ == self.owner_id@,
            r matches Err(e) ==> e == MetaVoteError::OnlyOwner,
    {
        if *caller == self.owner_id {
            Ok(())
        } else {
            Err(MetaVoteError::OnlyOwner)
        }
    }

    /// Refuses callers other than the operator.
    pub(crate) fn assert_operator(&self, caller: &String) -> (r: Result<(), MetaVoteError>)
        ensures
            r is Ok <==> caller@ == self.operator_id@,
            r matches Err(e) ==> e == MetaVoteError::OnlyOperator,
    {
        if *caller == self.operator_id {
            Ok(())
        } else {
            Err(MetaVoteError::OnlyOperator)
        }
    }

    /// Refuses an owner call that does not attach exactly one yoctoNEAR or
    /// does not come from the owner.
    fn owner_call_check(&self, caller: &String, attached_deposit: u128) -> (r: Result<
        (),
        MetaVoteError,
    >)
        ensures
            r is Ok <==> attached_deposit == 1 && caller@ == self.owner_id@,
            attached_deposit != 1 ==> r == Err::<(), MetaVoteError>(MetaVoteError::RequiresOneYocto),
            attached_deposit == 1 && caller@ != self.owner_id@ ==> r == Err::<(), MetaVoteError>(
                MetaVoteError::OnlyOwner,
            ),
    {
        if attached_deposit != 1 {
            return Err(MetaVoteError::RequiresOneYocto);
        }
        self.assert_only_owner(caller)
    }

    /// Sets the stNEAR token contract (owner, one yoctoNEAR).
    pub fn set_stnear_contract(&mut self, caller: &String, attached_deposit: u128, stnear_contract: String) -> (r: Result<(), MetaVoteError>)
        ensures
            r is Ok <==> attached_deposit == 1 && caller@ == old(self).owner_id@,
            attached_deposit != 1 ==> r == Err::<(), MetaVoteError>(MetaVoteError::RequiresOneYocto),
            attached_deposit == 1 && caller@ != old(self).owner_id@ ==> r == Err::<(), MetaVoteError>(MetaVoteError::OnlyOwner),
            r is Ok ==> *final(self) == (MetaVoteContract { stnear_token_contract_address: stnear_contract, ..*old(self) }),
            r is Err ==> *final(self) == *old(self),
    {
        self.owner_call_check(caller, attached_deposit)?;
        self.stnear_token_contract_address = stnear_contract;
        Ok(())
    }

    /// Sets the operator (owner, one yoctoNEAR).
    pub fn set_operator_id(&mut self, caller: &String, attached_deposit: u128, operator_id: String) -> (r: Result<(), MetaVoteError>)
        ensures
            r is Ok <==> attached_deposit == 1 && caller@ == old(self).owner_id@,
            attached_deposit != 1 ==> r == Err::<(), MetaVoteError>(MetaVoteError::RequiresOneYocto),
            attached_deposit == 1 && caller@ != old(self).owner_id@ ==> r == Err::<(), MetaVoteError>(MetaVoteError::OnlyOwner),
            r is Ok ==> *final(self) == (MetaVoteContract { operator_id: operator_id, ..*old(self) }),
            r is Err ==> *final(self) == *old(self),
    {
        self.owner_call_check(caller, attached_deposit)?;
        self.operator_id = operator_id;
        Ok(())
    }

    /// Sets the owner (owner, one yoctoNEAR).
    pub fn set_owner_id(&mut self, caller: &String, attached_deposit: u128, owner_id: String) -> (r: Result<(), MetaVoteError>)
        ensures
            r is Ok <==> attached_deposit == 1 && caller@ == old(self).owner_id@,
            attached_deposit != 1 ==> r == Err::<(), MetaVoteError>(MetaVoteError::RequiresOneYocto),
            attached_deposit == 1 && caller@ != old(self).owner_id@ ==> r == Err::<(), MetaVoteError>(MetaVoteError::OnlyOwner),
            r is Ok ==> *final(self) == (MetaVoteContract { owner_id: owner_id, ..*old(self) }),
            r is Err ==> *final(self) == *old(self),
    {
        self.owner_call_check(caller, attached_deposit)?;
        self.owner_id = owner_id;
        Ok(())
    }

    /// Sets the minimum unbond period (owner, one yoctoNEAR).
    pub fn update_min_unbond_period(&mut self, caller: &String, attached_deposit: u128, new_min_unbond_period: u16) -> (r: Result<(), MetaVoteError>)
        ensures
            r is Ok <==> attached_deposit == 1 && caller@ == old(self).owner_id@,
            attached_deposit != 1 ==> r == Err::<(), MetaVoteError>(MetaVoteError::RequiresOneYocto),
            attached_deposit == 1 && caller@ != old(self).owner_id@ ==> r == Err::<(), MetaVoteError>(MetaVoteError::OnlyOwner),
            r is Ok ==> *final(self) == (MetaVoteContract { min_unbond_period: new_min_unbond_period, ..*old(self) }),
            r is Err ==> *final(self) == *old(self),
    {
        self.owner_call_check(caller, attached_deposit)?;
        self.min_unbond_period = new_min_unbond_period;
        Ok(())
    }

    /// Sets the maximum unbond period (owner, one yoctoNEAR).
    pub fn update_max_unbond_period(&mut self, caller: &String, attached_deposit: u128, new_max_unbond_period: u16) -> (r: Result<(), MetaVoteError>)
        ensures
            r is Ok <==> attached_deposit == 1 && caller@ == old(self).owner_id@,
            attached_deposit != 1 ==> r == Err::<(), MetaVoteError>(MetaVoteError::RequiresOneYocto),
            attached_deposit == 1 && caller@ != old(self).owner_id@ ==> r == Err::<(), MetaVoteError>(MetaVoteError::OnlyOwner),
            r is Ok ==> *final(self) == (MetaVoteContract { max_unbond_period: new_max_unbond_period, ..*old(self) }),
            r is Err ==> *final(self) == *old(self),
    {
        self.owner_call_check(caller, attached_deposit)?;
        self.max_unbond_period = new_max_unbond_period;
        Ok(())
    }

    /// Sets the previous governance contract (owner, one yoctoNEAR).
    pub fn set_prev_gov_contract(&mut self, caller: &String, attached_deposit: u128, contract_id: String) -> (r: Result<(), MetaVoteError>)
        ensures
            r is Ok <==> attached_deposit == 1 && caller@ == old(self).owner_id@,
            attached_deposit != 1 ==> r == Err::<(), MetaVoteError>(MetaVoteError::RequiresOneYocto),
            attached_deposit == 1 && caller@ != old(self).owner_id@ ==> r == Err::<(), MetaVoteError>(MetaVoteError::OnlyOwner),
            r is Ok ==> *final(self) == (MetaVoteContract { prev_governance_contract: contract_id, ..*old(self) }),
            r is Err ==> *final(self) == *old(self),
    {
        self.owner_call_check(caller, attached_deposit)?;
        self.prev_governance_contract = contract_id;
        Ok(())
    }

    /// Sets the cost of registering associated data (owner).
    pub fn update_registration_cost(&mut self, caller: &String, new_cost: u128) -> (r: Result<(), MetaVoteError>)
        ensures
            r is Ok <==> caller@ == old(self).owner_id@,
            r matches Err(e) ==> e == MetaVoteError::OnlyOwner,
            r is Ok ==> *final(self) == (MetaVoteContract { registration_cost: new_cost, ..*old(self) }),
            r is Err ==> *final(self) == *old(self),
    {
        self.assert_only_owner(caller)?;
        self.registration_cost = new_cost;
        Ok(())
    }

    /// The cost of registering associated data.
    pub fn get_registration_cost(&self) -> (r: u128)
        ensures
            r == self.registration_cost,
    {
        self.registration_cost
    }

    /// Whether an account has associated data.
    pub fn check_if_registered_for_airdrops(&self, account_id: &String) -> (r: bool)
        requires
            self.associated_user_data.wf(),
        ensures
            r == self.associated_user_data@.contains_key(account_id@),
    {
        self.associated_user_data.get(account_id).is_some()
    }

    /// Same as `check_if_registered_for_airdrops` (name kept as published).
    pub fn check_if_user_is_registerd(&self, account_id: &String) -> (r: bool)
        requires
            self.associated_user_data.wf(),
        ensures
            r == self.associated_user_data@.contains_key(account_id@),
    {
        self.check_if_registered_for_airdrops(account_id)
    }

    /// Stores the caller's associated data; the attached deposit must be the
    /// registration cost.
    pub fn update_airdrop_user_data(&mut self, caller: &String, attached_deposit: u128, encrypted_data: &String) -> (r: Result<(), MetaVoteError>)
        requires
            old(self).associated_user_data.wf(),
        ensures
            r is Ok <==> attached_deposit == old(self).registration_cost,
            r matches Err(e) ==> e == MetaVoteError::WrongRegistrationCost,
            r is Err ==> *final(self) == *old(self),
            r is Ok ==> final(self).associated_user_data@ == old(self).associated_user_data@.insert(caller@, *encrypted_data),
            r is Ok ==> final(self).associated_user_data.wf(),
            r is Ok ==> *final(self) == (MetaVoteContract { associated_user_data: final(self).associated_user_data, ..*old(self) }),
    {
        if attached_deposit != self.registration_cost {
            return Err(MetaVoteError::WrongRegistrationCost);
        }
        self.associated_user_data.insert(caller, encrypted_data.clone());
        Ok(())
    }

    /// The associated data of an account.
    pub fn get_airdrop_account(&self, account_id: &String) -> (r: Result<String, MetaVoteError>)
        requires
            self.associated_user_data.wf(),
        ensures
            r is Ok <==> self.associated_user_data@.contains_key(account_id@),
            r matches Ok(d) ==> d == self.associated_user_data@[account_id@],
            r matches Err(e) ==> e == MetaVoteError::AccountDataNotFound,
    {
        match self.associated_user_data.get(account_id) {
            Some(d) => Ok(d.clone()),
            None => Err(MetaVoteError::AccountDataNotFound),
        }
    }
}

} // verus!
