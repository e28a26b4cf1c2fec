//! A voter: free balance, locking positions, free voting power and the votes
//! given per contract address and votable object.
use vstd::prelude::*;
use crate::locking_position::{LockingPosition, LockingPositionJSON, pos_locked, pos_unlocking, pos_unlocked};
use crate::seq_sum::{sum_of, sum_u128, lemma_sum_take_push, lemma_sum_swap_remove, lemma_sum_nonneg};
use crate::str_map::StrMap;

verus! {

/// Votes of one voter: contract address -> votable object id -> voting power.
pub type VotePositions = StrMap<StrMap<u128>>;

/// Why clearing positions fails.
#[derive(Debug, Clone, Copy, PartialEq, Eq, Structural)]
pub enum ClearError {
    /// An index of the list has no position.
    IndexOutOfRange,
    /// The balance would not fit in 128 bits.
    BalanceOverflow,
}

/// A voter's record.
pub struct Voter {
    /// mpDAO that is not bonded and can be withdrawn.
    pub balance: u128,
    pub locking_positions: Vec<LockingPosition>,
    /// Voting power not given to any object.
    pub available_voting_power: u128,
    pub vote_positions: VotePositions,
}

/// One entry of a voter's votes, as the views report it.
pub struct VotePositionJSON {
    pub votable_address: String,
    pub votable_object_id: String,
    pub voting_power: u128,
}

/// Everything about one voter, as the views report it.
pub struct VoterJSON {
    pub voter_id: String,
    pub locking_positions: Vec<LockingPositionJSON>,
    pub balance_in_contract: u128,
    pub voting_power: u128,
    pub vote_positions: Vec<VotePositionJSON>,
}

/// A position as the views report it at `now`, with its index.
pub open spec fn pos_json(p: LockingPosition, index: u64, now: u64) -> LockingPositionJSON {
    LockingPositionJSON {
        index: Some(index),
        amount: p.amount,
        locking_period: p.locking_period,
        voting_power: p.voting_power,
        unlocking_started_at: p.unlocking_started_at,
        is_unlocked: pos_unlocked(p, now),
        is_unlocking: pos_unlocking(p, now),
        is_locked: pos_locked(p),
    }
}

/// All positions as the views report them at `now`.
pub open spec fn positions_json(s: Seq<LockingPosition>, now: u64) -> Seq<LockingPositionJSON> {
    Seq::new(s.len(), |i: int| pos_json(s[i], i as u64, now))
}

/// One entry of a voter's votes: address, object id and voting power.
pub open spec fn entry_view(e: VotePositionJSON) -> (Seq<char>, Seq<char>, u128) {
    (e.votable_address@, e.votable_object_id@, e.voting_power)
}

/// The entries of one address's map, in order.
pub open spec fn inner_entries(a: Seq<char>, m: StrMap<u128>) -> Seq<(Seq<char>, Seq<char>, u128)> {
    Seq::new(m.keys@.len(), |j: int| (a, m.key_seq()[j], m.vals@[j]))
}

/// The entries of the first `n` addresses, address after address, each in
/// the order of its map.
pub open spec fn flat_votes(vp: VotePositions, n: nat) -> Seq<(Seq<char>, Seq<char>, u128)>
    decreases n,
{
    if n == 0 {
        Seq::empty()
    } else {
        flat_votes(vp, (n - 1) as nat) + inner_entries(vp.key_seq()[n - 1], vp.vals@[n - 1])
    }
}

/// Voting power that a position gives while it is locked.
pub open spec fn locked_vp_of(p: LockingPosition) -> int {
    if pos_locked(p) {
        p.voting_power as int
    } else {
        0
    }
}

pub open spec fn locked_vp_fn() -> spec_fn(LockingPosition) -> int {
    |p: LockingPosition| locked_vp_of(p)
}

/// Voting power of all locked positions.
pub open spec fn locked_voting_power(s: Seq<LockingPosition>) -> int {
    sum_of(s, locked_vp_fn())
}

pub open spec fn locked_amount_fn() -> spec_fn(LockingPosition) -> int {
    |p: LockingPosition|
        if pos_locked(p) {
            p.amount as int
        } else {
            0
        }
}

pub open spec fn unlocking_amount_fn(now: u64) -> spec_fn(LockingPosition) -> int {
    |p: LockingPosition|
        if pos_unlocking(p, now) {
            p.amount as int
        } else {
            0
        }
}

pub open spec fn unlocked_amount_fn(now: u64) -> spec_fn(LockingPosition) -> int {
    |p: LockingPosition|
        if pos_unlocked(p, now) {
            p.amount as int
        } else {
            0
        }
}

/// The amount of a position, whatever its state.
pub open spec fn amount_fn() -> spec_fn(LockingPosition) -> int {
    |p: LockingPosition| p.amount as int
}

/// What a voter holds in the contract: its free balance and the amounts of
/// all its positions.
pub open spec fn holdings(v: Voter) -> int {
    v.balance + sum_of(v.locking_positions@, amount_fn())
}

/// mpDAO in locked positions.
pub open spec fn locked_amount(s: Seq<LockingPosition>) -> int {
    sum_of(s, locked_amount_fn())
}

/// mpDAO in positions whose unbond period is running at `now`.
pub open spec fn unlocking_amount(s: Seq<LockingPosition>, now: u64) -> int {
    sum_of(s, unlocking_amount_fn(now))
}

/// mpDAO in positions whose unbond period is over at `now`.
pub open spec fn unlocked_amount(s: Seq<LockingPosition>, now: u64) -> int {
    sum_of(s, unlocked_amount_fn(now))
}

pub open spec fn inner_sum_fn() -> spec_fn(StrMap<u128>) -> int {
    |m: StrMap<u128>| sum_u128(m.vals@)
}

/// Voting power given to all objects of all addresses.
pub open spec fn used_votes(vp: VotePositions) -> int {
    sum_of(vp.vals@, inner_sum_fn())
}

/// The votes given to object `o` of address `a` (zero where none).
pub open spec fn votes_at(vp: VotePositions, a: Seq<char>, o: Seq<char>) -> int {
    if vp@.contains_key(a) && vp@[a]@.contains_key(o) {
        vp@[a]@[o] as int
    } else {
        0
    }
}

/// The outer map and every inner map are well formed.
pub open spec fn votes_wf(vp: VotePositions) -> bool {
    &&& vp.wf()
    &&& forall|i: int| 0 <= i < vp.vals@.len() ==> (#[trigger] vp.vals@[i]).wf()
}

/// Spec of the processing order of an index list: sorted, largest first.
pub open spec fn insert_desc(s: Seq<u64>, x: u64) -> Seq<u64>
    decreases s.len(),
{
    if s.len() == 0 {
        seq![x]
    } else if x >= s[0] {
        seq![x] + s
    } else {
        seq![s[0]] + insert_desc(s.drop_first(), x)
    }
}

/// An index list sorted from the largest to the smallest.
pub open spec fn sort_desc(l: Seq<u64>) -> Seq<u64>
    decreases l.len(),
{
    if l.len() == 0 {
        seq![]
    } else {
        insert_desc(sort_desc(l.drop_last()), l.last())
    }
}

/// Clearing one index: the position must exist; if its unbond period is over,
/// its amount goes to the balance and the last position takes its place.
pub open spec fn clear_step(st: (int, Seq<LockingPosition>), index: u64, now: u64) -> Option<
    (int, Seq<LockingPosition>),
> {
    if index >= st.1.len() {
        None
    } else if pos_unlocked(st.1[index as int], now) {
        Some((st.0 + st.1[index as int].amount, st.1.update(index as int, st.1.last()).drop_last()))
    } else {
        Some(st)
    }
}

/// Clearing the indexes of `l` in order: the first index out of range, or
/// the first balance that does not fit in 128 bits, stops it.
pub open spec fn clear_result(st: (int, Seq<LockingPosition>), l: Seq<u64>, now: u64) -> Result<
    (int, Seq<LockingPosition>),
    ClearError,
>
    decreases l.len(),
{
    if l.len() == 0 {
        Ok(st)
    } else {
        match clear_result(st, l.drop_last(), now) {
            Err(e) => Err(e),
            Ok(s2) => match clear_step(s2, l.last(), now) {
                None => Err(ClearError::IndexOutOfRange),
                Some(s3) => if s3.0 > u128::MAX {
                    Err(ClearError::BalanceOverflow)
                } else {
                    Ok(s3)
                },
            },
        }
    }
}

proof fn lemma_insert_desc_at(s: Seq<u64>, x: u64, k: int)
    requires
        0 <= k <= s.len(),
        forall|j: int| 0 <= j < k ==> x < #[trigger] s[j],
        k < s.len() ==> x >= s[k],
    ensures
        insert_desc(s, x) == s.insert(k, x),
    decreases s.len(),
{
    if s.len() == 0 {
        assert(s.insert(k, x) =~= seq![x]);
    } else if k == 0 {
        assert(s.insert(k, x) =~= seq![x] + s);
    } else {
        lemma_insert_desc_at(s.drop_first(), x, k - 1);
        assert(s.insert(k, x) =~= seq![s[0]] + s.drop_first().insert(k - 1, x));
    }
}

proof fn lemma_clear_keeps_locked_vp(st: (int, Seq<LockingPosition>), l: Seq<u64>, now: u64)
    requires
        clear_result(st, l, now) is Ok,
    ensures
        locked_voting_power(clear_result(st, l, now)->Ok_0.1) == locked_voting_power(st.1),
        clear_result(st, l, now)->Ok_0.1.len() <= st.1.len(),
    decreases l.len(),
{
    if l.len() > 0 {
        lemma_clear_keeps_locked_vp(st, l.drop_last(), now);
        let s2 = clear_result(st, l.drop_last(), now)->Ok_0;
        let i = l.last();
        if (i as int) < s2.1.len() && pos_unlocked(s2.1[i as int], now) {
            lemma_sum_swap_remove(s2.1, i as int, locked_vp_fn());
        }
    }
}

impl Voter {
    /// The voter's record is well formed: vote maps are well formed and
    /// there are fewer than 256 locking positions.
    pub open spec fn wf(&self) -> bool {
        &&& votes_wf(self.vote_positions)
        &&& self.locking_positions@.len() < 256
    }

    /// Free plus given voting power equals the voting power of the locked positions.
    pub open spec fn vp_balanced(&self) -> bool {
        self.available_voting_power + used_votes(self.vote_positions) == locked_voting_power(
            self.locking_positions@,
        )
    }

    /// A voter with nothing.
    pub fn new() -> (r: Self)
        ensures
            r.wf(),
            r.vp_balanced(),
            r.balance == 0,
            r.locking_positions@.len() == 0,
            r.available_voting_power == 0,
            r.vote_positions.keys@.len() == 0,
            r.vote_positions@ == Map::<Seq<char>, StrMap<u128>>::empty(),
    {
        let r = Voter {
            balance: 0,
            locking_positions: Vec::new(),
            available_voting_power: 0,
            vote_positions: StrMap::new(),
        };
        r
    }

    /// No balance and no positions.
    pub fn is_empty(&self) -> (r: bool)
        ensures
            r == (self.balance == 0 && self.locking_positions@.len() == 0),
    {
        self.balance == 0 && self.locking_positions.len() == 0
    }

    /// mpDAO in locked positions.
    pub fn sum_locked(&self) -> (r: u128)
        requires
            locked_amount(self.locking_positions@) <= u128::MAX,
        ensures
            r == locked_amount(self.locking_positions@),
    {
        let s = &self.locking_positions;
        let mut result: u128 = 0;
        let mut i: usize = 0;
        proof {
            lemma_pos_sums_nonneg(s@, 0);
        }
        while i < s.len()
            invariant
                0 <= i <= s@.len(),
                result == sum_of(s@.take(i as int), locked_amount_fn()),
                locked_amount(s@) <= u128::MAX,
            decreases s@.len() - i,
        {
            proof {
                lemma_sum_take_push(s@, i as int, locked_amount_fn());
                lemma_take_le(s@, i as int + 1, locked_amount_fn());
            }
            if s[i].is_locked() {
                result = result + s[i].amount;
            }
            i = i + 1;
        }
        assert(s@.take(i as int) =~= s@);
        result
    }

    /// mpDAO in positions whose unbond period is running at `now`.
    pub fn sum_unlocking(&self, now: u64) -> (r: u128)
        requires
            unlocking_amount(self.locking_positions@, now) <= u128::MAX,
        ensures
            r == unlocking_amount(self.locking_positions@, now),
    {
        let s = &self.locking_positions;
        let mut result: u128 = 0;
        let mut i: usize = 0;
        while i < s.len()
            invariant
                0 <= i <= s@.len(),
                result == sum_of(s@.take(i as int), unlocking_amount_fn(now)),
                unlocking_amount(s@, now) <= u128::MAX,
            decreases s@.len() - i,
        {
            proof {
                lemma_sum_take_push(s@, i as int, unlocking_amount_fn(now));
                lemma_take_le(s@, i as int + 1, unlocking_amount_fn(now));
            }
            if s[i].is_unlocking(now) {
                result = result + s[i].amount;
            }
            i = i + 1;
        }
        assert(s@.take(i as int) =~= s@);
        result
    }

    /// mpDAO in positions whose unbond period is over at `now`.
    pub fn sum_unlocked(&self, now: u64) -> (r: u128)
        requires
            unlocked_amount(self.locking_positions@, now) <= u128::MAX,
        ensures
            r == unlocked_amount(self.locking_positions@, now),
    {
        let s = &self.locking_positions;
        let mut result: u128 = 0;
        let mut i: usize = 0;
        while i < s.len()
            invariant
                0 <= i <= s@.len(),
                result == sum_of(s@.take(i as int), unlocked_amount_fn(now)),
                unlocked_amount(s@, now) <= u128::MAX,
            decreases s@.len() - i,
        {
            proof {
                lemma_sum_take_push(s@, i as int, unlocked_amount_fn(now));
                lemma_take_le(s@, i as int + 1, unlocked_amount_fn(now));
            }
            if s[i].is_unlocked(now) {
                result = result + s[i].amount;
            }
            i = i + 1;
        }
        assert(s@.take(i as int) =~= s@);
        result
    }

    /// Voting power given to all objects.
    pub fn sum_used_votes(&self) -> (r: u128)
        requires
            used_votes(self.vote_positions) <= u128::MAX,
        ensures
            r == used_votes(self.vote_positions),
    {
        let outer = &self.vote_positions.vals;
        let mut result: u128 = 0;
        let mut i: usize = 0;
        while i < outer.len()
            invariant
                0 <= i <= outer@.len(),
                result == sum_of(outer@.take(i as int), inner_sum_fn()),
                sum_of(outer@, inner_sum_fn()) <= u128::MAX,
            decreases outer@.len() - i,
        {
            proof {
                lemma_sum_take_push(outer@, i as int, inner_sum_fn());
                lemma_inner_sums_nonneg(outer@);
                lemma_take_le(outer@, i as int + 1, inner_sum_fn());
            }
            let inner = &outer[i].vals;
            let mut j: usize = 0;
            let mut acc: u128 = 0;
            while j < inner.len()
                invariant
                    0 <= j <= inner@.len(),
                    acc == sum_u128(inner@.take(j as int)),
                    result + sum_u128(inner@) <= u128::MAX,
                decreases inner@.len() - j,
            {
                proof {
                    lemma_sum_take_push(inner@, j as int, |x: u128| x as int);
                    lemma_u128_sum_nonneg(inner@);
                    lemma_take_le(inner@, j as int + 1, |x: u128| x as int);
                }
                acc = acc + inner[j];
                j = j + 1;
            }
            assert(inner@.take(j as int) =~= inner@);
            result = result + acc;
            i = i + 1;
        }
        assert(outer@.take(i as int) =~= outer@);
        result
    }

    /// The first locked position with this unbond period.
    pub fn find_locked_position(&self, locking_period: u16) -> (r: Option<u64>)
        ensures
            match r {
                Some(i) => {
                    &&& i < self.locking_positions@.len()
                    &&& self.locking_positions@[i as int].locking_period == locking_period
                    &&& pos_locked(self.locking_positions@[i as int])
                    &&& forall|j: int|
                        0 <= j < i ==> !(#[trigger] self.locking_positions@[j].locking_period
                            == locking_period && pos_locked(self.locking_positions@[j]))
                },
                None => forall|j: int|
                    0 <= j < self.locking_positions@.len() ==> !(
                    #[trigger] self.locking_positions@[j].locking_period == locking_period
                        && pos_locked(self.locking_positions@[j])),
            },
    {
        let mut i: usize = 0;
        while i < self.locking_positions.len()
            invariant
                0 <= i <= self.locking_positions@.len(),
                forall|j: int|
                    0 <= j < i ==> !(#[trigger] self.locking_positions@[j].locking_period
                        == locking_period && pos_locked(self.locking_positions@[j])),
            decreases self.locking_positions@.len() - i,
        {
            let p = &self.locking_positions[i];
            if p.locking_period == locking_period && p.is_locked() {
                return Some(i as u64);
            }
            i = i + 1;
        }
        None
    }

    /// The position at `index`.
    pub fn get_position(&self, index: u64) -> (r: LockingPosition)
        requires
            index < self.locking_positions@.len(),
        ensures
            r == self.locking_positions@[index as int],
    {
        let n = self.locking_positions.len();
        assert(index < n);
        self.locking_positions[index as usize]
    }

    /// Removes the position at `index`; the last position takes its place.
    pub fn remove_position(&mut self, index: u64)
        requires
            index < old(self).locking_positions@.len(),
        ensures
            final(self).locking_positions@ == old(self).locking_positions@.update(
                index as int,
                old(self).locking_positions@.last(),
            ).drop_last(),
            final(self).balance == old(self).balance,
            final(self).available_voting_power == old(self).available_voting_power,
            final(self).vote_positions == old(self).vote_positions,
    {
        let n = self.locking_positions.len();
        assert(index < n);
        self.locking_positions.swap_remove(index as usize);
    }

    /// Indexes of the positions whose unbond period is over, in increasing order.
    pub fn get_unlocked_position_indexes(&self, now: u64) -> (r: Vec<u64>)
        ensures
            forall|k: int|
                0 <= k < r@.len() ==> r@[k] < self.locking_positions@.len() && pos_unlocked(
                    self.locking_positions@[r@[k] as int],
                    now,
                ),
            forall|k: int, m: int| 0 <= k < m < r@.len() ==> r@[k] < r@[m],
            forall|i: int|
                0 <= i < self.locking_positions@.len() && pos_unlocked(
                    self.locking_positions@[i],
                    now,
                ) ==> r@.contains(i as u64),
    {
        let mut r: Vec<u64> = Vec::new();
        let mut i: usize = 0;
        while i < self.locking_positions.len()
            invariant
                0 <= i <= self.locking_positions@.len(),
                forall|k: int|
                    0 <= k < r@.len() ==> r@[k] < i && pos_unlocked(
                        self.locking_positions@[r@[k] as int],
                        now,
                    ),
                forall|k: int, m: int| 0 <= k < m < r@.len() ==> r@[k] < r@[m],
                forall|j: int|
                    0 <= j < i && pos_unlocked(self.locking_positions@[j], now) ==> r@.contains(
                        j as u64,
                    ),
            decreases self.locking_positions@.len() - i,
        {
            if self.locking_positions[i].is_unlocked(now) {
                let ghost old_r = r@;
                r.push(i as u64);
                proof {
                    assert forall|j: int|
                        0 <= j < i + 1 && pos_unlocked(
                            self.locking_positions@[j],
                            now,
                        ) implies r@.contains(j as u64) by {
                        if j == i {
                            assert(r@[r@.len() - 1] == i as u64);
                        } else {
                            assert(old_r.contains(j as u64));
                            let k = choose|k: int| 0 <= k < old_r.len() && old_r[k] == j as u64;
                            assert(r@[k] == j as u64);
                        }
                    }
                }
            }
            i = i + 1;
        }
        r
    }

    /// The positions as the views report them at `now`.
    pub fn positions_to_json(&self, now: u64) -> (r: Vec<LockingPositionJSON>)
        ensures
            r@ == positions_json(self.locking_positions@, now),
    {
        let mut r: Vec<LockingPositionJSON> = Vec::new();
        let mut i: usize = 0;
        while i < self.locking_positions.len()
            invariant
                0 <= i <= self.locking_positions@.len(),
                r@ == positions_json(self.locking_positions@.take(i as int), now),
            decreases self.locking_positions@.len() - i,
        {
            r.push(self.locking_positions[i].to_json(Some(i as u64), now));
            assert(r@ =~= positions_json(self.locking_positions@.take(i as int + 1), now));
            i = i + 1;
        }
        assert(self.locking_positions@.take(i as int) =~= self.locking_positions@);
        r
    }

    /// The voter's votes, address after address.
    pub fn votes_to_json(&self) -> (r: Vec<VotePositionJSON>)
        requires
            votes_wf(self.vote_positions),
        ensures
            r@.map_values(|e: VotePositionJSON| entry_view(e)) == flat_votes(self.vote_positions, self.vote_positions.keys@.len()),
    {
        let vp = &self.vote_positions;
        let mut r: Vec<VotePositionJSON> = Vec::new();
        let mut i: usize = 0;
        while i < vp.keys.len()
            invariant
                votes_wf(*vp),
                0 <= i <= vp.keys@.len(),
                r@.map_values(|e: VotePositionJSON| entry_view(e)) == flat_votes(*vp, i as nat),
            decreases vp.keys@.len() - i,
        {
            let address = vp.key_at(i);
            let inner = vp.val_at(i);
            assert(inner.wf());
            let ghost before = r@.map_values(|e: VotePositionJSON| entry_view(e));
            let mut j: usize = 0;
            while j < inner.keys.len()
                invariant
                    inner.wf(),
                    0 <= j <= inner.keys@.len(),
                    r@.map_values(|e: VotePositionJSON| entry_view(e)) == before + inner_entries(address@, *inner).take(j as int),
                decreases inner.keys@.len() - j,
            {
                let ghost r0 = r@;
                r.push(VotePositionJSON {
                    votable_address: address.clone(),
                    votable_object_id: inner.key_at(j).clone(),
                    voting_power: *inner.val_at(j),
                });
                assert(r@.map_values(|e: VotePositionJSON| entry_view(e)) =~= r0.map_values(|e: VotePositionJSON| entry_view(e)).push(inner_entries(address@, *inner)[j as int]));
                assert(inner_entries(address@, *inner).take(j as int + 1) =~= inner_entries(address@, *inner).take(j as int).push(inner_entries(address@, *inner)[j as int]));
                j = j + 1;
            }
            assert(inner_entries(address@, *inner).take(j as int) =~= inner_entries(address@, *inner));
            i = i + 1;
        }
        r
    }

    /// The voter as the views report it at `now`.
    pub fn to_json(&self, voter_id: &String, now: u64) -> (r: VoterJSON)
        requires
            votes_wf(self.vote_positions),
        ensures
            r.voter_id@ == voter_id@,
            r.locking_positions@ == positions_json(self.locking_positions@, now),
            r.balance_in_contract == self.balance,
            r.voting_power == self.available_voting_power,
            r.vote_positions@.map_values(|e: VotePositionJSON| entry_view(e)) == flat_votes(self.vote_positions, self.vote_positions.keys@.len()),
    {
        VoterJSON {
            voter_id: voter_id.clone(),
            locking_positions: self.positions_to_json(now),
            balance_in_contract: self.balance,
            voting_power: self.available_voting_power,
            vote_positions: self.votes_to_json(),
        }
    }

    /// Clears the positions of `position_index_list` whose unbond period is
    /// over, largest index first: each amount goes to the balance and the last
    /// position takes the place of the removed one. Fails where an index is out
    /// of range or the balance would overflow, whichever comes first; the voter
    /// is then unchanged.
    pub fn clear_fully_unlocked_positions(&mut self, position_index_list: Vec<u64>, now: u64) -> (r:
        Result<(), ClearError>)
        ensures
            ({
                let res = clear_result(
                    (old(self).balance as int, old(self).locking_positions@),
                    sort_desc(position_index_list@),
                    now,
                );
                &&& r is Ok <==> res is Ok
                &&& r matches Err(e) ==> res == Err::<(int, Seq<LockingPosition>), ClearError>(e)
                &&& r is Ok ==> final(self).balance == res->Ok_0.0 && final(self).locking_positions@ == res->Ok_0.1
            }),
            r is Err ==> final(self).balance == old(self).balance && final(self).locking_positions@ == old(
                self,
            ).locking_positions@,
            final(self).available_voting_power == old(self).available_voting_power,
            final(self).vote_positions == old(self).vote_positions,
            r is Ok ==> locked_voting_power(final(self).locking_positions@) == locked_voting_power(
                old(self).locking_positions@,
            ),
            r is Ok ==> final(self).locking_positions@.len() <= old(self).locking_positions@.len(),
    {
        let ghost orig = position_index_list@;
        let sorted = sort_desc_vec(position_index_list);
        let ghost l = sorted@;
        let mut balance: u128 = self.balance;
        let mut positions: Vec<LockingPosition> = self.locking_positions.clone();
        assert(positions@ =~= self.locking_positions@);
        let ghost start = (old(self).balance as int, old(self).locking_positions@);
        let mut k: usize = 0;
        while k < sorted.len()
            invariant
                0 <= k <= sorted@.len(),
                l == sorted@,
                l == sort_desc(orig),
                orig == position_index_list@,
                start == (old(self).balance as int, old(self).locking_positions@),
                clear_result(start, l.take(k as int), now) == Ok::<(int, Seq<LockingPosition>), ClearError>((balance as int, positions@)),
            decreases sorted@.len() - k,
        {
            let index = sorted[k];
            assert(l.take(k as int + 1).drop_last() =~= l.take(k as int));
            assert(l.take(k as int + 1).last() == index);
            let n = positions.len();
            if index >= n as u64 {
                proof {
                    lemma_clear_err_prefix(start, l, k as int + 1, now);
                }
                return Err(ClearError::IndexOutOfRange);
            }
            let p = positions[index as usize];
            if p.is_unlocked(now) {
                match balance.checked_add(p.amount) {
                    Some(b) => {
                        balance = b;
                    },
                    None => {
                        proof {
                            lemma_clear_err_prefix(start, l, k as int + 1, now);
                        }
                        return Err(ClearError::BalanceOverflow);
                    },
                }
                positions.swap_remove(index as usize);
            }
            k = k + 1;
        }
        assert(l.take(k as int) =~= l);
        proof {
            lemma_clear_keeps_locked_vp(start, l, now);
        }
        self.balance = balance;
        self.locking_positions = positions;
        Ok(())
    }
}

/// Sorts an index list from the largest to the smallest.
pub fn sort_desc_vec(l: Vec<u64>) -> (r: Vec<u64>)
    ensures
        r@ == sort_desc(l@),
{
    let mut r: Vec<u64> = Vec::new();
    let mut i: usize = 0;
    while i < l.len()
        invariant
            0 <= i <= l@.len(),
            r@ == sort_desc(l@.take(i as int)),
        decreases l@.len() - i,
    {
        let x = l[i];
        let mut k: usize = 0;
        while k < r.len() && x < r[k]
            invariant
                0 <= k <= r@.len(),
                forall|j: int| 0 <= j < k ==> x < #[trigger] r@[j],
            decreases r@.len() - k,
        {
            k = k + 1;
        }
        proof {
            lemma_insert_desc_at(r@, x, k as int);
            assert(l@.take(i as int + 1).drop_last() =~= l@.take(i as int));
        }
        r.insert(k, x);
        i = i + 1;
    }
    assert(l@.take(i as int) =~= l@);
    r
}

proof fn lemma_clear_err_prefix(st: (int, Seq<LockingPosition>), l: Seq<u64>, k: int, now: u64)
    requires
        0 < k <= l.len(),
        clear_result(st, l.take(k), now) is Err,
    ensures
        clear_result(st, l, now) == clear_result(st, l.take(k), now),
    decreases l.len() - k,
{
    if k < l.len() {
        assert(l.take(k + 1).drop_last() =~= l.take(k));
        lemma_clear_err_prefix(st, l, k + 1, now);
    } else {
        assert(l.take(k) =~= l);
    }
}

proof fn lemma_pos_sums_nonneg(s: Seq<LockingPosition>, now: u64)
    ensures
        sum_of(s, locked_amount_fn()) >= 0,
{
    lemma_sum_nonneg(s, locked_amount_fn());
}

pub proof fn lemma_u128_sum_nonneg(s: Seq<u128>)
    ensures
        sum_u128(s) >= 0,
{
    lemma_sum_nonneg(s, |x: u128| x as int);
}

pub proof fn lemma_inner_sums_nonneg(s: Seq<StrMap<u128>>)
    ensures
        forall|i: int| 0 <= i < s.len() ==> inner_sum_fn()(#[trigger] s[i]) >= 0,
{
    assert forall|i: int| 0 <= i < s.len() implies inner_sum_fn()(#[trigger] s[i]) >= 0 by {
        lemma_u128_sum_nonneg(s[i].vals@);
    }
}

/// The sum over a prefix is at most the sum over the whole sequence when every term is nonnegative.
pub proof fn lemma_take_le<T>(s: Seq<T>, k: int, f: spec_fn(T) -> int)
    requires
        0 <= k <= s.len(),
        forall|i: int| 0 <= i < s.len() ==> f(#[trigger] s[i]) >= 0,
    ensures
        sum_of(s.take(k), f) <= sum_of(s, f),
    decreases s.len() - k,
{
    if k < s.len() {
        lemma_take_le(s, k + 1, f);
        lemma_sum_take_push(s, k, f);
    } else {
        assert(s.take(k) =~= s);
    }
}

} // verus!
