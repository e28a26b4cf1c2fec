//! Voting: giving free voting power to an object of a contract, moving it
//! (rebalance) and taking it back (unvote), with the contract's totals per
//! object kept in step; and the operator's filter that locks some votes.
use vstd::prelude::*;
use crate::meta_vote::{MetaVoteContract, MetaVoteError, all_balanced, lemma_replace_voter};
use crate::seq_sum::{sum_of, lemma_sum_update, lemma_sum_push, lemma_sum_swap_remove};
use crate::str_map::StrMap;
use crate::text::{decimal_bytes, has_prefix, u16_decimal, starts_with, is_digit, digits_value, lemma_decimal_bytes};
use crate::voter::{Voter, VotePositions, used_votes, votes_at, votes_wf};
use crate::votes::{set_votes, remove_votes, totals_view, ordered_after_set, ordered_after_remove};

verus! {

/// The votes that voter `v` gives to object `o` of address `a`.
pub open spec fn voter_votes_fn(a: Seq<char>, o: Seq<char>) -> spec_fn(Voter) -> int {
    |v: Voter| votes_at(v.vote_positions, a, o)
}

/// `new` is `old` with the votes for object `o` of address `a` set to `value`.
pub open spec fn votes_changed(old: VotePositions, new: VotePositions, a: Seq<char>, o: Seq<char>, value: int) -> bool {
    forall|x: Seq<char>, y: Seq<char>|
        #[trigger] votes_at(new, x, y) == if x == a && y == o {
            value
        } else {
            votes_at(old, x, y)
        }
}

/// What a vote of `voting_power` by account `id` for object `o` of address
/// `a` changes from `c` to `c2`: the votes of the account and the contract's
/// total for the object grow by it, and the account's free voting power
/// shrinks by it; nothing else changes. A new address goes at the end of the
/// account's list of addresses, a new object at the end of the address's
/// list of objects.
pub open spec fn voted(c: MetaVoteContract, c2: MetaVoteContract, id: Seq<char>, voting_power: u128, a: Seq<char>, o: Seq<char>) -> bool {
    let v = c.voter(id);
    let nv = c2.voter(id);
    &&& c.voter_replaced(&c2, id)
    &&& votes_changed(v.vote_positions, nv.vote_positions, a, o, votes_at(v.vote_positions, a, o) + voting_power)
    &&& nv.vote_positions@.dom() == v.vote_positions@.dom().insert(a)
    &&& ordered_after_set(v.vote_positions, nv.vote_positions, a, o)
    &&& totals_view(nv.vote_positions) == totals_view(v.vote_positions).insert((a, o), (votes_at(v.vote_positions, a, o) + voting_power) as u128)
    &&& nv.available_voting_power == v.available_voting_power - voting_power
    &&& nv.balance == v.balance
    &&& nv.locking_positions == v.locking_positions
    &&& votes_changed(c.votes, c2.votes, a, o, votes_at(c.votes, a, o) + voting_power)
    &&& totals_view(c2.votes) == totals_view(c.votes).insert((a, o), (votes_at(c.votes, a, o) + voting_power) as u128)
    &&& ordered_after_set(c.votes, c2.votes, a, o)
    &&& c2 == (MetaVoteContract { voters: c2.voters, votes: c2.votes, ..c })
}

/// What taking back the votes of account `id` for object `o` of address `a`
/// changes from `c` to `c2`: the votes return to the account's free voting
/// power and leave the contract's total (an entry at zero is dropped). The
/// object leaves the address's list, the last object taking its place; an
/// address left without objects leaves the account's list of addresses in
/// the same way.
pub open spec fn unvoted(c: MetaVoteContract, c2: MetaVoteContract, id: Seq<char>, a: Seq<char>, o: Seq<char>) -> bool {
    let v = c.voter(id);
    let nv = c2.voter(id);
    let votes = votes_at(v.vote_positions, a, o);
    &&& c.voter_replaced(&c2, id)
    &&& votes_changed(v.vote_positions, nv.vote_positions, a, o, 0)
    &&& ordered_after_remove(v.vote_positions, nv.vote_positions, a, o)
    &&& totals_view(nv.vote_positions) == totals_view(v.vote_positions).remove((a, o))
    &&& nv.available_voting_power == v.available_voting_power + votes
    &&& nv.balance == v.balance
    &&& nv.locking_positions == v.locking_positions
    &&& votes_changed(c.votes, c2.votes, a, o, votes_at(c.votes, a, o) - votes)
    &&& totals_view(c2.votes) == totals_lowered(totals_view(c.votes), a, o, votes_at(c.votes, a, o) - votes)
    &&& totals_ordered(c.votes, c2.votes, a, o, votes_at(c.votes, a, o) - votes)
    &&& c2 == (MetaVoteContract { voters: c2.voters, votes: c2.votes, ..c })
}

/// Taking back a vote undoes it: after a vote by account `id` for object `o`
/// of address `a`, for which it had no votes, and the taking back of its
/// votes for that object, the account's free voting power, every vote of
/// every account and every total of the contract are what they were. Where
/// each address of the account has an object, the account's addresses and
/// their objects are also back in their order: an address that had no other
/// object is gone again.
pub proof fn lemma_unvote_undoes_vote(c0: MetaVoteContract, c1: MetaVoteContract, c2: MetaVoteContract, id: Seq<char>, voting_power: u128, a: Seq<char>, o: Seq<char>)
    requires
        c0.wf(),
        c0.voters@.contains_key(id),
        !has_votes(c0.voter(id).vote_positions, a, o),
        voted(c0, c1, id, voting_power, a, o),
        unvoted(c1, c2, id, a, o),
    ensures
        c0.voter(id).vote_positions@.contains_key(a) ==> c0.voter(id).vote_positions@[a]@ != Map::<Seq<char>, u128>::empty() ==> {
            let v0 = c0.voter(id).vote_positions;
            let v2 = c2.voter(id).vote_positions;
            &&& v2@.dom() == v0@.dom()
            &&& v2.key_seq() == v0.key_seq()
            &&& forall|x: Seq<char>| #[trigger] v0@.contains_key(x) ==> v2@[x]@ == v0@[x]@ && v2@[x].key_seq() == v0@[x].key_seq()
        },
        !c0.voter(id).vote_positions@.contains_key(a) ==> {
            let v0 = c0.voter(id).vote_positions;
            let v2 = c2.voter(id).vote_positions;
            &&& v2@ == v0@
            &&& v2.key_seq() == v0.key_seq()
        },
        c2.voters@.dom() == c0.voters@.dom(),
        c2.voter(id).available_voting_power == c0.voter(id).available_voting_power,
        c2.voter(id).balance == c0.voter(id).balance,
        c2.voter(id).locking_positions == c0.voter(id).locking_positions,
        totals_view(c2.voter(id).vote_positions) == totals_view(c0.voter(id).vote_positions),
        forall|x: Seq<char>| x != id && #[trigger] c0.voters@.contains_key(x) ==> c2.voters@[x] == c0.voters@[x],
        forall|x: Seq<char>, y: Seq<char>| #[trigger] votes_at(c2.votes, x, y) == votes_at(c0.votes, x, y),
        votes_at(c0.votes, a, o) > 0 || !has_votes(c0.votes, a, o) ==> totals_view(c2.votes) == totals_view(c0.votes),
{
    let i = c0.voter_index(id);
    c0.voters.lemma_has_index(id);
    assert(c1.voters.key_seq() == c0.voters.key_seq());
    assert(c2.voters.key_seq() == c0.voters.key_seq());
    assert(c2.voters@.dom() =~= c0.voters@.dom());
    assert forall|x: Seq<char>| x != id && #[trigger] c0.voters@.contains_key(x) implies c2.voters@[x] == c0.voters@[x] by {
        c0.voters.lemma_has_index(x);
        let j = c0.voters.key_seq().index_of(x);
        assert(j != i);
    }
    let v0 = c0.voter(id).vote_positions;
    let v1 = c1.voter(id).vote_positions;
    let v2 = c2.voter(id).vote_positions;
    assert(c0.voters.vals@[i].wf());
    let inner1 = v1@[a];
    if !v0@.contains_key(a) {
        assert(inner1.key_seq() == seq![o]);
        assert(inner1@.remove(o) =~= Map::<Seq<char>, u128>::empty()) by {
            assert forall|k: Seq<char>| !#[trigger] inner1@.remove(o).contains_key(k) by {
                if k != o && inner1@.contains_key(k) {
                    assert(inner1.key_seq().contains(k));
                    assert(inner1.key_seq()[0] == k);
                }
            }
        }
        let ks0 = v0.key_seq();
        let ks1 = ks0.push(a);
        assert(!ks0.contains(a));
        assert(ks1[ks0.len() as int] == a);
        assert(ks1.index_of(a) == ks0.len()) by {
            let j = ks1.index_of(a);
            if j != ks0.len() {
                assert(ks0[j] == ks1[j]);
            }
        }
        assert(ks1.update(ks0.len() as int, ks1.last()) =~= ks1);
        assert(ks1.drop_last() =~= ks0);
        assert(v2@ =~= v0@);
    } else if v0@[a]@ != Map::<Seq<char>, u128>::empty() {
        let inner0 = v0@[a];
        assert(v0.vals@.contains(inner0)) by {
            v0.lemma_has_index(a);
            v0.lemma_index(v0.key_seq().index_of(a));
        }
        let k0 = choose|k: Seq<char>| inner0@.contains_key(k);
        assert(inner0@.dom().contains(k0)) by {
            assert(!(inner0@ =~= Map::<Seq<char>, u128>::empty()));
        }
        assert(k0 != o);
        assert(inner1@.remove(o).contains_key(k0)) by {
            assert(inner0.key_seq().contains(k0));
            let j = inner0.key_seq().index_of(k0);
            assert(inner1.key_seq()[j] == k0);
        }
        let iks0 = inner0.key_seq();
        let iks1 = iks0.push(o);
        assert(!iks0.contains(o));
        assert(iks1[iks0.len() as int] == o);
        assert(iks1.index_of(o) == iks0.len()) by {
            let j = iks1.index_of(o);
            if j != iks0.len() {
                assert(iks0[j] == iks1[j]);
            }
        }
        assert(iks1.update(iks0.len() as int, iks1.last()) =~= iks1);
        assert(iks1.drop_last() =~= iks0);
        let inner2 = v2@[a];
        assert(inner2.key_seq() == iks0);
        assert(inner2@ =~= inner0@) by {
            assert forall|y: Seq<char>| #[trigger] inner2@.contains_key(y) == inner0@.contains_key(y) by {
                assert(inner2@.contains_key(y) == inner2.key_seq().contains(y));
            }
            assert forall|y: Seq<char>| inner2@.contains_key(y) implies #[trigger] inner2@[y] == inner0@[y] by {
                assert(votes_at(v2, a, y) == votes_at(v0, a, y));
            }
        }
        assert(v2@.dom() =~= v0@.dom());
    }
    assert(!totals_view(v0).contains_key((a, o)));
    assert(totals_view(v2) =~= totals_view(v0));
    if votes_at(c0.votes, a, o) > 0 || !has_votes(c0.votes, a, o) {
        assert(totals_view(c2.votes) =~= totals_view(c0.votes));
    }
}

/// Totals where the one for object `o` of address `a` goes down to `value`:
/// an entry that reaches zero is dropped.
pub open spec fn totals_lowered(m: Map<(Seq<char>, Seq<char>), u128>, a: Seq<char>, o: Seq<char>, value: int) -> Map<(Seq<char>, Seq<char>), u128> {
    if value == 0 {
        m.remove((a, o))
    } else {
        m.insert((a, o), value as u128)
    }
}

/// The order of the totals once the one for object `o` of address `a`
/// goes down to `value`: a total that reaches zero is removed, else it is
/// set in place.
pub open spec fn totals_ordered(old: VotePositions, new: VotePositions, a: Seq<char>, o: Seq<char>, value: int) -> bool {
    if value == 0 {
        ordered_after_remove(old, new, a, o)
    } else {
        ordered_after_set(old, new, a, o)
    }
}

/// The voter has votes for object `o` of address `a`.
pub open spec fn has_votes(vp: VotePositions, a: Seq<char>, o: Seq<char>) -> bool {
    vp@.contains_key(a) && vp@[a]@.contains_key(o)
}

/// Removing votes for object `o` of address `a` is locked at `now`: the
/// operator's filter names the address, its end is ahead, and the object id
/// begins with the filter's number and a `|`.
pub open spec fn votes_locked(c: MetaVoteContract, a: Seq<char>, o: Seq<char>, now: u64) -> bool {
    &&& c.lock_votes_in_address matches Some(la)
    &&& c.lock_votes_in_end_timestamp_ms > now
    &&& c.lock_votes_in_address.unwrap()@ == a
    &&& has_prefix(vstd::utf8::encode_utf8(o), decimal_bytes(c.lock_votes_in_numeric_id as nat).push(124u8))
}

/// The operator's filter locks votes only for the filter's address, only
/// until its end, and only for object ids made of a number and a `|` where
/// that number is the filter's: the id's leading digits, up to its first
/// `|`, read as the filter number (so with filter 5, `5|x` is locked and
/// `50|x` is not).
pub proof fn law_lock_names_the_filter_number(c: MetaVoteContract, a: Seq<char>, o: Seq<char>, now: u64)
    requires
        votes_locked(c, a, o, now),
    ensures
        c.lock_votes_in_end_timestamp_ms > now,
        c.lock_votes_in_address matches Some(la) && la@ == a,
        ({
            let b = vstd::utf8::encode_utf8(o);
            exists|k: int|
                0 < k < b.len() && b[k] == 124u8 && (forall|i: int| 0 <= i < k ==> #[trigger] is_digit(b[i]))
                    && digits_value(b.subrange(0, k)) == c.lock_votes_in_numeric_id
        }),
{
    let b = vstd::utf8::encode_utf8(o);
    let d = decimal_bytes(c.lock_votes_in_numeric_id as nat);
    lemma_decimal_bytes(c.lock_votes_in_numeric_id as nat);
    let k = d.len() as int;
    assert(b.subrange(0, k + 1) == d.push(124u8));
    assert(b[k] == b.subrange(0, k + 1)[k]);
    assert(b.subrange(0, k) =~= d) by {
        assert forall|i: int| 0 <= i < k implies b.subrange(0, k)[i] == d[i] by {
            assert(b[i] == b.subrange(0, k + 1)[i]);
        }
    }
    assert forall|i: int| 0 <= i < k implies #[trigger] is_digit(b[i]) by {
        assert(b[i] == b.subrange(0, k + 1)[i]);
        assert(d.push(124u8)[i] == d[i]);
    }
}

/// An id made of the filter number, a `|` and anything after is locked for
/// the filter's address until the filter's end.
pub proof fn law_filter_number_and_bar_lock(c: MetaVoteContract, a: Seq<char>, o: Seq<char>, now: u64, rest: Seq<u8>)
    requires
        c.lock_votes_in_address matches Some(la) && la@ == a,
        c.lock_votes_in_end_timestamp_ms > now,
        vstd::utf8::encode_utf8(o) == decimal_bytes(c.lock_votes_in_numeric_id as nat).push(124u8) + rest,
    ensures
        votes_locked(c, a, o, now),
{
    let b = vstd::utf8::encode_utf8(o);
    let d = decimal_bytes(c.lock_votes_in_numeric_id as nat).push(124u8);
    assert(b.subrange(0, d.len() as int) =~= d);
}

/// Why taking `amount` off the contract's total for object `o` of address
/// `a` is refused, if it is.
pub open spec fn decrease_error(c: MetaVoteContract, a: Seq<char>, o: Seq<char>, amount: int) -> Option<MetaVoteError> {
    if !has_votes(c.votes, a, o) {
        Some(MetaVoteError::NoTotalsForObject)
    } else if votes_at(c.votes, a, o) < amount {
        Some(MetaVoteError::TotalVotesTooSmall)
    } else {
        None
    }
}

/// Why giving `vp` of voter `id`'s free voting power to object `o` of address
/// `a` is refused, if it is.
pub open spec fn vote_error(c: MetaVoteContract, id: Seq<char>, vp: u128, a: Seq<char>, o: Seq<char>) -> Option<MetaVoteError> {
    if !c.voters@.contains_key(id) {
        Some(MetaVoteError::VoterNotFound)
    } else {
        let v = c.voter(id);
        if v.available_voting_power < vp {
            Some(MetaVoteError::NotEnoughVotingPower)
        } else if v.vote_positions.keys@.len() > c.max_voting_positions {
            Some(MetaVoteError::TooManyVotingPositions)
        } else if votes_at(v.vote_positions, a, o) + vp > u128::MAX || votes_at(c.votes, a, o) + vp > u128::MAX {
            Some(MetaVoteError::Overflow)
        } else {
            None
        }
    }
}

/// Why removing voter `id`'s votes for object `o` of address `a` is refused,
/// if it is (the operator's filter aside).
pub open spec fn remove_vote_error(c: MetaVoteContract, id: Seq<char>, a: Seq<char>, o: Seq<char>) -> Option<MetaVoteError> {
    if !c.voters@.contains_key(id) {
        Some(MetaVoteError::VoterNotFound)
    } else {
        let v = c.voter(id);
        let votes = votes_at(v.vote_positions, a, o);
        if !has_votes(v.vote_positions, a, o) {
            Some(MetaVoteError::NoVotesForObject)
        } else if v.available_voting_power + votes > u128::MAX {
            Some(MetaVoteError::Overflow)
        } else {
            decrease_error(c, a, o, votes)
        }
    }
}

/// Why voter `id` taking back its votes for object `o` of address `a` at
/// `now` is refused, if it is.
pub open spec fn unvote_error(c: MetaVoteContract, id: Seq<char>, a: Seq<char>, o: Seq<char>, now: u64) -> Option<MetaVoteError> {
    if votes_locked(c, a, o, now) {
        Some(MetaVoteError::VotesLocked(c.lock_votes_in_end_timestamp_ms))
    } else {
        remove_vote_error(c, id, a, o)
    }
}

/// Why voter `id` setting its votes for object `o` of address `a` to `vp`
/// at `now` is refused, if it is.
pub open spec fn rebalance_error(c: MetaVoteContract, id: Seq<char>, vp: u128, a: Seq<char>, o: Seq<char>, now: u64) -> Option<MetaVoteError> {
    if !c.voters@.contains_key(id) {
        Some(MetaVoteError::VoterNotFound)
    } else {
        let v = c.voter(id);
        let votes = votes_at(v.vote_positions, a, o);
        if !has_votes(v.vote_positions, a, o) {
            Some(MetaVoteError::NoVotesForObject)
        } else if votes == vp {
            Some(MetaVoteError::SameVotingPower)
        } else if vp == 0 {
            unvote_error(c, id, a, o, now)
        } else if votes < vp {
            if v.available_voting_power < vp - votes {
                Some(MetaVoteError::NotEnoughVotingPower)
            } else if votes_at(c.votes, a, o) + (vp - votes) > u128::MAX {
                Some(MetaVoteError::Overflow)
            } else {
                None
            }
        } else if v.available_voting_power + (votes - vp) > u128::MAX {
            Some(MetaVoteError::Overflow)
        } else {
            decrease_error(c, a, o, votes - vp)
        }
    }
}

/// Replacing voter `i` by `nv`, whose votes differ only for object `o` of
/// address `a` by `delta`, while the contract's total for that object
/// changes by `delta` too, keeps every total equal to the sum over voters.
pub proof fn lemma_votes_step(old_votes: VotePositions, new_votes: VotePositions, vals: Seq<Voter>, i: int, nv: Voter, a: Seq<char>, o: Seq<char>, delta: int)
    requires
        0 <= i < vals.len(),
        forall|x: Seq<char>, y: Seq<char>| #[trigger] votes_at(old_votes, x, y) == sum_of(vals, voter_votes_fn(x, y)),
        votes_changed(vals[i].vote_positions, nv.vote_positions, a, o, votes_at(vals[i].vote_positions, a, o) + delta),
        votes_changed(old_votes, new_votes, a, o, votes_at(old_votes, a, o) + delta),
    ensures
        forall|x: Seq<char>, y: Seq<char>| #[trigger] votes_at(new_votes, x, y) == sum_of(vals.update(i, nv), voter_votes_fn(x, y)),
{
    assert forall|x: Seq<char>, y: Seq<char>| #[trigger] votes_at(new_votes, x, y) == sum_of(vals.update(i, nv), voter_votes_fn(x, y)) by {
        lemma_sum_update(vals, i, nv, voter_votes_fn(x, y));
        assert(votes_at(old_votes, x, y) == sum_of(vals, voter_votes_fn(x, y)));
        assert(votes_at(nv.vote_positions, x, y) == if x == a && y == o {
            votes_at(vals[i].vote_positions, a, o) + delta
        } else {
            votes_at(vals[i].vote_positions, x, y)
        });
    }
}

/// Replacing voter `i` by a record with the same votes keeps every total
/// equal to the sum over voters.
pub proof fn lemma_votes_keep(votes: VotePositions, vals: Seq<Voter>, i: int, nv: Voter)
    requires
        0 <= i < vals.len(),
        forall|x: Seq<char>, y: Seq<char>| #[trigger] votes_at(votes, x, y) == sum_of(vals, voter_votes_fn(x, y)),
        nv.vote_positions == vals[i].vote_positions,
    ensures
        forall|x: Seq<char>, y: Seq<char>| #[trigger] votes_at(votes, x, y) == sum_of(vals.update(i, nv), voter_votes_fn(x, y)),
{
    assert forall|x: Seq<char>, y: Seq<char>| #[trigger] votes_at(votes, x, y) == sum_of(vals.update(i, nv), voter_votes_fn(x, y)) by {
        lemma_sum_update(vals, i, nv, voter_votes_fn(x, y));
    }
}

/// Adding a voter with no votes keeps every total equal to the sum over voters.
pub proof fn lemma_votes_push_empty(votes: VotePositions, vals: Seq<Voter>, nv: Voter)
    requires
        forall|x: Seq<char>, y: Seq<char>| #[trigger] votes_at(votes, x, y) == sum_of(vals, voter_votes_fn(x, y)),
        nv.vote_positions@ == Map::<Seq<char>, StrMap<u128>>::empty(),
    ensures
        forall|x: Seq<char>, y: Seq<char>| #[trigger] votes_at(votes, x, y) == sum_of(vals.push(nv), voter_votes_fn(x, y)),
{
    assert forall|x: Seq<char>, y: Seq<char>| #[trigger] votes_at(votes, x, y) == sum_of(vals.push(nv), voter_votes_fn(x, y)) by {
        lemma_sum_push(vals, nv, voter_votes_fn(x, y));
    }
}

/// Removing voter `i`, who gives no votes (the last one takes its place),
/// keeps every total equal to the sum over voters.
pub proof fn lemma_votes_remove_silent(votes: VotePositions, vals: Seq<Voter>, i: int)
    requires
        0 <= i < vals.len(),
        forall|x: Seq<char>, y: Seq<char>| #[trigger] votes_at(votes, x, y) == sum_of(vals, voter_votes_fn(x, y)),
        forall|x: Seq<char>, y: Seq<char>| #[trigger] votes_at(vals[i].vote_positions, x, y) == 0,
    ensures
        forall|x: Seq<char>, y: Seq<char>| #[trigger] votes_at(votes, x, y) == sum_of(vals.update(i, vals.last()).drop_last(), voter_votes_fn(x, y)),
{
    assert forall|x: Seq<char>, y: Seq<char>| #[trigger] votes_at(votes, x, y) == sum_of(vals.update(i, vals.last()).drop_last(), voter_votes_fn(x, y)) by {
        lemma_sum_swap_remove(vals, i, voter_votes_fn(x, y));
        assert(votes_at(vals[i].vote_positions, x, y) == 0);
    }
}

/// The votes of a voter for object `o` of address `a`, if it has some.
pub fn votes_of(vp: &VotePositions, a: &String, o: &String) -> (r: Option<u128>)
    requires
        votes_wf(*vp),
    ensures
        r is Some <==> has_votes(*vp, a@, o@),
        r matches Some(x) ==> x == votes_at(*vp, a@, o@),
{
    match vp.get(a) {
        Some(inner) => {
            proof {
                let i = vp.key_seq().index_of(a@);
                vp.lemma_has_index(a@);
                vp.lemma_index(i);
                assert(vp.vals@[i].wf());
            }
            match inner.get(o) {
                Some(x) => Some(*x),
                None => None,
            }
        },
        None => None,
    }
}

impl MetaVoteContract {
    /// Every total per object equals the votes that all voters give it.
    pub open spec fn votes_accounted(&self) -> bool {
        forall|a: Seq<char>, o: Seq<char>|
            #[trigger] votes_at(self.votes, a, o) == sum_of(self.voters.vals@, voter_votes_fn(a, o))
    }

    /// The invariants depend only on the voter records, the totals per
    /// object, the contract's voting power, the claims and the delegations:
    /// an operation that changes none of these (a setting, a pending
    /// delegation request, associated data) keeps each of them as it was.
    pub proof fn lemma_accounting_unchanged(c1: MetaVoteContract, c2: MetaVoteContract)
        requires
            c2.voters == c1.voters,
            c2.votes == c1.votes,
            c2.total_voting_power == c1.total_voting_power,
            c2.claimable_mpdao == c1.claimable_mpdao,
            c2.claimable_stnear == c1.claimable_stnear,
            c2.total_unclaimed_mpdao == c1.total_unclaimed_mpdao,
            c2.total_unclaimed_stnear == c1.total_unclaimed_stnear,
            c2.evm_delegates == c1.evm_delegates,
            c2.evm_delegation_signatures == c1.evm_delegation_signatures,
        ensures
            c1.voters_balanced() == c2.voters_balanced(),
            c1.vp_accounted() == c2.vp_accounted(),
            c1.votes_accounted() == c2.votes_accounted(),
            c1.claims_accounted() == c2.claims_accounted(),
            c1.delegations_consistent() == c2.delegations_consistent(),
    {
    }

    /// Whether removing votes for object `o` of address `a` is locked at `now`.
    pub fn is_vote_locked(&self, a: &String, o: &String, now: u64) -> (r: bool)
        ensures
            r == votes_locked(*self, a@, o@, now),
    {
        match &self.lock_votes_in_address {
            Some(la) => {
                if self.lock_votes_in_end_timestamp_ms > now && *la == *a {
                    let mut prefix = u16_decimal(self.lock_votes_in_numeric_id);
                    prefix.push(124u8);
                    starts_with(o.as_str().as_bytes(), prefix.as_slice())
                } else {
                    false
                }
            },
            None => false,
        }
    }

    /// Adds `amount` to the contract's total for object `o` of address `a`.
    fn increase_total_votes(&mut self, amount: u128, a: &String, o: &String)
        requires
            votes_wf(old(self).votes),
            votes_at(old(self).votes, a@, o@) + amount <= u128::MAX,
        ensures
            votes_wf(final(self).votes),
            votes_changed(old(self).votes, final(self).votes, a@, o@, votes_at(old(self).votes, a@, o@) + amount),
            totals_view(final(self).votes) == totals_view(old(self).votes).insert((a@, o@), (votes_at(old(self).votes, a@, o@) + amount) as u128),
            ordered_after_set(old(self).votes, final(self).votes, a@, o@),
            *final(self) == (MetaVoteContract { votes: final(self).votes, ..*old(self) }),
    {
        let current: u128 = match votes_of(&self.votes, a, o) {
            Some(x) => x,
            None => 0,
        };
        set_votes(&mut self.votes, a, o, current + amount);
    }

    /// Takes `amount` off the contract's total for object `o` of address `a`;
    /// a total that reaches zero is removed, and so is an address left
    /// without objects.
    fn decrease_total_votes(&mut self, amount: u128, a: &String, o: &String)
        requires
            votes_wf(old(self).votes),
            decrease_error(*old(self), a@, o@, amount as int) is None,
        ensures
            votes_wf(final(self).votes),
            votes_changed(old(self).votes, final(self).votes, a@, o@, votes_at(old(self).votes, a@, o@) - amount),
            totals_view(final(self).votes) == totals_lowered(totals_view(old(self).votes), a@, o@, votes_at(old(self).votes, a@, o@) - amount),
            totals_ordered(old(self).votes, final(self).votes, a@, o@, votes_at(old(self).votes, a@, o@) - amount),
            *final(self) == (MetaVoteContract { votes: final(self).votes, ..*old(self) }),
    {
        let current: u128 = match votes_of(&self.votes, a, o) {
            Some(x) => x,
            None => 0,
        };
        if current - amount == 0 {
            remove_votes(&mut self.votes, a, o);
        } else {
            set_votes(&mut self.votes, a, o, current - amount);
        }
    }

    /// Gives `voting_power` of the caller's free voting power to object
    /// `votable_object_id` of `contract_address`; the contract's total for
    /// the object grows by the same amount.
    pub fn vote(&mut self, caller: &String, voting_power: u128, contract_address: &String, votable_object_id: &String) -> (r: Result<(), MetaVoteError>)
        requires
            old(self).wf(),
        ensures
            final(self).wf(),
            r == (match vote_error(*old(self), caller@, voting_power, contract_address@, votable_object_id@) {
                Some(e) => Err(e),
                None => Ok(()),
            }),
            r is Err ==> *final(self) == *old(self),
            r is Ok ==> voted(*old(self), *final(self), caller@, voting_power, contract_address@, votable_object_id@),
            r is Ok ==> (old(self).voters_balanced() ==> final(self).voters_balanced())
                && (old(self).vp_accounted() ==> final(self).vp_accounted())
                && (old(self).votes_accounted() ==> final(self).votes_accounted()),
    {
        let i = match self.voters.find(caller) {
            Some(i) => i,
            None => return Err(MetaVoteError::VoterNotFound),
        };
        proof {
            self.voters.lemma_index(i as int);
            assert(self.voters.vals@[i as int].wf());
        }
        if self.voters.vals[i].available_voting_power < voting_power {
            return Err(MetaVoteError::NotEnoughVotingPower);
        }
        if self.voters.vals[i].vote_positions.len() > self.max_voting_positions as usize {
            return Err(MetaVoteError::TooManyVotingPositions);
        }
        let current: u128 = match votes_of(&self.voters.vals[i].vote_positions, contract_address, votable_object_id) {
            Some(x) => x,
            None => 0,
        };
        let new_votes = match current.checked_add(voting_power) {
            Some(x) => x,
            None => return Err(MetaVoteError::Overflow),
        };
        let total: u128 = match votes_of(&self.votes, contract_address, votable_object_id) {
            Some(x) => x,
            None => 0,
        };
        if total.checked_add(voting_power).is_none() {
            return Err(MetaVoteError::Overflow);
        }
        let ghost old_self = *self;
        let mut voter = self.voters.take_at(i, Voter::new());
        let ghost v0 = voter;
        voter.available_voting_power = voter.available_voting_power - voting_power;
        set_votes(&mut voter.vote_positions, contract_address, votable_object_id, new_votes);
        self.increase_total_votes(voting_power, contract_address, votable_object_id);
        proof {
            if old_self.voters_balanced() {
                assert(old_self.voters.vals@[i as int].vp_balanced());
            }
            lemma_replace_voter(old_self.voters.vals@, i as int, voter);
            if old_self.votes_accounted() {
                lemma_votes_step(old_self.votes, self.votes, old_self.voters.vals@, i as int, voter, contract_address@, votable_object_id@, voting_power as int);
            }
        }
        self.voters.set_at(i, voter);
        proof {
            assert(self.voters.vals@ == old_self.voters.vals@.update(i as int, voter));
            self.voters.lemma_index(i as int);
        }
        Ok(())
    }

    /// The caller takes back all its votes for object `votable_object_id` of
    /// `contract_address`: they return to its free voting power and leave the
    /// contract's total. Refused while the operator's filter locks them.
    pub fn unvote(&mut self, caller: &String, contract_address: &String, votable_object_id: &String, now: u64) -> (r: Result<(), MetaVoteError>)
        requires
            old(self).wf(),
        ensures
            final(self).wf(),
            r == (match unvote_error(*old(self), caller@, contract_address@, votable_object_id@, now) {
                Some(e) => Err(e),
                None => Ok(()),
            }),
            r is Err ==> *final(self) == *old(self),
            r is Ok ==> unvoted(*old(self), *final(self), caller@, contract_address@, votable_object_id@),
            r is Ok ==> (old(self).voters_balanced() ==> final(self).voters_balanced())
                && (old(self).vp_accounted() ==> final(self).vp_accounted())
                && (old(self).votes_accounted() ==> final(self).votes_accounted()),
    {
        if self.is_vote_locked(contract_address, votable_object_id, now) {
            return Err(MetaVoteError::VotesLocked(self.lock_votes_in_end_timestamp_ms));
        }
        self.remove_voting_position(caller, contract_address, votable_object_id)
    }

    /// Removes the caller's votes for an object, as `unvote` does once the
    /// filter has let it through.
    fn remove_voting_position(&mut self, caller: &String, contract_address: &String, votable_object_id: &String) -> (r: Result<(), MetaVoteError>)
        requires
            old(self).wf(),
        ensures
            final(self).wf(),
            r == (match remove_vote_error(*old(self), caller@, contract_address@, votable_object_id@) {
                Some(e) => Err(e),
                None => Ok(()),
            }),
            r is Err ==> *final(self) == *old(self),
            r is Ok ==> unvoted(*old(self), *final(self), caller@, contract_address@, votable_object_id@),
            r is Ok ==> (old(self).voters_balanced() ==> final(self).voters_balanced())
                && (old(self).vp_accounted() ==> final(self).vp_accounted())
                && (old(self).votes_accounted() ==> final(self).votes_accounted()),
    {
        let i = match self.voters.find(caller) {
            Some(i) => i,
            None => return Err(MetaVoteError::VoterNotFound),
        };
        proof {
            self.voters.lemma_index(i as int);
            assert(self.voters.vals@[i as int].wf());
        }
        let votes = match votes_of(&self.voters.vals[i].vote_positions, contract_address, votable_object_id) {
            Some(x) => x,
            None => return Err(MetaVoteError::NoVotesForObject),
        };
        let available = match self.voters.vals[i].available_voting_power.checked_add(votes) {
            Some(x) => x,
            None => return Err(MetaVoteError::Overflow),
        };
        let total: u128 = match votes_of(&self.votes, contract_address, votable_object_id) {
            Some(x) => x,
            None => return Err(MetaVoteError::NoTotalsForObject),
        };
        if total < votes {
            return Err(MetaVoteError::TotalVotesTooSmall);
        }
        let ghost old_self = *self;
        let mut voter = self.voters.take_at(i, Voter::new());
        voter.available_voting_power = available;
        remove_votes(&mut voter.vote_positions, contract_address, votable_object_id);
        self.decrease_total_votes(votes, contract_address, votable_object_id);
        proof {
            if old_self.voters_balanced() {
                assert(old_self.voters.vals@[i as int].vp_balanced());
            }
            lemma_replace_voter(old_self.voters.vals@, i as int, voter);
            if old_self.votes_accounted() {
                lemma_votes_step(old_self.votes, self.votes, old_self.voters.vals@, i as int, voter, contract_address@, votable_object_id@, -(votes as int));
            }
        }
        self.voters.set_at(i, voter);
        proof {
            assert(self.voters.vals@ == old_self.voters.vals@.update(i as int, voter));
            self.voters.lemma_index(i as int);
        }
        Ok(())
    }
    /// Sets the caller's votes for object `votable_object_id` of
    /// `contract_address` to `voting_power`, taking the difference from or
    /// giving it back to its free voting power; the contract's total moves by
    /// the same difference. Setting them to zero is `unvote`; otherwise the
    /// object keeps its place among the caller's votes.
    pub fn rebalance(&mut self, caller: &String, voting_power: u128, contract_address: &String, votable_object_id: &String, now: u64) -> (r: Result<(), MetaVoteError>)
        requires
            old(self).wf(),
        ensures
            final(self).wf(),
            r == (match rebalance_error(*old(self), caller@, voting_power, contract_address@, votable_object_id@, now) {
                Some(e) => Err(e),
                None => Ok(()),
            }),
            r is Err ==> *final(self) == *old(self),
            r is Ok ==> ({
                let v = old(self).voter(caller@);
                let nv = final(self).voter(caller@);
                let a = contract_address@;
                let o = votable_object_id@;
                let votes = votes_at(v.vote_positions, a, o);
                &&& old(self).voter_replaced(final(self), caller@)
                &&& votes_changed(v.vote_positions, nv.vote_positions, a, o, voting_power as int)
                &&& totals_view(nv.vote_positions) == totals_lowered(totals_view(v.vote_positions), a, o, voting_power as int)
                &&& nv.available_voting_power == v.available_voting_power + votes - voting_power
                &&& nv.balance == v.balance
                &&& nv.locking_positions == v.locking_positions
                &&& votes_changed(old(self).votes, final(self).votes, a, o, votes_at(old(self).votes, a, o) + voting_power - votes)
                &&& totals_view(final(self).votes) == if votes < voting_power {
                    totals_view(old(self).votes).insert((a, o), (votes_at(old(self).votes, a, o) + voting_power - votes) as u128)
                } else {
                    totals_lowered(totals_view(old(self).votes), a, o, votes_at(old(self).votes, a, o) + voting_power - votes)
                }
                &&& *final(self) == (MetaVoteContract { voters: final(self).voters, votes: final(self).votes, ..*old(self) })
                &&& voting_power > 0 ==> ordered_after_set(v.vote_positions, nv.vote_positions, a, o)
                &&& votes < voting_power ==> ordered_after_set(old(self).votes, final(self).votes, a, o)
                &&& votes > voting_power ==> totals_ordered(old(self).votes, final(self).votes, a, o, votes_at(old(self).votes, a, o) + voting_power - votes)
            }),
            r is Ok && voting_power == 0 ==> unvoted(*old(self), *final(self), caller@, contract_address@, votable_object_id@),
            r is Ok ==> (old(self).voters_balanced() ==> final(self).voters_balanced())
                && (old(self).vp_accounted() ==> final(self).vp_accounted())
                && (old(self).votes_accounted() ==> final(self).votes_accounted()),
    {
        let i = match self.voters.find(caller) {
            Some(i) => i,
            None => return Err(MetaVoteError::VoterNotFound),
        };
        proof {
            self.voters.lemma_index(i as int);
            assert(self.voters.vals@[i as int].wf());
        }
        let votes = match votes_of(&self.voters.vals[i].vote_positions, contract_address, votable_object_id) {
            Some(x) => x,
            None => return Err(MetaVoteError::NoVotesForObject),
        };
        if votes == voting_power {
            return Err(MetaVoteError::SameVotingPower);
        }
        if voting_power == 0 {
            return self.unvote(caller, contract_address, votable_object_id, now);
        }
        let total: Option<u128> = votes_of(&self.votes, contract_address, votable_object_id);
        let available: u128;
        if votes < voting_power {
            let additional = voting_power - votes;
            if self.voters.vals[i].available_voting_power < additional {
                return Err(MetaVoteError::NotEnoughVotingPower);
            }
            let t: u128 = match total {
                Some(x) => x,
                None => 0,
            };
            if t.checked_add(additional).is_none() {
                return Err(MetaVoteError::Overflow);
            }
            available = self.voters.vals[i].available_voting_power - additional;
        } else {
            let removed = votes - voting_power;
            available = match self.voters.vals[i].available_voting_power.checked_add(removed) {
                Some(x) => x,
                None => return Err(MetaVoteError::Overflow),
            };
            match total {
                None => return Err(MetaVoteError::NoTotalsForObject),
                Some(t) => {
                    if t < removed {
                        return Err(MetaVoteError::TotalVotesTooSmall);
                    }
                },
            }
        }
        let ghost old_self = *self;
        let mut voter = self.voters.take_at(i, Voter::new());
        voter.available_voting_power = available;
        set_votes(&mut voter.vote_positions, contract_address, votable_object_id, voting_power);
        if votes < voting_power {
            self.increase_total_votes(voting_power - votes, contract_address, votable_object_id);
        } else {
            self.decrease_total_votes(votes - voting_power, contract_address, votable_object_id);
        }
        proof {
            if old_self.voters_balanced() {
                assert(old_self.voters.vals@[i as int].vp_balanced());
            }
            lemma_replace_voter(old_self.voters.vals@, i as int, voter);
            if old_self.votes_accounted() {
                lemma_votes_step(old_self.votes, self.votes, old_self.voters.vals@, i as int, voter, contract_address@, votable_object_id@, voting_power - votes);
            }
        }
        self.voters.set_at(i, voter);
        proof {
            assert(self.voters.vals@ == old_self.voters.vals@.update(i as int, voter));
            self.voters.lemma_index(i as int);
        }
        Ok(())
    }

    /// Sets the filter that locks votes (operator): until `end_timestamp_ms`,
    /// votes for objects of `votable_address` whose id begins with
    /// `votable_numeric_id` and a `|` cannot be removed.
    pub fn set_lock_in_vote_filters(&mut self, caller: &String, end_timestamp_ms: u64, votable_numeric_id: u16, votable_address: Option<String>) -> (r: Result<(), MetaVoteError>)
        ensures
            r is Ok <==> caller@ == old(self).operator_id@,
            r matches Err(e) ==> e == MetaVoteError::OnlyOperator,
            r is Err ==> *final(self) == *old(self),
            r is Ok ==> *final(self) == (MetaVoteContract {
                lock_votes_in_end_timestamp_ms: end_timestamp_ms,
                lock_votes_in_address: votable_address,
                lock_votes_in_numeric_id: votable_numeric_id,
                ..*old(self)
            }),
    {
        self.assert_operator(caller)?;
        self.lock_votes_in_end_timestamp_ms = end_timestamp_ms;
        self.lock_votes_in_address = votable_address;
        self.lock_votes_in_numeric_id = votable_numeric_id;
        Ok(())
    }

    /// The filter that locks votes: its end, address and number.
    pub fn get_lock_in_vote_filters(&self) -> (r: (u64, Option<String>, u16))
        ensures
            r.0 == self.lock_votes_in_end_timestamp_ms,
            r.1 == self.lock_votes_in_address,
            r.2 == self.lock_votes_in_numeric_id,
    {
        (self.lock_votes_in_end_timestamp_ms, self.lock_votes_in_address.clone(), self.lock_votes_in_numeric_id)
    }
}

} // verus!
