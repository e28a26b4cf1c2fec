//! Delegation of EVM addresses: an account asks to act for an EVM address
//! (with the address's signature), the operator confirms it, and the account
//! then claims and votes for the address's pseudo account.
use vstd::prelude::*;
use crate::meta_vote::{MetaVoteContract, MetaVoteError, TokenTransfer, claimable_of, claims_removed, claim_remove};
use crate::meta_vote::voting::{vote_error, unvote_error, voted, unvoted};
use crate::str_map::{StrMap, swap_removed};
use crate::text::contains_byte;
use crate::utils::pseudo_near_address;
use vstd::utf8::encode_utf8;

verus! {

/// The views of a list of strings.
pub open spec fn strings_view(v: Seq<String>) -> Seq<Seq<char>> {
    v.map_values(|s: String| s@)
}

/// Keeps the strings other than `x`.
pub open spec fn other_than(x: Seq<char>) -> spec_fn(Seq<char>) -> bool {
    |s: Seq<char>| s != x
}

/// The delegates: account -> the EVM addresses it acts for.
pub open spec fn delegates_view(m: StrMap<Vec<String>>) -> Map<Seq<char>, Seq<Seq<char>>> {
    Map::new(|k: Seq<char>| m@.contains_key(k), |k: Seq<char>| strings_view(m@[k]@))
}

/// A map of pairs of strings, by their views.
pub open spec fn pairs_map_view(m: StrMap<(String, String)>) -> Map<Seq<char>, (Seq<char>, Seq<char>)> {
    Map::new(|k: Seq<char>| m@.contains_key(k), |k: Seq<char>| (m@[k].0@, m@[k].1@))
}

/// The EVM addresses that `account` acts for (none where it has no entry).
pub open spec fn delegated_to(d: Map<Seq<char>, Seq<Seq<char>>>, account: Seq<char>) -> Seq<Seq<char>> {
    if d.contains_key(account) {
        d[account]
    } else {
        Seq::empty()
    }
}

/// The delegates after `evm` is confirmed for `account`, which replaces the
/// delegation of `evm` to another account, if any.
pub open spec fn confirmed(d: Map<Seq<char>, Seq<Seq<char>>>, sigs: Map<Seq<char>, (Seq<char>, Seq<char>)>, evm: Seq<char>, account: Seq<char>) -> Map<Seq<char>, Seq<Seq<char>>> {
    let d1 = if sigs.contains_key(evm) {
        let prev = sigs[evm].0;
        let kept = d[prev].filter(other_than(evm));
        if kept.len() == 0 {
            d.remove(prev)
        } else {
            d.insert(prev, kept)
        }
    } else {
        d
    };
    d1.insert(account, delegated_to(d1, account).push(evm))
}

/// The accounts with a list, in order, after `evm` is confirmed for
/// `account`: an account whose list the address leaves empty gives its place
/// to the last account, and an account without a list gets one at the end.
pub open spec fn confirmed_keys(keys: Seq<Seq<char>>, d: Map<Seq<char>, Seq<Seq<char>>>, sigs: Map<Seq<char>, (Seq<char>, Seq<char>)>, evm: Seq<char>, account: Seq<char>) -> Seq<Seq<char>> {
    let k1 = if sigs.contains_key(evm) && d[sigs[evm].0].filter(other_than(evm)).len() == 0 {
        swap_removed(keys, keys.index_of(sigs[evm].0))
    } else {
        keys
    };
    if k1.contains(account) {
        k1
    } else {
        k1.push(account)
    }
}

/// Each account's list names exactly the EVM addresses whose signature names
/// that account, each once.
pub open spec fn delegation_consistent(d: Map<Seq<char>, Seq<Seq<char>>>, sigs: Map<Seq<char>, (Seq<char>, Seq<char>)>) -> bool {
    &&& forall|a: Seq<char>, e: Seq<char>|
        #[trigger] delegated_to(d, a).contains(e) <==> (sigs.contains_key(e) && sigs[e].0 == a)
    &&& forall|a: Seq<char>| #[trigger] delegated_to(d, a).no_duplicates()
}

/// Leaving some strings out of a list without repeats leaves a list without
/// repeats.
proof fn lemma_filter_no_duplicates(s: Seq<Seq<char>>, e: Seq<char>)
    requires
        s.no_duplicates(),
    ensures
        s.filter(other_than(e)).no_duplicates(),
    decreases s.len(),
{
    reveal_with_fuel(Seq::<_>::filter, 1);
    if s.len() > 0 {
        let t = s.drop_last();
        assert(t.no_duplicates()) by {
            assert forall|i: int, j: int| 0 <= i < t.len() && 0 <= j < t.len() && i != j implies t[i] != t[j] by {
                assert(t[i] == s[i] && t[j] == s[j]);
            }
        }
        lemma_filter_no_duplicates(t, e);
        let f = t.filter(other_than(e));
        if other_than(e)(s.last()) {
            assert(s.filter(other_than(e)) == f.push(s.last()));
            assert(!f.contains(s.last())) by {
                if f.contains(s.last()) {
                    t.lemma_filter_contains_rev(other_than(e), s.last());
                    let k = choose|k: int| 0 <= k < t.len() && t[k] == s.last();
                    assert(s[k] == s[s.len() - 1]);
                }
            }
            lemma_push_no_duplicates(f, s.last());
        } else {
            assert(s.filter(other_than(e)) == f);
        }
    }
}

/// Pushing a string that a list without repeats lacks keeps it without repeats.
proof fn lemma_push_no_duplicates(s: Seq<Seq<char>>, x: Seq<char>)
    requires
        s.no_duplicates(),
        !s.contains(x),
    ensures
        s.push(x).no_duplicates(),
{
    let p = s.push(x);
    assert forall|i: int, j: int| 0 <= i < p.len() && 0 <= j < p.len() && i != j implies p[i] != p[j] by {
        if i == s.len() {
            assert(s[j] == p[j]);
        } else if j == s.len() {
            assert(s[i] == p[i]);
        } else {
            assert(s[i] == p[i] && s[j] == p[j]);
        }
    }
}

/// The strings of a list other than `e` are those of the list, but `e`.
proof fn lemma_filter_other(s: Seq<Seq<char>>, e: Seq<char>, x: Seq<char>)
    ensures
        s.filter(other_than(e)).contains(x) <==> (s.contains(x) && x != e),
{
    let f = s.filter(other_than(e));
    if f.contains(x) {
        s.lemma_filter_contains_rev(other_than(e), x);
        let i = choose|i: int| 0 <= i < f.len() && f[i] == x;
        s.lemma_filter_pred(other_than(e), i);
    }
    if s.contains(x) && x != e {
        let i = choose|i: int| 0 <= i < s.len() && s[i] == x;
        s.lemma_filter_contains(other_than(e), i);
    }
}

/// Confirming a delegation keeps the lists and the signatures in agreement:
/// the address leaves the list of the account it was delegated to and joins
/// the list of the new one.
pub proof fn lemma_confirm_keeps_delegation(d: Map<Seq<char>, Seq<Seq<char>>>, sigs: Map<Seq<char>, (Seq<char>, Seq<char>)>, evm: Seq<char>, account: Seq<char>, signature: Seq<char>)
    requires
        delegation_consistent(d, sigs),
    ensures
        delegation_consistent(confirmed(d, sigs, evm, account), sigs.insert(evm, (account, signature))),
{
    let d2 = confirmed(d, sigs, evm, account);
    let s2 = sigs.insert(evm, (account, signature));
    let d1 = if sigs.contains_key(evm) {
        let prev = sigs[evm].0;
        let kept = d[prev].filter(other_than(evm));
        if kept.len() == 0 { d.remove(prev) } else { d.insert(prev, kept) }
    } else {
        d
    };
    assert forall|a: Seq<char>, e: Seq<char>|
        #[trigger] delegated_to(d2, a).contains(e) <==> (s2.contains_key(e) && s2[e].0 == a) by {
        assert(delegated_to(d, a).contains(e) <==> (sigs.contains_key(e) && sigs[e].0 == a));
        // what `d1` holds for `a`
        if sigs.contains_key(evm) {
            let prev = sigs[evm].0;
            assert(delegated_to(d, prev).contains(evm));
            lemma_filter_other(d[prev], evm, e);
            if a == prev {
                let kept = d[prev].filter(other_than(evm));
                if kept.len() == 0 {
                    assert(!kept.contains(e));
                }
                assert(delegated_to(d1, a).contains(e) <==> (delegated_to(d, a).contains(e) && e != evm));
            } else {
                assert(delegated_to(d1, a) == delegated_to(d, a));
            }
        } else {
            assert(delegated_to(d1, a) == delegated_to(d, a));
        }
        if a == account {
            assert(delegated_to(d2, a) == delegated_to(d1, account).push(evm));
            assert(delegated_to(d2, a).contains(e) <==> (delegated_to(d1, a).contains(e) || e == evm)) by {
                let l = delegated_to(d1, account);
                if l.push(evm).contains(e) && e != evm {
                    let i = choose|i: int| 0 <= i < l.push(evm).len() && l.push(evm)[i] == e;
                    assert(i < l.len());
                    assert(l[i] == e);
                }
                if l.contains(e) {
                    let i = choose|i: int| 0 <= i < l.len() && l[i] == e;
                    assert(l.push(evm)[i] == e);
                }
                assert(l.push(evm)[l.len() as int] == evm);
            }
        } else {
            assert(delegated_to(d2, a) == delegated_to(d1, a));
        }
    }
    assert forall|a: Seq<char>| #[trigger] delegated_to(d2, a).no_duplicates() by {
        assert(delegated_to(d, a).no_duplicates());
        if sigs.contains_key(evm) {
            let prev = sigs[evm].0;
            assert(delegated_to(d, prev).no_duplicates());
            assert(delegated_to(d, prev).contains(evm));
            lemma_filter_no_duplicates(d[prev], evm);
        }
        assert(delegated_to(d1, a).no_duplicates());
        if a == account {
            assert(delegated_to(d, account).no_duplicates());
            assert(delegated_to(d1, account).no_duplicates());
            assert(!delegated_to(d1, account).contains(evm)) by {
                assert(delegated_to(d, account).contains(evm) <==> (sigs.contains_key(evm) && sigs[evm].0 == account));
                if sigs.contains_key(evm) {
                    lemma_filter_other(d[sigs[evm].0], evm, evm);
                }
            }
            lemma_push_no_duplicates(delegated_to(d1, account), evm);
        }
    }
}

/// Removing a delegation keeps the lists and the signatures in agreement.
pub proof fn lemma_remove_keeps_delegation(d: Map<Seq<char>, Seq<Seq<char>>>, sigs: Map<Seq<char>, (Seq<char>, Seq<char>)>, evm: Seq<char>, caller: Seq<char>)
    requires
        delegation_consistent(d, sigs),
        sigs.contains_key(evm),
        sigs[evm].0 == caller,
        d.contains_key(caller),
    ensures
        delegation_consistent(d.insert(caller, d[caller].filter(other_than(evm))), sigs.remove(evm)),
{
    let d2 = d.insert(caller, d[caller].filter(other_than(evm)));
    let s2 = sigs.remove(evm);
    assert forall|a: Seq<char>, e: Seq<char>|
        #[trigger] delegated_to(d2, a).contains(e) <==> (s2.contains_key(e) && s2[e].0 == a) by {
        assert(delegated_to(d, a).contains(e) <==> (sigs.contains_key(e) && sigs[e].0 == a));
        if a == caller {
            lemma_filter_other(d[caller], evm, e);
        }
    }
    assert forall|a: Seq<char>| #[trigger] delegated_to(d2, a).no_duplicates() by {
        assert(delegated_to(d, a).no_duplicates());
        assert(delegated_to(d, caller).no_duplicates());
        lemma_filter_no_duplicates(d[caller], evm);
    }
}

/// Whether `evm` contains a dot.
pub open spec fn has_dot(evm: Seq<char>) -> bool {
    encode_utf8(evm).contains(46u8)
}

/// The strings of `list` other than `x`, in order.
fn without_address(list: &Vec<String>, x: &String) -> (r: Vec<String>)
    ensures
        strings_view(r@) == strings_view(list@).filter(other_than(x@)),
{
    let mut r: Vec<String> = Vec::new();
    let mut k: usize = 0;
    let ghost sv = strings_view(list@);
    assert(sv.take(0) =~= Seq::<Seq<char>>::empty());
    assert(strings_view(r@) =~= Seq::<Seq<char>>::empty());
    proof {
        reveal_with_fuel(Seq::<_>::filter, 1);
    }
    while k < list.len()
        invariant
            0 <= k <= list@.len(),
            sv == strings_view(list@),
            sv.len() == list@.len(),
            strings_view(r@) == sv.take(k as int).filter(other_than(x@)),
        decreases list@.len() - k,
    {
        assert(sv.take(k as int + 1).drop_last() =~= sv.take(k as int));
        assert(sv[k as int] == list@[k as int]@);
        assert(sv.take(k as int + 1).last() == sv[k as int]);
        let ghost t = sv.take(k as int + 1);
        proof {
            reveal_with_fuel(Seq::<_>::filter, 1);
        }
        if list[k] != *x {
            let ghost r0 = r@;
            r.push(list[k].clone());
            assert(strings_view(r@) =~= strings_view(r0).push(list@[k as int]@));
            assert(other_than(x@)(t.last()));
            assert(t.filter(other_than(x@)) == t.drop_last().filter(other_than(x@)).push(t.last()));
        } else {
            assert(!other_than(x@)(t.last()));
            assert(t.filter(other_than(x@)) == t.drop_last().filter(other_than(x@)));
        }
        k = k + 1;
    }
    assert(sv.take(k as int) =~= sv);
    r
}

/// A copy of a list of strings.
fn copy_strings(list: &Vec<String>) -> (r: Vec<String>)
    ensures
        strings_view(r@) == strings_view(list@),
        r@.len() == list@.len(),
{
    let mut r: Vec<String> = Vec::new();
    let mut k: usize = 0;
    while k < list.len()
        invariant
            0 <= k <= list@.len(),
            r@.len() == k,
            forall|j: int| 0 <= j < k ==> (#[trigger] r@[j])@ == list@[j]@,
        decreases list@.len() - k,
    {
        r.push(list[k].clone());
        k = k + 1;
    }
    assert(strings_view(r@) =~= strings_view(list@));
    r
}

/// Whether `x` occurs in `list`.
fn contains_string(list: &Vec<String>, x: &String) -> (r: bool)
    ensures
        r == strings_view(list@).contains(x@),
{
    let mut k: usize = 0;
    while k < list.len()
        invariant
            0 <= k <= list@.len(),
            forall|j: int| 0 <= j < k ==> (#[trigger] list@[j])@ != x@,
        decreases list@.len() - k,
    {
        if list[k] == *x {
            assert(strings_view(list@)[k as int] == x@);
            return true;
        }
        k = k + 1;
    }
    assert forall|j: int| 0 <= j < strings_view(list@).len() implies strings_view(list@)[j] != x@ by {
        assert(strings_view(list@)[j] == list@[j]@);
    }
    false
}

impl MetaVoteContract {
    /// Each account's list of EVM addresses names exactly the addresses whose
    /// signature names that account, each once.
    pub open spec fn delegations_consistent(&self) -> bool {
        delegation_consistent(delegates_view(self.evm_delegates), pairs_map_view(self.evm_delegation_signatures))
    }
}

impl MetaVoteContract {
    /// The caller asks to act for `evm_address`, giving the address's
    /// signature (one yoctoNEAR attached); the operator confirms it later.
    pub fn pre_delegate_evm_address(&mut self, caller: &String, attached_deposit: u128, evm_address: String, signature: String) -> (r: Result<(), MetaVoteError>)
        requires
            old(self).wf(),
        ensures
            final(self).wf(),
            r == (if attached_deposit != 1 {
                Err(MetaVoteError::RequiresOneYocto)
            } else if has_dot(evm_address@) {
                Err(MetaVoteError::EvmAddressWithDot)
            } else {
                Ok(())
            }),
            r is Err ==> *final(self) == *old(self),
            r is Ok ==> pairs_map_view(final(self).evm_pre_delegation) == pairs_map_view(old(self).evm_pre_delegation).insert(evm_address@, (caller@, signature@)),
            r is Ok ==> *final(self) == (MetaVoteContract { evm_pre_delegation: final(self).evm_pre_delegation, ..*old(self) }),
    {
        if attached_deposit != 1 {
            return Err(MetaVoteError::RequiresOneYocto);
        }
        if contains_byte(evm_address.as_str().as_bytes(), 46u8) {
            return Err(MetaVoteError::EvmAddressWithDot);
        }
        let ghost m0 = self.evm_pre_delegation;
        self.evm_pre_delegation.insert(&evm_address, (caller.clone(), signature));
        assert(pairs_map_view(self.evm_pre_delegation) =~= pairs_map_view(m0).insert(evm_address@, (caller@, signature@)));
        Ok(())
    }

    /// The pending request for `evm_address`: the account and the signature.
    pub fn get_pre_delegate_evm_address(&self, evm_address: &String) -> (r: Option<(String, String)>)
        requires
            self.wf(),
        ensures
            r is Some <==> self.evm_pre_delegation@.contains_key(evm_address@),
            r matches Some(p) ==> p == self.evm_pre_delegation@[evm_address@],
    {
        match self.evm_pre_delegation.get(evm_address) {
            Some(p) => Some((p.0.clone(), p.1.clone())),
            None => None,
        }
    }

    /// Drops the pending request for `evm_address` (operator, one yoctoNEAR).
    pub fn operator_remove_pre_delegate_evm_address(&mut self, caller: &String, attached_deposit: u128, evm_address: &String) -> (r: Result<(), MetaVoteError>)
        requires
            old(self).wf(),
        ensures
            final(self).wf(),
            r == (if attached_deposit != 1 {
                Err(MetaVoteError::RequiresOneYocto)
            } else if caller@ != old(self).operator_id@ {
                Err(MetaVoteError::OnlyOperator)
            } else {
                Ok(())
            }),
            r is Err ==> *final(self) == *old(self),
            r is Ok ==> final(self).evm_pre_delegation@ == old(self).evm_pre_delegation@.remove(evm_address@),
            r is Ok ==> *final(self) == (MetaVoteContract { evm_pre_delegation: final(self).evm_pre_delegation, ..*old(self) }),
    {
        if attached_deposit != 1 {
            return Err(MetaVoteError::RequiresOneYocto);
        }
        self.assert_operator(caller)?;
        self.evm_pre_delegation.remove(evm_address);
        Ok(())
    }

    /// Confirms the pending request for `evm_address` (operator, one
    /// yoctoNEAR): the address is delegated to the account that asked,
    /// leaving the list of an account it was delegated to before, and the
    /// signature is kept. Only the request goes where the address was
    /// already delegated to that account; nothing changes without a request.
    pub fn operator_confirm_delegated_evm_address(&mut self, caller: &String, attached_deposit: u128, evm_address: &String) -> (r: Result<(), MetaVoteError>)
        requires
            old(self).wf(),
        ensures
            final(self).wf(),
            r == (if attached_deposit != 1 {
                Err(MetaVoteError::RequiresOneYocto)
            } else if caller@ != old(self).operator_id@ {
                Err(MetaVoteError::OnlyOperator)
            } else if old(self).evm_pre_delegation@.contains_key(evm_address@)
                && old(self).evm_delegation_signatures@.contains_key(evm_address@)
                && old(self).evm_delegation_signatures@[evm_address@].0@ != old(self).evm_pre_delegation@[evm_address@].0@
                && !old(self).evm_delegates@.contains_key(old(self).evm_delegation_signatures@[evm_address@].0@) {
                Err(MetaVoteError::MissingDelegateList)
            } else {
                Ok(())
            }),
            r is Err || !old(self).evm_pre_delegation@.contains_key(evm_address@) ==> *final(self) == *old(self),
            r is Ok && old(self).evm_pre_delegation@.contains_key(evm_address@) ==> ({
                let req = old(self).evm_pre_delegation@[evm_address@];
                let sigs = pairs_map_view(old(self).evm_delegation_signatures);
                &&& final(self).evm_pre_delegation@ == old(self).evm_pre_delegation@.remove(evm_address@)
                &&& sigs.contains_key(evm_address@) && sigs[evm_address@].0 == req.0@ ==> *final(self) == (MetaVoteContract {
                    evm_pre_delegation: final(self).evm_pre_delegation,
                    ..*old(self)
                })
                &&& !(sigs.contains_key(evm_address@) && sigs[evm_address@].0 == req.0@) ==> {
                    &&& delegates_view(final(self).evm_delegates) == confirmed(delegates_view(old(self).evm_delegates), sigs, evm_address@, req.0@)
                    &&& final(self).evm_delegates.key_seq() == confirmed_keys(old(self).evm_delegates.key_seq(), delegates_view(old(self).evm_delegates), sigs, evm_address@, req.0@)
                    &&& pairs_map_view(final(self).evm_delegation_signatures) == sigs.insert(evm_address@, (req.0@, req.1@))
                    &&& *final(self) == (MetaVoteContract {
                        evm_pre_delegation: final(self).evm_pre_delegation,
                        evm_delegates: final(self).evm_delegates,
                        evm_delegation_signatures: final(self).evm_delegation_signatures,
                        ..*old(self)
                    })
                }
            }),
            r is Ok ==> (old(self).delegations_consistent() ==> final(self).delegations_consistent()),
    {
        if attached_deposit != 1 {
            return Err(MetaVoteError::RequiresOneYocto);
        }
        self.assert_operator(caller)?;
        let ghost old_self = *self;
        let ghost d0 = delegates_view(old_self.evm_delegates);
        let ghost sigs = pairs_map_view(old_self.evm_delegation_signatures);
        let (account, signature) = match self.evm_pre_delegation.get(evm_address) {
            Some(p) => (p.0.clone(), p.1.clone()),
            None => return Ok(()),
        };
        let existing: Option<String> = match self.evm_delegation_signatures.get(evm_address) {
            Some(e) => Some(e.0.clone()),
            None => None,
        };
        let mut prev_index: Option<usize> = None;
        match &existing {
            Some(prev) => {
                if *prev == account {
                    self.evm_pre_delegation.remove(evm_address);
                    return Ok(());
                }
                match self.evm_delegates.find(prev) {
                    Some(i) => {
                        prev_index = Some(i);
                    },
                    None => return Err(MetaVoteError::MissingDelegateList),
                }
            },
            None => {},
        }
        self.evm_pre_delegation.remove(evm_address);
        match (&existing, prev_index) {
            (Some(prev), Some(i)) => {
                proof {
                    self.evm_delegates.lemma_index(i as int);
                }
                let kept = without_address(&self.evm_delegates.vals[i], evm_address);
                if kept.len() == 0 {
                    self.evm_delegates.remove(prev);
                    assert(delegates_view(self.evm_delegates) =~= d0.remove(prev@));
                } else {
                    self.evm_delegates.set_at(i, kept);
                    assert(delegates_view(self.evm_delegates) =~= d0.insert(prev@, strings_view(kept@)));
                }
            },
            _ => {
                assert(delegates_view(self.evm_delegates) =~= d0);
            },
        }
        let ghost d1 = delegates_view(self.evm_delegates);
        let mut list: Vec<String> = match self.evm_delegates.get(&account) {
            Some(l) => copy_strings(l),
            None => Vec::new(),
        };
        assert(strings_view(list@) =~= delegated_to(d1, account@));
        let ghost l0 = list@;
        list.push(evm_address.clone());
        assert(strings_view(list@) =~= strings_view(l0).push(evm_address@));
        self.evm_delegates.insert(&account, list);
        assert(delegates_view(self.evm_delegates) =~= confirmed(d0, sigs, evm_address@, account@));
        let ghost sig_view = signature@;
        self.evm_delegation_signatures.insert(evm_address, (account.clone(), signature));
        assert(pairs_map_view(self.evm_delegation_signatures) =~= sigs.insert(evm_address@, (account@, sig_view)));
        proof {
            if old_self.delegations_consistent() {
                lemma_confirm_keeps_delegation(d0, sigs, evm_address@, account@, sig_view);
            }
        }
        Ok(())
    }
}

impl MetaVoteContract {
    /// The pseudo account of `evm_address`, where the caller acts for it.
    pub fn verify_delegate(&self, caller: &String, evm_address: &String) -> (r: Result<String, MetaVoteError>)
        requires
            self.wf(),
        ensures
            r is Ok <==> delegated_to(delegates_view(self.evm_delegates), caller@).contains(evm_address@),
            r matches Err(e) ==> e == MetaVoteError::NotDelegatedToCaller,
            r matches Ok(p) ==> p@ == evm_address@ + ".evmp.near"@,
    {
        let delegated = match self.evm_delegates.get(caller) {
            Some(l) => contains_string(l, evm_address),
            None => false,
        };
        if !delegated {
            return Err(MetaVoteError::NotDelegatedToCaller);
        }
        Ok(pseudo_near_address(evm_address))
    }

    /// The caller claims `amount` of the stNEAR of the pseudo account of an
    /// EVM address it acts for; the stNEAR goes to the caller, and comes back
    /// to the pseudo account's claims if the transfer fails.
    pub fn delegated_claim_stnear(&mut self, caller: &String, evm_address: &String, amount: u128) -> (r: Result<TokenTransfer, MetaVoteError>)
        requires
            old(self).wf(),
        ensures
            final(self).wf(),
            ({
                let pseudo = evm_address@ + ".evmp.near"@;
                &&& !delegated_to(delegates_view(old(self).evm_delegates), caller@).contains(evm_address@)
                    ==> r == Err::<TokenTransfer, MetaVoteError>(MetaVoteError::NotDelegatedToCaller)
                &&& delegated_to(delegates_view(old(self).evm_delegates), caller@).contains(evm_address@) ==> {
                    &&& (r is Ok <==> claimable_of(old(self).claimable_stnear, pseudo) >= amount && old(self).total_unclaimed_stnear >= amount)
                    &&& (claimable_of(old(self).claimable_stnear, pseudo) < amount ==> r == Err::<TokenTransfer, MetaVoteError>(MetaVoteError::NotEnoughClaimable))
                    &&& (claimable_of(old(self).claimable_stnear, pseudo) >= amount && old(self).total_unclaimed_stnear < amount
                        ==> r == Err::<TokenTransfer, MetaVoteError>(MetaVoteError::Overflow))
                    &&& (r matches Ok(t) ==> t.token == old(self).stnear_token_contract_address && t.receiver == *caller
                        && t.amount == amount && t.source@ == pseudo)
                    &&& (r is Ok ==> final(self).claimable_stnear@ == claims_removed(old(self).claimable_stnear, pseudo, amount)
                        && final(self).total_unclaimed_stnear == old(self).total_unclaimed_stnear - amount)
                }
            }),
            r is Err ==> *final(self) == *old(self),
            r is Ok ==> *final(self) == (MetaVoteContract {
                claimable_stnear: final(self).claimable_stnear,
                total_unclaimed_stnear: final(self).total_unclaimed_stnear,
                ..*old(self)
            }),
            r is Ok ==> (old(self).claims_accounted() ==> final(self).claims_accounted()),
    {
        let pseudo = self.verify_delegate(caller, evm_address)?;
        claim_remove(&mut self.claimable_stnear, &mut self.total_unclaimed_stnear, &pseudo, amount)?;
        Ok(TokenTransfer { token: self.stnear_token_contract_address.clone(), receiver: caller.clone(), amount, source: pseudo })
    }

    /// The caller votes with the pseudo account of an EVM address it acts
    /// for, as `vote` does for that account.
    pub fn vote_delegated(&mut self, caller: &String, evm_address: &String, voting_power: u128, contract_address: &String, votable_object_id: &String) -> (r: Result<(), MetaVoteError>)
        requires
            old(self).wf(),
        ensures
            final(self).wf(),
            r == (if !delegated_to(delegates_view(old(self).evm_delegates), caller@).contains(evm_address@) {
                Err(MetaVoteError::NotDelegatedToCaller)
            } else {
                match vote_error(*old(self), evm_address@ + ".evmp.near"@, voting_power, contract_address@, votable_object_id@) {
                    Some(e) => Err(e),
                    None => Ok(()),
                }
            }),
            r is Err ==> *final(self) == *old(self),
            r is Ok ==> voted(*old(self), *final(self), evm_address@ + ".evmp.near"@, voting_power, contract_address@, votable_object_id@),
            r is Ok ==> (old(self).voters_balanced() ==> final(self).voters_balanced())
                && (old(self).vp_accounted() ==> final(self).vp_accounted())
                && (old(self).votes_accounted() ==> final(self).votes_accounted()),
    {
        let pseudo = self.verify_delegate(caller, evm_address)?;
        self.vote(&pseudo, voting_power, contract_address, votable_object_id)
    }

    /// The caller takes back the votes of the pseudo account of an EVM
    /// address it acts for, as `unvote` does for that account.
    pub fn unvote_delegated(&mut self, caller: &String, evm_address: &String, contract_address: &String, votable_object_id: &String, now: u64) -> (r: Result<(), MetaVoteError>)
        requires
            old(self).wf(),
        ensures
            final(self).wf(),
            r == (if !delegated_to(delegates_view(old(self).evm_delegates), caller@).contains(evm_address@) {
                Err(MetaVoteError::NotDelegatedToCaller)
            } else {
                match unvote_error(*old(self), evm_address@ + ".evmp.near"@, contract_address@, votable_object_id@, now) {
                    Some(e) => Err(e),
                    None => Ok(()),
                }
            }),
            r is Err ==> *final(self) == *old(self),
            r is Ok ==> unvoted(*old(self), *final(self), evm_address@ + ".evmp.near"@, contract_address@, votable_object_id@),
            r is Ok ==> (old(self).voters_balanced() ==> final(self).voters_balanced())
                && (old(self).vp_accounted() ==> final(self).vp_accounted())
                && (old(self).votes_accounted() ==> final(self).votes_accounted()),
    {
        let pseudo = self.verify_delegate(caller, evm_address)?;
        self.unvote(&pseudo, contract_address, votable_object_id, now)
    }

    /// The caller stops acting for `evm_address` (one yoctoNEAR): the
    /// signature is dropped and the address leaves the caller's list (an
    /// empty list stays).
    pub fn remove_delegated_evm_address(&mut self, caller: &String, attached_deposit: u128, evm_address: &String) -> (r: Result<(), MetaVoteError>)
        requires
            old(self).wf(),
        ensures
            final(self).wf(),
            r == (if attached_deposit != 1 {
                Err(MetaVoteError::RequiresOneYocto)
            } else if !old(self).evm_delegation_signatures@.contains_key(evm_address@) {
                Err(MetaVoteError::NotDelegated)
            } else if old(self).evm_delegation_signatures@[evm_address@].0@ != caller@ {
                Err(MetaVoteError::NotDelegatedToCaller)
            } else if !old(self).evm_delegates@.contains_key(caller@) {
                Err(MetaVoteError::MissingDelegateList)
            } else {
                Ok(())
            }),
            r is Err ==> *final(self) == *old(self),
            r is Ok ==> final(self).evm_delegation_signatures@ == old(self).evm_delegation_signatures@.remove(evm_address@),
            r is Ok ==> delegates_view(final(self).evm_delegates) == delegates_view(old(self).evm_delegates).insert(
                caller@,
                delegates_view(old(self).evm_delegates)[caller@].filter(other_than(evm_address@)),
            ),
            r is Ok ==> final(self).evm_delegates.key_seq() == old(self).evm_delegates.key_seq(),
            r is Ok ==> *final(self) == (MetaVoteContract {
                evm_delegation_signatures: final(self).evm_delegation_signatures,
                evm_delegates: final(self).evm_delegates,
                ..*old(self)
            }),
            r is Ok ==> (old(self).delegations_consistent() ==> final(self).delegations_consistent()),
    {
        if attached_deposit != 1 {
            return Err(MetaVoteError::RequiresOneYocto);
        }
        let owner_ok = match self.evm_delegation_signatures.get(evm_address) {
            Some(e) => e.0 == *caller,
            None => return Err(MetaVoteError::NotDelegated),
        };
        if !owner_ok {
            return Err(MetaVoteError::NotDelegatedToCaller);
        }
        let i = match self.evm_delegates.find(caller) {
            Some(i) => i,
            None => return Err(MetaVoteError::MissingDelegateList),
        };
        proof {
            self.evm_delegates.lemma_index(i as int);
        }
        let ghost d0 = delegates_view(self.evm_delegates);
        let ghost s0 = pairs_map_view(self.evm_delegation_signatures);
        let ghost consistent0 = self.delegations_consistent();
        self.evm_delegation_signatures.remove(evm_address);
        let kept = without_address(&self.evm_delegates.vals[i], evm_address);
        self.evm_delegates.set_at(i, kept);
        assert(delegates_view(self.evm_delegates) =~= d0.insert(caller@, d0[caller@].filter(other_than(evm_address@))));
        assert(pairs_map_view(self.evm_delegation_signatures) =~= s0.remove(evm_address@));
        proof {
            if consistent0 {
                lemma_remove_keeps_delegation(d0, s0, evm_address@, caller@);
            }
        }
        Ok(())
    }

    /// The EVM addresses that `account_id` acts for.
    pub fn get_delegating_evm_addresses(&self, account_id: &String) -> (r: Vec<String>)
        requires
            self.wf(),
        ensures
            strings_view(r@) == delegated_to(delegates_view(self.evm_delegates), account_id@),
    {
        match self.evm_delegates.get(account_id) {
            Some(l) => copy_strings(l),
            None => {
                let r: Vec<String> = Vec::new();
                assert(strings_view(r@) =~= Seq::<Seq<char>>::empty());
                r
            },
        }
    }

    /// The accounts that act for EVM addresses, with their addresses, from
    /// position `from_index`, at most `limit` of them.
    pub fn get_delegates(&self, from_index: u32, limit: u32) -> (r: Result<Vec<(String, Vec<String>)>, MetaVoteError>)
        requires
            self.wf(),
        ensures
            from_index >= self.evm_delegates.keys@.len() ==> r == Err::<Vec<(String, Vec<String>)>, MetaVoteError>(MetaVoteError::FromIndexOutOfRange),
            from_index < self.evm_delegates.keys@.len() && from_index + limit > u32::MAX ==> r == Err::<Vec<(String, Vec<String>)>, MetaVoteError>(MetaVoteError::Overflow),
            r is Ok <==> from_index < self.evm_delegates.keys@.len() && from_index + limit <= u32::MAX,
            r matches Ok(v) ==> ({
                let end = if from_index + limit < self.evm_delegates.keys@.len() { from_index + limit } else { self.evm_delegates.keys@.len() as int };
                &&& v@.len() == end - from_index
                &&& forall|k: int| 0 <= k < v@.len() ==> (#[trigger] v@[k]).0@ == self.evm_delegates.key_seq()[from_index + k]
                    && strings_view(v@[k].1@) == strings_view(self.evm_delegates.vals@[from_index + k]@)
            }),
    {
        let len = self.evm_delegates.len();
        if from_index as usize >= len {
            return Err(MetaVoteError::FromIndexOutOfRange);
        }
        let stop = match from_index.checked_add(limit) {
            Some(x) => x,
            None => return Err(MetaVoteError::Overflow),
        };
        let end: usize = if (stop as usize) < len { stop as usize } else { len };
        let mut v: Vec<(String, Vec<String>)> = Vec::new();
        let mut k: usize = from_index as usize;
        while k < end
            invariant
                self.wf(),
                from_index <= k <= end,
                end <= self.evm_delegates.keys@.len(),
                self.evm_delegates.keys@.len() == self.evm_delegates.vals@.len(),
                v@.len() == k - from_index,
                forall|j: int| 0 <= j < v@.len() ==> (#[trigger] v@[j]).0@ == self.evm_delegates.key_seq()[from_index + j]
                    && strings_view(v@[j].1@) == strings_view(self.evm_delegates.vals@[from_index + j]@),
            decreases end - k,
        {
            let key = self.evm_delegates.key_at(k).clone();
            let list = copy_strings(self.evm_delegates.val_at(k));
            v.push((key, list));
            k = k + 1;
        }
        Ok(v)
    }

    /// The account that `evm_address` is delegated to, if any.
    pub fn get_delegate(&self, evm_address: &String) -> (r: Option<String>)
        requires
            self.wf(),
        ensures
            r is Some <==> self.evm_delegation_signatures@.contains_key(evm_address@),
            r matches Some(a) ==> a == self.evm_delegation_signatures@[evm_address@].0,
    {
        match self.evm_delegation_signatures.get(evm_address) {
            Some(d) => Some(d.0.clone()),
            None => None,
        }
    }

    /// The account and the signature of the delegation of `evm_address`.
    pub fn get_delegation_signature(&self, evm_address: &String) -> (r: Result<(String, String), MetaVoteError>)
        requires
            self.wf(),
        ensures
            r is Ok <==> self.evm_delegation_signatures@.contains_key(evm_address@),
            r matches Ok(p) ==> p == self.evm_delegation_signatures@[evm_address@],
            r matches Err(e) ==> e == MetaVoteError::NotDelegated,
    {
        match self.evm_delegation_signatures.get(evm_address) {
            Some(d) => Ok((d.0.clone(), d.1.clone())),
            None => Err(MetaVoteError::NotDelegated),
        }
    }
}

} // verus!
