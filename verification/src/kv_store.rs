//! The key-value store contract: the operator stores strings under keys, and
//! anyone reads them.
use vstd::prelude::*;
use crate::str_map::StrMap;

verus! {

/// Why a call is refused.
#[derive(Debug, Clone, Copy, PartialEq, Eq, Structural)]
pub enum KvError {
    /// The call must attach exactly one yoctoNEAR.
    RequiresOneYocto,
    /// Only the owner may call this.
    OnlyOwner,
    /// Only the operator may call this.
    OnlyOperator,
}

/// The state of the key-value store.
pub struct KVStoreContract {
    pub owner_id: String,
    pub operator_id: String,
    pub associated_user_data: StrMap<String>,
}

/// The map after setting each `(key, value)` of `kv` in order.
pub open spec fn set_all(m: Map<Seq<char>, String>, kv: Seq<(String, String)>) -> Map<Seq<char>, String>
    decreases kv.len(),
{
    if kv.len() == 0 {
        m
    } else {
        set_all(m, kv.drop_last()).insert(kv.last().0@, kv.last().1)
    }
}

/// A value read right after it was written is the value written.
pub proof fn lemma_read_after_write(before: Map<Seq<char>, String>, after: Map<Seq<char>, String>, key: Seq<char>, value: String)
    requires
        after == before.insert(key, value),
    ensures
        after.contains_key(key),
        after[key] == value,
{
}

/// A removed key reads as absent, and other keys keep their values.
pub proof fn lemma_read_after_remove(before: Map<Seq<char>, String>, after: Map<Seq<char>, String>, key: Seq<char>, other: Seq<char>)
    requires
        after == before.remove(key),
        other != key,
    ensures
        !after.contains_key(key),
        after.contains_key(other) == before.contains_key(other),
        after.contains_key(other) ==> after[other] == before[other],
{
}

impl KVStoreContract {
    /// Creates the store, empty.
    pub fn new(owner_id: String, operator_id: String) -> (r: Self)
        ensures
            r.owner_id == owner_id,
            r.operator_id == operator_id,
            r.associated_user_data.wf(),
            r.associated_user_data.keys@.len() == 0,
            r.associated_user_data@ == Map::<Seq<char>, String>::empty(),
    {
        KVStoreContract { owner_id, operator_id, associated_user_data: StrMap::new() }
    }

    /// Refuses callers other than the owner.
    pub(crate) fn assert_only_owner(&self, caller: &String) -> (r: Result<(), KvError>)
        ensures
            r is Ok <==> caller@ == self.owner_id@,
            r matches Err(e) ==> e == KvError::OnlyOwner,
    {
        if *caller == self.owner_id {
            Ok(())
        } else {
            Err(KvError::OnlyOwner)
        }
    }

    /// Refuses callers other than the operator.
    pub(crate) fn assert_operator(&self, caller: &String) -> (r: Result<(), KvError>)
        ensures
            r is Ok <==> caller@ == self.operator_id@,
            r matches Err(e) ==> e == KvError::OnlyOperator,
    {
        if *caller == self.operator_id {
            Ok(())
        } else {
            Err(KvError::OnlyOperator)
        }
    }

    /// Sets the operator (owner, one yoctoNEAR).
    pub fn set_operator_id(&mut self, caller: &String, attached_deposit: u128, operator_id: String) -> (r: Result<(), KvError>)
        ensures
            attached_deposit != 1 ==> r == Err::<(), KvError>(KvError::RequiresOneYocto),
            attached_deposit == 1 && caller@ != old(self).owner_id@ ==> r == Err::<(), KvError>(KvError::OnlyOwner),
            r is Ok <==> attached_deposit == 1 && caller@ == old(self).owner_id@,
            r is Err ==> *final(self) == *old(self),
            r is Ok ==> *final(self) == (KVStoreContract { operator_id, ..*old(self) }),
    {
        if attached_deposit != 1 {
            return Err(KvError::RequiresOneYocto);
        }
        self.assert_only_owner(caller)?;
        self.operator_id = operator_id;
        Ok(())
    }

    /// Sets the owner (owner, one yoctoNEAR).
    pub fn set_owner_id(&mut self, caller: &String, attached_deposit: u128, owner_id: String) -> (r: Result<(), KvError>)
        ensures
            attached_deposit != 1 ==> r == Err::<(), KvError>(KvError::RequiresOneYocto),
            attached_deposit == 1 && caller@ != old(self).owner_id@ ==> r == Err::<(), KvError>(KvError::OnlyOwner),
            r is Ok <==> attached_deposit == 1 && caller@ == old(self).owner_id@,
            r is Err ==> *final(self) == *old(self),
            r is Ok ==> *final(self) == (KVStoreContract { owner_id, ..*old(self) }),
    {
        if attached_deposit != 1 {
            return Err(KvError::RequiresOneYocto);
        }
        self.assert_only_owner(caller)?;
        self.owner_id = owner_id;
        Ok(())
    }

    /// Stores `value` under `key` (operator).
    pub fn set_value(&mut self, caller: &String, key: &String, value: String) -> (r: Result<(), KvError>)
        requires
            old(self).associated_user_data.wf(),
        ensures
            final(self).associated_user_data.wf(),
            r is Ok <==> caller@ == old(self).operator_id@,
            r matches Err(e) ==> e == KvError::OnlyOperator,
            r is Err ==> *final(self) == *old(self),
            r is Ok ==> final(self).associated_user_data@ == old(self).associated_user_data@.insert(key@, value),
            final(self).owner_id == old(self).owner_id && final(self).operator_id == old(self).operator_id,
    {
        self.assert_operator(caller)?;
        self.associated_user_data.insert(key, value);
        Ok(())
    }

    /// Stores each `(key, value)` of `kv_array` in order (operator).
    pub fn set_values(&mut self, caller: &String, kv_array: Vec<(String, String)>) -> (r: Result<(), KvError>)
        requires
            old(self).associated_user_data.wf(),
        ensures
            final(self).associated_user_data.wf(),
            r is Ok <==> caller@ == old(self).operator_id@,
            r matches Err(e) ==> e == KvError::OnlyOperator,
            r is Err ==> *final(self) == *old(self),
            r is Ok ==> final(self).associated_user_data@ == set_all(old(self).associated_user_data@, kv_array@),
            final(self).owner_id == old(self).owner_id && final(self).operator_id == old(self).operator_id,
    {
        self.assert_operator(caller)?;
        let ghost m0 = self.associated_user_data@;
        let mut k: usize = 0;
        assert(kv_array@.take(0) =~= Seq::<(String, String)>::empty());
        while k < kv_array.len()
            invariant
                0 <= k <= kv_array@.len(),
                self.associated_user_data.wf(),
                self.associated_user_data@ == set_all(m0, kv_array@.take(k as int)),
                self.owner_id == old(self).owner_id && self.operator_id == old(self).operator_id,
            decreases kv_array@.len() - k,
        {
            assert(kv_array@.take(k as int + 1).drop_last() =~= kv_array@.take(k as int));
            assert(kv_array@.take(k as int + 1).last() == kv_array@[k as int]);
            self.associated_user_data.insert(&kv_array[k].0, kv_array[k].1.clone());
            k = k + 1;
        }
        assert(kv_array@.take(k as int) =~= kv_array@);
        Ok(())
    }

    /// Removes the value under `key` (operator); gives it back, if there was one.
    pub fn remove_value(&mut self, caller: &String, key: &String) -> (r: Result<Option<String>, KvError>)
        requires
            old(self).associated_user_data.wf(),
        ensures
            final(self).associated_user_data.wf(),
            r is Ok <==> caller@ == old(self).operator_id@,
            r matches Err(e) ==> e == KvError::OnlyOperator,
            r is Err ==> *final(self) == *old(self),
            r matches Ok(v) ==> final(self).associated_user_data@ == old(self).associated_user_data@.remove(key@)
                && v == old(self).associated_user_data.lookup(key@),
            final(self).owner_id == old(self).owner_id && final(self).operator_id == old(self).operator_id,
    {
        self.assert_operator(caller)?;
        Ok(self.associated_user_data.remove(key))
    }

    /// The value under `key`, if any.
    pub fn get_value(&self, key: &String) -> (r: Option<String>)
        requires
            self.associated_user_data.wf(),
        ensures
            r is Some <==> self.associated_user_data@.contains_key(key@),
            r matches Some(v) ==> v == self.associated_user_data@[key@],
    {
        match self.associated_user_data.get(key) {
            Some(v) => Some(v.clone()),
            None => None,
        }
    }

    /// The entries from position `from_index`, at most `limit` of them.
    pub fn get_values(&self, from_index: u32, limit: u32) -> (r: Vec<(String, String)>)
        requires
            self.associated_user_data.wf(),
        ensures
            ({
                let m = self.associated_user_data;
                let n = m.keys@.len() as int;
                let end = if from_index + limit < n { from_index + limit } else { n };
                &&& r@.len() == if end > from_index { end - from_index } else { 0 }
                &&& forall|k: int| 0 <= k < r@.len() ==> (#[trigger] r@[k]).0@ == m.key_seq()[from_index + k]
                    && r@[k].1 == m.vals@[from_index + k]
            }),
    {
        let m = &self.associated_user_data;
        let len = m.len();
        let stop = (from_index as u64) + (limit as u64);
        let end: usize = if stop < len as u64 { stop as usize } else { len };
        let start: usize = from_index as usize;
        let mut v: Vec<(String, String)> = Vec::new();
        if start >= end {
            return v;
        }
        let mut k: usize = start;
        while k < end
            invariant
                start == from_index,
                start <= k <= end,
                end <= m.keys@.len(),
                m.wf(),
                v@.len() == k - start,
                forall|j: int| 0 <= j < v@.len() ==> (#[trigger] v@[j]).0@ == m.key_seq()[from_index + j]
                    && v@[j].1 == m.vals@[from_index + j],
            decreases end - k,
        {
            let key = m.key_at(k).clone();
            let val = m.val_at(k).clone();
            let ghost v0 = v@;
            v.push((key, val));
            assert forall|j: int| 0 <= j < v@.len() implies (#[trigger] v@[j]).0@ == m.key_seq()[from_index + j]
                && v@[j].1 == m.vals@[from_index + j] by {
                if j < v0.len() {
                    assert(v@[j] == v0[j]);
                }
            }
            k = k + 1;
        }
        v
    }

    /// The owner.
    pub fn get_owner_id(&self) -> (r: String)
        ensures
            r == self.owner_id,
    {
        self.owner_id.clone()
    }

    /// The operator.
    pub fn get_operator_id(&self) -> (r: String)
        ensures
            r == self.operator_id,
    {
        self.operator_id.clone()
    }

    /// The number of entries.
    pub fn get_kv_count(&self) -> (r: u64)
        ensures
            r == self.associated_user_data.keys@.len(),
    {
        self.associated_user_data.len() as u64
    }
}

} // verus!
