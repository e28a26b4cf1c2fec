//! Maps of amounts keyed by strings, and two-level vote maps
//! (contract address -> votable object id -> voting power): setting and
//! removing an entry, and how the sums change.
use vstd::prelude::*;
use crate::seq_sum::{sum_of, sum_u128, lemma_sum_update, lemma_sum_push, lemma_sum_swap_remove, lemma_sum_empty, lemma_sum_ge_elem, lemma_sum_nonneg};
use crate::str_map::{StrMap, swap_removed};
use crate::voter::{VotePositions, used_votes, votes_at, votes_wf, inner_sum_fn};

verus! {

/// The amount under `k` (zero where there is none).
pub open spec fn amount_in(m: StrMap<u128>, k: Seq<char>) -> int {
    if m@.contains_key(k) {
        m@[k] as int
    } else {
        0
    }
}

/// Sets the amount under `k` (in place where `k` is a key, else at the end).
pub fn set_amount(m: &mut StrMap<u128>, k: &String, v: u128)
    requires
        old(m).wf(),
    ensures
        final(m).wf(),
        final(m)@ == old(m)@.insert(k@, v),
        sum_u128(final(m).vals@) == sum_u128(old(m).vals@) - amount_in(*old(m), k@) + v,
        old(m).has(k@) ==> final(m).keys@ == old(m).keys@,
        !old(m).has(k@) ==> final(m).key_seq() == old(m).key_seq().push(k@),
{
    let ghost m0 = *m;
    m.insert(k, v);
    proof {
        if m0.has(k@) {
            m0.lemma_has_index(k@);
            m0.lemma_index(m0.key_seq().index_of(k@));
            lemma_sum_update(m0.vals@, m0.key_seq().index_of(k@), v, |x: u128| x as int);
        } else {
            lemma_sum_push(m0.vals@, v, |x: u128| x as int);
        }
    }
}

/// Removes the amount under `k` (the last entry takes its place).
pub fn remove_amount(m: &mut StrMap<u128>, k: &String)
    requires
        old(m).wf(),
    ensures
        final(m).wf(),
        final(m)@ == old(m)@.remove(k@),
        sum_u128(final(m).vals@) == sum_u128(old(m).vals@) - amount_in(*old(m), k@),
        old(m).has(k@) ==> ({
            let i = old(m).key_seq().index_of(k@);
            &&& final(m).key_seq() == old(m).key_seq().update(i, old(m).key_seq().last()).drop_last()
            &&& final(m).vals@ == old(m).vals@.update(i, old(m).vals@.last()).drop_last()
        }),
{
    let ghost m0 = *m;
    m.remove(k);
    proof {
        if m0.has(k@) {
            m0.lemma_has_index(k@);
            m0.lemma_index(m0.key_seq().index_of(k@));
            lemma_sum_swap_remove(m0.vals@, m0.key_seq().index_of(k@), |x: u128| x as int);
        }
    }
}

/// The votes in order: each address with its object ids and votes.
pub open spec fn model_of(vp: VotePositions) -> Seq<(Seq<char>, Seq<Seq<char>>, Seq<u128>)> {
    Seq::new(vp.keys@.len(), |i: int| (vp.key_seq()[i], vp.vals@[i].key_seq(), vp.vals@[i].vals@))
}

/// The model without its first object of its first address, as removing
/// that object leaves it: the last object takes its place, and an address
/// left without objects gives its place to the last address.
pub open spec fn remove_first(m: Seq<(Seq<char>, Seq<Seq<char>>, Seq<u128>)>) -> Seq<(Seq<char>, Seq<Seq<char>>, Seq<u128>)> {
    let inner = m[0];
    let keys = inner.1.update(0, inner.1.last()).drop_last();
    let vals = inner.2.update(0, inner.2.last()).drop_last();
    if keys.len() == 0 {
        m.update(0, m.last()).drop_last()
    } else {
        m.update(0, (inner.0, keys, vals))
    }
}

/// The number of objects of a model.
pub open spec fn model_count(m: Seq<(Seq<char>, Seq<Seq<char>>, Seq<u128>)>) -> int {
    sum_of(m, |e: (Seq<char>, Seq<Seq<char>>, Seq<u128>)| e.1.len() as int)
}

/// Removing the first object leaves one object less.
pub proof fn lemma_remove_first_count(m: Seq<(Seq<char>, Seq<Seq<char>>, Seq<u128>)>)
    requires
        m.len() > 0,
        m[0].1.len() > 0,
        m[0].1.len() == m[0].2.len(),
    ensures
        model_count(remove_first(m)) == model_count(m) - 1,
{
    let f = |e: (Seq<char>, Seq<Seq<char>>, Seq<u128>)| e.1.len() as int;
    let inner = m[0];
    let keys = inner.1.update(0, inner.1.last()).drop_last();
    if keys.len() == 0 {
        lemma_sum_swap_remove(m, 0, f);
    } else {
        lemma_sum_update(m, 0, (inner.0, keys, inner.2.update(0, inner.2.last()).drop_last()), f);
    }
}

/// The object ids of address `a`, in order, once object `o` has votes: the
/// list as it was where `o` had votes, else `o` goes at its end (a new
/// address starts a list of its own).
pub open spec fn objects_after_set(vp: VotePositions, a: Seq<char>, o: Seq<char>) -> Seq<Seq<char>> {
    if vp@.contains_key(a) {
        if vp@[a]@.contains_key(o) {
            vp@[a].key_seq()
        } else {
            vp@[a].key_seq().push(o)
        }
    } else {
        seq![o]
    }
}

/// How `new` follows from `old` once object `o` of address `a` is set, as
/// to order: only the entry of `a` changes; a new address goes at the end of
/// the addresses, and the objects of `a` are as `objects_after_set` says.
pub open spec fn ordered_after_set(old: VotePositions, new: VotePositions, a: Seq<char>, o: Seq<char>) -> bool {
    &&& new@ =~= old@.insert(a, new@[a])
    &&& new.key_seq() =~= if old@.contains_key(a) {
        old.key_seq()
    } else {
        old.key_seq().push(a)
    }
    &&& new@[a].key_seq() =~= objects_after_set(old, a, o)
}

/// How `new` follows from `old` once object `o` of address `a` is removed,
/// as to order: the last object of `a` takes the place of `o`; an address
/// left without objects leaves, the last address taking its place.
pub open spec fn ordered_after_remove(old: VotePositions, new: VotePositions, a: Seq<char>, o: Seq<char>) -> bool {
    let i = old.key_seq().index_of(a);
    let inner = old@[a];
    &&& inner@.remove(o) == Map::<Seq<char>, u128>::empty() ==> {
        &&& new@ =~= old@.remove(a)
        &&& new.key_seq() =~= swap_removed(old.key_seq(), i)
    }
    &&& inner@.remove(o) != Map::<Seq<char>, u128>::empty() ==> {
        &&& new.key_seq() =~= old.key_seq()
        &&& new@ =~= old@.insert(a, new@[a])
        &&& new@[a].key_seq() =~= swap_removed(inner.key_seq(), inner.key_seq().index_of(o))
    }
}

/// The addresses of a model, in order.
pub open spec fn model_keys(m: Seq<(Seq<char>, Seq<Seq<char>>, Seq<u128>)>) -> Seq<Seq<char>> {
    m.map_values(|e: (Seq<char>, Seq<Seq<char>>, Seq<u128>)| e.0)
}

/// The model has an entry for object `o` of address `a`.
pub open spec fn model_has(m: Seq<(Seq<char>, Seq<Seq<char>>, Seq<u128>)>, a: Seq<char>, o: Seq<char>) -> bool {
    model_keys(m).contains(a) && m[model_keys(m).index_of(a)].1.contains(o)
}

/// The entry for object `o` of address `a` (meaningful where there is one).
pub open spec fn model_get(m: Seq<(Seq<char>, Seq<Seq<char>>, Seq<u128>)>, a: Seq<char>, o: Seq<char>) -> u128 {
    let e = m[model_keys(m).index_of(a)];
    e.2[e.1.index_of(o)]
}

/// The model once the entry for object `o` of address `a` becomes `value`:
/// set in place, or, at zero, removed as `remove_votes` removes it (the last
/// object takes its place, and an address left without objects gives its
/// place to the last address).
pub open spec fn model_lowered(m: Seq<(Seq<char>, Seq<Seq<char>>, Seq<u128>)>, a: Seq<char>, o: Seq<char>, value: u128) -> Seq<(Seq<char>, Seq<Seq<char>>, Seq<u128>)> {
    let i = model_keys(m).index_of(a);
    let e = m[i];
    let j = e.1.index_of(o);
    if value == 0 {
        let ks = swap_removed(e.1, j);
        let vs = swap_removed(e.2, j);
        if ks.len() == 0 {
            swap_removed(m, i)
        } else {
            m.update(i, (a, ks, vs))
        }
    } else {
        m.update(i, (a, e.1, e.2.update(j, value)))
    }
}

/// The model has an entry exactly where the map has one, with the same value.
pub proof fn lemma_model_lookup(vp: VotePositions, a: Seq<char>, o: Seq<char>)
    requires
        votes_wf(vp),
    ensures
        model_has(model_of(vp), a, o) <==> (vp@.contains_key(a) && vp@[a]@.contains_key(o)),
        model_has(model_of(vp), a, o) ==> model_get(model_of(vp), a, o) == vp@[a]@[o],
{
    let m = model_of(vp);
    assert(model_keys(m) =~= vp.key_seq());
    if vp@.contains_key(a) {
        let i = vp.key_seq().index_of(a);
        vp.lemma_has_index(a);
        vp.lemma_index(i);
        let inner = vp.vals@[i];
        assert(inner.wf());
        assert(m[i].1 == inner.key_seq());
        if inner@.contains_key(o) {
            inner.lemma_has_index(o);
            inner.lemma_index(inner.key_seq().index_of(o));
        }
    }
}

/// Setting an existing entry to a value other than zero changes the model
/// in place.
pub proof fn lemma_model_set(old: VotePositions, new: VotePositions, a: Seq<char>, o: Seq<char>, value: u128)
    requires
        votes_wf(old),
        votes_wf(new),
        old@.contains_key(a),
        old@[a]@.contains_key(o),
        value != 0,
        ordered_after_set(old, new, a, o),
        forall|x: Seq<char>, y: Seq<char>| #[trigger] votes_at(new, x, y) == if x == a && y == o {
            value as int
        } else {
            votes_at(old, x, y)
        },
    ensures
        model_of(new) == model_lowered(model_of(old), a, o, value),
{
    let m = model_of(old);
    let n = model_of(new);
    let ks = old.key_seq();
    assert(model_keys(m) =~= ks);
    let i = ks.index_of(a);
    old.lemma_has_index(a);
    old.lemma_index(i);
    let inner0 = old.vals@[i];
    assert(inner0.wf());
    let ik = inner0.key_seq();
    let j = ik.index_of(o);
    inner0.lemma_has_index(o);
    let target = model_lowered(m, a, o, value);
    assert(new.key_seq() == ks);
    assert forall|k: int| 0 <= k < n.len() implies #[trigger] n[k] == target[k] by {
        new.lemma_index(k);
        old.lemma_index(k);
        let key = ks[k];
        assert(new.vals@[k].wf());
        if k == i {
            let inner1 = new.vals@[k];
            assert(inner1 == new@[a]);
            assert(inner1.key_seq() =~= ik);
            assert(inner1.vals@ =~= inner0.vals@.update(j, value)) by {
                assert forall|q: int| 0 <= q < inner1.vals@.len() implies inner1.vals@[q] == inner0.vals@.update(j, value)[q] by {
                    inner1.lemma_index(q);
                    inner0.lemma_index(q);
                    let y = ik[q];
                    assert(votes_at(new, a, y) == if y == o { value as int } else { votes_at(old, a, y) });
                    if q != j {
                        assert(y != o);
                    }
                }
            }
        } else {
            assert(key != a);
            assert(new@[key] == old@[key]);
        }
    }
    assert(n =~= target);
}

/// Removing an entry changes the model as `model_lowered` removes it.
pub proof fn lemma_model_remove(old: VotePositions, new: VotePositions, a: Seq<char>, o: Seq<char>)
    requires
        votes_wf(old),
        votes_wf(new),
        old@.contains_key(a),
        old@[a]@.contains_key(o),
        ordered_after_remove(old, new, a, o),
        forall|x: Seq<char>, y: Seq<char>| #[trigger] votes_at(new, x, y) == if x == a && y == o {
            0
        } else {
            votes_at(old, x, y)
        },
    ensures
        model_of(new) == model_lowered(model_of(old), a, o, 0),
{
    let m = model_of(old);
    let n = model_of(new);
    let ks = old.key_seq();
    assert(model_keys(m) =~= ks);
    let i = ks.index_of(a);
    old.lemma_has_index(a);
    old.lemma_index(i);
    let inner0 = old.vals@[i];
    assert(inner0.wf());
    let ik = inner0.key_seq();
    let j = ik.index_of(o);
    inner0.lemma_has_index(o);
    let target = model_lowered(m, a, o, 0);
    if ik.len() == 1 {
        assert(inner0@.remove(o) =~= Map::<Seq<char>, u128>::empty()) by {
            assert forall|y: Seq<char>| !#[trigger] inner0@.remove(o).contains_key(y) by {
                if y != o && inner0@.contains_key(y) {
                    assert(ik.contains(y));
                    assert(ik[0] == y && ik[0] == o);
                }
            }
        }
        assert(new.key_seq() == swap_removed(ks, i));
        assert(target == swap_removed(m, i));
        assert forall|k: int| 0 <= k < n.len() implies #[trigger] n[k] == target[k] by {
            new.lemma_index(k);
            let key = new.key_seq()[k];
            let idx = if k == i { ks.len() - 1 } else { k };
            old.lemma_index(idx);
            assert(ks[idx] == key);
            assert(key != a);
            assert(new@[key] == old@[key]);
        }
    } else {
        let q0 = if j == 0 { 1int } else { 0int };
        assert(ik[q0] != o);
        inner0.lemma_index(q0);
        assert(inner0@.remove(o).contains_key(ik[q0]));
        assert(new.key_seq() == ks);
        let rks = swap_removed(ik, j);
        let rvs = swap_removed(inner0.vals@, j);
        assert(target == m.update(i, (a, rks, rvs)));
        assert forall|k: int| 0 <= k < n.len() implies #[trigger] n[k] == target[k] by {
            new.lemma_index(k);
            old.lemma_index(k);
            let key = ks[k];
            assert(new.vals@[k].wf());
            if k == i {
                let inner1 = new.vals@[k];
                assert(inner1 == new@[a]);
                assert(inner1.key_seq() =~= rks);
                assert(inner1.vals@ =~= rvs) by {
                    assert forall|q: int| 0 <= q < inner1.vals@.len() implies inner1.vals@[q] == rvs[q] by {
                        inner1.lemma_index(q);
                        let y = rks[q];
                        let idx = if q == j { ik.len() - 1 } else { q };
                        inner0.lemma_index(idx);
                        assert(ik[idx] == y);
                        assert(y != o);
                        assert(votes_at(new, a, y) == votes_at(old, a, y));
                    }
                }
            } else {
                assert(key != a);
                assert(new@[key] == old@[key]);
            }
        }
    }
    assert(n =~= target);
}

/// The totals by (address, object), where present.
pub open spec fn totals_view(vp: VotePositions) -> Map<(Seq<char>, Seq<char>), u128> {
    Map::new(
        |p: (Seq<char>, Seq<char>)| vp@.contains_key(p.0) && vp@[p.0]@.contains_key(p.1),
        |p: (Seq<char>, Seq<char>)| vp@[p.0]@[p.1],
    )
}

/// The sum over an empty map is zero.
proof fn lemma_empty_sum(m: StrMap<u128>)
    requires
        m.vals@.len() == 0,
    ensures
        sum_u128(m.vals@) == 0,
{
    lemma_sum_empty(m.vals@, |x: u128| x as int);
}

/// Sets the votes for object `o` of address `a` to `value`, as the contract
/// does: the object is inserted into the address's map (created where
/// missing) and the map is stored back under `a`.
pub fn set_votes(vp: &mut VotePositions, a: &String, o: &String, value: u128)
    requires
        votes_wf(*old(vp)),
    ensures
        votes_wf(*final(vp)),
        used_votes(*final(vp)) == used_votes(*old(vp)) - votes_at(*old(vp), a@, o@) + value,
        forall|x: Seq<char>, y: Seq<char>|
            #[trigger] votes_at(*final(vp), x, y) == if x == a@ && y == o@ {
                value as int
            } else {
                votes_at(*old(vp), x, y)
            },
        final(vp)@.dom() == old(vp)@.dom().insert(a@),
        totals_view(*final(vp)) == totals_view(*old(vp)).insert((a@, o@), value),
        ordered_after_set(*old(vp), *final(vp), a@, o@),
{
    let ghost v0 = *vp;
    match vp.find(a) {
        Some(i) => {
            proof {
                v0.lemma_index(i as int);
            }
            let mut inner = vp.take_at(i, StrMap::new());
            let ghost in0 = inner;
            set_amount(&mut inner, o, value);
            proof {
                lemma_sum_update(v0.vals@, i as int, inner, inner_sum_fn());
            }
            vp.set_at(i, inner);
            proof {
                assert(vp.vals@ == v0.vals@.update(i as int, inner));
                assert forall|j: int| 0 <= j < vp.vals@.len() implies (#[trigger] vp.vals@[j]).wf() by {
                    if j != i {
                        assert(vp.vals@[j] == v0.vals@[j]);
                    }
                }
                assert(vp@.dom() =~= v0@.dom().insert(a@));
                assert(totals_view(*vp) =~= totals_view(v0).insert((a@, o@), value));
            }
        },
        None => {
            let mut inner: StrMap<u128> = StrMap::new();
            proof {
                lemma_empty_sum(inner);
            }
            set_amount(&mut inner, o, value);
            vp.insert(a, inner);
            proof {
                lemma_sum_push(v0.vals@, inner, inner_sum_fn());
                assert forall|j: int| 0 <= j < vp.vals@.len() implies (#[trigger] vp.vals@[j]).wf() by {
                    if j < v0.vals@.len() {
                        assert(vp.vals@[j] == v0.vals@[j]);
                    }
                }
                assert(vp@.dom() =~= v0@.dom().insert(a@));
                assert(totals_view(*vp) =~= totals_view(v0).insert((a@, o@), value));
            }
        },
    }
}

/// Removes the votes for object `o` of address `a`, as the contract does:
/// the object leaves the address's map, and an address left without objects
/// leaves the outer map. The votes must exist.
pub fn remove_votes(vp: &mut VotePositions, a: &String, o: &String)
    requires
        votes_wf(*old(vp)),
        old(vp)@.contains_key(a@),
        old(vp)@[a@]@.contains_key(o@),
    ensures
        votes_wf(*final(vp)),
        used_votes(*final(vp)) == used_votes(*old(vp)) - votes_at(*old(vp), a@, o@),
        forall|x: Seq<char>, y: Seq<char>|
            #[trigger] votes_at(*final(vp), x, y) == if x == a@ && y == o@ {
                0
            } else {
                votes_at(*old(vp), x, y)
            },
        old(vp)@[a@]@.remove(o@) == Map::<Seq<char>, u128>::empty() ==> final(vp)@ == old(vp)@.remove(a@),
        old(vp)@[a@]@.remove(o@) != Map::<Seq<char>, u128>::empty() ==> final(vp)@.dom() == old(vp)@.dom(),
        totals_view(*final(vp)) == totals_view(*old(vp)).remove((a@, o@)),
        ordered_after_remove(*old(vp), *final(vp), a@, o@),
        ({
            let m = model_of(*old(vp));
            m.len() > 0 && a@ == m[0].0 && m[0].1.len() > 0 && o@ == m[0].1[0] ==> model_of(*final(vp)) == remove_first(m)
        }),
{
    let ghost v0 = *vp;
    let i = match vp.find(a) {
        Some(i) => i,
        None => {
            return;
        },
    };
    proof {
        v0.lemma_index(i as int);
    }
    let mut inner = vp.take_at(i, StrMap::new());
    let ghost in0 = inner;
    remove_amount(&mut inner, o);
    if inner.is_empty() {
        let ghost v1 = *vp;
        vp.remove(a);
        proof {
            assert(inner.vals@.len() == 0);
            lemma_empty_sum(inner);
            lemma_sum_swap_remove(v0.vals@, i as int, inner_sum_fn());
            assert(v1.key_seq() == v0.key_seq());
            assert(v1.key_seq().index_of(a@) == i);
            assert(vp.vals@ == v1.vals@.update(i as int, v1.vals@.last()).drop_last());
            assert(v1.vals@.update(i as int, v1.vals@.last()).drop_last() =~= v0.vals@.update(i as int, v0.vals@.last()).drop_last());
            assert forall|j: int| 0 <= j < vp.vals@.len() implies (#[trigger] vp.vals@[j]).wf() by {
                if j == i {
                    assert(vp.vals@[j] == v0.vals@[v0.vals@.len() - 1]);
                } else {
                    assert(vp.vals@[j] == v0.vals@[j]);
                }
            }
            assert(vp@ =~= v0@.remove(a@)) by {
                assert forall|x: Seq<char>| #[trigger] vp@.contains_key(x) == v0@.remove(a@).contains_key(x) by {
                    assert(vp@.dom() == v1@.remove(a@).dom());
                }
                assert forall|x: Seq<char>| vp@.contains_key(x) implies #[trigger] vp@[x] == v0@.remove(a@)[x] by {
                    assert(vp@[x] == v1@.remove(a@)[x]);
                    v1.lemma_has_index(x);
                    v1.lemma_index(v1.key_seq().index_of(x));
                    v0.lemma_index(v1.key_seq().index_of(x));
                }
            }
            assert forall|x: Seq<char>, y: Seq<char>| #[trigger] votes_at(*vp, x, y) == if x == a@ && y == o@ {
                0
            } else {
                votes_at(v0, x, y)
            } by {
                if x == a@ && y != o@ {
                    assert(!inner@.contains_key(y));
                    assert(!in0@.contains_key(y));
                }
            }
        }
    } else {
        proof {
            lemma_sum_update(v0.vals@, i as int, inner, inner_sum_fn());
        }
        vp.set_at(i, inner);
        proof {
            assert(vp.vals@ == v0.vals@.update(i as int, inner));
            assert forall|j: int| 0 <= j < vp.vals@.len() implies (#[trigger] vp.vals@[j]).wf() by {
                if j != i {
                    assert(vp.vals@[j] == v0.vals@[j]);
                }
            }
            assert(vp@.dom() =~= v0@.dom());
        }
    }
}

/// The votes for one object are at most all the votes given.
pub proof fn lemma_votes_at_le_used(vp: VotePositions, a: Seq<char>, o: Seq<char>)
    requires
        votes_wf(vp),
    ensures
        0 <= votes_at(vp, a, o) <= used_votes(vp),
{
    assert forall|j: int| 0 <= j < vp.vals@.len() implies inner_sum_fn()(#[trigger] vp.vals@[j]) >= 0 by {
        lemma_sum_nonneg(vp.vals@[j].vals@, |x: u128| x as int);
    }
    if vp@.contains_key(a) && vp@[a]@.contains_key(o) {
        vp.lemma_has_index(a);
        let i = vp.key_seq().index_of(a);
        vp.lemma_index(i);
        let inner = vp.vals@[i];
        assert(inner.wf());
        inner.lemma_has_index(o);
        let j = inner.key_seq().index_of(o);
        inner.lemma_index(j);
        lemma_sum_ge_elem(inner.vals@, j, |x: u128| x as int);
        lemma_sum_ge_elem(vp.vals@, i, inner_sum_fn());
        assert(votes_at(vp, a, o) == inner.vals@[j]);
        assert(inner_sum_fn()(inner) == sum_u128(inner.vals@));
        assert(votes_at(vp, a, o) <= sum_u128(inner.vals@));
    } else {
        lemma_sum_nonneg(vp.vals@, inner_sum_fn());
    }
}

/// A copy of a map of amounts, with the same keys in the same order.
pub fn copy_amounts(m: &StrMap<u128>) -> (r: StrMap<u128>)
    requires
        m.wf(),
    ensures
        r.wf(),
        r.key_seq() == m.key_seq(),
        r.vals@ == m.vals@,
        r@ == m@,
{
    let mut keys: Vec<String> = Vec::new();
    let mut vals: Vec<u128> = Vec::new();
    let mut i: usize = 0;
    while i < m.keys.len()
        invariant
            m.wf(),
            0 <= i <= m.keys@.len(),
            keys@.len() == i,
            vals@ == m.vals@.take(i as int),
            forall|j: int| 0 <= j < i ==> (#[trigger] keys@[j])@ == m.key_seq()[j],
        decreases m.keys@.len() - i,
    {
        keys.push(m.key_at(i).clone());
        vals.push(*m.val_at(i));
        assert(vals@ =~= m.vals@.take(i as int + 1));
        i = i + 1;
    }
    let r = StrMap { keys, vals };
    assert(r.key_seq() =~= m.key_seq());
    assert(r.vals@ =~= m.vals@);
    assert(r@ =~= m@);
    r
}

/// A copy of a voter's votes, with the same order everywhere.
pub fn copy_votes(vp: &VotePositions) -> (r: VotePositions)
    requires
        votes_wf(*vp),
    ensures
        votes_wf(r),
        model_of(r) == model_of(*vp),
        forall|x: Seq<char>, y: Seq<char>| #[trigger] votes_at(r, x, y) == votes_at(*vp, x, y),
        totals_view(r) == totals_view(*vp),
        used_votes(r) == used_votes(*vp),
        r@.dom() == vp@.dom(),
{
    let mut keys: Vec<String> = Vec::new();
    let mut vals: Vec<StrMap<u128>> = Vec::new();
    let mut i: usize = 0;
    while i < vp.keys.len()
        invariant
            votes_wf(*vp),
            0 <= i <= vp.keys@.len(),
            keys@.len() == i,
            vals@.len() == i,
            forall|j: int| 0 <= j < i ==> (#[trigger] keys@[j])@ == vp.key_seq()[j],
            forall|j: int| 0 <= j < i ==> (#[trigger] vals@[j]).wf() && vals@[j].key_seq() == vp.vals@[j].key_seq()
                && vals@[j].vals@ == vp.vals@[j].vals@ && vals@[j]@ == vp.vals@[j]@,
        decreases vp.keys@.len() - i,
    {
        keys.push(vp.key_at(i).clone());
        assert(vp.vals@[i as int].wf());
        let inner = copy_amounts(vp.val_at(i));
        let ghost v0 = vals@;
        vals.push(inner);
        assert forall|j: int| 0 <= j < i + 1 implies (#[trigger] vals@[j]).wf() && vals@[j].key_seq() == vp.vals@[j].key_seq()
            && vals@[j].vals@ == vp.vals@[j].vals@ && vals@[j]@ == vp.vals@[j]@ by {
            if j < i {
                assert(vals@[j] == v0[j]);
            }
        }
        i = i + 1;
    }
    let r = StrMap { keys, vals };
    assert(r.key_seq() =~= vp.key_seq());
    proof {
        assert forall|j: int| 0 <= j < r.vals@.len() implies (#[trigger] r.vals@[j]).wf() by {}
        assert(model_of(r) =~= model_of(*vp));
        assert forall|x: Seq<char>| #[trigger] r@.contains_key(x) == vp@.contains_key(x) by {}
        assert forall|x: Seq<char>| r@.contains_key(x) implies #[trigger] r@[x]@ == vp@[x]@ by {
            let j = r.key_seq().index_of(x);
            r.lemma_has_index(x);
            r.lemma_index(j);
            vp.lemma_index(j);
        }
        assert forall|x: Seq<char>, y: Seq<char>| #[trigger] votes_at(r, x, y) == votes_at(*vp, x, y) by {
            if r@.contains_key(x) {
                assert(r@[x]@ == vp@[x]@);
            }
        }
        assert(totals_view(r) =~= totals_view(*vp)) by {
            assert forall|p: (Seq<char>, Seq<char>)| #[trigger] totals_view(r).contains_key(p) == totals_view(*vp).contains_key(p) by {
                if r@.contains_key(p.0) {
                    assert(r@[p.0]@ == vp@[p.0]@);
                }
            }
            assert forall|p: (Seq<char>, Seq<char>)| totals_view(r).contains_key(p) implies #[trigger] totals_view(r)[p] == totals_view(*vp)[p] by {
                assert(r@[p.0]@ == vp@[p.0]@);
            }
        }
        crate::seq_sum::lemma_sum_ext(r.vals@, inner_sum_fn(), |m: StrMap<u128>| sum_u128(m.vals@));
        assert forall|j: int| 0 <= j < r.vals@.len() implies #[trigger] inner_sum_fn()(r.vals@[j]) == inner_sum_fn()(vp.vals@[j]) by {}
        lemma_sum_seq_eq(r.vals@, vp.vals@);
        assert(r@.dom() =~= vp@.dom());
    }
    r
}

/// Sums of inner maps agree where the amounts agree position by position.
proof fn lemma_sum_seq_eq(a: Seq<StrMap<u128>>, b: Seq<StrMap<u128>>)
    requires
        a.len() == b.len(),
        forall|j: int| 0 <= j < a.len() ==> (#[trigger] a[j]).vals@ == b[j].vals@,
    ensures
        sum_of(a, inner_sum_fn()) == sum_of(b, inner_sum_fn()),
    decreases a.len(),
{
    if a.len() > 0 {
        lemma_sum_seq_eq(a.drop_last(), b.drop_last());
        assert(a.last().vals@ == b.last().vals@);
    }
}

/// All the votes given, or `None` where the sum does not fit in 128 bits.
pub fn checked_used_votes(vp: &VotePositions) -> (r: Option<u128>)
    ensures
        r is Some <==> used_votes(*vp) <= u128::MAX,
        r matches Some(x) ==> x == used_votes(*vp),
{
    let outer = &vp.vals;
    let mut total: u128 = 0;
    let mut i: usize = 0;
    proof {
        crate::voter::lemma_inner_sums_nonneg(outer@);
    }
    while i < outer.len()
        invariant
            0 <= i <= outer@.len(),
            total == sum_of(outer@.take(i as int), inner_sum_fn()),
            forall|k: int| 0 <= k < outer@.len() ==> inner_sum_fn()(#[trigger] outer@[k]) >= 0,
            used_votes(*vp) == sum_of(outer@, inner_sum_fn()),
        decreases outer@.len() - i,
    {
        proof {
            crate::seq_sum::lemma_sum_take_push(outer@, i as int, inner_sum_fn());
            crate::voter::lemma_take_le(outer@, i as int + 1, inner_sum_fn());
        }
        let inner = &outer[i].vals;
        let ghost base = total;
        let mut j: usize = 0;
        while j < inner.len()
            invariant
                0 <= j <= inner@.len(),
                total == base + sum_u128(inner@.take(j as int)),
                base + sum_u128(inner@) <= sum_of(outer@, inner_sum_fn()),
                base + sum_u128(inner@) == sum_of(outer@.take(i as int + 1), inner_sum_fn()),
                used_votes(*vp) == sum_of(outer@, inner_sum_fn()),
            decreases inner@.len() - j,
        {
            proof {
                crate::seq_sum::lemma_sum_take_push(inner@, j as int, |x: u128| x as int);
                crate::voter::lemma_take_le(inner@, j as int + 1, |x: u128| x as int);
            }
            match total.checked_add(inner[j]) {
                Some(t) => {
                    total = t;
                },
                None => {
                    assert(sum_u128(inner@.take(j as int + 1)) == sum_u128(inner@.take(j as int)) + inner@[j as int]);
                    assert(sum_u128(inner@.take(j as int + 1)) <= sum_u128(inner@));
                    return None;
                },
            }
            j = j + 1;
        }
        assert(inner@.take(j as int) =~= inner@);
        i = i + 1;
    }
    assert(outer@.take(i as int) =~= outer@);
    Some(total)
}

} // verus!
