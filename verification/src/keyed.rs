//! Sequences of values stored under string keys kept in ascending order,
//! with lookup, insertion and removal.
use vstd::prelude::*;
use crate::text::{
    chars_of, eq_chars, lex_less, lex_lt, lemma_lex_asymmetric, lemma_lex_irreflexive, string_of,
    lemma_lex_total, lemma_lex_transitive,
};

verus! {

/// A value stored under a string key.
pub struct Keyed<V> {
    pub key: String,
    pub value: V,
}

pub open spec fn keys_of<V>(s: Seq<Keyed<V>>) -> Seq<Seq<char>> {
    s.map_values(|x: Keyed<V>| x.key@)
}

/// Keys in strictly ascending order.
pub open spec fn sorted_keys<V>(s: Seq<(Seq<char>, V)>) -> bool {
    forall|i: int, j: int| 0 <= i < j < s.len() ==> lex_lt(s[i].0, s[j].0)
}

pub open spec fn sorted_seq(s: Seq<Seq<char>>) -> bool {
    forall|i: int, j: int| 0 <= i < j < s.len() ==> lex_lt(s[i], s[j])
}

/// The value stored under key `k`.
pub open spec fn lookup<V>(s: Seq<(Seq<char>, V)>, k: Seq<char>) -> Option<V>
    decreases s.len(),
{
    if s.len() == 0 {
        None
    } else if s[0].0 == k {
        Some(s[0].1)
    } else {
        lookup(s.drop_first(), k)
    }
}

/// `s` with `v` stored under `k`: replacing the value of an existing key, or
/// inserted before the first greater key.
pub open spec fn upsert<V>(s: Seq<(Seq<char>, V)>, k: Seq<char>, v: V) -> Seq<(Seq<char>, V)>
    decreases s.len(),
{
    if s.len() == 0 {
        seq![(k, v)]
    } else if s[0].0 == k {
        seq![(k, v)] + s.drop_first()
    } else if lex_lt(k, s[0].0) {
        seq![(k, v)] + s
    } else {
        seq![s[0]] + upsert(s.drop_first(), k, v)
    }
}

/// `s` without key `k`.
pub open spec fn remove_key<V>(s: Seq<(Seq<char>, V)>, k: Seq<char>) -> Seq<(Seq<char>, V)>
    decreases s.len(),
{
    if s.len() == 0 {
        s
    } else if s.last().0 == k {
        remove_key(s.drop_last(), k)
    } else {
        remove_key(s.drop_last(), k).push(s.last())
    }
}

/// Where a key is, or where it would be inserted.
pub enum Slot {
    Found(usize),
    Absent(usize),
}

pub proof fn lemma_lookup_at<V>(s: Seq<(Seq<char>, V)>, i: int)
    requires
        sorted_keys(s),
        0 <= i < s.len(),
    ensures
        lookup(s, s[i].0) == Some(s[i].1),
    decreases i,
{
    if i > 0 {
        lemma_lex_irreflexive(s[0].0);
        assert(s[0].0 != s[i].0);
        assert(sorted_keys(s.drop_first()));
        lemma_lookup_at(s.drop_first(), i - 1);
    }
}

pub proof fn lemma_lookup_absent<V>(s: Seq<(Seq<char>, V)>, k: Seq<char>)
    requires
        forall|j: int| 0 <= j < s.len() ==> s[j].0 != k,
    ensures
        lookup(s, k) is None,
    decreases s.len(),
{
    if s.len() > 0 {
        lemma_lookup_absent(s.drop_first(), k);
    }
}

pub proof fn lemma_upsert_found<V>(s: Seq<(Seq<char>, V)>, i: int, v: V)
    requires
        sorted_keys(s),
        0 <= i < s.len(),
    ensures
        upsert(s, s[i].0, v) == s.update(i, (s[i].0, v)),
    decreases i,
{
    let k = s[i].0;
    if i == 0 {
        assert(upsert(s, k, v) =~= s.update(i, (k, v)));
    } else {
        lemma_lex_irreflexive(s[0].0);
        lemma_lex_asymmetric(s[0].0, k);
        assert(lex_lt(s[0].0, k));
        assert(sorted_keys(s.drop_first()));
        lemma_upsert_found(s.drop_first(), i - 1, v);
        assert(s.drop_first()[i - 1].0 == k);
        assert(upsert(s, k, v) =~= s.update(i, (k, v)));
    }
}

pub proof fn lemma_upsert_absent<V>(s: Seq<(Seq<char>, V)>, p: int, k: Seq<char>, v: V)
    requires
        0 <= p <= s.len(),
        forall|j: int| 0 <= j < p ==> lex_lt(#[trigger] s[j].0, k),
        forall|j: int| p <= j < s.len() ==> lex_lt(k, #[trigger] s[j].0),
    ensures
        upsert(s, k, v) == s.insert(p, (k, v)),
    decreases p,
{
    if s.len() == 0 {
        assert(upsert(s, k, v) =~= s.insert(p, (k, v)));
    } else if p == 0 {
        lemma_lex_irreflexive(k);
        assert(s[0].0 != k);
        assert(upsert(s, k, v) =~= s.insert(p, (k, v)));
    } else {
        lemma_lex_irreflexive(k);
        lemma_lex_asymmetric(k, s[0].0);
        assert(s[0].0 != k);
        assert(!lex_lt(k, s[0].0));
        let t = s.drop_first();
        assert forall|j: int| 0 <= j < p - 1 implies lex_lt(#[trigger] t[j].0, k) by {
            assert(t[j] == s[j + 1]);
        }
        assert forall|j: int| p - 1 <= j < t.len() implies lex_lt(k, #[trigger] t[j].0) by {
            assert(t[j] == s[j + 1]);
        }
        lemma_upsert_absent(t, p - 1, k, v);
        assert(upsert(s, k, v) =~= s.insert(p, (k, v)));
    }
}

pub open spec fn has_key<V>(s: Seq<(Seq<char>, V)>, k: Seq<char>) -> bool {
    exists|m: int| 0 <= m < s.len() && s[m].0 == k
}

pub proof fn lemma_upsert_sorted<V>(s: Seq<(Seq<char>, V)>, k: Seq<char>, v: V)
    requires
        sorted_keys(s),
    ensures
        sorted_keys(upsert(s, k, v)),
        forall|j: int| 0 <= j < upsert(s, k, v).len() ==> has_key(s, #[trigger] upsert(s, k, v)[j].0)
            || upsert(s, k, v)[j].0 == k,
    decreases s.len(),
{
    let u = upsert(s, k, v);
    if s.len() == 0 {
    } else if s[0].0 == k {
        assert forall|j: int| 0 <= j < u.len() implies has_key(s, #[trigger] u[j].0) || u[j].0 == k by {
            if j > 0 {
                assert(s[j].0 == u[j].0);
            }
        }
    } else if lex_lt(k, s[0].0) {
        assert forall|i: int, j: int| 0 <= i < j < u.len() implies lex_lt(u[i].0, u[j].0) by {
            if i == 0 {
                if j > 1 {
                    lemma_lex_transitive(k, s[0].0, s[j - 1].0);
                }
            }
        }
        assert forall|j: int| 0 <= j < u.len() implies has_key(s, #[trigger] u[j].0) || u[j].0 == k by {
            if j > 0 {
                assert(s[j - 1].0 == u[j].0);
            }
        }
    } else {
        let t = s.drop_first();
        assert(sorted_keys(t));
        lemma_upsert_sorted(t, k, v);
        let ut = upsert(t, k, v);
        assert(u == seq![s[0]] + ut);
        lemma_lex_total(k, s[0].0);
        assert(lex_lt(s[0].0, k));
        assert forall|j: int| 0 <= j < ut.len() implies lex_lt(s[0].0, #[trigger] ut[j].0) by {
            if ut[j].0 != k {
                assert(has_key(t, ut[j].0));
                let m = choose|m: int| 0 <= m < t.len() && t[m].0 == ut[j].0;
                assert(t[m] == s[m + 1]);
            }
        }
        assert forall|i: int, j: int| 0 <= i < j < u.len() implies lex_lt(u[i].0, u[j].0) by {
            if i == 0 {
                assert(u[j] == ut[j - 1]);
            } else {
                assert(u[i] == ut[i - 1]);
                assert(u[j] == ut[j - 1]);
            }
        }
        assert forall|j: int| 0 <= j < u.len() implies has_key(s, #[trigger] u[j].0) || u[j].0 == k by {
            if j == 0 {
                assert(s[0].0 == u[0].0);
            } else {
                assert(u[j] == ut[j - 1]);
                if ut[j - 1].0 != k {
                    assert(has_key(t, ut[j - 1].0));
                    let m = choose|m: int| 0 <= m < t.len() && t[m].0 == ut[j - 1].0;
                    assert(t[m] == s[m + 1]);
                }
            }
        }
    }
}

pub proof fn lemma_lookup_upsert<V>(s: Seq<(Seq<char>, V)>, k: Seq<char>, v: V)
    requires
        sorted_keys(s),
    ensures
        lookup(upsert(s, k, v), k) == Some(v),
    decreases s.len(),
{
    if s.len() > 0 && s[0].0 != k && !lex_lt(k, s[0].0) {
        assert(sorted_keys(s.drop_first()));
        lemma_lookup_upsert(s.drop_first(), k, v);
        assert(upsert(s, k, v).drop_first() == upsert(s.drop_first(), k, v));
    }
}

/// Finds `key` among sorted keys.
pub fn find_slot<V>(v: &Vec<Keyed<V>>, key: &Vec<char>) -> (res: Slot)
    requires
        sorted_seq(keys_of(v@)),
    ensures
        match res {
            Slot::Found(i) => i < v.len() && v@[i as int].key@ == key@,
            Slot::Absent(p) => p <= v.len() && (forall|j: int|
                0 <= j < p ==> lex_lt(#[trigger] v@[j].key@, key@)) && (forall|j: int|
                p <= j < v.len() ==> lex_lt(key@, #[trigger] v@[j].key@)),
        },
{
    let mut i: usize = 0;
    while i < v.len()
        invariant
            i <= v.len(),
            sorted_seq(keys_of(v@)),
            forall|j: int| 0 <= j < i ==> lex_lt(#[trigger] v@[j].key@, key@),
        decreases v.len() - i,
    {
        let k = chars_of(v[i].key.as_str());
        if eq_chars(&k, key) {
            return Slot::Found(i);
        }
        if lex_less(key, &k) {
            proof {
                assert forall|j: int| i <= j < v.len() implies lex_lt(key@, #[trigger] v@[j].key@) by {
                    if j > i {
                        assert(keys_of(v@)[i as int] == v@[i as int].key@);
                        assert(keys_of(v@)[j] == v@[j].key@);
                        lemma_lex_transitive(key@, v@[i as int].key@, v@[j].key@);
                    }
                }
            }
            return Slot::Absent(i);
        }
        proof {
            lemma_lex_total(key@, k@);
        }
        i = i + 1;
    }
    Slot::Absent(i)
}

pub proof fn lemma_keys_sorted<V, W>(s: Seq<Keyed<V>>, f: spec_fn(Keyed<V>) -> (Seq<char>, W))
    requires
        forall|x: Keyed<V>| #[trigger] f(x).0 == x.key@,
        sorted_keys(s.map_values(f)),
    ensures
        sorted_seq(keys_of(s)),
{
    assert forall|i: int, j: int| 0 <= i < j < s.len() implies lex_lt(
        keys_of(s)[i],
        keys_of(s)[j],
    ) by {
        assert(s.map_values(f)[i].0 == keys_of(s)[i]);
        assert(s.map_values(f)[j].0 == keys_of(s)[j]);
    }
}

pub proof fn lemma_found_lookup<V>(s: Seq<(Seq<char>, V)>, i: int, k: Seq<char>)
    requires
        sorted_keys(s),
        0 <= i < s.len(),
        s[i].0 == k,
    ensures
        lookup(s, k) == Some(s[i].1),
{
    lemma_lookup_at(s, i);
}

pub proof fn lemma_absent_lookup<V>(s: Seq<(Seq<char>, V)>, p: int, k: Seq<char>)
    requires
        0 <= p <= s.len(),
        forall|j: int| 0 <= j < p ==> lex_lt(#[trigger] s[j].0, k),
        forall|j: int| p <= j < s.len() ==> lex_lt(k, #[trigger] s[j].0),
    ensures
        lookup(s, k) is None,
{
    assert forall|j: int| 0 <= j < s.len() implies s[j].0 != k by {
        lemma_lex_irreflexive(k);
        if j < p {
            assert(lex_lt(s[j].0, k));
        } else {
            assert(lex_lt(k, s[j].0));
        }
    }
    lemma_lookup_absent(s, k);
}

pub proof fn lemma_remove_key_absent<V>(s: Seq<(Seq<char>, V)>, k: Seq<char>)
    requires
        forall|j: int| 0 <= j < s.len() ==> s[j].0 != k,
    ensures
        remove_key(s, k) == s,
    decreases s.len(),
{
    if s.len() > 0 {
        lemma_remove_key_absent(s.drop_last(), k);
        assert(s.drop_last().push(s.last()) == s);
    }
}

pub proof fn lemma_remove_key_at<V>(s: Seq<(Seq<char>, V)>, i: int)
    requires
        sorted_keys(s),
        0 <= i < s.len(),
    ensures
        remove_key(s, s[i].0) == s.remove(i),
    decreases s.len(),
{
    let k = s[i].0;
    let t = s.drop_last();
    if i == s.len() - 1 {
        assert forall|j: int| 0 <= j < t.len() implies t[j].0 != k by {
            lemma_lex_irreflexive(k);
        }
        lemma_remove_key_absent(t, k);
        assert(s.remove(i) =~= t);
    } else {
        lemma_lex_irreflexive(k);
        assert(s.last().0 != k);
        assert(sorted_keys(t));
        assert(t[i] == s[i]);
        lemma_remove_key_at(t, i);
        assert(s.remove(i) =~= t.remove(i).push(s.last()));
    }
}

pub proof fn lemma_remove_sorted<V>(s: Seq<(Seq<char>, V)>, i: int)
    requires
        sorted_keys(s),
        0 <= i < s.len(),
    ensures
        sorted_keys(s.remove(i)),
{
    let r = s.remove(i);
    assert forall|a: int, b: int| 0 <= a < b < r.len() implies lex_lt(r[a].0, r[b].0) by {
        let a2 = if a < i {
            a
        } else {
            a + 1
        };
        let b2 = if b < i {
            b
        } else {
            b + 1
        };
        assert(r[a] == s[a2]);
        assert(r[b] == s[b2]);
    }
}

pub open spec fn has_pair<V>(s: Seq<(Seq<char>, V)>, p: (Seq<char>, V)) -> bool {
    exists|m: int| 0 <= m < s.len() && s[m] == p
}

pub proof fn lemma_lookup_some<V>(s: Seq<(Seq<char>, V)>, k: Seq<char>)
    requires
        lookup(s, k) is Some,
    ensures
        has_pair(s, (k, lookup(s, k).unwrap())),
    decreases s.len(),
{
    if s[0].0 != k {
        lemma_lookup_some(s.drop_first(), k);
        let m = choose|m: int|
            0 <= m < s.drop_first().len() && s.drop_first()[m] == (k, lookup(s, k).unwrap());
        assert(s[m + 1] == (k, lookup(s, k).unwrap()));
    } else {
        assert(s[0] == (k, lookup(s, k).unwrap()));
    }
}

pub proof fn lemma_upsert_others<V>(s: Seq<(Seq<char>, V)>, k: Seq<char>, v: V)
    ensures
        forall|j: int|
            0 <= j < upsert(s, k, v).len() && upsert(s, k, v)[j].0 != k ==> has_pair(
                s,
                #[trigger] upsert(s, k, v)[j],
            ),
    decreases s.len(),
{
    let u = upsert(s, k, v);
    if s.len() == 0 {
    } else if s[0].0 == k {
        assert forall|j: int| 0 <= j < u.len() && u[j].0 != k implies has_pair(s, #[trigger] u[j]) by {
            assert(u[j] == s[j]);
        }
    } else if lex_lt(k, s[0].0) {
        assert forall|j: int| 0 <= j < u.len() && u[j].0 != k implies has_pair(s, #[trigger] u[j]) by {
            assert(u[j] == s[j - 1]);
        }
    } else {
        let t = s.drop_first();
        lemma_upsert_others(t, k, v);
        let ut = upsert(t, k, v);
        assert forall|j: int| 0 <= j < u.len() && u[j].0 != k implies has_pair(s, #[trigger] u[j]) by {
            if j == 0 {
                assert(u[0] == s[0]);
            } else {
                assert(u[j] == ut[j - 1]);
                assert(has_pair(t, ut[j - 1]));
                let m = choose|m: int| 0 <= m < t.len() && t[m] == ut[j - 1];
                assert(s[m + 1] == t[m]);
            }
        }
    }
}

/// The keys and values of keyed items.
pub open spec fn pairs_of<V>(s: Seq<Keyed<V>>) -> Seq<(Seq<char>, V)> {
    s.map_values(|x: Keyed<V>| (x.key@, x.value))
}

/// Stores `value` under `key` among items sorted by key.
pub fn insert_key<V>(v: &mut Vec<Keyed<V>>, key: &Vec<char>, value: V)
    requires
        sorted_keys(pairs_of(old(v)@)),
    ensures
        pairs_of(final(v)@) == upsert(pairs_of(old(v)@), key@, value),
        sorted_keys(pairs_of(final(v)@)),
{
    let ghost old_v = pairs_of(v@);
    let ghost val = value;
    proof {
        lemma_keys_sorted(v@, |x: Keyed<V>| (x.key@, x.value));
    }
    let item = Keyed { key: string_of(key), value };
    match find_slot(v, key) {
        Slot::Found(i) => {
            let _ = v.remove(i);
            v.insert(i, item);
            proof {
                assert(old_v[i as int].0 == key@);
                lemma_upsert_found(old_v, i as int, val);
                assert(pairs_of(v@) =~= old_v.update(i as int, (key@, val)));
            }
        },
        Slot::Absent(p) => {
            v.insert(p, item);
            proof {
                assert forall|j: int| 0 <= j < p implies lex_lt(#[trigger] old_v[j].0, key@) by {
                    assert(old_v[j].0 == old(v)@[j].key@);
                }
                assert forall|j: int| p <= j < old_v.len() implies lex_lt(key@, #[trigger] old_v[j].0) by {
                    assert(old_v[j].0 == old(v)@[j].key@);
                }
                lemma_upsert_absent(old_v, p as int, key@, val);
                assert(pairs_of(v@) =~= old_v.insert(p as int, (key@, val)));
            }
        },
    }
    proof {
        lemma_upsert_sorted(old_v, key@, val);
    }
}

/// The lookup of another key is not changed by storing a value.
pub proof fn lemma_lookup_upsert_other<V>(s: Seq<(Seq<char>, V)>, k: Seq<char>, v: V, other: Seq<char>)
    requires
        other != k,
    ensures
        lookup(upsert(s, k, v), other) == lookup(s, other),
    decreases s.len(),
{
    let u = upsert(s, k, v);
    if s.len() == 0 {
        assert(u == seq![(k, v)]);
        assert(u.drop_first() == Seq::<(Seq<char>, V)>::empty());
        assert(lookup(u, other) == lookup(u.drop_first(), other));
    } else if s[0].0 == k {
        assert(u == seq![(k, v)] + s.drop_first());
        assert(u.drop_first() == s.drop_first());
        assert(lookup(u, other) == lookup(u.drop_first(), other));
        assert(lookup(s, other) == lookup(s.drop_first(), other));
    } else if lex_lt(k, s[0].0) {
        assert(u == seq![(k, v)] + s);
        assert(u.drop_first() == s);
        assert(lookup(u, other) == lookup(u.drop_first(), other));
    } else {
        assert(u == seq![s[0]] + upsert(s.drop_first(), k, v));
        lemma_lookup_upsert_other(s.drop_first(), k, v, other);
        assert(u.drop_first() == upsert(s.drop_first(), k, v));
        assert(u[0] == s[0]);
    }
}

} // verus!
