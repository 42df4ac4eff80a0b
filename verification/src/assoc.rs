//! Sorted association lists from string keys to values.
//!
//! Both the metadata cache and the manifest hold an ordered mapping from a
//! string key to a record.  The mapping is a vector of pairs kept strictly
//! sorted by key, which fixes the iteration order, makes every key unique,
//! and mirrors the sorted persisted forms.

use vstd::prelude::*;

use crate::text::{
    lemma_seq_lt_asym, lemma_seq_lt_irrefl, lemma_seq_lt_total, lemma_seq_lt_trans, seq_lt,
    str_compare, str_eq, Cmp,
};

verus! {

/// The abstract contents of an association list: the key views paired with
/// the values.
pub open spec fn assoc_view<V>(entries: Seq<(String, V)>) -> Seq<(Seq<char>, V)> {
    entries.map_values(|e: (String, V)| (e.0@, e.1))
}

/// Entry lists are strictly sorted by key; in particular all keys are
/// distinct.
pub open spec fn entries_sorted<V>(s: Seq<(Seq<char>, V)>) -> bool {
    forall|i: int, j: int| 0 <= i < j < s.len() ==> seq_lt(#[trigger] s[i].0, #[trigger] s[j].0)
}

/// The value stored under `k`, if any.
pub open spec fn spec_find<V>(s: Seq<(Seq<char>, V)>, k: Seq<char>) -> Option<V>
    decreases s.len(),
{
    if s.len() == 0 {
        None
    } else if s[0].0 == k {
        Some(s[0].1)
    } else {
        spec_find(s.skip(1), k)
    }
}

/// The entry list after an upsert of `(k, v)`, keeping the sort order.
pub open spec fn spec_insert<V>(s: Seq<(Seq<char>, V)>, k: Seq<char>, v: V) -> Seq<(Seq<char>, V)>
    decreases s.len(),
{
    if s.len() == 0 {
        seq![(k, v)]
    } else if seq_lt(k, s[0].0) {
        seq![(k, v)] + s
    } else if k == s[0].0 {
        seq![(k, v)] + s.skip(1)
    } else {
        seq![s[0]] + spec_insert(s.skip(1), k, v)
    }
}

/// An upsert keeps the entry list strictly sorted.
pub proof fn lemma_spec_insert_sorted<V>(s: Seq<(Seq<char>, V)>, k: Seq<char>, v: V)
    requires
        entries_sorted(s),
    ensures
        entries_sorted(spec_insert(s, k, v)),
    decreases s.len(),
{
    if s.len() == 0 {
    } else if seq_lt(k, s[0].0) {
        let r = seq![(k, v)] + s;
        assert forall|i: int, j: int| 0 <= i < j < r.len() implies seq_lt(
            #[trigger] r[i].0,
            #[trigger] r[j].0,
        ) by {
            if i == 0 {
                if j > 1 {
                    lemma_seq_lt_trans(k, s[0].0, s[j - 1].0);
                }
            }
        }
    } else if k == s[0].0 {
        let r = seq![(k, v)] + s.skip(1);
        assert forall|i: int, j: int| 0 <= i < j < r.len() implies seq_lt(
            #[trigger] r[i].0,
            #[trigger] r[j].0,
        ) by {
            assert(forall|m: int| 0 <= m < s.skip(1).len() ==> s.skip(1)[m] == s[m + 1]);
        }
    } else {
        lemma_seq_lt_total(k, s[0].0);
        assert(seq_lt(s[0].0, k));
        assert(entries_sorted(s.skip(1))) by {
            assert(forall|m: int| 0 <= m < s.skip(1).len() ==> s.skip(1)[m] == s[m + 1]);
        }
        lemma_spec_insert_sorted(s.skip(1), k, v);
        let t = spec_insert(s.skip(1), k, v);
        let r = seq![s[0]] + t;
        assert forall|i: int, j: int| 0 <= i < j < r.len() implies seq_lt(
            #[trigger] r[i].0,
            #[trigger] r[j].0,
        ) by {
            if i == 0 {
                // r[j] is either (k, v) or an element of s.skip(1); the head
                // of s is below both.
                assert(t[j - 1] == r[j]);
                if t[j - 1].0 == k {
                } else {
                    lemma_spec_insert_membership(s.skip(1), k, v, j - 1);
                }
            }
        }
    }
}

/// Every element of an upsert result is the new pair or an element of the
/// original list.
proof fn lemma_spec_insert_membership<V>(s: Seq<(Seq<char>, V)>, k: Seq<char>, v: V, i: int)
    requires
        0 <= i < spec_insert(s, k, v).len(),
    ensures
        spec_insert(s, k, v)[i] == (k, v) || exists|m: int|
            0 <= m < s.len() && s[m] == #[trigger] spec_insert(s, k, v)[i],
    decreases s.len(),
{
    if s.len() == 0 {
    } else if seq_lt(k, s[0].0) {
    } else if k == s[0].0 {
    } else {
        if i > 0 {
            lemma_spec_insert_membership(s.skip(1), k, v, i - 1);
            if spec_insert(s, k, v)[i] != (k, v) {
                let m = choose|m: int|
                    0 <= m < s.skip(1).len() && s.skip(1)[m] == spec_insert(s.skip(1), k, v)[i - 1];
                assert(s[m + 1] == spec_insert(s, k, v)[i]);
            }
        }
    }
}

/// After an upsert, the inserted key maps to the inserted value and every
/// other key maps to what it mapped to before.
pub proof fn lemma_spec_find_insert<V>(s: Seq<(Seq<char>, V)>, k: Seq<char>, v: V, q: Seq<char>)
    ensures
        spec_find(spec_insert(s, k, v), q) == if q == k {
            Some(v)
        } else {
            spec_find(s, q)
        },
    decreases s.len(),
{
    let r = spec_insert(s, k, v);
    if s.len() == 0 {
        if q == k {
        } else {
            assert(r.skip(1) =~= Seq::<(Seq<char>, V)>::empty());
        }
    } else if seq_lt(k, s[0].0) {
        assert(r.skip(1) =~= s);
        if q == k {
            lemma_seq_lt_irrefl(k);
        }
    } else if k == s[0].0 {
        assert(r.skip(1) =~= s.skip(1));
    } else {
        lemma_seq_lt_total(k, s[0].0);
        assert(r[0] == s[0]);
        assert(r.skip(1) =~= spec_insert(s.skip(1), k, v));
        lemma_spec_find_insert(s.skip(1), k, v, q);
        if q == k {
            lemma_seq_lt_irrefl(k);
            assert(s[0].0 != k);
        }
    }
}

/// Inserting a key above every present key appends the new entry.
pub proof fn lemma_spec_insert_append<V>(s: Seq<(Seq<char>, V)>, k: Seq<char>, v: V)
    requires
        forall|i: int| 0 <= i < s.len() ==> seq_lt(#[trigger] s[i].0, k),
    ensures
        spec_insert(s, k, v) == s.push((k, v)),
    decreases s.len(),
{
    if s.len() == 0 {
        assert(spec_insert(s, k, v) =~= s.push((k, v)));
    } else {
        lemma_seq_lt_asym(s[0].0, k);
        lemma_seq_lt_irrefl(k);
        assert(!seq_lt(k, s[0].0));
        assert(k != s[0].0);
        assert(forall|i: int| 0 <= i < s.skip(1).len() ==> seq_lt(#[trigger] s.skip(1)[i].0, k));
        lemma_spec_insert_append(s.skip(1), k, v);
        assert(seq![s[0]] + s.skip(1).push((k, v)) =~= s.push((k, v)));
    }
}

/// Successive upserts of an already-sorted entry list rebuild exactly that
/// list.
pub open spec fn insert_all<V>(s: Seq<(Seq<char>, V)>) -> Seq<(Seq<char>, V)>
    decreases s.len(),
{
    if s.len() == 0 {
        Seq::<(Seq<char>, V)>::empty()
    } else {
        spec_insert(insert_all(s.drop_last()), s.last().0, s.last().1)
    }
}

pub proof fn lemma_insert_all_sorted_id<V>(s: Seq<(Seq<char>, V)>)
    requires
        entries_sorted(s),
    ensures
        insert_all(s) == s,
    decreases s.len(),
{
    if s.len() > 0 {
        let d = s.drop_last();
        assert(entries_sorted(d)) by {
            assert(forall|m: int| 0 <= m < d.len() ==> d[m] == s[m]);
        }
        lemma_insert_all_sorted_id(d);
        assert(forall|i: int| 0 <= i < d.len() ==> seq_lt(#[trigger] d[i].0, s.last().0));
        lemma_spec_insert_append(d, s.last().0, s.last().1);
        assert(d.push(s.last()) =~= s);
        assert(s.last() == (s.last().0, s.last().1));
    }
}

/// Look up the value stored under `key`, if any.
pub fn assoc_get<'a, V>(entries: &'a Vec<(String, V)>, key: &str) -> (r: Option<&'a V>)
    ensures
        match r {
            Some(v) => spec_find(assoc_view(entries@), key@) == Some(*v),
            None => spec_find(assoc_view(entries@), key@) == None::<V>,
        },
{
    let ghost s = assoc_view(entries@);
    let n = entries.len();
    let mut i: usize = 0;
    proof {
        assert(s.skip(0) =~= s);
    }
    while i < n
        invariant
            0 <= i <= n,
            n == entries@.len(),
            s == assoc_view(entries@),
            s.len() == n,
            spec_find(s, key@) == spec_find(s.skip(i as int), key@),
        decreases n - i,
    {
        proof {
            assert(s.skip(i as int)[0] == s[i as int]);
            assert(s.skip(i as int).skip(1) =~= s.skip(i + 1));
        }
        if str_eq(entries[i].0.as_str(), key) {
            return Some(&entries[i].1);
        }
        i = i + 1;
    }
    proof {
        assert(s.skip(n as int) =~= Seq::<(Seq<char>, V)>::empty());
    }
    None
}

/// Insert or overwrite the value stored under `key`, keeping the list
/// sorted.
pub fn assoc_insert<V>(entries: &mut Vec<(String, V)>, key: String, value: V)
    requires
        entries_sorted(assoc_view(old(entries)@)),
    ensures
        assoc_view(final(entries)@) == spec_insert(assoc_view(old(entries)@), key@, value),
        entries_sorted(assoc_view(final(entries)@)),
{
    let ghost s0 = assoc_view(entries@);
    let n = entries.len();
    let mut i: usize = 0;
    proof {
        assert(s0.take(0) =~= Seq::<(Seq<char>, V)>::empty());
        assert(s0.skip(0) =~= s0);
        assert(Seq::<(Seq<char>, V)>::empty() + spec_insert(s0, key@, value) =~= spec_insert(
            s0,
            key@,
            value,
        ));
    }
    while i < n
        invariant
            0 <= i <= n,
            n == entries@.len(),
            assoc_view(entries@) == s0,
            s0 == assoc_view(old(entries)@),
            entries_sorted(s0),
            s0.len() == n,
            spec_insert(s0, key@, value) == s0.take(i as int) + spec_insert(
                s0.skip(i as int),
                key@,
                value,
            ),
        decreases n - i,
    {
        proof {
            assert(s0.skip(i as int)[0] == s0[i as int]);
            assert(s0.skip(i as int).skip(1) =~= s0.skip(i + 1));
        }
        match str_compare(key.as_str(), entries[i].0.as_str()) {
            Cmp::Lt => {
                // The new key sorts before this entry: insert here.
                let ghost kv = key@;
                entries.insert(i, (key, value));
                proof {
                    assert(spec_insert(s0.skip(i as int), kv, value) =~= seq![(kv, value)]
                        + s0.skip(i as int));
                    assert(assoc_view(entries@) =~= s0.take(i as int) + (seq![(kv, value)]
                        + s0.skip(i as int)));
                    lemma_spec_insert_sorted(s0, kv, value);
                }
                return ;
            },
            Cmp::Eq => {
                // Same key: overwrite in place.
                let ghost kv = key@;
                entries.remove(i);
                entries.insert(i, (key, value));
                proof {
                    assert(spec_insert(s0.skip(i as int), kv, value) =~= seq![(kv, value)]
                        + s0.skip(i + 1));
                    assert(assoc_view(entries@) =~= s0.take(i as int) + (seq![(kv, value)]
                        + s0.skip(i + 1)));
                    lemma_spec_insert_sorted(s0, kv, value);
                }
                return ;
            },
            Cmp::Gt => {
                proof {
                    assert(s0.take(i + 1) =~= s0.take(i as int).push(s0[i as int]));
                    assert(s0.take(i as int) + (seq![s0[i as int]] + spec_insert(
                        s0.skip(i + 1),
                        key@,
                        value,
                    )) =~= s0.take(i + 1) + spec_insert(s0.skip(i + 1), key@, value));
                }
                i = i + 1;
            },
        }
    }
    proof {
        assert(s0.skip(n as int) =~= Seq::<(Seq<char>, V)>::empty());
    }
    let ghost kv = key@;
    entries.push((key, value));
    proof {
        assert(s0.take(n as int) =~= s0);
        assert(assoc_view(entries@) =~= s0.push((kv, value)));
        assert(s0 + spec_insert(Seq::<(Seq<char>, V)>::empty(), kv, value) =~= s0.push(
            (kv, value),
        ));
        lemma_spec_insert_sorted(s0, kv, value);
    }
}

} // verus!
