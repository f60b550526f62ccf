//! A map from environment variable names to values that keeps its entries in
//! increasing key order, as an ordered map of strings does.
use vstd::prelude::*;

use crate::text::to_chars;

verus! {

/// The order of string keys: lexicographic on characters (by code point),
/// which is the order of their UTF-8 bytes.
pub open spec fn key_lt(a: Seq<char>, b: Seq<char>) -> bool
    decreases a.len(),
{
    if a.len() == 0 {
        b.len() > 0
    } else if b.len() == 0 {
        false
    } else if a[0] != b[0] {
        a[0] < b[0]
    } else {
        key_lt(a.drop_first(), b.drop_first())
    }
}

/// Keys strictly increase along the entries (so no key occurs twice).
pub open spec fn keys_sorted(es: Seq<(Seq<char>, Seq<char>)>) -> bool {
    forall|i: int, j: int| 0 <= i < j < es.len() ==> key_lt(#[trigger] es[i].0, #[trigger] es[j].0)
}

/// The map that the entries stand for; a later entry wins over an earlier one.
pub open spec fn entries_map(es: Seq<(Seq<char>, Seq<char>)>) -> Map<Seq<char>, Seq<char>>
    decreases es.len(),
{
    if es.len() == 0 {
        Map::empty()
    } else {
        entries_map(es.drop_last()).insert(es.last().0, es.last().1)
    }
}

/// The entries with `(k, v)` put in its place by key order: a new key is
/// inserted before the first greater key, an existing key gets the new value.
pub open spec fn sorted_insert(es: Seq<(Seq<char>, Seq<char>)>, k: Seq<char>, v: Seq<char>) -> Seq<
    (Seq<char>, Seq<char>),
>
    decreases es.len(),
{
    if es.len() == 0 {
        seq![(k, v)]
    } else if es[0].0 == k {
        seq![(k, v)] + es.drop_first()
    } else if key_lt(k, es[0].0) {
        seq![(k, v)] + es
    } else {
        seq![es[0]] + sorted_insert(es.drop_first(), k, v)
    }
}

/// The outcome of comparing two keys.
#[derive(Clone, Copy, Debug, PartialEq, Eq, Structural)]
pub enum KeyOrder {
    Less,
    Equal,
    Greater,
}

// ---------------------------------------------------------------------------
// The key order is a strict total order
// ---------------------------------------------------------------------------

pub proof fn lemma_key_lt_irreflexive(a: Seq<char>)
    ensures
        !key_lt(a, a),
    decreases a.len(),
{
    if a.len() > 0 {
        lemma_key_lt_irreflexive(a.drop_first());
    }
}

pub proof fn lemma_key_lt_transitive(a: Seq<char>, b: Seq<char>, c: Seq<char>)
    requires
        key_lt(a, b),
        key_lt(b, c),
    ensures
        key_lt(a, c),
    decreases a.len(),
{
    if a.len() > 0 && b.len() > 0 && c.len() > 0 && a[0] == b[0] && b[0] == c[0] {
        lemma_key_lt_transitive(a.drop_first(), b.drop_first(), c.drop_first());
    }
}

pub proof fn lemma_key_lt_total(a: Seq<char>, b: Seq<char>)
    requires
        a != b,
    ensures
        key_lt(a, b) || key_lt(b, a),
    decreases a.len(),
{
    if a.len() == 0 {
        if b.len() == 0 {
            assert(a =~= b);
        }
    } else if b.len() == 0 {
    } else if a[0] != b[0] {
        assert(a[0] < b[0] || b[0] < a[0]);
    } else {
        if a.drop_first() == b.drop_first() {
            assert(a =~= seq![a[0]] + a.drop_first());
            assert(b =~= seq![b[0]] + b.drop_first());
            assert(a =~= b);
        }
        lemma_key_lt_total(a.drop_first(), b.drop_first());
    }
}

pub proof fn lemma_key_lt_asymmetric(a: Seq<char>, b: Seq<char>)
    requires
        key_lt(a, b),
    ensures
        !key_lt(b, a),
{
    if key_lt(b, a) {
        lemma_key_lt_transitive(a, b, a);
        lemma_key_lt_irreflexive(a);
    }
}

/// A shared prefix does not change the order.
proof fn lemma_key_lt_common_prefix(a: Seq<char>, b: Seq<char>, i: int)
    requires
        0 <= i <= a.len(),
        i <= b.len(),
        forall|k: int| 0 <= k < i ==> a[k] == b[k],
    ensures
        key_lt(a, b) == key_lt(a.subrange(i, a.len() as int), b.subrange(i, b.len() as int)),
    decreases i,
{
    if i > 0 {
        lemma_key_lt_common_prefix(a.drop_first(), b.drop_first(), i - 1);
        assert(a.drop_first().subrange(i - 1, a.len() - 1) =~= a.subrange(i, a.len() as int));
        assert(b.drop_first().subrange(i - 1, b.len() - 1) =~= b.subrange(i, b.len() as int));
    } else {
        assert(a.subrange(0, a.len() as int) =~= a);
        assert(b.subrange(0, b.len() as int) =~= b);
    }
}

/// Compares two keys in the key order.
pub fn compare_keys(a: &str, b: &str) -> (r: KeyOrder)
    ensures
        r == KeyOrder::Less <==> key_lt(a@, b@),
        r == KeyOrder::Equal <==> a@ == b@,
        r == KeyOrder::Greater <==> key_lt(b@, a@),
{
    let ca = to_chars(a);
    let cb = to_chars(b);
    let mut i: usize = 0;
    while i < ca.len() && i < cb.len() && ca[i] == cb[i]
        invariant
            ca@ == a@,
            cb@ == b@,
            0 <= i <= ca.len(),
            i <= cb.len(),
            forall|k: int| 0 <= k < i ==> ca@[k] == cb@[k],
        decreases ca.len() - i,
    {
        i = i + 1;
    }
    proof {
        lemma_key_lt_common_prefix(a@, b@, i as int);
        lemma_key_lt_common_prefix(b@, a@, i as int);
        lemma_key_lt_irreflexive(a@);
        if key_lt(a@, b@) {
            lemma_key_lt_asymmetric(a@, b@);
        }
    }
    if i == ca.len() && i == cb.len() {
        assert(a@ =~= b@);
        KeyOrder::Equal
    } else if i == ca.len() {
        KeyOrder::Less
    } else if i == cb.len() {
        KeyOrder::Greater
    } else if ca[i] < cb[i] {
        KeyOrder::Less
    } else {
        KeyOrder::Greater
    }
}

// ---------------------------------------------------------------------------
// The map of sorted entries
// ---------------------------------------------------------------------------

/// The map of sorted entries holds exactly their keys, each with its value.
pub proof fn lemma_entries_map(es: Seq<(Seq<char>, Seq<char>)>)
    requires
        keys_sorted(es),
    ensures
        forall|i: int|
            0 <= i < es.len() ==> #[trigger] entries_map(es).contains_key(es[i].0) && entries_map(
                es,
            )[es[i].0] == es[i].1,
        forall|k: Seq<char>|
            #[trigger] entries_map(es).contains_key(k) ==> exists|i: int|
                0 <= i < es.len() && es[i].0 == k,
    decreases es.len(),
{
    if es.len() > 0 {
        let init = es.drop_last();
        assert(keys_sorted(init)) by {
            assert forall|i: int, j: int| 0 <= i < j < init.len() implies key_lt(
                #[trigger] init[i].0,
                #[trigger] init[j].0,
            ) by {
                assert(init[i] == es[i] && init[j] == es[j]);
            }
        }
        lemma_entries_map(init);
        assert forall|i: int| 0 <= i < es.len() implies #[trigger] entries_map(es).contains_key(
            es[i].0,
        ) && entries_map(es)[es[i].0] == es[i].1 by {
            if i < es.len() - 1 {
                assert(init[i] == es[i]);
                assert(entries_map(init).contains_key(init[i].0));
                assert(key_lt(es[i].0, es[es.len() - 1].0));
                lemma_key_lt_irreflexive(es[i].0);
                assert(es[i].0 != es.last().0);
            }
        }
        assert forall|k: Seq<char>| #[trigger] entries_map(es).contains_key(k) implies exists|i: int|
            0 <= i < es.len() && es[i].0 == k by {
            if k != es.last().0 {
                assert(entries_map(init).contains_key(k));
                let i = choose|i: int| 0 <= i < init.len() && init[i].0 == k;
                assert(es[i].0 == k);
            } else {
                assert(es[es.len() - 1].0 == k);
            }
        }
    }
}

/// A sequence with one more entry at `i`, whose key lies strictly between
/// its neighbours, stays sorted and stands for the map with that key added.
pub proof fn lemma_insert_new_key(es: Seq<(Seq<char>, Seq<char>)>, i: int, k: Seq<char>, v: Seq<char>)
    requires
        keys_sorted(es),
        0 <= i <= es.len(),
        forall|j: int| 0 <= j < i ==> key_lt(#[trigger] es[j].0, k),
        i < es.len() ==> key_lt(k, es[i].0),
    ensures
        keys_sorted(es.insert(i, (k, v))),
        entries_map(es.insert(i, (k, v))) =~= entries_map(es).insert(k, v),
{
    let n = es.insert(i, (k, v));
    assert(n.len() == es.len() + 1);
    assert forall|j: int| 0 <= j < n.len() implies #[trigger] n[j] == (if j < i {
        es[j]
    } else if j == i {
        (k, v)
    } else {
        es[j - 1]
    }) by {}
    assert forall|a: int, b: int| 0 <= a < b < n.len() implies key_lt(
        #[trigger] n[a].0,
        #[trigger] n[b].0,
    ) by {
        if b < i {
        } else if a < i && b == i {
        } else if a < i && b > i {
            assert(n[b] == es[b - 1]);
        } else if a == i {
            assert(n[b] == es[b - 1]);
            if b - 1 > i {
                assert(key_lt(es[i].0, es[b - 1].0));
                lemma_key_lt_transitive(k, es[i].0, es[b - 1].0);
            }
        } else {
            assert(n[a] == es[a - 1]);
            assert(n[b] == es[b - 1]);
        }
    }
    lemma_entries_map(es);
    lemma_entries_map(n);
    lemma_key_lt_irreflexive(k);
    assert forall|key: Seq<char>| #[trigger] entries_map(n).contains_key(key) implies entries_map(
        es,
    ).insert(k, v).contains_key(key) && entries_map(n)[key] == entries_map(es).insert(k, v)[key] by {
        let j = choose|j: int| 0 <= j < n.len() && n[j].0 == key;
        assert(entries_map(n).contains_key(n[j].0));
        if j < i {
            assert(entries_map(es).contains_key(es[j].0));
            assert(key_lt(key, k));
        } else if j > i {
            assert(entries_map(es).contains_key(es[j - 1].0));
            if i < es.len() && j - 1 > i {
                assert(key_lt(es[i].0, es[j - 1].0));
                lemma_key_lt_transitive(k, es[i].0, es[j - 1].0);
            }
            assert(key_lt(k, key));
        }
    }
    assert forall|key: Seq<char>| #[trigger] entries_map(es).insert(k, v).contains_key(
        key,
    ) implies entries_map(n).contains_key(key) by {
        if key == k {
            assert(entries_map(n).contains_key(n[i].0));
        } else {
            let j = choose|j: int| 0 <= j < es.len() && es[j].0 == key;
            if j < i {
                assert(entries_map(n).contains_key(n[j].0));
            } else {
                assert(n[j + 1] == es[j]);
                assert(entries_map(n).contains_key(n[j + 1].0));
            }
        }
    }
}

/// Replacing the value of an entry stands for the map with that key set anew.
pub proof fn lemma_update_same_key(es: Seq<(Seq<char>, Seq<char>)>, i: int, k: Seq<char>, v: Seq<char>)
    requires
        keys_sorted(es),
        0 <= i < es.len(),
        es[i].0 == k,
    ensures
        keys_sorted(es.update(i, (k, v))),
        entries_map(es.update(i, (k, v))) =~= entries_map(es).insert(k, v),
{
    let n = es.update(i, (k, v));
    assert forall|a: int, b: int| 0 <= a < b < n.len() implies key_lt(
        #[trigger] n[a].0,
        #[trigger] n[b].0,
    ) by {
        assert(key_lt(es[a].0, es[b].0));
    }
    lemma_entries_map(es);
    lemma_entries_map(n);
    lemma_key_lt_irreflexive(k);
    assert forall|key: Seq<char>| #[trigger] entries_map(n).contains_key(key) implies entries_map(
        es,
    ).insert(k, v).contains_key(key) && entries_map(n)[key] == entries_map(es).insert(k, v)[key] by {
        let j = choose|j: int| 0 <= j < n.len() && n[j].0 == key;
        assert(entries_map(n).contains_key(n[j].0));
        if j != i {
            assert(n[j] == es[j]);
            assert(entries_map(es).contains_key(es[j].0));
            if j < i {
                assert(key_lt(es[j].0, es[i].0));
            } else {
                assert(key_lt(es[i].0, es[j].0));
            }
            assert(key != k);
        }
    }
    assert forall|key: Seq<char>| #[trigger] entries_map(es).insert(k, v).contains_key(
        key,
    ) implies entries_map(n).contains_key(key) by {
        if key == k {
            assert(entries_map(n).contains_key(n[i].0));
        } else {
            let j = choose|j: int| 0 <= j < es.len() && es[j].0 == key;
            assert(entries_map(n).contains_key(n[j].0));
        }
    }
}

/// `sorted_insert` at the first index whose key is not below `k`.
pub proof fn lemma_sorted_insert_index(es: Seq<(Seq<char>, Seq<char>)>, k: Seq<char>, v: Seq<char>, i: int)
    requires
        0 <= i <= es.len(),
        forall|j: int| 0 <= j < i ==> key_lt(#[trigger] es[j].0, k),
        i < es.len() ==> es[i].0 == k || key_lt(k, es[i].0),
    ensures
        sorted_insert(es, k, v) == if i < es.len() && es[i].0 == k {
            es.update(i, (k, v))
        } else {
            es.insert(i, (k, v))
        },
    decreases i,
{
    if i == 0 {
        if es.len() > 0 && es[0].0 == k {
            assert(seq![(k, v)] + es.drop_first() =~= es.update(0, (k, v)));
        } else {
            assert(seq![(k, v)] + es =~= es.insert(0, (k, v)));
        }
    } else {
        let t = es.drop_first();
        assert(key_lt(es[0].0, k));
        lemma_key_lt_irreflexive(k);
        lemma_key_lt_asymmetric(es[0].0, k);
        assert forall|j: int| 0 <= j < i - 1 implies key_lt(#[trigger] t[j].0, k) by {
            assert(t[j] == es[j + 1]);
        }
        lemma_sorted_insert_index(t, k, v, i - 1);
        if i < es.len() && es[i].0 == k {
            assert(seq![es[0]] + t.update(i - 1, (k, v)) =~= es.update(i, (k, v)));
        } else {
            assert(seq![es[0]] + t.insert(i - 1, (k, v)) =~= es.insert(i, (k, v)));
        }
    }
}

/// `sorted_insert` keeps the entries sorted, holds `(k, v)`, and otherwise
/// holds only entries that were there.
pub proof fn lemma_sorted_insert(es: Seq<(Seq<char>, Seq<char>)>, k: Seq<char>, v: Seq<char>)
    requires
        keys_sorted(es),
    ensures
        keys_sorted(sorted_insert(es, k, v)),
        sorted_insert(es, k, v).contains((k, v)),
        forall|t: int|
            0 <= t < sorted_insert(es, k, v).len() ==> #[trigger] sorted_insert(es, k, v)[t] == (k, v)
                || es.contains(sorted_insert(es, k, v)[t]),
        entries_map(sorted_insert(es, k, v)) == entries_map(es).insert(k, v),
    decreases es.len(),
{
    let r = sorted_insert(es, k, v);
    if es.len() == 0 {
        assert(r[0] == (k, v));
        assert(entries_map(r) =~= entries_map(es).insert(k, v)) by {
            assert(r.drop_last() =~= es);
        }
    } else if es[0].0 == k {
        lemma_update_same_key(es, 0, k, v);
        assert(r =~= es.update(0, (k, v)));
        assert(r[0] == (k, v));
        assert forall|t: int| 0 <= t < r.len() implies #[trigger] r[t] == (k, v) || es.contains(r[t]) by {
            if t > 0 {
                assert(r[t] == es[t]);
            }
        }
    } else if key_lt(k, es[0].0) {
        lemma_insert_new_key(es, 0, k, v);
        assert(r =~= es.insert(0, (k, v)));
        assert(r[0] == (k, v));
        assert forall|t: int| 0 <= t < r.len() implies #[trigger] r[t] == (k, v) || es.contains(r[t]) by {
            if t > 0 {
                assert(r[t] == es[t - 1]);
            }
        }
    } else {
        let tail = es.drop_first();
        assert(keys_sorted(tail)) by {
            assert forall|a: int, b: int| 0 <= a < b < tail.len() implies key_lt(
                #[trigger] tail[a].0,
                #[trigger] tail[b].0,
            ) by {
                assert(tail[a] == es[a + 1] && tail[b] == es[b + 1]);
            }
        }
        lemma_sorted_insert(tail, k, v);
        lemma_key_lt_total(es[0].0, k);
        let rt = sorted_insert(tail, k, v);
        assert(r == seq![es[0]] + rt);
        assert(keys_sorted(r)) by {
            assert forall|a: int, b: int| 0 <= a < b < r.len() implies key_lt(
                #[trigger] r[a].0,
                #[trigger] r[b].0,
            ) by {
                if a == 0 {
                    assert(r[b] == rt[b - 1]);
                    if rt[b - 1] != (k, v) {
                        let j = choose|j: int| 0 <= j < tail.len() && tail[j] == rt[b - 1];
                        assert(tail[j] == es[j + 1]);
                    }
                } else {
                    assert(r[a] == rt[a - 1] && r[b] == rt[b - 1]);
                }
            }
        }
        let ti = choose|ti: int| 0 <= ti < rt.len() && rt[ti] == (k, v);
        assert(r[ti + 1] == (k, v));
        assert forall|t: int| 0 <= t < r.len() implies #[trigger] r[t] == (k, v) || es.contains(r[t]) by {
            if t == 0 {
                assert(es[0] == r[0]);
            } else {
                assert(r[t] == rt[t - 1]);
                if rt[t - 1] != (k, v) {
                    let j = choose|j: int| 0 <= j < tail.len() && tail[j] == rt[t - 1];
                    assert(es[j + 1] == r[t]);
                }
            }
        }
        lemma_entries_map(es);
        lemma_entries_map(r);
        lemma_entries_map(rt);
        lemma_entries_map(tail);
        lemma_key_lt_irreflexive(k);
        assert forall|key: Seq<char>| #[trigger] entries_map(r).contains_key(key) implies entries_map(
            es,
        ).insert(k, v).contains_key(key) && entries_map(r)[key] == entries_map(es).insert(k, v)[key] by {
            let j = choose|j: int| 0 <= j < r.len() && r[j].0 == key;
            assert(entries_map(r).contains_key(r[j].0));
            if r[j] == (k, v) {
            } else {
                let m = choose|m: int| 0 <= m < es.len() && es[m] == r[j];
                assert(entries_map(es).contains_key(es[m].0));
                if key == k {
                    lemma_key_lt_irreflexive(k);
                    if j == 0 {
                        assert(false);
                    } else {
                        assert(key_lt(r[j].0, r[ti + 1].0) || key_lt(r[ti + 1].0, r[j].0) || j == ti + 1);
                    }
                }
            }
        }
        assert forall|key: Seq<char>| #[trigger] entries_map(es).insert(k, v).contains_key(
            key,
        ) implies entries_map(r).contains_key(key) by {
            if key == k {
                assert(entries_map(r).contains_key(r[ti + 1].0));
            } else {
                let j = choose|j: int| 0 <= j < es.len() && es[j].0 == key;
                if j == 0 {
                    assert(entries_map(r).contains_key(r[0].0));
                } else {
                    assert(tail[j - 1] == es[j]);
                    assert(entries_map(tail).contains_key(tail[j - 1].0));
                    assert(entries_map(tail).insert(k, v).contains_key(key));
                    let m = choose|m: int| 0 <= m < rt.len() && rt[m].0 == key;
                    assert(r[m + 1] == rt[m]);
                    assert(entries_map(r).contains_key(r[m + 1].0));
                }
            }
        }
        assert(entries_map(r) =~= entries_map(es).insert(k, v));
    }
}

/// The entries of a vector of pairs of strings, each as (name, value).
pub open spec fn entries_of(v: Seq<(String, String)>) -> Seq<(Seq<char>, Seq<char>)> {
    v.map_values(|e: (String, String)| pair_view(e))
}

/// A value of each entry, viewed as a pair of character sequences.
pub open spec fn pair_view(e: (String, String)) -> (Seq<char>, Seq<char>) {
    (e.0@, e.1@)
}

/// Environment variables: names mapped to values, kept in increasing name order.
pub struct EnvMap {
    entries: Vec<(String, String)>,
}

impl EnvMap {
    /// The entries in order, each as (name, value).
    pub closed spec fn entries(&self) -> Seq<(Seq<char>, Seq<char>)> {
        entries_of(self.entries@)
    }

    /// The entries are in strictly increasing name order.
    #[verifier::type_invariant]
    pub open spec fn sorted(&self) -> bool {
        keys_sorted(self.entries())
    }

    /// An empty map.
    pub fn new() -> (m: Self)
        ensures
            m.entries() == Seq::<(Seq<char>, Seq<char>)>::empty(),
            m@ == Map::<Seq<char>, Seq<char>>::empty(),
    {
        let m = EnvMap { entries: Vec::new() };
        assert(m.entries() =~= Seq::<(Seq<char>, Seq<char>)>::empty());
        m
    }

    /// The number of entries.
    pub fn len(&self) -> (n: usize)
        ensures
            n == self.entries().len(),
    {
        self.entries.len()
    }

    /// Whether the map has no entries.
    pub fn is_empty(&self) -> (b: bool)
        ensures
            b == (self.entries().len() == 0),
    {
        self.entries.len() == 0
    }

    /// The name of the `i`-th entry in order.
    pub fn key_at(&self, i: usize) -> (k: &String)
        requires
            i < self.entries().len(),
        ensures
            k@ == self.entries()[i as int].0,
    {
        &self.entries[i].0
    }

    /// The value of the `i`-th entry in order.
    pub fn value_at(&self, i: usize) -> (v: &String)
        requires
            i < self.entries().len(),
        ensures
            v@ == self.entries()[i as int].1,
    {
        &self.entries[i].1
    }

    /// The entries are sorted (the type's invariant, made available to callers).
    pub(crate) fn check_sorted(&self)
        ensures
            keys_sorted(self.entries()),
    {
        proof {
            use_type_invariant(self);
        }
    }

    /// The value stored under `key`, if any.
    pub fn get(&self, key: &str) -> (r: Option<&String>)
        ensures
            r matches Some(v) ==> self@.contains_key(key@) && v@ == self@[key@],
            r is None ==> !self@.contains_key(key@),
    {
        proof {
            use_type_invariant(self);
            lemma_entries_map(self.entries());
        }
        let mut i: usize = 0;
        while i < self.entries.len()
            invariant
                0 <= i <= self.entries@.len(),
                keys_sorted(self.entries()),
                forall|j: int| 0 <= j < i ==> self.entries()[j].0 != key@,
            decreases self.entries@.len() - i,
        {
            assert(self.entries()[i as int] == pair_view(self.entries@[i as int]));
            if compare_keys(self.entries[i].0.as_str(), key) == KeyOrder::Equal {
                proof {
                    lemma_entries_map(self.entries());
                    assert(entries_map(self.entries()).contains_key(self.entries()[i as int].0));
                }
                return Some(&self.entries[i].1);
            }
            i = i + 1;
        }
        None
    }

    /// Sets `key` to `value`, replacing what was stored under `key`.
    pub fn insert(&mut self, key: String, value: String)
        ensures
            final(self).entries() == sorted_insert(old(self).entries(), key@, value@),
            final(self)@ == old(self)@.insert(key@, value@),
    {
        proof {
            use_type_invariant(&*self);
        }
        let ghost old_es = self.entries();
        let mut i: usize = 0;
        while i < self.entries.len() && compare_keys(self.entries[i].0.as_str(), key.as_str())
            == KeyOrder::Less
            invariant
                0 <= i <= self.entries@.len(),
                self.entries() == old_es,
                keys_sorted(old_es),
                forall|j: int| 0 <= j < i ==> key_lt(#[trigger] old_es[j].0, key@),
            decreases self.entries@.len() - i,
        {
            assert(old_es[i as int] == pair_view(self.entries@[i as int]));
            i = i + 1;
        }
        let equal = i < self.entries.len() && compare_keys(
            self.entries[i].0.as_str(),
            key.as_str(),
        ) == KeyOrder::Equal;
        let ghost kv = key@;
        let ghost vv = value@;
        let ghost new_es = if equal {
            old_es.update(i as int, (kv, vv))
        } else {
            old_es.insert(i as int, (kv, vv))
        };
        proof {
            if i < old_es.len() {
                assert(old_es[i as int] == pair_view(self.entries@[i as int]));
                if !equal {
                    lemma_key_lt_total(old_es[i as int].0, kv);
                }
            }
            lemma_sorted_insert_index(old_es, kv, vv, i as int);
            if equal {
                lemma_update_same_key(old_es, i as int, kv, vv);
            } else {
                if i < old_es.len() {
                    lemma_key_lt_total(old_es[i as int].0, kv);
                }
                lemma_insert_new_key(old_es, i as int, kv, vv);
            }
        }
        let mut es: Vec<(String, String)> = Vec::new();
        std::mem::swap(&mut es, &mut self.entries);
        if equal {
            es.set(i, (key, value));
        } else {
            es.insert(i, (key, value));
        }
        proof {
            assert(entries_of(es@) =~= new_es);
        }
        self.entries = es;
    }

    /// Appends an entry whose name is greater than every name in the map.
    pub(crate) fn push_greatest(&mut self, key: String, value: String)
        requires
            forall|j: int| 0 <= j < old(self).entries().len() ==> key_lt(#[trigger] old(self).entries()[j].0, key@),
        ensures
            final(self).entries() == old(self).entries().push((key@, value@)),
            final(self)@ == old(self)@.insert(key@, value@),
    {
        proof {
            use_type_invariant(&*self);
        }
        let ghost old_es = self.entries();
        let mut es: Vec<(String, String)> = Vec::new();
        std::mem::swap(&mut es, &mut self.entries);
        es.push((key, value));
        proof {
            assert(entries_of(es@) =~= old_es.push((key@, value@)));
            assert(old_es.push((key@, value@)).drop_last() =~= old_es);
            assert forall|a: int, b: int| 0 <= a < b < old_es.len() + 1 implies key_lt(
                #[trigger] old_es.push((key@, value@))[a].0,
                #[trigger] old_es.push((key@, value@))[b].0,
            ) by {
                if b < old_es.len() {
                    assert(old_es.push((key@, value@))[a] == old_es[a]);
                    assert(old_es.push((key@, value@))[b] == old_es[b]);
                }
            }
        }
        self.entries = es;
    }

}

impl Clone for EnvMap {
    /// A copy of the map, with the same entries.
    fn clone(&self) -> (r: Self)
        ensures
            r.entries() == self.entries(),
            r@ == self@,
    {
        proof {
            use_type_invariant(self);
        }
        let mut out: Vec<(String, String)> = Vec::new();
        let mut i: usize = 0;
        while i < self.entries.len()
            invariant
                0 <= i <= self.entries@.len(),
                entries_of(out@) =~= self.entries().take(i as int),
            decreases self.entries@.len() - i,
        {
            let k = self.entries[i].0.clone();
            let v = self.entries[i].1.clone();
            assert(self.entries()[i as int] == pair_view(self.entries@[i as int]));
            assert(pair_view((k, v)) == self.entries()[i as int]);
            let ghost before = out@;
            out.push((k, v));
            i = i + 1;
            assert(entries_of(out@) =~= entries_of(before).push(pair_view((k, v))));
            assert(self.entries().take(i as int) =~= self.entries().take(i - 1).push(
                self.entries()[i - 1],
            ));
        }
        assert(self.entries().take(self.entries@.len() as int) =~= self.entries());
        EnvMap { entries: out }
    }
}

impl View for EnvMap {
    type V = Map<Seq<char>, Seq<char>>;

    open spec fn view(&self) -> Map<Seq<char>, Seq<char>> {
        entries_map(self.entries())
    }
}

} // verus!
