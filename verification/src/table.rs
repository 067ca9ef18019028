//! Association tables: the executable maps of the state, modelled as
//! sequences of key/value pairs. Keys are compared structurally through
//! [`TableKey`]; all contracts are stated over the view sequence with the
//! spec-level lookup [`tbl_get`] and update [`tbl_put`].

use vstd::prelude::*;

verus! {

/// An executable key: structural equality and copying that agree with the
/// mathematical view.
pub trait TableKey: View + Sized {
    /// Decides equality of the views.
    fn key_eq(&self, other: &Self) -> (r: bool)
        ensures
            r == (self@ == other@),
    ;

    /// A copy with the same view.
    fn dup(&self) -> (r: Self)
        ensures
            r@ == self@,
    ;
}

/// Spec-level lookup: the value of the first pair whose key is `k`.
pub open spec fn tbl_get<K, V>(s: Seq<(K, V)>, k: K) -> Option<V>
    decreases s.len(),
{
    if s.len() == 0 {
        None
    } else if s[0].0 == k {
        Some(s[0].1)
    } else {
        tbl_get(s.skip(1), k)
    }
}

/// Spec-level membership.
pub open spec fn tbl_contains<K, V>(s: Seq<(K, V)>, k: K) -> bool {
    tbl_get(s, k) is Some
}

/// Spec-level removal of the first pair whose key is `k`.
pub open spec fn tbl_remove<K, V>(s: Seq<(K, V)>, k: K) -> Seq<(K, V)>
    decreases s.len(),
{
    if s.len() == 0 {
        s
    } else if s[0].0 == k {
        s.skip(1)
    } else {
        seq![s[0]] + tbl_remove(s.skip(1), k)
    }
}

/// Spec-level upsert: drops the entry under `k`, if any, and appends the
/// new pair.
pub open spec fn tbl_put<K, V>(s: Seq<(K, V)>, k: K, v: V) -> Seq<(K, V)> {
    tbl_remove(s, k).push((k, v))
}

/// Each key occurs at most once.
pub open spec fn tbl_wf<K, V>(s: Seq<(K, V)>) -> bool {
    forall|i: int, j: int| 0 <= i < j < s.len() ==> s[i].0 != s[j].0
}

/// Lookup after a removal: keys other than the removed one are unchanged.
pub broadcast proof fn lemma_tbl_remove_get<K, V>(s: Seq<(K, V)>, k: K, k2: K)
    requires
        k2 != k,
    ensures
        #[trigger] tbl_get(tbl_remove(s, k), k2) == tbl_get(s, k2),
    decreases s.len(),
{
    if s.len() == 0 {
    } else if s[0].0 == k {
    } else {
        let t = seq![s[0]] + tbl_remove(s.skip(1), k);
        assert(t[0] == s[0]);
        assert(t.skip(1) == tbl_remove(s.skip(1), k));
        lemma_tbl_remove_get(s.skip(1), k, k2);
    }
}

/// Lookup after appending a pair: present keys keep their value; an absent
/// key finds the new pair when it matches.
pub proof fn lemma_tbl_get_push<K, V>(s: Seq<(K, V)>, p: (K, V), k2: K)
    ensures
        tbl_get(s.push(p), k2) == if tbl_contains(s, k2) {
            tbl_get(s, k2)
        } else if p.0 == k2 {
            Some(p.1)
        } else {
            None::<V>
        },
    decreases s.len(),
{
    reveal_with_fuel(tbl_get, 2);
    if s.len() == 0 {
        assert(s.push(p)[0] == p);
        assert(s.push(p).skip(1).len() == 0);
    } else {
        assert(s.push(p)[0] == s[0]);
        assert(s.push(p).skip(1) =~= s.skip(1).push(p));
        lemma_tbl_get_push(s.skip(1), p, k2);
    }
}

/// Under unique keys, removal makes the key absent.
pub proof fn lemma_tbl_remove_all<K, V>(s: Seq<(K, V)>, k: K)
    requires
        tbl_wf(s),
    ensures
        forall|j: int| 0 <= j < tbl_remove(s, k).len() ==> #[trigger] tbl_remove(s, k)[j].0 != k,
    decreases s.len(),
{
    if s.len() == 0 {
    } else if s[0].0 == k {
        assert forall|j: int| 0 <= j < s.skip(1).len() implies #[trigger] s.skip(1)[j].0
            != k by {
            assert(s.skip(1)[j] == s[j + 1]);
        }
    } else {
        assert(tbl_wf(s.skip(1))) by {
            assert(forall|i: int, j: int|
                0 <= i < j < s.skip(1).len() ==> s.skip(1)[i] == s[i + 1] && s.skip(1)[j] == s[j
                    + 1]);
        }
        lemma_tbl_remove_all(s.skip(1), k);
        let t = seq![s[0]] + tbl_remove(s.skip(1), k);
        assert forall|j: int| 0 <= j < t.len() implies #[trigger] t[j].0 != k by {
            if j > 0 {
                assert(t[j] == tbl_remove(s.skip(1), k)[j - 1]);
            }
        }
    }
}

/// Lookup after an upsert: the key maps to the new value, all other keys
/// are unchanged. Requires unique keys.
pub broadcast proof fn lemma_tbl_put_get<K, V>(s: Seq<(K, V)>, k: K, v: V, k2: K)
    requires
        tbl_wf(s),
    ensures
        #[trigger] tbl_get(tbl_put(s, k, v), k2) == if k2 == k {
            Some(v)
        } else {
            tbl_get(s, k2)
        },
{
    let r = tbl_remove(s, k);
    lemma_tbl_get_push(r, (k, v), k2);
    if k2 == k {
        lemma_tbl_remove_all(s, k);
        lemma_tbl_get_absent(r, k);
    } else {
        lemma_tbl_remove_get(s, k, k2);
    }
}

/// Removal keeps keys unique.
pub proof fn lemma_tbl_remove_wf<K, V>(s: Seq<(K, V)>, k: K)
    requires
        tbl_wf(s),
    ensures
        tbl_wf(tbl_remove(s, k)),
    decreases s.len(),
{
    if s.len() == 0 {
    } else if s[0].0 == k {
        assert forall|i: int, j: int| 0 <= i < j < s.skip(1).len() implies s.skip(1)[i].0 != s.skip(
            1,
        )[j].0 by {
            assert(s.skip(1)[i] == s[i + 1]);
            assert(s.skip(1)[j] == s[j + 1]);
        }
    } else {
        assert(tbl_wf(s.skip(1))) by {
            assert(forall|i: int, j: int|
                0 <= i < j < s.skip(1).len() ==> s.skip(1)[i] == s[i + 1] && s.skip(1)[j] == s[j
                    + 1]);
        }
        lemma_tbl_remove_wf(s.skip(1), k);
        lemma_tbl_remove_subrange(s.skip(1), k);
        let t = seq![s[0]] + tbl_remove(s.skip(1), k);
        assert forall|i: int, j: int| 0 <= i < j < t.len() implies t[i].0 != t[j].0 by {
            if i == 0 {
                assert(t[j] == tbl_remove(s.skip(1), k)[j - 1]);
            } else {
                assert(t[i] == tbl_remove(s.skip(1), k)[i - 1]);
                assert(t[j] == tbl_remove(s.skip(1), k)[j - 1]);
            }
        }
    }
}

/// Every entry of the removal result is an entry of the original table.
pub proof fn lemma_tbl_remove_subrange<K, V>(s: Seq<(K, V)>, k: K)
    ensures
        forall|j: int|
            0 <= j < tbl_remove(s, k).len() ==> exists|i: int|
                0 <= i < s.len() && s[i] == #[trigger] tbl_remove(s, k)[j],
    decreases s.len(),
{
    if s.len() == 0 {
    } else if s[0].0 == k {
        assert forall|j: int| 0 <= j < s.skip(1).len() implies exists|i: int|
            0 <= i < s.len() && s[i] == #[trigger] s.skip(1)[j] by {
            assert(s[j + 1] == s.skip(1)[j]);
        }
    } else {
        lemma_tbl_remove_subrange(s.skip(1), k);
        let t = seq![s[0]] + tbl_remove(s.skip(1), k);
        assert forall|j: int| 0 <= j < t.len() implies exists|i: int|
            0 <= i < s.len() && s[i] == #[trigger] t[j] by {
            if j == 0 {
                assert(s[0] == t[0]);
            } else {
                assert(t[j] == tbl_remove(s.skip(1), k)[j - 1]);
                let i0 = choose|i: int|
                    0 <= i < s.skip(1).len() && s.skip(1)[i] == tbl_remove(s.skip(1), k)[j - 1];
                assert(s[i0 + 1] == s.skip(1)[i0]);
            }
        }
    }
}

/// An upsert keeps keys unique.
pub proof fn lemma_tbl_put_wf<K, V>(s: Seq<(K, V)>, k: K, v: V)
    requires
        tbl_wf(s),
    ensures
        tbl_wf(tbl_put(s, k, v)),
{
    lemma_tbl_remove_wf(s, k);
    lemma_tbl_remove_all(s, k);
    let r = tbl_remove(s, k);
    let t = r.push((k, v));
    assert forall|i: int, j: int| 0 <= i < j < t.len() implies t[i].0 != t[j].0 by {
        if j < t.len() - 1 {
            assert(t[i] == r[i] && t[j] == r[j]);
        } else {
            assert(t[i] == r[i]);
        }
    }
}

/// An association table with at most one entry per key.
pub struct Table<K, V> {
    entries: Vec<(K, V)>,
}

impl<K: TableKey, V: View> View for Table<K, V> {
    type V = Seq<(K::V, V::V)>;

    closed spec fn view(&self) -> Seq<(K::V, V::V)> {
        self.entries@.map_values(|p: (K, V)| (p.0@, p.1@))
    }
}

impl<K: TableKey, V: View> Table<K, V> {
    /// The empty table.
    pub fn new() -> (r: Table<K, V>)
        ensures
            r@ == Seq::<(K::V, V::V)>::empty(),
    {
        let r = Table { entries: Vec::new() };
        proof {
            assert(r@ =~= Seq::<(K::V, V::V)>::empty());
        }
        r
    }

    /// Number of entries.
    pub fn len(&self) -> (r: usize)
        ensures
            r == self@.len(),
    {
        self.entries.len()
    }

    /// The entry at a position, in insertion order.
    pub fn entry_at(&self, i: usize) -> (r: (&K, &V))
        requires
            i < self@.len(),
        ensures
            r.0@ == self@[i as int].0,
            r.1@ == self@[i as int].1,
    {
        let p = &self.entries[i];
        (&p.0, &p.1)
    }

    /// Position of the entry with the given key, if present.
    fn index_of(&self, k: &K) -> (r: Option<usize>)
        ensures
            match r {
                Some(i) => {
                    &&& i < self@.len()
                    &&& self@[i as int].0 == k@
                    &&& forall|j: int| 0 <= j < i ==> self@[j].0 != k@
                },
                None => forall|j: int| 0 <= j < self@.len() ==> self@[j].0 != k@,
            },
    {
        let n = self.entries.len();
        let mut i: usize = 0;
        while i < n
            invariant
                n == self@.len(),
                i <= n,
                forall|j: int| 0 <= j < i ==> self@[j].0 != k@,
            decreases n - i,
        {
            if self.entries[i].0.key_eq(k) {
                return Some(i);
            }
            i = i + 1;
        }
        None
    }

    /// Lookup by key.
    pub fn get(&self, k: &K) -> (r: Option<&V>)
        ensures
            match r {
                Some(v) => tbl_get(self@, k@) == Some(v@),
                None => tbl_get(self@, k@) is None,
            },
    {
        match self.index_of(k) {
            Some(i) => {
                proof {
                    lemma_tbl_get_at(self@, k@, i as int);
                }
                Some(&self.entries[i].1)
            },
            None => {
                proof {
                    lemma_tbl_get_absent(self@, k@);
                }
                None
            },
        }
    }

    /// Membership test.
    pub fn contains(&self, k: &K) -> (r: bool)
        ensures
            r == tbl_contains(self@, k@),
    {
        match self.get(k) {
            Some(_) => true,
            None => false,
        }
    }

    /// Upsert: drops the entry under the key, if any, and appends the new
    /// pair.
    pub fn put(&mut self, k: K, v: V)
        ensures
            final(self)@ == tbl_put(old(self)@, k@, v@),
    {
        let _ = self.take(&k);
        self.entries.push((k, v));
        proof {
            assert(self@ =~= tbl_remove(old(self)@, k@).push((k@, v@)));
        }
    }

    /// Appends an entry. Used after [`Table::take`] on the same key, so
    /// that the pair of calls is exactly the upsert [`tbl_put`].
    pub(crate) fn append_entry(&mut self, k: K, v: V)
        ensures
            final(self)@ == old(self)@.push((k@, v@)),
    {
        self.entries.push((k, v));
        proof {
            assert(self@ =~= old(self)@.push((k@, v@)));
        }
    }

    /// Removes and returns the first entry.
    pub(crate) fn pop_front(&mut self) -> (r: (K, V))
        requires
            old(self)@.len() > 0,
        ensures
            r.0@ == old(self)@[0].0,
            r.1@ == old(self)@[0].1,
            final(self)@ == old(self)@.skip(1),
    {
        let p = self.entries.remove(0);
        proof {
            assert(self@ =~= old(self)@.skip(1));
        }
        p
    }

    /// Removes and returns the value under the key, if present.
    pub fn take(&mut self, k: &K) -> (r: Option<V>)
        ensures
            final(self)@ == tbl_remove(old(self)@, k@),
            match r {
                Some(v) => tbl_get(old(self)@, k@) == Some(v@),
                None => tbl_get(old(self)@, k@) is None,
            },
    {
        match self.index_of(k) {
            Some(i) => {
                proof {
                    lemma_tbl_get_at(old(self)@, k@, i as int);
                    lemma_tbl_remove_at(old(self)@, k@, i as int);
                }
                let p = self.entries.remove(i);
                proof {
                    assert(self@ =~= old(self)@.remove(i as int));
                }
                Some(p.1)
            },
            None => {
                proof {
                    lemma_tbl_get_absent(old(self)@, k@);
                    lemma_tbl_remove_absent(old(self)@, k@);
                }
                None
            },
        }
    }
}

/// Removing an absent key leaves the table unchanged.
pub proof fn lemma_tbl_remove_none<K, V>(s: Seq<(K, V)>, k: K)
    requires
        tbl_get(s, k) is None,
    ensures
        tbl_remove(s, k) == s,
    decreases s.len(),
{
    if s.len() == 0 {
    } else {
        lemma_tbl_remove_none(s.skip(1), k);
        assert(tbl_remove(s, k) =~= s);
    }
}

/// A found value is one of the table's entries.
pub proof fn lemma_tbl_get_is_entry<K, V>(s: Seq<(K, V)>, k: K)
    requires
        tbl_get(s, k) is Some,
    ensures
        exists|i: int| 0 <= i < s.len() && s[i] == (k, tbl_get(s, k)->Some_0),
    decreases s.len(),
{
    if s.len() == 0 {
    } else if s[0].0 == k {
        assert(s[0] == (k, tbl_get(s, k)->Some_0));
    } else {
        lemma_tbl_get_is_entry(s.skip(1), k);
        let i0 = choose|i: int|
            0 <= i < s.skip(1).len() && s.skip(1)[i] == (k, tbl_get(s.skip(1), k)->Some_0);
        assert(s[i0 + 1] == s.skip(1)[i0]);
    }
}

/// When the first occurrence of `k` is at position `i`, the lookup returns
/// the value stored there.
pub proof fn lemma_tbl_get_at<K, V>(s: Seq<(K, V)>, k: K, i: int)
    requires
        0 <= i < s.len(),
        s[i].0 == k,
        forall|j: int| 0 <= j < i ==> s[j].0 != k,
    ensures
        tbl_get(s, k) == Some(s[i].1),
    decreases i,
{
    if i == 0 {
    } else {
        lemma_tbl_get_at(s.skip(1), k, i - 1);
    }
}

/// When no entry has key `k`, the lookup returns nothing.
pub proof fn lemma_tbl_get_absent<K, V>(s: Seq<(K, V)>, k: K)
    requires
        forall|j: int| 0 <= j < s.len() ==> s[j].0 != k,
    ensures
        tbl_get(s, k) is None,
    decreases s.len(),
{
    if s.len() > 0 {
        lemma_tbl_get_absent(s.skip(1), k);
    }
}

/// When the first occurrence of `k` is at position `i`, the removal deletes
/// that position.
pub proof fn lemma_tbl_remove_at<K, V>(s: Seq<(K, V)>, k: K, i: int)
    requires
        0 <= i < s.len(),
        s[i].0 == k,
        forall|j: int| 0 <= j < i ==> s[j].0 != k,
    ensures
        tbl_remove(s, k) == s.remove(i),
    decreases i,
{
    if i == 0 {
        assert(tbl_remove(s, k) =~= s.remove(0));
    } else {
        lemma_tbl_remove_at(s.skip(1), k, i - 1);
        assert(tbl_remove(s, k) =~= s.remove(i));
    }
}

/// When no entry has key `k`, the removal leaves the table unchanged.
pub proof fn lemma_tbl_remove_absent<K, V>(s: Seq<(K, V)>, k: K)
    requires
        forall|j: int| 0 <= j < s.len() ==> s[j].0 != k,
    ensures
        tbl_remove(s, k) == s,
    decreases s.len(),
{
    if s.len() == 0 {
    } else {
        lemma_tbl_remove_absent(s.skip(1), k);
        assert(tbl_remove(s, k) =~= s);
    }
}

} // verus!
