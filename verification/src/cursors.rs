//! An association table from receiver index to cursor position, stored as a
//! vector of pairs with pairwise-distinct keys and viewed as a `Map`.

use vstd::prelude::*;

verus! {

/// The index of the last entry of `s` whose key is `k`, or `-1`.
pub open spec fn find_index<V>(s: Seq<(usize, V)>, k: usize) -> int
    decreases s.len(),
{
    if s.len() == 0 {
        -1
    } else if s.last().0 == k {
        s.len() - 1
    } else {
        find_index(s.drop_last(), k)
    }
}

/// No two entries share a key.
pub open spec fn unique_keys<V>(s: Seq<(usize, V)>) -> bool {
    forall|i: int, j: int|
        #![trigger s[i], s[j]]
        0 <= i < j < s.len() ==> s[i].0 != s[j].0
}

/// The map an association sequence denotes (the last entry of a key wins).
pub open spec fn assoc_map<V>(s: Seq<(usize, V)>) -> Map<usize, V> {
    Map::new(|k: usize| find_index(s, k) >= 0, |k: usize| s[find_index(s, k)].1)
}

pub proof fn lemma_find_index_bounds<V>(s: Seq<(usize, V)>, k: usize)
    ensures
        -1 <= find_index(s, k) < s.len(),
        find_index(s, k) >= 0 ==> s[find_index(s, k)].0 == k,
        find_index(s, k) == -1 ==> forall|i: int| 0 <= i < s.len() ==> (#[trigger] s[i]).0 != k,
    decreases s.len(),
{
    if s.len() > 0 && s.last().0 != k {
        lemma_find_index_bounds(s.drop_last(), k);
        assert(forall|i: int|
            0 <= i < s.len() - 1 ==> #[trigger] s[i] == s.drop_last()[i]);
    }
}

pub proof fn lemma_find_index_unique<V>(s: Seq<(usize, V)>, k: usize, i: int)
    requires
        unique_keys(s),
        0 <= i < s.len(),
        s[i].0 == k,
    ensures
        find_index(s, k) == i,
    decreases s.len(),
{
    if i == s.len() - 1 {
        assert(s.last() == s[s.len() - 1]);
    } else {
        assert(s.last() == s[s.len() - 1]);
        assert(s[i].0 != s[s.len() - 1].0);
        assert(s.drop_last()[i] == s[i]);
        assert(unique_keys(s.drop_last())) by {
            assert(forall|a: int|
                0 <= a < s.len() - 1 ==> #[trigger] s.drop_last()[a] == s[a]);
        }
        lemma_find_index_unique(s.drop_last(), k, i);
    }
}

pub proof fn lemma_find_index_same_keys<V1, V2>(s1: Seq<(usize, V1)>, s2: Seq<(usize, V2)>, k: usize)
    requires
        s1.len() == s2.len(),
        forall|i: int| 0 <= i < s1.len() ==> (#[trigger] s1[i]).0 == (#[trigger] s2[i]).0,
    ensures
        find_index(s1, k) == find_index(s2, k),
    decreases s1.len(),
{
    if s1.len() > 0 {
        assert(s1.last() == s1[s1.len() - 1]);
        assert(s2.last() == s2[s2.len() - 1]);
        if s1.last().0 != k {
            assert(forall|i: int|
                0 <= i < s1.len() - 1 ==> (#[trigger] s1.drop_last()[i]) == s1[i]);
            assert(forall|i: int|
                0 <= i < s2.len() - 1 ==> (#[trigger] s2.drop_last()[i]) == s2[i]);
            lemma_find_index_same_keys(s1.drop_last(), s2.drop_last(), k);
        }
    }
}

/// A cursor table: receiver index to read position, keys pairwise distinct.
pub struct CursorTable {
    entries: Vec<(usize, usize)>,
}

impl CursorTable {
    /// The table as a map from receiver index to cursor position.
    pub closed spec fn view(&self) -> Map<usize, usize> {
        assoc_map(self.entries@)
    }

    pub closed spec fn wf(&self) -> bool {
        unique_keys(self.entries@)
    }

    /// Every cursor position lies within `bound`.
    pub open spec fn values_le(&self, bound: nat) -> bool {
        forall|k: usize| self.view().dom().contains(k) ==> #[trigger] self.view()[k] <= bound
    }

    proof fn lemma_entry_value(&self, i: int)
        requires
            self.wf(),
            0 <= i < self.entries@.len(),
        ensures
            self.view().dom().contains(self.entries@[i].0),
            self.view()[self.entries@[i].0] == self.entries@[i].1,
    {
        lemma_find_index_unique(self.entries@, self.entries@[i].0, i);
    }

    pub fn new() -> (r: Self)
        ensures
            r@ == Map::<usize, usize>::empty(),
            r.wf(),
    {
        let r = CursorTable { entries: Vec::new() };
        proof {
            assert(r@ =~= Map::<usize, usize>::empty());
        }
        r
    }

    /// The position of receiver `k`, or `None` when it has no cursor.
    pub fn get(&self, k: usize) -> (r: Option<usize>)
        requires
            self.wf(),
        ensures
            match r {
                Some(v) => self@.dom().contains(k) && self@[k] == v,
                None => !self@.dom().contains(k),
            },
    {
        let n = self.entries.len();
        let mut i: usize = 0;
        while i < n
            invariant
                self.wf(),
                n == self.entries@.len(),
                i <= n,
                forall|j: int| 0 <= j < i ==> (#[trigger] self.entries@[j]).0 != k,
            decreases n - i,
        {
            if self.entries[i].0 == k {
                proof {
                    self.lemma_entry_value(i as int);
                }
                return Some(self.entries[i].1);
            }
            i = i + 1;
        }
        proof {
            lemma_find_index_bounds(self.entries@, k);
            if find_index(self.entries@, k) >= 0 {
                assert(self.entries@[find_index(self.entries@, k)].0 == k);
            }
        }
        None
    }

    /// The position of receiver `k`, materializing a cursor at 0 when absent.
    pub fn get_or_insert_zero(&mut self, k: usize) -> (pos: usize)
        requires
            old(self).wf(),
        ensures
            final(self).wf(),
            old(self)@.dom().contains(k) ==> pos == old(self)@[k] && final(self)@ == old(self)@,
            !old(self)@.dom().contains(k) ==> pos == 0 && final(self)@ == old(self)@.insert(
                k,
                0,
            ),
            final(self)@.dom().contains(k),
            final(self)@[k] == pos,
    {
        let existing = self.get(k);
        match existing {
            Some(v) => v,
            None => {
                self.push_fresh(k, 0);
                0
            },
        }
    }

    /// Append an entry whose key is known to be absent.
    fn push_fresh(&mut self, k: usize, v: usize)
        requires
            old(self).wf(),
            !old(self)@.dom().contains(k),
        ensures
            final(self).wf(),
            final(self)@ == old(self)@.insert(k, v),
    {
        proof {
            lemma_find_index_bounds(self.entries@, k);
            if find_index(self.entries@, k) >= 0 {
                assert(self.entries@[find_index(self.entries@, k)].0 == k);
                assert(self@.dom().contains(k));
            }
        }
        proof {
            lemma_assoc_push_fresh(self.entries@, k, v);
        }
        self.entries.push((k, v));
    }

    /// Set the position of receiver `k`, which must already have a cursor.
    pub fn set_existing(&mut self, k: usize, v: usize)
        requires
            old(self).wf(),
            old(self)@.dom().contains(k),
        ensures
            final(self).wf(),
            final(self)@ == old(self)@.insert(k, v),
    {
        let n = self.entries.len();
        let mut i: usize = 0;
        while i < n
            invariant
                self.wf(),
                self.entries@ == old(self).entries@,
                old(self)@.dom().contains(k),
                n == self.entries@.len(),
                i <= n,
                forall|j: int| 0 <= j < i ==> (#[trigger] self.entries@[j]).0 != k,
            decreases n - i,
        {
            if self.entries[i].0 == k {
                proof {
                    lemma_assoc_set_at(self.entries@, i as int, v);
                }
                self.entries.set(i, (k, v));
                return ;
            }
            i = i + 1;
        }
        proof {
            lemma_find_index_bounds(self.entries@, k);
            assert(self.entries@[find_index(self.entries@, k)].0 == k);
        }
    }

    /// Insert or overwrite the cursor of receiver `k`.
    pub fn insert(&mut self, k: usize, v: usize)
        requires
            old(self).wf(),
        ensures
            final(self).wf(),
            final(self)@ == old(self)@.insert(k, v),
    {
        let existing = self.get(k);
        match existing {
            Some(_) => self.set_existing(k, v),
            None => self.push_fresh(k, v),
        }
    }

    /// Remove the cursor of receiver `k`, if any.
    pub fn remove(&mut self, k: usize)
        requires
            old(self).wf(),
        ensures
            final(self).wf(),
            final(self)@ == old(self)@.remove(k),
    {
        let n = self.entries.len();
        let mut i: usize = 0;
        while i < n
            invariant
                self.wf(),
                self.entries@ == old(self).entries@,
                n == self.entries@.len(),
                i <= n,
                forall|j: int| 0 <= j < i ==> (#[trigger] self.entries@[j]).0 != k,
            decreases n - i,
        {
            if self.entries[i].0 == k {
                proof {
                    lemma_assoc_remove_at(self.entries@, i as int);
                }
                self.entries.remove(i);
                return ;
            }
            i = i + 1;
        }
        proof {
            lemma_find_index_bounds(self.entries@, k);
            if find_index(self.entries@, k) >= 0 {
                assert(self.entries@[find_index(self.entries@, k)].0 == k);
            }
            assert(self@ =~= old(self)@.remove(k));
        }
    }

    /// The least cursor position, or `None` when the table is empty.
    pub fn min_value(&self) -> (r: Option<usize>)
        requires
            self.wf(),
        ensures
            match r {
                None => self@.dom().is_empty(),
                Some(m) => (exists|k: usize| self@.dom().contains(k) && self@[k] == m)
                    && (forall|k: usize|
                    self@.dom().contains(k) ==> m <= #[trigger] self@[k]),
            },
    {
        let n = self.entries.len();
        if n == 0 {
            proof {
                assert forall|k: usize| !self@.dom().contains(k) by {
                    lemma_find_index_bounds(self.entries@, k);
                }
                assert(self@.dom() =~= Set::<usize>::empty());
            }
            return None;
        }
        let mut best: usize = self.entries[0].1;
        let ghost mut best_idx: int = 0;
        let mut i: usize = 1;
        while i < n
            invariant
                self.wf(),
                n == self.entries@.len(),
                1 <= i <= n,
                0 <= best_idx < i,
                self.entries@[best_idx].1 == best,
                forall|j: int| 0 <= j < i ==> best <= (#[trigger] self.entries@[j]).1,
            decreases n - i,
        {
            if self.entries[i].1 < best {
                best = self.entries[i].1;
                proof {
                    best_idx = i as int;
                }
            }
            i = i + 1;
        }
        proof {
            self.lemma_entry_value(best_idx);
            assert forall|k: usize| self@.dom().contains(k) implies best <= self@[k] by {
                lemma_find_index_bounds(self.entries@, k);
                let fi = find_index(self.entries@, k);
                assert(self.entries@[fi].1 == self@[k]);
            }
        }
        Some(best)
    }

    /// Rewrite every cursor position through the same shift: positions at
    /// least `d` decrease by `d`; when `clamp` is set, smaller positions
    /// become 0 (otherwise all positions must be at least `d`).
    pub fn shift_down(&mut self, d: usize, clamp: bool)
        requires
            old(self).wf(),
            !clamp ==> forall|k: usize|
                old(self)@.dom().contains(k) ==> d <= #[trigger] old(self)@[k],
        ensures
            final(self).wf(),
            final(self)@.dom() == old(self)@.dom(),
            forall|k: usize|
                old(self)@.dom().contains(k) ==> #[trigger] final(self)@[k] == (if old(self)@[k]
                    >= d {
                    (old(self)@[k] - d) as usize
                } else {
                    0
                }),
    {
        let n = self.entries.len();
        let mut i: usize = 0;
        while i < n
            invariant
                unique_keys(self.entries@),
                unique_keys(old(self).entries@),
                n == self.entries@.len(),
                n == old(self).entries@.len(),
                i <= n,
                forall|j: int|
                    0 <= j < n ==> (#[trigger] self.entries@[j]).0 == (
                    #[trigger] old(self).entries@[j]).0,
                forall|j: int|
                    i <= j < n ==> (#[trigger] self.entries@[j]).1 == (
                    #[trigger] old(self).entries@[j]).1,
                forall|j: int|
                    0 <= j < i ==> (#[trigger] self.entries@[j]).1 == (if old(self).entries@[j].1
                        >= d {
                        (old(self).entries@[j].1 - d) as usize
                    } else {
                        0
                    }),
                !clamp ==> forall|k: usize|
                    old(self)@.dom().contains(k) ==> d <= #[trigger] old(self)@[k],
            decreases n - i,
        {
            let (key, v) = self.entries[i];
            let nv = if v >= d {
                v - d
            } else {
                proof {
                    if !clamp {
                        old(self).lemma_entry_value(i as int);
                    }
                }
                assert(clamp);
                0
            };
            self.entries.set(i, (key, nv));
            i = i + 1;
        }
        proof {
            let s0 = old(self).entries@;
            let s1 = self.entries@;
            assert(unique_keys(s1));
            assert forall|q: usize| #[trigger] old(self)@.dom().contains(q) implies final(self)@.dom().contains(q)
                && final(self)@[q] == (if old(self)@[q] >= d {
                (old(self)@[q] - d) as usize
            } else {
                0
            }) by {
                lemma_find_index_same_keys(s0, s1, q);
                lemma_find_index_bounds(s0, q);
            }
            assert forall|q: usize| #[trigger] final(self)@.dom().contains(q) implies old(self)@.dom().contains(q) by {
                lemma_find_index_same_keys(s0, s1, q);
            }
            assert(final(self)@.dom() =~= old(self)@.dom());
        }
    }

    /// Reset every cursor position to 0.
    pub fn zero_all(&mut self)
        requires
            old(self).wf(),
        ensures
            final(self).wf(),
            final(self)@.dom() == old(self)@.dom(),
            forall|k: usize|
                old(self)@.dom().contains(k) ==> #[trigger] final(self)@[k] == 0,
    {
        let n = self.entries.len();
        let mut i: usize = 0;
        while i < n
            invariant
                unique_keys(self.entries@),
                n == self.entries@.len(),
                n == old(self).entries@.len(),
                i <= n,
                forall|j: int|
                    0 <= j < n ==> (#[trigger] self.entries@[j]).0 == (
                    #[trigger] old(self).entries@[j]).0,
                forall|j: int| 0 <= j < i ==> (#[trigger] self.entries@[j]).1 == 0,
            decreases n - i,
        {
            let (key, _) = self.entries[i];
            self.entries.set(i, (key, 0));
            i = i + 1;
        }
        proof {
            let s0 = old(self).entries@;
            let s1 = self.entries@;
            assert forall|q: usize| #[trigger] old(self)@.dom().contains(q) implies final(self)@.dom().contains(q)
                && final(self)@[q] == 0 by {
                lemma_find_index_same_keys(s0, s1, q);
                lemma_find_index_bounds(s1, q);
            }
            assert forall|q: usize| #[trigger] final(self)@.dom().contains(q) implies old(self)@.dom().contains(q) by {
                lemma_find_index_same_keys(s0, s1, q);
            }
            assert(final(self)@.dom() =~= old(self)@.dom());
        }
    }
}


pub proof fn lemma_assoc_entry<V>(s: Seq<(usize, V)>, i: int)
    requires
        unique_keys(s),
        0 <= i < s.len(),
    ensures
        assoc_map(s).dom().contains(s[i].0),
        assoc_map(s)[s[i].0] == s[i].1,
{
    lemma_find_index_unique(s, s[i].0, i);
}

pub proof fn lemma_assoc_push_fresh<V>(s: Seq<(usize, V)>, k: usize, v: V)
    requires
        unique_keys(s),
        forall|i: int| 0 <= i < s.len() ==> (#[trigger] s[i]).0 != k,
    ensures
        unique_keys(s.push((k, v))),
        assoc_map(s.push((k, v))) == assoc_map(s).insert(k, v),
{
    let s1 = s.push((k, v));
    assert(s1.drop_last() =~= s);
    assert(forall|i: int| 0 <= i < s1.len() - 1 ==> #[trigger] s1[i] == s[i]);
    assert(unique_keys(s1));
    assert forall|q: usize| true implies (find_index(s1, q) >= 0 <==> (find_index(s, q) >= 0 || q
        == k)) && (find_index(s1, q) >= 0 ==> s1[find_index(s1, q)].1 == (if q == k {
        v
    } else {
        s[find_index(s, q)].1
    })) by {
        if q == k {
            lemma_find_index_unique(s1, q, s1.len() - 1);
        } else {
            assert(s1.last().0 != q);
            lemma_find_index_bounds(s, q);
            if find_index(s, q) >= 0 {
                assert(s1[find_index(s, q)] == s[find_index(s, q)]);
                lemma_find_index_unique(s1, q, find_index(s, q));
            }
        }
    }
    assert(assoc_map(s1) =~= assoc_map(s).insert(k, v));
}

pub proof fn lemma_assoc_set_at<V>(s: Seq<(usize, V)>, i: int, v: V)
    requires
        unique_keys(s),
        0 <= i < s.len(),
    ensures
        unique_keys(s.update(i, (s[i].0, v))),
        assoc_map(s.update(i, (s[i].0, v))) == assoc_map(s).insert(s[i].0, v),
{
    let k = s[i].0;
    let s1 = s.update(i, (k, v));
    let m1 = assoc_map(s).insert(k, v);
    assert(forall|j: int| 0 <= j < s.len() ==> (#[trigger] s1[j]).0 == (#[trigger] s[j]).0);
    assert(unique_keys(s1));
    assert forall|q: usize| #[trigger] assoc_map(s1).dom().contains(q) <==> m1.dom().contains(
        q,
    ) by {
        lemma_find_index_same_keys(s, s1, q);
        lemma_find_index_bounds(s, q);
        if q == k {
            lemma_find_index_unique(s, k, i);
        }
    }
    assert(assoc_map(s1).dom() =~= m1.dom());
    assert forall|q: usize| #[trigger] m1.dom().contains(q) implies assoc_map(s1)[q]
        == m1[q] by {
        lemma_find_index_same_keys(s, s1, q);
        lemma_find_index_bounds(s, q);
        if q == k {
            lemma_find_index_unique(s, k, i);
            assert(assoc_map(s1)[q] == s1[i].1);
        } else {
            assert(s[find_index(s, q)].0 == q);
            assert(find_index(s, q) != i);
            assert(s1[find_index(s1, q)].1 == s[find_index(s, q)].1);
        }
    }
    assert(assoc_map(s1) =~= m1);
}

pub proof fn lemma_assoc_remove_at<V>(s: Seq<(usize, V)>, i: int)
    requires
        unique_keys(s),
        0 <= i < s.len(),
    ensures
        unique_keys(s.remove(i)),
        assoc_map(s.remove(i)) == assoc_map(s).remove(s[i].0),
{
    let k = s[i].0;
    let s1 = s.remove(i);
    assert(forall|j: int| 0 <= j < i ==> #[trigger] s1[j] == s[j]);
    assert(forall|j: int| i <= j < s1.len() ==> #[trigger] s1[j] == s[j + 1]);
    assert(unique_keys(s1));
    assert forall|q: usize| true implies (find_index(s1, q) >= 0 <==> (find_index(s, q) >= 0 && q
        != k)) && (find_index(s1, q) >= 0 ==> s1[find_index(s1, q)].1 == s[find_index(s, q)].1) by {
        lemma_find_index_bounds(s, q);
        lemma_find_index_bounds(s1, q);
        if q == k {
            if find_index(s1, q) >= 0 {
                let fi = find_index(s1, q);
                assert(s1[fi].0 == k);
                if fi < i {
                    assert(s[fi].0 == k);
                    assert(false);
                } else {
                    assert(s[fi + 1].0 == k);
                    lemma_find_index_unique(s, k, i);
                    lemma_find_index_unique(s, k, fi + 1);
                    assert(false);
                }
            }
        } else {
            if find_index(s, q) >= 0 {
                let fi = find_index(s, q);
                assert(s[fi].0 == q);
                assert(fi != i);
                if fi < i {
                    assert(s1[fi].0 == q);
                    lemma_find_index_unique(s1, q, fi);
                } else {
                    assert(s1[fi - 1].0 == q);
                    lemma_find_index_unique(s1, q, fi - 1);
                }
            } else {
                if find_index(s1, q) >= 0 {
                    let fi = find_index(s1, q);
                    assert(s1[fi].0 == q);
                    if fi < i {
                        assert(s[fi].0 == q);
                    } else {
                        assert(s[fi + 1].0 == q);
                    }
                    assert(false);
                }
            }
        }
    }
    assert(assoc_map(s1) =~= assoc_map(s).remove(k));
}


} // verus!
