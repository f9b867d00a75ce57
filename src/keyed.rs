use vstd::prelude::*;

verus! {

/// Keys strictly increase along the sequence.
pub open spec fn sorted_keys<V>(s: Seq<(u64, V)>) -> bool {
    forall|i: int, j: int| 0 <= i < j < s.len() ==> #[trigger] s[i].0 < #[trigger] s[j].0
}

/// Some entry of `s` has key `k`.
pub open spec fn has_key<V>(s: Seq<(u64, V)>, k: u64) -> bool {
    exists|i: int| 0 <= i < s.len() && #[trigger] s[i].0 == k
}

/// The map that a sequence of keyed entries describes.
pub open spec fn entries_map<V>(s: Seq<(u64, V)>) -> Map<u64, V> {
    Map::new(
        |k: u64| has_key(s, k),
        |k: u64| s[choose|i: int| 0 <= i < s.len() && #[trigger] s[i].0 == k].1,
    )
}

pub proof fn lemma_entry_in_map<V>(s: Seq<(u64, V)>, i: int)
    requires
        sorted_keys(s),
        0 <= i < s.len(),
    ensures
        entries_map(s).contains_key(s[i].0),
        entries_map(s)[s[i].0] == s[i].1,
{
    assert(has_key(s, s[i].0));
    let j = choose|j: int| 0 <= j < s.len() && #[trigger] s[j].0 == s[i].0;
    if j < i {
        assert(s[j].0 < s[i].0);
    } else if j > i {
        assert(s[i].0 < s[j].0);
    }
}

/// A sorted sequence whose entries all agree with `m`, and which covers
/// every key of `m`, describes exactly `m`.
pub proof fn lemma_map_matches<V>(s: Seq<(u64, V)>, m: Map<u64, V>)
    requires
        sorted_keys(s),
        forall|i: int|
            0 <= i < s.len() ==> m.contains_key(#[trigger] s[i].0) && m[s[i].0] == s[i].1,
        forall|k: u64| m.contains_key(k) ==> has_key(s, k),
    ensures
        entries_map(s) == m,
{
    assert forall|k: u64| entries_map(s).contains_key(k) <==> m.contains_key(k) by {
        if has_key(s, k) {
            let i = choose|i: int| 0 <= i < s.len() && #[trigger] s[i].0 == k;
            assert(m.contains_key(s[i].0));
        }
    }
    assert forall|k: u64| m.contains_key(k) implies entries_map(s)[k] == m[k] by {
        let i = choose|i: int| 0 <= i < s.len() && #[trigger] s[i].0 == k;
        lemma_entry_in_map(s, i);
    }
    assert(entries_map(s) =~= m);
}

/// An ordered map from `u64` keys, held as a vector of entries in key order.
pub struct SortedMap<V> {
    entries: Vec<(u64, V)>,
}

impl<V> SortedMap<V> {
    pub closed spec fn entries(&self) -> Seq<(u64, V)> {
        self.entries@
    }

    pub open spec fn wf(&self) -> bool {
        sorted_keys(self.entries())
    }

    pub open spec fn view(&self) -> Map<u64, V> {
        entries_map(self.entries())
    }

    pub fn new() -> (r: Self)
        ensures
            r.wf(),
            r.entries() == Seq::<(u64, V)>::empty(),
            r.view() == Map::<u64, V>::empty(),
    {
        let r = SortedMap { entries: Vec::new() };
        assert(r.view() =~= Map::<u64, V>::empty());
        r
    }

    pub fn len(&self) -> (r: usize)
        ensures
            r == self.entries().len(),
    {
        self.entries.len()
    }

    pub fn entry_at(&self, i: usize) -> (r: &(u64, V))
        requires
            i < self.entries().len(),
        ensures
            *r == self.entries()[i as int],
    {
        &self.entries[i]
    }

    /// The first index whose key is not below `k`, and whether that key is `k`.
    pub fn position(&self, k: u64) -> (r: (bool, usize))
        requires
            self.wf(),
        ensures
            r.1 <= self.entries().len(),
            forall|i: int| 0 <= i < r.1 ==> #[trigger] self.entries()[i].0 < k,
            r.1 < self.entries().len() ==> self.entries()[r.1 as int].0 >= k,
            r.0 <==> (r.1 < self.entries().len() && self.entries()[r.1 as int].0 == k),
            r.0 <==> self.view().contains_key(k),
    {
        let n = self.entries.len();
        let mut i: usize = 0;
        while i < n && self.entries[i].0 < k
            invariant
                n == self.entries().len(),
                i <= n,
                forall|j: int| 0 <= j < i ==> #[trigger] self.entries()[j].0 < k,
            decreases n - i,
        {
            i = i + 1;
        }
        let found = i < n && self.entries[i].0 == k;
        proof {
            if found {
                assert(has_key(self.entries(), k));
            } else if has_key(self.entries(), k) {
                let j = choose|j: int| 0 <= j < n && #[trigger] self.entries()[j].0 == k;
                if j > i {
                    assert(self.entries()[i as int].0 < self.entries()[j].0);
                }
            }
        }
        (found, i)
    }

    pub fn contains_key(&self, k: u64) -> (r: bool)
        requires
            self.wf(),
        ensures
            r == self.view().contains_key(k),
    {
        self.position(k).0
    }

    pub fn get(&self, k: u64) -> (r: Option<&V>)
        requires
            self.wf(),
        ensures
            match r {
                Some(v) => self.view().contains_key(k) && *v == self.view()[k],
                None => !self.view().contains_key(k),
            },
    {
        let (found, i) = self.position(k);
        if found {
            proof {
                lemma_entry_in_map(self.entries(), i as int);
            }
            Some(&self.entries[i].1)
        } else {
            None
        }
    }

    pub fn insert(&mut self, k: u64, v: V)
        requires
            old(self).wf(),
        ensures
            final(self).wf(),
            final(self).view() == old(self).view().insert(k, v),
    {
        let (found, i) = self.position(k);
        let ghost s0 = self.entries();
        if found {
            self.entries.set(i, (k, v));
        } else {
            self.entries.insert(i, (k, v));
        }
        proof {
            let s = self.entries();
            let target = entries_map(s0).insert(k, v);
            if found {
                assert(s == s0.update(i as int, (k, v)));
            } else {
                assert(s == s0.insert(i as int, (k, v)));
            }
            assert(sorted_keys(s)) by {
                assert forall|a: int, b: int| 0 <= a < b < s.len() implies #[trigger] s[a].0
                    < #[trigger] s[b].0 by {
                    if !found && a < i && b > i {
                        assert(s[b] == s0[b - 1]);
                    }
                    if !found && a > i {
                        assert(s0[a - 1].0 < s0[b - 1].0);
                    }
                }
            }
            assert forall|j: int| 0 <= j < s.len() implies target.contains_key(#[trigger] s[j].0)
                && target[s[j].0] == s[j].1 by {
                if j != i {
                    let oj = if !found && j > i { j - 1 } else { j };
                    assert(s[j] == s0[oj]);
                    lemma_entry_in_map(s0, oj);
                }
            }
            assert forall|x: u64| target.contains_key(x) implies has_key(s, x) by {
                if x == k {
                    assert(s[i as int].0 == k);
                } else {
                    let oj = choose|oj: int| 0 <= oj < s0.len() && #[trigger] s0[oj].0 == x;
                    let j = if !found && oj >= i { oj + 1 } else { oj };
                    assert(s[j] == s0[oj]);
                }
            }
            lemma_map_matches(s, target);
        }
    }

    /// Replaces the value of the entry at index `i`, keeping its key.
    pub fn set_value_at(&mut self, i: usize, v: V)
        requires
            old(self).wf(),
            i < old(self).entries().len(),
        ensures
            final(self).wf(),
            final(self).entries() == old(self).entries().update(i as int, (old(self).entries()[i as int].0, v)),
            final(self).view() == old(self).view().insert(old(self).entries()[i as int].0, v),
    {
        let ghost s0 = self.entries();
        let k = self.entries[i].0;
        self.entries.set(i, (k, v));
        proof {
            let s = self.entries();
            let target = entries_map(s0).insert(k, v);
            assert(sorted_keys(s)) by {
                assert forall|a: int, b: int| 0 <= a < b < s.len() implies #[trigger] s[a].0
                    < #[trigger] s[b].0 by {
                    assert(s0[a].0 < s0[b].0);
                }
            }
            assert forall|j: int| 0 <= j < s.len() implies target.contains_key(#[trigger] s[j].0)
                && target[s[j].0] == s[j].1 by {
                if j != i {
                    lemma_entry_in_map(s0, j);
                    if j < i {
                        assert(s0[j].0 < s0[i as int].0);
                    } else {
                        assert(s0[i as int].0 < s0[j].0);
                    }
                }
            }
            assert forall|x: u64| target.contains_key(x) implies has_key(s, x) by {
                if x == k {
                    assert(s[i as int].0 == k);
                } else {
                    let j = choose|j: int| 0 <= j < s0.len() && #[trigger] s0[j].0 == x;
                    assert(s[j].0 == x);
                }
            }
            lemma_map_matches(s, target);
        }
    }

    pub fn remove(&mut self, k: u64) -> (r: Option<V>)
        requires
            old(self).wf(),
        ensures
            final(self).wf(),
            final(self).view() == old(self).view().remove(k),
            match r {
                Some(v) => old(self).view().contains_key(k) && v == old(self).view()[k],
                None => !old(self).view().contains_key(k),
            },
    {
        let (found, i) = self.position(k);
        let ghost s0 = self.entries();
        if found {
            proof {
                lemma_entry_in_map(s0, i as int);
            }
            let (_, v) = self.entries.remove(i);
            proof {
                let s = self.entries();
                let target = entries_map(s0).remove(k);
                assert(s == s0.remove(i as int));
                assert forall|j: int| 0 <= j < s.len() implies target.contains_key(
                    #[trigger] s[j].0,
                ) && target[s[j].0] == s[j].1 by {
                    let oj = if j >= i { j + 1 } else { j };
                    assert(s[j] == s0[oj]);
                    lemma_entry_in_map(s0, oj);
                    if j >= i {
                        assert(s0[i as int].0 < s0[oj].0);
                    } else {
                        assert(s0[oj].0 < s0[i as int].0);
                    }
                }
                assert forall|x: u64| target.contains_key(x) implies has_key(s, x) by {
                    let oj = choose|oj: int| 0 <= oj < s0.len() && #[trigger] s0[oj].0 == x;
                    let j = if oj > i { oj - 1 } else { oj };
                    assert(s[j] == s0[oj]);
                }
                assert(sorted_keys(s)) by {
                    assert forall|a: int, b: int| 0 <= a < b < s.len() implies #[trigger] s[a].0
                        < #[trigger] s[b].0 by {
                        let oa = if a >= i { a + 1 } else { a };
                        let ob = if b >= i { b + 1 } else { b };
                        assert(s[a] == s0[oa] && s[b] == s0[ob]);
                    }
                }
                lemma_map_matches(s, target);
            }
            Some(v)
        } else {
            proof {
                assert(entries_map(s0).remove(k) =~= entries_map(s0));
            }
            None
        }
    }
}

} // verus!
