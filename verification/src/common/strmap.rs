//! Maps keyed by strings, kept as association lists (the later entry for a
//! key wins).

use vstd::prelude::*;

verus! {

/// A map from strings to values.
pub struct StrMap<T>(pub Vec<(String, T)>);

/// The map that an association list stands for: later entries override
/// earlier ones.
pub open spec fn sm_map<T>(v: Seq<(String, T)>) -> Map<Seq<char>, T>
    decreases v.len(),
{
    if v.len() == 0 {
        Map::empty()
    } else {
        sm_map(v.drop_last()).insert(v.last().0@, v.last().1)
    }
}

/// `i` is the last position of key `k` in `v`.
pub open spec fn sm_last_pos<T>(v: Seq<(String, T)>, k: Seq<char>, i: int) -> bool {
    &&& 0 <= i < v.len()
    &&& v[i].0@ == k
    &&& forall|j: int| i < j < v.len() ==> (#[trigger] v[j]).0@ != k
}

impl<T> View for StrMap<T> {
    type V = Map<Seq<char>, T>;

    open spec fn view(&self) -> Map<Seq<char>, T> {
        sm_map(self.0@)
    }
}

pub proof fn lemma_sm_absent<T>(v: Seq<(String, T)>, k: Seq<char>)
    requires
        forall|j: int| 0 <= j < v.len() ==> (#[trigger] v[j]).0@ != k,
    ensures
        !sm_map(v).contains_key(k),
    decreases v.len(),
{
    if v.len() > 0 {
        lemma_sm_absent(v.drop_last(), k);
    }
}

pub proof fn lemma_sm_last<T>(v: Seq<(String, T)>, k: Seq<char>, i: int)
    requires
        sm_last_pos(v, k, i),
    ensures
        sm_map(v).contains_key(k),
        sm_map(v)[k] == v[i].1,
    decreases v.len(),
{
    if i < v.len() - 1 {
        lemma_sm_last(v.drop_last(), k, i);
    }
}

pub proof fn lemma_sm_update<T>(v: Seq<(String, T)>, k: Seq<char>, i: int, e: (String, T))
    requires
        sm_last_pos(v, k, i),
        e.0@ == k,
    ensures
        sm_map(v.update(i, e)) == sm_map(v).insert(k, e.1),
    decreases v.len(),
{
    let u = v.update(i, e);
    if i == v.len() - 1 {
        assert(u.drop_last() =~= v.drop_last());
        assert(sm_map(u) =~= sm_map(v).insert(k, e.1));
    } else {
        lemma_sm_update(v.drop_last(), k, i, e);
        assert(u.drop_last() =~= v.drop_last().update(i, e));
        assert(v.last().0@ != k);
        assert(sm_map(u) =~= sm_map(v).insert(k, e.1));
    }
}

impl<T> StrMap<T> {
    /// An empty map.
    pub fn new() -> (r: StrMap<T>)
        ensures
            r@ == Map::<Seq<char>, T>::empty(),
    {
        StrMap(Vec::new())
    }

    /// The position of the entry that holds the value of `k`.
    pub fn find(&self, k: &String) -> (r: Option<usize>)
        ensures
            match r {
                Some(i) => sm_last_pos(self.0@, k@, i as int),
                None => forall|j: int| 0 <= j < self.0@.len() ==> (#[trigger] self.0@[j]).0@ != k@,
            },
            r is Some <==> self@.contains_key(k@),
    {
        let mut i = self.0.len();
        while i > 0
            invariant
                i <= self.0@.len(),
                forall|j: int| i <= j < self.0@.len() ==> (#[trigger] self.0@[j]).0@ != k@,
            decreases i,
        {
            if self.0[i - 1].0 == *k {
                proof {
                    lemma_sm_last(self.0@, k@, i - 1);
                }
                return Some(i - 1);
            }
            i = i - 1;
        }
        proof {
            lemma_sm_absent(self.0@, k@);
        }
        None
    }

    /// The value of `k`, if any.
    pub fn get(&self, k: &String) -> (r: Option<&T>)
        ensures
            match r {
                Some(v) => self@.contains_key(k@) && self@[k@] == *v,
                None => !self@.contains_key(k@),
            },
    {
        match self.find(k) {
            Some(i) => {
                proof {
                    lemma_sm_last(self.0@, k@, i as int);
                }
                Some(&self.0[i].1)
            },
            None => None,
        }
    }

    /// Sets the value of `k`, replacing the entry that held it if any.
    pub fn insert(&mut self, k: String, v: T)
        ensures
            final(self)@ == old(self)@.insert(k@, v),
            final(self).0@.len() == old(self).0@.len() + if old(self)@.contains_key(k@) { 0int } else { 1int },
    {
        match self.find(&k) {
            Some(i) => {
                let ghost v0 = self.0@;
                let ghost e = (k, v);
                let _ = self.0.remove(i);
                self.0.insert(i, (k, v));
                proof {
                    assert(self.0@ =~= v0.update(i as int, e));
                    lemma_sm_update(v0, e.0@, i as int, e);
                }
            },
            None => {
                self.0.push((k, v));
                proof {
                    assert(self.0@.drop_last() =~= old(self).0@);
                }
            },
        }
    }

    /// Takes the value of `k` out of the map, if it has one; the key is
    /// then no longer in the map.
    pub fn take(&mut self, k: &String) -> (r: Option<T>)
        ensures
            match r {
                Some(v) => old(self)@.contains_key(k@) && old(self)@[k@] == v,
                None => !old(self)@.contains_key(k@),
            },
            final(self)@ == old(self)@.remove(k@),
    {
        let mut entries: Vec<(String, T)> = Vec::new();
        core::mem::swap(&mut entries, &mut self.0);
        let ghost v0 = entries@;
        let mut found: Option<T> = None;
        let mut kept: Vec<(String, T)> = Vec::new();
        let ghost mut n: int = 0;
        proof {
            assert(v0.take(0) =~= Seq::<(String, T)>::empty());
        }
        while entries.len() > 0
            invariant
                0 <= n <= v0.len(),
                entries@ == v0.skip(n),
                sm_map(kept@) == sm_map(v0.take(n)).remove(k@),
                match found {
                    Some(v) => sm_map(v0.take(n)).contains_key(k@) && sm_map(v0.take(n))[k@] == v,
                    None => !sm_map(v0.take(n)).contains_key(k@),
                },
            decreases entries@.len(),
        {
            let e = entries.remove(0);
            proof {
                assert(e == v0[n]);
                assert(entries@ =~= v0.skip(n + 1));
                assert(v0.take(n + 1).drop_last() =~= v0.take(n));
                assert(v0.take(n + 1).last() == v0[n]);
            }
            if e.0 == *k {
                found = Some(e.1);
                proof {
                    assert(sm_map(v0.take(n + 1)).remove(k@) =~= sm_map(v0.take(n)).remove(k@));
                }
            } else {
                let ghost kv = kept@;
                kept.push(e);
                proof {
                    assert(kept@.drop_last() =~= kv);
                    assert(sm_map(kept@) =~= sm_map(v0.take(n + 1)).remove(k@));
                }
            }
            proof {
                n = n + 1;
            }
        }
        proof {
            assert(v0.take(n) =~= v0);
        }
        self.0 = kept;
        found
    }
}

/// Removing the last entry of a key leaves the other keys as they were.
pub proof fn lemma_sm_remove<T>(v: Seq<(String, T)>, k: Seq<char>, i: int)
    requires
        sm_last_pos(v, k, i),
    ensures
        forall|j: Seq<char>| j != k ==> (#[trigger] sm_map(v.remove(i)).contains_key(j)) == sm_map(v).contains_key(j),
        forall|j: Seq<char>| j != k && sm_map(v).contains_key(j) ==> #[trigger] sm_map(v.remove(i))[j] == sm_map(v)[j],
    decreases v.len(),
{
    let u = v.remove(i);
    if i == v.len() - 1 {
        assert(u =~= v.drop_last());
        assert(sm_map(v) == sm_map(v.drop_last()).insert(k, v.last().1));
        assert forall|j: Seq<char>| j != k implies (#[trigger] sm_map(u).contains_key(j)) == sm_map(v).contains_key(j) by {}
        assert forall|j: Seq<char>| j != k && sm_map(v).contains_key(j) implies #[trigger] sm_map(u)[j] == sm_map(v)[j] by {}
    } else {
        lemma_sm_remove(v.drop_last(), k, i);
        assert(u.drop_last() =~= v.drop_last().remove(i));
        assert(u.last() == v.last());
        assert(sm_map(u) == sm_map(u.drop_last()).insert(u.last().0@, u.last().1));
        assert(sm_map(v) == sm_map(v.drop_last()).insert(v.last().0@, v.last().1));
        assert forall|j: Seq<char>| j != k implies (#[trigger] sm_map(u).contains_key(j)) == sm_map(v).contains_key(j) by {
            if j != v.last().0@ {
                assert(sm_map(u.drop_last()).contains_key(j) == sm_map(v.drop_last()).contains_key(j));
            }
        }
        assert forall|j: Seq<char>| j != k && sm_map(v).contains_key(j) implies #[trigger] sm_map(u)[j] == sm_map(v)[j] by {
            if j != v.last().0@ {
                assert(sm_map(v.drop_last()).contains_key(j));
                assert(sm_map(u.drop_last())[j] == sm_map(v.drop_last())[j]);
            }
        }
    }
}

/// The texts of a map of texts, by key.
pub open spec fn texts_view(m: StrMap<String>) -> Map<Seq<char>, Seq<char>> {
    m@.map_values(|s: String| s@)
}

} // verus!
