//! Maps keyed by OID, kept as association lists (the later entry for a key
//! wins).

use vstd::prelude::*;

use super::oid::Oid;

verus! {

/// A map from OIDs to values.
pub struct OidMap<T>(pub Vec<(Oid, T)>);

/// The map that an association list stands for: later entries override
/// earlier ones.
pub open spec fn om_map<T>(v: Seq<(Oid, T)>) -> Map<Seq<u64>, T>
    decreases v.len(),
{
    if v.len() == 0 {
        Map::empty()
    } else {
        om_map(v.drop_last()).insert(v.last().0@, v.last().1)
    }
}

/// `i` is the last position of key `k` in `v`.
pub open spec fn last_pos<T>(v: Seq<(Oid, T)>, k: Seq<u64>, i: int) -> bool {
    &&& 0 <= i < v.len()
    &&& v[i].0@ == k
    &&& forall|j: int| i < j < v.len() ==> (#[trigger] v[j]).0@ != k
}

impl<T> View for OidMap<T> {
    type V = Map<Seq<u64>, T>;

    open spec fn view(&self) -> Map<Seq<u64>, T> {
        om_map(self.0@)
    }
}

pub proof fn lemma_om_absent<T>(v: Seq<(Oid, T)>, k: Seq<u64>)
    requires
        forall|j: int| 0 <= j < v.len() ==> (#[trigger] v[j]).0@ != k,
    ensures
        !om_map(v).contains_key(k),
    decreases v.len(),
{
    if v.len() > 0 {
        lemma_om_absent(v.drop_last(), k);
    }
}

pub proof fn lemma_om_last<T>(v: Seq<(Oid, T)>, k: Seq<u64>, i: int)
    requires
        last_pos(v, k, i),
    ensures
        om_map(v).contains_key(k),
        om_map(v)[k] == v[i].1,
    decreases v.len(),
{
    if i < v.len() - 1 {
        lemma_om_last(v.drop_last(), k, i);
    }
}

pub proof fn lemma_om_update<T>(v: Seq<(Oid, T)>, k: Seq<u64>, i: int, e: (Oid, T))
    requires
        last_pos(v, k, i),
        e.0@ == k,
    ensures
        om_map(v.update(i, e)) == om_map(v).insert(k, e.1),
    decreases v.len(),
{
    let u = v.update(i, e);
    if i == v.len() - 1 {
        assert(u.drop_last() =~= v.drop_last());
        assert(om_map(u) =~= om_map(v).insert(k, e.1));
    } else {
        lemma_om_update(v.drop_last(), k, i, e);
        assert(u.drop_last() =~= v.drop_last().update(i, e));
        assert(v.last().0@ != k);
        assert(om_map(u) =~= om_map(v).insert(k, e.1));
    }
}

impl<T> OidMap<T> {
    /// An empty map.
    pub fn new() -> (r: OidMap<T>)
        ensures
            r@ == Map::<Seq<u64>, T>::empty(),
    {
        OidMap(Vec::new())
    }

    /// The position of the entry that holds the value of `k`.
    pub fn find(&self, k: &Oid) -> (r: Option<usize>)
        ensures
            match r {
                Some(i) => last_pos(self.0@, k@, i as int),
                None => forall|j: int| 0 <= j < self.0@.len() ==> (#[trigger] self.0@[j]).0@ != k@,
            },
            r is Some <==> self@.contains_key(k@),
    {
        let mut i = self.0.len();
        while i > 0
            invariant
                i <= self.0@.len(),
                forall|j: int| i <= j < self.0@.len() ==> (#[trigger] self.0@[j]).0@ != k@,
            decreases i,
        {
            if self.0[i - 1].0.same(k) {
                proof {
                    lemma_om_last(self.0@, k@, i - 1);
                }
                return Some(i - 1);
            }
            i = i - 1;
        }
        proof {
            lemma_om_absent(self.0@, k@);
        }
        None
    }

    /// The value of `k`, if any.
    pub fn get(&self, k: &Oid) -> (r: Option<&T>)
        ensures
            match r {
                Some(v) => self@.contains_key(k@) && self@[k@] == *v,
                None => !self@.contains_key(k@),
            },
    {
        match self.find(k) {
            Some(i) => {
                proof {
                    lemma_om_last(self.0@, k@, i as int);
                }
                Some(&self.0[i].1)
            },
            None => None,
        }
    }

    /// Sets the value of `k`.
    pub fn insert(&mut self, k: Oid, v: T)
        ensures
            final(self)@ == old(self)@.insert(k@, v),
    {
        self.0.push((k, v));
        proof {
            assert(self.0@.drop_last() =~= old(self).0@);
        }
    }

    /// Sets the value of `k`, replacing the entry that held it if any.
    pub fn set(&mut self, k: Oid, v: T)
        ensures
            final(self)@ == old(self)@.insert(k@, v),
    {
        match self.find(&k) {
            Some(i) => {
                let ghost v0 = self.0@;
                let ghost e = (k, v);
                let _ = self.0.remove(i);
                self.0.insert(i, (k, v));
                proof {
                    assert(self.0@ =~= v0.update(i as int, e));
                    lemma_om_update(v0, e.0@, i as int, e);
                }
            },
            None => {
                self.0.push((k, v));
                proof {
                    assert(self.0@.drop_last() =~= old(self).0@);
                }
            },
        }
    }
}

} // verus!
