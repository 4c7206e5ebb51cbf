//! The row indices of walked columns, in ascending order.

use vstd::prelude::*;

use super::oid::{Oid, VarResult, oid_lt};
use super::oidmap::OidMap;

verus! {

/// OID order is irreflexive.
pub proof fn lemma_oid_lt_irreflexive(a: Seq<u64>)
    ensures
        !oid_lt(a, a),
    decreases a.len(),
{
    if a.len() > 0 {
        lemma_oid_lt_irreflexive(a.drop_first());
    }
}

/// OID order is transitive.
pub proof fn lemma_oid_lt_transitive(a: Seq<u64>, b: Seq<u64>, c: Seq<u64>)
    requires
        oid_lt(a, b),
        oid_lt(b, c),
    ensures
        oid_lt(a, c),
    decreases a.len(),
{
    if a.len() > 0 && b.len() > 0 && c.len() > 0 && a[0] == b[0] && b[0] == c[0] {
        lemma_oid_lt_transitive(a.drop_first(), b.drop_first(), c.drop_first());
    }
}

/// Two distinct OIDs are ordered one way or the other.
pub proof fn lemma_oid_lt_total(a: Seq<u64>, b: Seq<u64>)
    requires
        a != b,
    ensures
        oid_lt(a, b) || oid_lt(b, a),
    decreases a.len(),
{
    if a.len() > 0 && b.len() > 0 && a[0] == b[0] {
        if a.drop_first() == b.drop_first() {
            assert(a =~= seq![a[0]] + a.drop_first());
            assert(b =~= seq![b[0]] + b.drop_first());
        }
        lemma_oid_lt_total(a.drop_first(), b.drop_first());
    } else if a.len() == 0 && b.len() == 0 {
        assert(a =~= b);
    }
}

/// A list of OIDs in strictly ascending order.
pub open spec fn strictly_ascending(s: Seq<Seq<u64>>) -> bool {
    forall|i: int, j: int| 0 <= i < j < s.len() ==> oid_lt(#[trigger] s[i], #[trigger] s[j])
}

/// Views of a list of OIDs.
pub open spec fn oids_view(v: Seq<Oid>) -> Seq<Seq<u64>> {
    v.map_values(|o: Oid| o@)
}

/// The row indices that occur in any of the columns.
pub open spec fn row_id_set(cols: Seq<Map<Seq<u64>, VarResult>>) -> Set<Seq<u64>> {
    Set::new(|k: Seq<u64>| exists|c: int| 0 <= c < cols.len() && (#[trigger] cols[c]).contains_key(k))
}

fn insert_sorted(ids: &mut Vec<Oid>, k: &Oid)
    requires
        strictly_ascending(oids_view(old(ids)@)),
    ensures
        strictly_ascending(oids_view(final(ids)@)),
        oids_view(final(ids)@).to_set() == oids_view(old(ids)@).to_set().insert(k@),
{
    let ghost s0 = oids_view(ids@);
    let mut j: usize = 0;
    while j < ids.len() && ids[j].lt(k)
        invariant
            j <= ids@.len(),
            s0 == oids_view(ids@),
            forall|q: int| 0 <= q < j ==> oid_lt(#[trigger] s0[q], k@),
        decreases ids.len() - j,
    {
        j = j + 1;
    }
    if j < ids.len() && ids[j].same(k) {
        proof {
            assert(s0.to_set().insert(k@) =~= s0.to_set()) by {
                assert(s0[j as int] == k@);
            }
        }
        return;
    }
    ids.insert(j, k.copy());
    proof {
        let s1 = oids_view(ids@);
        assert(s1 =~= s0.insert(j as int, k@));
        if j < s0.len() {
            lemma_oid_lt_total(s0[j as int], k@);
        }
        assert forall|a: int, b: int| 0 <= a < b < s1.len() implies oid_lt(#[trigger] s1[a], #[trigger] s1[b]) by {
            if b < j {
                assert(s1[a] == s0[a] && s1[b] == s0[b]);
            } else if b == j {
                assert(s1[a] == s0[a]);
            } else if a == j {
                assert(s1[b] == s0[b - 1]);
                if b - 1 > j {
                    lemma_oid_lt_transitive(k@, s0[j as int], s0[b - 1]);
                }
            } else if a < j {
                assert(s1[a] == s0[a] && s1[b] == s0[b - 1]);
                assert(oid_lt(s0[a], k@));
                if b - 1 == j as int {
                    lemma_oid_lt_transitive(s0[a], k@, s0[j as int]);
                } else {
                    lemma_oid_lt_transitive(s0[a], k@, s0[j as int]);
                    lemma_oid_lt_transitive(s0[a], s0[j as int], s0[b - 1]);
                }
            } else {
                assert(s1[a] == s0[a - 1] && s1[b] == s0[b - 1]);
            }
        }
        assert(s1.to_set() =~= s0.to_set().insert(k@)) by {
            assert forall|x: Seq<u64>| s1.to_set().contains(x) implies s0.to_set().insert(k@).contains(x) by {
                let q = choose|q: int| 0 <= q < s1.len() && s1[q] == x;
                if q < j {
                    assert(s0[q] == x);
                } else if q > j {
                    assert(s0[q - 1] == x);
                }
            }
            assert forall|x: Seq<u64>| s0.to_set().insert(k@).contains(x) implies s1.to_set().contains(x) by {
                if x == k@ {
                    assert(s1[j as int] == x);
                } else {
                    let q = choose|q: int| 0 <= q < s0.len() && s0[q] == x;
                    if q < j {
                        assert(s1[q] == x);
                    } else {
                        assert(s1[q + 1] == x);
                    }
                }
            }
        }
    }
}

/// The row indices of the given columns, each once, in ascending order.
pub fn row_ids(cols: &Vec<&OidMap<VarResult>>) -> (r: Vec<Oid>)
    ensures
        strictly_ascending(oids_view(r@)),
        oids_view(r@).to_set() == row_id_set(cols@.map_values(|c: &OidMap<VarResult>| c@)),
{
    let ghost cm = cols@.map_values(|c: &OidMap<VarResult>| c@);
    let mut ids: Vec<Oid> = Vec::new();
    let mut c: usize = 0;
    proof {
        assert(oids_view(ids@).to_set() =~= Set::<Seq<u64>>::empty());
    }
    while c < cols.len()
        invariant
            c <= cols@.len(),
            cm == cols@.map_values(|c: &OidMap<VarResult>| c@),
            strictly_ascending(oids_view(ids@)),
            oids_view(ids@).to_set() == row_id_set(cm.take(c as int)),
        decreases cols.len() - c,
    {
        let col = cols[c];
        let ghost before = oids_view(ids@).to_set();
        let mut e: usize = 0;
        while e < col.0.len()
            invariant
                c < cols@.len(),
                col == cols@[c as int],
                e <= col.0@.len(),
                strictly_ascending(oids_view(ids@)),
                oids_view(ids@).to_set() == before + Set::new(|k: Seq<u64>| exists|q: int| 0 <= q < e && (#[trigger] col.0@[q]).0@ == k),
            decreases col.0.len() - e,
        {
            let ghost s = oids_view(ids@).to_set();
            insert_sorted(&mut ids, &col.0[e].0);
            proof {
                let newset = Set::new(|k: Seq<u64>| exists|q: int| 0 <= q < e + 1 && (#[trigger] col.0@[q]).0@ == k);
                let oldset = Set::new(|k: Seq<u64>| exists|q: int| 0 <= q < e && (#[trigger] col.0@[q]).0@ == k);
                assert(newset =~= oldset.insert(col.0@[e as int].0@));
                assert(oids_view(ids@).to_set() =~= before + newset);
            }
            e = e + 1;
        }
        proof {
            let keys = Set::new(|k: Seq<u64>| exists|q: int| 0 <= q < e && (#[trigger] col.0@[q]).0@ == k);
            lemma_map_keys(col.0@);
            assert(keys =~= col@.dom());
            assert(cm.take(c + 1) =~= cm.take(c as int).push(cm[c as int]));
            assert(cm[c as int] == col@);
            assert(row_id_set(cm.take(c + 1)) =~= row_id_set(cm.take(c as int)) + col@.dom()) by {
                let a = cm.take(c + 1);
                let b = cm.take(c as int);
                assert forall|k: Seq<u64>| row_id_set(a).contains(k) implies (row_id_set(b) + col@.dom()).contains(k) by {
                    let q = choose|q: int| 0 <= q < a.len() && (#[trigger] a[q]).contains_key(k);
                    if q < c {
                        assert(b[q] == a[q]);
                    }
                }
                assert forall|k: Seq<u64>| (row_id_set(b) + col@.dom()).contains(k) implies row_id_set(a).contains(k) by {
                    if row_id_set(b).contains(k) {
                        let q = choose|q: int| 0 <= q < b.len() && (#[trigger] b[q]).contains_key(k);
                        assert(a[q] == b[q]);
                    } else {
                        assert(a[c as int].contains_key(k));
                    }
                }
            }
        }
        c = c + 1;
    }
    proof {
        assert(cm.take(c as int) =~= cm);
    }
    ids
}

/// The keys of an association list are the keys of the map it stands for.
proof fn lemma_map_keys(v: Seq<(Oid, VarResult)>)
    ensures
        Set::new(|k: Seq<u64>| exists|q: int| 0 <= q < v.len() && (#[trigger] v[q]).0@ == k) =~= super::oidmap::om_map(v).dom(),
    decreases v.len(),
{
    if v.len() > 0 {
        lemma_map_keys(v.drop_last());
        let a = Set::new(|k: Seq<u64>| exists|q: int| 0 <= q < v.len() && (#[trigger] v[q]).0@ == k);
        let b = Set::new(|k: Seq<u64>| exists|q: int| 0 <= q < v.drop_last().len() && (#[trigger] v.drop_last()[q]).0@ == k);
        assert forall|k: Seq<u64>| a.contains(k) implies b.insert(v.last().0@).contains(k) by {
            let q = choose|q: int| 0 <= q < v.len() && (#[trigger] v[q]).0@ == k;
            if q < v.len() - 1 {
                assert(v.drop_last()[q] == v[q]);
            }
        }
        assert forall|k: Seq<u64>| b.insert(v.last().0@).contains(k) implies a.contains(k) by {
            if k == v.last().0@ {
                assert(v[v.len() - 1].0@ == k);
            } else {
                let q = choose|q: int| 0 <= q < v.drop_last().len() && (#[trigger] v.drop_last()[q]).0@ == k;
                assert(v[q] == v.drop_last()[q]);
            }
        }
        assert(a =~= b.insert(v.last().0@));
    }
}

} // verus!
