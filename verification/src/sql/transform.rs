//! How the rows that a database returns are reshaped before their fields
//! are read: Oracle statistics are pivoted into one row, SQL Server
//! performance counters are grouped by object instance.

use vstd::prelude::*;

use crate::common::data::strings_view;
use crate::common::search::{split_char, split_on, contains_string, lemma_push_contains};
use crate::common::strmap::{StrMap, texts_view};
use crate::sql::input::{SqlPlugin, TableSpec};
use crate::common::text::{chars_of, trim_end_text, trimmed_end};
use vstd::string::StringExecFns;

verus! {

/// Why rows could not be reshaped.
pub enum TransformError {
    /// A row lacks a column that the reshaping needs (the column).
    FieldNotFound(String),
}

/// Views of a table's rows.
pub open spec fn table_view(t: Seq<StrMap<String>>) -> Seq<Map<Seq<char>, Seq<char>>> {
    t.map_values(|r: StrMap<String>| texts_view(r))
}

/// The statistics of the rows: each row's `NAME` with its `VALUE`, in
/// order (a later name wins); the first row without one of them is the
/// error, naming the column.
pub open spec fn pivot_pairs(rows: Seq<Map<Seq<char>, Seq<char>>>) -> Result<Map<Seq<char>, Seq<char>>, Seq<char>>
    decreases rows.len(),
{
    if rows.len() == 0 {
        Ok(Map::empty())
    } else {
        match pivot_pairs(rows.drop_last()) {
            Err(e) => Err(e),
            Ok(m) => {
                let r = rows.last();
                if !r.contains_key("NAME"@) {
                    Err("NAME"@)
                } else if !r.contains_key("VALUE"@) {
                    Err("VALUE"@)
                } else {
                    Ok(m.insert(r["NAME"@], r["VALUE"@]))
                }
            },
        }
    }
}

/// The key columns of a statistics table: those of the first row other
/// than `NAME` and `VALUE`.
pub open spec fn key_columns(rows: Seq<Map<Seq<char>, Seq<char>>>) -> Map<Seq<char>, Seq<char>> {
    if rows.len() == 0 { Map::empty() } else { rows[0].remove("NAME"@).remove("VALUE"@) }
}

/// A statistics table pivoted into one row: a column per statistic, and
/// the key columns of its first row (which win over a statistic of the
/// same name).
pub open spec fn pivot_of(rows: Seq<Map<Seq<char>, Seq<char>>>) -> Result<Map<Seq<char>, Seq<char>>, Seq<char>> {
    match pivot_pairs(rows) {
        Ok(m) => Ok(m.union_prefer_right(key_columns(rows))),
        Err(e) => Err(e),
    }
}

/// The map that pairs stand for, a later pair winning.
pub open spec fn pairs_map(v: Seq<(Seq<char>, Seq<char>)>) -> Map<Seq<char>, Seq<char>>
    decreases v.len(),
{
    if v.len() == 0 {
        Map::empty()
    } else {
        pairs_map(v.drop_last()).insert(v.last().0, v.last().1)
    }
}

/// Views of pairs of texts.
pub open spec fn pairs_view(v: Seq<(String, String)>) -> Seq<(Seq<char>, Seq<char>)> {
    v.map_values(|p: (String, String)| (p.0@, p.1@))
}

proof fn lemma_texts_pairs(v: Seq<(String, String)>)
    ensures
        crate::common::strmap::sm_map(v).map_values(|s: String| s@) == pairs_map(pairs_view(v)),
    decreases v.len(),
{
    if v.len() > 0 {
        lemma_texts_pairs(v.drop_last());
        assert(pairs_view(v).drop_last() =~= pairs_view(v.drop_last()));
        assert(crate::common::strmap::sm_map(v).map_values(|s: String| s@) =~= pairs_map(pairs_view(v)));
    } else {
        assert(crate::common::strmap::sm_map(v).map_values(|s: String| s@) =~= pairs_map(pairs_view(v)));
    }
}

/// Pairs without those whose key is `a` or `b`.
pub open spec fn drop_keys(v: Seq<(Seq<char>, Seq<char>)>, a: Seq<char>, b: Seq<char>) -> Seq<(Seq<char>, Seq<char>)>
    decreases v.len(),
{
    if v.len() == 0 {
        Seq::empty()
    } else {
        let d = drop_keys(v.drop_last(), a, b);
        if v.last().0 == a || v.last().0 == b { d } else { d.push(v.last()) }
    }
}

proof fn lemma_drop_keys(v: Seq<(Seq<char>, Seq<char>)>, a: Seq<char>, b: Seq<char>)
    ensures
        pairs_map(drop_keys(v, a, b)) == pairs_map(v).remove(a).remove(b),
    decreases v.len(),
{
    if v.len() > 0 {
        lemma_drop_keys(v.drop_last(), a, b);
        let d = drop_keys(v.drop_last(), a, b);
        if !(v.last().0 == a || v.last().0 == b) {
            assert(drop_keys(v, a, b).drop_last() =~= d);
        }
        assert(pairs_map(drop_keys(v, a, b)) =~= pairs_map(v).remove(a).remove(b));
    } else {
        assert(pairs_map(drop_keys(v, a, b)) =~= pairs_map(v).remove(a).remove(b));
    }
}

/// Pivots a statistics table into one row (see `pivot_of`).
pub fn pivot_table(table: Vec<StrMap<String>>) -> (r: Result<Vec<StrMap<String>>, TransformError>)
    ensures
        match pivot_of(table_view(table@)) {
            Ok(m) => r matches Ok(t) && t@.len() == 1 && texts_view(t@[0]) == m,
            Err(e) => r matches Err(TransformError::FieldNotFound(c)) && c@ == e,
        },
{
    let ghost tv = table_view(table@);
    let name = String::from_str("NAME");
    let value = String::from_str("VALUE");
    let mut out: StrMap<String> = StrMap::new();
    let mut i: usize = 0;
    proof {
        assert(tv.take(0) =~= Seq::<Map<Seq<char>, Seq<char>>>::empty());
        assert(texts_view(out) =~= Map::<Seq<char>, Seq<char>>::empty());
    }
    while i < table.len()
        invariant
            i <= table@.len(),
            tv == table_view(table@),
            name@ == "NAME"@,
            value@ == "VALUE"@,
            pivot_pairs(tv.take(i as int)) == Ok::<Map<Seq<char>, Seq<char>>, Seq<char>>(texts_view(out)),
        decreases table.len() - i,
    {
        proof {
            assert(tv.take(i + 1).drop_last() =~= tv.take(i as int));
            assert(tv.take(i + 1).last() == texts_view(table@[i as int]));
        }
        let n = match table[i].get(&name) {
            Some(n) => n.clone(),
            None => {
                proof {
                    lemma_pivot_err(tv, i as int + 1);
                }
                return Err(TransformError::FieldNotFound(name));
            },
        };
        let v = match table[i].get(&value) {
            Some(v) => v.clone(),
            None => {
                proof {
                    lemma_pivot_err(tv, i as int + 1);
                }
                return Err(TransformError::FieldNotFound(value));
            },
        };
        let ghost o0 = texts_view(out);
        out.insert(n, v);
        proof {
            assert(texts_view(out) =~= o0.insert(n@, v@));
        }
        i = i + 1;
    }
    proof {
        assert(tv.take(i as int) =~= tv);
    }
    let ghost m = texts_view(out);
    if table.len() > 0 {
        let first = &table[0].0;
        let ghost fv = pairs_view(first@);
        let mut j: usize = 0;
        proof {
            assert(fv.take(0) =~= Seq::<(Seq<char>, Seq<char>)>::empty());
            assert(texts_view(out) =~= m.union_prefer_right(pairs_map(drop_keys(fv.take(0), "NAME"@, "VALUE"@))));
        }
        while j < first.len()
            invariant
                j <= first@.len(),
                fv == pairs_view(first@),
                name@ == "NAME"@,
                value@ == "VALUE"@,
                texts_view(out) == m.union_prefer_right(pairs_map(drop_keys(fv.take(j as int), "NAME"@, "VALUE"@))),
            decreases first.len() - j,
        {
            proof {
                assert(fv.take(j + 1).drop_last() =~= fv.take(j as int));
                assert(fv.take(j + 1).last() == fv[j as int]);
            }
            let ghost o0 = texts_view(out);
            proof {
                assert(fv[j as int] == (first@[j as int].0@, first@[j as int].1@));
            }
            if !(first[j].0 == name || first[j].0 == value) {
                out.insert(first[j].0.clone(), first[j].1.clone());
                proof {
                    assert(fv[j as int] == (first@[j as int].0@, first@[j as int].1@));
                    assert(fv[j as int].0 != "NAME"@ && fv[j as int].0 != "VALUE"@);
                    assert(drop_keys(fv.take(j + 1), "NAME"@, "VALUE"@) == drop_keys(fv.take(j as int), "NAME"@, "VALUE"@).push(fv[j as int]));
                    let dk = drop_keys(fv.take(j as int), "NAME"@, "VALUE"@);
                    assert(dk.push(fv[j as int]).drop_last() =~= dk);
                    assert(pairs_map(dk.push(fv[j as int])) == pairs_map(dk).insert(fv[j as int].0, fv[j as int].1));
                    assert(texts_view(out) =~= o0.insert(first@[j as int].0@, first@[j as int].1@));
                    assert(texts_view(out) =~= m.union_prefer_right(pairs_map(drop_keys(fv.take(j + 1), "NAME"@, "VALUE"@))));
                }
            }
            j = j + 1;
        }
        proof {
            assert(fv.take(j as int) =~= fv);
            lemma_drop_keys(fv, "NAME"@, "VALUE"@);
            lemma_texts_pairs(first@);
            assert(tv[0] == texts_view(table@[0]));
            assert(key_columns(tv) =~= pairs_map(fv).remove("NAME"@).remove("VALUE"@));
        }
    } else {
        proof {
            assert(texts_view(out) =~= m.union_prefer_right(key_columns(tv)));
        }
    }
    let mut res: Vec<StrMap<String>> = Vec::new();
    res.push(out);
    Ok(res)
}

proof fn lemma_pivot_err(rows: Seq<Map<Seq<char>, Seq<char>>>, n: int)
    requires
        0 < n <= rows.len(),
        pivot_pairs(rows.take(n)) is Err,
    ensures
        pivot_pairs(rows) == pivot_pairs(rows.take(n)),
    decreases rows.len() - n,
{
    if n < rows.len() {
        assert(rows.take(n + 1).drop_last() =~= rows.take(n));
        lemma_pivot_err(rows, n + 1);
    } else {
        assert(rows.take(n) =~= rows);
    }
}

/// An object instance of the performance counters: the server instance,
/// the object (without the instance prefix) and the object's instance.
pub type ObjKey = (Seq<char>, Seq<char>, Seq<char>);

/// The object instance and counter (name, value) of a row, all but the
/// value without trailing white space; the object is the text after the
/// last `:`. The first missing column is the error.
pub open spec fn perf_entry(r: Map<Seq<char>, Seq<char>>) -> Result<(ObjKey, (Seq<char>, Seq<char>)), Seq<char>> {
    if !r.contains_key("__instance_name"@) {
        Err("__instance_name"@)
    } else if !r.contains_key("__object_name"@) {
        Err("__object_name"@)
    } else if !r.contains_key("__object_instance"@) {
        Err("__object_instance"@)
    } else if !r.contains_key("counter_name"@) {
        Err("counter_name"@)
    } else if !r.contains_key("cntr_value"@) {
        Err("cntr_value"@)
    } else {
        Ok(((trimmed_end(r["__instance_name"@]), trimmed_end(split_char(r["__object_name"@], ':').last()), trimmed_end(r["__object_instance"@])),
            (trimmed_end(r["counter_name"@]), r["cntr_value"@])))
    }
}

/// A counter added to the group of its object instance (a new group, last,
/// for a new instance).
pub open spec fn add_to_group(g: Seq<(ObjKey, Seq<(Seq<char>, Seq<char>)>)>, k: ObjKey, c: (Seq<char>, Seq<char>)) -> Seq<(ObjKey, Seq<(Seq<char>, Seq<char>)>)> {
    if exists|j: int| 0 <= j < g.len() && (#[trigger] g[j]).0 == k {
        let j = choose|j: int| 0 <= j < g.len() && (#[trigger] g[j]).0 == k;
        g.update(j, (k, g[j].1.push(c)))
    } else {
        g.push((k, seq![c]))
    }
}

/// The counters of the rows grouped by object instance, the groups in the
/// order of their first row.
pub open spec fn perf_groups(rows: Seq<Map<Seq<char>, Seq<char>>>) -> Result<Seq<(ObjKey, Seq<(Seq<char>, Seq<char>)>)>, Seq<char>>
    decreases rows.len(),
{
    if rows.len() == 0 {
        Ok(Seq::empty())
    } else {
        match perf_groups(rows.drop_last()) {
            Err(e) => Err(e),
            Ok(g) => match perf_entry(rows.last()) {
                Err(e) => Err(e),
                Ok((k, c)) => Ok(add_to_group(g, k, c)),
            },
        }
    }
}

/// The counter name of a row, if the row is complete.
pub open spec fn entry_name(r: Map<Seq<char>, Seq<char>>) -> Option<Seq<char>> {
    match perf_entry(r) {
        Ok((_k, c)) => Some(c.0),
        Err(_e) => None,
    }
}

/// The names of all counters of the rows.
pub open spec fn perf_names(rows: Seq<Map<Seq<char>, Seq<char>>>) -> Set<Seq<char>> {
    Set::new(|n: Seq<char>| exists|i: int| 0 <= i < rows.len() && #[trigger] entry_name(rows[i]) == Some(n))
}

/// The row of an object instance: its three names, every counter of the
/// table as an empty text, then its own counters (later ones win).
pub open spec fn perf_row(k: ObjKey, cs: Seq<(Seq<char>, Seq<char>)>, names: Set<Seq<char>>) -> Map<Seq<char>, Seq<char>> {
    Map::<Seq<char>, Seq<char>>::empty().insert("__instance_name"@, k.0).insert("__object_name"@, k.1).insert("__object_instance"@, k.2)
        .union_prefer_right(Map::new(|n: Seq<char>| names.contains(n), |n: Seq<char>| Seq::<char>::empty()))
        .union_prefer_right(pairs_map(cs))
}

/// The performance counters as one row per object instance (see
/// `perf_groups` and `perf_row`).
pub open spec fn perf_of(rows: Seq<Map<Seq<char>, Seq<char>>>) -> Result<Seq<Map<Seq<char>, Seq<char>>>, Seq<char>> {
    match perf_groups(rows) {
        Ok(g) => Ok(g.map_values(|e: (ObjKey, Seq<(Seq<char>, Seq<char>)>)| perf_row(e.0, e.1, perf_names(rows)))),
        Err(e) => Err(e),
    }
}

/// Views of the groups of counters.
pub open spec fn groups_view(g: Seq<((String, String, String), Vec<(String, String)>)>) -> Seq<(ObjKey, Seq<(Seq<char>, Seq<char>)>)> {
    g.map_values(|e: ((String, String, String), Vec<(String, String)>)| ((e.0.0@, e.0.1@, e.0.2@), pairs_view(e.1@)))
}

proof fn lemma_perf_err(rows: Seq<Map<Seq<char>, Seq<char>>>, n: int)
    requires
        0 < n <= rows.len(),
        perf_groups(rows.take(n)) is Err,
    ensures
        perf_groups(rows) == perf_groups(rows.take(n)),
    decreases rows.len() - n,
{
    if n < rows.len() {
        assert(rows.take(n + 1).drop_last() =~= rows.take(n));
        lemma_perf_err(rows, n + 1);
    } else {
        assert(rows.take(n) =~= rows);
    }
}

fn need<'a>(row: &'a StrMap<String>, col: &str) -> (r: Result<&'a String, TransformError>)
    ensures
        match r {
            Ok(v) => texts_view(*row).contains_key(col@) && texts_view(*row)[col@] == v@,
            Err(TransformError::FieldNotFound(c)) => !texts_view(*row).contains_key(col@) && c@ == col@,
        },
{
    let k = String::from_str(col);
    match row.get(&k) {
        Some(v) => Ok(v),
        None => Err(TransformError::FieldNotFound(k)),
    }
}

fn object_part(s: &String) -> (r: String)
    ensures
        r@ == trimmed_end(split_char(s@, ':').last()),
{
    let pieces = split_on(chars_of(s.as_str()).as_slice(), ':');
    proof {
        crate::common::search::lemma_split_char_nonempty(s@, ':');
    }
    let last = &pieces[pieces.len() - 1];
    proof {
        assert(strings_view(pieces@)[pieces@.len() - 1] == last@);
    }
    trim_end_text(last.as_str())
}


/// Whether no two groups are of one object instance.
pub open spec fn keys_distinct(g: Seq<(ObjKey, Seq<(Seq<char>, Seq<char>)>)>) -> bool {
    forall|a: int, b: int| 0 <= a < b < g.len() ==> (#[trigger] g[a]).0 != (#[trigger] g[b]).0
}

proof fn lemma_add_found(g: Seq<(ObjKey, Seq<(Seq<char>, Seq<char>)>)>, k: ObjKey, c: (Seq<char>, Seq<char>), j: int)
    requires
        keys_distinct(g),
        0 <= j < g.len(),
        g[j].0 == k,
    ensures
        add_to_group(g, k, c) == g.update(j, (k, g[j].1.push(c))),
        keys_distinct(add_to_group(g, k, c)),
{
    assert(0 <= j < g.len() && g[j].0 == k);
    let jj = choose|x: int| 0 <= x < g.len() && (#[trigger] g[x]).0 == k;
    if jj < j {
        assert(g[jj].0 != g[j].0);
    } else if j < jj {
        assert(g[j].0 != g[jj].0);
    }
    let u = g.update(j, (k, g[j].1.push(c)));
    assert forall|a: int, b: int| 0 <= a < b < u.len() implies (#[trigger] u[a]).0 != (#[trigger] u[b]).0 by {
        assert(g[a].0 != g[b].0);
    }
}

proof fn lemma_add_new(g: Seq<(ObjKey, Seq<(Seq<char>, Seq<char>)>)>, k: ObjKey, c: (Seq<char>, Seq<char>))
    requires
        keys_distinct(g),
        forall|x: int| 0 <= x < g.len() ==> (#[trigger] g[x]).0 != k,
    ensures
        add_to_group(g, k, c) == g.push((k, seq![c])),
        keys_distinct(add_to_group(g, k, c)),
{
    let u = g.push((k, seq![c]));
    assert forall|a: int, b: int| 0 <= a < b < u.len() implies (#[trigger] u[a]).0 != (#[trigger] u[b]).0 by {
        if b < g.len() {
            assert(g[a].0 != g[b].0);
        } else {
            assert(g[a].0 != k);
        }
    }
}

proof fn lemma_names_step(rows: Seq<Map<Seq<char>, Seq<char>>>, i: int)
    requires
        0 <= i < rows.len(),
        entry_name(rows[i]) is Some,
    ensures
        forall|m: Seq<char>| #[trigger] perf_names(rows.take(i + 1)).contains(m)
            == (perf_names(rows.take(i)).contains(m) || m == entry_name(rows[i]).unwrap()),
{
    let a = rows.take(i);
    let b = rows.take(i + 1);
    assert forall|m: Seq<char>| #[trigger] perf_names(b).contains(m)
        == (perf_names(a).contains(m) || m == entry_name(rows[i]).unwrap()) by {
        if perf_names(b).contains(m) {
            let x = choose|x: int| 0 <= x < b.len() && #[trigger] entry_name(b[x]) == Some(m);
            if x < i {
                assert(a[x] == b[x]);
            }
        }
        if perf_names(a).contains(m) {
            let x = choose|x: int| 0 <= x < a.len() && #[trigger] entry_name(a[x]) == Some(m);
            assert(a[x] == b[x]);
        }
        if m == entry_name(rows[i]).unwrap() {
            assert(b[i] == rows[i]);
            assert(entry_name(b[i]) == Some(m));
        }
    }
}

/// The object instance and the counter of one row (see `perf_entry`).
fn row_entry(row: &StrMap<String>) -> (r: Result<((String, String, String), (String, String)), TransformError>)
    ensures
        match perf_entry(texts_view(*row)) {
            Ok((k, c)) => r matches Ok(e) && e.0.0@ == k.0 && e.0.1@ == k.1 && e.0.2@ == k.2
                && e.1.0@ == c.0 && e.1.1@ == c.1,
            Err(col) => r matches Err(TransformError::FieldNotFound(f)) && f@ == col,
        },
{
    let inst = match need(row, "__instance_name") {
        Ok(v) => v,
        Err(e) => return Err(e),
    };
    let obj = match need(row, "__object_name") {
        Ok(v) => v,
        Err(e) => return Err(e),
    };
    let oinst = match need(row, "__object_instance") {
        Ok(v) => v,
        Err(e) => return Err(e),
    };
    let cname = match need(row, "counter_name") {
        Ok(v) => v,
        Err(e) => return Err(e),
    };
    let cval = match need(row, "cntr_value") {
        Ok(v) => v,
        Err(e) => return Err(e),
    };
    Ok(((trim_end_text(inst.as_str()), object_part(obj), trim_end_text(oinst.as_str())),
        (trim_end_text(cname.as_str()), cval.clone())))
}

/// The views of an object instance's names.
pub open spec fn key_view(k: (String, String, String)) -> ObjKey {
    (k.0@, k.1@, k.2@)
}

/// The group of an object instance, if there is one.
fn find_group(groups: &Vec<((String, String, String), Vec<(String, String)>)>, key: &(String, String, String)) -> (r: Option<usize>)
    ensures
        match r {
            Some(j) => j < groups@.len() && groups_view(groups@)[j as int].0 == key_view(*key),
            None => forall|x: int| 0 <= x < groups@.len() ==> (#[trigger] groups_view(groups@)[x]).0 != key_view(*key),
        },
{
    let mut j: usize = 0;
    while j < groups.len()
        invariant
            j <= groups@.len(),
            forall|x: int| 0 <= x < j ==> (#[trigger] groups_view(groups@)[x]).0 != key_view(*key),
        decreases groups.len() - j,
    {
        let g = &groups[j];
        if g.0.0 == key.0 && g.0.1 == key.1 && g.0.2 == key.2 {
            return Some(j);
        }
        j = j + 1;
    }
    None
}

/// A set of texts given as a sequence.
pub open spec fn names_set(names: Seq<Seq<char>>) -> Set<Seq<char>> {
    Set::new(|m: Seq<char>| names.contains(m))
}

/// The row of one object instance (see `perf_row`).
fn build_row(group: &((String, String, String), Vec<(String, String)>), names: &Vec<String>) -> (r: StrMap<String>)
    ensures
        texts_view(r) == perf_row(key_view(group.0), pairs_view(group.1@), names_set(strings_view(names@))),
{
    let mut m: StrMap<String> = StrMap::new();
    m.insert(String::from_str("__instance_name"), group.0.0.clone());
    m.insert(String::from_str("__object_name"), group.0.1.clone());
    m.insert(String::from_str("__object_instance"), group.0.2.clone());
    let ghost k = key_view(group.0);
    let ghost base = Map::<Seq<char>, Seq<char>>::empty().insert("__instance_name"@, k.0).insert("__object_name"@, k.1).insert("__object_instance"@, k.2);
    let ghost nv = strings_view(names@);
    proof {
        assert(texts_view(m) =~= base);
        assert(nv.take(0) =~= Seq::<Seq<char>>::empty());
        assert(base.union_prefer_right(Map::new(|x: Seq<char>| nv.take(0).contains(x), |x: Seq<char>| Seq::<char>::empty())) =~= base);
    }
    let mut q: usize = 0;
    while q < names.len()
        invariant
            q <= names@.len(),
            nv == strings_view(names@),
            texts_view(m) == base.union_prefer_right(Map::new(|x: Seq<char>| nv.take(q as int).contains(x), |x: Seq<char>| Seq::<char>::empty())),
        decreases names.len() - q,
    {
        let ghost before = texts_view(m);
        m.insert(names[q].clone(), String::new());
        proof {
            assert(nv.take(q as int + 1) =~= nv.take(q as int).push(nv[q as int]));
            lemma_push_contains(nv.take(q as int), nv[q as int]);
            assert(nv[q as int] == names@[q as int]@);
            assert(texts_view(m) =~= before.insert(names@[q as int]@, Seq::<char>::empty()));
            assert(texts_view(m) =~= base.union_prefer_right(Map::new(|x: Seq<char>| nv.take(q as int + 1).contains(x), |x: Seq<char>| Seq::<char>::empty())));
        }
        q = q + 1;
    }
    let ghost mid = texts_view(m);
    let ghost cs = pairs_view(group.1@);
    proof {
        assert(nv.take(q as int) =~= nv);
        assert(Map::new(|x: Seq<char>| nv.take(q as int).contains(x), |x: Seq<char>| Seq::<char>::empty())
            =~= Map::new(|n: Seq<char>| names_set(nv).contains(n), |n: Seq<char>| Seq::<char>::empty()));
        assert(cs.take(0) =~= Seq::<(Seq<char>, Seq<char>)>::empty());
        assert(mid.union_prefer_right(pairs_map(cs.take(0))) =~= mid);
    }
    let mut p: usize = 0;
    while p < group.1.len()
        invariant
            p <= group.1@.len(),
            cs == pairs_view(group.1@),
            texts_view(m) == mid.union_prefer_right(pairs_map(cs.take(p as int))),
        decreases group.1.len() - p,
    {
        let ghost before = texts_view(m);
        let e = &group.1[p];
        m.insert(e.0.clone(), e.1.clone());
        proof {
            assert(cs.take(p as int + 1).drop_last() =~= cs.take(p as int));
            assert(cs[p as int] == (e.0@, e.1@));
            assert(texts_view(m) =~= before.insert(e.0@, e.1@));
            assert(texts_view(m) =~= mid.union_prefer_right(pairs_map(cs.take(p as int + 1))));
        }
        p = p + 1;
    }
    proof {
        assert(cs.take(p as int) =~= cs);
    }
    m
}

/// Groups SQL Server performance counters into one row per object
/// instance (see `perf_of`).
pub fn transform_performance_counters(table: Vec<StrMap<String>>) -> (r: Result<Vec<StrMap<String>>, TransformError>)
    ensures
        match perf_of(table_view(table@)) {
            Ok(rows) => r matches Ok(t) && table_view(t@) == rows,
            Err(col) => r matches Err(TransformError::FieldNotFound(f)) && f@ == col,
        },
{
    let ghost rows = table_view(table@);
    let mut groups: Vec<((String, String, String), Vec<(String, String)>)> = Vec::new();
    let mut names: Vec<String> = Vec::new();
    let n = table.len();
    let mut i: usize = 0;
    proof {
        assert(rows.take(0) =~= Seq::<Map<Seq<char>, Seq<char>>>::empty());
        assert(groups_view(groups@) =~= Seq::<(ObjKey, Seq<(Seq<char>, Seq<char>)>)>::empty());
        assert forall|m: Seq<char>| #[trigger] perf_names(rows.take(0)).contains(m) == strings_view(names@).contains(m) by {
            if strings_view(names@).contains(m) {
                let x = choose|x: int| 0 <= x < strings_view(names@).len() && strings_view(names@)[x] == m;
            }
        }
    }
    while i < n
        invariant
            n == table@.len(),
            rows == table_view(table@),
            i <= n,
            perf_groups(rows.take(i as int)) == Ok::<_, Seq<char>>(groups_view(groups@)),
            keys_distinct(groups_view(groups@)),
            forall|m: Seq<char>| #[trigger] perf_names(rows.take(i as int)).contains(m) == strings_view(names@).contains(m),
        decreases n - i,
    {
        proof {
            assert(rows.take(i as int + 1).drop_last() =~= rows.take(i as int));
            assert(rows.take(i as int + 1).last() == rows[i as int]);
            assert(rows[i as int] == texts_view(table@[i as int]));
        }
        match row_entry(&table[i]) {
            Err(e) => {
                proof {
                    lemma_perf_err(rows, i as int + 1);
                }
                return Err(e);
            },
            Ok((key, counter)) => {
                let ghost g0 = groups_view(groups@);
                let ghost k = key_view(key);
                let ghost c = (counter.0@, counter.1@);
                let ghost nv0 = strings_view(names@);
                proof {
                    lemma_names_step(rows, i as int);
                }
                if !contains_string(&names, &counter.0) {
                    names.push(counter.0.clone());
                    proof {
                        assert(strings_view(names@) =~= nv0.push(c.0));
                        lemma_push_contains(nv0, c.0);
                    }
                }
                match find_group(&groups, &key) {
                    Some(j) => {
                        proof {
                            lemma_add_found(g0, k, c, j as int);
                        }
                        let mut e = groups.remove(j);
                        e.1.push(counter);
                        let ghost ev = (key_view(e.0), pairs_view(e.1@));
                        groups.insert(j, e);
                        proof {
                            assert(pairs_view(e.1@) =~= g0[j as int].1.push(c));
                            assert(groups_view(groups@) =~= g0.update(j as int, (k, g0[j as int].1.push(c))));
                        }
                    },
                    None => {
                        proof {
                            lemma_add_new(g0, k, c);
                        }
                        let mut cs: Vec<(String, String)> = Vec::new();
                        cs.push(counter);
                        groups.push((key, cs));
                        proof {
                            assert(pairs_view(cs@) =~= seq![c]);
                            assert(groups_view(groups@) =~= g0.push((k, seq![c])));
                        }
                    },
                }
            },
        }
        i = i + 1;
    }
    proof {
        assert(rows.take(n as int) =~= rows);
        assert(names_set(strings_view(names@)) =~= perf_names(rows));
    }
    let ghost gv = groups_view(groups@);
    let mut out: Vec<StrMap<String>> = Vec::new();
    let mut gi: usize = 0;
    while gi < groups.len()
        invariant
            gi <= groups@.len(),
            gv == groups_view(groups@),
            names_set(strings_view(names@)) == perf_names(rows),
            table_view(out@) == gv.take(gi as int).map_values(|e: (ObjKey, Seq<(Seq<char>, Seq<char>)>)| perf_row(e.0, e.1, perf_names(rows))),
        decreases groups.len() - gi,
    {
        let row = build_row(&groups[gi], &names);
        let ghost before = table_view(out@);
        let ghost rv = texts_view(row);
        out.push(row);
        proof {
            assert(table_view(out@) =~= before.push(rv));
            assert(rv == perf_row(gv[gi as int].0, gv[gi as int].1, perf_names(rows)));
            assert(gv[gi as int] == (key_view(groups@[gi as int].0), pairs_view(groups@[gi as int].1@)));
            assert(table_view(out@) =~= gv.take(gi as int + 1).map_values(|e: (ObjKey, Seq<(Seq<char>, Seq<char>)>)| perf_row(e.0, e.1, perf_names(rows))));
        }
        gi = gi + 1;
    }
    proof {
        assert(gv.take(gi as int) =~= gv);
    }
    Ok(out)
}

/// Each object instance has one group of counters: no two groups are of
/// the same instance.
pub proof fn law_one_group_per_instance(rows: Seq<Map<Seq<char>, Seq<char>>>)
    ensures
        match perf_groups(rows) {
            Ok(g) => keys_distinct(g),
            Err(_e) => true,
        },
    decreases rows.len(),
{
    if rows.len() > 0 {
        law_one_group_per_instance(rows.drop_last());
        if let Ok(g) = perf_groups(rows.drop_last()) {
            if let Ok((k, c)) = perf_entry(rows.last()) {
                if exists|j: int| 0 <= j < g.len() && (#[trigger] g[j]).0 == k {
                    let j = choose|j: int| 0 <= j < g.len() && (#[trigger] g[j]).0 == k;
                    lemma_add_found(g, k, c, j);
                } else {
                    lemma_add_new(g, k, c);
                }
            }
        }
    }
}

/// Every row of the grouped performance counters has the three instance
/// columns and a column for every counter of the table, so that no
/// counter is missing from a row of an object it does not apply to.
pub proof fn law_rows_have_every_counter(rows: Seq<Map<Seq<char>, Seq<char>>>)
    ensures
        match perf_of(rows) {
            Ok(out) => forall|i: int| 0 <= i < out.len() ==> {
                &&& (#[trigger] out[i]).contains_key("__instance_name"@)
                &&& out[i].contains_key("__object_name"@)
                &&& out[i].contains_key("__object_instance"@)
                &&& forall|n: Seq<char>| perf_names(rows).contains(n) ==> #[trigger] out[i].contains_key(n)
            },
            Err(_e) => true,
        },
{
    if let Ok(g) = perf_groups(rows) {
        let out = g.map_values(|e: (ObjKey, Seq<(Seq<char>, Seq<char>)>)| perf_row(e.0, e.1, perf_names(rows)));
        assert forall|i: int| 0 <= i < out.len() implies {
            &&& (#[trigger] out[i]).contains_key("__instance_name"@)
            &&& out[i].contains_key("__object_name"@)
            &&& out[i].contains_key("__object_instance"@)
            &&& forall|n: Seq<char>| perf_names(rows).contains(n) ==> #[trigger] out[i].contains_key(n)
        } by {
            assert(out[i] == perf_row(g[i].0, g[i].1, perf_names(rows)));
        }
    }
}

/// Which reshaping a flavour applies to the rows of a table.
pub enum Reshape {
    /// The rows stay as they are.
    Keep,
    /// Oracle statistics, pivoted into one row.
    Pivot,
    /// SQL Server performance counters, one row per object instance.
    PerObject,
}

/// The reshaping of a table: SQL Server's performance counter view is
/// grouped per object instance, Oracle's `V$SYSMETRIC` and `V$SYSSTAT`
/// are pivoted, everything else is kept.
pub open spec fn reshape_of(p: SqlPlugin, table_name: Seq<char>) -> Reshape {
    match p {
        SqlPlugin::Mssql => if table_name == "sys.dm_os_performance_counters"@ { Reshape::PerObject } else { Reshape::Keep },
        SqlPlugin::Oracle => if table_name == "V$SYSMETRIC"@ || table_name == "V$SYSSTAT"@ { Reshape::Pivot } else { Reshape::Keep },
        SqlPlugin::Odbc => Reshape::Keep,
    }
}

impl SqlPlugin {
    /// Reshapes the rows of a table as this flavour needs (see
    /// `reshape_of`, `pivot_of` and `perf_of`).
    pub fn transform_table(&self, spec: &TableSpec, table: Vec<StrMap<String>>) -> (r: Result<Vec<StrMap<String>>, TransformError>)
        ensures
            match reshape_of(*self, spec.sql_table_name@) {
                Reshape::Keep => r == Ok::<Vec<StrMap<String>>, TransformError>(table),
                Reshape::Pivot => match pivot_of(table_view(table@)) {
                    Ok(m) => r matches Ok(t) && t@.len() == 1 && texts_view(t@[0]) == m,
                    Err(e) => r matches Err(TransformError::FieldNotFound(c)) && c@ == e,
                },
                Reshape::PerObject => match perf_of(table_view(table@)) {
                    Ok(rows) => r matches Ok(t) && table_view(t@) == rows,
                    Err(col) => r matches Err(TransformError::FieldNotFound(f)) && f@ == col,
                },
            },
    {
        match self {
            SqlPlugin::Mssql => {
                let perf = String::from_str("sys.dm_os_performance_counters");
                if spec.sql_table_name == perf {
                    transform_performance_counters(table)
                } else {
                    Ok(table)
                }
            },
            SqlPlugin::Oracle => {
                let metric = String::from_str("V$SYSMETRIC");
                let stat = String::from_str("V$SYSSTAT");
                if spec.sql_table_name == metric || spec.sql_table_name == stat {
                    pivot_table(table)
                } else {
                    Ok(table)
                }
            },
            SqlPlugin::Odbc => Ok(table),
        }
    }
}

} // verus!
