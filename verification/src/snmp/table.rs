//! Building data tables out of walked columns: which columns feed which
//! fields, which rows there are, and the value of each cell.

use vstd::prelude::*;

use crate::common::data::{Data, DataError, DataErrorV, Value, ValueV, copy_data, data_view};
use super::counters::{Counters, counters_view, previous_reading, spec_counter_rate, with_reading};
use super::error::{WalkError, WalkWarning};
use super::index::{EntrySpec, Index, chain_ends, ids_view, index_view, spec_entry_index, values_view, index_values, index_scalars, implied_flags, index_defined, index_reads_fit};
use super::input::{Input, InputError, ObjectId, ObjectType, no_index_id, object_type};
use super::oid::{Oid, VarResult, oid_lt, in_table_spec};
use super::oidmap::OidMap;
use super::query::{WalkData, WalkMap, WalkRows};
use super::rows::{row_ids, strictly_ascending, oids_view, row_id_set, lemma_oid_lt_irreflexive};
use super::scalar::{Conversion, ScalarSpec, bit_positions, spec_conversion};

verus! {

/// Why a table could not be built.
pub enum BuildError {
    /// A requested field or table does not name a suitable object.
    Input(InputError),
    /// Data was not collected for a column (it was not requested).
    NotRequested(Oid),
    /// The index values of a row cannot be read without running past the
    /// end of its OID.
    IndexOverrun(Oid),
    /// A folded table with rows declares a fold of zero columns.
    ZeroFold,
    /// A row of a folded table has index 0 (rows are numbered from 1).
    ZeroRowIndex(Oid),
    /// A table entry augments itself, directly or through other entries.
    AugmentsCycle(String),
}

/// Where the values of a requested field come from.
pub enum SourceV {
    /// An index object of the table.
    Index(Seq<char>),
    /// A walked column with rows: the field's object and the column OID.
    Column(Seq<char>, Seq<u64>),
    /// A walked column that failed.
    Failed(Seq<u64>, WalkError),
}

/// The source of the field `f`, or why there is none.
pub enum SourceResult {
    Found(SourceV),
    Missing(Seq<char>),
    InvalidFieldId(Seq<char>),
    NotRequested(Seq<u64>),
}

/// `f` is one of the index objects.
pub open spec fn in_index(ix: Index, f: Seq<char>) -> bool {
    ids_view(ix.vars@).contains(f) || (ix.implied matches Some(i) && i@ == f)
}

/// The source of a requested field: an index object, or the walked column
/// of its object; the object must be a defined scalar and its column must
/// have been walked.
pub open spec fn field_source(input: Input, ix: Index, data: Map<Seq<u64>, WalkData>, f: Seq<char>) -> SourceResult {
    match object_type(input, f) {
        None => SourceResult::Missing(f),
        Some(ObjectType::Scalar) => if in_index(ix, f) {
            SourceResult::Found(SourceV::Index(f))
        } else {
            let oid = input.objects@[f].oid@;
            if !data.contains_key(oid) {
                SourceResult::NotRequested(oid)
            } else {
                match data[oid] {
                    Ok(_) => SourceResult::Found(SourceV::Column(f, oid)),
                    Err(e) => SourceResult::Found(SourceV::Failed(oid, e)),
                }
            }
        },
        Some(_) => SourceResult::InvalidFieldId(f),
    }
}

/// Views of the requested fields.
pub open spec fn fields_view(fields: Seq<String>) -> Seq<Seq<char>> {
    fields.map_values(|f: String| f@)
}

/// The sources of all fields, when each has one.
pub open spec fn all_found(input: Input, ix: Index, data: Map<Seq<u64>, WalkData>, fields: Seq<Seq<char>>) -> bool {
    forall|q: int| 0 <= q < fields.len() ==> (#[trigger] field_source(input, ix, data, fields[q])) is Found
}

/// The source of field `q`.
pub open spec fn source_of(input: Input, ix: Index, data: Map<Seq<u64>, WalkData>, f: Seq<char>) -> SourceV {
    match field_source(input, ix, data, f) {
        SourceResult::Found(s) => s,
        _ => SourceV::Failed(Seq::empty(), WalkError::NoSuchObject),
    }
}

/// The rows walked for a column.
pub open spec fn column_rows(data: Map<Seq<u64>, WalkData>, oid: Seq<u64>) -> Map<Seq<u64>, VarResult> {
    match data[oid] {
        Ok(r) => r.value@,
        Err(_) => Map::empty(),
    }
}

/// The warnings of a column with rows.
pub open spec fn column_warnings(data: Map<Seq<u64>, WalkData>, oid: Seq<u64>) -> Seq<WalkWarning> {
    match data[oid] {
        Ok(r) => r.warnings@,
        Err(_) => Seq::empty(),
    }
}

/// The value of an index object among the index values of a row: the last
/// one read for it, or missing.
pub open spec fn index_cell(vals: Seq<(Seq<char>, Result<ValueV, DataErrorV>)>, obj: Seq<char>) -> Result<ValueV, DataErrorV>
    decreases vals.len(),
{
    if vals.len() == 0 {
        Err(DataErrorV::Missing)
    } else if vals.last().0 == obj {
        vals.last().1
    } else {
        index_cell(vals.drop_last(), obj)
    }
}

/// The counter reading a cell makes, if its column is a counter.
pub open spec fn cell_reading(input: Input, data: Map<Seq<u64>, WalkData>, s: SourceV, rid: Seq<u64>) -> Option<u64> {
    match s {
        SourceV::Column(f, oid) => {
            let rows = column_rows(data, oid);
            if rows.contains_key(rid) {
                match spec_conversion(input.scalars@[f], rows[rid]) {
                    Conversion::Counter(v) => Some(v),
                    _ => None,
                }
            } else {
                None
            }
        },
        _ => None,
    }
}

/// The value of a cell: of an index object, read from the row's index; of
/// a column, converted from the value walked at the row (a counter yields
/// its rate since the reading in `prev`); missing otherwise.
pub open spec fn cell_value(
    input: Input,
    data: Map<Seq<u64>, WalkData>,
    s: SourceV,
    rid: Seq<u64>,
    ixvals: Seq<(Seq<char>, Result<ValueV, DataErrorV>)>,
    prev: Map<Seq<char>, Map<Seq<u64>, (u128, u64)>>,
    now: u128,
) -> Result<ValueV, DataErrorV> {
    match s {
        SourceV::Index(f) => index_cell(ixvals, f),
        SourceV::Column(f, oid) => {
            let rows = column_rows(data, oid);
            if rows.contains_key(rid) {
                match spec_conversion(input.scalars@[f], rows[rid]) {
                    Conversion::Plain(d) => d,
                    Conversion::Counter(v) => spec_counter_rate(previous_reading(prev, f, rid), v, now),
                    Conversion::Skip => Err(DataErrorV::Missing),
                }
            } else {
                Err(DataErrorV::Missing)
            }
        },
        SourceV::Failed(_, _) => Err(DataErrorV::Missing),
    }
}

/// Counter readings, applied in order.
pub open spec fn apply_readings(m: Map<Seq<char>, Map<Seq<u64>, (u128, u64)>>, rs: Seq<(Seq<char>, Seq<u64>, u64)>, now: u128) -> Map<Seq<char>, Map<Seq<u64>, (u128, u64)>>
    decreases rs.len(),
{
    if rs.len() == 0 {
        m
    } else {
        let r = rs.last();
        with_reading(apply_readings(m, rs.drop_last(), now), r.0, r.1, (now, r.2))
    }
}

/// The counter readings of one row, in field order.
pub open spec fn row_readings(input: Input, data: Map<Seq<u64>, WalkData>, srcs: Seq<SourceV>, rid: Seq<u64>) -> Seq<(Seq<char>, Seq<u64>, u64)>
    decreases srcs.len(),
{
    if srcs.len() == 0 {
        Seq::empty()
    } else {
        let rest = row_readings(input, data, srcs.drop_last(), rid);
        match (srcs.last(), cell_reading(input, data, srcs.last(), rid)) {
            (SourceV::Column(f, _), Some(v)) => rest.push((f, rid, v)),
            _ => rest,
        }
    }
}

/// The counter readings of the rows, in row order.
pub open spec fn table_readings(input: Input, data: Map<Seq<u64>, WalkData>, srcs: Seq<SourceV>, rids: Seq<Seq<u64>>) -> Seq<(Seq<char>, Seq<u64>, u64)>
    decreases rids.len(),
{
    if rids.len() == 0 {
        Seq::empty()
    } else {
        table_readings(input, data, srcs, rids.drop_last()) + row_readings(input, data, srcs, rids.last())
    }
}

/// Readings for other counters leave the reading of a counter as it was.
proof fn lemma_readings_elsewhere(m: Map<Seq<char>, Map<Seq<u64>, (u128, u64)>>, rs: Seq<(Seq<char>, Seq<u64>, u64)>, now: u128, o: Seq<char>, i: Seq<u64>)
    requires
        forall|k: int| 0 <= k < rs.len() ==> !((#[trigger] rs[k]).0 == o && rs[k].1 == i),
    ensures
        previous_reading(apply_readings(m, rs, now), o, i) == previous_reading(m, o, i),
    decreases rs.len(),
{
    if rs.len() > 0 {
        lemma_readings_elsewhere(m, rs.drop_last(), now, o, i);
        assert(!(rs[rs.len() - 1].0 == o && rs[rs.len() - 1].1 == i));
    }
}

proof fn lemma_apply_concat(m: Map<Seq<char>, Map<Seq<u64>, (u128, u64)>>, a: Seq<(Seq<char>, Seq<u64>, u64)>, b: Seq<(Seq<char>, Seq<u64>, u64)>, now: u128)
    ensures
        apply_readings(m, a + b, now) == apply_readings(apply_readings(m, a, now), b, now),
    decreases b.len(),
{
    if b.len() == 0 {
        assert(a + b =~= a);
    } else {
        lemma_apply_concat(m, a, b.drop_last(), now);
        assert((a + b).drop_last() =~= a + b.drop_last());
    }
}

/// Every reading of a row is at that row.
proof fn lemma_row_readings_at(input: Input, data: Map<Seq<u64>, WalkData>, srcs: Seq<SourceV>, rid: Seq<u64>)
    ensures
        forall|k: int| 0 <= k < row_readings(input, data, srcs, rid).len() ==> (#[trigger] row_readings(input, data, srcs, rid)[k]).1 == rid,
    decreases srcs.len(),
{
    if srcs.len() > 0 {
        lemma_row_readings_at(input, data, srcs.drop_last(), rid);
        let rest = row_readings(input, data, srcs.drop_last(), rid);
        let all = row_readings(input, data, srcs, rid);
        assert forall|k: int| 0 <= k < all.len() implies (#[trigger] all[k]).1 == rid by {
            if k < rest.len() {
                assert(all[k] == rest[k]);
            }
        }
    }
}

/// The source of a requested field, with what it refers to.
pub enum Source<'a> {
    Index(ObjectId),
    Column(ObjectId, Oid, &'a WalkRows),
    Failed(Oid, WalkError),
}

/// View of a source.
pub open spec fn source_view(s: Source) -> SourceV {
    match s {
        Source::Index(o) => SourceV::Index(o@),
        Source::Column(o, oid, _) => SourceV::Column(o@, oid@),
        Source::Failed(oid, e) => SourceV::Failed(oid@, e),
    }
}

/// The sources of the fields, in order.
pub open spec fn sources_view(input: Input, ix: Index, data: Map<Seq<u64>, WalkData>, fields: Seq<Seq<char>>) -> Seq<SourceV> {
    fields.map_values(|f: Seq<char>| source_of(input, ix, data, f))
}

/// Sources agree with the spec, and columns refer to their walked rows.
pub open spec fn sources_match(srcs: Seq<Source>, input: Input, ix: Index, data: Map<Seq<u64>, WalkData>, fields: Seq<Seq<char>>) -> bool {
    &&& srcs.len() == fields.len()
    &&& forall|q: int| 0 <= q < srcs.len() ==> source_view(#[trigger] srcs[q]) == source_of(input, ix, data, fields[q])
    &&& forall|q: int| 0 <= q < srcs.len() ==> ((#[trigger] srcs[q]) matches Source::Column(_, oid, rows) ==> data[oid@] == Ok::<WalkRows, WalkError>(*rows))
}

/// The first field without a source is `q`, and `e` says why.
pub open spec fn first_unsourced(input: Input, ix: Index, data: Map<Seq<u64>, WalkData>, fields: Seq<Seq<char>>, q: int, e: BuildError) -> bool {
    &&& 0 <= q < fields.len()
    &&& forall|p: int| 0 <= p < q ==> (#[trigger] field_source(input, ix, data, fields[p])) is Found
    &&& match field_source(input, ix, data, fields[q]) {
        SourceResult::Missing(m) => e matches BuildError::Input(InputError::Missing(x)) && x@ == m,
        SourceResult::InvalidFieldId(m) => e matches BuildError::Input(InputError::InvalidFieldId(x)) && x@ == m,
        SourceResult::NotRequested(o) => e matches BuildError::NotRequested(x) && x@ == o,
        SourceResult::Found(_) => false,
    }
}

/// Finds the source of each requested field (see `field_source`).
pub fn classify<'a>(fields: &Vec<String>, input: &Input, ix: &Index, data: &'a WalkMap) -> (r: Result<Vec<Source<'a>>, BuildError>)
    ensures
        match r {
            Ok(srcs) => all_found(*input, *ix, data@, fields_view(fields@)) && sources_match(srcs@, *input, *ix, data@, fields_view(fields@)),
            Err(e) => exists|q: int| first_unsourced(*input, *ix, data@, fields_view(fields@), q, e),
        },
{
    let ghost fv = fields_view(fields@);
    let mut srcs: Vec<Source<'a>> = Vec::new();
    let mut q: usize = 0;
    while q < fields.len()
        invariant
            q <= fields.len(),
            fv == fields_view(fields@),
            srcs@.len() == q,
            forall|p: int| 0 <= p < q ==> (#[trigger] field_source(*input, *ix, data@, fv[p])) is Found,
            forall|p: int| 0 <= p < q ==> source_view(#[trigger] srcs@[p]) == source_of(*input, *ix, data@, fv[p]),
            forall|p: int| 0 <= p < q ==> ((#[trigger] srcs@[p]) matches Source::Column(_, oid, rows) ==> data@[oid@] == Ok::<WalkRows, WalkError>(*rows)),
        decreases fields.len() - q,
    {
        let f = &fields[q];
        assert(fv[q as int] == f@);
        let obj = match ObjectId::from_field_id(f, input) {
            Ok(o) => o,
            Err(e) => {
                let r = BuildError::Input(e);
                proof {
                    assert(first_unsourced(*input, *ix, data@, fv, q as int, r));
                }
                return Err(r);
            },
        };
        if ix.contains(&obj) {
            srcs.push(Source::Index(obj));
        } else {
            let object = match input.objects.get(f) {
                Some(o) => o,
                None => {
                    return Err(BuildError::Input(InputError::Missing(f.clone())));
                },
            };
            match data.get(&object.oid) {
                None => {
                    let r = BuildError::NotRequested(object.oid.copy());
                    proof {
                        assert(first_unsourced(*input, *ix, data@, fv, q as int, r));
                    }
                    return Err(r);
                },
                Some(Ok(rows)) => {
                    srcs.push(Source::Column(obj, object.oid.copy(), rows));
                },
                Some(Err(e)) => {
                    srcs.push(Source::Failed(object.oid.copy(), *e));
                },
            }
        }
        q = q + 1;
    }
    Ok(srcs)
}

/// The errors of the failed columns among the sources.
pub open spec fn error_notes(srcs: Seq<SourceV>) -> Set<(WalkError, Seq<u64>)> {
    Set::new(|p: (WalkError, Seq<u64>)| exists|q: int| 0 <= q < srcs.len() && #[trigger] srcs[q] == SourceV::Failed(p.1, p.0))
}

/// The warnings of the columns with rows among the sources.
pub open spec fn warning_notes(data: Map<Seq<u64>, WalkData>, srcs: Seq<SourceV>) -> Set<(WalkWarning, Seq<u64>)> {
    Set::new(|p: (WalkWarning, Seq<u64>)| exists|q: int| 0 <= q < srcs.len() && (#[trigger] srcs[q] matches SourceV::Column(_, oid) && oid == p.1 && column_warnings(data, oid).contains(p.0)))
}

/// Views of (note, column) pairs.
pub open spec fn notes_view<E>(v: Seq<(E, Oid)>) -> Seq<(E, Seq<u64>)> {
    v.map_values(|p: (E, Oid)| (p.0, p.1@))
}

/// The errors of failed columns and the warnings of columns with rows,
/// each with its column.
fn notes(srcs: &Vec<Source>, Ghost(data): Ghost<Map<Seq<u64>, WalkData>>) -> (r: (Vec<(WalkError, Oid)>, Vec<(WalkWarning, Oid)>))
    requires
        forall|q: int| 0 <= q < srcs@.len() ==> ((#[trigger] srcs@[q]) matches Source::Column(_, oid, rows) ==> data[oid@] == Ok::<WalkRows, WalkError>(*rows)),
    ensures
        notes_view(r.0@).to_set() == error_notes(srcs@.map_values(|s: Source| source_view(s))),
        notes_view(r.1@).to_set() == warning_notes(data, srcs@.map_values(|s: Source| source_view(s))),
{
    let ghost sv = srcs@.map_values(|s: Source| source_view(s));
    let mut errors: Vec<(WalkError, Oid)> = Vec::new();
    let mut warnings: Vec<(WalkWarning, Oid)> = Vec::new();
    let mut q: usize = 0;
    while q < srcs.len()
        invariant
            q <= srcs@.len(),
            sv == srcs@.map_values(|s: Source| source_view(s)),
            forall|q: int| 0 <= q < srcs@.len() ==> ((#[trigger] srcs@[q]) matches Source::Column(_, oid, rows) ==> data[oid@] == Ok::<WalkRows, WalkError>(*rows)),
            notes_view(errors@).to_set() == error_notes(sv.take(q as int)),
            notes_view(warnings@).to_set() == warning_notes(data, sv.take(q as int)),
        decreases srcs.len() - q,
    {
        let ghost e0 = notes_view(errors@);
        let ghost w0 = notes_view(warnings@);
        let ghost pre = sv.take(q as int);
        let ghost cur = sv.take(q + 1);
        proof {
            assert(cur =~= pre.push(sv[q as int]));
            assert(sv[q as int] == source_view(srcs@[q as int]));
        }
        match &srcs[q] {
            Source::Index(_) => {
                proof {
                    assert(error_notes(cur) =~= error_notes(pre)) by {
                        assert forall|p: (WalkError, Seq<u64>)| error_notes(cur).contains(p) implies error_notes(pre).contains(p) by {
                            let k = choose|k: int| 0 <= k < cur.len() && #[trigger] cur[k] == SourceV::Failed(p.1, p.0);
                            assert(cur[k] == pre[k]);
                        }
                        assert forall|p: (WalkError, Seq<u64>)| error_notes(pre).contains(p) implies error_notes(cur).contains(p) by {
                            let k = choose|k: int| 0 <= k < pre.len() && #[trigger] pre[k] == SourceV::Failed(p.1, p.0);
                            assert(cur[k] == pre[k]);
                        }
                    }
                    assert(warning_notes(data, cur) =~= warning_notes(data, pre)) by {
                        assert forall|p: (WalkWarning, Seq<u64>)| warning_notes(data, cur).contains(p) implies warning_notes(data, pre).contains(p) by {
                            let k = choose|k: int| 0 <= k < cur.len() && (#[trigger] cur[k] matches SourceV::Column(_, oid) && oid == p.1 && column_warnings(data, oid).contains(p.0));
                            assert(cur[k] == pre[k]);
                        }
                        assert forall|p: (WalkWarning, Seq<u64>)| warning_notes(data, pre).contains(p) implies warning_notes(data, cur).contains(p) by {
                            let k = choose|k: int| 0 <= k < pre.len() && (#[trigger] pre[k] matches SourceV::Column(_, oid) && oid == p.1 && column_warnings(data, oid).contains(p.0));
                            assert(cur[k] == pre[k]);
                        }
                    }
                }
            },
            Source::Failed(oid, e) => {
                errors.push((*e, oid.copy()));
                proof {
                    assert(notes_view(errors@) =~= e0.push((*e, oid@)));
                    assert(error_notes(cur) =~= error_notes(pre).insert((*e, oid@))) by {
                        assert forall|p: (WalkError, Seq<u64>)| error_notes(cur).contains(p) implies error_notes(pre).insert((*e, oid@)).contains(p) by {
                            let k = choose|k: int| 0 <= k < cur.len() && #[trigger] cur[k] == SourceV::Failed(p.1, p.0);
                            if k < q {
                                assert(cur[k] == pre[k]);
                            }
                        }
                        assert forall|p: (WalkError, Seq<u64>)| error_notes(pre).insert((*e, oid@)).contains(p) implies error_notes(cur).contains(p) by {
                            if p == (*e, oid@) {
                                assert(cur[q as int] == SourceV::Failed(p.1, p.0));
                            } else {
                                let k = choose|k: int| 0 <= k < pre.len() && #[trigger] pre[k] == SourceV::Failed(p.1, p.0);
                                assert(cur[k] == pre[k]);
                            }
                        }
                    }
                    assert(e0.push((*e, oid@)).to_set() =~= e0.to_set().insert((*e, oid@))) by {
                        assert forall|x: (WalkError, Seq<u64>)| e0.push((*e, oid@)).to_set().contains(x) implies e0.to_set().insert((*e, oid@)).contains(x) by {
                            let ep = e0.push((*e, oid@));
                            let k = choose|k: int| 0 <= k < ep.len() && #[trigger] ep[k] == x;
                            if k < e0.len() {
                                assert(e0[k] == x);
                            }
                        }
                        assert forall|x: (WalkError, Seq<u64>)| e0.to_set().insert((*e, oid@)).contains(x) implies e0.push((*e, oid@)).to_set().contains(x) by {
                            if x == (*e, oid@) {
                                assert(e0.push((*e, oid@))[e0.len() as int] == x);
                            } else {
                                let k = choose|k: int| 0 <= k < e0.len() && #[trigger] e0[k] == x;
                                assert(e0.push((*e, oid@))[k] == x);
                            }
                        }
                    }
                    assert(warning_notes(data, cur) =~= warning_notes(data, pre)) by {
                        assert forall|p: (WalkWarning, Seq<u64>)| warning_notes(data, cur).contains(p) implies warning_notes(data, pre).contains(p) by {
                            let k = choose|k: int| 0 <= k < cur.len() && (#[trigger] cur[k] matches SourceV::Column(_, oid) && oid == p.1 && column_warnings(data, oid).contains(p.0));
                            assert(cur[k] == pre[k]);
                        }
                        assert forall|p: (WalkWarning, Seq<u64>)| warning_notes(data, pre).contains(p) implies warning_notes(data, cur).contains(p) by {
                            let k = choose|k: int| 0 <= k < pre.len() && (#[trigger] pre[k] matches SourceV::Column(_, oid) && oid == p.1 && column_warnings(data, oid).contains(p.0));
                            assert(cur[k] == pre[k]);
                        }
                    }
                }
            },
            Source::Column(_, oid, rows) => {
                let ghost cw = rows.warnings@;
                proof {
                    assert(column_warnings(data, oid@) == cw);
                }
                let mut k: usize = 0;
                while k < rows.warnings.len()
                    invariant
                        k <= rows.warnings@.len(),
                        cw == rows.warnings@,
                        notes_view(warnings@).to_set() == w0.to_set() + Set::new(|p: (WalkWarning, Seq<u64>)| p.1 == oid@ && cw.take(k as int).contains(p.0)),
                    decreases rows.warnings.len() - k,
                {
                    let ghost wb = notes_view(warnings@);
                    warnings.push((rows.warnings[k], oid.copy()));
                    proof {
                        let w = rows.warnings@[k as int];
                        assert(notes_view(warnings@) =~= wb.push((w, oid@)));
                        assert(cw.take(k + 1) =~= cw.take(k as int).push(w));
                        let s_old = Set::new(|p: (WalkWarning, Seq<u64>)| p.1 == oid@ && cw.take(k as int).contains(p.0));
                        let s_new = Set::new(|p: (WalkWarning, Seq<u64>)| p.1 == oid@ && cw.take(k + 1).contains(p.0));
                        assert(s_new =~= s_old.insert((w, oid@))) by {
                            assert forall|p: (WalkWarning, Seq<u64>)| s_new.contains(p) implies s_old.insert((w, oid@)).contains(p) by {
                                let t1 = cw.take(k + 1);
                                let j = choose|j: int| 0 <= j < t1.len() && #[trigger] t1[j] == p.0;
                                if j < k {
                                    assert(cw.take(k as int)[j] == p.0);
                                }
                            }
                            assert forall|p: (WalkWarning, Seq<u64>)| s_old.insert((w, oid@)).contains(p) implies s_new.contains(p) by {
                                if p == (w, oid@) {
                                    assert(cw.take(k + 1)[k as int] == w);
                                } else {
                                    let t0 = cw.take(k as int);
                                    let j = choose|j: int| 0 <= j < t0.len() && #[trigger] t0[j] == p.0;
                                    assert(cw.take(k + 1)[j] == p.0);
                                }
                            }
                        }
                        assert(wb.push((w, oid@)).to_set() =~= wb.to_set().insert((w, oid@))) by {
                            assert forall|x: (WalkWarning, Seq<u64>)| wb.push((w, oid@)).to_set().contains(x) implies wb.to_set().insert((w, oid@)).contains(x) by {
                                let wp = wb.push((w, oid@));
                                let j = choose|j: int| 0 <= j < wp.len() && #[trigger] wp[j] == x;
                                if j < wb.len() {
                                    assert(wb[j] == x);
                                }
                            }
                            assert forall|x: (WalkWarning, Seq<u64>)| wb.to_set().insert((w, oid@)).contains(x) implies wb.push((w, oid@)).to_set().contains(x) by {
                                if x == (w, oid@) {
                                    assert(wb.push((w, oid@))[wb.len() as int] == x);
                                } else {
                                    let j = choose|j: int| 0 <= j < wb.len() && #[trigger] wb[j] == x;
                                    assert(wb.push((w, oid@))[j] == x);
                                }
                            }
                        }
                        assert(notes_view(warnings@).to_set() =~= w0.to_set() + s_new);
                    }
                    k = k + 1;
                }
                proof {
                    assert(cw.take(k as int) =~= cw);
                    let s_col = Set::new(|p: (WalkWarning, Seq<u64>)| p.1 == oid@ && cw.take(k as int).contains(p.0));
                    assert(error_notes(cur) =~= error_notes(pre)) by {
                        assert forall|p: (WalkError, Seq<u64>)| error_notes(cur).contains(p) implies error_notes(pre).contains(p) by {
                            let j = choose|j: int| 0 <= j < cur.len() && #[trigger] cur[j] == SourceV::Failed(p.1, p.0);
                            assert(cur[j] == pre[j]);
                        }
                        assert forall|p: (WalkError, Seq<u64>)| error_notes(pre).contains(p) implies error_notes(cur).contains(p) by {
                            let j = choose|j: int| 0 <= j < pre.len() && #[trigger] pre[j] == SourceV::Failed(p.1, p.0);
                            assert(cur[j] == pre[j]);
                        }
                    }
                    assert(warning_notes(data, cur) =~= warning_notes(data, pre) + s_col) by {
                        assert forall|p: (WalkWarning, Seq<u64>)| warning_notes(data, cur).contains(p) implies (warning_notes(data, pre) + s_col).contains(p) by {
                            let j = choose|j: int| 0 <= j < cur.len() && (#[trigger] cur[j] matches SourceV::Column(_, o) && o == p.1 && column_warnings(data, o).contains(p.0));
                            if j < q {
                                assert(cur[j] == pre[j]);
                            }
                        }
                        assert forall|p: (WalkWarning, Seq<u64>)| (warning_notes(data, pre) + s_col).contains(p) implies warning_notes(data, cur).contains(p) by {
                            if warning_notes(data, pre).contains(p) {
                                let j = choose|j: int| 0 <= j < pre.len() && (#[trigger] pre[j] matches SourceV::Column(_, o) && o == p.1 && column_warnings(data, o).contains(p.0));
                                assert(cur[j] == pre[j]);
                            } else {
                                assert(cur[q as int] matches SourceV::Column(_, o) && o == p.1 && column_warnings(data, o).contains(p.0));
                            }
                        }
                    }
                }
            },
        }
        q = q + 1;
    }
    proof {
        assert(sv.take(q as int) =~= sv);
    }
    (errors, warnings)
}

/// Views of index values, with their objects.
pub open spec fn ixvals_view(v: Seq<(ObjectId, Data)>) -> Seq<(Seq<char>, Result<ValueV, DataErrorV>)> {
    v.map_values(|p: (ObjectId, Data)| (p.0@, data_view(p.1)))
}

/// The requested fields are distinct.
pub open spec fn distinct_fields(fields: Seq<String>) -> bool {
    forall|p: int, q: int| 0 <= p < q < fields.len() ==> (#[trigger] fields[p])@ != (#[trigger] fields[q])@
}

/// Scalars of the input have bit positions for value lists.
pub open spec fn bit_lists_valid(input: Input) -> bool {
    forall|k: Seq<char>| #[trigger] input.scalars@.contains_key(k) ==> bit_positions(input.scalars@[k].value_list)
}

/// A column source names its field's object.
proof fn lemma_source_field(input: Input, ix: Index, data: Map<Seq<u64>, WalkData>, f: Seq<char>)
    ensures
        source_of(input, ix, data, f) matches SourceV::Column(o, _) ==> o == f,
{
}

/// The counter readings of a row are of the column objects among its sources.
proof fn lemma_row_readings_objects(input: Input, data: Map<Seq<u64>, WalkData>, srcs: Seq<SourceV>, rid: Seq<u64>, o: Seq<char>)
    requires
        forall|p: int| 0 <= p < srcs.len() ==> !(#[trigger] srcs[p] matches SourceV::Column(f, _) && f == o),
    ensures
        forall|k: int| 0 <= k < row_readings(input, data, srcs, rid).len() ==> (#[trigger] row_readings(input, data, srcs, rid)[k]).0 != o,
    decreases srcs.len(),
{
    if srcs.len() > 0 {
        let pre = srcs.drop_last();
        assert forall|p: int| 0 <= p < pre.len() implies !(#[trigger] pre[p] matches SourceV::Column(f, _) && f == o) by {
            assert(pre[p] == srcs[p]);
        }
        lemma_row_readings_objects(input, data, pre, rid, o);
        let rest = row_readings(input, data, pre, rid);
        let all = row_readings(input, data, srcs, rid);
        assert forall|k: int| 0 <= k < all.len() implies (#[trigger] all[k]).0 != o by {
            if k < rest.len() {
                assert(all[k] == rest[k]);
            } else {
                assert(srcs[srcs.len() - 1] == srcs.last());
            }
        }
    }
}

/// Builds the cells of one row, in field order (see `cell_value`); the
/// counters get the readings of the row.
fn build_row(
    fields: &Vec<String>,
    srcs: &Vec<Source>,
    scalars: &Vec<Option<&ScalarSpec>>,
    ixvals: &Vec<(ObjectId, Data)>,
    rid: &Oid,
    input: &Input,
    counters: &mut Counters,
    now: u128,
    Ghost(data): Ghost<Map<Seq<u64>, WalkData>>,
    Ghost(c0): Ghost<Map<Seq<char>, Map<Seq<u64>, (u128, u64)>>>,
) -> (row: Vec<(String, Data)>)
    requires
        srcs@.len() == fields@.len(),
        scalars@.len() == fields@.len(),
        distinct_fields(fields@),
        bit_lists_valid(*input),
        forall|q: int| 0 <= q < srcs@.len() ==> ((#[trigger] srcs@[q]) matches Source::Column(o, oid, rows) ==> {
            &&& data[oid@] == Ok::<WalkRows, WalkError>(*rows)
            &&& o@ == fields@[q]@
            &&& scalars@[q] matches Some(sc) && input.scalars@.contains_key(o@) && *sc == input.scalars@[o@]
            &&& previous_reading(counters_view(*old(counters)), o@, rid@) == previous_reading(c0, o@, rid@)
        }),
    ensures
        row@.len() == fields@.len(),
        forall|q: int| 0 <= q < row@.len() ==> (#[trigger] row@[q]).0@ == fields@[q]@,
        forall|q: int| 0 <= q < row@.len() ==> data_view((#[trigger] row@[q]).1)
            == cell_value(*input, data, source_view(srcs@[q]), rid@, ixvals_view(ixvals@), c0, now),
        counters_view(*final(counters)) == apply_readings(counters_view(*old(counters)),
            row_readings(*input, data, srcs@.map_values(|s: Source| source_view(s)), rid@), now),
{
    let ghost sv = srcs@.map_values(|s: Source| source_view(s));
    let ghost m0 = counters_view(*counters);
    let mut row: Vec<(String, Data)> = Vec::new();
    let mut q: usize = 0;
    while q < srcs.len()
        invariant
            q <= srcs@.len(),
            srcs@.len() == fields@.len(),
            scalars@.len() == fields@.len(),
            sv == srcs@.map_values(|s: Source| source_view(s)),
            distinct_fields(fields@),
            bit_lists_valid(*input),
            forall|q: int| 0 <= q < srcs@.len() ==> ((#[trigger] srcs@[q]) matches Source::Column(o, oid, rows) ==> {
                &&& data[oid@] == Ok::<WalkRows, WalkError>(*rows)
                &&& o@ == fields@[q]@
                &&& scalars@[q] matches Some(sc) && input.scalars@.contains_key(o@) && *sc == input.scalars@[o@]
                &&& previous_reading(m0, o@, rid@) == previous_reading(c0, o@, rid@)
            }),
            row@.len() == q,
            forall|p: int| 0 <= p < q ==> (#[trigger] row@[p]).0@ == fields@[p]@,
            forall|p: int| 0 <= p < q ==> data_view((#[trigger] row@[p]).1)
                == cell_value(*input, data, source_view(srcs@[p]), rid@, ixvals_view(ixvals@), c0, now),
            counters_view(*counters) == apply_readings(m0, row_readings(*input, data, sv.take(q as int), rid@), now),
        decreases srcs.len() - q,
    {
        let ghost pre = sv.take(q as int);
        let ghost cur_m = counters_view(*counters);
        proof {
            assert(sv.take(q + 1).drop_last() =~= pre);
            assert(sv.take(q + 1).last() == sv[q as int]);
            assert(sv[q as int] == source_view(srcs@[q as int]));
        }
        let cell: Data = match &srcs[q] {
            Source::Index(o) => {
                /* The last value read for the object. */
                let ghost all = ixvals_view(ixvals@);
                let mut k = ixvals.len();
                let mut found: Option<usize> = None;
                proof {
                    assert(all.take(k as int) =~= all);
                }
                while k > 0 && found.is_none()
                    invariant
                        k <= ixvals@.len(),
                        all == ixvals_view(ixvals@),
                        match found {
                            None => index_cell(all, o@) == index_cell(all.take(k as int), o@),
                            Some(j) => j < ixvals@.len() && index_cell(all, o@) == data_view(ixvals@[j as int].1),
                        },
                    decreases k,
                {
                    let ghost t = all.take(k as int);
                    proof {
                        assert(t.drop_last() =~= all.take(k - 1));
                        assert(t.last() == (ixvals@[k - 1].0@, data_view(ixvals@[k - 1].1)));
                    }
                    if ixvals[k - 1].0.same(o) {
                        found = Some(k - 1);
                    }
                    k = k - 1;
                }
                match found {
                    Some(j) => copy_data(&ixvals[j].1),
                    None => {
                        proof {
                            assert(all.take(0) =~= Seq::<(Seq<char>, Result<ValueV, DataErrorV>)>::empty());
                        }
                        Err(DataError::Missing)
                    },
                }
            },
            Source::Failed(_, _) => Err(DataError::Missing),
            Source::Column(o, oid, rows) => {
                let sc = match scalars[q] {
                    Some(sc) => sc,
                    None => {
                        return row;
                    },
                };
                proof {
                    lemma_row_readings_objects(*input, data, pre, rid@, o@);
                    assert forall|p: int| 0 <= p < pre.len() implies !(#[trigger] pre[p] matches SourceV::Column(f, _) && f == o@) by {
                        assert(pre[p] == source_view(srcs@[p]));
                        match srcs@[p] {
                            Source::Column(op, _, _) => {
                                assert(op@ == fields@[p]@);
                                assert(fields@[p]@ != fields@[q as int]@);
                            },
                            _ => {},
                        }
                    }
                    lemma_row_readings_objects(*input, data, pre, rid@, o@);
                    lemma_readings_elsewhere(m0, row_readings(*input, data, pre, rid@), now, o@, rid@);
                }
                match rows.value.get(rid) {
                    Some(val) => match sc.get_value(val, &o.0, rid, counters, now) {
                        Some(d) => d,
                        None => Err(DataError::Missing),
                    },
                    None => Err(DataError::Missing),
                }
            },
        };
        proof {
            let s = sv[q as int];
            let rr = row_readings(*input, data, pre, rid@);
            let nxt = row_readings(*input, data, sv.take(q + 1), rid@);
            match srcs@[q as int] {
                Source::Column(o, oid, rows) => {
                    assert(column_rows(data, oid@) == rows.value@);
                    assert(s == SourceV::Column(o@, oid@));
                    match cell_reading(*input, data, s, rid@) {
                        Some(v) => {
                            assert(nxt == rr.push((o@, rid@, v)));
                            assert(rr.push((o@, rid@, v)).drop_last() =~= rr);
                            assert(rr.push((o@, rid@, v)).last() == (o@, rid@, v));
                            assert(apply_readings(m0, rr.push((o@, rid@, v)), now) == with_reading(apply_readings(m0, rr, now), o@, rid@, (now, v)));
                        },
                        None => {
                            assert(nxt == rr);
                        },
                    }
                },
                _ => {
                    assert(cell_reading(*input, data, s, rid@) is None);
                    assert(nxt == rr);
                },
            }
        }
        row.push((fields[q].clone(), cell));
        q = q + 1;
    }
    proof {
        assert(sv.take(q as int) =~= sv);
    }
    row
}

/// The rows of a table built from walked columns: the row indices in
/// ascending order, the cells of each row in field order, and the errors and
/// warnings of the columns.
pub struct TableRows {
    pub row_ids: Vec<Oid>,
    pub rows: Vec<Vec<(String, Data)>>,
    pub errors: Vec<(WalkError, Oid)>,
    pub warnings: Vec<(WalkWarning, Oid)>,
}

/// A built table: its rows, or, when every walked column failed, the
/// errors of the columns.
pub enum TableData {
    Rows(TableRows),
    Failed(Vec<(WalkError, Oid)>),
}

/// Some field has a walked column with rows.
pub open spec fn has_column(srcs: Seq<SourceV>) -> bool {
    exists|q: int| 0 <= q < srcs.len() && (#[trigger] srcs[q]) is Column
}

/// The row indices of the walked columns.
pub open spec fn rid_set(data: Map<Seq<u64>, WalkData>, srcs: Seq<SourceV>) -> Set<Seq<u64>> {
    Set::new(|k: Seq<u64>| exists|q: int| 0 <= q < srcs.len() && (#[trigger] srcs[q] matches SourceV::Column(_, oid) && column_rows(data, oid).contains_key(k)))
}

/// The objects of the walked columns are defined scalars.
pub open spec fn cols_defined(input: Input, srcs: Seq<SourceV>) -> bool {
    forall|q: int| 0 <= q < srcs.len() ==> ((#[trigger] srcs[q]) matches SourceV::Column(f, _) ==> input.scalars@.contains_key(f))
}

/// The index values of a row can be read from its OID.
pub open spec fn row_fits(input: Input, ix: Index, rid: Seq<u64>) -> bool {
    index_defined(input, ix) ==> index_reads_fit(index_scalars(input, ix), implied_flags(ix), Some(rid), 0)
}

/// The index values of a row, with their objects.
pub open spec fn ix_pairs(input: Input, ix: Index, rid: Seq<u64>) -> Seq<(Seq<char>, Result<ValueV, DataErrorV>)> {
    Seq::new(ix.vars@.len(), |i: int| (ix.vars@[i]@, index_values(index_scalars(input, ix), implied_flags(ix), Some(rid), 0)[i]))
}

/// Every counter reading of a table is at one of its rows.
proof fn lemma_table_readings_rows(input: Input, data: Map<Seq<u64>, WalkData>, srcs: Seq<SourceV>, rids: Seq<Seq<u64>>)
    ensures
        forall|k: int| 0 <= k < table_readings(input, data, srcs, rids).len() ==>
            exists|j: int| 0 <= j < rids.len() && (#[trigger] table_readings(input, data, srcs, rids)[k]).1 == rids[j],
    decreases rids.len(),
{
    if rids.len() > 0 {
        let pre = rids.drop_last();
        lemma_table_readings_rows(input, data, srcs, pre);
        lemma_row_readings_at(input, data, srcs, rids.last());
        let a = table_readings(input, data, srcs, pre);
        let b = row_readings(input, data, srcs, rids.last());
        let all = table_readings(input, data, srcs, rids);
        assert forall|k: int| 0 <= k < all.len() implies exists|j: int| 0 <= j < rids.len() && (#[trigger] all[k]).1 == rids[j] by {
            if k < a.len() {
                assert(all[k] == a[k]);
                let j = choose|j: int| 0 <= j < pre.len() && (#[trigger] a[k]).1 == pre[j];
                assert(rids[j] == pre[j]);
            } else {
                assert(all[k] == b[k - a.len()]);
                assert(rids[rids.len() - 1] == rids.last());
            }
        }
    }
}

fn column_scalars<'a>(srcs: &Vec<Source>, input: &'a Input) -> (r: Result<Vec<Option<&'a ScalarSpec>>, BuildError>)
    ensures
        match r {
            Ok(v) => {
                &&& v@.len() == srcs@.len()
                &&& cols_defined(*input, srcs@.map_values(|s: Source| source_view(s)))
                &&& forall|q: int| 0 <= q < srcs@.len() ==> ((#[trigger] srcs@[q]) matches Source::Column(o, _, _) ==>
                    (v@[q] matches Some(sc) && input.scalars@.contains_key(o@) && *sc == input.scalars@[o@]))
            },
            Err(e) => exists|q: int| 0 <= q < srcs@.len() && (#[trigger] srcs@[q] matches Source::Column(o, _, _)
                && (!input.scalars@.contains_key(o@) && (e matches BuildError::Input(InputError::Missing(m)) && m@ == o@))),
        },
{
    let ghost sv = srcs@.map_values(|s: Source| source_view(s));
    let mut v: Vec<Option<&'a ScalarSpec>> = Vec::new();
    let mut q: usize = 0;
    while q < srcs.len()
        invariant
            q <= srcs@.len(),
            v@.len() == q,
            sv == srcs@.map_values(|s: Source| source_view(s)),
            forall|p: int| 0 <= p < q ==> ((#[trigger] srcs@[p]) matches Source::Column(o, _, _) ==>
                (v@[p] matches Some(sc) && input.scalars@.contains_key(o@) && *sc == input.scalars@[o@])),
        decreases srcs.len() - q,
    {
        match &srcs[q] {
            Source::Column(o, _, _) => match input.scalars.get(&o.0) {
                Some(sc) => v.push(Some(sc)),
                None => {
                    let e = BuildError::Input(InputError::Missing(o.0.clone()));
                    proof {
                        assert(srcs@[q as int] matches Source::Column(o2, _, _) && (!input.scalars@.contains_key(o2@) && (e matches BuildError::Input(InputError::Missing(m)) && m@ == o2@)));
                    }
                    return Err(e);
                },
            },
            _ => v.push(None),
        }
        q = q + 1;
    }
    proof {
        assert forall|p: int| 0 <= p < sv.len() implies ((#[trigger] sv[p]) matches SourceV::Column(f, _) ==> input.scalars@.contains_key(f)) by {
            assert(sv[p] == source_view(srcs@[p]));
        }
    }
    Ok(v)
}

/// When a table with an index is built: every field has a source, and
/// either no column has rows and some failed, or there are no rows, or
/// the index and the columns are defined scalars and every row's index
/// values can be read.
pub open spec fn index_builds(input: Input, ix: Index, data: Map<Seq<u64>, WalkData>, fields: Seq<String>) -> bool {
    let srcs = sources_view(input, ix, data, fields_view(fields));
    &&& all_found(input, ix, data, fields_view(fields))
    &&& {
        ||| (!has_column(srcs) && !error_notes(srcs).is_empty())
        ||| rid_set(data, srcs).is_empty()
        ||| (index_defined(input, ix) && cols_defined(input, srcs) && forall|k: Seq<u64>| #[trigger] rid_set(data, srcs).contains(k) ==> row_fits(input, ix, k))
    }
}

/// What building a table with an index gives (see `build_index_table`),
/// the counters going from `c0` to `c1`.
pub open spec fn index_table_result(input: Input, ix: Index, data: Map<Seq<u64>, WalkData>, fields: Seq<String>, r: Result<TableData, BuildError>, c0: Map<Seq<char>, Map<Seq<u64>, (u128, u64)>>, c1: Map<Seq<char>, Map<Seq<u64>, (u128, u64)>>, now: u128) -> bool {
    ({
        let srcs = sources_view(input, ix, data, fields_view(fields));
        &&& (r matches Ok(TableData::Failed(errs)) ==> {
            &&& all_found(input, ix, data, fields_view(fields))
            &&& !has_column(srcs)
            &&& notes_view(errs@).len() > 0
            &&& notes_view(errs@).to_set() == error_notes(srcs)
        })
        &&& (r matches Ok(TableData::Rows(t)) ==> {
            &&& all_found(input, ix, data, fields_view(fields))
            &&& (has_column(srcs) || error_notes(srcs).is_empty())
            &&& strictly_ascending(oids_view(t.row_ids@))
            &&& oids_view(t.row_ids@).to_set() == rid_set(data, srcs)
            &&& t.rows@.len() == t.row_ids@.len()
            &&& forall|ri: int| 0 <= ri < t.rows@.len() ==> (#[trigger] t.rows@[ri])@.len() == fields.len()
            &&& forall|ri: int, q: int| 0 <= ri < t.rows@.len() && 0 <= q < fields.len() ==> {
                &&& (#[trigger] t.rows@[ri]@[q]).0@ == fields[q]@
                &&& data_view(t.rows@[ri]@[q].1) == cell_value(input, data, srcs[q], t.row_ids@[ri]@,
                    ix_pairs(input, ix, t.row_ids@[ri]@), c0, now)
            }
            &&& c1 == apply_readings(c0,
                table_readings(input, data, srcs, oids_view(t.row_ids@)), now)
            &&& notes_view(t.errors@).to_set() == error_notes(srcs)
            &&& notes_view(t.warnings@).to_set() == warning_notes(data, srcs)
        })
        &&& (r matches Err(e) ==> {
            ||| exists|q: int| first_unsourced(input, ix, data, fields_view(fields), q, e)
            ||| (e matches BuildError::IndexOverrun(x) && rid_set(data, srcs).contains(x@) && !row_fits(input, ix, x@))
            ||| (e matches BuildError::Input(InputError::Missing(m)) && !rid_set(data, srcs).is_empty() && {
                ||| (ids_view(ix.vars@).contains(m@) && !input.scalars@.contains_key(m@))
                ||| (exists|q: int| 0 <= q < srcs.len() && (#[trigger] srcs[q] matches SourceV::Column(f, _) && (f == m@ && !input.scalars@.contains_key(m@))))
            })
        })
        &&& index_builds(input, ix, data, fields) ==> r is Ok
    })
}

/// Builds a table indexed by `ix` out of walked columns. Each requested
/// field takes its values from an index object or from the walked column
/// of its object (see `field_source`). When no column has rows and some
/// failed, the table fails with the errors of the columns. Otherwise its
/// rows are the row indices of the walked columns, in ascending order, and
/// each cell is as `cell_value` says, with the counter readings as they
/// were before; the counters get the readings of all cells, row by row.
pub fn build_index_table(fields: &Vec<String>, input: &Input, ix: &Index, data: &WalkMap, counters: &mut Counters, now: u128) -> (r: Result<TableData, BuildError>)
    requires
        distinct_fields(fields@),
        bit_lists_valid(*input),
    ensures
        index_table_result(*input, *ix, data@, fields@, r, counters_view(*old(counters)), counters_view(*final(counters)), now),

{
    let ghost fv = fields_view(fields@);
    let ghost c0 = counters_view(*counters);
    let srcs = match classify(fields, input, ix, data) {
        Ok(s) => s,
        Err(e) => {
            return Err(e);
        },
    };
    let ghost sv = srcs@.map_values(|s: Source| source_view(s));
    proof {
        assert(sv =~= sources_view(*input, *ix, data@, fv));
    }
    let (errors, warnings) = notes(&srcs, Ghost(data@));

    /* The walked columns with rows. */
    let mut cols: Vec<&OidMap<VarResult>> = Vec::new();
    let mut any_col = false;
    let mut q: usize = 0;
    while q < srcs.len()
        invariant
            q <= srcs@.len(),
            sv == srcs@.map_values(|s: Source| source_view(s)),
            sources_match(srcs@, *input, *ix, data@, fv),
            any_col == exists|p: int| 0 <= p < q && (#[trigger] sv[p]) is Column,
            cols@.map_values(|c: &OidMap<VarResult>| c@).to_set() == Set::new(|m: Map<Seq<u64>, VarResult>| exists|p: int| 0 <= p < q && (#[trigger] sv[p] matches SourceV::Column(_, oid) && column_rows(data@, oid) == m)),
        decreases srcs.len() - q,
    {
        let ghost c_before = cols@.map_values(|c: &OidMap<VarResult>| c@);
        match &srcs[q] {
            Source::Column(_, oid, rows) => {
                cols.push(&rows.value);
                any_col = true;
                proof {
                    let cm = cols@.map_values(|c: &OidMap<VarResult>| c@);
                    assert(cm =~= c_before.push(rows.value@));
                    assert(column_rows(data@, oid@) == rows.value@);
                    let s_new = Set::new(|m: Map<Seq<u64>, VarResult>| exists|p: int| 0 <= p < q + 1 && (#[trigger] sv[p] matches SourceV::Column(_, oid) && column_rows(data@, oid) == m));
                    let s_old = Set::new(|m: Map<Seq<u64>, VarResult>| exists|p: int| 0 <= p < q && (#[trigger] sv[p] matches SourceV::Column(_, oid) && column_rows(data@, oid) == m));
                    assert(sv[q as int] == source_view(srcs@[q as int]));
                    assert(s_new =~= s_old.insert(rows.value@));
                    assert(cm.to_set() =~= c_before.to_set().insert(rows.value@)) by {
                        assert forall|x: Map<Seq<u64>, VarResult>| cm.to_set().contains(x) implies c_before.to_set().insert(rows.value@).contains(x) by {
                            let j = choose|j: int| 0 <= j < cm.len() && #[trigger] cm[j] == x;
                            if j < c_before.len() {
                                assert(c_before[j] == x);
                            }
                        }
                        assert forall|x: Map<Seq<u64>, VarResult>| c_before.to_set().insert(rows.value@).contains(x) implies cm.to_set().contains(x) by {
                            if x == rows.value@ {
                                assert(cm[c_before.len() as int] == x);
                            } else {
                                let j = choose|j: int| 0 <= j < c_before.len() && #[trigger] c_before[j] == x;
                                assert(cm[j] == x);
                            }
                        }
                    }
                }
            },
            _ => {
                proof {
                    assert(sv[q as int] == source_view(srcs@[q as int]));
                    let s_new = Set::new(|m: Map<Seq<u64>, VarResult>| exists|p: int| 0 <= p < q + 1 && (#[trigger] sv[p] matches SourceV::Column(_, oid) && column_rows(data@, oid) == m));
                    let s_old = Set::new(|m: Map<Seq<u64>, VarResult>| exists|p: int| 0 <= p < q && (#[trigger] sv[p] matches SourceV::Column(_, oid) && column_rows(data@, oid) == m));
                    assert(s_new =~= s_old);
                }
            },
        }
        q = q + 1;
    }
    if !any_col && errors.len() > 0 {
        proof {
            assert(notes_view(errors@)[0] == notes_view(errors@)[0]);
            assert(notes_view(errors@).to_set().contains(notes_view(errors@)[0]));
        }
        return Ok(TableData::Failed(errors));
    }
    let ids = row_ids(&cols);
    proof {
        let cm = cols@.map_values(|c: &OidMap<VarResult>| c@);
        assert(row_id_set(cm) =~= rid_set(data@, sv)) by {
            assert forall|k: Seq<u64>| row_id_set(cm).contains(k) implies rid_set(data@, sv).contains(k) by {
                let c = choose|c: int| 0 <= c < cm.len() && (#[trigger] cm[c]).contains_key(k);
                assert(cm.to_set().contains(cm[c]));
            }
            assert forall|k: Seq<u64>| rid_set(data@, sv).contains(k) implies row_id_set(cm).contains(k) by {
                let p = choose|p: int| 0 <= p < sv.len() && (#[trigger] sv[p] matches SourceV::Column(_, oid) && column_rows(data@, oid).contains_key(k));
                let m = match sv[p] { SourceV::Column(_, oid) => column_rows(data@, oid), _ => Map::empty() };
                assert(cm.to_set().contains(m));
                let c = choose|c: int| 0 <= c < cm.len() && cm[c] == m;
                assert(cm[c].contains_key(k));
            }
        }
    }
    let ghost rv = oids_view(ids@);

    /* The rows. */
    let mut scalars: Vec<Option<&ScalarSpec>> = Vec::new();
    let mut rows: Vec<Vec<(String, Data)>> = Vec::new();
    let mut r: usize = 0;
    while r < ids.len()
        invariant
            r <= ids@.len(),
            rv == oids_view(ids@),
            strictly_ascending(rv),
            rv.to_set() == rid_set(data@, sv),
            sv == srcs@.map_values(|s: Source| source_view(s)),
            sv == sources_view(*input, *ix, data@, fv),
            fv == fields_view(fields@),
            sources_match(srcs@, *input, *ix, data@, fv),
            distinct_fields(fields@),
            bit_lists_valid(*input),
            rows@.len() == r,
            r > 0 ==> scalars@.len() == srcs@.len() && cols_defined(*input, sv) && index_defined(*input, *ix),
            r > 0 ==> forall|q: int| 0 <= q < srcs@.len() ==> ((#[trigger] srcs@[q]) matches Source::Column(o, _, _) ==>
                (scalars@[q] matches Some(sc) && input.scalars@.contains_key(o@) && *sc == input.scalars@[o@])),
            forall|ri: int| 0 <= ri < r ==> row_fits(*input, *ix, #[trigger] rv[ri]),
            forall|ri: int| 0 <= ri < r ==> (#[trigger] rows@[ri])@.len() == fields@.len(),
            forall|ri: int, q: int| 0 <= ri < r && 0 <= q < fields@.len() ==> {
                &&& (#[trigger] rows@[ri]@[q]).0@ == fields@[q]@
                &&& data_view(rows@[ri]@[q].1) == cell_value(*input, data@, sv[q], rv[ri], ix_pairs(*input, *ix, rv[ri]), c0, now)
            },
            counters_view(*counters) == apply_readings(c0, table_readings(*input, data@, sv, rv.take(r as int)), now),
        decreases ids.len() - r,
    {
        let rid = &ids[r];
        assert(rv[r as int] == rid@);
        if !ix.reads_fit(rid, input) {
            proof {
                assert(rv.contains(rid@));
                assert(rv.to_set().contains(rid@));
                assert(rid_set(data@, sv).contains(rid@));
            }
            return Err(BuildError::IndexOverrun(rid.copy()));
        }
        let vals = match ix.get_values(rid, input) {
            Ok(v) => v,
            Err(e) => {
                proof {
                    assert(oids_view(ids@).to_set().contains(rid@));
                    assert(rv.contains(rid@));
                    assert(rv.to_set().contains(rid@));
                    assert(rid_set(data@, sv).contains(rid@));
                    assert(!rid_set(data@, sv).is_empty()) by {
                        assert(!Set::<Seq<u64>>::empty().contains(rid@));
                    }
                    let i = choose|i: int| {
                        &&& 0 <= i < ix.vars@.len()
                        &&& !input.scalars@.contains_key((#[trigger] ix.vars@[i])@)
                        &&& forall|j: int| 0 <= j < i ==> input.scalars@.contains_key((#[trigger] ix.vars@[j])@)
                        &&& e matches InputError::Missing(m) && m@ == ix.vars@[i]@
                    };
                    assert(ids_view(ix.vars@)[i] == ix.vars@[i]@);
                }
                return Err(BuildError::Input(e));
            },
        };
        if r == 0 {
            scalars = match column_scalars(&srcs, input) {
                Ok(s) => s,
                Err(e) => {
                    proof {
                        assert(oids_view(ids@).to_set().contains(rid@));
                        assert(rv.contains(rid@));
                        assert(rv.to_set().contains(rid@));
                        assert(rid_set(data@, sv).contains(rid@));
                        assert(!rid_set(data@, sv).is_empty()) by {
                            assert(!Set::<Seq<u64>>::empty().contains(rid@));
                        }
                        let q = choose|q: int| 0 <= q < srcs@.len() && (#[trigger] srcs@[q] matches Source::Column(o, _, _)
                            && (!input.scalars@.contains_key(o@) && (e matches BuildError::Input(InputError::Missing(m)) && m@ == o@)));
                        assert(sv[q] == source_view(srcs@[q]));
                    }
                    return Err(e);
                },
            };
        }
        let ghost ixv = ixvals_view(vals@);
        proof {
            assert(index_defined(*input, *ix));
            assert(ixv =~= ix_pairs(*input, *ix, rid@)) by {
                assert forall|i: int| 0 <= i < ixv.len() implies #[trigger] ixv[i] == ix_pairs(*input, *ix, rid@)[i] by {
                    assert(values_view(vals@)[i] == data_view(vals@[i].1));
                }
            }
            /* The readings so far are of earlier rows. */
            let tr = table_readings(*input, data@, sv, rv.take(r as int));
            lemma_table_readings_rows(*input, data@, sv, rv.take(r as int));
            assert forall|q: int| 0 <= q < srcs@.len() implies ((#[trigger] srcs@[q]) matches Source::Column(o, oid, rows) ==> {
                &&& data@[oid@] == Ok::<WalkRows, WalkError>(*rows)
                &&& o@ == fields@[q]@
                &&& scalars@[q] matches Some(sc) && input.scalars@.contains_key(o@) && *sc == input.scalars@[o@]
                &&& previous_reading(counters_view(*counters), o@, rid@) == previous_reading(c0, o@, rid@)
            }) by {
                match srcs@[q] {
                    Source::Column(o, oid, rows) => {
                        assert(fv[q] == fields@[q]@);
                        lemma_source_field(*input, *ix, data@, fv[q]);
                        assert forall|k: int| 0 <= k < tr.len() implies !((#[trigger] tr[k]).0 == o@ && tr[k].1 == rid@) by {
                            let j = choose|j: int| 0 <= j < rv.take(r as int).len() && (#[trigger] tr[k]).1 == rv.take(r as int)[j];
                            assert(rv.take(r as int)[j] == rv[j]);
                            assert(oid_lt(rv[j], rv[r as int]));
                            lemma_oid_lt_irreflexive(rv[j]);
                        }
                        lemma_readings_elsewhere(c0, tr, now, o@, rid@);
                    },
                    _ => {},
                }
            }
        }
        let ghost before = counters_view(*counters);
        let row = build_row(fields, &srcs, &scalars, &vals, rid, input, counters, now, Ghost(data@), Ghost(c0));
        proof {
            let tr = table_readings(*input, data@, sv, rv.take(r as int));
            let rr = row_readings(*input, data@, sv, rid@);
            lemma_apply_concat(c0, tr, rr, now);
            assert(rv.take(r + 1).drop_last() =~= rv.take(r as int));
            assert(rv.take(r + 1).last() == rid@);
            assert(table_readings(*input, data@, sv, rv.take(r + 1)) == tr + rr);
            assert forall|q: int| 0 <= q < fields@.len() implies sv[q] == source_view(srcs@[q]) by {}
        }
        rows.push(row);
        proof {
            assert forall|ri: int, q: int| 0 <= ri < r + 1 && 0 <= q < fields@.len() implies {
                &&& (#[trigger] rows@[ri]@[q]).0@ == fields@[q]@
                &&& data_view(rows@[ri]@[q].1) == cell_value(*input, data@, sv[q], rv[ri], ix_pairs(*input, *ix, rv[ri]), c0, now)
            } by {
                if ri == r {
                    assert(rows@[ri] == row);
                    assert(sv[q] == source_view(srcs@[q]));
                }
            }
        }
        r = r + 1;
    }
    proof {
        assert(rv.take(r as int) =~= rv);
        assert forall|k: Seq<u64>| #[trigger] rid_set(data@, sv).contains(k) implies true by {}
    }
    Ok(TableData::Rows(TableRows { row_ids: ids, rows, errors, warnings }))
}

/// Row and column of an entry of a folded table: its index, counted from
/// 1, spread over rows of `fold` columns.
pub open spec fn fold_row(k: Seq<u64>, fold: u64) -> int {
    ((k[0] - 1) / (fold as int)) + 1
}

pub open spec fn fold_col(k: Seq<u64>, fold: u64) -> int {
    ((k[0] - 1) % (fold as int)) + 1
}

/// The row numbers of the entries of a folded table.
pub open spec fn fold_rows_set(v: Seq<(Oid, VarResult)>, fold: u64) -> Set<int> {
    Set::new(|n: int| exists|e: int| 0 <= e < v.len() && (#[trigger] v[e]).0@.len() > 0 && fold_row(v[e].0@, fold) == n)
}

/// The value received for cell (`n`, `c`) of a folded table: that of the
/// last entry that falls in it.
pub open spec fn fold_pick(v: Seq<(Oid, VarResult)>, fold: u64, n: int, c: int) -> Option<VarResult>
    decreases v.len(),
{
    if v.len() == 0 {
        None
    } else {
        let k = v.last().0@;
        if k.len() > 0 && fold_row(k, fold) == n && fold_col(k, fold) == c {
            Some(v.last().1)
        } else {
            fold_pick(v.drop_last(), fold, n, c)
        }
    }
}

/// The column of a field's object within a folded table: the first
/// component of its OID under the table.
pub open spec fn field_column(input: Input, table_oid: Seq<u64>, f: Seq<char>) -> Option<u64> {
    let rel = in_table_spec(input.objects@[f].oid@, table_oid);
    if rel.len() > 0 { Some(rel[0]) } else { None }
}

/// The value of cell (`n`, field `f`) of a folded table: the row number for
/// a field at the table itself, else the converted value received for the
/// cell (a counter yields its rate since the reading in `prev`, at row
/// index `[n]`), or missing.
pub open spec fn fold_cell_value(
    input: Input,
    v: Seq<(Oid, VarResult)>,
    fold: u64,
    table_oid: Seq<u64>,
    f: Seq<char>,
    n: u64,
    prev: Map<Seq<char>, Map<Seq<u64>, (u128, u64)>>,
    now: u128,
) -> Result<ValueV, DataErrorV> {
    match field_column(input, table_oid, f) {
        None => Ok(ValueV::Integer(n as i64 as int)),
        Some(c) => match fold_pick(v, fold, n as int, c as int) {
            None => Err(DataErrorV::Missing),
            Some(val) => match spec_conversion(input.scalars@[f], val) {
                Conversion::Plain(d) => d,
                Conversion::Counter(x) => spec_counter_rate(previous_reading(prev, f, seq![n]), x, now),
                Conversion::Skip => Err(DataErrorV::Missing),
            },
        },
    }
}

/// The table object is defined, its column was walked and has rows `rws`.
pub open spec fn fold_context(input: Input, table: Seq<char>, data: Map<Seq<u64>, WalkData>, toid: Seq<u64>, rws: WalkRows) -> bool {
    &&& input.objects@.contains_key(table)
    &&& input.objects@[table].oid@ == toid
    &&& data.contains_key(toid)
    &&& data[toid] == Ok::<WalkRows, WalkError>(rws)
}

/// Row numbers strictly ascending.
pub open spec fn ascending_u64(s: Seq<u64>) -> bool {
    forall|i: int, j: int| 0 <= i < j < s.len() ==> #[trigger] s[i] < #[trigger] s[j]
}

fn fold_row_numbers(v: &Vec<(Oid, VarResult)>, fold: u64) -> (r: Vec<u64>)
    requires
        fold > 0,
        forall|e: int| 0 <= e < v@.len() ==> ((#[trigger] v@[e]).0@.len() > 0 ==> v@[e].0@[0] >= 1),
    ensures
        ascending_u64(r@),
        r@.map_values(|x: u64| x as int).to_set() == fold_rows_set(v@, fold),
{
    let mut r: Vec<u64> = Vec::new();
    let mut e: usize = 0;
    proof {
        assert(r@.map_values(|x: u64| x as int).to_set() =~= Set::<int>::empty());
    }
    while e < v.len()
        invariant
            e <= v@.len(),
            fold > 0,
            forall|e: int| 0 <= e < v@.len() ==> ((#[trigger] v@[e]).0@.len() > 0 ==> v@[e].0@[0] >= 1),
            ascending_u64(r@),
            r@.map_values(|x: u64| x as int).to_set() == fold_rows_set(v@.take(e as int), fold),
        decreases v.len() - e,
    {
        let ghost before = r@.map_values(|x: u64| x as int).to_set();
        let ghost pre = v@.take(e as int);
        let ghost cur = v@.take(e + 1);
        proof {
            assert(cur =~= pre.push(v@[e as int]));
        }
        let k = &v[e].0;
        if k.0.len() > 0 {
            let n: u64 = (k.0[0] - 1) / fold + 1;
            proof {
                assert(n == fold_row(k@, fold));
            }
            let mut j: usize = 0;
            while j < r.len() && r[j] < n
                invariant
                    j <= r@.len(),
                    forall|q: int| 0 <= q < j ==> #[trigger] r@[q] < n,
                decreases r.len() - j,
            {
                j = j + 1;
            }
            if j < r.len() && r[j] == n {
                proof {
                    assert(r@.map_values(|x: u64| x as int)[j as int] == n as int);
                }
            } else {
                let ghost r0 = r@;
                r.insert(j, n);
                proof {
                    assert(r@ =~= r0.insert(j as int, n));
                    assert forall|a: int, b: int| 0 <= a < b < r@.len() implies #[trigger] r@[a] < #[trigger] r@[b] by {
                        if b < j {
                        } else if b == j {
                        } else if a == j {
                            assert(r@[b] == r0[b - 1]);
                            assert(r0[j as int] >= n);
                            assert(r0[j as int] != n);
                            if b - 1 > j {
                                assert(r0[j as int] < r0[b - 1]);
                            }
                        } else if a < j {
                            assert(r@[b] == r0[b - 1]);
                            assert(r0[a] < n);
                        } else {
                            assert(r@[a] == r0[a - 1] && r@[b] == r0[b - 1]);
                        }
                    }
                    let m0 = r0.map_values(|x: u64| x as int);
                    let m1 = r@.map_values(|x: u64| x as int);
                    assert(m1.to_set() =~= m0.to_set().insert(n as int)) by {
                        assert forall|x: int| m1.to_set().contains(x) implies m0.to_set().insert(n as int).contains(x) by {
                            let q = choose|q: int| 0 <= q < m1.len() && #[trigger] m1[q] == x;
                            if q < j {
                                assert(m0[q] == x);
                            } else if q > j {
                                assert(m0[q - 1] == x);
                            }
                        }
                        assert forall|x: int| m0.to_set().insert(n as int).contains(x) implies m1.to_set().contains(x) by {
                            if x == n as int {
                                assert(m1[j as int] == x);
                            } else {
                                let q = choose|q: int| 0 <= q < m0.len() && #[trigger] m0[q] == x;
                                if q < j {
                                    assert(m1[q] == x);
                                } else {
                                    assert(m1[q + 1] == x);
                                }
                            }
                        }
                    }
                }
            }
            proof {
                assert(fold_rows_set(cur, fold) =~= fold_rows_set(pre, fold).insert(n as int)) by {
                    assert forall|x: int| fold_rows_set(cur, fold).contains(x) implies fold_rows_set(pre, fold).insert(n as int).contains(x) by {
                        let q = choose|q: int| 0 <= q < cur.len() && (#[trigger] cur[q]).0@.len() > 0 && fold_row(cur[q].0@, fold) == x;
                        if q < e {
                            assert(cur[q] == pre[q]);
                        }
                    }
                    assert forall|x: int| fold_rows_set(pre, fold).insert(n as int).contains(x) implies fold_rows_set(cur, fold).contains(x) by {
                        if x == n as int {
                            assert(cur[e as int] == v@[e as int]);
                        } else {
                            let q = choose|q: int| 0 <= q < pre.len() && (#[trigger] pre[q]).0@.len() > 0 && fold_row(pre[q].0@, fold) == x;
                            assert(cur[q] == pre[q]);
                        }
                    }
                }
            }
        } else {
            proof {
                assert(fold_rows_set(cur, fold) =~= fold_rows_set(pre, fold)) by {
                    assert forall|x: int| fold_rows_set(cur, fold).contains(x) implies fold_rows_set(pre, fold).contains(x) by {
                        let q = choose|q: int| 0 <= q < cur.len() && (#[trigger] cur[q]).0@.len() > 0 && fold_row(cur[q].0@, fold) == x;
                        if q < e {
                            assert(cur[q] == pre[q]);
                        }
                    }
                    assert forall|x: int| fold_rows_set(pre, fold).contains(x) implies fold_rows_set(cur, fold).contains(x) by {
                        let q = choose|q: int| 0 <= q < pre.len() && (#[trigger] pre[q]).0@.len() > 0 && fold_row(pre[q].0@, fold) == x;
                        assert(cur[q] == pre[q]);
                    }
                }
            }
        }
        e = e + 1;
    }
    proof {
        assert(v@.take(e as int) =~= v@);
    }
    r
}

fn fold_pick_exec<'a>(v: &'a Vec<(Oid, VarResult)>, fold: u64, n: u64, c: u64) -> (r: Option<&'a VarResult>)
    requires
        fold > 0,
        forall|e: int| 0 <= e < v@.len() ==> ((#[trigger] v@[e]).0@.len() > 0 ==> v@[e].0@[0] >= 1),
    ensures
        match fold_pick(v@, fold, n as int, c as int) {
            Some(x) => r == Some(&x),
            None => r is None,
        },
{
    let mut k = v.len();
    proof {
        assert(v@.take(k as int) =~= v@);
    }
    while k > 0
        invariant
            k <= v@.len(),
            fold > 0,
            forall|e: int| 0 <= e < v@.len() ==> ((#[trigger] v@[e]).0@.len() > 0 ==> v@[e].0@[0] >= 1),
            fold_pick(v@, fold, n as int, c as int) == fold_pick(v@.take(k as int), fold, n as int, c as int),
        decreases k,
    {
        let ghost t = v@.take(k as int);
        proof {
            assert(t.drop_last() =~= v@.take(k - 1));
            assert(t.last() == v@[k - 1]);
        }
        let key = &v[k - 1].0;
        if key.0.len() > 0 {
            let i = key.0[0] - 1;
            if i / fold + 1 == n && i % fold + 1 == c {
                return Some(&v[k - 1].1);
            }
        }
        k = k - 1;
    }
    None
}

/// When a folded table is built: its object is defined and its column
/// was walked; a column with rows numbers its entries from 1 (with a fold
/// of at least one column), and where it has rows every field is a scalar
/// object, defined as a scalar unless it reads no value from the table.
pub open spec fn fold_builds(input: Input, table: Seq<char>, fold: u64, data: Map<Seq<u64>, WalkData>, fields: Seq<String>) -> bool {
    &&& input.objects@.contains_key(table)
    &&& data.contains_key(input.objects@[table].oid@)
    &&& match data[input.objects@[table].oid@] {
        Err(_e) => true,
        Ok(rws) => {
            let v = rws.value.0@;
            let toid = input.objects@[table].oid@;
            &&& forall|e: int| 0 <= e < v.len() ==> ((#[trigger] v[e]).0@.len() > 0 ==> fold > 0 && v[e].0@[0] >= 1)
            &&& (fold_rows_set(v, fold).is_empty() || forall|q: int| 0 <= q < fields.len() ==> {
                &&& object_type(input, (#[trigger] fields[q])@) == Some(ObjectType::Scalar)
                &&& (input.scalars@.contains_key(fields[q]@) || match field_column(input, toid, fields[q]@) {
                    None => true,
                    Some(c) => forall|n: int| #[trigger] fold_rows_set(v, fold).contains(n) ==> fold_pick(v, fold, n, c as int) is None,
                })
            })
        },
    }
}

/// What building a folded table gives (see `build_fold_table`), with the
/// counter readings `c0` as they were before.
pub open spec fn fold_table_result(input: Input, table: Seq<char>, fold: u64, data: Map<Seq<u64>, WalkData>, fields: Seq<String>, r: Result<TableData, BuildError>, c0: Map<Seq<char>, Map<Seq<u64>, (u128, u64)>>, now: u128) -> bool {
    &&& !input.objects@.contains_key(table) ==> (r matches Err(BuildError::Input(InputError::Missing(m))) && m@ == table)
    &&& input.objects@.contains_key(table) ==> ({
        let toid = input.objects@[table].oid@;
        &&& !data.contains_key(toid) ==> (r matches Err(BuildError::NotRequested(x)) && x@ == toid)
        &&& (data.contains_key(toid) && data[toid] is Err) ==> (r matches Ok(TableData::Rows(t)) && {
            &&& t.row_ids@.len() == 0
            &&& t.rows@.len() == 0
            &&& notes_view(t.errors@) == seq![(data[toid]->Err_0, toid)]
            &&& t.warnings@.len() == 0
        })
        &&& data.contains_key(toid) ==> (data[toid] matches Ok(rws) ==> {
            let v = rws.value.0@;
            &&& (r matches Err(BuildError::ZeroFold) ==> fold == 0 && exists|e: int| 0 <= e < v.len() && (#[trigger] v[e]).0@.len() > 0)
            &&& (r matches Err(BuildError::ZeroRowIndex(x)) ==> exists|e: int| 0 <= e < v.len() && (#[trigger] v[e]).0@ == x@ && x@.len() > 0 && x@[0] == 0)
            &&& (r matches Err(BuildError::Input(InputError::Missing(m))) ==> !input.scalars@.contains_key(m@) || !input.objects@.contains_key(m@))
            &&& (r matches Err(BuildError::Input(InputError::InvalidFieldId(m))) ==> input.objects@.contains_key(m@) && input.objects@[m@].typ != ObjectType::Scalar)
            &&& (r matches Ok(TableData::Failed(_)) ==> false)
            &&& (r matches Ok(TableData::Rows(t)) ==> {
                &&& t.errors@.len() == 0
                &&& notes_view(t.warnings@) == rws.warnings@.map_values(|w: WalkWarning| (w, toid))
                &&& t.rows@.len() == t.row_ids@.len()
                &&& oids_view(t.row_ids@).map_values(|k: Seq<u64>| k[0] as int).to_set() == fold_rows_set(v, fold)
                &&& forall|ri: int| 0 <= ri < t.row_ids@.len() ==> (#[trigger] t.row_ids@[ri])@.len() == 1
                &&& forall|a: int, b: int| 0 <= a < b < t.row_ids@.len() ==> (#[trigger] t.row_ids@[a])@[0] < (#[trigger] t.row_ids@[b])@[0]
                &&& forall|ri: int| 0 <= ri < t.rows@.len() ==> (#[trigger] t.rows@[ri])@.len() == fields.len()
                &&& forall|ri: int, q: int| 0 <= ri < t.rows@.len() && 0 <= q < fields.len() ==> {
                    &&& (#[trigger] t.rows@[ri]@[q]).0@ == fields[q]@
                    &&& data_view(t.rows@[ri]@[q].1) == fold_cell_value(input, v, fold, toid, fields[q]@,
                        t.row_ids@[ri]@[0], c0, now)
                }
            })
        })
    })
}

/// Builds a folded table: one walked column that holds a table of `fold`
/// columns, its entries numbered from 1, row by row. Rows are the row
/// numbers that occur, ascending; each cell is as `fold_cell_value` says,
/// with the counter readings as they were before. A failed column gives a
/// table without rows, with the error noted.
pub fn build_fold_table(fields: &Vec<String>, input: &Input, table: &ObjectId, fold: u64, data: &WalkMap, counters: &mut Counters, now: u128) -> (r: Result<TableData, BuildError>)
    requires
        distinct_fields(fields@),
        bit_lists_valid(*input),
    ensures
        fold_table_result(*input, table@, fold, data@, fields@, r, counters_view(*old(counters)), now),
        fold_builds(*input, table@, fold, data@, fields@) ==> r is Ok,

{
    let ghost c0 = counters_view(*counters);
    let table_obj = match input.objects.get(&table.0) {
        Some(o) => o,
        None => {
            return Err(BuildError::Input(InputError::Missing(table.0.clone())));
        },
    };
    let toid = &table_obj.oid;
    let rws = match data.get(toid) {
        None => {
            return Err(BuildError::NotRequested(toid.copy()));
        },
        Some(Err(e)) => {
            let mut errors: Vec<(WalkError, Oid)> = Vec::new();
            errors.push((*e, toid.copy()));
            proof {
                assert(notes_view(errors@) =~= seq![(*e, toid@)]);
            }
            return Ok(TableData::Rows(TableRows { row_ids: Vec::new(), rows: Vec::new(), errors, warnings: Vec::new() }));
        },
        Some(Ok(rws)) => rws,
    };
    let v = &rws.value.0;
    proof {
        assert(fold_context(*input, table@, data@, toid@, *rws));
    }

    /* Entries must be numbered from 1, in rows of at least one column. */
    let mut e: usize = 0;
    while e < v.len()
        invariant
            fold_context(*input, table@, data@, toid@, *rws),
            v == rws.value.0,
            e <= v@.len(),
            forall|q: int| 0 <= q < e ==> ((#[trigger] v@[q]).0@.len() > 0 ==> v@[q].0@[0] >= 1 && fold > 0),
        decreases v.len() - e,
    {
        if v[e].0.0.len() > 0 {
            if fold == 0 {
                return Err(BuildError::ZeroFold);
            }
            if v[e].0.0[0] == 0 {
                return Err(BuildError::ZeroRowIndex(v[e].0.copy()));
            }
        }
        e = e + 1;
    }
    let mut warnings: Vec<(WalkWarning, Oid)> = Vec::new();
    let mut w: usize = 0;
    while w < rws.warnings.len()
        invariant
            fold_context(*input, table@, data@, toid@, *rws),
            v == rws.value.0,
            forall|q: int| 0 <= q < v@.len() ==> ((#[trigger] v@[q]).0@.len() > 0 ==> v@[q].0@[0] >= 1 && fold > 0),
            w <= rws.warnings@.len(),
            notes_view(warnings@) == rws.warnings@.take(w as int).map_values(|x: WalkWarning| (x, toid@)),
        decreases rws.warnings.len() - w,
    {
        let ghost w0 = notes_view(warnings@);
        warnings.push((rws.warnings[w], toid.copy()));
        proof {
            assert(notes_view(warnings@) =~= w0.push((rws.warnings@[w as int], toid@)));
            assert(rws.warnings@.take(w + 1) =~= rws.warnings@.take(w as int).push(rws.warnings@[w as int]));
            assert(notes_view(warnings@) =~= rws.warnings@.take(w + 1).map_values(|x: WalkWarning| (x, toid@)));
        }
        w = w + 1;
    }
    proof {
        assert(rws.warnings@.take(w as int) =~= rws.warnings@);
    }
    if v.len() == 0 || fold == 0 {
        /* No entries with an index: no rows. */
        proof {
            assert forall|x: int| !fold_rows_set(v@, fold).contains(x) by {
                if fold_rows_set(v@, fold).contains(x) {
                    let e = choose|e: int| 0 <= e < v@.len() && (#[trigger] v@[e]).0@.len() > 0 && fold_row(v@[e].0@, fold) == x;
                    assert(fold > 0);
                }
            }
            assert(fold_rows_set(v@, fold) =~= Set::<int>::empty());
        }
        let row_ids: Vec<Oid> = Vec::new();
        proof {
            assert(oids_view(row_ids@).map_values(|k: Seq<u64>| k[0] as int).to_set() =~= Set::<int>::empty());
        }
        return Ok(TableData::Rows(TableRows { row_ids, rows: Vec::new(), errors: Vec::new(), warnings }));
    }
    let nums = fold_row_numbers(v, fold);

    /* The column of each field. */
    let mut cols: Vec<(Option<u64>, Option<&ScalarSpec>)> = Vec::new();
    if nums.len() > 0 {
        let mut q: usize = 0;
        while q < fields.len()
            invariant
                fold_context(*input, table@, data@, toid@, *rws),
                v == rws.value.0,
                nums@.len() > 0,
                nums@.map_values(|x: u64| x as int).to_set() == fold_rows_set(v@, fold),
                q <= fields@.len(),
                cols@.len() == q,
                forall|p: int| 0 <= p < q ==> {
                    &&& input.objects@.contains_key(fields@[p]@)
                    &&& (#[trigger] cols@[p]).0 == field_column(*input, toid@, fields@[p]@)
                    &&& (cols@[p].1 matches Some(sc) ==> input.scalars@.contains_key(fields@[p]@) && *sc == input.scalars@[fields@[p]@])
                    &&& (cols@[p].1 is None ==> !input.scalars@.contains_key(fields@[p]@))
                },
            decreases fields.len() - q,
        {
            let obj = match ObjectId::from_field_id(&fields[q], input) {
                Ok(o) => o,
                Err(e) => {
                    proof {
                        assert(nums@.map_values(|x: u64| x as int)[0] == nums@[0] as int);
                        assert(fold_rows_set(v@, fold).contains(nums@[0] as int));
                        assert(object_type(*input, fields@[q as int]@) != Some(ObjectType::Scalar));
                    }
                    return Err(BuildError::Input(e));
                },
            };
            let field_obj = match input.objects.get(&obj.0) {
                Some(o) => o,
                None => {
                    return Err(BuildError::Input(InputError::Missing(obj.0.clone())));
                },
            };
            let rel = field_obj.oid.in_table(toid);
            let c = if rel.0.len() > 0 { Some(rel.0[0]) } else { None };
            cols.push((c, input.scalars.get(&obj.0)));
            q = q + 1;
        }
    }

    /* The rows. */
    let mut row_ids: Vec<Oid> = Vec::new();
    let mut rows: Vec<Vec<(String, Data)>> = Vec::new();
    let mut r: usize = 0;
    while r < nums.len()
        invariant
            fold_context(*input, table@, data@, toid@, *rws),
            v == rws.value.0,
            nums@.map_values(|x: u64| x as int).to_set() == fold_rows_set(v@, fold),
            notes_view(warnings@) == rws.warnings@.map_values(|x: WalkWarning| (x, toid@)),
            r <= nums@.len(),
            nums@.len() > 0 ==> cols@.len() == fields@.len(),
            forall|p: int| 0 <= p < cols@.len() ==> {
                &&& input.objects@.contains_key(fields@[p]@)
                &&& (#[trigger] cols@[p]).0 == field_column(*input, toid@, fields@[p]@)
                &&& (cols@[p].1 matches Some(sc) ==> input.scalars@.contains_key(fields@[p]@) && *sc == input.scalars@[fields@[p]@])
                &&& (cols@[p].1 is None ==> !input.scalars@.contains_key(fields@[p]@))
            },
            fold > 0,
            forall|p: int| 0 <= p < v@.len() ==> ((#[trigger] v@[p]).0@.len() > 0 ==> v@[p].0@[0] >= 1),
            ascending_u64(nums@),
            distinct_fields(fields@),
            bit_lists_valid(*input),
            row_ids@.len() == r,
            rows@.len() == r,
            forall|ri: int| 0 <= ri < r ==> (#[trigger] row_ids@[ri])@ == seq![nums@[ri]],
            forall|ri: int| 0 <= ri < r ==> (#[trigger] rows@[ri])@.len() == fields@.len(),
            forall|ri: int, q: int| 0 <= ri < r && 0 <= q < fields@.len() ==> {
                &&& (#[trigger] rows@[ri]@[q]).0@ == fields@[q]@
                &&& data_view(rows@[ri]@[q].1) == fold_cell_value(*input, v@, fold, toid@, fields@[q]@, nums@[ri], c0, now)
            },
            forall|o: Seq<char>, k: Seq<u64>| (k.len() == 1 && (forall|ri: int| 0 <= ri < r ==> #[trigger] nums@[ri] != k[0])) ==>
                #[trigger] previous_reading(counters_view(*counters), o, k) == previous_reading(c0, o, k),
            forall|o: Seq<char>, k: Seq<u64>| (k.len() == 1 && exists|ri: int| r <= ri < nums@.len() && #[trigger] nums@[ri] == k[0]) ==>
                #[trigger] previous_reading(counters_view(*counters), o, k) == previous_reading(c0, o, k),
        decreases nums.len() - r,
    {
        let n = nums[r];
        let rid = Oid({
            let mut x: Vec<u64> = Vec::new();
            x.push(n);
            x
        });
        let mut row: Vec<(String, Data)> = Vec::new();
        let mut q: usize = 0;
        while q < fields.len()
            invariant
                fold_context(*input, table@, data@, toid@, *rws),
                v == rws.value.0,
                q <= fields@.len(),
                cols@.len() == fields@.len(),
                row@.len() == q,
                rid@ == seq![n],
                n == nums@[r as int],
                r < nums@.len(),
                nums@.map_values(|x: u64| x as int).to_set() == fold_rows_set(v@, fold),
                ascending_u64(nums@),
                fold > 0,
                forall|p: int| 0 <= p < v@.len() ==> ((#[trigger] v@[p]).0@.len() > 0 ==> v@[p].0@[0] >= 1),
                forall|p: int| 0 <= p < cols@.len() ==> {
                    &&& input.objects@.contains_key(fields@[p]@)
                    &&& (#[trigger] cols@[p]).0 == field_column(*input, toid@, fields@[p]@)
                    &&& (cols@[p].1 matches Some(sc) ==> input.scalars@.contains_key(fields@[p]@) && *sc == input.scalars@[fields@[p]@])
                    &&& (cols@[p].1 is None ==> !input.scalars@.contains_key(fields@[p]@))
                },
                distinct_fields(fields@),
                bit_lists_valid(*input),
                forall|p: int| 0 <= p < q ==> (#[trigger] row@[p]).0@ == fields@[p]@,
                forall|p: int| 0 <= p < q ==> data_view((#[trigger] row@[p]).1) == fold_cell_value(*input, v@, fold, toid@, fields@[p]@, n, c0, now),
                forall|o: Seq<char>, k: Seq<u64>| (k.len() == 1 && (forall|ri: int| 0 <= ri < r ==> #[trigger] nums@[ri] != k[0]) && k[0] != n) ==>
                    #[trigger] previous_reading(counters_view(*counters), o, k) == previous_reading(c0, o, k),
                forall|o: Seq<char>, k: Seq<u64>| (k.len() == 1 && exists|ri: int| r < ri < nums@.len() && #[trigger] nums@[ri] == k[0]) ==>
                    #[trigger] previous_reading(counters_view(*counters), o, k) == previous_reading(c0, o, k),
                forall|p: int| q <= p < fields@.len() ==> #[trigger] previous_reading(counters_view(*counters), fields@[p]@, seq![n]) == previous_reading(c0, fields@[p]@, seq![n]),
            decreases fields.len() - q,
        {
            let cell: Data = match cols[q].0 {
                None => Ok(Value::Integer(n as i64)),
                Some(c) => match fold_pick_exec(v, fold, n, c) {
                    None => Err(DataError::Missing),
                    Some(val) => match cols[q].1 {
                        None => {
                            proof {
                                assert(nums@.map_values(|x: u64| x as int)[r as int] == n as int);
                                assert(fold_rows_set(v@, fold).contains(n as int));
                                assert(fold_pick(v@, fold, n as int, c as int) is Some);
                                assert(!input.scalars@.contains_key(fields@[q as int]@));
                                assert(field_column(*input, toid@, fields@[q as int]@) == Some(c));
                            }
                            return Err(BuildError::Input(InputError::Missing(fields[q].clone())));
                        },
                        Some(sc) => {
                            let ghost before = counters_view(*counters);
                            let d = match sc.get_value(val, &fields[q], &rid, counters, now) {
                                Some(d) => d,
                                None => Err(DataError::Missing),
                            };
                            proof {
                                let f = fields@[q as int]@;
                                assert forall|o: Seq<char>, k: Seq<u64>| !(o == f && k == seq![n]) implies
                                    #[trigger] previous_reading(counters_view(*counters), o, k) == previous_reading(before, o, k) by {
                                    assert(counters_view(*counters) == before || exists|x: u64| counters_view(*counters) == with_reading(before, f, seq![n], (now, x)));
                                }
                                assert forall|p: int| q < p < fields@.len() implies #[trigger] previous_reading(counters_view(*counters), fields@[p]@, seq![n]) == previous_reading(c0, fields@[p]@, seq![n]) by {
                                    assert(fields@[p]@ != fields@[q as int]@);
                                }
                            }
                            d
                        },
                    },
                },
            };
            row.push((fields[q].clone(), cell));
            q = q + 1;
        }
        row_ids.push(rid);
        rows.push(row);
        r = r + 1;
    }
    proof {
        let ids = oids_view(row_ids@).map_values(|k: Seq<u64>| k[0] as int);
        assert(ids =~= nums@.map_values(|x: u64| x as int)) by {
            assert forall|i: int| 0 <= i < ids.len() implies ids[i] == nums@.map_values(|x: u64| x as int)[i] by {
                assert(row_ids@[i]@ == seq![nums@[i]]);
            }
        }
    }
    Ok(TableData::Rows(TableRows { row_ids, rows, errors: Vec::new(), warnings }))
}

/// The fields of each requested table are distinct.
pub open spec fn query_fields_distinct(query: Seq<(String, Vec<String>)>) -> bool {
    forall|i: int| 0 <= i < query.len() ==> distinct_fields((#[trigger] query[i]).1@)
}

/// How a requested table is built: with an index (the view of its
/// objects and implied object), or folded (the table object and the
/// number of columns it folds).
pub enum TablePlan {
    Indexed((Seq<Seq<char>>, Option<Seq<char>>)),
    Folded(Seq<char>, u64),
}

/// Why a requested table id gives no way to build the table.
pub enum PlanError {
    /// No object, table entry or augmented entry of this id.
    Missing(Seq<char>),
    /// The object is no table.
    InvalidTableId(Seq<char>),
    /// The entry augments itself, directly or through other entries.
    AugmentsCycle(Seq<char>),
}

/// How the table with id `id` is built: `noIndex` with no index; a table
/// object by its entry, folded when the entry folds, else with the
/// entry's index.
pub open spec fn table_plan(input: Input, id: Seq<char>) -> Result<TablePlan, PlanError> {
    if id == no_index_id() {
        Ok(TablePlan::Indexed((Seq::empty(), None)))
    } else {
        match object_type(input, id) {
            None => Err(PlanError::Missing(id)),
            Some(ObjectType::Table) => if !input.tables@.contains_key(id) {
                Err(PlanError::Missing(id))
            } else {
                let e = input.tables@[id];
                match spec_entry_index(input, e, input.tables.0@.len() as nat) {
                    None => Err(PlanError::AugmentsCycle(id)),
                    Some(Err(m)) => Err(PlanError::Missing(m)),
                    Some(Ok(v)) => match e.fold {
                        Some(f) => Ok(TablePlan::Folded(id, f)),
                        None => Ok(TablePlan::Indexed(v)),
                    },
                }
            },
            Some(_) => Err(PlanError::InvalidTableId(id)),
        }
    }
}

/// The build error that stands for a plan error.
pub open spec fn plan_error_is(pe: PlanError, e: BuildError) -> bool {
    match pe {
        PlanError::Missing(m) => e matches BuildError::Input(InputError::Missing(x)) && x@ == m,
        PlanError::InvalidTableId(m) => e matches BuildError::Input(InputError::InvalidTableId(x)) && x@ == m,
        PlanError::AugmentsCycle(m) => e matches BuildError::AugmentsCycle(x) && x@ == m,
    }
}

/// What building the table `id` with `fields` gives (see `table_plan`,
/// `index_table_result` and `fold_table_result`), the counters going from
/// `c0` to `c1`.
pub open spec fn table_result(
    input: Input,
    data: Map<Seq<u64>, WalkData>,
    id: Seq<char>,
    fields: Seq<String>,
    r: Result<TableData, BuildError>,
    c0: Map<Seq<char>, Map<Seq<u64>, (u128, u64)>>,
    c1: Map<Seq<char>, Map<Seq<u64>, (u128, u64)>>,
    now: u128,
) -> bool {
    match table_plan(input, id) {
        Err(pe) => r matches Err(e) && plan_error_is(pe, e),
        Ok(TablePlan::Indexed(v)) => exists|ix: Index| index_view(ix) == v && #[trigger] index_table_result(input, ix, data, fields, r, c0, c1, now),
        Ok(TablePlan::Folded(t, f)) => fold_table_result(input, t, f, data, fields, r, c0, now),
    }
}

/// When the table `id` with `fields` is built (see `index_builds` and
/// `fold_builds`).
pub open spec fn table_builds(input: Input, data: Map<Seq<u64>, WalkData>, id: Seq<char>, fields: Seq<String>) -> bool {
    match table_plan(input, id) {
        Err(_pe) => false,
        Ok(TablePlan::Indexed(v)) => forall|ix: Index| index_view(ix) == v ==> #[trigger] index_builds(input, ix, data, fields),
        Ok(TablePlan::Folded(t, f)) => fold_builds(input, t, f, data, fields),
    }
}

/// The rows of every table built with rows: each row has one cell per
/// requested field, named as requested and in that order. A table with an
/// index has one row per row index found in its walked columns, in strictly
/// ascending order; a folded table has its row numbers in ascending order.
pub proof fn law_built_table_rows(
    input: Input,
    data: Map<Seq<u64>, WalkData>,
    id: Seq<char>,
    fields: Seq<String>,
    t: TableRows,
    c0: Map<Seq<char>, Map<Seq<u64>, (u128, u64)>>,
    c1: Map<Seq<char>, Map<Seq<u64>, (u128, u64)>>,
    now: u128,
)
    requires
        table_result(input, data, id, fields, Ok(TableData::Rows(t)), c0, c1, now),
    ensures
        t.rows@.len() == t.row_ids@.len(),
        forall|ri: int| 0 <= ri < t.rows@.len() ==> (#[trigger] t.rows@[ri])@.len() == fields.len(),
        forall|ri: int, q: int| 0 <= ri < t.rows@.len() && 0 <= q < fields.len() ==> (#[trigger] t.rows@[ri]@[q]).0@ == fields[q]@,
        table_plan(input, id) matches Ok(TablePlan::Indexed(v)) ==> {
            &&& strictly_ascending(oids_view(t.row_ids@))
            &&& exists|ix: Index| index_view(ix) == v
                && oids_view(t.row_ids@).to_set() == #[trigger] rid_set(data, sources_view(input, ix, data, fields_view(fields)))
        },
        table_plan(input, id) matches Ok(TablePlan::Folded(_, _)) ==>
            forall|a: int, b: int| 0 <= a < b < t.row_ids@.len() ==> (#[trigger] t.row_ids@[a])@[0] < (#[trigger] t.row_ids@[b])@[0],
{
    match table_plan(input, id) {
        Ok(TablePlan::Indexed(v)) => {
            let ix = choose|ix: Index| index_view(ix) == v && #[trigger] index_table_result(input, ix, data, fields, Ok(TableData::Rows(t)), c0, c1, now);
            assert(index_table_result(input, ix, data, fields, Ok(TableData::Rows(t)), c0, c1, now));
        },
        Ok(TablePlan::Folded(tb, f)) => {
            assert(fold_table_result(input, tb, f, data, fields, Ok(TableData::Rows(t)), c0, now));
            if input.objects@.contains_key(tb) {
                let toid = input.objects@[tb].oid@;
                if data[toid] is Err {
                    assert(t.rows@.len() == 0 && t.row_ids@.len() == 0);
                }
            }
        },
        Err(_) => {},
    }
}

/// The table `id` with `fields` is built, the counters going from `c0` to
/// `c1`.
pub open spec fn table_ok(
    input: Input,
    data: Map<Seq<u64>, WalkData>,
    id: Seq<char>,
    fields: Seq<String>,
    c0: Map<Seq<char>, Map<Seq<u64>, (u128, u64)>>,
    c1: Map<Seq<char>, Map<Seq<u64>, (u128, u64)>>,
    now: u128,
) -> bool {
    exists|a: TableData| #[trigger] table_result(input, data, id, fields, Ok(a), c0, c1, now)
}

/// Building the requested tables failed at the `k`-th with `e`: the
/// tables before it were built, in order, the counters going through
/// `cs`, and the `k`-th gave `e`, the counters going from `cs[k]` to
/// `cs[k + 1]`.
pub open spec fn build_failed_at(
    input: Input,
    data: Map<Seq<u64>, WalkData>,
    query: Seq<(String, Vec<String>)>,
    e: BuildError,
    k: int,
    cs: Seq<Map<Seq<char>, Map<Seq<u64>, (u128, u64)>>>,
    now: u128,
) -> bool {
    &&& 0 <= k < query.len()
    &&& cs.len() == k + 2
    &&& forall|j: int| 0 <= j < k ==> #[trigger] table_ok(input, data, query[j].0@, query[j].1@, cs[j], cs[j + 1], now)
    &&& table_result(input, data, query[k].0@, query[k].1@, Err(e), cs[k], cs[k + 1], now)
}

proof fn lemma_failed_at(
    input: Input,
    data: Map<Seq<u64>, WalkData>,
    query: Seq<(String, Vec<String>)>,
    e: BuildError,
    k: int,
    cs: Seq<Map<Seq<char>, Map<Seq<u64>, (u128, u64)>>>,
    c1: Map<Seq<char>, Map<Seq<u64>, (u128, u64)>>,
    now: u128,
)
    requires
        0 <= k < query.len(),
        cs.len() == k + 1,
        forall|j: int| 0 <= j < k ==> #[trigger] table_ok(input, data, query[j].0@, query[j].1@, cs[j], cs[j + 1], now),
        table_result(input, data, query[k].0@, query[k].1@, Err(e), cs[k], c1, now),
    ensures
        build_failed_at(input, data, query, e, k, cs.push(c1), now),
        cs.push(c1)[0] == cs[0],
        cs.push(c1)[k + 1] == c1,
{
    let c2 = cs.push(c1);
    assert forall|j: int| 0 <= j < k implies #[trigger] table_ok(input, data, query[j].0@, query[j].1@, c2[j], c2[j + 1], now) by {
        assert(c2[j] == cs[j] && c2[j + 1] == cs[j + 1]);
    }
}

/// Builds the requested tables out of the walked columns, in order (see
/// `table_result`), the counters passing from table to table. The first
/// table that cannot be built gives the error; every table is built where
/// each can be (see `table_builds`).
pub fn build_tables(query: &Vec<(String, Vec<String>)>, input: &Input, data: &WalkMap, counters: &mut Counters, now: u128) -> (r: Result<Vec<(String, TableData)>, BuildError>)
    requires
        query_fields_distinct(query@),
        bit_lists_valid(*input),
    ensures
        match r {
            Ok(tables) => tables@.len() == query@.len() && exists|cs: Seq<Map<Seq<char>, Map<Seq<u64>, (u128, u64)>>>| {
                &&& cs.len() == query@.len() + 1
                &&& cs[0] == counters_view(*old(counters))
                &&& cs[query@.len() as int] == counters_view(*final(counters))
                &&& forall|i: int| 0 <= i < query@.len() ==> {
                    &&& (#[trigger] tables@[i]).0@ == query@[i].0@
                    &&& table_result(*input, data@, query@[i].0@, query@[i].1@, Ok(tables@[i].1), cs[i], cs[i + 1], now)
                }
            },
            Err(e) => exists|k: int, cs: Seq<Map<Seq<char>, Map<Seq<u64>, (u128, u64)>>>|
                #[trigger] build_failed_at(*input, data@, query@, e, k, cs, now)
                && cs[0] == counters_view(*old(counters))
                && cs[k + 1] == counters_view(*final(counters)),
        },
        (forall|i: int| 0 <= i < query@.len() ==> #[trigger] table_builds(*input, data@, query@[i].0@, query@[i].1@)) ==> r is Ok,
{
    let mut result: Vec<(String, TableData)> = Vec::new();
    let ghost c_init = counters_view(*counters);
    let ghost mut cs: Seq<Map<Seq<char>, Map<Seq<u64>, (u128, u64)>>> = seq![c_init];
    let mut i: usize = 0;
    while i < query.len()
        invariant
            i <= query@.len(),
            query_fields_distinct(query@),
            bit_lists_valid(*input),
            result@.len() == i,
            cs.len() == i + 1,
            cs[0] == c_init,
            c_init == counters_view(*old(counters)),
            cs[i as int] == counters_view(*counters),
            forall|j: int| 0 <= j < i ==> {
                &&& (#[trigger] result@[j]).0@ == query@[j].0@
                &&& table_result(*input, data@, query@[j].0@, query@[j].1@, Ok(result@[j].1), cs[j], cs[j + 1], now)
            },
            forall|j: int| 0 <= j < i ==> #[trigger] table_plan(*input, query@[j].0@) is Ok,
            forall|j: int| 0 <= j < i ==> #[trigger] table_ok(*input, data@, query@[j].0@, query@[j].1@, cs[j], cs[j + 1], now),
        decreases query.len() - i,
    {
        let table_id = &query[i].0;
        let fields = &query[i].1;
        let ghost id = table_id@;
        let ghost fv = fields@;
        let ghost ci = counters_view(*counters);
        proof {
            assert(distinct_fields(query@[i as int].1@));
        }
        let table = match ObjectId::from_table_id(table_id, input) {
            Ok(t) => t,
            Err(e) => {
                proof {
                    assert(table_result(*input, data@, id, fv, Err(BuildError::Input(e)), ci, ci, now));
                    assert(!table_builds(*input, data@, id, fv));
                    lemma_failed_at(*input, data@, query@, BuildError::Input(e), i as int, cs, ci, now);
                }
                return Err(BuildError::Input(e));
            },
        };
        let built = match table {
            None => {
                let ix = Index::empty();
                proof {
                    assert(ids_view(ix.vars@) =~= Seq::<Seq<char>>::empty());
                    assert(index_view(ix) == (Seq::<Seq<char>>::empty(), None::<Seq<char>>));
                }
                let b = build_index_table(fields, input, &ix, data, counters, now);
                proof {
                    assert(table_result(*input, data@, id, fv, b, ci, counters_view(*counters), now));
                    assert(table_builds(*input, data@, id, fv) ==> index_builds(*input, ix, data@, fv));
                }
                b
            },
            Some(oid) => {
                let entry = match input.tables.get(&oid.0) {
                    Some(e) => e,
                    None => {
                        proof {
                            assert(table_result(*input, data@, id, fv, Err(BuildError::Input(InputError::Missing(oid.0))), ci, ci, now));
                            assert(!table_builds(*input, data@, id, fv));
                            lemma_failed_at(*input, data@, query@, BuildError::Input(InputError::Missing(oid.0)), i as int, cs, ci, now);
                        }
                        return Err(BuildError::Input(InputError::Missing(oid.0.clone())));
                    },
                };
                if !entry.chain_ends(input) {
                    proof {
                        assert(table_result(*input, data@, id, fv, Err(BuildError::AugmentsCycle(oid.0)), ci, ci, now));
                        assert(!table_builds(*input, data@, id, fv));
                        lemma_failed_at(*input, data@, query@, BuildError::AugmentsCycle(oid.0), i as int, cs, ci, now);
                    }
                    return Err(BuildError::AugmentsCycle(oid.0.clone()));
                }
                let ix = match entry.get_index(input) {
                    Ok(ix) => ix,
                    Err(e) => {
                        proof {
                            assert(table_result(*input, data@, id, fv, Err(BuildError::Input(e)), ci, ci, now));
                            assert(!table_builds(*input, data@, id, fv));
                            lemma_failed_at(*input, data@, query@, BuildError::Input(e), i as int, cs, ci, now);
                        }
                        return Err(BuildError::Input(e));
                    },
                };
                match entry.fold {
                    Some(fold) => {
                        let b = build_fold_table(fields, input, &oid, fold, data, counters, now);
                        proof {
                            assert(table_result(*input, data@, id, fv, b, ci, counters_view(*counters), now));
                        }
                        b
                    },
                    None => {
                        let b = build_index_table(fields, input, &ix, data, counters, now);
                        proof {
                            assert(table_result(*input, data@, id, fv, b, ci, counters_view(*counters), now));
                            assert(table_builds(*input, data@, id, fv) ==> index_builds(*input, ix, data@, fv));
                        }
                        b
                    },
                }
            },
        };
        match built {
            Ok(t) => {
                let ghost tv = t;
                result.push((table_id.clone(), t));
                proof {
                    let cs0 = cs;
                    cs = cs.push(counters_view(*counters));
                    assert(result@[i as int].1 == tv);
                    assert forall|j: int| 0 <= j < i + 1 implies #[trigger] table_ok(*input, data@, query@[j].0@, query@[j].1@, cs[j], cs[j + 1], now) by {
                        if j < i {
                            assert(cs[j] == cs0[j] && cs[j + 1] == cs0[j + 1]);
                        } else {
                            assert(table_result(*input, data@, query@[j].0@, query@[j].1@, Ok(result@[j].1), cs[j], cs[j + 1], now));
                        }
                    }
                }
            },
            Err(e) => {
                proof {
                    assert(!table_builds(*input, data@, id, fv));
                    lemma_failed_at(*input, data@, query@, e, i as int, cs, counters_view(*counters), now);
                }
                return Err(e);
            },
        }
        i = i + 1;
    }
    proof {
        assert(cs[query@.len() as int] == counters_view(*counters));
    }
    Ok(result)
}

} // verus!
