//! Walks of SNMP tables and how they are batched into bulk requests.

use vstd::prelude::*;

use super::config::{BulkConfig, Quirks, spec_max_repetitions};
use super::error::WalkError;
use super::oid::{ErrType, Oid, VarResult, is_prefix, oid_lt, in_table_spec};
use super::oidmap::OidMap;
use super::rows::oids_view;
use super::query::{WalkData, WalkMap, WalkDataV, wd_view, recorded, marked_not_increasing, record_value, record_not_increasing, empty_rows};

verus! {

/// A walk of one table column.
pub struct WalkVar {
    /// The column walked.
    pub oid: Oid,
    /// No more data is to be requested.
    pub done: bool,
    pub invalid: bool,
    /// The last OID received (the column itself before any was received).
    pub last: Oid,
    /// The row indices received, in order (they identify the table layout).
    pub index: Vec<Oid>,
    /// Number of values received.
    pub retrieved: usize,
}

/// Walks of columns of one table, with the table's expected length.
pub struct WalkTable {
    pub vars: Vec<WalkVar>,
    pub expected: Option<usize>,
}

/// A list of table walks still to be made.
pub struct Walks(pub Vec<WalkTable>);

/// View of a table walk: its columns and expected length.
pub type TableV = (Seq<WalkVar>, Option<usize>);

pub open spec fn tview(t: WalkTable) -> TableV {
    (t.vars@, t.expected)
}

impl View for Walks {
    type V = Seq<TableV>;

    open spec fn view(&self) -> Seq<TableV> {
        self.0@.map_values(|t: WalkTable| tview(t))
    }
}

/// Views of a list of OIDs.
pub open spec fn oid_views(v: Seq<Oid>) -> Seq<Seq<u64>> {
    v.map_values(|o: Oid| o@)
}

/// Total number of column walks in a list of tables.
pub open spec fn spec_width(ts: Seq<TableV>) -> int
    decreases ts.len(),
{
    if ts.len() == 0 {
        0
    } else {
        spec_width(ts.drop_last()) + ts.last().0.len()
    }
}

/// All column walks of a list of tables, in order.
pub open spec fn all_vars(ts: Seq<TableV>) -> Seq<WalkVar>
    decreases ts.len(),
{
    if ts.len() == 0 {
        Seq::empty()
    } else {
        all_vars(ts.drop_last()) + ts.last().0
    }
}

/// Largest number of values retrieved by any of the walks (0 without walks).
pub open spec fn spec_max_retrieved(vs: Seq<WalkVar>) -> int
    decreases vs.len(),
{
    if vs.len() == 0 {
        0
    } else {
        let m = spec_max_retrieved(vs.drop_last());
        if vs.last().retrieved > m { vs.last().retrieved as int } else { m }
    }
}

/// Rows still expected of a table: expected length minus what its longest
/// walk retrieved, at least 0.
pub open spec fn remaining_expected(t: TableV) -> Option<int> {
    match t.1 {
        Some(b) => {
            let d = b - spec_max_retrieved(t.0);
            Some(if d > 0 { d } else { 0 })
        },
        None => None,
    }
}

/// Largest number of rows still expected of any table with an expected length.
pub open spec fn spec_max_expected(ts: Seq<TableV>) -> Option<int>
    decreases ts.len(),
{
    if ts.len() == 0 {
        None
    } else {
        let acc = spec_max_expected(ts.drop_last());
        match (acc, remaining_expected(ts.last())) {
            (Some(a), Some(b)) => Some(if a > b { a } else { b }),
            (None, Some(b)) => Some(b),
            (a, None) => a,
        }
    }
}

/// A table split into tables of at most `w` columns.
pub open spec fn chunks(vs: Seq<WalkVar>, e: Option<usize>, w: nat) -> Seq<TableV>
    decreases vs.len(),
{
    if w > 0 && vs.len() > w {
        seq![(vs.take(w as int), e)] + chunks(vs.skip(w as int), e, w)
    } else {
        seq![(vs, e)]
    }
}

/// A list of tables with each table split into tables of at most `w` columns.
pub open spec fn split_all(ts: Seq<TableV>, w: nat) -> Seq<TableV>
    decreases ts.len(),
{
    if ts.len() == 0 {
        Seq::empty()
    } else {
        split_all(ts.drop_last(), w) + chunks(ts.last().0, ts.last().1, w)
    }
}

/// Maximum of two options, where `None` is below every `Some`.
pub open spec fn opt_max(a: Option<usize>, b: Option<usize>) -> Option<usize> {
    match (a, b) {
        (Some(x), Some(y)) => Some(if x > y { x } else { y }),
        (None, y) => y,
        (x, None) => x,
    }
}

/// Minimum of two options, where `None` counts for nothing: the least of
/// the values given, `None` when neither is given.
pub open spec fn opt_min(a: Option<usize>, b: Option<usize>) -> Option<usize> {
    match (a, b) {
        (Some(x), Some(y)) => Some(if x < y { x } else { y }),
        (None, y) => y,
        (x, None) => x,
    }
}

/// State of the selection of walks for one request.
pub struct TakeState {
    pub taken: Seq<TableV>,
    pub rest: Seq<TableV>,
    pub width: int,
    pub max_e: Option<usize>,
    pub min_e: Option<usize>,
}

/// Whether a table joins the selection: the width stays within
/// `avail_width`, the repetitions stay within `max_len_diff` of the shortest
/// expected length, and with the `invalid_packets_at_end` quirk only the
/// first table is taken.
pub open spec fn take_accepts(
    st: TakeState,
    t: TableV,
    avail_width: int,
    avail_size: int,
    opts: BulkConfig,
    quirks: Quirks,
) -> bool {
    let new_width = st.width + t.0.len();
    let new_max = opt_max(st.max_e, t.1);
    let new_min = opt_min(st.min_e, t.1);
    let new_length = spec_max_repetitions(opts, new_max, avail_size, new_width);
    &&& new_width <= avail_width
    &&& match new_min {
        Some(e) => new_length <= e + opts.max_len_diff,
        None => true,
    }
    &&& (!quirks.invalid_packets_at_end || st.taken.len() == 0)
}

/// One step of the selection.
pub open spec fn take_step(
    st: TakeState,
    t: TableV,
    avail_width: int,
    avail_size: int,
    opts: BulkConfig,
    quirks: Quirks,
) -> TakeState {
    if take_accepts(st, t, avail_width, avail_size, opts, quirks) {
        TakeState {
            taken: st.taken.push(t),
            rest: st.rest,
            width: st.width + t.0.len(),
            max_e: opt_max(st.max_e, t.1),
            min_e: opt_min(st.min_e, t.1),
        }
    } else {
        TakeState { rest: st.rest.push(t), ..st }
    }
}

/// The selection after considering the first `n` tables.
pub open spec fn take_run(
    ts: Seq<TableV>,
    n: int,
    avail_width: int,
    avail_size: int,
    opts: BulkConfig,
    quirks: Quirks,
) -> TakeState
    decreases n,
{
    if n <= 0 {
        TakeState { taken: Seq::empty(), rest: Seq::empty(), width: 0, max_e: None, min_e: None }
    } else {
        take_step(
            take_run(ts, n - 1, avail_width, avail_size, opts, quirks),
            ts[n - 1],
            avail_width,
            avail_size,
            opts,
            quirks,
        )
    }
}

/// The greatest expected length of the tables (`None` where none has one).
pub open spec fn expected_max(ts: Seq<TableV>) -> Option<usize>
    decreases ts.len(),
{
    if ts.len() == 0 { None } else { opt_max(expected_max(ts.drop_last()), ts.last().1) }
}

/// The least expected length of the tables (`None` where none has one).
pub open spec fn expected_min(ts: Seq<TableV>) -> Option<usize>
    decreases ts.len(),
{
    if ts.len() == 0 { None } else { opt_min(expected_min(ts.drop_last()), ts.last().1) }
}

/// The repetitions of a request for these tables: by their greatest
/// expected length, the size available and their width.
pub open spec fn request_repetitions(ts: Seq<TableV>, avail_size: int, opts: BulkConfig) -> int {
    spec_max_repetitions(opts, expected_max(ts), avail_size, spec_width(ts))
}

/// The selection keeps its summary: greatest and least expected lengths
/// and width of the tables taken.
pub open spec fn take_summary(st: TakeState) -> bool {
    &&& st.max_e == expected_max(st.taken)
    &&& st.min_e == expected_min(st.taken)
    &&& st.width == spec_width(st.taken)
}

/// The tables selected for a request have expected lengths close to the
/// request: the repetitions asked for exceed no selected table's expected
/// length by more than `max_len_diff`.
pub proof fn law_take_within_len_diff(
    ts: Seq<TableV>,
    n: int,
    avail_width: int,
    avail_size: int,
    opts: BulkConfig,
    quirks: Quirks,
)
    requires
        0 <= n <= ts.len(),
    ensures
        ({
            let st = take_run(ts, n, avail_width, avail_size, opts, quirks);
            &&& take_summary(st)
            &&& forall|i: int| 0 <= i < st.taken.len() ==> ((#[trigger] st.taken[i]).1 matches Some(x) ==>
                request_repetitions(st.taken, avail_size, opts) <= x + opts.max_len_diff)
        }),
    decreases n,
{
    let st = take_run(ts, n, avail_width, avail_size, opts, quirks);
    if n == 0 {
        assert(take_summary(st));
    } else {
        law_take_within_len_diff(ts, n - 1, avail_width, avail_size, opts, quirks);
        let p = take_run(ts, n - 1, avail_width, avail_size, opts, quirks);
        let t = ts[n - 1];
        // The least expected length of the taken tables is below each of them.
        assert forall|i: int| 0 <= i < p.taken.len() implies ((#[trigger] p.taken[i]).1 matches Some(x) ==>
            (p.min_e matches Some(m) && m <= x)) by {
            lemma_expected_min_below(p.taken, i);
        }
        if take_accepts(p, t, avail_width, avail_size, opts, quirks) {
            assert(st.taken == p.taken.push(t));
            assert(st.taken.drop_last() =~= p.taken);
            assert(take_summary(st));
            assert forall|i: int| 0 <= i < st.taken.len() implies ((#[trigger] st.taken[i]).1 matches Some(x) ==>
                request_repetitions(st.taken, avail_size, opts) <= x + opts.max_len_diff) by {
                if i < p.taken.len() {
                    assert(st.taken[i] == p.taken[i]);
                }
            }
        } else {
            assert(take_summary(st));
        }
    }
}

proof fn lemma_expected_min_below(ts: Seq<TableV>, i: int)
    requires
        0 <= i < ts.len(),
    ensures
        ts[i].1 matches Some(x) ==> (expected_min(ts) matches Some(m) && m <= x),
    decreases ts.len(),
{
    if i < ts.len() - 1 {
        lemma_expected_min_below(ts.drop_last(), i);
        assert(ts.drop_last()[i] == ts[i]);
    }
}

/// What the walk statistics keep of a walked column: the number of rows
/// of each of its walks, in order, and the row indices of its last walk.
pub struct WalkLog {
    pub lengths: Vec<usize>,
    pub index: Vec<Oid>,
}

/// View of walk statistics, by column.
pub open spec fn stats_view(m: Map<Seq<u64>, WalkLog>) -> Map<Seq<u64>, (Seq<usize>, Seq<Seq<u64>>)> {
    Map::new(|k: Seq<u64>| m.contains_key(k), |k: Seq<u64>| (m[k].lengths@, oids_view(m[k].index@)))
}

/// The statistics after finished walks are recorded, in order: each adds
/// its number of rows to the lengths of its column (a new entry for a new
/// column) and its row indices replace those kept.
pub open spec fn recorded_walks(m: Map<Seq<u64>, (Seq<usize>, Seq<Seq<u64>>)>, ws: Seq<WalkVar>) -> Map<Seq<u64>, (Seq<usize>, Seq<Seq<u64>>)>
    decreases ws.len(),
{
    if ws.len() == 0 {
        m
    } else {
        let p = recorded_walks(m, ws.drop_last());
        let w = ws.last();
        let lengths = if p.contains_key(w.oid@) { p[w.oid@].0 } else { Seq::empty() };
        p.insert(w.oid@, (lengths.push(w.retrieved), oids_view(w.index@)))
    }
}

fn copy_oids(v: &Vec<Oid>) -> (r: Vec<Oid>)
    ensures
        oids_view(r@) == oids_view(v@),
{
    let mut r: Vec<Oid> = Vec::new();
    let mut i: usize = 0;
    while i < v.len()
        invariant
            i <= v@.len(),
            oids_view(r@) == oids_view(v@.take(i as int)),
        decreases v.len() - i,
    {
        let ghost r0 = oids_view(r@);
        r.push(v[i].copy());
        proof {
            assert(oids_view(r@) =~= r0.push(v@[i as int]@));
            assert(oids_view(v@.take(i + 1)) =~= oids_view(v@.take(i as int)).push(v@[i as int]@));
        }
        i = i + 1;
    }
    proof {
        assert(v@.take(i as int) =~= v@);
    }
    r
}

fn copy_lengths(v: &Vec<usize>) -> (r: Vec<usize>)
    ensures
        r@ == v@,
{
    let mut r: Vec<usize> = Vec::new();
    let mut i: usize = 0;
    while i < v.len()
        invariant
            i <= v@.len(),
            r@ == v@.take(i as int),
        decreases v.len() - i,
    {
        r.push(v[i]);
        proof {
            assert(r@ =~= v@.take(i + 1));
        }
        i = i + 1;
    }
    proof {
        assert(r@ =~= v@);
    }
    r
}

/// Records finished walks in the walk statistics (see `recorded_walks`).
pub fn record_walks(stats: &mut OidMap<WalkLog>, finished: &Vec<WalkVar>)
    ensures
        stats_view(final(stats)@) == recorded_walks(stats_view(old(stats)@), finished@),
{
    let ghost s0 = stats_view(stats@);
    let mut i: usize = 0;
    proof {
        assert(finished@.take(0) =~= Seq::<WalkVar>::empty());
    }
    while i < finished.len()
        invariant
            i <= finished@.len(),
            stats_view(stats@) == recorded_walks(s0, finished@.take(i as int)),
        decreases finished.len() - i,
    {
        let w = &finished[i];
        proof {
            assert(finished@.take(i + 1).drop_last() =~= finished@.take(i as int));
            assert(finished@.take(i + 1).last() == *w);
        }
        let mut lengths = match stats.get(&w.oid) {
            Some(l) => copy_lengths(&l.lengths),
            None => Vec::new(),
        };
        lengths.push(w.retrieved);
        let index = copy_oids(&w.index);
        let ghost before = stats_view(stats@);
        let ghost lv = lengths@;
        let ghost iv = oids_view(index@);
        stats.set(w.oid.copy(), WalkLog { lengths, index });
        proof {
            assert(stats_view(stats@) =~= before.insert(w.oid@, (lv, iv)));
        }
        i = i + 1;
    }
    proof {
        assert(finished@.take(i as int) =~= finished@);
    }
}

/// Columns of a table that are not done yet.
pub open spec fn pending_vars(vs: Seq<WalkVar>) -> Seq<WalkVar>
    decreases vs.len(),
{
    if vs.len() == 0 {
        Seq::empty()
    } else if vs.last().done {
        pending_vars(vs.drop_last())
    } else {
        pending_vars(vs.drop_last()).push(vs.last())
    }
}

/// Columns of a table that are done.
pub open spec fn done_vars(vs: Seq<WalkVar>) -> Seq<WalkVar>
    decreases vs.len(),
{
    if vs.len() == 0 {
        Seq::empty()
    } else if vs.last().done {
        done_vars(vs.drop_last()).push(vs.last())
    } else {
        done_vars(vs.drop_last())
    }
}

/// Tables with their finished walks removed (tables left empty are dropped).
pub open spec fn pending_tables(ts: Seq<TableV>) -> Seq<TableV>
    decreases ts.len(),
{
    if ts.len() == 0 {
        Seq::empty()
    } else {
        let p = pending_vars(ts.last().0);
        if p.len() > 0 {
            pending_tables(ts.drop_last()).push((p, ts.last().1))
        } else {
            pending_tables(ts.drop_last())
        }
    }
}

/// The finished walks of a list of tables, in order.
pub open spec fn finished_vars(ts: Seq<TableV>) -> Seq<WalkVar>
    decreases ts.len(),
{
    if ts.len() == 0 {
        Seq::empty()
    } else {
        finished_vars(ts.drop_last()) + done_vars(ts.last().0)
    }
}

/// The width of tables is the number of their column walks.
pub proof fn lemma_width_vars(ts: Seq<TableV>)
    ensures
        spec_width(ts) == all_vars(ts).len(),
        spec_width(ts) >= 0,
    decreases ts.len(),
{
    if ts.len() > 0 {
        lemma_width_vars(ts.drop_last());
    }
}

/// The width and the column walks of tables with one more table.
pub proof fn lemma_width_push(ts: Seq<TableV>, t: TableV)
    ensures
        spec_width(ts.push(t)) == spec_width(ts) + t.0.len(),
        all_vars(ts.push(t)) == all_vars(ts) + t.0,
{
    assert(ts.push(t).drop_last() =~= ts);
}

/// The width and the column walks of two lists of tables joined.
pub proof fn lemma_width_concat(a: Seq<TableV>, b: Seq<TableV>)
    ensures
        spec_width(a + b) == spec_width(a) + spec_width(b),
        all_vars(a + b) == all_vars(a) + all_vars(b),
    decreases b.len(),
{
    if b.len() == 0 {
        assert(a + b =~= a);
        assert(all_vars(a) + all_vars(b) =~= all_vars(a));
    } else {
        lemma_width_concat(a, b.drop_last());
        assert((a + b).drop_last() =~= a + b.drop_last());
        assert(all_vars(a) + all_vars(b.drop_last()) + b.last().0 =~= all_vars(a) + (all_vars(
            b.drop_last(),
        ) + b.last().0));
    }
}

proof fn lemma_all_vars_single(t: TableV)
    ensures
        all_vars(seq![t]) == t.0,
        spec_width(seq![t]) == t.0.len(),
{
    let one = seq![t];
    assert(one.drop_last() =~= Seq::<TableV>::empty());
    assert(one.last() == t);
    assert(all_vars(Seq::<TableV>::empty()) == Seq::<WalkVar>::empty());
    assert(spec_width(Seq::<TableV>::empty()) == 0);
    assert(Seq::<WalkVar>::empty() + t.0 =~= t.0);
}

proof fn lemma_chunks_vars(vs: Seq<WalkVar>, e: Option<usize>, w: nat)
    ensures
        all_vars(chunks(vs, e, w)) == vs,
        w > 0 ==> forall|i: int| 0 <= i < chunks(vs, e, w).len() ==> (#[trigger] chunks(vs, e, w)[i]).0.len() <= w,
    decreases vs.len(),
{
    if w > 0 && vs.len() > w {
        lemma_chunks_vars(vs.skip(w as int), e, w);
        let head = seq![(vs.take(w as int), e)];
        lemma_width_concat(head, chunks(vs.skip(w as int), e, w));
        lemma_all_vars_single((vs.take(w as int), e));
        assert(vs.take(w as int) + vs.skip(w as int) =~= vs);
        assert forall|i: int| 0 <= i < chunks(vs, e, w).len() implies (#[trigger] chunks(vs, e, w)[i]).0.len() <= w by {
            if i > 0 {
                assert(chunks(vs, e, w)[i] == chunks(vs.skip(w as int), e, w)[i - 1]);
            }
        }
    } else {
        lemma_all_vars_single((vs, e));
    }
}

/// Splitting keeps every column walk, in order, and leaves no table wider
/// than the limit.
pub proof fn law_split_keeps_walks(ts: Seq<TableV>, w: nat)
    requires
        w > 0,
    ensures
        all_vars(split_all(ts, w)) == all_vars(ts),
        forall|i: int| 0 <= i < split_all(ts, w).len() ==> (#[trigger] split_all(ts, w)[i]).0.len() <= w,
    decreases ts.len(),
{
    if ts.len() > 0 {
        law_split_keeps_walks(ts.drop_last(), w);
        let c = chunks(ts.last().0, ts.last().1, w);
        lemma_chunks_vars(ts.last().0, ts.last().1, w);
        lemma_width_concat(split_all(ts.drop_last(), w), c);
        assert forall|i: int| 0 <= i < split_all(ts, w).len() implies (#[trigger] split_all(ts, w)[i]).0.len() <= w by {
            let a = split_all(ts.drop_last(), w);
            if i >= a.len() {
                assert(split_all(ts, w)[i] == c[i - a.len()]);
            } else {
                assert(split_all(ts, w)[i] == a[i]);
            }
        }
    }
}

/// Selecting tables for a request loses no table: each table is either
/// selected or left, and the widths add up.
pub proof fn law_take_partitions(
    ts: Seq<TableV>,
    n: int,
    avail_width: int,
    avail_size: int,
    opts: BulkConfig,
    quirks: Quirks,
)
    requires
        0 <= n <= ts.len(),
    ensures
        take_run(ts, n, avail_width, avail_size, opts, quirks).taken.len()
            + take_run(ts, n, avail_width, avail_size, opts, quirks).rest.len() == n,
        spec_width(take_run(ts, n, avail_width, avail_size, opts, quirks).taken)
            + spec_width(take_run(ts, n, avail_width, avail_size, opts, quirks).rest) == spec_width(ts.take(n)),
    decreases n,
{
    if n == 0 {
        assert(ts.take(0) =~= Seq::<TableV>::empty());
    } else {
        law_take_partitions(ts, n - 1, avail_width, avail_size, opts, quirks);
        let st = take_run(ts, n - 1, avail_width, avail_size, opts, quirks);
        lemma_width_push(st.taken, ts[n - 1]);
        lemma_width_push(st.rest, ts[n - 1]);
        assert(ts.take(n).drop_last() =~= ts.take(n - 1));
    }
}

/// Taking back walks after a request loses none: every column walk is either
/// kept pending or returned as finished.
pub proof fn law_reinject_partitions(ts: Seq<TableV>)
    ensures
        spec_width(pending_tables(ts)) + finished_vars(ts).len() == spec_width(ts),
        forall|i: int| 0 <= i < finished_vars(ts).len() ==> (#[trigger] finished_vars(ts)[i]).done,
        forall|i: int| 0 <= i < all_vars(pending_tables(ts)).len() ==> !(#[trigger] all_vars(pending_tables(ts))[i]).done,
    decreases ts.len(),
{
    if ts.len() > 0 {
        law_reinject_partitions(ts.drop_last());
        lemma_pending_done(ts.last().0);
        let p = pending_vars(ts.last().0);
        let rest = pending_tables(ts.drop_last());
        if p.len() > 0 {
            lemma_width_push(rest, (p, ts.last().1));
            assert forall|i: int| 0 <= i < all_vars(pending_tables(ts)).len() implies !(#[trigger] all_vars(pending_tables(ts))[i]).done by {
                if i >= all_vars(rest).len() {
                    assert(all_vars(pending_tables(ts))[i] == p[i - all_vars(rest).len()]);
                } else {
                    assert(all_vars(pending_tables(ts))[i] == all_vars(rest)[i]);
                }
            }
        }
        let f = finished_vars(ts.drop_last());
        assert forall|i: int| 0 <= i < finished_vars(ts).len() implies (#[trigger] finished_vars(ts)[i]).done by {
            if i >= f.len() {
                assert(finished_vars(ts)[i] == done_vars(ts.last().0)[i - f.len()]);
            } else {
                assert(finished_vars(ts)[i] == f[i]);
            }
        }
    }
}

proof fn lemma_pending_done(vs: Seq<WalkVar>)
    ensures
        pending_vars(vs).len() + done_vars(vs).len() == vs.len(),
        forall|i: int| 0 <= i < done_vars(vs).len() ==> (#[trigger] done_vars(vs)[i]).done,
        forall|i: int| 0 <= i < pending_vars(vs).len() ==> !(#[trigger] pending_vars(vs)[i]).done,
    decreases vs.len(),
{
    if vs.len() > 0 {
        lemma_pending_done(vs.drop_last());
        assert forall|i: int| 0 <= i < done_vars(vs).len() implies (#[trigger] done_vars(vs)[i]).done by {
            if i < done_vars(vs.drop_last()).len() {
                assert(done_vars(vs)[i] == done_vars(vs.drop_last())[i]);
            }
        }
        assert forall|i: int| 0 <= i < pending_vars(vs).len() implies !(#[trigger] pending_vars(vs)[i]).done by {
            if i < pending_vars(vs.drop_last()).len() {
                assert(pending_vars(vs)[i] == pending_vars(vs.drop_last())[i]);
            }
        }
    }
}

impl WalkTable {
    /// An empty table walk without expected length.
    pub fn new() -> (r: WalkTable)
        ensures
            r.vars@ == Seq::<WalkVar>::empty(),
            r.expected is None,
    {
        WalkTable { vars: Vec::new(), expected: None }
    }

    /// Adds a column walk; the expected length becomes the larger of the
    /// known ones.
    pub fn push(&mut self, var: WalkVar, expected: Option<usize>)
        ensures
            final(self).vars@ == old(self).vars@.push(var),
            final(self).expected == opt_max(old(self).expected, expected),
    {
        self.vars.push(var);
        self.expected = match (self.expected, expected) {
            (Some(a), Some(b)) => Some(if a > b { a } else { b }),
            (Some(a), None) => Some(a),
            (_, b) => b,
        };
    }

    /// The largest number of values retrieved by one of the walks.
    pub fn max_retrieved(&self) -> (r: usize)
        ensures
            r == spec_max_retrieved(self.vars@),
    {
        let mut m: usize = 0;
        let mut i: usize = 0;
        while i < self.vars.len()
            invariant
                i <= self.vars.len(),
                m == spec_max_retrieved(self.vars@.subrange(0, i as int)),
            decreases self.vars.len() - i,
        {
            proof {
                assert(self.vars@.subrange(0, i + 1).drop_last() =~= self.vars@.subrange(0, i as int));
            }
            if self.vars[i].retrieved > m {
                m = self.vars[i].retrieved;
            }
            i = i + 1;
        }
        proof {
            assert(self.vars@.subrange(0, i as int) =~= self.vars@);
        }
        m
    }
}

/// How a walk takes a variable received in reply to a GETNEXT/GETBULK request.
pub enum SaveOutcome {
    /// The walk was already done; nothing changes.
    Ignored,
    /// The OID lies past the column: the walk is done.
    PastTable,
    /// The device reported the end of the MIB view: the walk is done.
    EndOfMibView,
    /// The OID did not increase (and the quirk does not allow it): the walk is
    /// done and the column is marked.
    NotIncreasing,
    /// The value was saved at its row.
    Saved,
}

/// Which case of `WalkVar::save` applies.
pub open spec fn save_outcome(w: WalkVar, name: Seq<u64>, val: VarResult, quirks: Quirks) -> SaveOutcome {
    if w.done {
        SaveOutcome::Ignored
    } else if !is_prefix(w.oid@, name) {
        SaveOutcome::PastTable
    } else if val == Err::<super::oid::SnmpValue, ErrType>(ErrType::EndOfMibView) {
        SaveOutcome::EndOfMibView
    } else if (name == w.last@ || oid_lt(name, w.last@)) && !quirks.ignore_oids_not_increasing {
        SaveOutcome::NotIncreasing
    } else {
        SaveOutcome::Saved
    }
}

/// The data for the walked column when OID `col` is to hold `d`, all other
/// entries as in `old`.
pub open spec fn map_updated(old: Map<Seq<u64>, WalkData>, new: Map<Seq<u64>, WalkData>, col: Seq<u64>, d: WalkDataV) -> bool {
    &&& new.dom() == old.dom().insert(col)
    &&& forall|k: Seq<u64>| k != col && old.contains_key(k) ==> new[k] == old[k]
    &&& wd_view(new[col]) == d
}

/// The entry of `col` in `m`, if any.
pub open spec fn entry_of(m: Map<Seq<u64>, WalkData>, col: Seq<u64>) -> Option<WalkData> {
    if m.contains_key(col) { Some(m[col]) } else { None }
}

/// What saving a variable received for a walk does (see `save_outcome`
/// and `WalkVar::save`).
pub open spec fn walk_saved(w0: WalkVar, w1: WalkVar, d0: Map<Seq<u64>, WalkData>, d1: Map<Seq<u64>, WalkData>, name: Seq<u64>, val: VarResult, q: Quirks) -> bool {
    &&& w1.oid == w0.oid
    &&& w1.invalid == w0.invalid
    &&& match save_outcome(w0, name, val, q) {
        SaveOutcome::Ignored => w1 == w0 && d1 == d0,
        SaveOutcome::PastTable | SaveOutcome::EndOfMibView => {
            &&& w1.done
            &&& w1.last == w0.last
            &&& w1.index == w0.index
            &&& w1.retrieved == w0.retrieved
            &&& d1 == d0
        },
        SaveOutcome::NotIncreasing => {
            &&& w1.done
            &&& w1.last == w0.last
            &&& w1.index == w0.index
            &&& w1.retrieved == w0.retrieved
            &&& map_updated(d0, d1, w0.oid@,
                marked_not_increasing(entry_of(d0, w0.oid@)))
        },
        SaveOutcome::Saved => {
            &&& !w1.done
            &&& w1.last@ == name
            &&& w1.retrieved == w0.retrieved + 1
            &&& w1.index@.len() == w0.index@.len() + 1
            &&& w1.index@.drop_last() == w0.index@
            &&& w1.index@.last()@ == in_table_spec(name, w0.oid@)
            &&& map_updated(d0, d1, w0.oid@,
                recorded(entry_of(d0, w0.oid@), in_table_spec(name, w0.oid@), val))
        },
    }
}

/// A walk that receives a variable moves on: it is done afterwards, or it
/// holds one more value and continues from the variable's OID. A request
/// of a walk that is not done thus either ends it or advances it.
pub proof fn law_walk_save_progresses(w0: WalkVar, w1: WalkVar, d0: Map<Seq<u64>, WalkData>, d1: Map<Seq<u64>, WalkData>, name: Seq<u64>, val: VarResult, q: Quirks)
    requires
        walk_saved(w0, w1, d0, d1, name, val, q),
    ensures
        w1.done || (w1.retrieved == w0.retrieved + 1 && w1.last@ == name),
        !w0.done ==> (w1.done || w1.retrieved > w0.retrieved),
{
}

/// What saving the reply to a GET of a walk's column does (see
/// `WalkVar::save_get`).
pub open spec fn walk_get_saved(w0: WalkVar, w1: WalkVar, d0: Map<Seq<u64>, WalkData>, d1: Map<Seq<u64>, WalkData>, name: Seq<u64>, val: VarResult) -> bool {
    &&& w1.oid == w0.oid
    &&& w1.done == w0.done
    &&& d1.dom() == d0.dom().insert(w0.oid@)
    &&& forall|k: Seq<u64>| k != w0.oid@ && d0.contains_key(k) ==> d1[k] == d0[k]
    &&& wd_view(d1[w0.oid@]) == match val {
        Ok(_) => if name == w0.oid@ {
            Ok((Map::empty().insert(Seq::<u64>::empty(), val), Seq::<super::error::WalkWarning>::empty()))
        } else {
            Err(WalkError::NoSuchObject)
        },
        Err(ErrType::NoSuchInstance) => Ok((Map::empty(), Seq::empty())),
        Err(_) => Err(WalkError::NoSuchObject),
    }
    &&& (val is Ok && name == w0.oid@) ==> {
        &&& w1.last@ == name
        &&& w1.retrieved == w0.retrieved + 1
        &&& w1.index@.len() == w0.index@.len() + 1
        &&& w1.index@.drop_last() == w0.index@
        &&& w1.index@.last()@ == Seq::<u64>::empty()
    }
    &&& !(val is Ok && name == w0.oid@) ==> {
        &&& w1.last == w0.last
        &&& w1.retrieved == w0.retrieved
        &&& w1.index == w0.index
    }
}

impl WalkVar {
    /// A walk of the column `oid` that has not started.
    pub fn new(oid: Oid) -> (r: WalkVar)
        ensures
            r.oid@ == oid@,
            r.last@ == oid@,
            !r.done,
            !r.invalid,
            r.retrieved == 0,
            r.index@ == Seq::<Oid>::empty(),
    {
        let last = oid.copy();
        WalkVar { oid, last, done: false, invalid: false, retrieved: 0, index: Vec::new() }
    }

    /// Takes a variable received for this walk (see `save_outcome`). A
    /// saved value goes to the row that its OID names within the column; the
    /// walk then continues from that OID.
    pub fn save(&mut self, name: Oid, val: VarResult, data: &mut WalkMap, quirks: &Quirks)
        requires
            old(self).retrieved < usize::MAX,
        ensures
            walk_saved(*old(self), *final(self), old(data)@, final(data)@, name@, val, *quirks),
    {
        if self.done {
            return;
        }
        if !self.oid.contains(&name) {
            self.done = true;
            return;
        }
        let end = match &val {
            Err(ErrType::EndOfMibView) => true,
            _ => false,
        };
        if end {
            self.done = true;
            return;
        }
        if (name.same(&self.last) || name.lt(&self.last)) && !quirks.ignore_oids_not_increasing {
            self.done = true;
            record_not_increasing(data, self.oid.copy());
            return;
        }
        let index = name.in_table(&self.oid);
        let index2 = index.copy();
        record_value(data, self.oid.copy(), index, val);
        self.index.push(index2);
        self.last = name;
        self.retrieved = self.retrieved + 1;
        proof {
            assert(self.index@.drop_last() =~= old(self).index@);
        }
    }

    /// Takes the reply to a GET of the column itself, made when a walk
    /// returned nothing: a value for exactly the column OID is saved as its
    /// only row; "no such instance" means the column exists but is empty;
    /// anything else means the object does not exist.
    pub fn save_get(&mut self, name: Oid, val: VarResult, data: &mut WalkMap)
        requires
            old(self).retrieved < usize::MAX,
        ensures
            walk_get_saved(*old(self), *final(self), old(data)@, final(data)@, name@, val),
    {
        let same = name.same(&self.oid);
        let res: WalkData = match val {
            Ok(v) => {
                if same {
                    assert(self.oid@.subrange(0, self.oid@.len() as int) =~= self.oid@);
                    let index = name.in_table(&self.oid);
                    proof {
                        assert(index@ =~= Seq::<u64>::empty());
                    }
                    self.index.push(index.copy());
                    proof {
                        assert(self.index@.drop_last() =~= old(self).index@);
                    }
                    self.last = name;
                    self.retrieved = self.retrieved + 1;
                    let mut rows = empty_rows();
                    rows.value.insert(index, Ok(v));
                    Ok(rows)
                } else {
                    Err(WalkError::NoSuchObject)
                }
            },
            Err(ErrType::NoSuchInstance) => Ok(empty_rows()),
            Err(_) => Err(WalkError::NoSuchObject),
        };
        data.insert(self.oid.copy(), res);
        proof {
            assert(final(data)@.dom() =~= old(data)@.dom().insert(old(self).oid@));
        }
    }
}

impl Walks {
    /// No walks.
    pub fn new() -> (r: Walks)
        ensures
            r@ == Seq::<TableV>::empty(),
    {
        Walks(Vec::new())
    }

    /// Walks of the given tables.
    pub fn from(tables: Vec<WalkTable>) -> (r: Walks)
        ensures
            r.0@ == tables@,
    {
        Walks(tables)
    }

    /// Adds a table to the list of walks.
    pub fn push(&mut self, table: WalkTable)
        ensures
            final(self).0@ == old(self).0@.push(table),
            final(self)@ == old(self)@.push(tview(table)),
    {
        self.0.push(table);
        proof {
            assert(self@ =~= old(self)@.push(tview(table)));
        }
    }

    /// Whether no table is left.
    pub fn is_empty(&self) -> (r: bool)
        ensures
            r == (self@.len() == 0),
    {
        self.0.len() == 0
    }

    /// Number of column walks.
    pub fn width(&self) -> (r: usize)
        requires
            spec_width(self@) <= usize::MAX,
        ensures
            r == spec_width(self@),
    {
        let mut w: usize = 0;
        let mut i: usize = 0;
        while i < self.0.len()
            invariant
                i <= self.0.len(),
                w == spec_width(self@.subrange(0, i as int)),
                spec_width(self@) <= usize::MAX,
            decreases self.0.len() - i,
        {
            proof {
                assert(self@.subrange(0, i + 1).drop_last() =~= self@.subrange(0, i as int));
                lemma_width_concat(self@.subrange(0, i + 1), self@.subrange(i + 1, self@.len() as int));
                assert(self@.subrange(0, i + 1) + self@.subrange(i + 1, self@.len() as int) =~= self@);
                lemma_width_vars(self@.subrange(i + 1, self@.len() as int));
            }
            w = w + self.0[i].vars.len();
            i = i + 1;
        }
        proof {
            assert(self@.subrange(0, i as int) =~= self@);
        }
        w
    }

    /// The OIDs to continue the walks from (the last OID of each walk), in order.
    pub fn oids(&self) -> (r: Vec<Oid>)
        ensures
            oid_views(r@) == all_vars(self@).map_values(|v: WalkVar| v.last@),
    {
        let mut r: Vec<Oid> = Vec::new();
        let mut i: usize = 0;
        while i < self.0.len()
            invariant
                i <= self.0.len(),
                oid_views(r@) == all_vars(self@.subrange(0, i as int)).map_values(|v: WalkVar| v.last@),
            decreases self.0.len() - i,
        {
            let ghost before = self@.subrange(0, i as int);
            proof {
                assert(self@.subrange(0, i + 1) =~= before.push(self@[i as int]));
                lemma_width_push(before, self@[i as int]);
            }
            let table = &self.0[i];
            let mut j: usize = 0;
            let ghost r0 = oid_views(r@);
            while j < table.vars.len()
                invariant
                    j <= table.vars.len(),
                    oid_views(r@) == r0 + table.vars@.subrange(0, j as int).map_values(|v: WalkVar| v.last@),
                decreases table.vars.len() - j,
            {
                let ghost rr = r@;
                r.push(table.vars[j].last.copy());
                proof {
                    assert(oid_views(r@) =~= oid_views(rr).push(table.vars@[j as int].last@));
                    assert(table.vars@.subrange(0, j + 1) =~= table.vars@.subrange(0, j as int).push(table.vars@[j as int]));
                    assert(oid_views(r@) =~= r0 + table.vars@.subrange(0, j + 1).map_values(|v: WalkVar| v.last@));
                }
                j = j + 1;
            }
            proof {
                assert(table.vars@.subrange(0, j as int) =~= table.vars@);
                assert(all_vars(self@.subrange(0, i + 1)).map_values(|v: WalkVar| v.last@)
                    =~= r0 + table.vars@.map_values(|v: WalkVar| v.last@));
            }
            i = i + 1;
        }
        proof {
            assert(self@.subrange(0, i as int) =~= self@);
        }
        r
    }

    /// Rows still expected of the table with most rows still expected, of
    /// the tables whose length is expected.
    pub fn max_expected(&self) -> (r: Option<usize>)
        ensures
            match spec_max_expected(self@) {
                Some(e) => r == Some(e as usize),
                None => r is None,
            },
    {
        let mut acc: Option<usize> = None;
        let mut i: usize = 0;
        while i < self.0.len()
            invariant
                i <= self.0.len(),
                match spec_max_expected(self@.subrange(0, i as int)) {
                    Some(e) => acc == Some(e as usize) && 0 <= e <= usize::MAX,
                    None => acc is None,
                },
            decreases self.0.len() - i,
        {
            proof {
                assert(self@.subrange(0, i + 1).drop_last() =~= self@.subrange(0, i as int));
            }
            let t = &self.0[i];
            match t.expected {
                Some(b) => {
                    let m = t.max_retrieved();
                    let d = if b > m { b - m } else { 0 };
                    acc = match acc {
                        Some(a) => Some(if a > d { a } else { d }),
                        None => Some(d),
                    };
                },
                None => {},
            }
            i = i + 1;
        }
        proof {
            assert(self@.subrange(0, i as int) =~= self@);
        }
        acc
    }

    /// Appends all tables of `walks`.
    pub fn extend(&mut self, walks: Walks)
        ensures
            final(self)@ == old(self)@ + walks@,
    {
        let mut other = walks.0;
        let ghost ov = walks@;
        let ghost mut k: int = 0;
        while other.len() > 0
            invariant
                0 <= k <= ov.len(),
                other@.len() == ov.len() - k,
                forall|j: int| 0 <= j < other@.len() ==> tview(#[trigger] other@[j]) == ov[k + j],
                self@ == old(self)@ + ov.subrange(0, k),
            decreases other@.len(),
        {
            let ghost o0 = other@;
            let t = other.remove(0);
            assert(tview(t) == ov[k]);
            assert forall|j: int| 0 <= j < other@.len() implies tview(#[trigger] other@[j]) == ov[k + 1 + j] by {
                assert(other@[j] == o0[j + 1]);
            }
            self.push(t);
            proof {
                assert(ov.subrange(0, k + 1) =~= ov.subrange(0, k).push(ov[k]));
                assert(old(self)@ + ov.subrange(0, k + 1) =~= (old(self)@ + ov.subrange(0, k)).push(ov[k]));
                k = k + 1;
            }
        }
        proof {
            assert(ov.subrange(0, k) =~= ov);
        }
    }

    /// Splits every table of more than `max_width` columns into tables of at
    /// most `max_width` columns (same expected length, order kept).
    pub fn split(&mut self, max_width: usize)
        requires
            max_width > 0,
        ensures
            final(self)@ == split_all(old(self)@, max_width as nat),
    {
        let mut pending: Vec<WalkTable> = Vec::new();
        core::mem::swap(&mut pending, &mut self.0);
        let ghost ov = old(self)@;
        let ghost w = max_width as nat;
        let ghost mut k: int = 0;
        proof {
            assert(self@ =~= split_all(ov.take(0), w));
        }
        while pending.len() > 0
            invariant
                0 <= k <= ov.len(),
                pending@.len() == ov.len() - k,
                forall|j: int| 0 <= j < pending@.len() ==> tview(#[trigger] pending@[j]) == ov[k + j],
                self@ == split_all(ov.take(k), w),
                w == max_width,
                max_width > 0,
            decreases pending@.len(),
        {
            let ghost p0 = pending@;
            let walk = pending.remove(0);
            assert(tview(walk) == ov[k]);
            assert forall|j: int| 0 <= j < pending@.len() implies tview(#[trigger] pending@[j]) == ov[k + 1 + j] by {
                assert(pending@[j] == p0[j + 1]);
            }
            let expected = walk.expected;
            let mut vars = walk.vars;
            let ghost orig = vars@;
            let ghost base = self@;
            while vars.len() > max_width
                invariant
                    base + chunks(orig, expected, w) == self@ + chunks(vars@, expected, w),
                    w == max_width,
                    max_width > 0,
                decreases vars@.len(),
            {
                let ghost before = self@;
                let ghost vv = vars@;
                let rest = vars.split_off(max_width);
                let chunk = vars;
                vars = rest;
                self.push(WalkTable { vars: chunk, expected });
                proof {
                    assert(chunks(vv, expected, w) == seq![(vv.take(w as int), expected)] + chunks(vv.skip(w as int), expected, w));
                    assert(chunk@ =~= vv.take(w as int));
                    assert(vars@ =~= vv.skip(w as int));
                    assert(before + chunks(vv, expected, w) =~= before.push((chunk@, expected)) + chunks(vars@, expected, w));
                }
            }
            let ghost before = self@;
            self.push(WalkTable { vars, expected });
            proof {
                assert(chunks(vars@, expected, w) == seq![(vars@, expected)]);
                assert(before + seq![(vars@, expected)] =~= before.push((vars@, expected)));
                assert(ov.take(k + 1).drop_last() =~= ov.take(k));
                assert(ov.take(k + 1).last() == ov[k]);
                k = k + 1;
            }
        }
        proof {
            assert(ov.take(k) =~= ov);
        }
    }

    /// Selects tables for one bulk request (see `take_run`): considered in
    /// order, a table is selected when it fits; the selected tables are
    /// returned and the others stay, in order.
    pub fn take(&mut self, available_width: usize, available_size: usize, opts: &BulkConfig, quirks: &Quirks) -> (r: Walks)
        requires
            spec_width(old(self)@) <= usize::MAX,
        ensures
            r@ == take_run(old(self)@, old(self)@.len() as int, available_width as int, available_size as int, *opts, *quirks).taken,
            final(self)@ == take_run(old(self)@, old(self)@.len() as int, available_width as int, available_size as int, *opts, *quirks).rest,
            spec_width(r@) <= available_width,
            forall|i: int| 0 <= i < r@.len() ==> ((#[trigger] r@[i]).1 matches Some(x) ==>
                request_repetitions(r@, available_size as int, *opts) <= x + opts.max_len_diff),
    {
        let mut pending: Vec<WalkTable> = Vec::new();
        core::mem::swap(&mut pending, &mut self.0);
        let ghost ov = old(self)@;
        let ghost aw = available_width as int;
        let ghost asz = available_size as int;
        let mut current = Walks::new();
        let mut max_expected: Option<usize> = None;
        let mut min_expected: Option<usize> = None;
        let mut width: usize = 0;
        let ghost mut k: int = 0;
        proof {
            assert(self@ =~= Seq::<TableV>::empty());
            assert(ov.skip(0) =~= ov);
        }
        while pending.len() > 0
            invariant
                0 <= k <= ov.len(),
                pending@.len() == ov.len() - k,
                forall|j: int| 0 <= j < pending@.len() ==> tview(#[trigger] pending@[j]) == ov[k + j],
                spec_width(ov) <= usize::MAX,
                current@ == take_run(ov, k, aw, asz, *opts, *quirks).taken,
                self@ == take_run(ov, k, aw, asz, *opts, *quirks).rest,
                width as int == take_run(ov, k, aw, asz, *opts, *quirks).width,
                max_expected == take_run(ov, k, aw, asz, *opts, *quirks).max_e,
                min_expected == take_run(ov, k, aw, asz, *opts, *quirks).min_e,
                spec_width(current@) == width,
                width <= available_width,
                width + spec_width(ov.skip(k)) <= spec_width(ov),
                aw == available_width,
                asz == available_size,
            decreases pending@.len(),
        {
            let ghost p0 = pending@;
            let walk = pending.remove(0);
            assert(tview(walk) == ov[k]);
            assert forall|j: int| 0 <= j < pending@.len() implies tview(#[trigger] pending@[j]) == ov[k + 1 + j] by {
                assert(pending@[j] == p0[j + 1]);
            }
            proof {
                assert(ov.skip(k) =~= seq![ov[k]] + ov.skip(k + 1));
                lemma_width_concat(seq![ov[k]], ov.skip(k + 1));
                lemma_all_vars_single(ov[k]);
                lemma_width_vars(ov.skip(k + 1));
            }
            let new_width = width + walk.vars.len();
            let new_max_expected = match (max_expected, walk.expected) {
                (Some(a), Some(b)) => Some(if a > b { a } else { b }),
                (None, b) => b,
                (a, None) => a,
            };
            let new_min_expected = match (min_expected, walk.expected) {
                (Some(a), Some(b)) => Some(if a < b { a } else { b }),
                (None, b) => b,
                (a, None) => a,
            };
            let new_length = opts.max_repetitions(new_max_expected, available_size, new_width);
            let fits_len = match new_min_expected {
                Some(e) => new_length <= e || new_length - e <= opts.max_len_diff,
                None => true,
            };
            let ghost st = take_run(ov, k, aw, asz, *opts, *quirks);
            proof {
                assert(take_run(ov, k + 1, aw, asz, *opts, *quirks) == take_step(st, ov[k], aw, asz, *opts, *quirks));
            }
            if new_width <= available_width && fits_len && (!quirks.invalid_packets_at_end || current.0.len() == 0) {
                let ghost cw = current@;
                current.push(walk);
                proof {
                    lemma_width_push(cw, tview(walk));
                }
                width = new_width;
                min_expected = new_min_expected;
                max_expected = new_max_expected;
            } else {
                self.push(walk);
            }
            proof {
                k = k + 1;
            }
        }
        proof {
            law_take_within_len_diff(ov, ov.len() as int, aw, asz, *opts, *quirks);
        }
        current
    }

    /// Takes back walks after a request: walks that are done are returned
    /// (for their statistics to be saved); tables with walks left are
    /// appended, with only those walks.
    pub fn reinject(&mut self, walks: Walks, stats: &mut OidMap<WalkLog>) -> (finished: Vec<WalkVar>)
        ensures
            final(self)@ == old(self)@ + pending_tables(walks@),
            finished@ == finished_vars(walks@),
            stats_view(final(stats)@) == recorded_walks(stats_view(old(stats)@), finished_vars(walks@)),
    {
        let mut finished: Vec<WalkVar> = Vec::new();
        let mut tables = walks.0;
        let ghost ov = walks@;
        let ghost mut k: int = 0;
        proof {
            assert(old(self)@ + pending_tables(ov.take(0)) =~= self@);
            assert(finished@ =~= finished_vars(ov.take(0)));
        }
        while tables.len() > 0
            invariant
                0 <= k <= ov.len(),
                tables@.len() == ov.len() - k,
                forall|j: int| 0 <= j < tables@.len() ==> tview(#[trigger] tables@[j]) == ov[k + j],
                self@ == old(self)@ + pending_tables(ov.take(k)),
                finished@ == finished_vars(ov.take(k)),
            decreases tables@.len(),
        {
            let ghost t0 = tables@;
            let table = tables.remove(0);
            assert(tview(table) == ov[k]);
            assert forall|j: int| 0 <= j < tables@.len() implies tview(#[trigger] tables@[j]) == ov[k + 1 + j] by {
                assert(tables@[j] == t0[j + 1]);
            }
            let expected = table.expected;
            let mut vars = table.vars;
            let ghost tv = vars@;
            let mut kept: Vec<WalkVar> = Vec::new();
            let ghost f0 = finished@;
            let ghost mut m: int = 0;
            while vars.len() > 0
                invariant
                    0 <= m <= tv.len(),
                    vars@ == tv.skip(m),
                    kept@ == pending_vars(tv.take(m)),
                    finished@ == f0 + done_vars(tv.take(m)),
                decreases vars@.len(),
            {
                let v = vars.remove(0);
                proof {
                    assert(v == tv[m]);
                    assert(tv.take(m + 1).drop_last() =~= tv.take(m));
                    assert(tv.take(m + 1).last() == tv[m]);
                    assert(vars@ =~= tv.skip(m + 1));
                }
                if v.done {
                    let ghost ff = finished@;
                    finished.push(v);
                    proof {
                        assert(ff.push(v) =~= f0 + done_vars(tv.take(m)).push(v));
                    }
                } else {
                    kept.push(v);
                }
                proof {
                    m = m + 1;
                }
            }
            proof {
                assert(tv.take(m) =~= tv);
                assert(ov.take(k + 1).drop_last() =~= ov.take(k));
                assert(ov.take(k + 1).last() == ov[k]);
            }
            if kept.len() > 0 {
                let ghost sv = self@;
                self.push(WalkTable { vars: kept, expected });
                proof {
                    assert(sv.push((kept@, expected)) =~= old(self)@ + pending_tables(ov.take(k)).push((kept@, expected)));
                }
            }
            proof {
                assert(finished_vars(ov.take(k + 1)) == finished_vars(ov.take(k)) + done_vars(tv));
                k = k + 1;
            }
        }
        proof {
            assert(ov.take(k) =~= ov);
        }
        record_walks(stats, &finished);
        finished
    }
}

} // verus!
