//! Planning of GETBULK requests: which walks and GETs go into the next
//! request, and with how many repetitions.

use vstd::prelude::*;

use super::config::{BulkConfig, Quirks, spec_max_repetitions};
use super::get::{GetVar, Gets, get_saved, gview};
use super::oid::{Oid, VarResult};
use super::query::{WalkData, WalkMap};
use super::walk::{TableV, TakeState, WalkTable, WalkVar, Walks, all_vars, spec_width, spec_max_expected, take_run, law_take_within_len_diff, lemma_width_concat, lemma_width_push, lemma_width_vars, tview, walk_saved};

verus! {

/// Why no request could be made of the selected walks and GETs.
#[derive(Clone, Copy, PartialEq, Eq, Structural)]
pub enum BulkPlanError {
    /// Nothing would be requested.
    EmptyQuery,
    /// The request would exceed the configured limits.
    InvalidQuery,
}

/// The content of one GETBULK request: plain GETs (non-repeaters), walks
/// (repeaters) and the number of repetitions.
pub struct BulkRequest {
    pub gets: Gets,
    pub walks: Walks,
    pub max_repetitions: usize,
}

/// The selection of walks for the next request.
pub open spec fn planned_take(ws: Seq<TableV>, opts: BulkConfig, quirks: Quirks) -> TakeState {
    take_run(ws, ws.len() as int, opts.max_width as int, opts.max_size as int, opts, quirks)
}

/// The largest number of rows still expected, as a count.
pub open spec fn expected_count(ts: Seq<TableV>) -> Option<usize> {
    match spec_max_expected(ts) {
        Some(e) => Some(e as usize),
        None => None,
    }
}

/// Repetitions for the selected walks.
pub open spec fn planned_reps(taken: Seq<TableV>, opts: BulkConfig) -> int {
    spec_max_repetitions(opts, expected_count(taken), opts.max_size as int, spec_width(taken))
}

/// Room for GETs beside the selected walks: what is left of the width and
/// of the response size; none with the `invalid_packets_at_end` quirk when
/// walks were selected.
pub open spec fn get_room(taken: Seq<TableV>, reps: int, opts: BulkConfig, quirks: Quirks) -> int {
    if quirks.invalid_packets_at_end && taken.len() > 0 {
        0
    } else {
        let a = opts.max_width - spec_width(taken);
        let b = opts.max_size - reps * spec_width(taken);
        if a < b { a } else { b }
    }
}

/// Number of GETs selected from `n` pending ones.
pub open spec fn gets_taken(n: int, room: int) -> int {
    if room < n { room } else { n }
}

/// Chooses the next request of a worker from the pending walks and GETs,
/// and removes what it chose from them. `None` when nothing is pending.
pub fn plan_request(walks: &mut Walks, gets: &mut Gets, opts: &BulkConfig, quirks: &Quirks) -> (r: Option<Result<BulkRequest, BulkPlanError>>)
    requires
        spec_width(old(walks)@) <= usize::MAX,
    ensures
        (old(walks)@.len() == 0 && old(gets)@.len() == 0) ==> {
            &&& r is None
            &&& final(walks)@ == old(walks)@
            &&& final(gets)@ == old(gets)@
        },
        !(old(walks)@.len() == 0 && old(gets)@.len() == 0) ==> {
            let st = planned_take(old(walks)@, *opts, *quirks);
            let reps = planned_reps(st.taken, *opts);
            let ng = gets_taken(old(gets)@.len() as int, get_room(st.taken, reps, *opts, *quirks));
            &&& final(walks)@ == st.rest
            &&& final(gets)@ == old(gets)@.skip(ng)
            &&& (r == Some(Err::<BulkRequest, BulkPlanError>(BulkPlanError::EmptyQuery))
                <==> (ng == 0 && (spec_width(st.taken) == 0 || reps == 0)))
            &&& r != Some(Err::<BulkRequest, BulkPlanError>(BulkPlanError::InvalidQuery))
            &&& (r matches Some(Ok(b)) ==> {
                &&& b.walks@ == st.taken
                &&& b.gets@ == old(gets)@.take(ng)
                &&& b.max_repetitions == reps
                &&& b.gets@.len() + spec_width(b.walks@) <= opts.max_width
                &&& b.max_repetitions <= opts.max_length
                &&& b.gets@.len() + b.max_repetitions * spec_width(b.walks@) <= opts.max_size
            })
            &&& (r is Some)
        },
{
    if walks.is_empty() && gets.is_empty() {
        return None;
    }
    let current_walks = walks.take(opts.max_width, opts.max_size, opts, quirks);
    let width = current_walks.width();
    let max_repetitions = opts.max_repetitions(current_walks.max_expected(), opts.max_size, width);
    let room = if quirks.invalid_packets_at_end && !current_walks.is_empty() {
        0
    } else {
        let a = opts.max_width - width;
        let b = opts.max_size - max_repetitions * width;
        if a < b { a } else { b }
    };
    let current_gets = gets.take(room);
    let n_gets = current_gets.0.len();
    proof {
        assert(current_gets@.len() == n_gets);
    }
    if n_gets == 0 && (width == 0 || max_repetitions == 0) {
        return Some(Err(BulkPlanError::EmptyQuery));
    }
    let expected_size = n_gets + max_repetitions * width;
    if n_gets + width > opts.max_width || max_repetitions > opts.max_length || expected_size > opts.max_size {
        return Some(Err(BulkPlanError::InvalidQuery));
    }
    Some(Ok(BulkRequest { gets: current_gets, walks: current_walks, max_repetitions }))
}

proof fn lemma_take_run_width(ts: Seq<TableV>, n: int, avail_width: int, avail_size: int, opts: BulkConfig, quirks: Quirks)
    requires
        0 <= n <= ts.len(),
        0 <= avail_width,
    ensures
        spec_width(take_run(ts, n, avail_width, avail_size, opts, quirks).taken) <= avail_width,
    decreases n,
{
    law_take_within_len_diff(ts, n, avail_width, avail_size, opts, quirks);
    if n > 0 {
        lemma_take_run_width(ts, n - 1, avail_width, avail_size, opts, quirks);
        law_take_within_len_diff(ts, n - 1, avail_width, avail_size, opts, quirks);
    }
}

proof fn lemma_repetitions_fit(opts: BulkConfig, e: Option<usize>, w: int)
    requires
        0 <= w,
    ensures
        0 <= spec_max_repetitions(opts, e, opts.max_size as int, w) <= opts.max_length,
        spec_max_repetitions(opts, e, opts.max_size as int, w) * w <= opts.max_size,
{
    if w > 0 {
        let e0: int = match e {
            Some(x) => x as int,
            None => opts.def_length as int,
        };
        let a = if e0 > opts.min_length { e0 } else { opts.min_length as int };
        let cap = opts.max_size as int / w;
        let b = if a < cap { a } else { cap };
        let r = spec_max_repetitions(opts, e, opts.max_size as int, w);
        assert(cap * w <= opts.max_size) by (nonlinear_arith)
            requires cap == opts.max_size as int / w, w > 0, opts.max_size >= 0;
        assert(0 <= cap) by (nonlinear_arith)
            requires cap == opts.max_size as int / w, w > 0, opts.max_size >= 0;
        assert(0 <= r <= b <= cap);
        assert(r * w <= cap * w) by (nonlinear_arith)
            requires 0 <= r <= cap, w > 0;
    }
}

/// Every request that a bulk worker sends keeps within the configured
/// limits: its GETs and walks fit in `max_width`, its repetitions in
/// `max_length`, and the variables it can bring back in `max_size`. The
/// one batch that is not sent is an empty one (no GET, and no walk or no
/// repetition), which ends the worker with `EmptyQuery`.
pub proof fn law_bulk_request_limits(ws: Seq<TableV>, pending_gets: nat, opts: BulkConfig, quirks: Quirks)
    ensures
        ({
            let st = planned_take(ws, opts, quirks);
            let w = spec_width(st.taken);
            let reps = planned_reps(st.taken, opts);
            let ng = gets_taken(pending_gets as int, get_room(st.taken, reps, opts, quirks));
            ||| (ng == 0 && (w == 0 || reps == 0))
            ||| {
                &&& 0 <= ng
                &&& ng + w <= opts.max_width
                &&& reps <= opts.max_length
                &&& ng + reps * w <= opts.max_size
            }
        }),
{
    let st = planned_take(ws, opts, quirks);
    lemma_take_run_width(ws, ws.len() as int, opts.max_width as int, opts.max_size as int, opts, quirks);
    let w = spec_width(st.taken);
    lemma_width_vars(st.taken);
    lemma_repetitions_fit(opts, expected_count(st.taken), w);
}

/// The number of GETs of a request that receive a variable of a response
/// with `n_vars` variables.
pub open spec fn gets_served(n_gets: int, n_vars: int) -> int {
    if n_gets < n_vars { n_gets } else { n_vars }
}

/// `b` has the tables of `a` in shape: as many tables, each with the same
/// expected length and as many column walks.
pub open spec fn same_shape(a: Seq<TableV>, b: Seq<TableV>) -> bool {
    &&& a.len() == b.len()
    &&& forall|i: int| 0 <= i < a.len() ==> (#[trigger] b[i]).1 == a[i].1 && b[i].0.len() == a[i].0.len()
}

/// Step `k` of a delivery to the GETs: the `k`-th GET takes the `k`-th
/// variable (see `get_saved`), the data going from `ds[k]` to `ds[k + 1]`.
pub open spec fn get_step(
    gs0: Seq<GetVar>,
    gs1: Seq<GetVar>,
    ds: Seq<Map<Seq<u64>, WalkData>>,
    vars: Seq<(Oid, VarResult)>,
    k: int,
) -> bool {
    get_saved(gs0[k], gs1[k], ds[k], ds[k + 1], vars[k].0@, vars[k].1)
}

/// Step `m` of a delivery to the walks: the `m`-th variable after those of
/// the GETs goes to the column walk `m` modulo their number, in table
/// order (see `walk_saved`); the column walks go from `snaps[m]` to
/// `snaps[m + 1]`, which differ in that walk only.
pub open spec fn walk_step(
    snaps: Seq<Seq<WalkVar>>,
    ds: Seq<Map<Seq<u64>, WalkData>>,
    vars: Seq<(Oid, VarResult)>,
    g: int,
    m: int,
    q: Quirks,
) -> bool {
    let c = m % (snaps[0].len() as int);
    &&& snaps[m + 1] == snaps[m].update(c, snaps[m + 1][c])
    &&& walk_saved(snaps[m][c], snaps[m + 1][c], ds[g + m], ds[g + m + 1], vars[g + m].0@, vars[g + m].1, q)
}

/// The steps of a delivery, with the data `ds` after each variable and the
/// column walks `snaps` after each variable given to a walk.
pub open spec fn delivered_by(
    ds: Seq<Map<Seq<u64>, WalkData>>,
    snaps: Seq<Seq<WalkVar>>,
    gs0: Seq<GetVar>,
    gs1: Seq<GetVar>,
    ts0: Seq<TableV>,
    ts1: Seq<TableV>,
    vars: Seq<(Oid, VarResult)>,
    d0: Map<Seq<u64>, WalkData>,
    d1: Map<Seq<u64>, WalkData>,
    q: Quirks,
) -> bool {
    let g = gets_served(gs0.len() as int, vars.len() as int);
    &&& ds.len() == vars.len() + 1
    &&& ds[0] == d0
    &&& ds[vars.len() as int] == d1
    &&& snaps.len() == vars.len() - g + 1
    &&& snaps[0] == all_vars(ts0)
    &&& snaps[vars.len() - g] == all_vars(ts1)
    &&& same_shape(ts0, ts1)
    &&& gs1.len() == gs0.len()
    &&& forall|k: int| 0 <= k < g ==> #[trigger] get_step(gs0, gs1, ds, vars, k)
    &&& forall|k: int| g <= k < gs0.len() ==> #[trigger] gs1[k] == gs0[k]
    &&& forall|m: int| 0 <= m < vars.len() - g ==> #[trigger] walk_step(snaps, ds, vars, g, m, q)
}

/// What delivering the variables of a GETBULK response does: the first
/// ones go, one each, to the GETs in order; the rest go round-robin to the
/// column walks, in table order; each variable is saved by its receiver as
/// `GetVar::save` and `WalkVar::save` do, one after the other.
pub open spec fn delivery(
    gs0: Seq<GetVar>,
    gs1: Seq<GetVar>,
    ts0: Seq<TableV>,
    ts1: Seq<TableV>,
    vars: Seq<(Oid, VarResult)>,
    d0: Map<Seq<u64>, WalkData>,
    d1: Map<Seq<u64>, WalkData>,
    q: Quirks,
) -> bool {
    exists|ds: Seq<Map<Seq<u64>, WalkData>>, snaps: Seq<Seq<WalkVar>>|
        #[trigger] delivered_by(ds, snaps, gs0, gs1, ts0, ts1, vars, d0, d1, q)
}

proof fn lemma_take_width(ts: Seq<TableV>, i: int)
    requires
        0 <= i < ts.len(),
    ensures
        spec_width(ts.take(i + 1)) == spec_width(ts.take(i)) + ts[i].0.len(),
        all_vars(ts.take(i + 1)) == all_vars(ts.take(i)) + ts[i].0,
        spec_width(ts.take(i + 1)) <= spec_width(ts),
{
    assert(ts.take(i + 1) =~= ts.take(i).push(ts[i]));
    lemma_width_push(ts.take(i), ts[i]);
    assert(ts.take(i + 1) + ts.skip(i + 1) =~= ts);
    lemma_width_concat(ts.take(i + 1), ts.skip(i + 1));
    lemma_width_vars(ts.skip(i + 1));
}

/// Delivers the variables of a GETBULK response (see `delivery`). Returns
/// the number of variables delivered.
pub fn deliver_response(req: &mut BulkRequest, vars: Vec<(Oid, VarResult)>, data: &mut WalkMap, quirks: &Quirks) -> (count: usize)
    requires
        all_vars(old(req).walks@).len() > 0 || vars@.len() <= old(req).gets.0@.len(),
        forall|c: int| 0 <= c < all_vars(old(req).walks@).len()
            ==> (#[trigger] all_vars(old(req).walks@)[c]).retrieved + vars@.len() < usize::MAX,
    ensures
        count == vars@.len(),
        final(req).max_repetitions == old(req).max_repetitions,
        delivery(old(req).gets.0@, final(req).gets.0@, old(req).walks@, final(req).walks@, vars@, old(data)@, final(data)@, *quirks),
{
    let n = vars.len();
    let ghost vs0 = vars@;
    let ghost gs0 = req.gets.0@;
    let ghost ts0 = req.walks@;
    let ghost d0 = data@;
    let ghost reps = req.max_repetitions;
    let ghost mut ds: Seq<Map<Seq<u64>, WalkData>> = seq![d0];
    let mut rest = vars;

    /* The GETs, one variable each. */
    let mut pending: Vec<GetVar> = Vec::new();
    core::mem::swap(&mut pending, &mut req.gets.0);
    let mut served: Vec<GetVar> = Vec::new();
    let mut k: usize = 0;
    while pending.len() > 0
        invariant
            served@.len() + pending@.len() == gs0.len(),
            pending@ == gs0.skip(served@.len() as int),
            n == vs0.len(),
            k as int == gets_served(served@.len() as int, n as int),
            rest@ == vs0.skip(k as int),
            ds.len() == k + 1,
            ds[0] == d0,
            ds[k as int] == data@,
            forall|j: int| 0 <= j < k ==> #[trigger] get_step(gs0, served@, ds, vs0, j),
            forall|j: int| k <= j < served@.len() ==> #[trigger] served@[j] == gs0[j],
            req.walks@ == ts0,
            req.max_repetitions == reps,
        decreases pending@.len(),
    {
        let ghost o = served@.len() as int;
        let ghost s0 = served@;
        let ghost ds0 = ds;
        let mut gv = pending.remove(0);
        proof {
            assert(gv == gs0[o]);
            assert(pending@ =~= gs0.skip(o + 1));
        }
        if k < n {
            let (name, val) = rest.remove(0);
            proof {
                assert((name, val) == vs0[k as int]);
                assert(rest@ =~= vs0.skip(k + 1));
            }
            gv.save(name, val, data);
            proof {
                ds = ds.push(data@);
            }
            k = k + 1;
        }
        served.push(gv);
        proof {
            assert forall|j: int| 0 <= j < k implies #[trigger] get_step(gs0, served@, ds, vs0, j) by {
                assert(served@[j] == if j < o { s0[j] } else { gv });
                if j < k - 1 || k as int == ds0.len() - 1 {
                    assert(ds[j] == ds0[j]);
                    assert(ds[j + 1] == ds0[j + 1]);
                    assert(get_step(gs0, s0, ds0, vs0, j));
                }
            }
            assert forall|j: int| k <= j < served@.len() implies #[trigger] served@[j] == gs0[j] by {
                if j < o {
                    assert(served@[j] == s0[j]);
                }
            }
        }
    }
    req.gets.0 = served;
    let ghost gs1 = req.gets.0@;
    let g = k;
    proof {
        assert(gs0.skip(served@.len() as int).len() == 0);
    }

    /* The column walks, in table order. */
    let ghost s0 = all_vars(ts0);
    let mut tables: Vec<WalkTable> = Vec::new();
    core::mem::swap(&mut tables, &mut req.walks.0);
    let mut flat: Vec<WalkVar> = Vec::new();
    let mut shapes: Vec<(usize, Option<usize>)> = Vec::new();
    proof {
        assert(ts0.take(0) =~= Seq::<TableV>::empty());
        assert(tables@.map_values(|t: WalkTable| tview(t)) =~= ts0.skip(0));
    }
    while tables.len() > 0
        invariant
            tables@.map_values(|t: WalkTable| tview(t)) == ts0.skip(shapes@.len() as int),
            shapes@.len() <= ts0.len(),
            flat@ == all_vars(ts0.take(shapes@.len() as int)),
            forall|i: int| 0 <= i < shapes@.len() ==> (#[trigger] shapes@[i]).0 == ts0[i].0.len() && shapes@[i].1 == ts0[i].1,
        decreases tables@.len(),
    {
        let ghost i = shapes@.len() as int;
        let ghost tb0 = tables@;
        let table = tables.remove(0);
        proof {
            let tv1 = tables@.map_values(|t: WalkTable| tview(t));
            let tv0 = tb0.map_values(|t: WalkTable| tview(t));
            assert(tv0.len() == tb0.len());
            assert(tv0 == ts0.skip(i));
            assert(i < ts0.len());
            assert(tv0[0] == ts0.skip(i)[0]);
            assert(tview(table) == tv0[0]);
            assert(tview(table) == ts0[i]);
            assert forall|j: int| 0 <= j < tv1.len() implies #[trigger] tv1[j] == ts0.skip(i + 1)[j] by {
                assert(tables@[j] == tb0[j + 1]);
                assert(tv0[j + 1] == ts0.skip(i)[j + 1]);
            }
            assert(tv1 =~= ts0.skip(i + 1));
            lemma_take_width(ts0, i);
        }
        let expected = table.expected;
        let mut vs = table.vars;
        let nv = vs.len();
        flat.append(&mut vs);
        shapes.push((nv, expected));
    }
    proof {
        assert(ts0.take(ts0.len() as int) =~= ts0);
        lemma_width_vars(ts0);
    }

    /* Round-robin over the column walks. */
    let w = flat.len();
    let ghost mut snaps: Seq<Seq<WalkVar>> = seq![flat@];
    while k < n
        invariant
            g <= k <= n,
            n == vs0.len(),
            g as int == gets_served(gs0.len() as int, n as int),
            rest@ == vs0.skip(k as int),
            w == flat@.len(),
            s0 == all_vars(ts0),
            w == s0.len(),
            w > 0 || n <= gs0.len(),
            snaps.len() == k - g + 1,
            snaps[0] == s0,
            snaps[k - g] == flat@,
            ds.len() == k + 1,
            ds[0] == d0,
            ds[k as int] == data@,
            forall|j: int| 0 <= j < g ==> #[trigger] get_step(gs0, gs1, ds, vs0, j),
            forall|m: int| 0 <= m < k - g ==> #[trigger] walk_step(snaps, ds, vs0, g as int, m, *quirks),
            forall|c: int| 0 <= c < w ==> (#[trigger] flat@[c]).retrieved <= s0[c].retrieved + (k - g),
            forall|c: int| 0 <= c < w ==> (#[trigger] s0[c]).retrieved + n < usize::MAX,
            req.gets.0@ == gs1,
            req.max_repetitions == reps,
        decreases n - k,
    {
        let c = (k - g) % w;
        let ghost m = (k - g) as int;
        let ghost f0 = flat@;
        let ghost ds0 = ds;
        let ghost sn0 = snaps;
        let (name, val) = rest.remove(0);
        proof {
            assert((name, val) == vs0[k as int]);
            assert(rest@ =~= vs0.skip(k + 1));
            assert(f0[c as int].retrieved <= s0[c as int].retrieved + (k - g));
            assert(s0[c as int].retrieved + n < usize::MAX);
        }
        let mut v = flat.remove(c);
        v.save(name, val, data, quirks);
        flat.insert(c, v);
        proof {
            ds = ds.push(data@);
            snaps = snaps.push(flat@);
            assert(flat@ =~= f0.update(c as int, v));
            assert forall|j: int| 0 <= j < g implies #[trigger] get_step(gs0, gs1, ds, vs0, j) by {
                assert(ds[j] == ds0[j]);
                assert(ds[j + 1] == ds0[j + 1]);
                assert(get_step(gs0, gs1, ds0, vs0, j));
            }
            assert forall|mm: int| 0 <= mm < k + 1 - g implies #[trigger] walk_step(snaps, ds, vs0, g as int, mm, *quirks) by {
                if mm < m {
                    assert(walk_step(sn0, ds0, vs0, g as int, mm, *quirks));
                    assert(snaps[mm] == sn0[mm]);
                    assert(snaps[mm + 1] == sn0[mm + 1]);
                    assert(ds[g + mm] == ds0[g + mm]);
                    assert(ds[g + mm + 1] == ds0[g + mm + 1]);
                } else {
                    assert(mm == m);
                    assert(snaps[0] == s0);
                    assert(snaps[mm] == f0);
                    assert(snaps[mm + 1] == flat@);
                }
            }
            assert forall|cc: int| 0 <= cc < w implies (#[trigger] flat@[cc]).retrieved <= s0[cc].retrieved + (k + 1 - g) by {
                if cc != c {
                    assert(flat@[cc] == f0[cc]);
                }
            }
        }
        k = k + 1;
    }

    /* The tables again, in their shapes. */
    let ghost fin = flat@;
    let mut out: Vec<WalkTable> = Vec::new();
    let mut si: usize = 0;
    proof {
        assert(ts0.take(0) =~= Seq::<TableV>::empty());
        assert(out@.map_values(|t: WalkTable| tview(t)) =~= Seq::<TableV>::empty());
        assert(fin.skip(0) =~= fin);
        assert(fin.take(0) =~= Seq::<WalkVar>::empty());
    }
    while si < shapes.len()
        invariant
            shapes@.len() == ts0.len(),
            forall|i: int| 0 <= i < shapes@.len() ==> (#[trigger] shapes@[i]).0 == ts0[i].0.len() && shapes@[i].1 == ts0[i].1,
            si <= shapes@.len(),
            out@.len() == si,
            same_shape(ts0.take(si as int), out@.map_values(|t: WalkTable| tview(t))),
            all_vars(out@.map_values(|t: WalkTable| tview(t))) == fin.take(spec_width(ts0.take(si as int))),
            flat@ == fin.skip(spec_width(ts0.take(si as int))),
            fin.len() == spec_width(ts0),
            0 <= spec_width(ts0.take(si as int)) <= fin.len(),
            req.gets.0@ == gs1,
            req.max_repetitions == reps,
        decreases shapes.len() - si,
    {
        let (len, exp) = shapes[si];
        let ghost base = spec_width(ts0.take(si as int));
        proof {
            lemma_take_width(ts0, si as int);
        }
        let mut vs: Vec<WalkVar> = Vec::new();
        let mut j: usize = 0;
        proof {
            assert(fin.subrange(base, base) =~= Seq::<WalkVar>::empty());
        }
        while j < len
            invariant
                j <= len,
                base + len <= fin.len(),
                0 <= base,
                flat@ == fin.skip(base + j),
                vs@ == fin.subrange(base, base + j),
            decreases len - j,
        {
            let ghost f0 = flat@;
            let x = flat.remove(0);
            proof {
                assert(x == fin[base + j]);
                assert(flat@ =~= fin.skip(base + j + 1));
            }
            vs.push(x);
            proof {
                assert(vs@ =~= fin.subrange(base, base + j + 1));
            }
            j = j + 1;
        }
        let ghost ov = out@.map_values(|t: WalkTable| tview(t));
        let nt = WalkTable { vars: vs, expected: exp };
        out.push(nt);
        proof {
            let nv = out@.map_values(|t: WalkTable| tview(t));
            assert(nv =~= ov.push(tview(nt)));
            lemma_width_push(ov, tview(nt));
            assert(fin.take(base) + fin.subrange(base, base + len) =~= fin.take(base + len));
            assert(ts0.take(si + 1) =~= ts0.take(si as int).push(ts0[si as int]));
            assert forall|i: int| 0 <= i < si + 1 implies (#[trigger] nv[i]).1 == ts0.take(si + 1)[i].1 && nv[i].0.len() == ts0.take(si + 1)[i].0.len() by {
                if i < si {
                    assert(nv[i] == ov[i]);
                    assert(ts0.take(si + 1)[i] == ts0.take(si as int)[i]);
                }
            }
        }
        si = si + 1;
    }
    req.walks.0 = out;
    proof {
        assert(ts0.take(ts0.len() as int) =~= ts0);
        assert(fin.take(fin.len() as int) =~= fin);
        assert(delivered_by(ds, snaps, gs0, gs1, ts0, req.walks@, vs0, d0, data@, *quirks));
    }
    n
}

} // verus!
