//! The decisions of a metrics request: which metrics and aggregations to
//! ask for, in which chunks and from when; which points of a time series
//! count; what a response's codes mean; and which value each field gets.

use vstd::prelude::*;

use crate::common::data::{Data, DataError, DataErrorV, FloatRepr, FloatV, Value, ValueV, data_view, strings_view};
use crate::common::regex::{regex_compiles, regex_finds, regex_is_match};
use crate::common::search::{contains_string, find_first, find_text, first_occurrence, lemma_push_contains, occurs_at};
use crate::common::strmap::StrMap;
use crate::common::text::{chars_of, push_str, string_from_chars};
use super::input::{Aggregation, MetricSpec, aggregation_name, is_pseudo_metric, pseudo_metric};
use super::schema::{MetaDataValue, Metric, MetricValue, TimeSeriesElement, point_has_data};
use vstd::string::{StringExecFns, StrSliceExecFns};
use vstd::utf8::encode_utf8;

verus! {

/// The text before the resource group in a resource id.
pub open spec fn group_marker() -> Seq<char> {
    "/resourceGroups/"@
}

/// The resource group that a resource id names: the text after the first
/// `/resourceGroups/` up to the next `/`.
pub open spec fn resource_group_of(id: Seq<char>) -> Option<Seq<char>> {
    match find_text(id, group_marker()) {
        None => None,
        Some(i) => {
            let rest = id.subrange(i + group_marker().len(), id.len() as int);
            match find_text(rest, seq!['/']) {
                None => None,
                Some(j) => Some(rest.subrange(0, j)),
            }
        },
    }
}

fn copy_chars(s: &Vec<char>, from: usize, to: usize) -> (r: Vec<char>)
    requires
        from <= to <= s@.len(),
    ensures
        r@ == s@.subrange(from as int, to as int),
{
    let mut r: Vec<char> = Vec::new();
    let mut i: usize = from;
    while i < to
        invariant
            from <= i <= to <= s@.len(),
            r@ == s@.subrange(from as int, i as int),
        decreases to - i,
    {
        r.push(s[i]);
        proof {
            assert(r@ =~= s@.subrange(from as int, i + 1));
        }
        i = i + 1;
    }
    r
}

/// The resource group that a resource id names (see `resource_group_of`).
pub fn get_resource_group(resource_id: &str) -> (r: Option<String>)
    ensures
        match r {
            Some(g) => resource_group_of(resource_id@) == Some(g@),
            None => resource_group_of(resource_id@) is None,
        },
{
    let id = chars_of(resource_id);
    let marker = chars_of("/resourceGroups/");
    proof {
        reveal_strlit("/resourceGroups/");
    }
    match find_first(id.as_slice(), marker.as_slice()) {
        None => None,
        Some(i) => {
            let n = id.len();
            proof {
                assert(occurs_at(id@, marker@, i as int));
                assert(i + marker@.len() <= n);
            }
            let start = i + marker.len();
            let rest = copy_chars(&id, start, id.len());
            let slash: Vec<char> = vec!['/'];
            proof {
                assert(slash@ =~= seq!['/']);
            }
            match find_first(rest.as_slice(), slash.as_slice()) {
                None => None,
                Some(j) => {
                    let g = copy_chars(&rest, 0, j);
                    Some(string_from_chars(g.as_slice()))
                },
            }
        },
    }
}

/// The distinct items of a list of texts.
pub open spec fn distinct_of(items: Seq<Seq<char>>, r: Seq<Seq<char>>) -> bool {
    r.no_duplicates() && forall|m: Seq<char>| #[trigger] r.contains(m) <==> items.contains(m)
}

/// The metric names of the fields.
pub open spec fn metric_names(specs: Seq<&MetricSpec>) -> Seq<Seq<char>> {
    specs.map_values(|m: &MetricSpec| m.metric_name@)
}

/// The dimension value of each field (the empty text when it has none).
pub open spec fn dimension_texts(specs: Seq<&MetricSpec>) -> Seq<Seq<char>> {
    specs.map_values(|m: &MetricSpec| match m.dimension_value {
        Some(d) => d@,
        None => Seq::<char>::empty(),
    })
}

fn add_distinct(out: &mut Vec<String>, x: &String)
    requires
        strings_view(old(out)@).no_duplicates(),
    ensures
        strings_view(final(out)@).no_duplicates(),
        forall|m: Seq<char>| #[trigger] strings_view(final(out)@).contains(m) <==> (strings_view(old(out)@).contains(m) || m == x@),
{
    if !contains_string(out, x) {
        let ghost o0 = strings_view(out@);
        out.push(x.clone());
        proof {
            assert(strings_view(out@) =~= o0.push(x@));
            lemma_push_contains(o0, x@);
        }
    }
}

/// The metrics to request: each metric name of the fields once.
pub fn requested_metrics(specs: &Vec<&MetricSpec>) -> (r: Vec<String>)
    ensures
        distinct_of(metric_names(specs@), strings_view(r@)),
{
    let mut out: Vec<String> = Vec::new();
    let mut i: usize = 0;
    while i < specs.len()
        invariant
            i <= specs@.len(),
            strings_view(out@).no_duplicates(),
            forall|m: Seq<char>| #[trigger] strings_view(out@).contains(m) <==> metric_names(specs@).take(i as int).contains(m),
        decreases specs.len() - i,
    {
        proof {
            assert(metric_names(specs@).take(i + 1) =~= metric_names(specs@).take(i as int).push(specs@[i as int].metric_name@));
            lemma_push_contains(metric_names(specs@).take(i as int), specs@[i as int].metric_name@);
        }
        add_distinct(&mut out, &specs[i].metric_name);
        i = i + 1;
    }
    proof {
        assert(metric_names(specs@).take(i as int) =~= metric_names(specs@));
    }
    out
}

/// The dimension values that the fields ask for, each once (the empty text
/// for a field without one).
pub fn requested_dimensions(specs: &Vec<&MetricSpec>) -> (r: Vec<String>)
    ensures
        distinct_of(dimension_texts(specs@), strings_view(r@)),
{
    let mut out: Vec<String> = Vec::new();
    let mut i: usize = 0;
    while i < specs.len()
        invariant
            i <= specs@.len(),
            strings_view(out@).no_duplicates(),
            forall|m: Seq<char>| #[trigger] strings_view(out@).contains(m) <==> dimension_texts(specs@).take(i as int).contains(m),
        decreases specs.len() - i,
    {
        let d = match &specs[i].dimension_value {
            Some(d) => d.clone(),
            None => String::new(),
        };
        proof {
            assert(dimension_texts(specs@).take(i + 1) =~= dimension_texts(specs@).take(i as int).push(d@));
            lemma_push_contains(dimension_texts(specs@).take(i as int), d@);
        }
        add_distinct(&mut out, &d);
        i = i + 1;
    }
    proof {
        assert(dimension_texts(specs@).take(i as int) =~= dimension_texts(specs@));
    }
    out
}

/// Whether a list of aggregations holds `a`.
pub fn has_aggregation(v: &Vec<Aggregation>, a: Aggregation) -> (r: bool)
    ensures
        r == v@.contains(a),
{
    let mut i: usize = 0;
    while i < v.len()
        invariant
            i <= v@.len(),
            forall|j: int| 0 <= j < i ==> v@[j] != a,
        decreases v.len() - i,
    {
        if v[i] == a {
            return true;
        }
        i = i + 1;
    }
    false
}

fn add_aggregation(out: &mut Vec<Aggregation>, a: Aggregation)
    requires
        old(out)@.no_duplicates(),
    ensures
        final(out)@.no_duplicates(),
        forall|b: Aggregation| #[trigger] final(out)@.contains(b) <==> (old(out)@.contains(b) || b == a),
{
    if !has_aggregation(out, a) {
        let ghost o0 = out@;
        out.push(a);
        proof {
            assert forall|b: Aggregation| #[trigger] out@.contains(b) <==> (o0.contains(b) || b == a) by {
                if o0.contains(b) {
                    let k = choose|k: int| 0 <= k < o0.len() && o0[k] == b;
                    assert(out@[k] == b);
                }
                if b == a {
                    assert(out@[o0.len() as int] == a);
                }
            }
        }
    }
}

/// The aggregation of some field is `a`.
pub open spec fn some_field_aggregates(specs: Seq<&MetricSpec>, a: Aggregation) -> bool {
    exists|i: int| 0 <= i < specs.len() && (#[trigger] specs[i]).aggregation == a
}

/// The aggregations to compute: those of the fields, each once.
pub fn aggregations_to_calculate(specs: &Vec<&MetricSpec>) -> (r: Vec<Aggregation>)
    ensures
        r@.no_duplicates(),
        forall|a: Aggregation| #[trigger] r@.contains(a) <==> some_field_aggregates(specs@, a),
{
    let mut out: Vec<Aggregation> = Vec::new();
    let mut i: usize = 0;
    while i < specs.len()
        invariant
            i <= specs@.len(),
            out@.no_duplicates(),
            forall|a: Aggregation| #[trigger] out@.contains(a) <==> some_field_aggregates(specs@.take(i as int), a),
        decreases specs.len() - i,
    {
        add_aggregation(&mut out, specs[i].aggregation);
        proof {
            let t = specs@.take(i + 1);
            assert forall|a: Aggregation| #[trigger] out@.contains(a) <==> some_field_aggregates(t, a) by {
                if some_field_aggregates(t, a) {
                    let k = choose|k: int| 0 <= k < t.len() && (#[trigger] t[k]).aggregation == a;
                    if k < i {
                        assert(specs@.take(i as int)[k] == t[k]);
                    }
                }
                if some_field_aggregates(specs@.take(i as int), a) {
                    let k = choose|k: int| 0 <= k < i && (#[trigger] specs@.take(i as int)[k]).aggregation == a;
                    assert(t[k] == specs@.take(i as int)[k]);
                }
                if a == specs@[i as int].aggregation {
                    assert(t[i as int] == specs@[i as int]);
                }
            }
        }
        i = i + 1;
    }
    proof {
        assert(specs@.take(i as int) =~= specs@);
    }
    out
}

/// The aggregations to request from Azure: always the count; an average
/// is computed from the total and the count; any other aggregation of a
/// field is requested as it is.
pub open spec fn requests_aggregation(specs: Seq<&MetricSpec>, a: Aggregation) -> bool {
    ||| a == Aggregation::Count
    ||| (a != Aggregation::Average && some_field_aggregates(specs, a))
    ||| (a == Aggregation::Total && some_field_aggregates(specs, Aggregation::Average))
}

/// The aggregations to request from Azure (see `requests_aggregation`),
/// each once.
pub fn aggregations_to_request(specs: &Vec<&MetricSpec>) -> (r: Vec<Aggregation>)
    ensures
        r@.no_duplicates(),
        forall|a: Aggregation| #[trigger] r@.contains(a) <==> requests_aggregation(specs@, a),
{
    let calc = aggregations_to_calculate(specs);
    let mut out: Vec<Aggregation> = Vec::new();
    let mut i: usize = 0;
    while i < calc.len()
        invariant
            i <= calc@.len(),
            out@.no_duplicates(),
            forall|a: Aggregation| #[trigger] out@.contains(a) <==> (
                (a != Aggregation::Average && calc@.take(i as int).contains(a))
                || (a == Aggregation::Total && calc@.take(i as int).contains(Aggregation::Average))
                || (a == Aggregation::Count && calc@.take(i as int).contains(Aggregation::Average))),
        decreases calc.len() - i,
    {
        proof {
            assert(calc@.take(i + 1) =~= calc@.take(i as int).push(calc@[i as int]));
            lemma_push_contains(calc@.take(i as int), calc@[i as int]);
        }
        if calc[i] == Aggregation::Average {
            add_aggregation(&mut out, Aggregation::Total);
            add_aggregation(&mut out, Aggregation::Count);
        } else {
            add_aggregation(&mut out, calc[i]);
        }
        i = i + 1;
    }
    proof {
        assert(calc@.take(i as int) =~= calc@);
    }
    add_aggregation(&mut out, Aggregation::Count);
    out
}

/// The names of a list of aggregations, separated by `,`.
pub open spec fn aggregation_list(aggs: Seq<Aggregation>) -> Seq<char>
    decreases aggs.len(),
{
    if aggs.len() == 0 {
        Seq::empty()
    } else if aggs.len() == 1 {
        aggregation_name(aggs[0])
    } else {
        aggregation_list(aggs.drop_last()) + ","@ + aggregation_name(aggs.last())
    }
}

/// The names of a list of aggregations, separated by `,` (the
/// `aggregation` parameter of a request).
pub fn aggregation_text(aggs: &Vec<Aggregation>) -> (r: String)
    ensures
        r@ == aggregation_list(aggs@),
{
    let mut out: Vec<char> = Vec::new();
    let mut i: usize = 0;
    while i < aggs.len()
        invariant
            i <= aggs@.len(),
            out@ == aggregation_list(aggs@.take(i as int)),
        decreases aggs.len() - i,
    {
        proof {
            assert(aggs@.take(i + 1).drop_last() =~= aggs@.take(i as int));
            assert(aggs@.take(i + 1).last() == aggs@[i as int]);
        }
        if i > 0 {
            push_str(&mut out, ",");
        }
        let name = aggs[i].to_text();
        push_str(&mut out, name.as_str());
        proof {
            assert(out@ =~= aggregation_list(aggs@.take(i + 1)));
        }
        i = i + 1;
    }
    proof {
        assert(aggs@.take(i as int) =~= aggs@);
    }
    string_from_chars(out.as_slice())
}

/// The most metric names that one request asks for.
pub const CHUNK_SIZE: usize = 20;

/// The chunks of a list: concatenated they give the list; each has at most
/// `CHUNK_SIZE` items and every chunk but the last exactly that many.
pub open spec fn is_chunking(names: Seq<Seq<char>>, chunks: Seq<Seq<Seq<char>>>) -> bool {
    &&& chunks.flatten() == names
    &&& forall|k: int| 0 <= k < chunks.len() ==> 0 < (#[trigger] chunks[k]).len() <= CHUNK_SIZE
    &&& forall|k: int| 0 <= k < chunks.len() - 1 ==> (#[trigger] chunks[k]).len() == CHUNK_SIZE
}

/// The metric names split into the chunks that are requested together.
pub fn metric_chunks(names: &Vec<String>) -> (r: Vec<Vec<String>>)
    ensures
        is_chunking(strings_view(names@), r@.map_values(|c: Vec<String>| strings_view(c@))),
{
    let mut out: Vec<Vec<String>> = Vec::new();
    let mut cur: Vec<String> = Vec::new();
    let mut i: usize = 0;
    while i < names.len()
        invariant
            i <= names@.len(),
            cur@.len() < CHUNK_SIZE,
            out@.map_values(|c: Vec<String>| strings_view(c@)).flatten() + strings_view(cur@) == strings_view(names@).take(i as int),
            forall|k: int| 0 <= k < out@.len() ==> (#[trigger] out@[k])@.len() == CHUNK_SIZE,
        decreases names.len() - i,
    {
        let ghost done = out@.map_values(|c: Vec<String>| strings_view(c@));
        let ghost c0 = strings_view(cur@);
        cur.push(names[i].clone());
        proof {
            assert(strings_view(cur@) =~= c0.push(names@[i as int]@));
            assert(strings_view(names@).take(i + 1) =~= strings_view(names@).take(i as int).push(names@[i as int]@));
        }
        if cur.len() == CHUNK_SIZE {
            let full = cur;
            cur = Vec::new();
            let ghost fv = strings_view(full@);
            out.push(full);
            proof {
                assert(out@.map_values(|c: Vec<String>| strings_view(c@)) =~= done.push(fv));
                done.lemma_flatten_push(fv);
                assert(strings_view(cur@) =~= Seq::<Seq<char>>::empty());
            }
        }
        i = i + 1;
    }
    if cur.len() > 0 {
        let ghost done = out@.map_values(|c: Vec<String>| strings_view(c@));
        let ghost cv = strings_view(cur@);
        out.push(cur);
        proof {
            assert(out@.map_values(|c: Vec<String>| strings_view(c@)) =~= done.push(cv));
            done.lemma_flatten_push(cv);
        }
    } else {
        proof {
            assert(strings_view(cur@) =~= Seq::<Seq<char>>::empty());
        }
    }
    proof {
        assert(strings_view(names@).take(i as int) =~= strings_view(names@));
        let cs = out@.map_values(|c: Vec<String>| strings_view(c@));
        assert forall|k: int| 0 <= k < cs.len() implies 0 < (#[trigger] cs[k]).len() <= CHUNK_SIZE by {
            assert(cs[k] == strings_view(out@[k]@));
        }
        assert forall|k: int| 0 <= k < cs.len() - 1 implies (#[trigger] cs[k]).len() == CHUNK_SIZE by {
            assert(cs[k] == strings_view(out@[k]@));
        }
    }
    out
}

/// `a` is no later than `b` (instants as seconds and nanoseconds).
pub open spec fn instant_le(a: (i64, u32), b: (i64, u32)) -> bool {
    a.0 < b.0 || (a.0 == b.0 && a.1 <= b.1)
}

/// Whether `a` is no later than `b`.
pub fn no_later(a: (i64, u32), b: (i64, u32)) -> (r: bool)
    ensures
        r == instant_le(a, b),
{
    a.0 < b.0 || (a.0 == b.0 && a.1 <= b.1)
}

/// The earlier of an optional instant and another one: the second when the
/// first is missing.
pub open spec fn earlier(a: Option<(i64, u32)>, b: (i64, u32)) -> (i64, u32) {
    match a {
        Some(x) => if instant_le(x, b) { x } else { b },
        None => b,
    }
}

/// The earliest instant that the timestamps hold for the given metrics.
pub open spec fn earliest_of(names: Seq<Seq<char>>, stamps: Map<Seq<char>, (i64, u32)>) -> Option<(i64, u32)>
    decreases names.len(),
{
    if names.len() == 0 {
        None
    } else {
        let rest = earliest_of(names.drop_last(), stamps);
        if stamps.contains_key(names.last()) {
            Some(earlier(rest, stamps[names.last()]))
        } else {
            rest
        }
    }
}

/// How far back the window of a request reaches when no metric of the
/// chunk has a timestamp: an hour.
pub const DEFAULT_WINDOW_SECS: i64 = 3600;

/// The start of a chunk's window: the earliest timestamp of its metrics,
/// or an hour before `now` when none has one.
pub open spec fn window_start_of(names: Seq<Seq<char>>, stamps: Map<Seq<char>, (i64, u32)>, now: (i64, u32)) -> (i64, u32) {
    match earliest_of(names, stamps) {
        Some(t) => t,
        None => ((now.0 - DEFAULT_WINDOW_SECS) as i64, now.1),
    }
}

/// The start of the window to request for a chunk of metrics (see
/// `window_start_of`).
pub fn window_start(chunk: &Vec<String>, timestamps: &StrMap<(i64, u32)>, now: (i64, u32)) -> (r: (i64, u32))
    requires
        now.0 >= i64::MIN + DEFAULT_WINDOW_SECS,
    ensures
        r == window_start_of(strings_view(chunk@), timestamps@, now),
{
    let mut best: Option<(i64, u32)> = None;
    let mut i: usize = 0;
    while i < chunk.len()
        invariant
            i <= chunk@.len(),
            best == earliest_of(strings_view(chunk@).take(i as int), timestamps@),
        decreases chunk.len() - i,
    {
        proof {
            assert(strings_view(chunk@).take(i + 1).drop_last() =~= strings_view(chunk@).take(i as int));
            assert(strings_view(chunk@).take(i + 1).last() == chunk@[i as int]@);
        }
        match timestamps.get(&chunk[i]) {
            Some(t) => {
                best = match best {
                    Some(x) => if no_later(x, *t) { Some(x) } else { Some(*t) },
                    None => Some(*t),
                };
            },
            None => {},
        }
        i = i + 1;
    }
    proof {
        assert(strings_view(chunk@).take(i as int) =~= strings_view(chunk@));
    }
    match best {
        Some(t) => t,
        None => (now.0 - DEFAULT_WINDOW_SECS, now.1),
    }
}

/// What the error codes of a response's metrics mean.
pub enum CodeCheck {
    /// Every metric succeeded.
    AllSuccess,
    /// A metric has an invalid series: the resource has no data.
    InvalidSeries,
    /// A metric failed, with this message.
    Failed(String),
}

/// What the first metric that did not succeed says: an invalid series, or
/// a failure with its message (or a generic one naming the resource).
pub open spec fn code_check_of(codes: Seq<(Seq<char>, Option<Seq<char>>)>, resource_uri: Seq<char>) -> Option<Result<(), Seq<char>>>
    decreases codes.len(),
{
    if codes.len() == 0 {
        None
    } else if codes[0].0 == "Success"@ {
        code_check_of(codes.drop_first(), resource_uri)
    } else if codes[0].0 == "InvalidSeries"@ {
        Some(Ok(()))
    } else {
        match codes[0].1 {
            Some(m) => Some(Err(m)),
            None => Some(Err("API request not successful ("@ + resource_uri + ")"@)),
        }
    }
}

/// The (error code, error message) of each metric, viewed.
pub open spec fn codes_view(codes: Seq<(String, Option<String>)>) -> Seq<(Seq<char>, Option<Seq<char>>)> {
    codes.map_values(|c: (String, Option<String>)| (c.0@, match c.1 {
        Some(m) => Some(m@),
        None => None,
    }))
}

/// Checks the error codes of a response's metrics, in order (see
/// `code_check_of`).
pub fn check_codes(codes: &Vec<(String, Option<String>)>, resource_uri: &String) -> (r: CodeCheck)
    ensures
        match code_check_of(codes_view(codes@), resource_uri@) {
            None => r is AllSuccess,
            Some(Ok(())) => r is InvalidSeries,
            Some(Err(m)) => r matches CodeCheck::Failed(t) && t@ == m,
        },
{
    let success = String::from_str("Success");
    let invalid = String::from_str("InvalidSeries");
    let mut i: usize = 0;
    proof {
        assert(codes_view(codes@).skip(0) =~= codes_view(codes@));
    }
    while i < codes.len()
        invariant
            i <= codes@.len(),
            success@ == "Success"@,
            invalid@ == "InvalidSeries"@,
            code_check_of(codes_view(codes@), resource_uri@) == code_check_of(codes_view(codes@).skip(i as int), resource_uri@),
        decreases codes.len() - i,
    {
        let ghost rest = codes_view(codes@).skip(i as int);
        proof {
            assert(rest[0] == codes_view(codes@)[i as int]);
            assert(rest.drop_first() =~= codes_view(codes@).skip(i + 1));
        }
        if codes[i].0 == success {
        } else if codes[i].0 == invalid {
            return CodeCheck::InvalidSeries;
        } else {
            match &codes[i].1 {
                Some(m) => return CodeCheck::Failed(m.clone()),
                None => {
                    let mut out: Vec<char> = Vec::new();
                    push_str(&mut out, "API request not successful (");
                    push_str(&mut out, resource_uri.as_str());
                    push_str(&mut out, ")");
                    return CodeCheck::Failed(string_from_chars(out.as_slice()));
                },
            }
        }
        i = i + 1;
    }
    proof {
        assert(codes_view(codes@).skip(i as int).len() == 0);
    }
    CodeCheck::AllSuccess
}

/// A point counts when it is no earlier than the last counted point (or
/// the stored timestamp) and has data.
pub open spec fn point_counts(last: Option<(i64, u32)>, p: ((i64, u32), bool)) -> bool {
    p.1 && match last {
        Some(t) => instant_le(t, p.0),
        None => true,
    }
}

/// The points of a series that count, by position, and the timestamp of
/// the last one that counted (or the stored one).
pub open spec fn counted_points(points: Seq<((i64, u32), bool)>, last: Option<(i64, u32)>) -> (Seq<int>, Option<(i64, u32)>)
    decreases points.len(),
{
    if points.len() == 0 {
        (Seq::empty(), last)
    } else {
        let (kept, l) = counted_points(points.drop_last(), last);
        if point_counts(l, points.last()) {
            (kept.push(points.len() - 1), Some(points.last().0))
        } else {
            (kept, l)
        }
    }
}

/// Selects the points of a series that count (see `counted_points`): each
/// point is given by its timestamp and whether it has data.
pub fn select_points(points: &Vec<((i64, u32), bool)>, last: Option<(i64, u32)>) -> (r: (Vec<usize>, Option<(i64, u32)>))
    ensures
        r.0@.map_values(|k: usize| k as int) == counted_points(points@, last).0,
        r.1 == counted_points(points@, last).1,
{
    let mut kept: Vec<usize> = Vec::new();
    let mut l = last;
    let mut i: usize = 0;
    while i < points.len()
        invariant
            i <= points@.len(),
            kept@.map_values(|k: usize| k as int) == counted_points(points@.take(i as int), last).0,
            l == counted_points(points@.take(i as int), last).1,
        decreases points.len() - i,
    {
        proof {
            assert(points@.take(i + 1).drop_last() =~= points@.take(i as int));
            assert(points@.take(i + 1).last() == points@[i as int]);
        }
        let (t, has) = points[i];
        let counts = has && match l {
            Some(x) => no_later(x, t),
            None => true,
        };
        if counts {
            let ghost k0 = kept@.map_values(|k: usize| k as int);
            kept.push(i);
            l = Some(t);
            proof {
                assert(kept@.map_values(|k: usize| k as int) =~= k0.push(i as int));
            }
        }
        i = i + 1;
    }
    proof {
        assert(points@.take(i as int) =~= points@);
    }
    (kept, l)
}

/// The dimension value that a series is for: the value of its first
/// metadata entry (the empty text when it has none); `None` when the
/// series has no metadata at all.
pub fn series_dimension(metadatavalues: &Option<Vec<MetaDataValue>>) -> (r: Option<String>)
    ensures
        match metadatavalues {
            None => r is None,
            Some(v) => r matches Some(d) && d@ == if v@.len() > 0 { v@[0].value@ } else { Seq::<char>::empty() },
        },
{
    match metadatavalues {
        None => None,
        Some(v) => {
            if v.len() > 0 {
                Some(v[0].value.clone())
            } else {
                Some(String::new())
            }
        },
    }
}

/// The earlier of two optional instants as a dimension's series are
/// combined: a missing second keeps the first.
pub open spec fn combine_last(a: Option<(i64, u32)>, b: Option<(i64, u32)>) -> Option<(i64, u32)> {
    match (a, b) {
        (Some(x), Some(y)) => Some(if instant_le(x, y) { x } else { y }),
        (None, Some(y)) => Some(y),
        _ => a,
    }
}

/// Combines the last timestamps of a dimension's series (see
/// `combine_last`).
pub fn min_last(a: Option<(i64, u32)>, b: Option<(i64, u32)>) -> (r: Option<(i64, u32)>)
    ensures
        r == combine_last(a, b),
{
    match (a, b) {
        (Some(x), Some(y)) => Some(if no_later(x, y) { x } else { y }),
        (None, Some(y)) => Some(y),
        _ => a,
    }
}

/// The key of a metric's aggregates for one dimension value:
/// `<metric>.<dimension>`.
pub fn metric_key(metric_name: &String, dimension: &String) -> (r: String)
    ensures
        r@ == metric_name@ + "."@ + dimension@,
{
    let mut out: Vec<char> = Vec::new();
    push_str(&mut out, metric_name.as_str());
    push_str(&mut out, ".");
    push_str(&mut out, dimension.as_str());
    string_from_chars(out.as_slice())
}

/// The key under which a field's aggregates are found.
pub open spec fn field_key(spec: MetricSpec) -> Seq<char> {
    match spec.dimension_value {
        Some(d) => spec.metric_name@ + "."@ + d@,
        None => spec.metric_name@,
    }
}

/// The aggregate stored for an aggregation, if any (the first entry for
/// it).
pub open spec fn aggregate_of(aggs: Seq<(Aggregation, Option<u64>)>, a: Aggregation) -> Option<Option<u64>>
    decreases aggs.len(),
{
    if aggs.len() == 0 {
        None
    } else if aggs[0].0 == a {
        Some(aggs[0].1)
    } else {
        aggregate_of(aggs.drop_first(), a)
    }
}

fn find_aggregate(aggs: &Vec<(Aggregation, Option<u64>)>, a: Aggregation) -> (r: Option<Option<u64>>)
    ensures
        r == aggregate_of(aggs@, a),
{
    let mut i: usize = 0;
    proof {
        assert(aggs@.skip(0) =~= aggs@);
    }
    while i < aggs.len()
        invariant
            i <= aggs@.len(),
            aggregate_of(aggs@, a) == aggregate_of(aggs@.skip(i as int), a),
        decreases aggs.len() - i,
    {
        proof {
            assert(aggs@.skip(i as int)[0] == aggs@[i as int]);
            assert(aggs@.skip(i as int).drop_first() =~= aggs@.skip(i + 1));
        }
        if aggs[i].0 == a {
            return Some(aggs[i].1);
        }
        i = i + 1;
    }
    None
}

/// The value of a field for a resource: its group (as UTF-8 bytes) for
/// `ResourceGroup`, its name for `Resource`, else the stored aggregate (a
/// double given by its bits); missing when there is none.
pub open spec fn field_value_of(spec: MetricSpec, resource: Seq<char>, resource_uri: Seq<char>, aggregated: Map<Seq<char>, Vec<(Aggregation, Option<u64>)>>) -> Result<ValueV, DataErrorV> {
    if spec.metric_name@ == "ResourceGroup"@ {
        match resource_group_of(resource_uri) {
            Some(g) => Ok(ValueV::BinaryString(encode_utf8(g))),
            None => Err(DataErrorV::Missing),
        }
    } else if spec.metric_name@ == "Resource"@ {
        Ok(ValueV::BinaryString(encode_utf8(resource)))
    } else if aggregated.contains_key(field_key(spec)) {
        match aggregate_of(aggregated[field_key(spec)]@, spec.aggregation) {
            Some(Some(bits)) => Ok(ValueV::Float(FloatV::Ieee64(bits))),
            _ => Err(DataErrorV::Missing),
        }
    } else {
        Err(DataErrorV::Missing)
    }
}

/// The value of a field for a resource (see `field_value_of`).
pub fn field_value(spec: &MetricSpec, resource: &String, resource_uri: &String, aggregated: &StrMap<Vec<(Aggregation, Option<u64>)>>) -> (r: Data)
    ensures
        data_view(r) == field_value_of(*spec, resource@, resource_uri@, aggregated@),
{
    let group = String::from_str("ResourceGroup");
    let res = String::from_str("Resource");
    if spec.metric_name == group {
        match get_resource_group(resource_uri.as_str()) {
            Some(g) => Ok(Value::BinaryString(g.as_str().as_bytes_vec())),
            None => Err(DataError::Missing),
        }
    } else if spec.metric_name == res {
        Ok(Value::BinaryString(resource.as_str().as_bytes_vec()))
    } else {
        let key = match &spec.dimension_value {
            Some(d) => metric_key(&spec.metric_name, d),
            None => spec.metric_name.clone(),
        };
        match aggregated.get(&key) {
            Some(aggs) => match find_aggregate(aggs, spec.aggregation) {
                Some(Some(bits)) => Ok(Value::Float(FloatRepr::Ieee64(bits))),
                _ => Err(DataError::Missing),
            },
            None => Err(DataError::Missing),
        }
    }
}

/// A resource is skipped when resource groups are configured, its id
/// names a group, and the configured pattern does not match that group.
pub open spec fn skips_resource(resource_groups: Option<Seq<char>>, resource_uri: Seq<char>) -> bool {
    match resource_groups {
        None => false,
        Some(p) => match resource_group_of(resource_uri) {
            None => false,
            Some(g) => !regex_finds(p, g),
        },
    }
}

/// The pattern has to be compiled for the resource: groups are configured
/// and its id names a group.
pub open spec fn needs_pattern(resource_groups: Option<Seq<char>>, resource_uri: Seq<char>) -> bool {
    resource_groups is Some && resource_group_of(resource_uri) is Some
}

/// Whether to skip a resource (see `skips_resource`); `None` when the
/// configured pattern is needed and does not compile.
pub fn skip_resource(resource_groups: &Option<String>, resource_uri: &String) -> (r: Option<bool>)
    ensures
        match r {
            None => needs_pattern(opt_view(resource_groups), resource_uri@) && !regex_compiles(opt_view(resource_groups)->0),
            Some(b) => b == skips_resource(opt_view(resource_groups), resource_uri@)
                && (needs_pattern(opt_view(resource_groups), resource_uri@) ==> regex_compiles(opt_view(resource_groups)->0)),
        },
{
    match resource_groups {
        None => Some(false),
        Some(p) => match get_resource_group(resource_uri.as_str()) {
            None => Some(false),
            Some(g) => match regex_is_match(p.as_str(), g.as_str()) {
                None => None,
                Some(m) => Some(!m),
            },
        },
    }
}

/// View of an optional text.
pub open spec fn opt_view(o: &Option<String>) -> Option<Seq<char>> {
    match o {
        Some(s) => Some(s@),
        None => None,
    }
}

/// The points of a metric's time series, one series after the other.
pub open spec fn series_points(ts: Seq<TimeSeriesElement>) -> Seq<MetricValue> {
    ts.map_values(|t: TimeSeriesElement| t.data@).flatten()
}

/// Each point by its timestamp and whether it has data.
pub open spec fn point_marks(ps: Seq<MetricValue>) -> Seq<((i64, u32), bool)> {
    ps.map_values(|p: MetricValue| (p.timestamp, point_has_data(p)))
}

/// The stored timestamp of a key, if any.
pub open spec fn stamp_of(stamps: Map<Seq<char>, (i64, u32)>, k: Seq<char>) -> Option<(i64, u32)> {
    if stamps.contains_key(k) { Some(stamps[k]) } else { None }
}

/// The points that count of a list of points, after the stored timestamp
/// `last`, and the timestamp to store afterwards.
pub open spec fn counted_of(ps: Seq<MetricValue>, last: Option<(i64, u32)>) -> (Seq<MetricValue>, Option<(i64, u32)>) {
    let (idx, l) = counted_points(point_marks(ps), last);
    (idx.map_values(|k: int| ps[k]), l)
}

/// What a response yields: for each aggregate key the points to aggregate
/// (a later entry for a key replaces an earlier one), and the timestamps
/// to store.
pub struct SeriesPlan {
    pub entries: Vec<(String, Vec<MetricValue>)>,
    pub timestamps: Vec<(String, (i64, u32))>,
}

/// View of a plan.
pub open spec fn plan_view(p: SeriesPlan) -> (Seq<(Seq<char>, Seq<MetricValue>)>, Seq<(Seq<char>, (i64, u32))>) {
    (p.entries@.map_values(|e: (String, Vec<MetricValue>)| (e.0@, e.1@)),
     p.timestamps@.map_values(|e: (String, (i64, u32))| (e.0@, e.1)))
}

/// The plan of a response without dimensions: each metric is aggregated
/// under its name over the points of all its series that count after its
/// stored timestamp.
pub open spec fn plain_plan(ms: Seq<Metric>, stamps: Map<Seq<char>, (i64, u32)>) -> (Seq<(Seq<char>, Seq<MetricValue>)>, Seq<(Seq<char>, (i64, u32))>)
    decreases ms.len(),
{
    if ms.len() == 0 {
        (Seq::empty(), Seq::empty())
    } else {
        let (es, ts) = plain_plan(ms.drop_last(), stamps);
        let m = ms.last();
        let name = m.name.value@;
        let (pts, l) = counted_of(series_points(m.timeseries@), stamp_of(stamps, name));
        (es.push((name, pts)), match l {
            Some(t) => ts.push((name, t)),
            None => ts,
        })
    }
}

/// The plan of the series of a metric split by a dimension: each series
/// whose dimension value is asked for is aggregated under
/// `<metric>.<value>` over its points that count after the value's stored
/// timestamp; the earliest last timestamp is stored for the metric. `None`
/// when a series has no metadata.
pub open spec fn dimension_plan(name: Seq<char>, ts: Seq<TimeSeriesElement>, wanted: Seq<Seq<char>>, stamps: Map<Seq<char>, (i64, u32)>) -> Option<(Seq<(Seq<char>, Seq<MetricValue>)>, Option<(i64, u32)>)>
    decreases ts.len(),
{
    if ts.len() == 0 {
        Some((Seq::empty(), None))
    } else {
        match dimension_plan(name, ts.drop_last(), wanted, stamps) {
            None => None,
            Some((es, min_l)) => {
                let t = ts.last();
                match t.metadatavalues {
                    None => None,
                    Some(md) => {
                        let dim = if md@.len() > 0 { md@[0].value@ } else { Seq::<char>::empty() };
                        if wanted.contains(dim) {
                            let (pts, l) = counted_of(t.data@, stamp_of(stamps, dim));
                            Some((es.push((name + "."@ + dim, pts)), combine_last(min_l, l)))
                        } else {
                            Some((es, min_l))
                        }
                    },
                }
            },
        }
    }
}

/// Why a response could not be planned.
pub enum PlanError {
    /// A response with a dimension has no metric.
    NoTimeseries,
    /// A series of a response with a dimension has no metadata.
    NoMetadata,
}

/// The plan of a response (see `plain_plan` and `dimension_plan`); with a
/// dimension only the first metric counts.
pub open spec fn response_plan(ms: Seq<Metric>, is_dimension: bool, wanted: Seq<Seq<char>>, stamps: Map<Seq<char>, (i64, u32)>) -> Result<(Seq<(Seq<char>, Seq<MetricValue>)>, Seq<(Seq<char>, (i64, u32))>), PlanError> {
    if !is_dimension {
        Ok(plain_plan(ms, stamps))
    } else if ms.len() == 0 {
        Err(PlanError::NoTimeseries)
    } else {
        match dimension_plan(ms[0].name.value@, ms[0].timeseries@, wanted, stamps) {
            None => Err(PlanError::NoMetadata),
            Some((es, l)) => Ok((es, match l {
                Some(t) => seq![(ms[0].name.value@, t)],
                None => Seq::empty(),
            })),
        }
    }
}

fn all_points(ts: &Vec<TimeSeriesElement>) -> (r: Vec<MetricValue>)
    ensures
        r@ == series_points(ts@),
{
    let mut out: Vec<MetricValue> = Vec::new();
    let mut k: usize = 0;
    while k < ts.len()
        invariant
            k <= ts@.len(),
            out@ == series_points(ts@.take(k as int)),
        decreases ts.len() - k,
    {
        let data = &ts[k].data;
        let ghost o0 = out@;
        let mut j: usize = 0;
        while j < data.len()
            invariant
                j <= data@.len(),
                out@ == o0 + data@.take(j as int),
            decreases data.len() - j,
        {
            out.push(data[j]);
            proof {
                assert(out@ =~= o0 + data@.take(j + 1));
            }
            j = j + 1;
        }
        proof {
            assert(data@.take(j as int) =~= data@);
            let prev = ts@.take(k as int).map_values(|t: TimeSeriesElement| t.data@);
            assert(ts@.take(k + 1).map_values(|t: TimeSeriesElement| t.data@) =~= prev.push(ts@[k as int].data@));
            prev.lemma_flatten_push(ts@[k as int].data@);
        }
        k = k + 1;
    }
    proof {
        assert(ts@.take(k as int) =~= ts@);
    }
    out
}

fn count_points(ps: &Vec<MetricValue>, last: Option<(i64, u32)>) -> (r: (Vec<MetricValue>, Option<(i64, u32)>))
    ensures
        (r.0@, r.1) == counted_of(ps@, last),
{
    let mut marks: Vec<((i64, u32), bool)> = Vec::new();
    let mut i: usize = 0;
    while i < ps.len()
        invariant
            i <= ps@.len(),
            marks@ == point_marks(ps@.take(i as int)),
        decreases ps.len() - i,
    {
        marks.push((ps[i].timestamp, ps[i].has_data()));
        proof {
            assert(marks@ =~= point_marks(ps@.take(i + 1)));
        }
        i = i + 1;
    }
    proof {
        assert(ps@.take(i as int) =~= ps@);
    }
    let (idx, l) = select_points(&marks, last);
    let ghost want = counted_points(point_marks(ps@), last).0;
    proof {
        lemma_counted_in_range(point_marks(ps@), last);
    }
    let mut out: Vec<MetricValue> = Vec::new();
    let mut j: usize = 0;
    while j < idx.len()
        invariant
            j <= idx@.len(),
            idx@.map_values(|k: usize| k as int) == want,
            forall|q: int| 0 <= q < want.len() ==> 0 <= #[trigger] want[q] < ps@.len(),
            out@ == want.take(j as int).map_values(|k: int| ps@[k]),
        decreases idx.len() - j,
    {
        proof {
            assert(want[j as int] == idx@[j as int] as int);
        }
        out.push(ps[idx[j]]);
        proof {
            assert(out@ =~= want.take(j + 1).map_values(|k: int| ps@[k]));
        }
        j = j + 1;
    }
    proof {
        assert(want.take(j as int) =~= want);
    }
    (out, l)
}

proof fn lemma_counted_in_range(points: Seq<((i64, u32), bool)>, last: Option<(i64, u32)>)
    ensures
        forall|q: int| 0 <= q < counted_points(points, last).0.len() ==> 0 <= #[trigger] counted_points(points, last).0[q] < points.len(),
    decreases points.len(),
{
    if points.len() > 0 {
        lemma_counted_in_range(points.drop_last(), last);
        let (kept, l) = counted_points(points.drop_last(), last);
        let r = counted_points(points, last).0;
        assert forall|q: int| 0 <= q < r.len() implies 0 <= #[trigger] r[q] < points.len() by {
            if q < kept.len() {
                assert(r[q] == kept[q]);
            }
        }
    }
}

fn stamp_lookup(stamps: &StrMap<(i64, u32)>, k: &String) -> (r: Option<(i64, u32)>)
    ensures
        r == stamp_of(stamps@, k@),
{
    match stamps.get(k) {
        Some(t) => Some(*t),
        None => None,
    }
}

fn plan_plain(ms: &Vec<Metric>, stamps: &StrMap<(i64, u32)>) -> (r: SeriesPlan)
    ensures
        plan_view(r) == plain_plan(ms@, stamps@),
{
    let mut plan = SeriesPlan { entries: Vec::new(), timestamps: Vec::new() };
    let mut i: usize = 0;
    while i < ms.len()
        invariant
            i <= ms@.len(),
            plan_view(plan) == plain_plan(ms@.take(i as int), stamps@),
        decreases ms.len() - i,
    {
        proof {
            assert(ms@.take(i + 1).drop_last() =~= ms@.take(i as int));
            assert(ms@.take(i + 1).last() == ms@[i as int]);
        }
        let m = &ms[i];
        let name = m.name.value.clone();
        let pts = all_points(&m.timeseries);
        let last = stamp_lookup(stamps, &name);
        let (kept, l) = count_points(&pts, last);
        let ghost v0 = plan_view(plan);
        plan.entries.push((name.clone(), kept));
        match l {
            Some(t) => plan.timestamps.push((name, t)),
            None => {},
        }
        proof {
            assert(plan_view(plan).0 =~= v0.0.push((m.name.value@, kept@)));
            assert(plan_view(plan) == plain_plan(ms@.take(i + 1), stamps@));
        }
        i = i + 1;
    }
    proof {
        assert(ms@.take(i as int) =~= ms@);
    }
    plan
}

fn plan_dimension(name: &String, ts: &Vec<TimeSeriesElement>, wanted: &Vec<String>, stamps: &StrMap<(i64, u32)>) -> (r: Option<(Vec<(String, Vec<MetricValue>)>, Option<(i64, u32)>)>)
    ensures
        match r {
            None => dimension_plan(name@, ts@, strings_view(wanted@), stamps@) is None,
            Some((es, l)) => dimension_plan(name@, ts@, strings_view(wanted@), stamps@)
                == Some((es@.map_values(|e: (String, Vec<MetricValue>)| (e.0@, e.1@)), l)),
        },
{
    let mut es: Vec<(String, Vec<MetricValue>)> = Vec::new();
    let mut min_l: Option<(i64, u32)> = None;
    let mut k: usize = 0;
    while k < ts.len()
        invariant
            k <= ts@.len(),
            dimension_plan(name@, ts@.take(k as int), strings_view(wanted@), stamps@)
                == Some((es@.map_values(|e: (String, Vec<MetricValue>)| (e.0@, e.1@)), min_l)),
        decreases ts.len() - k,
    {
        proof {
            assert(ts@.take(k + 1).drop_last() =~= ts@.take(k as int));
            assert(ts@.take(k + 1).last() == ts@[k as int]);
        }
        let t = &ts[k];
        let dim = match series_dimension(&t.metadatavalues) {
            None => {
                proof {
                    lemma_dimension_plan_none(name@, ts@, strings_view(wanted@), stamps@, k as int + 1);
                }
                return None;
            },
            Some(d) => d,
        };
        if contains_string(wanted, &dim) {
            let last = stamp_lookup(stamps, &dim);
            let (kept, l) = count_points(&t.data, last);
            let key = metric_key(name, &dim);
            let ghost e0 = es@.map_values(|e: (String, Vec<MetricValue>)| (e.0@, e.1@));
            es.push((key, kept));
            min_l = min_last(min_l, l);
            proof {
                assert(es@.map_values(|e: (String, Vec<MetricValue>)| (e.0@, e.1@)) =~= e0.push((name@ + "."@ + dim@, kept@)));
            }
        }
        k = k + 1;
    }
    proof {
        assert(ts@.take(k as int) =~= ts@);
    }
    Some((es, min_l))
}

proof fn lemma_dimension_plan_none(name: Seq<char>, ts: Seq<TimeSeriesElement>, wanted: Seq<Seq<char>>, stamps: Map<Seq<char>, (i64, u32)>, n: int)
    requires
        0 < n <= ts.len(),
        dimension_plan(name, ts.take(n), wanted, stamps) is None,
    ensures
        dimension_plan(name, ts, wanted, stamps) is None,
    decreases ts.len() - n,
{
    if n < ts.len() {
        assert(ts.take(n + 1).drop_last() =~= ts.take(n));
        lemma_dimension_plan_none(name, ts, wanted, stamps, n + 1);
    } else {
        assert(ts.take(n) =~= ts);
    }
}

/// Plans the aggregation of a response's metrics (see `response_plan`):
/// which points to aggregate under which key, and which timestamps to
/// store.
pub fn plan_response(ms: &Vec<Metric>, is_dimension: bool, wanted: &Vec<String>, stamps: &StrMap<(i64, u32)>) -> (r: Result<SeriesPlan, PlanError>)
    ensures
        match (r, response_plan(ms@, is_dimension, strings_view(wanted@), stamps@)) {
            (Ok(p), Ok(v)) => plan_view(p) == v,
            (Err(PlanError::NoTimeseries), Err(PlanError::NoTimeseries)) => true,
            (Err(PlanError::NoMetadata), Err(PlanError::NoMetadata)) => true,
            _ => false,
        },
{
    if !is_dimension {
        return Ok(plan_plain(ms, stamps));
    }
    if ms.len() == 0 {
        return Err(PlanError::NoTimeseries);
    }
    let m = &ms[0];
    match plan_dimension(&m.name.value, &m.timeseries, wanted, stamps) {
        None => Err(PlanError::NoMetadata),
        Some((es, l)) => {
            let mut stamps_out: Vec<(String, (i64, u32))> = Vec::new();
            match l {
                Some(t) => stamps_out.push((m.name.value.clone(), t)),
                None => {},
            }
            let p = SeriesPlan { entries: es, timestamps: stamps_out };
            proof {
                assert(plan_view(p).1 =~= match l {
                    Some(t) => seq![(ms@[0].name.value@, t)],
                    None => Seq::<(Seq<char>, (i64, u32))>::empty(),
                });
            }
            Ok(p)
        },
    }
}

/// The fields that are measured metrics (not the pseudo metrics), in
/// order.
pub open spec fn measured_of(specs: Seq<&MetricSpec>) -> Seq<&MetricSpec> {
    specs.filter(|m: &MetricSpec| !is_pseudo_metric(m.metric_name@))
}

/// The fields that are measured metrics, in order (see `measured_of`).
pub fn measured_specs<'a>(specs: &Vec<&'a MetricSpec>) -> (r: Vec<&'a MetricSpec>)
    ensures
        r@ == measured_of(specs@),
{
    let mut out: Vec<&MetricSpec> = Vec::new();
    let mut i: usize = 0;
    while i < specs.len()
        invariant
            i <= specs@.len(),
            out@ == measured_of(specs@.take(i as int)),
        decreases specs.len() - i,
    {
        proof {
            assert(specs@.take(i + 1).drop_last() =~= specs@.take(i as int));
            reveal(Seq::filter);
        }
        if !pseudo_metric(&specs[i].metric_name) {
            out.push(specs[i]);
        }
        i = i + 1;
    }
    proof {
        assert(specs@.take(i as int) =~= specs@);
    }
    out
}

/// The values of a resource's fields, in order (see `field_value_of`).
pub fn resource_row(specs: &Vec<&MetricSpec>, resource: &String, resource_uri: &String, aggregated: &StrMap<Vec<(Aggregation, Option<u64>)>>) -> (r: Vec<Data>)
    ensures
        r@.len() == specs@.len(),
        forall|i: int| 0 <= i < specs@.len() ==> data_view(#[trigger] r@[i]) == field_value_of(*specs@[i], resource@, resource_uri@, aggregated@),
{
    let mut out: Vec<Data> = Vec::new();
    let mut i: usize = 0;
    while i < specs.len()
        invariant
            i <= specs@.len(),
            out@.len() == i,
            forall|j: int| 0 <= j < i ==> data_view(#[trigger] out@[j]) == field_value_of(*specs@[j], resource@, resource_uri@, aggregated@),
        decreases specs.len() - i,
    {
        out.push(field_value(specs[i], resource, resource_uri, aggregated));
        i = i + 1;
    }
    out
}

/// The resources of a listing grouped by name space: for each name space
/// the (name, id) of its resources in the order listed.
pub open spec fn grouped_of(list: Seq<(Seq<char>, Seq<char>, Seq<char>)>) -> Map<Seq<char>, Seq<(Seq<char>, Seq<char>)>>
    decreases list.len(),
{
    if list.len() == 0 {
        Map::empty()
    } else {
        let g = grouped_of(list.drop_last());
        let (ns, name, id) = list.last();
        let before = if g.contains_key(ns) { g[ns] } else { Seq::empty() };
        g.insert(ns, before.push((name, id)))
    }
}

/// View of a listing of resources as (name space, name, id).
pub open spec fn listing_view(list: Seq<(String, String, String)>) -> Seq<(Seq<char>, Seq<char>, Seq<char>)> {
    list.map_values(|e: (String, String, String)| (e.0@, e.1@, e.2@))
}

/// View of grouped resources.
pub open spec fn groups_view(m: Map<Seq<char>, Vec<(String, String)>>) -> Map<Seq<char>, Seq<(Seq<char>, Seq<char>)>> {
    Map::new(|k: Seq<char>| m.contains_key(k), |k: Seq<char>| m[k]@.map_values(|e: (String, String)| (e.0@, e.1@)))
}

/// Groups a listing of resources, given as (name space, name, id), by name
/// space (see `grouped_of`).
pub fn group_resources(list: Vec<(String, String, String)>) -> (r: StrMap<Vec<(String, String)>>)
    ensures
        groups_view(r@) == grouped_of(listing_view(list@)),
{
    let mut out: StrMap<Vec<(String, String)>> = StrMap::new();
    let mut i: usize = 0;
    while i < list.len()
        invariant
            i <= list@.len(),
            groups_view(out@) == grouped_of(listing_view(list@).take(i as int)),
        decreases list.len() - i,
    {
        proof {
            assert(listing_view(list@).take(i + 1).drop_last() =~= listing_view(list@).take(i as int));
            assert(listing_view(list@).take(i + 1).last() == listing_view(list@)[i as int]);
        }
        let ns = list[i].0.clone();
        let entry = (list[i].1.clone(), list[i].2.clone());
        let ghost g0 = out@;
        let ghost gv0 = groups_view(g0);
        let mut items = match out.take(&ns) {
            Some(v) => v,
            None => Vec::new(),
        };
        let ghost before = items@.map_values(|e: (String, String)| (e.0@, e.1@));
        proof {
            if gv0.contains_key(ns@) {
                assert(before == gv0[ns@]);
            } else {
                assert(before =~= Seq::<(Seq<char>, Seq<char>)>::empty());
            }
        }
        items.push(entry);
        proof {
            assert(items@.map_values(|e: (String, String)| (e.0@, e.1@)) =~= before.push((list@[i as int].1@, list@[i as int].2@)));
        }
        let ghost iv = items;
        out.insert(ns, items);
        proof {
            assert(out@ =~= g0.insert(ns@, iv));
            assert(groups_view(out@) =~= gv0.insert(ns@, before.push((list@[i as int].1@, list@[i as int].2@))));
            assert(groups_view(out@) =~= grouped_of(listing_view(list@).take(i + 1)));
        }
        i = i + 1;
    }
    proof {
        assert(listing_view(list@).take(i as int) =~= listing_view(list@));
    }
    out
}

/// The points that count come in order: their positions increase, each
/// has data, each is no earlier than the one before it (the first no
/// earlier than the stored timestamp), and the timestamp stored afterwards
/// is that of the last point that counted (the stored one when none did).
pub proof fn law_counted_points_ordered(points: Seq<((i64, u32), bool)>, last: Option<(i64, u32)>)
    ensures
        ({
            let (kept, l) = counted_points(points, last);
            &&& forall|a: int, b: int| 0 <= a < b < kept.len() ==> #[trigger] kept[a] < #[trigger] kept[b]
            &&& forall|a: int| 0 <= a < kept.len() ==> 0 <= #[trigger] kept[a] < points.len() && points[kept[a]].1
            &&& forall|a: int| 0 < a < kept.len() ==> instant_le(points[kept[a - 1]].0, points[#[trigger] kept[a]].0)
            &&& (kept.len() > 0 && last is Some) ==> instant_le(last->0, points[kept[0]].0)
            &&& l == if kept.len() > 0 { Some(points[kept.last()].0) } else { last }
        }),
    decreases points.len(),
{
    if points.len() > 0 {
        law_counted_points_ordered(points.drop_last(), last);
        let (k0, l0) = counted_points(points.drop_last(), last);
        let (kept, l) = counted_points(points, last);
        if point_counts(l0, points.last()) {
            assert(kept == k0.push(points.len() - 1));
            assert forall|a: int| 0 <= a < kept.len() implies 0 <= #[trigger] kept[a] < points.len() && points[kept[a]].1 by {
                if a < k0.len() {
                    assert(kept[a] == k0[a]);
                    assert(points[kept[a]] == points.drop_last()[k0[a]]);
                }
            }
            assert forall|a: int| 0 < a < kept.len() implies instant_le(points[kept[a - 1]].0, points[#[trigger] kept[a]].0) by {
                if a < k0.len() {
                    assert(kept[a] == k0[a]);
                    assert(kept[a - 1] == k0[a - 1]);
                    assert(points[kept[a]] == points.drop_last()[k0[a]]);
                    assert(points[kept[a - 1]] == points.drop_last()[k0[a - 1]]);
                } else {
                    assert(kept[a - 1] == k0.last());
                    assert(points[kept[a - 1]] == points.drop_last()[k0.last()]);
                }
            }
            if k0.len() > 0 && last is Some {
                assert(kept[0] == k0[0]);
                assert(points[kept[0]] == points.drop_last()[k0[0]]);
            }
        } else {
            assert forall|a: int| 0 <= a < kept.len() implies 0 <= #[trigger] kept[a] < points.len() && points[kept[a]].1 by {
                assert(points[kept[a]] == points.drop_last()[k0[a]]);
            }
            assert forall|a: int| 0 < a < kept.len() implies instant_le(points[kept[a - 1]].0, points[#[trigger] kept[a]].0) by {
                assert(points[kept[a]] == points.drop_last()[k0[a]]);
                assert(points[kept[a - 1]] == points.drop_last()[k0[a - 1]]);
            }
            if kept.len() > 0 {
                assert(points[kept[0]] == points.drop_last()[k0[0]]);
                assert(points[kept.last()] == points.drop_last()[k0.last()]);
            }
        }
    }
}

/// The count is always requested; a field that averages has the total
/// and the count requested, from which the average is computed; the
/// average itself is never requested.
pub proof fn law_average_from_total_and_count(specs: Seq<&MetricSpec>)
    ensures
        requests_aggregation(specs, Aggregation::Count),
        !requests_aggregation(specs, Aggregation::Average),
        some_field_aggregates(specs, Aggregation::Average) ==> requests_aggregation(specs, Aggregation::Total),
{
}

/// A resource group named in a resource id holds no `/`.
pub proof fn law_resource_group_has_no_slash(id: Seq<char>)
    ensures
        resource_group_of(id) matches Some(g) ==> !g.contains('/'),
{
    if let Some(i) = find_text(id, group_marker()) {
        let rest = id.subrange(i + group_marker().len(), id.len() as int);
        if let Some(j) = find_text(rest, seq!['/']) {
            assert(exists|q: int| #[trigger] first_occurrence(rest, seq!['/'], q));
            let q = choose|q: int| #[trigger] first_occurrence(rest, seq!['/'], q);
            assert(q == j);
            let g = rest.subrange(0, j);
            assert forall|k: int| 0 <= k < g.len() implies g[k] != '/' by {
                assert(!occurs_at(rest, seq!['/'], k));
                if g[k] == '/' {
                    assert(rest.subrange(k, k + 1) =~= seq!['/']);
                }
            }
        }
    }
}

} // verus!
