//! Azure Monitor: what to do with the reply to the request of a chunk of
//! metrics. The requests go out from the caller; these functions take each
//! reply and say whether to ask again, to aggregate, or to stop.

use vstd::prelude::*;

use crate::common::data::strings_view;
use crate::common::search::{contains_text, find_first};
use crate::common::strmap::StrMap;
use crate::common::text::{chars_of, push_str, string_from_chars};
use crate::sql::input::{join_list, join_texts};
use super::metrics::{CodeCheck, PlanError, SeriesPlan, check_codes, code_check_of, codes_view, plan_response, plan_view, response_plan};
use super::schema::{Error, Metric, listed_metrics};
use vstd::string::StringExecFns;

verus! {

/// The reply to the request of a chunk of metrics.
pub enum ChunkReply {
    /// The metrics of the response.
    Metrics(Vec<Metric>),
    /// An error response.
    Failure(Error),
}

/// Why the metrics of a resource could not be read.
pub enum ChunkFailure {
    /// The response, or one of its metrics, reports an error, or the
    /// response lacks what a dimension needs: the message.
    Response(String),
    /// The metrics that an error response lists as valid could not be read.
    ValidMetrics(String),
}

/// What to do with the reply to a chunk.
pub enum ChunkAction {
    /// Ask again for the chunk, with these metric names, comma-separated.
    Retry(String),
    /// Aggregate what the plan says, keep its timestamps, and go on with
    /// the next chunk.
    Take(SeriesPlan),
    /// Stop: the resource has no data, and the timestamps stay as they were.
    NoData,
    /// Stop with an error.
    Fail(ChunkFailure),
}

/// The marker of an error response that names the valid metrics.
pub open spec fn retry_marker() -> Seq<char> {
    "Valid metrics:"@
}

/// The message that stands for an error response.
pub open spec fn failure_text(code: Seq<char>, message: Seq<char>) -> Seq<char> {
    code + ": "@ + message
}

/// The (error code, error message) of each metric of a response.
pub open spec fn metric_codes(ms: Seq<Metric>) -> Seq<(Seq<char>, Option<Seq<char>>)> {
    ms.map_values(|m: Metric| (m.error_code@, match m.error_message {
        Some(t) => Some(t@),
        None => None,
    }))
}

/// The message of a plan error.
pub open spec fn plan_error_text(e: PlanError) -> Seq<char> {
    match e {
        PlanError::NoTimeseries => "No timeseries in response"@,
        PlanError::NoMetadata => "No metadata in response with dimension"@,
    }
}

/// `names` is a list, comma-separated, of the metrics that `message` lists
/// as valid and that were requested, each once.
pub open spec fn retry_names(names: Seq<char>, message: Seq<char>, requested: Seq<Seq<char>>) -> bool {
    exists|v: Seq<Seq<char>>| {
        &&& names == join_list(v, ","@)
        &&& v.no_duplicates()
        &&& listed_metrics(message) matches Some(listed)
        &&& forall|m: Seq<char>| #[trigger] v.contains(m) <==> (listed.contains(m) && requested.contains(m))
    }
}

fn codes_of(ms: &Vec<Metric>) -> (r: Vec<(String, Option<String>)>)
    ensures
        codes_view(r@) == metric_codes(ms@),
{
    let mut out: Vec<(String, Option<String>)> = Vec::new();
    let mut i: usize = 0;
    while i < ms.len()
        invariant
            i <= ms@.len(),
            codes_view(out@) == metric_codes(ms@.take(i as int)),
        decreases ms.len() - i,
    {
        let msg = match &ms[i].error_message {
            Some(t) => Some(t.clone()),
            None => None,
        };
        let ghost o0 = codes_view(out@);
        out.push((ms[i].error_code.clone(), msg));
        proof {
            assert(codes_view(out@) =~= o0.push(metric_codes(ms@)[i as int]));
            assert(metric_codes(ms@.take(i + 1)) =~= metric_codes(ms@.take(i as int)).push(metric_codes(ms@)[i as int]));
        }
        i = i + 1;
    }
    proof {
        assert(ms@.take(i as int) =~= ms@);
    }
    out
}

/// Decides what to do with the reply to a chunk whose metric names were
/// `requested`. An error response that names the valid metrics is retried
/// once, with those of them that were requested; any other error response,
/// or one after a retry, fails with its code and message. In a response,
/// the first metric that did not succeed decides: an invalid series means
/// that the resource has no data, another error fails; when all succeeded
/// the response is planned (see `plan_response`).
pub fn chunk_step(
    reply: &ChunkReply,
    retried: bool,
    requested: &Vec<String>,
    is_dimension: bool,
    wanted: &Vec<String>,
    stamps: &StrMap<(i64, u32)>,
    resource_uri: &String,
) -> (r: ChunkAction)
    ensures
        match reply {
            ChunkReply::Failure(err) => if retried || !contains_text(err.message@, retry_marker()) {
                r matches ChunkAction::Fail(ChunkFailure::Response(t)) && t@ == failure_text(err.code@, err.message@)
            } else {
                match listed_metrics(err.message@) {
                    None => r matches ChunkAction::Fail(ChunkFailure::ValidMetrics(t)) && t@ == "No valid metrics"@,
                    Some(_) => r matches ChunkAction::Retry(names) && retry_names(names@, err.message@, strings_view(requested@)),
                }
            },
            ChunkReply::Metrics(ms) => match code_check_of(metric_codes(ms@), resource_uri@) {
                Some(Ok(())) => r is NoData,
                Some(Err(m)) => r matches ChunkAction::Fail(ChunkFailure::Response(t)) && t@ == m,
                None => match response_plan(ms@, is_dimension, strings_view(wanted@), stamps@) {
                    Ok(v) => r matches ChunkAction::Take(p) && plan_view(p) == v,
                    Err(e) => r matches ChunkAction::Fail(ChunkFailure::Response(t)) && t@ == plan_error_text(e),
                },
            },
        },
{
    match reply {
        ChunkReply::Failure(err) => {
            let msg = chars_of(err.message.as_str());
            let marker = chars_of("Valid metrics:");
            proof {
                reveal_strlit("Valid metrics:");
            }
            let found = find_first(msg.as_slice(), marker.as_slice());
            if retried || found.is_none() {
                let mut out: Vec<char> = Vec::new();
                push_str(&mut out, err.code.as_str());
                push_str(&mut out, ": ");
                push_str(&mut out, err.message.as_str());
                proof {
                    reveal_strlit(": ");
                    assert(out@ =~= failure_text(err.code@, err.message@));
                }
                return ChunkAction::Fail(ChunkFailure::Response(string_from_chars(out.as_slice())));
            }
            match err.get_error_metrics(requested) {
                Err(e) => ChunkAction::Fail(ChunkFailure::ValidMetrics(e)),
                Ok(v) => {
                    let names = join_texts(&v, ",");
                    proof {
                        assert(retry_names(names@, err.message@, strings_view(requested@)));
                    }
                    ChunkAction::Retry(names)
                },
            }
        },
        ChunkReply::Metrics(ms) => {
            let codes = codes_of(ms);
            match check_codes(&codes, resource_uri) {
                CodeCheck::InvalidSeries => ChunkAction::NoData,
                CodeCheck::Failed(m) => ChunkAction::Fail(ChunkFailure::Response(m)),
                CodeCheck::AllSuccess => match plan_response(ms, is_dimension, wanted, stamps) {
                    Ok(p) => ChunkAction::Take(p),
                    Err(PlanError::NoTimeseries) => {
                        let t = String::from_str("No timeseries in response");
                        ChunkAction::Fail(ChunkFailure::Response(t))
                    },
                    Err(PlanError::NoMetadata) => {
                        let t = String::from_str("No metadata in response with dimension");
                        ChunkAction::Fail(ChunkFailure::Response(t))
                    },
                },
            }
        },
    }
}

/// The timestamps after a plan's are kept, in order (a later one for a
/// key replaces an earlier one).
pub open spec fn kept_stamps(m: Map<Seq<char>, (i64, u32)>, ts: Seq<(Seq<char>, (i64, u32))>) -> Map<Seq<char>, (i64, u32)>
    decreases ts.len(),
{
    if ts.len() == 0 {
        m
    } else {
        kept_stamps(m, ts.drop_last()).insert(ts.last().0, ts.last().1)
    }
}

/// Keeps the timestamps of a chunk's plan with those of the chunks before.
pub fn keep_timestamps(acc: &mut StrMap<(i64, u32)>, plan: &SeriesPlan)
    ensures
        final(acc)@ == kept_stamps(old(acc)@, plan_view(*plan).1),
{
    let ghost a0 = acc@;
    let ghost ts = plan_view(*plan).1;
    let mut i: usize = 0;
    while i < plan.timestamps.len()
        invariant
            i <= plan.timestamps@.len(),
            ts == plan_view(*plan).1,
            ts.len() == plan.timestamps@.len(),
            acc@ == kept_stamps(a0, ts.take(i as int)),
        decreases plan.timestamps.len() - i,
    {
        let (k, t) = &plan.timestamps[i];
        proof {
            assert(ts.take(i + 1).drop_last() =~= ts.take(i as int));
            assert(ts.take(i + 1).last() == (k@, *t));
        }
        acc.insert(k.clone(), *t);
        i = i + 1;
    }
    proof {
        assert(ts.take(i as int) =~= ts);
    }
}

} // verus!
