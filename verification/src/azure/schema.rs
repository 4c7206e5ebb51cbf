//! The metric documents of Azure Monitor. A measured value is held as the
//! bits of its IEEE 754 double; a point in time as seconds and nanoseconds
//! since the UNIX epoch.

use vstd::prelude::*;

use crate::common::data::strings_view;
use crate::common::search::{after_last, split_char, find_after_last, split_on, contains_string, lemma_push_contains};
use crate::common::text::chars_of;
use vstd::string::StringExecFns;

verus! {

/// A metrics listing.
pub struct Metrics {
    pub cost: Option<u32>,
    pub timespan: String,
    pub interval: Option<Interval>,
    pub namespace: Option<String>,
    pub resourceregion: Option<String>,
    pub value: Vec<Metric>,
}

/// One metric of a listing.
pub struct Metric {
    pub id: String,
    pub typ: String,
    pub name: LocalizableString,
    pub display_description: Option<String>,
    pub unit: Unit,
    pub timeseries: Vec<TimeSeriesElement>,
    pub error_message: Option<String>,
    pub error_code: String,
}

/// One time series of a metric, with the dimension values it is for.
pub struct TimeSeriesElement {
    pub metadatavalues: Option<Vec<MetaDataValue>>,
    pub data: Vec<MetricValue>,
}

/// A dimension value of a time series.
pub struct MetaDataValue {
    pub name: LocalizableString,
    pub value: String,
}

/// One point of a time series: its time and the aggregates Azure computed
/// for it (as IEEE 754 bits).
#[derive(Clone, Copy)]
pub struct MetricValue {
    pub timestamp: (i64, u32),
    pub average: Option<u64>,
    pub minimum: Option<u64>,
    pub maximum: Option<u64>,
    pub total: Option<u64>,
    pub count: Option<u64>,
}

/// A point has data when it has an average, a minimum, a maximum or a
/// total (a count alone does not count).
pub open spec fn point_has_data(v: MetricValue) -> bool {
    v.average is Some || v.minimum is Some || v.maximum is Some || v.total is Some
}

impl MetricValue {
    /// Whether the point has data (see `point_has_data`).
    pub fn has_data(&self) -> (r: bool)
        ensures
            r == point_has_data(*self),
    {
        self.average.is_some() || self.minimum.is_some() || self.maximum.is_some() || self.total.is_some()
    }
}

/// The granularities of a listing.
#[derive(Clone, Copy, PartialEq, Eq, Structural)]
pub enum Interval {
    PT1M,
    PT5M,
    PT15M,
    PT30M,
    PT1H,
    PT6,
    PT12H,
    PT1D,
}

/// The units of a metric.
#[derive(Clone, Copy, PartialEq, Eq, Structural)]
pub enum Unit {
    Count,
    Bytes,
    Seconds,
    CountPerSecond,
    BytesPerSecond,
    Percent,
    MilliSeconds,
    ByteSeconds,
    Unspecified,
    Cores,
    MilliCores,
    NanoCores,
    BitsPerSecond,
}

/// A name with its localized form.
pub struct LocalizableString {
    pub value: String,
    pub localized_value: Option<String>,
}

/// A document, or the error that came instead.
pub enum Response<T> {
    /// The document.
    Document(T),
    /// The error that came instead.
    Failure(Error),
}

/// An error of Azure Monitor.
pub struct Error {
    pub code: String,
    pub message: String,
}

/// The marker before the list of valid metrics in an error message.
pub open spec fn valid_marker() -> Seq<char> {
    "Valid metrics: "@
}

/// The metrics that an error message lists as valid (the comma-separated
/// text after the last marker), if it has the marker.
pub open spec fn listed_metrics(message: Seq<char>) -> Option<Seq<Seq<char>>> {
    match after_last(message, valid_marker()) {
        Some(k) => Some(split_char(message.subrange(k, message.len() as int), ',')),
        None => None,
    }
}

impl Error {
    /// The metrics of `old_metrics` that the message lists as valid, each
    /// once; an error when the message lists none.
    pub fn get_error_metrics(&self, old_metrics: &Vec<String>) -> (r: Result<Vec<String>, String>)
        ensures
            match listed_metrics(self.message@) {
                None => r matches Err(e) && e@ == "No valid metrics"@,
                Some(listed) => r matches Ok(v) && strings_view(v@).no_duplicates()
                    && forall|m: Seq<char>| #[trigger] strings_view(v@).contains(m)
                        <==> (listed.contains(m) && strings_view(old_metrics@).contains(m)),
            },
    {
        let msg = chars_of(self.message.as_str());
        let marker = chars_of("Valid metrics: ");
        match find_after_last(msg.as_slice(), marker.as_slice()) {
            None => Err(String::from_str("No valid metrics")),
            Some(k) => {
                let mut tail: Vec<char> = Vec::new();
                let mut i: usize = k;
                while i < msg.len()
                    invariant
                        k <= i <= msg@.len(),
                        tail@ == msg@.subrange(k as int, i as int),
                    decreases msg.len() - i,
                {
                    tail.push(msg[i]);
                    proof {
                        assert(tail@ =~= msg@.subrange(k as int, i + 1));
                    }
                    i = i + 1;
                }
                let pieces = split_on(tail.as_slice(), ',');
                let ghost listed = strings_view(pieces@);
                let mut out: Vec<String> = Vec::new();
                let mut j: usize = 0;
                while j < pieces.len()
                    invariant
                        j <= pieces@.len(),
                        listed == strings_view(pieces@),
                        strings_view(out@).no_duplicates(),
                        forall|m: Seq<char>| #[trigger] strings_view(out@).contains(m)
                            <==> (listed.take(j as int).contains(m) && strings_view(old_metrics@).contains(m)),
                    decreases pieces.len() - j,
                {
                    let ghost o0 = strings_view(out@);
                    proof {
                        assert(listed.take(j + 1) =~= listed.take(j as int).push(listed[j as int]));
                        lemma_push_contains(listed.take(j as int), listed[j as int]);
                        assert(listed[j as int] == pieces@[j as int]@);
                    }
                    if contains_string(old_metrics, &pieces[j]) && !contains_string(&out, &pieces[j]) {
                        out.push(pieces[j].clone());
                        proof {
                            assert(strings_view(out@) =~= o0.push(pieces@[j as int]@));
                            lemma_push_contains(o0, pieces@[j as int]@);
                        }
                    }
                    j = j + 1;
                }
                proof {
                    assert(listed.take(j as int) =~= listed);
                }
                Ok(out)
            },
        }
    }
}

} // verus!
