//! What a query asks of Azure Monitor: resources by name space, and their
//! metrics with the aggregation to compute.

use vstd::prelude::*;

use crate::common::data::{Type, TypeV};
use vstd::string::StringExecFns;

verus! {

/// A table: the resources of a name space, optionally split by a
/// dimension.
pub struct ResourceSpec {
    pub name_space: String,
    pub dimension_name: Option<String>,
}

/// How the points of a time series are combined into one value.
#[derive(Clone, Copy, PartialEq, Eq, Structural)]
pub enum Aggregation {
    /// No aggregation: the value is never available.
    NoAggregation,
    Average,
    Minimum,
    Maximum,
    Total,
    Count,
}

/// A field: a metric of the resource with its aggregation, for one value
/// of the table's dimension if it has one.
pub struct MetricSpec {
    pub metric_name: String,
    pub aggregation: Aggregation,
    pub dimension_value: Option<String>,
    pub is_key: bool,
}

/// The name of an aggregation in requests and field names.
pub open spec fn aggregation_name(a: Aggregation) -> Seq<char> {
    match a {
        Aggregation::NoAggregation => "None"@,
        Aggregation::Average => "Average"@,
        Aggregation::Minimum => "Minimum"@,
        Aggregation::Maximum => "Maximum"@,
        Aggregation::Total => "Total"@,
        Aggregation::Count => "Count"@,
    }
}

/// The pseudo metrics that name the resource and its group rather than
/// being requested.
pub open spec fn is_pseudo_metric(name: Seq<char>) -> bool {
    name == "Resource"@ || name == "ResourceGroup"@
}

impl Aggregation {
    /// The name of the aggregation.
    pub fn to_text(&self) -> (r: String)
        ensures
            r@ == aggregation_name(*self),
    {
        match self {
            Aggregation::NoAggregation => String::from_str("None"),
            Aggregation::Average => String::from_str("Average"),
            Aggregation::Minimum => String::from_str("Minimum"),
            Aggregation::Maximum => String::from_str("Maximum"),
            Aggregation::Total => String::from_str("Total"),
            Aggregation::Count => String::from_str("Count"),
        }
    }
}

/// Whether a metric name is one of the pseudo metrics.
pub fn pseudo_metric(name: &String) -> (r: bool)
    ensures
        r == is_pseudo_metric(name@),
{
    let a = String::from_str("Resource");
    let b = String::from_str("ResourceGroup");
    *name == a || *name == b
}

impl MetricSpec {
    /// The type of the field: text for the pseudo metrics, a float for a
    /// measured metric.
    pub fn get_type(&self) -> (r: Type)
        ensures
            r@ == (if is_pseudo_metric(self.metric_name@) { TypeV::UnicodeString } else { TypeV::Float }),
    {
        if pseudo_metric(&self.metric_name) {
            Type::UnicodeString
        } else {
            Type::Float
        }
    }
}

} // verus!
