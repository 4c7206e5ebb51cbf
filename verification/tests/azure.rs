use agent_protocols::azure::chunks::{chunk_step, keep_timestamps, ChunkAction, ChunkFailure, ChunkReply};
use agent_protocols::azure::definitions::{take_page, AzureError, ErrorResponse, PageStep, ResourceResponse, SuccessResponse};
use agent_protocols::azure::input::{Aggregation, MetricSpec};
use agent_protocols::azure::metrics::{
    aggregation_text, aggregations_to_calculate, aggregations_to_request, check_codes, field_value,
    get_resource_group, group_resources, measured_specs, metric_chunks, metric_key, min_last,
    plan_response, requested_dimensions, requested_metrics, resource_row, select_points,
    series_dimension, skip_resource, window_start, CodeCheck, PlanError,
};
use agent_protocols::azure::schema::{
    Error, LocalizableString, MetaDataValue, Metric, MetricValue, TimeSeriesElement, Unit,
};
use agent_protocols::common::data::{DataError, FloatRepr, Type, Value};
use agent_protocols::common::strmap::StrMap;

fn spec(name: &str, agg: Aggregation, dim: Option<&str>) -> MetricSpec {
    MetricSpec {
        metric_name: name.to_string(),
        aggregation: agg,
        dimension_value: dim.map(|d| d.to_string()),
        is_key: false,
    }
}

const ID: &str = "/subscriptions/223544ac/resourceGroups/NetworkWatcherRG/providers/Microsoft.Network/networkWatchers/NetworkWatcher_westeurope";

#[test]
fn resource_group_is_read_from_the_id() {
    assert_eq!(get_resource_group(ID), Some(String::from("NetworkWatcherRG")));
    assert_eq!(get_resource_group("/subscriptions/x/providers/y"), None);
    assert_eq!(get_resource_group("/subscriptions/x/resourceGroups/last"), None);
    assert_eq!(get_resource_group("/resourceGroups/a/resourceGroups/b/"), Some(String::from("a")));
}

#[test]
fn valid_metrics_are_read_from_an_error() {
    let err = Error {
        code: String::from("BadRequest"),
        message: String::from("Failed to find metric. Valid metrics: Percentage CPU,Network In,Disk Read"),
    };
    let old = vec![String::from("Network In"), String::from("Disk Read"), String::from("Other")];
    let mut got = err.get_error_metrics(&old).unwrap();
    got.sort();
    assert_eq!(got, vec![String::from("Disk Read"), String::from("Network In")]);
    let none = Error { code: String::from("x"), message: String::from("no list here") };
    assert_eq!(none.get_error_metrics(&old).unwrap_err(), "No valid metrics");
}

#[test]
fn aggregations_average_needs_total_and_count() {
    let a = spec("cpu", Aggregation::Average, None);
    let m = spec("mem", Aggregation::Maximum, None);
    let specs = vec![&a, &m, &a];
    let calc = aggregations_to_calculate(&specs);
    assert_eq!(calc.len(), 2);
    assert!(calc.contains(&Aggregation::Average) && calc.contains(&Aggregation::Maximum));
    let req = aggregations_to_request(&specs);
    assert_eq!(req.len(), 3);
    assert!(req.contains(&Aggregation::Total));
    assert!(req.contains(&Aggregation::Count));
    assert!(req.contains(&Aggregation::Maximum));
    assert!(!req.contains(&Aggregation::Average));
    assert_eq!(aggregation_text(&vec![Aggregation::Total, Aggregation::Count]), "Total,Count");
    assert_eq!(aggregation_text(&vec![]), "");
    assert_eq!(Aggregation::NoAggregation.to_text(), "None");
}

#[test]
fn requested_metrics_and_dimensions_are_distinct() {
    let a = spec("cpu", Aggregation::Average, Some("d1"));
    let b = spec("cpu", Aggregation::Maximum, None);
    let c = spec("disk", Aggregation::Total, Some("d1"));
    let specs = vec![&a, &b, &c];
    assert_eq!(requested_metrics(&specs), vec![String::from("cpu"), String::from("disk")]);
    assert_eq!(requested_dimensions(&specs), vec![String::from("d1"), String::new()]);
}

#[test]
fn pseudo_metrics_are_not_measured() {
    let a = spec("Resource", Aggregation::NoAggregation, None);
    let b = spec("cpu", Aggregation::Average, None);
    let c = spec("ResourceGroup", Aggregation::NoAggregation, None);
    let specs = vec![&a, &b, &c];
    let m = measured_specs(&specs);
    assert_eq!(m.len(), 1);
    assert_eq!(m[0].metric_name, "cpu");
    assert!(matches!(a.get_type(), Type::UnicodeString));
    assert!(matches!(b.get_type(), Type::Float));
}

#[test]
fn metrics_are_requested_in_chunks_of_twenty() {
    let names: Vec<String> = (0..45).map(|i| format!("m{i}")).collect();
    let chunks = metric_chunks(&names);
    assert_eq!(chunks.iter().map(|c| c.len()).collect::<Vec<_>>(), vec![20, 20, 5]);
    assert_eq!(chunks.concat(), names);
    assert!(metric_chunks(&Vec::new()).is_empty());
}

#[test]
fn window_starts_at_earliest_timestamp_or_an_hour_ago() {
    let mut stamps: StrMap<(i64, u32)> = StrMap::new();
    stamps.insert(String::from("a"), (1000, 5));
    stamps.insert(String::from("b"), (1000, 2));
    let chunk = vec![String::from("a"), String::from("b"), String::from("c")];
    assert_eq!(window_start(&chunk, &stamps, (5000, 0)), (1000, 2));
    assert_eq!(window_start(&vec![String::from("c")], &stamps, (5000, 7)), (1400, 7));
}

#[test]
fn response_codes_decide() {
    let uri = String::from("res");
    let ok = vec![(String::from("Success"), None)];
    assert!(matches!(check_codes(&ok, &uri), CodeCheck::AllSuccess));
    let inv = vec![(String::from("Success"), None), (String::from("InvalidSeries"), None)];
    assert!(matches!(check_codes(&inv, &uri), CodeCheck::InvalidSeries));
    let bad = vec![(String::from("Boom"), Some(String::from("broken")))];
    match check_codes(&bad, &uri) {
        CodeCheck::Failed(m) => assert_eq!(m, "broken"),
        _ => panic!("expected a failure"),
    }
    let bare = vec![(String::from("Boom"), None)];
    match check_codes(&bare, &uri) {
        CodeCheck::Failed(m) => assert_eq!(m, "API request not successful (res)"),
        _ => panic!("expected a failure"),
    }
}

#[test]
fn points_count_in_order_with_data() {
    let pts = vec![((10, 0), true), ((5, 0), true), ((10, 0), false), ((12, 0), true), ((11, 0), true)];
    let (kept, last) = select_points(&pts, Some((8, 0)));
    assert_eq!(kept, vec![0, 3]);
    assert_eq!(last, Some((12, 0)));
    let (kept, last) = select_points(&pts, None);
    assert_eq!(kept, vec![0, 3]);
    assert_eq!(last, Some((12, 0)));
    let (kept, last) = select_points(&vec![((1, 0), false)], Some((0, 9)));
    assert!(kept.is_empty());
    assert_eq!(last, Some((0, 9)));
}

#[test]
fn dimensions_and_last_timestamps() {
    let md = Some(vec![MetaDataValue {
        name: LocalizableString { value: String::from("LUN"), localized_value: None },
        value: String::from("0"),
    }]);
    assert_eq!(series_dimension(&md), Some(String::from("0")));
    assert_eq!(series_dimension(&Some(vec![])), Some(String::new()));
    assert_eq!(series_dimension(&None), None);
    assert_eq!(min_last(Some((5, 0)), Some((3, 0))), Some((3, 0)));
    assert_eq!(min_last(None, Some((3, 0))), Some((3, 0)));
    assert_eq!(min_last(Some((5, 0)), None), Some((5, 0)));
    assert_eq!(metric_key(&String::from("cpu"), &String::from("0")), "cpu.0");
}

#[test]
fn field_values_of_a_resource() {
    let mut agg: StrMap<Vec<(Aggregation, Option<u64>)>> = StrMap::new();
    agg.insert(String::from("cpu"), vec![(Aggregation::Average, Some(4.5f64.to_bits())), (Aggregation::Maximum, None)]);
    agg.insert(String::from("disk.0"), vec![(Aggregation::Total, Some(2.0f64.to_bits()))]);
    let res = String::from("vm1");
    let uri = String::from(ID);
    match field_value(&spec("cpu", Aggregation::Average, None), &res, &uri, &agg) {
        Ok(Value::Float(FloatRepr::Ieee64(b))) => assert_eq!(f64::from_bits(b), 4.5),
        _ => panic!("expected a float"),
    }
    assert!(matches!(field_value(&spec("cpu", Aggregation::Maximum, None), &res, &uri, &agg), Err(DataError::Missing)));
    assert!(matches!(field_value(&spec("cpu", Aggregation::Total, None), &res, &uri, &agg), Err(DataError::Missing)));
    assert!(matches!(field_value(&spec("disk", Aggregation::Total, Some("0")), &res, &uri, &agg), Ok(Value::Float(_))));
    match field_value(&spec("ResourceGroup", Aggregation::NoAggregation, None), &res, &uri, &agg) {
        Ok(Value::BinaryString(b)) => assert_eq!(b, b"NetworkWatcherRG".to_vec()),
        _ => panic!("expected the group"),
    }
    match field_value(&spec("Resource", Aggregation::NoAggregation, None), &res, &uri, &agg) {
        Ok(Value::BinaryString(b)) => assert_eq!(b, b"vm1".to_vec()),
        _ => panic!("expected the name"),
    }
    let no_group = String::from("/subscriptions/x");
    assert!(matches!(field_value(&spec("ResourceGroup", Aggregation::NoAggregation, None), &res, &no_group, &agg), Err(DataError::Missing)));
    let a = spec("Resource", Aggregation::NoAggregation, None);
    let b = spec("cpu", Aggregation::Average, None);
    assert_eq!(resource_row(&vec![&a, &b], &res, &uri, &agg).len(), 2);
}

#[test]
fn resources_are_skipped_by_group_pattern() {
    let uri = String::from(ID);
    assert_eq!(skip_resource(&None, &uri), Some(false));
    assert_eq!(skip_resource(&Some(String::from("^Network")), &uri), Some(false));
    assert_eq!(skip_resource(&Some(String::from("^Other")), &uri), Some(true));
    assert_eq!(skip_resource(&Some(String::from("(")), &uri), None);
    assert_eq!(skip_resource(&Some(String::from("(")), &String::from("/no/group")), Some(false));
}

#[test]
fn resources_are_grouped_by_name_space() {
    let list = vec![
        (String::from("ns1"), String::from("a"), String::from("id-a")),
        (String::from("ns2"), String::from("b"), String::from("id-b")),
        (String::from("ns1"), String::from("c"), String::from("id-c")),
    ];
    let g = group_resources(list);
    let ns1 = g.get(&String::from("ns1")).unwrap();
    assert_eq!(ns1, &vec![(String::from("a"), String::from("id-a")), (String::from("c"), String::from("id-c"))]);
    assert_eq!(g.get(&String::from("ns2")).unwrap().len(), 1);
    assert!(g.get(&String::from("ns3")).is_none());
}

fn point(t: i64, total: Option<f64>) -> MetricValue {
    MetricValue { timestamp: (t, 0), average: None, minimum: None, maximum: None, total: total.map(f64::to_bits), count: None }
}

fn metric(name: &str, series: Vec<TimeSeriesElement>) -> Metric {
    Metric {
        id: String::from("id"),
        typ: String::from("t"),
        name: LocalizableString { value: name.to_string(), localized_value: None },
        display_description: None,
        unit: Unit::Count,
        timeseries: series,
        error_message: None,
        error_code: String::from("Success"),
    }
}

#[test]
fn response_plan_without_dimension() {
    let m = metric("cpu", vec![TimeSeriesElement { metadatavalues: None, data: vec![point(1, Some(1.0)), point(2, None), point(3, Some(2.0))] }]);
    let mut stamps: StrMap<(i64, u32)> = StrMap::new();
    stamps.insert(String::from("cpu"), (2, 0));
    let plan = plan_response(&vec![m], false, &vec![], &stamps).ok().unwrap();
    assert_eq!(plan.entries.len(), 1);
    assert_eq!(plan.entries[0].0, "cpu");
    assert_eq!(plan.entries[0].1.len(), 1);
    assert_eq!(plan.entries[0].1[0].timestamp, (3, 0));
    assert_eq!(plan.timestamps, vec![(String::from("cpu"), (3, 0))]);
}

#[test]
fn response_plan_with_dimension() {
    let md = |v: &str| Some(vec![MetaDataValue { name: LocalizableString { value: String::from("LUN"), localized_value: None }, value: v.to_string() }]);
    let m = metric("disk", vec![
        TimeSeriesElement { metadatavalues: md("0"), data: vec![point(5, Some(1.0))] },
        TimeSeriesElement { metadatavalues: md("1"), data: vec![point(7, Some(1.0))] },
        TimeSeriesElement { metadatavalues: md("2"), data: vec![point(4, Some(1.0))] },
    ]);
    let wanted = vec![String::from("0"), String::from("1")];
    let plan = plan_response(&vec![m], true, &wanted, &StrMap::new()).ok().unwrap();
    assert_eq!(plan.entries.iter().map(|e| e.0.clone()).collect::<Vec<_>>(), vec![String::from("disk.0"), String::from("disk.1")]);
    assert_eq!(plan.timestamps, vec![(String::from("disk"), (5, 0))]);
    assert!(matches!(plan_response(&vec![], true, &wanted, &StrMap::new()), Err(PlanError::NoTimeseries)));
    let bare = metric("disk", vec![TimeSeriesElement { metadatavalues: None, data: vec![] }]);
    assert!(matches!(plan_response(&vec![bare], true, &wanted, &StrMap::new()), Err(PlanError::NoMetadata)));
}

#[test]
fn point_has_data_ignores_count_alone() {
    let mut p = point(1, None);
    p.count = Some(3.0f64.to_bits());
    assert!(!p.has_data());
    p.average = Some(1.0f64.to_bits());
    assert!(p.has_data());
}

#[test]
fn listing_pages() {
    let mut items: Vec<u32> = vec![1];
    let page = ResourceResponse::Success(SuccessResponse { next_link: Some("https://next".to_string()), count: None, value: vec![2, 3] });
    assert!(matches!(take_page(&mut items, page), PageStep::Fetch(l) if l == "https://next"));
    assert_eq!(items, vec![1, 2, 3]);
    let last = ResourceResponse::Success(SuccessResponse { next_link: None, count: None, value: vec![4] });
    assert!(matches!(take_page(&mut items, last), PageStep::Done));
    assert_eq!(items, vec![1, 2, 3, 4]);
    let err = ResourceResponse::Error(ErrorResponse { error: AzureError { code: "Throttled".to_string(), message: "slow down".to_string() } });
    assert!(matches!(take_page(&mut items, err), PageStep::Failed(e) if e.error.code == "Throttled"));
    assert_eq!(items.len(), 4);
}

#[test]
fn resource_listing() {
    use_listing();
}

fn use_listing() {
    let text = r#"{"value":[{"type":"Microsoft.Compute/virtualMachines","name":"vm1","id":"/subscriptions/s/resourceGroups/g/vm1"},
        {"type":"Microsoft.Web/sites","name":"site","id":"/x"},
        {"type":"Microsoft.Compute/virtualMachines","name":"vm2","id":"/y"}]}"#;
    let groups = agent_protocols::azure::listing::resources_from_listing(text).ok().unwrap();
    let vms = groups.get(&"Microsoft.Compute/virtualMachines".to_string()).unwrap();
    assert_eq!(vms.len(), 2);
    assert_eq!(vms[1].0, "vm2");
    assert_eq!(groups.get(&"Microsoft.Web/sites".to_string()).unwrap()[0].1, "/x");
    let err = |t: &str| agent_protocols::azure::listing::resources_from_listing(t).err().unwrap();
    assert!(!err("not json").is_empty());
    assert_eq!(err("[]"), "response is not an object");
    assert_eq!(err("{}"), "response has no value parameter");
    assert_eq!(err(r#"{"value":1}"#), "the value parameter is not an array");
    assert_eq!(err(r#"{"value":[1]}"#), "resource is not an object");
    assert_eq!(err(r#"{"value":[{"type":"t","name":"n"}]}"#), "resource has no parameter 'id'");
    assert_eq!(err(r#"{"value":[{"type":1}]}"#), "the parameter 'type' in resource is not a string");
}

#[test]
fn chunk_replies_decide_next_step() {
    let requested = vec![String::from("cpu"), String::from("mem"), String::from("disk")];
    let stamps: StrMap<(i64, u32)> = StrMap::new();
    let uri = String::from("/subscriptions/s/resourceGroups/g/x");
    // An error response that names the valid metrics is asked again once.
    let err = Error { code: String::from("BadRequest"), message: String::from("Unknown metric. Valid metrics: cpu,net") };
    let reply = ChunkReply::Failure(err);
    match chunk_step(&reply, false, &requested, false, &vec![], &stamps, &uri) {
        ChunkAction::Retry(names) => assert_eq!(names, "cpu"),
        _ => panic!("expected a retry"),
    }
    match chunk_step(&reply, true, &requested, false, &vec![], &stamps, &uri) {
        ChunkAction::Fail(ChunkFailure::Response(m)) => assert_eq!(m, "BadRequest: Unknown metric. Valid metrics: cpu,net"),
        _ => panic!("expected a failure"),
    }
    let plain = ChunkReply::Failure(Error { code: String::from("Throttled"), message: String::from("slow down") });
    match chunk_step(&plain, false, &requested, false, &vec![], &stamps, &uri) {
        ChunkAction::Fail(ChunkFailure::Response(m)) => assert_eq!(m, "Throttled: slow down"),
        _ => panic!("expected a failure"),
    }
    let unlisted = ChunkReply::Failure(Error { code: String::from("E"), message: String::from("Valid metrics:none") });
    match chunk_step(&unlisted, false, &requested, false, &vec![], &stamps, &uri) {
        ChunkAction::Fail(ChunkFailure::ValidMetrics(m)) => assert_eq!(m, "No valid metrics"),
        _ => panic!("expected a failure"),
    }
    // An invalid series means that the resource has no data.
    let mut bad = metric("mem", vec![]);
    bad.error_code = String::from("InvalidSeries");
    let reply = ChunkReply::Metrics(vec![metric("cpu", vec![]), bad]);
    assert!(matches!(chunk_step(&reply, false, &requested, false, &vec![], &stamps, &uri), ChunkAction::NoData));
    // A dimension needs a metric.
    let reply = ChunkReply::Metrics(vec![]);
    match chunk_step(&reply, false, &requested, true, &vec![], &stamps, &uri) {
        ChunkAction::Fail(ChunkFailure::Response(m)) => assert_eq!(m, "No timeseries in response"),
        _ => panic!("expected a failure"),
    }
    // A good response is planned and its timestamps kept.
    let m = metric("cpu", vec![TimeSeriesElement { metadatavalues: None, data: vec![point(5, Some(1.0))] }]);
    let reply = ChunkReply::Metrics(vec![m]);
    match chunk_step(&reply, false, &requested, false, &vec![], &stamps, &uri) {
        ChunkAction::Take(plan) => {
            let mut kept: StrMap<(i64, u32)> = StrMap::new();
            kept.insert(String::from("cpu"), (1, 0));
            keep_timestamps(&mut kept, &plan);
            assert_eq!(kept.get(&String::from("cpu")), Some(&(5, 0)));
        }
        _ => panic!("expected a plan"),
    }
}
