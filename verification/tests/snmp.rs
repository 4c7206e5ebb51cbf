use agent_protocols::common::data::{DataError, FloatRepr, Type, Value};
use agent_protocols::common::strmap::StrMap;
use agent_protocols::snmp::config::{default_true, default_workers, BulkConfig, Quirks};
use agent_protocols::snmp::counters::Counters;
use agent_protocols::snmp::index::{EntrySpec, Index};
use agent_protocols::snmp::input::{Input, ObjectId, ObjectSpec, ObjectType};
use agent_protocols::snmp::oid::{Oid, SnmpValue};
use agent_protocols::snmp::oidmap::OidMap;
use agent_protocols::snmp::plan::{get_contexts, get_queries, ContextRules, ContextSelector, QueryError};
use agent_protocols::snmp::scalar::{default_false, ScalarSpec, ValueList, ValueRange, VarType};

fn oid(v: &[u64]) -> Oid {
    Oid(v.to_vec())
}

#[test]
fn snmp_defaults() {
    assert!(default_true());
    assert!(!default_false());
    assert_eq!(default_workers(), 1);
    let b = BulkConfig::default();
    assert_eq!((b.max_width, b.def_length, b.min_length, b.max_length, b.max_size, b.max_len_diff), (50, 10, 5, 100, 1000, 5));
    let q = Quirks::default();
    assert!(!q.ignore_oids_not_increasing && !q.invalid_packets_at_end && !q.refresh_session && q.request_delay.is_none());
}

#[test]
fn repetitions_are_bounded() {
    let b = BulkConfig::default();
    assert_eq!(b.max_repetitions(None, 1000, 10), 10);
    assert_eq!(b.max_repetitions(Some(2), 1000, 10), 5);
    assert_eq!(b.max_repetitions(Some(500), 1000, 4), 100);
    assert_eq!(b.max_repetitions(Some(500), 1000, 40), 25);
    assert_eq!(b.max_repetitions(Some(500), 1000, 0), 0);
}

#[test]
fn ranges_normalize() {
    assert!(ValueRange::Range { from: Some(4), to: Some(4) }.normalize() == ValueRange::Exact(4));
    let swapped = ValueRange::Range { from: Some(9), to: Some(2) }.normalize();
    assert!(swapped == ValueRange::Range { from: Some(2), to: Some(9) });
    assert!(swapped.normalize() == swapped);
    assert!(ValueRange::Range { from: None, to: Some(2) }.normalize() == ValueRange::Range { from: None, to: Some(2) });
}

#[test]
fn oids() {
    let table = oid(&[1, 3, 6, 1, 2, 1, 2, 2, 1, 2]);
    let row = oid(&[1, 3, 6, 1, 2, 1, 2, 2, 1, 2, 7]);
    assert!(table.contains(&row));
    assert!(!row.contains(&table));
    assert_eq!(row.in_table(&table).0, vec![7]);
    assert!(table.lt(&row));
    assert!(!row.lt(&table));
    assert_eq!(row.to_text(), "1.3.6.1.2.1.2.2.1.2.7");
    assert_eq!(Oid::empty().to_text(), "");
}

fn scalar(t: VarType) -> ScalarSpec {
    ScalarSpec { table: None, syntax: t, value_list: None, value_range: None, error_enum: false }
}

#[test]
fn values_are_converted_by_syntax() {
    let mut counters = Counters::new();
    let obj = String::from("ifInOctets");
    let ix = oid(&[1]);
    assert!(matches!(scalar(VarType::Integer32).get_value(&Ok(SnmpValue::Integer(-3)), &obj, &ix, &mut counters, 0), Some(Ok(Value::Integer(-3)))));
    assert!(matches!(scalar(VarType::Counter).get_value(&Ok(SnmpValue::Counter(100)), &obj, &ix, &mut counters, 1_000_000_000), Some(Err(DataError::CounterPending))));
    match scalar(VarType::Counter).get_value(&Ok(SnmpValue::Counter(300)), &obj, &ix, &mut counters, 3_000_000_000) {
        Some(Ok(Value::Float(FloatRepr::Ratio(n, d)))) => assert_eq!((n as f64) / (d as f64), 100.0),
        _ => panic!("expected a rate"),
    }
    assert!(matches!(scalar(VarType::Counter).get_value(&Ok(SnmpValue::Counter(200)), &obj, &ix, &mut counters, 4_000_000_000), Some(Err(DataError::CounterOverflow))));
}

fn spec(oid_v: &[u64], typ: ObjectType, group: Option<&str>) -> ObjectSpec {
    ObjectSpec { module: None, oid: oid(oid_v), name: String::from("obj"), typ, context_group: group.map(String::from) }
}

fn input() -> Input {
    let mut objects = StrMap::new();
    objects.insert(String::from("IF-MIB::ifEntry"), spec(&[1, 3, 6, 1, 2, 1, 2, 2, 1], ObjectType::Table, None));
    objects.insert(String::from("IF-MIB::ifIndex"), spec(&[1, 3, 6, 1, 2, 1, 2, 2, 1, 1], ObjectType::Scalar, None));
    objects.insert(String::from("IF-MIB::ifDescr"), spec(&[1, 3, 6, 1, 2, 1, 2, 2, 1, 2], ObjectType::Scalar, None));
    objects.insert(String::from("SNMPv2-MIB::sysName"), spec(&[1, 3, 6, 1, 2, 1, 1, 5], ObjectType::Scalar, Some("system")));
    let mut tables = StrMap::new();
    tables.insert(String::from("IF-MIB::ifEntry"), EntrySpec { index: vec![ObjectId(String::from("IF-MIB::ifIndex"))], implied_index: None, augments: None, fold: None });
    Input { objects, modules: StrMap::new(), tables, scalars: StrMap::new(), events: StrMap::new() }
}

#[test]
fn contexts_follow_the_first_rule_that_applies() {
    let rules = ContextRules {
        session_context: String::from("main"),
        rules: vec![
            (ContextSelector::Group(String::from("system")), vec![Some(String::from("a")), None, Some(String::from("a"))]),
            (ContextSelector::All, vec![Some(String::from("b"))]),
        ],
    };
    let mut sys = get_contexts(&oid(&[1, 3, 6, 1, 2, 1, 1, 5]), &Some(String::from("system")), &rules);
    sys.sort();
    assert_eq!(sys, vec![String::from("a"), String::from("main")]);
    assert_eq!(get_contexts(&oid(&[1]), &None, &rules), vec![String::from("b")]);
    let plain = ContextRules { session_context: String::new(), rules: vec![] };
    assert_eq!(get_contexts(&oid(&[1]), &None, &plain), vec![String::new()]);
}

#[test]
fn queries_are_planned_per_context() {
    let rules = ContextRules { session_context: String::new(), rules: vec![] };
    let query = vec![
        (String::from("IF-MIB::ifEntry"), vec![String::from("IF-MIB::ifIndex"), String::from("IF-MIB::ifDescr")]),
        (String::from("noIndex"), vec![String::from("SNMPv2-MIB::sysName")]),
    ];
    let planned = get_queries(&input(), &rules, &OidMap::new(), &query).ok().unwrap();
    assert_eq!(planned.len(), 1);
    let (ctx, walks, gets) = &planned[0];
    assert_eq!(ctx, "");
    assert_eq!(walks.0.len(), 1);
    assert_eq!(walks.0[0].vars.len(), 1);
    assert_eq!(walks.0[0].vars[0].oid.0, vec![1, 3, 6, 1, 2, 1, 2, 2, 1, 2]);
    assert!(walks.0[0].expected.is_none());
    assert_eq!(gets.0.len(), 1);
    let mut stats = OidMap::new();
    stats.insert(oid(&[1, 3, 6, 1, 2, 1, 2, 2, 1, 2]), (77u64, 12usize));
    let planned = get_queries(&input(), &rules, &stats, &query).ok().unwrap();
    assert_eq!(planned[0].1 .0[0].expected, Some(12));
    let bad = vec![(String::from("IF-MIB::ifDescr"), vec![])];
    assert!(matches!(get_queries(&input(), &rules, &OidMap::new(), &bad), Err(QueryError::Input(_))));
    let missing = vec![(String::from("noIndex"), vec![String::from("nope")])];
    assert!(matches!(get_queries(&input(), &rules, &OidMap::new(), &missing), Err(QueryError::Input(_))));
}

#[test]
fn augments_cycles_are_refused() {
    let mut inp = input();
    inp.tables.insert(String::from("IF-MIB::ifEntry"), EntrySpec { index: vec![], implied_index: None, augments: Some(ObjectId(String::from("IF-MIB::ifEntry"))), fold: None });
    let query = vec![(String::from("IF-MIB::ifEntry"), vec![String::from("IF-MIB::ifDescr")])];
    let rules = ContextRules { session_context: String::new(), rules: vec![] };
    match get_queries(&inp, &rules, &OidMap::new(), &query) {
        Err(QueryError::AugmentsCycle(t)) => assert_eq!(t, "IF-MIB::ifEntry"),
        _ => panic!("expected a cycle"),
    }
    assert!(Index::empty().vars.is_empty());
    assert!(ObjectId(String::from("noIndex")).handle_noindex().is_none());
}

#[test]
fn scalar_types_agree_with_values() {
    let mut counters = Counters::new();
    let obj = String::from("x");
    let ix = oid(&[1]);
    // A 64-bit integer with a value list is an enumeration, as its values are.
    let listed = ScalarSpec {
        table: None,
        syntax: VarType::Integer64,
        value_list: Some(ValueList::Integer(vec![(1, String::from("up")), (2, String::from("down"))])),
        value_range: None,
        error_enum: false,
    };
    assert!(matches!(listed.get_type(), Ok(Type::IntEnum(_))));
    assert!(matches!(listed.get_value(&Ok(SnmpValue::Integer64(2)), &obj, &ix, &mut counters, 0), Some(Ok(Value::IntEnum(2)))));
    // A counter is a rate, from a value or from an index.
    assert!(matches!(scalar(VarType::Counter).get_type(), Ok(Type::Float)));
    match scalar(VarType::Counter).get_value_from_index(&[7, 9], None) {
        Ok((Ok(Value::Float(FloatRepr::Ratio(7, 1))), 1)) => {}
        _ => panic!("expected a float from the index"),
    }
    // A gauge is an integer.
    assert!(matches!(scalar(VarType::Gauge).get_type(), Ok(Type::Integer)));
}

#[test]
fn negative_bit_positions_are_never_set() {
    let spec = ScalarSpec {
        table: None,
        syntax: VarType::BitStr,
        value_list: Some(ValueList::Integer(vec![(-8, String::from("none")), (0, String::from("a")), (9, String::from("b"))])),
        value_range: None,
        error_enum: false,
    };
    match spec.bitstr_set_from_value(vec![0xff, 0x02]) {
        Ok(Value::EnumSet(bits)) => assert_eq!(bits, vec![0, 9]),
        _ => panic!("expected a set"),
    }
}
