use agent_protocols::common::data::{DataError, FloatRepr, Type, Value};
use agent_protocols::common::strmap::StrMap;
use agent_protocols::wmi::config::{get_method, LocalAsUtcQuirck, WmiError, WmiMethod, WmiQuircks};
use agent_protocols::wmi::counters::{get_delta, get_rate, CounterDB, WmiCounter};
use agent_protocols::wmi::input::{get_fieldnames, FieldSpec, InstancePlugin, ValueTypes, WmiType};

fn field(name: &str, t: WmiType, values: Option<ValueTypes>) -> FieldSpec {
    FieldSpec { property_name: name.to_string(), property_type: t, values, is_key: false, counter_type: None, classname: String::from("Win32_OperatingSystem") }
}

fn obj(pairs: &[(&str, &str)]) -> StrMap<String> {
    let mut m = StrMap::new();
    for (k, v) in pairs {
        m.insert(k.to_string(), v.to_string());
    }
    m
}

fn quirk(zone: &str) -> WmiQuircks {
    let mut fields = StrMap::new();
    fields.insert(String::from("Win32_OperatingSystem"), vec![String::from("LocalDateTime")]);
    WmiQuircks { local_as_utc: Some(LocalAsUtcQuirck { fields, timezone: zone.to_string() }) }
}

fn read(f: &FieldSpec, o: &StrMap<String>, q: &WmiQuircks) -> Result<Value, DataError> {
    let mut db = CounterDB::new(StrMap::new());
    f.parse_var(o, &mut db, &String::from("base"), q, 1000)
}

#[test]
fn methods() {
    assert!(WmiMethod::GetWmiObject.requires_shell());
    assert!(!WmiMethod::EnumerateCimInstance.requires_shell());
    assert!(get_method(None) == WmiMethod::GetWmiObject);
    assert!(get_method(Some(WmiMethod::GetCimInstance)) == WmiMethod::GetCimInstance);
    assert_eq!(InstancePlugin::MSSQL.to_text(), "MSSQL");
}

#[test]
fn time_zone_quirk() {
    let q = quirk("Europe/Brussels");
    let cls = String::from("Win32_OperatingSystem");
    assert_eq!(q.get_tz(&cls, &String::from("LocalDateTime")).unwrap().ok().unwrap(), "Europe/Brussels");
    assert!(q.get_tz(&cls, &String::from("Other")).is_none());
    match quirk("Mars/Olympus").get_tz(&cls, &String::from("LocalDateTime")) {
        Some(Err(WmiError::TimeZoneParse(n, m))) => {
            assert_eq!(n, "Mars/Olympus");
            assert_eq!(m, "failed to parse timezone");
        },
        _ => panic!("expected an unknown zone"),
    }
}

#[test]
fn datetimes_are_read() {
    let none = WmiQuircks { local_as_utc: None };
    let f = field("LocalDateTime", WmiType::DateTime, None);
    assert!(matches!(read(&f, &obj(&[("LocalDateTime", "20230102030405.000000+060")]), &none), Ok(Value::Time(1672625045, 0))));
    assert!(matches!(read(&f, &obj(&[("LocalDateTime", "02/01/2023 03:04:05")]), &none), Ok(Value::Time(1672628645, 0))));
    assert!(matches!(read(&f, &obj(&[("LocalDateTime", "20230102030405.000000+000")]), &quirk("Europe/Brussels")), Ok(Value::Time(1672625045, 0))));
    match read(&f, &obj(&[("LocalDateTime", "soon")]), &none) {
        Err(DataError::TypeError(m)) => assert_eq!(m, "cannot parse 'soon' to a datetime"),
        _ => panic!("expected an error"),
    }
    match read(&f, &obj(&[("LocalDateTime", "x")]), &quirk("Mars/Olympus")) {
        Err(DataError::TypeError(m)) => assert_eq!(m, "Cannot parse timezone: Unable to parse timezone Mars/Olympus: failed to parse timezone"),
        _ => panic!("expected an error"),
    }
}

#[test]
fn plain_properties_are_read() {
    let none = WmiQuircks { local_as_utc: None };
    assert!(matches!(read(&field("N", WmiType::UInt32, None), &obj(&[("N", "42")]), &none), Ok(Value::Integer(42))));
    match read(&field("N", WmiType::UInt32, None), &obj(&[("N", "4x")]), &none) {
        Err(DataError::TypeError(m)) => assert_eq!(m, "cannot parse N (4x) to a integer"),
        _ => panic!("expected an error"),
    }
    assert!(matches!(read(&field("B", WmiType::Boolean, None), &obj(&[("B", "True")]), &none), Ok(Value::Boolean(true))));
    match read(&field("F", WmiType::Float, None), &obj(&[("F", "1.5e3")]), &none) {
        Ok(Value::Float(FloatRepr::Text(t))) => assert_eq!(t, "1.5e3"),
        _ => panic!("expected a float"),
    }
    assert!(matches!(read(&field("M", WmiType::String, None), &obj(&[]), &none), Err(DataError::Missing)));
    let e = field("E", WmiType::UInt16, Some(ValueTypes::Integer(vec![(3, String::from("Running"))])));
    assert!(matches!(read(&e, &obj(&[("E", "3")]), &none), Ok(Value::IntEnum(3))));
    assert!(matches!(read(&e, &obj(&[("E", "4")]), &none), Err(DataError::InvalidChoice(_))));
    assert!(matches!(e.get_type(), Type::IntEnum(_)));
    assert!(matches!(field("x", WmiType::SInt8, None).get_type(), Type::Integer));
}

#[test]
fn counters_keep_their_previous_values() {
    let mut old = StrMap::new();
    old.insert(String::from("k"), (100u64, 10i64));
    let mut db = CounterDB::new(old);
    assert_eq!(get_delta(&String::from("k"), 15, &mut db).ok(), Some(5));
    assert!(matches!(get_delta(&String::from("k"), 5, &mut db), Err(DataError::CounterOverflow)));
    assert!(matches!(get_delta(&String::from("new"), 5, &mut db), Err(DataError::CounterPending)));
    assert_eq!(get_rate(&String::from("k"), 30, 110, &mut db).ok(), Some((20, 10)));
    assert!(matches!(get_rate(&String::from("k"), 30, 100, &mut db), Err(DataError::CounterUndefined)));
    assert_eq!(db.get(&String::from("k")), Some(&(100, 10)));
    assert_eq!(db.new_state.get(&String::from("k")), Some(&(100, 30)));
}

#[test]
fn property_names_to_ask() {
    let a = field("Name", WmiType::String, None);
    assert_eq!(get_fieldnames(&vec![&a]), vec!["Name"]);
    let mut b = field("PercentProcessorTime", WmiType::UInt64, None);
    b.counter_type = Some(WmiCounter::PerfPrecision100nsTimer);
    let mut c = field("AvgDiskQueue", WmiType::UInt64, None);
    c.counter_type = Some(WmiCounter::PerfAverageBulk);
    assert_eq!(
        get_fieldnames(&vec![&a, &b, &c]),
        vec!["Name", "PercentProcessorTime", "AvgDiskQueue", "Frequency_PerfTime", "Frequency_Sys100NS", "Frequency_Object",
            "Timestamp_PerfTime", "Timestamp_Sys100NS", "Timestamp_Object", "AvgDiskQueue_Base"]
    );
}

#[test]
fn counter_store_across_runs() {
    let mut old = StrMap::new();
    old.insert(String::from("a"), (1, 10));
    old.insert(String::from("b"), (1, 20));
    let mut db = CounterDB::new(old);
    db.insert(String::from("a"), (2, 11));
    db.insert(String::from("c"), (2, 5));
    db.insert(String::from("a"), (3, 12));
    // Within the run only the previous run's values are read.
    assert_eq!(db.get(&String::from("a")), Some(&(1, 10)));
    assert_eq!(db.get(&String::from("c")), None);
    // The next run reads what this run inserted last, and nothing else.
    let next = CounterDB::new(db.new_state);
    assert_eq!(next.get(&String::from("a")), Some(&(3, 12)));
    assert_eq!(next.get(&String::from("c")), Some(&(2, 5)));
    assert_eq!(next.get(&String::from("b")), None);
}
