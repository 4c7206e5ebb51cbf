use agent_protocols::common::data::{DataError, Value as DataValue};
use agent_protocols::xenapp::plugin::{command_of, column_for, monitor_machine_row, Command, FieldSpec, MachineColumn, TableSpec, ValueTypes, XenappError};
use agent_protocols::xenapp::response::{
    parse_citrix_datetime, CitrixMonitorData, CitrixMonitorMachine, CitrixMonitorMachineContent,
    CitrixMonitorMachineProperties, CurrentLoadIndex, CurrentLoadIndexContent, CurrentLoadIndexProperties,
    DateTime, ExpandedCurrentLoadIndex, IpAddress, Link, Property, Uuid, Value,
};

fn v<T>(inner: T) -> Value<T> {
    Value { inner }
}

fn p<T>(value: Option<T>) -> Property<T> {
    Property { null: value.is_none(), typ: String::from("Edm.Int32"), value }
}

fn load() -> CurrentLoadIndexProperties {
    CurrentLoadIndexProperties {
        id: p(Some(1)),
        effective_load_index: p(Some(42)),
        cpu: p(Some(7)),
        memory: p(None),
        disk: p(Some(3)),
        network: p(Some(4)),
        session_count: p(Some(5)),
        machine_id: p(Some(Uuid(0x0123456789abcdef0011223344556677))),
        created_date: p(Some(DateTime((100, 0)))),
    }
}

fn machine() -> CitrixMonitorMachineProperties {
    let s = |x: &str| v(String::from(x));
    CitrixMonitorMachineProperties {
        id: v(Uuid(0xa1a2a3a4b1b2c1c2d1d2d3d4d5d6d7d8)),
        sid: s("S-1"),
        name: s("DOM\\HOST"),
        dns_name: s("host.dom"),
        lifecycle_state: v(1),
        ip_address: v(IpAddress::V4([10, 0, 0, 1])),
        hosted_machine_id: v(Uuid(1)),
        hosting_server_name: s("hv"),
        hosted_machine_name: s("vm"),
        is_assigned: v(true),
        is_in_maintenance_mode: v(false),
        is_pending_update: v(false),
        agent_version: s("7.1"),
        associated_user_full_names: s("A"),
        associated_user_names: s("a"),
        associated_user_upns: s("a@x"),
        current_registration_state: v(2),
        last_deregistered_code: v(0),
        current_power_state: v(3),
        current_session_count: v(1),
        controller_dns_name: s("ddc"),
        functional_level: v(5),
        windows_connection_setting: v(0),
        is_preparing: v(false),
        fault_state: v(0),
        os_type: s("Windows"),
        current_load_index_id: v(9),
        catalog_id: v(Uuid(2)),
        desktop_group_id: v(Uuid(3)),
        hypervisor_id: v(Uuid(4)),
        hash: s("h"),
        machine_role: v(8),
        registration_state_change_date: v(DateTime((10, 1))),
        last_deregistered_date: v(DateTime((11, 0))),
        powered_on_date: v(DateTime((12, 0))),
        power_state_change_date: v(DateTime((13, 0))),
        failure_date: v(None),
        created_date: v(Some(DateTime((14, 0)))),
        modified_date: v(None),
    }
}

fn feed(with_load: bool) -> CitrixMonitorData {
    let mut link = vec![Link { title: String::from("Catalog"), inline: None }];
    if with_load {
        link.push(Link {
            title: String::from("CurrentLoadIndex"),
            inline: Some(ExpandedCurrentLoadIndex { entry: CurrentLoadIndex { content: CurrentLoadIndexContent { properties: load() } } }),
        });
    }
    CitrixMonitorData {
        id: v(String::from("feed")),
        title: v(String::from("Machines")),
        updated: v(DateTime((0, 0))),
        entry: CitrixMonitorMachine {
            id: v(String::from("m")),
            link,
            updated: v(DateTime((0, 0))),
            content: CitrixMonitorMachineContent { properties: machine() },
        },
    }
}

fn field(h: &str, values: Option<ValueTypes>) -> FieldSpec {
    FieldSpec { parameter_header: h.to_string(), values }
}

#[test]
fn machine_row_reads_each_property() {
    let fields = vec![
        field("id", None),
        field("memory", None),
        field("machine_id", None),
        field("machine", None),
        field("ip_address", None),
        field("lifecycle_state", Some(ValueTypes::Integer(vec![(1, String::from("on"))]))),
        field("machine_role", Some(ValueTypes::Integer(vec![(1, String::from("x"))]))),
        field("current_registration_state", Some(ValueTypes::String(vec![]))),
        field("failure_date", None),
        field("machine_created_date", None),
        field("unknown", None),
        field("is_assigned", None),
    ];
    let refs: Vec<&FieldSpec> = fields.iter().collect();
    let row = monitor_machine_row(&feed(true), &refs).ok().unwrap();
    assert!(matches!(row[0], Ok(DataValue::Integer(42))));
    assert!(matches!(row[1], Err(DataError::Missing)));
    match &row[2] {
        Ok(DataValue::UnicodeString(s)) => assert_eq!(s, "01234567-89ab-cdef-0011-223344556677"),
        _ => panic!("expected the uuid text"),
    }
    match &row[3] {
        Ok(DataValue::UnicodeString(s)) => assert_eq!(s, "a1a2a3a4-b1b2-c1c2-d1d2-d3d4d5d6d7d8"),
        _ => panic!("expected the uuid text"),
    }
    assert!(matches!(row[4], Ok(DataValue::Ipv4Address([10, 0, 0, 1]))));
    assert!(matches!(row[5], Ok(DataValue::IntEnum(1))));
    match &row[6] {
        Err(DataError::InvalidChoice(s)) => assert_eq!(s, "8"),
        _ => panic!("expected an invalid choice"),
    }
    match &row[7] {
        Err(DataError::External(s)) => assert_eq!(s, "string values found for int enum"),
        _ => panic!("expected an error"),
    }
    assert!(matches!(row[8], Err(DataError::Missing)));
    assert!(matches!(row[9], Ok(DataValue::Time(14, 0))));
    assert!(matches!(row[10], Err(DataError::Missing)));
    assert!(matches!(row[11], Ok(DataValue::Boolean(true))));
}

#[test]
fn machine_row_needs_the_load_index() {
    let f = field("cpu", None);
    assert!(matches!(monitor_machine_row(&feed(false), &vec![&f]), Err(XenappError::PropertyNotExpanded)));
}

#[test]
fn headers_name_columns() {
    assert!(column_for(&String::from("cpu")) == Some(MachineColumn::Cpu));
    assert!(column_for(&String::from("machine_created_date")) == Some(MachineColumn::MachineCreatedDate));
    assert!(column_for(&String::from("Cpu")).is_none());
}

#[test]
fn commands_are_known_by_name() {
    let t = TableSpec { command_name: String::from("Monitor.Model.V2.Machine"), command_line: String::from("x") };
    assert!(matches!(command_of(&t), Ok(Command::MonitorMachine)));
    let u = TableSpec { command_name: String::from("Other"), command_line: String::from("line") };
    match command_of(&u) {
        Err(XenappError::CommandNotFound(l)) => assert_eq!(l, "line"),
        _ => panic!("expected an unknown command"),
    }
}

#[test]
fn citrix_times_get_utc_when_zone_missing() {
    let t = parse_citrix_datetime("2023-01-02T03:04:05").ok().unwrap();
    assert_eq!(t.0, (1672628645, 0));
    let z = parse_citrix_datetime("2023-01-02T03:04:05+01:00").ok().unwrap();
    assert_eq!(z.0, (1672625045, 0));
    let frac = parse_citrix_datetime("2023-01-02T03:04:05.5Z").ok().unwrap();
    assert_eq!(frac.0, (1672628645, 500_000_000));
    let e = parse_citrix_datetime("yesterday").err().unwrap();
    assert!(e.starts_with("parsing datetime failed: "));
}

#[test]
fn values_convert() {
    assert!(matches!(v(5i64).to_value(), Ok(DataValue::Integer(5))));
    assert!(matches!(v(DateTime((3, 4))).to_value(), Ok(DataValue::Time(3, 4))));
    assert!(matches!(v(None::<DateTime>).to_value(), Err(DataError::Missing)));
    assert!(matches!(p::<i64>(None).to_value(), Err(DataError::Missing)));
    assert!(matches!(v(IpAddress::V6([1, 2, 3, 4, 5, 6, 7, 8])).to_value(), Ok(DataValue::Ipv6Address([1, 2, 3, 4, 5, 6, 7, 8]))));
    match v(Uuid(0)).to_value() {
        Ok(DataValue::UnicodeString(s)) => assert_eq!(s, "00000000-0000-0000-0000-000000000000"),
        _ => panic!("expected the uuid text"),
    }
}

#[test]
fn uuid_text_matches_uuid_crate() {
    for x in [0u128, 1, 0xffff_ffff_ffff_ffff_ffff_ffff_ffff_ffff, 0x0123456789abcdef0011223344556677, 0xdeadbeef << 64] {
        match v(Uuid(x)).to_value() {
            Ok(DataValue::UnicodeString(s)) => assert_eq!(s, uuid::Uuid::from_u128(x).to_string()),
            _ => panic!("expected the uuid text"),
        }
    }
}
