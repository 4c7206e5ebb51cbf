use agent_protocols::common::data::{DataError, FloatRepr, Value};
use agent_protocols::common::strmap::StrMap;
use agent_protocols::sql::connection::ConnectionString;
use agent_protocols::sql::input::{parse_plain_value, join_texts, FieldSpec, SqlDataType, SqlError, SqlPlugin, TableSpec, ValueTypes};
use agent_protocols::sql::plugins::{construct_query, mssql_connection_strings, odbc_connection_strings, oracle_connection_strings, InstanceError, InstanceType, SslMode};

fn field(req: &str, name: &str, t: SqlDataType, key: bool, values: Option<ValueTypes>) -> FieldSpec {
    FieldSpec { column_request: req.to_string(), column_name: name.to_string(), parameter_type: t, counter_type: None, is_key: key, values }
}

fn table(name: &str) -> TableSpec {
    TableSpec { fields: vec![], sql_table_name: name.to_string(), sql_table_query: None, plugin: None, database_query: None, is_table: true }
}

#[test]
fn names() {
    assert_eq!(SqlDataType::Enum.to_string(), "enum");
    assert_eq!(SqlPlugin::Mssql.to_string(), "MSSQL");
    assert!(SqlPlugin::default() == SqlPlugin::Odbc);
    assert_eq!(SslMode::Prefer.to_string(), "prefer");
    assert_eq!(InstanceType::Port(1434).to_string(), "1434");
    assert_eq!(InstanceType::Default.to_string(), "Default");
    assert_eq!(InstanceType::String(String::from("SQLEXPRESS")).to_string(), "SQLEXPRESS");
    assert_eq!(InstanceType::Default.known_port(), Some(1433));
    assert_eq!(InstanceType::String(String::from("x")).known_port(), None);
    assert_eq!(join_texts(&vec![String::from("a"), String::from("b")], ", "), "a, b");
}

#[test]
fn queries_by_flavour() {
    let a = field("COUNT(*)", "n", SqlDataType::Integer, false, None);
    let b = field("name", "name", SqlDataType::String, true, None);
    let fields = vec![&a, &b];
    assert_eq!(table("users").to_query(&fields), "SELECT COUNT(*), name\nFROM users");
    assert_eq!(table("None").to_query(&fields), "SELECT COUNT(*), name\n");
    assert_eq!(construct_query(SqlPlugin::Odbc, &table("users"), &fields), "SELECT COUNT(*), name\nFROM users");
    let c1 = field("Batch Requests/sec", "batch", SqlDataType::Counter, false, None);
    let c2 = field("__instance_name", "inst", SqlDataType::String, true, None);
    let perf = construct_query(SqlPlugin::Mssql, &table("sys.dm_os_performance_counters"), &vec![&c1, &c2]);
    assert!(perf.starts_with("SELECT @@SERVICENAME AS __instance_name,\n"));
    assert!(perf.ends_with("WHERE counter_name = 'Batch Requests/sec'"));
    let k = field("INST_ID", "inst", SqlDataType::Integer, true, None);
    let m = field("x", "Host CPU Utilization (%)", SqlDataType::Float, false, None);
    let n = field("y", "DB Block Changes Per Sec", SqlDataType::Float, false, None);
    assert_eq!(
        construct_query(SqlPlugin::Oracle, &table("V$SYSMETRIC"), &vec![&k, &m, &n]),
        "SELECT METRIC_NAME AS NAME, VALUE, INST_ID FROM V$SYSMETRIC WHERE METRIC_NAME = 'Host CPU Utilization (%)' OR METRIC_NAME = 'DB Block Changes Per Sec'"
    );
    assert_eq!(construct_query(SqlPlugin::Oracle, &table("DBA_USERS"), &vec![&b]), "SELECT name\nFROM DBA_USERS");
    assert_eq!(a.to_select_statement(), "COUNT(*) AS n");
}

#[test]
fn plain_values() {
    let mut row = StrMap::new();
    row.insert(String::from("n"), String::from(" 42 "));
    row.insert(String::from("f"), String::from("1.5"));
    row.insert(String::from("b"), String::from("1"));
    row.insert(String::from("e"), String::from("up"));
    row.insert(String::from("t"), String::from("1970-01-01T00:00:10Z"));
    assert!(matches!(parse_plain_value(&mut row, &field("n", "n", SqlDataType::Integer, false, None)), Ok(Value::Integer(42))));
    assert!(matches!(parse_plain_value(&mut row, &field("n", "n", SqlDataType::Integer, false, None)), Err(DataError::Missing)));
    match parse_plain_value(&mut row, &field("f", "f", SqlDataType::Float, false, None)) {
        Ok(Value::Float(FloatRepr::Text(t))) => assert_eq!(t, "1.5"),
        _ => panic!("expected a float"),
    }
    assert!(matches!(parse_plain_value(&mut row, &field("b", "b", SqlDataType::Bool, false, None)), Ok(Value::Boolean(true))));
    let e = field("e", "e", SqlDataType::Enum, false, Some(ValueTypes::String(vec![String::from("down")])));
    match parse_plain_value(&mut row, &e) {
        Err(DataError::InvalidChoice(v)) => assert_eq!(v, "up"),
        _ => panic!("expected an invalid choice"),
    }
    assert!(matches!(parse_plain_value(&mut row, &field("t", "t", SqlDataType::DateTime, false, None)), Ok(Value::Time(10, 0))));
    let mut bad = StrMap::new();
    bad.insert(String::from("n"), String::from("x1"));
    match parse_plain_value(&mut bad, &field("n", "n", SqlDataType::Integer, false, None)) {
        Err(DataError::TypeError(m)) => assert_eq!(m, "Cannot parse x1 to an integer: invalid digit found in string"),
        _ => panic!("expected a type error"),
    }
    assert!(matches!(field("e", "e", SqlDataType::Enum, false, None).get_type(), Err(SqlError::NoValueType)));
}

#[test]
fn connection_strings_per_instance() {
    let base = ConnectionString::new().with_arg("Driver", String::from("ODBC Driver 18"));
    let cs = mssql_connection_strings(&base, &String::from("db1"), vec![(InstanceType::Default, 1433), (InstanceType::Port(1500), 1500)]);
    assert_eq!(cs.len(), 2);
    assert_eq!(cs[0].1.to_string(), "Driver=ODBC Driver 18;Server=db1,1433");
    assert_eq!(cs[1].1.to_string(), "Driver=ODBC Driver 18;Server=db1,1500");
    let odbc = odbc_connection_strings(&base, &vec![InstanceType::Port(5432)]).ok().unwrap();
    assert_eq!(odbc[0].1.to_string(), "Driver=ODBC Driver 18;Port=5432");
    match odbc_connection_strings(&base, &vec![InstanceType::Port(1), InstanceType::Default]) {
        Err(InstanceError::InvalidInstance(InstanceType::Default, who)) => assert_eq!(who, "ODBC"),
        _ => panic!("expected an invalid instance"),
    }
    let ora = oracle_connection_strings(&base, &vec![InstanceType::String(String::from("ORCL"))]).ok().unwrap();
    assert_eq!(ora[0].1.to_string(), "DSN=ORCL;Driver=ODBC Driver 18");
    match oracle_connection_strings(&base, &vec![InstanceType::Port(1521)]) {
        Err(InstanceError::InvalidInstance(InstanceType::Port(1521), who)) => assert_eq!(who, "Oracle"),
        _ => panic!("expected an invalid instance"),
    }
}
