use agent_protocols::common::data::{DataError, Value};
use agent_protocols::common::strmap::StrMap;
use agent_protocols::powershell::input::Parsed;
use agent_protocols::sql::config::Config;
use agent_protocols::sql::connection::ConnectionString;
use agent_protocols::sql::input::{FieldSpec, SqlDataType, SqlPlugin, TableSpec};
use agent_protocols::sql::reading::base_key;
use agent_protocols::sql::results::{annotate, database_names, merge_tables, Annotated, DatabaseError};
use agent_protocols::sql::plugins::{InstanceType, SslMode};
use agent_protocols::sql::transform::{pivot_table, transform_performance_counters, TransformError};
use agent_protocols::wmi::counters::{CounterDB, WmiCounter};

fn row(pairs: &[(&str, &str)]) -> StrMap<String> {
    let mut m = StrMap::new();
    for (k, v) in pairs {
        m.insert(k.to_string(), v.to_string());
    }
    m
}

fn get(m: &StrMap<String>, k: &str) -> Option<String> {
    m.get(&k.to_string()).cloned()
}

fn table(name: &str) -> TableSpec {
    TableSpec { fields: vec![], sql_table_name: name.to_string(), sql_table_query: None, plugin: None, database_query: None, is_table: true }
}

fn field(name: &str, t: SqlDataType, counter: Option<WmiCounter>) -> FieldSpec {
    FieldSpec { column_request: name.to_string(), column_name: name.to_string(), parameter_type: t, counter_type: counter, is_key: false, values: None }
}

fn perf(inst: &str, obj: &str, oinst: &str, name: &str, value: &str) -> StrMap<String> {
    row(&[("__instance_name", inst), ("__object_name", obj), ("__object_instance", oinst), ("counter_name", name), ("cntr_value", value)])
}

#[test]
fn pivot_statistics() {
    let t = vec![
        row(&[("NAME", "cpu"), ("VALUE", "12"), ("INST", "1")]),
        row(&[("NAME", "mem"), ("VALUE", "34"), ("INST", "2")]),
        row(&[("NAME", "cpu"), ("VALUE", "56"), ("INST", "3")]),
    ];
    let out = pivot_table(t).ok().unwrap();
    assert_eq!(out.len(), 1);
    assert_eq!(get(&out[0], "cpu"), Some("56".to_string()));
    assert_eq!(get(&out[0], "mem"), Some("34".to_string()));
    assert_eq!(get(&out[0], "INST"), Some("1".to_string()));
    assert_eq!(get(&out[0], "NAME"), None);
    // The key columns win over a statistic of the same name.
    let clash = vec![row(&[("NAME", "INST"), ("VALUE", "9"), ("INST", "1")])];
    assert_eq!(get(&pivot_table(clash).ok().unwrap()[0], "INST"), Some("1".to_string()));
    let empty = pivot_table(vec![]).ok().unwrap();
    assert_eq!(empty.len(), 1);
    assert_eq!(empty[0].0.len(), 0);
}

#[test]
fn pivot_missing_columns() {
    let t = vec![row(&[("NAME", "cpu"), ("VALUE", "1")]), row(&[("NAME", "x")]), row(&[("VALUE", "2")])];
    assert!(matches!(pivot_table(t), Err(TransformError::FieldNotFound(c)) if c == "VALUE"));
    let t = vec![row(&[("VALUE", "2")])];
    assert!(matches!(pivot_table(t), Err(TransformError::FieldNotFound(c)) if c == "NAME"));
}

#[test]
fn performance_counters_per_object() {
    let t = vec![
        perf("MSSQLSERVER ", "SQLServer:Buffer Manager   ", "", "Page life expectancy   ", "300"),
        perf("MSSQLSERVER", "MSSQL$X:Databases", "master  ", "Log Flushes/sec", "7"),
        perf("MSSQLSERVER", "Buffer Manager", "", "Buffer cache hit ratio", "99"),
    ];
    let out = transform_performance_counters(t).ok().unwrap();
    assert_eq!(out.len(), 2);
    let a = &out[0];
    assert_eq!(get(a, "__instance_name"), Some("MSSQLSERVER".to_string()));
    assert_eq!(get(a, "__object_name"), Some("Buffer Manager".to_string()));
    assert_eq!(get(a, "__object_instance"), Some("".to_string()));
    assert_eq!(get(a, "Page life expectancy"), Some("300".to_string()));
    assert_eq!(get(a, "Buffer cache hit ratio"), Some("99".to_string()));
    // A counter of another object is there, empty.
    assert_eq!(get(a, "Log Flushes/sec"), Some("".to_string()));
    let b = &out[1];
    assert_eq!(get(b, "__object_name"), Some("Databases".to_string()));
    assert_eq!(get(b, "__object_instance"), Some("master".to_string()));
    assert_eq!(get(b, "Log Flushes/sec"), Some("7".to_string()));
    assert_eq!(get(b, "Page life expectancy"), Some("".to_string()));
    assert_eq!(get(b, "counter_name"), None);
}

#[test]
fn performance_counters_missing_column() {
    let mut bad = perf("I", "O", "", "c", "1");
    bad.take(&"cntr_value".to_string());
    let t = vec![perf("I", "O", "", "c", "1"), bad];
    assert!(matches!(transform_performance_counters(t), Err(TransformError::FieldNotFound(c)) if c == "cntr_value"));
    let t = vec![row(&[("counter_name", "c")])];
    assert!(matches!(transform_performance_counters(t), Err(TransformError::FieldNotFound(c)) if c == "__instance_name"));
}

#[test]
fn transform_by_flavour() {
    let stats = || vec![row(&[("NAME", "cpu"), ("VALUE", "1")]), row(&[("NAME", "io"), ("VALUE", "2")])];
    assert_eq!(SqlPlugin::Oracle.transform_table(&table("V$SYSSTAT"), stats()).ok().unwrap().len(), 1);
    assert_eq!(SqlPlugin::Oracle.transform_table(&table("V$SYSMETRIC"), stats()).ok().unwrap().len(), 1);
    assert_eq!(SqlPlugin::Oracle.transform_table(&table("DBA_USERS"), stats()).ok().unwrap().len(), 2);
    assert_eq!(SqlPlugin::Odbc.transform_table(&table("V$SYSSTAT"), stats()).ok().unwrap().len(), 2);
    assert_eq!(SqlPlugin::Mssql.transform_table(&table("V$SYSSTAT"), stats()).ok().unwrap().len(), 2);
    assert!(matches!(SqlPlugin::Mssql.transform_table(&table("sys.dm_os_performance_counters"), stats()),
        Err(TransformError::FieldNotFound(c)) if c == "__instance_name"));
}

#[test]
fn reading_values() {
    let mut db = CounterDB::new(StrMap::new());
    let mut r = row(&[("n", "42"), ("s", "abc"), ("c", "17"), ("bad", "x1")]);
    let n = field("n", SqlDataType::Integer, None);
    assert!(matches!(SqlPlugin::Odbc.parse_value(&mut r, &n, "host", &mut db, 0), Parsed::Done(Ok(Value::Integer(42)))));
    assert!(get(&r, "n").is_none());
    assert!(matches!(SqlPlugin::Odbc.parse_value(&mut r, &n, "host", &mut db, 0), Parsed::Done(Err(DataError::Missing))));
    let c = field("c", SqlDataType::Counter, None);
    match SqlPlugin::Oracle.parse_value(&mut r, &c, "db1", &mut db, 0) {
        Parsed::Counter(k, v) => {
            assert_eq!(k, "db1.c");
            assert_eq!(v, 17);
        },
        _ => panic!("expected a counter sample"),
    }
    let d = field("bad", SqlDataType::Difference, None);
    assert!(matches!(SqlPlugin::Odbc.parse_value(&mut r, &d, "db1", &mut db, 0),
        Parsed::Done(Err(DataError::Parse(v, t))) if v == "x1" && t == "Difference"));
    let s = field("s", SqlDataType::String, None);
    assert!(matches!(SqlPlugin::Mssql.parse_value(&mut r, &s, "k", &mut db, 0), Parsed::Done(Ok(Value::UnicodeString(v))) if v == "abc"));
    // On SQL Server a counter type reads the row as a WMI instance.
    let mut r2 = row(&[("v", "5")]);
    let w = field("v", SqlDataType::Integer, Some(WmiCounter::PerfCounterText));
    assert!(matches!(SqlPlugin::Mssql.parse_value(&mut r2, &w, "k", &mut db, 0), Parsed::Done(_)));
    assert!(get(&r2, "v").is_some());
    // Elsewhere it is a counter sample.
    assert!(matches!(SqlPlugin::Odbc.parse_value(&mut r2, &w, "k", &mut db, 0), Parsed::Counter(_, 5)));
}

fn config() -> Config {
    Config {
        hostname: "db.example".to_string(),
        ip: None,
        instances: vec![InstanceType::Default, InstanceType::Port(1500)],
        username: Some("sa".to_string()),
        password: Some("pw".to_string()),
        driver: Some("FreeTDS".to_string()),
        database: None,
        timeout: None,
        ssl: Some(SslMode::Require),
        ssl_key: None,
        ssl_cert: None,
        disable_certificate_verification: Some(true),
        encrypt: Some(false),
        dsn: None,
        file_dsn: None,
        custom_args: vec![("Port".to_string(), "1500".to_string()), ("Server".to_string(), "other".to_string())],
        connection_string: None,
    }
}

#[test]
fn base_connection_string() {
    let c = config();
    let cs = ConnectionString::from_config(&c, None);
    assert_eq!(cs.to_string(), "Driver=FreeTDS;Encrypt=NO;Port=1500;Pwd=pw;SSL=require;Server=other;TrustServerCertificate=YES;Uid=sa");
    let cs = ConnectionString::from_config(&c, Some((Some("vault".to_string()), None)));
    assert_eq!(cs.to_string(), "Driver=FreeTDS;Encrypt=NO;Port=1500;SSL=require;Server=other;TrustServerCertificate=YES;Uid=vault");
}

#[test]
fn connection_strings_of_config() {
    let mut c = config();
    let per = vec![(InstanceType::Port(1500), ConnectionString::new().with_arg("Server", "h,1500".to_string()))];
    let r = c.generic_connectionstring(&per);
    assert_eq!(r.len(), 1);
    assert!(matches!(r[0].0, InstanceType::Port(1500)));
    assert_eq!(r[0].1, "Server=h,1500");
    c.connection_string = Some("DSN=x".to_string());
    let r = c.generic_connectionstring(&per);
    assert_eq!(r.len(), 2);
    assert!(matches!(r[0].0, InstanceType::Default));
    assert_eq!(r[1].1, "DSN=x");
}

#[test]
fn row_keys() {
    let r = row(&[("host", "b"), ("port", "a"), ("v", "1")]);
    let mut h = field("host", SqlDataType::String, None);
    h.is_key = true;
    let mut p = field("port", SqlDataType::String, None);
    p.is_key = true;
    let mut z = field("zone", SqlDataType::String, None);
    z.is_key = true;
    let v = field("v", SqlDataType::Integer, None);
    assert_eq!(base_key(&r, &vec![&h, &v, &p]), "a_b");
    assert_eq!(base_key(&r, &vec![&p, &h, &z]), "_a_b");
    assert_eq!(base_key(&r, &vec![&v]), "");
    // The order of the key fields does not matter.
    assert_eq!(base_key(&r, &vec![&p, &h]), base_key(&r, &vec![&h, &p]));
}

#[test]
fn gathering_rows() {
    let a: Result<Vec<u8>, String> = Ok(vec![1, 2]);
    let b: Result<Vec<u8>, String> = Ok(vec![3]);
    assert_eq!(merge_tables(a, b), Ok(vec![1, 2, 3]));
    assert_eq!(merge_tables(Err::<Vec<u8>, String>("first".to_string()), Err("second".to_string())), Err("first".to_string()));
    assert_eq!(merge_tables(Ok(vec![1u8]), Err("second".to_string())), Err("second".to_string()));
    let mut t: Annotated<u8, String> = Annotated { value: vec![1], warnings: vec![] };
    annotate(&mut t, Ok(vec![2, 3]));
    annotate(&mut t, Err("instance down".to_string()));
    assert_eq!(t.value, vec![1, 2, 3]);
    assert_eq!(t.warnings, vec!["instance down".to_string()]);
}

#[test]
fn databases_of_instance() {
    let rows = vec![row(&[("name", "master")]), row(&[("name", "tempdb")])];
    assert_eq!(database_names(&rows).ok().unwrap(), vec!["master", "tempdb"]);
    let bad = vec![row(&[("name", "master")]), StrMap::new()];
    assert!(matches!(database_names(&bad), Err(DatabaseError::NoDatabaseColumn)));
    assert_eq!(database_names(&vec![]).ok().unwrap().len(), 0);
}
