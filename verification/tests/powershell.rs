use agent_protocols::common::data::{DataError, FloatRepr, Type, Value};
use agent_protocols::common::strmap::StrMap;
use agent_protocols::powershell::config::{
    certificates_of, default_timeout, default_true, default_wagent_port, user_part, AuthPlan, BasicCredentials,
    CertificateCredentials, CertificateKind, ConfigError, Credentials, HostAllias, HostTarget, KerberosCredentials,
    WindowsAgentConfig, WinrmConfig,
};
use agent_protocols::powershell::input::{EnumType, FieldSpec, OutputType, ParamType, Parsed, ShellType, TableSpec, TypeError};
use agent_protocols::powershell::table::{CommandOutput, TableError};

fn field(name: &str, header: &str, t: ParamType, key: bool, values: Option<EnumType>) -> FieldSpec {
    FieldSpec { parameter_name: name.to_string(), parameter_header: header.to_string(), parameter_type: t, is_key: key, values }
}

fn done(p: Parsed) -> Result<Value, DataError> {
    match p {
        Parsed::Done(d) => d,
        _ => panic!("expected a value"),
    }
}

fn type_error(p: Parsed) -> String {
    match done(p) {
        Err(DataError::TypeError(s)) => s,
        _ => panic!("expected a type error"),
    }
}

#[test]
fn defaults_and_names() {
    assert!(default_true());
    assert_eq!(default_wagent_port(), 8099);
    assert_eq!(default_timeout(), 10);
    assert!(ShellType::default() == ShellType::Powershell);
    assert!(OutputType::default() == OutputType::Csv);
    assert_eq!(ShellType::Exchange.to_text(), "exchange powershell");
    assert_eq!(OutputType::Csv.as_function(), "ConvertTo-Csv -NoTypeInformation");
    assert_eq!(OutputType::Json.as_function(), "ConvertTo-Json -Compress -EnumsAsStrings");
}

#[test]
fn field_types() {
    assert!(matches!(field("a", "A", ParamType::Counter, false, None).get_type(), Ok(Type::Float)));
    assert!(matches!(field("a", "A", ParamType::Difference, false, None).get_type(), Ok(Type::Integer)));
    match field("state", "S", ParamType::Enum, false, None).get_type() {
        Err(TypeError::EnumMissingVars(n)) => assert_eq!(n, "state"),
        _ => panic!("expected missing choices"),
    }
    assert!(matches!(field("s", "S", ParamType::Enum, false, Some(EnumType::String(vec![String::from("x")]))).get_type(), Ok(Type::Enum(_))));
}

#[test]
fn values_are_read_by_type() {
    let f = |t| field("v", "V", t, false, None);
    assert!(matches!(done(f(ParamType::Integer).parse_value(String::from("-12"), "k")), Ok(Value::Integer(-12))));
    assert_eq!(type_error(f(ParamType::Integer).parse_value(String::from("12x"), "k")), "invalid digit found in string");
    assert_eq!(type_error(f(ParamType::Integer).parse_value(String::new(), "k")), "cannot parse integer from empty string");
    match done(f(ParamType::Float).parse_value(String::from("1,5"), "k")) {
        Ok(Value::Float(FloatRepr::Text(t))) => assert_eq!(t, "1.5"),
        _ => panic!("expected a float"),
    }
    match done(f(ParamType::Float).parse_value(String::from("2.25"), "k")) {
        Ok(Value::Float(FloatRepr::Text(t))) => assert_eq!(t, "2.25"),
        _ => panic!("expected a float"),
    }
    assert_eq!(type_error(f(ParamType::Float).parse_value(String::from("abc"), "k")), "invalid float literal");
    assert_eq!(type_error(f(ParamType::Float).parse_value(String::new(), "k")), "cannot parse float from empty string");
    assert!(matches!(done(f(ParamType::Boolean).parse_value(String::from("TRUE"), "k")), Ok(Value::Boolean(true))));
    assert!(matches!(done(f(ParamType::Boolean).parse_value(String::from("False"), "k")), Ok(Value::Boolean(false))));
    assert_eq!(type_error(f(ParamType::Boolean).parse_value(String::from("yes"), "k")), "yes is not a boolean");
    assert!(matches!(done(f(ParamType::Time).parse_value(String::from("1970-01-01T00:01:00Z"), "k")), Ok(Value::Time(60, 0))));
    assert!(!type_error(f(ParamType::Time).parse_value(String::from("noon"), "k")).is_empty());
    match done(f(ParamType::String).parse_value(String::from("text"), "k")) {
        Ok(Value::UnicodeString(s)) => assert_eq!(s, "text"),
        _ => panic!("expected text"),
    }
}

#[test]
fn enumerations_are_read_by_their_choices() {
    let ints = field("e", "E", ParamType::Enum, false, Some(EnumType::Integer(vec![(1, String::from("up")), (2, String::from("down"))])));
    assert!(matches!(done(ints.parse_value(String::from("2"), "k")), Ok(Value::IntEnum(2))));
    match done(ints.parse_value(String::from("3"), "k")) {
        Err(DataError::InvalidChoice(s)) => assert_eq!(s, "3"),
        _ => panic!("expected an invalid choice"),
    }
    assert_eq!(type_error(ints.parse_value(String::from("x"), "k")), "invalid digit found in string");
    let strs = field("e", "E", ParamType::Enum, false, Some(EnumType::String(vec![String::from("up")])));
    assert!(matches!(done(strs.parse_value(String::from("up"), "k")), Ok(Value::Enum(_))));
    match done(strs.parse_value(String::from("down"), "k")) {
        Err(DataError::InvalidChoice(s)) => assert_eq!(s, "down"),
        _ => panic!("expected an invalid choice"),
    }
    let none = field("e", "E", ParamType::Enum, false, None);
    assert_eq!(type_error(none.parse_value(String::from("up"), "k")), "No enum variables set");
}

#[test]
fn counters_go_to_the_counter_store() {
    let c = field("bytes", "B", ParamType::Counter, false, None);
    match c.parse_value(String::from("+17"), "row") {
        Parsed::Counter(k, v) => {
            assert_eq!(k, "row.bytes");
            assert_eq!(v, 17);
        },
        _ => panic!("expected a counter"),
    }
    let d = field("n", "N", ParamType::Difference, false, None);
    assert!(matches!(d.parse_value(String::from("3"), "r"), Parsed::Difference(_, 3)));
    assert_eq!(type_error(d.parse_value(String::from("-3"), "r")), "invalid digit found in string");
    assert_eq!(type_error(d.parse_value(String::from("18446744073709551616"), "r")), "number too large to fit in target type");
}

fn row(pairs: &[(&str, &str)]) -> StrMap<String> {
    let mut r = StrMap::new();
    for (k, v) in pairs {
        r.insert(k.to_string(), v.to_string());
    }
    r
}

#[test]
fn row_keys_are_sorted_key_values() {
    let t = TableSpec { command_name: String::from("c"), command_line: String::from("l"), shell_type: ShellType::Powershell, output_type: OutputType::Csv, singleton: false };
    let a = field("a", "Name", ParamType::String, true, None);
    let b = field("b", "Id", ParamType::String, true, None);
    let c = field("c", "Size", ParamType::Integer, false, None);
    let fields = vec![&a, &b, &c];
    assert_eq!(t.get_rowkey(&row(&[("Name", "zeta"), ("Id", "alpha"), ("Size", "1")]), &fields), Some(String::from("alpha.zeta")));
    assert_eq!(t.get_rowkey(&row(&[("Size", "1")]), &fields), None);
    let table = vec![row(&[("Name", "n"), ("Size", "5")]), row(&[("Size", "x")])];
    let rows = t.parse_table(table, &fields);
    assert_eq!(rows.len(), 2);
    assert!(matches!(&rows[0][1], Parsed::Done(Err(DataError::Missing))));
    assert!(matches!(&rows[0][2], Parsed::Done(Ok(Value::Integer(5)))));
    let dup = field("d", "Size", ParamType::Integer, false, None);
    let cnt = field("e", "Size2", ParamType::Counter, false, None);
    let rows = t.parse_table(vec![row(&[("Size", "7"), ("Size2", "9")])], &vec![&c, &dup, &cnt]);
    assert!(matches!(&rows[0][0], Parsed::Done(Ok(Value::Integer(7)))));
    assert!(matches!(&rows[0][1], Parsed::Done(Err(DataError::Missing))));
    match &rows[0][2] {
        Parsed::Counter(k, 9) => assert_eq!(k, "0.e"),
        _ => panic!("expected a counter under the row position"),
    }
}

#[test]
fn commands_are_rendered() {
    let mut vars = StrMap::new();
    vars.insert(String::from("username"), String::from("admin"));
    vars.insert(String::from("password"), String::from("p&w"));
    let s = ShellType::Powershell.parse_command("Get-Process {{username}}", OutputType::Json, &vars).ok().unwrap();
    assert_eq!(s, "Invoke-Command -ScriptBlock { Get-Process admin } | ConvertTo-Json -Compress -EnumsAsStrings");
    let e = ShellType::Exchange.parse_command("Get-Mailbox", OutputType::Csv, &vars).ok().unwrap();
    assert!(e.starts_with("$Username = 'admin'\n"));
    assert!(e.contains("$Password = 'p&w'"));
    assert!(e.ends_with("Invoke-Command -ScriptBlock { Get-Mailbox } | ConvertTo-Csv -NoTypeInformation"));
    assert!(matches!(ShellType::Powershell.parse_command("{{#if}}", OutputType::Csv, &vars), Err(TableError::RenderError(_))));
}

#[test]
fn output_is_read_as_a_table() {
    let out = CommandOutput { exitcode: 0, stderr: String::new(), stdout: String::from("\"Name\",\"Id\"\n\"a\",\"1\"\n\"b\",\"2\"\n") };
    let t = OutputType::Csv.parse_table(out).ok().unwrap();
    assert_eq!(t.len(), 2);
    assert_eq!(t[1].get(&String::from("Id")), Some(&String::from("2")));
    let json = CommandOutput { exitcode: 0, stderr: String::new(), stdout: String::from("[{\"Name\":\"a\",\"Id\":\"1\"}]") };
    let t = OutputType::Json.parse_table(json).ok().unwrap();
    assert_eq!(t[0].get(&String::from("Name")), Some(&String::from("a")));
    let failed = CommandOutput { exitcode: 1, stderr: String::from("denied"), stdout: String::new() };
    match OutputType::Csv.parse_table(failed) {
        Err(TableError::CommandFailed(1, e)) => assert_eq!(e, "denied"),
        _ => panic!("expected a failed command"),
    }
    let bad = CommandOutput { exitcode: 0, stderr: String::new(), stdout: String::from("{\"Name\":1}") };
    assert!(matches!(OutputType::Json.parse_table(bad), Err(TableError::JsonDeserialize(_))));
    let ragged = CommandOutput { exitcode: 0, stderr: String::new(), stdout: String::from("a,b\n1\n") };
    assert!(matches!(OutputType::Csv.parse_table(ragged), Err(TableError::CsvDeserialize(_))));
}

fn winrm(alias: Option<(HostAllias, Option<String>)>, creds: Option<Credentials>) -> WinrmConfig {
    WinrmConfig {
        hostname: String::from("host"),
        ip_address: None,
        credentials: creds,
        https: true,
        port: None,
        timeout: 10,
        certificate: None,
        host_allias: alias,
        disable_hostname_verification: false,
        disable_certificate_verification: false,
        built_in_root_certs: true,
        options: None,
    }
}

#[test]
fn host_names_and_credentials() {
    match winrm(Some((HostAllias::Domain, Some(String::from("corp.local")))), None).host_target() {
        HostTarget::Name(n) => assert_eq!(n, "host.corp.local"),
        _ => panic!("expected a name"),
    }
    match winrm(Some((HostAllias::Ip, Some(String::from("10.0.0.1")))), None).host_target() {
        HostTarget::Name(n) => assert_eq!(n, "10.0.0.1"),
        _ => panic!("expected a name"),
    }
    assert!(matches!(winrm(Some((HostAllias::Ip, None)), None).host_target(), HostTarget::LookupIp));
    match winrm(Some((HostAllias::Domain, None)), None).host_target() {
        HostTarget::Name(n) => assert_eq!(n, "host"),
        _ => panic!("expected a name"),
    }
    assert!(matches!(winrm(None, None).get_credentials(), Err(ConfigError::NoCredentials)));
    let k = Credentials::Kerberos(KerberosCredentials { hostname: String::from("kdc"), realm: String::from("corp.straße"), ccache_name: None });
    match k.auth_plan() {
        Ok(AuthPlan::Kerberos { realm, .. }) => assert_eq!(realm, "CORP.STRASSE"),
        _ => panic!("expected kerberos"),
    }
    let b = Credentials::Basic(BasicCredentials { username: String::from("u@dom"), password: String::from("p") });
    assert!(matches!(b.auth_plan(), Ok(AuthPlan::Basic { .. })));
    let c = Credentials::Certificate(CertificateCredentials { private_key: String::from("k.pem"), public_cert: String::from("c.pem") });
    assert!(matches!(c.auth_plan(), Err(ConfigError::UnsupportedCredentials)));
    assert_eq!(user_part("user@domain@x"), "user");
    assert_eq!(user_part("plain"), "plain");
    let agent = |creds| WindowsAgentConfig { hostname: String::from("h"), port: 8099, server_root_cert: String::from("ca"), credentials: creds, connection_timeout: 10 };
    assert_eq!(agent(Some(c)).client_certificate().ok().unwrap(), (String::from("k.pem"), String::from("c.pem")));
    assert!(matches!(agent(Some(b)).client_certificate(), Err(ConfigError::UnsupportedCredentials)));
    assert!(matches!(agent(None).client_certificate(), Err(ConfigError::NoCredentials)));
}

#[test]
fn pem_files_are_split_per_certificate() {
    let body = "A".repeat(40);
    let file = format!("junk\n-----BEGIN CERTIFICATE-----\n{body}\n-----END CERTIFICATE-----\n-----BEGIN CERTIFICATE-----\nshort");
    let certs = WinrmConfig::split_ssl_file_per_ssl_cert(file.clone().into_bytes());
    assert_eq!(certs.len(), 1);
    assert_eq!(certs[0], format!("-----BEGIN CERTIFICATE-----\n{body}\n-----END CERTIFICATE-----\n").into_bytes());
    assert_eq!(certificates_of(CertificateKind::Other, vec![1, 2, 3]), vec![vec![1, 2, 3]]);
    assert_eq!(certificates_of(CertificateKind::Pem, file.into_bytes()).len(), 1);
    let invalid = vec![0xff; 60];
    assert_eq!(WinrmConfig::split_ssl_file_per_ssl_cert(invalid).len(), 1);
}

#[test]
fn unbounded_templates_are_refused() {
    let vars = StrMap::new();
    let cyclic = "{{#*inline \"a\"}}{{> b}}{{/inline}}{{#*inline \"b\"}}{{> a}}{{/inline}}{{> a}}";
    match ShellType::Powershell.parse_command(cyclic, OutputType::Json, &vars) {
        Err(TableError::RenderError(m)) => assert_eq!(m, "template defines inline partials or holds more than 128 expressions"),
        _ => panic!("expected a refusal"),
    }
    let spaced = "{{ ~ # * inline \"a\"}}{{> a}}{{/inline}}";
    assert!(matches!(ShellType::Powershell.parse_command(spaced, OutputType::Json, &vars), Err(TableError::RenderError(_))));
    let deep = "{{x}}".repeat(129);
    match ShellType::Powershell.parse_command(&deep, OutputType::Json, &vars) {
        Err(TableError::RenderError(m)) => assert!(m.starts_with("template defines")),
        _ => panic!("expected a refusal"),
    }
    let fine = "{{x}}".repeat(128);
    assert!(ShellType::Powershell.parse_command(&fine, OutputType::Json, &vars).is_ok());
}
