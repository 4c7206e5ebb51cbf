use agent_protocols::sql::connection::ConnectionString;

#[test]
fn connection_string_orders_keys() {
    let cs = ConnectionString::new()
        .with_arg("Server", String::from("db1"))
        .with_arg("Driver", String::from("ODBC"));
    assert_eq!(cs.to_string(), "Driver=ODBC;Server=db1");
}

#[test]
fn connection_string_later_value_wins() {
    let cs = ConnectionString::new()
        .with_args(vec![
            (String::from("Port"), String::from("1")),
            (String::from("Port"), String::from("2")),
        ]);
    assert_eq!(cs.to_string(), "Port=2");
}

#[test]
fn connection_string_optional_arguments() {
    let cs = ConnectionString::new()
        .with_arg_if_set("User", &None)
        .with_arg_if_set("Database", &Some(String::from("x")))
        .with_arg_if_set_bool("Encrypt", &Some(true))
        .with_arg_if_set_bool("Trusted", &Some(false));
    assert_eq!(cs.to_string(), "Database=x;Encrypt=YES;Trusted=NO");
}
