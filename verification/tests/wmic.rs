use agent_protocols::common::strmap::StrMap;
use agent_protocols::common::text::chars_of;
use agent_protocols::wmi::dcom::{credentials_from_file, parse_lines, parse_lines_checked, session_user, split_by, AuthFileError};

fn get(m: &StrMap<String>, k: &str) -> Option<String> {
    m.get(&k.to_string()).cloned()
}

#[test]
fn split_on_delimiter() {
    let d = chars_of("|||");
    assert_eq!(split_by(chars_of("a|||b||||c").as_slice(), d.as_slice()), vec!["a", "b", "|c"]);
    assert_eq!(split_by(chars_of("").as_slice(), d.as_slice()), vec![""]);
    assert_eq!(split_by(chars_of("|||").as_slice(), d.as_slice()), vec!["", ""]);
}

#[test]
fn one_row() {
    let rows = parse_lines("CLASS: Win32_OperatingSystem\nCaption|||Version\nMicrosoft Windows|||10.0\n");
    assert_eq!(rows.len(), 1);
    assert_eq!(get(&rows[0], "Caption"), Some("Microsoft Windows".to_string()));
    assert_eq!(get(&rows[0], "Version"), Some("10.0".to_string()));
}

#[test]
fn rows_over_lines() {
    let rows = parse_lines("CLASS: X\r\nA|||B|||C\r\n1|||2|||3\r\n4|||5|||6\r\n");
    assert_eq!(rows.len(), 2);
    assert_eq!(get(&rows[0], "C"), Some("3".to_string()));
    assert_eq!(get(&rows[1], "A"), Some("4".to_string()));
    assert_eq!(get(&rows[1], "C"), Some("6".to_string()));
    // A value that runs over lines keeps its line break.
    let rows = parse_lines("CLASS: X\nA|||B|||C\n1|||two\nlines|||3\n4|||5|||6");
    assert_eq!(rows.len(), 2);
    assert_eq!(get(&rows[0], "B"), Some("two\nlines".to_string()));
    assert_eq!(get(&rows[1], "A"), Some("4".to_string()));
}

#[test]
fn no_header() {
    assert_eq!(parse_lines("").len(), 0);
    assert_eq!(parse_lines("CLASS: X\n").len(), 0);
    assert_eq!(parse_lines("CLASS: X\nA|||B").len(), 0);
}

#[test]
fn two_columns_pass_over_a_row_end() {
    // After a cut the next row's last value is passed over.
    let rows = parse_lines("C\nN|||V\na|||1\nb|||2\nc|||3");
    assert_eq!(rows.len(), 2);
    assert_eq!(get(&rows[1], "N"), Some("b".to_string()));
    assert_eq!(get(&rows[1], "V"), Some("2\nc".to_string()));
}

#[test]
fn credentials_file() {
    let c = credentials_from_file("Username=alice\npassword=x=y\n# comment\nDomain=CORP\n").ok().unwrap();
    assert_eq!(c.username, "alice");
    assert_eq!(c.password, "x=y");
    assert_eq!(c.domain, Some("CORP".to_string()));
    assert_eq!(session_user(&c), "CORP/alice");
    let d = credentials_from_file("username=bob\r\npassword=pw\r\nusername=carol").ok().unwrap();
    assert_eq!(d.username, "carol");
    assert_eq!(d.password, "pw");
    assert!(d.domain.is_none());
    assert_eq!(session_user(&d), "carol");
    assert!(matches!(credentials_from_file("password=1"), Err(AuthFileError::MissingInAuthfile(k)) if k == "username"));
    assert!(matches!(credentials_from_file("USERNAME=u"), Err(AuthFileError::MissingInAuthfile(k)) if k == "password"));
}

#[test]
fn unmendable_output_is_refused() {
    // The last value of the last row spans two lines with nothing after it.
    assert!(parse_lines_checked("C\nA\nx\ny").is_none());
    let rows = parse_lines_checked("CLASS: X\nA|||B\n1|||2\n").unwrap();
    assert_eq!(rows.len(), 1);
    assert_eq!(rows[0].get(&"B".to_string()).unwrap(), "2");
}
