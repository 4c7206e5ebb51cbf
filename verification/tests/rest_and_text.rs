use agent_protocols::common::json::Json;
use agent_protocols::rest::login::{fill_login_data, login_body, token_from_response, token_header};
use agent_protocols::common::search::split_on;
use agent_protocols::common::text::{chars_of, float_text, i64_error_text, parse_i64, parse_u64, str_lt, trim_text, u64_error_text};
use agent_protocols::rest::http::{BodyType, ContentType};
use agent_protocols::rest::template::{Elem, Template, TemplateError};

fn vars(pairs: &[(&str, &str)]) -> Vec<(String, String)> {
    pairs.iter().map(|(k, v)| (k.to_string(), v.to_string())).collect()
}

#[test]
fn templates_fill_variables() {
    let t = Template::parse("https://x/{{subscription}}/r?v={{version}}").ok().unwrap();
    assert_eq!(t.0.len(), 4);
    assert!(matches!(&t.0[1], Elem::Var(v) if v == "subscription"));
    let filled = t.fill_in(&vars(&[("version", "1"), ("subscription", "abc"), ("version", "2")])).ok().unwrap();
    assert_eq!(filled, "https://x/abc/r?v=1");
    match t.fill_in(&vars(&[("version", "1")])) {
        Err(TemplateError::MissingVariable(v)) => assert_eq!(v, "subscription"),
        _ => panic!("expected a missing variable"),
    }
}

#[test]
fn templates_reject_stray_braces() {
    assert!(matches!(Template::parse("a {b}"), Err(TemplateError::ParseError)));
    assert!(matches!(Template::parse("{{}}"), Err(TemplateError::ParseError)));
    let plain = Template::parse("no braces").ok().unwrap();
    assert_eq!(plain.fill_in(&vec![]).ok().unwrap(), "no braces");
    assert_eq!(Template::parse("").ok().unwrap().0.len(), 0);
}

#[test]
fn mime_types() {
    assert_eq!(BodyType::JSON.mime_type(), "application/json");
    assert_eq!(BodyType::FormUrlEncoded.mime_type(), "application/x-www-form-urlencoded");
    assert_eq!(BodyType::NoBody.mime_type(), "");
    assert_eq!(ContentType::JSON.mime_type(), "application/json");
}

#[test]
fn integers_are_read_as_std_reads_them() {
    assert_eq!(parse_i64("-9223372036854775808"), Some(i64::MIN));
    assert_eq!(parse_i64("9223372036854775808"), None);
    assert_eq!(i64_error_text("9223372036854775808"), "number too large to fit in target type");
    assert_eq!(i64_error_text("-9223372036854775809"), "number too small to fit in target type");
    assert_eq!(i64_error_text("-"), "invalid digit found in string");
    assert_eq!(parse_u64("+7"), Some(7));
    assert_eq!(parse_u64("-7"), None);
    assert_eq!(u64_error_text(""), "cannot parse integer from empty string");
}

#[test]
fn text_helpers() {
    assert_eq!(trim_text("\t a b \n"), "a b");
    assert!(str_lt("abc", "abd"));
    assert!(str_lt("ab", "abc"));
    assert!(!str_lt("b", "abc"));
    assert!(float_text("-1.5e-3"));
    assert!(float_text("inf"));
    assert!(!float_text("1.5.2"));
    assert_eq!(chars_of("añb"), vec!['a', 'ñ', 'b']);
}

#[test]
fn split_then_join_gives_the_text_back() {
    let text = "a,,b,";
    let pieces = split_on(&chars_of(text), ',');
    assert_eq!(pieces, vec![String::from("a"), String::new(), String::from("b"), String::new()]);
    assert_eq!(pieces.join(","), text);
}

#[test]
fn json_against_schema() {
    use_validation();
}

fn use_validation() {
    let schema = r#"{"type":"object","required":["a"]}"#.to_string();
    assert!(agent_protocols::rest::validation::validate_json(&r#"{"a":1}"#.to_string(), &schema).is_ok());
    match agent_protocols::rest::validation::validate_json(&r#"{"b":1}"#.to_string(), &schema) {
        Err(agent_protocols::rest::validation::RESTError::ValidationError(v)) => assert_eq!(v.len(), 1),
        _ => panic!("expected a violation"),
    }
    assert!(matches!(
        agent_protocols::rest::validation::validate_json(&"not json".to_string(), &schema),
        Err(agent_protocols::rest::validation::RESTError::SerdeJSONError(_))
    ));
    assert!(matches!(
        agent_protocols::rest::validation::validate_json(&"{}".to_string(), &"{".to_string()),
        Err(agent_protocols::rest::validation::RESTError::SerdeJSONError(_))
    ));
}

#[test]
fn login_data_body_and_token() {
    let data = vec![
        (String::from("user"), Template::parse("{{username}}").ok().unwrap()),
        (String::from("pass"), Template::parse("{{password}}").ok().unwrap()),
    ];
    let creds = vec![(String::from("username"), String::from("alice")), (String::from("password"), String::from("s3")) ];
    let filled = fill_login_data(&data, &creds).ok().unwrap();
    assert_eq!(filled, vec![(String::from("user"), String::from("alice")), (String::from("pass"), String::from("s3"))]);
    let partial = vec![(String::from("username"), String::from("alice"))];
    match fill_login_data(&data, &partial) {
        Err(TemplateError::MissingVariable(v)) => assert_eq!(v, "password"),
        _ => panic!("expected a missing variable"),
    }
    let body = login_body(&BodyType::JSON, &filled);
    assert!(body == "{\"pass\":\"s3\",\"user\":\"alice\"}" || body == "{\"user\":\"alice\",\"pass\":\"s3\"}");
    assert_eq!(login_body(&BodyType::NoBody, &filled), "");
    let spaced = vec![(String::from("user"), String::from("a b&c")), (String::from("pass"), String::from("é"))];
    assert_eq!(login_body(&BodyType::FormUrlEncoded, &spaced), "user=a+b%26c&pass=%C3%A9");
    let token = Template::parse("Bearer {{access_token}}").ok().unwrap();
    let response = Json::Object(vec![
        (String::from("expires"), Json::Number(String::from("3600"))),
        (String::from("access_token"), Json::Text(String::from("abc"))),
    ]);
    assert_eq!(token_header(&token, &response).unwrap().ok().unwrap(), "Bearer abc");
    let numeric = Json::Object(vec![(String::from("access_token"), Json::Number(String::from("1")))]);
    assert!(matches!(token_header(&token, &numeric), Some(Err(TemplateError::MissingVariable(_)))));
    assert!(token_header(&token, &Json::Null).is_none());
    let text = "{\"access_token\": \"xyz\", \"n\": 1}";
    assert_eq!(token_from_response(&token, text).ok().unwrap().unwrap().ok().unwrap(), "Bearer xyz");
    assert!(token_from_response(&token, "[1]").ok().unwrap().is_none());
    assert!(token_from_response(&token, "{not json").is_err());
}

#[test]
fn placeholders_fill_back_to_the_text() {
    let text = "https://h/{{sub}}/x?{{q}}=1";
    let t = Template::parse(text).ok().unwrap();
    let vars = vec![(String::from("sub"), String::from("{{sub}}")), (String::from("q"), String::from("{{q}}"))];
    assert_eq!(t.fill_in(&vars).ok().unwrap(), text);
    // No two pieces of fixed text follow each other, and none is empty.
    for w in t.0.windows(2) {
        assert!(!(matches!(w[0], Elem::Fixed(_)) && matches!(w[1], Elem::Fixed(_))));
    }
    for e in &t.0 {
        match e {
            Elem::Fixed(s) => assert!(!s.is_empty() && !s.contains('{')),
            Elem::Var(v) => assert!(!v.is_empty()),
        }
    }
}

#[test]
fn schema_references_are_refused() {
    let looping = r##"{"$ref":"#"}"##.to_string();
    match agent_protocols::rest::validation::validate_json(&"1".to_string(), &looping) {
        Err(agent_protocols::rest::validation::RESTError::CompilationError(m)) => assert_eq!(m, "schema references ($ref) are not supported"),
        _ => panic!("expected a refusal"),
    }
    let nested = r##"{"type":"object","properties":{"a":{"items":[{"$ref":"#/properties"}]}}}"##.to_string();
    assert!(matches!(
        agent_protocols::rest::validation::validate_json(&"{}".to_string(), &nested),
        Err(agent_protocols::rest::validation::RESTError::CompilationError(_))
    ));
}
