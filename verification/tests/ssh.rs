use agent_protocols::ssh::config::{
    check_username, default_max_sessions, default_port, default_sudo, default_timeout, identity_auth,
    session_timeout_ms, vault_auth, AuthError, AuthMethod, Config, Connectivity, Credential, CredentialType,
    Options, VaultCreds,
};
use agent_protocols::ssh::plugin::{check_exit, counter_db_name, sudo_skip, TableSpec};

fn config(user: &str, ct: Option<CredentialType>) -> Config {
    Config {
        connectivity: Connectivity { hostname: String::from("h"), ipaddress: None, port: default_port(), max_sessions: default_max_sessions() },
        credentials: Credential { username: user.to_string(), credential_type: ct },
        options: Options::default(),
        jumphosts: Vec::new(),
    }
}

fn table(cmd_name: &str, line: &str) -> TableSpec {
    TableSpec { command_name: cmd_name.to_string(), command_line: line.to_string(), parser_name: String::from("df"), parser_bin: String::from("parse_df") }
}

#[test]
fn ssh_defaults() {
    assert_eq!(default_port(), 22);
    assert_eq!(default_timeout(), 10);
    assert!(!default_sudo());
    assert_eq!(default_max_sessions(), 10);
    let o = Options::default();
    assert!(!o.allow_sudo);
    assert_eq!(o.timeout, 0);
    assert_eq!(session_timeout_ms(&Options { allow_sudo: false, timeout: 10 }), 10_000);
}

#[test]
fn counter_file_names_replace_slashes() {
    assert_eq!(counter_db_name(&table("/bin/df -k", "df -k")), "ssh_df__bin_df -k.json");
}

#[test]
fn sudo_commands_need_permission() {
    let t = table("x", "sudo lsof");
    assert!(sudo_skip(&t, false));
    assert!(!sudo_skip(&t, true));
    assert!(!sudo_skip(&table("x", "pseudo"), false));
    assert!(!sudo_skip(&table("x", "sudo"), false));
}

#[test]
fn exit_status_decides() {
    assert!(check_exit(0, String::from("warn")).is_ok());
    let e = check_exit(2, String::from("no such file")).err().unwrap();
    assert_eq!(e.exit_status, 2);
    assert_eq!(e.stderr, "no such file");
}

#[test]
fn authentication_is_chosen_from_the_configuration() {
    assert!(matches!(check_username(&config("", None)), Err(AuthError::NoCredentialsProvided)));
    assert!(check_username(&config("root", None)).is_ok());
    assert!(matches!(identity_auth(&config("root", None)), Err(AuthError::NoCredentialsProvided)));
    match identity_auth(&config("root", Some(CredentialType::Password { password: String::from("pw") }))) {
        Ok(AuthMethod::Password { username, password }) => {
            assert_eq!(username, "root");
            assert_eq!(password, "pw");
        },
        _ => panic!("expected a password"),
    }
    match identity_auth(&config("root", Some(CredentialType::IdentityFile { identity_file: String::from("/k"), password: None }))) {
        Ok(AuthMethod::PubkeyFile { username, file, password }) => {
            assert_eq!(username, "root");
            assert_eq!(file, "/k");
            assert!(password.is_none());
        },
        _ => panic!("expected a key file"),
    }
}

#[test]
fn authentication_from_a_key_reader() {
    let c = |u: Option<&str>, k: Option<&str>, p: Option<&str>| VaultCreds {
        username: u.map(String::from),
        key: k.map(String::from),
        password: p.map(String::from),
    };
    assert!(matches!(vault_auth(c(None, Some("k"), None)), Err(AuthError::NoCredentialsProvided)));
    assert!(matches!(vault_auth(c(Some("u"), None, None)), Err(AuthError::KeyReaderCredentials)));
    match vault_auth(c(Some("u"), Some("key"), Some("pw"))) {
        Ok(AuthMethod::PubkeyMemory { username, key }) => {
            assert_eq!(username, "u");
            assert_eq!(key, "key");
        },
        _ => panic!("expected the key"),
    }
    match vault_auth(c(Some("u"), None, Some("pw"))) {
        Ok(AuthMethod::Password { username, password }) => {
            assert_eq!(username, "u");
            assert_eq!(password, "pw");
        },
        _ => panic!("expected the password"),
    }
}
