//! How to reach a host over SSH and log in: the configuration, and the
//! choice of the authentication method.

use vstd::prelude::*;

use crate::xenapp::response::IpAddress;
use vstd::string::StrSliceExecFns;

verus! {

/// The configuration of a host.
pub struct Config {
    pub connectivity: Connectivity,
    pub credentials: Credential,
    pub options: Options,
    pub jumphosts: Vec<JumpHost>,
}

/// Where the host is.
pub struct Connectivity {
    pub hostname: String,
    pub ipaddress: Option<IpAddress>,
    pub port: u16,
    pub max_sessions: u8,
}

/// What may be done on the host.
pub struct Options {
    pub allow_sudo: bool,
    pub timeout: u32,
}

/// A host to pass through on the way (not used yet).
pub struct JumpHost {
    pub connectivity: Connectivity,
    pub credentials: Credential,
}

/// The port when none is configured.
pub fn default_port() -> (r: u16)
    ensures
        r == 22,
{
    22
}

/// The timeout in seconds when none is configured.
pub fn default_timeout() -> (r: u32)
    ensures
        r == 10,
{
    10
}

/// Whether sudo is allowed when nothing is configured.
pub fn default_sudo() -> (r: bool)
    ensures
        r == false,
{
    false
}

/// The most channels used at once when nothing is configured.
pub fn default_max_sessions() -> (r: u8)
    ensures
        r == 10,
{
    10
}

impl Default for Options {
    /// No options: sudo not allowed, timeout zero.
    fn default() -> (r: Options)
        ensures
            r.allow_sudo == false,
            r.timeout == 0,
    {
        Options { allow_sudo: false, timeout: 0 }
    }
}

/// How to log in.
pub enum CredentialType {
    /// With a private key file, optionally protected by a passphrase.
    IdentityFile { identity_file: String, password: Option<String> },
    /// With a password.
    Password { password: String },
}

/// Who logs in, and how.
pub struct Credential {
    pub username: String,
    pub credential_type: Option<CredentialType>,
}

/// Where the credentials come from.
pub enum KeySource {
    /// A key reader that holds the credentials per user.
    KeyReader,
    /// The configuration itself.
    Identity,
}

/// The credentials that a key reader gives for a user.
pub struct VaultCreds {
    pub username: Option<String>,
    pub key: Option<String>,
    pub password: Option<String>,
}

/// How to authenticate a session.
pub enum AuthMethod {
    /// With a private key held in memory.
    PubkeyMemory { username: String, key: String },
    /// With a private key file and its passphrase.
    PubkeyFile { username: String, file: String, password: Option<String> },
    /// With a password.
    Password { username: String, password: String },
}

/// Why a session cannot be authenticated.
pub enum AuthError {
    /// No credentials are configured.
    NoCredentialsProvided,
    /// The key reader holds neither a key nor a password.
    KeyReaderCredentials,
}

/// A session can be set up only for a configured user name.
pub fn check_username(c: &Config) -> (r: Result<(), AuthError>)
    ensures
        r is Ok <==> c.credentials.username@.len() > 0,
        r matches Err(e) ==> e is NoCredentialsProvided,
{
    if c.credentials.username.as_str().unicode_len() == 0 {
        Err(AuthError::NoCredentialsProvided)
    } else {
        Ok(())
    }
}

/// The authentication with the configuration's credentials: the key file
/// or the password configured; none configured is an error.
pub fn identity_auth(c: &Config) -> (r: Result<AuthMethod, AuthError>)
    ensures
        match c.credentials.credential_type {
            None => r matches Err(e) && e is NoCredentialsProvided,
            Some(CredentialType::IdentityFile { identity_file, password }) => r matches Ok(AuthMethod::PubkeyFile { username, file, password: p })
                && username@ == c.credentials.username@ && file@ == identity_file@ && p == password,
            Some(CredentialType::Password { password }) => r matches Ok(AuthMethod::Password { username, password: p })
                && username@ == c.credentials.username@ && p@ == password@,
        },
{
    match &c.credentials.credential_type {
        None => Err(AuthError::NoCredentialsProvided),
        Some(CredentialType::IdentityFile { identity_file, password }) => Ok(AuthMethod::PubkeyFile {
            username: c.credentials.username.clone(),
            file: identity_file.clone(),
            password: match password {
                Some(p) => Some(p.clone()),
                None => None,
            },
        }),
        Some(CredentialType::Password { password }) => Ok(AuthMethod::Password {
            username: c.credentials.username.clone(),
            password: password.clone(),
        }),
    }
}

/// The authentication with a key reader's credentials: they must name the
/// user; a key wins over a password; neither is an error.
pub fn vault_auth(creds: VaultCreds) -> (r: Result<AuthMethod, AuthError>)
    ensures
        match (creds.username, creds.key, creds.password) {
            (None, _, _) => r matches Err(e) && e is NoCredentialsProvided,
            (Some(u), Some(k), _) => r matches Ok(AuthMethod::PubkeyMemory { username, key }) && username == u && key == k,
            (Some(u), None, Some(p)) => r matches Ok(AuthMethod::Password { username, password }) && username == u && password == p,
            (Some(_), None, None) => r matches Err(e) && e is KeyReaderCredentials,
        },
{
    let username = match creds.username {
        Some(u) => u,
        None => return Err(AuthError::NoCredentialsProvided),
    };
    match (creds.key, creds.password) {
        (Some(key), _) => Ok(AuthMethod::PubkeyMemory { username, key }),
        (None, Some(password)) => Ok(AuthMethod::Password { username, password }),
        (None, None) => Err(AuthError::KeyReaderCredentials),
    }
}

/// The session timeout in milliseconds.
pub fn session_timeout_ms(o: &Options) -> (r: u32)
    requires
        o.timeout * 1000 <= u32::MAX,
    ensures
        r == o.timeout * 1000,
{
    o.timeout * 1000
}

} // verus!
