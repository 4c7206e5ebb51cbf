//! How to reach a Windows host: over WinRM or through the Windows agent,
//! with which credentials, under which name, trusting which certificates.

use vstd::prelude::*;

use crate::common::search::{find_first, find_text, first_occurrence, occurs_at};
use crate::common::strmap::StrMap;
use crate::common::text::{chars_of, decode_utf8_lossy, push_all, push_str, string_from_chars, utf8_lossy};
use crate::xenapp::response::IpAddress;
use vstd::string::{StringExecFns, StrSliceExecFns};
use vstd::utf8::encode_utf8;

verus! {

/// Whether a flag that defaults to true is set when nothing is configured.
pub fn default_true() -> (r: bool)
    ensures
        r == true,
{
    true
}

/// The port of the Windows agent when none is configured.
pub fn default_wagent_port() -> (r: u16)
    ensures
        r == 8099,
{
    8099
}

/// The timeout in seconds when none is configured.
pub fn default_timeout() -> (r: u64)
    ensures
        r == 10,
{
    10
}

/// How the host is reached.
pub enum ConnectionConfig {
    WinRM(WinrmConfig),
    WindowsAgent(WindowsAgentConfig),
}

/// The configuration: the connection and the variables of the scripts.
pub struct Config {
    pub connection: ConnectionConfig,
    pub script_context: StrMap<String>,
}

/// A host reached through the Windows agent.
pub struct WindowsAgentConfig {
    pub hostname: String,
    pub port: u16,
    pub server_root_cert: String,
    pub credentials: Option<Credentials>,
    pub connection_timeout: u64,
}

/// The format of a trusted certificate file.
#[derive(Clone, Copy, PartialEq, Eq, Structural)]
pub enum CertificateKind {
    /// PEM: the file may hold several certificates.
    Pem,
    /// Any other format: the file is one certificate.
    Other,
}

/// A host reached over WinRM.
pub struct WinrmConfig {
    pub hostname: String,
    pub ip_address: Option<IpAddress>,
    pub credentials: Option<Credentials>,
    pub https: bool,
    pub port: Option<u16>,
    pub timeout: u64,
    pub certificate: Option<(CertificateKind, String)>,
    pub host_allias: Option<(HostAllias, Option<String>)>,
    pub disable_hostname_verification: bool,
    pub disable_certificate_verification: bool,
    pub built_in_root_certs: bool,
    pub options: Option<WinRMOptions>,
}

/// Options of a WinRM shell.
pub struct WinRMOptions {
    /// Use the default profile instead of the user's (default true).
    pub noprofile: bool,
    /// Run commands without `cmd.exe` (default false).
    pub skip_cmd_shell: bool,
}

/// How the host is named in the session.
#[derive(Clone, Copy, PartialEq, Eq, Structural)]
pub enum HostAllias {
    Domain,
    Ip,
}

/// The credentials of a session.
pub enum Credentials {
    Basic(BasicCredentials),
    Ntlm(NtlmCredentials),
    Kerberos(KerberosCredentials),
    Certificate(CertificateCredentials),
}

/// A user and password.
pub struct BasicCredentials {
    pub username: String,
    pub password: String,
}

/// A user and password, optionally in a domain.
pub struct NtlmCredentials {
    pub username: String,
    pub password: String,
    pub domain: Option<String>,
}

/// A Kerberos realm.
pub struct KerberosCredentials {
    pub hostname: String,
    pub realm: String,
    pub ccache_name: Option<String>,
}

/// A client certificate and its key.
pub struct CertificateCredentials {
    pub private_key: String,
    pub public_cert: String,
}

/// Why a session cannot be set up.
pub enum ConfigError {
    /// No credentials are configured.
    NoCredentials,
    /// The credentials do not suit the connection.
    UnsupportedCredentials,
}

/// Which name the session uses for the host.
pub enum HostTarget {
    /// This name.
    Name(String),
    /// The address that the host name resolves to.
    LookupIp,
}

/// The name of the host in the session: with the configured domain
/// appended, the configured address, the resolved address, or the host
/// name itself.
pub open spec fn host_target_of(c: WinrmConfig) -> Option<Seq<char>> {
    match c.host_allias {
        Some((HostAllias::Domain, Some(d))) => Some(c.hostname@ + "."@ + d@),
        Some((HostAllias::Ip, Some(ip))) => Some(ip@),
        Some((HostAllias::Ip, None)) => None,
        _ => Some(c.hostname@),
    }
}

impl WinrmConfig {
    /// The name of the host in the session (see `host_target_of`; `None`
    /// there is `LookupIp`).
    pub fn host_target(&self) -> (r: HostTarget)
        ensures
            match host_target_of(*self) {
                Some(n) => r matches HostTarget::Name(m) && m@ == n,
                None => r is LookupIp,
            },
    {
        match &self.host_allias {
            Some((HostAllias::Domain, Some(d))) => {
                let mut out: Vec<char> = Vec::new();
                push_str(&mut out, self.hostname.as_str());
                push_str(&mut out, ".");
                push_str(&mut out, d.as_str());
                HostTarget::Name(string_from_chars(out.as_slice()))
            },
            Some((HostAllias::Ip, Some(ip))) => HostTarget::Name(ip.clone()),
            Some((HostAllias::Ip, None)) => HostTarget::LookupIp,
            _ => HostTarget::Name(self.hostname.clone()),
        }
    }

    /// The credentials to log in with.
    pub fn get_credentials(&self) -> (r: Result<&Credentials, ConfigError>)
        ensures
            match self.credentials {
                Some(c) => r == Ok::<&Credentials, ConfigError>(&c),
                None => r matches Err(e) && e is NoCredentials,
            },
    {
        match &self.credentials {
            Some(c) => Ok(c),
            None => Err(ConfigError::NoCredentials),
        }
    }
}

impl WindowsAgentConfig {
    /// The client certificate and key (private key, public certificate)
    /// that the agent requires.
    pub fn client_certificate(&self) -> (r: Result<(String, String), ConfigError>)
        ensures
            match self.credentials {
                None => r matches Err(e) && e is NoCredentials,
                Some(Credentials::Certificate(c)) => r matches Ok((k, p)) && k@ == c.private_key@ && p@ == c.public_cert@,
                Some(_) => r matches Err(e) && e is UnsupportedCredentials,
            },
    {
        match &self.credentials {
            None => Err(ConfigError::NoCredentials),
            Some(Credentials::Certificate(c)) => Ok((c.private_key.clone(), c.public_cert.clone())),
            Some(_) => Err(ConfigError::UnsupportedCredentials),
        }
    }
}

/// The part of a user name before the first `@` (all of it without one).
pub open spec fn user_part_of(s: Seq<char>) -> Seq<char> {
    match find_text(s, seq!['@']) {
        Some(i) => s.subrange(0, i),
        None => s,
    }
}

/// The part of a user name before the first `@` (see `user_part_of`): the
/// user name that a key reader's entry gives.
pub fn user_part(s: &str) -> (r: String)
    ensures
        r@ == user_part_of(s@),
{
    let cs = chars_of(s);
    let at: Vec<char> = vec!['@'];
    proof {
        assert(at@ =~= seq!['@']);
    }
    match find_first(cs.as_slice(), at.as_slice()) {
        None => String::from_str(s),
        Some(i) => {
            let mut out: Vec<char> = Vec::new();
            let mut k: usize = 0;
            while k < i
                invariant
                    k <= i,
                    i <= cs@.len(),
                    out@ == cs@.subrange(0, k as int),
                decreases i - k,
            {
                out.push(cs[k]);
                proof {
                    assert(out@ =~= cs@.subrange(0, k + 1));
                }
                k = k + 1;
            }
            string_from_chars(out.as_slice())
        },
    }
}

/// The text in upper case, as std's `str::to_uppercase` writes it.
pub uninterp spec fn unicode_upper(s: Seq<char>) -> Seq<char>;

/// Writes a text in upper case with std's `str::to_uppercase`. Claimed:
/// the result is `unicode_upper` of the text.
#[verifier::external_body]
pub(crate) fn to_upper(s: &str) -> (r: String)
    ensures
        r@ == unicode_upper(s@),
{
    s.to_uppercase()
}

/// How to authenticate a WinRM session; user names and passwords of the
/// configuration are the entry to look up in a key reader and the
/// password to use without one.
pub enum AuthPlan {
    Kerberos { hostname: String, realm: String, ccache_name: Option<String> },
    Basic { entry: String, password: String },
    Ntlm { entry: String, password: String, domain: Option<String> },
}

impl Credentials {
    /// How to authenticate with these credentials: Kerberos with the realm
    /// in upper case, basic or NTLM with the configured user; a
    /// certificate is not supported over WinRM.
    pub fn auth_plan(&self) -> (r: Result<AuthPlan, ConfigError>)
        ensures
            match *self {
                Credentials::Kerberos(k) => r matches Ok(AuthPlan::Kerberos { hostname, realm, ccache_name })
                    && hostname@ == k.hostname@ && realm@ == unicode_upper(k.realm@) && ccache_name == k.ccache_name,
                Credentials::Basic(b) => r matches Ok(AuthPlan::Basic { entry, password })
                    && entry@ == b.username@ && password@ == b.password@,
                Credentials::Ntlm(n) => r matches Ok(AuthPlan::Ntlm { entry, password, domain })
                    && entry@ == n.username@ && password@ == n.password@ && domain == n.domain,
                Credentials::Certificate(_) => r matches Err(e) && e is UnsupportedCredentials,
            },
    {
        match self {
            Credentials::Kerberos(k) => Ok(AuthPlan::Kerberos {
                hostname: k.hostname.clone(),
                realm: to_upper(k.realm.as_str()),
                ccache_name: match &k.ccache_name {
                    Some(c) => Some(c.clone()),
                    None => None,
                },
            }),
            Credentials::Basic(b) => Ok(AuthPlan::Basic { entry: b.username.clone(), password: b.password.clone() }),
            Credentials::Ntlm(n) => Ok(AuthPlan::Ntlm {
                entry: n.username.clone(),
                password: n.password.clone(),
                domain: match &n.domain {
                    Some(d) => Some(d.clone()),
                    None => None,
                },
            }),
            Credentials::Certificate(_) => Err(ConfigError::UnsupportedCredentials),
        }
    }
}

/// The marker that starts each certificate of a PEM file.
pub open spec fn cert_marker() -> Seq<char> {
    "-----BEGIN CERTIFICATE-----"@
}

/// The pieces of a text between the occurrences of a non-empty pattern,
/// found from left to right without overlap.
pub open spec fn split_text(s: Seq<char>, pat: Seq<char>) -> Seq<Seq<char>>
    decreases s.len(),
{
    if pat.len() == 0 {
        seq![s]
    } else if exists|i: int| #[trigger] first_occurrence(s, pat, i) {
        let i = choose|i: int| #[trigger] first_occurrence(s, pat, i);
        seq![s.subrange(0, i)] + split_text(s.subrange(i + pat.len(), s.len() as int), pat)
    } else {
        seq![s]
    }
}

/// The certificates of a PEM file: the file read as UTF-8 (invalid
/// sequences replaced), cut before each marker, each piece with the marker
/// put back, as UTF-8 bytes; the pieces of at most 50 bytes (such as what
/// comes before the first marker) are dropped.
pub open spec fn pem_certificates(file: Seq<u8>) -> Seq<Seq<u8>> {
    split_text(utf8_lossy(file), cert_marker())
        .map_values(|p: Seq<char>| encode_utf8(cert_marker() + p))
        .filter(|b: Seq<u8>| b.len() > 50)
}

fn copy_range(s: &Vec<char>, from: usize, to: usize) -> (r: Vec<char>)
    requires
        from <= to <= s@.len(),
    ensures
        r@ == s@.subrange(from as int, to as int),
{
    let mut r: Vec<char> = Vec::new();
    let mut i: usize = from;
    while i < to
        invariant
            from <= i <= to <= s@.len(),
            r@ == s@.subrange(from as int, i as int),
        decreases to - i,
    {
        r.push(s[i]);
        proof {
            assert(r@ =~= s@.subrange(from as int, i + 1));
        }
        i = i + 1;
    }
    r
}

proof fn lemma_first_unique_pub(s: Seq<char>, pat: Seq<char>, i: int, j: int)
    requires
        first_occurrence(s, pat, i),
        first_occurrence(s, pat, j),
    ensures
        i == j,
{
    if i < j {
        assert(!occurs_at(s, pat, i));
    } else if j < i {
        assert(!occurs_at(s, pat, j));
    }
}

impl WinrmConfig {
    /// The certificates of a PEM file (see `pem_certificates`).
    pub fn split_ssl_file_per_ssl_cert(ssl_file: Vec<u8>) -> (r: Vec<Vec<u8>>)
        ensures
            r@.map_values(|b: Vec<u8>| b@) == pem_certificates(ssl_file@),
    {
        let hay = decode_utf8_lossy(ssl_file.as_slice());
        let text = chars_of(hay.as_str());
        let marker = chars_of("-----BEGIN CERTIFICATE-----");
        proof {
            reveal_strlit("-----BEGIN CERTIFICATE-----");
        }
        let mut pieces: Vec<Vec<char>> = Vec::new();
        let mut rest = text;
        let ghost all = split_text(utf8_lossy(ssl_file@), cert_marker());
        proof {
            assert(rest@ == utf8_lossy(ssl_file@));
        }
        loop
            invariant_except_break
                pieces@.map_values(|p: Vec<char>| p@) + split_text(rest@, cert_marker()) == all,
            invariant
                marker@ == cert_marker(),
                marker@.len() == 27,
            ensures
                pieces@.map_values(|p: Vec<char>| p@) == all,
            decreases rest@.len(),
        {
            match find_first(rest.as_slice(), marker.as_slice()) {
                None => {
                    proof {
                        assert(!(exists|i: int| #[trigger] first_occurrence(rest@, cert_marker(), i)));
                    }
                    let ghost pv = pieces@.map_values(|p: Vec<char>| p@);
                    let ghost rv = rest@;
                    pieces.push(rest);
                    proof {
                        assert(split_text(rv, cert_marker()) == seq![rv]);
                        assert(pieces@.map_values(|p: Vec<char>| p@) =~= pv.push(rv));
                        assert(pv + seq![rv] =~= pv.push(rv));
                    }
                    break;
                },
                Some(i) => {
                    let n = rest.len();
                    proof {
                        assert(occurs_at(rest@, marker@, i as int));
                        let j = choose|j: int| #[trigger] first_occurrence(rest@, cert_marker(), j);
                        lemma_first_unique_pub(rest@, cert_marker(), i as int, j);
                    }
                    let head = copy_range(&rest, 0, i);
                    let tail = copy_range(&rest, i + 27, n);
                    let ghost pv = pieces@.map_values(|p: Vec<char>| p@);
                    let ghost hv = head@;
                    pieces.push(head);
                    proof {
                        assert(pieces@.map_values(|p: Vec<char>| p@) =~= pv.push(hv));
                        assert(split_text(rest@, cert_marker()) == seq![hv] + split_text(tail@, cert_marker()));
                        assert(pv.push(hv) + split_text(tail@, cert_marker()) =~= pv + (seq![hv] + split_text(tail@, cert_marker())));
                    }
                    rest = tail;
                },
            }
        }
        let ghost pieces_v = pieces@.map_values(|p: Vec<char>| p@);
        proof {
            assert(pieces_v =~= all);
        }
        let mut out: Vec<Vec<u8>> = Vec::new();
        let mut k: usize = 0;
        let ghost mapped = all.map_values(|p: Seq<char>| encode_utf8(cert_marker() + p));
        while k < pieces.len()
            invariant
                k <= pieces@.len(),
                pieces@.map_values(|p: Vec<char>| p@) == all,
                mapped == all.map_values(|p: Seq<char>| encode_utf8(cert_marker() + p)),
                out@.map_values(|b: Vec<u8>| b@) == mapped.take(k as int).filter(|b: Seq<u8>| b.len() > 50),
            decreases pieces.len() - k,
        {
            let mut full: Vec<char> = Vec::new();
            push_str(&mut full, "-----BEGIN CERTIFICATE-----");
            push_all(&mut full, pieces[k].as_slice());
            let s = string_from_chars(full.as_slice());
            let ss = s.as_str();
            let bytes = ss.as_bytes_vec();
            proof {
                assert(ss@ == s@);
                assert(all[k as int] == pieces@[k as int]@);
                assert(bytes@ == mapped[k as int]);
                assert(mapped.take(k + 1).drop_last() =~= mapped.take(k as int));
                reveal(Seq::filter);
            }
            let ghost ov = out@.map_values(|b: Vec<u8>| b@);
            if bytes.len() > 50 {
                let ghost bv = bytes@;
                out.push(bytes);
                proof {
                    assert(out@.map_values(|b: Vec<u8>| b@) =~= ov.push(bv));
                }
            }
            k = k + 1;
        }
        proof {
            assert(mapped.take(k as int) =~= mapped);
        }
        out
    }
}

/// The files of the certificates to trust: each certificate of a PEM file,
/// or the whole file in another format.
pub fn certificates_of(kind: CertificateKind, file: Vec<u8>) -> (r: Vec<Vec<u8>>)
    ensures
        kind == CertificateKind::Pem ==> r@.map_values(|b: Vec<u8>| b@) == pem_certificates(file@),
        kind == CertificateKind::Other ==> r@.len() == 1 && r@[0]@ == file@,
{
    match kind {
        CertificateKind::Pem => WinrmConfig::split_ssl_file_per_ssl_cert(file),
        CertificateKind::Other => {
            let mut r: Vec<Vec<u8>> = Vec::new();
            r.push(file);
            r
        },
    }
}

} // verus!
