//! The configuration of a database connection, and the connection strings
//! it gives.

use vstd::prelude::*;

use crate::sql::connection::{ConnectionString, args_view, cs_text, yes_no};
use crate::sql::plugins::{InstanceType, SslMode};
use crate::xenapp::response::IpAddress;
use vstd::string::StringExecFns;

verus! {

/// How to reach a database server.
pub struct Config {
    pub hostname: String,
    /// The address used to find SQL Server instances (else a DNS lookup).
    pub ip: Option<IpAddress>,
    pub instances: Vec<InstanceType>,
    pub username: Option<String>,
    pub password: Option<String>,
    pub driver: Option<String>,
    pub database: Option<String>,
    pub timeout: Option<u16>,
    pub ssl: Option<SslMode>,
    /// Path of the SSL key file.
    pub ssl_key: Option<String>,
    /// Path of the SSL certificate file.
    pub ssl_cert: Option<String>,
    pub disable_certificate_verification: Option<bool>,
    pub encrypt: Option<bool>,
    pub dsn: Option<String>,
    /// Path of a file DSN.
    pub file_dsn: Option<String>,
    pub custom_args: Vec<(String, String)>,
    /// A complete connection string, used as it is for every instance.
    pub connection_string: Option<String>,
}

/// The text of an optional text.
pub open spec fn opt_text(o: Option<String>) -> Option<Seq<char>> {
    match o {
        Some(s) => Some(s@),
        None => None,
    }
}

/// A map with `k` set to the value, if one is given.
pub open spec fn set_if(m: Map<Seq<char>, Seq<char>>, k: Seq<char>, v: Option<Seq<char>>) -> Map<Seq<char>, Seq<char>> {
    match v {
        Some(x) => m.insert(k, x),
        None => m,
    }
}

/// The name of an optional SSL mode.
pub open spec fn ssl_text(o: Option<SslMode>) -> Option<Seq<char>> {
    match o {
        Some(SslMode::Require) => Some("require"@),
        Some(SslMode::Prefer) => Some("prefer"@),
        Some(SslMode::Allow) => Some("allow"@),
        Some(SslMode::Disable) => Some("disable"@),
        None => None,
    }
}

/// `YES` or `NO` for an optional flag.
pub open spec fn flag_text(o: Option<bool>) -> Option<Seq<char>> {
    match o {
        Some(b) => Some(yes_no(b)),
        None => None,
    }
}

/// The arguments of the base connection string of a configuration, with
/// the user name and password that apply: `Server`, the custom
/// arguments, then each optional argument that is set, in this order, a
/// later one winning (`Driver`, `SSL`, `DSN`, `Database`, `FILEDSN`,
/// `SSLKeyFile`, `SSLCertFile`, `Encrypt`, `TrustServerCertificate`,
/// `Uid`, `Pwd`).
pub open spec fn base_args(c: Config, user: Option<Seq<char>>, pass: Option<Seq<char>>) -> Map<Seq<char>, Seq<char>> {
    let m = Map::<Seq<char>, Seq<char>>::empty().insert("Server"@, c.hostname@).union_prefer_right(args_view(c.custom_args@));
    let m = set_if(m, "Driver"@, opt_text(c.driver));
    let m = set_if(m, "SSL"@, ssl_text(c.ssl));
    let m = set_if(m, "DSN"@, opt_text(c.dsn));
    let m = set_if(m, "Database"@, opt_text(c.database));
    let m = set_if(m, "FILEDSN"@, opt_text(c.file_dsn));
    let m = set_if(m, "SSLKeyFile"@, opt_text(c.ssl_key));
    let m = set_if(m, "SSLCertFile"@, opt_text(c.ssl_cert));
    let m = set_if(m, "Encrypt"@, flag_text(c.encrypt));
    let m = set_if(m, "TrustServerCertificate"@, flag_text(c.disable_certificate_verification));
    let m = set_if(m, "Uid"@, user);
    set_if(m, "Pwd"@, pass)
}

/// The user name and password that apply: those of the key vault's
/// credentials where it has some, else those of the configuration.
pub open spec fn login_of(c: Config, vault: Option<(Option<String>, Option<String>)>) -> (Option<Seq<char>>, Option<Seq<char>>) {
    match vault {
        Some((u, p)) => (opt_text(u), opt_text(p)),
        None => (opt_text(c.username), opt_text(c.password)),
    }
}

fn copy_opt(o: &Option<String>) -> (r: Option<String>)
    ensures
        opt_text(r) == opt_text(*o),
{
    match o {
        Some(s) => Some(s.clone()),
        None => None,
    }
}

fn copy_args(v: &Vec<(String, String)>) -> (r: Vec<(String, String)>)
    ensures
        r@ == v@,
{
    let mut out: Vec<(String, String)> = Vec::new();
    let mut i: usize = 0;
    while i < v.len()
        invariant
            i <= v@.len(),
            out@ == v@.take(i as int),
        decreases v.len() - i,
    {
        out.push((v[i].0.clone(), v[i].1.clone()));
        proof {
            assert(out@ =~= v@.take(i + 1));
        }
        i = i + 1;
    }
    proof {
        assert(out@ =~= v@);
    }
    out
}

impl ConnectionString {
    /// The base connection string of a configuration (see `base_args`);
    /// `vault` holds the credentials that the key vault gave for the
    /// configured user name, if it had any.
    pub fn from_config(config: &Config, vault: Option<(Option<String>, Option<String>)>) -> (r: ConnectionString)
        ensures
            r.wf(),
            r.args() == base_args(*config, login_of(*config, vault).0, login_of(*config, vault).1),
    {
        let ssl = match &config.ssl {
            Some(m) => Some(m.to_string()),
            None => None,
        };
        let mut cs = ConnectionString::new()
            .with_arg("Server", config.hostname.clone())
            .with_args(copy_args(&config.custom_args))
            .with_arg_if_set("Driver", &config.driver)
            .with_arg_if_set("SSL", &ssl)
            .with_arg_if_set("DSN", &config.dsn)
            .with_arg_if_set("Database", &config.database)
            .with_arg_if_set("FILEDSN", &config.file_dsn)
            .with_arg_if_set("SSLKeyFile", &config.ssl_key)
            .with_arg_if_set("SSLCertFile", &config.ssl_cert)
            .with_arg_if_set_bool("Encrypt", &config.encrypt)
            .with_arg_if_set_bool("TrustServerCertificate", &config.disable_certificate_verification);
        let (username, password) = match vault {
            None => (copy_opt(&config.username), copy_opt(&config.password)),
            Some((u, p)) => (u, p),
        };
        cs.add_if_set("Uid", &username);
        cs.add_if_set("Pwd", &password);
        proof {
            assert(opt_text(ssl) == ssl_text(config.ssl));
            assert(cs.args() =~= base_args(*config, login_of(*config, vault).0, login_of(*config, vault).1));
        }
        cs
    }
}

impl Config {
    /// The connection string of each configured instance: the configured
    /// connection string where there is one, for every instance in order;
    /// else the texts of the connection strings built per instance.
    pub fn generic_connectionstring(&self, per_instance: &Vec<(InstanceType, ConnectionString)>) -> (r: Vec<(InstanceType, String)>)
        ensures
            match self.connection_string {
                Some(cs) => r@.len() == self.instances@.len() && forall|i: int| 0 <= i < r@.len()
                    ==> (#[trigger] r@[i]).0 == self.instances@[i] && r@[i].1@ == cs@,
                None => r@.len() == per_instance@.len() && forall|i: int| 0 <= i < r@.len()
                    ==> (#[trigger] r@[i]).0 == per_instance@[i].0 && r@[i].1@ == cs_text(per_instance@[i].1.inner@),
            },
    {
        let mut out: Vec<(InstanceType, String)> = Vec::new();
        match &self.connection_string {
            Some(cs) => {
                let mut i: usize = 0;
                while i < self.instances.len()
                    invariant
                        i <= self.instances@.len(),
                        out@.len() == i,
                        forall|j: int| 0 <= j < i ==> (#[trigger] out@[j]).0 == self.instances@[j] && out@[j].1@ == cs@,
                    decreases self.instances.len() - i,
                {
                    out.push((self.instances[i].copy(), cs.clone()));
                    i = i + 1;
                }
            },
            None => {
                let mut i: usize = 0;
                while i < per_instance.len()
                    invariant
                        i <= per_instance@.len(),
                        out@.len() == i,
                        forall|j: int| 0 <= j < i ==> (#[trigger] out@[j]).0 == per_instance@[j].0
                            && out@[j].1@ == cs_text(per_instance@[j].1.inner@),
                    decreases per_instance.len() - i,
                {
                    out.push((per_instance[i].0.copy(), per_instance[i].1.to_string()));
                    i = i + 1;
                }
            },
        }
        out
    }
}

} // verus!
