//! What each database flavour does differently: queries, connection
//! strings per instance, and table transformations.

use vstd::prelude::*;

use crate::common::text::{push_decimal, push_str, string_from_chars, decimal};
use super::connection::ConnectionString;
use super::input::{FieldSpec, SqlPlugin, TableSpec, join_list, join_texts, requests, table_query};
use crate::common::data::strings_view;
use vstd::string::StringExecFns;

verus! {

/// A database instance on a server: named, at a port, or the default one.
pub enum InstanceType {
    String(String),
    Port(u16),
    Default,
}

impl InstanceType {
    /// The name of the instance: its name, its port, or `Default`.
    pub fn to_string(&self) -> (r: String)
        ensures
            r@ == match *self {
                InstanceType::String(s) => s@,
                InstanceType::Port(p) => decimal(p as nat),
                InstanceType::Default => "Default"@,
            },
    {
        match self {
            InstanceType::String(s) => s.clone(),
            InstanceType::Port(p) => {
                let mut out: Vec<char> = Vec::new();
                push_decimal(&mut out, *p as u64);
                string_from_chars(out.as_slice())
            },
            InstanceType::Default => String::from_str("Default"),
        }
    }

    /// The port of an instance when it is known without browsing the
    /// server: a port instance's port, 1433 for the default instance.
    pub fn known_port(&self) -> (r: Option<u16>)
        ensures
            r == match *self {
                InstanceType::Port(p) => Some(p),
                InstanceType::Default => Some(1433u16),
                InstanceType::String(_) => None,
            },
    {
        match self {
            InstanceType::Port(p) => Some(*p),
            InstanceType::Default => Some(1433),
            InstanceType::String(_) => None,
        }
    }

    /// A copy of the instance.
    pub fn copy(&self) -> (r: InstanceType)
        ensures
            r == match *self {
                InstanceType::String(s) => InstanceType::String(s),
                InstanceType::Port(p) => InstanceType::Port(p),
                InstanceType::Default => InstanceType::Default,
            },
    {
        match self {
            InstanceType::String(s) => InstanceType::String(s.clone()),
            InstanceType::Port(p) => InstanceType::Port(*p),
            InstanceType::Default => InstanceType::Default,
        }
    }
}

/// SSL modes of a connection.
#[derive(Clone, Copy, PartialEq, Eq, Structural)]
pub enum SslMode {
    Require,
    Prefer,
    Allow,
    Disable,
}

impl SslMode {
    /// The name of the mode in a connection string.
    pub fn to_string(&self) -> (r: String)
        ensures
            r@ == match *self {
                SslMode::Require => "require"@,
                SslMode::Prefer => "prefer"@,
                SslMode::Allow => "allow"@,
                SslMode::Disable => "disable"@,
            },
    {
        match self {
            SslMode::Require => String::from_str("require"),
            SslMode::Prefer => String::from_str("prefer"),
            SslMode::Allow => String::from_str("allow"),
            SslMode::Disable => String::from_str("disable"),
        }
    }
}

/// The table of SQL Server performance counters.
pub open spec fn perf_table() -> Seq<char> {
    "sys.dm_os_performance_counters"@
}

/// The columns of the performance counter query that are no counters.
pub open spec fn perf_static(r: Seq<char>) -> bool {
    r == "__instance_name"@ || r == "__object_name"@ || r == "__object_instance"@
}

/// The counter conditions of the performance counter query, in order.
pub open spec fn perf_conditions(fields: Seq<&FieldSpec>) -> Seq<Seq<char>>
    decreases fields.len(),
{
    if fields.len() == 0 {
        Seq::empty()
    } else {
        let rest = perf_conditions(fields.drop_last());
        let r = fields.last().column_request@;
        if perf_static(r) { rest } else { rest.push("counter_name = '"@ + r + "'"@) }
    }
}

/// The performance counter query: the counters requested by the fields.
pub open spec fn perf_query(fields: Seq<&FieldSpec>) -> Seq<char> {
    "SELECT @@SERVICENAME AS __instance_name,\n                            object_name AS __object_name,\n                            instance_name AS __object_instance,\n                            counter_name, cntr_value\n                    FROM sys.dm_os_performance_counters\n                    WHERE "@ + join_list(perf_conditions(fields), "\n\t\tOR "@)
}

/// Name column of the Oracle statistics views, if the table is one.
pub open spec fn oracle_name_id(table: Seq<char>) -> Seq<char> {
    if table == "V$SYSMETRIC"@ { "METRIC_NAME"@ } else if table == "V$SYSSTAT"@ { "NAME"@ } else { Seq::empty() }
}

/// The requests of the key fields, in order.
pub open spec fn key_requests(fields: Seq<&FieldSpec>) -> Seq<Seq<char>>
    decreases fields.len(),
{
    if fields.len() == 0 {
        Seq::empty()
    } else {
        let rest = key_requests(fields.drop_last());
        if fields.last().is_key { rest.push(fields.last().column_request@) } else { rest }
    }
}

/// The name conditions of the non-key fields, in order.
pub open spec fn name_conditions(fields: Seq<&FieldSpec>, name_id: Seq<char>) -> Seq<Seq<char>>
    decreases fields.len(),
{
    if fields.len() == 0 {
        Seq::empty()
    } else {
        let rest = name_conditions(fields.drop_last(), name_id);
        if fields.last().is_key { rest } else { rest.push(name_id + " = '"@ + fields.last().column_name@ + "'"@) }
    }
}

/// The query of an Oracle statistics view: one row per statistic, named
/// by the non-key fields.
pub open spec fn oracle_query(table: Seq<char>, fields: Seq<&FieldSpec>) -> Seq<char> {
    let n = oracle_name_id(table);
    "SELECT "@ + n + " AS NAME, VALUE, "@ + join_list(key_requests(fields), ", "@) + " FROM "@ + table + " WHERE "@
        + join_list(name_conditions(fields, n), " OR "@)
}

/// The query of a table for a flavour: SQL Server counters and Oracle
/// statistics have queries of their own; other tables select the fields.
pub open spec fn spec_construct_query(p: SqlPlugin, t: TableSpec, fields: Seq<&FieldSpec>) -> Seq<char> {
    match p {
        SqlPlugin::Mssql => if t.sql_table_name@ == perf_table() {
            perf_query(fields)
        } else {
            table_query(requests(fields), t.sql_table_name@)
        },
        SqlPlugin::Oracle => if oracle_name_id(t.sql_table_name@).len() > 0 {
            oracle_query(t.sql_table_name@, fields)
        } else {
            table_query(requests(fields), t.sql_table_name@)
        },
        SqlPlugin::Odbc => table_query(requests(fields), t.sql_table_name@),
    }
}

/// The query of a table for a flavour (see `spec_construct_query`).
pub fn construct_query(p: SqlPlugin, t: &TableSpec, fields: &Vec<&FieldSpec>) -> (r: String)
    ensures
        r@ == spec_construct_query(p, *t, fields@),
{
    match p {
        SqlPlugin::Mssql => {
            let perf = String::from_str("sys.dm_os_performance_counters");
            if t.sql_table_name == perf {
                let a = String::from_str("__instance_name");
                let b = String::from_str("__object_name");
                let c = String::from_str("__object_instance");
                let mut conds: Vec<String> = Vec::new();
                let mut i: usize = 0;
                while i < fields.len()
                    invariant
                        i <= fields@.len(),
                        a@ == "__instance_name"@,
                        b@ == "__object_name"@,
                        c@ == "__object_instance"@,
                        strings_view(conds@) == perf_conditions(fields@.take(i as int)),
                    decreases fields.len() - i,
                {
                    proof {
                        assert(fields@.take(i + 1).drop_last() =~= fields@.take(i as int));
                        assert(fields@.take(i + 1).last() == fields@[i as int]);
                    }
                    let r = &fields[i].column_request;
                    if !(*r == a || *r == b || *r == c) {
                        let mut out: Vec<char> = Vec::new();
                        push_str(&mut out, "counter_name = '");
                        push_str(&mut out, r.as_str());
                        push_str(&mut out, "'");
                        let ghost cv = strings_view(conds@);
                        conds.push(string_from_chars(out.as_slice()));
                        proof {
                            assert(strings_view(conds@) =~= cv.push("counter_name = '"@ + r@ + "'"@));
                        }
                    }
                    i = i + 1;
                }
                proof {
                    assert(fields@.take(i as int) =~= fields@);
                }
                let clause = join_texts(&conds, "\n\t\tOR ");
                let mut out: Vec<char> = Vec::new();
                push_str(&mut out, "SELECT @@SERVICENAME AS __instance_name,\n                            object_name AS __object_name,\n                            instance_name AS __object_instance,\n                            counter_name, cntr_value\n                    FROM sys.dm_os_performance_counters\n                    WHERE ");
                push_str(&mut out, clause.as_str());
                proof {
                    assert(out@ =~= perf_query(fields@));
                }
                string_from_chars(out.as_slice())
            } else {
                t.to_query(fields)
            }
        },
        SqlPlugin::Oracle => {
            let sysmetric = String::from_str("V$SYSMETRIC");
            let sysstat = String::from_str("V$SYSSTAT");
            let name_id: &str = if t.sql_table_name == sysmetric {
                "METRIC_NAME"
            } else if t.sql_table_name == sysstat {
                "NAME"
            } else {
                ""
            };
            let is_stat = t.sql_table_name == sysmetric || t.sql_table_name == sysstat;
            proof {
                reveal_strlit("METRIC_NAME");
                reveal_strlit("NAME");
                if is_stat {
                    assert(name_id@ == oracle_name_id(t.sql_table_name@));
                    assert(oracle_name_id(t.sql_table_name@).len() > 0);
                } else {
                    assert(oracle_name_id(t.sql_table_name@).len() == 0);
                }
            }
            if !is_stat {
                return t.to_query(fields);
            }
            let mut keys: Vec<String> = Vec::new();
            let mut conds: Vec<String> = Vec::new();
            let mut i: usize = 0;
            while i < fields.len()
                invariant
                    i <= fields@.len(),
                    strings_view(keys@) == key_requests(fields@.take(i as int)),
                    strings_view(conds@) == name_conditions(fields@.take(i as int), name_id@),
                decreases fields.len() - i,
            {
                proof {
                    assert(fields@.take(i + 1).drop_last() =~= fields@.take(i as int));
                    assert(fields@.take(i + 1).last() == fields@[i as int]);
                }
                let f = fields[i];
                if f.is_key {
                    let ghost kv = strings_view(keys@);
                    keys.push(f.column_request.clone());
                    proof {
                        assert(strings_view(keys@) =~= kv.push(f.column_request@));
                    }
                } else {
                    let mut out: Vec<char> = Vec::new();
                    push_str(&mut out, name_id);
                    push_str(&mut out, " = '");
                    push_str(&mut out, f.column_name.as_str());
                    push_str(&mut out, "'");
                    let ghost cv = strings_view(conds@);
                    conds.push(string_from_chars(out.as_slice()));
                    proof {
                        assert(strings_view(conds@) =~= cv.push(name_id@ + " = '"@ + f.column_name@ + "'"@));
                    }
                }
                i = i + 1;
            }
            proof {
                assert(fields@.take(i as int) =~= fields@);
            }
            let keyfields = join_texts(&keys, ", ");
            let where_clause = join_texts(&conds, " OR ");
            let mut out: Vec<char> = Vec::new();
            push_str(&mut out, "SELECT ");
            push_str(&mut out, name_id);
            push_str(&mut out, " AS NAME, VALUE, ");
            push_str(&mut out, keyfields.as_str());
            push_str(&mut out, " FROM ");
            push_str(&mut out, t.sql_table_name.as_str());
            push_str(&mut out, " WHERE ");
            push_str(&mut out, where_clause.as_str());
            proof {
                assert(out@ =~= oracle_query(t.sql_table_name@, fields@));
            }
            string_from_chars(out.as_slice())
        },
        SqlPlugin::Odbc => t.to_query(fields),
    }
}

/// Why connection strings cannot be made for an instance.
pub enum InstanceError {
    /// The flavour cannot connect to such an instance.
    InvalidInstance(InstanceType, String),
}

/// Connection strings for SQL Server instances at the given ports: the
/// base string with `Server` set to `<host>,<port>`.
pub fn mssql_connection_strings(base: &ConnectionString, hostname: &String, ports: Vec<(InstanceType, u16)>) -> (r: Vec<(InstanceType, ConnectionString)>)
    requires
        base.wf(),
    ensures
        r@.len() == ports@.len(),
        forall|i: int| 0 <= i < r@.len() ==> {
            &&& (#[trigger] r@[i]).1.wf()
            &&& r@[i].1.args() == base.args().insert("Server"@, hostname@ + ","@ + decimal(ports@[i].1 as nat))
            &&& r@[i].0 == ports@[i].0
        },
{
    let mut r: Vec<(InstanceType, ConnectionString)> = Vec::new();
    let mut i: usize = 0;
    while i < ports.len()
        invariant
            i <= ports@.len(),
            base.wf(),
            r@.len() == i,
            forall|j: int| 0 <= j < i ==> {
                &&& (#[trigger] r@[j]).1.wf()
                &&& r@[j].1.args() == base.args().insert("Server"@, hostname@ + ","@ + decimal(ports@[j].1 as nat))
                &&& r@[j].0 == ports@[j].0
            },
        decreases ports.len() - i,
    {
        let mut out: Vec<char> = Vec::new();
        push_str(&mut out, hostname.as_str());
        push_str(&mut out, ",");
        push_decimal(&mut out, ports[i].1 as u64);
        let server = string_from_chars(out.as_slice());
        let cs = base.copy().with_arg("Server", server);
        r.push((ports[i].0.copy(), cs));
        i = i + 1;
    }
    r
}

/// Connection strings for ODBC instances: each must be given by port, and
/// gets the base string with `Port` set; otherwise the first other instance
/// is the error.
pub fn odbc_connection_strings(base: &ConnectionString, instances: &Vec<InstanceType>) -> (r: Result<Vec<(InstanceType, ConnectionString)>, InstanceError>)
    requires
        base.wf(),
    ensures
        match r {
            Ok(v) => v@.len() == instances@.len() && forall|i: int| 0 <= i < v@.len() ==> {
                &&& (#[trigger] v@[i]).1.wf()
                &&& instances@[i] matches InstanceType::Port(p) && v@[i].1.args() == base.args().insert("Port"@, decimal(p as nat))
                &&& v@[i].0 == instances@[i]
            },
            Err(InstanceError::InvalidInstance(inst, name)) => name@ == "ODBC"@ && exists|i: int| 0 <= i < instances@.len()
                && !(#[trigger] instances@[i] is Port) && inst == instances@[i]
                && forall|j: int| 0 <= j < i ==> (#[trigger] instances@[j]) is Port,
        },
{
    let mut r: Vec<(InstanceType, ConnectionString)> = Vec::new();
    let mut i: usize = 0;
    while i < instances.len()
        invariant
            i <= instances@.len(),
            base.wf(),
            r@.len() == i,
            forall|j: int| 0 <= j < i ==> (#[trigger] instances@[j]) is Port,
            forall|j: int| 0 <= j < i ==> {
                &&& (#[trigger] r@[j]).1.wf()
                &&& instances@[j] matches InstanceType::Port(p) && r@[j].1.args() == base.args().insert("Port"@, decimal(p as nat))
                &&& r@[j].0 == instances@[j]
            },
        decreases instances.len() - i,
    {
        match &instances[i] {
            InstanceType::Port(p) => {
                let mut out: Vec<char> = Vec::new();
                push_decimal(&mut out, *p as u64);
                let cs = base.copy().with_arg("Port", string_from_chars(out.as_slice()));
                r.push((instances[i].copy(), cs));
            },
            _ => {
                return Err(InstanceError::InvalidInstance(instances[i].copy(), String::from_str("ODBC")));
            },
        }
        i = i + 1;
    }
    Ok(r)
}

/// Connection strings for Oracle instances: each must be named, and gets
/// the base string with `DSN` set to its name; otherwise the first other
/// instance is the error.
pub fn oracle_connection_strings(base: &ConnectionString, instances: &Vec<InstanceType>) -> (r: Result<Vec<(InstanceType, ConnectionString)>, InstanceError>)
    requires
        base.wf(),
    ensures
        match r {
            Ok(v) => v@.len() == instances@.len() && forall|i: int| 0 <= i < v@.len() ==> {
                &&& (#[trigger] v@[i]).1.wf()
                &&& instances@[i] matches InstanceType::String(s) && v@[i].1.args() == base.args().insert("DSN"@, s@)
                &&& v@[i].0 == instances@[i]
            },
            Err(InstanceError::InvalidInstance(inst, name)) => name@ == "Oracle"@ && exists|i: int| 0 <= i < instances@.len()
                && !(#[trigger] instances@[i] is String) && inst == instances@[i]
                && forall|j: int| 0 <= j < i ==> (#[trigger] instances@[j]) is String,
        },
{
    let mut r: Vec<(InstanceType, ConnectionString)> = Vec::new();
    let mut i: usize = 0;
    while i < instances.len()
        invariant
            i <= instances@.len(),
            base.wf(),
            r@.len() == i,
            forall|j: int| 0 <= j < i ==> (#[trigger] instances@[j]) is String,
            forall|j: int| 0 <= j < i ==> {
                &&& (#[trigger] r@[j]).1.wf()
                &&& instances@[j] matches InstanceType::String(s) && r@[j].1.args() == base.args().insert("DSN"@, s@)
                &&& r@[j].0 == instances@[j]
            },
        decreases instances.len() - i,
    {
        match &instances[i] {
            InstanceType::String(s) => {
                let cs = base.copy().with_arg("DSN", s.clone());
                r.push((instances[i].copy(), cs));
            },
            _ => {
                return Err(InstanceError::InvalidInstance(instances[i].copy(), String::from_str("Oracle")));
            },
        }
        i = i + 1;
    }
    Ok(r)
}

} // verus!
