//! The row of a machine: which property each field reads, and its value.

use vstd::prelude::*;

use crate::common::data::{Data, DataError, DataErrorV, ValueV, data_view};
use vstd::string::StringExecFns;
use super::response::{CitrixMonitorData, CitrixMonitorMachineProperties, CurrentLoadIndexProperties, Link, Value, bool_data, int_data, int_enum_data, ip_data, opt_time_data, prop_int_data, prop_time_data, prop_uuid_data, text_data, time_data, uuid_data};

verus! {

/// The choices of an enumerated field.
pub enum ValueTypes {
    String(Vec<String>),
    Integer(Vec<(i64, String)>),
}

/// A field of a table: the property it reads, and its choices when it is
/// an enumeration.
pub struct FieldSpec {
    pub parameter_header: String,
    pub values: Option<ValueTypes>,
}

/// A table: the command that yields it.
pub struct TableSpec {
    pub command_name: String,
    pub command_line: String,
}

/// Why a table could not be read.
pub enum XenappError {
    /// The machine's load index was not expanded in the feed.
    PropertyNotExpanded,
    /// The table's command is not known (the command line).
    CommandNotFound(String),
}

/// The commands that yield a table.
pub enum Command {
    /// The machine feed of the monitor service.
    MonitorMachine,
}

/// The command of a table, by its name.
pub fn command_of(t: &TableSpec) -> (r: Result<Command, XenappError>)
    ensures
        match r {
            Ok(Command::MonitorMachine) => t.command_name@ == "Monitor.Model.V2.Machine"@,
            Err(XenappError::CommandNotFound(l)) => t.command_name@ != "Monitor.Model.V2.Machine"@ && l@ == t.command_line@,
            Err(XenappError::PropertyNotExpanded) => false,
        },
{
    let name = String::from_str("Monitor.Model.V2.Machine");
    if t.command_name == name {
        Ok(Command::MonitorMachine)
    } else {
        Err(XenappError::CommandNotFound(t.command_line.clone()))
    }
}

/// The properties that a field can read.
#[derive(Clone, Copy, PartialEq, Eq, Structural)]
pub enum MachineColumn {
    LoadId,
    EffectiveLoadIndex,
    Cpu,
    Memory,
    Disk,
    Network,
    SessionCount,
    LoadMachineId,
    LoadCreatedDate,
    Machine,
    Sid,
    Name,
    DnsName,
    LifecycleState,
    IpAddress,
    HostedMachineId,
    HostingServerName,
    HostedMachineName,
    IsAssigned,
    IsInMaintenanceMode,
    IsPendingUpdate,
    AgentVersion,
    AssociatedUserFullNames,
    AssociatedUserNames,
    AssociatedUserUpns,
    CurrentRegistrationState,
    LastDeregisteredCode,
    CurrentPowerState,
    CurrentSessionCount,
    ControllerDnsName,
    FunctionalLevel,
    WindowsConnectionSetting,
    IsPreparing,
    FaultState,
    OsType,
    CurrentLoadIndexId,
    CatalogId,
    DesktopGroupId,
    HypervisorId,
    Hash,
    MachineRole,
    RegistrationStateChangeDate,
    LastDeregisteredDate,
    PoweredOnDate,
    PowerStateChangeDate,
    FailureDate,
    MachineCreatedDate,
    ModifiedDate,
}

/// The property that a field header names.
pub open spec fn column_of(h: Seq<char>) -> Option<MachineColumn> {
    if h == "id"@ {
        Some(MachineColumn::LoadId)
    } else if h == "effective_load_index"@ {
        Some(MachineColumn::EffectiveLoadIndex)
    } else if h == "cpu"@ {
        Some(MachineColumn::Cpu)
    } else if h == "memory"@ {
        Some(MachineColumn::Memory)
    } else if h == "disk"@ {
        Some(MachineColumn::Disk)
    } else if h == "network"@ {
        Some(MachineColumn::Network)
    } else if h == "session_count"@ {
        Some(MachineColumn::SessionCount)
    } else if h == "machine_id"@ {
        Some(MachineColumn::LoadMachineId)
    } else if h == "created_date"@ {
        Some(MachineColumn::LoadCreatedDate)
    } else if h == "machine"@ {
        Some(MachineColumn::Machine)
    } else if h == "sid"@ {
        Some(MachineColumn::Sid)
    } else if h == "name"@ {
        Some(MachineColumn::Name)
    } else if h == "dns_name"@ {
        Some(MachineColumn::DnsName)
    } else if h == "lifecycle_state"@ {
        Some(MachineColumn::LifecycleState)
    } else if h == "ip_address"@ {
        Some(MachineColumn::IpAddress)
    } else if h == "hosted_machine_id"@ {
        Some(MachineColumn::HostedMachineId)
    } else if h == "hosting_server_name"@ {
        Some(MachineColumn::HostingServerName)
    } else if h == "hosted_machine_name"@ {
        Some(MachineColumn::HostedMachineName)
    } else if h == "is_assigned"@ {
        Some(MachineColumn::IsAssigned)
    } else if h == "is_in_maintenance_mode"@ {
        Some(MachineColumn::IsInMaintenanceMode)
    } else if h == "is_pending_update"@ {
        Some(MachineColumn::IsPendingUpdate)
    } else if h == "agent_version"@ {
        Some(MachineColumn::AgentVersion)
    } else if h == "associated_user_full_names"@ {
        Some(MachineColumn::AssociatedUserFullNames)
    } else if h == "associated_user_names"@ {
        Some(MachineColumn::AssociatedUserNames)
    } else if h == "associated_user_upns"@ {
        Some(MachineColumn::AssociatedUserUpns)
    } else if h == "current_registration_state"@ {
        Some(MachineColumn::CurrentRegistrationState)
    } else if h == "last_deregistered_code"@ {
        Some(MachineColumn::LastDeregisteredCode)
    } else if h == "current_power_state"@ {
        Some(MachineColumn::CurrentPowerState)
    } else if h == "current_session_count"@ {
        Some(MachineColumn::CurrentSessionCount)
    } else if h == "controller_dns_name"@ {
        Some(MachineColumn::ControllerDnsName)
    } else if h == "functional_level"@ {
        Some(MachineColumn::FunctionalLevel)
    } else if h == "windows_connection_setting"@ {
        Some(MachineColumn::WindowsConnectionSetting)
    } else if h == "is_preparing"@ {
        Some(MachineColumn::IsPreparing)
    } else if h == "fault_state"@ {
        Some(MachineColumn::FaultState)
    } else if h == "os_type"@ {
        Some(MachineColumn::OsType)
    } else if h == "current_load_index_id"@ {
        Some(MachineColumn::CurrentLoadIndexId)
    } else if h == "catalog_id"@ {
        Some(MachineColumn::CatalogId)
    } else if h == "desktop_group_id"@ {
        Some(MachineColumn::DesktopGroupId)
    } else if h == "hypervisor_id"@ {
        Some(MachineColumn::HypervisorId)
    } else if h == "hash"@ {
        Some(MachineColumn::Hash)
    } else if h == "machine_role"@ {
        Some(MachineColumn::MachineRole)
    } else if h == "registration_state_change_date"@ {
        Some(MachineColumn::RegistrationStateChangeDate)
    } else if h == "last_deregistered_date"@ {
        Some(MachineColumn::LastDeregisteredDate)
    } else if h == "powered_on_date"@ {
        Some(MachineColumn::PoweredOnDate)
    } else if h == "power_state_change_date"@ {
        Some(MachineColumn::PowerStateChangeDate)
    } else if h == "failure_date"@ {
        Some(MachineColumn::FailureDate)
    } else if h == "machine_created_date"@ {
        Some(MachineColumn::MachineCreatedDate)
    } else if h == "modified_date"@ {
        Some(MachineColumn::ModifiedDate)
    } else {
        None
    }
}

/// The property that a field header names (see `column_of`).
pub fn column_for(h: &String) -> (r: Option<MachineColumn>)
    ensures
        r == column_of(h@),
{
    if *h == String::from_str("id") {
        return Some(MachineColumn::LoadId);
    }
    if *h == String::from_str("effective_load_index") {
        return Some(MachineColumn::EffectiveLoadIndex);
    }
    if *h == String::from_str("cpu") {
        return Some(MachineColumn::Cpu);
    }
    if *h == String::from_str("memory") {
        return Some(MachineColumn::Memory);
    }
    if *h == String::from_str("disk") {
        return Some(MachineColumn::Disk);
    }
    if *h == String::from_str("network") {
        return Some(MachineColumn::Network);
    }
    if *h == String::from_str("session_count") {
        return Some(MachineColumn::SessionCount);
    }
    if *h == String::from_str("machine_id") {
        return Some(MachineColumn::LoadMachineId);
    }
    if *h == String::from_str("created_date") {
        return Some(MachineColumn::LoadCreatedDate);
    }
    if *h == String::from_str("machine") {
        return Some(MachineColumn::Machine);
    }
    if *h == String::from_str("sid") {
        return Some(MachineColumn::Sid);
    }
    if *h == String::from_str("name") {
        return Some(MachineColumn::Name);
    }
    if *h == String::from_str("dns_name") {
        return Some(MachineColumn::DnsName);
    }
    if *h == String::from_str("lifecycle_state") {
        return Some(MachineColumn::LifecycleState);
    }
    if *h == String::from_str("ip_address") {
        return Some(MachineColumn::IpAddress);
    }
    if *h == String::from_str("hosted_machine_id") {
        return Some(MachineColumn::HostedMachineId);
    }
    if *h == String::from_str("hosting_server_name") {
        return Some(MachineColumn::HostingServerName);
    }
    if *h == String::from_str("hosted_machine_name") {
        return Some(MachineColumn::HostedMachineName);
    }
    if *h == String::from_str("is_assigned") {
        return Some(MachineColumn::IsAssigned);
    }
    if *h == String::from_str("is_in_maintenance_mode") {
        return Some(MachineColumn::IsInMaintenanceMode);
    }
    if *h == String::from_str("is_pending_update") {
        return Some(MachineColumn::IsPendingUpdate);
    }
    if *h == String::from_str("agent_version") {
        return Some(MachineColumn::AgentVersion);
    }
    if *h == String::from_str("associated_user_full_names") {
        return Some(MachineColumn::AssociatedUserFullNames);
    }
    if *h == String::from_str("associated_user_names") {
        return Some(MachineColumn::AssociatedUserNames);
    }
    if *h == String::from_str("associated_user_upns") {
        return Some(MachineColumn::AssociatedUserUpns);
    }
    if *h == String::from_str("current_registration_state") {
        return Some(MachineColumn::CurrentRegistrationState);
    }
    if *h == String::from_str("last_deregistered_code") {
        return Some(MachineColumn::LastDeregisteredCode);
    }
    if *h == String::from_str("current_power_state") {
        return Some(MachineColumn::CurrentPowerState);
    }
    if *h == String::from_str("current_session_count") {
        return Some(MachineColumn::CurrentSessionCount);
    }
    if *h == String::from_str("controller_dns_name") {
        return Some(MachineColumn::ControllerDnsName);
    }
    if *h == String::from_str("functional_level") {
        return Some(MachineColumn::FunctionalLevel);
    }
    if *h == String::from_str("windows_connection_setting") {
        return Some(MachineColumn::WindowsConnectionSetting);
    }
    if *h == String::from_str("is_preparing") {
        return Some(MachineColumn::IsPreparing);
    }
    if *h == String::from_str("fault_state") {
        return Some(MachineColumn::FaultState);
    }
    if *h == String::from_str("os_type") {
        return Some(MachineColumn::OsType);
    }
    if *h == String::from_str("current_load_index_id") {
        return Some(MachineColumn::CurrentLoadIndexId);
    }
    if *h == String::from_str("catalog_id") {
        return Some(MachineColumn::CatalogId);
    }
    if *h == String::from_str("desktop_group_id") {
        return Some(MachineColumn::DesktopGroupId);
    }
    if *h == String::from_str("hypervisor_id") {
        return Some(MachineColumn::HypervisorId);
    }
    if *h == String::from_str("hash") {
        return Some(MachineColumn::Hash);
    }
    if *h == String::from_str("machine_role") {
        return Some(MachineColumn::MachineRole);
    }
    if *h == String::from_str("registration_state_change_date") {
        return Some(MachineColumn::RegistrationStateChangeDate);
    }
    if *h == String::from_str("last_deregistered_date") {
        return Some(MachineColumn::LastDeregisteredDate);
    }
    if *h == String::from_str("powered_on_date") {
        return Some(MachineColumn::PoweredOnDate);
    }
    if *h == String::from_str("power_state_change_date") {
        return Some(MachineColumn::PowerStateChangeDate);
    }
    if *h == String::from_str("failure_date") {
        return Some(MachineColumn::FailureDate);
    }
    if *h == String::from_str("machine_created_date") {
        return Some(MachineColumn::MachineCreatedDate);
    }
    if *h == String::from_str("modified_date") {
        return Some(MachineColumn::ModifiedDate);
    }
    None
}

/// The value of an integer property read with the field's choices: the
/// plain integer without choices, the member of an integer enumeration,
/// an error for text choices.
pub open spec fn enum_data(v: Value<i64>, values: Option<ValueTypes>) -> Result<ValueV, DataErrorV> {
    match values {
        None => int_data(v),
        Some(ValueTypes::String(_)) => Err(DataErrorV::External("string values found for int enum"@)),
        Some(ValueTypes::Integer(cs)) => int_enum_data(v, cs@),
    }
}

fn enum_value(v: &Value<i64>, values: &Option<ValueTypes>) -> (r: Data)
    ensures
        data_view(r) == enum_data(*v, *values),
{
    match values {
        None => v.to_value(),
        Some(ValueTypes::String(_)) => Err(DataError::External(String::from_str("string values found for int enum"))),
        Some(ValueTypes::Integer(cs)) => v.to_intenum(cs),
    }
}

/// The value of a property of the load index or the machine.
pub open spec fn column_data(c: MachineColumn, load: CurrentLoadIndexProperties, m: CitrixMonitorMachineProperties, values: Option<ValueTypes>) -> Result<ValueV, DataErrorV> {
    match c {
        MachineColumn::LoadId => prop_int_data(load.effective_load_index),
        MachineColumn::EffectiveLoadIndex => prop_int_data(load.effective_load_index),
        MachineColumn::Cpu => prop_int_data(load.cpu),
        MachineColumn::Memory => prop_int_data(load.memory),
        MachineColumn::Disk => prop_int_data(load.disk),
        MachineColumn::Network => prop_int_data(load.network),
        MachineColumn::SessionCount => prop_int_data(load.session_count),
        MachineColumn::LoadMachineId => prop_uuid_data(load.machine_id),
        MachineColumn::LoadCreatedDate => prop_time_data(load.created_date),
        MachineColumn::Machine => uuid_data(m.id),
        MachineColumn::Sid => text_data(m.sid),
        MachineColumn::Name => text_data(m.name),
        MachineColumn::DnsName => text_data(m.dns_name),
        MachineColumn::LifecycleState => enum_data(m.lifecycle_state, values),
        MachineColumn::IpAddress => ip_data(m.ip_address),
        MachineColumn::HostedMachineId => uuid_data(m.hosted_machine_id),
        MachineColumn::HostingServerName => text_data(m.hosting_server_name),
        MachineColumn::HostedMachineName => text_data(m.hosted_machine_name),
        MachineColumn::IsAssigned => bool_data(m.is_assigned),
        MachineColumn::IsInMaintenanceMode => bool_data(m.is_in_maintenance_mode),
        MachineColumn::IsPendingUpdate => bool_data(m.is_pending_update),
        MachineColumn::AgentVersion => text_data(m.agent_version),
        MachineColumn::AssociatedUserFullNames => text_data(m.associated_user_full_names),
        MachineColumn::AssociatedUserNames => text_data(m.associated_user_names),
        MachineColumn::AssociatedUserUpns => text_data(m.associated_user_upns),
        MachineColumn::CurrentRegistrationState => enum_data(m.current_registration_state, values),
        MachineColumn::LastDeregisteredCode => int_data(m.last_deregistered_code),
        MachineColumn::CurrentPowerState => int_data(m.current_power_state),
        MachineColumn::CurrentSessionCount => int_data(m.current_session_count),
        MachineColumn::ControllerDnsName => text_data(m.controller_dns_name),
        MachineColumn::FunctionalLevel => int_data(m.functional_level),
        MachineColumn::WindowsConnectionSetting => int_data(m.windows_connection_setting),
        MachineColumn::IsPreparing => bool_data(m.is_preparing),
        MachineColumn::FaultState => int_data(m.fault_state),
        MachineColumn::OsType => text_data(m.os_type),
        MachineColumn::CurrentLoadIndexId => int_data(m.current_load_index_id),
        MachineColumn::CatalogId => uuid_data(m.catalog_id),
        MachineColumn::DesktopGroupId => uuid_data(m.desktop_group_id),
        MachineColumn::HypervisorId => uuid_data(m.hypervisor_id),
        MachineColumn::Hash => text_data(m.hash),
        MachineColumn::MachineRole => enum_data(m.machine_role, values),
        MachineColumn::RegistrationStateChangeDate => time_data(m.registration_state_change_date),
        MachineColumn::LastDeregisteredDate => time_data(m.last_deregistered_date),
        MachineColumn::PoweredOnDate => time_data(m.powered_on_date),
        MachineColumn::PowerStateChangeDate => time_data(m.power_state_change_date),
        MachineColumn::FailureDate => opt_time_data(m.failure_date),
        MachineColumn::MachineCreatedDate => opt_time_data(m.created_date),
        MachineColumn::ModifiedDate => opt_time_data(m.modified_date),
    }
}

/// The value of a property (see `column_data`).
pub fn column_value(c: MachineColumn, load: &CurrentLoadIndexProperties, m: &CitrixMonitorMachineProperties, values: &Option<ValueTypes>) -> (r: Data)
    ensures
        data_view(r) == column_data(c, *load, *m, *values),
{
    match c {
        MachineColumn::LoadId => load.effective_load_index.to_value(),
        MachineColumn::EffectiveLoadIndex => load.effective_load_index.to_value(),
        MachineColumn::Cpu => load.cpu.to_value(),
        MachineColumn::Memory => load.memory.to_value(),
        MachineColumn::Disk => load.disk.to_value(),
        MachineColumn::Network => load.network.to_value(),
        MachineColumn::SessionCount => load.session_count.to_value(),
        MachineColumn::LoadMachineId => load.machine_id.to_value(),
        MachineColumn::LoadCreatedDate => load.created_date.to_value(),
        MachineColumn::Machine => m.id.to_value(),
        MachineColumn::Sid => m.sid.to_value(),
        MachineColumn::Name => m.name.to_value(),
        MachineColumn::DnsName => m.dns_name.to_value(),
        MachineColumn::LifecycleState => enum_value(&m.lifecycle_state, values),
        MachineColumn::IpAddress => m.ip_address.to_value(),
        MachineColumn::HostedMachineId => m.hosted_machine_id.to_value(),
        MachineColumn::HostingServerName => m.hosting_server_name.to_value(),
        MachineColumn::HostedMachineName => m.hosted_machine_name.to_value(),
        MachineColumn::IsAssigned => m.is_assigned.to_value(),
        MachineColumn::IsInMaintenanceMode => m.is_in_maintenance_mode.to_value(),
        MachineColumn::IsPendingUpdate => m.is_pending_update.to_value(),
        MachineColumn::AgentVersion => m.agent_version.to_value(),
        MachineColumn::AssociatedUserFullNames => m.associated_user_full_names.to_value(),
        MachineColumn::AssociatedUserNames => m.associated_user_names.to_value(),
        MachineColumn::AssociatedUserUpns => m.associated_user_upns.to_value(),
        MachineColumn::CurrentRegistrationState => enum_value(&m.current_registration_state, values),
        MachineColumn::LastDeregisteredCode => m.last_deregistered_code.to_value(),
        MachineColumn::CurrentPowerState => m.current_power_state.to_value(),
        MachineColumn::CurrentSessionCount => m.current_session_count.to_value(),
        MachineColumn::ControllerDnsName => m.controller_dns_name.to_value(),
        MachineColumn::FunctionalLevel => m.functional_level.to_value(),
        MachineColumn::WindowsConnectionSetting => m.windows_connection_setting.to_value(),
        MachineColumn::IsPreparing => m.is_preparing.to_value(),
        MachineColumn::FaultState => m.fault_state.to_value(),
        MachineColumn::OsType => m.os_type.to_value(),
        MachineColumn::CurrentLoadIndexId => m.current_load_index_id.to_value(),
        MachineColumn::CatalogId => m.catalog_id.to_value(),
        MachineColumn::DesktopGroupId => m.desktop_group_id.to_value(),
        MachineColumn::HypervisorId => m.hypervisor_id.to_value(),
        MachineColumn::Hash => m.hash.to_value(),
        MachineColumn::MachineRole => enum_value(&m.machine_role, values),
        MachineColumn::RegistrationStateChangeDate => m.registration_state_change_date.to_value(),
        MachineColumn::LastDeregisteredDate => m.last_deregistered_date.to_value(),
        MachineColumn::PoweredOnDate => m.powered_on_date.to_value(),
        MachineColumn::PowerStateChangeDate => m.power_state_change_date.to_value(),
        MachineColumn::FailureDate => m.failure_date.to_value(),
        MachineColumn::MachineCreatedDate => m.created_date.to_value(),
        MachineColumn::ModifiedDate => m.modified_date.to_value(),
    }
}

/// The load index of the feed: that of the first link that carries one
/// inline.
pub open spec fn load_of(links: Seq<Link>) -> Option<CurrentLoadIndexProperties>
    decreases links.len(),
{
    if links.len() == 0 {
        None
    } else {
        match links[0].inline {
            Some(x) => Some(x.entry.content.properties),
            None => load_of(links.drop_first()),
        }
    }
}

fn find_load(links: &Vec<Link>) -> (r: Option<&CurrentLoadIndexProperties>)
    ensures
        match r {
            Some(p) => load_of(links@) == Some(*p),
            None => load_of(links@) is None,
        },
{
    let mut i: usize = 0;
    proof {
        assert(links@.skip(0) =~= links@);
    }
    while i < links.len()
        invariant
            i <= links@.len(),
            load_of(links@) == load_of(links@.skip(i as int)),
        decreases links.len() - i,
    {
        proof {
            assert(links@.skip(i as int)[0] == links@[i as int]);
            assert(links@.skip(i as int).drop_first() =~= links@.skip(i + 1));
        }
        match &links[i].inline {
            Some(x) => return Some(&x.entry.content.properties),
            None => {},
        }
        i = i + 1;
    }
    None
}

/// The value of a field for the machine: missing when its header names no
/// property.
pub open spec fn field_data(f: FieldSpec, load: CurrentLoadIndexProperties, m: CitrixMonitorMachineProperties) -> Result<ValueV, DataErrorV> {
    match column_of(f.parameter_header@) {
        Some(c) => column_data(c, load, m, f.values),
        None => Err(DataErrorV::Missing),
    }
}

/// The row of the machine feed: the value of each field, in order; an
/// error when the feed has no expanded load index.
pub fn monitor_machine_row(data: &CitrixMonitorData, fields: &Vec<&FieldSpec>) -> (r: Result<Vec<Data>, XenappError>)
    ensures
        match r {
            Err(e) => load_of(data.entry.link@) is None && e is PropertyNotExpanded,
            Ok(row) => load_of(data.entry.link@) matches Some(load) && row@.len() == fields@.len()
                && forall|i: int| 0 <= i < fields@.len() ==> data_view(#[trigger] row@[i])
                    == field_data(*fields@[i], load, data.entry.content.properties),
        },
{
    let load = match find_load(&data.entry.link) {
        Some(l) => l,
        None => return Err(XenappError::PropertyNotExpanded),
    };
    let m = &data.entry.content.properties;
    let mut row: Vec<Data> = Vec::new();
    let mut i: usize = 0;
    while i < fields.len()
        invariant
            i <= fields@.len(),
            load_of(data.entry.link@) == Some(*load),
            *m == data.entry.content.properties,
            row@.len() == i,
            forall|j: int| 0 <= j < i ==> data_view(#[trigger] row@[j]) == field_data(*fields@[j], *load, *m),
        decreases fields.len() - i,
    {
        let f = fields[i];
        let v = match column_for(&f.parameter_header) {
            Some(c) => column_value(c, load, m, &f.values),
            None => Err(DataError::Missing),
        };
        row.push(v);
        i = i + 1;
    }
    Ok(row)
}

} // verus!

verus! {

/// Each load index column reads the load index property of its own name:
/// the field with header `cpu` gives the load's `Cpu` value (missing
/// without one), and likewise for `memory`, `disk`, `network`,
/// `session_count` and `effective_load_index` (which `id` reads too).
pub proof fn law_load_columns_read_their_property(f: FieldSpec, load: CurrentLoadIndexProperties, m: CitrixMonitorMachineProperties)
    ensures
        f.parameter_header@ == "cpu"@ ==> field_data(f, load, m) == int_value(load.cpu.value),
        f.parameter_header@ == "memory"@ ==> field_data(f, load, m) == int_value(load.memory.value),
        f.parameter_header@ == "disk"@ ==> field_data(f, load, m) == int_value(load.disk.value),
        f.parameter_header@ == "network"@ ==> field_data(f, load, m) == int_value(load.network.value),
        f.parameter_header@ == "session_count"@ ==> field_data(f, load, m) == int_value(load.session_count.value),
        f.parameter_header@ == "effective_load_index"@ ==> field_data(f, load, m) == int_value(load.effective_load_index.value),
        f.parameter_header@ == "id"@ ==> field_data(f, load, m) == int_value(load.effective_load_index.value),
{
    reveal_strlit("cpu");
    reveal_strlit("memory");
    reveal_strlit("disk");
    reveal_strlit("network");
    reveal_strlit("session_count");
    reveal_strlit("effective_load_index");
    reveal_strlit("id");
    let h = f.parameter_header@;
    assert("id"@.len() == 2 && "effective_load_index"@.len() == 20 && "cpu"@.len() == 3 && "memory"@.len() == 6);
    assert("disk"@.len() == 4 && "network"@.len() == 7 && "session_count"@.len() == 13);
    if h == "cpu"@ {
        assert(h != "id"@ && h != "effective_load_index"@);
    } else if h == "memory"@ {
        assert(h != "id"@ && h != "effective_load_index"@ && h != "cpu"@);
    } else if h == "disk"@ {
        assert(h != "id"@ && h != "effective_load_index"@ && h != "cpu"@ && h != "memory"@);
    } else if h == "network"@ {
        assert(h != "id"@ && h != "effective_load_index"@ && h != "cpu"@ && h != "memory"@ && h != "disk"@);
    } else if h == "session_count"@ {
        assert(h != "id"@ && h != "effective_load_index"@ && h != "cpu"@ && h != "memory"@ && h != "disk"@ && h != "network"@);
    } else if h == "effective_load_index"@ {
        assert(h != "id"@);
    }
}

/// An integer property as a datum: its value, or missing.
pub open spec fn int_value(v: Option<i64>) -> Result<ValueV, DataErrorV> {
    match v {
        Some(x) => Ok(ValueV::Integer(x as int)),
        None => Err(DataErrorV::Missing),
    }
}

proof fn lemma_machine_header_name(f: FieldSpec, load: CurrentLoadIndexProperties, m: CitrixMonitorMachineProperties)
    ensures
        f.parameter_header@ == "name"@ ==> field_data(f, load, m) == Ok::<ValueV, DataErrorV>(ValueV::UnicodeString(m.name.inner@)),
{
    reveal_strlit("name");
    reveal_strlit("id");
    reveal_strlit("effective_load_index");
    reveal_strlit("cpu");
    reveal_strlit("memory");
    reveal_strlit("disk");
    reveal_strlit("network");
    reveal_strlit("session_count");
    reveal_strlit("machine_id");
    reveal_strlit("created_date");
    reveal_strlit("machine");
    reveal_strlit("sid");
    assert("name"@.len() != "id"@.len());
    assert("name"@.len() != "effective_load_index"@.len());
    assert("name"@.len() != "cpu"@.len());
    assert("name"@.len() != "memory"@.len());
    assert("name"@[0] != "disk"@[0]);
    assert("name"@.len() != "network"@.len());
    assert("name"@.len() != "session_count"@.len());
    assert("name"@.len() != "machine_id"@.len());
    assert("name"@.len() != "created_date"@.len());
    assert("name"@.len() != "machine"@.len());
    assert("name"@.len() != "sid"@.len());
}

proof fn lemma_machine_header_dns_name(f: FieldSpec, load: CurrentLoadIndexProperties, m: CitrixMonitorMachineProperties)
    ensures
        f.parameter_header@ == "dns_name"@ ==> field_data(f, load, m) == Ok::<ValueV, DataErrorV>(ValueV::UnicodeString(m.dns_name.inner@)),
{
    reveal_strlit("dns_name");
    reveal_strlit("id");
    reveal_strlit("effective_load_index");
    reveal_strlit("cpu");
    reveal_strlit("memory");
    reveal_strlit("disk");
    reveal_strlit("network");
    reveal_strlit("session_count");
    reveal_strlit("machine_id");
    reveal_strlit("created_date");
    reveal_strlit("machine");
    reveal_strlit("sid");
    reveal_strlit("name");
    assert("dns_name"@.len() != "id"@.len());
    assert("dns_name"@.len() != "effective_load_index"@.len());
    assert("dns_name"@.len() != "cpu"@.len());
    assert("dns_name"@.len() != "memory"@.len());
    assert("dns_name"@.len() != "disk"@.len());
    assert("dns_name"@.len() != "network"@.len());
    assert("dns_name"@.len() != "session_count"@.len());
    assert("dns_name"@.len() != "machine_id"@.len());
    assert("dns_name"@.len() != "created_date"@.len());
    assert("dns_name"@.len() != "machine"@.len());
    assert("dns_name"@.len() != "sid"@.len());
    assert("dns_name"@.len() != "name"@.len());
}

proof fn lemma_machine_header_sid(f: FieldSpec, load: CurrentLoadIndexProperties, m: CitrixMonitorMachineProperties)
    ensures
        f.parameter_header@ == "sid"@ ==> field_data(f, load, m) == Ok::<ValueV, DataErrorV>(ValueV::UnicodeString(m.sid.inner@)),
{
    reveal_strlit("sid");
    reveal_strlit("id");
    reveal_strlit("effective_load_index");
    reveal_strlit("cpu");
    reveal_strlit("memory");
    reveal_strlit("disk");
    reveal_strlit("network");
    reveal_strlit("session_count");
    reveal_strlit("machine_id");
    reveal_strlit("created_date");
    reveal_strlit("machine");
    assert("sid"@.len() != "id"@.len());
    assert("sid"@.len() != "effective_load_index"@.len());
    assert("sid"@[0] != "cpu"@[0]);
    assert("sid"@.len() != "memory"@.len());
    assert("sid"@.len() != "disk"@.len());
    assert("sid"@.len() != "network"@.len());
    assert("sid"@.len() != "session_count"@.len());
    assert("sid"@.len() != "machine_id"@.len());
    assert("sid"@.len() != "created_date"@.len());
    assert("sid"@.len() != "machine"@.len());
}

proof fn lemma_machine_header_machine(f: FieldSpec, load: CurrentLoadIndexProperties, m: CitrixMonitorMachineProperties)
    ensures
        f.parameter_header@ == "machine"@ ==> field_data(f, load, m) == uuid_data(m.id),
{
    reveal_strlit("machine");
    reveal_strlit("id");
    reveal_strlit("effective_load_index");
    reveal_strlit("cpu");
    reveal_strlit("memory");
    reveal_strlit("disk");
    reveal_strlit("network");
    reveal_strlit("session_count");
    reveal_strlit("machine_id");
    reveal_strlit("created_date");
    assert("machine"@.len() != "id"@.len());
    assert("machine"@.len() != "effective_load_index"@.len());
    assert("machine"@.len() != "cpu"@.len());
    assert("machine"@.len() != "memory"@.len());
    assert("machine"@.len() != "disk"@.len());
    assert("machine"@[0] != "network"@[0]);
    assert("machine"@.len() != "session_count"@.len());
    assert("machine"@.len() != "machine_id"@.len());
    assert("machine"@.len() != "created_date"@.len());
}

proof fn lemma_machine_header_ip_address(f: FieldSpec, load: CurrentLoadIndexProperties, m: CitrixMonitorMachineProperties)
    ensures
        f.parameter_header@ == "ip_address"@ ==> field_data(f, load, m) == ip_data(m.ip_address),
{
    reveal_strlit("ip_address");
    reveal_strlit("id");
    reveal_strlit("effective_load_index");
    reveal_strlit("cpu");
    reveal_strlit("memory");
    reveal_strlit("disk");
    reveal_strlit("network");
    reveal_strlit("session_count");
    reveal_strlit("machine_id");
    reveal_strlit("created_date");
    reveal_strlit("machine");
    reveal_strlit("sid");
    reveal_strlit("name");
    reveal_strlit("dns_name");
    reveal_strlit("lifecycle_state");
    assert("ip_address"@.len() != "id"@.len());
    assert("ip_address"@.len() != "effective_load_index"@.len());
    assert("ip_address"@.len() != "cpu"@.len());
    assert("ip_address"@.len() != "memory"@.len());
    assert("ip_address"@.len() != "disk"@.len());
    assert("ip_address"@.len() != "network"@.len());
    assert("ip_address"@.len() != "session_count"@.len());
    assert("ip_address"@[0] != "machine_id"@[0]);
    assert("ip_address"@.len() != "created_date"@.len());
    assert("ip_address"@.len() != "machine"@.len());
    assert("ip_address"@.len() != "sid"@.len());
    assert("ip_address"@.len() != "name"@.len());
    assert("ip_address"@.len() != "dns_name"@.len());
    assert("ip_address"@.len() != "lifecycle_state"@.len());
}

/// The machine's own columns read the machine's properties of the same
/// name: `name`, `dns_name` and `sid` give those texts, `machine` the
/// machine's id as UUID text, `ip_address` its address.
pub proof fn law_machine_columns_read_their_property(f: FieldSpec, load: CurrentLoadIndexProperties, m: CitrixMonitorMachineProperties)
    ensures
        f.parameter_header@ == "name"@ ==> field_data(f, load, m) == Ok::<ValueV, DataErrorV>(ValueV::UnicodeString(m.name.inner@)),
        f.parameter_header@ == "dns_name"@ ==> field_data(f, load, m) == Ok::<ValueV, DataErrorV>(ValueV::UnicodeString(m.dns_name.inner@)),
        f.parameter_header@ == "sid"@ ==> field_data(f, load, m) == Ok::<ValueV, DataErrorV>(ValueV::UnicodeString(m.sid.inner@)),
        f.parameter_header@ == "machine"@ ==> field_data(f, load, m) == uuid_data(m.id),
        f.parameter_header@ == "ip_address"@ ==> field_data(f, load, m) == ip_data(m.ip_address),
{
    lemma_machine_header_name(f, load, m);
    lemma_machine_header_dns_name(f, load, m);
    lemma_machine_header_sid(f, load, m);
    lemma_machine_header_machine(f, load, m);
    lemma_machine_header_ip_address(f, load, m);
}

} // verus!


