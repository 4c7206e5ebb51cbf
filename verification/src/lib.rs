//! Verified core of a set of monitoring protocol plugins (SNMP, SQL, WMI,
//! PowerShell, SSH, REST, Azure and a Citrix director API).

pub mod azure;
pub mod common;
pub mod powershell;
pub mod rest;
pub mod snmp;
pub mod sql;
pub mod ssh;
pub mod wmi;
pub mod xenapp;
