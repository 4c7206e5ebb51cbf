# agent_protocols

The decision logic of a set of monitoring protocol plugins (SNMP, SQL,
WMI, PowerShell, SSH, REST, Azure Monitor and Citrix XenApp Director),
written in Verus and proved against its contracts.

- `src/` is the verified library, one module per protocol and `common/`
  for values, text utilities, string-keyed maps, JSON documents and the
  calls into `chrono`, `chrono-tz`, `regex` and `serde_json`.
  The plugins' network sessions, files and processes stay outside it: the
  library plans requests, reads replies and builds rows from plain values.
- `app/` holds what runs around the library: state files, conversions
  from outside crates' types, and floating point arithmetic.
- `tests/` runs the library on concrete values.

