//! The documents of the Citrix Monitor service: an OData feed of a machine
//! with its current load index expanded. A point in time is held as
//! seconds and nanoseconds since the UNIX epoch.

use vstd::prelude::*;

use crate::common::data::{Data, DataError, DataErrorV, Value as DataValue, ValueV, data_view};
use crate::common::search::{find_first, find_text};
use crate::common::text::{chars_of, push_str, string_from_chars, signed_decimal, push_signed_decimal};
use crate::common::time::{parse_rfc3339, rfc3339_instant};
use vstd::string::{StringExecFns, StrSliceExecFns};
use vstd::utf8::encode_utf8;

verus! {

/// A value given as element content.
pub struct Value<T> {
    pub inner: T,
}

/// A typed property that may be null.
pub struct Property<T> {
    pub null: bool,
    pub typ: String,
    pub value: Option<T>,
}

/// A UUID, by its 128-bit value (most significant byte first).
#[derive(Clone, Copy, PartialEq, Eq, Structural)]
pub struct Uuid(pub u128);

/// An IP address.
#[derive(Clone, Copy)]
pub enum IpAddress {
    V4([u8; 4]),
    V6([u16; 8]),
}

/// A point in time (seconds and nanoseconds since the UNIX epoch).
#[derive(Clone, Copy)]
pub struct DateTime(pub (i64, u32));

/// The lower-case hexadecimal digit of a value below 16.
pub open spec fn hex_digit(d: nat) -> char {
    if d < 10 { ((d + 48) as u8) as char } else { ((d + 87) as u8) as char }
}

/// The `n` lower-case hexadecimal digits of `v`, most significant first.
pub open spec fn hex_digits(v: nat, n: nat) -> Seq<char>
    decreases n,
{
    if n == 0 {
        Seq::empty()
    } else {
        hex_digits(v / 16, (n - 1) as nat).push(hex_digit(v % 16))
    }
}

/// The hyphenated lower-case text of a UUID: 32 hexadecimal digits in
/// groups of 8, 4, 4, 4 and 12.
pub open spec fn uuid_text(v: u128) -> Seq<char> {
    let h = hex_digits(v as nat, 32);
    h.subrange(0, 8) + "-"@ + h.subrange(8, 12) + "-"@ + h.subrange(12, 16) + "-"@ + h.subrange(16, 20) + "-"@ + h.subrange(20, 32)
}

proof fn lemma_hex_digits_len(v: nat, n: nat)
    ensures
        hex_digits(v, n).len() == n,
    decreases n,
{
    if n > 0 {
        lemma_hex_digits_len(v / 16, (n - 1) as nat);
    }
}

/// The lower-case hexadecimal digit of a value below 16.
fn hex_char(d: u128) -> (c: char)
    requires
        d < 16,
    ensures
        c == hex_digit(d as nat),
{
    if d < 10 {
        ((d as u8) + 48) as char
    } else {
        ((d as u8) + 87) as char
    }
}

/// The text of a UUID in its hyphenated lower-case form (see `uuid_text`).
pub(crate) fn uuid_string(v: u128) -> (r: String)
    ensures
        r@ == uuid_text(v),
{
    let mut digits: Vec<char> = Vec::new();
    let mut x: u128 = v;
    let mut k: usize = 0;
    proof {
        assert(hex_digits(v as nat, 32) =~= hex_digits(x as nat, 32) + digits@);
    }
    while k < 32
        invariant
            k <= 32,
            hex_digits(v as nat, 32) == hex_digits(x as nat, (32 - k) as nat) + digits@,
        decreases 32 - k,
    {
        let d = x % 16;
        let c = hex_char(d);
        let ghost d0 = digits@;
        proof {
            let m = (32 - k - 1) as nat;
            assert(hex_digits(x as nat, (m + 1) as nat) == hex_digits((x as nat) / 16, m).push(hex_digit((x as nat) % 16)));
            assert(hex_digits((x as nat) / 16, m).push(c) + d0 =~= hex_digits((x as nat) / 16, m) + seq![c].add(d0));
        }
        digits.insert(0, c);
        proof {
            assert(digits@ =~= seq![c].add(d0));
        }
        x = x / 16;
        k = k + 1;
    }
    let ghost h = digits@;
    proof {
        assert(hex_digits(x as nat, 0) =~= Seq::<char>::empty());
        assert(h =~= hex_digits(v as nat, 32));
        lemma_hex_digits_len(v as nat, 32);
    }
    digits.insert(8, '-');
    digits.insert(13, '-');
    digits.insert(18, '-');
    digits.insert(23, '-');
    proof {
        reveal_strlit("-");
        assert(digits@ =~= h.subrange(0, 8) + "-"@ + h.subrange(8, 12) + "-"@ + h.subrange(12, 16) + "-"@
            + h.subrange(16, 20) + "-"@ + h.subrange(20, 32));
    }
    string_from_chars(digits.as_slice())
}

/// The value of a text property.
pub open spec fn text_data(v: Value<String>) -> Result<ValueV, DataErrorV> {
    Ok(ValueV::UnicodeString(v.inner@))
}

/// The value of an integer property.
pub open spec fn int_data(v: Value<i64>) -> Result<ValueV, DataErrorV> {
    Ok(ValueV::Integer(v.inner as int))
}

/// The value of a boolean property.
pub open spec fn bool_data(v: Value<bool>) -> Result<ValueV, DataErrorV> {
    Ok(ValueV::Boolean(v.inner))
}

/// The value of a UUID property: its text.
pub open spec fn uuid_data(v: Value<Uuid>) -> Result<ValueV, DataErrorV> {
    Ok(ValueV::UnicodeString(uuid_text(v.inner.0)))
}

/// The value of an address property.
pub open spec fn ip_data(v: Value<IpAddress>) -> Result<ValueV, DataErrorV> {
    match v.inner {
        IpAddress::V4(a) => Ok(ValueV::Ipv4Address(a@)),
        IpAddress::V6(a) => Ok(ValueV::Ipv6Address(a@)),
    }
}

/// The value of a time property.
pub open spec fn time_data(v: Value<DateTime>) -> Result<ValueV, DataErrorV> {
    Ok(ValueV::Time(v.inner.0.0 as int, v.inner.0.1 as int))
}

/// The value of an optional time property: missing when absent.
pub open spec fn opt_time_data(v: Value<Option<DateTime>>) -> Result<ValueV, DataErrorV> {
    match v.inner {
        Some(t) => Ok(ValueV::Time(t.0.0 as int, t.0.1 as int)),
        None => Err(DataErrorV::Missing),
    }
}

/// The value of an integer property that stands for a member of an
/// integer enumeration: the member when it is one of the choices, else
/// the invalid choice.
pub open spec fn int_enum_data(v: Value<i64>, choices: Seq<(i64, String)>) -> Result<ValueV, DataErrorV> {
    if exists|i: int| 0 <= i < choices.len() && (#[trigger] choices[i]).0 == v.inner {
        Ok(ValueV::IntEnum(v.inner as int))
    } else {
        Err(DataErrorV::InvalidChoice(signed_decimal(v.inner as int)))
    }
}

/// The value of a nullable integer property: missing when null.
pub open spec fn prop_int_data(p: Property<i64>) -> Result<ValueV, DataErrorV> {
    match p.value {
        Some(x) => Ok(ValueV::Integer(x as int)),
        None => Err(DataErrorV::Missing),
    }
}

/// The value of a nullable UUID property: its text, missing when null.
pub open spec fn prop_uuid_data(p: Property<Uuid>) -> Result<ValueV, DataErrorV> {
    match p.value {
        Some(u) => Ok(ValueV::UnicodeString(uuid_text(u.0))),
        None => Err(DataErrorV::Missing),
    }
}

/// The value of a nullable time property: missing when null.
pub open spec fn prop_time_data(p: Property<DateTime>) -> Result<ValueV, DataErrorV> {
    match p.value {
        Some(t) => Ok(ValueV::Time(t.0.0 as int, t.0.1 as int)),
        None => Err(DataErrorV::Missing),
    }
}

impl Value<String> {
    /// The value of a text property (see `text_data`).
    pub fn to_value(&self) -> (r: Data)
        ensures
            data_view(r) == text_data(*self),
    {
        Ok(DataValue::UnicodeString(self.inner.clone()))
    }
}

impl Value<i64> {
    /// The value of an integer property (see `int_data`).
    pub fn to_value(&self) -> (r: Data)
        ensures
            data_view(r) == int_data(*self),
    {
        Ok(DataValue::Integer(self.inner))
    }

    /// The property as a member of an integer enumeration (see
    /// `int_enum_data`).
    pub fn to_intenum(&self, choices: &Vec<(i64, String)>) -> (r: Data)
        ensures
            data_view(r) == int_enum_data(*self, choices@),
    {
        let mut i: usize = 0;
        while i < choices.len()
            invariant
                i <= choices@.len(),
                forall|j: int| 0 <= j < i ==> (#[trigger] choices@[j]).0 != self.inner,
            decreases choices.len() - i,
        {
            if choices[i].0 == self.inner {
                return Ok(DataValue::IntEnum(self.inner));
            }
            i = i + 1;
        }
        let mut out: Vec<char> = Vec::new();
        push_signed_decimal(&mut out, self.inner);
        Err(DataError::InvalidChoice(string_from_chars(out.as_slice())))
    }
}

impl Value<bool> {
    /// The value of a boolean property (see `bool_data`).
    pub fn to_value(&self) -> (r: Data)
        ensures
            data_view(r) == bool_data(*self),
    {
        Ok(DataValue::Boolean(self.inner))
    }
}

impl Value<Uuid> {
    /// The value of a UUID property (see `uuid_data`).
    pub fn to_value(&self) -> (r: Data)
        ensures
            data_view(r) == uuid_data(*self),
    {
        Ok(DataValue::UnicodeString(uuid_string(self.inner.0)))
    }
}

impl Value<IpAddress> {
    /// The value of an address property (see `ip_data`).
    pub fn to_value(&self) -> (r: Data)
        ensures
            data_view(r) == ip_data(*self),
    {
        match self.inner {
            IpAddress::V4(a) => Ok(DataValue::Ipv4Address(a)),
            IpAddress::V6(a) => Ok(DataValue::Ipv6Address(a)),
        }
    }
}

impl Value<DateTime> {
    /// The value of a time property (see `time_data`).
    pub fn to_value(&self) -> (r: Data)
        ensures
            data_view(r) == time_data(*self),
    {
        Ok(DataValue::Time(self.inner.0.0, self.inner.0.1))
    }
}

impl Value<Option<DateTime>> {
    /// The value of an optional time property (see `opt_time_data`).
    pub fn to_value(&self) -> (r: Data)
        ensures
            data_view(r) == opt_time_data(*self),
    {
        match self.inner {
            Some(t) => Ok(DataValue::Time(t.0.0, t.0.1)),
            None => Err(DataError::Missing),
        }
    }
}

impl Property<i64> {
    /// The value of a nullable integer property (see `prop_int_data`).
    pub fn to_value(&self) -> (r: Data)
        ensures
            data_view(r) == prop_int_data(*self),
    {
        match self.value {
            Some(x) => Ok(DataValue::Integer(x)),
            None => Err(DataError::Missing),
        }
    }
}

impl Property<Uuid> {
    /// The value of a nullable UUID property (see `prop_uuid_data`).
    pub fn to_value(&self) -> (r: Data)
        ensures
            data_view(r) == prop_uuid_data(*self),
    {
        match self.value {
            Some(u) => Ok(DataValue::UnicodeString(uuid_string(u.0))),
            None => Err(DataError::Missing),
        }
    }
}

impl Property<DateTime> {
    /// The value of a nullable time property (see `prop_time_data`).
    pub fn to_value(&self) -> (r: Data)
        ensures
            data_view(r) == prop_time_data(*self),
    {
        match self.value {
            Some(t) => Ok(DataValue::Time(t.0.0, t.0.1)),
            None => Err(DataError::Missing),
        }
    }
}

/// A character that marks a time zone: `Z`, `+` or `-`.
pub open spec fn is_zone_mark(c: char) -> bool {
    c == 'Z' || c == '+' || c == '-'
}

/// Where the search for a zone mark starts: as many characters are skipped
/// as the UTF-8 text before the first `T` has bytes (none without a `T`).
pub open spec fn zone_search_start(v: Seq<char>) -> int {
    match find_text(v, seq!['T']) {
        Some(i) => encode_utf8(v.subrange(0, i)).len() as int,
        None => 0,
    }
}

/// The text has a zone mark at or after the search start.
pub open spec fn has_zone(v: Seq<char>) -> bool {
    exists|k: int| zone_search_start(v) <= k < v.len() && is_zone_mark(#[trigger] v[k])
}

/// The text that is read as RFC 3339: the text itself when it has a zone,
/// else the text with `Z` appended (the service leaves the zone out for
/// UTC).
pub open spec fn citrix_time_text(v: Seq<char>) -> Seq<char> {
    if has_zone(v) { v } else { v + "Z"@ }
}

/// The instant that a time of the service denotes (see
/// `citrix_time_text`), or the error.
pub open spec fn citrix_time(v: Seq<char>) -> Result<(i64, u32), Seq<char>> {
    match rfc3339_instant(citrix_time_text(v)) {
        Ok(t) => Ok(t),
        Err(e) => Err("parsing datetime failed: "@ + e),
    }
}

/// Reads a time of the service (see `citrix_time`).
pub fn parse_citrix_datetime(v: &str) -> (r: Result<DateTime, String>)
    ensures
        match (r, citrix_time(v@)) {
            (Ok(a), Ok(b)) => a.0 == b,
            (Err(a), Err(b)) => a@ == b,
            _ => false,
        },
{
    let cs = chars_of(v);
    let t: Vec<char> = vec!['T'];
    proof {
        assert(t@ =~= seq!['T']);
    }
    let start: usize = match find_first(cs.as_slice(), t.as_slice()) {
        Some(i) => {
            let mut prefix: Vec<char> = Vec::new();
            let mut k: usize = 0;
            while k < i
                invariant
                    i <= cs@.len(),
                    k <= i,
                    prefix@ == cs@.subrange(0, k as int),
                decreases i - k,
            {
                prefix.push(cs[k]);
                proof {
                    assert(prefix@ =~= cs@.subrange(0, k + 1));
                }
                k = k + 1;
            }
            let p = string_from_chars(prefix.as_slice());
            let ps = p.as_str();
            let bytes = ps.as_bytes_vec();
            proof {
                assert(ps@ == p@);
                assert(bytes@ == encode_utf8(v@.subrange(0, i as int)));
            }
            bytes.len()
        },
        None => 0,
    };
    let mut found = false;
    let mut k: usize = start;
    while k < cs.len()
        invariant
            start as int == zone_search_start(v@),
            cs@ == v@,
            start <= k || k == start,
            found <==> exists|q: int| start <= q < k && q < cs@.len() && is_zone_mark(#[trigger] cs@[q]),
        decreases cs.len() - k,
    {
        let c = cs[k];
        if c == 'Z' || c == '+' || c == '-' {
            found = true;
        }
        k = k + 1;
    }
    proof {
        if found {
            let q = choose|q: int| start <= q < k && q < cs@.len() && is_zone_mark(#[trigger] cs@[q]);
            assert(is_zone_mark(v@[q]));
        }
    }
    let text = if found {
        String::from_str(v)
    } else {
        let mut out = cs;
        out.push('Z');
        proof {
            reveal_strlit("Z");
        }
        string_from_chars(out.as_slice())
    };
    proof {
        if !found {
            assert(!has_zone(v@));
            assert(text@ == citrix_time_text(v@));
        } else {
            assert(has_zone(v@));
            assert(text@ == citrix_time_text(v@));
        }
    }
    match parse_rfc3339(text.as_str()) {
        Ok(t) => Ok(DateTime(t)),
        Err(e) => {
            let mut out: Vec<char> = Vec::new();
            push_str(&mut out, "parsing datetime failed: ");
            push_str(&mut out, e.as_str());
            Err(string_from_chars(out.as_slice()))
        },
    }
}

/// The feed of one machine.
pub struct CitrixMonitorData {
    pub id: Value<String>,
    pub title: Value<String>,
    pub updated: Value<DateTime>,
    pub entry: CitrixMonitorMachine,
}

/// The entry of the machine, with its links.
pub struct CitrixMonitorMachine {
    pub id: Value<String>,
    pub link: Vec<Link>,
    pub updated: Value<DateTime>,
    pub content: CitrixMonitorMachineContent,
}

/// A link of the entry; the load index link carries the expanded load
/// index inline.
pub struct Link {
    pub title: String,
    pub inline: Option<ExpandedCurrentLoadIndex>,
}

/// An expanded load index.
pub struct ExpandedCurrentLoadIndex {
    pub entry: CurrentLoadIndex,
}

/// The entry of a load index.
pub struct CurrentLoadIndex {
    pub content: CurrentLoadIndexContent,
}

/// The content of a load index.
pub struct CurrentLoadIndexContent {
    pub properties: CurrentLoadIndexProperties,
}

/// The properties of a load index.
pub struct CurrentLoadIndexProperties {
    pub id: Property<i64>,
    pub effective_load_index: Property<i64>,
    pub cpu: Property<i64>,
    pub memory: Property<i64>,
    pub disk: Property<i64>,
    pub network: Property<i64>,
    pub session_count: Property<i64>,
    pub machine_id: Property<Uuid>,
    pub created_date: Property<DateTime>,
}

/// The content of the machine entry.
pub struct CitrixMonitorMachineContent {
    pub properties: CitrixMonitorMachineProperties,
}

/// The properties of a machine.
pub struct CitrixMonitorMachineProperties {
    pub id: Value<Uuid>,
    pub sid: Value<String>,
    pub name: Value<String>,
    pub dns_name: Value<String>,
    pub lifecycle_state: Value<i64>,
    pub ip_address: Value<IpAddress>,
    pub hosted_machine_id: Value<Uuid>,
    pub hosting_server_name: Value<String>,
    pub hosted_machine_name: Value<String>,
    pub is_assigned: Value<bool>,
    pub is_in_maintenance_mode: Value<bool>,
    pub is_pending_update: Value<bool>,
    pub agent_version: Value<String>,
    pub associated_user_full_names: Value<String>,
    pub associated_user_names: Value<String>,
    pub associated_user_upns: Value<String>,
    pub current_registration_state: Value<i64>,
    pub last_deregistered_code: Value<i64>,
    pub current_power_state: Value<i64>,
    pub current_session_count: Value<i64>,
    pub controller_dns_name: Value<String>,
    pub functional_level: Value<i64>,
    pub windows_connection_setting: Value<i64>,
    pub is_preparing: Value<bool>,
    pub fault_state: Value<i64>,
    pub os_type: Value<String>,
    pub current_load_index_id: Value<i64>,
    pub catalog_id: Value<Uuid>,
    pub desktop_group_id: Value<Uuid>,
    pub hypervisor_id: Value<Uuid>,
    pub hash: Value<String>,
    pub machine_role: Value<i64>,
    pub registration_state_change_date: Value<DateTime>,
    pub last_deregistered_date: Value<DateTime>,
    pub powered_on_date: Value<DateTime>,
    pub power_state_change_date: Value<DateTime>,
    pub failure_date: Value<Option<DateTime>>,
    pub created_date: Value<Option<DateTime>>,
    pub modified_date: Value<Option<DateTime>>,
}

} // verus!
