//! The WMI input specification: tables (classes) and fields (properties),
//! and how property texts become delivered values.

use vstd::prelude::*;

use crate::common::data::{DataError, DataErrorV, FloatRepr, FloatV, Type, TypeV, Value, ValueV, choices_view, copy_choices, strings_view};
use crate::common::strmap::StrMap;
use crate::common::text::{chars_of, lower_chars, float_text, is_float_text, lower_text, parse_i64, push_str, spec_parse_int, string_from_chars, push_signed_decimal, signed_decimal};
use crate::common::time::{offset_datetime, parse_at_offset, parse_in_zone, valid_offset, zone_datetime};
use super::config::{WmiError, WmiQuircks, listed, zone_error_reason};
use super::counters::{CounterDB, WmiCounter, previous, spec_wmi_counter};
use crate::common::time::zone_known;
use vstd::string::StringExecFns;

verus! {

/// The CIM type of a property.
#[derive(Clone, Copy, PartialEq, Eq, Structural)]
pub enum WmiType {
    Integer,
    Float,
    UInt8,
    UInt16,
    UInt32,
    UInt64,
    SInt8,
    SInt16,
    SInt32,
    SInt64,
    Boolean,
    String,
    DateTime,
    Object,
    Reference,
}

/// The values of an enumerated property: integers with labels (ascending),
/// or strings.
pub enum ValueTypes {
    Integer(Vec<(i64, String)>),
    String(Vec<String>),
}

/// Plugins that post-process the instances of a class.
#[derive(Clone, Copy, PartialEq, Eq, Structural)]
pub enum InstancePlugin {
    MSSQL,
}

impl InstancePlugin {
    /// The name of the plugin.
    pub fn to_text(&self) -> (r: String)
        ensures
            r@ == "MSSQL"@,
    {
        String::from_str("MSSQL")
    }
}

/// A data table: a WMI class in a namespace.
pub struct TableSpec {
    pub namespace: String,
    pub classname: String,
    pub instance_plugin: Option<InstancePlugin>,
}

/// A data field: a property of a WMI class.
pub struct FieldSpec {
    pub property_name: String,
    pub property_type: WmiType,
    pub values: Option<ValueTypes>,
    pub is_key: bool,
    pub counter_type: Option<WmiCounter>,
    pub classname: String,
}

/// The type of the values of a field.
pub open spec fn spec_field_type(f: FieldSpec) -> TypeV {
    match f.values {
        Some(ValueTypes::Integer(vs)) => TypeV::IntEnum(choices_view(vs@)),
        Some(ValueTypes::String(vs)) => TypeV::Enum(strings_view(vs@)),
        None => match f.property_type {
            WmiType::Boolean => TypeV::Boolean,
            WmiType::DateTime => TypeV::Time,
            WmiType::String | WmiType::Object | WmiType::Reference => TypeV::UnicodeString,
            WmiType::Float => TypeV::Float,
            _ => TypeV::Integer,
        },
    }
}

/// The text is ASCII.
pub open spec fn ascii(s: Seq<char>) -> bool {
    forall|i: int| 0 <= i < s.len() ==> ((#[trigger] s[i]) as u32) < 128
}

/// Format of the date-time part of a WMI date-time.
pub open spec fn wmi_format() -> Seq<char> {
    "%Y%m%d%H%M%S.%f"@
}

/// Format of a CIM date-time.
pub open spec fn cim_format() -> Seq<char> {
    "%d/%m/%Y %H:%M:%S"@
}

/// A WMI date-time (`yyyymmddHHMMSS.ffffff` and a UTC offset in minutes),
/// read in the given time zone or else at its own offset.
pub open spec fn spec_wmidt(s: Seq<char>, tz: Option<Seq<char>>) -> Option<(i64, u32)> {
    if s.len() < 21 || !ascii(s) {
        None
    } else {
        match spec_parse_int(s.skip(21), i32::MIN as int, i32::MAX as int) {
            None => None,
            Some(o) => if !valid_offset(o * 60) {
                None
            } else {
                match tz {
                    Some(z) => zone_datetime(z, s.take(21), wmi_format()),
                    None => offset_datetime(o * 60, s.take(21), wmi_format()),
                }
            },
        }
    }
}

/// A CIM date-time (`dd/mm/yyyy HH:MM:SS`), in the given time zone or UTC.
pub open spec fn spec_cimdt(s: Seq<char>, tz: Option<Seq<char>>) -> Option<(i64, u32)> {
    zone_datetime(match tz { Some(z) => z, None => "UCT"@ }, s, cim_format())
}

/// Message for a text that is no date-time.
pub open spec fn datetime_message(s: Seq<char>) -> Seq<char> {
    "cannot parse '"@ + s + "' to a datetime"@
}

/// A date-time property: a WMI date-time, else a CIM date-time.
pub open spec fn spec_datetime(s: Seq<char>, tz: Option<Seq<char>>) -> Result<ValueV, DataErrorV> {
    match spec_wmidt(s, tz) {
        Some((a, b)) => Ok(ValueV::Time(a as int, b as int)),
        None => match spec_cimdt(s, tz) {
            Some((a, b)) => Ok(ValueV::Time(a as int, b as int)),
            None => Err(DataErrorV::TypeError(datetime_message(s))),
        },
    }
}

/// A date-time property, in the time zone of the local-as-UTC quirk when
/// it covers the property (an unknown zone is an error).
pub open spec fn spec_parse_dt(f: FieldSpec, s: Seq<char>, q: WmiQuircks) -> Result<ValueV, DataErrorV> {
    match q.local_as_utc {
        Some(l) => if listed(l, f.classname@, f.property_name@) {
            if zone_known(l.timezone@) {
                spec_datetime(s, Some(l.timezone@))
            } else {
                Err(DataErrorV::TypeError("Cannot parse timezone: Unable to parse timezone "@ + l.timezone@ + ": "@ + zone_error_reason()))
            }
        } else {
            spec_datetime(s, None)
        },
        None => spec_datetime(s, None),
    }
}

/// Message for a property text that does not read as the property's type.
pub open spec fn property_message(name: Seq<char>, value: Seq<char>, what: Seq<char>) -> Seq<char> {
    "cannot parse "@ + name + " ("@ + value + ") to "@ + what
}

/// The value of a field of an instance, and the counter sample it records
/// (see `spec_wmi_counter`): enumerations must hold one of their values;
/// counters are computed; other properties read as their CIM type.
pub open spec fn spec_parse_var(
    f: FieldSpec,
    obj: StrMap<String>,
    base_key: Seq<char>,
    prev: Option<(u64, i64)>,
    q: WmiQuircks,
    now: u64,
) -> (Result<ValueV, DataErrorV>, Option<(u64, i64)>) {
    let name = f.property_name@;
    if !obj@.contains_key(name) {
        (Err(DataErrorV::Missing), None)
    } else {
        let v = obj@[name]@;
        match f.values {
            Some(ValueTypes::Integer(vs)) => (match spec_parse_int(v, i64::MIN as int, i64::MAX as int) {
                None => Err(DataErrorV::TypeError(property_message(name, v, "an integer(enum)"@))),
                Some(x) => if exists|i: int| 0 <= i < vs@.len() && (#[trigger] vs@[i]).0 == x {
                    Ok(ValueV::IntEnum(x))
                } else {
                    Err(DataErrorV::InvalidChoice(signed_decimal(x)))
                },
            }, None),
            Some(ValueTypes::String(vs)) => (if strings_view(vs@).contains(v) {
                Ok(ValueV::Enum(v))
            } else {
                Err(DataErrorV::InvalidChoice(v))
            }, None),
            None => match f.counter_type {
                Some(c) => spec_wmi_counter(c, base_key, name, obj, prev, now),
                None => (match f.property_type {
                    WmiType::String | WmiType::Object | WmiType::Reference => Ok(ValueV::UnicodeString(v)),
                    WmiType::Boolean => if lower_text(v) == "true"@ {
                        Ok(ValueV::Boolean(true))
                    } else if lower_text(v) == "false"@ {
                        Ok(ValueV::Boolean(false))
                    } else {
                        Err(DataErrorV::TypeError(property_message(name, v, "a boolean"@)))
                    },
                    WmiType::Float => if is_float_text(v) {
                        Ok(ValueV::Float(FloatV::Text(v)))
                    } else {
                        Err(DataErrorV::TypeError(property_message(name, v, "a float"@)))
                    },
                    WmiType::DateTime => spec_parse_dt(f, v, q),
                    _ => match spec_parse_int(v, i64::MIN as int, i64::MAX as int) {
                        Some(x) => Ok(ValueV::Integer(x)),
                        None => Err(DataErrorV::TypeError(property_message(name, v, "a integer"@))),
                    },
                }, None),
            },
        }
    }
}

fn is_ascii_text(s: &[char]) -> (r: bool)
    ensures
        r == ascii(s@),
{
    let mut i: usize = 0;
    while i < s.len()
        invariant
            i <= s@.len(),
            forall|j: int| 0 <= j < i ==> ((#[trigger] s@[j]) as u32) < 128,
        decreases s.len() - i,
    {
        if (s[i] as u32) >= 128 {
            return false;
        }
        i = i + 1;
    }
    true
}

fn datetime_error(s: &str) -> (r: DataError)
    ensures
        r@ == DataErrorV::TypeError(datetime_message(s@)),
{
    let mut out: Vec<char> = Vec::new();
    push_str(&mut out, "cannot parse '");
    push_str(&mut out, s);
    push_str(&mut out, "' to a datetime");
    proof {
        assert(out@ =~= datetime_message(s@));
    }
    DataError::TypeError(string_from_chars(out.as_slice()))
}

fn property_error(name: &str, value: &str, what: &str) -> (r: DataError)
    ensures
        r@ == DataErrorV::TypeError(property_message(name@, value@, what@)),
{
    let mut out: Vec<char> = Vec::new();
    push_str(&mut out, "cannot parse ");
    push_str(&mut out, name);
    push_str(&mut out, " (");
    push_str(&mut out, value);
    push_str(&mut out, ") to ");
    push_str(&mut out, what);
    proof {
        assert(out@ =~= property_message(name@, value@, what@));
    }
    DataError::TypeError(string_from_chars(out.as_slice()))
}

fn parse_wmidt(s: &str, tz: &Option<String>) -> (r: Option<(i64, u32)>)
    ensures
        r == spec_wmidt(s@, match tz { Some(z) => Some(z@), None => None }),
{
    let cs = chars_of(s);
    if cs.len() < 21 || !is_ascii_text(cs.as_slice()) {
        return None;
    }
    let (dp, tp) = cs.as_slice().split_at(21);
    let dt_part = string_from_chars(dp);
    let tz_part = string_from_chars(tp);
    proof {
        assert(dt_part@ =~= s@.take(21));
        assert(tz_part@ =~= s@.skip(21));
    }
    let offset = match parse_i64(tz_part.as_str()) {
        Some(o) => o,
        None => return None,
    };
    if offset < -2147483648 || offset > 2147483647 {
        return None;
    }
    if offset * 60 <= -86400 || offset * 60 >= 86400 {
        return None;
    }
    let secs = (offset * 60) as i32;
    match tz {
        Some(z) => parse_in_zone(z.as_str(), dt_part.as_str(), "%Y%m%d%H%M%S.%f"),
        None => parse_at_offset(secs, dt_part.as_str(), "%Y%m%d%H%M%S.%f"),
    }
}

fn parse_datetime(s: &str, tz: &Option<String>) -> (r: Result<Value, DataError>)
    ensures
        match (r, spec_datetime(s@, match tz { Some(z) => Some(z@), None => None })) {
            (Ok(a), Ok(b)) => a@ == b,
            (Err(a), Err(b)) => a@ == b,
            _ => false,
        },
{
    match parse_wmidt(s, tz) {
        Some((a, b)) => Ok(Value::Time(a, b)),
        None => {
            let zone = match tz {
                Some(z) => z.clone(),
                None => String::from_str("UCT"),
            };
            match parse_in_zone(zone.as_str(), s, "%d/%m/%Y %H:%M:%S") {
                Some((a, b)) => Ok(Value::Time(a, b)),
                None => Err(datetime_error(s)),
            }
        },
    }
}

fn find_int(vs: &Vec<(i64, String)>, x: i64) -> (r: bool)
    ensures
        r == exists|i: int| 0 <= i < vs@.len() && (#[trigger] vs@[i]).0 == x,
{
    let mut i: usize = 0;
    while i < vs.len()
        invariant
            i <= vs@.len(),
            forall|j: int| 0 <= j < i ==> (#[trigger] vs@[j]).0 != x,
        decreases vs.len() - i,
    {
        if vs[i].0 == x {
            return true;
        }
        i = i + 1;
    }
    false
}

fn find_string(vs: &Vec<String>, v: &String) -> (r: bool)
    ensures
        r == strings_view(vs@).contains(v@),
{
    let mut i: usize = 0;
    while i < vs.len()
        invariant
            i <= vs@.len(),
            forall|j: int| 0 <= j < i ==> (#[trigger] vs@[j])@ != v@,
        decreases vs.len() - i,
    {
        if vs[i] == *v {
            proof {
                assert(strings_view(vs@)[i as int] == v@);
            }
            return true;
        }
        i = i + 1;
    }
    proof {
        let names = strings_view(vs@);
        assert forall|j: int| 0 <= j < names.len() implies #[trigger] names[j] != v@ by {
            assert(names[j] == vs@[j]@);
        }
    }
    false
}

fn copy_strings(vs: &Vec<String>) -> (r: Vec<String>)
    ensures
        strings_view(r@) == strings_view(vs@),
{
    let mut r: Vec<String> = Vec::new();
    let mut i: usize = 0;
    while i < vs.len()
        invariant
            i <= vs@.len(),
            strings_view(r@) == strings_view(vs@.take(i as int)),
        decreases vs.len() - i,
    {
        let ghost r0 = r@;
        r.push(vs[i].clone());
        proof {
            assert(strings_view(r@) =~= strings_view(r0).push(vs@[i as int]@));
            assert(strings_view(vs@.take(i + 1)) =~= strings_view(vs@.take(i as int)).push(vs@[i as int]@));
        }
        i = i + 1;
    }
    proof {
        assert(vs@.take(i as int) =~= vs@);
    }
    r
}

impl FieldSpec {
    /// The type of the values of this field.
    pub fn get_type(&self) -> (r: Type)
        ensures
            r@ == spec_field_type(*self),
    {
        match &self.values {
            Some(ValueTypes::Integer(vs)) => Type::IntEnum(copy_choices(vs)),
            Some(ValueTypes::String(vs)) => Type::Enum(copy_strings(vs)),
            None => match self.property_type {
                WmiType::Boolean => Type::Boolean,
                WmiType::DateTime => Type::Time,
                WmiType::String | WmiType::Object | WmiType::Reference => Type::UnicodeString,
                WmiType::Float => Type::Float,
                _ => Type::Integer,
            },
        }
    }

    /// A date-time property (see `spec_parse_dt`).
    fn parse_dt(&self, s: &String, quircks: &WmiQuircks) -> (r: Result<Value, DataError>)
        ensures
            match (r, spec_parse_dt(*self, s@, *quircks)) {
                (Ok(a), Ok(b)) => a@ == b,
                (Err(a), Err(b)) => a@ == b,
                _ => false,
            },
    {
        let tz: Option<String> = match quircks.get_tz(&self.classname, &self.property_name) {
            None => None,
            Some(Ok(z)) => Some(z),
            Some(Err(WmiError::TimeZoneParse(name, reason))) => {
                let mut out: Vec<char> = Vec::new();
                push_str(&mut out, "Cannot parse timezone: Unable to parse timezone ");
                push_str(&mut out, name.as_str());
                push_str(&mut out, ": ");
                push_str(&mut out, reason.as_str());
                proof {
                    assert(out@ =~= "Cannot parse timezone: Unable to parse timezone "@ + name@ + ": "@ + reason@);
                }
                return Err(DataError::TypeError(string_from_chars(out.as_slice())));
            },
        };
        parse_datetime(s.as_str(), &tz)
    }

    /// The value of this field in an instance (see `spec_parse_var`); a
    /// counter sample goes to the counter store under the counter's key.
    pub fn parse_var(&self, wmi_obj: &StrMap<String>, counter_db: &mut CounterDB, base_key: &String, quircks: &WmiQuircks, now: u64) -> (r: Result<Value, DataError>)
        ensures
            ({
                let key = base_key@ + "_"@ + self.property_name@;
                let (val, rec) = spec_parse_var(*self, *wmi_obj, base_key@, previous(*old(counter_db), key), *quircks, now);
                &&& final(counter_db).old_state@ == old(counter_db).old_state@
                &&& match rec {
                    Some(x) => final(counter_db).new_state@ == old(counter_db).new_state@.insert(key, x),
                    None => final(counter_db).new_state@ == old(counter_db).new_state@,
                }
                &&& match (r, val) {
                    (Ok(a), Ok(b)) => a@ == b,
                    (Err(a), Err(b)) => a@ == b,
                    _ => false,
                }
            }),
    {
        let v = match wmi_obj.get(&self.property_name) {
            Some(v) => v,
            None => return Err(DataError::Missing),
        };
        match &self.values {
            Some(ValueTypes::Integer(vs)) => match parse_i64(v.as_str()) {
                None => Err(property_error(self.property_name.as_str(), v.as_str(), "an integer(enum)")),
                Some(x) => if find_int(vs, x) {
                    Ok(Value::IntEnum(x))
                } else {
                    let mut out: Vec<char> = Vec::new();
                    push_signed_decimal(&mut out, x);
                    Err(DataError::InvalidChoice(string_from_chars(out.as_slice())))
                },
            },
            Some(ValueTypes::String(vs)) => if find_string(vs, v) {
                Ok(Value::Enum(v.clone()))
            } else {
                Err(DataError::InvalidChoice(v.clone()))
            },
            None => match self.counter_type {
                Some(c) => c.get_wmi_counter(base_key.as_str(), self.property_name.as_str(), counter_db, wmi_obj, now),
                None => match self.property_type {
                    WmiType::String | WmiType::Object | WmiType::Reference => Ok(Value::UnicodeString(v.clone())),
                    WmiType::Boolean => {
                        let cs = chars_of(v.as_str());
                        let lower = lower_chars(cs.as_slice());
                        let t = chars_of("true");
                        let f = chars_of("false");
                        if crate::common::text::chars_eq(lower.as_slice(), t.as_slice()) {
                            Ok(Value::Boolean(true))
                        } else if crate::common::text::chars_eq(lower.as_slice(), f.as_slice()) {
                            Ok(Value::Boolean(false))
                        } else {
                            Err(property_error(self.property_name.as_str(), v.as_str(), "a boolean"))
                        }
                    },
                    WmiType::Float => if float_text(v.as_str()) {
                        Ok(Value::Float(FloatRepr::Text(v.clone())))
                    } else {
                        Err(property_error(self.property_name.as_str(), v.as_str(), "a float"))
                    },
                    WmiType::DateTime => self.parse_dt(v, quircks),
                    _ => match parse_i64(v.as_str()) {
                        Some(x) => Ok(Value::Integer(x)),
                        None => Err(property_error(self.property_name.as_str(), v.as_str(), "a integer")),
                    },
                },
            },
        }
    }
}

/// The metadata properties that counters are computed with.
pub open spec fn counter_variables() -> Seq<Seq<char>> {
    seq!["Frequency_PerfTime"@, "Frequency_Sys100NS"@, "Frequency_Object"@,
        "Timestamp_PerfTime"@, "Timestamp_Sys100NS"@, "Timestamp_Object"@]
}

/// The counter types that are computed against a `_Base` property.
pub open spec fn requires_base(c: WmiCounter) -> bool {
    c == WmiCounter::PerfRawFraction || c == WmiCounter::PerfLargeRawFraction
        || c == WmiCounter::PerfSampleFraction || c == WmiCounter::PerfAverageBulk
        || c == WmiCounter::PerfCounterMultiTimer || c == WmiCounter::Perf100nsecMultiTimer
        || c == WmiCounter::PerfAverageTimer
}

/// The properties that the fields name, in order.
pub open spec fn property_names(fields: Seq<&FieldSpec>) -> Seq<Seq<char>> {
    fields.map_values(|f: &FieldSpec| f.property_name@)
}

/// The `<property>_Base` properties of the counter fields that need one,
/// in order.
pub open spec fn base_names(fields: Seq<&FieldSpec>) -> Seq<Seq<char>>
    decreases fields.len(),
{
    if fields.len() == 0 {
        Seq::empty()
    } else {
        let p = base_names(fields.drop_last());
        match fields.last().counter_type {
            Some(c) => if requires_base(c) { p.push(fields.last().property_name@ + "_Base"@) } else { p },
            None => p,
        }
    }
}

/// Whether some field is a counter.
pub open spec fn has_counter(fields: Seq<&FieldSpec>) -> bool {
    exists|i: int| 0 <= i < fields.len() && (#[trigger] fields[i]).counter_type is Some
}

/// The properties to ask for: those of the fields; the counter metadata
/// when a field is a counter; and the `_Base` properties of counters.
pub open spec fn field_names_of(fields: Seq<&FieldSpec>) -> Seq<Seq<char>> {
    property_names(fields) + (if has_counter(fields) { counter_variables() } else { Seq::empty() }) + base_names(fields)
}

fn needs_base(c: WmiCounter) -> (r: bool)
    ensures
        r == requires_base(c),
{
    match c {
        WmiCounter::PerfRawFraction | WmiCounter::PerfLargeRawFraction | WmiCounter::PerfSampleFraction
        | WmiCounter::PerfAverageBulk | WmiCounter::PerfCounterMultiTimer | WmiCounter::Perf100nsecMultiTimer
        | WmiCounter::PerfAverageTimer => true,
        _ => false,
    }
}

/// The properties to ask for (see `field_names_of`).
pub fn get_fieldnames(fields: &Vec<&FieldSpec>) -> (r: Vec<String>)
    ensures
        strings_view(r@) == field_names_of(fields@),
{
    let mut out: Vec<String> = Vec::new();
    let mut any = false;
    let mut i: usize = 0;
    while i < fields.len()
        invariant
            i <= fields@.len(),
            strings_view(out@) == property_names(fields@.take(i as int)),
            any == exists|j: int| 0 <= j < i && (#[trigger] fields@[j]).counter_type is Some,
        decreases fields.len() - i,
    {
        let ghost o0 = strings_view(out@);
        out.push(fields[i].property_name.clone());
        if fields[i].counter_type.is_some() {
            any = true;
        }
        proof {
            assert(strings_view(out@) =~= o0.push(fields@[i as int].property_name@));
            assert(fields@.take(i + 1) =~= fields@.take(i as int).push(fields@[i as int]));
            assert(strings_view(out@) =~= property_names(fields@.take(i + 1)));
        }
        i = i + 1;
    }
    proof {
        assert(fields@.take(i as int) =~= fields@);
    }
    let ghost head = strings_view(out@);
    if any {
        out.push(String::from_str("Frequency_PerfTime"));
        out.push(String::from_str("Frequency_Sys100NS"));
        out.push(String::from_str("Frequency_Object"));
        out.push(String::from_str("Timestamp_PerfTime"));
        out.push(String::from_str("Timestamp_Sys100NS"));
        out.push(String::from_str("Timestamp_Object"));
        proof {
            assert(strings_view(out@) =~= head + counter_variables());
        }
    } else {
        proof {
            assert(strings_view(out@) =~= head + Seq::<Seq<char>>::empty());
        }
    }
    let ghost mid = strings_view(out@);
    let mut k: usize = 0;
    proof {
        assert(fields@.take(0) =~= Seq::<&FieldSpec>::empty());
        assert(mid + base_names(fields@.take(0)) =~= mid);
    }
    while k < fields.len()
        invariant
            k <= fields@.len(),
            strings_view(out@) == mid + base_names(fields@.take(k as int)),
        decreases fields.len() - k,
    {
        proof {
            assert(fields@.take(k + 1).drop_last() =~= fields@.take(k as int));
            assert(fields@.take(k + 1).last() == fields@[k as int]);
        }
        match fields[k].counter_type {
            Some(c) => {
                if needs_base(c) {
                    let mut cs: Vec<char> = Vec::new();
                    push_str(&mut cs, fields[k].property_name.as_str());
                    push_str(&mut cs, "_Base");
                    let ghost o0 = strings_view(out@);
                    out.push(string_from_chars(cs.as_slice()));
                    proof {
                        assert(strings_view(out@) =~= o0.push(fields@[k as int].property_name@ + "_Base"@));
                    }
                }
            },
            None => {},
        }
        k = k + 1;
    }
    proof {
        assert(fields@.take(k as int) =~= fields@);
    }
    out
}

} // verus!

verus! {

/// A plain boolean property reads regardless of case: any text that is
/// `true` or `false` in lower case gives that boolean; any other text is
/// refused. No sample is recorded.
pub proof fn law_boolean_property_ignores_case(f: FieldSpec, obj: StrMap<String>, base_key: Seq<char>, prev: Option<(u64, i64)>, q: WmiQuircks, now: u64)
    requires
        f.property_type == WmiType::Boolean,
        f.values is None,
        f.counter_type is None,
        obj@.contains_key(f.property_name@),
    ensures
        ({
            let t = obj@[f.property_name@]@;
            let r = spec_parse_var(f, obj, base_key, prev, q, now);
            &&& lower_text(t) == "false"@ ==> r == (Ok::<ValueV, DataErrorV>(ValueV::Boolean(false)), None::<(u64, i64)>)
            &&& lower_text(t) == "true"@ ==> r == (Ok::<ValueV, DataErrorV>(ValueV::Boolean(true)), None::<(u64, i64)>)
            &&& (lower_text(t) != "false"@ && lower_text(t) != "true"@) ==> r.0 is Err
        }),
{
    reveal_strlit("false");
    reveal_strlit("true");
    assert("false"@.len() != "true"@.len());
    assert("false"@ != "true"@);
}

/// A plain text property reads as its text; a plain integer property
/// (of any width or sign) reads as the number that its text writes. No
/// sample is recorded.
pub proof fn law_text_and_integer_properties(f: FieldSpec, obj: StrMap<String>, base_key: Seq<char>, prev: Option<(u64, i64)>, q: WmiQuircks, now: u64)
    requires
        f.values is None,
        f.counter_type is None,
        obj@.contains_key(f.property_name@),
    ensures
        ({
            let t = obj@[f.property_name@]@;
            let r = spec_parse_var(f, obj, base_key, prev, q, now);
            let integral = f.property_type == WmiType::Integer || f.property_type == WmiType::UInt8
                || f.property_type == WmiType::UInt16 || f.property_type == WmiType::UInt32
                || f.property_type == WmiType::UInt64 || f.property_type == WmiType::SInt8
                || f.property_type == WmiType::SInt16 || f.property_type == WmiType::SInt32
                || f.property_type == WmiType::SInt64;
            &&& f.property_type == WmiType::String ==> r == (Ok::<ValueV, DataErrorV>(ValueV::UnicodeString(t)), None::<(u64, i64)>)
            &&& (integral && spec_parse_int(t, i64::MIN as int, i64::MAX as int) is Some) ==>
                r == (Ok::<ValueV, DataErrorV>(ValueV::Integer(spec_parse_int(t, i64::MIN as int, i64::MAX as int)->Some_0)), None::<(u64, i64)>)
            &&& (integral && spec_parse_int(t, i64::MIN as int, i64::MAX as int) is None) ==> r.0 is Err
        }),
{
}

} // verus!
