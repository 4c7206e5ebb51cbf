//! Scalar objects: their declared syntax, and how values received for them,
//! or encoded in table indices, become delivered values.

use vstd::prelude::*;

use crate::common::data::{DataError, DataErrorV, Type, TypeV, Value, ValueV, choices_view, copy_choices, strings_view};
use crate::common::data::{FloatRepr, FloatV};
use crate::common::text::{chars_of, decimal, signed_decimal, push_decimal, push_signed_decimal, push_str, string_from_chars, utf8_lossy, decode_utf8_lossy};
use super::counters::{Counters, counters_view, previous_reading, spec_counter_rate, with_reading};
use super::oid::{ErrType, Oid, SnmpValue, VarResult, oid_text};
use vstd::string::StringExecFns;

verus! {

/// The SNMP syntax of an object, as declared in its MIB.
#[derive(Clone, Copy, PartialEq, Eq, Structural)]
pub enum VarType {
    Boolean,
    Integer,
    Integer32,
    Integer64,
    Unsigned64,
    Gauge,
    TimeTicks,
    Float,
    Double,
    BitStr,
    OctetStr,
    Counter,
    Counter64,
    IpAddress,
    MacAddress,
    Oid,
    Opaque,
    NsapAddress,
    Null,
    Other,
}

/// The labels of an enumerated object: integer values or strings, each with
/// its label. Integer choices are kept in ascending order of value.
pub enum ValueList {
    Integer(Vec<(i64, String)>),
    String(Vec<(String, String)>),
}

/// The declared size (or value) range of an object.
#[derive(Clone, Copy, PartialEq, Eq, Structural)]
pub enum ValueRange {
    Exact(i64),
    Range { from: Option<i64>, to: Option<i64> },
}

/// A range in normal form: a one-point range is exact, and bounds given in
/// the wrong order are swapped.
pub open spec fn spec_normalize(r: ValueRange) -> ValueRange {
    match r {
        ValueRange::Exact(n) => ValueRange::Exact(n),
        ValueRange::Range { from: Some(a), to: Some(b) } => {
            if a == b {
                ValueRange::Exact(a)
            } else if a > b {
                ValueRange::Range { from: Some(b), to: Some(a) }
            } else {
                r
            }
        },
        _ => r,
    }
}

impl ValueRange {
    /// The range in normal form (see `spec_normalize`).
    pub fn normalize(&self) -> (r: ValueRange)
        ensures
            r == spec_normalize(*self),
    {
        match self {
            ValueRange::Exact(n) => ValueRange::Exact(*n),
            ValueRange::Range { from: Some(a), to: Some(b) } => {
                if *a == *b {
                    ValueRange::Exact(*a)
                } else if *a > *b {
                    ValueRange::Range { from: Some(*b), to: Some(*a) }
                } else {
                    *self
                }
            },
            _ => *self,
        }
    }
}

/// Normalizing a range twice gives what normalizing it once gives.
pub proof fn law_normalize_idempotent(r: ValueRange)
    ensures
        spec_normalize(spec_normalize(r)) == spec_normalize(r),
{
}

/// `v` is one of the keys.
pub open spec fn has_key(cs: Seq<(i64, String)>, v: i64) -> bool {
    exists|i: int| 0 <= i < cs.len() && (#[trigger] cs[i]).0 == v
}

/// Why a scalar's type cannot be determined.
#[derive(Clone, Copy, PartialEq, Eq, Structural)]
pub enum ScalarTypeError {
    ExpectedIntegerValueMap,
    ExpectedStringValueMap,
    ExpectedIntegerValueMapForBitStr,
    UnimplementedSnmpType(VarType),
}

/// A scalar object as declared in a MIB.
pub struct ScalarSpec {
    /// The table the object is a column of, if any.
    pub table: Option<String>,
    pub syntax: VarType,
    pub value_list: Option<ValueList>,
    pub value_range: Option<ValueRange>,
    /// Values listed in an integer value list are error codes: a listed value
    /// is delivered as an error, others as plain integers.
    pub error_enum: bool,
}

/// Default of `ScalarSpec::error_enum`.
pub fn default_false() -> (r: bool)
    ensures
        !r,
{
    false
}

/// The length in index components of a value of this scalar, when fixed.
pub open spec fn spec_fixed_index_length(s: ScalarSpec) -> Option<int> {
    match s.syntax {
        VarType::Boolean | VarType::Integer | VarType::Integer32 | VarType::Integer64
        | VarType::Unsigned64 | VarType::Counter | VarType::Counter64 | VarType::Gauge
        | VarType::TimeTicks => Some(1),
        VarType::IpAddress => Some(4),
        VarType::MacAddress => Some(6),
        VarType::Oid | VarType::OctetStr => match s.value_range {
            Some(r) => match spec_normalize(r) {
                ValueRange::Exact(n) => Some(n as usize as int),
                _ => None,
            },
            None => None,
        },
        _ => None,
    }
}

/// Why the length of a variable-length index value could not be found.
pub open spec fn index_length_result(s: ScalarSpec, index: Seq<u64>, implied: Option<usize>) -> Result<(int, int), Seq<char>> {
    match implied {
        Some(len) => Ok((len as int, 0)),
        None => {
            let exact = match s.value_range {
                Some(r) => match spec_normalize(r) {
                    ValueRange::Exact(n) => if n >= 0 && n <= index.len() { Some(n as int) } else { None },
                    _ => None,
                },
                None => None,
            };
            match exact {
                Some(n) => Ok((n, 0)),
                None => if index.len() == 0 {
                    Err("missing length for string index"@)
                } else if index[0] <= index.len() {
                    Ok((index[0] as int, 1))
                } else {
                    Err("variable index length value is invalid"@)
                },
            }
        },
    }
}

impl ScalarSpec {
    /// Length in index components of a value of this scalar: fixed by its
    /// syntax, or by an exact size range for strings and OIDs.
    pub fn fixed_index_length(&self) -> (r: Option<usize>)
        ensures
            match spec_fixed_index_length(*self) {
                Some(n) => r == Some(n as usize),
                None => r is None,
            },
    {
        match self.syntax {
            VarType::Boolean | VarType::Integer | VarType::Integer32 | VarType::Integer64
            | VarType::Unsigned64 | VarType::Counter | VarType::Counter64 | VarType::Gauge
            | VarType::TimeTicks => Some(1),
            VarType::IpAddress => Some(4),
            VarType::MacAddress => Some(6),
            VarType::Oid | VarType::OctetStr => match &self.value_range {
                Some(r) => match r.normalize() {
                    ValueRange::Exact(n) => Some(n as usize),
                    _ => None,
                },
                None => None,
            },
            _ => None,
        }
    }

    /// Length of a variable-length value at the start of `index`, and how
    /// many components precede the value (a length prefix): the implied
    /// length if given, else an exact size range that fits, else the first
    /// component, which must not exceed the index length.
    pub fn variable_index_length(&self, index: &[u64], implied_length: Option<usize>) -> (r: Result<(usize, usize), DataError>)
        ensures
            match index_length_result(*self, index@, implied_length) {
                Ok((len, skip)) => r == Ok::<(usize, usize), DataError>((len as usize, skip as usize)),
                Err(msg) => r matches Err(DataError::TypeError(m)) && m@ == msg,
            },
    {
        match implied_length {
            Some(len) => Ok((len, 0)),
            None => {
                let exact = match &self.value_range {
                    Some(r) => match r.normalize() {
                        ValueRange::Exact(n) => if n >= 0 && (n as u64) <= (index.len() as u64) { Some(n as usize) } else { None },
                        _ => None,
                    },
                    None => None,
                };
                match exact {
                    Some(n) => Ok((n, 0)),
                    None => if index.len() == 0 {
                        Err(DataError::TypeError(String::from_str("missing length for string index")))
                    } else if index[0] <= index.len() as u64 {
                        Ok((index[0] as usize, 1))
                    } else {
                        Err(DataError::TypeError(String::from_str("variable index length value is invalid")))
                    },
                }
            },
        }
    }
}

/// Labels of a string value list, in order.
pub open spec fn labels(cs: Seq<(String, String)>) -> Seq<Seq<char>> {
    cs.map_values(|c: (String, String)| c.1@)
}

/// The type of values delivered for a scalar.
pub open spec fn spec_scalar_type(s: ScalarSpec) -> Result<TypeV, ScalarTypeError> {
    match s.syntax {
        VarType::Boolean => Ok(TypeV::Boolean),
        VarType::Integer | VarType::Integer64 | VarType::Unsigned64 => match s.value_list {
            Some(ValueList::Integer(vs)) => if !s.error_enum {
                Ok(TypeV::IntEnum(choices_view(vs@)))
            } else {
                Ok(TypeV::Result(Box::new(TypeV::Integer), Box::new(TypeV::IntEnum(choices_view(vs@)))))
            },
            Some(_) => Err(ScalarTypeError::ExpectedIntegerValueMap),
            None => Ok(TypeV::Integer),
        },
        VarType::Integer32 | VarType::Gauge => Ok(TypeV::Integer),
        VarType::TimeTicks | VarType::Float | VarType::Double | VarType::Counter | VarType::Counter64 => Ok(TypeV::Float),
        VarType::BitStr => match s.value_list {
            Some(ValueList::Integer(vs)) => Ok(TypeV::EnumSet(choices_view(vs@))),
            _ => Err(ScalarTypeError::ExpectedIntegerValueMapForBitStr),
        },
        VarType::OctetStr => match s.value_list {
            Some(ValueList::String(vs)) => Ok(TypeV::Enum(labels(vs@))),
            Some(_) => Err(ScalarTypeError::ExpectedStringValueMap),
            None => Ok(TypeV::BinaryString),
        },
        VarType::IpAddress => Ok(TypeV::Ipv4Address),
        VarType::MacAddress => Ok(TypeV::MacAddress),
        VarType::Oid => Ok(TypeV::UnicodeString),
        t => Err(ScalarTypeError::UnimplementedSnmpType(t)),
    }
}

/// An integer, as its value list makes it: a member of the enumeration
/// (an error when it is not listed), or, for error enumerations, an error
/// code when listed and a plain integer otherwise.
pub open spec fn spec_int_enum(vl: Option<ValueList>, error_enum: bool, v: i64) -> Result<ValueV, DataErrorV> {
    match vl {
        Some(ValueList::Integer(cs)) => if !error_enum {
            if has_key(cs@, v) {
                Ok(ValueV::IntEnum(v as int))
            } else {
                Err(DataErrorV::InvalidChoice(signed_decimal(v as int)))
            }
        } else if has_key(cs@, v) {
            Ok(ValueV::ResultErr(Box::new(ValueV::IntEnum(v as int))))
        } else {
            Ok(ValueV::ResultOk(Box::new(ValueV::Integer(v as int))))
        },
        Some(ValueList::String(_)) => Err(DataErrorV::TypeError("expected integer ValueMap"@)),
        None => Ok(ValueV::Integer(v as int)),
    }
}

/// Bytes as a string, as its value list makes it: a member of the string
/// enumeration (the text that the bytes decode to must be one of the
/// labels), or the bytes themselves without a list.
pub open spec fn spec_string_enum(vl: Option<ValueList>, bytes: Seq<u8>) -> Result<ValueV, DataErrorV> {
    match vl {
        Some(ValueList::String(cs)) => {
            let text = utf8_lossy(bytes);
            if labels(cs@).contains(text) {
                Ok(ValueV::Enum(text))
            } else {
                Err(DataErrorV::InvalidChoice(text))
            }
        },
        Some(ValueList::Integer(_)) => Err(DataErrorV::TypeError("expected string ValueMap"@)),
        None => Ok(ValueV::BinaryString(bytes)),
    }
}

/// Bit `i` of a bit string: bit `i % 8` (least significant first) of byte
/// `i / 8`; a negative position is never set.
pub open spec fn bit_set(bytes: Seq<u8>, i: i64) -> bool {
    &&& 0 <= i
    &&& (i / 8) < bytes.len()
    &&& (bytes[(i / 8) as int] & (1u8 << ((i % 8) as u32))) > 0
}

/// The listed values whose bit is set, in list order.
pub open spec fn set_bits(cs: Seq<(i64, String)>, bytes: Seq<u8>) -> Seq<i64>
    decreases cs.len(),
{
    if cs.len() == 0 {
        Seq::empty()
    } else if bit_set(bytes, cs.last().0) {
        set_bits(cs.drop_last(), bytes).push(cs.last().0)
    } else {
        set_bits(cs.drop_last(), bytes)
    }
}

/// A bit string as the set of listed values whose bit is set.
pub open spec fn spec_bitstr_set(vl: Option<ValueList>, bytes: Seq<u8>) -> Result<ValueV, DataErrorV> {
    match vl {
        Some(ValueList::Integer(cs)) => Ok(ValueV::EnumSet(set_bits(cs@, bytes))),
        _ => Err(DataErrorV::TypeError("expected integer ValueMap for BitStr"@)),
    }
}

/// The values of an integer value list can be read as bit positions: none
/// lies between -7 and -1 (such a position names a bit of the first byte
/// by a negative shift).
pub open spec fn bit_positions(vl: Option<ValueList>) -> bool {
    match vl {
        Some(ValueList::Integer(cs)) => forall|i: int| 0 <= i < cs@.len() ==> (#[trigger] cs@[i]).0 >= 0 || cs@[i].0 <= -8,
        _ => true,
    }
}

fn find_key(cs: &Vec<(i64, String)>, v: i64) -> (r: bool)
    ensures
        r == has_key(cs@, v),
{
    let mut i: usize = 0;
    while i < cs.len()
        invariant
            i <= cs.len(),
            forall|j: int| 0 <= j < i ==> (#[trigger] cs@[j]).0 != v,
        decreases cs.len() - i,
    {
        if cs[i].0 == v {
            return true;
        }
        i = i + 1;
    }
    false
}

fn find_label(cs: &Vec<(String, String)>, text: &String) -> (r: bool)
    ensures
        r == labels(cs@).contains(text@),
{
    let mut i: usize = 0;
    while i < cs.len()
        invariant
            i <= cs.len(),
            forall|j: int| 0 <= j < i ==> (#[trigger] cs@[j]).1@ != text@,
        decreases cs.len() - i,
    {
        if cs[i].1.eq(text) {
            proof {
                assert(labels(cs@)[i as int] == text@);
            }
            return true;
        }
        i = i + 1;
    }
    proof {
        assert forall|j: int| 0 <= j < labels(cs@).len() implies labels(cs@)[j] != text@ by {
            assert(labels(cs@)[j] == cs@[j].1@);
        }
    }
    false
}

fn copy_labels(cs: &Vec<(String, String)>) -> (r: Vec<String>)
    ensures
        strings_view(r@) == labels(cs@),
{
    let mut r: Vec<String> = Vec::new();
    let mut i: usize = 0;
    while i < cs.len()
        invariant
            i <= cs.len(),
            strings_view(r@) == labels(cs@.subrange(0, i as int)),
        decreases cs.len() - i,
    {
        let ghost r0 = r@;
        r.push(cs[i].1.clone());
        proof {
            assert(strings_view(r@) =~= strings_view(r0).push(cs@[i as int].1@));
            assert(labels(cs@.subrange(0, i + 1)) =~= labels(cs@.subrange(0, i as int)).push(cs@[i as int].1@));
        }
        i = i + 1;
    }
    proof {
        assert(cs@.subrange(0, i as int) =~= cs@);
    }
    r
}

impl ScalarSpec {
    /// The type of the values delivered for this scalar. It agrees with
    /// what `get_value` and `get_value_from_index` deliver.
    pub fn get_type(&self) -> (r: Result<Type, ScalarTypeError>)
        ensures
            match spec_scalar_type(*self) {
                Ok(t) => r matches Ok(rt) && rt@ == t,
                Err(e) => r == Err::<Type, ScalarTypeError>(e),
            },
    {
        proof {
            reveal_with_fuel(crate::common::data::type_view, 2);
        }
        match self.syntax {
            VarType::Boolean => Ok(Type::Boolean),
            VarType::Integer | VarType::Integer64 | VarType::Unsigned64 => match &self.value_list {
                Some(ValueList::Integer(vs)) => if !self.error_enum {
                    Ok(Type::IntEnum(copy_choices(vs)))
                } else {
                    Ok(Type::Result(Box::new(Type::Integer), Box::new(Type::IntEnum(copy_choices(vs)))))
                },
                Some(_) => Err(ScalarTypeError::ExpectedIntegerValueMap),
                None => Ok(Type::Integer),
            },
            VarType::Integer32 | VarType::Gauge => Ok(Type::Integer),
            VarType::TimeTicks | VarType::Float | VarType::Double | VarType::Counter | VarType::Counter64 => Ok(Type::Float),
            VarType::BitStr => match &self.value_list {
                Some(ValueList::Integer(vs)) => Ok(Type::EnumSet(copy_choices(vs))),
                _ => Err(ScalarTypeError::ExpectedIntegerValueMapForBitStr),
            },
            VarType::OctetStr => match &self.value_list {
                Some(ValueList::String(vs)) => Ok(Type::Enum(copy_labels(vs))),
                Some(_) => Err(ScalarTypeError::ExpectedStringValueMap),
                None => Ok(Type::BinaryString),
            },
            VarType::IpAddress => Ok(Type::Ipv4Address),
            VarType::MacAddress => Ok(Type::MacAddress),
            VarType::Oid => Ok(Type::UnicodeString),
            t => Err(ScalarTypeError::UnimplementedSnmpType(t)),
        }
    }

    /// An integer as this scalar's value list makes it (see `spec_int_enum`).
    pub fn integer_enum_from_value(&self, v: i64) -> (r: Result<Value, DataError>)
        ensures
            match (r, spec_int_enum(self.value_list, self.error_enum, v)) {
                (Ok(a), Ok(b)) => a@ == b,
                (Err(a), Err(b)) => a@ == b,
                _ => false,
            },
    {
        proof {
            reveal_with_fuel(crate::common::data::value_view, 2);
        }
        match &self.value_list {
            Some(ValueList::Integer(cs)) => {
                let listed = find_key(cs, v);
                if !self.error_enum {
                    if listed {
                        Ok(Value::IntEnum(v))
                    } else {
                        let mut text: Vec<char> = Vec::new();
                        push_signed_decimal(&mut text, v);
                        Err(DataError::InvalidChoice(string_from_chars(text.as_slice())))
                    }
                } else if listed {
                    Ok(Value::Result(Err(Box::new(Value::IntEnum(v)))))
                } else {
                    Ok(Value::Result(Ok(Box::new(Value::Integer(v)))))
                }
            },
            Some(ValueList::String(_)) => Err(DataError::TypeError(String::from_str("expected integer ValueMap"))),
            None => Ok(Value::Integer(v)),
        }
    }

    /// Bytes as this scalar's value list makes them (see `spec_string_enum`).
    pub fn string_enum_from_value(&self, v: Vec<u8>) -> (r: Result<Value, DataError>)
        ensures
            match (r, spec_string_enum(self.value_list, v@)) {
                (Ok(a), Ok(b)) => a@ == b,
                (Err(a), Err(b)) => a@ == b,
                _ => false,
            },
    {
        match &self.value_list {
            Some(ValueList::String(cs)) => {
                let text = decode_utf8_lossy(v.as_slice());
                if find_label(cs, &text) {
                    Ok(Value::Enum(text))
                } else {
                    Err(DataError::InvalidChoice(text))
                }
            },
            Some(ValueList::Integer(_)) => Err(DataError::TypeError(String::from_str("expected string ValueMap"))),
            None => Ok(Value::BinaryString(v)),
        }
    }

    /// A bit string as the set of listed values whose bit is set (see
    /// `spec_bitstr_set`).
    pub fn bitstr_set_from_value(&self, v: Vec<u8>) -> (r: Result<Value, DataError>)
        requires
            bit_positions(self.value_list),
        ensures
            match (r, spec_bitstr_set(self.value_list, v@)) {
                (Ok(a), Ok(b)) => a@ == b,
                (Err(a), Err(b)) => a@ == b,
                _ => false,
            },
    {
        match &self.value_list {
            Some(ValueList::Integer(cs)) => {
                let mut set: Vec<i64> = Vec::new();
                let mut i: usize = 0;
                while i < cs.len()
                    invariant
                        i <= cs.len(),
                        set@ == set_bits(cs@.subrange(0, i as int), v@),
                    decreases cs.len() - i,
                {
                    let key = cs[i].0;
                    proof {
                        assert(cs@.subrange(0, i + 1).drop_last() =~= cs@.subrange(0, i as int));
                        assert(cs@.subrange(0, i + 1).last() == cs@[i as int]);
                    }
                    let set_here = if key < 0 {
                        false
                    } else {
                        let pos: u64 = (key / 8) as u64;
                        let shift: u32 = (key % 8) as u32;
                        if pos < v.len() as u64 {
                            (v[pos as usize] & (1u8 << shift)) > 0
                        } else {
                            false
                        }
                    };
                    proof {
                        assert(set_here == bit_set(v@, key));
                    }
                    if set_here {
                        set.push(key);
                    }
                    i = i + 1;
                }
                proof {
                    assert(cs@.subrange(0, i as int) =~= cs@);
                }
                Ok(Value::EnumSet(set))
            },
            _ => Err(DataError::TypeError(String::from_str("expected integer ValueMap for BitStr"))),
        }
    }
}

/// Index components as bytes (each truncated to its low eight bits).
pub open spec fn as_bytes(s: Seq<u64>) -> Seq<u8> {
    s.map_values(|x: u64| x as u8)
}

/// A variable-length index value fits in the index that it is read from.
pub open spec fn index_fits(s: ScalarSpec, index: Seq<u64>, implied: Option<usize>) -> bool {
    match index_length_result(s, index, implied) {
        Ok((len, skip)) => skip + len <= index.len(),
        Err(_) => true,
    }
}

/// A value of this scalar read from the start of a table index, with the
/// number of index components it takes; an error when the index cannot
/// hold such a value. A value that is read but invalid is delivered as an
/// error value.
pub open spec fn spec_from_index(s: ScalarSpec, index: Seq<u64>, implied: Option<usize>) -> Result<(Result<ValueV, DataErrorV>, int), DataErrorV> {
    match s.syntax {
        VarType::Integer | VarType::Integer64 | VarType::Unsigned64 => if index.len() == 0 {
            Err(DataErrorV::TypeError("missing index value"@))
        } else {
            Ok((spec_int_enum(s.value_list, s.error_enum, index[0] as i64), 1))
        },
        VarType::Integer32 | VarType::Gauge => if index.len() == 0 {
            Err(DataErrorV::TypeError("missing index value"@))
        } else {
            Ok((Ok(ValueV::Integer(index[0] as i64 as int)), 1))
        },
        VarType::Counter | VarType::Counter64 => if index.len() == 0 {
            Err(DataErrorV::TypeError("missing index value"@))
        } else {
            Ok((Ok(ValueV::Float(FloatV::Ratio(index[0] as int, 1))), 1))
        },
        VarType::IpAddress => if index.len() >= 4 {
            Ok((if forall|i: int| 0 <= i < 4 ==> #[trigger] index[i] < 256 {
                Ok(ValueV::Ipv4Address(as_bytes(index.take(4))))
            } else {
                Err(DataErrorV::TypeError("invalid index value for IpAddress"@))
            }, 4))
        } else {
            Err(DataErrorV::TypeError("index too short for IpAddress"@))
        },
        VarType::MacAddress => if index.len() >= 6 {
            Ok((if forall|i: int| 0 <= i < 6 ==> #[trigger] index[i] < 256 {
                Ok(ValueV::MacAddress(as_bytes(index.take(6))))
            } else {
                Err(DataErrorV::TypeError("invalid index value for MacAddress"@))
            }, 6))
        } else {
            Err(DataErrorV::TypeError("index too short for MacAddress"@))
        },
        VarType::Oid => match index_length_result(s, index, implied) {
            Ok((len, skip)) => Ok((Ok(ValueV::UnicodeString(oid_text(index.subrange(skip, skip + len)))), skip + len)),
            Err(m) => Err(DataErrorV::TypeError(m)),
        },
        VarType::OctetStr => match index_length_result(s, index, implied) {
            Ok((len, skip)) => Ok((spec_string_enum(s.value_list, as_bytes(index.subrange(skip, skip + len))), skip + len)),
            Err(m) => Err(DataErrorV::TypeError(m)),
        },
        _ => Err(DataErrorV::TypeError("unsupported type for index"@)),
    }
}

/// The components `from..to` of an index.
fn index_part(index: &[u64], from: usize, to: usize) -> (r: Vec<u64>)
    requires
        from <= to <= index.len(),
    ensures
        r@ == index@.subrange(from as int, to as int),
{
    let mut r: Vec<u64> = Vec::new();
    let mut i = from;
    while i < to
        invariant
            from <= i <= to <= index.len(),
            r@ == index@.subrange(from as int, i as int),
        decreases to - i,
    {
        r.push(index[i]);
        i = i + 1;
    }
    r
}

/// The components `from..to` of an index, as bytes.
fn index_bytes(index: &[u64], from: usize, to: usize) -> (r: Vec<u8>)
    requires
        from <= to <= index.len(),
    ensures
        r@ == as_bytes(index@.subrange(from as int, to as int)),
{
    let mut r: Vec<u8> = Vec::new();
    let mut i = from;
    while i < to
        invariant
            from <= i <= to <= index.len(),
            r@ == as_bytes(index@.subrange(from as int, i as int)),
        decreases to - i,
    {
        r.push(index[i] as u8);
        proof {
            assert(as_bytes(index@.subrange(from as int, i + 1)) =~= as_bytes(index@.subrange(from as int, i as int)).push(index@[i as int] as u8));
        }
        i = i + 1;
    }
    r
}

/// Whether the first `n` components are all below 256.
fn all_bytes(index: &[u64], n: usize) -> (r: bool)
    requires
        n <= index.len(),
    ensures
        r == (forall|i: int| 0 <= i < n ==> #[trigger] index@[i] < 256),
{
    let mut i: usize = 0;
    while i < n
        invariant
            i <= n <= index.len(),
            forall|j: int| 0 <= j < i ==> #[trigger] index@[j] < 256,
        decreases n - i,
    {
        if index[i] >= 256 {
            return false;
        }
        i = i + 1;
    }
    true
}

impl ScalarSpec {
    /// Reads a value of this scalar from the start of a table index (see
    /// `spec_from_index`); returns it with the number of components read.
    pub fn get_value_from_index(&self, index: &[u64], implied_length: Option<usize>) -> (r: Result<(Result<Value, DataError>, usize), DataError>)
        requires
            index_fits(*self, index@, implied_length),
        ensures
            match (r, spec_from_index(*self, index@, implied_length)) {
                (Ok((Ok(a), n)), Ok((Ok(b), m))) => a@ == b && n == m,
                (Ok((Err(a), n)), Ok((Err(b), m))) => a@ == b && n == m,
                (Err(a), Err(b)) => a@ == b,
                _ => false,
            },
    {
        match self.syntax {
            VarType::Integer | VarType::Integer64 | VarType::Unsigned64 => if index.len() == 0 {
                Err(DataError::TypeError(String::from_str("missing index value")))
            } else {
                Ok((self.integer_enum_from_value(index[0] as i64), 1))
            },
            VarType::Integer32 | VarType::Gauge => if index.len() == 0 {
                Err(DataError::TypeError(String::from_str("missing index value")))
            } else {
                Ok((Ok(Value::Integer(index[0] as i64)), 1))
            },
            VarType::Counter | VarType::Counter64 => if index.len() == 0 {
                Err(DataError::TypeError(String::from_str("missing index value")))
            } else {
                Ok((Ok(Value::Float(FloatRepr::Ratio(index[0] as i128, 1))), 1))
            },
            VarType::IpAddress => if index.len() >= 4 {
                let v = if all_bytes(index, 4) {
                    let a = [index[0] as u8, index[1] as u8, index[2] as u8, index[3] as u8];
                    proof {
                        assert(a@ =~= as_bytes(index@.take(4)));
                    }
                    Ok(Value::Ipv4Address(a))
                } else {
                    Err(DataError::TypeError(String::from_str("invalid index value for IpAddress")))
                };
                Ok((v, 4))
            } else {
                Err(DataError::TypeError(String::from_str("index too short for IpAddress")))
            },
            VarType::MacAddress => if index.len() >= 6 {
                let v = if all_bytes(index, 6) {
                    let a = [index[0] as u8, index[1] as u8, index[2] as u8, index[3] as u8, index[4] as u8, index[5] as u8];
                    proof {
                        assert(a@ =~= as_bytes(index@.take(6)));
                    }
                    Ok(Value::MacAddress(a))
                } else {
                    Err(DataError::TypeError(String::from_str("invalid index value for MacAddress")))
                };
                Ok((v, 6))
            } else {
                Err(DataError::TypeError(String::from_str("index too short for MacAddress")))
            },
            VarType::Oid => match self.variable_index_length(index, implied_length) {
                Ok((len, skip)) => {
                    proof {
                    let res = index_length_result(*self, index@, implied_length);
                    assert(index@.len() == index.len());
                    assert(res matches Ok((l, s)) && l >= 0 && s >= 0 && s + l <= index@.len() && len == l && skip == s);
                }
                let part = Oid(index_part(index, skip, skip + len));
                    Ok((Ok(Value::UnicodeString(part.to_text())), skip + len))
                },
                Err(e) => Err(e),
            },
            VarType::OctetStr => match self.variable_index_length(index, implied_length) {
                Ok((len, skip)) => {
                    proof {
                    let res = index_length_result(*self, index@, implied_length);
                    assert(index@.len() == index.len());
                    assert(res matches Ok((l, s)) && l >= 0 && s >= 0 && s + l <= index@.len() && len == l && skip == s);
                }
                let bytes = index_bytes(index, skip, skip + len);
                    Ok((self.string_enum_from_value(bytes), skip + len))
                },
                Err(e) => Err(e),
            },
            _ => Err(DataError::TypeError(String::from_str("unsupported type for index"))),
        }
    }
}

/// Name of a declared syntax.
pub open spec fn syntax_name(t: VarType) -> Seq<char> {
    match t {
        VarType::Boolean => "Boolean"@,
        VarType::Integer => "Integer"@,
        VarType::Integer32 => "Integer32"@,
        VarType::Integer64 => "Integer64"@,
        VarType::Unsigned64 => "Unsigned64"@,
        VarType::Gauge => "Gauge"@,
        VarType::TimeTicks => "TimeTicks"@,
        VarType::Float => "Float"@,
        VarType::Double => "Double"@,
        VarType::BitStr => "BitStr"@,
        VarType::OctetStr => "OctetStr"@,
        VarType::Counter => "Counter"@,
        VarType::Counter64 => "Counter64"@,
        VarType::IpAddress => "IpAddress"@,
        VarType::MacAddress => "MacAddress"@,
        VarType::Oid => "Oid"@,
        VarType::Opaque => "Opaque"@,
        VarType::NsapAddress => "NsapAddress"@,
        VarType::Null => "Null"@,
        VarType::Other => "Other"@,
    }
}

/// Name of the kind of a received value.
pub open spec fn value_kind(v: SnmpValue) -> Seq<char> {
    match v {
        SnmpValue::Boolean(_) => "Boolean"@,
        SnmpValue::Integer(_) => "Integer"@,
        SnmpValue::Integer64(_) => "Integer64"@,
        SnmpValue::Unsigned64(_) => "Unsigned64"@,
        SnmpValue::Gauge(_) => "Gauge"@,
        SnmpValue::Counter(_) => "Counter"@,
        SnmpValue::Counter64(_) => "Counter64"@,
        SnmpValue::TimeTicks(_) => "TimeTicks"@,
        SnmpValue::Float(_) => "Float"@,
        SnmpValue::Double(_) => "Double"@,
        SnmpValue::BitStr(_) => "BitStr"@,
        SnmpValue::OctetStr(_) => "OctetStr"@,
        SnmpValue::Oid(_) => "Oid"@,
        SnmpValue::IpAddress(_) => "IpAddress"@,
    }
}

/// Bytes in list notation, without brackets: decimals separated by `, `.
pub open spec fn byte_items(bs: Seq<u8>) -> Seq<char>
    decreases bs.len(),
{
    if bs.len() == 0 {
        Seq::empty()
    } else if bs.len() == 1 {
        decimal(bs[0] as nat)
    } else {
        byte_items(bs.drop_last()) + ", "@ + decimal(bs.last() as nat)
    }
}

/// Message for a received value whose kind does not fit the declared syntax.
pub open spec fn mismatch_message(v: SnmpValue, t: VarType) -> Seq<char> {
    "Type mismatch: "@ + value_kind(v) + " -> "@ + syntax_name(t) + "!"@
}

/// Message for a MAC address that is not six bytes long.
pub open spec fn mac_message(bs: Seq<u8>) -> Seq<char> {
    "Invalid MAC Address: \"["@ + byte_items(bs) + "]\""@
}

/// What becomes of a received value.
pub enum Conversion {
    /// A value (or error value) that depends on the received value alone.
    Plain(Result<ValueV, DataErrorV>),
    /// A counter reading: the rate since the previous reading.
    Counter(u64),
    /// Nothing is delivered.
    Skip,
}

/// How a value received for a scalar is delivered: by declared syntax and
/// received kind, including the mismatches that devices are known to send.
pub open spec fn spec_conversion(s: ScalarSpec, val: VarResult) -> Conversion {
    match (s.syntax, val) {
        (VarType::Boolean, Ok(SnmpValue::Boolean(v))) => Conversion::Plain(Ok(ValueV::Boolean(v))),
        (VarType::Integer, Ok(SnmpValue::Integer(v))) => Conversion::Plain(spec_int_enum(s.value_list, s.error_enum, v)),
        (VarType::Integer32, Ok(SnmpValue::Integer(v))) => Conversion::Plain(Ok(ValueV::Integer(v as int))),
        (VarType::Gauge, Ok(SnmpValue::Gauge(v))) => Conversion::Plain(Ok(ValueV::Integer(v as i64 as int))),
        (VarType::Integer64, Ok(SnmpValue::Integer64(v))) => Conversion::Plain(spec_int_enum(s.value_list, s.error_enum, v)),
        (VarType::Unsigned64, Ok(SnmpValue::Unsigned64(v))) => Conversion::Plain(spec_int_enum(s.value_list, s.error_enum, v as i64)),
        (VarType::TimeTicks, Ok(SnmpValue::TimeTicks(v))) => Conversion::Plain(Ok(ValueV::Float(FloatV::Ratio(v as int, 100)))),
        (VarType::Float, Ok(SnmpValue::Float(v))) => Conversion::Plain(Ok(ValueV::Float(FloatV::Ieee32(v)))),
        (VarType::Double, Ok(SnmpValue::Double(v))) => Conversion::Plain(Ok(ValueV::Float(FloatV::Ieee64(v)))),
        (VarType::BitStr, Ok(SnmpValue::BitStr(v))) => Conversion::Plain(spec_bitstr_set(s.value_list, v@)),
        (VarType::OctetStr, Ok(SnmpValue::OctetStr(v))) => Conversion::Plain(spec_string_enum(s.value_list, v@)),
        (VarType::Counter, Ok(SnmpValue::Counter(v))) => Conversion::Counter(v),
        (VarType::Counter64, Ok(SnmpValue::Counter64(v))) => Conversion::Counter(v),
        (VarType::Oid, Ok(SnmpValue::Oid(v))) => Conversion::Plain(Ok(ValueV::UnicodeString(seq!['.'] + oid_text(v@)))),
        (VarType::IpAddress, Ok(SnmpValue::IpAddress(v))) => Conversion::Plain(Ok(ValueV::Ipv4Address(
            seq![(v % 256) as u8, ((v / 256) % 256) as u8, ((v / 65536) % 256) as u8, (v / 16777216) as u8],
        ))),
        (VarType::MacAddress, Ok(SnmpValue::OctetStr(v))) => Conversion::Plain(if v@.len() == 6 {
            Ok(ValueV::MacAddress(v@))
        } else {
            Err(DataErrorV::TypeError(mac_message(v@)))
        }),
        (VarType::Counter, Ok(SnmpValue::Gauge(v))) => Conversion::Counter(v),
        (VarType::Gauge, Ok(SnmpValue::Counter(v))) => Conversion::Plain(Ok(ValueV::Integer(v as i64 as int))),
        (VarType::Integer32, Ok(SnmpValue::Gauge(v))) => Conversion::Plain(Ok(ValueV::Integer(v as i64 as int))),
        (VarType::Gauge, Ok(SnmpValue::Counter64(v))) => Conversion::Plain(Ok(ValueV::Integer(v as i64 as int))),
        (VarType::BitStr, Ok(SnmpValue::OctetStr(v))) => Conversion::Plain(spec_bitstr_set(s.value_list, v@)),
        (VarType::Integer64, Ok(SnmpValue::Counter64(v))) => Conversion::Plain(spec_int_enum(s.value_list, s.error_enum, v as i64)),
        (t, Ok(v)) => Conversion::Plain(Err(DataErrorV::TypeError(mismatch_message(v, t)))),
        (_, Err(ErrType::Undefined)) => Conversion::Plain(Err(DataErrorV::TypeError("Undefined type!"@))),
        (_, Err(ErrType::NotImplemented(t))) => Conversion::Plain(Err(DataErrorV::TypeError("Unimplemented type: "@ + decimal(t as nat)))),
        (_, Err(_)) => Conversion::Skip,
    }
}

fn syntax_text(t: VarType) -> (r: &'static str)
    ensures
        r@ == syntax_name(t),
{
    match t {
        VarType::Boolean => "Boolean",
        VarType::Integer => "Integer",
        VarType::Integer32 => "Integer32",
        VarType::Integer64 => "Integer64",
        VarType::Unsigned64 => "Unsigned64",
        VarType::Gauge => "Gauge",
        VarType::TimeTicks => "TimeTicks",
        VarType::Float => "Float",
        VarType::Double => "Double",
        VarType::BitStr => "BitStr",
        VarType::OctetStr => "OctetStr",
        VarType::Counter => "Counter",
        VarType::Counter64 => "Counter64",
        VarType::IpAddress => "IpAddress",
        VarType::MacAddress => "MacAddress",
        VarType::Oid => "Oid",
        VarType::Opaque => "Opaque",
        VarType::NsapAddress => "NsapAddress",
        VarType::Null => "Null",
        VarType::Other => "Other",
    }
}

fn kind_text(v: &SnmpValue) -> (r: &'static str)
    ensures
        r@ == value_kind(*v),
{
    match v {
        SnmpValue::Boolean(_) => "Boolean",
        SnmpValue::Integer(_) => "Integer",
        SnmpValue::Integer64(_) => "Integer64",
        SnmpValue::Unsigned64(_) => "Unsigned64",
        SnmpValue::Gauge(_) => "Gauge",
        SnmpValue::Counter(_) => "Counter",
        SnmpValue::Counter64(_) => "Counter64",
        SnmpValue::TimeTicks(_) => "TimeTicks",
        SnmpValue::Float(_) => "Float",
        SnmpValue::Double(_) => "Double",
        SnmpValue::BitStr(_) => "BitStr",
        SnmpValue::OctetStr(_) => "OctetStr",
        SnmpValue::Oid(_) => "Oid",
        SnmpValue::IpAddress(_) => "IpAddress",
    }
}

fn mac_error(bs: &Vec<u8>) -> (r: String)
    ensures
        r@ == mac_message(bs@),
{
    let mut out: Vec<char> = Vec::new();
    push_str(&mut out, "Invalid MAC Address: \"[");
    let ghost head = out@;
    let mut i: usize = 0;
    while i < bs.len()
        invariant
            i <= bs.len(),
            out@ == head + byte_items(bs@.subrange(0, i as int)),
        decreases bs.len() - i,
    {
        let ghost prev = out@;
        if i > 0 {
            push_str(&mut out, ", ");
        }
        push_decimal(&mut out, bs[i] as u64);
        proof {
            let cur = bs@.subrange(0, i + 1);
            assert(cur.drop_last() =~= bs@.subrange(0, i as int));
            if i > 0 {
                assert(out@ =~= head + byte_items(cur));
            } else {
                assert(byte_items(cur) == decimal(bs@[0] as nat));
                assert(out@ =~= head + byte_items(cur));
            }
        }
        i = i + 1;
    }
    push_str(&mut out, "]\"");
    proof {
        assert(bs@.subrange(0, i as int) =~= bs@);
        assert(out@ =~= mac_message(bs@));
    }
    string_from_chars(out.as_slice())
}

impl ScalarSpec {
    /// The value delivered for a value received for this scalar at row
    /// `index` of `object` (see `spec_conversion`). Counters deliver the
    /// rate since their previous reading, and the reading, made at `now`,
    /// is kept in `counters`.
    pub fn get_value(&self, val: &VarResult, object: &String, index: &Oid, counters: &mut Counters, now: u128) -> (r: Option<Result<Value, DataError>>)
        requires
            bit_positions(self.value_list),
        ensures
            match spec_conversion(*self, *val) {
                Conversion::Plain(d) => {
                    &&& counters_view(*final(counters)) == counters_view(*old(counters))
                    &&& match (r, d) {
                        (Some(Ok(a)), Ok(b)) => a@ == b,
                        (Some(Err(a)), Err(b)) => a@ == b,
                        _ => false,
                    }
                },
                Conversion::Counter(v) => {
                    &&& counters_view(*final(counters)) == with_reading(counters_view(*old(counters)), object@, index@, (now, v))
                    &&& match (r, spec_counter_rate(previous_reading(counters_view(*old(counters)), object@, index@), v, now)) {
                        (Some(Ok(a)), Ok(b)) => a@ == b,
                        (Some(Err(a)), Err(b)) => a@ == b,
                        _ => false,
                    }
                },
                Conversion::Skip => r is None && counters_view(*final(counters)) == counters_view(*old(counters)),
            },
    {
        match (self.syntax, val) {
            (VarType::Boolean, Ok(SnmpValue::Boolean(v))) => Some(Ok(Value::Boolean(*v))),
            (VarType::Integer, Ok(SnmpValue::Integer(v))) => Some(self.integer_enum_from_value(*v)),
            (VarType::Integer32, Ok(SnmpValue::Integer(v))) => Some(Ok(Value::Integer(*v))),
            (VarType::Gauge, Ok(SnmpValue::Gauge(v))) => Some(Ok(Value::Integer(*v as i64))),
            (VarType::Integer64, Ok(SnmpValue::Integer64(v))) => Some(self.integer_enum_from_value(*v)),
            (VarType::Unsigned64, Ok(SnmpValue::Unsigned64(v))) => Some(self.integer_enum_from_value(*v as i64)),
            (VarType::TimeTicks, Ok(SnmpValue::TimeTicks(v))) => Some(Ok(Value::Float(FloatRepr::Ratio(*v as i128, 100)))),
            (VarType::Float, Ok(SnmpValue::Float(v))) => Some(Ok(Value::Float(FloatRepr::Ieee32(*v)))),
            (VarType::Double, Ok(SnmpValue::Double(v))) => Some(Ok(Value::Float(FloatRepr::Ieee64(*v)))),
            (VarType::BitStr, Ok(SnmpValue::BitStr(v))) => Some(self.bitstr_set_from_value(copy_bytes(v))),
            (VarType::OctetStr, Ok(SnmpValue::OctetStr(v))) => Some(self.string_enum_from_value(copy_bytes(v))),
            (VarType::Counter, Ok(SnmpValue::Counter(v))) => Some(counters.get_counter(*v, object, index, now)),
            (VarType::Counter64, Ok(SnmpValue::Counter64(v))) => Some(counters.get_counter(*v, object, index, now)),
            (VarType::Oid, Ok(SnmpValue::Oid(v))) => {
                let mut out: Vec<char> = Vec::new();
                out.push('.');
                let text = v.to_text();
                let tc = chars_of(text.as_str());
                let ghost o = out@;
                crate::common::text::push_all(&mut out, tc.as_slice());
                proof {
                    assert(out@ =~= seq!['.'] + oid_text(v@));
                }
                Some(Ok(Value::UnicodeString(string_from_chars(out.as_slice()))))
            },
            (VarType::IpAddress, Ok(SnmpValue::IpAddress(v))) => {
                let a = [(*v % 256) as u8, ((*v / 256) % 256) as u8, ((*v / 65536) % 256) as u8, (*v / 16777216) as u8];
                proof {
                    assert(a@ =~= seq![(*v % 256) as u8, ((*v / 256) % 256) as u8, ((*v / 65536) % 256) as u8, (*v / 16777216) as u8]);
                }
                Some(Ok(Value::Ipv4Address(a)))
            },
            (VarType::MacAddress, Ok(SnmpValue::OctetStr(v))) => {
                if v.len() == 6 {
                    let a = [v[0], v[1], v[2], v[3], v[4], v[5]];
                    proof {
                        assert(a@ =~= v@);
                    }
                    Some(Ok(Value::MacAddress(a)))
                } else {
                    Some(Err(DataError::TypeError(mac_error(v))))
                }
            },
            (VarType::Counter, Ok(SnmpValue::Gauge(v))) => Some(counters.get_counter(*v, object, index, now)),
            (VarType::Gauge, Ok(SnmpValue::Counter(v))) => Some(Ok(Value::Integer(*v as i64))),
            (VarType::Integer32, Ok(SnmpValue::Gauge(v))) => Some(Ok(Value::Integer(*v as i64))),
            (VarType::Gauge, Ok(SnmpValue::Counter64(v))) => Some(Ok(Value::Integer(*v as i64))),
            (VarType::BitStr, Ok(SnmpValue::OctetStr(v))) => Some(self.bitstr_set_from_value(copy_bytes(v))),
            (VarType::Integer64, Ok(SnmpValue::Counter64(v))) => Some(self.integer_enum_from_value(*v as i64)),
            (t, Ok(v)) => {
                let mut out: Vec<char> = Vec::new();
                push_str(&mut out, "Type mismatch: ");
                push_str(&mut out, kind_text(v));
                push_str(&mut out, " -> ");
                push_str(&mut out, syntax_text(t));
                push_str(&mut out, "!");
                proof {
                    assert(out@ =~= mismatch_message(*v, t));
                }
                Some(Err(DataError::TypeError(string_from_chars(out.as_slice()))))
            },
            (_, Err(ErrType::Undefined)) => Some(Err(DataError::TypeError(String::from_str("Undefined type!")))),
            (_, Err(ErrType::NotImplemented(t))) => {
                let mut out: Vec<char> = Vec::new();
                push_str(&mut out, "Unimplemented type: ");
                push_decimal(&mut out, *t as u64);
                Some(Err(DataError::TypeError(string_from_chars(out.as_slice()))))
            },
            (_, Err(_)) => None,
        }
    }
}

fn copy_bytes(v: &Vec<u8>) -> (r: Vec<u8>)
    ensures
        r@ == v@,
{
    let mut r: Vec<u8> = Vec::new();
    let mut i: usize = 0;
    while i < v.len()
        invariant
            i <= v.len(),
            r@ == v@.subrange(0, i as int),
        decreases v.len() - i,
    {
        r.push(v[i]);
        i = i + 1;
    }
    r
}

/// A value read from an index takes no more components than the index has.
pub proof fn lemma_from_index_len(s: ScalarSpec, index: Seq<u64>, implied: Option<usize>)
    requires
        index_fits(s, index, implied),
    ensures
        spec_from_index(s, index, implied) matches Ok((v, n)) ==> 0 <= n <= index.len(),
{
}

impl ScalarSpec {
    /// Whether a value of this scalar can be read from `index` without
    /// running past its end (see `index_fits`).
    pub fn fits_index(&self, index: &[u64], implied_length: Option<usize>) -> (r: bool)
        ensures
            r == index_fits(*self, index@, implied_length),
    {
        match self.variable_index_length(index, implied_length) {
            Ok((len, skip)) => {
                proof {
                    assert(index@.len() == index.len());
                }
                (len as u128) + (skip as u128) <= index.len() as u128
            },
            Err(_) => true,
        }
    }
}

/// `x` is the key of one of the choices.
pub open spec fn choice_key(cs: Seq<(i64, Seq<char>)>, x: int) -> bool {
    exists|i: int| 0 <= i < cs.len() && #[trigger] key_at(cs, i) == x
}

/// The key of the choice at `i`.
pub open spec fn key_at(cs: Seq<(i64, Seq<char>)>, i: int) -> int {
    cs[i].0 as int
}

/// A value is of a type: of the same kind, a member of an enumeration
/// among its choices (of a string enumeration among its labels), a
/// plain value or error code of its own type.
pub open spec fn value_has_type(v: ValueV, t: TypeV) -> bool
    decreases v,
{
    match v {
        ValueV::Boolean(_) => t == TypeV::Boolean,
        ValueV::Integer(_) => t == TypeV::Integer,
        ValueV::Float(_) => t == TypeV::Float,
        ValueV::UnicodeString(_) => t == TypeV::UnicodeString,
        ValueV::BinaryString(_) => t == TypeV::BinaryString,
        ValueV::Ipv4Address(_) => t == TypeV::Ipv4Address,
        ValueV::MacAddress(_) => t == TypeV::MacAddress,
        ValueV::IntEnum(x) => match t {
            TypeV::IntEnum(cs) => choice_key(cs, x),
            _ => false,
        },
        ValueV::Enum(x) => match t {
            TypeV::Enum(ls) => ls.contains(x),
            _ => false,
        },
        ValueV::EnumSet(_) => t is EnumSet,
        ValueV::ResultOk(x) => match t {
            TypeV::Result(a, _b) => value_has_type(*x, *a),
            _ => false,
        },
        ValueV::ResultErr(y) => match t {
            TypeV::Result(_a, b) => value_has_type(*y, *b),
            _ => false,
        },
        _ => false,
    }
}

proof fn lemma_int_enum_type(s: ScalarSpec, v: i64)
    requires
        spec_scalar_type(s) is Ok,
        s.syntax == VarType::Integer || s.syntax == VarType::Integer64 || s.syntax == VarType::Unsigned64,
    ensures
        spec_int_enum(s.value_list, s.error_enum, v) matches Ok(x) ==> value_has_type(x, spec_scalar_type(s)->Ok_0),
{
    if let Some(ValueList::Integer(cs)) = s.value_list {
        if has_key(cs@, v) {
            let i = choose|i: int| 0 <= i < cs@.len() && (#[trigger] cs@[i]).0 == v;
            assert(choices_view(cs@).len() == cs@.len());
            assert(choices_view(cs@)[i] == (cs@[i].0, cs@[i].1@));
            assert(key_at(choices_view(cs@), i) == v as int);
            assert(value_has_type(ValueV::IntEnum(v as int), TypeV::IntEnum(choices_view(cs@))));
        }
        assert(value_has_type(ValueV::Integer(v as int), TypeV::Integer));
    }
}

/// A scalar's values are of the scalar's type: each plain value that a
/// received variable becomes, each counter rate (the type of a counter is
/// a float, and its rates are floats) and each value read from a table
/// index.
pub proof fn law_values_have_scalar_type(s: ScalarSpec, val: VarResult, index: Seq<u64>, implied: Option<usize>, prev: Option<(u128, u64)>, new: u64, now: u128)
    requires
        spec_scalar_type(s) is Ok,
    ensures
        match spec_conversion(s, val) {
            Conversion::Plain(Ok(x)) => value_has_type(x, spec_scalar_type(s)->Ok_0),
            Conversion::Counter(_) => spec_scalar_type(s)->Ok_0 == TypeV::Float
                && (spec_counter_rate(prev, new, now) matches Ok(x) ==> value_has_type(x, TypeV::Float)),
            _ => true,
        },
        match spec_from_index(s, index, implied) {
            Ok((Ok(x), _)) => value_has_type(x, spec_scalar_type(s)->Ok_0),
            _ => true,
        },
{
    match s.syntax {
        VarType::Integer | VarType::Integer64 | VarType::Unsigned64 => {
            match val {
                Ok(SnmpValue::Integer(v)) => lemma_int_enum_type(s, v),
                Ok(SnmpValue::Integer64(v)) => lemma_int_enum_type(s, v),
                Ok(SnmpValue::Unsigned64(v)) => lemma_int_enum_type(s, v as i64),
                Ok(SnmpValue::Counter64(v)) => lemma_int_enum_type(s, v as i64),
                _ => {},
            }
            if index.len() > 0 {
                lemma_int_enum_type(s, index[0] as i64);
            }
        },
        _ => {},
    }
}

} // verus!

verus! {

/// An IPv4 address arrives as a 32-bit word that holds its first octet in
/// the low byte: the octets delivered are the bytes of the word from the
/// least to the most significant, octet `i` being `(v >> 8 i) & 0xff`.
pub proof fn law_ip_address_octets(s: ScalarSpec, v: u32)
    requires
        s.syntax == VarType::IpAddress,
    ensures
        spec_conversion(s, Ok(SnmpValue::IpAddress(v))) == Conversion::Plain(Ok(ValueV::Ipv4Address(
            seq![(v & 0xff) as u8, ((v >> 8u32) & 0xff) as u8, ((v >> 16u32) & 0xff) as u8, ((v >> 24u32) & 0xff) as u8],
        ))),
{
    assert(v % 256 == v & 0xff) by (bit_vector);
    assert((v / 256) % 256 == (v >> 8u32) & 0xff) by (bit_vector);
    assert((v / 65536) % 256 == (v >> 16u32) & 0xff) by (bit_vector);
    assert(v / 16777216 == (v >> 24u32) & 0xff) by (bit_vector);
    assert(seq![(v % 256) as u8, ((v / 256) % 256) as u8, ((v / 65536) % 256) as u8, (v / 16777216) as u8]
        =~= seq![(v & 0xff) as u8, ((v >> 8u32) & 0xff) as u8, ((v >> 16u32) & 0xff) as u8, ((v >> 24u32) & 0xff) as u8]);
}

/// Plain values arrive as they are typed: a boolean as that boolean, a
/// 32-bit integer or a gauge as that number, time ticks as hundredths of a
/// second; counters are delivered as readings of the number received, for
/// their rate to be computed.
pub proof fn law_plain_scalar_values(s: ScalarSpec, b: bool, i: i64, u: u64)
    ensures
        s.syntax == VarType::Boolean ==> spec_conversion(s, Ok(SnmpValue::Boolean(b))) == Conversion::Plain(Ok(ValueV::Boolean(b))),
        s.syntax == VarType::Integer32 ==> spec_conversion(s, Ok(SnmpValue::Integer(i))) == Conversion::Plain(Ok(ValueV::Integer(i as int))),
        (s.syntax == VarType::Integer && s.value_list is None) ==> spec_conversion(s, Ok(SnmpValue::Integer(i))) == Conversion::Plain(Ok(ValueV::Integer(i as int))),
        (s.syntax == VarType::Gauge && u <= i64::MAX) ==> spec_conversion(s, Ok(SnmpValue::Gauge(u))) == Conversion::Plain(Ok(ValueV::Integer(u as int))),
        s.syntax == VarType::TimeTicks ==> spec_conversion(s, Ok(SnmpValue::TimeTicks(u))) == Conversion::Plain(Ok(ValueV::Float(FloatV::Ratio(u as int, 100)))),
        s.syntax == VarType::Counter ==> spec_conversion(s, Ok(SnmpValue::Counter(u))) == Conversion::Counter(u),
        s.syntax == VarType::Counter64 ==> spec_conversion(s, Ok(SnmpValue::Counter64(u))) == Conversion::Counter(u),
{
}

/// A MAC address is an octet string of six bytes, delivered in order; any
/// other length is refused.
pub proof fn law_mac_address_bytes(s: ScalarSpec, v: Vec<u8>)
    requires
        s.syntax == VarType::MacAddress,
    ensures
        v@.len() == 6 ==> spec_conversion(s, Ok(SnmpValue::OctetStr(v))) == Conversion::Plain(Ok(ValueV::MacAddress(v@))),
        v@.len() != 6 ==> spec_conversion(s, Ok(SnmpValue::OctetStr(v))) matches Conversion::Plain(Err(_)),
{
}

} // verus!
