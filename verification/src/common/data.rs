//! The values that the protocols deliver, and the errors that stand in for
//! a value that could not be obtained.

use vstd::prelude::*;

verus! {

/// A floating point number, held without floating point arithmetic.
pub enum FloatRepr {
    /// An exact ratio (numerator, denominator).
    Ratio(i128, u128),
    /// The bits of an IEEE 754 double as received from a device.
    Ieee64(u64),
    /// The bits of an IEEE 754 single, widened to a double when delivered.
    Ieee32(u32),
    /// The double that a text in `f64` notation denotes.
    Text(String),
    /// The double that a text in `f64` notation denotes, divided by an
    /// integer (converted to a double).
    TextOver(String, i64),
}

/// Mathematical view of a floating point representation.
pub enum FloatV {
    Ratio(int, int),
    Ieee64(u64),
    Ieee32(u32),
    Text(Seq<char>),
    TextOver(Seq<char>, int),
}

impl View for FloatRepr {
    type V = FloatV;

    open spec fn view(&self) -> FloatV {
        match self {
            FloatRepr::Ratio(n, d) => FloatV::Ratio(*n as int, *d as int),
            FloatRepr::Ieee64(b) => FloatV::Ieee64(*b),
            FloatRepr::Ieee32(b) => FloatV::Ieee32(*b),
            FloatRepr::Text(t) => FloatV::Text(t@),
            FloatRepr::TextOver(t, d) => FloatV::TextOver(t@, *d as int),
        }
    }
}

/// A delivered value.
pub enum Value {
    Boolean(bool),
    Integer(i64),
    Float(FloatRepr),
    UnicodeString(String),
    BinaryString(Vec<u8>),
    Ipv4Address([u8; 4]),
    Ipv6Address([u16; 8]),
    MacAddress([u8; 6]),
    /// Seconds and nanoseconds since the UNIX epoch (UTC).
    Time(i64, u32),
    /// A duration in seconds.
    Age(i64),
    /// A member of an integer enumeration.
    IntEnum(i64),
    /// A member of a string enumeration.
    Enum(String),
    /// A set of members of an integer enumeration.
    EnumSet(Vec<i64>),
    /// A value that is either a plain value (`Ok`) or an error code (`Err`).
    Result(Result<Box<Value>, Box<Value>>),
}

/// The type of a delivered value.
pub enum Type {
    Boolean,
    Integer,
    Float,
    UnicodeString,
    BinaryString,
    Ipv4Address,
    Ipv6Address,
    MacAddress,
    Time,
    Age,
    /// Integer enumeration with its (value, label) choices.
    IntEnum(Vec<(i64, String)>),
    /// String enumeration with its choices.
    Enum(Vec<String>),
    /// Set of members of an integer enumeration.
    EnumSet(Vec<(i64, String)>),
    /// Either the first type (plain value) or the second (error code).
    Result(Box<Type>, Box<Type>),
}

/// Mathematical view of a type.
pub enum TypeV {
    Boolean,
    Integer,
    Float,
    UnicodeString,
    BinaryString,
    Ipv4Address,
    Ipv6Address,
    MacAddress,
    Time,
    Age,
    IntEnum(Seq<(i64, Seq<char>)>),
    Enum(Seq<Seq<char>>),
    EnumSet(Seq<(i64, Seq<char>)>),
    Result(Box<TypeV>, Box<TypeV>),
}

/// Views of (value, label) choices.
pub open spec fn choices_view(cs: Seq<(i64, String)>) -> Seq<(i64, Seq<char>)> {
    cs.map_values(|c: (i64, String)| (c.0, c.1@))
}

/// Views of a list of strings.
pub open spec fn strings_view(cs: Seq<String>) -> Seq<Seq<char>> {
    cs.map_values(|c: String| c@)
}

/// The mathematical view of a type.
pub open spec fn type_view(t: Type) -> TypeV
    decreases t,
{
    match t {
        Type::Boolean => TypeV::Boolean,
        Type::Integer => TypeV::Integer,
        Type::Float => TypeV::Float,
        Type::UnicodeString => TypeV::UnicodeString,
        Type::BinaryString => TypeV::BinaryString,
        Type::Ipv4Address => TypeV::Ipv4Address,
        Type::Ipv6Address => TypeV::Ipv6Address,
        Type::MacAddress => TypeV::MacAddress,
        Type::Time => TypeV::Time,
        Type::Age => TypeV::Age,
        Type::IntEnum(cs) => TypeV::IntEnum(choices_view(cs@)),
        Type::Enum(cs) => TypeV::Enum(strings_view(cs@)),
        Type::EnumSet(cs) => TypeV::EnumSet(choices_view(cs@)),
        Type::Result(a, b) => TypeV::Result(Box::new(type_view(*a)), Box::new(type_view(*b))),
    }
}

impl View for Type {
    type V = TypeV;

    open spec fn view(&self) -> TypeV {
        type_view(*self)
    }
}

/// A copy of a list of (value, label) choices.
pub fn copy_choices(cs: &Vec<(i64, String)>) -> (r: Vec<(i64, String)>)
    ensures
        choices_view(r@) == choices_view(cs@),
{
    let mut r: Vec<(i64, String)> = Vec::new();
    let mut i: usize = 0;
    while i < cs.len()
        invariant
            i <= cs.len(),
            choices_view(r@) == choices_view(cs@.subrange(0, i as int)),
        decreases cs.len() - i,
    {
        let ghost r0 = r@;
        r.push((cs[i].0, cs[i].1.clone()));
        proof {
            assert(cs@.subrange(0, i + 1) =~= cs@.subrange(0, i as int).push(cs@[i as int]));
            assert(choices_view(r@) =~= choices_view(r0).push((cs@[i as int].0, cs@[i as int].1@)));
            assert(choices_view(cs@.subrange(0, i + 1)) =~= choices_view(cs@.subrange(0, i as int)).push((cs@[i as int].0, cs@[i as int].1@)));
        }
        i = i + 1;
    }
    proof {
        assert(cs@.subrange(0, i as int) =~= cs@);
    }
    r
}

/// Why a value is not available.
pub enum DataError {
    Missing,
    TypeError(String),
    CounterOverflow,
    CounterPending,
    CounterUndefined,
    InvalidChoice(String),
    Parse(String, String),
    External(String),
}

/// A value or the reason it is not available.
pub type Data = Result<Value, DataError>;

/// Mathematical view of a value.
pub enum ValueV {
    Boolean(bool),
    Integer(int),
    Float(FloatV),
    UnicodeString(Seq<char>),
    BinaryString(Seq<u8>),
    Ipv4Address(Seq<u8>),
    Ipv6Address(Seq<u16>),
    MacAddress(Seq<u8>),
    Time(int, int),
    Age(int),
    IntEnum(int),
    Enum(Seq<char>),
    EnumSet(Seq<i64>),
    ResultOk(Box<ValueV>),
    ResultErr(Box<ValueV>),
}

/// The mathematical view of a value.
pub open spec fn value_view(v: Value) -> ValueV
    decreases v,
{
    match v {
        Value::Boolean(b) => ValueV::Boolean(b),
        Value::Integer(i) => ValueV::Integer(i as int),
        Value::Float(f) => ValueV::Float(f@),
        Value::UnicodeString(s) => ValueV::UnicodeString(s@),
        Value::BinaryString(b) => ValueV::BinaryString(b@),
        Value::Ipv4Address(a) => ValueV::Ipv4Address(a@),
        Value::Ipv6Address(a) => ValueV::Ipv6Address(a@),
        Value::MacAddress(a) => ValueV::MacAddress(a@),
        Value::Time(s, n) => ValueV::Time(s as int, n as int),
        Value::Age(s) => ValueV::Age(s as int),
        Value::IntEnum(i) => ValueV::IntEnum(i as int),
        Value::Enum(s) => ValueV::Enum(s@),
        Value::EnumSet(v) => ValueV::EnumSet(v@),
        Value::Result(Ok(v)) => ValueV::ResultOk(Box::new(value_view(*v))),
        Value::Result(Err(v)) => ValueV::ResultErr(Box::new(value_view(*v))),
    }
}

impl View for Value {
    type V = ValueV;

    open spec fn view(&self) -> ValueV {
        value_view(*self)
    }
}

/// Mathematical view of an error.
pub enum DataErrorV {
    Missing,
    TypeError(Seq<char>),
    CounterOverflow,
    CounterPending,
    CounterUndefined,
    InvalidChoice(Seq<char>),
    Parse(Seq<char>, Seq<char>),
    External(Seq<char>),
}

impl View for DataError {
    type V = DataErrorV;

    open spec fn view(&self) -> DataErrorV {
        match self {
            DataError::Missing => DataErrorV::Missing,
            DataError::TypeError(s) => DataErrorV::TypeError(s@),
            DataError::CounterOverflow => DataErrorV::CounterOverflow,
            DataError::CounterPending => DataErrorV::CounterPending,
            DataError::CounterUndefined => DataErrorV::CounterUndefined,
            DataError::InvalidChoice(s) => DataErrorV::InvalidChoice(s@),
            DataError::Parse(a, b) => DataErrorV::Parse(a@, b@),
            DataError::External(s) => DataErrorV::External(s@),
        }
    }
}

/// View of a value or error.
pub open spec fn data_view(d: Data) -> Result<ValueV, DataErrorV> {
    match d {
        Ok(v) => Ok(v@),
        Err(e) => Err(e@),
    }
}

fn copy_bytes(v: &Vec<u8>) -> (r: Vec<u8>)
    ensures
        r@ == v@,
{
    let mut r: Vec<u8> = Vec::new();
    let mut i: usize = 0;
    while i < v.len()
        invariant
            i <= v.len(),
            r@ == v@.subrange(0, i as int),
        decreases v.len() - i,
    {
        r.push(v[i]);
        i = i + 1;
    }
    r
}

fn copy_ints(v: &Vec<i64>) -> (r: Vec<i64>)
    ensures
        r@ == v@,
{
    let mut r: Vec<i64> = Vec::new();
    let mut i: usize = 0;
    while i < v.len()
        invariant
            i <= v.len(),
            r@ == v@.subrange(0, i as int),
        decreases v.len() - i,
    {
        r.push(v[i]);
        i = i + 1;
    }
    r
}

/// A copy of a value.
pub fn copy_value(v: &Value) -> (r: Value)
    ensures
        r@ == v@,
    decreases v,
{
    match v {
        Value::Boolean(b) => Value::Boolean(*b),
        Value::Integer(i) => Value::Integer(*i),
        Value::Float(f) => Value::Float(match f {
            FloatRepr::Ratio(a, b) => FloatRepr::Ratio(*a, *b),
            FloatRepr::Ieee64(b) => FloatRepr::Ieee64(*b),
            FloatRepr::Ieee32(b) => FloatRepr::Ieee32(*b),
            FloatRepr::Text(t) => FloatRepr::Text(t.clone()),
            FloatRepr::TextOver(t, d) => FloatRepr::TextOver(t.clone(), *d),
        }),
        Value::UnicodeString(s) => Value::UnicodeString(s.clone()),
        Value::BinaryString(b) => Value::BinaryString(copy_bytes(b)),
        Value::Ipv4Address(a) => Value::Ipv4Address(*a),
        Value::Ipv6Address(a) => Value::Ipv6Address(*a),
        Value::MacAddress(a) => Value::MacAddress(*a),
        Value::Time(s, n) => Value::Time(*s, *n),
        Value::Age(s) => Value::Age(*s),
        Value::IntEnum(i) => Value::IntEnum(*i),
        Value::Enum(s) => Value::Enum(s.clone()),
        Value::EnumSet(v) => Value::EnumSet(copy_ints(v)),
        Value::Result(Ok(b)) => {
            let inner = copy_value(&**b);
            proof {
                reveal_with_fuel(value_view, 2);
            }
            Value::Result(Ok(Box::new(inner)))
        },
        Value::Result(Err(b)) => {
            let inner = copy_value(&**b);
            proof {
                reveal_with_fuel(value_view, 2);
            }
            Value::Result(Err(Box::new(inner)))
        },
    }
}

/// A copy of an error.
pub fn copy_error(e: &DataError) -> (r: DataError)
    ensures
        r@ == e@,
{
    match e {
        DataError::Missing => DataError::Missing,
        DataError::TypeError(s) => DataError::TypeError(s.clone()),
        DataError::CounterOverflow => DataError::CounterOverflow,
        DataError::CounterPending => DataError::CounterPending,
        DataError::CounterUndefined => DataError::CounterUndefined,
        DataError::InvalidChoice(s) => DataError::InvalidChoice(s.clone()),
        DataError::Parse(a, b) => DataError::Parse(a.clone(), b.clone()),
        DataError::External(s) => DataError::External(s.clone()),
    }
}

/// A copy of a value or error.
pub fn copy_data(d: &Data) -> (r: Data)
    ensures
        data_view(r) == data_view(*d),
{
    match d {
        Ok(v) => Ok(copy_value(v)),
        Err(e) => Err(copy_error(e)),
    }
}

} // verus!
