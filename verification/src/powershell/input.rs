//! What a PowerShell query asks for: tables made by a script, fields read
//! from the script's output, and how a field's text becomes a value.

use vstd::prelude::*;

use crate::common::data::{Data, DataError, DataErrorV, FloatRepr, FloatV, Type, TypeV, Value, ValueV, choices_view, copy_choices, data_view, strings_view};
use crate::common::search::contains_string;
use crate::common::strmap::StrMap;
use crate::common::text::{chars_eq, chars_of, decimal, float_text, i64_error_text, int_error_text, is_float_text, lower_chars, lower_text, parse_i64, parse_u64, push_all, push_signed_decimal, push_str, signed_decimal, spec_parse_int, string_from_chars, str_lt, text_lt, u64_error_text};
use crate::common::time::{parse_rfc3339, rfc3339_instant};
use vstd::string::{StringExecFns, StrSliceExecFns};

verus! {

/// A table: the script to run, the shell to run it in, and how its output
/// is written.
pub struct TableSpec {
    pub command_name: String,
    pub command_line: String,
    pub shell_type: ShellType,
    pub output_type: OutputType,
    pub singleton: bool,
}

/// A field: the column of the output it reads and how to read it.
pub struct FieldSpec {
    pub parameter_name: String,
    pub parameter_header: String,
    pub parameter_type: ParamType,
    pub is_key: bool,
    pub values: Option<EnumType>,
}

/// The choices of an enumerated field.
pub enum EnumType {
    Integer(Vec<(i64, String)>),
    String(Vec<String>),
}

/// The shell a script runs in.
#[derive(Clone, Copy, PartialEq, Eq, Structural)]
pub enum ShellType {
    Powershell,
    Exchange,
}

/// How a script writes its output.
#[derive(Clone, Copy, PartialEq, Eq, Structural)]
pub enum OutputType {
    Csv,
    Json,
}

/// How a field's text is read.
#[derive(Clone, Copy, PartialEq, Eq, Structural)]
pub enum ParamType {
    String,
    Integer,
    Float,
    Boolean,
    Time,
    Age,
    Enum,
    Counter,
    Difference,
}

impl Default for ShellType {
    /// PowerShell itself.
    fn default() -> (r: ShellType)
        ensures
            r == ShellType::Powershell,
    {
        ShellType::Powershell
    }
}

impl Default for OutputType {
    /// Comma-separated values.
    fn default() -> (r: OutputType)
        ensures
            r == OutputType::Csv,
    {
        OutputType::Csv
    }
}

/// The name of a shell.
pub open spec fn shell_name(s: ShellType) -> Seq<char> {
    match s {
        ShellType::Powershell => "powershell"@,
        ShellType::Exchange => "exchange powershell"@,
    }
}

impl ShellType {
    /// The name of the shell.
    pub fn to_text(&self) -> (r: String)
        ensures
            r@ == shell_name(*self),
    {
        match self {
            ShellType::Powershell => String::from_str("powershell"),
            ShellType::Exchange => String::from_str("exchange powershell"),
        }
    }
}

/// The command that a script's output is piped into.
pub open spec fn output_function(o: OutputType) -> Seq<char> {
    match o {
        OutputType::Csv => "ConvertTo-Csv -NoTypeInformation"@,
        OutputType::Json => "ConvertTo-Json -Compress -EnumsAsStrings"@,
    }
}

impl OutputType {
    /// The command that a script's output is piped into.
    pub fn as_function(&self) -> (r: &'static str)
        ensures
            r@ == output_function(*self),
    {
        match self {
            OutputType::Csv => "ConvertTo-Csv -NoTypeInformation",
            OutputType::Json => "ConvertTo-Json -Compress -EnumsAsStrings",
        }
    }
}

/// Why a field has no type.
pub enum TypeError {
    /// An enumerated field without choices (its name).
    EnumMissingVars(String),
}

/// The type of a field; an enumeration needs its choices.
pub open spec fn field_type(f: FieldSpec) -> Result<TypeV, Seq<char>> {
    match f.parameter_type {
        ParamType::String => Ok(TypeV::UnicodeString),
        ParamType::Integer | ParamType::Difference => Ok(TypeV::Integer),
        ParamType::Float | ParamType::Counter => Ok(TypeV::Float),
        ParamType::Boolean => Ok(TypeV::Boolean),
        ParamType::Time => Ok(TypeV::Time),
        ParamType::Age => Ok(TypeV::Age),
        ParamType::Enum => match f.values {
            None => Err(f.parameter_name@),
            Some(EnumType::Integer(cs)) => Ok(TypeV::IntEnum(choices_view(cs@))),
            Some(EnumType::String(cs)) => Ok(TypeV::Enum(strings_view(cs@))),
        },
    }
}

fn copy_strings(vs: &Vec<String>) -> (r: Vec<String>)
    ensures
        strings_view(r@) == strings_view(vs@),
{
    let mut r: Vec<String> = Vec::new();
    let mut i: usize = 0;
    while i < vs.len()
        invariant
            i <= vs@.len(),
            strings_view(r@) == strings_view(vs@.take(i as int)),
        decreases vs.len() - i,
    {
        let ghost r0 = strings_view(r@);
        r.push(vs[i].clone());
        proof {
            assert(strings_view(r@) =~= r0.push(vs@[i as int]@));
            assert(strings_view(vs@.take(i + 1)) =~= strings_view(vs@.take(i as int)).push(vs@[i as int]@));
        }
        i = i + 1;
    }
    proof {
        assert(vs@.take(i as int) =~= vs@);
    }
    r
}

/// What reading a field's text gives: a value, or a reading of a counter
/// (under its key) whose value the counter store computes.
pub enum Parsed {
    Done(Data),
    /// A counter reading: its rate comes from the counter store.
    Counter(String, u64),
    /// A counter reading: its difference comes from the counter store.
    Difference(String, u64),
}

/// View of what reading a field's text gives.
pub enum ParsedV {
    Done(Result<ValueV, DataErrorV>),
    Counter(Seq<char>, u64),
    Difference(Seq<char>, u64),
}

/// View of a reading.
pub open spec fn parsed_view(p: Parsed) -> ParsedV {
    match p {
        Parsed::Done(d) => ParsedV::Done(data_view(d)),
        Parsed::Counter(k, v) => ParsedV::Counter(k@, v),
        Parsed::Difference(k, v) => ParsedV::Difference(k@, v),
    }
}

/// The text of std's error for a text that is no float.
pub open spec fn float_error_text(s: Seq<char>) -> Seq<char> {
    if s.len() == 0 { "cannot parse float from empty string"@ } else { "invalid float literal"@ }
}

/// The text with each `,` replaced by `.`.
pub open spec fn comma_to_point(s: Seq<char>) -> Seq<char> {
    s.map_values(|c: char| if c == ',' { '.' } else { c })
}

/// How a field's text is read:
/// - text as it is; integers and times as std and `chrono` read them;
/// - a float as it is, else with decimal commas as points;
/// - a boolean as `true` or `false` in any case;
/// - an enumeration member by its choices;
/// - a counter or difference as an unsigned integer, handed to the
///   counter store under `<row key>.<field name>`.
pub open spec fn parse_value_of(f: FieldSpec, value: Seq<char>, row_key: Seq<char>) -> ParsedV {
    let key = row_key + "."@ + f.parameter_name@;
    match f.parameter_type {
        ParamType::String => ParsedV::Done(Ok(ValueV::UnicodeString(value))),
        ParamType::Integer => ParsedV::Done(match spec_parse_int(value, i64::MIN as int, i64::MAX as int) {
            Some(x) => Ok(ValueV::Integer(x)),
            None => Err(DataErrorV::TypeError(int_error_text(value, i64::MIN as int, i64::MAX as int))),
        }),
        ParamType::Float => ParsedV::Done(if is_float_text(value) {
            Ok(ValueV::Float(FloatV::Text(value)))
        } else if is_float_text(comma_to_point(value)) {
            Ok(ValueV::Float(FloatV::Text(comma_to_point(value))))
        } else {
            Err(DataErrorV::TypeError(float_error_text(value)))
        }),
        ParamType::Boolean => ParsedV::Done(if lower_text(value) == "true"@ {
            Ok(ValueV::Boolean(true))
        } else if lower_text(value) == "false"@ {
            Ok(ValueV::Boolean(false))
        } else {
            Err(DataErrorV::TypeError(value + " is not a boolean"@))
        }),
        ParamType::Time => ParsedV::Done(match rfc3339_instant(value) {
            Ok(t) => Ok(ValueV::Time(t.0 as int, t.1 as int)),
            Err(e) => Err(DataErrorV::TypeError(e)),
        }),
        ParamType::Age => ParsedV::Done(Err(DataErrorV::Missing)),
        ParamType::Enum => ParsedV::Done(match f.values {
            None => Err(DataErrorV::TypeError("No enum variables set"@)),
            Some(EnumType::Integer(cs)) => match spec_parse_int(value, i64::MIN as int, i64::MAX as int) {
                None => Err(DataErrorV::TypeError(int_error_text(value, i64::MIN as int, i64::MAX as int))),
                Some(x) => if exists|i: int| 0 <= i < cs@.len() && (#[trigger] cs@[i]).0 == x {
                    Ok(ValueV::IntEnum(x))
                } else {
                    Err(DataErrorV::InvalidChoice(signed_decimal(x)))
                },
            },
            Some(EnumType::String(cs)) => if strings_view(cs@).contains(value) {
                Ok(ValueV::Enum(value))
            } else {
                Err(DataErrorV::InvalidChoice(value))
            },
        }),
        ParamType::Counter => match spec_parse_int(value, 0, u64::MAX as int) {
            Some(x) => ParsedV::Counter(key, x as u64),
            None => ParsedV::Done(Err(DataErrorV::TypeError(int_error_text(value, 0, u64::MAX as int)))),
        },
        ParamType::Difference => match spec_parse_int(value, 0, u64::MAX as int) {
            Some(x) => ParsedV::Difference(key, x as u64),
            None => ParsedV::Done(Err(DataErrorV::TypeError(int_error_text(value, 0, u64::MAX as int)))),
        },
    }
}

fn has_int_choice(cs: &Vec<(i64, String)>, x: i64) -> (r: bool)
    ensures
        r == exists|i: int| 0 <= i < cs@.len() && (#[trigger] cs@[i]).0 == x,
{
    let mut i: usize = 0;
    while i < cs.len()
        invariant
            i <= cs@.len(),
            forall|j: int| 0 <= j < i ==> (#[trigger] cs@[j]).0 != x,
        decreases cs.len() - i,
    {
        if cs[i].0 == x {
            return true;
        }
        i = i + 1;
    }
    false
}

impl FieldSpec {
    /// The type of the field (see `field_type`).
    pub fn get_type(&self) -> (r: Result<Type, TypeError>)
        ensures
            match (r, field_type(*self)) {
                (Ok(t), Ok(v)) => t@ == v,
                (Err(TypeError::EnumMissingVars(n)), Err(m)) => n@ == m,
                _ => false,
            },
    {
        match self.parameter_type {
            ParamType::String => Ok(Type::UnicodeString),
            ParamType::Integer | ParamType::Difference => Ok(Type::Integer),
            ParamType::Float | ParamType::Counter => Ok(Type::Float),
            ParamType::Boolean => Ok(Type::Boolean),
            ParamType::Time => Ok(Type::Time),
            ParamType::Age => Ok(Type::Age),
            ParamType::Enum => match &self.values {
                None => Err(TypeError::EnumMissingVars(self.parameter_name.clone())),
                Some(EnumType::Integer(cs)) => Ok(Type::IntEnum(copy_choices(cs))),
                Some(EnumType::String(cs)) => Ok(Type::Enum(copy_strings(cs))),
            },
        }
    }

    /// Reads the field's text (see `parse_value_of`). Ages are not read.
    pub fn parse_value(&self, value: String, row_key: &str) -> (r: Parsed)
        requires
            self.parameter_type != ParamType::Age,
        ensures
            parsed_view(r) == parse_value_of(*self, value@, row_key@),
    {
        match self.parameter_type {
            ParamType::String => Parsed::Done(Ok(Value::UnicodeString(value))),
            ParamType::Integer => match parse_i64(value.as_str()) {
                Some(x) => Parsed::Done(Ok(Value::Integer(x))),
                None => Parsed::Done(Err(DataError::TypeError(i64_error_text(value.as_str())))),
            },
            ParamType::Float => {
                if float_text(value.as_str()) {
                    Parsed::Done(Ok(Value::Float(FloatRepr::Text(value))))
                } else {
                    let cs = chars_of(value.as_str());
                    let mut out: Vec<char> = Vec::new();
                    let mut i: usize = 0;
                    while i < cs.len()
                        invariant
                            i <= cs@.len(),
                            out@ == comma_to_point(cs@.take(i as int)),
                        decreases cs.len() - i,
                    {
                        out.push(if cs[i] == ',' { '.' } else { cs[i] });
                        proof {
                            assert(out@ =~= comma_to_point(cs@.take(i + 1)));
                        }
                        i = i + 1;
                    }
                    proof {
                        assert(cs@.take(i as int) =~= cs@);
                    }
                    let replaced = string_from_chars(out.as_slice());
                    if float_text(replaced.as_str()) {
                        Parsed::Done(Ok(Value::Float(FloatRepr::Text(replaced))))
                    } else if cs.len() == 0 {
                        Parsed::Done(Err(DataError::TypeError(String::from_str("cannot parse float from empty string"))))
                    } else {
                        Parsed::Done(Err(DataError::TypeError(String::from_str("invalid float literal"))))
                    }
                }
            },
            ParamType::Boolean => {
                let lower = lower_chars(chars_of(value.as_str()).as_slice());
                let t = chars_of("true");
                let f = chars_of("false");
                if chars_eq(lower.as_slice(), t.as_slice()) {
                    Parsed::Done(Ok(Value::Boolean(true)))
                } else if chars_eq(lower.as_slice(), f.as_slice()) {
                    Parsed::Done(Ok(Value::Boolean(false)))
                } else {
                    let mut out: Vec<char> = Vec::new();
                    push_str(&mut out, value.as_str());
                    push_str(&mut out, " is not a boolean");
                    Parsed::Done(Err(DataError::TypeError(string_from_chars(out.as_slice()))))
                }
            },
            ParamType::Time => match parse_rfc3339(value.as_str()) {
                Ok(t) => Parsed::Done(Ok(Value::Time(t.0, t.1))),
                Err(e) => Parsed::Done(Err(DataError::TypeError(e))),
            },
            ParamType::Age => Parsed::Done(Err(DataError::Missing)),
            ParamType::Enum => match &self.values {
                None => Parsed::Done(Err(DataError::TypeError(String::from_str("No enum variables set")))),
                Some(EnumType::Integer(cs)) => match parse_i64(value.as_str()) {
                    None => Parsed::Done(Err(DataError::TypeError(i64_error_text(value.as_str())))),
                    Some(x) => if has_int_choice(cs, x) {
                        Parsed::Done(Ok(Value::IntEnum(x)))
                    } else {
                        let mut out: Vec<char> = Vec::new();
                        push_signed_decimal(&mut out, x);
                        Parsed::Done(Err(DataError::InvalidChoice(string_from_chars(out.as_slice()))))
                    },
                },
                Some(EnumType::String(cs)) => if contains_string(cs, &value) {
                    Parsed::Done(Ok(Value::Enum(value)))
                } else {
                    Parsed::Done(Err(DataError::InvalidChoice(value)))
                },
            },
            ParamType::Counter | ParamType::Difference => match parse_u64(value.as_str()) {
                None => Parsed::Done(Err(DataError::TypeError(u64_error_text(value.as_str())))),
                Some(x) => {
                    let mut out: Vec<char> = Vec::new();
                    push_str(&mut out, row_key);
                    push_str(&mut out, ".");
                    push_str(&mut out, self.parameter_name.as_str());
                    let key = string_from_chars(out.as_slice());
                    if self.parameter_type == ParamType::Counter {
                        Parsed::Counter(key, x)
                    } else {
                        Parsed::Difference(key, x)
                    }
                },
            },
        }
    }
}

} // verus!
