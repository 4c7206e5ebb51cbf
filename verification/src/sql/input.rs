//! The SQL input specification: tables (queries) and fields (columns), and
//! how column texts become delivered values.

use vstd::prelude::*;

use crate::common::data::{DataError, DataErrorV, FloatRepr, FloatV, Type, TypeV, Value, ValueV, choices_view, copy_choices, strings_view};
use crate::common::strmap::StrMap;
use crate::common::text::{float_text, i64_error_text, int_error_text, is_float_text, parse_i64, push_signed_decimal, push_str, signed_decimal, spec_parse_int, string_from_chars, trim_text, trimmed};
use crate::common::time::{parse_rfc3339, rfc3339_instant};
use crate::wmi::counters::WmiCounter;
use vstd::string::StringExecFns;

verus! {

/// The declared type of a column.
#[derive(Clone, Copy, PartialEq, Eq, Structural)]
pub enum SqlDataType {
    String,
    Binary,
    Enum,
    Integer,
    Float,
    Bool,
    DateTime,
    Age,
    Counter,
    Difference,
}

/// Name of a column type.
pub open spec fn data_type_name(t: SqlDataType) -> Seq<char> {
    match t {
        SqlDataType::String => "String"@,
        SqlDataType::Binary => "Binary"@,
        SqlDataType::Enum => "enum"@,
        SqlDataType::Integer => "Integer"@,
        SqlDataType::Float => "Float"@,
        SqlDataType::Bool => "Bool"@,
        SqlDataType::DateTime => "DateTime"@,
        SqlDataType::Age => "Age"@,
        SqlDataType::Counter => "Counter"@,
        SqlDataType::Difference => "Difference"@,
    }
}

impl SqlDataType {
    /// The name of the type.
    pub fn to_string(&self) -> (r: String)
        ensures
            r@ == data_type_name(*self),
    {
        match self {
            SqlDataType::String => String::from_str("String"),
            SqlDataType::Binary => String::from_str("Binary"),
            SqlDataType::Enum => String::from_str("enum"),
            SqlDataType::Integer => String::from_str("Integer"),
            SqlDataType::Float => String::from_str("Float"),
            SqlDataType::Bool => String::from_str("Bool"),
            SqlDataType::DateTime => String::from_str("DateTime"),
            SqlDataType::Age => String::from_str("Age"),
            SqlDataType::Counter => String::from_str("Counter"),
            SqlDataType::Difference => String::from_str("Difference"),
        }
    }
}

/// The database flavour, which decides connection strings, queries and
/// table transformations.
#[derive(Clone, Copy, PartialEq, Eq, Structural)]
pub enum SqlPlugin {
    Odbc,
    Mssql,
    Oracle,
}

impl Default for SqlPlugin {
    fn default() -> (r: SqlPlugin)
        ensures
            r == SqlPlugin::Odbc,
    {
        SqlPlugin::Odbc
    }
}

impl SqlPlugin {
    /// The name of the flavour.
    pub fn to_string(&self) -> (r: String)
        ensures
            r@ == match *self {
                SqlPlugin::Odbc => "ODBC"@,
                SqlPlugin::Mssql => "MSSQL"@,
                SqlPlugin::Oracle => "Oracle"@,
            },
    {
        match self {
            SqlPlugin::Odbc => String::from_str("ODBC"),
            SqlPlugin::Mssql => String::from_str("MSSQL"),
            SqlPlugin::Oracle => String::from_str("Oracle"),
        }
    }
}

/// The values of an enumerated column: integers with labels, or strings.
pub enum ValueTypes {
    Integer(Vec<(i64, String)>),
    String(Vec<String>),
}

/// A data table: a query, possibly on every database of the server.
pub struct TableSpec {
    pub fields: Vec<String>,
    pub sql_table_name: String,
    pub sql_table_query: Option<String>,
    pub plugin: Option<SqlPlugin>,
    pub database_query: Option<String>,
    pub is_table: bool,
}

/// A data field: a selected column.
pub struct FieldSpec {
    /// The select expression.
    pub column_request: String,
    /// The name of the column in the result.
    pub column_name: String,
    pub parameter_type: SqlDataType,
    pub counter_type: Option<WmiCounter>,
    pub is_key: bool,
    pub values: Option<ValueTypes>,
}

/// Why a field cannot be used.
#[derive(Clone, Copy, PartialEq, Eq, Structural)]
pub enum SqlError {
    /// An enumerated field without values.
    NoValueType,
}

/// The type of an enumeration.
pub open spec fn value_types_type(v: ValueTypes) -> TypeV {
    match v {
        ValueTypes::Integer(m) => TypeV::IntEnum(choices_view(m@)),
        ValueTypes::String(s) => TypeV::Enum(strings_view(s@)),
    }
}

/// `x` is one of the values of an integer enumeration.
pub open spec fn has_choice(m: Seq<(i64, String)>, x: int) -> bool {
    exists|i: int| 0 <= i < m.len() && (#[trigger] m[i]).0 == x
}

fn find_choice(m: &Vec<(i64, String)>, x: i64) -> (r: bool)
    ensures
        r == has_choice(m@, x as int),
{
    let mut i: usize = 0;
    while i < m.len()
        invariant
            i <= m@.len(),
            forall|j: int| 0 <= j < i ==> (#[trigger] m@[j]).0 != x,
        decreases m.len() - i,
    {
        if m[i].0 == x {
            proof {
                assert(m@[i as int].0 == x);
            }
            return true;
        }
        i = i + 1;
    }
    false
}

/// A text as a member of an enumeration.
pub open spec fn spec_parse_val(v: ValueTypes, value: Seq<char>) -> Result<ValueV, DataErrorV> {
    match v {
        ValueTypes::String(s) => if strings_view(s@).contains(value) {
            Ok(ValueV::Enum(value))
        } else {
            Err(DataErrorV::InvalidChoice(value))
        },
        ValueTypes::Integer(m) => match spec_parse_int(value, i64::MIN as int, i64::MAX as int) {
            None => Err(DataErrorV::TypeError("Cannot parse "@ + value + " to an integer-enum: "@ + int_error_text(value, i64::MIN as int, i64::MAX as int))),
            Some(x) => if has_choice(m@, x) {
                Ok(ValueV::IntEnum(x))
            } else {
                Err(DataErrorV::InvalidChoice(signed_decimal(x)))
            },
        },
    }
}

fn copy_strings(vs: &Vec<String>) -> (r: Vec<String>)
    ensures
        strings_view(r@) == strings_view(vs@),
{
    let mut r: Vec<String> = Vec::new();
    let mut i: usize = 0;
    while i < vs.len()
        invariant
            i <= vs@.len(),
            strings_view(r@) == strings_view(vs@.take(i as int)),
        decreases vs.len() - i,
    {
        let ghost r0 = r@;
        r.push(vs[i].clone());
        proof {
            assert(strings_view(r@) =~= strings_view(r0).push(vs@[i as int]@));
            assert(strings_view(vs@.take(i + 1)) =~= strings_view(vs@.take(i as int)).push(vs@[i as int]@));
        }
        i = i + 1;
    }
    proof {
        assert(vs@.take(i as int) =~= vs@);
    }
    r
}

fn concat2(a: &str, b: &str) -> (r: String)
    ensures
        r@ == a@ + b@,
{
    let mut out: Vec<char> = Vec::new();
    push_str(&mut out, a);
    push_str(&mut out, b);
    string_from_chars(out.as_slice())
}

fn concat3(a: &str, b: &str, c: &str) -> (r: String)
    ensures
        r@ == a@ + b@ + c@,
{
    let mut out: Vec<char> = Vec::new();
    push_str(&mut out, a);
    push_str(&mut out, b);
    push_str(&mut out, c);
    string_from_chars(out.as_slice())
}

impl ValueTypes {
    /// The type of the enumeration.
    pub fn get_type(&self) -> (r: Type)
        ensures
            r@ == value_types_type(*self),
    {
        match self {
            ValueTypes::Integer(m) => Type::IntEnum(copy_choices(m)),
            ValueTypes::String(s) => Type::Enum(copy_strings(s)),
        }
    }

    /// A text as a member of the enumeration (see `spec_parse_val`).
    pub fn parse_val(&self, value: &str) -> (r: Result<Value, DataError>)
        ensures
            match (r, spec_parse_val(*self, value@)) {
                (Ok(a), Ok(b)) => a@ == b,
                (Err(a), Err(b)) => a@ == b,
                _ => false,
            },
    {
        match self {
            ValueTypes::String(s) => {
                let v = String::from_str(value);
                let mut i: usize = 0;
                while i < s.len()
                    invariant
                        i <= s@.len(),
                        v@ == value@,
                        *self == ValueTypes::String(*s),
                        forall|j: int| 0 <= j < i ==> (#[trigger] s@[j])@ != value@,
                    decreases s.len() - i,
                {
                    if s[i] == v {
                        proof {
                            assert(strings_view(s@)[i as int] == value@);
                            assert(strings_view(s@).contains(value@));
                        }
                        return Ok(Value::Enum(v));
                    }
                    i = i + 1;
                }
                proof {
                    let names = strings_view(s@);
                    assert forall|j: int| 0 <= j < names.len() implies #[trigger] names[j] != value@ by {
                        assert(names[j] == s@[j]@);
                    }
                }
                Err(DataError::InvalidChoice(v))
            },
            ValueTypes::Integer(m) => match parse_i64(value) {
                None => {
                    let e = i64_error_text(value);
                    let msg = concat3("Cannot parse ", value, " to an integer-enum: ");
                    let mut out: Vec<char> = Vec::new();
                    push_str(&mut out, msg.as_str());
                    push_str(&mut out, e.as_str());
                    proof {
                        assert(out@ =~= "Cannot parse "@ + value@ + " to an integer-enum: "@ + int_error_text(value@, i64::MIN as int, i64::MAX as int));
                    }
                    Err(DataError::TypeError(string_from_chars(out.as_slice())))
                },
                Some(x) => {
                    if find_choice(m, x) {
                        return Ok(Value::IntEnum(x));
                    }
                    let mut out: Vec<char> = Vec::new();
                    push_signed_decimal(&mut out, x);
                    Err(DataError::InvalidChoice(string_from_chars(out.as_slice())))
                },
            },
        }
    }
}

/// The query of a table: the requests of the fields after `SELECT`,
/// separated by `, `, then on the next line `FROM` and the table name
/// (none when the name is empty or `None`).
pub open spec fn table_query(requests: Seq<Seq<char>>, table: Seq<char>) -> Seq<char> {
    "SELECT "@ + join_list(requests, ", "@) + "\n"@ + (if table.len() == 0 || table == "None"@ {
        Seq::empty()
    } else {
        "FROM "@ + table
    })
}

/// Texts joined by a separator.
pub open spec fn join_list(items: Seq<Seq<char>>, sep: Seq<char>) -> Seq<char>
    decreases items.len(),
{
    if items.len() == 0 {
        Seq::empty()
    } else if items.len() == 1 {
        items[0]
    } else {
        join_list(items.drop_last(), sep) + sep + items.last()
    }
}

/// Joins texts with a separator (see `join_list`).
pub fn join_texts(items: &Vec<String>, sep: &str) -> (r: String)
    ensures
        r@ == join_list(strings_view(items@), sep@),
{
    let ghost iv = strings_view(items@);
    let mut out: Vec<char> = Vec::new();
    let mut i: usize = 0;
    while i < items.len()
        invariant
            i <= items@.len(),
            iv == strings_view(items@),
            out@ == join_list(iv.take(i as int), sep@),
        decreases items.len() - i,
    {
        proof {
            assert(iv.take(i + 1).drop_last() =~= iv.take(i as int));
            assert(iv.take(i + 1).last() == items@[i as int]@);
        }
        if i > 0 {
            push_str(&mut out, sep);
        }
        push_str(&mut out, items[i].as_str());
        proof {
            if i == 0 {
                assert(out@ =~= join_list(iv.take(1), sep@));
            } else {
                assert(out@ =~= join_list(iv.take(i + 1), sep@));
            }
        }
        i = i + 1;
    }
    proof {
        assert(iv.take(i as int) =~= iv);
    }
    string_from_chars(out.as_slice())
}

/// The requests of fields.
pub open spec fn requests(fields: Seq<&FieldSpec>) -> Seq<Seq<char>> {
    fields.map_values(|f: &FieldSpec| f.column_request@)
}

impl TableSpec {
    /// The query of this table for the given fields (see `table_query`).
    pub fn to_query(&self, fields: &Vec<&FieldSpec>) -> (r: String)
        ensures
            r@ == table_query(requests(fields@), self.sql_table_name@),
    {
        let mut reqs: Vec<String> = Vec::new();
        let mut i: usize = 0;
        while i < fields.len()
            invariant
                i <= fields@.len(),
                strings_view(reqs@) == requests(fields@.take(i as int)),
            decreases fields.len() - i,
        {
            let ghost r0 = strings_view(reqs@);
            reqs.push(fields[i].column_request.clone());
            proof {
                assert(strings_view(reqs@) =~= r0.push(fields@[i as int].column_request@));
                assert(requests(fields@.take(i + 1)) =~= requests(fields@.take(i as int)).push(fields@[i as int].column_request@));
            }
            i = i + 1;
        }
        proof {
            assert(fields@.take(i as int) =~= fields@);
        }
        let joined = join_texts(&reqs, ", ");
        let none = String::from_str("None");
        let mut out: Vec<char> = Vec::new();
        push_str(&mut out, "SELECT ");
        push_str(&mut out, joined.as_str());
        push_str(&mut out, "\n");
        if !(self.sql_table_name.as_str().unicode_len() == 0 || self.sql_table_name == none) {
            push_str(&mut out, "FROM ");
            push_str(&mut out, self.sql_table_name.as_str());
        }
        proof {
            assert(out@ =~= table_query(requests(fields@), self.sql_table_name@));
        }
        string_from_chars(out.as_slice())
    }
}

/// The type of the values of a field.
pub open spec fn spec_sql_field_type(f: FieldSpec) -> Result<TypeV, SqlError> {
    match f.parameter_type {
        SqlDataType::String => Ok(TypeV::UnicodeString),
        SqlDataType::Enum => match f.values {
            Some(v) => Ok(value_types_type(v)),
            None => Err(SqlError::NoValueType),
        },
        SqlDataType::Integer | SqlDataType::Difference => Ok(TypeV::Integer),
        SqlDataType::Float | SqlDataType::Counter => Ok(TypeV::Float),
        SqlDataType::Bool => Ok(TypeV::Boolean),
        SqlDataType::DateTime => Ok(TypeV::Time),
        SqlDataType::Age => Ok(TypeV::Age),
        SqlDataType::Binary => Err(SqlError::NoValueType),
    }
}

/// A plain column text read as its declared type (neither a counter nor a
/// difference; binary columns are not supported).
pub open spec fn spec_plain_value(t: SqlDataType, values: Option<ValueTypes>, val: Seq<char>) -> Result<ValueV, DataErrorV> {
    match t {
        SqlDataType::String => Ok(ValueV::UnicodeString(val)),
        SqlDataType::Enum => match values {
            Some(v) => spec_parse_val(v, val),
            None => Err(DataErrorV::InvalidChoice("No choices set for this enum"@)),
        },
        SqlDataType::Integer => match spec_parse_int(trimmed(val), i64::MIN as int, i64::MAX as int) {
            Some(x) => Ok(ValueV::Integer(x)),
            None => Err(DataErrorV::TypeError("Cannot parse "@ + val + " to an integer: "@ + int_error_text(trimmed(val), i64::MIN as int, i64::MAX as int))),
        },
        SqlDataType::Float => if is_float_text(trimmed(val)) {
            Ok(ValueV::Float(FloatV::Text(trimmed(val))))
        } else {
            Err(DataErrorV::TypeError("Cannot parse "@ + val + " to a float: "@ + (if trimmed(val).len() == 0 { "cannot parse float from empty string"@ } else { "invalid float literal"@ })))
        },
        SqlDataType::Bool => if val == "0"@ {
            Ok(ValueV::Boolean(false))
        } else if val == "1"@ {
            Ok(ValueV::Boolean(true))
        } else {
            Err(DataErrorV::TypeError("Cannot parse "@ + val + " to a boolean"@))
        },
        SqlDataType::DateTime => match rfc3339_instant(val) {
            Ok((s, n)) => Ok(ValueV::Time(s as int, n as int)),
            Err(e) => Err(DataErrorV::TypeError("Cannot parse "@ + val + " to a datetime (rfc3339 required): "@ + e)),
        },
        SqlDataType::Age => match spec_parse_int(val, i64::MIN as int, i64::MAX as int) {
            Some(x) => Ok(ValueV::Age(x)),
            None => Err(DataErrorV::TypeError("Cannot parse "@ + val + " to an integer: "@ + int_error_text(val, i64::MIN as int, i64::MAX as int))),
        },
        _ => Err(DataErrorV::Missing),
    }
}

impl FieldSpec {
    /// `<request> AS <name>`.
    pub fn to_select_statement(&self) -> (r: String)
        ensures
            r@ == self.column_request@ + " AS "@ + self.column_name@,
    {
        concat3(self.column_request.as_str(), " AS ", self.column_name.as_str())
    }

    /// The type of the values of this field. Binary columns are not
    /// supported.
    pub fn get_type(&self) -> (r: Result<Type, SqlError>)
        requires
            self.parameter_type != SqlDataType::Binary,
        ensures
            match (r, spec_sql_field_type(*self)) {
                (Ok(a), Ok(b)) => a@ == b,
                (Err(a), Err(b)) => a == b,
                _ => false,
            },
    {
        match self.parameter_type {
            SqlDataType::String => Ok(Type::UnicodeString),
            SqlDataType::Enum => match &self.values {
                Some(v) => Ok(v.get_type()),
                None => Err(SqlError::NoValueType),
            },
            SqlDataType::Integer | SqlDataType::Difference => Ok(Type::Integer),
            SqlDataType::Float | SqlDataType::Counter => Ok(Type::Float),
            SqlDataType::Bool => Ok(Type::Boolean),
            SqlDataType::DateTime => Ok(Type::Time),
            SqlDataType::Age => Ok(Type::Age),
            SqlDataType::Binary => Err(SqlError::NoValueType),
        }
    }
}

/// Takes the text of a plain column out of a row and reads it as the
/// field's type (see `spec_plain_value`); missing when the row has none.
pub fn parse_plain_value(row: &mut StrMap<String>, field: &FieldSpec) -> (r: Result<Value, DataError>)
    requires
        field.parameter_type != SqlDataType::Binary,
        field.parameter_type != SqlDataType::Counter,
        field.parameter_type != SqlDataType::Difference,
    ensures
        !old(row)@.contains_key(field.column_name@) ==> r matches Err(DataError::Missing),
        old(row)@.contains_key(field.column_name@) ==> match (r, spec_plain_value(field.parameter_type, field.values, old(row)@[field.column_name@]@)) {
            (Ok(a), Ok(b)) => a@ == b,
            (Err(a), Err(b)) => a@ == b,
            _ => false,
        },
        final(row)@ == old(row)@.remove(field.column_name@),
{
    let val = match row.take(&field.column_name) {
        Some(v) => v,
        None => return Err(DataError::Missing),
    };
    match field.parameter_type {
        SqlDataType::String => Ok(Value::UnicodeString(val)),
        SqlDataType::Enum => match &field.values {
            Some(v) => v.parse_val(val.as_str()),
            None => Err(DataError::InvalidChoice(String::from_str("No choices set for this enum"))),
        },
        SqlDataType::Integer => {
            let t = trim_text(val.as_str());
            match parse_i64(t.as_str()) {
                Some(x) => Ok(Value::Integer(x)),
                None => {
                    let e = i64_error_text(t.as_str());
                    let head = concat3("Cannot parse ", val.as_str(), " to an integer: ");
                    Err(DataError::TypeError(concat2(head.as_str(), e.as_str())))
                },
            }
        },
        SqlDataType::Float => {
            let t = trim_text(val.as_str());
            if float_text(t.as_str()) {
                Ok(Value::Float(FloatRepr::Text(t)))
            } else {
                let reason = if t.as_str().unicode_len() == 0 { "cannot parse float from empty string" } else { "invalid float literal" };
                let head = concat3("Cannot parse ", val.as_str(), " to a float: ");
                Err(DataError::TypeError(concat2(head.as_str(), reason)))
            }
        },
        SqlDataType::Bool => {
            let zero = String::from_str("0");
            let one = String::from_str("1");
            if val == zero {
                Ok(Value::Boolean(false))
            } else if val == one {
                Ok(Value::Boolean(true))
            } else {
                Err(DataError::TypeError(concat3("Cannot parse ", val.as_str(), " to a boolean")))
            }
        },
        SqlDataType::DateTime => match parse_rfc3339(val.as_str()) {
            Ok((s, n)) => Ok(Value::Time(s, n)),
            Err(e) => {
                let head = concat3("Cannot parse ", val.as_str(), " to a datetime (rfc3339 required): ");
                Err(DataError::TypeError(concat2(head.as_str(), e.as_str())))
            },
        },
        SqlDataType::Age => match parse_i64(val.as_str()) {
            Some(x) => Ok(Value::Age(x)),
            None => {
                let e = i64_error_text(val.as_str());
                let head = concat3("Cannot parse ", val.as_str(), " to an integer: ");
                Err(DataError::TypeError(concat2(head.as_str(), e.as_str())))
            },
        },
        _ => Err(DataError::Missing),
    }
}

} // verus!

verus! {

/// A boolean column holds `0` for false and `1` for true: every text reads
/// as the boolean it writes, and any other text is refused.
pub proof fn law_bool_column_reads_bits(values: Option<ValueTypes>, t: Seq<char>)
    ensures
        t == "0"@ ==> spec_plain_value(SqlDataType::Bool, values, t) == Ok::<ValueV, DataErrorV>(ValueV::Boolean(false)),
        t == "1"@ ==> spec_plain_value(SqlDataType::Bool, values, t) == Ok::<ValueV, DataErrorV>(ValueV::Boolean(true)),
        (t != "0"@ && t != "1"@) ==> spec_plain_value(SqlDataType::Bool, values, t) is Err,
{
    reveal_strlit("0");
    reveal_strlit("1");
    assert("0"@.len() == 1 && "1"@.len() == 1 && "0"@[0] != "1"@[0]);
    assert("0"@ != "1"@);
}

/// A text column holds the text as it is; an integer column holds the
/// number that its text writes, spaces around it aside.
pub proof fn law_text_and_integer_columns(values: Option<ValueTypes>, t: Seq<char>)
    ensures
        spec_plain_value(SqlDataType::String, values, t) == Ok::<ValueV, DataErrorV>(ValueV::UnicodeString(t)),
        spec_parse_int(trimmed(t), i64::MIN as int, i64::MAX as int) matches Some(x)
            ==> spec_plain_value(SqlDataType::Integer, values, t) == Ok::<ValueV, DataErrorV>(ValueV::Integer(x)),
        spec_parse_int(trimmed(t), i64::MIN as int, i64::MAX as int) is None
            ==> spec_plain_value(SqlDataType::Integer, values, t) is Err,
{
}

} // verus!
