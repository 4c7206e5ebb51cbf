//! Reading the value of a field out of a result row: plain columns are
//! read by type, counter columns become samples for a counter store.

use vstd::prelude::*;

use crate::common::data::{DataError, DataErrorV, strings_view};
use crate::common::strmap::{StrMap, texts_view};
use crate::common::text::{parse_u64, push_str, spec_parse_int, string_from_chars};
use crate::powershell::input::{Parsed, ParsedV, parsed_view};
use crate::powershell::table::{insert_text, sort_texts};
use crate::sql::input::{FieldSpec, SqlDataType, SqlPlugin, data_type_name, join_list, join_texts, parse_plain_value, spec_plain_value};
use crate::wmi::counters::{CounterDB, previous, spec_wmi_counter};
use vstd::string::StringExecFns;

verus! {

/// The key under which the counter store keeps a column of a row: the
/// row's key, `.`, and the column.
pub open spec fn counter_key(base_key: Seq<char>, column: Seq<char>) -> Seq<char> {
    base_key + "."@ + column
}

/// A counter sample from a row's column: missing without the column, a
/// parse error (the text and the name of the field's type) when the text
/// is no `u64`.
pub open spec fn counter_sample(row: Map<Seq<char>, Seq<char>>, f: FieldSpec) -> Result<u64, DataErrorV> {
    if !row.contains_key(f.column_name@) {
        Err(DataErrorV::Missing)
    } else {
        match spec_parse_int(row[f.column_name@], 0, u64::MAX as int) {
            Some(x) => Ok(x as u64),
            None => Err(DataErrorV::Parse(row[f.column_name@], data_type_name(f.parameter_type))),
        }
    }
}

/// The key values of a row: for each key field in order, the text of its
/// column, or an empty text where the row has none.
pub open spec fn key_values(row: Map<Seq<char>, Seq<char>>, fields: Seq<&FieldSpec>) -> Seq<Seq<char>>
    decreases fields.len(),
{
    if fields.len() == 0 {
        Seq::empty()
    } else {
        let p = key_values(row, fields.drop_last());
        let f = fields.last();
        if f.is_key {
            p.push(if row.contains_key(f.column_name@) { row[f.column_name@] } else { Seq::empty() })
        } else {
            p
        }
    }
}

/// The key of a row: its key values in ascending order, joined by `_`.
pub open spec fn base_key_of(row: Map<Seq<char>, Seq<char>>, fields: Seq<&FieldSpec>) -> Seq<char> {
    join_list(sort_texts(key_values(row, fields)), "_"@)
}

/// The key of a row under which its counters are kept (see `base_key_of`).
pub fn base_key(row: &StrMap<String>, fields: &Vec<&FieldSpec>) -> (r: String)
    ensures
        r@ == base_key_of(texts_view(*row), fields@),
{
    let mut parts: Vec<String> = Vec::new();
    let ghost kv: Seq<Seq<char>> = Seq::empty();
    let mut i: usize = 0;
    while i < fields.len()
        invariant
            i <= fields@.len(),
            kv == key_values(texts_view(*row), fields@.take(i as int)),
            strings_view(parts@) == sort_texts(kv),
        decreases fields.len() - i,
    {
        proof {
            assert(fields@.take(i + 1).drop_last() =~= fields@.take(i as int));
            assert(fields@.take(i + 1).last() == fields@[i as int]);
        }
        let f = fields[i];
        if f.is_key {
            let v = match row.get(&f.column_name) {
                Some(v) => v.clone(),
                None => String::new(),
            };
            let ghost kv0 = kv;
            insert_text(&mut parts, v);
            proof {
                kv = kv0.push(v@);
                assert(kv.drop_last() =~= kv0);
            }
        }
        i = i + 1;
    }
    proof {
        assert(fields@.take(i as int) =~= fields@);
    }
    join_texts(&parts, "_")
}

/// Takes a counter sample out of a row (see `counter_sample`).
pub fn take_counter_sample(row: &mut StrMap<String>, field: &FieldSpec) -> (r: Result<u64, DataError>)
    ensures
        match (r, counter_sample(texts_view(*old(row)), *field)) {
            (Ok(a), Ok(b)) => a == b,
            (Err(a), Err(b)) => a@ == b,
            _ => false,
        },
        texts_view(*final(row)) == texts_view(*old(row)).remove(field.column_name@),
{
    let ghost rv = texts_view(*row);
    let val = row.take(&field.column_name);
    proof {
        assert(texts_view(*row) =~= rv.remove(field.column_name@));
    }
    match val {
        None => Err(DataError::Missing),
        Some(v) => match parse_u64(v.as_str()) {
            Some(x) => Ok(x),
            None => Err(DataError::Parse(v, field.parameter_type.to_string())),
        },
    }
}

/// The text of a counter's key (see `counter_key`).
fn counter_key_text(base_key: &str, column: &String) -> (r: String)
    ensures
        r@ == counter_key(base_key@, column@),
{
    let mut out: Vec<char> = Vec::new();
    push_str(&mut out, base_key);
    push_str(&mut out, ".");
    push_str(&mut out, column.as_str());
    string_from_chars(out.as_slice())
}

impl SqlPlugin {
    /// Reads the value of a field out of a row. On SQL Server a field with
    /// a WMI counter type is computed against the WMI counter store under
    /// the key `<base key>_<column>` and the row stays as it is. Otherwise
    /// a field with a counter type, or of type `Counter` or `Difference`,
    /// gives a sample for the counter store under `<base key>.<column>`,
    /// and a plain field is read by its type; either takes its column out
    /// of the row.
    pub fn parse_value(&self, row: &mut StrMap<String>, field: &FieldSpec, base_key: &str, counter_db: &mut CounterDB, now: u64) -> (r: Parsed)
        requires
            field.counter_type is None ==> field.parameter_type != SqlDataType::Binary,
            (*self == SqlPlugin::Mssql && field.counter_type is None) ==> field.parameter_type != SqlDataType::Counter
                && field.parameter_type != SqlDataType::Difference,
        ensures
            ({
                let rv = texts_view(*old(row));
                let col = field.column_name@;
                if *self == SqlPlugin::Mssql && field.counter_type is Some {
                    let key = base_key@ + "_"@ + col;
                    let (val, rec) = spec_wmi_counter(field.counter_type.unwrap(), base_key@, col, *old(row), previous(*old(counter_db), key), now);
                    &&& final(counter_db).old_state@ == old(counter_db).old_state@
                    &&& match rec {
                        Some(x) => final(counter_db).new_state@ == old(counter_db).new_state@.insert(key, x),
                        None => final(counter_db).new_state@ == old(counter_db).new_state@,
                    }
                    &&& parsed_view(r) == ParsedV::Done(val)
                    &&& *final(row) == *old(row)
                } else {
                    &&& *final(counter_db) == *old(counter_db)
                    &&& texts_view(*final(row)) == rv.remove(col)
                    &&& if field.counter_type is Some || field.parameter_type == SqlDataType::Counter
                        || field.parameter_type == SqlDataType::Difference {
                        parsed_view(r) == match counter_sample(rv, *field) {
                            Ok(x) => if field.counter_type is Some || field.parameter_type == SqlDataType::Counter {
                                ParsedV::Counter(counter_key(base_key@, col), x)
                            } else {
                                ParsedV::Difference(counter_key(base_key@, col), x)
                            },
                            Err(e) => ParsedV::Done(Err(e)),
                        }
                    } else {
                        parsed_view(r) == ParsedV::Done(if rv.contains_key(col) {
                            spec_plain_value(field.parameter_type, field.values, rv[col])
                        } else {
                            Err(DataErrorV::Missing)
                        })
                    }
                }
            }),
    {
        let counting = field.counter_type.is_some() || field.parameter_type == SqlDataType::Counter;
        if counting || field.parameter_type == SqlDataType::Difference {
            match self {
                SqlPlugin::Mssql => {
                    let c = match field.counter_type {
                        Some(c) => c,
                        None => {
                            proof {
                                assert(false);
                            }
                            return Parsed::Done(Err(DataError::Missing));
                        },
                    };
                    let v = c.get_wmi_counter(base_key, field.column_name.as_str(), counter_db, row, now);
                    Parsed::Done(v)
                },
                _ => {
                    let key = counter_key_text(base_key, &field.column_name);
                    match take_counter_sample(row, field) {
                        Ok(x) => if counting {
                            Parsed::Counter(key, x)
                        } else {
                            Parsed::Difference(key, x)
                        },
                        Err(e) => Parsed::Done(Err(e)),
                    }
                },
            }
        } else {
            let ghost rv = texts_view(*row);
            let v = parse_plain_value(row, field);
            proof {
                assert(texts_view(*row) =~= rv.remove(field.column_name@));
            }
            Parsed::Done(v)
        }
    }
}

} // verus!
