//! Gathering the rows of a table from several databases and instances.

use vstd::prelude::*;

use crate::common::strmap::{StrMap, lemma_sm_last, sm_last_pos, texts_view};

verus! {

/// The rows of a table gathered from two databases: the first failure
/// wins (that of the rows gathered so far before that of the new ones),
/// else the rows of both, in order.
pub fn merge_tables<R, E>(gathered: Result<Vec<R>, E>, new: Result<Vec<R>, E>) -> (r: Result<Vec<R>, E>)
    ensures
        match (gathered, new) {
            (Err(e), _) => r == Err::<Vec<R>, E>(e),
            (Ok(_), Err(e)) => r == Err::<Vec<R>, E>(e),
            (Ok(a), Ok(b)) => r matches Ok(t) && t@ == a@ + b@,
        },
{
    match (gathered, new) {
        (Err(e), _) => Err(e),
        (Ok(_), Err(e)) => Err(e),
        (Ok(mut a), Ok(mut b)) => {
            a.append(&mut b);
            Ok(a)
        },
    }
}

/// The rows of a table with the warnings of the instances that could not
/// deliver them.
pub struct Annotated<R, W> {
    pub value: Vec<R>,
    pub warnings: Vec<W>,
}

/// Adds what an instance delivered for a table: its rows, or its failure
/// as a warning.
pub fn annotate<R, W>(table: &mut Annotated<R, W>, delivered: Result<Vec<R>, W>)
    ensures
        match delivered {
            Ok(rows) => final(table).value@ == old(table).value@ + rows@ && final(table).warnings@ == old(table).warnings@,
            Err(w) => final(table).value@ == old(table).value@ && final(table).warnings@ == old(table).warnings@.push(w),
        },
{
    match delivered {
        Ok(mut rows) => table.value.append(&mut rows),
        Err(w) => table.warnings.push(w),
    }
}

/// Why the databases of an instance are not known.
pub enum DatabaseError {
    /// A row of the database query has no column.
    NoDatabaseColumn,
}

/// `name` is the value of some column of the row.
pub open spec fn value_in_row(row: Map<Seq<char>, Seq<char>>, name: Seq<char>) -> bool {
    exists|k: Seq<char>| row.contains_key(k) && #[trigger] row[k] == name
}

/// The database names that the rows of the database query give: a value
/// of each row (its only column, as the query asks for one); an error
/// where a row has no column.
pub fn database_names(rows: &Vec<StrMap<String>>) -> (r: Result<Vec<String>, DatabaseError>)
    ensures
        match r {
            Ok(names) => names@.len() == rows@.len()
                && forall|i: int| 0 <= i < rows@.len() ==> #[trigger] value_in_row(texts_view(rows@[i]), names@[i]@),
            Err(_e) => exists|i: int| 0 <= i < rows@.len() && texts_view(#[trigger] rows@[i]).dom().is_empty(),
        },
{
    let mut names: Vec<String> = Vec::new();
    let mut i: usize = 0;
    while i < rows.len()
        invariant
            i <= rows@.len(),
            names@.len() == i,
            forall|j: int| 0 <= j < i ==> #[trigger] value_in_row(texts_view(rows@[j]), names@[j]@),
        decreases rows.len() - i,
    {
        let row = &rows[i];
        let n = row.0.len();
        if n == 0 {
            proof {
                assert(texts_view(rows@[i as int]).dom() =~= Set::<Seq<char>>::empty());
            }
            return Err(DatabaseError::NoDatabaseColumn);
        }
        let name = row.0[n - 1].1.clone();
        proof {
            let v = row.0@;
            let k0 = v[n - 1].0@;
            assert(sm_last_pos(v, k0, n - 1));
            lemma_sm_last(v, k0, n - 1);
            assert(texts_view(rows@[i as int]).contains_key(k0) && texts_view(rows@[i as int])[k0] == name@);
            assert(value_in_row(texts_view(rows@[i as int]), name@));
        }
        let ghost n0 = names@;
        names.push(name);
        proof {
            assert forall|j: int| 0 <= j < i + 1 implies #[trigger] value_in_row(texts_view(rows@[j]), names@[j]@) by {
                if j < i {
                    assert(names@[j] == n0[j]);
                }
            }
        }
        i = i + 1;
    }
    Ok(names)
}

} // verus!
