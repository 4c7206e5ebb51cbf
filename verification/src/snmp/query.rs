//! Data collected by walks and gets, per requested OID.

use vstd::prelude::*;

use super::error::{WalkError, WalkWarning};
use super::oid::{Oid, VarResult};
use super::oidmap::{OidMap, lemma_om_update, lemma_om_last};

verus! {

/// The rows collected for one walked column, with warnings.
pub struct WalkRows {
    pub value: OidMap<VarResult>,
    pub warnings: Vec<WalkWarning>,
}

/// The rows of a walked column, or why there are none.
pub type WalkData = Result<WalkRows, WalkError>;

/// Collected data, by requested OID.
pub type WalkMap = OidMap<WalkData>;

/// View of a column's data: its rows by index and its warnings.
pub type WalkDataV = Result<(Map<Seq<u64>, VarResult>, Seq<WalkWarning>), WalkError>;

pub open spec fn wd_view(d: WalkData) -> WalkDataV {
    match d {
        Ok(r) => Ok((r.value@, r.warnings@)),
        Err(e) => Err(e),
    }
}

/// The data of a column after saving `val` at row `index`: rows are created
/// when the column has none yet; a column that failed stays failed.
pub open spec fn recorded(old: Option<WalkData>, index: Seq<u64>, val: VarResult) -> WalkDataV {
    match old {
        None => Ok((Map::empty().insert(index, val), Seq::empty())),
        Some(d) => match wd_view(d) {
            Ok((m, w)) => Ok((m.insert(index, val), w)),
            Err(e) => Err(e),
        },
    }
}

/// The data of a column after OIDs were found not to increase: a column
/// without data fails, a column with rows gets a warning.
pub open spec fn marked_not_increasing(old: Option<WalkData>) -> WalkDataV {
    match old {
        None => Err(WalkError::OIDsNotIncreasing),
        Some(d) => match wd_view(d) {
            Ok((m, w)) => Ok((m, w.push(WalkWarning::OIDsNotIncreasing))),
            Err(e) => Err(e),
        },
    }
}

/// An empty set of rows.
pub fn empty_rows() -> (r: WalkRows)
    ensures
        r.value@ == Map::<Seq<u64>, VarResult>::empty(),
        r.warnings@ == Seq::<WalkWarning>::empty(),
{
    WalkRows { value: OidMap::new(), warnings: Vec::new() }
}

/// Saves `val` at row `index` of the column `col`.
pub fn record_value(data: &mut WalkMap, col: Oid, index: Oid, val: VarResult)
    ensures
        final(data)@.dom() == old(data)@.dom().insert(col@),
        forall|k: Seq<u64>| k != col@ && old(data)@.contains_key(k) ==> final(data)@[k] == old(data)@[k],
        wd_view(final(data)@[col@]) == recorded(
            if old(data)@.contains_key(col@) { Some(old(data)@[col@]) } else { None },
            index@,
            val,
        ),
{
    match data.find(&col) {
        None => {
            let mut rows = empty_rows();
            rows.value.insert(index, val);
            data.insert(col, Ok(rows));
            proof {
                assert(final(data)@.dom() =~= old(data)@.dom().insert(col@));
            }
        },
        Some(i) => {
            let ghost v0 = data.0@;
            proof {
                lemma_om_last(v0, col@, i as int);
            }
            let (k, d) = data.0.remove(i);
            assert(d == old(data)@[col@]);
            let nd: WalkData = match d {
                Ok(mut r) => {
                    r.value.insert(index, val);
                    Ok(r)
                },
                Err(e) => Err(e),
            };
            let ghost e = (k, nd);
            data.0.insert(i, (k, nd));
            proof {
                assert(data.0@ =~= v0.update(i as int, e));
                lemma_om_update(v0, col@, i as int, e);
                assert(final(data)@.dom() =~= old(data)@.dom().insert(col@));
            }
        },
    }
}

/// Notes that the OIDs of column `col` did not increase.
pub fn record_not_increasing(data: &mut WalkMap, col: Oid)
    ensures
        final(data)@.dom() == old(data)@.dom().insert(col@),
        forall|k: Seq<u64>| k != col@ && old(data)@.contains_key(k) ==> final(data)@[k] == old(data)@[k],
        wd_view(final(data)@[col@]) == marked_not_increasing(
            if old(data)@.contains_key(col@) { Some(old(data)@[col@]) } else { None },
        ),
{
    match data.find(&col) {
        None => {
            data.insert(col, Err(WalkError::OIDsNotIncreasing));
            proof {
                assert(final(data)@.dom() =~= old(data)@.dom().insert(col@));
            }
        },
        Some(i) => {
            let ghost v0 = data.0@;
            proof {
                lemma_om_last(v0, col@, i as int);
            }
            let (k, d) = data.0.remove(i);
            assert(d == old(data)@[col@]);
            let nd: WalkData = match d {
                Ok(mut r) => {
                    r.warnings.push(WalkWarning::OIDsNotIncreasing);
                    Ok(r)
                },
                Err(e) => Err(e),
            };
            let ghost e = (k, nd);
            data.0.insert(i, (k, nd));
            proof {
                assert(data.0@ =~= v0.update(i as int, e));
                lemma_om_update(v0, col@, i as int, e);
                assert(final(data)@.dom() =~= old(data)@.dom().insert(col@));
            }
        },
    }
}

} // verus!
