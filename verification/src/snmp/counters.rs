//! Rates of SNMP counters, from the previous reading of each counter.

use vstd::prelude::*;

use crate::common::data::{DataError, DataErrorV, FloatRepr, FloatV, Value, ValueV};
use crate::common::strmap::{StrMap, sm_last_pos, lemma_sm_last, lemma_sm_update};
use super::oid::Oid;
use super::oidmap::OidMap;

verus! {

/// The last reading of each counter: by object, by row index, the time of
/// the reading (nanoseconds since the UNIX epoch) and the value read.
pub struct Counters(pub StrMap<OidMap<(u128, u64)>>);

/// View of the readings: object, then row index, to (time, value).
pub open spec fn counters_view(c: Counters) -> Map<Seq<char>, Map<Seq<u64>, (u128, u64)>> {
    Map::new(|k: Seq<char>| c.0@.contains_key(k), |k: Seq<char>| c.0@[k]@)
}

/// The previous reading of a counter, if any.
pub open spec fn previous_reading(m: Map<Seq<char>, Map<Seq<u64>, (u128, u64)>>, object: Seq<char>, index: Seq<u64>) -> Option<(u128, u64)> {
    if m.contains_key(object) && m[object].contains_key(index) {
        Some(m[object][index])
    } else {
        None
    }
}

/// The rate of a counter between its previous reading and a new one, in
/// units per second: pending without a previous reading; an overflow when
/// the counter went down or the clock went back.
pub open spec fn spec_counter_rate(prev: Option<(u128, u64)>, new: u64, now: u128) -> Result<ValueV, DataErrorV> {
    match prev {
        Some((then, old)) => if new >= old && now >= then {
            Ok(ValueV::Float(FloatV::Ratio((new - old) * 1_000_000_000, now - then)))
        } else {
            Err(DataErrorV::CounterOverflow)
        },
        None => Err(DataErrorV::CounterPending),
    }
}

/// The readings after a new reading of a counter.
pub open spec fn with_reading(m: Map<Seq<char>, Map<Seq<u64>, (u128, u64)>>, object: Seq<char>, index: Seq<u64>, r: (u128, u64)) -> Map<Seq<char>, Map<Seq<u64>, (u128, u64)>> {
    let column = if m.contains_key(object) { m[object] } else { Map::empty() };
    m.insert(object, column.insert(index, r))
}

impl Counters {
    /// No readings.
    pub fn new() -> (r: Counters)
        ensures
            counters_view(r) == Map::<Seq<char>, Map<Seq<u64>, (u128, u64)>>::empty(),
    {
        let r = Counters(StrMap::new());
        assert(counters_view(r) =~= Map::<Seq<char>, Map<Seq<u64>, (u128, u64)>>::empty());
        r
    }

    /// Takes a new reading `new` of the counter of `object` at row `index`,
    /// made at time `now`, and returns the rate since the previous reading
    /// (see `spec_counter_rate`). The new reading replaces the previous one.
    pub fn get_counter(&mut self, new: u64, object: &String, index: &Oid, now: u128) -> (r: Result<Value, DataError>)
        ensures
            counters_view(*final(self)) == with_reading(counters_view(*old(self)), object@, index@, (now, new)),
            match (r, spec_counter_rate(previous_reading(counters_view(*old(self)), object@, index@), new, now)) {
                (Ok(a), Ok(b)) => a@ == b,
                (Err(a), Err(b)) => a@ == b,
                _ => false,
            },
    {
        let ghost m0 = counters_view(*self);
        let (mut column, pos) = match self.0.find(object) {
            Some(i) => {
                proof {
                    lemma_sm_last(self.0.0@, object@, i as int);
                }
                let (_, c) = self.0.0.remove(i);
                (c, Some(i))
            },
            None => (OidMap::new(), None),
        };
        proof {
            assert(column@ == if m0.contains_key(object@) { m0[object@] } else { Map::<Seq<u64>, (u128, u64)>::empty() });
        }
        let val = match column.get(index) {
            Some(reading) => {
                let then = reading.0;
                let old = reading.1;
                if new >= old && now >= then {
                    let delta: u64 = new - old;
                    Ok(Value::Float(FloatRepr::Ratio((delta as i128) * 1_000_000_000, now - then)))
                } else {
                    Err(DataError::CounterOverflow)
                }
            },
            None => Err(DataError::CounterPending),
        };
        column.set(index.copy(), (now, new));
        let ghost v0 = old(self).0.0@;
        match pos {
            Some(i) => {
                let key = object.clone();
                let ghost e = (key, column);
                self.0.0.insert(i, (key, column));
                proof {
                    assert(self.0.0@ =~= v0.update(i as int, e));
                    lemma_sm_update(v0, object@, i as int, e);
                }
            },
            None => {
                self.0.0.push((object.clone(), column));
                proof {
                    assert(self.0.0@.drop_last() =~= v0);
                }
            },
        }
        proof {
            assert(counters_view(*self) =~= with_reading(m0, object@, index@, (now, new)));
        }
        val
    }
}

} // verus!
