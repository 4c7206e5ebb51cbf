//! Table entries, their indices, and how index values are read from the
//! OID of a row.

use vstd::prelude::*;

use crate::common::data::{DataError, DataErrorV, Value, ValueV};
use vstd::string::StringExecFns;
use super::input::{Input, InputError, ObjectId};
use super::oid::Oid;
use super::scalar::{ScalarSpec, spec_fixed_index_length, spec_from_index, index_fits, lemma_from_index_len};

verus! {

/// A table entry as declared in a MIB.
pub struct EntrySpec {
    /// The index objects, in order.
    pub index: Vec<ObjectId>,
    /// The index object whose length is implied (it is not encoded).
    pub implied_index: Option<ObjectId>,
    /// The entry whose index this entry extends.
    pub augments: Option<ObjectId>,
    /// For a table held in one column: the number of columns it folds.
    pub fold: Option<u64>,
}

/// The index of a table: its objects, and the one whose length is implied.
pub struct Index {
    pub vars: Vec<ObjectId>,
    pub implied: Option<ObjectId>,
}

/// Views of a list of object ids.
pub open spec fn ids_view(v: Seq<ObjectId>) -> Seq<Seq<char>> {
    v.map_values(|o: ObjectId| o@)
}

/// View of an index: its objects and implied object.
pub open spec fn index_view(i: Index) -> (Seq<Seq<char>>, Option<Seq<char>>) {
    (ids_view(i.vars@), match i.implied {
        Some(o) => Some(o@),
        None => None,
    })
}

/// The index of an entry, following the entries it augments at most `fuel`
/// deep: the augmented entry's index objects come first; an implied object
/// of the entry replaces the one inherited. `None` when the chain is
/// longer; an error names an augmented entry that is not defined.
pub open spec fn spec_entry_index(input: Input, e: EntrySpec, fuel: nat) -> Option<Result<(Seq<Seq<char>>, Option<Seq<char>>), Seq<char>>>
    decreases fuel,
{
    let base: Option<Result<(Seq<Seq<char>>, Option<Seq<char>>), Seq<char>>> = match e.augments {
        None => Some(Ok((Seq::empty(), None))),
        Some(a) => if !input.tables@.contains_key(a@) {
            Some(Err(a@))
        } else if fuel == 0 {
            None
        } else {
            spec_entry_index(input, input.tables@[a@], (fuel - 1) as nat)
        },
    };
    match base {
        Some(Ok((vars, implied))) => Some(Ok((vars + ids_view(e.index@), match e.implied_index {
            Some(i) => Some(i@),
            None => implied,
        }))),
        other => other,
    }
}

/// The augments chain of an entry ends within as many steps as there are
/// table entries (it has no cycle).
pub open spec fn chain_ends(input: Input, e: EntrySpec) -> bool {
    spec_entry_index(input, e, input.tables.0@.len() as nat) is Some
}

fn copy_ids(v: &Vec<ObjectId>) -> (r: Vec<ObjectId>)
    ensures
        ids_view(r@) == ids_view(v@),
{
    let mut r: Vec<ObjectId> = Vec::new();
    let mut i: usize = 0;
    while i < v.len()
        invariant
            i <= v.len(),
            ids_view(r@) == ids_view(v@.subrange(0, i as int)),
        decreases v.len() - i,
    {
        let ghost r0 = r@;
        r.push(v[i].copy());
        proof {
            assert(ids_view(r@) =~= ids_view(r0).push(v@[i as int]@));
            assert(ids_view(v@.subrange(0, i + 1)) =~= ids_view(v@.subrange(0, i as int)).push(v@[i as int]@));
        }
        i = i + 1;
    }
    proof {
        assert(v@.subrange(0, i as int) =~= v@);
    }
    r
}

impl EntrySpec {
    fn index_within(&self, input: &Input, fuel: usize) -> (r: Option<Result<Index, InputError>>)
        ensures
            match spec_entry_index(*input, *self, fuel as nat) {
                None => r is None,
                Some(Ok(v)) => r matches Some(Ok(i)) && index_view(i) == v,
                Some(Err(m)) => r matches Some(Err(InputError::Missing(s))) && s@ == m,
            },
        decreases fuel,
    {
        let base = match &self.augments {
            None => Some(Ok(Index::empty())),
            Some(a) => match input.tables.get(&a.0) {
                None => Some(Err(InputError::Missing(a.0.clone()))),
                Some(parent) => if fuel == 0 {
                    None
                } else {
                    parent.index_within(input, fuel - 1)
                },
            },
        };
        match base {
            Some(Ok(mut index)) => {
                let own = copy_ids(&self.index);
                let ghost v0 = index.vars@;
                let mut own = own;
                index.vars.append(&mut own);
                proof {
                    assert(ids_view(index.vars@) =~= ids_view(v0) + ids_view(self.index@));
                }
                match &self.implied_index {
                    Some(i) => {
                        index.implied = Some(i.copy());
                    },
                    None => {},
                }
                Some(Ok(index))
            },
            other => other,
        }
    }

    /// Whether the augments chain of this entry ends (see `chain_ends`).
    pub fn chain_ends(&self, input: &Input) -> (r: bool)
        ensures
            r == chain_ends(*input, *self),
    {
        self.index_within(input, input.tables.0.len()).is_some()
    }

    /// The index of this entry: the index of the entry it augments, then
    /// its own index objects; its implied object, if any, replaces the one
    /// inherited. An error names an augmented entry that is not defined.
    pub fn get_index(&self, input: &Input) -> (r: Result<Index, InputError>)
        requires
            chain_ends(*input, *self),
        ensures
            match spec_entry_index(*input, *self, input.tables.0@.len() as nat) {
                Some(Ok(v)) => r matches Ok(i) && index_view(i) == v,
                Some(Err(m)) => r matches Err(InputError::Missing(s)) && s@ == m,
                None => false,
            },
    {
        match self.index_within(input, input.tables.0.len()) {
            Some(r) => r,
            None => Err(InputError::Missing(String::new())),
        }
    }
}

/// Total index length of the objects from `from` on, when all are fixed.
pub open spec fn rest_fixed_len(specs: Seq<ScalarSpec>, from: int) -> Option<int>
    decreases specs.len() - from,
{
    if from < 0 || from >= specs.len() {
        Some(0)
    } else {
        match (spec_fixed_index_length(specs[from]), rest_fixed_len(specs, from + 1)) {
            (Some(a), Some(b)) => Some(a + b),
            _ => None,
        }
    }
}

/// The implied length to read index object `i` with: for the implied
/// object, what the objects after it leave of the remaining index.
pub open spec fn step_implied(specs: Seq<ScalarSpec>, flags: Seq<bool>, i: int, idx: Seq<u64>) -> Result<Option<usize>, Seq<char>> {
    if flags[i] {
        match rest_fixed_len(specs, i + 1) {
            Some(f) => if f <= idx.len() {
                Ok(Some((idx.len() - f) as usize))
            } else {
                Err("calculated implied length is longer than remaining index length"@)
            },
            None => Err("unable to calculate implied length for implied index"@),
        }
    } else {
        Ok(None)
    }
}

/// Reading index object `i` from the remaining index `idx`: its value, and
/// what remains of the index after it, if it could be read.
pub open spec fn index_step(specs: Seq<ScalarSpec>, flags: Seq<bool>, i: int, idx: Option<Seq<u64>>) -> (Result<ValueV, DataErrorV>, Option<Seq<u64>>) {
    match idx {
        None => (Err(DataErrorV::TypeError("previous index field failed to parse"@)), None),
        Some(x) => match step_implied(specs, flags, i, x) {
            Err(m) => (Err(DataErrorV::TypeError(m)), None),
            Ok(implied) => match spec_from_index(specs[i], x, implied) {
                Ok((v, n)) => (v, Some(x.skip(n))),
                Err(e) => (Err(e), None),
            },
        },
    }
}

/// The values of index objects `i..` read from the remaining index `idx`.
pub open spec fn index_values(specs: Seq<ScalarSpec>, flags: Seq<bool>, idx: Option<Seq<u64>>, i: int) -> Seq<Result<ValueV, DataErrorV>>
    decreases specs.len() - i,
{
    if i < 0 || i >= specs.len() {
        Seq::empty()
    } else {
        let (v, next) = index_step(specs, flags, i, idx);
        seq![v] + index_values(specs, flags, next, i + 1)
    }
}

/// Reading index objects `i..` fits the index at each step: a
/// variable-length value fits in what remains, and the implied length is
/// computable in a machine word.
pub open spec fn index_reads_fit(specs: Seq<ScalarSpec>, flags: Seq<bool>, idx: Option<Seq<u64>>, i: int) -> bool
    decreases specs.len() - i,
{
    if i < 0 || i >= specs.len() {
        true
    } else {
        let here = match idx {
            None => true,
            Some(x) => {
                &&& (flags[i] ==> (rest_fixed_len(specs, i + 1) matches Some(f) ==> f <= usize::MAX))
                &&& (step_implied(specs, flags, i, x) matches Ok(implied) ==> index_fits(specs[i], x, implied))
            },
        };
        here && index_reads_fit(specs, flags, index_step(specs, flags, i, idx).1, i + 1)
    }
}

/// Whether object `i` of an index is its implied object.
pub open spec fn implied_flags(ix: Index) -> Seq<bool> {
    ix.vars@.map_values(|o: ObjectId| match ix.implied {
        Some(imp) => imp@ == o@,
        None => false,
    })
}

/// The scalars of the index objects, when all are defined.
pub open spec fn index_scalars(input: Input, ix: Index) -> Seq<ScalarSpec> {
    ix.vars@.map_values(|o: ObjectId| input.scalars@[o@])
}

/// All index objects are defined scalars.
pub open spec fn index_defined(input: Input, ix: Index) -> bool {
    forall|i: int| 0 <= i < ix.vars@.len() ==> input.scalars@.contains_key((#[trigger] ix.vars@[i])@)
}

/// Views of index values.
pub open spec fn values_view(v: Seq<(ObjectId, Result<Value, DataError>)>) -> Seq<Result<ValueV, DataErrorV>> {
    v.map_values(|p: (ObjectId, Result<Value, DataError>)| match p.1 {
        Ok(x) => Ok(x@),
        Err(e) => Err(e@),
    })
}

impl Index {
    /// An index without objects.
    pub fn empty() -> (r: Index)
        ensures
            r.vars@.len() == 0,
            r.implied is None,
    {
        Index { vars: Vec::new(), implied: None }
    }

    /// Whether `id` is one of the index objects (the implied one included).
    pub fn contains(&self, id: &ObjectId) -> (r: bool)
        ensures
            r == (ids_view(self.vars@).contains(id@) || (self.implied matches Some(i) && i@ == id@)),
    {
        let mut i: usize = 0;
        while i < self.vars.len()
            invariant
                i <= self.vars.len(),
                forall|j: int| 0 <= j < i ==> (#[trigger] self.vars@[j])@ != id@,
            decreases self.vars.len() - i,
        {
            if self.vars[i].same(id) {
                proof {
                    assert(ids_view(self.vars@)[i as int] == id@);
                }
                return true;
            }
            i = i + 1;
        }
        proof {
            assert forall|j: int| 0 <= j < ids_view(self.vars@).len() implies ids_view(self.vars@)[j] != id@ by {
                assert(ids_view(self.vars@)[j] == self.vars@[j]@);
            }
        }
        match &self.implied {
            Some(imp) => imp.same(id),
            None => false,
        }
    }

    /// The values of the index objects read from the row OID `oid`, in
    /// order (see `index_values`): each is read after the previous one; once
    /// one fails, those after it fail too. An error names the first index
    /// object that is not a defined scalar.
    pub fn get_values(&self, oid: &Oid, input: &Input) -> (r: Result<Vec<(ObjectId, Result<Value, DataError>)>, InputError>)
        requires
            index_defined(*input, *self) ==> index_reads_fit(index_scalars(*input, *self), implied_flags(*self), Some(oid@), 0),
        ensures
            index_defined(*input, *self) ==> (r matches Ok(vals) && {
                &&& vals@.len() == self.vars@.len()
                &&& forall|i: int| 0 <= i < vals@.len() ==> (#[trigger] vals@[i]).0@ == self.vars@[i]@
                &&& values_view(vals@) == index_values(index_scalars(*input, *self), implied_flags(*self), Some(oid@), 0)
            }),
            !index_defined(*input, *self) ==> exists|i: int| {
                &&& 0 <= i < self.vars@.len()
                &&& !input.scalars@.contains_key((#[trigger] self.vars@[i])@)
                &&& forall|j: int| 0 <= j < i ==> input.scalars@.contains_key((#[trigger] self.vars@[j])@)
                &&& r matches Err(InputError::Missing(m)) && m@ == self.vars@[i]@
            },
    {
        match self.read_values(oid, input) {
            Ok(Some(v)) => Ok(v),
            Ok(None) => Ok(Vec::new()),
            Err(e) => Err(e),
        }
    }

    /// Whether the values of the index objects can be read from the row
    /// OID `oid` without running past its end (see `index_reads_fit`).
    pub fn reads_fit(&self, oid: &Oid, input: &Input) -> (r: bool)
        ensures
            r == (index_defined(*input, *self) ==> index_reads_fit(index_scalars(*input, *self), implied_flags(*self), Some(oid@), 0)),
    {
        match self.read_values(oid, input) {
            Ok(Some(_)) => true,
            Ok(None) => false,
            Err(_) => true,
        }
    }

    fn read_values(&self, oid: &Oid, input: &Input) -> (r: Result<Option<Vec<(ObjectId, Result<Value, DataError>)>>, InputError>)
        ensures
            index_defined(*input, *self) ==> (r matches Ok(o) && (o is Some <==> index_reads_fit(index_scalars(*input, *self), implied_flags(*self), Some(oid@), 0))),
            index_defined(*input, *self) ==> (r matches Ok(Some(vals)) ==> {
                &&& vals@.len() == self.vars@.len()
                &&& forall|i: int| 0 <= i < vals@.len() ==> (#[trigger] vals@[i]).0@ == self.vars@[i]@
                &&& values_view(vals@) == index_values(index_scalars(*input, *self), implied_flags(*self), Some(oid@), 0)
            }),
            !index_defined(*input, *self) ==> exists|i: int| {
                &&& 0 <= i < self.vars@.len()
                &&& !input.scalars@.contains_key((#[trigger] self.vars@[i])@)
                &&& forall|j: int| 0 <= j < i ==> input.scalars@.contains_key((#[trigger] self.vars@[j])@)
                &&& r matches Err(InputError::Missing(m)) && m@ == self.vars@[i]@
            },
    {
        /* The scalars of the index objects. */
        let mut specs: Vec<&ScalarSpec> = Vec::new();
        let mut i: usize = 0;
        while i < self.vars.len()
            invariant
                i <= self.vars.len(),
                specs@.len() == i,
                forall|j: int| 0 <= j < i ==> input.scalars@.contains_key((#[trigger] self.vars@[j])@),
                forall|j: int| 0 <= j < i ==> *(#[trigger] specs@[j]) == input.scalars@[self.vars@[j]@],
            decreases self.vars.len() - i,
        {
            match input.scalars.get(&self.vars[i].0) {
                Some(s) => specs.push(s),
                None => {
                    return Err(InputError::Missing(self.vars[i].0.clone()));
                },
            }
            i = i + 1;
        }
        let ghost sv = index_scalars(*input, *self);
        let ghost fl = implied_flags(*self);
        proof {
            assert(index_defined(*input, *self));
            assert forall|j: int| 0 <= j < specs@.len() implies *(#[trigger] specs@[j]) == sv[j] by {}
        }

        /* The values, in order. */
        let mut vals: Vec<(ObjectId, Result<Value, DataError>)> = Vec::new();
        let n = specs.len();
        let mut pos: Option<usize> = Some(0);
        let mut k: usize = 0;
        proof {
            assert(oid@.skip(0) =~= oid@);
            assert(values_view(vals@) + index_values(sv, fl, Some(oid@.skip(0)), 0) =~= index_values(sv, fl, Some(oid@), 0));
        }
        while k < n
            invariant
                n == specs@.len() == sv.len() == fl.len() == self.vars@.len(),
                k <= n,
                vals@.len() == k,
                forall|j: int| 0 <= j < k ==> (#[trigger] vals@[j]).0@ == self.vars@[j]@,
                forall|j: int| 0 <= j < specs@.len() ==> *(#[trigger] specs@[j]) == sv[j],
                fl == implied_flags(*self),
                sv == index_scalars(*input, *self),
                index_defined(*input, *self),
                match pos {
                    Some(p) => p <= oid@.len(),
                    None => true,
                },
                values_view(vals@) + index_values(sv, fl, match pos { Some(p) => Some(oid@.skip(p as int)), None => None }, k as int)
                    == index_values(sv, fl, Some(oid@), 0),
                index_reads_fit(sv, fl, Some(oid@), 0) == index_reads_fit(sv, fl, match pos { Some(p) => Some(oid@.skip(p as int)), None => None }, k as int),
            decreases n - k,
        {
            let ghost idx = match pos { Some(p) => Some(oid@.skip(p as int)), None => None };
            let ghost step = index_step(sv, fl, k as int, idx);
            let ghost vv = values_view(vals@);
            let scalar = specs[k];
            let is_implied = match &self.implied {
                Some(imp) => imp.same(&self.vars[k]),
                None => false,
            };
            proof {
                assert(fl[k as int] == is_implied);
            }
            let (val, next): (Result<Value, DataError>, Option<usize>) = match pos {
                None => (Err(DataError::TypeError(String::from_str("previous index field failed to parse"))), None),
                Some(p) => {
                    let (_, rest) = oid.0.as_slice().split_at(p);
                    proof {
                        assert(rest@ == oid@.skip(p as int));
                    }
                    let implied: Result<Option<usize>, DataError> = if is_implied {
                        /* The fixed length of the objects after this one. */
                        let mut total: u128 = 0;
                        let mut all_fixed = true;
                        let mut j = k + 1;
                        proof {
                            assert(sv.len() == n);
                        }
                        while j < n
                            invariant
                                k + 1 <= j <= n,
                                n == sv.len(),
                                forall|q: int| 0 <= q < specs@.len() ==> *(#[trigger] specs@[q]) == sv[q],
                                specs@.len() == n,
                                total <= j * 0xffff_ffff_ffff_ffffu128,
                                all_fixed ==> (match (rest_fixed_len(sv, k + 1), rest_fixed_len(sv, j as int)) {
                                    (Some(a), Some(b)) => a == total + b,
                                    (None, None) => true,
                                    _ => false,
                                }),
                                !all_fixed ==> rest_fixed_len(sv, k + 1) is None,
                            decreases n - j,
                        {
                            match specs[j].fixed_index_length() {
                                Some(l) => {
                                    proof {
                                        assert(total + l <= (j + 1) * 0xffff_ffff_ffff_ffffu128) by (nonlinear_arith)
                                            requires total <= j * 0xffff_ffff_ffff_ffffu128, l <= 0xffff_ffff_ffff_ffffu128;
                                    }
                                    total = total + l as u128;
                                },
                                None => {
                                    all_fixed = false;
                                },
                            }
                            j = j + 1;
                        }
                        if all_fixed && total > usize::MAX as u128 {
                            proof {
                                assert(!index_reads_fit(sv, fl, idx, k as int));
                            }
                            return Ok(None);
                        }
                        if !all_fixed {
                            Err(DataError::TypeError(String::from_str("unable to calculate implied length for implied index")))
                        } else if total <= rest.len() as u128 {
                            Ok(Some(rest.len() - total as usize))
                        } else {
                            Err(DataError::TypeError(String::from_str("calculated implied length is longer than remaining index length")))
                        }
                    } else {
                        Ok(None)
                    };
                    match implied {
                        Err(e) => (Err(e), None),
                        Ok(implied) => {
                        proof {
                            assert(step_implied(sv, fl, k as int, rest@) == Ok::<Option<usize>, Seq<char>>(implied));
                        }
                        if !scalar.fits_index(rest, implied) {
                            proof {
                                assert(!index_reads_fit(sv, fl, idx, k as int));
                            }
                            return Ok(None);
                        }
                        match scalar.get_value_from_index(rest, implied) {
                            Ok((v, used)) => {
                                proof {
                                    lemma_from_index_len(sv[k as int], rest@, implied);
                                    assert(*scalar == sv[k as int]);
                                    assert(spec_from_index(sv[k as int], rest@, implied) matches Ok((_, m)) && m == used);
                                    assert(used <= rest@.len());
                                    assert(oid@.len() == oid.0.len());
                                    assert(oid@.skip(p as int).skip(used as int) =~= oid@.skip(p + used));
                                }
                                (v, Some(p + used))
                            },
                            Err(e) => (Err(e), None),
                        }
                        },
                    }
                },
            };
            proof {
                assert(index_values(sv, fl, idx, k as int) == seq![step.0] + index_values(sv, fl, step.1, k + 1));
            }
            vals.push((self.vars[k].copy(), val));
            proof {
                assert(values_view(vals@) =~= vv.push(step.0));
                assert(vv.push(step.0) + index_values(sv, fl, step.1, k + 1) =~= vv + (seq![step.0] + index_values(sv, fl, step.1, k + 1)));
            }
            pos = next;
            k = k + 1;
        }
        proof {
            assert(index_values(sv, fl, match pos { Some(p) => Some(oid@.skip(p as int)), None => None }, k as int) =~= Seq::<Result<ValueV, DataErrorV>>::empty());
            assert(values_view(vals@) =~= values_view(vals@) + Seq::<Result<ValueV, DataErrorV>>::empty());
        }
        Ok(Some(vals))
    }
}

} // verus!
