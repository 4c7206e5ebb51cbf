//! Single-value GET requests for scalar objects.

use vstd::prelude::*;

use super::error::WalkError;
use super::oid::{Oid, VarResult, is_prefix};
use super::query::{WalkData, WalkMap, wd_view, recorded, record_value};
use super::walk::entry_of;

verus! {

/// A pending GET of one OID.
pub struct GetVar {
    pub oid: Oid,
    pub done: bool,
}

/// A list of pending GETs.
pub struct Gets(pub Vec<GetVar>);

/// View of a pending GET: its OID and whether it is done.
pub open spec fn gview(g: GetVar) -> (Seq<u64>, bool) {
    (g.oid@, g.done)
}

impl View for Gets {
    type V = Seq<(Seq<u64>, bool)>;

    open spec fn view(&self) -> Seq<(Seq<u64>, bool)> {
        self.0@.map_values(|g: GetVar| gview(g))
    }
}

/// The GETs of a list that are not done, in order.
pub open spec fn pending_gets(s: Seq<(Seq<u64>, bool)>) -> Seq<(Seq<u64>, bool)>
    decreases s.len(),
{
    if s.len() == 0 {
        Seq::empty()
    } else if s.last().1 {
        pending_gets(s.drop_last())
    } else {
        pending_gets(s.drop_last()).push(s.last())
    }
}

/// What saving the reply variable `name` = `val` of a GET does (see
/// `GetVar::save`).
pub open spec fn get_saved(g0: GetVar, g1: GetVar, d0: Map<Seq<u64>, WalkData>, d1: Map<Seq<u64>, WalkData>, name: Seq<u64>, val: VarResult) -> bool {
    &&& g1.done
    &&& g1.oid == g0.oid
    &&& d1.dom() == d0.dom().insert(g0.oid@)
    &&& forall|k: Seq<u64>| k != g0.oid@ && d0.contains_key(k) ==> d1[k] == d0[k]
    &&& wd_view(d1[g0.oid@]) == if is_prefix(g0.oid@, name) {
        recorded(entry_of(d0, g0.oid@), Seq::<u64>::empty(), val)
    } else {
        Err(WalkError::NoSuchObject)
    }
}

impl GetVar {
    /// A GET of `oid` that is not done.
    pub fn new(oid: Oid) -> (r: GetVar)
        ensures
            r.oid@ == oid@,
            !r.done,
    {
        GetVar { oid, done: false }
    }

    /// Takes the reply variable: a value for an OID under the requested one
    /// is saved as the single (empty-index) row; any other OID means the
    /// object does not exist. The GET is done either way.
    pub fn save(&mut self, name: Oid, val: VarResult, data: &mut WalkMap)
        ensures
            get_saved(*old(self), *final(self), old(data)@, final(data)@, name@, val),
    {
        self.done = true;
        if self.oid.contains(&name) {
            record_value(data, self.oid.copy(), Oid::empty(), val);
        } else {
            data.insert(self.oid.copy(), Err(WalkError::NoSuchObject));
            proof {
                assert(final(data)@.dom() =~= old(data)@.dom().insert(old(self).oid@));
            }
        }
    }
}

impl Gets {
    /// No GETs.
    pub fn new() -> (r: Gets)
        ensures
            r@ == Seq::<(Seq<u64>, bool)>::empty(),
    {
        Gets(Vec::new())
    }

    /// Adds a GET of `oid`.
    pub fn push(&mut self, oid: Oid)
        ensures
            final(self)@ == old(self)@.push((oid@, false)),
    {
        self.0.push(GetVar::new(oid));
        proof {
            assert(self@ =~= old(self)@.push((oid@, false)));
        }
    }

    /// Whether no GET is left.
    pub fn is_empty(&self) -> (r: bool)
        ensures
            r == (self@.len() == 0),
    {
        self.0.len() == 0
    }

    /// Number of GETs.
    pub fn width(&self) -> (r: usize)
        ensures
            r == self@.len(),
    {
        self.0.len()
    }

    /// The OIDs of the GETs, in order.
    pub fn oids(&self) -> (r: Vec<Oid>)
        ensures
            r@.len() == self@.len(),
            forall|i: int| 0 <= i < r@.len() ==> (#[trigger] r@[i])@ == self@[i].0,
    {
        let mut r: Vec<Oid> = Vec::new();
        let mut i: usize = 0;
        while i < self.0.len()
            invariant
                i <= self.0.len(),
                r@.len() == i,
                forall|j: int| 0 <= j < i ==> (#[trigger] r@[j])@ == self@[j].0,
            decreases self.0.len() - i,
        {
            r.push(self.0[i].oid.copy());
            i = i + 1;
        }
        r
    }

    /// Takes the first `available_width` GETs (all if fewer), leaving the rest.
    pub fn take(&mut self, available_width: usize) -> (r: Gets)
        ensures
            r@ == old(self)@.take(if available_width < old(self)@.len() { available_width as int } else { old(self)@.len() as int }),
            final(self)@ == old(self)@.skip(if available_width < old(self)@.len() { available_width as int } else { old(self)@.len() as int }),
    {
        let width = if available_width < self.0.len() { available_width } else { self.0.len() };
        let rest = self.0.split_off(width);
        let taken = Gets(Vec::new());
        let mut taken = taken;
        core::mem::swap(&mut taken.0, &mut self.0);
        self.0 = rest;
        proof {
            assert(taken@ =~= old(self)@.take(width as int));
            assert(self@ =~= old(self)@.skip(width as int));
        }
        taken
    }

    /// Takes back GETs after a request: those not done are appended.
    pub fn reinject(&mut self, gets: Gets)
        ensures
            final(self)@ == old(self)@ + pending_gets(gets@),
    {
        let mut other = gets.0;
        let ghost ov = gets@;
        let ghost mut k: int = 0;
        proof {
            assert(self@ =~= old(self)@ + pending_gets(ov.take(0)));
        }
        while other.len() > 0
            invariant
                0 <= k <= ov.len(),
                other@.len() == ov.len() - k,
                forall|j: int| 0 <= j < other@.len() ==> gview(#[trigger] other@[j]) == ov[k + j],
                self@ == old(self)@ + pending_gets(ov.take(k)),
            decreases other@.len(),
        {
            let ghost o0 = other@;
            let g = other.remove(0);
            assert(gview(g) == ov[k]);
            assert forall|j: int| 0 <= j < other@.len() implies gview(#[trigger] other@[j]) == ov[k + 1 + j] by {
                assert(other@[j] == o0[j + 1]);
            }
            proof {
                assert(ov.take(k + 1).drop_last() =~= ov.take(k));
                assert(ov.take(k + 1).last() == ov[k]);
            }
            if !g.done {
                let ghost sv = self@;
                self.0.push(g);
                proof {
                    assert(self@ =~= sv.push(gview(g)));
                }
            }
            proof {
                k = k + 1;
            }
        }
        proof {
            assert(ov.take(k) =~= ov);
        }
    }

    /// Appends all GETs of `gets`.
    pub fn extend(&mut self, gets: Gets)
        ensures
            final(self)@ == old(self)@ + gets@,
    {
        let mut other = gets.0;
        let ghost ov = gets@;
        let ghost mut k: int = 0;
        while other.len() > 0
            invariant
                0 <= k <= ov.len(),
                other@.len() == ov.len() - k,
                forall|j: int| 0 <= j < other@.len() ==> gview(#[trigger] other@[j]) == ov[k + j],
                self@ == old(self)@ + ov.subrange(0, k),
            decreases other@.len(),
        {
            let ghost o0 = other@;
            let g = other.remove(0);
            assert(gview(g) == ov[k]);
            assert forall|j: int| 0 <= j < other@.len() implies gview(#[trigger] other@[j]) == ov[k + 1 + j] by {
                assert(other@[j] == o0[j + 1]);
            }
            let ghost sv = self@;
            self.0.push(g);
            proof {
                assert(self@ =~= sv.push(gview(g)));
                assert(old(self)@ + ov.subrange(0, k + 1) =~= (old(self)@ + ov.subrange(0, k)).push(ov[k]));
                k = k + 1;
            }
        }
        proof {
            assert(ov.subrange(0, k) =~= ov);
        }
    }
}

} // verus!
