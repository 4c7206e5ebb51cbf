//! Queries without GETBULK: one GETNEXT (or GET) per request, and what
//! each reply means for the query.

use vstd::prelude::*;

use super::config::Quirks;
use super::error::WalkError;
use super::get::{GetVar, get_saved};
use super::oid::{Oid, VarResult};
use super::query::WalkMap;
use super::walk::{WalkVar, walk_saved, walk_get_saved};

verus! {

/// What a single request brought back.
pub enum Reply {
    /// A variable: its name and value.
    Var(Oid, VarResult),
    /// No variable.
    Empty,
    /// An error response from the agent.
    ErrorResponse,
    /// Another failure of the request.
    Failed,
}

/// What the query does after a reply.
#[derive(Clone, Copy, PartialEq, Eq, Structural)]
pub enum Step {
    /// Go on (a walk with its next GETNEXT, unless it is done).
    Next,
    /// The walk has ended.
    Done,
    /// Give the query up with the request's failure.
    Abort,
}

/// Whether a reply means that the object is absent: an empty reply, or
/// an error response from a device that answers past the end of a table
/// with an invalid packet.
pub open spec fn reply_absent(r: Reply, q: Quirks) -> bool {
    r is Empty || (r is ErrorResponse && q.invalid_packets_at_end)
}

fn absent(reply: &Reply, quirks: &Quirks) -> (r: bool)
    ensures
        r == reply_absent(*reply, *quirks),
{
    match reply {
        Reply::Empty => true,
        Reply::ErrorResponse => quirks.invalid_packets_at_end,
        _ => false,
    }
}

impl GetVar {
    /// Takes the reply to the GETNEXT of this GET: a variable is saved (see
    /// `get_saved`); an absent object is recorded as such; any other
    /// failure gives the query up.
    pub fn take_next_reply(&mut self, reply: Reply, data: &mut WalkMap, quirks: &Quirks) -> (r: Step)
        ensures
            match reply {
                Reply::Var(n, v) => r == Step::Next && get_saved(*old(self), *final(self), old(data)@, final(data)@, n@, v),
                _ => *final(self) == *old(self) && if reply_absent(reply, *quirks) {
                    r == Step::Next && final(data)@ == old(data)@.insert(old(self).oid@, Err::<_, WalkError>(WalkError::NoSuchObject))
                } else {
                    r == Step::Abort && final(data)@ == old(data)@
                },
            },
    {
        if absent(&reply, quirks) {
            data.insert(self.oid.copy(), Err(WalkError::NoSuchObject));
            return Step::Next;
        }
        match reply {
            Reply::Var(n, v) => {
                self.save(n, v, data);
                Step::Next
            },
            _ => Step::Abort,
        }
    }
}

impl WalkVar {
    /// Takes the reply to a GETNEXT of this walk: a variable is saved (see
    /// `walk_saved`; the walk goes on unless that ends it); an absent
    /// object ends the walk; any other failure gives the query up.
    pub fn take_next_reply(&mut self, reply: Reply, data: &mut WalkMap, quirks: &Quirks) -> (r: Step)
        requires
            old(self).retrieved < usize::MAX,
        ensures
            match reply {
                Reply::Var(n, v) => r == Step::Next && walk_saved(*old(self), *final(self), old(data)@, final(data)@, n@, v, *quirks),
                _ => *final(self) == *old(self) && final(data)@ == old(data)@
                    && r == if reply_absent(reply, *quirks) { Step::Done } else { Step::Abort },
            },
    {
        if absent(&reply, quirks) {
            return Step::Done;
        }
        match reply {
            Reply::Var(n, v) => {
                self.save(n, v, data, quirks);
                Step::Next
            },
            _ => Step::Abort,
        }
    }

    /// Whether the column must be asked for with a GET once the walk has
    /// ended: when it is valid and brought no value.
    pub fn needs_existence_check(&self) -> (r: bool)
        ensures
            r == (!self.invalid && self.retrieved == 0),
    {
        !self.invalid && self.retrieved == 0
    }

    /// Takes the reply to the GET of this walk's column: a variable is
    /// saved (see `walk_get_saved`); an absent object is recorded as such;
    /// any other failure gives the query up.
    pub fn take_get_reply(&mut self, reply: Reply, data: &mut WalkMap, quirks: &Quirks) -> (r: Step)
        requires
            old(self).retrieved < usize::MAX,
        ensures
            match reply {
                Reply::Var(n, v) => r == Step::Next && walk_get_saved(*old(self), *final(self), old(data)@, final(data)@, n@, v),
                _ => *final(self) == *old(self) && if reply_absent(reply, *quirks) {
                    r == Step::Next && final(data)@ == old(data)@.insert(old(self).oid@, Err::<_, WalkError>(WalkError::NoSuchObject))
                } else {
                    r == Step::Abort && final(data)@ == old(data)@
                },
            },
    {
        if absent(&reply, quirks) {
            data.insert(self.oid.copy(), Err(WalkError::NoSuchObject));
            return Step::Next;
        }
        match reply {
            Reply::Var(n, v) => {
                self.save_get(n, v, data);
                Step::Next
            },
            _ => Step::Abort,
        }
    }
}

} // verus!
