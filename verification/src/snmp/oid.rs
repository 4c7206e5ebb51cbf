//! SNMP object identifiers and the values that a device returns for them.

use vstd::prelude::*;
use crate::common::text::{decimal, push_decimal, string_from_chars};

verus! {

/// An SNMP object identifier: a sequence of numeric components.
pub struct Oid(pub Vec<u64>);

impl View for Oid {
    type V = Seq<u64>;

    open spec fn view(&self) -> Seq<u64> {
        self.0@
    }
}

/// `p` is a prefix of `s`.
pub open spec fn is_prefix(p: Seq<u64>, s: Seq<u64>) -> bool {
    p.len() <= s.len() && s.subrange(0, p.len() as int) == p
}

/// Lexicographic order of OIDs (a proper prefix comes first).
pub open spec fn oid_lt(a: Seq<u64>, b: Seq<u64>) -> bool
    decreases a.len(),
{
    if a.len() == 0 {
        b.len() > 0
    } else if b.len() == 0 {
        false
    } else if a[0] != b[0] {
        a[0] < b[0]
    } else {
        oid_lt(a.drop_first(), b.drop_first())
    }
}

/// Dotted notation of an OID: its components in decimal, joined by `.`.
pub open spec fn oid_text(s: Seq<u64>) -> Seq<char>
    decreases s.len(),
{
    if s.len() == 0 {
        Seq::empty()
    } else if s.len() == 1 {
        decimal(s[0] as nat)
    } else {
        oid_text(s.drop_last()) + seq!['.'] + decimal(s.last() as nat)
    }
}

/// The part of `s` under the table `t`: what follows `t` when `t` is a
/// prefix of `s`, else `s` itself.
pub open spec fn in_table_spec(s: Seq<u64>, t: Seq<u64>) -> Seq<u64> {
    if is_prefix(t, s) {
        s.subrange(t.len() as int, s.len() as int)
    } else {
        s
    }
}

impl Oid {
    /// The empty OID.
    pub fn empty() -> (r: Oid)
        ensures
            r@ == Seq::<u64>::empty(),
    {
        Oid(Vec::new())
    }

    /// An OID with the given components.
    pub fn from_slice(s: &[u64]) -> (r: Oid)
        ensures
            r@ == s@,
    {
        let mut v: Vec<u64> = Vec::new();
        let mut i: usize = 0;
        while i < s.len()
            invariant
                i <= s.len(),
                v@ == s@.subrange(0, i as int),
            decreases s.len() - i,
        {
            v.push(s[i]);
            i = i + 1;
        }
        Oid(v)
    }

    /// A copy of this OID.
    pub fn copy(&self) -> (r: Oid)
        ensures
            r@ == self@,
    {
        Oid::from_slice(self.0.as_slice())
    }

    /// Equality of OIDs.
    pub fn same(&self, other: &Oid) -> (r: bool)
        ensures
            r == (self@ == other@),
    {
        if self.0.len() != other.0.len() {
            return false;
        }
        let mut i: usize = 0;
        while i < self.0.len()
            invariant
                self@.len() == other@.len(),
                i <= self@.len(),
                forall|j: int| 0 <= j < i ==> self@[j] == other@[j],
            decreases self.0.len() - i,
        {
            if self.0[i] != other.0[i] {
                return false;
            }
            i = i + 1;
        }
        assert(self@ =~= other@);
        true
    }

    /// Whether `other` lies in the subtree of this OID (this OID is a prefix
    /// of it).
    pub fn contains(&self, other: &Oid) -> (r: bool)
        ensures
            r == is_prefix(self@, other@),
    {
        if self.0.len() > other.0.len() {
            return false;
        }
        let mut i: usize = 0;
        while i < self.0.len()
            invariant
                self@.len() <= other@.len(),
                i <= self@.len(),
                forall|j: int| 0 <= j < i ==> self@[j] == other@[j],
            decreases self.0.len() - i,
        {
            if self.0[i] != other.0[i] {
                assert(other@.subrange(0, self@.len() as int)[i as int] != self@[i as int]);
                return false;
            }
            i = i + 1;
        }
        assert(other@.subrange(0, self@.len() as int) =~= self@);
        true
    }

    /// The index of this OID within `table`.
    pub fn in_table(&self, table: &Oid) -> (r: Oid)
        ensures
            r@ == in_table_spec(self@, table@),
    {
        if table.contains(self) {
            let mut v: Vec<u64> = Vec::new();
            let mut i: usize = table.0.len();
            while i < self.0.len()
                invariant
                    table@.len() <= i <= self@.len(),
                    v@ == self@.subrange(table@.len() as int, i as int),
                decreases self.0.len() - i,
            {
                v.push(self.0[i]);
                i = i + 1;
            }
            Oid(v)
        } else {
            self.copy()
        }
    }

    /// Strict lexicographic order.
    pub fn lt(&self, other: &Oid) -> (r: bool)
        ensures
            r == oid_lt(self@, other@),
    {
        let mut i: usize = 0;
        assert(self@.skip(0) =~= self@);
        assert(other@.skip(0) =~= other@);
        while i < self.0.len() && i < other.0.len() && self.0[i] == other.0[i]
            invariant
                i <= self@.len(),
                i <= other@.len(),
                oid_lt(self@, other@) == oid_lt(self@.skip(i as int), other@.skip(i as int)),
            decreases self.0.len() - i,
        {
            proof {
                assert(self@.skip(i as int).drop_first() =~= self@.skip(i + 1));
                assert(other@.skip(i as int).drop_first() =~= other@.skip(i + 1));
            }
            i = i + 1;
        }
        if i == self.0.len() {
            i < other.0.len()
        } else if i == other.0.len() {
            false
        } else {
            self.0[i] < other.0[i]
        }
    }

    /// Dotted notation of this OID.
    pub fn to_text(&self) -> (r: String)
        ensures
            r@ == oid_text(self@),
    {
        let mut out: Vec<char> = Vec::new();
        let mut i: usize = 0;
        while i < self.0.len()
            invariant
                i <= self@.len(),
                out@ == oid_text(self@.subrange(0, i as int)),
            decreases self.0.len() - i,
        {
            let ghost prev = self@.subrange(0, i as int);
            if i > 0 {
                out.push('.');
            }
            push_decimal(&mut out, self.0[i]);
            proof {
                let cur = self@.subrange(0, i + 1);
                assert(cur.drop_last() =~= prev);
                if i > 0 {
                    assert(out@ =~= oid_text(cur));
                } else {
                    assert(out@ =~= decimal(self@[0] as nat));
                }
            }
            i = i + 1;
        }
        proof {
            assert(self@.subrange(0, self@.len() as int) =~= self@);
        }
        string_from_chars(out.as_slice())
    }
}

/// Errors that a device returns in place of a value.
#[derive(Clone, Copy, PartialEq, Eq)]
pub enum ErrType {
    Undefined,
    NotImplemented(u8),
    NoSuchObject,
    NoSuchInstance,
    EndOfMibView,
}

/// A value as returned by a device, by SNMP syntax.
pub enum SnmpValue {
    Boolean(bool),
    Integer(i64),
    Integer64(i64),
    Unsigned64(u64),
    Gauge(u64),
    Counter(u64),
    Counter64(u64),
    TimeTicks(u64),
    /// A single precision float, by its IEEE 754 bits.
    Float(u32),
    /// A double precision float, by its IEEE 754 bits.
    Double(u64),
    BitStr(Vec<u8>),
    OctetStr(Vec<u8>),
    Oid(Oid),
    IpAddress(u32),
}

/// Mathematical view of a device value.
pub enum SnmpValueV {
    Boolean(bool),
    Integer(i64),
    Integer64(i64),
    Unsigned64(u64),
    Gauge(u64),
    Counter(u64),
    Counter64(u64),
    TimeTicks(u64),
    Float(u32),
    Double(u64),
    BitStr(Seq<u8>),
    OctetStr(Seq<u8>),
    Oid(Seq<u64>),
    IpAddress(u32),
}

impl View for SnmpValue {
    type V = SnmpValueV;

    open spec fn view(&self) -> SnmpValueV {
        match self {
            SnmpValue::Boolean(b) => SnmpValueV::Boolean(*b),
            SnmpValue::Integer(v) => SnmpValueV::Integer(*v),
            SnmpValue::Integer64(v) => SnmpValueV::Integer64(*v),
            SnmpValue::Unsigned64(v) => SnmpValueV::Unsigned64(*v),
            SnmpValue::Gauge(v) => SnmpValueV::Gauge(*v),
            SnmpValue::Counter(v) => SnmpValueV::Counter(*v),
            SnmpValue::Counter64(v) => SnmpValueV::Counter64(*v),
            SnmpValue::TimeTicks(v) => SnmpValueV::TimeTicks(*v),
            SnmpValue::Float(v) => SnmpValueV::Float(*v),
            SnmpValue::Double(v) => SnmpValueV::Double(*v),
            SnmpValue::BitStr(v) => SnmpValueV::BitStr(v@),
            SnmpValue::OctetStr(v) => SnmpValueV::OctetStr(v@),
            SnmpValue::Oid(o) => SnmpValueV::Oid(o@),
            SnmpValue::IpAddress(v) => SnmpValueV::IpAddress(*v),
        }
    }
}

/// A device value or the error returned in its place.
pub type VarResult = Result<SnmpValue, ErrType>;

/// View of a device value or error.
pub open spec fn var_view(r: VarResult) -> Result<SnmpValueV, ErrType> {
    match r {
        Ok(v) => Ok(v@),
        Err(e) => Err(e),
    }
}

fn copy_bytes(v: &Vec<u8>) -> (r: Vec<u8>)
    ensures
        r@ == v@,
{
    let mut r: Vec<u8> = Vec::new();
    let mut i: usize = 0;
    while i < v.len()
        invariant
            i <= v.len(),
            r@ == v@.subrange(0, i as int),
        decreases v.len() - i,
    {
        r.push(v[i]);
        i = i + 1;
    }
    r
}

impl SnmpValue {
    /// A copy of this value.
    pub fn copy(&self) -> (r: SnmpValue)
        ensures
            r@ == self@,
    {
        match self {
            SnmpValue::Boolean(b) => SnmpValue::Boolean(*b),
            SnmpValue::Integer(v) => SnmpValue::Integer(*v),
            SnmpValue::Integer64(v) => SnmpValue::Integer64(*v),
            SnmpValue::Unsigned64(v) => SnmpValue::Unsigned64(*v),
            SnmpValue::Gauge(v) => SnmpValue::Gauge(*v),
            SnmpValue::Counter(v) => SnmpValue::Counter(*v),
            SnmpValue::Counter64(v) => SnmpValue::Counter64(*v),
            SnmpValue::TimeTicks(v) => SnmpValue::TimeTicks(*v),
            SnmpValue::Float(v) => SnmpValue::Float(*v),
            SnmpValue::Double(v) => SnmpValue::Double(*v),
            SnmpValue::BitStr(v) => SnmpValue::BitStr(copy_bytes(v)),
            SnmpValue::OctetStr(v) => SnmpValue::OctetStr(copy_bytes(v)),
            SnmpValue::Oid(o) => SnmpValue::Oid(o.copy()),
            SnmpValue::IpAddress(v) => SnmpValue::IpAddress(*v),
        }
    }
}

/// A copy of a device value or error.
pub fn copy_var(r: &VarResult) -> (c: VarResult)
    ensures
        var_view(c) == var_view(*r),
{
    match r {
        Ok(v) => Ok(v.copy()),
        Err(e) => Err(*e),
    }
}

} // verus!
