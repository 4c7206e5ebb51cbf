//! ODBC connection strings: `key=value` arguments, ordered by key.

use vstd::prelude::*;

use crate::common::strmap::{sm_map, sm_last_pos, lemma_sm_update};
use crate::common::text::{push_str, str_lt, string_from_chars, text_lt, lemma_text_lt_irreflexive, lemma_text_lt_transitive, lemma_text_lt_total};
use vstd::string::StringExecFns;

verus! {

/// The arguments of a connection string, each key once, in ascending order
/// of key.
pub struct ConnectionString {
    pub inner: Vec<(String, String)>,
}

/// Keys strictly ascending.
pub open spec fn keys_ascending(v: Seq<(String, String)>) -> bool {
    forall|i: int, j: int| 0 <= i < j < v.len() ==> text_lt(#[trigger] v[i].0@, #[trigger] v[j].0@)
}

/// The text of a connection string: `key=value` for each argument, in
/// order, separated by `;`.
pub open spec fn cs_text(v: Seq<(String, String)>) -> Seq<char>
    decreases v.len(),
{
    if v.len() == 0 {
        Seq::empty()
    } else if v.len() == 1 {
        v[0].0@ + "="@ + v[0].1@
    } else {
        cs_text(v.drop_last()) + ";"@ + v.last().0@ + "="@ + v.last().1@
    }
}

/// View of the arguments: key to value.
pub open spec fn args_view(v: Seq<(String, String)>) -> Map<Seq<char>, Seq<char>> {
    Map::new(|k: Seq<char>| sm_map(v).contains_key(k), |k: Seq<char>| sm_map(v)[k]@)
}

/// A value for an optional boolean argument.
pub open spec fn yes_no(b: bool) -> Seq<char> {
    if b { "YES"@ } else { "NO"@ }
}

proof fn lemma_insert_new<T>(v: Seq<(String, T)>, j: int, e: (String, T))
    requires
        0 <= j <= v.len(),
        forall|i: int| 0 <= i < v.len() ==> (#[trigger] v[i]).0@ != e.0@,
    ensures
        sm_map(v.insert(j, e)) == sm_map(v).insert(e.0@, e.1),
    decreases v.len(),
{
    let u = v.insert(j, e);
    if j == v.len() {
        assert(u.drop_last() =~= v);
        assert(u.last() == e);
    } else {
        let p = v.drop_last();
        assert forall|i: int| 0 <= i < p.len() implies (#[trigger] p[i]).0@ != e.0@ by {
            assert(p[i] == v[i]);
        }
        lemma_insert_new(p, j, e);
        assert(u.drop_last() =~= p.insert(j, e));
        assert(u.last() == v.last());
        assert(v.last().0@ != e.0@);
        assert(sm_map(u) =~= sm_map(v).insert(e.0@, e.1));
    }
}

impl ConnectionString {
    /// The arguments are well formed: keys strictly ascending.
    pub open spec fn wf(&self) -> bool {
        keys_ascending(self.inner@)
    }

    /// The arguments, by key.
    pub open spec fn args(&self) -> Map<Seq<char>, Seq<char>> {
        args_view(self.inner@)
    }

    /// No arguments.
    pub fn new() -> (r: ConnectionString)
        ensures
            r.wf(),
            r.args() == Map::<Seq<char>, Seq<char>>::empty(),
    {
        let r = ConnectionString { inner: Vec::new() };
        assert(r.args() =~= Map::<Seq<char>, Seq<char>>::empty());
        r
    }

    /// A copy of the arguments.
    pub fn copy(&self) -> (r: ConnectionString)
        ensures
            r.inner@ == self.inner@,
            r.wf() == self.wf(),
            r.args() == self.args(),
    {
        let mut v: Vec<(String, String)> = Vec::new();
        let mut i: usize = 0;
        while i < self.inner.len()
            invariant
                i <= self.inner@.len(),
                v@ == self.inner@.take(i as int),
            decreases self.inner.len() - i,
        {
            let k = self.inner[i].0.clone();
            let x = self.inner[i].1.clone();
            v.push((k, x));
            proof {
                assert(v@ =~= self.inner@.take(i + 1));
            }
            i = i + 1;
        }
        proof {
            assert(v@ =~= self.inner@);
        }
        ConnectionString { inner: v }
    }

    /// Sets the argument `key` to `value`.
    pub fn add_arg(&mut self, key: &str, value: String)
        requires
            old(self).wf(),
        ensures
            final(self).wf(),
            final(self).args() == old(self).args().insert(key@, value@),
    {
        let ghost v0 = self.inner@;
        let mut j: usize = 0;
        while j < self.inner.len() && str_lt(self.inner[j].0.as_str(), key)
            invariant
                j <= self.inner@.len(),
                self.inner@ == v0,
                keys_ascending(v0),
                forall|q: int| 0 <= q < j ==> text_lt(#[trigger] v0[q].0@, key@),
            decreases self.inner.len() - j,
        {
            j = j + 1;
        }
        let k = String::from_str(key);
        if j < self.inner.len() && self.inner[j].0 == k {
            let ghost e = (k, value);
            let _ = self.inner.remove(j);
            self.inner.insert(j, (k, value));
            proof {
                assert(self.inner@ =~= v0.update(j as int, e));
                assert forall|q: int| j < q < v0.len() implies (#[trigger] v0[q]).0@ != key@ by {
                    assert(text_lt(v0[j as int].0@, v0[q].0@));
                    lemma_text_lt_irreflexive(key@);
                }
                assert(sm_last_pos(v0, key@, j as int));
                lemma_sm_update(v0, key@, j as int, e);
                assert forall|a: int, b: int| 0 <= a < b < self.inner@.len() implies text_lt(#[trigger] self.inner@[a].0@, #[trigger] self.inner@[b].0@) by {
                    assert(self.inner@[a].0@ == v0[a].0@);
                    assert(self.inner@[b].0@ == v0[b].0@);
                }
                assert(self.args() =~= args_view(v0).insert(key@, value@));
            }
        } else {
            let ghost e = (k, value);
            self.inner.insert(j, (k, value));
            proof {
                if j < v0.len() {
                    lemma_text_lt_total(v0[j as int].0@, key@);
                }
                assert forall|q: int| 0 <= q < v0.len() implies (#[trigger] v0[q]).0@ != key@ by {
                    if q < j {
                        lemma_text_lt_irreflexive(key@);
                    } else {
                        if q > j {
                            lemma_text_lt_transitive(key@, v0[j as int].0@, v0[q].0@);
                        }
                        lemma_text_lt_irreflexive(key@);
                    }
                }
                lemma_insert_new(v0, j as int, e);
                let s1 = self.inner@;
                assert(s1 =~= v0.insert(j as int, e));
                assert forall|a: int, b: int| 0 <= a < b < s1.len() implies text_lt(#[trigger] s1[a].0@, #[trigger] s1[b].0@) by {
                    if b < j {
                        assert(s1[a] == v0[a] && s1[b] == v0[b]);
                    } else if b == j {
                        assert(s1[a] == v0[a]);
                    } else if a == j {
                        assert(s1[b] == v0[b - 1]);
                        if b - 1 > j {
                            lemma_text_lt_transitive(key@, v0[j as int].0@, v0[b - 1].0@);
                        }
                    } else if a < j {
                        assert(s1[a] == v0[a] && s1[b] == v0[b - 1]);
                        lemma_text_lt_transitive(v0[a].0@, key@, v0[j as int].0@);
                        if b - 1 > j {
                            lemma_text_lt_transitive(v0[a].0@, v0[j as int].0@, v0[b - 1].0@);
                        }
                    } else {
                        assert(s1[a] == v0[a - 1] && s1[b] == v0[b - 1]);
                    }
                }
                assert(self.args() =~= args_view(v0).insert(key@, value@));
            }
        }
    }

    /// With the argument `key` set to `value`.
    pub fn with_arg(self, key: &str, value: String) -> (r: ConnectionString)
        requires
            self.wf(),
        ensures
            r.wf(),
            r.args() == self.args().insert(key@, value@),
    {
        let mut s = self;
        s.add_arg(key, value);
        s
    }

    /// With the arguments `args` set, in order (a later one wins).
    pub fn with_args(self, args: Vec<(String, String)>) -> (r: ConnectionString)
        requires
            self.wf(),
        ensures
            r.wf(),
            r.args() == self.args().union_prefer_right(args_view(args@)),
    {
        let mut s = self;
        let ghost a0 = s.args();
        let mut i: usize = 0;
        while i < args.len()
            invariant
                i <= args@.len(),
                s.wf(),
                s.args() == a0.union_prefer_right(args_view(args@.take(i as int))),
            decreases args.len() - i,
        {
            let ghost before = s.args();
            s.add_arg(args[i].0.as_str(), args[i].1.clone());
            proof {
                assert(args@.take(i + 1).drop_last() =~= args@.take(i as int));
                assert(args@.take(i + 1).last() == args@[i as int]);
                assert(s.args() =~= a0.union_prefer_right(args_view(args@.take(i + 1))));
            }
            i = i + 1;
        }
        proof {
            assert(args@.take(i as int) =~= args@);
        }
        s
    }

    /// Sets the argument `key` when a value is given.
    pub fn add_if_set(&mut self, key: &str, opt: &Option<String>)
        requires
            old(self).wf(),
        ensures
            final(self).wf(),
            final(self).args() == match opt {
                Some(v) => old(self).args().insert(key@, v@),
                None => old(self).args(),
            },
    {
        match opt {
            Some(v) => self.add_arg(key, v.clone()),
            None => {},
        }
    }

    /// Sets the argument `key` to `YES` or `NO` when a value is given.
    pub fn add_if_set_bool(&mut self, key: &str, opt: &Option<bool>)
        requires
            old(self).wf(),
        ensures
            final(self).wf(),
            final(self).args() == match opt {
                Some(b) => old(self).args().insert(key@, yes_no(*b)),
                None => old(self).args(),
            },
    {
        match opt {
            Some(b) => {
                let v = if *b { String::from_str("YES") } else { String::from_str("NO") };
                self.add_arg(key, v);
            },
            None => {},
        }
    }

    /// With the argument `key` set when a value is given.
    pub fn with_arg_if_set(self, key: &str, opt: &Option<String>) -> (r: ConnectionString)
        requires
            self.wf(),
        ensures
            r.wf(),
            r.args() == match opt {
                Some(v) => self.args().insert(key@, v@),
                None => self.args(),
            },
    {
        let mut s = self;
        s.add_if_set(key, opt);
        s
    }

    /// With the argument `key` set to `YES` or `NO` when a value is given.
    pub fn with_arg_if_set_bool(self, key: &str, opt: &Option<bool>) -> (r: ConnectionString)
        requires
            self.wf(),
        ensures
            r.wf(),
            r.args() == match opt {
                Some(b) => self.args().insert(key@, yes_no(*b)),
                None => self.args(),
            },
    {
        let mut s = self;
        s.add_if_set_bool(key, opt);
        s
    }

    /// The connection string: `key=value` for each argument, in ascending
    /// order of key, separated by `;`.
    pub fn to_string(&self) -> (r: String)
        ensures
            r@ == cs_text(self.inner@),
    {
        let mut out: Vec<char> = Vec::new();
        let mut i: usize = 0;
        while i < self.inner.len()
            invariant
                i <= self.inner@.len(),
                out@ == cs_text(self.inner@.take(i as int)),
            decreases self.inner.len() - i,
        {
            proof {
                assert(self.inner@.take(i + 1).drop_last() =~= self.inner@.take(i as int));
                assert(self.inner@.take(i + 1).last() == self.inner@[i as int]);
            }
            if i > 0 {
                push_str(&mut out, ";");
            }
            push_str(&mut out, self.inner[i].0.as_str());
            push_str(&mut out, "=");
            push_str(&mut out, self.inner[i].1.as_str());
            proof {
                if i == 0 {
                    assert(out@ =~= cs_text(self.inner@.take(1)));
                } else {
                    assert(out@ =~= cs_text(self.inner@.take(i + 1)));
                }
            }
            i = i + 1;
        }
        proof {
            assert(self.inner@.take(i as int) =~= self.inner@);
        }
        string_from_chars(out.as_slice())
    }
}

} // verus!
