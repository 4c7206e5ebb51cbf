//! Which requests a query makes, in which SNMPv3 context: GETs of scalars,
//! and walks of table columns grouped by the table they walk.

use vstd::prelude::*;

use crate::common::data::strings_view;
use crate::common::search::{contains_string, lemma_push_contains};
use super::get::Gets;
use super::index::{EntrySpec, Index, index_view, ids_view, chain_ends, spec_entry_index};
use super::input::{Input, InputError, ObjectId, ObjectType, object_type, no_index_id};
use super::oid::Oid;
use super::oidmap::OidMap;
use super::walk::{WalkTable, WalkVar, Walks, opt_max};

verus! {

/// Which objects a context rule applies to.
pub enum ContextSelector {
    /// Every object.
    All,
    /// The objects of a context group.
    Group(String),
    /// The object of one OID.
    Oid(Oid),
}

/// The contexts to query: the session's context and the rules that choose
/// others (the first rule that applies decides; `None` in a rule's list
/// stands for the session's context).
pub struct ContextRules {
    pub session_context: String,
    pub rules: Vec<(ContextSelector, Vec<Option<String>>)>,
}

/// A rule's selector applies to an object.
pub open spec fn selects(sel: ContextSelector, oid: Seq<u64>, group: Option<Seq<char>>) -> bool {
    match sel {
        ContextSelector::All => true,
        ContextSelector::Group(g) => group == Some(g@),
        ContextSelector::Oid(o) => o@ == oid,
    }
}

/// The contexts of the first rule that applies to an object.
pub open spec fn first_rule(rules: Seq<(ContextSelector, Vec<Option<String>>)>, oid: Seq<u64>, group: Option<Seq<char>>) -> Option<Seq<Option<String>>>
    decreases rules.len(),
{
    if rules.len() == 0 {
        None
    } else if selects(rules[0].0, oid, group) {
        Some(rules[0].1@)
    } else {
        first_rule(rules.drop_first(), oid, group)
    }
}

/// A context of a rule: the named one, or the session's.
pub open spec fn resolve_context(c: Option<String>, session: Seq<char>) -> Seq<char> {
    match c {
        Some(s) => s@,
        None => session,
    }
}

/// The contexts in which an object is queried: those of the first rule
/// that applies, else the session's context.
pub open spec fn contexts_of(rules: ContextRules, oid: Seq<u64>, group: Option<Seq<char>>) -> Set<Seq<char>> {
    match first_rule(rules.rules@, oid, group) {
        None => set![rules.session_context@],
        Some(cs) => Set::new(|c: Seq<char>| exists|i: int| 0 <= i < cs.len() && c == resolve_context(#[trigger] cs[i], rules.session_context@)),
    }
}

/// The context rules of a session: SNMPv3 sessions use their context
/// (the empty one when none is set) and the configured rules; other
/// sessions the empty context and no rules.
pub fn context_rules(v3_context: Option<Option<String>>, rules: Vec<(ContextSelector, Vec<Option<String>>)>) -> (r: ContextRules)
    ensures
        match v3_context {
            Some(c) => r.session_context@ == (match c { Some(s) => s@, None => Seq::<char>::empty() }) && r.rules@ == rules@,
            None => r.session_context@ == Seq::<char>::empty() && r.rules@.len() == 0,
        },
{
    match v3_context {
        Some(Some(c)) => ContextRules { session_context: c, rules },
        Some(None) => ContextRules { session_context: String::new(), rules },
        None => ContextRules { session_context: String::new(), rules: Vec::new() },
    }
}

fn selector_applies(sel: &ContextSelector, oid: &Oid, group: &Option<String>) -> (r: bool)
    ensures
        r == selects(*sel, oid@, match group { Some(g) => Some(g@), None => None }),
{
    match sel {
        ContextSelector::All => true,
        ContextSelector::Group(g) => match group {
            Some(x) => *x == *g,
            None => false,
        },
        ContextSelector::Oid(o) => o.same(oid),
    }
}

/// View of an optional text.
pub open spec fn opt_text(o: Option<String>) -> Option<Seq<char>> {
    match o {
        Some(s) => Some(s@),
        None => None,
    }
}

/// The contexts in which an object is queried (see `contexts_of`), each
/// once.
pub fn get_contexts(oid: &Oid, group: &Option<String>, rules: &ContextRules) -> (r: Vec<String>)
    ensures
        strings_view(r@).no_duplicates(),
        forall|c: Seq<char>| #[trigger] strings_view(r@).contains(c) <==> contexts_of(*rules, oid@, opt_text(*group)).contains(c),
{
    let mut i: usize = 0;
    proof {
        assert(rules.rules@.skip(0) =~= rules.rules@);
    }
    while i < rules.rules.len()
        invariant
            i <= rules.rules@.len(),
            first_rule(rules.rules@, oid@, opt_text(*group)) == first_rule(rules.rules@.skip(i as int), oid@, opt_text(*group)),
        decreases rules.rules.len() - i,
    {
        proof {
            assert(rules.rules@.skip(i as int)[0] == rules.rules@[i as int]);
            assert(rules.rules@.skip(i as int).drop_first() =~= rules.rules@.skip(i + 1));
        }
        if selector_applies(&rules.rules[i].0, oid, group) {
            let cs = &rules.rules[i].1;
            let mut out: Vec<String> = Vec::new();
            let mut k: usize = 0;
            while k < cs.len()
                invariant
                    k <= cs@.len(),
                    strings_view(out@).no_duplicates(),
                    forall|c: Seq<char>| #[trigger] strings_view(out@).contains(c) <==>
                        exists|j: int| 0 <= j < k && c == resolve_context(#[trigger] cs@[j], rules.session_context@),
                decreases cs.len() - k,
            {
                let c = match &cs[k] {
                    Some(s) => s.clone(),
                    None => rules.session_context.clone(),
                };
                let ghost o0 = strings_view(out@);
                if !contains_string(&out, &c) {
                    out.push(c);
                    proof {
                        assert(strings_view(out@) =~= o0.push(c@));
                        lemma_push_contains(o0, c@);
                    }
                }
                proof {
                    assert forall|x: Seq<char>| #[trigger] strings_view(out@).contains(x) <==>
                        exists|j: int| 0 <= j < k + 1 && x == resolve_context(#[trigger] cs@[j], rules.session_context@) by {
                        if x == c@ {
                            assert(x == resolve_context(cs@[k as int], rules.session_context@));
                        }
                        if exists|j: int| 0 <= j < k + 1 && x == resolve_context(#[trigger] cs@[j], rules.session_context@) {
                            let j = choose|j: int| 0 <= j < k + 1 && x == resolve_context(#[trigger] cs@[j], rules.session_context@);
                            if j < k {
                                assert(exists|q: int| 0 <= q < k && x == resolve_context(#[trigger] cs@[q], rules.session_context@));
                            }
                        }
                    }
                }
                k = k + 1;
            }
            return out;
        }
        i = i + 1;
    }
    let mut out: Vec<String> = Vec::new();
    out.push(rules.session_context.clone());
    proof {
        assert(strings_view(out@) =~= seq![rules.session_context@]);
        assert forall|c: Seq<char>| #[trigger] strings_view(out@).contains(c) <==> c == rules.session_context@ by {
            if c == rules.session_context@ {
                assert(strings_view(out@)[0] == c);
            }
        }
    }
    out
}

/// How the walks of a query are grouped into tables: by the layout that
/// an earlier walk of the column observed (its digest), or by the index
/// the table declares.
pub enum WalkKey {
    Observed(u64),
    Declared(Index),
}

/// View of a grouping key.
pub enum WalkKeyV {
    Observed(u64),
    Declared((Seq<Seq<char>>, Option<Seq<char>>)),
}

/// A request: a GET of a scalar, or a walk of a column under its grouping
/// key with its expected length.
pub enum Request {
    Get(Oid),
    Walk(Oid, WalkKey, Option<usize>),
}

/// View of a request.
pub enum RequestV {
    Get(Seq<u64>),
    Walk(Seq<u64>, WalkKeyV, Option<usize>),
}

/// View of a grouping key.
pub open spec fn key_view(k: WalkKey) -> WalkKeyV {
    match k {
        WalkKey::Observed(h) => WalkKeyV::Observed(h),
        WalkKey::Declared(i) => WalkKeyV::Declared(index_view(i)),
    }
}

/// View of a request.
pub open spec fn request_view(r: Request) -> RequestV {
    match r {
        Request::Get(o) => RequestV::Get(o@),
        Request::Walk(o, k, e) => RequestV::Walk(o@, key_view(k), e),
    }
}

/// A request with the contexts it is made in.
pub struct QueryItem {
    pub contexts: Vec<String>,
    pub request: Request,
}

/// View of a request with its contexts.
pub open spec fn item_view(it: QueryItem) -> (Set<Seq<char>>, RequestV) {
    (strings_view(it.contexts@).to_set(), request_view(it.request))
}

/// Views of requests with their contexts.
pub open spec fn items_view(v: Seq<QueryItem>) -> Seq<(Set<Seq<char>>, RequestV)> {
    v.map_values(|it: QueryItem| item_view(it))
}

/// Why the requests of a query cannot be planned.
pub enum QueryError {
    /// An id of the query does not name what it should.
    Input(InputError),
    /// The entry of this table augments itself through a chain of entries.
    AugmentsCycle(String),
}

/// View of why a query cannot be planned.
pub enum QueryErrorV {
    Missing(Seq<char>),
    InvalidTableId(Seq<char>),
    InvalidFieldId(Seq<char>),
    InvalidField(Seq<char>),
    InvalidTable(Seq<char>),
    AugmentsCycle(Seq<char>),
}

/// View of why a query cannot be planned.
pub open spec fn qerr_view(e: QueryError) -> QueryErrorV {
    match e {
        QueryError::Input(InputError::Missing(s)) => QueryErrorV::Missing(s@),
        QueryError::Input(InputError::InvalidTableId(s)) => QueryErrorV::InvalidTableId(s@),
        QueryError::Input(InputError::InvalidFieldId(s)) => QueryErrorV::InvalidFieldId(s@),
        QueryError::Input(InputError::InvalidField(s)) => QueryErrorV::InvalidField(s@),
        QueryError::Input(InputError::InvalidTable(s)) => QueryErrorV::InvalidTable(s@),
        QueryError::AugmentsCycle(s) => QueryErrorV::AugmentsCycle(s@),
    }
}

/// The OID of a defined object.
pub open spec fn obj_oid(input: Input, id: Seq<char>) -> Seq<u64> {
    input.objects@[id].oid@
}

/// The contexts in which a defined object is queried.
pub open spec fn obj_contexts(input: Input, rules: ContextRules, id: Seq<char>) -> Set<Seq<char>> {
    contexts_of(rules, obj_oid(input, id), opt_text(input.objects@[id].context_group))
}

/// Why a field id names no scalar, if it does not.
pub open spec fn field_check(input: Input, fid: Seq<char>) -> Option<QueryErrorV> {
    match object_type(input, fid) {
        None => Some(QueryErrorV::Missing(fid)),
        Some(ObjectType::Scalar) => None,
        Some(_) => Some(QueryErrorV::InvalidFieldId(fid)),
    }
}

/// The GETs of the fields of a query without a table, in order; the first
/// field id that names no scalar is the error.
pub open spec fn scalar_items_of(input: Input, rules: ContextRules, fids: Seq<Seq<char>>) -> Result<Seq<(Set<Seq<char>>, RequestV)>, QueryErrorV>
    decreases fids.len(),
{
    if fids.len() == 0 {
        Ok(Seq::empty())
    } else {
        match scalar_items_of(input, rules, fids.drop_last()) {
            Err(e) => Err(e),
            Ok(items) => match field_check(input, fids.last()) {
                Some(e) => Err(e),
                None => Ok(items.push((obj_contexts(input, rules, fids.last()), RequestV::Get(obj_oid(input, fids.last()))))),
            },
        }
    }
}

/// The walk of a column: grouped by the layout observed by its last walk
/// (with the expected length from its statistics), else by the declared
/// index.
pub open spec fn walk_request_of(stats: Map<Seq<u64>, (u64, usize)>, oid: Seq<u64>, index: (Seq<Seq<char>>, Option<Seq<char>>)) -> RequestV {
    if stats.contains_key(oid) {
        RequestV::Walk(oid, WalkKeyV::Observed(stats[oid].0), Some(stats[oid].1))
    } else {
        RequestV::Walk(oid, WalkKeyV::Declared(index), None)
    }
}

/// The index holds the object (as an index object or the implied one).
pub open spec fn index_holds(index: (Seq<Seq<char>>, Option<Seq<char>>), id: Seq<char>) -> bool {
    index.0.contains(id) || index.1 == Some(id)
}

/// The walks of the columns of a table, in order: the fields that are no
/// index objects; the first field id that names no scalar is the error.
pub open spec fn column_items_of(input: Input, stats: Map<Seq<u64>, (u64, usize)>, index: (Seq<Seq<char>>, Option<Seq<char>>), ctxs: Set<Seq<char>>, fids: Seq<Seq<char>>) -> Result<Seq<(Set<Seq<char>>, RequestV)>, QueryErrorV>
    decreases fids.len(),
{
    if fids.len() == 0 {
        Ok(Seq::empty())
    } else {
        match column_items_of(input, stats, index, ctxs, fids.drop_last()) {
            Err(e) => Err(e),
            Ok(items) => match field_check(input, fids.last()) {
                Some(e) => Err(e),
                None => if index_holds(index, fids.last()) {
                    Ok(items)
                } else {
                    Ok(items.push((ctxs, walk_request_of(stats, obj_oid(input, fids.last()), index))))
                },
            },
        }
    }
}

/// The requests of one table of a query: GETs for the fields without a
/// table (`noIndex`); for a folded table one walk of the table itself;
/// else walks of its columns.
pub open spec fn table_items_of(input: Input, rules: ContextRules, stats: Map<Seq<u64>, (u64, usize)>, tid: Seq<char>, fids: Seq<Seq<char>>) -> Result<Seq<(Set<Seq<char>>, RequestV)>, QueryErrorV> {
    if tid == no_index_id() {
        scalar_items_of(input, rules, fids)
    } else {
        match object_type(input, tid) {
            None => Err(QueryErrorV::Missing(tid)),
            Some(ObjectType::Table) => if !input.tables@.contains_key(tid) {
                Err(QueryErrorV::Missing(tid))
            } else {
                match spec_entry_index(input, input.tables@[tid], input.tables.0@.len() as nat) {
                    None => Err(QueryErrorV::AugmentsCycle(tid)),
                    Some(Err(m)) => Err(QueryErrorV::Missing(m)),
                    Some(Ok(iv)) => {
                        let ctxs = obj_contexts(input, rules, tid);
                        if input.tables@[tid].fold is Some {
                            Ok(seq![(ctxs, walk_request_of(stats, obj_oid(input, tid), iv))])
                        } else {
                            column_items_of(input, stats, iv, ctxs, fids)
                        }
                    },
                }
            },
            Some(_) => Err(QueryErrorV::InvalidTableId(tid)),
        }
    }
}

/// View of a query: each table id with its field ids.
pub open spec fn query_view(q: Seq<(String, Vec<String>)>) -> Seq<(Seq<char>, Seq<Seq<char>>)> {
    q.map_values(|e: (String, Vec<String>)| (e.0@, strings_view(e.1@)))
}

/// The requests of a query, table after table; the first error stops it.
pub open spec fn query_items_of(input: Input, rules: ContextRules, stats: Map<Seq<u64>, (u64, usize)>, q: Seq<(Seq<char>, Seq<Seq<char>>)>) -> Result<Seq<(Set<Seq<char>>, RequestV)>, QueryErrorV>
    decreases q.len(),
{
    if q.len() == 0 {
        Ok(Seq::empty())
    } else {
        match query_items_of(input, rules, stats, q.drop_last()) {
            Err(e) => Err(e),
            Ok(items) => match table_items_of(input, rules, stats, q.last().0, q.last().1) {
                Err(e) => Err(e),
                Ok(more) => Ok(items + more),
            },
        }
    }
}

fn copy_index(i: &Index) -> (r: Index)
    ensures
        index_view(r) == index_view(*i),
{
    let mut vars: Vec<ObjectId> = Vec::new();
    let mut k: usize = 0;
    while k < i.vars.len()
        invariant
            k <= i.vars@.len(),
            ids_view(vars@) == ids_view(i.vars@.take(k as int)),
        decreases i.vars.len() - k,
    {
        let ghost v0 = ids_view(vars@);
        vars.push(i.vars[k].copy());
        proof {
            assert(ids_view(vars@) =~= v0.push(i.vars@[k as int]@));
            assert(ids_view(i.vars@.take(k + 1)) =~= ids_view(i.vars@.take(k as int)).push(i.vars@[k as int]@));
        }
        k = k + 1;
    }
    proof {
        assert(i.vars@.take(k as int) =~= i.vars@);
    }
    let implied = match &i.implied {
        Some(o) => Some(o.copy()),
        None => None,
    };
    Index { vars, implied }
}

/// The walk of a column (see `walk_request_of`).
pub fn walk_request(oid: &Oid, index: &Index, stats: &OidMap<(u64, usize)>) -> (r: Request)
    ensures
        request_view(r) == walk_request_of(stats@, oid@, index_view(*index)),
{
    match stats.get(oid) {
        Some(s) => Request::Walk(oid.copy(), WalkKey::Observed(s.0), Some(s.1)),
        None => Request::Walk(oid.copy(), WalkKey::Declared(copy_index(index)), None),
    }
}

fn copy_strings(v: &Vec<String>) -> (r: Vec<String>)
    ensures
        strings_view(r@) == strings_view(v@),
{
    let mut r: Vec<String> = Vec::new();
    let mut k: usize = 0;
    while k < v.len()
        invariant
            k <= v@.len(),
            strings_view(r@) == strings_view(v@.take(k as int)),
        decreases v.len() - k,
    {
        let ghost r0 = strings_view(r@);
        r.push(v[k].clone());
        proof {
            assert(strings_view(r@) =~= r0.push(v@[k as int]@));
            assert(strings_view(v@.take(k + 1)) =~= strings_view(v@.take(k as int)).push(v@[k as int]@));
        }
        k = k + 1;
    }
    proof {
        assert(v@.take(k as int) =~= v@);
    }
    r
}

fn check_field<'a>(input: &'a Input, fid: &String) -> (r: Result<&'a super::input::ObjectSpec, QueryError>)
    ensures
        match field_check(*input, fid@) {
            Some(e) => r matches Err(x) && qerr_view(x) == e,
            None => r matches Ok(o) && input.objects@.contains_key(fid@) && *o == input.objects@[fid@],
        },
{
    match ObjectId::from_field_id(fid, input) {
        Err(e) => Err(QueryError::Input(e)),
        Ok(_) => match input.objects.get(fid) {
            Some(o) => Ok(o),
            None => Err(QueryError::Input(InputError::Missing(fid.clone()))),
        },
    }
}

fn scalar_items(input: &Input, rules: &ContextRules, fids: &Vec<String>) -> (r: Result<Vec<QueryItem>, QueryError>)
    ensures
        match (r, scalar_items_of(*input, *rules, strings_view(fids@))) {
            (Ok(v), Ok(w)) => items_view(v@) == w,
            (Err(a), Err(b)) => qerr_view(a) == b,
            _ => false,
        },
{
    let mut out: Vec<QueryItem> = Vec::new();
    let mut i: usize = 0;
    proof {
        assert(strings_view(fids@).take(0) =~= Seq::<Seq<char>>::empty());
        assert(items_view(out@) =~= Seq::<(Set<Seq<char>>, RequestV)>::empty());
    }
    while i < fids.len()
        invariant
            i <= fids@.len(),
            scalar_items_of(*input, *rules, strings_view(fids@).take(i as int)) == Ok::<Seq<(Set<Seq<char>>, RequestV)>, QueryErrorV>(items_view(out@)),
        decreases fids.len() - i,
    {
        proof {
            assert(strings_view(fids@).take(i + 1).drop_last() =~= strings_view(fids@).take(i as int));
            assert(strings_view(fids@).take(i + 1).last() == fids@[i as int]@);
        }
        let obj = match check_field(input, &fids[i]) {
            Err(e) => {
                proof {
                    lemma_scalar_items_err(*input, *rules, strings_view(fids@), i as int + 1);
                }
                return Err(e);
            },
            Ok(o) => o,
        };
        let ctxs = get_contexts(&obj.oid, &obj.context_group, rules);
        let it = QueryItem { contexts: ctxs, request: Request::Get(obj.oid.copy()) };
        let ghost o0 = items_view(out@);
        let ghost iv = item_view(it);
        out.push(it);
        proof {
            assert(items_view(out@) =~= o0.push(iv));
            assert(strings_view(ctxs@).to_set() =~= obj_contexts(*input, *rules, fids@[i as int]@));
        }
        i = i + 1;
    }
    proof {
        assert(strings_view(fids@).take(i as int) =~= strings_view(fids@));
    }
    Ok(out)
}

proof fn lemma_scalar_items_err(input: Input, rules: ContextRules, fids: Seq<Seq<char>>, n: int)
    requires
        0 < n <= fids.len(),
        scalar_items_of(input, rules, fids.take(n)) is Err,
    ensures
        scalar_items_of(input, rules, fids) == scalar_items_of(input, rules, fids.take(n)),
    decreases fids.len() - n,
{
    if n < fids.len() {
        assert(fids.take(n + 1).drop_last() =~= fids.take(n));
        lemma_scalar_items_err(input, rules, fids, n + 1);
    } else {
        assert(fids.take(n) =~= fids);
    }
}

proof fn lemma_column_items_err(input: Input, stats: Map<Seq<u64>, (u64, usize)>, index: (Seq<Seq<char>>, Option<Seq<char>>), ctxs: Set<Seq<char>>, fids: Seq<Seq<char>>, n: int)
    requires
        0 < n <= fids.len(),
        column_items_of(input, stats, index, ctxs, fids.take(n)) is Err,
    ensures
        column_items_of(input, stats, index, ctxs, fids) == column_items_of(input, stats, index, ctxs, fids.take(n)),
    decreases fids.len() - n,
{
    if n < fids.len() {
        assert(fids.take(n + 1).drop_last() =~= fids.take(n));
        lemma_column_items_err(input, stats, index, ctxs, fids, n + 1);
    } else {
        assert(fids.take(n) =~= fids);
    }
}

fn column_items(input: &Input, stats: &OidMap<(u64, usize)>, index: &Index, ctxs: &Vec<String>, fids: &Vec<String>) -> (r: Result<Vec<QueryItem>, QueryError>)
    ensures
        match (r, column_items_of(*input, stats@, index_view(*index), strings_view(ctxs@).to_set(), strings_view(fids@))) {
            (Ok(v), Ok(w)) => items_view(v@) == w,
            (Err(a), Err(b)) => qerr_view(a) == b,
            _ => false,
        },
{
    let ghost cset = strings_view(ctxs@).to_set();
    let mut out: Vec<QueryItem> = Vec::new();
    let mut i: usize = 0;
    proof {
        assert(strings_view(fids@).take(0) =~= Seq::<Seq<char>>::empty());
        assert(items_view(out@) =~= Seq::<(Set<Seq<char>>, RequestV)>::empty());
    }
    while i < fids.len()
        invariant
            i <= fids@.len(),
            cset == strings_view(ctxs@).to_set(),
            column_items_of(*input, stats@, index_view(*index), cset, strings_view(fids@).take(i as int)) == Ok::<Seq<(Set<Seq<char>>, RequestV)>, QueryErrorV>(items_view(out@)),
        decreases fids.len() - i,
    {
        proof {
            assert(strings_view(fids@).take(i + 1).drop_last() =~= strings_view(fids@).take(i as int));
            assert(strings_view(fids@).take(i + 1).last() == fids@[i as int]@);
        }
        let obj = match check_field(input, &fids[i]) {
            Err(e) => {
                proof {
                    lemma_column_items_err(*input, stats@, index_view(*index), cset, strings_view(fids@), i as int + 1);
                }
                return Err(e);
            },
            Ok(o) => o,
        };
        let fid = ObjectId(fids[i].clone());
        if !index.contains(&fid) {
            let req = walk_request(&obj.oid, index, stats);
            let it = QueryItem { contexts: copy_strings(ctxs), request: req };
            let ghost o0 = items_view(out@);
            let ghost iv = item_view(it);
            out.push(it);
            proof {
                assert(items_view(out@) =~= o0.push(iv));
            }
        }
        i = i + 1;
    }
    proof {
        assert(strings_view(fids@).take(i as int) =~= strings_view(fids@));
    }
    Ok(out)
}

/// The requests of one table of a query (see `table_items_of`).
pub fn table_items(input: &Input, rules: &ContextRules, stats: &OidMap<(u64, usize)>, tid: &String, fids: &Vec<String>) -> (r: Result<Vec<QueryItem>, QueryError>)
    ensures
        match (r, table_items_of(*input, *rules, stats@, tid@, strings_view(fids@))) {
            (Ok(v), Ok(w)) => items_view(v@) == w,
            (Err(a), Err(b)) => qerr_view(a) == b,
            _ => false,
        },
{
    let obj_id = match ObjectId::from_table_id(tid, input) {
        Err(e) => return Err(QueryError::Input(e)),
        Ok(None) => return scalar_items(input, rules, fids),
        Ok(Some(o)) => o,
    };
    let obj = match input.objects.get(&obj_id.0) {
        Some(o) => o,
        None => return Err(QueryError::Input(InputError::Missing(tid.clone()))),
    };
    let entry = match input.tables.get(&obj_id.0) {
        Some(e) => e,
        None => return Err(QueryError::Input(InputError::Missing(tid.clone()))),
    };
    let ctxs = get_contexts(&obj.oid, &obj.context_group, rules);
    if !entry.chain_ends(input) {
        return Err(QueryError::AugmentsCycle(tid.clone()));
    }
    let index = match entry.get_index(input) {
        Ok(i) => i,
        Err(e) => return Err(QueryError::Input(e)),
    };
    proof {
        assert(strings_view(ctxs@).to_set() =~= obj_contexts(*input, *rules, tid@));
    }
    match entry.fold {
        Some(_) => {
            let req = walk_request(&obj.oid, &index, stats);
            let mut out: Vec<QueryItem> = Vec::new();
            let it = QueryItem { contexts: ctxs, request: req };
            let ghost iv = item_view(it);
            out.push(it);
            proof {
                assert(items_view(out@) =~= seq![iv]);
            }
            Ok(out)
        },
        None => column_items(input, stats, &index, &ctxs, fids),
    }
}

/// The requests of a query (see `query_items_of`).
pub fn query_items(input: &Input, rules: &ContextRules, stats: &OidMap<(u64, usize)>, query: &Vec<(String, Vec<String>)>) -> (r: Result<Vec<QueryItem>, QueryError>)
    ensures
        match (r, query_items_of(*input, *rules, stats@, query_view(query@))) {
            (Ok(v), Ok(w)) => items_view(v@) == w,
            (Err(a), Err(b)) => qerr_view(a) == b,
            _ => false,
        },
{
    let ghost qv = query_view(query@);
    let mut out: Vec<QueryItem> = Vec::new();
    let mut i: usize = 0;
    proof {
        assert(qv.take(0) =~= Seq::<(Seq<char>, Seq<Seq<char>>)>::empty());
        assert(items_view(out@) =~= Seq::<(Set<Seq<char>>, RequestV)>::empty());
    }
    while i < query.len()
        invariant
            i <= query@.len(),
            qv == query_view(query@),
            query_items_of(*input, *rules, stats@, qv.take(i as int)) == Ok::<Seq<(Set<Seq<char>>, RequestV)>, QueryErrorV>(items_view(out@)),
        decreases query.len() - i,
    {
        proof {
            assert(qv.take(i + 1).drop_last() =~= qv.take(i as int));
            assert(qv.take(i + 1).last() == qv[i as int]);
        }
        match table_items(input, rules, stats, &query[i].0, &query[i].1) {
            Err(e) => {
                proof {
                    lemma_query_items_err(*input, *rules, stats@, qv, i as int + 1);
                }
                return Err(e);
            },
            Ok(more) => {
                let ghost o0 = items_view(out@);
                let ghost m0 = items_view(more@);
                let mut more = more;
                out.append(&mut more);
                proof {
                    assert(items_view(out@) =~= o0 + m0);
                }
            },
        }
        i = i + 1;
    }
    proof {
        assert(qv.take(i as int) =~= qv);
    }
    Ok(out)
}

proof fn lemma_query_items_err(input: Input, rules: ContextRules, stats: Map<Seq<u64>, (u64, usize)>, q: Seq<(Seq<char>, Seq<Seq<char>>)>, n: int)
    requires
        0 < n <= q.len(),
        query_items_of(input, rules, stats, q.take(n)) is Err,
    ensures
        query_items_of(input, rules, stats, q) == query_items_of(input, rules, stats, q.take(n)),
    decreases q.len() - n,
{
    if n < q.len() {
        assert(q.take(n + 1).drop_last() =~= q.take(n));
        lemma_query_items_err(input, rules, stats, q, n + 1);
    } else {
        assert(q.take(n) =~= q);
    }
}

/// The contexts in which some request is made.
pub open spec fn contexts_in(items: Seq<(Set<Seq<char>>, RequestV)>) -> Set<Seq<char>>
    decreases items.len(),
{
    if items.len() == 0 {
        Set::empty()
    } else {
        contexts_in(items.drop_last()).union(items.last().0)
    }
}

/// The OIDs to GET in a context, in order.
pub open spec fn gets_in(items: Seq<(Set<Seq<char>>, RequestV)>, c: Seq<char>) -> Seq<Seq<u64>>
    decreases items.len(),
{
    if items.len() == 0 {
        Seq::empty()
    } else {
        let g = gets_in(items.drop_last(), c);
        match items.last().1 {
            RequestV::Get(o) => if items.last().0.contains(c) { g.push(o) } else { g },
            _ => g,
        }
    }
}

/// The walks to make in a context, in order, with their grouping keys and
/// expected lengths.
pub open spec fn walks_in(items: Seq<(Set<Seq<char>>, RequestV)>, c: Seq<char>) -> Seq<(WalkKeyV, Seq<u64>, Option<usize>)>
    decreases items.len(),
{
    if items.len() == 0 {
        Seq::empty()
    } else {
        let w = walks_in(items.drop_last(), c);
        match items.last().1 {
            RequestV::Walk(o, k, e) => if items.last().0.contains(c) { w.push((k, o, e)) } else { w },
            _ => w,
        }
    }
}

/// Walks grouped into tables by key, the tables in the order of their
/// first walk: each table's columns in order, its expected length the
/// largest known one.
pub open spec fn group_walks(ws: Seq<(WalkKeyV, Seq<u64>, Option<usize>)>) -> Seq<(WalkKeyV, Seq<Seq<u64>>, Option<usize>)>
    decreases ws.len(),
{
    if ws.len() == 0 {
        Seq::empty()
    } else {
        let g = group_walks(ws.drop_last());
        let (k, o, e) = ws.last();
        if exists|j: int| 0 <= j < g.len() && (#[trigger] g[j]).0 == k {
            let j = choose|j: int| 0 <= j < g.len() && (#[trigger] g[j]).0 == k;
            g.update(j, (k, g[j].1.push(o), opt_max(g[j].2, e)))
        } else {
            g.push((k, seq![o], opt_max(None, e)))
        }
    }
}

/// View of grouped walk tables: key, columns and expected length.
pub open spec fn tables_view(ts: Seq<(WalkKey, WalkTable)>) -> Seq<(WalkKeyV, Seq<Seq<u64>>, Option<usize>)> {
    ts.map_values(|t: (WalkKey, WalkTable)| (key_view(t.0), t.1.vars@.map_values(|v: WalkVar| v.oid@), t.1.expected))
}

/// A column walk that has not started.
pub open spec fn fresh_walk(v: WalkVar) -> bool {
    v.last@ == v.oid@ && !v.done && !v.invalid && v.retrieved == 0 && v.index@.len() == 0
}

/// All column walks of the tables have not started.
pub open spec fn all_fresh(ts: Seq<WalkTable>) -> bool {
    forall|i: int, j: int| 0 <= i < ts.len() && 0 <= j < ts[i].vars@.len() ==> fresh_walk(#[trigger] ts[i].vars@[j])
}

fn same_ids(a: &Vec<ObjectId>, b: &Vec<ObjectId>) -> (r: bool)
    ensures
        r == (ids_view(a@) == ids_view(b@)),
{
    if a.len() != b.len() {
        proof {
            assert(ids_view(a@).len() != ids_view(b@).len());
        }
        return false;
    }
    let mut i: usize = 0;
    while i < a.len()
        invariant
            a@.len() == b@.len(),
            i <= a@.len(),
            forall|j: int| 0 <= j < i ==> (#[trigger] a@[j])@ == b@[j]@,
        decreases a.len() - i,
    {
        if !a[i].same(&b[i]) {
            proof {
                assert(ids_view(a@)[i as int] != ids_view(b@)[i as int]);
            }
            return false;
        }
        i = i + 1;
    }
    proof {
        assert(ids_view(a@) =~= ids_view(b@));
    }
    true
}

fn same_key(a: &WalkKey, b: &WalkKey) -> (r: bool)
    ensures
        r == (key_view(*a) == key_view(*b)),
{
    match (a, b) {
        (WalkKey::Observed(x), WalkKey::Observed(y)) => *x == *y,
        (WalkKey::Declared(x), WalkKey::Declared(y)) => {
            let v = same_ids(&x.vars, &y.vars);
            let i = match (&x.implied, &y.implied) {
                (Some(p), Some(q)) => p.same(q),
                (None, None) => true,
                _ => false,
            };
            v && i
        },
        _ => false,
    }
}

fn copy_key(k: &WalkKey) -> (r: WalkKey)
    ensures
        key_view(r) == key_view(*k),
{
    match k {
        WalkKey::Observed(h) => WalkKey::Observed(*h),
        WalkKey::Declared(i) => WalkKey::Declared(copy_index(i)),
    }
}

proof fn lemma_group_keys_distinct(ws: Seq<(WalkKeyV, Seq<u64>, Option<usize>)>)
    ensures
        forall|a: int, b: int| 0 <= a < b < group_walks(ws).len() ==> (#[trigger] group_walks(ws)[a]).0 != (#[trigger] group_walks(ws)[b]).0,
    decreases ws.len(),
{
    if ws.len() > 0 {
        lemma_group_keys_distinct(ws.drop_last());
        let g = group_walks(ws.drop_last());
        let k = ws.last().0;
        let r = group_walks(ws);
        if exists|j: int| 0 <= j < g.len() && (#[trigger] g[j]).0 == k {
            let j = choose|j: int| 0 <= j < g.len() && (#[trigger] g[j]).0 == k;
            assert forall|a: int, b: int| 0 <= a < b < r.len() implies (#[trigger] r[a]).0 != (#[trigger] r[b]).0 by {
                assert(r[a].0 == g[a].0);
                assert(r[b].0 == g[b].0);
            }
        } else {
            assert forall|a: int, b: int| 0 <= a < b < r.len() implies (#[trigger] r[a]).0 != (#[trigger] r[b]).0 by {
                if b < g.len() {
                    assert(r[a] == g[a]);
                    assert(r[b] == g[b]);
                } else {
                    assert(r[a] == g[a]);
                    assert(r[b].0 == k);
                }
            }
        }
    }
}

/// Groups walks into tables (see `group_walks`).
pub fn group_walk_requests(reqs: &Vec<(WalkKey, Oid, Option<usize>)>) -> (r: Vec<(WalkKey, WalkTable)>)
    ensures
        tables_view(r@) == group_walks(reqs@.map_values(|q: (WalkKey, Oid, Option<usize>)| (key_view(q.0), q.1@, q.2))),
        all_fresh(r@.map_values(|t: (WalkKey, WalkTable)| t.1)),
{
    let ghost rv = reqs@.map_values(|q: (WalkKey, Oid, Option<usize>)| (key_view(q.0), q.1@, q.2));
    let mut tables: Vec<(WalkKey, WalkTable)> = Vec::new();
    let mut i: usize = 0;
    proof {
        assert(rv.take(0) =~= Seq::<(WalkKeyV, Seq<u64>, Option<usize>)>::empty());
        assert(tables_view(tables@) =~= Seq::<(WalkKeyV, Seq<Seq<u64>>, Option<usize>)>::empty());
    }
    while i < reqs.len()
        invariant
            i <= reqs@.len(),
            rv == reqs@.map_values(|q: (WalkKey, Oid, Option<usize>)| (key_view(q.0), q.1@, q.2)),
            tables_view(tables@) == group_walks(rv.take(i as int)),
            all_fresh(tables@.map_values(|t: (WalkKey, WalkTable)| t.1)),
        decreases reqs.len() - i,
    {
        proof {
            assert(rv.take(i + 1).drop_last() =~= rv.take(i as int));
            assert(rv.take(i + 1).last() == rv[i as int]);
            lemma_group_keys_distinct(rv.take(i as int));
        }
        let ghost g = group_walks(rv.take(i as int));
        let ghost tv0 = tables_view(tables@);
        let mut j: usize = 0;
        while j < tables.len() && !same_key(&tables[j].0, &reqs[i].0)
            invariant
                i < reqs@.len(),
                j <= tables@.len(),
                forall|q: int| 0 <= q < j ==> key_view(#[trigger] tables@[q].0) != key_view(reqs@[i as int].0),
            decreases tables.len() - j,
        {
            j = j + 1;
        }
        let var = WalkVar::new(reqs[i].1.copy());
        if j < tables.len() {
            let ghost t0 = tables@;
            let ghost told = tables@[j as int].1;
            let ghost vv = var;
            let (k, mut t) = tables.remove(j);
            t.push(var, reqs[i].2);
            proof {
                assert(t.vars@.map_values(|v: WalkVar| v.oid@) =~= told.vars@.map_values(|v: WalkVar| v.oid@).push(vv.oid@));
            }
            tables.insert(j, (k, t));
            proof {
                assert(tv0[j as int].0 == rv[i as int].0);
                assert(forall|q: int| 0 <= q < g.len() && (#[trigger] g[q]).0 == rv[i as int].0 ==> q == j);
                assert(tables@ =~= t0.update(j as int, (k, t)));
                assert(tables_view(tables@) =~= g.update(j as int, (rv[i as int].0, g[j as int].1.push(rv[i as int].1), opt_max(g[j as int].2, rv[i as int].2))));
                let ts = tables@.map_values(|t: (WalkKey, WalkTable)| t.1);
                let ts0 = t0.map_values(|t: (WalkKey, WalkTable)| t.1);
                assert forall|a: int, b: int| 0 <= a < ts.len() && 0 <= b < ts[a].vars@.len() implies fresh_walk(#[trigger] ts[a].vars@[b]) by {
                    if a != j {
                        assert(ts[a] == ts0[a]);
                    } else if b < ts0[a].vars@.len() {
                        assert(ts[a].vars@[b] == ts0[a].vars@[b]);
                    }
                }
            }
        } else {
            let mut t = WalkTable::new();
            t.push(var, reqs[i].2);
            let ghost t0 = tables@;
            tables.push((copy_key(&reqs[i].0), t));
            proof {
                assert(!(exists|q: int| 0 <= q < g.len() && (#[trigger] g[q]).0 == rv[i as int].0));
                assert(t.vars@.map_values(|v: WalkVar| v.oid@) =~= seq![rv[i as int].1]);
                assert(tables_view(tables@) =~= g.push((rv[i as int].0, seq![rv[i as int].1], opt_max(None, rv[i as int].2))));
                let ts = tables@.map_values(|t: (WalkKey, WalkTable)| t.1);
                let ts0 = t0.map_values(|t: (WalkKey, WalkTable)| t.1);
                assert forall|a: int, b: int| 0 <= a < ts.len() && 0 <= b < ts[a].vars@.len() implies fresh_walk(#[trigger] ts[a].vars@[b]) by {
                    if a < t0.len() {
                        assert(ts[a] == ts0[a]);
                    }
                }
            }
        }
        i = i + 1;
    }
    proof {
        assert(rv.take(i as int) =~= rv);
    }
    tables
}

/// The contexts of a grouped query, in order.
pub open spec fn entry_contexts(v: Seq<(String, Walks, Gets)>) -> Seq<Seq<char>> {
    v.map_values(|e: (String, Walks, Gets)| e.0@)
}

fn add_context(out: &mut Vec<String>, x: &String)
    requires
        strings_view(old(out)@).no_duplicates(),
    ensures
        strings_view(final(out)@).no_duplicates(),
        forall|m: Seq<char>| #[trigger] strings_view(final(out)@).contains(m) <==> (strings_view(old(out)@).contains(m) || m == x@),
{
    if !contains_string(out, x) {
        let ghost o0 = strings_view(out@);
        out.push(x.clone());
        proof {
            assert(strings_view(out@) =~= o0.push(x@));
            lemma_push_contains(o0, x@);
        }
    }
}

fn all_contexts(items: &Vec<QueryItem>) -> (r: Vec<String>)
    ensures
        strings_view(r@).no_duplicates(),
        forall|c: Seq<char>| #[trigger] strings_view(r@).contains(c) <==> contexts_in(items_view(items@)).contains(c),
{
    let ghost iv = items_view(items@);
    let mut out: Vec<String> = Vec::new();
    let mut i: usize = 0;
    proof {
        assert(iv.take(0) =~= Seq::<(Set<Seq<char>>, RequestV)>::empty());
    }
    while i < items.len()
        invariant
            i <= items@.len(),
            iv == items_view(items@),
            strings_view(out@).no_duplicates(),
            forall|c: Seq<char>| #[trigger] strings_view(out@).contains(c) <==> contexts_in(iv.take(i as int)).contains(c),
        decreases items.len() - i,
    {
        proof {
            assert(iv.take(i + 1).drop_last() =~= iv.take(i as int));
            assert(iv.take(i + 1).last() == iv[i as int]);
        }
        let cs = &items[i].contexts;
        let ghost before = strings_view(out@);
        let mut k: usize = 0;
        while k < cs.len()
            invariant
                k <= cs@.len(),
                strings_view(out@).no_duplicates(),
                forall|c: Seq<char>| #[trigger] strings_view(out@).contains(c) <==> (before.contains(c) || strings_view(cs@).take(k as int).contains(c)),
            decreases cs.len() - k,
        {
            proof {
                assert(strings_view(cs@).take(k + 1) =~= strings_view(cs@).take(k as int).push(cs@[k as int]@));
                lemma_push_contains(strings_view(cs@).take(k as int), cs@[k as int]@);
            }
            add_context(&mut out, &cs[k]);
            k = k + 1;
        }
        proof {
            assert(strings_view(cs@).take(k as int) =~= strings_view(cs@));
            assert(iv[i as int].0 == strings_view(cs@).to_set());
        }
        i = i + 1;
    }
    proof {
        assert(iv.take(i as int) =~= iv);
    }
    out
}

/// The requests of a query grouped by context (see `query_items_of`): for
/// each context in which some request is made, the tables to walk (see
/// `group_walks`; the walks not started) and the OIDs to GET.
pub fn get_queries(input: &Input, rules: &ContextRules, stats: &OidMap<(u64, usize)>, query: &Vec<(String, Vec<String>)>) -> (r: Result<Vec<(String, Walks, Gets)>, QueryError>)
    ensures
        match (r, query_items_of(*input, *rules, stats@, query_view(query@))) {
            (Err(a), Err(b)) => qerr_view(a) == b,
            (Ok(v), Ok(items)) => {
                &&& entry_contexts(v@).no_duplicates()
                &&& forall|c: Seq<char>| #[trigger] entry_contexts(v@).contains(c) <==> contexts_in(items).contains(c)
                &&& forall|i: int| 0 <= i < v@.len() ==> {
                    let (c, w, g) = #[trigger] v@[i];
                    &&& g@ == gets_in(items, c@).map_values(|o: Seq<u64>| (o, false))
                    &&& w.0@.map_values(|t: WalkTable| (t.vars@.map_values(|x: WalkVar| x.oid@), t.expected))
                        == group_walks(walks_in(items, c@)).map_values(|t: (WalkKeyV, Seq<Seq<u64>>, Option<usize>)| (t.1, t.2))
                    &&& all_fresh(w.0@)
                }
            },
            _ => false,
        },
{
    let items = match query_items(input, rules, stats, query) {
        Ok(v) => v,
        Err(e) => return Err(e),
    };
    let ghost iv = items_view(items@);
    let contexts = all_contexts(&items);
    let mut out: Vec<(String, Walks, Gets)> = Vec::new();
    let mut n: usize = 0;
    while n < contexts.len()
        invariant
            n <= contexts@.len(),
            iv == items_view(items@),
            strings_view(contexts@).no_duplicates(),
            entry_contexts(out@) == strings_view(contexts@).take(n as int),
            forall|i: int| 0 <= i < out@.len() ==> {
                let (c, w, g) = #[trigger] out@[i];
                &&& g@ == gets_in(iv, c@).map_values(|o: Seq<u64>| (o, false))
                &&& w.0@.map_values(|t: WalkTable| (t.vars@.map_values(|x: WalkVar| x.oid@), t.expected))
                    == group_walks(walks_in(iv, c@)).map_values(|t: (WalkKeyV, Seq<Seq<u64>>, Option<usize>)| (t.1, t.2))
                &&& all_fresh(w.0@)
            },
        decreases contexts.len() - n,
    {
        let c = &contexts[n];
        let mut gets = Gets::new();
        let mut reqs: Vec<(WalkKey, Oid, Option<usize>)> = Vec::new();
        let mut i: usize = 0;
        proof {
            assert(iv.take(0) =~= Seq::<(Set<Seq<char>>, RequestV)>::empty());
            assert(gets@ =~= gets_in(iv.take(0), c@).map_values(|o: Seq<u64>| (o, false)));
            assert(reqs@.map_values(|q: (WalkKey, Oid, Option<usize>)| (key_view(q.0), q.1@, q.2)) =~= walks_in(iv.take(0), c@));
        }
        while i < items.len()
            invariant
                i <= items@.len(),
                iv == items_view(items@),
                gets@ == gets_in(iv.take(i as int), c@).map_values(|o: Seq<u64>| (o, false)),
                reqs@.map_values(|q: (WalkKey, Oid, Option<usize>)| (key_view(q.0), q.1@, q.2)) == walks_in(iv.take(i as int), c@),
            decreases items.len() - i,
        {
            proof {
                assert(iv.take(i + 1).drop_last() =~= iv.take(i as int));
                assert(iv.take(i + 1).last() == iv[i as int]);
                assert(iv[i as int].0 == strings_view(items@[i as int].contexts@).to_set());
            }
            let here = contains_string(&items[i].contexts, c);
            match &items[i].request {
                Request::Get(o) => {
                    if here {
                        let ghost g0 = gets@;
                        gets.push(o.copy());
                        proof {
                            assert(gets@ =~= gets_in(iv.take(i + 1), c@).map_values(|o: Seq<u64>| (o, false)));
                        }
                    }
                },
                Request::Walk(o, k, e) => {
                    if here {
                        let ghost r0 = reqs@.map_values(|q: (WalkKey, Oid, Option<usize>)| (key_view(q.0), q.1@, q.2));
                        reqs.push((copy_key(k), o.copy(), *e));
                        proof {
                            assert(reqs@.map_values(|q: (WalkKey, Oid, Option<usize>)| (key_view(q.0), q.1@, q.2)) =~= r0.push((key_view(*k), o@, *e)));
                        }
                    }
                },
            }
            i = i + 1;
        }
        proof {
            assert(iv.take(i as int) =~= iv);
        }
        let grouped = group_walk_requests(&reqs);
        let ghost gv = tables_view(grouped@);
        let mut tables: Vec<WalkTable> = Vec::new();
        let mut grouped = grouped;
        let mut taken: Vec<(WalkKey, WalkTable)> = Vec::new();
        while grouped.len() > 0
            invariant
                taken@.len() + grouped@.len() == gv.len(),
                tables_view(grouped@) == gv.take(grouped@.len() as int),
                all_fresh(grouped@.map_values(|t: (WalkKey, WalkTable)| t.1)),
                forall|q: int| 0 <= q < taken@.len() ==> tables_view(taken@)[q] == gv[gv.len() - 1 - q],
                all_fresh(taken@.map_values(|t: (WalkKey, WalkTable)| t.1)),
            decreases grouped.len(),
        {
            let ghost g0 = grouped@;
            let ghost tk0 = taken@;
            let last = grouped.pop().unwrap();
            proof {
                assert(grouped@ =~= g0.drop_last());
                assert(tables_view(grouped@) =~= gv.take(grouped@.len() as int));
                assert(tables_view(g0)[g0.len() - 1] == gv[g0.len() - 1]);
                let ts0 = g0.map_values(|t: (WalkKey, WalkTable)| t.1);
                let ts1 = grouped@.map_values(|t: (WalkKey, WalkTable)| t.1);
                assert forall|a: int, b: int| 0 <= a < ts1.len() && 0 <= b < ts1[a].vars@.len() implies fresh_walk(#[trigger] ts1[a].vars@[b]) by {
                    assert(ts1[a] == ts0[a]);
                }
                assert forall|b: int| 0 <= b < last.1.vars@.len() implies fresh_walk(#[trigger] last.1.vars@[b]) by {
                    assert(ts0[g0.len() - 1] == last.1);
                    assert(fresh_walk(ts0[g0.len() - 1].vars@[b]));
                }
            }
            taken.push(last);
            proof {
                let tk = taken@.map_values(|t: (WalkKey, WalkTable)| t.1);
                let tkp = tk0.map_values(|t: (WalkKey, WalkTable)| t.1);
                assert forall|a: int, b: int| 0 <= a < tk.len() && 0 <= b < tk[a].vars@.len() implies fresh_walk(#[trigger] tk[a].vars@[b]) by {
                    if a < tk0.len() {
                        assert(tk[a] == tkp[a]);
                    }
                }
                assert forall|q: int| 0 <= q < taken@.len() implies tables_view(taken@)[q] == gv[gv.len() - 1 - q] by {
                    if q < tk0.len() {
                        assert(tables_view(taken@)[q] == tables_view(tk0)[q]);
                    }
                }
            }
        }
        while taken.len() > 0
            invariant
                tables@.len() + taken@.len() == gv.len(),
                forall|q: int| 0 <= q < taken@.len() ==> tables_view(taken@)[q] == gv[gv.len() - 1 - q],
                all_fresh(taken@.map_values(|t: (WalkKey, WalkTable)| t.1)),
                tables@.map_values(|t: WalkTable| (t.vars@.map_values(|x: WalkVar| x.oid@), t.expected))
                    == gv.take(tables@.len() as int).map_values(|t: (WalkKeyV, Seq<Seq<u64>>, Option<usize>)| (t.1, t.2)),
                all_fresh(tables@),
            decreases taken.len(),
        {
            let ghost tk0 = taken@;
            let ghost tb0 = tables@;
            let (_, t) = taken.pop().unwrap();
            proof {
                assert(tables_view(tk0)[tk0.len() - 1] == gv[gv.len() - 1 - (tk0.len() - 1)]);
                let tkp = tk0.map_values(|t: (WalkKey, WalkTable)| t.1);
                assert(tkp[tk0.len() - 1] == t);
                assert forall|b: int| 0 <= b < t.vars@.len() implies fresh_walk(#[trigger] t.vars@[b]) by {
                    assert(fresh_walk(tkp[tk0.len() - 1].vars@[b]));
                }
                let tk = taken@.map_values(|t: (WalkKey, WalkTable)| t.1);
                assert forall|a: int, b: int| 0 <= a < tk.len() && 0 <= b < tk[a].vars@.len() implies fresh_walk(#[trigger] tk[a].vars@[b]) by {
                    assert(tk[a] == tkp[a]);
                }
                assert forall|q: int| 0 <= q < taken@.len() implies tables_view(taken@)[q] == gv[gv.len() - 1 - q] by {
                    assert(tables_view(taken@)[q] == tables_view(tk0)[q]);
                }
            }
            let ghost tv = (t.vars@.map_values(|x: WalkVar| x.oid@), t.expected);
            proof {
                assert(tk0[tk0.len() - 1].1 == t);
                assert(tables_view(tk0)[tk0.len() - 1] == (key_view(tk0[tk0.len() - 1].0), t.vars@.map_values(|x: WalkVar| x.oid@), t.expected));
                assert(gv[tb0.len() as int] == tables_view(tk0)[tk0.len() - 1]);
            }
            tables.push(t);
            proof {
                assert(tables@.map_values(|t: WalkTable| (t.vars@.map_values(|x: WalkVar| x.oid@), t.expected))
                    =~= tb0.map_values(|t: WalkTable| (t.vars@.map_values(|x: WalkVar| x.oid@), t.expected)).push(tv));
                assert(gv.take(tables@.len() as int).map_values(|t: (WalkKeyV, Seq<Seq<u64>>, Option<usize>)| (t.1, t.2))
                    =~= gv.take(tb0.len() as int).map_values(|t: (WalkKeyV, Seq<Seq<u64>>, Option<usize>)| (t.1, t.2)).push((gv[tb0.len() as int].1, gv[tb0.len() as int].2)));
                assert(tables@.map_values(|t: WalkTable| (t.vars@.map_values(|x: WalkVar| x.oid@), t.expected))
                    =~= gv.take(tables@.len() as int).map_values(|t: (WalkKeyV, Seq<Seq<u64>>, Option<usize>)| (t.1, t.2)));
                assert forall|a: int, b: int| 0 <= a < tables@.len() && 0 <= b < tables@[a].vars@.len() implies fresh_walk(#[trigger] tables@[a].vars@[b]) by {
                    if a < tb0.len() {
                        assert(tables@[a] == tb0[a]);
                    }
                }
            }
        }
        proof {
            assert(gv.take(tables@.len() as int) =~= gv);
        }
        let ghost ov = entry_contexts(out@);
        let ghost o0 = out@;
        out.push((c.clone(), Walks::from(tables), gets));
        proof {
            assert(entry_contexts(out@) =~= ov.push(contexts@[n as int]@));
            assert(strings_view(contexts@).take(n + 1) =~= strings_view(contexts@).take(n as int).push(contexts@[n as int]@));
            assert forall|q: int| 0 <= q < out@.len() implies {
                let (c, w, g) = #[trigger] out@[q];
                &&& g@ == gets_in(iv, c@).map_values(|o: Seq<u64>| (o, false))
                &&& w.0@.map_values(|t: WalkTable| (t.vars@.map_values(|x: WalkVar| x.oid@), t.expected))
                    == group_walks(walks_in(iv, c@)).map_values(|t: (WalkKeyV, Seq<Seq<u64>>, Option<usize>)| (t.1, t.2))
                &&& all_fresh(w.0@)
            } by {
                if q < o0.len() {
                    assert(out@[q] == o0[q]);
                }
            }
        }
        n = n + 1;
    }
    proof {
        assert(strings_view(contexts@).take(n as int) =~= strings_view(contexts@));
    }
    Ok(out)
}

} // verus!
