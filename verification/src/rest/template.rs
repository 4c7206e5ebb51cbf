//! Login/request templates: text with `{{variable}}` placeholders.

use vstd::prelude::*;
use crate::common::text::{chars_of, string_from_chars};
use vstd::string::StringExecFns;

verus! {

/// One element of a template: literal text or a variable reference.
pub enum Elem {
    Fixed(String),
    Var(String),
}

/// A parsed template.
pub struct Template(pub Vec<Elem>);

/// Errors when parsing or filling in a template.
pub enum TemplateError {
    ParseError,
    MissingVariable(String),
    NotAString(String, String),
}

/// Mathematical view of a template element.
pub enum ElemV {
    Fixed(Seq<char>),
    Var(Seq<char>),
}

pub open spec fn elem_view(e: Elem) -> ElemV {
    match e {
        Elem::Fixed(s) => ElemV::Fixed(s@),
        Elem::Var(s) => ElemV::Var(s@),
    }
}

impl View for Template {
    type V = Seq<ElemV>;

    open spec fn view(&self) -> Seq<ElemV> {
        self.0@.map_values(|e: Elem| elem_view(e))
    }
}

/// Characters allowed in a variable name: ASCII letters, digits and `_`.
pub open spec fn is_name_char(c: char) -> bool {
    ('0' <= c && c <= '9') || ('a' <= c && c <= 'z') || ('A' <= c && c <= 'Z') || c == '_'
}

/// Length of the maximal run of name characters starting at `i`.
pub open spec fn name_run(s: Seq<char>, i: int) -> nat
    decreases s.len() - i,
{
    if 0 <= i < s.len() && is_name_char(s[i]) {
        1 + name_run(s, i + 1)
    } else {
        0
    }
}

/// Length of the maximal run of characters other than `{` starting at `i`.
pub open spec fn fixed_run(s: Seq<char>, i: int) -> nat
    decreases s.len() - i,
{
    if 0 <= i < s.len() && s[i] != '{' {
        1 + fixed_run(s, i + 1)
    } else {
        0
    }
}

/// The element that starts at position `i`, with the number of characters it
/// spans: `{{name}}` is a variable, a maximal run without `{` is fixed text;
/// anything else starting with `{` is not an element.
pub open spec fn elem_at(s: Seq<char>, i: int) -> Option<(ElemV, nat)> {
    if i < 0 || i >= s.len() {
        None
    } else if s[i] == '{' {
        let k = name_run(s, i + 2);
        if i + 1 < s.len() && s[i + 1] == '{' && k > 0 && i + 2 + k + 1 < s.len()
            && s[i + 2 + k] == '}' && s[i + 2 + k + 1] == '}' {
            Some((ElemV::Var(s.subrange(i + 2, i + 2 + k)), (k + 4) as nat))
        } else {
            None
        }
    } else {
        Some((ElemV::Fixed(s.subrange(i, i + fixed_run(s, i))), fixed_run(s, i)))
    }
}

/// The template that the text from position `i` on reads as, if it reads as
/// one completely.
pub open spec fn parse_from(s: Seq<char>, i: int) -> Option<Seq<ElemV>>
    decreases s.len() - i,
{
    if i < 0 || i >= s.len() {
        Some(Seq::empty())
    } else {
        match elem_at(s, i) {
            Some((e, n)) => if n > 0 && i + n <= s.len() {
                match parse_from(s, i + n) {
                    Some(t) => Some(seq![e] + t),
                    None => None,
                }
            } else {
                None
            },
            None => None,
        }
    }
}

/// The template that a whole text reads as.
pub open spec fn spec_parse(s: Seq<char>) -> Option<Seq<ElemV>> {
    parse_from(s, 0)
}

/// First value bound to `key` in an association list.
pub open spec fn assoc_lookup(vars: Seq<(Seq<char>, Seq<char>)>, key: Seq<char>) -> Option<Seq<char>>
    decreases vars.len(),
{
    if vars.len() == 0 {
        None
    } else if vars[0].0 == key {
        Some(vars[0].1)
    } else {
        assoc_lookup(vars.drop_first(), key)
    }
}

/// View of an association list of strings.
pub open spec fn pairs_view(v: Seq<(String, String)>) -> Seq<(Seq<char>, Seq<char>)> {
    v.map_values(|p: (String, String)| (p.0@, p.1@))
}

/// Result of filling in a template: the text, or the first variable (in
/// template order) that has no value.
pub open spec fn spec_fill(t: Seq<ElemV>, vars: Seq<(Seq<char>, Seq<char>)>) -> Result<Seq<char>, Seq<char>>
    decreases t.len(),
{
    if t.len() == 0 {
        Ok(Seq::empty())
    } else {
        let head: Result<Seq<char>, Seq<char>> = match t[0] {
            ElemV::Fixed(s) => Ok(s),
            ElemV::Var(v) => match assoc_lookup(vars, v) {
                Some(val) => Ok(val),
                None => Err(v),
            },
        };
        match head {
            Err(v) => Err(v),
            Ok(h) => match spec_fill(t.drop_first(), vars) {
                Ok(rest) => Ok(h + rest),
                Err(v) => Err(v),
            },
        }
    }
}

proof fn lemma_name_run_bound(s: Seq<char>, i: int)
    requires
        0 <= i,
    ensures
        i + name_run(s, i) <= s.len() || name_run(s, i) == 0,
        forall|j: int| i <= j < i + name_run(s, i) ==> is_name_char(s[j]),
    decreases s.len() - i,
{
    if 0 <= i < s.len() && is_name_char(s[i]) {
        lemma_name_run_bound(s, i + 1);
    }
}

proof fn lemma_fixed_run_bound(s: Seq<char>, i: int)
    requires
        0 <= i,
    ensures
        i + fixed_run(s, i) <= s.len() || fixed_run(s, i) == 0,
        (0 <= i < s.len() && s[i] != '{') ==> fixed_run(s, i) > 0,
    decreases s.len() - i,
{
    if 0 <= i < s.len() && s[i] != '{' {
        lemma_fixed_run_bound(s, i + 1);
    }
}

/// Length of the run of name characters in `s` from `i` on.
fn scan_name(s: &Vec<char>, i: usize) -> (k: usize)
    requires
        i <= s.len(),
    ensures
        k == name_run(s@, i as int),
        i + k <= s.len(),
{
    let mut j = i;
    while j < s.len() && (('0' <= s[j] && s[j] <= '9') || ('a' <= s[j] && s[j] <= 'z')
        || ('A' <= s[j] && s[j] <= 'Z') || s[j] == '_')
        invariant
            i <= j <= s.len(),
            name_run(s@, i as int) == (j - i) + name_run(s@, j as int),
        decreases s.len() - j,
    {
        j = j + 1;
    }
    j - i
}

/// Length of the run of characters other than `{` in `s` from `i` on.
fn scan_fixed(s: &Vec<char>, i: usize) -> (k: usize)
    requires
        i <= s.len(),
    ensures
        k == fixed_run(s@, i as int),
        i + k <= s.len(),
{
    let mut j = i;
    while j < s.len() && s[j] != '{'
        invariant
            i <= j <= s.len(),
            fixed_run(s@, i as int) == (j - i) + fixed_run(s@, j as int),
        decreases s.len() - j,
    {
        j = j + 1;
    }
    j - i
}

/// Copy of `s[from..to]`.
pub fn sub_chars(s: &Vec<char>, from: usize, to: usize) -> (r: Vec<char>)
    requires
        from <= to <= s.len(),
    ensures
        r@ == s@.subrange(from as int, to as int),
{
    let mut r: Vec<char> = Vec::new();
    let mut j = from;
    while j < to
        invariant
            from <= j <= to <= s.len(),
            r@ == s@.subrange(from as int, j as int),
        decreases to - j,
    {
        r.push(s[j]);
        j = j + 1;
    }
    r
}

/// The element at position `i`, as `elem_at` describes it.
fn elem_at_exec(s: &Vec<char>, i: usize) -> (r: Option<(Elem, usize)>)
    requires
        i < s.len(),
    ensures
        match elem_at(s@, i as int) {
            Some((e, n)) => r is Some && elem_view(r->Some_0.0) == e && r->Some_0.1 == n,
            None => r is None,
        },
{
    if s[i] == '{' {
        if i + 1 < s.len() && s[i + 1] == '{' {
            let k = scan_name(s, i + 2);
            let e = i + 2 + k;
            if k > 0 && e < s.len() && e + 1 < s.len() && s[e] == '}' && s[e + 1] == '}' {
                let name = sub_chars(s, i + 2, e);
                return Some((Elem::Var(string_from_chars(name.as_slice())), k + 4));
            }
        }
        None
    } else {
        let k = scan_fixed(s, i);
        proof {
            lemma_fixed_run_bound(s@, i as int);
        }
        let text = sub_chars(s, i, i + k);
        Some((Elem::Fixed(string_from_chars(text.as_slice())), k))
    }
}

/// The value bound to `key` in an association list (its first binding).
pub fn assoc_get<'a>(vars: &'a Vec<(String, String)>, key: &String) -> (r: Option<&'a String>)
    ensures
        match assoc_lookup(pairs_view(vars@), key@) {
            Some(v) => r is Some && r->Some_0@ == v,
            None => r is None,
        },
{
    let mut i: usize = 0;
    assert(pairs_view(vars@).subrange(0, vars@.len() as int) =~= pairs_view(vars@));
    while i < vars.len()
        invariant
            i <= vars.len(),
            assoc_lookup(pairs_view(vars@), key@) == assoc_lookup(
                pairs_view(vars@).subrange(i as int, vars@.len() as int),
                key@,
            ),
        decreases vars.len() - i,
    {
        let ghost rest = pairs_view(vars@).subrange(i as int, vars@.len() as int);
        assert(rest.drop_first() =~= pairs_view(vars@).subrange(i + 1, vars@.len() as int));
        if vars[i].0 == *key {
            return Some(&vars[i].1);
        }
        i = i + 1;
    }
    None
}

impl Template {
    /// Fills in the template: fixed text is copied and each variable is
    /// replaced by its value in `vars` (its first binding there). Fails on the
    /// first variable, in template order, that has no value.
    pub fn fill_in(&self, vars: &Vec<(String, String)>) -> (res: Result<String, TemplateError>)
        ensures
            match spec_fill(self@, pairs_view(vars@)) {
                Ok(text) => res is Ok && res->Ok_0@ == text,
                Err(v) => res is Err && res->Err_0 is MissingVariable && res->Err_0->MissingVariable_0@ == v,
            },
    {
        let mut out = String::new();
        let mut i: usize = 0;
        assert(self@.subrange(0, self@.len() as int) =~= self@);
        proof {
            match spec_fill(self@, pairs_view(vars@)) {
                Ok(r) => { assert(out@ + r =~= r); },
                Err(_) => {},
            }
        }
        while i < self.0.len()
            invariant
                i <= self.0.len(),
                spec_fill(self@, pairs_view(vars@)) == match spec_fill(
                    self@.subrange(i as int, self@.len() as int),
                    pairs_view(vars@),
                ) {
                    Ok(rest) => Ok(out@ + rest),
                    Err(v) => Err::<Seq<char>, Seq<char>>(v),
                },
            decreases self.0.len() - i,
        {
            let ghost rest = self@.subrange(i as int, self@.len() as int);
            assert(rest.drop_first() =~= self@.subrange(i + 1, self@.len() as int));
            assert(rest[0] == elem_view(self.0[i as int]));
            let ghost old_out = out@;
            let ghost tail = self@.subrange(i + 1, self@.len() as int);
            match &self.0[i] {
                Elem::Fixed(t) => {
                    out.append(t.as_str());
                    proof {
                        match spec_fill(tail, pairs_view(vars@)) {
                            Ok(r) => { assert(old_out + (t@ + r) =~= out@ + r); },
                            Err(_) => {},
                        }
                    }
                },
                Elem::Var(v) => {
                    match assoc_get(vars, v) {
                        Some(val) => {
                            out.append(val.as_str());
                            proof {
                                match spec_fill(tail, pairs_view(vars@)) {
                                    Ok(r) => { assert(old_out + (val@ + r) =~= out@ + r); },
                                    Err(_) => {},
                                }
                            }
                        },
                        None => {
                            return Err(TemplateError::MissingVariable(v.clone()));
                        },
                    }
                },
            }
            i = i + 1;
        }
        proof {
            assert(self@.subrange(i as int, self@.len() as int) =~= Seq::<ElemV>::empty());
            assert(out@ + Seq::<char>::empty() =~= out@);
        }
        Ok(out)
    }

    /// Parses a template: a sequence of `{{name}}` placeholders (names of
    /// ASCII letters, digits and `_`) and runs of text without `{`. Text that
    /// does not read completely as such a sequence is refused.
    pub fn parse(text: &str) -> (res: Result<Template, TemplateError>)
        ensures
            match spec_parse(text@) {
                Some(t) => res is Ok && res->Ok_0@ == t,
                None => res is Err && res->Err_0 is ParseError,
            },
    {
        let s = chars_of(text);
        let mut elems: Vec<Elem> = Vec::new();
        let mut i: usize = 0;
        while i < s.len()
            invariant
                s@ == text@,
                i <= s.len(),
                spec_parse(s@) == match parse_from(s@, i as int) {
                    Some(t) => Some(elems@.map_values(|e: Elem| elem_view(e)) + t),
                    None => None::<Seq<ElemV>>,
                },
            decreases s.len() - i,
        {
            match elem_at_exec(&s, i) {
                None => {
                    return Err(TemplateError::ParseError);
                },
                Some((e, n)) => {
                    if n == 0 || n > s.len() - i {
                        return Err(TemplateError::ParseError);
                    }
                    let ghost ev = elem_view(e);
                    let ghost old_elems = elems@;
                    elems.push(e);
                    proof {
                        assert(elems@.map_values(|e: Elem| elem_view(e)) =~= old_elems.map_values(
                            |e: Elem| elem_view(e),
                        ).push(ev));
                        match parse_from(s@, (i + n) as int) {
                            Some(t) => {
                                assert(old_elems.map_values(|e: Elem| elem_view(e)) + (seq![ev] + t)
                                    =~= elems@.map_values(|e: Elem| elem_view(e)) + t);
                            },
                            None => {},
                        }
                    }
                    i = i + n;
                },
            }
        }
        proof {
            assert(parse_from(s@, i as int) == Some(Seq::<ElemV>::empty()));
            assert(elems@.map_values(|e: Elem| elem_view(e)) + Seq::<ElemV>::empty()
                =~= elems@.map_values(|e: Elem| elem_view(e)));
        }
        Ok(Template(elems))
    }
}

/// The text of a template element: fixed text as it is, a variable as
/// `{{name}}`.
pub open spec fn elem_text(e: ElemV) -> Seq<char> {
    match e {
        ElemV::Fixed(t) => t,
        ElemV::Var(v) => seq!['{', '{'] + v + seq!['}', '}'],
    }
}

/// The text of a template: the texts of its elements in order.
pub open spec fn template_text(t: Seq<ElemV>) -> Seq<char>
    decreases t.len(),
{
    if t.len() == 0 {
        Seq::empty()
    } else {
        elem_text(t[0]) + template_text(t.drop_first())
    }
}

proof fn lemma_parse_from_text(s: Seq<char>, i: int)
    requires
        0 <= i <= s.len(),
    ensures
        parse_from(s, i) matches Some(t) ==> template_text(t) == s.subrange(i, s.len() as int),
    decreases s.len() - i,
{
    if i < s.len() {
        if let Some((e, n)) = elem_at(s, i) {
            if n > 0 && i + n <= s.len() {
                lemma_parse_from_text(s, i + n);
                if let Some(t) = parse_from(s, i + n) {
                    let whole = seq![e] + t;
                    assert(whole.drop_first() =~= t);
                    assert(whole[0] == e);
                    if s[i] == '{' {
                        let k = name_run(s, i + 2);
                        assert(elem_text(e) =~= s.subrange(i, i + n));
                    } else {
                        assert(elem_text(e) =~= s.subrange(i, i + n));
                    }
                    assert(s.subrange(i, s.len() as int) =~= s.subrange(i, i + n) + s.subrange(i + n, s.len() as int));
                }
            }
        }
    } else {
        assert(s.subrange(i, s.len() as int) =~= Seq::<char>::empty());
    }
}

/// Parsing loses nothing: the text of the template that a text parses to
/// is that text.
pub proof fn law_parse_keeps_text(s: Seq<char>)
    ensures
        spec_parse(s) matches Some(t) ==> template_text(t) == s,
{
    lemma_parse_from_text(s, 0);
    assert(s.subrange(0, s.len() as int) =~= s);
}

/// Each variable of the template is bound, first, to its own placeholder
/// text `{{name}}`.
pub open spec fn binds_placeholders(t: Seq<ElemV>, vars: Seq<(Seq<char>, Seq<char>)>) -> bool {
    forall|i: int| 0 <= i < t.len() ==> match #[trigger] t[i] {
        ElemV::Var(v) => assoc_lookup(vars, v) == Some(elem_text(ElemV::Var(v))),
        ElemV::Fixed(_) => true,
    }
}

proof fn lemma_fill_placeholders(t: Seq<ElemV>, vars: Seq<(Seq<char>, Seq<char>)>)
    requires
        binds_placeholders(t, vars),
    ensures
        spec_fill(t, vars) == Ok::<Seq<char>, Seq<char>>(template_text(t)),
    decreases t.len(),
{
    if t.len() > 0 {
        let rest = t.drop_first();
        assert forall|i: int| 0 <= i < rest.len() implies match #[trigger] rest[i] {
            ElemV::Var(v) => assoc_lookup(vars, v) == Some(elem_text(ElemV::Var(v))),
            ElemV::Fixed(_) => true,
        } by {
            assert(rest[i] == t[i + 1]);
        }
        lemma_fill_placeholders(rest, vars);
        assert(match t[0] {
            ElemV::Var(v) => assoc_lookup(vars, v) == Some(elem_text(ElemV::Var(v))),
            ElemV::Fixed(_) => true,
        });
    }
}

/// Filling in a parsed template with each variable bound to its own
/// placeholder gives back the text it was parsed from.
pub proof fn law_fill_placeholders_restores_text(s: Seq<char>, vars: Seq<(Seq<char>, Seq<char>)>)
    requires
        spec_parse(s) matches Some(t) && binds_placeholders(t, vars),
    ensures
        spec_fill(spec_parse(s)->Some_0, vars) == Ok::<Seq<char>, Seq<char>>(s),
{
    let t = spec_parse(s)->Some_0;
    lemma_fill_placeholders(t, vars);
    law_parse_keeps_text(s);
}

/// An element as parsing makes it: fixed text is not empty and holds no
/// `{`; a variable's name is not empty.
pub open spec fn elem_shaped(e: ElemV) -> bool {
    match e {
        ElemV::Fixed(t) => t.len() > 0 && forall|j: int| 0 <= j < t.len() ==> t[j] != '{',
        ElemV::Var(v) => v.len() > 0,
    }
}

/// A template as parsing makes it: every element is shaped and no two
/// pieces of fixed text follow each other.
pub open spec fn template_shaped(t: Seq<ElemV>) -> bool {
    &&& forall|i: int| 0 <= i < t.len() ==> elem_shaped(#[trigger] t[i])
    &&& forall|i: int| 0 <= i < t.len() - 1 ==> !((#[trigger] t[i]) is Fixed && t[i + 1] is Fixed)
}

proof fn lemma_fixed_run_stops(s: Seq<char>, i: int)
    requires
        0 <= i,
    ensures
        forall|j: int| i <= j < i + fixed_run(s, i) ==> s[j] != '{',
        i + fixed_run(s, i) < s.len() ==> s[i + fixed_run(s, i)] == '{',
    decreases s.len() - i,
{
    if 0 <= i < s.len() && s[i] != '{' {
        lemma_fixed_run_stops(s, i + 1);
    }
}

proof fn lemma_parse_from_shaped(s: Seq<char>, i: int)
    requires
        0 <= i <= s.len(),
    ensures
        parse_from(s, i) matches Some(t) ==> template_shaped(t)
            && (t.len() > 0 && s[i] == '{' ==> t[0] is Var),
    decreases s.len() - i,
{
    if i < s.len() {
        if let Some((e, n)) = elem_at(s, i) {
            if n > 0 && i + n <= s.len() {
                lemma_parse_from_shaped(s, i + n);
                if let Some(r) = parse_from(s, i + n) {
                    let t = seq![e] + r;
                    lemma_fixed_run_stops(s, i);
                    lemma_name_run_bound(s, i + 2);
                    assert(elem_shaped(e)) by {
                        if s[i] != '{' {
                            let f = s.subrange(i, i + fixed_run(s, i));
                            assert forall|j: int| 0 <= j < f.len() implies f[j] != '{' by {
                                assert(f[j] == s[i + j]);
                            }
                        }
                    }
                    assert forall|j: int| 0 <= j < t.len() implies elem_shaped(#[trigger] t[j]) by {
                        if j > 0 {
                            assert(t[j] == r[j - 1]);
                        }
                    }
                    assert forall|j: int| 0 <= j < t.len() - 1 implies !((#[trigger] t[j]) is Fixed && t[j + 1] is Fixed) by {
                        if j > 0 {
                            assert(t[j] == r[j - 1]);
                            assert(t[j + 1] == r[j]);
                        } else {
                            assert(t[1] == r[0]);
                            if e is Fixed {
                                assert(s[i] != '{');
                                assert(s[i + n] == '{');
                            }
                        }
                    }
                }
            }
        }
    }
}

/// What parsing makes: no element is empty, fixed text holds no `{`, and
/// no two pieces of fixed text follow each other.
pub proof fn law_parsed_template_shape(s: Seq<char>)
    ensures
        spec_parse(s) matches Some(t) ==> template_shaped(t),
{
    lemma_parse_from_shaped(s, 0);
}

} // verus!
