//! Finding a piece of text in a text, and cutting a text at a character.

use vstd::prelude::*;

use crate::common::text::string_from_chars;
use crate::common::data::strings_view;
use crate::sql::input::join_list;

verus! {

/// `pat` occurs in `s` at position `i`.
pub open spec fn occurs_at(s: Seq<char>, pat: Seq<char>, i: int) -> bool {
    0 <= i && i + pat.len() <= s.len() && s.subrange(i, i + pat.len()) == pat
}

/// `i` is the first position at which `pat` occurs in `s`.
pub open spec fn first_occurrence(s: Seq<char>, pat: Seq<char>, i: int) -> bool {
    occurs_at(s, pat, i) && forall|k: int| 0 <= k < i ==> !#[trigger] occurs_at(s, pat, k)
}

/// `i` is the last position at which `pat` occurs in `s`.
pub open spec fn last_occurrence(s: Seq<char>, pat: Seq<char>, i: int) -> bool {
    occurs_at(s, pat, i) && forall|k: int| i < k <= s.len() ==> !#[trigger] occurs_at(s, pat, k)
}

/// `pat` occurs somewhere in `s`.
pub open spec fn contains_text(s: Seq<char>, pat: Seq<char>) -> bool {
    exists|i: int| #[trigger] occurs_at(s, pat, i)
}

/// The position of the first occurrence of `pat` in `s`, if any.
pub open spec fn find_text(s: Seq<char>, pat: Seq<char>) -> Option<int> {
    if exists|i: int| #[trigger] first_occurrence(s, pat, i) {
        Some(choose|i: int| #[trigger] first_occurrence(s, pat, i))
    } else {
        None
    }
}

/// The position just after the last occurrence of `pat` in `s`, if any.
pub open spec fn after_last(s: Seq<char>, pat: Seq<char>) -> Option<int> {
    if exists|i: int| #[trigger] last_occurrence(s, pat, i) {
        Some((choose|i: int| #[trigger] last_occurrence(s, pat, i)) + pat.len())
    } else {
        None
    }
}

/// The pieces of `s` between the occurrences of `c` (one more piece than
/// there are occurrences).
pub open spec fn split_char(s: Seq<char>, c: char) -> Seq<Seq<char>>
    decreases s.len(),
{
    if s.len() == 0 {
        seq![Seq::<char>::empty()]
    } else {
        let p = split_char(s.drop_last(), c);
        if s.last() == c {
            p.push(Seq::empty())
        } else {
            p.update(p.len() - 1, p.last().push(s.last()))
        }
    }
}

/// Splitting a text always gives at least one piece.
pub proof fn lemma_split_char_nonempty(s: Seq<char>, c: char)
    ensures
        split_char(s, c).len() >= 1,
    decreases s.len(),
{
    if s.len() > 0 {
        lemma_split_char_nonempty(s.drop_last(), c);
    }
}

/// A sequence with one more item holds what it held and the new item.
pub proof fn lemma_push_contains<T>(s: Seq<T>, x: T)
    ensures
        forall|m: T| #[trigger] s.push(x).contains(m) <==> (s.contains(m) || m == x),
{
    assert forall|m: T| #[trigger] s.push(x).contains(m) <==> (s.contains(m) || m == x) by {
        if s.contains(m) {
            let k = choose|k: int| 0 <= k < s.len() && s[k] == m;
            assert(s.push(x)[k] == m);
        }
        if m == x {
            assert(s.push(x)[s.len() as int] == x);
        }
        if s.push(x).contains(m) {
            let k = choose|k: int| 0 <= k < s.len() + 1 && s.push(x)[k] == m;
            if k < s.len() {
                assert(s[k] == m);
            }
        }
    }
}

/// Whether `pat` occurs in `s` at `i`.
fn matches_at(s: &[char], pat: &[char], i: usize) -> (r: bool)
    requires
        i + pat@.len() <= s@.len(),
    ensures
        r == occurs_at(s@, pat@, i as int),
{
    let n = s.len();
    let mut k: usize = 0;
    while k < pat.len()
        invariant
            n == s@.len(),
            i + pat@.len() <= s@.len(),
            k <= pat@.len(),
            forall|q: int| 0 <= q < k ==> s@[i + q] == pat@[q],
        decreases pat.len() - k,
    {
        if s[i + k] != pat[k] {
            proof {
                assert(s@.subrange(i as int, i + pat@.len())[k as int] != pat@[k as int]);
            }
            return false;
        }
        k = k + 1;
    }
    proof {
        assert(s@.subrange(i as int, i + pat@.len()) =~= pat@);
    }
    true
}

proof fn lemma_first_unique(s: Seq<char>, pat: Seq<char>, i: int, j: int)
    requires
        first_occurrence(s, pat, i),
        first_occurrence(s, pat, j),
    ensures
        i == j,
{
    if i < j {
        assert(!occurs_at(s, pat, i));
    } else if j < i {
        assert(!occurs_at(s, pat, j));
    }
}

proof fn lemma_last_unique(s: Seq<char>, pat: Seq<char>, i: int, j: int)
    requires
        last_occurrence(s, pat, i),
        last_occurrence(s, pat, j),
    ensures
        i == j,
{
    if i < j {
        assert(!occurs_at(s, pat, j));
    } else if j < i {
        assert(!occurs_at(s, pat, i));
    }
}

/// The position of the first occurrence of `pat` in `s`.
pub fn find_first(s: &[char], pat: &[char]) -> (r: Option<usize>)
    ensures
        match r {
            Some(i) => find_text(s@, pat@) == Some(i as int) && first_occurrence(s@, pat@, i as int),
            None => find_text(s@, pat@) is None && !contains_text(s@, pat@),
        },
{
    if pat.len() > s.len() {
        proof {
            assert forall|i: int| !#[trigger] occurs_at(s@, pat@, i) by {}
            assert forall|i: int| !#[trigger] first_occurrence(s@, pat@, i) by {}
        }
        return None;
    }
    if pat.len() == 0 {
        proof {
            assert(s@.subrange(0, 0) =~= pat@);
            assert(first_occurrence(s@, pat@, 0));
            let j = choose|j: int| #[trigger] first_occurrence(s@, pat@, j);
            lemma_first_unique(s@, pat@, 0, j);
        }
        return Some(0);
    }
    let n = s.len();
    let last = n - pat.len();
    let mut i: usize = 0;
    while i <= last
        invariant
            n == s@.len(),
            pat@.len() >= 1,
            last == s@.len() - pat@.len(),
            i <= last + 1,
            forall|k: int| 0 <= k < i ==> !#[trigger] occurs_at(s@, pat@, k),
        decreases last + 1 - i,
    {
        if matches_at(s, pat, i) {
            proof {
                assert(first_occurrence(s@, pat@, i as int));
                let j = choose|j: int| #[trigger] first_occurrence(s@, pat@, j);
                lemma_first_unique(s@, pat@, i as int, j);
            }
            return Some(i);
        }
        i = i + 1;
    }
    proof {
        assert forall|k: int| !#[trigger] occurs_at(s@, pat@, k) by {
            if 0 <= k < i {
            }
        }
        assert forall|k: int| !#[trigger] first_occurrence(s@, pat@, k) by {}
    }
    None
}

/// The position just after the last occurrence of `pat` in `s`.
pub fn find_after_last(s: &[char], pat: &[char]) -> (r: Option<usize>)
    ensures
        match r {
            Some(i) => after_last(s@, pat@) == Some(i as int) && i <= s@.len()
                && last_occurrence(s@, pat@, i - pat@.len()),
            None => after_last(s@, pat@) is None && !contains_text(s@, pat@),
        },
{
    if pat.len() > s.len() {
        proof {
            assert forall|i: int| !#[trigger] occurs_at(s@, pat@, i) by {}
            assert forall|i: int| !#[trigger] last_occurrence(s@, pat@, i) by {}
        }
        return None;
    }
    if pat.len() == 0 {
        proof {
            assert(s@.subrange(s@.len() as int, s@.len() as int) =~= pat@);
            assert(last_occurrence(s@, pat@, s@.len() as int));
            let j = choose|j: int| #[trigger] last_occurrence(s@, pat@, j);
            lemma_last_unique(s@, pat@, s@.len() as int, j);
        }
        return Some(s.len());
    }
    let n = s.len();
    let mut i: usize = n - pat.len() + 1;
    while i > 0
        invariant
            n == s@.len(),
            i <= s@.len() - pat@.len() + 1,
            pat@.len() >= 1,
            s@.len() >= pat@.len(),
            forall|k: int| i <= k <= s@.len() ==> !#[trigger] occurs_at(s@, pat@, k),
        decreases i,
    {
        i = i - 1;
        if matches_at(s, pat, i) {
            proof {
                assert(last_occurrence(s@, pat@, i as int));
                let j = choose|j: int| #[trigger] last_occurrence(s@, pat@, j);
                lemma_last_unique(s@, pat@, i as int, j);
            }
            return Some(i + pat.len());
        }
    }
    proof {
        assert forall|k: int| !#[trigger] occurs_at(s@, pat@, k) by {}
        assert forall|k: int| !#[trigger] last_occurrence(s@, pat@, k) by {}
    }
    None
}

/// The pieces of `s` between the occurrences of `c`.
pub fn split_on(s: &[char], c: char) -> (r: Vec<String>)
    ensures
        strings_view(r@) == split_char(s@, c),
{
    let mut done: Vec<String> = Vec::new();
    let mut cur: Vec<char> = Vec::new();
    let mut i: usize = 0;
    while i < s.len()
        invariant
            i <= s@.len(),
            strings_view(done@).push(cur@) == split_char(s@.take(i as int), c),
        decreases s.len() - i,
    {
        proof {
            assert(s@.take(i + 1).drop_last() =~= s@.take(i as int));
            assert(s@.take(i + 1).last() == s@[i as int]);
        }
        let ghost d0 = strings_view(done@);
        let ghost c0 = cur@;
        if s[i] == c {
            done.push(string_from_chars(cur.as_slice()));
            cur = Vec::new();
            proof {
                assert(strings_view(done@) =~= d0.push(c0));
                assert(strings_view(done@).push(cur@) =~= d0.push(c0).push(Seq::empty()));
            }
        } else {
            cur.push(s[i]);
            proof {
                let p = d0.push(c0);
                assert(strings_view(done@) =~= d0);
                assert(strings_view(done@).push(cur@) =~= p.update(p.len() - 1, p.last().push(s@[i as int])));
            }
        }
        i = i + 1;
    }
    proof {
        assert(s@.take(i as int) =~= s@);
    }
    let ghost d1 = strings_view(done@);
    done.push(string_from_chars(cur.as_slice()));
    proof {
        assert(strings_view(done@) =~= d1.push(cur@));
    }
    done
}

/// Whether a list of strings holds `x`.
pub fn contains_string(v: &Vec<String>, x: &String) -> (r: bool)
    ensures
        r == strings_view(v@).contains(x@),
{
    let mut i: usize = 0;
    while i < v.len()
        invariant
            i <= v@.len(),
            forall|j: int| 0 <= j < i ==> (#[trigger] v@[j])@ != x@,
        decreases v.len() - i,
    {
        if v[i] == *x {
            proof {
                assert(strings_view(v@)[i as int] == x@);
            }
            return true;
        }
        i = i + 1;
    }
    proof {
        assert forall|j: int| 0 <= j < strings_view(v@).len() implies #[trigger] strings_view(v@)[j] != x@ by {
            assert(strings_view(v@)[j] == v@[j]@);
        }
    }
    false
}

proof fn lemma_join_extend_last(q: Seq<Seq<char>>, sep: Seq<char>, x: char)
    requires
        q.len() >= 1,
    ensures
        join_list(q.update(q.len() - 1, q.last().push(x)), sep) == join_list(q, sep).push(x),
{
    let u = q.update(q.len() - 1, q.last().push(x));
    if q.len() == 1 {
        assert(u[0] == q[0].push(x));
    } else {
        assert(u.drop_last() =~= q.drop_last());
        assert(u.last() == q.last().push(x));
        assert(join_list(u, sep) =~= join_list(q, sep).push(x));
    }
}

/// Cutting a text at a character and joining the pieces with that
/// character gives the text back.
pub proof fn law_split_join(s: Seq<char>, c: char)
    ensures
        join_list(split_char(s, c), seq![c]) == s,
    decreases s.len(),
{
    if s.len() == 0 {
        assert(split_char(s, c) =~= seq![Seq::<char>::empty()]);
        assert(s =~= Seq::<char>::empty());
    } else {
        law_split_join(s.drop_last(), c);
        lemma_split_char_nonempty(s.drop_last(), c);
        let p = split_char(s.drop_last(), c);
        if s.last() == c {
            let q = p.push(Seq::<char>::empty());
            assert(q.drop_last() =~= p);
            assert(join_list(q, seq![c]) =~= s.drop_last() + seq![c] + Seq::<char>::empty());
            assert(s =~= s.drop_last() + seq![c] + Seq::<char>::empty());
        } else {
            lemma_join_extend_last(p, seq![c], s.last());
            assert(s =~= s.drop_last().push(s.last()));
        }
    }
}

} // verus!
