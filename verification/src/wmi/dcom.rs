//! The output of `wmic`: a class line, a header line of property names,
//! then the values, all separated by `|||`; a value may run over several
//! lines.

use vstd::prelude::*;

use crate::common::data::strings_view;
use crate::common::search::{after_last, find_after_last, find_first, find_text, first_occurrence, split_char, split_on};
use crate::common::strmap::{StrMap, texts_view};
use crate::powershell::config::NtlmCredentials;
use crate::common::text::{chars_of, push_str, string_from_chars};
use crate::sql::input::join_list;
use crate::sql::transform::{pairs_map, table_view};
use vstd::string::StringExecFns;

verus! {

/// The pieces of `s` between the occurrences of `pat`, found left to
/// right without overlap.
pub open spec fn split_text(s: Seq<char>, pat: Seq<char>) -> Seq<Seq<char>>
    decreases s.len(),
{
    if pat.len() == 0 {
        seq![s]
    } else {
        match find_text(s, pat) {
            Some(i) => {
                if 0 <= i && i + pat.len() <= s.len() {
                    seq![s.take(i)] + split_text(s.skip(i + pat.len()), pat)
                } else {
                    seq![s]
                }
            },
            None => seq![s],
        }
    }
}

/// Cuts a text at each occurrence of `pat` (see `split_text`).
pub fn split_by(s: &[char], pat: &[char]) -> (r: Vec<String>)
    requires
        pat@.len() > 0,
    ensures
        strings_view(r@) == split_text(s@, pat@),
{
    let mut out: Vec<String> = Vec::new();
    let mut start: usize = 0;
    let n = s.len();
    proof {
        assert(s@.skip(0) =~= s@);
        assert(strings_view(out@) =~= Seq::<Seq<char>>::empty());
    }
    loop
        invariant
            n == s@.len(),
            start <= s@.len(),
            pat@.len() > 0,
            strings_view(out@) + split_text(s@.skip(start as int), pat@) == split_text(s@, pat@),
        decreases s@.len() - start,
    {
        let (_, rest) = s.split_at(start);
        proof {
            assert(rest@ =~= s@.skip(start as int));
        }
        match find_first(rest, pat) {
            Some(i) => {
                let (head, _) = rest.split_at(i);
                let ghost o0 = strings_view(out@);
                out.push(string_from_chars(head));
                proof {
                    assert(0 <= i && i + pat@.len() <= rest@.len());
                    assert(head@ =~= rest@.take(i as int));
                    assert(rest@.skip(i + pat@.len()) =~= s@.skip(start + i + pat@.len()));
                    assert(strings_view(out@) =~= o0.push(rest@.take(i as int)));
                    assert(split_text(rest@, pat@) == seq![rest@.take(i as int)] + split_text(rest@.skip(i + pat@.len()), pat@));
                    assert(o0 + split_text(rest@, pat@) =~= strings_view(out@) + split_text(s@.skip(start + i + pat@.len()), pat@));
                }
                start = start + i + pat.len();
            },
            None => {
                let ghost o0 = strings_view(out@);
                out.push(string_from_chars(rest));
                proof {
                    assert(strings_view(out@) =~= o0 + seq![rest@]);
                }
                return out;
            },
        }
    }
}

proof fn lemma_split_text_nonempty(s: Seq<char>, pat: Seq<char>)
    ensures
        split_text(s, pat).len() >= 1,
    decreases s.len(),
{
    if pat.len() > 0 {
        if let Some(i) = find_text(s, pat) {
            if 0 <= i && i + pat.len() <= s.len() {
                lemma_split_text_nonempty(s.skip(i + pat.len()), pat);
            }
        }
    }
}

/// A line without the `\r` of a `\r\n` ending.
pub open spec fn strip_cr(l: Seq<char>) -> Seq<char> {
    if l.len() > 0 && l.last() == '\r' { l.drop_last() } else { l }
}

/// The lines of a text: the pieces between the `\n`s, without a `\r`
/// just before a `\n`, and without an empty last line after a final `\n`.
pub open spec fn lines_of(s: Seq<char>) -> Seq<Seq<char>> {
    let p = split_char(s, '\n');
    let k = if s.len() == 0 { 0 } else if s.last() == '\n' { p.len() - 1 } else { p.len() as int };
    Seq::new(k as nat, |i: int| if i < p.len() - 1 { strip_cr(p[i]) } else { p[i] })
}

/// The values with the one at `idx` cut in two at the `\n` at `p`.
pub open spec fn cut_field(f: Seq<Seq<char>>, idx: int, p: int) -> Seq<Seq<char>> {
    f.take(idx) + seq![f[idx].take(p), f[idx].skip(p + 1)] + f.skip(idx + 1)
}

/// The values from `idx` on mended, `h` to a row: the last value of a
/// row that holds a `\n` but does not end with one is cut at its last
/// `\n` (the rest starts the next row), and the two values after the cut
/// are passed over. `None` where the walk steps past the end.
pub open spec fn mend_fields(f: Seq<Seq<char>>, idx: int, h: int) -> Option<Seq<Seq<char>>>
    decreases f.len() - idx,
{
    if idx < 0 || h <= 0 || idx > f.len() {
        None
    } else if idx == f.len() {
        Some(f)
    } else if (idx + 1) % h != 0 || (f[idx].len() > 0 && f[idx].last() == '\n') {
        mend_fields(f, idx + 1, h)
    } else {
        match after_last(f[idx], seq!['\n']) {
            None => mend_fields(f, idx + 1, h),
            Some(a) => if idx + 3 > f.len() + 1 {
                None
            } else {
                mend_fields(cut_field(f, idx, a - 1), idx + 3, h)
            },
        }
    }
}

/// The pairs that the headers make with the values of a row, in order.
pub open spec fn row_pairs(headers: Seq<Seq<char>>, vals: Seq<Seq<char>>) -> Seq<(Seq<char>, Seq<char>)> {
    Seq::new(headers.len(), |c: int| (headers[c], vals[c]))
}

/// The rows of `wmic` output: after the first line, the header line cut
/// at `|||` names the properties; the other lines, joined again with
/// `\n`, are cut at `|||` into values, mended (see `mend_fields`) and
/// read a row per header count (an incomplete last row is dropped), a
/// later header winning over an earlier one of the same name. Without a
/// header line there are no rows; `None` where mending steps past the end.
pub open spec fn wmic_rows(stdout: Seq<char>) -> Option<Seq<Map<Seq<char>, Seq<char>>>> {
    let ls = lines_of(stdout);
    if ls.len() < 2 {
        Some(Seq::empty())
    } else {
        let headers = split_text(ls[1], "|||"@);
        let h = headers.len() as int;
        match mend_fields(split_text(join_list(ls.skip(2), "\n"@), "|||"@), 0, h) {
            None => None,
            Some(f) => Some(Seq::new((f.len() / (h as nat)) as nat, |r: int| pairs_map(row_pairs(headers, f.subrange(r * h, r * h + h))))),
        }
    }
}

proof fn lemma_pairs_keys(v: Seq<(Seq<char>, Seq<char>)>)
    ensures
        forall|c: int| 0 <= c < v.len() ==> #[trigger] pairs_map(v).contains_key(v[c].0),
    decreases v.len(),
{
    if v.len() > 0 {
        lemma_pairs_keys(v.drop_last());
        assert forall|c: int| 0 <= c < v.len() implies #[trigger] pairs_map(v).contains_key(v[c].0) by {
            if c < v.len() - 1 {
                assert(v.drop_last()[c] == v[c]);
                assert(pairs_map(v.drop_last()).contains_key(v.drop_last()[c].0));
            }
            assert(pairs_map(v) == pairs_map(v.drop_last()).insert(v.last().0, v.last().1));
        }
    }
}

/// Every row of `wmic` output has a value for every property of the
/// header line.
pub proof fn law_rows_have_every_header(stdout: Seq<char>)
    ensures
        lines_of(stdout).len() >= 2 ==> match wmic_rows(stdout) {
            Some(rows) => forall|i: int, c: int| 0 <= i < rows.len() && 0 <= c < split_text(lines_of(stdout)[1], "|||"@).len()
                ==> #[trigger] rows[i].contains_key(#[trigger] split_text(lines_of(stdout)[1], "|||"@)[c]),
            None => true,
        },
{
    let ls = lines_of(stdout);
    if ls.len() >= 2 {
        let headers = split_text(ls[1], "|||"@);
        let h = headers.len() as int;
        if let Some(rows) = wmic_rows(stdout) {
            let f = mend_fields(split_text(join_list(ls.skip(2), "\n"@), "|||"@), 0, h).unwrap();
            assert forall|i: int, c: int| 0 <= i < rows.len() && 0 <= c < headers.len()
                implies #[trigger] rows[i].contains_key(#[trigger] headers[c]) by {
                let z = row_pairs(headers, f.subrange(i * h, i * h + h));
                assert(rows[i] == pairs_map(z));
                lemma_pairs_keys(z);
                assert(z[c].0 == headers[c]);
            }
        }
    }
}

/// The line at `k` of the pieces of a text cut at `\n` (see `lines_of`).
fn line_text(pieces: &Vec<String>, k: usize) -> (r: String)
    requires
        k < pieces@.len(),
    ensures
        r@ == if k < pieces@.len() - 1 { strip_cr(pieces@[k as int]@) } else { pieces@[k as int]@ },
{
    let cs = chars_of(pieces[k].as_str());
    if k < pieces.len() - 1 && cs.len() > 0 && cs[cs.len() - 1] == '\r' {
        let (head, _) = cs.as_slice().split_at(cs.len() - 1);
        proof {
            assert(head@ =~= cs@.drop_last());
        }
        string_from_chars(head)
    } else {
        pieces[k].clone()
    }
}

/// Mends the values of `wmic` output (see `mend_fields`); `None` where
/// mending steps past the end.
fn mend(fields: Vec<String>, h: usize) -> (r: Option<Vec<String>>)
    requires
        h >= 1,
    ensures
        match mend_fields(strings_view(fields@), 0, h as int) {
            Some(x) => r is Some && strings_view(r->Some_0@) == x,
            None => r is None,
        },
{
    let ghost target = mend_fields(strings_view(fields@), 0, h as int);
    let mut f = fields;
    let mut idx: usize = 0;
    let nl: Vec<char> = vec!['\n'];
    while idx != f.len()
        invariant
            h >= 1,
            nl@ == seq!['\n'],
            idx <= f@.len(),
            target == mend_fields(strings_view(fields@), 0, h as int),
            mend_fields(strings_view(f@), idx as int, h as int) == target,
        decreases f@.len() - idx,
    {
        let ghost fv = strings_view(f@);
        assert(fv[idx as int] == f@[idx as int]@);
        let cs = chars_of(f[idx].as_str());
        if (idx + 1) % h != 0 {
            idx = idx + 1;
        } else if cs.len() > 0 && cs[cs.len() - 1] == '\n' {
            idx = idx + 1;
        } else {
            match find_after_last(cs.as_slice(), nl.as_slice()) {
                None => {
                    idx = idx + 1;
                },
                Some(a) => {
                    if f.len() - idx < 2 {
                        proof {
                            assert(cs@ == fv[idx as int]);
                            assert(after_last(fv[idx as int], seq!['\n']) == Some(a as int));
                            assert(idx + 3 > fv.len() + 1);
                            assert(mend_fields(fv, idx as int, h as int) is None);
                        }
                        return None;
                    }
                    let (left, rest) = cs.as_slice().split_at(a - 1);
                    let (_, right) = rest.split_at(1);
                    let l = string_from_chars(left);
                    let rt = string_from_chars(right);
                    let _ = f.remove(idx);
                    f.insert(idx, rt);
                    f.insert(idx, l);
                    let flen = f.len();
                    proof {
                        assert(cs@ == fv[idx as int]);
                        assert(after_last(fv[idx as int], seq!['\n']) == Some(a as int));
                        assert(idx + 3 <= fv.len() + 1);
                        assert(left@ =~= fv[idx as int].take(a - 1));
                        assert(right@ =~= fv[idx as int].skip(a as int));
                        assert(strings_view(f@) =~= cut_field(fv, idx as int, a - 1));
                    }
                    idx = idx + 3;
                },
            }
        }
    }
    proof {
        assert(mend_fields(strings_view(f@), idx as int, h as int) == Some(strings_view(f@)));
    }
    Some(f)
}

proof fn lemma_cell(r: int, c: int, h: int, len: int)
    requires
        h > 0,
        len >= 0,
        0 <= r < len / h,
        0 <= c < h,
    ensures
        r * h + c < len,
        r * h + h <= len,
{
    assert((r + 1) * h <= (len / h) * h) by (nonlinear_arith)
        requires
            h > 0,
            r + 1 <= len / h,
    ;
    assert((len / h) * h <= len) by (nonlinear_arith)
        requires
            h > 0,
            len >= 0,
    ;
    assert((r + 1) * h == r * h + h) by (nonlinear_arith);
}

/// The rows of `wmic` output (see `wmic_rows`).
pub fn parse_lines(stdout: &str) -> (r: Vec<StrMap<String>>)
    requires
        wmic_rows(stdout@) is Some,
    ensures
        Some(table_view(r@)) == wmic_rows(stdout@),
{
    match parse_lines_checked(stdout) {
        Some(rows) => rows,
        None => Vec::new(),
    }
}

/// The rows of `wmic` output (see `wmic_rows`), or `None` where its values
/// cannot be mended.
pub fn parse_lines_checked(stdout: &str) -> (r: Option<Vec<StrMap<String>>>)
    ensures
        match wmic_rows(stdout@) {
            Some(rows) => r is Some && table_view(r->Some_0@) == rows,
            None => r is None,
        },
{
    let cs = chars_of(stdout);
    let pieces = split_on(cs.as_slice(), '\n');
    let ghost p = split_char(stdout@, '\n');
    let ghost ls = lines_of(stdout@);
    proof {
        crate::common::search::lemma_split_char_nonempty(stdout@, '\n');
    }
    let np = pieces.len();
    let count: usize = if cs.len() == 0 {
        0
    } else if cs[cs.len() - 1] == '\n' {
        np - 1
    } else {
        np
    };
    assert(ls.len() == count);
    if count < 2 {
        let none: Vec<StrMap<String>> = Vec::new();
        proof {
            assert(table_view(none@) =~= Seq::<Map<Seq<char>, Seq<char>>>::empty());
        }
        return Some(none);
    }
    let header = line_text(&pieces, 1);
    proof {
        assert(pieces@[1]@ == p[1]);
        assert(header@ == ls[1]);
    }
    let mut rest: Vec<String> = Vec::new();
    let mut k: usize = 2;
    while k < count
        invariant
            2 <= k <= count,
            count == ls.len(),
            count <= pieces@.len(),
            p == strings_view(pieces@),
            ls == lines_of(stdout@),
            p == split_char(stdout@, '\n'),
            strings_view(rest@) == ls.subrange(2, k as int),
        decreases count - k,
    {
        let l = line_text(&pieces, k);
        let ghost r0 = strings_view(rest@);
        proof {
            assert(p.len() == pieces@.len());
            assert(pieces@[k as int]@ == p[k as int]);
            assert(ls[k as int] == l@);
        }
        let ghost lv = l@;
        rest.push(l);
        proof {
            assert(strings_view(rest@) =~= r0.push(lv));
            assert(strings_view(rest@) =~= ls.subrange(2, k + 1));
        }
        k = k + 1;
    }
    let joined = crate::sql::input::join_texts(&rest, "\n");
    let delim = chars_of("|||");
    proof {
        reveal_strlit("|||");
        assert(strings_view(rest@) =~= ls.skip(2));
    }
    let hc = chars_of(header.as_str());
    let headers = split_by(hc.as_slice(), delim.as_slice());
    let jc = chars_of(joined.as_str());
    let fields0 = split_by(jc.as_slice(), delim.as_slice());
    proof {
        lemma_split_text_nonempty(header@, "|||"@);
    }
    let h = headers.len();
    let fields = match mend(fields0, h) {
        Some(f) => f,
        None => {
            return None;
        },
    };
    let ghost hv = strings_view(headers@);
    let ghost fv = strings_view(fields@);
    let ghost rows = wmic_rows(stdout@).unwrap();
    let flen = fields.len();
    let nrows = flen / h;
    let mut out: Vec<StrMap<String>> = Vec::new();
    let mut r: usize = 0;
    while r < nrows
        invariant
            h == headers@.len(),
            h >= 1,
            hv == strings_view(headers@),
            fv == strings_view(fields@),
            flen == fields@.len(),
            nrows == fields@.len() / (h as nat),
            r <= nrows,
            rows.len() == nrows,
            forall|x: int| 0 <= x < nrows ==> #[trigger] rows[x] == pairs_map(row_pairs(hv, fv.subrange(x * h, x * h + h))),
            table_view(out@) == rows.take(r as int),
        decreases nrows - r,
    {
        proof {
            assert(nrows as int == (fields@.len() as int) / (h as int));
            lemma_cell(r as int, 0, h as int, fields@.len() as int);
            assert(r * h + h <= fields@.len());
        }
        let base = r * h;
        let ghost z = row_pairs(hv, fv.subrange(base as int, base + h));
        let mut m: StrMap<String> = StrMap::new();
        let mut c: usize = 0;
        proof {
            assert(z.take(0) =~= Seq::<(Seq<char>, Seq<char>)>::empty());
            assert(texts_view(m) =~= Map::<Seq<char>, Seq<char>>::empty());
        }
        while c < h
            invariant
                h == headers@.len(),
                hv == strings_view(headers@),
                fv == strings_view(fields@),
                flen == fields@.len(),
                base + h <= fields@.len(),
                c <= h,
                z == row_pairs(hv, fv.subrange(base as int, base + h)),
                texts_view(m) == pairs_map(z.take(c as int)),
            decreases h - c,
        {
            let ghost before = texts_view(m);
            m.insert(headers[c].clone(), fields[base + c].clone());
            proof {
                assert(z.take(c + 1).drop_last() =~= z.take(c as int));
                assert(z[c as int] == (hv[c as int], fv[base + c]));
                assert(texts_view(m) =~= before.insert(hv[c as int], fv[base + c]));
            }
            c = c + 1;
        }
        proof {
            assert(z.take(h as int) =~= z);
        }
        let ghost t0 = table_view(out@);
        let ghost mv = texts_view(m);
        out.push(m);
        proof {
            assert(table_view(out@) =~= t0.push(mv));
            assert(rows[r as int] == mv);
            assert(table_view(out@) =~= rows.take(r + 1));
        }
        r = r + 1;
    }
    proof {
        assert(rows.take(r as int) =~= rows);
    }
    Some(out)
}

/// The text in lower case, as std's `str::to_lowercase` writes it.
pub uninterp spec fn unicode_lower(s: Seq<char>) -> Seq<char>;

/// Writes a text in lower case with std's `str::to_lowercase`. Claimed:
/// the result is `unicode_lower` of the text.
#[verifier::external_body]
pub(crate) fn to_lower(s: &str) -> (r: String)
    ensures
        r@ == unicode_lower(s@),
{
    s.to_lowercase()
}

/// The lines of a text (see `lines_of`).
pub fn text_lines(s: &str) -> (r: Vec<String>)
    ensures
        strings_view(r@) == lines_of(s@),
{
    let cs = chars_of(s);
    let pieces = split_on(cs.as_slice(), '\n');
    let ghost p = split_char(s@, '\n');
    let ghost ls = lines_of(s@);
    proof {
        crate::common::search::lemma_split_char_nonempty(s@, '\n');
    }
    let np = pieces.len();
    let count: usize = if cs.len() == 0 {
        0
    } else if cs[cs.len() - 1] == '\n' {
        np - 1
    } else {
        np
    };
    assert(ls.len() == count);
    let mut out: Vec<String> = Vec::new();
    let mut k: usize = 0;
    while k < count
        invariant
            k <= count,
            count == ls.len(),
            count <= pieces@.len(),
            p == strings_view(pieces@),
            ls == lines_of(s@),
            p == split_char(s@, '\n'),
            strings_view(out@) == ls.take(k as int),
        decreases count - k,
    {
        let l = line_text(&pieces, k);
        let ghost o0 = strings_view(out@);
        proof {
            assert(p.len() == pieces@.len());
            assert(pieces@[k as int]@ == p[k as int]);
            assert(ls[k as int] == l@);
        }
        let ghost lv = l@;
        out.push(l);
        proof {
            assert(strings_view(out@) =~= o0.push(lv));
            assert(strings_view(out@) =~= ls.take(k + 1));
        }
        k = k + 1;
    }
    proof {
        assert(ls.take(count as int) =~= ls);
    }
    out
}

/// The settings that lines give: for each line with a `=`, the text
/// before the first `=`, in lower case, names the text after it; a later
/// line wins.
pub open spec fn params_of(ls: Seq<Seq<char>>) -> Map<Seq<char>, Seq<char>>
    decreases ls.len(),
{
    if ls.len() == 0 {
        Map::empty()
    } else {
        let m = params_of(ls.drop_last());
        let l = ls.last();
        match find_text(l, seq!['=']) {
            Some(i) => m.insert(unicode_lower(l.take(i)), l.skip(i + 1)),
            None => m,
        }
    }
}

/// Why a credentials file cannot be used.
pub enum AuthFileError {
    /// The file does not set this setting.
    MissingInAuthfile(String),
}

/// The credentials that a credentials file's text gives: the settings
/// `username` and `password` (both needed, the first missing one is the
/// error) and, if set, `domain` (see `params_of`).
pub open spec fn file_credentials(content: Seq<char>) -> Result<(Seq<char>, Seq<char>, Option<Seq<char>>), Seq<char>> {
    let p = params_of(lines_of(content));
    if !p.contains_key("username"@) {
        Err("username"@)
    } else if !p.contains_key("password"@) {
        Err("password"@)
    } else {
        Ok((p["username"@], p["password"@], if p.contains_key("domain"@) { Some(p["domain"@]) } else { None }))
    }
}

/// Reads credentials from the text of a credentials file (see
/// `file_credentials`).
pub fn credentials_from_file(content: &str) -> (r: Result<NtlmCredentials, AuthFileError>)
    ensures
        match (r, file_credentials(content@)) {
            (Ok(c), Ok((u, p, d))) => c.username@ == u && c.password@ == p && match (c.domain, d) {
                (Some(a), Some(b)) => a@ == b,
                (None, None) => true,
                _ => false,
            },
            (Err(AuthFileError::MissingInAuthfile(a)), Err(b)) => a@ == b,
            _ => false,
        },
{
    let lines = text_lines(content);
    let ghost lv = strings_view(lines@);
    let mut params: StrMap<String> = StrMap::new();
    let eq: Vec<char> = vec!['='];
    let mut k: usize = 0;
    proof {
        assert(lv.take(0) =~= Seq::<Seq<char>>::empty());
        assert(texts_view(params) =~= Map::<Seq<char>, Seq<char>>::empty());
    }
    while k < lines.len()
        invariant
            k <= lines@.len(),
            lv == strings_view(lines@),
            eq@ == seq!['='],
            texts_view(params) == params_of(lv.take(k as int)),
        decreases lines.len() - k,
    {
        proof {
            assert(lv.take(k + 1).drop_last() =~= lv.take(k as int));
            assert(lv.take(k + 1).last() == lines@[k as int]@);
        }
        let cs = chars_of(lines[k].as_str());
        match find_first(cs.as_slice(), eq.as_slice()) {
            Some(i) => {
                let (head, rest) = cs.as_slice().split_at(i);
                let (_, tail) = rest.split_at(1);
                let key_text = string_from_chars(head);
                let key = to_lower(key_text.as_str());
                let value = string_from_chars(tail);
                let ghost before = texts_view(params);
                params.insert(key, value);
                proof {
                    assert(head@ =~= cs@.take(i as int));
                    assert(tail@ =~= cs@.skip(i + 1));
                    assert(texts_view(params) =~= before.insert(unicode_lower(cs@.take(i as int)), cs@.skip(i + 1)));
                }
            },
            None => {},
        }
        k = k + 1;
    }
    proof {
        assert(lv.take(k as int) =~= lv);
        reveal_strlit("username");
        reveal_strlit("password");
    }
    let ghost p0 = texts_view(params);
    let ukey = String::from_str("username");
    let pkey = String::from_str("password");
    let dkey = String::from_str("domain");
    proof {
        reveal_strlit("domain");
        assert(ukey@[0] == 'u' && pkey@[0] == 'p' && dkey@[0] == 'd');
        assert(ukey@ != pkey@);
        assert(ukey@ != dkey@);
        assert(pkey@ != dkey@);
    }
    let username = match params.take(&ukey) {
        Some(u) => u,
        None => return Err(AuthFileError::MissingInAuthfile(ukey)),
    };
    let ghost p1 = texts_view(params);
    proof {
        assert(p1 =~= p0.remove(ukey@));
    }
    let password = match params.take(&pkey) {
        Some(p) => p,
        None => return Err(AuthFileError::MissingInAuthfile(pkey)),
    };
    let ghost p2 = texts_view(params);
    proof {
        assert(p2 =~= p1.remove(pkey@));
    }
    let domain = params.take(&dkey);
    Ok(NtlmCredentials { username, password, domain })
}

/// The user that `wmic` logs in as: `<domain>/<user>`, or the user alone
/// without a domain.
pub fn session_user(creds: &NtlmCredentials) -> (r: String)
    ensures
        r@ == match creds.domain {
            Some(d) => d@ + "/"@ + creds.username@,
            None => creds.username@,
        },
{
    match &creds.domain {
        Some(d) => {
            let mut out: Vec<char> = Vec::new();
            push_str(&mut out, d.as_str());
            push_str(&mut out, "/");
            push_str(&mut out, creds.username.as_str());
            string_from_chars(out.as_slice())
        },
        None => creds.username.clone(),
    }
}

} // verus!
