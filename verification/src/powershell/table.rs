//! From a script to rows: the script text, the output read as a table, the
//! key of each row and the reading of its fields.

use vstd::prelude::*;

use crate::common::data::{DataError, DataErrorV, strings_view};
use crate::common::strmap::{StrMap, sm_map};
use crate::common::text::{chars_of, decimal, push_decimal, push_str, str_lt, string_from_chars, text_lt, lemma_text_lt_transitive, lemma_text_lt_irreflexive, lemma_text_lt_total};
use crate::sql::input::{join_list, join_texts};
use super::input::{FieldSpec, OutputType, ParamType, Parsed, ParsedV, ShellType, TableSpec, output_function, parse_value_of, parsed_view};
use vstd::string::StringExecFns;
use vstd::multiset::Multiset;

verus! {

/// The text that a template renders to with `handlebars` (escaping
/// nothing), given the variables, or the text of the error.
pub uninterp spec fn handlebars_render(template: Seq<char>, vars: Map<Seq<char>, Seq<char>>) -> Result<Seq<char>, Seq<char>>;

/// The records of a text read as comma-separated values with a header
/// row by the `csv` crate: the header and the rows, each field as a text;
/// or the text of the error.
pub uninterp spec fn csv_table(text: Seq<char>) -> Result<(Seq<Seq<char>>, Seq<Seq<Seq<char>>>), Seq<char>>;

/// The rows of a text read by `serde_json` as a list of objects of texts,
/// each row's (name, value) pairs in ascending order of name; or the text
/// of the error.
pub uninterp spec fn json_table(text: Seq<char>) -> Result<Seq<Seq<(Seq<char>, Seq<char>)>>, Seq<char>>;

/// The variables of a script, by name.
pub open spec fn vars_view(vars: StrMap<String>) -> Map<Seq<char>, Seq<char>> {
    vars@.map_values(|s: String| s@)
}

/// Characters that `handlebars` passes over between the parts of an
/// expression.
pub open spec fn hbs_space(c: char) -> bool {
    c == ' ' || c == '\t' || c == '\n' || c == '\r'
}

/// An expression opens (`{{`) at position `i`.
pub open spec fn opens_at(s: Seq<char>, i: int) -> bool {
    0 <= i && i + 1 < s.len() && s[i] == '{' && s[i + 1] == '{'
}

/// The number of expression openings before position `n`.
pub open spec fn open_count(s: Seq<char>, n: int) -> nat
    decreases n,
{
    if n <= 0 {
        0
    } else {
        open_count(s, n - 1) + if opens_at(s, n - 1) { 1nat } else { 0nat }
    }
}

/// The position of the first character from `i` on that is not passed over.
pub open spec fn skip_space(s: Seq<char>, i: int) -> int
    decreases s.len() - i,
{
    if 0 <= i < s.len() && hbs_space(s[i]) { skip_space(s, i + 1) } else { i }
}

/// A decorator (`{{*`, `{{#*`, with `~` and spaces allowed between) opens
/// at position `i`; inline partials are defined by one.
pub open spec fn decorator_at(s: Seq<char>, i: int) -> bool {
    &&& opens_at(s, i)
    &&& {
        let a = skip_space(s, i + 2);
        let b = if 0 <= a < s.len() && s[a] == '~' { skip_space(s, a + 1) } else { a };
        let c = if 0 <= b < s.len() && s[b] == '#' { skip_space(s, b + 1) } else { b };
        0 <= c < s.len() && s[c] == '*'
    }
}

/// The most expression openings a rendered template may hold.
pub open spec fn max_openings() -> nat {
    128
}

/// A template that `handlebars` renders without unbounded recursion: it
/// defines no inline partial (so that no partial can include itself) and
/// holds at most `max_openings` expression openings (so that blocks nest
/// no deeper).
pub open spec fn template_bounded(s: Seq<char>) -> bool {
    &&& forall|i: int| !#[trigger] decorator_at(s, i)
    &&& open_count(s, s.len() as int) <= max_openings()
}

fn skip_space_exec(s: &Vec<char>, i: usize) -> (r: usize)
    requires
        i <= s.len(),
    ensures
        r == skip_space(s@, i as int),
        i <= r <= s.len(),
{
    let mut j = i;
    while j < s.len() && (s[j] == ' ' || s[j] == '\t' || s[j] == '\n' || s[j] == '\r')
        invariant
            i <= j <= s.len(),
            skip_space(s@, i as int) == skip_space(s@, j as int),
        decreases s.len() - j,
    {
        j = j + 1;
    }
    j
}

fn decorator_at_exec(s: &Vec<char>, i: usize) -> (r: bool)
    requires
        i < s.len(),
    ensures
        r == decorator_at(s@, i as int),
{
    if !(i + 1 < s.len() && s[i] == '{' && s[i + 1] == '{') {
        return false;
    }
    let a = skip_space_exec(s, i + 2);
    let b = if a < s.len() && s[a] == '~' { skip_space_exec(s, a + 1) } else { a };
    let c = if b < s.len() && s[b] == '#' { skip_space_exec(s, b + 1) } else { b };
    c < s.len() && s[c] == '*'
}

/// Whether a template is one that `render_template` takes (see
/// `template_bounded`).
pub fn is_bounded_template(text: &str) -> (r: bool)
    ensures
        r == template_bounded(text@),
{
    let s = chars_of(text);
    let mut count: usize = 0;
    let mut i: usize = 0;
    while i < s.len()
        invariant
            s@ == text@,
            i <= s.len(),
            count == open_count(s@, i as int),
            count <= i,
            forall|j: int| 0 <= j < i ==> !#[trigger] decorator_at(s@, j),
        decreases s.len() - i,
    {
        if decorator_at_exec(&s, i) {
            return false;
        }
        if i + 1 < s.len() && s[i] == '{' && s[i + 1] == '{' {
            count = count + 1;
        }
        i = i + 1;
    }
    proof {
        assert forall|j: int| !#[trigger] decorator_at(s@, j) by {
            if j >= s.len() {
                assert(!opens_at(s@, j));
            }
        }
    }
    count <= 128
}

/// Renders a template with `handlebars`: a fresh registry with
/// `no_escape` as its escape function, the variables wrapped with
/// `Context::wraps`, and `render_template_with_context`. Claimed: the
/// result is `handlebars_render` of the template and the variables. The
/// template is bounded (see `template_bounded`): `handlebars` refuses a
/// partial that names the template being rendered, but not inline
/// partials that include each other, and it parses and renders nested
/// blocks by recursion.
#[verifier::external_body]
pub(crate) fn render_template(template: &str, vars: &StrMap<String>) -> (r: Result<String, String>)
    requires
        template_bounded(template@),
    ensures
        match (r, handlebars_render(template@, vars_view(*vars))) {
            (Ok(a), Ok(b)) => a@ == b,
            (Err(a), Err(b)) => a@ == b,
            _ => false,
        },
{
    let map: std::collections::BTreeMap<String, String> = vars.0.iter().cloned().collect();
    let ctx = handlebars::Context::wraps(&map).map_err(|e| e.to_string())?;
    let mut reg = handlebars::Handlebars::new();
    reg.register_escape_fn(handlebars::no_escape);
    reg.render_template_with_context(template, &ctx).map_err(|e| e.to_string())
}

/// Reads comma-separated values with a header row with the `csv` crate
/// (`ReaderBuilder` with `,` as delimiter and headers; `headers`, then
/// `records`). Claimed: the result is `csv_table` of the text.
#[verifier::external_body]
pub(crate) fn read_csv(text: &str) -> (r: Result<(Vec<String>, Vec<Vec<String>>), String>)
    ensures
        match (r, csv_table(text@)) {
            (Ok((h, rs)), Ok((hv, rv))) => strings_view(h@) == hv
                && rs@.map_values(|x: Vec<String>| strings_view(x@)) == rv,
            (Err(a), Err(b)) => a@ == b,
            _ => false,
        },
{
    let mut rdr = csv::ReaderBuilder::new().delimiter(b',').has_headers(true).from_reader(text.as_bytes());
    let headers: Vec<String> = rdr.headers().map_err(|e| e.to_string())?.iter().map(String::from).collect();
    let mut records: Vec<Vec<String>> = Vec::new();
    for rec in rdr.records() {
        records.push(rec.map_err(|e| e.to_string())?.iter().map(String::from).collect());
    }
    Ok((headers, records))
}

/// Reads a list of objects of texts with `serde_json` (into ordered maps,
/// so each row's pairs come in ascending order of name). Claimed: the
/// result is `json_table` of the text.
#[verifier::external_body]
pub(crate) fn read_json(text: &str) -> (r: Result<Vec<Vec<(String, String)>>, String>)
    ensures
        match (r, json_table(text@)) {
            (Ok(a), Ok(b)) => a@.map_values(|x: Vec<(String, String)>| x@.map_values(|p: (String, String)| (p.0@, p.1@))) == b,
            (Err(a), Err(b)) => a@ == b,
            _ => false,
        },
{
    let rows: Vec<std::collections::BTreeMap<String, String>> = serde_json::from_str(text).map_err(|e| e.to_string())?;
    Ok(rows.into_iter().map(|m| m.into_iter().collect()).collect())
}

/// The lines that open an Exchange session with the `username` and
/// `password` variables, before the script is invoked.
pub open spec fn exchange_prelude() -> Seq<char> {
    "$Username = '{{username}}'\n                       $Password = '{{password}}'\n\n                       $Password = ConvertTo-SecureString -AsPlainText -Force -String $Password\n                       $Credential = New-Object -TypeName System.Management.Automation.PSCredential -ArgumentList $Username,$Password\n                       $Session = New-PSSession -ConfigurationName Microsoft.Exchange -Credential $Credential `\n                                       -ConnectionUri http://$(hostname)/PowerShell/ -Authentication Kerberos\n                       Import-PSSession $Session -DisableNameChecking | Out-Null\n\n                       "@
}

/// The template of the command that runs a script in a shell, its output
/// piped into the output type's command.
pub open spec fn command_template(shell: ShellType, script: Seq<char>, out: OutputType) -> Seq<char> {
    let invoke = "Invoke-Command -ScriptBlock { "@ + script + " } | "@ + output_function(out);
    match shell {
        ShellType::Powershell => invoke,
        ShellType::Exchange => exchange_prelude() + invoke,
    }
}

/// Why a table could not be read.
pub enum TableError {
    /// The command's template did not render.
    RenderError(String),
    /// The command exited with a status other than zero (status, error
    /// output).
    CommandFailed(i32, String),
    /// The output is no comma-separated table.
    CsvDeserialize(String),
    /// The output is no list of objects.
    JsonDeserialize(String),
}

/// The error text for a command template that is not bounded (see
/// `template_bounded`).
pub open spec fn unbounded_text() -> Seq<char> {
    "template defines inline partials or holds more than 128 expressions"@
}

impl ShellType {
    /// The command that runs a script in this shell (see
    /// `command_template`), rendered with the script variables; refused
    /// when it is not bounded (see `template_bounded`).
    pub fn parse_command(&self, script: &str, outtype: OutputType, ctx: &StrMap<String>) -> (r: Result<String, TableError>)
        ensures
            !template_bounded(command_template(*self, script@, outtype)) ==> (r matches Err(TableError::RenderError(a)) && a@ == unbounded_text()),
            template_bounded(command_template(*self, script@, outtype)) ==> match (r, handlebars_render(command_template(*self, script@, outtype), vars_view(*ctx))) {
                (Ok(a), Ok(b)) => a@ == b,
                (Err(TableError::RenderError(a)), Err(b)) => a@ == b,
                _ => false,
            },
    {
        let mut out: Vec<char> = Vec::new();
        match self {
            ShellType::Powershell => {},
            ShellType::Exchange => push_str(&mut out, "$Username = '{{username}}'\n                       $Password = '{{password}}'\n\n                       $Password = ConvertTo-SecureString -AsPlainText -Force -String $Password\n                       $Credential = New-Object -TypeName System.Management.Automation.PSCredential -ArgumentList $Username,$Password\n                       $Session = New-PSSession -ConfigurationName Microsoft.Exchange -Credential $Credential `\n                                       -ConnectionUri http://$(hostname)/PowerShell/ -Authentication Kerberos\n                       Import-PSSession $Session -DisableNameChecking | Out-Null\n\n                       "),
        }
        push_str(&mut out, "Invoke-Command -ScriptBlock { ");
        push_str(&mut out, script);
        push_str(&mut out, " } | ");
        push_str(&mut out, outtype.as_function());
        proof {
            assert(out@ =~= command_template(*self, script@, outtype));
        }
        let template = string_from_chars(out.as_slice());
        if !is_bounded_template(template.as_str()) {
            let msg = String::from_str("template defines inline partials or holds more than 128 expressions");
            proof {
                reveal_strlit("template defines inline partials or holds more than 128 expressions");
            }
            return Err(TableError::RenderError(msg));
        }
        match render_template(template.as_str(), ctx) {
            Ok(s) => Ok(s),
            Err(e) => Err(TableError::RenderError(e)),
        }
    }
}

/// What a command gave back.
pub struct CommandOutput {
    pub exitcode: i32,
    pub stderr: String,
    pub stdout: String,
}

impl CommandOutput {
    /// The output of a command that exited with status zero; else the
    /// status and error output as the error.
    pub fn into_result(self) -> (r: Result<CommandOutput, TableError>)
        ensures
            match r {
                Ok(o) => self.exitcode == 0 && o == self,
                Err(TableError::CommandFailed(c, e)) => self.exitcode != 0 && c == self.exitcode && e == self.stderr,
                _ => false,
            },
    {
        if self.exitcode == 0 {
            Ok(self)
        } else {
            Err(TableError::CommandFailed(self.exitcode, self.stderr))
        }
    }
}

/// A row of comma-separated values: each header with the field below it
/// (a later column with the same header wins).
pub open spec fn csv_row(headers: Seq<Seq<char>>, fields: Seq<Seq<char>>) -> Map<Seq<char>, Seq<char>>
    decreases fields.len(),
{
    if fields.len() == 0 || headers.len() == 0 {
        Map::empty()
    } else if fields.len() <= headers.len() {
        csv_row(headers, fields.drop_last()).insert(headers[fields.len() - 1], fields.last())
    } else {
        csv_row(headers, fields.drop_last())
    }
}

/// A row of a JSON list: its pairs (a later pair with the same name wins).
pub open spec fn pairs_row(pairs: Seq<(Seq<char>, Seq<char>)>) -> Map<Seq<char>, Seq<char>>
    decreases pairs.len(),
{
    if pairs.len() == 0 {
        Map::empty()
    } else {
        pairs_row(pairs.drop_last()).insert(pairs.last().0, pairs.last().1)
    }
}

/// The rows of a table, viewed.
pub open spec fn rows_view(rows: Seq<StrMap<String>>) -> Seq<Map<Seq<char>, Seq<char>>> {
    rows.map_values(|r: StrMap<String>| vars_view(r))
}

/// The table that a command's output gives, by its output type.
pub open spec fn output_table(o: OutputType, stdout: Seq<char>) -> Result<Seq<Map<Seq<char>, Seq<char>>>, Seq<char>> {
    match o {
        OutputType::Csv => match csv_table(stdout) {
            Ok((h, rs)) => Ok(rs.map_values(|r: Seq<Seq<char>>| csv_row(h, r))),
            Err(e) => Err(e),
        },
        OutputType::Json => match json_table(stdout) {
            Ok(rs) => Ok(rs.map_values(|r: Seq<(Seq<char>, Seq<char>)>| pairs_row(r))),
            Err(e) => Err(e),
        },
    }
}

fn csv_row_of(headers: &Vec<String>, fields: &Vec<String>) -> (r: StrMap<String>)
    ensures
        vars_view(r) == csv_row(strings_view(headers@), strings_view(fields@)),
{
    let mut row: StrMap<String> = StrMap::new();
    let mut i: usize = 0;
    proof {
        assert(vars_view(row) =~= Map::<Seq<char>, Seq<char>>::empty());
        assert(strings_view(fields@).take(0) =~= Seq::<Seq<char>>::empty());
    }
    while i < fields.len() && i < headers.len()
        invariant
            i <= fields@.len(),
            i <= headers@.len(),
            vars_view(row) == csv_row(strings_view(headers@), strings_view(fields@).take(i as int)),
        decreases fields.len() - i,
    {
        proof {
            assert(strings_view(fields@).take(i + 1).drop_last() =~= strings_view(fields@).take(i as int));
        }
        let ghost r0 = row@;
        row.insert(headers[i].clone(), fields[i].clone());
        proof {
            assert(vars_view(row) =~= r0.map_values(|s: String| s@).insert(headers@[i as int]@, fields@[i as int]@));
        }
        i = i + 1;
    }
    proof {
        if i < fields@.len() {
            lemma_csv_row_extra(strings_view(headers@), strings_view(fields@), i as int);
        } else {
            assert(strings_view(fields@).take(i as int) =~= strings_view(fields@));
        }
    }
    row
}

proof fn lemma_csv_row_extra(headers: Seq<Seq<char>>, fields: Seq<Seq<char>>, n: int)
    requires
        n == headers.len(),
        n <= fields.len(),
    ensures
        csv_row(headers, fields) == csv_row(headers, fields.take(n)),
    decreases fields.len() - n,
{
    if fields.len() > n {
        assert(fields.drop_last().take(n) =~= fields.take(n));
        lemma_csv_row_extra(headers, fields.drop_last(), n);
    } else {
        assert(fields.take(n) =~= fields);
    }
}

fn pairs_row_of(pairs: &Vec<(String, String)>) -> (r: StrMap<String>)
    ensures
        vars_view(r) == pairs_row(pairs@.map_values(|p: (String, String)| (p.0@, p.1@))),
{
    let ghost pv = pairs@.map_values(|p: (String, String)| (p.0@, p.1@));
    let mut row: StrMap<String> = StrMap::new();
    let mut i: usize = 0;
    proof {
        assert(vars_view(row) =~= Map::<Seq<char>, Seq<char>>::empty());
    }
    while i < pairs.len()
        invariant
            i <= pairs@.len(),
            pv == pairs@.map_values(|p: (String, String)| (p.0@, p.1@)),
            vars_view(row) == pairs_row(pv.take(i as int)),
        decreases pairs.len() - i,
    {
        proof {
            assert(pv.take(i + 1).drop_last() =~= pv.take(i as int));
        }
        let ghost r0 = row@;
        row.insert(pairs[i].0.clone(), pairs[i].1.clone());
        proof {
            assert(vars_view(row) =~= r0.map_values(|s: String| s@).insert(pairs@[i as int].0@, pairs@[i as int].1@));
        }
        i = i + 1;
    }
    proof {
        assert(pv.take(i as int) =~= pv);
    }
    row
}

impl OutputType {
    /// The table of a command's output (see `output_table`); the command
    /// must have exited with status zero.
    pub fn parse_table(&self, output: CommandOutput) -> (r: Result<Vec<StrMap<String>>, TableError>)
        ensures
            output.exitcode != 0 ==> (r matches Err(TableError::CommandFailed(c, e)) && c == output.exitcode && e == output.stderr),
            output.exitcode == 0 ==> match (r, output_table(*self, output.stdout@)) {
                (Ok(t), Ok(v)) => rows_view(t@) == v,
                (Err(TableError::CsvDeserialize(a)), Err(b)) => *self == OutputType::Csv && a@ == b,
                (Err(TableError::JsonDeserialize(a)), Err(b)) => *self == OutputType::Json && a@ == b,
                _ => false,
            },
    {
        let output = match output.into_result() {
            Ok(o) => o,
            Err(e) => return Err(e),
        };
        match self {
            OutputType::Csv => match read_csv(output.stdout.as_str()) {
                Err(e) => Err(TableError::CsvDeserialize(e)),
                Ok((headers, records)) => {
                    let ghost hv = strings_view(headers@);
                    let ghost rv = records@.map_values(|x: Vec<String>| strings_view(x@));
                    let mut rows: Vec<StrMap<String>> = Vec::new();
                    let mut i: usize = 0;
                    while i < records.len()
                        invariant
                            i <= records@.len(),
                            hv == strings_view(headers@),
                            rv == records@.map_values(|x: Vec<String>| strings_view(x@)),
                            rows_view(rows@) == rv.take(i as int).map_values(|r: Seq<Seq<char>>| csv_row(hv, r)),
                        decreases records.len() - i,
                    {
                        let row = csv_row_of(&headers, &records[i]);
                        let ghost r0 = rows_view(rows@);
                        let ghost rw = vars_view(row);
                        rows.push(row);
                        proof {
                            assert(rv[i as int] == strings_view(records@[i as int]@));
                            assert(rows_view(rows@) =~= r0.push(rw));
                            assert(rows_view(rows@) =~= rv.take(i + 1).map_values(|r: Seq<Seq<char>>| csv_row(hv, r)));
                        }
                        i = i + 1;
                    }
                    proof {
                        assert(rv.take(i as int) =~= rv);
                    }
                    Ok(rows)
                },
            },
            OutputType::Json => match read_json(output.stdout.as_str()) {
                Err(e) => Err(TableError::JsonDeserialize(e)),
                Ok(pairs) => {
                    let ghost pv = pairs@.map_values(|x: Vec<(String, String)>| x@.map_values(|p: (String, String)| (p.0@, p.1@)));
                    let mut rows: Vec<StrMap<String>> = Vec::new();
                    let mut i: usize = 0;
                    while i < pairs.len()
                        invariant
                            i <= pairs@.len(),
                            pv == pairs@.map_values(|x: Vec<(String, String)>| x@.map_values(|p: (String, String)| (p.0@, p.1@))),
                            rows_view(rows@) == pv.take(i as int).map_values(|r: Seq<(Seq<char>, Seq<char>)>| pairs_row(r)),
                        decreases pairs.len() - i,
                    {
                        let row = pairs_row_of(&pairs[i]);
                        let ghost r0 = rows_view(rows@);
                        let ghost rw = vars_view(row);
                        rows.push(row);
                        proof {
                            assert(pv[i as int] == pairs@[i as int]@.map_values(|p: (String, String)| (p.0@, p.1@)));
                            assert(rows_view(rows@) =~= r0.push(rw));
                            assert(rows_view(rows@) =~= pv.take(i + 1).map_values(|r: Seq<(Seq<char>, Seq<char>)>| pairs_row(r)));
                        }
                        i = i + 1;
                    }
                    proof {
                        assert(pv.take(i as int) =~= pv);
                    }
                    Ok(rows)
                },
            },
        }
    }
}

/// The values of a row's key fields that it has, in the order of the
/// fields.
pub open spec fn key_parts(row: Map<Seq<char>, Seq<char>>, fields: Seq<&FieldSpec>) -> Seq<Seq<char>>
    decreases fields.len(),
{
    if fields.len() == 0 {
        Seq::empty()
    } else {
        let p = key_parts(row, fields.drop_last());
        let f = fields.last();
        if f.is_key && row.contains_key(f.parameter_header@) {
            p.push(row[f.parameter_header@])
        } else {
            p
        }
    }
}

/// A text put into an ascending list: before the first larger text.
pub open spec fn insert_sorted(s: Seq<Seq<char>>, x: Seq<char>) -> Seq<Seq<char>>
    decreases s.len(),
{
    if s.len() == 0 {
        seq![x]
    } else if text_lt(x, s[0]) {
        seq![x] + s
    } else {
        seq![s[0]] + insert_sorted(s.drop_first(), x)
    }
}

/// Texts in ascending order (insertion sort).
pub open spec fn sort_texts(s: Seq<Seq<char>>) -> Seq<Seq<char>>
    decreases s.len(),
{
    if s.len() == 0 {
        Seq::empty()
    } else {
        insert_sorted(sort_texts(s.drop_last()), s.last())
    }
}

/// The key of a row: its key values in ascending order joined by `.`;
/// none when it has no key value.
pub open spec fn row_key_of(row: Map<Seq<char>, Seq<char>>, fields: Seq<&FieldSpec>) -> Option<Seq<char>> {
    let p = key_parts(row, fields);
    if p.len() == 0 { None } else { Some(join_list(sort_texts(p), "."@)) }
}

proof fn lemma_insert_sorted_at(s: Seq<Seq<char>>, x: Seq<char>, j: int)
    requires
        0 <= j <= s.len(),
        forall|k: int| 0 <= k < j ==> !text_lt(x, #[trigger] s[k]),
        j < s.len() ==> text_lt(x, s[j]),
    ensures
        insert_sorted(s, x) == s.insert(j, x),
    decreases s.len(),
{
    if s.len() == 0 {
        assert(s.insert(j, x) =~= seq![x]);
    } else if j == 0 {
        assert(s.insert(0, x) =~= seq![x] + s);
    } else {
        assert(!text_lt(x, s[0]));
        let t = s.drop_first();
        assert forall|k: int| 0 <= k < j - 1 implies !text_lt(x, #[trigger] t[k]) by {
            assert(t[k] == s[k + 1]);
        }
        if j - 1 < t.len() {
            assert(t[j - 1] == s[j]);
        }
        lemma_insert_sorted_at(t, x, j - 1);
        assert(seq![s[0]] + t.insert(j - 1, x) =~= s.insert(j, x));
    }
}

pub(crate) fn insert_text(v: &mut Vec<String>, x: String)
    ensures
        strings_view(final(v)@) == insert_sorted(strings_view(old(v)@), x@),
{
    let ghost s0 = strings_view(v@);
    let mut j: usize = 0;
    while j < v.len() && !str_lt(x.as_str(), v[j].as_str())
        invariant
            j <= v@.len(),
            s0 == strings_view(v@),
            forall|k: int| 0 <= k < j ==> !text_lt(x@, #[trigger] s0[k]),
        decreases v.len() - j,
    {
        proof {
            assert(s0[j as int] == v@[j as int]@);
        }
        j = j + 1;
    }
    proof {
        if j < v@.len() {
            assert(s0[j as int] == v@[j as int]@);
        }
        lemma_insert_sorted_at(s0, x@, j as int);
    }
    let ghost xv = x@;
    v.insert(j, x);
    proof {
        assert(strings_view(v@) =~= s0.insert(j as int, xv));
    }
}

impl TableSpec {
    /// The key of a row (see `row_key_of`).
    pub fn get_rowkey(&self, row: &StrMap<String>, fields: &Vec<&FieldSpec>) -> (r: Option<String>)
        ensures
            match (r, row_key_of(vars_view(*row), fields@)) {
                (Some(a), Some(b)) => a@ == b,
                (None, None) => true,
                _ => false,
            },
    {
        let mut parts: Vec<String> = Vec::new();
        let ghost kp: Seq<Seq<char>> = Seq::empty();
        let mut i: usize = 0;
        while i < fields.len()
            invariant
                i <= fields@.len(),
                kp == key_parts(vars_view(*row), fields@.take(i as int)),
                strings_view(parts@) == sort_texts(kp),
                kp.len() == parts@.len(),
            decreases fields.len() - i,
        {
            proof {
                assert(fields@.take(i + 1).drop_last() =~= fields@.take(i as int));
                assert(fields@.take(i + 1).last() == fields@[i as int]);
            }
            let f = fields[i];
            if f.is_key {
                match row.get(&f.parameter_header) {
                    Some(v) => {
                        let ghost kp0 = kp;
                        insert_text(&mut parts, v.clone());
                        proof {
                            kp = kp0.push(v@);
                            assert(kp.drop_last() =~= kp0);
                            lemma_insert_len(sort_texts(kp0), v@);
                        }
                    },
                    None => {},
                }
            }
            i = i + 1;
        }
        proof {
            assert(fields@.take(i as int) =~= fields@);
        }
        if parts.len() == 0 {
            None
        } else {
            Some(join_texts(&parts, "."))
        }
    }
}

proof fn lemma_insert_len(s: Seq<Seq<char>>, x: Seq<char>)
    ensures
        insert_sorted(s, x).len() == s.len() + 1,
    decreases s.len(),
{
    if s.len() > 0 && !text_lt(x, s[0]) {
        lemma_insert_len(s.drop_first(), x);
    }
}

/// The readings of a row's fields, in order: each field takes its column
/// out of the row (a later field with the same column finds it missing).
pub open spec fn readings(row: Map<Seq<char>, Seq<char>>, fields: Seq<&FieldSpec>, key: Seq<char>) -> Seq<ParsedV>
    decreases fields.len(),
{
    if fields.len() == 0 {
        Seq::empty()
    } else {
        let f = fields[0];
        let h = f.parameter_header@;
        if row.contains_key(h) {
            seq![parse_value_of(*f, row[h], key)] + readings(row.remove(h), fields.drop_first(), key)
        } else {
            seq![ParsedV::Done(Err(DataErrorV::Missing))] + readings(row, fields.drop_first(), key)
        }
    }
}

/// The key under which a row's counters are kept: its key, or its
/// position in the table.
pub open spec fn row_counter_key(row: Map<Seq<char>, Seq<char>>, fields: Seq<&FieldSpec>, idx: int) -> Seq<char> {
    match row_key_of(row, fields) {
        Some(k) => k,
        None => decimal(idx as nat),
    }
}

/// No field is read as an age (ages are not read).
pub open spec fn no_age(fields: Seq<&FieldSpec>) -> bool {
    forall|i: int| 0 <= i < fields.len() ==> (#[trigger] fields[i]).parameter_type != ParamType::Age
}

fn row_readings(row: StrMap<String>, fields: &Vec<&FieldSpec>, key: &String) -> (r: Vec<Parsed>)
    requires
        no_age(fields@),
    ensures
        r@.map_values(|p: Parsed| parsed_view(p)) == readings(vars_view(row), fields@, key@),
{
    let mut row = row;
    let ghost r0 = vars_view(row);
    let mut out: Vec<Parsed> = Vec::new();
    let mut i: usize = 0;
    proof {
        assert(fields@.skip(0) =~= fields@);
        assert(out@.map_values(|p: Parsed| parsed_view(p)) + readings(vars_view(row), fields@.skip(0), key@) =~= readings(r0, fields@, key@));
    }
    while i < fields.len()
        invariant
            i <= fields@.len(),
            no_age(fields@),
            out@.map_values(|p: Parsed| parsed_view(p)) + readings(vars_view(row), fields@.skip(i as int), key@) == readings(r0, fields@, key@),
        decreases fields.len() - i,
    {
        let ghost rest = fields@.skip(i as int);
        let ghost ov = out@.map_values(|p: Parsed| parsed_view(p));
        let ghost rv = vars_view(row);
        proof {
            assert(rest[0] == fields@[i as int]);
            assert(rest.drop_first() =~= fields@.skip(i + 1));
        }
        let f = fields[i];
        match row.take(&f.parameter_header) {
            Some(v) => {
                let p = f.parse_value(v, key.as_str());
                let ghost pv = parsed_view(p);
                out.push(p);
                proof {
                    assert(vars_view(row) =~= rv.remove(f.parameter_header@));
                    assert(out@.map_values(|p: Parsed| parsed_view(p)) =~= ov.push(pv));
                    assert(ov.push(pv) + readings(vars_view(row), fields@.skip(i + 1), key@) =~= ov + readings(rv, rest, key@));
                }
            },
            None => {
                out.push(Parsed::Done(Err(DataError::Missing)));
                proof {
                    assert(vars_view(row) =~= rv);
                    assert(out@.map_values(|p: Parsed| parsed_view(p)) =~= ov.push(ParsedV::Done(Err(DataErrorV::Missing))));
                    assert(ov.push(ParsedV::Done(Err(DataErrorV::Missing))) + readings(vars_view(row), fields@.skip(i + 1), key@) =~= ov + readings(rv, rest, key@));
                }
            },
        }
        i = i + 1;
    }
    proof {
        assert(fields@.skip(i as int).len() == 0);
        assert(out@.map_values(|p: Parsed| parsed_view(p)) + Seq::<ParsedV>::empty() =~= out@.map_values(|p: Parsed| parsed_view(p)));
    }
    out
}

impl TableSpec {
    /// The readings of each row of a table, in order (see `readings`),
    /// under the row's counter key (see `row_counter_key`).
    pub fn parse_table(&self, table: Vec<StrMap<String>>, fields: &Vec<&FieldSpec>) -> (r: Vec<Vec<Parsed>>)
        requires
            no_age(fields@),
        ensures
            r@.len() == table@.len(),
            forall|i: int| 0 <= i < table@.len() ==> (#[trigger] r@[i])@.map_values(|p: Parsed| parsed_view(p))
                == readings(vars_view(table@[i]), fields@, row_counter_key(vars_view(table@[i]), fields@, i)),
    {
        let ghost t0 = table@;
        let n = table.len();
        let mut out: Vec<Vec<Parsed>> = Vec::new();
        let mut table = table;
        let mut rest: Vec<StrMap<String>> = Vec::new();
        while table.len() > 0
            invariant
                table@.len() <= t0.len(),
                table@ == t0.take(table@.len() as int),
                rest@.len() + table@.len() == t0.len(),
                forall|k: int| 0 <= k < rest@.len() ==> #[trigger] rest@[k] == t0[t0.len() - 1 - k],
            decreases table.len(),
        {
            let ghost before = table@;
            let last = table.pop().unwrap();
            rest.push(last);
            proof {
                assert(table@ =~= t0.take(table@.len() as int));
            }
        }
        let mut idx: usize = 0;
        while rest.len() > 0
            invariant
                idx + rest@.len() == t0.len(),
                n == t0.len(),
                forall|k: int| 0 <= k < rest@.len() ==> #[trigger] rest@[k] == t0[t0.len() - 1 - k],
                out@.len() == idx,
                no_age(fields@),
                forall|i: int| 0 <= i < idx ==> (#[trigger] out@[i])@.map_values(|p: Parsed| parsed_view(p))
                    == readings(vars_view(t0[i]), fields@, row_counter_key(vars_view(t0[i]), fields@, i)),
            decreases rest.len(),
        {
            let row = rest.pop().unwrap();
            proof {
                assert(row == t0[idx as int]);
            }
            let key = match self.get_rowkey(&row, fields) {
                Some(k) => k,
                None => {
                    let mut d: Vec<char> = Vec::new();
                    push_decimal(&mut d, idx as u64);
                    string_from_chars(d.as_slice())
                },
            };
            let parsed = row_readings(row, fields, &key);
            out.push(parsed);
            idx = idx + 1;
        }
        out
    }
}

/// Texts in ascending order: no text is below one before it.
pub open spec fn texts_sorted(r: Seq<Seq<char>>) -> bool {
    forall|a: int, b: int| 0 <= a < b < r.len() ==> !text_lt(#[trigger] r[b], #[trigger] r[a])
}

proof fn lemma_singleton_multiset(x: Seq<char>)
    ensures
        seq![x].to_multiset() =~= Multiset::<Seq<char>>::empty().insert(x),
{
    let e = Seq::<Seq<char>>::empty();
    e.to_multiset_ensures();
    assert(e.push(x) =~= seq![x]);
    assert(e.to_multiset() =~= Multiset::<Seq<char>>::empty());
}

proof fn lemma_insert_sorted_props(s: Seq<Seq<char>>, x: Seq<char>)
    ensures
        insert_sorted(s, x).to_multiset() =~= s.to_multiset().insert(x),
        insert_sorted(s, x).len() == s.len() + 1,
        forall|b: int| 0 <= b < insert_sorted(s, x).len() ==> (#[trigger] insert_sorted(s, x)[b] == x || s.contains(insert_sorted(s, x)[b])),
        texts_sorted(s) ==> texts_sorted(insert_sorted(s, x)),
    decreases s.len(),
{
    let r = insert_sorted(s, x);
    lemma_singleton_multiset(x);
    if s.len() == 0 {
        assert(r =~= seq![x]);
        s.to_multiset_ensures();
        assert(s.to_multiset() =~= Multiset::<Seq<char>>::empty());
    } else if text_lt(x, s[0]) {
        vstd::seq_lib::lemma_multiset_commutative(seq![x], s);
        assert forall|b: int| 0 <= b < r.len() implies (#[trigger] r[b] == x || s.contains(r[b])) by {
            if b > 0 {
                assert(r[b] == s[b - 1]);
            }
        }
        if texts_sorted(s) {
            assert forall|a: int, b: int| 0 <= a < b < r.len() implies !text_lt(#[trigger] r[b], #[trigger] r[a]) by {
                if a == 0 {
                    assert(r[0] == x);
                    assert(r[b] == s[b - 1]);
                    if b - 1 > 0 {
                        assert(!text_lt(s[b - 1], s[0]));
                    }
                    if text_lt(s[b - 1], x) {
                        lemma_text_lt_transitive(s[b - 1], x, s[0]);
                        lemma_text_lt_irreflexive(s[0]);
                    }
                } else {
                    assert(r[a] == s[a - 1]);
                    assert(r[b] == s[b - 1]);
                }
            }
        }
    } else {
        let t = s.drop_first();
        lemma_insert_sorted_props(t, x);
        let it = insert_sorted(t, x);
        assert(s =~= seq![s[0]] + t);
        lemma_singleton_multiset(s[0]);
        vstd::seq_lib::lemma_multiset_commutative(seq![s[0]], t);
        vstd::seq_lib::lemma_multiset_commutative(seq![s[0]], it);
        assert forall|b: int| 0 <= b < r.len() implies (#[trigger] r[b] == x || s.contains(r[b])) by {
            if b == 0 {
                assert(s[0] == r[0]);
            } else {
                assert(r[b] == it[b - 1]);
                if it[b - 1] != x {
                    assert(t.contains(it[b - 1]));
                    let q = choose|q: int| 0 <= q < t.len() && t[q] == it[b - 1];
                    assert(s[q + 1] == t[q]);
                }
            }
        }
        if texts_sorted(s) {
            assert(texts_sorted(t)) by {
                assert forall|a: int, b: int| 0 <= a < b < t.len() implies !text_lt(#[trigger] t[b], #[trigger] t[a]) by {
                    assert(t[a] == s[a + 1] && t[b] == s[b + 1]);
                }
            }
            assert forall|a: int, b: int| 0 <= a < b < r.len() implies !text_lt(#[trigger] r[b], #[trigger] r[a]) by {
                if a == 0 {
                    assert(r[0] == s[0]);
                    assert(r[b] == it[b - 1]);
                    if it[b - 1] != x {
                        assert(t.contains(it[b - 1]));
                        let q = choose|q: int| 0 <= q < t.len() && t[q] == it[b - 1];
                        assert(s[q + 1] == t[q]);
                    }
                } else {
                    assert(r[a] == it[a - 1]);
                    assert(r[b] == it[b - 1]);
                }
            }
        }
    }
}

/// Sorting texts gives them in ascending order, each as often as before.
pub proof fn law_sort_texts(s: Seq<Seq<char>>)
    ensures
        texts_sorted(sort_texts(s)),
        sort_texts(s).to_multiset() =~= s.to_multiset(),
    decreases s.len(),
{
    if s.len() == 0 {
        assert(sort_texts(s) =~= s);
    } else {
        law_sort_texts(s.drop_last());
        lemma_insert_sorted_props(sort_texts(s.drop_last()), s.last());
        s.drop_last().to_multiset_ensures();
        assert(s.drop_last().push(s.last()) =~= s);
    }
}

proof fn lemma_sorted_unique(a: Seq<Seq<char>>, b: Seq<Seq<char>>)
    requires
        texts_sorted(a),
        texts_sorted(b),
        a.to_multiset() =~= b.to_multiset(),
    ensures
        a == b,
    decreases a.len(),
{
    a.to_multiset_ensures();
    b.to_multiset_ensures();
    if a.len() == 0 {
        assert(b.len() == 0);
        assert(a =~= b);
    } else {
        assert(b.len() == a.len());
        let x = a.last();
        let y = b.last();
        if x != y {
            lemma_text_lt_total(x, y);
            if text_lt(x, y) {
                assert(b.contains(y));
                assert(a.to_multiset().count(y) > 0);
                assert(a.contains(y));
                let k = choose|k: int| 0 <= k < a.len() && a[k] == y;
                assert(k != a.len() - 1);
                assert(!text_lt(a[a.len() - 1], a[k]));
            } else {
                assert(a.contains(x));
                assert(b.to_multiset().count(x) > 0);
                assert(b.contains(x));
                let k = choose|k: int| 0 <= k < b.len() && b[k] == x;
                assert(k != b.len() - 1);
                assert(!text_lt(b[b.len() - 1], b[k]));
            }
        }
        let a0 = a.drop_last();
        let b0 = b.drop_last();
        assert(a0.push(x) =~= a);
        assert(b0.push(y) =~= b);
        a0.to_multiset_ensures();
        b0.to_multiset_ensures();
        assert(a0.to_multiset() =~= b0.to_multiset()) by {
            assert forall|t: Seq<char>| a0.to_multiset().count(t) == b0.to_multiset().count(t) by {
                assert(a0.push(x).to_multiset().count(t) == b0.push(y).to_multiset().count(t));
            }
        }
        assert forall|p: int, q: int| 0 <= p < q < a0.len() implies !text_lt(#[trigger] a0[q], #[trigger] a0[p]) by {
            assert(a0[p] == a[p] && a0[q] == a[q]);
        }
        assert forall|p: int, q: int| 0 <= p < q < b0.len() implies !text_lt(#[trigger] b0[q], #[trigger] b0[p]) by {
            assert(b0[p] == b[p] && b0[q] == b[q]);
        }
        lemma_sorted_unique(a0, b0);
    }
}

/// Sorting gives one result for all arrangements of the same texts: two
/// sequences that hold the same texts equally often sort alike (so a row
/// key does not depend on the order in which its key fields come).
pub proof fn law_sort_same_texts(s: Seq<Seq<char>>, t: Seq<Seq<char>>)
    requires
        s.to_multiset() =~= t.to_multiset(),
    ensures
        sort_texts(s) == sort_texts(t),
{
    law_sort_texts(s);
    law_sort_texts(t);
    lemma_sorted_unique(sort_texts(s), sort_texts(t));
}

} // verus!
