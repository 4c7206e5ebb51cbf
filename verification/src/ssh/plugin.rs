//! What a table's command needs before and after it runs on the host.

use vstd::prelude::*;

use crate::common::search::{contains_text, find_first};
use crate::common::text::{chars_of, push_all, push_str, string_from_chars};

verus! {

/// A table: the command to run and the parser of its output.
pub struct TableSpec {
    pub command_name: String,
    pub command_line: String,
    pub parser_name: String,
    pub parser_bin: String,
}

/// The command name with each `/` replaced by `_`.
pub open spec fn safe_name(s: Seq<char>) -> Seq<char> {
    s.map_values(|c: char| if c == '/' { '_' } else { c })
}

/// The name of the file that keeps a table's counters:
/// `ssh_<parser>_<command>.json`, with `/` in the command replaced by `_`.
pub open spec fn counter_file_name(t: TableSpec) -> Seq<char> {
    "ssh_"@ + t.parser_name@ + "_"@ + safe_name(t.command_name@) + ".json"@
}

/// The name of the file that keeps a table's counters (see
/// `counter_file_name`); it lies in the cache directory.
pub fn counter_db_name(t: &TableSpec) -> (r: String)
    ensures
        r@ == counter_file_name(*t),
{
    let cs = chars_of(t.command_name.as_str());
    let mut safe: Vec<char> = Vec::new();
    let mut i: usize = 0;
    while i < cs.len()
        invariant
            i <= cs@.len(),
            safe@ == safe_name(cs@.take(i as int)),
        decreases cs.len() - i,
    {
        safe.push(if cs[i] == '/' { '_' } else { cs[i] });
        proof {
            assert(safe@ =~= safe_name(cs@.take(i + 1)));
        }
        i = i + 1;
    }
    proof {
        assert(cs@.take(i as int) =~= cs@);
    }
    let mut out: Vec<char> = Vec::new();
    push_str(&mut out, "ssh_");
    push_str(&mut out, t.parser_name.as_str());
    push_str(&mut out, "_");
    push_all(&mut out, safe.as_slice());
    push_str(&mut out, ".json");
    string_from_chars(out.as_slice())
}

/// A command that needs sudo is skipped (with a warning) unless sudo is
/// allowed.
pub open spec fn skips_for_sudo(command_line: Seq<char>, allow_sudo: bool) -> bool {
    contains_text(command_line, "sudo "@) && !allow_sudo
}

/// Whether a table's command is skipped for needing sudo (see
/// `skips_for_sudo`).
pub fn sudo_skip(t: &TableSpec, allow_sudo: bool) -> (r: bool)
    ensures
        r == skips_for_sudo(t.command_line@, allow_sudo),
{
    let cs = chars_of(t.command_line.as_str());
    let pat = chars_of("sudo ");
    let found = match find_first(cs.as_slice(), pat.as_slice()) {
        Some(_) => true,
        None => false,
    };
    found && !allow_sudo
}

/// A command that did not exit with status zero.
pub struct CommandFailed {
    pub exit_status: i32,
    pub stderr: String,
}

/// A command succeeded when it exited with status zero; else its status
/// and error output are the table's error.
pub fn check_exit(exit_status: i32, stderr: String) -> (r: Result<(), CommandFailed>)
    ensures
        r is Ok <==> exit_status == 0,
        r matches Err(e) ==> e.exit_status == exit_status && e.stderr == stderr,
{
    if exit_status != 0 {
        Err(CommandFailed { exit_status, stderr })
    } else {
        Ok(())
    }
}

} // verus!
