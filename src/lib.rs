//! Builds the parent/child tree of a system's processes and renders it as an
//! indented text tree.

pub mod cli;
pub mod order;
pub mod process;
pub mod render;
pub mod status;
pub mod tree;

use vstd::prelude::*;
use crate::cli::Config;
use crate::process::ProcessNode;
use crate::render::{lines_view, render_lines, render_tree};
use crate::status::{parse_pid, pid_of, text_chars};
use crate::tree::{
    assemble, build_process_tree, has_record, parents_present, records_view, tree_view,
    TreeError,
};

verus! {

broadcast use vstd::std_specs::hash::group_hash_axioms;

/// The pid the tree is drawn from.
pub const ROOT_PID: i32 = 1;

/// The usage text, one line per entry.
pub open spec fn help_lines() -> Seq<Seq<char>> {
    seq![
        "Usage: rpstree [OPTION]"@,
        "Show the process tree of the system"@,
        ""@,
        "Options:"@,
        "  -p, --pid           Show PID of the process"@,
        "  -n, --numeric-sort  Sort processes by PID"@,
        "  -h, --help          Display this help and exit"@,
        "  -v, --version       Output version information and exit"@,
    ]
}

/// The version line.
pub open spec fn version_lines() -> Seq<Seq<char>> {
    seq!["rpstree 0.1.0"@]
}

/// The usage text.
pub fn help_text() -> (r: Vec<String>)
    ensures
        lines_view(r@) == help_lines(),
{
    let mut r: Vec<String> = Vec::new();
    r.push(String::from_str("Usage: rpstree [OPTION]"));
    r.push(String::from_str("Show the process tree of the system"));
    r.push(String::from_str(""));
    r.push(String::from_str("Options:"));
    r.push(String::from_str("  -p, --pid           Show PID of the process"));
    r.push(String::from_str("  -n, --numeric-sort  Sort processes by PID"));
    r.push(String::from_str("  -h, --help          Display this help and exit"));
    r.push(String::from_str("  -v, --version       Output version information and exit"));
    assert(lines_view(r@) =~= help_lines());
    r
}

/// The version line.
pub fn version_text() -> (r: Vec<String>)
    ensures
        lines_view(r@) == version_lines(),
{
    let mut r: Vec<String> = Vec::new();
    r.push(String::from_str("rpstree 0.1.0"));
    assert(lines_view(r@) =~= version_lines());
    r
}

/// Whether pids are shown, and whether children are sorted, in a run mode.
pub open spec fn shows_pid(config: Config) -> bool {
    match config {
        Config::ProcessTree { pid_visiblity, .. } => pid_visiblity,
        _ => false,
    }
}

pub open spec fn sorts_children(config: Config) -> bool {
    match config {
        Config::ProcessTree { numeric_sort, .. } => numeric_sort,
        _ => false,
    }
}

/// The lines a run in mode `config` prints over the records `records`: the
/// usage text, the version line, or the tree assembled from the records and
/// drawn from pid 1. Fails, for the tree modes, when a record names a parent
/// that no record has.
pub fn run(config: Config, records: Vec<ProcessNode>) -> (r: Result<Vec<String>, TreeError>)
    ensures
        config is Help ==> r is Ok && lines_view(r->Ok_0@) == help_lines(),
        config is Version ==> r is Ok && lines_view(r->Ok_0@) == version_lines(),
        !(config is Help) && !(config is Version) ==> {
            let v = records_view(records@);
            match r {
                Ok(lines) => parents_present(v) && lines_view(lines@) == render_lines(
                    assemble(v),
                    ROOT_PID,
                    true,
                    Seq::empty(),
                    true,
                    shows_pid(config),
                    sorts_children(config),
                    assemble(v).dom().len(),
                ),
                Err(TreeError::DanglingParent { pid, ppid }) => {
                    &&& !parents_present(v)
                    &&& ppid != 0
                    &&& !has_record(v, ppid)
                    &&& exists|i: int|
                        0 <= i < v.len() && (#[trigger] v[i]).pid == pid && v[i].ppid == ppid
                },
            }
        },
{
    match config {
        Config::Help => Ok(help_text()),
        Config::Version => Ok(version_text()),
        _ => {
            let (show_pid, numeric_sort) = match config {
                Config::ProcessTree { numeric_sort, pid_visiblity } => (pid_visiblity, numeric_sort),
                _ => (false, false),
            };
            let tree = build_process_tree(records)?;
            assert(tree_view(tree@).dom() =~= tree@.dom());
            Ok(render_tree(&tree, ROOT_PID, show_pid, numeric_sort))
        },
    }
}

/// The pid that a directory entry of the process-information source stands
/// for: its name when that is a pid, else nothing.
pub fn entry_pid(name: &str) -> (r: Option<i32>)
    ensures
        r == pid_of(name@),
{
    let v = text_chars(name);
    parse_pid(&v)
}

} // verus!
