//! Safer file utilities: `new`, `nef`, `del`, `rem`, `mov`, `nam` and `ren` decide, from
//! their arguments and what the file system shows, what to ask, what to change and what to
//! report. Each decision is a verified function that returns the steps to take
//! ([`output::Step`]); carrying them out is left to the caller.
//!
//! - `create`: `new` and `nef`, with the sorting of requested paths into files and
//!   directories and the detection of clashes.
//! - `remove`: `del` and `rem`.
//! - `rename`: `mov`, `nam` and `ren`.
//! - `confirm`: the questions asked and how an answer is read.
//! - `model` and `laws`: a model of the file system and what `new` does to it.
//! - `paths`, `sorted`, `output`: paths, ordered path lists, and output lines and steps.

use vstd::prelude::*;

pub mod confirm;
pub mod create;
pub mod laws;
pub mod model;
pub mod output;
pub mod remove;
pub mod rename;
pub mod paths;
pub mod sorted;

pub use output::{Color, EntryInfo, Span, Step};

verus! {

/// Exit code of a command that did what was asked.
pub const SUCCESS: i32 = 0;

/// Exit code of a command that was refused, declined or failed.
pub const FAILURE: i32 = 1;

/// The options that every command takes.
#[derive(Debug, Clone, Copy, PartialEq, Eq, Structural)]
pub struct StandardOptions {
    /// Never ask for confirmation.
    pub force: bool,
    /// Do not print success messages, still print errors.
    pub silent: bool,
    /// Ask for confirmation and print messages, but change nothing.
    pub dry_run: bool,
    /// Always color output.
    pub color: bool,
    /// Never color output.
    pub no_color: bool,
}

/// Whether the text holds a space.
pub open spec fn has_space_spec(p: Seq<char>) -> bool {
    p.contains(' ')
}

/// A path as it is shown: in double quotes when it holds a space.
pub open spec fn quoted_if_spaced(p: Seq<char>) -> Seq<char> {
    if has_space_spec(p) {
        "\""@ + p + "\""@
    } else {
        p
    }
}

/// A path as a directory: with a separator at its end.
pub open spec fn as_directory(p: Seq<char>) -> Seq<char> {
    if paths::ends_with_separator_spec(p) {
        p
    } else {
        p.push(paths::SEPARATOR)
    }
}

/// A path shown with the kind of what stands there: directories end in a separator,
/// other paths are quoted when they hold a space.
pub open spec fn formatted_path(p: Seq<char>, entry: EntryInfo) -> Seq<char> {
    if entry.is_dir {
        as_directory(p)
    } else {
        quoted_if_spaced(p)
    }
}

/// Whether the text holds a space.
pub fn has_space(p: &str) -> (r: bool)
    ensures
        r == has_space_spec(p@),
{
    let n = p.unicode_len();
    let mut i: usize = 0;
    while i < n
        invariant
            n == p@.len(),
            i <= n,
            forall|k: int| 0 <= k < i ==> p@[k] != ' ',
        decreases n - i,
    {
        if p.get_char(i) == ' ' {
            return true;
        }
        i = i + 1;
    }
    false
}

/// The path as it is shown: in double quotes when it holds a space.
pub fn path_string(path: &str) -> (r: String)
    ensures
        r@ == quoted_if_spaced(path@),
{
    if has_space(path) {
        let mut r = String::from_str("\"");
        r.append(path);
        r.append("\"");
        r
    } else {
        path.to_string()
    }
}

/// The path with a separator at its end, if it has none yet.
pub fn directory_path(path: &str) -> (r: String)
    ensures
        r@ == as_directory(path@),
{
    let mut r = path.to_string();
    if !paths::ends_with_separator(path) {
        r.append("/");
        proof {
            reveal_strlit("/");
        }
    }
    r
}

/// The path shown with the kind of what stands there.
pub fn format_path(path: &str, entry: EntryInfo) -> (r: String)
    ensures
        r@ == formatted_path(path@, entry),
{
    if entry.is_dir {
        directory_path(path)
    } else {
        path_string(path)
    }
}

} // verus!
