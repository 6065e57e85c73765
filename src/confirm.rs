use vstd::prelude::*;

use crate::output::{clash_views, EntryInfo};
use crate::{format_path, formatted_path};

verus! {

/// What `str::trim` gives: the text without white space at either end.
pub uninterp spec fn trimmed(s: Seq<char>) -> Seq<char>;

/// What `str::to_lowercase` gives: the text in lower case.
pub uninterp spec fn lowercased(s: Seq<char>) -> Seq<char>;

/// Relies on `str::trim`: the text without leading and trailing white space.
#[verifier::external_body]
fn trim(s: &str) -> (r: String)
    ensures
        r@ == trimmed(s@),
{
    s.trim().to_string()
}

/// Relies on `str::to_lowercase`: the lower case form of the text.
#[verifier::external_body]
fn to_lowercase(s: &str) -> (r: String)
    ensures
        r@ == lowercased(s@),
{
    s.to_lowercase()
}

/// An answer line says yes when it is an empty line, or when its trimmed, lower-cased
/// form (`folded`) starts with `y`.
pub open spec fn says_yes(line: Seq<char>, folded: Seq<char>) -> bool {
    line == seq!['\n'] || (folded.len() > 0 && folded[0] == 'y')
}

/// Decides an answer line from the line and its trimmed, lower-cased form.
pub fn answer_says_yes(line: &str, folded: &str) -> (r: bool)
    ensures
        r == says_yes(line@, folded@),
{
    let is_empty_line = line.unicode_len() == 1 && line.get_char(0) == '\n';
    proof {
        if line@.len() == 1 && line@[0] == '\n' {
            assert(line@ == seq!['\n']);
        }
    }
    is_empty_line || (folded.unicode_len() > 0 && folded.get_char(0) == 'y')
}

/// Whether an answer line, as read with its line end, confirms.
pub fn is_affirmative(line: &str) -> (r: bool)
    ensures
        r == says_yes(line@, lowercased(trimmed(line@))),
{
    let t = trim(line);
    let folded = to_lowercase(t.as_str());
    answer_says_yes(line, folded.as_str())
}

/// The word for the kind of what stands at a path.
pub open spec fn kind_word(entry: EntryInfo) -> Seq<char> {
    if entry.is_dir {
        "directory"@
    } else {
        "file"@
    }
}

/// The lines that list paths, each ending in a line break.
pub open spec fn listed_paths(v: Seq<(Seq<char>, EntryInfo)>) -> Seq<char>
    decreases v.len(),
{
    if v.len() == 0 {
        Seq::empty()
    } else {
        listed_paths(v.drop_last()) + formatted_path(v.last().0, v.last().1) + "\n"@
    }
}


/// The question asked before what stands at the listed paths is overwritten.
pub open spec fn overwrite_question(v: Seq<(Seq<char>, EntryInfo)>) -> Option<Seq<char>> {
    if v.len() == 0 {
        None
    } else if v.len() == 1 {
        Some("Overwrite "@ + kind_word(v[0].1) + " \""@ + v[0].0 + "\"? [Y/n]"@)
    } else {
        Some("For the following...\n"@ + listed_paths(v) + "...overwrite all? [Y/n]"@)
    }
}

pub fn kind_text(entry: EntryInfo) -> (r: &'static str)
    ensures
        r@ == kind_word(entry),
{
    if entry.is_dir {
        "directory"
    } else {
        "file"
    }
}

/// The list of paths, one per line.
pub fn list_paths(v: &Vec<(String, EntryInfo)>) -> (r: String)
    ensures
        r@ == listed_paths(clash_views(v@)),
{
    let mut r = String::new();
    let mut i: usize = 0;
    while i < v.len()
        invariant
            i <= v@.len(),
            r@ == listed_paths(clash_views(v@).subrange(0, i as int)),
        decreases v@.len() - i,
    {
        let line = format_path(v[i].0.as_str(), v[i].1);
        r.append(line.as_str());
        r.append("\n");
        proof {
            let c = clash_views(v@);
            assert(c.subrange(0, i + 1).drop_last() == c.subrange(0, i as int));
        }
        i = i + 1;
    }
    proof {
        assert(clash_views(v@).subrange(0, v@.len() as int) == clash_views(v@));
    }
    r
}

/// The question to ask before what stands at the listed paths is overwritten; none
/// when the list is empty.
pub fn ask_to_overwrite(clashing: &Vec<(String, EntryInfo)>) -> (r: Option<String>)
    ensures
        crate::paths::view_opt(r) == overwrite_question(clash_views(clashing@)),
{
    if clashing.len() == 0 {
        return None;
    }
    if clashing.len() == 1 {
        let mut q = String::from_str("Overwrite ");
        q.append(kind_text(clashing[0].1));
        q.append(" \"");
        q.append(clashing[0].0.as_str());
        q.append("\"? [Y/n]");
        return Some(q);
    }
    let mut q = String::from_str("For the following...\n");
    let listed = list_paths(clashing);
    q.append(listed.as_str());
    q.append("...overwrite all? [Y/n]");
    Some(q)
}

} // verus!
