use vstd::prelude::*;

use crate::paths::{ends_with_separator, ends_with_separator_spec, strip_prefix, stripped_of, trim_separators, trim_trailing_separators, view_opt};
use crate::{directory_path, has_space, has_space_spec, path_string, quoted_if_spaced, as_directory};

verus! {

/// What a metadata lookup that does not follow symbolic links found at a path.
#[derive(Debug, Clone, Copy, PartialEq, Eq, Structural)]
pub struct EntryInfo {
    /// A directory stands there (not a link to one).
    pub is_dir: bool,
    /// The size in bytes of what stands there.
    pub len: u64,
}

/// The color a piece of output is printed in.
#[derive(Debug, Clone, Copy, PartialEq, Eq, Structural)]
pub enum Color {
    Plain,
    BrightGreen,
    BrightRed,
}

/// A piece of a line of output, with its color.
#[derive(Debug, Clone, PartialEq, Eq)]
pub struct Span {
    pub text: String,
    pub color: Color,
}

impl View for Span {
    type V = (Seq<char>, Color);

    open spec fn view(&self) -> (Seq<char>, Color) {
        (self.text@, self.color)
    }
}

/// One thing a command does, in the order it does them.
#[derive(Debug, Clone, PartialEq, Eq)]
pub enum Step {
    /// Print a line on standard output.
    Say(Vec<Span>),
    /// Print a line on standard error.
    Complain(String),
    /// Create a directory and every missing ancestor of it.
    CreateDirAll(String),
    /// Create the missing ancestors of a file, then write the file: the text given,
    /// or nothing.
    WriteFile(String, Option<String>),
    /// Remove a file or a symbolic link.
    RemoveFile(String),
    /// Remove a directory and all it holds.
    RemoveDirAll(String),
    /// Move a file or directory to a new path.
    Rename(String, String),
}

/// The view of a step: its strings as character sequences.
pub enum StepView {
    Say(Seq<(Seq<char>, Color)>),
    Complain(Seq<char>),
    CreateDirAll(Seq<char>),
    WriteFile(Seq<char>, Option<Seq<char>>),
    RemoveFile(Seq<char>),
    RemoveDirAll(Seq<char>),
    Rename(Seq<char>, Seq<char>),
}

impl View for Step {
    type V = StepView;

    open spec fn view(&self) -> StepView {
        match self {
            Step::Say(spans) => StepView::Say(spans_view(spans@)),
            Step::Complain(t) => StepView::Complain(t@),
            Step::CreateDirAll(p) => StepView::CreateDirAll(p@),
            Step::WriteFile(p, c) => StepView::WriteFile(p@, crate::paths::view_opt(*c)),
            Step::RemoveFile(p) => StepView::RemoveFile(p@),
            Step::RemoveDirAll(p) => StepView::RemoveDirAll(p@),
            Step::Rename(a, b) => StepView::Rename(a@, b@),
        }
    }
}

pub open spec fn steps_view(v: Seq<Step>) -> Seq<StepView> {
    v.map_values(|s: Step| s@)
}

pub open spec fn spans_view(v: Seq<Span>) -> Seq<(Seq<char>, Color)> {
    v.map_values(|s: Span| s@)
}

/// Whether the step changes the file system.
pub open spec fn is_mutation(s: StepView) -> bool {
    !(s is Say || s is Complain)
}

/// None of the steps changes the file system.
pub open spec fn no_mutation(v: Seq<StepView>) -> bool {
    forall|i: int| 0 <= i < v.len() ==> !is_mutation(#[trigger] v[i])
}

/// A piece of output.
pub fn span(text: String, color: Color) -> (r: Span)
    ensures
        r@ == (text@, color),
{
    Span { text, color }
}

pub open spec fn clash_views(v: Seq<(String, EntryInfo)>) -> Seq<(Seq<char>, EntryInfo)> {
    v.map_values(|c: (String, EntryInfo)| (c.0@, c.1))
}

/// What the list records for the path `p`: the first entry for it, if any.
pub open spec fn lookup_spec(e: Seq<(Seq<char>, EntryInfo)>, p: Seq<char>) -> Option<EntryInfo>
    decreases e.len(),
{
    if e.len() == 0 {
        None
    } else if e[0].0 == p {
        Some(e[0].1)
    } else {
        lookup_spec(e.drop_first(), p)
    }
}

/// What the list records for the path: the first entry for it, if any.
pub fn lookup(e: &Vec<(String, EntryInfo)>, p: &str) -> (r: Option<EntryInfo>)
    ensures
        r == lookup_spec(clash_views(e@), p@),
{
    let ghost ev = clash_views(e@);
    let mut i: usize = 0;
    assert(ev.subrange(0, ev.len() as int) == ev);
    while i < e.len()
        invariant
            i <= ev.len(),
            ev == clash_views(e@),
            lookup_spec(ev, p@) == lookup_spec(ev.subrange(i as int, ev.len() as int), p@),
        decreases ev.len() - i,
    {
        let ghost rest = ev.subrange(i as int, ev.len() as int);
        if crate::sorted::same_text(e[i].0.as_str(), p) {
            return Some(e[i].1);
        }
        assert(rest.drop_first() == ev.subrange(i + 1, ev.len() as int));
        i = i + 1;
    }
    None
}

/// The rest of `path` after `prefix`, shown as a directory when `path` ends in a separator;
/// none when `prefix` is not a prefix of `path`.
pub open spec fn stripped_shown(path: Seq<char>, prefix: Seq<char>) -> Option<Seq<char>> {
    match stripped_of(path, prefix) {
        Some(rest) => Some(
            if ends_with_separator_spec(path) {
                as_directory(rest)
            } else {
                rest
            },
        ),
        None => None,
    }
}

/// The rest of `path` after `prefix`, shown as a directory when `path` ends in a separator.
pub fn strip_path_prefix(path: &str, prefix: &str) -> (r: Option<String>)
    ensures
        view_opt(r) == stripped_shown(path@, prefix@),
{
    match strip_prefix(path, prefix) {
        Some(rest) => {
            if ends_with_separator(path) {
                Some(directory_path(rest.as_str()))
            } else {
                Some(rest)
            }
        },
        None => None,
    }
}

/// A newly made path as it is shown, before quoting: where an ancestor of it already
/// existed, that part is plain and the rest is in `color`; otherwise the whole path is in
/// `color`.
pub open spec fn colored_inner(path: Seq<char>, ancestor: Option<Seq<char>>, color: Color) -> Seq<
    (Seq<char>, Color),
> {
    let whole = seq![(quoted_if_spaced(path), color)];
    match ancestor {
        Some(a) => match stripped_shown(path, a) {
            Some(rest) => seq![(trim_separators(a).push('/'), Color::Plain), (rest, color)],
            None => whole,
        },
        None => whole,
    }
}

/// A newly made path as it is shown: a path that holds a space is put between quotes in
/// `color`.
pub open spec fn colored_new(path: Seq<char>, ancestor: Option<Seq<char>>, color: Color) -> Seq<
    (Seq<char>, Color),
> {
    let inner = colored_inner(path, ancestor, color);
    if has_space_spec(path) {
        seq![("\""@, color)] + inner + seq![("\""@, color)]
    } else {
        inner
    }
}

/// A newly made path as it is shown, with the part that already existed plain.
pub fn color_new(path: &str, existing_ancestor: &Option<String>, color: Color) -> (r: Vec<Span>)
    ensures
        spans_view(r@) == colored_new(path@, view_opt(*existing_ancestor), color),
{
    let mut inner: Vec<Span> = Vec::new();
    let mut split = false;
    if let Some(a) = existing_ancestor {
        if let Some(rest) = strip_path_prefix(path, a.as_str()) {
            let mut head = trim_trailing_separators(a.as_str());
            head.append("/");
            proof {
                reveal_strlit("/");
            }
            let ghost hv = head@;
            assert(hv =~= trim_separators(a@).push('/'));
            inner.push(span(head, Color::Plain));
            inner.push(span(rest, color));
            split = true;
            assert(spans_view(inner@) =~= colored_inner(path@, view_opt(*existing_ancestor), color));
        }
    }
    if !split {
        inner.push(span(path_string(path), color));
        assert(spans_view(inner@) =~= colored_inner(path@, view_opt(*existing_ancestor), color));
    }
    assert(spans_view(inner@) =~= colored_inner(path@, view_opt(*existing_ancestor), color));
    if has_space(path) {
        let mut r: Vec<Span> = Vec::new();
        r.push(span(String::from_str("\""), color));
        let ghost iv = spans_view(inner@);
        r.append(&mut inner);
        r.push(span(String::from_str("\""), color));
        assert(spans_view(r@) =~= seq![("\""@, color)] + iv + seq![("\""@, color)]);
        r
    } else {
        inner
    }
}

/// Adds steps at the end of a list.
pub fn extend_steps(steps: &mut Vec<Step>, more: Vec<Step>)
    ensures
        steps_view(final(steps)@) == steps_view(old(steps)@) + steps_view(more@),
{
    let mut more = more;
    let ghost a = old(steps)@;
    let ghost b = more@;
    steps.append(&mut more);
    assert(steps_view(steps@) =~= steps_view(a) + steps_view(b));
}

/// What the file system showed at the paths a command asked about.
#[derive(Debug, Clone)]
pub struct Snapshot {
    /// What a lookup that does not follow symbolic links found at each path where it found
    /// something.
    pub entries: Vec<(String, EntryInfo)>,
    /// The canonical form of each path that could be made canonical.
    pub canonical: Vec<(String, String)>,
    /// Why a path could not be looked up, as the system says it.
    pub errors: Vec<(String, String)>,
}

pub open spec fn pair_views(v: Seq<(String, String)>) -> Seq<(Seq<char>, Seq<char>)> {
    v.map_values(|c: (String, String)| (c.0@, c.1@))
}

/// What the list pairs with the path `p`: the first pair for it, if any.
pub open spec fn pair_lookup(v: Seq<(Seq<char>, Seq<char>)>, p: Seq<char>) -> Option<Seq<char>>
    decreases v.len(),
{
    if v.len() == 0 {
        None
    } else if v[0].0 == p {
        Some(v[0].1)
    } else {
        pair_lookup(v.drop_first(), p)
    }
}

/// What the list pairs with the path: the first pair for it, if any.
pub fn find_pair(v: &Vec<(String, String)>, p: &str) -> (r: Option<String>)
    ensures
        view_opt(r) == pair_lookup(pair_views(v@), p@),
{
    let ghost pv = pair_views(v@);
    let mut i: usize = 0;
    assert(pv.subrange(0, pv.len() as int) == pv);
    while i < v.len()
        invariant
            i <= pv.len(),
            pv == pair_views(v@),
            pair_lookup(pv, p@) == pair_lookup(pv.subrange(i as int, pv.len() as int), p@),
        decreases pv.len() - i,
    {
        let ghost rest = pv.subrange(i as int, pv.len() as int);
        if crate::sorted::same_text(v[i].0.as_str(), p) {
            return Some(v[i].1.clone());
        }
        assert(rest.drop_first() == pv.subrange(i + 1, pv.len() as int));
        i = i + 1;
    }
    None
}

impl Snapshot {
    pub open spec fn entry_spec(&self, p: Seq<char>) -> Option<EntryInfo> {
        lookup_spec(clash_views(self.entries@), p)
    }

    pub open spec fn canonical_spec(&self, p: Seq<char>) -> Option<Seq<char>> {
        pair_lookup(pair_views(self.canonical@), p)
    }

    /// Why the path could not be looked up; empty when nothing is recorded.
    pub open spec fn error_spec(&self, p: Seq<char>) -> Seq<char> {
        match pair_lookup(pair_views(self.errors@), p) {
            Some(e) => e,
            None => Seq::empty(),
        }
    }

    /// What stands at the path, if anything.
    pub fn entry(&self, p: &str) -> (r: Option<EntryInfo>)
        ensures
            r == self.entry_spec(p@),
    {
        lookup(&self.entries, p)
    }

    /// The canonical form of the path, if it has one.
    pub fn canonical_of(&self, p: &str) -> (r: Option<String>)
        ensures
            view_opt(r) == self.canonical_spec(p@),
    {
        find_pair(&self.canonical, p)
    }

    /// Why the path could not be looked up; empty when nothing is recorded.
    pub fn error_of(&self, p: &str) -> (r: String)
        ensures
            r@ == self.error_spec(p@),
    {
        match find_pair(&self.errors, p) {
            Some(e) => e,
            None => String::new(),
        }
    }
}

} // verus!
