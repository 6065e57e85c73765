use vstd::prelude::*;

use crate::confirm::{ask_to_overwrite, overwrite_question};
use crate::create::{announce, create_directory, create_parent_directory, parent_creation, perform, say, Outcome};
use crate::output::{
    clash_views, color_new, colored_new, extend_steps, no_mutation, span, spans_view,
    steps_view, Color, EntryInfo, Snapshot, Span, Step, StepView,
};
use crate::paths::{
    ancestor_at, ancestors, ends_with_separator, ends_with_separator_spec, file_name,
    file_name_of, join, joined, parent, parent_of, view_opt,
};
use crate::sorted::views;
use crate::{as_directory, directory_path, path_string, quoted_if_spaced, StandardOptions, FAILURE, SUCCESS};

verus! {

pub open spec fn digit_char(d: nat) -> char {
    if d == 0 {
        '0'
    } else if d == 1 {
        '1'
    } else if d == 2 {
        '2'
    } else if d == 3 {
        '3'
    } else if d == 4 {
        '4'
    } else if d == 5 {
        '5'
    } else if d == 6 {
        '6'
    } else if d == 7 {
        '7'
    } else if d == 8 {
        '8'
    } else {
        '9'
    }
}

/// The decimal digits of `n`.
pub open spec fn decimal_spec(n: nat) -> Seq<char>
    decreases n,
{
    if n < 10 {
        seq![digit_char(n)]
    } else {
        decimal_spec(n / 10).push(digit_char(n % 10))
    }
}

fn digit_text(d: usize) -> (r: &'static str)
    requires
        d < 10,
    ensures
        r@ == seq![digit_char(d as nat)],
{
    let r = if d == 0 {
        "0"
    } else if d == 1 {
        "1"
    } else if d == 2 {
        "2"
    } else if d == 3 {
        "3"
    } else if d == 4 {
        "4"
    } else if d == 5 {
        "5"
    } else if d == 6 {
        "6"
    } else if d == 7 {
        "7"
    } else if d == 8 {
        "8"
    } else {
        "9"
    };
    proof {
        reveal_strlit("0");
        reveal_strlit("1");
        reveal_strlit("2");
        reveal_strlit("3");
        reveal_strlit("4");
        reveal_strlit("5");
        reveal_strlit("6");
        reveal_strlit("7");
        reveal_strlit("8");
        reveal_strlit("9");
    }
    assert(r@ =~= seq![digit_char(d as nat)]);
    r
}

/// The number written in decimal digits.
pub fn decimal(n: usize) -> (r: String)
    ensures
        r@ == decimal_spec(n as nat),
    decreases n,
{
    if n < 10 {
        digit_text(n).to_string()
    } else {
        let mut r = decimal(n / 10);
        r.append(digit_text(n % 10));
        r
    }
}

/// Whether the snapshot records something at the `n`-th ancestor of `p`.
pub open spec fn exists_at(p: Seq<char>, snap: Snapshot, n: nat) -> bool {
    match ancestor_at(p, n) {
        Some(a) => snap.entry_spec(a) is Some,
        None => false,
    }
}

/// The `n`-th ancestor of `p` is the nearest one, from the `from`-th on, where something
/// exists.
pub open spec fn is_nearest_existing(p: Seq<char>, snap: Snapshot, from: nat, n: nat) -> bool {
    &&& from <= n
    &&& exists_at(p, snap, n)
    &&& forall|k: nat| from <= k < n ==> !#[trigger] exists_at(p, snap, k)
}

/// The nearest ancestor of `p`, from the `from`-th on (the path itself is the 0-th), where
/// something exists; none when color is off.
pub open spec fn nearest_existing(options: StandardOptions, p: Seq<char>, snap: Snapshot, from: nat) -> Option<
    Seq<char>,
> {
    if options.no_color {
        None
    } else if exists|n: nat| is_nearest_existing(p, snap, from, n) {
        ancestor_at(p, choose|n: nat| is_nearest_existing(p, snap, from, n))
    } else {
        None
    }
}

fn nearest_existing_from(options: &StandardOptions, path: &str, snap: &Snapshot, from: usize) -> (r: Option<String>)
    ensures
        view_opt(r) == nearest_existing(*options, path@, *snap, from as nat),
{
    if options.no_color {
        return None;
    }
    let chain = ancestors(path);
    let mut i: usize = from;
    while i < chain.len()
        invariant
            from <= i,
            !options.no_color,
            chain@.len() >= 1,
            forall|n: nat| n < chain@.len() ==> ancestor_at(path@, n) == Some(#[trigger] chain@[n as int]@),
            forall|n: nat| n >= chain@.len() ==> #[trigger] ancestor_at(path@, n) is None,
            forall|k: nat| from <= k < i ==> !#[trigger] exists_at(path@, *snap, k),
        decreases chain@.len() - i,
    {
        proof {
            assert(ancestor_at(path@, i as nat) == Some(chain@[i as int]@));
        }
        if snap.entry(chain[i].as_str()).is_some() {
            proof {
                assert(exists_at(path@, *snap, i as nat));
                assert(is_nearest_existing(path@, *snap, from as nat, i as nat));
                let n = choose|n: nat| is_nearest_existing(path@, *snap, from as nat, n);
                if n < i {
                    assert(exists_at(path@, *snap, n));
                }
                assert(n == i);
            }
            let found = chain[i].clone();
            return Some(found);
        }
        i = i + 1;
    }
    proof {
        if exists|n: nat| is_nearest_existing(path@, *snap, from as nat, n) {
            let n = choose|n: nat| is_nearest_existing(path@, *snap, from as nat, n);
            if n >= chain@.len() {
                assert(ancestor_at(path@, n) is None);
            }
        }
    }
    None
}

/// The path itself, if something exists there, or else its nearest ancestor where
/// something exists; none when color is off.
pub fn find_existing_or_ancestor(options: &StandardOptions, path: &str, snap: &Snapshot) -> (r: Option<String>)
    ensures
        view_opt(r) == nearest_existing(*options, path@, *snap, 0),
{
    nearest_existing_from(options, path, snap, 0)
}

/// The nearest proper ancestor of the path where something exists; none when color is off.
pub fn find_existing_ancestor_directory(options: &StandardOptions, path: &str, snap: &Snapshot) -> (r: Option<String>)
    ensures
        view_opt(r) == nearest_existing(*options, path@, *snap, 1),
{
    nearest_existing_from(options, path, snap, 1)
}

/// The two commands that give one file or directory a new path: `nam` reports in plain
/// words, `ren` creates the parent directory first and reports in color.
#[derive(Debug, Clone, Copy, PartialEq, Eq, Structural)]
pub enum Renamer {
    Nam,
    Ren,
}

/// The question asked before what stands at `p` is replaced.
pub open spec fn replace_question(p: Seq<char>, m: EntryInfo) -> Seq<char> {
    (if m.is_dir {
        "Directory"@
    } else {
        "File"@
    }) + " \""@ + p + "\" already exists, replace it? [Y/n]"@
}

/// The note printed when the source already is where it should go.
pub open spec fn located_note(src: Seq<char>, dst: Seq<char>) -> Seq<char> {
    "\""@ + src + "\" is already located at \""@ + dst + "\""@
}

/// The complaint about a source that cannot be found.
pub open spec fn missing_source(p: Seq<char>, snap: Snapshot) -> Seq<char> {
    "Error for \""@ + p + "\": "@ + snap.error_spec(p)
}

/// The report of a move, tagged `tag`: the source in red, the new path as a new path.
pub open spec fn moved_line(tag: Seq<char>, src: Seq<char>, dst: Seq<char>, ancestor: Option<Seq<char>>) -> StepView {
    StepView::Say(
        seq![
            (tag, Color::BrightGreen),
            (" "@, Color::Plain),
            (quoted_if_spaced(src), Color::BrightRed),
            (" -> "@, Color::Plain),
        ] + colored_new(dst, ancestor, Color::BrightGreen),
    )
}

/// The report of `nam`.
pub open spec fn named_line(src: Seq<char>, dst: Seq<char>) -> StepView {
    say("\""@ + src + "\" -> \""@ + dst + "\""@, Color::Plain)
}

/// Both paths have a canonical form, and it is the same.
pub open spec fn same_place(snap: Snapshot, a: Seq<char>, b: Seq<char>) -> bool {
    snap.canonical_spec(a) is Some && snap.canonical_spec(a) == snap.canonical_spec(b)
}

/// The question asked before the destination is replaced; none when forced or when nothing
/// stands there.
pub open spec fn destination_question(options: StandardOptions, dst: Seq<char>, snap: Snapshot) -> Option<Seq<char>> {
    if options.force {
        None
    } else {
        match snap.entry_spec(dst) {
            Some(m) => Some(replace_question(dst, m)),
            None => None,
        }
    }
}

/// What `nam` or `ren` does once it may go on.
pub open spec fn rename_work(style: Renamer, options: StandardOptions, src: Seq<char>, dst: Seq<char>, snap: Snapshot) -> Seq<StepView> {
    match style {
        Renamer::Nam => perform(options, StepView::Rename(src, dst)) + announce(options, named_line(src, dst)),
        Renamer::Ren => parent_creation(options, dst) + perform(options, StepView::Rename(src, dst))
            + announce(options, moved_line("R"@, src, dst, nearest_existing(options, dst, snap, 1))),
    }
}

/// What `nam` or `ren` does: fail on a missing source, note a source that already is at
/// the destination, ask before replacing, then move.
pub open spec fn rename_outcome(
    style: Renamer,
    options: StandardOptions,
    src: Seq<char>,
    dst: Seq<char>,
    snap: Snapshot,
    confirmed: bool,
) -> (Option<Seq<char>>, Seq<StepView>, i32) {
    if snap.entry_spec(src) is None {
        (None, seq![StepView::Complain(missing_source(src, snap))], FAILURE)
    } else if same_place(snap, src, dst) {
        (None, announce(options, say(located_note(src, dst), Color::Plain)), SUCCESS)
    } else {
        let prompt = destination_question(options, dst, snap);
        if prompt is Some && !confirmed {
            (prompt, Seq::empty(), FAILURE)
        } else {
            (prompt, rename_work(style, options, src, dst, snap), SUCCESS)
        }
    }
}

fn complaint(text: String) -> (r: Vec<Step>)
    ensures
        steps_view(r@) == seq![StepView::Complain(text@)],
{
    let mut r: Vec<Step> = Vec::new();
    r.push(Step::Complain(text));
    assert(steps_view(r@) =~= seq![StepView::Complain(text@)]);
    r
}

fn plain_line(options: &StandardOptions, text: String) -> (r: Vec<Step>)
    ensures
        steps_view(r@) == announce(*options, say(text@, Color::Plain)),
{
    let mut r: Vec<Step> = Vec::new();
    if !options.silent {
        let mut line: Vec<Span> = Vec::new();
        line.push(span(text, Color::Plain));
        assert(spans_view(line@) =~= seq![(text@, Color::Plain)]);
        r.push(Step::Say(line));
    }
    assert(steps_view(r@) =~= announce(*options, say(text@, Color::Plain)));
    r
}

fn missing_source_text(p: &str, snap: &Snapshot) -> (r: String)
    ensures
        r@ == missing_source(p@, *snap),
{
    let mut c = String::from_str("Error for \"");
    c.append(p);
    c.append("\": ");
    let e = snap.error_of(p);
    c.append(e.as_str());
    c
}

fn located_text(src: &str, dst: &str) -> (r: String)
    ensures
        r@ == located_note(src@, dst@),
{
    let mut t = String::from_str("\"");
    t.append(src);
    t.append("\" is already located at \"");
    t.append(dst);
    t.append("\"");
    t
}

fn same_place_check(snap: &Snapshot, a: &str, b: &str) -> (r: bool)
    ensures
        r == same_place(*snap, a@, b@),
{
    match (snap.canonical_of(a), snap.canonical_of(b)) {
        (Some(x), Some(y)) => crate::sorted::same_text(x.as_str(), y.as_str()),
        _ => false,
    }
}

fn destination_prompt(options: &StandardOptions, dst: &str, snap: &Snapshot) -> (r: Option<String>)
    ensures
        view_opt(r) == destination_question(*options, dst@, *snap),
{
    if options.force {
        return None;
    }
    match snap.entry(dst) {
        Some(m) => {
            let mut q = String::from_str(if m.is_dir { "Directory" } else { "File" });
            q.append(" \"");
            q.append(dst);
            q.append("\" already exists, replace it? [Y/n]");
            Some(q)
        },
        None => None,
    }
}

fn moved_say(tag: &str, src: &str, dst: &str, ancestor: &Option<String>) -> (r: Step)
    ensures
        r@ == moved_line(tag@, src@, dst@, view_opt(*ancestor)),
{
    let mut line: Vec<Span> = Vec::new();
    line.push(span(tag.to_string(), Color::BrightGreen));
    line.push(span(String::from_str(" "), Color::Plain));
    line.push(span(path_string(src), Color::BrightRed));
    line.push(span(String::from_str(" -> "), Color::Plain));
    let ghost head = spans_view(line@);
    let mut rest = color_new(dst, ancestor, Color::BrightGreen);
    let ghost tail = spans_view(rest@);
    line.append(&mut rest);
    assert(spans_view(line@) =~= head + tail);
    assert(head =~= seq![
        (tag@, Color::BrightGreen),
        (" "@, Color::Plain),
        (quoted_if_spaced(src@), Color::BrightRed),
        (" -> "@, Color::Plain),
    ]);
    Step::Say(line)
}

/// Runs `nam` or `ren`: moves `source` to `destination`, given what the file system showed
/// and the answer to the question, if one is asked. A declined question leaves everything
/// as it was.
pub fn run_rename(
    style: Renamer,
    options: &StandardOptions,
    source: &str,
    destination: &str,
    snap: &Snapshot,
    confirmed: bool,
) -> (r: Outcome)
    ensures
        crate::create::outcome_view(r) == rename_outcome(style, *options, source@, destination@, *snap, confirmed),
        r.prompt is Some && !confirmed ==> r.code == FAILURE && no_mutation(steps_view(r.steps@)),
{
    if snap.entry(source).is_none() {
        return Outcome { prompt: None, steps: complaint(missing_source_text(source, snap)), code: FAILURE };
    }
    if same_place_check(snap, source, destination) {
        return Outcome { prompt: None, steps: plain_line(options, located_text(source, destination)), code: SUCCESS };
    }
    let prompt = destination_prompt(options, destination, snap);
    if prompt.is_some() && !confirmed {
        let r = Outcome { prompt, steps: Vec::new(), code: FAILURE };
        assert(steps_view(r.steps@) =~= Seq::empty());
        return r;
    }
    let mut steps: Vec<Step> = Vec::new();
    match style {
        Renamer::Nam => {
            if !options.dry_run {
                steps.push(Step::Rename(source.to_string(), destination.to_string()));
            }
            if !options.silent {
                let mut t = String::from_str("\"");
                t.append(source);
                t.append("\" -> \"");
                t.append(destination);
                t.append("\"");
                let mut line: Vec<Span> = Vec::new();
                line.push(span(t, Color::Plain));
                assert(spans_view(line@) =~= seq![("\""@ + source@ + "\" -> \""@ + destination@ + "\""@, Color::Plain)]);
                steps.push(Step::Say(line));
            }
            assert(steps_view(steps@) =~= rename_work(style, *options, source@, destination@, *snap));
        },
        Renamer::Ren => {
            let ancestor = find_existing_ancestor_directory(options, destination, snap);
            steps = create_parent_directory(options, destination);
            let mut more: Vec<Step> = Vec::new();
            if !options.dry_run {
                more.push(Step::Rename(source.to_string(), destination.to_string()));
            }
            if !options.silent {
                more.push(moved_say("R", source, destination, &ancestor));
            }
            assert(steps_view(more@) =~= perform(*options, StepView::Rename(source@, destination@))
                + announce(*options, moved_line("R"@, source@, destination@, nearest_existing(*options, destination@, *snap, 1))));
            extend_steps(&mut steps, more);
        },
    }
    Outcome { prompt, steps, code: SUCCESS }
}

/// The first source, from position `i` on, that has no canonical form.
pub open spec fn first_unresolved(srcs: Seq<Seq<char>>, snap: Snapshot, i: int) -> Option<Seq<char>>
    decreases srcs.len() - i,
{
    if i < 0 || i >= srcs.len() {
        None
    } else if snap.canonical_spec(srcs[i]) is None {
        Some(srcs[i])
    } else {
        first_unresolved(srcs, snap, i + 1)
    }
}

/// The first source, from position `i` on, whose path has no final name.
pub open spec fn first_nameless(srcs: Seq<Seq<char>>, i: int) -> Option<Seq<char>>
    decreases srcs.len() - i,
{
    if i < 0 || i >= srcs.len() {
        None
    } else if file_name_of(srcs[i]) is None {
        Some(srcs[i])
    } else {
        first_nameless(srcs, i + 1)
    }
}

/// The source already lies in the destination directory: the parent of its canonical
/// form is the canonical form of the destination.
pub open spec fn already_inside(src: Seq<char>, dst: Seq<char>, snap: Snapshot) -> bool {
    match (snap.canonical_spec(src), snap.canonical_spec(dst)) {
        (Some(cs), Some(cd)) => parent_of(cs) == Some(cd),
        _ => false,
    }
}

/// The notes about the sources that already lie in the destination directory.
pub open spec fn inside_notes(options: StandardOptions, srcs: Seq<Seq<char>>, dst: Seq<char>, snap: Snapshot) -> Seq<StepView>
    decreases srcs.len(),
{
    if srcs.len() == 0 {
        Seq::empty()
    } else {
        inside_notes(options, srcs.drop_last(), dst, snap) + if already_inside(srcs.last(), dst, snap) {
            announce(options, say(located_note(srcs.last(), as_directory(dst)), Color::Plain))
        } else {
            Seq::empty()
        }
    }
}

/// Where a source goes in the destination directory: under its final name.
pub open spec fn target_of(dst: Seq<char>, src: Seq<char>) -> Seq<char> {
    match file_name_of(src) {
        Some(n) => joined(dst, n),
        None => dst,
    }
}

pub open spec fn targets(srcs: Seq<Seq<char>>, dst: Seq<char>) -> Seq<Seq<char>> {
    srcs.map_values(|s: Seq<char>| target_of(dst, s))
}

/// The moves of the sources to their targets, unless this is a dry run.
pub open spec fn moves(options: StandardOptions, srcs: Seq<Seq<char>>, ts: Seq<Seq<char>>) -> Seq<StepView> {
    if options.dry_run {
        Seq::empty()
    } else {
        Seq::new(srcs.len(), |i: int| StepView::Rename(srcs[i], ts[i]))
    }
}

/// The reports of the moves, unless silenced.
pub open spec fn move_reports(
    options: StandardOptions,
    srcs: Seq<Seq<char>>,
    ts: Seq<Seq<char>>,
    ancestor: Option<Seq<char>>,
) -> Seq<StepView> {
    if options.silent {
        Seq::empty()
    } else {
        Seq::new(srcs.len(), |i: int| moved_line("M"@, srcs[i], ts[i], ancestor))
    }
}

/// The complaint when a single move is asked for with several sources.
pub open spec fn count_complaint(n: nat) -> Seq<char> {
    "Error: Expected 1 SOURCE_PATH argument because DESTINATION_PATH did not end with a /, but got "@
        + decimal_spec(n)
}

/// What `mov` does into the directory `dst`.
pub open spec fn move_into_outcome(
    options: StandardOptions,
    srcs: Seq<Seq<char>>,
    dst: Seq<char>,
    snap: Snapshot,
    confirmed: bool,
) -> (Option<Seq<char>>, Seq<StepView>, i32) {
    let notes = inside_notes(options, srcs, dst, snap);
    let ts = targets(srcs, dst);
    let clashing = crate::create::found(ts, clash_views(snap.entries@));
    let prompt = if options.force {
        None
    } else {
        overwrite_question(clashing)
    };
    match first_unresolved(srcs, snap, 0) {
        Some(s) => (None, seq![StepView::Complain(missing_source(s, snap))], FAILURE),
        None => if forall|i: int| 0 <= i < srcs.len() ==> already_inside(#[trigger] srcs[i], dst, snap) {
            (None, notes, SUCCESS)
        } else {
            match first_nameless(srcs, 0) {
                Some(s) => (None, notes.push(StepView::Complain("Error: \""@ + s + "\" has no file name"@)), FAILURE),
                None => if prompt is Some && !confirmed {
                    (prompt, notes, FAILURE)
                } else {
                    (
                        prompt,
                        notes + perform(options, StepView::CreateDirAll(dst)) + moves(options, srcs, ts)
                            + move_reports(options, srcs, ts, nearest_existing(options, dst, snap, 0)),
                        SUCCESS,
                    )
                },
            }
        },
    }
}

/// What `mov` does with one source and a destination path.
pub open spec fn move_single_outcome(
    options: StandardOptions,
    srcs: Seq<Seq<char>>,
    dst: Seq<char>,
    snap: Snapshot,
    confirmed: bool,
) -> (Option<Seq<char>>, Seq<StepView>, i32) {
    if srcs.len() != 1 {
        (None, seq![StepView::Complain(count_complaint(srcs.len()))], FAILURE)
    } else {
        let src = srcs[0];
        if snap.canonical_spec(src) is None {
            (None, seq![StepView::Complain(missing_source(src, snap))], FAILURE)
        } else if same_place(snap, src, dst) {
            (None, announce(options, say(located_note(src, dst), Color::Plain)), SUCCESS)
        } else {
            let prompt = destination_question(options, dst, snap);
            if prompt is Some && !confirmed {
                (prompt, Seq::empty(), FAILURE)
            } else {
                (
                    prompt,
                    parent_creation(options, dst) + perform(options, StepView::Rename(src, dst))
                        + announce(options, moved_line("M"@, src, dst, nearest_existing(options, dst, snap, 1))),
                    SUCCESS,
                )
            }
        }
    }
}

/// What `mov` does: into a directory when asked with `move_into` or when the destination
/// ends in a separator, otherwise to the destination path itself.
pub open spec fn move_outcome(
    options: StandardOptions,
    srcs: Seq<Seq<char>>,
    dst: Seq<char>,
    move_into: bool,
    snap: Snapshot,
    confirmed: bool,
) -> (Option<Seq<char>>, Seq<StepView>, i32) {
    if move_into || ends_with_separator_spec(dst) {
        move_into_outcome(options, srcs, dst, snap, confirmed)
    } else {
        move_single_outcome(options, srcs, dst, snap, confirmed)
    }
}

proof fn lemma_notes_change_nothing(options: StandardOptions, srcs: Seq<Seq<char>>, dst: Seq<char>, snap: Snapshot)
    ensures
        no_mutation(inside_notes(options, srcs, dst, snap)),
    decreases srcs.len(),
{
    if srcs.len() > 0 {
        lemma_notes_change_nothing(options, srcs.drop_last(), dst, snap);
        let before = inside_notes(options, srcs.drop_last(), dst, snap);
        let all = inside_notes(options, srcs, dst, snap);
        assert forall|i: int| 0 <= i < all.len() implies !crate::output::is_mutation(#[trigger] all[i]) by {
            if i < before.len() {
                assert(all[i] == before[i]);
            }
        }
    }
}

/// The paths the sources get in the destination directory.
pub fn get_paths_at_destination(sources: &Vec<String>, destination: &str) -> (r: Vec<String>)
    requires
        first_nameless(views(sources@), 0) is None,
    ensures
        views(r@) == targets(views(sources@), destination@),
{
    let ghost sv = views(sources@);
    let mut r: Vec<String> = Vec::new();
    let mut i: usize = 0;
    while i < sources.len()
        invariant
            i <= sv.len(),
            sv == views(sources@),
            first_nameless(sv, 0) == first_nameless(sv, i as int),
            first_nameless(sv, i as int) is None,
            views(r@) == targets(sv.subrange(0, i as int), destination@),
        decreases sv.len() - i,
    {
        let ghost before = r@;
        proof {
            assert(sv.subrange(0, i + 1) == sv.subrange(0, i as int).push(sv[i as int]));
            assert(targets(sv.subrange(0, i + 1), destination@) =~= targets(sv.subrange(0, i as int), destination@).push(target_of(destination@, sv[i as int])));
        }
        match file_name(sources[i].as_str()) {
            Some(name) => {
                let t = join(destination, name.as_str());
                assert(t@ == target_of(destination@, sv[i as int]));
                r.push(t);
            },
            None => {
                let t = destination.to_string();
                r.push(t);
            },
        }
        assert(views(r@) =~= views(before).push(target_of(destination@, sv[i as int])));
        i = i + 1;
    }
    assert(sv.subrange(0, sv.len() as int) == sv);
    r
}

fn check_sources_exist(sources: &Vec<String>, snap: &Snapshot) -> (r: Option<String>)
    ensures
        view_opt(r) == first_unresolved(views(sources@), *snap, 0),
{
    let ghost sv = views(sources@);
    let mut i: usize = 0;
    while i < sources.len()
        invariant
            i <= sv.len(),
            sv == views(sources@),
            first_unresolved(sv, *snap, 0) == first_unresolved(sv, *snap, i as int),
        decreases sv.len() - i,
    {
        if snap.canonical_of(sources[i].as_str()).is_none() {
            return Some(sources[i].clone());
        }
        i = i + 1;
    }
    None
}

fn find_nameless(sources: &Vec<String>) -> (r: Option<String>)
    ensures
        view_opt(r) == first_nameless(views(sources@), 0),
{
    let ghost sv = views(sources@);
    let mut i: usize = 0;
    while i < sources.len()
        invariant
            i <= sv.len(),
            sv == views(sources@),
            first_nameless(sv, 0) == first_nameless(sv, i as int),
        decreases sv.len() - i,
    {
        if file_name(sources[i].as_str()).is_none() {
            return Some(sources[i].clone());
        }
        i = i + 1;
    }
    None
}

fn is_inside(src: &str, dst: &str, snap: &Snapshot) -> (r: bool)
    ensures
        r == already_inside(src@, dst@, *snap),
{
    match (snap.canonical_of(src), snap.canonical_of(dst)) {
        (Some(cs), Some(cd)) => match parent(cs.as_str()) {
            Some(q) => crate::sorted::same_text(q.as_str(), cd.as_str()),
            None => false,
        },
        _ => false,
    }
}

/// The notes about sources already in the destination directory, and whether every source
/// is.
fn check_sources_already_at_destination(
    options: &StandardOptions,
    sources: &Vec<String>,
    destination: &str,
    snap: &Snapshot,
) -> (r: (Vec<Step>, bool))
    ensures
        steps_view(r.0@) == inside_notes(*options, views(sources@), destination@, *snap),
        r.1 == forall|i: int| 0 <= i < sources@.len() ==> already_inside(#[trigger] views(sources@)[i], destination@, *snap),
{
    let ghost sv = views(sources@);
    let shown = directory_path(destination);
    let mut steps: Vec<Step> = Vec::new();
    let mut all_inside = true;
    let mut i: usize = 0;
    while i < sources.len()
        invariant
            i <= sv.len(),
            sv == views(sources@),
            shown@ == as_directory(destination@),
            steps_view(steps@) == inside_notes(*options, sv.subrange(0, i as int), destination@, *snap),
            all_inside == forall|k: int| 0 <= k < i ==> already_inside(#[trigger] sv[k], destination@, *snap),
        decreases sv.len() - i,
    {
        let s = sources[i].as_str();
        proof {
            assert(sv.subrange(0, i + 1).drop_last() == sv.subrange(0, i as int));
        }
        if is_inside(s, destination, snap) {
            let more = plain_line(options, located_text(s, shown.as_str()));
            extend_steps(&mut steps, more);
        } else {
            all_inside = false;
        }
        assert(steps_view(steps@) =~= inside_notes(*options, sv.subrange(0, i + 1), destination@, *snap));
        i = i + 1;
    }
    assert(sv.subrange(0, sv.len() as int) == sv);
    (steps, all_inside)
}

/// What stands at the paths in the destination directory, in order.
fn existing_at_destination(targets: &Vec<String>, snap: &Snapshot) -> (r: Vec<(String, EntryInfo)>)
    ensures
        clash_views(r@) == crate::create::found(views(targets@), clash_views(snap.entries@)),
{
    let ghost tv = views(targets@);
    let ghost ev = clash_views(snap.entries@);
    let mut r: Vec<(String, EntryInfo)> = Vec::new();
    let mut i: usize = 0;
    while i < targets.len()
        invariant
            i <= tv.len(),
            tv == views(targets@),
            ev == clash_views(snap.entries@),
            clash_views(r@) == crate::create::found(tv.subrange(0, i as int), ev),
        decreases tv.len() - i,
    {
        proof {
            assert(tv.subrange(0, i + 1).drop_last() == tv.subrange(0, i as int));
        }
        match snap.entry(targets[i].as_str()) {
            Some(m) => {
                let ghost before = r@;
                r.push((targets[i].clone(), m));
                assert(clash_views(r@) =~= clash_views(before).push((tv[i as int], m)));
            },
            None => {},
        }
        i = i + 1;
    }
    assert(tv.subrange(0, tv.len() as int) == tv);
    r
}

fn move_steps(options: &StandardOptions, sources: &Vec<String>, targets: &Vec<String>, ancestor: &Option<String>) -> (r: (Vec<Step>, Vec<Step>))
    requires
        sources@.len() == targets@.len(),
    ensures
        steps_view(r.0@) == moves(*options, views(sources@), views(targets@)),
        steps_view(r.1@) == move_reports(*options, views(sources@), views(targets@), view_opt(*ancestor)),
{
    let ghost sv = views(sources@);
    let ghost tv = views(targets@);
    let mut renames: Vec<Step> = Vec::new();
    let mut reports: Vec<Step> = Vec::new();
    let mut i: usize = 0;
    while i < sources.len()
        invariant
            i <= sv.len(),
            sv.len() == tv.len(),
            sv == views(sources@),
            tv == views(targets@),
            !options.dry_run ==> steps_view(renames@) == Seq::new(i as nat, |k: int| StepView::Rename(sv[k], tv[k])),
            options.dry_run ==> renames@.len() == 0,
            !options.silent ==> steps_view(reports@) == Seq::new(i as nat, |k: int| moved_line("M"@, sv[k], tv[k], view_opt(*ancestor))),
            options.silent ==> reports@.len() == 0,
        decreases sv.len() - i,
    {
        if !options.dry_run {
            let ghost before = steps_view(renames@);
            let a = sources[i].clone();
            let b = targets[i].clone();
            assert(a@ == sv[i as int] && b@ == tv[i as int]);
            renames.push(Step::Rename(a, b));
            assert(steps_view(renames@) =~= before.push(StepView::Rename(sv[i as int], tv[i as int])));
            assert(steps_view(renames@) =~= Seq::new((i + 1) as nat, |k: int| StepView::Rename(sv[k], tv[k])));
        }
        if !options.silent {
            let ghost before = steps_view(reports@);
            let line = moved_say("M", sources[i].as_str(), targets[i].as_str(), ancestor);
            assert(sources@[i as int]@ == sv[i as int] && targets@[i as int]@ == tv[i as int]);
            reports.push(line);
            assert(steps_view(reports@) =~= before.push(moved_line("M"@, sv[i as int], tv[i as int], view_opt(*ancestor))));
            assert(steps_view(reports@) =~= Seq::new((i + 1) as nat, |k: int| moved_line("M"@, sv[k], tv[k], view_opt(*ancestor))));
        }
        i = i + 1;
    }
    assert(steps_view(renames@) =~= moves(*options, sv, tv));
    assert(steps_view(reports@) =~= move_reports(*options, sv, tv, view_opt(*ancestor)));
    (renames, reports)
}

/// Runs `mov`: moves the sources into the destination directory when `move_into` is set or
/// the destination ends in a separator, otherwise moves the one source to the destination
/// path; given what the file system showed and the answer to the question, if one is
/// asked. A declined question leaves everything as it was.
pub fn run_move(
    options: &StandardOptions,
    sources: &Vec<String>,
    destination: &str,
    move_into: bool,
    snap: &Snapshot,
    confirmed: bool,
) -> (r: Outcome)
    ensures
        crate::create::outcome_view(r) == move_outcome(*options, views(sources@), destination@, move_into, *snap, confirmed),
        r.prompt is Some && !confirmed ==> r.code == FAILURE && no_mutation(steps_view(r.steps@)),
{
    if move_into || ends_with_separator(destination) {
        if let Some(s) = check_sources_exist(sources, snap) {
            return Outcome { prompt: None, steps: complaint(missing_source_text(s.as_str(), snap)), code: FAILURE };
        }
        let (mut steps, all_inside) = check_sources_already_at_destination(options, sources, destination, snap);
        if all_inside {
            return Outcome { prompt: None, steps, code: SUCCESS };
        }
        if let Some(s) = find_nameless(sources) {
            let mut t = String::from_str("Error: \"");
            t.append(s.as_str());
            t.append("\" has no file name");
            let ghost before = steps_view(steps@);
            steps.push(Step::Complain(t));
            assert(steps_view(steps@) =~= before.push(StepView::Complain("Error: \""@ + s@ + "\" has no file name"@)));
            return Outcome { prompt: None, steps, code: FAILURE };
        }
        let targets = get_paths_at_destination(sources, destination);
        let prompt = if options.force {
            None
        } else {
            let clashing = existing_at_destination(&targets, snap);
            ask_to_overwrite(&clashing)
        };
        if prompt.is_some() && !confirmed {
            proof {
                lemma_notes_change_nothing(*options, views(sources@), destination@, *snap);
            }
            return Outcome { prompt, steps, code: FAILURE };
        }
        let ancestor = find_existing_or_ancestor(options, destination, snap);
        let more = create_directory(options, destination);
        extend_steps(&mut steps, more);
        proof {
            assert(views(targets@).len() == views(sources@).len());
        }
        let (renames, reports) = move_steps(options, sources, &targets, &ancestor);
        extend_steps(&mut steps, renames);
        extend_steps(&mut steps, reports);
        Outcome { prompt, steps, code: SUCCESS }
    } else {
        if sources.len() != 1 {
            let mut t = String::from_str("Error: Expected 1 SOURCE_PATH argument because DESTINATION_PATH did not end with a /, but got ");
            let n = decimal(sources.len());
            t.append(n.as_str());
            return Outcome { prompt: None, steps: complaint(t), code: FAILURE };
        }
        let source = sources[0].as_str();
        if snap.canonical_of(source).is_none() {
            return Outcome { prompt: None, steps: complaint(missing_source_text(source, snap)), code: FAILURE };
        }
        if same_place_check(snap, source, destination) {
            return Outcome { prompt: None, steps: plain_line(options, located_text(source, destination)), code: SUCCESS };
        }
        let prompt = destination_prompt(options, destination, snap);
        if prompt.is_some() && !confirmed {
            let r = Outcome { prompt, steps: Vec::new(), code: FAILURE };
            assert(steps_view(r.steps@) =~= Seq::empty());
            return r;
        }
        let ancestor = find_existing_ancestor_directory(options, destination, snap);
        let mut steps = create_parent_directory(options, destination);
        let mut more: Vec<Step> = Vec::new();
        if !options.dry_run {
            more.push(Step::Rename(source.to_string(), destination.to_string()));
        }
        if !options.silent {
            more.push(moved_say("M", source, destination, &ancestor));
        }
        assert(steps_view(more@) =~= perform(*options, StepView::Rename(source@, destination@))
            + announce(*options, moved_line("M"@, source@, destination@, nearest_existing(*options, destination@, *snap, 1))));
        extend_steps(&mut steps, more);
        Outcome { prompt, steps, code: SUCCESS }
    }
}

} // verus!
