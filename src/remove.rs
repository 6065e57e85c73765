use vstd::prelude::*;

use crate::confirm::kind_word;
use crate::create::{announce, perform, say, Outcome};
use crate::output::{extend_steps, no_mutation, span, steps_view, Color, EntryInfo, Snapshot, Span, Step, StepView};
use crate::paths::view_opt;
use crate::sorted::views;
use crate::{format_path, formatted_path, StandardOptions, FAILURE, SUCCESS};

verus! {

/// The two commands that remove files and directories: `del` reports each removal, `rem`
/// reports once at the end.
#[derive(Debug, Clone, Copy, PartialEq, Eq, Structural)]
pub enum Remover {
    Del,
    Rem,
}

pub open spec fn verb(kind: Remover) -> Seq<char> {
    match kind {
        Remover::Del => "Delete"@,
        Remover::Rem => "Remove"@,
    }
}

pub open spec fn verb_lower(kind: Remover) -> Seq<char> {
    match kind {
        Remover::Del => "delete"@,
        Remover::Rem => "remove"@,
    }
}

/// How a path that exists is listed in the question.
pub open spec fn listed_line(kind: Remover, p: Seq<char>, m: EntryInfo) -> Seq<char> {
    match kind {
        Remover::Del => formatted_path(p, m),
        Remover::Rem => "\""@ + (if m.is_dir {
            p + "/"@
        } else {
            p
        }) + "\""@,
    }
}

/// The lines that list the paths that exist, each ending in a line break.
pub open spec fn listing(kind: Remover, ps: Seq<Seq<char>>, snap: Snapshot) -> Seq<char>
    decreases ps.len(),
{
    if ps.len() == 0 {
        Seq::empty()
    } else {
        listing(kind, ps.drop_last(), snap) + match snap.entry_spec(ps.last()) {
            Some(m) => listed_line(kind, ps.last(), m) + "\n"@,
            None => Seq::empty(),
        }
    }
}

/// The complaints about the paths that do not exist, in order.
pub open spec fn missing_complaints(ps: Seq<Seq<char>>, snap: Snapshot) -> Seq<Seq<char>>
    decreases ps.len(),
{
    if ps.len() == 0 {
        Seq::empty()
    } else {
        missing_complaints(ps.drop_last(), snap) + match snap.entry_spec(ps.last()) {
            Some(_) => Seq::empty(),
            None => seq!["\""@ + ps.last() + "\" error: "@ + snap.error_spec(ps.last())],
        }
    }
}

pub open spec fn some_exist(ps: Seq<Seq<char>>, snap: Snapshot) -> bool {
    exists|i: int| 0 <= i < ps.len() && (#[trigger] snap.entry_spec(ps[i])) is Some
}

pub open spec fn all_exist(ps: Seq<Seq<char>>, snap: Snapshot) -> bool {
    forall|i: int| 0 <= i < ps.len() ==> (#[trigger] snap.entry_spec(ps[i])) is Some
}

/// What is asked before removing: the complaints printed first, and the question, or none
/// when nothing can be removed and the command fails.
pub open spec fn removal_question(kind: Remover, ps: Seq<Seq<char>>, snap: Snapshot) -> (
    Seq<Seq<char>>,
    Option<Seq<char>>,
) {
    if ps.len() == 1 {
        match snap.entry_spec(ps[0]) {
            Some(m) => (
                Seq::empty(),
                Some(verb(kind) + " "@ + kind_word(m) + " \""@ + ps[0] + "\"? [Y/n]"@),
            ),
            None => (seq!["Error for \""@ + ps[0] + "\": "@ + snap.error_spec(ps[0])], None),
        }
    } else if !some_exist(ps, snap) {
        (
            missing_complaints(ps, snap).push("...no files or directories can be removed."@),
            None,
        )
    } else {
        (
            missing_complaints(ps, snap),
            Some(
                "For the following...\n"@ + listing(kind, ps, snap) + "..."@ + verb_lower(kind)
                    + " all"@ + (if all_exist(ps, snap) {
                    Seq::empty()
                } else {
                    " existing"@
                }) + "? [Y/n]"@,
            ),
        )
    }
}

/// The step that removes what stands at `p`.
pub open spec fn remove_step(p: Seq<char>, m: EntryInfo) -> StepView {
    if m.is_dir {
        StepView::RemoveDirAll(p)
    } else {
        StepView::RemoveFile(p)
    }
}

/// The steps for one path that exists: its removal, and with `del` a report.
pub open spec fn one_removal(kind: Remover, options: StandardOptions, p: Seq<char>, m: EntryInfo) -> Seq<
    StepView,
> {
    perform(options, remove_step(p, m)) + match kind {
        Remover::Del => announce(options, say("D "@ + formatted_path(p, m), Color::BrightRed)),
        Remover::Rem => Seq::empty(),
    }
}

/// The removals of the paths that exist, in order; paths that do not exist count as removed.
pub open spec fn removals(kind: Remover, options: StandardOptions, ps: Seq<Seq<char>>, snap: Snapshot) -> Seq<
    StepView,
>
    decreases ps.len(),
{
    if ps.len() == 0 {
        Seq::empty()
    } else {
        removals(kind, options, ps.drop_last(), snap) + match snap.entry_spec(ps.last()) {
            Some(m) => one_removal(kind, options, ps.last(), m),
            None => Seq::empty(),
        }
    }
}

/// How a command ends once every removal was tried: `rem` reports, and fails when some
/// removal failed; `del` fails silently then.
pub open spec fn removal_end(kind: Remover, options: StandardOptions, all_removed: bool) -> (
    Seq<StepView>,
    i32,
) {
    match kind {
        Remover::Del => (Seq::empty(), if all_removed {
            SUCCESS
        } else {
            FAILURE
        }),
        Remover::Rem => if all_removed {
            (announce(options, say("Done"@, Color::Plain)), SUCCESS)
        } else {
            (
                seq![StepView::Complain("Error: Some existing files or directories could not be deleted"@)],
                FAILURE,
            )
        },
    }
}

pub open spec fn complaints_view(v: Seq<Seq<char>>) -> Seq<StepView> {
    v.map_values(|c: Seq<char>| StepView::Complain(c))
}

/// What a removal command does when each removal it tries succeeds.
pub open spec fn remove_outcome(
    kind: Remover,
    options: StandardOptions,
    ps: Seq<Seq<char>>,
    snap: Snapshot,
    confirmed: bool,
) -> (Option<Seq<char>>, Seq<StepView>, i32) {
    let work = removals(kind, options, ps, snap) + removal_end(kind, options, true).0;
    if options.force {
        (None, work, removal_end(kind, options, true).1)
    } else {
        let (complaints, question) = removal_question(kind, ps, snap);
        match question {
            None => (None, complaints_view(complaints), FAILURE),
            Some(q) => if confirmed {
                (Some(q), complaints_view(complaints) + work, removal_end(kind, options, true).1)
            } else {
                (Some(q), complaints_view(complaints), FAILURE)
            },
        }
    }
}

fn verb_text(kind: Remover) -> (r: &'static str)
    ensures
        r@ == verb(kind),
{
    match kind {
        Remover::Del => "Delete",
        Remover::Rem => "Remove",
    }
}

fn verb_lower_text(kind: Remover) -> (r: &'static str)
    ensures
        r@ == verb_lower(kind),
{
    match kind {
        Remover::Del => "delete",
        Remover::Rem => "remove",
    }
}

fn listed_text(kind: Remover, p: &str, m: EntryInfo) -> (r: String)
    ensures
        r@ == listed_line(kind, p@, m),
{
    match kind {
        Remover::Del => format_path(p, m),
        Remover::Rem => {
            let mut r = String::from_str("\"");
            r.append(p);
            if m.is_dir {
                r.append("/");
            }
            r.append("\"");
            r
        },
    }
}

/// The complaints and the question to print before removing; no question when nothing
/// can be removed.
pub fn ask_removal(kind: Remover, paths: &Vec<String>, snap: &Snapshot) -> (r: (Vec<String>, Option<String>))
    ensures
        views(r.0@) == removal_question(kind, views(paths@), *snap).0,
        view_opt(r.1) == removal_question(kind, views(paths@), *snap).1,
{
    let ghost ps = views(paths@);
    if paths.len() == 1 {
        let p = paths[0].as_str();
        match snap.entry(p) {
            Some(m) => {
                let mut q = verb_text(kind).to_string();
                q.append(" ");
                q.append(crate::confirm::kind_text(m));
                q.append(" \"");
                q.append(p);
                q.append("\"? [Y/n]");
                let r: (Vec<String>, Option<String>) = (Vec::new(), Some(q));
                assert(views(r.0@) =~= Seq::empty());
                return r;
            },
            None => {
                let mut c = String::from_str("Error for \"");
                c.append(p);
                c.append("\": ");
                let e = snap.error_of(p);
                c.append(e.as_str());
                let mut v: Vec<String> = Vec::new();
                v.push(c);
                assert(views(v@) =~= removal_question(kind, ps, *snap).0);
                return (v, None);
            },
        }
    }
    let mut complaints: Vec<String> = Vec::new();
    let mut listed = String::new();
    let mut any = false;
    let mut every = true;
    let mut i: usize = 0;
    while i < paths.len()
        invariant
            i <= ps.len(),
            ps == views(paths@),
            views(complaints@) == missing_complaints(ps.subrange(0, i as int), *snap),
            listed@ == listing(kind, ps.subrange(0, i as int), *snap),
            any == some_exist(ps.subrange(0, i as int), *snap),
            every == all_exist(ps.subrange(0, i as int), *snap),
        decreases ps.len() - i,
    {
        let p = paths[i].as_str();
        let ghost sub = ps.subrange(0, i + 1);
        let ghost prev = ps.subrange(0, i as int);
        proof {
            assert(sub.drop_last() == prev);
            assert(sub.last() == p@);
        }
        match snap.entry(p) {
            Some(m) => {
                let line = listed_text(kind, p, m);
                listed.append(line.as_str());
                listed.append("\n");
                any = true;
                proof {
                    assert(sub[i as int] == p@);
                    assert(views(complaints@) =~= missing_complaints(sub, *snap));
                }
            },
            None => {
                let mut c = String::from_str("\"");
                c.append(p);
                c.append("\" error: ");
                let e = snap.error_of(p);
                c.append(e.as_str());
                let ghost before = complaints@;
                complaints.push(c);
                every = false;
                proof {
                    assert(views(complaints@) =~= views(before).push(c@));
                    assert(listed@ =~= listing(kind, sub, *snap));
                }
            },
        }
        proof {
            assert(any == some_exist(sub, *snap)) by {
                if some_exist(sub, *snap) {
                    let j = choose|j: int| 0 <= j < sub.len() && (#[trigger] snap.entry_spec(sub[j])) is Some;
                    if j < i {
                        assert(prev[j] == sub[j]);
                    }
                }
                if some_exist(prev, *snap) {
                    let j = choose|j: int| 0 <= j < prev.len() && (#[trigger] snap.entry_spec(prev[j])) is Some;
                    assert(prev[j] == sub[j]);
                }
            }
            assert(every == all_exist(sub, *snap)) by {
                if all_exist(prev, *snap) && snap.entry_spec(p@) is Some {
                    assert forall|j: int| 0 <= j < sub.len() implies (#[trigger] snap.entry_spec(sub[j])) is Some by {
                        if j < i {
                            assert(prev[j] == sub[j]);
                        }
                    }
                }
                if all_exist(sub, *snap) {
                    assert(snap.entry_spec(sub[i as int]) is Some);
                    assert forall|j: int| 0 <= j < prev.len() implies (#[trigger] snap.entry_spec(prev[j])) is Some by {
                        assert(prev[j] == sub[j]);
                    }
                }
            }
        }
        i = i + 1;
    }
    proof {
        assert(ps.subrange(0, ps.len() as int) == ps);
    }
    if !any {
        let ghost before = complaints@;
        complaints.push(String::from_str("...no files or directories can be removed."));
        assert(views(complaints@) =~= views(before).push("...no files or directories can be removed."@));
        return (complaints, None);
    }
    let mut q = String::from_str("For the following...\n");
    q.append(listed.as_str());
    q.append("...");
    q.append(verb_lower_text(kind));
    q.append(" all");
    if !every {
        q.append(" existing");
    }
    q.append("? [Y/n]");
    proof {
        if every {
            assert(q@ =~= "For the following...\n"@ + listing(kind, ps, *snap) + "..."@ + verb_lower(kind) + " all"@ + Seq::<char>::empty() + "? [Y/n]"@);
        }
    }
    (complaints, Some(q))
}

/// The step that removes what stands at the path.
pub fn removal_step(p: &str, m: EntryInfo) -> (r: Step)
    ensures
        r@ == remove_step(p@, m),
{
    if m.is_dir {
        Step::RemoveDirAll(p.to_string())
    } else {
        Step::RemoveFile(p.to_string())
    }
}

/// The line `del` prints once it removed what stood at the path.
pub fn removal_report(kind: Remover, options: &StandardOptions, p: &str, m: EntryInfo) -> (r: Vec<Step>)
    ensures
        steps_view(r@) == match kind {
            Remover::Del => announce(*options, say("D "@ + formatted_path(p@, m), Color::BrightRed)),
            Remover::Rem => Seq::<StepView>::empty(),
        },
{
    let mut r: Vec<Step> = Vec::new();
    if kind == Remover::Del && !options.silent {
        let mut text = String::from_str("D ");
        let shown = format_path(p, m);
        text.append(shown.as_str());
        let mut line: Vec<Span> = Vec::new();
        line.push(span(text, Color::BrightRed));
        assert(crate::output::spans_view(line@) =~= seq![("D "@ + formatted_path(p@, m), Color::BrightRed)]);
        r.push(Step::Say(line));
    }
    assert(steps_view(r@) =~= match kind {
        Remover::Del => announce(*options, say("D "@ + formatted_path(p@, m), Color::BrightRed)),
        Remover::Rem => Seq::<StepView>::empty(),
    });
    r
}

/// The complaint printed when removing what stood at the path failed.
pub fn removal_failure(p: &str, m: EntryInfo, error: &str) -> (r: String)
    ensures
        r@ == "Error for "@ + kind_word(m) + " \""@ + p@ + "\": "@ + error@,
{
    let mut r = String::from_str("Error for ");
    r.append(crate::confirm::kind_text(m));
    r.append(" \"");
    r.append(p);
    r.append("\": ");
    r.append(error);
    r
}

/// The removals of the paths that exist, each followed by its report.
pub fn remove_all(kind: Remover, options: &StandardOptions, paths: &Vec<String>, snap: &Snapshot) -> (r: Vec<Step>)
    ensures
        steps_view(r@) == removals(kind, *options, views(paths@), *snap),
{
    let ghost ps = views(paths@);
    let mut r: Vec<Step> = Vec::new();
    let mut i: usize = 0;
    while i < paths.len()
        invariant
            i <= ps.len(),
            ps == views(paths@),
            steps_view(r@) == removals(kind, *options, ps.subrange(0, i as int), *snap),
        decreases ps.len() - i,
    {
        let p = paths[i].as_str();
        proof {
            assert(ps.subrange(0, i + 1).drop_last() == ps.subrange(0, i as int));
        }
        match snap.entry(p) {
            Some(m) => {
                let mut more: Vec<Step> = Vec::new();
                if !options.dry_run {
                    more.push(removal_step(p, m));
                }
                assert(steps_view(more@) =~= perform(*options, remove_step(p@, m)));
                let report = removal_report(kind, options, p, m);
                extend_steps(&mut more, report);
                extend_steps(&mut r, more);
            },
            None => {},
        }
        assert(steps_view(r@) =~= removals(kind, *options, ps.subrange(0, i + 1), *snap));
        i = i + 1;
    }
    assert(ps.subrange(0, ps.len() as int) == ps);
    r
}

/// How the command ends once every removal was tried.
pub fn finish_removal(kind: Remover, options: &StandardOptions, all_removed: bool) -> (r: (Vec<Step>, i32))
    ensures
        steps_view(r.0@) == removal_end(kind, *options, all_removed).0,
        r.1 == removal_end(kind, *options, all_removed).1,
{
    let mut steps: Vec<Step> = Vec::new();
    match kind {
        Remover::Del => {
            assert(steps_view(steps@) =~= Seq::empty());
            (steps, if all_removed { SUCCESS } else { FAILURE })
        },
        Remover::Rem => {
            if all_removed {
                if !options.silent {
                    let mut line: Vec<Span> = Vec::new();
                    line.push(span(String::from_str("Done"), Color::Plain));
                    assert(crate::output::spans_view(line@) =~= seq![("Done"@, Color::Plain)]);
                    steps.push(Step::Say(line));
                }
                assert(steps_view(steps@) =~= removal_end(kind, *options, all_removed).0);
                (steps, SUCCESS)
            } else {
                steps.push(Step::Complain(String::from_str("Error: Some existing files or directories could not be deleted")));
                assert(steps_view(steps@) =~= removal_end(kind, *options, all_removed).0);
                (steps, FAILURE)
            }
        },
    }
}

fn complain_all(v: Vec<String>) -> (r: Vec<Step>)
    ensures
        steps_view(r@) == complaints_view(views(v@)),
{
    let mut r: Vec<Step> = Vec::new();
    let mut i: usize = 0;
    while i < v.len()
        invariant
            i <= v@.len(),
            steps_view(r@) == complaints_view(views(v@).subrange(0, i as int)),
        decreases v@.len() - i,
    {
        let ghost before = r@;
        let c = v[i].clone();
        r.push(Step::Complain(c));
        proof {
            let vv = views(v@);
            assert(vv.subrange(0, i + 1) == vv.subrange(0, i as int).push(vv[i as int]));
            assert(steps_view(r@) =~= steps_view(before).push(StepView::Complain(vv[i as int])));
            assert(complaints_view(vv.subrange(0, i + 1)) =~= complaints_view(vv.subrange(0, i as int)).push(StepView::Complain(vv[i as int])));
        }
        i = i + 1;
    }
    assert(views(v@).subrange(0, v@.len() as int) == views(v@));
    r
}

/// Runs `del` or `rem` on the paths, given what stands at them and the answer to the
/// question, if one is asked, taking every removal to succeed. A declined question, or
/// paths of which none exists, leave everything as it was.
pub fn run_remove(
    kind: Remover,
    options: &StandardOptions,
    paths: &Vec<String>,
    snap: &Snapshot,
    confirmed: bool,
) -> (r: Outcome)
    ensures
        crate::create::outcome_view(r) == remove_outcome(kind, *options, views(paths@), *snap, confirmed),
        r.prompt is Some && !confirmed ==> r.code == FAILURE && no_mutation(steps_view(r.steps@)),
{
    let mut steps: Vec<Step> = Vec::new();
    let mut prompt: Option<String> = None;
    if !options.force {
        let (complaints, question) = ask_removal(kind, paths, snap);
        steps = complain_all(complaints);
        match question {
            None => {
                proof {
                    assert forall|i: int| 0 <= i < steps_view(steps@).len() implies !crate::output::is_mutation(#[trigger] steps_view(steps@)[i]) by {}
                }
                return Outcome { prompt: None, steps, code: FAILURE };
            },
            Some(q) => {
                prompt = Some(q);
                if !confirmed {
                    proof {
                        assert forall|i: int| 0 <= i < steps_view(steps@).len() implies !crate::output::is_mutation(#[trigger] steps_view(steps@)[i]) by {}
                    }
                    return Outcome { prompt, steps, code: FAILURE };
                }
            },
        }
    } else {
        assert(steps_view(steps@) =~= Seq::empty());
    }
    let work = remove_all(kind, options, paths, snap);
    extend_steps(&mut steps, work);
    let (end, code) = finish_removal(kind, options, true);
    extend_steps(&mut steps, end);
    Outcome { prompt, steps, code }
}

} // verus!
