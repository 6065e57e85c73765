use vstd::prelude::*;

use crate::create::{
    dir_deletions, directory_steps, file_deletions, file_steps, found, implied_directories,
    is_dir_in, is_empty_file_in, new_outcome, new_steps, one_directory_steps, one_file_steps,
    say, unsettled,
};
use crate::model::{apply_step, apply_steps, dirs_for_file, dirs_up_to, lemma_apply_append, Tree, with_dirs};
use crate::output::{lookup_spec, Color, EntryInfo, StepView};
use crate::paths::{ancestor_at, is_ancestor};
use crate::sorted::lists_set;
use crate::{StandardOptions, SUCCESS};

verus! {

proof fn lemma_lookup_push(s: Seq<(Seq<char>, EntryInfo)>, x: (Seq<char>, EntryInfo), p: Seq<char>)
    ensures
        lookup_spec(s.push(x), p) == match lookup_spec(s, p) {
            Some(m) => Some(m),
            None => if x.0 == p {
                Some(x.1)
            } else {
                None
            },
        },
    decreases s.len(),
{
    if s.len() > 0 {
        assert(s.push(x)[0] == s[0]);
        assert(s.push(x).drop_first() == s.drop_first().push(x));
        lemma_lookup_push(s.drop_first(), x, p);
    } else {
        assert(s.push(x)[0] == x);
        assert(s.push(x).drop_first() =~= s);
    }
}

/// What `found` records for a path is what the entries record for it, if the path was
/// looked up.
proof fn lemma_lookup_found(v: Seq<Seq<char>>, e: Seq<(Seq<char>, EntryInfo)>, p: Seq<char>)
    ensures
        lookup_spec(found(v, e), p) == if v.contains(p) {
            lookup_spec(e, p)
        } else {
            None
        },
    decreases v.len(),
{
    if v.len() > 0 {
        let rest = v.drop_last();
        lemma_lookup_found(rest, e, p);
        match lookup_spec(e, v.last()) {
            Some(m) => lemma_lookup_push(found(rest, e), (v.last(), m), p),
            None => {},
        }
        assert(v.contains(p) == (rest.contains(p) || v.last() == p)) by {
            if v.contains(p) {
                let i = choose|i: int| 0 <= i < v.len() && v[i] == p;
                if i < v.len() - 1 {
                    assert(rest[i] == p);
                }
            }
            if rest.contains(p) {
                let i = choose|i: int| 0 <= i < rest.len() && rest[i] == p;
                assert(v[i] == p);
            }
        }
    }
}

/// Each entry of `found` is a looked-up path with what the entries record for it.
proof fn lemma_found_entries(v: Seq<Seq<char>>, e: Seq<(Seq<char>, EntryInfo)>)
    ensures
        forall|i: int|
            0 <= i < found(v, e).len() ==> v.contains(#[trigger] found(v, e)[i].0) && lookup_spec(
                e,
                found(v, e)[i].0,
            ) == Some(found(v, e)[i].1),
    decreases v.len(),
{
    if v.len() > 0 {
        let rest = v.drop_last();
        lemma_found_entries(rest, e);
        assert forall|i: int| 0 <= i < found(v, e).len() implies v.contains(
            #[trigger] found(v, e)[i].0,
        ) && lookup_spec(e, found(v, e)[i].0) == Some(found(v, e)[i].1) by {
            if i < found(rest, e).len() {
                assert(found(v, e)[i] == found(rest, e)[i]);
                let j = choose|j: int| 0 <= j < rest.len() && rest[j] == found(rest, e)[i].0;
                assert(v[j] == rest[j]);
            } else {
                assert(v[v.len() - 1] == v.last());
            }
        }
    }
}

proof fn lemma_found_nothing(v: Seq<Seq<char>>)
    ensures
        found(v, Seq::empty()) == Seq::<(Seq<char>, EntryInfo)>::empty(),
    decreases v.len(),
{
    if v.len() > 0 {
        lemma_found_nothing(v.drop_last());
    }
}

proof fn lemma_no_dir_deletions(options: StandardOptions, v: Seq<(Seq<char>, EntryInfo)>)
    requires
        forall|i: int| 0 <= i < v.len() ==> (#[trigger] v[i]).1.is_dir,
    ensures
        dir_deletions(options, v) == Seq::<StepView>::empty(),
    decreases v.len(),
{
    if v.len() > 0 {
        lemma_no_dir_deletions(options, v.drop_last());
        assert(v[v.len() - 1] == v.last());
    }
}

proof fn lemma_no_file_deletions(options: StandardOptions, v: Seq<(Seq<char>, EntryInfo)>)
    requires
        forall|i: int| 0 <= i < v.len() ==> !(#[trigger] v[i]).1.is_dir,
    ensures
        file_deletions(options, v) == Seq::<StepView>::empty(),
    decreases v.len(),
{
    if v.len() > 0 {
        lemma_no_file_deletions(options, v.drop_last());
        assert(v[v.len() - 1] == v.last());
    }
}

/// Asking `new` for a directory that already exists, where every directory it needs is a
/// directory already, changes nothing: `new` asks nothing, only notes that the directory
/// already exists, and succeeds.
pub proof fn lemma_existing_directory_is_noop(
    options: StandardOptions,
    d: Seq<char>,
    all: Seq<Seq<char>>,
    existing: Seq<(Seq<char>, EntryInfo)>,
    content: Option<Seq<char>>,
    confirmed: bool,
)
    requires
        d != Seq::<char>::empty(),
        lists_set(all, implied_directories(set![d], Set::empty())),
        is_dir_in(existing, d),
        forall|a: Seq<char>| all.contains(a) ==> is_dir_in(existing, a),
    ensures
        new_outcome(options, all, seq![d], Seq::empty(), existing, content, confirmed) == (
            None::<Seq<char>>,
            seq![say("Directory \""@ + d + "\" already exists"@, Color::Plain)],
            SUCCESS,
        ),
{
    let with_dirs = found(all, existing);
    let with_files = found(Seq::empty(), existing);
    lemma_found_entries(all, existing);
    assert forall|i: int| 0 <= i < with_dirs.len() implies (#[trigger] with_dirs[i]).1.is_dir by {
        assert(is_dir_in(existing, with_dirs[i].0));
    }
    let pd = |c: (Seq<char>, EntryInfo)| !c.1.is_dir;
    let pf = |c: (Seq<char>, EntryInfo)| c.1.is_dir || c.1.len > 0;
    with_dirs.lemma_all_neg_filter_empty(pd);
    assert(with_files.filter(pf) =~= Seq::empty());
    assert(unsettled(with_dirs, with_files) =~= Seq::empty());
    lemma_no_dir_deletions(options, with_dirs);
    assert(is_ancestor(d, d)) by {
        assert(ancestor_at(d, 0) == Some(d));
    }
    assert(all.to_set().contains(d)) by {
        assert(set![d].contains(d));
    }
    lemma_lookup_found(all, existing, d);
    assert(is_dir_in(with_dirs, d));
    assert(seq![d].drop_last() =~= Seq::<Seq<char>>::empty());
    assert(seq![d].last() == d);
    assert(directory_steps(options, seq![d].drop_last(), with_dirs) == Seq::<StepView>::empty());
    assert(directory_steps(options, seq![d], with_dirs) == one_directory_steps(options, d, with_dirs));
    assert(new_steps(options, seq![d], Seq::empty(), with_dirs, with_files, content) =~= seq![
        say("Directory \""@ + d + "\" already exists"@, Color::Plain),
    ]);
}

/// Asking `new` again for a file that already exists and is empty, with no content, where
/// every directory it needs is a directory already, changes nothing: `new` asks nothing,
/// only notes that the file already exists, and succeeds.
pub proof fn lemma_existing_empty_file_is_noop(
    options: StandardOptions,
    f: Seq<char>,
    all: Seq<Seq<char>>,
    existing: Seq<(Seq<char>, EntryInfo)>,
    confirmed: bool,
)
    requires
        lists_set(all, implied_directories(Set::empty(), set![f])),
        is_empty_file_in(existing, f),
        forall|a: Seq<char>| all.contains(a) ==> is_dir_in(existing, a),
    ensures
        new_outcome(options, all, Seq::empty(), seq![f], existing, None, confirmed) == (
            None::<Seq<char>>,
            seq![say("File \""@ + f + "\" already exists"@, Color::Plain)],
            SUCCESS,
        ),
{
    let with_dirs = found(all, existing);
    let with_files = found(seq![f], existing);
    lemma_found_entries(all, existing);
    lemma_found_entries(seq![f], existing);
    assert forall|i: int| 0 <= i < with_dirs.len() implies (#[trigger] with_dirs[i]).1.is_dir by {
        assert(is_dir_in(existing, with_dirs[i].0));
    }
    assert forall|i: int| 0 <= i < with_files.len() implies !(#[trigger] with_files[i]).1.is_dir
        && with_files[i].1.len == 0 by {
        assert(seq![f].contains(with_files[i].0));
        assert(with_files[i].0 == f);
    }
    let pd = |c: (Seq<char>, EntryInfo)| !c.1.is_dir;
    let pf = |c: (Seq<char>, EntryInfo)| c.1.is_dir || c.1.len > 0;
    with_dirs.lemma_all_neg_filter_empty(pd);
    with_files.lemma_all_neg_filter_empty(pf);
    assert(unsettled(with_dirs, with_files) =~= Seq::empty());
    lemma_no_dir_deletions(options, with_dirs);
    lemma_no_file_deletions(options, with_files);
    assert(seq![f].contains(f)) by {
        assert(seq![f][0] == f);
    }
    lemma_lookup_found(seq![f], existing, f);
    assert(is_empty_file_in(with_files, f));
    assert(seq![f].drop_last() =~= Seq::<Seq<char>>::empty());
    assert(seq![f].last() == f);
    assert(directory_steps(options, Seq::empty(), with_dirs) == Seq::<StepView>::empty());
    assert(file_steps(options, seq![f].drop_last(), with_files, with_dirs, None) == Seq::<StepView>::empty());
    assert(file_steps(options, seq![f], with_files, with_dirs, None) == one_file_steps(
        options,
        f,
        with_files,
        with_dirs,
        None,
    ));
    assert(new_steps(options, Seq::empty(), seq![f], with_dirs, with_files, None) =~= seq![
        say("File \""@ + f + "\" already exists"@, Color::Plain),
    ]);
}

/// The directories that creating each of `ds` with its ancestors brings into being.
pub open spec fn dirs_of(ds: Seq<Seq<char>>) -> Set<Seq<char>> {
    Set::new(
        |a: Seq<char>|
            a != Seq::<char>::empty() && exists|d: Seq<char>| #[trigger]
                ds.contains(d) && is_ancestor(a, d),
    )
}

/// The directories that writing each of `fs` brings into being.
pub open spec fn file_dirs_of(fs: Seq<Seq<char>>) -> Set<Seq<char>> {
    Set::new(|a: Seq<char>| exists|f: Seq<char>| #[trigger] fs.contains(f) && dirs_for_file(f).contains(a))
}

proof fn lemma_apply_outputs(t: Tree, v: Seq<StepView>)
    requires
        forall|i: int| 0 <= i < v.len() ==> (#[trigger] v[i]) is Say,
    ensures
        apply_steps(t, v) == t,
    decreases v.len(),
{
    if v.len() > 0 {
        lemma_apply_outputs(t, v.drop_last());
        assert(v[v.len() - 1] == v.last());
    }
}

proof fn lemma_apply_one_then_outputs(t: Tree, x: StepView, v: Seq<StepView>)
    requires
        forall|i: int| 0 <= i < v.len() ==> (#[trigger] v[i]) is Say,
    ensures
        apply_steps(t, seq![x] + v) == apply_step(t, x),
{
    lemma_apply_append(t, seq![x], v);
    assert(seq![x].drop_last() =~= Seq::<StepView>::empty());
    assert(seq![x].last() == x);
    assert(apply_steps(t, Seq::<StepView>::empty()) == t);
    assert(apply_steps(t, seq![x]) == apply_step(apply_steps(t, seq![x].drop_last()), x));
    lemma_apply_outputs(apply_steps(t, seq![x]), v);
}

proof fn lemma_contains_drop_last(v: Seq<Seq<char>>, x: Seq<char>)
    requires
        v.len() > 0,
    ensures
        v.contains(x) == (v.drop_last().contains(x) || v.last() == x),
{
    if v.contains(x) {
        let i = choose|i: int| 0 <= i < v.len() && v[i] == x;
        if i < v.len() - 1 {
            assert(v.drop_last()[i] == x);
        }
    }
    if v.drop_last().contains(x) {
        let i = choose|i: int| 0 <= i < v.drop_last().len() && v.drop_last()[i] == x;
        assert(v[i] == x);
    }
}

/// Creating the directories `ds` where nothing stands yet leaves exactly their directories.
proof fn lemma_directory_tree(options: StandardOptions, ds: Seq<Seq<char>>)
    requires
        !options.dry_run,
    ensures
        apply_steps(Map::empty(), directory_steps(options, ds, Seq::empty())) == Map::new(
            |k: Seq<char>| dirs_of(ds).contains(k),
            |k: Seq<char>| true,
        ),
    decreases ds.len(),
{
    if ds.len() == 0 {
        assert(Map::<Seq<char>, bool>::empty() =~= Map::new(
            |k: Seq<char>| dirs_of(ds).contains(k),
            |k: Seq<char>| true,
        ));
    } else {
        let rest = ds.drop_last();
        let d = ds.last();
        lemma_directory_tree(options, rest);
        let before = directory_steps(options, rest, Seq::empty());
        let piece = one_directory_steps(options, d, Seq::empty());
        lemma_apply_append(Map::empty(), before, piece);
        let t = apply_steps(Map::empty(), before);
        assert(!is_dir_in(Seq::empty(), d));
        let line = piece.drop_first();
        assert(piece == seq![StepView::CreateDirAll(d)] + line);
        assert forall|i: int| 0 <= i < line.len() implies (#[trigger] line[i]) is Say by {}
        lemma_apply_one_then_outputs(t, StepView::CreateDirAll(d), line);
        assert forall|k: Seq<char>| dirs_of(ds).contains(k) == (dirs_of(rest).contains(k)
            || dirs_up_to(d).contains(k)) by {
            if dirs_of(ds).contains(k) {
                let e = choose|e: Seq<char>| #[trigger] ds.contains(e) && is_ancestor(k, e);
                lemma_contains_drop_last(ds, e);
            }
            if dirs_of(rest).contains(k) {
                let e = choose|e: Seq<char>| #[trigger] rest.contains(e) && is_ancestor(k, e);
                lemma_contains_drop_last(ds, e);
            }
            if dirs_up_to(d).contains(k) {
                lemma_contains_drop_last(ds, d);
            }
        }
        assert(apply_step(t, StepView::CreateDirAll(d)) =~= Map::new(
            |k: Seq<char>| dirs_of(ds).contains(k),
            |k: Seq<char>| true,
        ));
    }
}

/// Writing the files `fs` over a tree of the directories `s`, where no file is one of the
/// directories written, leaves those directories, the directories the files need, and the
/// files.
proof fn lemma_file_tree(
    options: StandardOptions,
    s: Set<Seq<char>>,
    fs: Seq<Seq<char>>,
    content: Option<Seq<char>>,
)
    requires
        !options.dry_run,
        forall|a: Seq<char>| s.contains(a) ==> !fs.contains(a),
        forall|a: Seq<char>| file_dirs_of(fs).contains(a) ==> !fs.contains(a),
    ensures
        apply_steps(
            Map::new(|k: Seq<char>| s.contains(k), |k: Seq<char>| true),
            file_steps(options, fs, Seq::empty(), Seq::empty(), content),
        ) == Map::new(
            |k: Seq<char>| s.contains(k) || file_dirs_of(fs).contains(k) || fs.contains(k),
            |k: Seq<char>| !fs.contains(k),
        ),
    decreases fs.len(),
{
    let t0 = Map::new(|k: Seq<char>| s.contains(k), |k: Seq<char>| true);
    if fs.len() == 0 {
        assert(t0 =~= Map::new(
            |k: Seq<char>| s.contains(k) || file_dirs_of(fs).contains(k) || fs.contains(k),
            |k: Seq<char>| !fs.contains(k),
        ));
    } else {
        let rest = fs.drop_last();
        let f = fs.last();
        assert forall|a: Seq<char>| file_dirs_of(fs).contains(a) == (file_dirs_of(rest).contains(a)
            || dirs_for_file(f).contains(a)) by {
            if file_dirs_of(fs).contains(a) {
                let g = choose|g: Seq<char>| #[trigger] fs.contains(g) && dirs_for_file(g).contains(a);
                lemma_contains_drop_last(fs, g);
            }
            if file_dirs_of(rest).contains(a) {
                let g = choose|g: Seq<char>| #[trigger] rest.contains(g) && dirs_for_file(g).contains(a);
                lemma_contains_drop_last(fs, g);
            }
            if dirs_for_file(f).contains(a) {
                lemma_contains_drop_last(fs, f);
            }
        }
        assert forall|a: Seq<char>| rest.contains(a) implies fs.contains(a) by {
            lemma_contains_drop_last(fs, a);
        }
        lemma_file_tree(options, s, rest, content);
        let before = file_steps(options, rest, Seq::empty(), Seq::empty(), content);
        let piece = one_file_steps(options, f, Seq::empty(), Seq::empty(), content);
        lemma_apply_append(t0, before, piece);
        let t = apply_steps(t0, before);
        assert(!is_empty_file_in(Seq::empty(), f));
        let line = piece.drop_first();
        assert(piece == seq![StepView::WriteFile(f, content)] + line);
        assert forall|i: int| 0 <= i < line.len() implies (#[trigger] line[i]) is Say by {}
        lemma_apply_one_then_outputs(t, StepView::WriteFile(f, content), line);
        lemma_contains_drop_last(fs, f);
        assert forall|k: Seq<char>| #[trigger] fs.contains(k) == (rest.contains(k) || k == f) by {
            lemma_contains_drop_last(fs, k);
        }
        assert(apply_step(t, StepView::WriteFile(f, content)) =~= Map::new(
            |k: Seq<char>| s.contains(k) || file_dirs_of(fs).contains(k) || fs.contains(k),
            |k: Seq<char>| !fs.contains(k),
        ));
    }
}

/// Where nothing stands yet, `new` on a valid request of non-empty paths asks nothing,
/// succeeds, and leaves exactly one entry per requested path, of the kind requested, plus
/// every directory the request needs (the missing ancestors), as a directory, and nothing
/// else.
pub proof fn lemma_creates_exactly_what_is_requested(
    options: StandardOptions,
    all: Seq<Seq<char>>,
    dirs: Seq<Seq<char>>,
    files: Seq<Seq<char>>,
    content: Option<Seq<char>>,
    confirmed: bool,
)
    requires
        !options.dry_run,
        lists_set(all, implied_directories(dirs.to_set(), files.to_set())),
        all.to_set().disjoint(files.to_set()),
        !dirs.contains(Seq::<char>::empty()),
    ensures
        new_outcome(options, all, dirs, files, Seq::empty(), content, confirmed).0 is None,
        new_outcome(options, all, dirs, files, Seq::empty(), content, confirmed).2 == SUCCESS,
        ({
            let t = apply_steps(
                Map::empty(),
                new_outcome(options, all, dirs, files, Seq::empty(), content, confirmed).1,
            );
            &&& forall|d: Seq<char>| dirs.contains(d) ==> t.dom().contains(d) && t[d]
            &&& forall|f: Seq<char>| files.contains(f) ==> t.dom().contains(f) && !t[f]
            &&& forall|a: Seq<char>| all.contains(a) ==> t.dom().contains(a) && t[a]
            &&& forall|k: Seq<char>| t.dom().contains(k) ==> all.contains(k) || files.contains(k)
        }),
{
    let e = Seq::<(Seq<char>, EntryInfo)>::empty();
    lemma_found_nothing(all);
    lemma_found_nothing(files);
    assert(unsettled(e, e) =~= Seq::empty());
    assert(dir_deletions(options, e) == Seq::<StepView>::empty());
    assert(file_deletions(options, e) == Seq::<StepView>::empty());
    let ds = directory_steps(options, dirs, e);
    let fsteps = file_steps(options, files, e, e, content);
    assert(new_steps(options, dirs, files, e, e, content) =~= ds + fsteps);
    lemma_apply_append(Map::empty(), ds, fsteps);
    lemma_directory_tree(options, dirs);
    let s = dirs_of(dirs);
    assert forall|a: Seq<char>| s.contains(a) implies all.contains(a) by {
        let d = choose|d: Seq<char>| #[trigger] dirs.contains(d) && is_ancestor(a, d);
        assert(dirs.to_set().contains(d));
        assert(all.to_set().contains(a));
    }
    assert forall|a: Seq<char>| file_dirs_of(files).contains(a) implies all.contains(a) by {
        let f = choose|f: Seq<char>| #[trigger] files.contains(f) && dirs_for_file(f).contains(a);
        assert(files.to_set().contains(f));
        assert(crate::create::holds_file(a, f));
        assert(all.to_set().contains(a));
    }
    assert forall|a: Seq<char>| all.contains(a) implies !files.contains(a) by {
        assert(all.to_set().contains(a));
        if files.contains(a) {
            assert(files.to_set().contains(a));
        }
    }
    lemma_file_tree(options, s, files, content);
    let t = apply_steps(Map::empty(), ds + fsteps);
    assert forall|d: Seq<char>| dirs.contains(d) implies t.dom().contains(d) && t[d] by {
        assert(ancestor_at(d, 0) == Some(d));
        assert(s.contains(d));
        assert(all.contains(d));
    }
    assert forall|a: Seq<char>| all.contains(a) implies t.dom().contains(a) && t[a] by {
        assert(all.to_set().contains(a));
        if !s.contains(a) {
            let f = choose|f: Seq<char>| #[trigger] files.to_set().contains(f) && crate::create::holds_file(a, f);
            assert(files.contains(f));
            assert(file_dirs_of(files).contains(a));
        }
    }
}

} // verus!
