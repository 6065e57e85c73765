use vstd::prelude::*;

use crate::paths::{
    ancestors, ends_with_separator, ends_with_separator_spec, is_ancestor, parent, parent_of,
    trim_separators, trim_trailing_separators,
};
use crate::confirm::{ask_to_overwrite, overwrite_question};
use crate::output::{
    clash_views, color_new, colored_new, extend_steps, lookup, lookup_spec, span, steps_view,
    Color, EntryInfo, Span, Step, StepView,
};
use crate::paths::{ancestor_at, view_opt};
use crate::sorted::{contains_path, insert_sorted, lists_set, strictly_sorted, views};
use crate::{as_directory, directory_path, format_path, formatted_path, StandardOptions, FAILURE, SUCCESS};
use crate::output::no_mutation;
use itertools::Itertools;

verus! {

/// The paths named on the command line of `new`.
#[derive(Debug, Clone)]
pub struct Names {
    /// Paths of files and directories; those that end in a separator are directories.
    pub paths: Vec<String>,
    /// Paths given with `--file`.
    pub file: Vec<String>,
    /// Paths given with `--directory`.
    pub directory: Vec<String>,
}

/// What `new` is asked to create, each list in increasing order and free of duplicates.
#[derive(Debug, Clone)]
pub struct Request {
    /// Every directory that must exist: the requested directories, the parents of the
    /// requested files, and all their ancestors, but not the empty path.
    pub all_directory_paths: Vec<String>,
    /// The requested directories.
    pub directory_paths: Vec<String>,
    /// The requested files.
    pub file_paths: Vec<String>,
}

/// Why `new` refuses its arguments.
#[derive(Debug, Clone, PartialEq, Eq)]
pub enum NewError {
    /// A path given with `--file` ends in a separator.
    FileEndsWithSeparator(String),
    /// These paths are asked for both as files and as directories.
    BothFileAndDirectory(Vec<String>),
}

/// The directories asked for: positional paths that end in a separator, without it, and
/// the paths given with `--directory`.
pub open spec fn dir_requests(paths: Seq<Seq<char>>, dirs: Seq<Seq<char>>) -> Set<Seq<char>> {
    Set::new(
        |d: Seq<char>|
            (exists|i: int|
                0 <= i < paths.len() && ends_with_separator_spec(#[trigger] paths[i])
                    && trim_separators(paths[i]) == d) || dirs.contains(d),
    )
}

/// The files asked for: positional paths that do not end in a separator, and the paths
/// given with `--file`.
pub open spec fn file_requests(paths: Seq<Seq<char>>, files: Seq<Seq<char>>) -> Set<Seq<char>> {
    Set::new(
        |f: Seq<char>|
            (exists|i: int|
                0 <= i < paths.len() && !ends_with_separator_spec(#[trigger] paths[i]) && paths[i]
                    == f) || files.contains(f),
    )
}

/// A directory that must exist for the file `f`: its parent or an ancestor of that.
pub open spec fn holds_file(a: Seq<char>, f: Seq<char>) -> bool {
    exists|q: Seq<char>| parent_of(f) == Some(q) && is_ancestor(a, q)
}

/// Every directory that must exist so that the directories `dirs` and the files `files`
/// can be created: all their ancestors (a directory counts as its own), leaving out the
/// empty path.
pub open spec fn implied_directories(dirs: Set<Seq<char>>, files: Set<Seq<char>>) -> Set<
    Seq<char>,
> {
    Set::new(
        |a: Seq<char>|
            a != Seq::<char>::empty() && ((exists|d: Seq<char>| #[trigger]
                dirs.contains(d) && is_ancestor(a, d)) || (exists|f: Seq<char>| #[trigger]
                files.contains(f) && holds_file(a, f))),
    )
}

/// The request that the names describe.
pub open spec fn request_of(names: Names) -> (Set<Seq<char>>, Set<Seq<char>>, Set<Seq<char>>) {
    let dirs = dir_requests(views(names.paths@), views(names.directory@));
    let files = file_requests(views(names.paths@), views(names.file@));
    (implied_directories(dirs, files), dirs, files)
}

/// The request lists exactly the given sets.
pub open spec fn request_lists(
    r: Request,
    sets: (Set<Seq<char>>, Set<Seq<char>>, Set<Seq<char>>),
) -> bool {
    &&& lists_set(views(r.all_directory_paths@), sets.0)
    &&& lists_set(views(r.directory_paths@), sets.1)
    &&& lists_set(views(r.file_paths@), sets.2)
}

/// The first path given with `--file` that ends in a separator, from position `i` on.
pub open spec fn first_file_with_separator(files: Seq<Seq<char>>, i: int) -> Option<Seq<char>>
    decreases files.len() - i,
{
    if i < 0 || i >= files.len() {
        None
    } else if ends_with_separator_spec(files[i]) {
        Some(files[i])
    } else {
        first_file_with_separator(files, i + 1)
    }
}

/// Adds `p` and all its ancestors, except the empty path, to a sorted list.
fn add_ancestors(all: &mut Vec<String>, p: &str)
    requires
        strictly_sorted(views(old(all)@)),
    ensures
        strictly_sorted(views(final(all)@)),
        views(final(all)@).to_set() == views(old(all)@).to_set().union(
            Set::new(|a: Seq<char>| a != Seq::<char>::empty() && is_ancestor(a, p@)),
        ),
{
    let chain = ancestors(p);
    let ghost start = views(all@).to_set();
    let mut i: usize = 0;
    while i < chain.len()
        invariant
            i <= chain@.len(),
            strictly_sorted(views(all@)),
            views(all@).to_set() == start.union(
                Set::new(
                    |a: Seq<char>|
                        a != Seq::<char>::empty() && exists|k: int|
                            0 <= k < i && #[trigger] chain@[k]@ == a,
                ),
            ),
        decreases chain@.len() - i,
    {
        let ghost before = views(all@).to_set();
        let ghost c = chain@[i as int]@;
        let n = chain[i].as_str().unicode_len();
        if n > 0 {
            insert_sorted(all, chain[i].clone());
            assert(views(all@).to_set() == before.insert(c));
        } else {
            assert(c == Seq::<char>::empty());
        }
        proof {
            let next = Set::new(
                |a: Seq<char>|
                    a != Seq::<char>::empty() && exists|k: int|
                        0 <= k < i + 1 && #[trigger] chain@[k]@ == a,
            );
            let prev = Set::new(
                |a: Seq<char>|
                    a != Seq::<char>::empty() && exists|k: int|
                        0 <= k < i && #[trigger] chain@[k]@ == a,
            );
            assert forall|a: Seq<char>| next.contains(a) <==> (prev.contains(a) || (a
                == c && a != Seq::<char>::empty())) by {
                if next.contains(a) {
                    let k = choose|k: int| 0 <= k < i + 1 && #[trigger] chain@[k]@ == a;
                    if k < i {
                        assert(prev.contains(a));
                    }
                }
                if a == c && a != Seq::<char>::empty() {
                    assert(chain@[i as int]@ == a);
                }
            }
            assert(before == start.union(prev));
            assert forall|x: Seq<char>| views(all@).to_set().contains(x) <==> start.union(next).contains(x) by {
                if x == c && x != Seq::<char>::empty() {
                    assert(next.contains(x));
                }
                if prev.contains(x) {
                    assert(next.contains(x));
                }
            }
            assert(views(all@).to_set() =~= start.union(next));
        }
        i = i + 1;
    }
    proof {
        let got = Set::new(
            |a: Seq<char>|
                a != Seq::<char>::empty() && exists|k: int|
                    0 <= k < chain@.len() && #[trigger] chain@[k]@ == a,
        );
        let want = Set::new(|a: Seq<char>| a != Seq::<char>::empty() && is_ancestor(a, p@));
        assert forall|a: Seq<char>| got.contains(a) <==> want.contains(a) by {
            if got.contains(a) {
                let k = choose|k: int| 0 <= k < chain@.len() && #[trigger] chain@[k]@ == a;
                assert(views(chain@)[k] == a);
            }
            if want.contains(a) {
                assert(views(chain@).contains(a));
                let k = choose|k: int| 0 <= k < views(chain@).len() && views(chain@)[k] == a;
                assert(chain@[k]@ == a);
            }
        }
        assert(got =~= want);
    }
}

/// Sorts the named paths into directories and files, and works out every directory that
/// must exist. Fails when a path given with `--file` ends in a separator.
pub fn combine_input_paths(names: &Names) -> (r: Result<Request, NewError>)
    ensures
        match r {
            Ok(req) => first_file_with_separator(views(names.file@), 0) is None && request_lists(
                req,
                request_of(*names),
            ),
            Err(e) => first_file_with_separator(views(names.file@), 0) matches Some(f)
                && e matches NewError::FileEndsWithSeparator(g) && g@ == f,
        },
{
    let ghost fv = views(names.file@);
    let mut i: usize = 0;
    while i < names.file.len()
        invariant
            i <= fv.len(),
            fv == views(names.file@),
            first_file_with_separator(fv, 0) == first_file_with_separator(fv, i as int),
        decreases fv.len() - i,
    {
        if ends_with_separator(names.file[i].as_str()) {
            return Err(NewError::FileEndsWithSeparator(names.file[i].clone()));
        }
        i = i + 1;
    }
    let ghost pv = views(names.paths@);
    let ghost dv = views(names.directory@);
    let mut dirs: Vec<String> = Vec::new();
    let mut files: Vec<String> = Vec::new();
    let mut i: usize = 0;
    while i < names.paths.len()
        invariant
            i <= pv.len(),
            pv == views(names.paths@),
            strictly_sorted(views(dirs@)),
            strictly_sorted(views(files@)),
            views(dirs@).to_set() == dir_requests(pv.subrange(0, i as int), Seq::empty()),
            views(files@).to_set() == file_requests(pv.subrange(0, i as int), Seq::empty()),
        decreases pv.len() - i,
    {
        let p = names.paths[i].as_str();
        let ghost sub = pv.subrange(0, i + 1);
        if ends_with_separator(p) {
            insert_sorted(&mut dirs, trim_trailing_separators(p));
        } else {
            insert_sorted(&mut files, names.paths[i].clone());
        }
        proof {
            assert(sub.subrange(0, i as int) == pv.subrange(0, i as int));
            assert(sub[i as int] == pv[i as int]);
            assert(views(dirs@).to_set() =~= dir_requests(sub, Seq::empty()));
            assert(views(files@).to_set() =~= file_requests(sub, Seq::empty()));
        }
        i = i + 1;
    }
    proof {
        assert(pv.subrange(0, pv.len() as int) == pv);
    }
    let mut i: usize = 0;
    while i < names.directory.len()
        invariant
            i <= dv.len(),
            dv == views(names.directory@),
            strictly_sorted(views(dirs@)),
            views(dirs@).to_set() == dir_requests(pv, dv.subrange(0, i as int)),
        decreases dv.len() - i,
    {
        insert_sorted(&mut dirs, names.directory[i].clone());
        proof {
            let sub = dv.subrange(0, i + 1);
            let prefix = dv.subrange(0, i as int);
            assert(sub == prefix.push(dv[i as int]));
            assert forall|x: Seq<char>| sub.contains(x) <==> (prefix.contains(x) || x == dv[i as int]) by {
                if sub.contains(x) {
                    let k = choose|k: int| 0 <= k < sub.len() && sub[k] == x;
                    if k < i {
                        assert(prefix[k] == x);
                    }
                }
                if prefix.contains(x) {
                    let k = choose|k: int| 0 <= k < prefix.len() && prefix[k] == x;
                    assert(sub[k] == x);
                }
                if x == dv[i as int] {
                    assert(sub[i as int] == x);
                }
            }
            assert(views(dirs@).to_set() =~= dir_requests(pv, sub));
        }
        i = i + 1;
    }
    let mut i: usize = 0;
    while i < names.file.len()
        invariant
            i <= fv.len(),
            fv == views(names.file@),
            strictly_sorted(views(files@)),
            views(files@).to_set() == file_requests(pv, fv.subrange(0, i as int)),
        decreases fv.len() - i,
    {
        insert_sorted(&mut files, names.file[i].clone());
        proof {
            let sub = fv.subrange(0, i + 1);
            let prefix = fv.subrange(0, i as int);
            assert(sub == prefix.push(fv[i as int]));
            assert forall|x: Seq<char>| sub.contains(x) <==> (prefix.contains(x) || x == fv[i as int]) by {
                if sub.contains(x) {
                    let k = choose|k: int| 0 <= k < sub.len() && sub[k] == x;
                    if k < i {
                        assert(prefix[k] == x);
                    }
                }
                if prefix.contains(x) {
                    let k = choose|k: int| 0 <= k < prefix.len() && prefix[k] == x;
                    assert(sub[k] == x);
                }
                if x == fv[i as int] {
                    assert(sub[i as int] == x);
                }
            }
            assert(views(files@).to_set() =~= file_requests(pv, sub));
        }
        i = i + 1;
    }
    proof {
        assert(dv.subrange(0, dv.len() as int) == dv);
        assert(fv.subrange(0, fv.len() as int) == fv);
    }
    let all = implied_directory_list(&dirs, &files);
    Ok(Request { all_directory_paths: all, directory_paths: dirs, file_paths: files })
}

/// Every directory that must exist for the listed directories and files.
fn implied_directory_list(dirs: &Vec<String>, files: &Vec<String>) -> (r: Vec<String>)
    ensures
        lists_set(
            views(r@),
            implied_directories(views(dirs@).to_set(), views(files@).to_set()),
        ),
{
    let ghost dv = views(dirs@);
    let ghost fv = views(files@);
    let mut all: Vec<String> = Vec::new();
    let mut i: usize = 0;
    while i < dirs.len()
        invariant
            i <= dv.len(),
            dv == views(dirs@),
            strictly_sorted(views(all@)),
            views(all@).to_set() == implied_directories(
                dv.subrange(0, i as int).to_set(),
                Set::empty(),
            ),
        decreases dv.len() - i,
    {
        add_ancestors(&mut all, dirs[i].as_str());
        proof {
            let d = dv[i as int];
            let sub = dv.subrange(0, i + 1);
            let old_set = dv.subrange(0, i as int).to_set();
            assert(sub.to_set() =~= old_set.insert(d)) by {
                assert(sub == dv.subrange(0, i as int).push(d));
                dv.subrange(0, i as int).lemma_push_to_set_commute(d);
            }
            let added = Set::new(|a: Seq<char>| a != Seq::<char>::empty() && is_ancestor(a, d));
            let new_set = implied_directories(sub.to_set(), Set::empty());
            let old_implied = implied_directories(old_set, Set::empty());
            assert forall|x: Seq<char>| new_set.contains(x) <==> old_implied.union(added).contains(x) by {
                if new_set.contains(x) {
                    let e = choose|e: Seq<char>| #[trigger] sub.to_set().contains(e) && is_ancestor(x, e);
                    if e != d {
                        assert(old_set.contains(e));
                    }
                }
                if old_implied.contains(x) {
                    let e = choose|e: Seq<char>| #[trigger] old_set.contains(e) && is_ancestor(x, e);
                    assert(sub.to_set().contains(e));
                }
                if added.contains(x) {
                    assert(sub.to_set().contains(d));
                }
            }
            assert(views(all@).to_set() =~= new_set);
        }
        i = i + 1;
    }
    proof {
        assert(dv.subrange(0, dv.len() as int) == dv);
    }
    let mut i: usize = 0;
    while i < files.len()
        invariant
            i <= fv.len(),
            fv == views(files@),
            dv == views(dirs@),
            strictly_sorted(views(all@)),
            views(all@).to_set() == implied_directories(
                dv.to_set(),
                fv.subrange(0, i as int).to_set(),
            ),
        decreases fv.len() - i,
    {
        let ghost f = fv[i as int];
        let ghost sub = fv.subrange(0, i + 1);
        let ghost old_set = fv.subrange(0, i as int).to_set();
        proof {
            assert(sub.to_set() =~= old_set.insert(f)) by {
                assert(sub == fv.subrange(0, i as int).push(f));
                fv.subrange(0, i as int).lemma_push_to_set_commute(f);
            }
        }
        match parent(files[i].as_str()) {
            Some(q) => {
                add_ancestors(&mut all, q.as_str());
                proof {
                    let added = Set::new(|a: Seq<char>| a != Seq::<char>::empty() && is_ancestor(a, q@));
                    let new_set = implied_directories(dv.to_set(), sub.to_set());
                    let old_implied = implied_directories(dv.to_set(), old_set);
                    assert forall|x: Seq<char>| new_set.contains(x) <==> old_implied.union(added).contains(x) by {
                        if new_set.contains(x) {
                            if !(exists|e: Seq<char>| #[trigger] dv.to_set().contains(e) && is_ancestor(x, e)) {
                                let g = choose|g: Seq<char>| #[trigger] sub.to_set().contains(g) && holds_file(x, g);
                                if g != f {
                                    assert(old_set.contains(g));
                                } else {
                                    let q2 = choose|q2: Seq<char>| parent_of(g) == Some(q2) && is_ancestor(x, q2);
                                    assert(q2 == q@);
                                }
                            }
                        }
                        if old_implied.contains(x) {
                            if !(exists|e: Seq<char>| #[trigger] dv.to_set().contains(e) && is_ancestor(x, e)) {
                                let g = choose|g: Seq<char>| #[trigger] old_set.contains(g) && holds_file(x, g);
                                assert(sub.to_set().contains(g));
                            }
                        }
                        if added.contains(x) {
                            assert(sub.to_set().contains(f));
                            assert(holds_file(x, f));
                        }
                    }
                    assert(views(all@).to_set() =~= new_set);
                }
            },
            None => {
                proof {
                    let new_set = implied_directories(dv.to_set(), sub.to_set());
                    let old_implied = implied_directories(dv.to_set(), old_set);
                    assert forall|x: Seq<char>| new_set.contains(x) <==> old_implied.contains(x) by {
                        if new_set.contains(x) {
                            if !(exists|e: Seq<char>| #[trigger] dv.to_set().contains(e) && is_ancestor(x, e)) {
                                let g = choose|g: Seq<char>| #[trigger] sub.to_set().contains(g) && holds_file(x, g);
                                if g != f {
                                    assert(old_set.contains(g));
                                }
                            }
                        }
                        if old_implied.contains(x) {
                            if !(exists|e: Seq<char>| #[trigger] dv.to_set().contains(e) && is_ancestor(x, e)) {
                                let g = choose|g: Seq<char>| #[trigger] old_set.contains(g) && holds_file(x, g);
                                assert(sub.to_set().contains(g));
                            }
                        }
                    }
                    assert(views(all@).to_set() =~= new_set);
                }
            },
        }
        i = i + 1;
    }
    proof {
        assert(fv.subrange(0, fv.len() as int) == fv);
    }
    all
}

/// The paths asked for both as a file and as a directory that must exist.
pub open spec fn conflicting(all: Set<Seq<char>>, files: Set<Seq<char>>) -> Set<Seq<char>> {
    all.intersect(files)
}

/// Refuses a request that asks for a path both as a file and as a directory that must
/// exist; the error lists every such path in increasing order.
pub fn check_argument_conflicts(req: &Request) -> (r: Result<(), NewError>)
    requires
        strictly_sorted(views(req.all_directory_paths@)),
    ensures
        match r {
            Ok(()) => conflicting(
                views(req.all_directory_paths@).to_set(),
                views(req.file_paths@).to_set(),
            ).is_empty(),
            Err(e) => e matches NewError::BothFileAndDirectory(v) && v@.len() > 0 && lists_set(
                views(v@),
                conflicting(
                    views(req.all_directory_paths@).to_set(),
                    views(req.file_paths@).to_set(),
                ),
            ),
        },
{
    let ghost av = views(req.all_directory_paths@);
    let ghost fs = views(req.file_paths@).to_set();
    let mut clashing: Vec<String> = Vec::new();
    let mut i: usize = 0;
    while i < req.all_directory_paths.len()
        invariant
            i <= av.len(),
            av == views(req.all_directory_paths@),
            strictly_sorted(av),
            fs == views(req.file_paths@).to_set(),
            strictly_sorted(views(clashing@)),
            forall|k: int|
                0 <= k < clashing@.len() ==> exists|j: int|
                    0 <= j < i && av[j] == #[trigger] views(clashing@)[k],
            views(clashing@).to_set() == av.subrange(0, i as int).to_set().intersect(fs),
        decreases av.len() - i,
    {
        let a = &req.all_directory_paths[i];
        let ghost before = views(clashing@);
        let ghost sub = av.subrange(0, i + 1);
        proof {
            assert(sub == av.subrange(0, i as int).push(av[i as int]));
            av.subrange(0, i as int).lemma_push_to_set_commute(av[i as int]);
        }
        if contains_path(&req.file_paths, a.as_str()) {
            clashing.push(a.clone());
            proof {
                let now = views(clashing@);
                assert(now == before.push(av[i as int]));
                assert forall|x: int, y: int| 0 <= x < y < now.len() implies crate::sorted::seq_lt(#[trigger] now[x], #[trigger] now[y]) by {
                    if y == now.len() - 1 {
                        let j = choose|j: int| 0 <= j < i && av[j] == before[x];
                        assert(before[x] == now[x]);
                    } else {
                        assert(before[x] == now[x] && before[y] == now[y]);
                    }
                }
                assert forall|k: int| 0 <= k < now.len() implies exists|j: int| 0 <= j < i + 1 && av[j] == #[trigger] now[k] by {
                    if k < now.len() - 1 {
                        assert(before[k] == now[k]);
                        let j = choose|j: int| 0 <= j < i && av[j] == before[k];
                        assert(av[j] == now[k]);
                    } else {
                        assert(av[i as int] == now[k]);
                    }
                }
                before.lemma_push_to_set_commute(av[i as int]);
                assert(now.to_set() =~= sub.to_set().intersect(fs));
            }
        } else {
            proof {
                assert(views(clashing@).to_set() =~= sub.to_set().intersect(fs));
            }
        }
        i = i + 1;
    }
    proof {
        assert(av.subrange(0, av.len() as int) == av);
    }
    if clashing.len() == 0 {
        proof {
            assert(views(clashing@).to_set() =~= Set::empty());
        }
        Ok(())
    } else {
        Err(NewError::BothFileAndDirectory(clashing))
    }
}

/// What already stands at the paths that `new` is asked to create.
#[derive(Debug, Clone)]
pub struct Clashes {
    /// Entries found at the directories that must exist, in the order of those.
    pub with_directories: Vec<(String, EntryInfo)>,
    /// Entries found at the requested files, in the order of those.
    pub with_files: Vec<(String, EntryInfo)>,
}

/// The paths of `v` at which `existing` records an entry, with that entry, in order.
pub open spec fn found(v: Seq<Seq<char>>, existing: Seq<(Seq<char>, EntryInfo)>) -> Seq<
    (Seq<char>, EntryInfo),
>
    decreases v.len(),
{
    if v.len() == 0 {
        Seq::empty()
    } else {
        let rest = found(v.drop_last(), existing);
        match lookup_spec(existing, v.last()) {
            Some(m) => rest.push((v.last(), m)),
            None => rest,
        }
    }
}

/// The entries that stand at the listed paths, in the order of the paths.
fn collect_found(v: &Vec<String>, existing: &Vec<(String, EntryInfo)>) -> (r: Vec<
    (String, EntryInfo),
>)
    ensures
        clash_views(r@) == found(views(v@), clash_views(existing@)),
{
    let ghost vv = views(v@);
    let ghost ev = clash_views(existing@);
    let mut r: Vec<(String, EntryInfo)> = Vec::new();
    let mut i: usize = 0;
    while i < v.len()
        invariant
            i <= vv.len(),
            vv == views(v@),
            ev == clash_views(existing@),
            clash_views(r@) == found(vv.subrange(0, i as int), ev),
        decreases vv.len() - i,
    {
        proof {
            assert(vv.subrange(0, i + 1).drop_last() == vv.subrange(0, i as int));
        }
        match lookup(existing, v[i].as_str()) {
            Some(m) => {
                let ghost before = r@;
                r.push((v[i].clone(), m));
                assert(clash_views(r@) =~= clash_views(before).push((vv[i as int], m)));
            },
            None => {},
        }
        i = i + 1;
    }
    assert(vv.subrange(0, vv.len() as int) == vv);
    r
}

/// Looks up, in `existing`, what stands at each directory that must exist and at each
/// requested file.
pub fn check_conflicts(req: &Request, existing: &Vec<(String, EntryInfo)>) -> (r: Clashes)
    ensures
        clash_views(r.with_directories@) == found(
            views(req.all_directory_paths@),
            clash_views(existing@),
        ),
        clash_views(r.with_files@) == found(views(req.file_paths@), clash_views(existing@)),
{
    Clashes {
        with_directories: collect_found(&req.all_directory_paths, existing),
        with_files: collect_found(&req.file_paths, existing),
    }
}

/// The entries that must be confirmed before they are overwritten: what stands at a
/// directory that must exist and is not a directory, then what stands at a requested file
/// and is a directory or a file that is not empty.
pub open spec fn unsettled(
    with_dirs: Seq<(Seq<char>, EntryInfo)>,
    with_files: Seq<(Seq<char>, EntryInfo)>,
) -> Seq<(Seq<char>, EntryInfo)> {
    with_dirs.filter(|c: (Seq<char>, EntryInfo)| !c.1.is_dir) + with_files.filter(
        |c: (Seq<char>, EntryInfo)| c.1.is_dir || c.1.len > 0,
    )
}

/// Whether `new` must ask before it goes on.
pub open spec fn needs_confirmation(options: StandardOptions, clashes: Clashes) -> bool {
    !options.force && unsettled(
        clash_views(clashes.with_directories@),
        clash_views(clashes.with_files@),
    ).len() > 0
}

/// The question `new` asks before it overwrites anything; none when it need not ask.
pub open spec fn new_question(options: StandardOptions, clashes: Clashes) -> Option<Seq<char>> {
    if options.force {
        None
    } else {
        overwrite_question(
            unsettled(clash_views(clashes.with_directories@), clash_views(clashes.with_files@)),
        )
    }
}

/// Adds to `out` the entries of `v` that must be confirmed: with `for_files`, those that are
/// directories or files that are not empty; otherwise those that are not directories.
fn filter_clashes(v: &Vec<(String, EntryInfo)>, out: &mut Vec<(String, EntryInfo)>, for_files: bool)
    ensures
        clash_views(final(out)@) == clash_views(old(out)@) + (if for_files {
            clash_views(v@).filter(|c: (Seq<char>, EntryInfo)| c.1.is_dir || c.1.len > 0)
        } else {
            clash_views(v@).filter(|c: (Seq<char>, EntryInfo)| !c.1.is_dir)
        }),
{
    let ghost vv = clash_views(v@);
    let ghost start = clash_views(out@);
    let ghost pred = if for_files {
        |c: (Seq<char>, EntryInfo)| c.1.is_dir || c.1.len > 0
    } else {
        |c: (Seq<char>, EntryInfo)| !c.1.is_dir
    };
    let mut i: usize = 0;
    while i < v.len()
        invariant
            i <= vv.len(),
            vv == clash_views(v@),
            pred == (if for_files {
                |c: (Seq<char>, EntryInfo)| c.1.is_dir || c.1.len > 0
            } else {
                |c: (Seq<char>, EntryInfo)| !c.1.is_dir
            }),
            clash_views(out@) == start + vv.subrange(0, i as int).filter(pred),
        decreases vv.len() - i,
    {
        let m = v[i].1;
        let keep = if for_files {
            m.is_dir || m.len > 0
        } else {
            !m.is_dir
        };
        proof {
            let sub = vv.subrange(0, i as int);
            assert(vv.subrange(0, i + 1) == sub.push(vv[i as int]));
            sub.lemma_filter_push(vv[i as int], pred);
        }
        if keep {
            let ghost before = out@;
            out.push((v[i].0.clone(), m));
            assert(clash_views(out@) =~= clash_views(before).push(vv[i as int]));
        }
        i = i + 1;
    }
    assert(vv.subrange(0, vv.len() as int) == vv);
}

/// What must be confirmed before `new` overwrites it.
pub fn clashes_to_confirm(clashes: &Clashes) -> (r: Vec<(String, EntryInfo)>)
    ensures
        clash_views(r@) == unsettled(
            clash_views(clashes.with_directories@),
            clash_views(clashes.with_files@),
        ),
{
    let mut r: Vec<(String, EntryInfo)> = Vec::new();
    filter_clashes(&clashes.with_directories, &mut r, false);
    filter_clashes(&clashes.with_files, &mut r, true);
    assert(clash_views(r@) =~= unsettled(
        clash_views(clashes.with_directories@),
        clash_views(clashes.with_files@),
    ));
    r
}

/// The question to ask before anything is overwritten; none with `--force` or when
/// nothing needs confirming.
pub fn confirmation_prompt(options: &StandardOptions, clashes: &Clashes) -> (r: Option<String>)
    ensures
        view_opt(r) == new_question(*options, *clashes),
        (r is Some) == needs_confirmation(*options, *clashes),
{
    if options.force {
        return None;
    }
    let to_confirm = clashes_to_confirm(clashes);
    ask_to_overwrite(&to_confirm)
}

/// A line of output in one color.
pub open spec fn say(text: Seq<char>, color: Color) -> StepView {
    StepView::Say(seq![(text, color)])
}

/// The line is printed unless the options silence success messages.
pub open spec fn announce(options: StandardOptions, line: StepView) -> Seq<StepView> {
    if options.silent {
        Seq::empty()
    } else {
        seq![line]
    }
}

/// The step is taken unless the options ask for a dry run.
pub open spec fn perform(options: StandardOptions, step: StepView) -> Seq<StepView> {
    if options.dry_run {
        Seq::empty()
    } else {
        seq![step]
    }
}

/// The step that creates the directory `path` with its missing ancestors; none in a dry run.
pub fn create_directory(options: &StandardOptions, path: &str) -> (r: Vec<Step>)
    ensures
        steps_view(r@) == perform(*options, StepView::CreateDirAll(path@)),
{
    let mut r: Vec<Step> = Vec::new();
    if !options.dry_run {
        r.push(Step::CreateDirAll(path.to_string()));
    }
    assert(steps_view(r@) =~= perform(*options, StepView::CreateDirAll(path@)));
    r
}

/// The step that writes the file `path`, with `content` or empty, after creating its
/// missing ancestors; none in a dry run.
pub fn create_file(options: &StandardOptions, path: &str, content: &Option<String>) -> (r: Vec<Step>)
    ensures
        steps_view(r@) == perform(*options, StepView::WriteFile(path@, view_opt(*content))),
{
    let mut r: Vec<Step> = Vec::new();
    if !options.dry_run {
        r.push(Step::WriteFile(path.to_string(), content.clone()));
    }
    assert(steps_view(r@) =~= perform(*options, StepView::WriteFile(path@, view_opt(*content))));
    r
}

/// The steps that create the parent of `dst`, if it has one.
pub open spec fn parent_creation(options: StandardOptions, dst: Seq<char>) -> Seq<StepView> {
    match parent_of(dst) {
        Some(q) => perform(options, StepView::CreateDirAll(q)),
        None => Seq::empty(),
    }
}

/// The step that creates the parent directory of `path` with its missing ancestors; none
/// in a dry run or when the path has no parent.
pub fn create_parent_directory(options: &StandardOptions, path: &str) -> (r: Vec<Step>)
    ensures
        steps_view(r@) == parent_creation(*options, path@),
{
    match parent(path) {
        Some(q) => create_directory(options, q.as_str()),
        None => {
            let r: Vec<Step> = Vec::new();
            assert(steps_view(r@) =~= Seq::empty());
            r
        },
    }
}

/// The line that reports a deletion.
pub open spec fn deletion_line(p: Seq<char>, m: EntryInfo) -> StepView {
    say("D "@ + formatted_path(p, m), Color::BrightRed)
}

/// The steps that clear the way for the directories that must exist: each entry found
/// there that is not a directory is removed.
pub open spec fn dir_deletions(options: StandardOptions, v: Seq<(Seq<char>, EntryInfo)>) -> Seq<
    StepView,
>
    decreases v.len(),
{
    if v.len() == 0 {
        Seq::empty()
    } else {
        let p = v.last().0;
        let m = v.last().1;
        dir_deletions(options, v.drop_last()) + if !m.is_dir {
            announce(options, deletion_line(p, m)) + perform(options, StepView::RemoveFile(p))
        } else {
            Seq::empty()
        }
    }
}

/// The steps that clear the way for the requested files: each directory found at one of
/// them is removed with all it holds.
pub open spec fn file_deletions(options: StandardOptions, v: Seq<(Seq<char>, EntryInfo)>) -> Seq<
    StepView,
>
    decreases v.len(),
{
    if v.len() == 0 {
        Seq::empty()
    } else {
        let p = v.last().0;
        let m = v.last().1;
        file_deletions(options, v.drop_last()) + if m.is_dir {
            announce(options, deletion_line(p, m)) + perform(options, StepView::RemoveDirAll(p))
        } else {
            Seq::empty()
        }
    }
}

fn deletion_say(p: &str, m: EntryInfo) -> (r: Step)
    ensures
        r@ == deletion_line(p@, m),
{
    let mut text = String::from_str("D ");
    let shown = format_path(p, m);
    text.append(shown.as_str());
    let mut line: Vec<Span> = Vec::new();
    line.push(span(text, Color::BrightRed));
    assert(crate::output::spans_view(line@) =~= seq![("D "@ + formatted_path(p@, m), Color::BrightRed)]);
    Step::Say(line)
}

/// Removes what stands in the way: files (and links) at the directories that must exist,
/// directories at the requested files. Entries that already have the kind asked for stay.
pub fn delete_clashing(options: &StandardOptions, clashes: &Clashes) -> (r: Vec<Step>)
    ensures
        steps_view(r@) == dir_deletions(*options, clash_views(clashes.with_directories@))
            + file_deletions(*options, clash_views(clashes.with_files@)),
{
    let mut r: Vec<Step> = Vec::new();
    let ghost cd = clash_views(clashes.with_directories@);
    let ghost cf = clash_views(clashes.with_files@);
    let mut i: usize = 0;
    while i < clashes.with_directories.len()
        invariant
            i <= cd.len(),
            cd == clash_views(clashes.with_directories@),
            steps_view(r@) == dir_deletions(*options, cd.subrange(0, i as int)),
        decreases cd.len() - i,
    {
        let p = clashes.with_directories[i].0.as_str();
        let m = clashes.with_directories[i].1;
        proof {
            assert(cd.subrange(0, i + 1).drop_last() == cd.subrange(0, i as int));
        }
        let mut more: Vec<Step> = Vec::new();
        if !m.is_dir {
            if !options.silent {
                more.push(deletion_say(p, m));
            }
            if !options.dry_run {
                more.push(Step::RemoveFile(p.to_string()));
            }
        }
        assert(steps_view(more@) =~= if !m.is_dir {
            announce(*options, deletion_line(p@, m)) + perform(*options, StepView::RemoveFile(p@))
        } else {
            Seq::empty()
        });
        extend_steps(&mut r, more);
        i = i + 1;
    }
    assert(cd.subrange(0, cd.len() as int) == cd);
    let ghost first = steps_view(r@);
    let mut i: usize = 0;
    while i < clashes.with_files.len()
        invariant
            i <= cf.len(),
            cf == clash_views(clashes.with_files@),
            steps_view(r@) == first + file_deletions(*options, cf.subrange(0, i as int)),
        decreases cf.len() - i,
    {
        let p = clashes.with_files[i].0.as_str();
        let m = clashes.with_files[i].1;
        proof {
            assert(cf.subrange(0, i + 1).drop_last() == cf.subrange(0, i as int));
        }
        let mut more: Vec<Step> = Vec::new();
        if m.is_dir {
            if !options.silent {
                more.push(deletion_say(p, m));
            }
            if !options.dry_run {
                more.push(Step::RemoveDirAll(p.to_string()));
            }
        }
        assert(steps_view(more@) =~= if m.is_dir {
            announce(*options, deletion_line(p@, m)) + perform(*options, StepView::RemoveDirAll(p@))
        } else {
            Seq::empty()
        });
        extend_steps(&mut r, more);
        assert(steps_view(r@) =~= first + file_deletions(*options, cf.subrange(0, i + 1)));
        i = i + 1;
    }
    assert(cf.subrange(0, cf.len() as int) == cf);
    r
}

/// Whether `existing` records a directory at the `n`-th ancestor of `p`.
pub open spec fn dir_ancestor_at(p: Seq<char>, e: Seq<(Seq<char>, EntryInfo)>, n: nat) -> bool {
    match ancestor_at(p, n) {
        Some(a) => match lookup_spec(e, a) {
            Some(m) => m.is_dir,
            None => false,
        },
        None => false,
    }
}

/// The `n`-th ancestor of `p` is the nearest proper ancestor recorded as a directory.
pub open spec fn is_nearest_dir_ancestor(p: Seq<char>, e: Seq<(Seq<char>, EntryInfo)>, n: nat) -> bool {
    &&& n > 0
    &&& dir_ancestor_at(p, e, n)
    &&& forall|k: nat| 0 < k < n ==> !#[trigger] dir_ancestor_at(p, e, k)
}

/// The nearest proper ancestor of `p` that `e` records as a directory, if any; none when
/// color is off.
pub open spec fn printout_ancestor(
    options: StandardOptions,
    p: Seq<char>,
    e: Seq<(Seq<char>, EntryInfo)>,
) -> Option<Seq<char>> {
    if options.no_color {
        None
    } else if exists|n: nat| is_nearest_dir_ancestor(p, e, n) {
        ancestor_at(p, choose|n: nat| is_nearest_dir_ancestor(p, e, n))
    } else {
        None
    }
}

/// The nearest proper ancestor of `path` that already exists as a directory, to show the
/// part of a new path that existed before; none when color is off.
pub fn find_existing_ancestor_directory_for_printout(
    options: &StandardOptions,
    path: &str,
    existing_ancestors: &Vec<(String, EntryInfo)>,
) -> (r: Option<String>)
    ensures
        view_opt(r) == printout_ancestor(*options, path@, clash_views(existing_ancestors@)),
{
    if options.no_color {
        return None;
    }
    let ghost e = clash_views(existing_ancestors@);
    let chain = ancestors(path);
    let mut i: usize = 1;
    while i < chain.len()
        invariant
            1 <= i,
            !options.no_color,
            e == clash_views(existing_ancestors@),
            chain@.len() >= 1,
            forall|n: nat| n < chain@.len() ==> ancestor_at(path@, n) == Some(#[trigger] chain@[n as int]@),
            forall|n: nat| n >= chain@.len() ==> #[trigger] ancestor_at(path@, n) is None,
            forall|k: nat| 0 < k < i ==> !#[trigger] dir_ancestor_at(path@, e, k),
        decreases chain@.len() - i,
    {
        match lookup(existing_ancestors, chain[i].as_str()) {
            Some(m) => {
                if m.is_dir {
                    proof {
                        assert(ancestor_at(path@, i as nat) == Some(chain@[i as int]@));
                        assert(is_nearest_dir_ancestor(path@, e, i as nat));
                        let n = choose|n: nat| is_nearest_dir_ancestor(path@, e, n);
                        assert(dir_ancestor_at(path@, e, i as nat));
                        if n < i {
                            assert(dir_ancestor_at(path@, e, n));
                        }
                        assert(n == i);
                        assert(printout_ancestor(*options, path@, e) == Some(chain@[i as int]@));
                    }
                    let found = chain[i].clone();
                    assert(found@ == chain@[i as int]@);
                    return Some(found);
                }
            },
            None => {},
        }
        proof {
            assert(ancestor_at(path@, i as nat) == Some(chain@[i as int]@));
            assert(!dir_ancestor_at(path@, e, i as nat));
        }
        i = i + 1;
    }
    proof {
        if exists|n: nat| is_nearest_dir_ancestor(path@, e, n) {
            let n = choose|n: nat| is_nearest_dir_ancestor(path@, e, n);
            if n >= chain@.len() {
                assert(ancestor_at(path@, n) is None);
            }
        }
    }
    None
}

/// The tag of a report: `M` when something stood at the path before, `N` otherwise.
pub open spec fn tag_for(replaced: bool) -> Seq<char> {
    if replaced {
        "M"@
    } else {
        "N"@
    }
}

/// The line that reports a new path, shown as `shown`.
pub open spec fn success_line(tag: Seq<char>, shown: Seq<char>, ancestor: Option<Seq<char>>) -> StepView {
    StepView::Say(
        seq![(tag, Color::BrightGreen), (" "@, Color::Plain)] + colored_new(
            shown,
            ancestor,
            Color::BrightGreen,
        ),
    )
}

fn success_say(tag: &str, shown: &str, ancestor: &Option<String>) -> (r: Step)
    ensures
        r@ == success_line(tag@, shown@, view_opt(*ancestor)),
{
    let mut line: Vec<Span> = Vec::new();
    line.push(span(tag.to_string(), Color::BrightGreen));
    line.push(span(String::from_str(" "), Color::Plain));
    let ghost head = crate::output::spans_view(line@);
    let mut rest = color_new(shown, ancestor, Color::BrightGreen);
    let ghost tail = crate::output::spans_view(rest@);
    line.append(&mut rest);
    assert(crate::output::spans_view(line@) =~= head + tail);
    assert(head =~= seq![(tag@, Color::BrightGreen), (" "@, Color::Plain)]);
    Step::Say(line)
}

fn tag_text(replaced: bool) -> (r: &'static str)
    ensures
        r@ == tag_for(replaced),
{
    if replaced {
        "M"
    } else {
        "N"
    }
}

/// Whether `e` records a directory at `p`.
pub open spec fn is_dir_in(e: Seq<(Seq<char>, EntryInfo)>, p: Seq<char>) -> bool {
    match lookup_spec(e, p) {
        Some(m) => m.is_dir,
        None => false,
    }
}

/// Whether `e` records an empty file at `p`.
pub open spec fn is_empty_file_in(e: Seq<(Seq<char>, EntryInfo)>, p: Seq<char>) -> bool {
    match lookup_spec(e, p) {
        Some(m) => !m.is_dir && m.len == 0,
        None => false,
    }
}

/// The steps for one requested directory: nothing but a note when it already exists,
/// otherwise its creation and a report.
pub open spec fn one_directory_steps(
    options: StandardOptions,
    d: Seq<char>,
    with_dirs: Seq<(Seq<char>, EntryInfo)>,
) -> Seq<StepView> {
    if is_dir_in(with_dirs, d) {
        seq![say("Directory \""@ + d + "\" already exists"@, Color::Plain)]
    } else {
        perform(options, StepView::CreateDirAll(d)) + announce(
            options,
            success_line(
                tag_for(lookup_spec(with_dirs, d) is Some),
                as_directory(d),
                printout_ancestor(options, d, with_dirs),
            ),
        )
    }
}

pub open spec fn directory_steps(
    options: StandardOptions,
    dirs: Seq<Seq<char>>,
    with_dirs: Seq<(Seq<char>, EntryInfo)>,
) -> Seq<StepView>
    decreases dirs.len(),
{
    if dirs.len() == 0 {
        Seq::empty()
    } else {
        directory_steps(options, dirs.drop_last(), with_dirs) + one_directory_steps(
            options,
            dirs.last(),
            with_dirs,
        )
    }
}

/// The steps for one requested file: nothing but a note when an empty file already stands
/// there and no content is given, otherwise writing it and a report.
pub open spec fn one_file_steps(
    options: StandardOptions,
    f: Seq<char>,
    with_files: Seq<(Seq<char>, EntryInfo)>,
    with_dirs: Seq<(Seq<char>, EntryInfo)>,
    content: Option<Seq<char>>,
) -> Seq<StepView> {
    if content is None && is_empty_file_in(with_files, f) {
        seq![say("File \""@ + f + "\" already exists"@, Color::Plain)]
    } else {
        perform(options, StepView::WriteFile(f, content)) + announce(
            options,
            success_line(
                tag_for(lookup_spec(with_files, f) is Some),
                f,
                printout_ancestor(options, f, with_dirs),
            ),
        )
    }
}

pub open spec fn file_steps(
    options: StandardOptions,
    files: Seq<Seq<char>>,
    with_files: Seq<(Seq<char>, EntryInfo)>,
    with_dirs: Seq<(Seq<char>, EntryInfo)>,
    content: Option<Seq<char>>,
) -> Seq<StepView>
    decreases files.len(),
{
    if files.len() == 0 {
        Seq::empty()
    } else {
        file_steps(options, files.drop_last(), with_files, with_dirs, content) + one_file_steps(
            options,
            files.last(),
            with_files,
            with_dirs,
            content,
        )
    }
}

fn note_say(prefix: &str, p: &str) -> (r: Step)
    ensures
        r@ == say(prefix@ + p@ + "\" already exists"@, Color::Plain),
{
    let mut text = prefix.to_string();
    text.append(p);
    text.append("\" already exists");
    let mut line: Vec<Span> = Vec::new();
    line.push(span(text, Color::Plain));
    assert(crate::output::spans_view(line@) =~= seq![(prefix@ + p@ + "\" already exists"@, Color::Plain)]);
    Step::Say(line)
}

/// Creates the requested directories, in order.
fn create_directories(options: &StandardOptions, req: &Request, clashes: &Clashes) -> (r: Vec<Step>)
    ensures
        steps_view(r@) == directory_steps(
            *options,
            views(req.directory_paths@),
            clash_views(clashes.with_directories@),
        ),
{
    let ghost dv = views(req.directory_paths@);
    let ghost cd = clash_views(clashes.with_directories@);
    let mut r: Vec<Step> = Vec::new();
    let mut i: usize = 0;
    while i < req.directory_paths.len()
        invariant
            i <= dv.len(),
            dv == views(req.directory_paths@),
            cd == clash_views(clashes.with_directories@),
            steps_view(r@) == directory_steps(*options, dv.subrange(0, i as int), cd),
        decreases dv.len() - i,
    {
        let d = req.directory_paths[i].as_str();
        proof {
            assert(dv.subrange(0, i + 1).drop_last() == dv.subrange(0, i as int));
        }
        let clash = lookup(&clashes.with_directories, d);
        let mut more: Vec<Step> = Vec::new();
        let exists_as_dir = match clash {
            Some(m) => m.is_dir,
            None => false,
        };
        if exists_as_dir {
            proof {
                reveal_strlit("Directory \"");
            }
            more.push(note_say("Directory \"", d));
            assert("Directory \""@ + d@ + "\" already exists"@ =~= "Directory \""@ + dv[i as int] + "\" already exists"@);
        } else {
            more = create_directory(options, d);
            if !options.silent {
                let shown = directory_path(d);
                let ancestor = find_existing_ancestor_directory_for_printout(
                    options,
                    d,
                    &clashes.with_directories,
                );
                more.push(success_say(tag_text(clash.is_some()), shown.as_str(), &ancestor));
            }
        }
        assert(steps_view(more@) =~= one_directory_steps(*options, dv[i as int], cd));
        extend_steps(&mut r, more);
        i = i + 1;
    }
    assert(dv.subrange(0, dv.len() as int) == dv);
    r
}

/// Writes the requested files, in order.
fn create_files(
    options: &StandardOptions,
    req: &Request,
    clashes: &Clashes,
    content: &Option<String>,
) -> (r: Vec<Step>)
    ensures
        steps_view(r@) == file_steps(
            *options,
            views(req.file_paths@),
            clash_views(clashes.with_files@),
            clash_views(clashes.with_directories@),
            view_opt(*content),
        ),
{
    let ghost fv = views(req.file_paths@);
    let ghost cf = clash_views(clashes.with_files@);
    let ghost cd = clash_views(clashes.with_directories@);
    let mut r: Vec<Step> = Vec::new();
    let mut i: usize = 0;
    while i < req.file_paths.len()
        invariant
            i <= fv.len(),
            fv == views(req.file_paths@),
            cf == clash_views(clashes.with_files@),
            cd == clash_views(clashes.with_directories@),
            steps_view(r@) == file_steps(*options, fv.subrange(0, i as int), cf, cd, view_opt(*content)),
        decreases fv.len() - i,
    {
        let f = req.file_paths[i].as_str();
        proof {
            assert(fv.subrange(0, i + 1).drop_last() == fv.subrange(0, i as int));
        }
        let clash = lookup(&clashes.with_files, f);
        let mut more: Vec<Step> = Vec::new();
        let empty_file = match clash {
            Some(m) => !m.is_dir && m.len == 0,
            None => false,
        };
        if content.is_none() && empty_file {
            more.push(note_say("File \"", f));
        } else {
            more = create_file(options, f, content);
            if !options.silent {
                let ancestor = find_existing_ancestor_directory_for_printout(
                    options,
                    f,
                    &clashes.with_directories,
                );
                more.push(success_say(tag_text(clash.is_some()), f, &ancestor));
            }
        }
        assert(steps_view(more@) =~= one_file_steps(*options, fv[i as int], cf, cd, view_opt(*content)));
        extend_steps(&mut r, more);
        i = i + 1;
    }
    assert(fv.subrange(0, fv.len() as int) == fv);
    r
}

/// The texts joined, with `sep` between each two.
pub open spec fn joined_with(v: Seq<Seq<char>>, sep: Seq<char>) -> Seq<char>
    decreases v.len(),
{
    if v.len() == 0 {
        Seq::empty()
    } else if v.len() == 1 {
        v[0]
    } else {
        joined_with(v.drop_last(), sep) + sep + v.last()
    }
}

/// Relies on `Itertools::join`: the items joined into one string, with `sep` between
/// each two.
#[verifier::external_body]
fn join_lines(v: &Vec<String>, sep: &str) -> (r: String)
    ensures
        r@ == joined_with(views(v@), sep@),
{
    v.iter().join(sep)
}

/// The content of the new files: the words given after `--`, joined by spaces, with a line
/// break at the end; none when no words, or one empty word, are given.
pub open spec fn content_of(args: Seq<Seq<char>>) -> Option<Seq<char>> {
    if args.len() == 0 || (args.len() == 1 && args[0].len() == 0) {
        None
    } else {
        Some(joined_with(args, " "@) + "\n"@)
    }
}

/// The content of the new files, from the words given after `--`.
pub fn content_text(args: &Vec<String>) -> (r: Option<String>)
    ensures
        view_opt(r) == content_of(views(args@)),
{
    let ghost av = views(args@);
    if args.len() == 0 || (args.len() == 1 && args[0].as_str().unicode_len() == 0) {
        return None;
    }
    let mut text = args[0].clone();
    let mut i: usize = 1;
    while i < args.len()
        invariant
            1 <= i <= av.len(),
            av == views(args@),
            text@ == joined_with(av.subrange(0, i as int), " "@),
        decreases av.len() - i,
    {
        text.append(" ");
        text.append(args[i].as_str());
        proof {
            let sub = av.subrange(0, i + 1);
            assert(sub.drop_last() == av.subrange(0, i as int));
        }
        i = i + 1;
    }
    assert(av.subrange(0, av.len() as int) == av);
    text.append("\n");
    Some(text)
}

/// The message that explains why `new` refuses its arguments.
pub open spec fn error_text(e: NewError) -> Seq<char> {
    match e {
        NewError::FileEndsWithSeparator(p) => "Error: File path \""@ + p@
            + "\" cannot end with a `/` when `--file` option is used."@,
        NewError::BothFileAndDirectory(v) => "Error: Cannot create both file and a directory at:\n"@
            + joined_with(views(v@), "\n"@),
    }
}

impl NewError {
    /// The message that explains the refusal.
    pub fn message(&self) -> (r: String)
        ensures
            r@ == error_text(*self),
    {
        match self {
            NewError::FileEndsWithSeparator(p) => {
                let mut r = String::from_str("Error: File path \"");
                r.append(p.as_str());
                r.append("\" cannot end with a `/` when `--file` option is used.");
                r
            },
            NewError::BothFileAndDirectory(v) => {
                let mut r = String::from_str("Error: Cannot create both file and a directory at:\n");
                let listed = join_lines(v, "\n");
                r.append(listed.as_str());
                r
            },
        }
    }
}

/// What a command does: the question it asks first, if any, the steps it takes, and its
/// exit code.
#[derive(Debug, Clone)]
pub struct Outcome {
    pub prompt: Option<String>,
    pub steps: Vec<Step>,
    pub code: i32,
}

/// The steps of `new` once it may go on: clear the way, create the directories, write the
/// files.
pub open spec fn new_steps(
    options: StandardOptions,
    dirs: Seq<Seq<char>>,
    files: Seq<Seq<char>>,
    with_dirs: Seq<(Seq<char>, EntryInfo)>,
    with_files: Seq<(Seq<char>, EntryInfo)>,
    content: Option<Seq<char>>,
) -> Seq<StepView> {
    dir_deletions(options, with_dirs) + file_deletions(options, with_files) + directory_steps(
        options,
        dirs,
        with_dirs,
    ) + file_steps(options, files, with_files, with_dirs, content)
}

/// What `new` does for a valid request, given the listed directories that must exist
/// (`all`), the requested directories and files, what `existing` records, the content and
/// whether the question, if asked, was confirmed: the question, the steps and the exit code.
pub open spec fn new_outcome(
    options: StandardOptions,
    all: Seq<Seq<char>>,
    dirs: Seq<Seq<char>>,
    files: Seq<Seq<char>>,
    existing: Seq<(Seq<char>, EntryInfo)>,
    content: Option<Seq<char>>,
    confirmed: bool,
) -> (Option<Seq<char>>, Seq<StepView>, i32) {
    let with_dirs = found(all, existing);
    let with_files = found(files, existing);
    let to_confirm = unsettled(with_dirs, with_files);
    let prompt = if options.force {
        None
    } else {
        overwrite_question(to_confirm)
    };
    if !options.force && to_confirm.len() > 0 && !confirmed {
        (prompt, Seq::empty(), FAILURE)
    } else {
        (prompt, new_steps(options, dirs, files, with_dirs, with_files, content), SUCCESS)
    }
}

pub open spec fn outcome_view(o: Outcome) -> (Option<Seq<char>>, Seq<StepView>, i32) {
    (view_opt(o.prompt), steps_view(o.steps@), o.code)
}

/// Decides what `new` does for a valid request, from what already stands at its paths and
/// whether the question, if one is asked, was confirmed. A declined question leaves
/// everything as it was.
pub fn plan_new(
    options: &StandardOptions,
    req: &Request,
    existing: &Vec<(String, EntryInfo)>,
    content: &Option<String>,
    confirmed: bool,
) -> (r: Outcome)
    ensures
        outcome_view(r) == new_outcome(
            *options,
            views(req.all_directory_paths@),
            views(req.directory_paths@),
            views(req.file_paths@),
            clash_views(existing@),
            view_opt(*content),
            confirmed,
        ),
{
    let clashes = check_conflicts(req, existing);
    let prompt = confirmation_prompt(options, &clashes);
    if prompt.is_some() && !confirmed {
        let r = Outcome { prompt, steps: Vec::new(), code: FAILURE };
        assert(steps_view(r.steps@) =~= Seq::empty());
        return r;
    }
    let mut steps = delete_clashing(options, &clashes);
    let dir_steps = create_directories(options, req, &clashes);
    extend_steps(&mut steps, dir_steps);
    let file_steps = create_files(options, req, &clashes, content);
    extend_steps(&mut steps, file_steps);
    Outcome { prompt, steps, code: SUCCESS }
}

fn refusal(e: NewError) -> (r: Outcome)
    ensures
        r.prompt is None,
        r.code == FAILURE,
        steps_view(r.steps@) == seq![StepView::Complain(error_text(e))],
{
    let mut steps: Vec<Step> = Vec::new();
    steps.push(Step::Complain(e.message()));
    let r = Outcome { prompt: None, steps, code: FAILURE };
    assert(steps_view(r.steps@) =~= seq![StepView::Complain(error_text(e))]);
    r
}

/// Whether the names ask for some path both as a file and as a directory that must exist.
pub open spec fn has_argument_conflict(names: Names) -> bool {
    !conflicting(request_of(names).0, request_of(names).2).is_empty()
}

/// Runs `new` on the named paths: refuses bad arguments before anything else, then asks
/// (unless forced) before it overwrites anything, then clears the way and creates.
/// `existing` records what stands at the paths concerned; `confirmed` is the answer to the
/// question, if one is asked.
pub fn run_new(
    names: &Names,
    content_args: &Vec<String>,
    options: &StandardOptions,
    existing: &Vec<(String, EntryInfo)>,
    confirmed: bool,
) -> (r: Outcome)
    ensures
        first_file_with_separator(views(names.file@), 0) is Some ==> r.code == FAILURE
            && r.prompt is None && no_mutation(steps_view(r.steps@)),
        has_argument_conflict(*names) ==> r.code == FAILURE && r.prompt is None && no_mutation(
            steps_view(r.steps@),
        ),
        r.prompt is Some && !confirmed ==> r.code == FAILURE && no_mutation(steps_view(r.steps@)),
        first_file_with_separator(views(names.file@), 0) is None && !has_argument_conflict(*names)
            ==> exists|all: Seq<Seq<char>>, dirs: Seq<Seq<char>>, files: Seq<Seq<char>>|
            {
                &&& lists_set(all, request_of(*names).0)
                &&& lists_set(dirs, request_of(*names).1)
                &&& lists_set(files, request_of(*names).2)
                &&& outcome_view(r) == new_outcome(
                    *options,
                    all,
                    dirs,
                    files,
                    clash_views(existing@),
                    content_of(views(content_args@)),
                    confirmed,
                )
            },
{
    let req = match combine_input_paths(names) {
        Ok(req) => req,
        Err(e) => {
            let r = refusal(e);
            proof {
                assert(no_mutation(steps_view(r.steps@)));
            }
            return r;
        },
    };
    match check_argument_conflicts(&req) {
        Ok(()) => {},
        Err(e) => {
            proof {
                match &e {
                    NewError::BothFileAndDirectory(v) => {
                        assert(views(v@).to_set().contains(views(v@)[0]));
                        assert(request_lists(req, request_of(*names)));
                    },
                    _ => {},
                }
            }
            let r = refusal(e);
            proof {
                assert(no_mutation(steps_view(r.steps@)));
            }
            return r;
        },
    }
    let content = content_text(content_args);
    let r = plan_new(options, &req, existing, &content, confirmed);
    proof {
        assert(steps_view(Seq::<Step>::empty()) =~= Seq::<StepView>::empty());
        assert(request_lists(req, request_of(*names)));
    }
    r
}

/// The report of `nef`: the tag and the path in one green piece when the path is shown in
/// green alone, otherwise the green tag followed by the path as a new path.
pub open spec fn nef_line(path: Seq<char>, ancestor: Option<Seq<char>>) -> StepView {
    let shown = colored_new(path, ancestor, Color::BrightGreen);
    if shown.len() == 1 && shown[0].1 == Color::BrightGreen {
        StepView::Say(seq![("N "@ + shown[0].0, Color::BrightGreen)])
    } else {
        StepView::Say(seq![("N "@, Color::BrightGreen)] + shown)
    }
}

/// What `nef` does: note an empty file that is already there when no content is given,
/// ask before replacing anything else, then clear a directory out of the way, create the
/// parent and write the file.
pub open spec fn nef_outcome(
    options: StandardOptions,
    path: Seq<char>,
    content: Option<Seq<char>>,
    existing: Seq<(Seq<char>, EntryInfo)>,
    ancestor: Option<Seq<char>>,
    confirmed: bool,
) -> (Option<Seq<char>>, Seq<StepView>, i32) {
    let entry = lookup_spec(existing, path);
    if content is None && !options.force && is_empty_file_in(existing, path) {
        (None, seq![say("Empty file \""@ + path + "\" already exists"@, Color::BrightGreen)], SUCCESS)
    } else {
        let prompt = if options.force {
            None
        } else {
            match entry {
                Some(m) => Some(crate::rename::replace_question(path, m)),
                None => None,
            }
        };
        if prompt is Some && !confirmed {
            (prompt, Seq::empty(), FAILURE)
        } else {
            (
                prompt,
                (if is_dir_in(existing, path) {
                    perform(options, StepView::RemoveDirAll(path))
                } else {
                    Seq::empty()
                }) + parent_creation(options, path) + perform(
                    options,
                    StepView::WriteFile(path, content),
                ) + announce(options, nef_line(path, ancestor)),
                SUCCESS,
            )
        }
    }
}

/// Runs `nef`: creates one file, with the content given or empty, given what stands at the
/// paths concerned and the answer to the question, if one is asked. A declined question
/// leaves everything as it was.
pub fn run_nef(
    options: &StandardOptions,
    path: &str,
    content: &Option<String>,
    snap: &crate::output::Snapshot,
    confirmed: bool,
) -> (r: Outcome)
    ensures
        outcome_view(r) == nef_outcome(
            *options,
            path@,
            view_opt(*content),
            clash_views(snap.entries@),
            crate::rename::nearest_existing(*options, path@, *snap, 1),
            confirmed,
        ),
        r.prompt is Some && !confirmed ==> r.code == FAILURE && no_mutation(steps_view(r.steps@)),
{
    let entry = snap.entry(path);
    let empty_file = match entry {
        Some(m) => !m.is_dir && m.len == 0,
        None => false,
    };
    if content.is_none() && !options.force && empty_file {
        let mut steps: Vec<Step> = Vec::new();
        steps.push(note_green("Empty file \"", path));
        assert(steps_view(steps@) =~= seq![say("Empty file \""@ + path@ + "\" already exists"@, Color::BrightGreen)]);
        return Outcome { prompt: None, steps, code: SUCCESS };
    }
    let prompt = if options.force {
        None
    } else {
        match entry {
            Some(m) => {
                let mut q = String::from_str(if m.is_dir { "Directory" } else { "File" });
                q.append(" \"");
                q.append(path);
                q.append("\" already exists, replace it? [Y/n]");
                Some(q)
            },
            None => None,
        }
    };
    if prompt.is_some() && !confirmed {
        let r = Outcome { prompt, steps: Vec::new(), code: FAILURE };
        assert(steps_view(r.steps@) =~= Seq::empty());
        return r;
    }
    let ancestor = crate::rename::find_existing_ancestor_directory(options, path, snap);
    let mut steps: Vec<Step> = Vec::new();
    let is_dir = match entry {
        Some(m) => m.is_dir,
        None => false,
    };
    if is_dir && !options.dry_run {
        steps.push(Step::RemoveDirAll(path.to_string()));
    }
    assert(steps_view(steps@) =~= if is_dir_in(clash_views(snap.entries@), path@) {
        perform(*options, StepView::RemoveDirAll(path@))
    } else {
        Seq::empty()
    });
    let parent_steps = create_parent_directory(options, path);
    extend_steps(&mut steps, parent_steps);
    let file_steps = create_file(options, path, content);
    extend_steps(&mut steps, file_steps);
    let ghost work = steps_view(steps@);
    assert(work =~= (if is_dir_in(clash_views(snap.entries@), path@) {
        perform(*options, StepView::RemoveDirAll(path@))
    } else {
        Seq::empty()
    }) + parent_creation(*options, path@) + perform(*options, StepView::WriteFile(path@, view_opt(*content))));
    if !options.silent {
        let shown = color_new(path, &ancestor, Color::BrightGreen);
        let ghost sv = crate::output::spans_view(shown@);
        let mut line: Vec<Span> = Vec::new();
        if shown.len() == 1 && shown[0].color == Color::BrightGreen {
            assert(sv.len() == 1 && sv[0].1 == Color::BrightGreen);
            let mut text = String::from_str("N ");
            text.append(shown[0].text.as_str());
            line.push(span(text, Color::BrightGreen));
            assert(crate::output::spans_view(line@) =~= seq![("N "@ + crate::output::spans_view(shown@)[0].0, Color::BrightGreen)]);
            assert(StepView::Say(crate::output::spans_view(line@)) == nef_line(path@, view_opt(ancestor)));
        } else {
            assert(!(sv.len() == 1 && sv[0].1 == Color::BrightGreen));
            line.push(span(String::from_str("N "), Color::BrightGreen));
            let ghost head = crate::output::spans_view(line@);
            let ghost tail = crate::output::spans_view(shown@);
            let mut shown = shown;
            line.append(&mut shown);
            assert(crate::output::spans_view(line@) =~= head + tail);
            assert(head =~= seq![("N "@, Color::BrightGreen)]);
            assert(StepView::Say(crate::output::spans_view(line@)) == nef_line(path@, view_opt(ancestor)));
        }
        let ghost before = steps_view(steps@);
        steps.push(Step::Say(line));
        assert(steps_view(steps@) =~= before.push(nef_line(path@, view_opt(ancestor))));
    }
    assert(steps_view(steps@) =~= work + announce(*options, nef_line(path@, view_opt(ancestor))));
    Outcome { prompt, steps, code: SUCCESS }
}

fn note_green(prefix: &str, p: &str) -> (r: Step)
    ensures
        r@ == say(prefix@ + p@ + "\" already exists"@, Color::BrightGreen),
{
    let mut text = prefix.to_string();
    text.append(p);
    text.append("\" already exists");
    let mut line: Vec<Span> = Vec::new();
    line.push(span(text, Color::BrightGreen));
    assert(crate::output::spans_view(line@) =~= seq![(prefix@ + p@ + "\" already exists"@, Color::BrightGreen)]);
    Step::Say(line)
}

} // verus!
