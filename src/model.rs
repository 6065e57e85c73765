use vstd::prelude::*;

use crate::output::StepView;
use crate::paths::{is_ancestor, parent_of};

verus! {

/// A file system as a map from each path that holds something to whether it is a directory.
pub type Tree = Map<Seq<char>, bool>;

/// The directories that creating `p` with all its ancestors brings into being.
pub open spec fn dirs_up_to(p: Seq<char>) -> Set<Seq<char>> {
    Set::new(|a: Seq<char>| a != Seq::<char>::empty() && is_ancestor(a, p))
}

/// The directories that creating the parent of `p` with all its ancestors brings into being.
pub open spec fn dirs_for_file(p: Seq<char>) -> Set<Seq<char>> {
    match parent_of(p) {
        Some(q) => dirs_up_to(q),
        None => Set::empty(),
    }
}

/// Marks every path of `s` as a directory.
pub open spec fn with_dirs(t: Tree, s: Set<Seq<char>>) -> Tree {
    Map::new(|k: Seq<char>| t.dom().contains(k) || s.contains(k), |k: Seq<char>| if s.contains(k) {
        true
    } else {
        t[k]
    })
}

/// What a step does to the file system. Output changes nothing; moves are not modelled.
pub open spec fn apply_step(t: Tree, s: StepView) -> Tree {
    match s {
        StepView::CreateDirAll(p) => with_dirs(t, dirs_up_to(p)),
        StepView::WriteFile(p, _) => with_dirs(t, dirs_for_file(p)).insert(p, false),
        StepView::RemoveFile(p) => t.remove(p),
        StepView::RemoveDirAll(p) => t.remove_keys(Set::new(|k: Seq<char>| is_ancestor(p, k))),
        _ => t,
    }
}

/// What the steps, taken in order, do to the file system.
pub open spec fn apply_steps(t: Tree, v: Seq<StepView>) -> Tree
    decreases v.len(),
{
    if v.len() == 0 {
        t
    } else {
        apply_step(apply_steps(t, v.drop_last()), v.last())
    }
}

pub proof fn lemma_apply_append(t: Tree, a: Seq<StepView>, b: Seq<StepView>)
    ensures
        apply_steps(t, a + b) == apply_steps(apply_steps(t, a), b),
    decreases b.len(),
{
    if b.len() == 0 {
        assert(a + b == a);
    } else {
        lemma_apply_append(t, a, b.drop_last());
        assert((a + b).drop_last() == a + b.drop_last());
    }
}

} // verus!
