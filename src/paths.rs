use vstd::prelude::*;

use camino::Utf8Path;

verus! {

/// The character that separates the components of a path.
pub const SEPARATOR: char = '/';

/// What `Utf8Path::parent` gives for a path: the path without its final component, if any.
pub uninterp spec fn parent_of(p: Seq<char>) -> Option<Seq<char>>;

/// What `Utf8Path::strip_prefix` gives for a path and a base.
pub uninterp spec fn stripped_of(p: Seq<char>, base: Seq<char>) -> Option<Seq<char>>;

/// What `Utf8Path::file_name` gives for a path: its final component, if it is a name.
pub uninterp spec fn file_name_of(p: Seq<char>) -> Option<Seq<char>>;

/// What `Utf8Path::join` gives for a base and a path adjoined to it.
pub uninterp spec fn joined(base: Seq<char>, p: Seq<char>) -> Seq<char>;

pub open spec fn view_opt(o: Option<String>) -> Option<Seq<char>> {
    match o {
        Some(s) => Some(s@),
        None => None,
    }
}

/// The path reached from `p` by taking the parent `n` times, if there is one.
pub open spec fn ancestor_at(p: Seq<char>, n: nat) -> Option<Seq<char>>
    decreases n,
{
    if n == 0 {
        Some(p)
    } else {
        match ancestor_at(p, (n - 1) as nat) {
            Some(q) => parent_of(q),
            None => None,
        }
    }
}

/// `a` is `p` itself or reached from `p` by taking parents.
pub open spec fn is_ancestor(a: Seq<char>, p: Seq<char>) -> bool {
    exists|n: nat| ancestor_at(p, n) == Some(a)
}

pub open spec fn ends_with_separator_spec(p: Seq<char>) -> bool {
    p.len() > 0 && p.last() == SEPARATOR
}

/// The path with every separator at its end taken off.
pub open spec fn trim_separators(p: Seq<char>) -> Seq<char>
    decreases p.len(),
{
    if ends_with_separator_spec(p) {
        trim_separators(p.drop_last())
    } else {
        p
    }
}

/// Relies on camino's `Utf8Path::parent`: the path without its final component.
#[verifier::external_body]
pub(crate) fn parent(p: &str) -> (r: Option<String>)
    ensures
        view_opt(r) == parent_of(p@),
{
    Utf8Path::new(p).parent().map(|q| q.as_str().to_string())
}

/// Relies on camino's `Utf8Path::ancestors`, which yields the path itself and then the
/// result of `Utf8Path::parent` on the previous item, until that gives none.
#[verifier::external_body]
fn ancestor_list(p: &str) -> (r: Vec<String>)
    ensures
        r@.len() >= 1,
        r@[0]@ == p@,
        forall|i: int| 0 <= i < r@.len() - 1 ==> parent_of(#[trigger] r@[i]@) == Some(r@[i + 1]@),
        parent_of(r@.last()@) is None,
{
    Utf8Path::new(p).ancestors().map(|a| a.as_str().to_string()).collect()
}

/// Relies on camino's `Utf8Path::strip_prefix`: the rest of `p` after the base `base`.
#[verifier::external_body]
pub(crate) fn strip_prefix(p: &str, base: &str) -> (r: Option<String>)
    ensures
        view_opt(r) == stripped_of(p@, base@),
{
    Utf8Path::new(p).strip_prefix(base).ok().map(|q| q.as_str().to_string())
}

/// Relies on camino's `Utf8Path::file_name`: the final component of the path.
#[verifier::external_body]
pub(crate) fn file_name(p: &str) -> (r: Option<String>)
    ensures
        view_opt(r) == file_name_of(p@),
{
    Utf8Path::new(p).file_name().map(|q| q.to_string())
}

/// Relies on camino's `Utf8Path::join`: `p` adjoined to `base`.
#[verifier::external_body]
pub(crate) fn join(base: &str, p: &str) -> (r: String)
    ensures
        r@ == joined(base@, p@),
{
    Utf8Path::new(base).join(p).into_string()
}

proof fn lemma_ancestor_list(p: Seq<char>, r: Seq<Seq<char>>)
    requires
        r.len() >= 1,
        r[0] == p,
        forall|i: int| 0 <= i < r.len() - 1 ==> parent_of(#[trigger] r[i]) == Some(r[i + 1]),
        parent_of(r.last()) is None,
    ensures
        forall|n: nat| n < r.len() ==> ancestor_at(p, n) == Some(#[trigger] r[n as int]),
        forall|n: nat| n >= r.len() ==> #[trigger] ancestor_at(p, n) is None,
        forall|a: Seq<char>| is_ancestor(a, p) <==> r.contains(a),
{
    assert forall|n: nat| n < r.len() implies ancestor_at(p, n) == Some(#[trigger] r[n as int]) by {
        lemma_ancestor_prefix(p, r, n);
    }
    assert forall|n: nat| n >= r.len() implies #[trigger] ancestor_at(p, n) is None by {
        lemma_ancestor_past_end(p, r, n);
    }
    assert forall|a: Seq<char>| is_ancestor(a, p) <==> r.contains(a) by {
        if is_ancestor(a, p) {
            let n = choose|n: nat| ancestor_at(p, n) == Some(a);
            if n >= r.len() {
                lemma_ancestor_past_end(p, r, n);
            } else {
                lemma_ancestor_prefix(p, r, n);
            }
        }
        if r.contains(a) {
            let i = choose|i: int| 0 <= i < r.len() && r[i] == a;
            lemma_ancestor_prefix(p, r, i as nat);
        }
    }
}

proof fn lemma_ancestor_prefix(p: Seq<char>, r: Seq<Seq<char>>, n: nat)
    requires
        r.len() >= 1,
        r[0] == p,
        forall|i: int| 0 <= i < r.len() - 1 ==> parent_of(#[trigger] r[i]) == Some(r[i + 1]),
        n < r.len(),
    ensures
        ancestor_at(p, n) == Some(r[n as int]),
    decreases n,
{
    if n > 0 {
        lemma_ancestor_prefix(p, r, (n - 1) as nat);
        assert(parent_of(r[n - 1]) == Some(r[n as int]));
    }
}

proof fn lemma_ancestor_past_end(p: Seq<char>, r: Seq<Seq<char>>, n: nat)
    requires
        r.len() >= 1,
        r[0] == p,
        forall|i: int| 0 <= i < r.len() - 1 ==> parent_of(#[trigger] r[i]) == Some(r[i + 1]),
        parent_of(r.last()) is None,
        n >= r.len(),
    ensures
        ancestor_at(p, n) is None,
    decreases n,
{
    if n == r.len() {
        lemma_ancestor_prefix(p, r, (n - 1) as nat);
    } else {
        lemma_ancestor_past_end(p, r, (n - 1) as nat);
    }
}

/// The path itself and all its ancestors, as `Utf8Path::ancestors` yields them.
pub fn ancestors(p: &str) -> (r: Vec<String>)
    ensures
        r@.len() >= 1,
        forall|n: nat| n < r@.len() ==> ancestor_at(p@, n) == Some(#[trigger] r@[n as int]@),
        forall|n: nat| n >= r@.len() ==> #[trigger] ancestor_at(p@, n) is None,
        forall|a: Seq<char>| is_ancestor(a, p@) <==> crate::sorted::views(r@).contains(a),
{
    let r = ancestor_list(p);
    let ghost rv = crate::sorted::views(r@);
    proof {
        lemma_ancestor_list(p@, rv);
        assert forall|n: nat| n < r@.len() implies ancestor_at(p@, n) == Some(#[trigger] r@[n as int]@) by {
            assert(rv[n as int] == r@[n as int]@);
        }
    }
    r
}

/// Whether the path ends in a separator.
pub fn ends_with_separator(p: &str) -> (r: bool)
    ensures
        r == ends_with_separator_spec(p@),
{
    let n = p.unicode_len();
    n > 0 && p.get_char(n - 1) == SEPARATOR
}

/// The path with every separator at its end taken off.
pub fn trim_trailing_separators(p: &str) -> (r: String)
    ensures
        r@ == trim_separators(p@),
{
    let mut n = p.unicode_len();
    assert(p@.subrange(0, n as int) == p@);
    while n > 0 && p.get_char(n - 1) == SEPARATOR
        invariant
            n <= p@.len(),
            trim_separators(p@) == trim_separators(p@.subrange(0, n as int)),
        decreases n,
    {
        assert(p@.subrange(0, n as int).drop_last() == p@.subrange(0, n - 1));
        n = n - 1;
    }
    let r = p.substring_char(0, n);
    r.to_string()
}

} // verus!
