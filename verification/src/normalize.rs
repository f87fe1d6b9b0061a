//! What the normalization does to a root, on a model of the file system.
//!
//! The model holds, for every path of the root that exists, whether it
//! is a directory, a symlink or something else. Each step of the
//! normalization is a function on the model, and a step that cannot be
//! done (a directory in the place of which something else stands) has no
//! result. On this model the normalization is proved idempotent: done
//! once more on its own result, it changes nothing.

use vstd::prelude::*;
use crate::rootfs::{normalization, StepView};

verus! {

/// What stands at a path.
pub ghost enum Node {
    Dir,
    /// A symlink with its target.
    Link(Seq<char>),
    Other,
}

/// `p` is `top`, or lies below the directory `top`.
pub open spec fn within(top: Seq<char>, p: Seq<char>) -> bool {
    p == top || (top.len() < p.len() && p.subrange(0, top.len() as int) == top
        && p[top.len() as int] == '/')
}

/// Neither of the two paths is the other or lies below it.
pub open spec fn apart(a: Seq<char>, b: Seq<char>) -> bool {
    !within(a, b) && !within(b, a)
}

/// The root with the directory `dir` and all directories above it
/// created where they do not exist. There is no result if something that
/// is no directory stands in the place of one of them.
pub open spec fn ensure_dir(fs: Map<Seq<char>, Node>, dir: Seq<char>) -> Option<
    Map<Seq<char>, Node>,
> {
    if forall|q: Seq<char>| #[trigger] within(q, dir) && fs.dom().contains(q) ==> fs[q] is Dir {
        Some(
            Map::new(
                |q: Seq<char>| fs.dom().contains(q) || within(q, dir),
                |q: Seq<char>|
                    if fs.dom().contains(q) {
                        fs[q]
                    } else {
                        Node::Dir
                    },
            ),
        )
    } else {
        None
    }
}

/// The root without `top` and all that lies below it.
pub open spec fn remove_tree(fs: Map<Seq<char>, Node>, top: Seq<char>) -> Map<Seq<char>, Node> {
    Map::new(|q: Seq<char>| fs.dom().contains(q) && !within(top, q), |q: Seq<char>| fs[q])
}

/// The root with a symlink to `target` at `link`, in place of whatever
/// stood there. There is no result unless everything above the link is a
/// directory.
pub open spec fn put_link(fs: Map<Seq<char>, Node>, link: Seq<char>, target: Seq<char>) -> Option<
    Map<Seq<char>, Node>,
> {
    if forall|q: Seq<char>|
        #[trigger] within(q, link) && q != link ==> fs.dom().contains(q) && fs[q] is Dir {
        Some(remove_tree(fs, link).insert(link, Node::Link(target)))
    } else {
        None
    }
}

/// The root after one step. Stripping attributes changes no path.
pub open spec fn step(fs: Map<Seq<char>, Node>, s: StepView) -> Option<Map<Seq<char>, Node>> {
    match s {
        StepView::EnsureDir(dir) => ensure_dir(fs, dir),
        StepView::RemoveTree(top) => Some(remove_tree(fs, top)),
        StepView::Symlink { link, target } => put_link(fs, link, target),
        StepView::StripUsermeta => Some(fs),
    }
}

/// The root after the first `n` of the steps, if all of them can be done.
pub open spec fn run(fs: Map<Seq<char>, Node>, steps: Seq<StepView>, n: int) -> Option<
    Map<Seq<char>, Node>,
>
    decreases n,
{
    if n <= 0 {
        Some(fs)
    } else {
        match run(fs, steps, n - 1) {
            Some(s) => step(s, steps[n - 1]),
            None => None,
        }
    }
}

/// The root after the normalization, if it can be done.
pub open spec fn normalized(fs: Map<Seq<char>, Node>) -> Option<Map<Seq<char>, Node>> {
    run(fs, normalization(), normalization().len() as int)
}

/// `dir` and everything above it are directories.
pub open spec fn chain(fs: Map<Seq<char>, Node>, dir: Seq<char>) -> bool {
    forall|q: Seq<char>| #[trigger] within(q, dir) ==> fs.dom().contains(q) && fs[q] is Dir
}

/// Nothing stands at `top` or below it.
pub open spec fn void(fs: Map<Seq<char>, Node>, top: Seq<char>) -> bool {
    forall|q: Seq<char>| #[trigger] within(top, q) ==> !fs.dom().contains(q)
}

/// A symlink to `target` stands at `link`, nothing lies below it, and
/// everything above it is a directory.
pub open spec fn linked(fs: Map<Seq<char>, Node>, link: Seq<char>, target: Seq<char>) -> bool {
    &&& fs.dom().contains(link)
    &&& fs[link] == Node::Link(target)
    &&& forall|q: Seq<char>| #[trigger] within(link, q) && q != link ==> !fs.dom().contains(q)
    &&& forall|q: Seq<char>|
        #[trigger] within(q, link) && q != link ==> fs.dom().contains(q) && fs[q] is Dir
}

/// What lies within what lies within a path lies within that path.
pub proof fn lemma_within_trans(a: Seq<char>, b: Seq<char>, c: Seq<char>)
    requires
        within(a, b),
        within(b, c),
    ensures
        within(a, c),
{
    if a != b && b != c {
        assert(c.subrange(0, a.len() as int) =~= a) by {
            assert forall|i: int| 0 <= i < a.len() implies c[i] == a[i] by {
                assert(c.subrange(0, b.len() as int)[i] == b[i]);
                assert(b.subrange(0, a.len() as int)[i] == a[i]);
            }
        }
        assert(c.subrange(0, b.len() as int)[a.len() as int] == b[a.len() as int]);
    }
}

/// Two paths that lie within each other are the same.
pub proof fn lemma_within_antisymmetric(a: Seq<char>, b: Seq<char>)
    requires
        within(a, b),
        within(b, a),
    ensures
        a == b,
{
}

/// Two paths that differ at a place that both have are apart.
pub proof fn lemma_apart(a: Seq<char>, b: Seq<char>, k: int)
    requires
        0 <= k < a.len(),
        k < b.len(),
        a[k] != b[k],
    ensures
        apart(a, b),
{
    if within(a, b) && a != b {
        assert(b.subrange(0, a.len() as int)[k] == a[k]);
    }
    if within(b, a) && a != b {
        assert(a.subrange(0, b.len() as int)[k] == b[k]);
    }
}

/// After the directory is created, it and all above it are directories.
pub proof fn lemma_ensure_dir_makes(fs: Map<Seq<char>, Node>, dir: Seq<char>)
    requires
        ensure_dir(fs, dir) is Some,
    ensures
        chain(ensure_dir(fs, dir)->0, dir),
{
}

/// Creating a directory that is there changes nothing.
pub proof fn lemma_ensure_dir_fixed(fs: Map<Seq<char>, Node>, dir: Seq<char>)
    requires
        chain(fs, dir),
    ensures
        ensure_dir(fs, dir) == Some(fs),
{
    assert(ensure_dir(fs, dir) is Some);
    assert(ensure_dir(fs, dir)->0 =~= fs);
}

/// Creating one directory leaves another one as it is.
pub proof fn lemma_chain_kept_by_ensure(fs: Map<Seq<char>, Node>, dir: Seq<char>, other: Seq<char>)
    requires
        chain(fs, dir),
        ensure_dir(fs, other) is Some,
    ensures
        chain(ensure_dir(fs, other)->0, dir),
{
}

/// Removing a tree that a directory does not lie in leaves the directory.
pub proof fn lemma_chain_kept_by_remove(fs: Map<Seq<char>, Node>, dir: Seq<char>, top: Seq<char>)
    requires
        chain(fs, dir),
        !within(top, dir),
    ensures
        chain(remove_tree(fs, top), dir),
{
    assert forall|q: Seq<char>| #[trigger] within(q, dir) implies remove_tree(
        fs,
        top,
    ).dom().contains(q) && remove_tree(fs, top)[q] is Dir by {
        if within(top, q) {
            lemma_within_trans(top, q, dir);
        }
    }
}

/// Putting a link where a directory does not lie leaves the directory.
pub proof fn lemma_chain_kept_by_link(
    fs: Map<Seq<char>, Node>,
    dir: Seq<char>,
    link: Seq<char>,
    target: Seq<char>,
)
    requires
        chain(fs, dir),
        !within(link, dir),
        put_link(fs, link, target) is Some,
    ensures
        chain(put_link(fs, link, target)->0, dir),
{
    let after = put_link(fs, link, target)->0;
    assert forall|q: Seq<char>| #[trigger] within(q, dir) implies after.dom().contains(q)
        && after[q] is Dir by {
        if within(link, q) {
            lemma_within_trans(link, q, dir);
        }
    }
}

/// Removing a tree that is not there changes nothing.
pub proof fn lemma_void_fixed(fs: Map<Seq<char>, Node>, top: Seq<char>)
    requires
        void(fs, top),
    ensures
        remove_tree(fs, top) == fs,
{
    assert(remove_tree(fs, top) =~= fs);
}

/// Putting a link outside a place where nothing stands leaves the place empty.
pub proof fn lemma_void_kept_by_link(
    fs: Map<Seq<char>, Node>,
    top: Seq<char>,
    link: Seq<char>,
    target: Seq<char>,
)
    requires
        void(fs, top),
        !within(top, link),
        put_link(fs, link, target) is Some,
    ensures
        void(put_link(fs, link, target)->0, top),
{
}

/// After a link is put, it stands there alone, below directories.
pub proof fn lemma_link_made(fs: Map<Seq<char>, Node>, link: Seq<char>, target: Seq<char>)
    requires
        put_link(fs, link, target) is Some,
    ensures
        linked(put_link(fs, link, target)->0, link, target),
{
    let after = put_link(fs, link, target)->0;
    assert forall|q: Seq<char>| #[trigger] within(q, link) && q != link implies after.dom().contains(
        q,
    ) && after[q] is Dir by {
        if within(link, q) {
            lemma_within_antisymmetric(link, q);
        }
    }
}

/// Putting a link apart from another one leaves the other one as it is.
pub proof fn lemma_link_kept_by_link(
    fs: Map<Seq<char>, Node>,
    link: Seq<char>,
    target: Seq<char>,
    other: Seq<char>,
    other_target: Seq<char>,
)
    requires
        linked(fs, link, target),
        apart(link, other),
        put_link(fs, other, other_target) is Some,
    ensures
        linked(put_link(fs, other, other_target)->0, link, target),
{
    let after = put_link(fs, other, other_target)->0;
    assert forall|q: Seq<char>| #[trigger] within(link, q) && q != link implies !after.dom().contains(
        q,
    ) by {}
    assert forall|q: Seq<char>| #[trigger] within(q, link) && q != link implies after.dom().contains(
        q,
    ) && after[q] is Dir by {
        if within(other, q) {
            lemma_within_trans(other, q, link);
        }
    }
}

/// Putting a link that is there changes nothing.
pub proof fn lemma_link_fixed(fs: Map<Seq<char>, Node>, link: Seq<char>, target: Seq<char>)
    requires
        linked(fs, link, target),
    ensures
        put_link(fs, link, target) == Some(fs),
{
    assert(put_link(fs, link, target) is Some);
    assert(put_link(fs, link, target)->0 =~= fs);
}

/// Removing a link and putting it again, with steps in between that
/// touch neither it nor what lies above it, gives back the root: removing
/// the tree at a link removes the link alone.
pub proof fn lemma_link_removed(fs: Map<Seq<char>, Node>, link: Seq<char>, target: Seq<char>)
    requires
        linked(fs, link, target),
    ensures
        remove_tree(fs, link) == fs.remove(link),
{
    assert(remove_tree(fs, link) =~= fs.remove(link));
}

} // verus!
