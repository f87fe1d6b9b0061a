//! The normalization is idempotent.
//!
//! The steps of the normalization are run on the model of the file
//! system. After one run every required directory is there, nothing is
//! left of the log directory, and every compatibility symlink stands
//! alone in its place; and on a root of which that holds, a run changes
//! nothing.

use vstd::prelude::*;
use crate::normalize::{
    apart, chain, ensure_dir, lemma_apart, lemma_chain_kept_by_ensure, lemma_chain_kept_by_link,
    lemma_chain_kept_by_remove, lemma_ensure_dir_fixed, lemma_ensure_dir_makes, lemma_link_fixed,
    lemma_link_kept_by_link, lemma_link_made, lemma_link_removed, lemma_void_fixed,
    lemma_void_kept_by_link, linked, normalized, put_link, remove_tree, run, step, void, Node,
};
use crate::rootfs::{normalization, StepView};

verus! {

/// The root as the normalization leaves it: the required directories
/// are there, the log directory is not, and the compatibility symlinks
/// stand in their places.
pub open spec fn settled(fs: Map<Seq<char>, Node>) -> bool {
    &&& chain(fs, "boot"@)
    &&& chain(fs, "sysroot"@)
    &&& chain(fs, "var/home"@)
    &&& chain(fs, "var/roothome"@)
    &&& chain(fs, "sysroot/ostree"@)
    &&& void(fs, "var/log"@)
    &&& linked(fs, "home"@, "var/home"@)
    &&& linked(fs, "root"@, "var/roothome"@)
    &&& linked(fs, "usr/local"@, "var/usrlocal"@)
    &&& linked(fs, "srv"@, "var/srv"@)
    &&& linked(fs, "ostree"@, "sysroot/ostree"@)
}

/// The paths of the normalization, as far as they are not nested, are apart.
pub open spec fn layout() -> bool {
    &&& apart("var/log"@, "boot"@)
    &&& apart("var/log"@, "sysroot"@)
    &&& apart("var/log"@, "var/home"@)
    &&& apart("var/log"@, "var/roothome"@)
    &&& apart("var/log"@, "sysroot/ostree"@)
    &&& apart("home"@, "boot"@)
    &&& apart("home"@, "sysroot"@)
    &&& apart("home"@, "var/home"@)
    &&& apart("home"@, "var/roothome"@)
    &&& apart("home"@, "sysroot/ostree"@)
    &&& apart("root"@, "boot"@)
    &&& apart("root"@, "sysroot"@)
    &&& apart("root"@, "var/home"@)
    &&& apart("root"@, "var/roothome"@)
    &&& apart("root"@, "sysroot/ostree"@)
    &&& apart("usr/local"@, "boot"@)
    &&& apart("usr/local"@, "sysroot"@)
    &&& apart("usr/local"@, "var/home"@)
    &&& apart("usr/local"@, "var/roothome"@)
    &&& apart("usr/local"@, "sysroot/ostree"@)
    &&& apart("srv"@, "boot"@)
    &&& apart("srv"@, "sysroot"@)
    &&& apart("srv"@, "var/home"@)
    &&& apart("srv"@, "var/roothome"@)
    &&& apart("srv"@, "sysroot/ostree"@)
    &&& apart("ostree"@, "boot"@)
    &&& apart("ostree"@, "sysroot"@)
    &&& apart("ostree"@, "var/home"@)
    &&& apart("ostree"@, "var/roothome"@)
    &&& apart("ostree"@, "sysroot/ostree"@)
    &&& apart("var/log"@, "home"@)
    &&& apart("var/log"@, "root"@)
    &&& apart("var/log"@, "usr/local"@)
    &&& apart("var/log"@, "srv"@)
    &&& apart("var/log"@, "ostree"@)
    &&& apart("home"@, "root"@)
    &&& apart("home"@, "usr/local"@)
    &&& apart("home"@, "srv"@)
    &&& apart("home"@, "ostree"@)
    &&& apart("root"@, "usr/local"@)
    &&& apart("root"@, "srv"@)
    &&& apart("root"@, "ostree"@)
    &&& apart("usr/local"@, "srv"@)
    &&& apart("usr/local"@, "ostree"@)
    &&& apart("srv"@, "ostree"@)
}

/// The paths of the normalization are apart: each two differ at some place.
pub proof fn lemma_layout()
    ensures
        layout(),
{
    reveal_strlit("boot");
    reveal_strlit("home");
    reveal_strlit("ostree");
    reveal_strlit("root");
    reveal_strlit("srv");
    reveal_strlit("sysroot");
    reveal_strlit("sysroot/ostree");
    reveal_strlit("usr/local");
    reveal_strlit("var/home");
    reveal_strlit("var/log");
    reveal_strlit("var/roothome");
    reveal_strlit("var/srv");
    reveal_strlit("var/usrlocal");
    lemma_apart("var/log"@, "boot"@, 0);
    lemma_apart("var/log"@, "sysroot"@, 0);
    lemma_apart("var/log"@, "var/home"@, 4);
    lemma_apart("var/log"@, "var/roothome"@, 4);
    lemma_apart("var/log"@, "sysroot/ostree"@, 0);
    lemma_apart("home"@, "boot"@, 0);
    lemma_apart("home"@, "sysroot"@, 0);
    lemma_apart("home"@, "var/home"@, 0);
    lemma_apart("home"@, "var/roothome"@, 0);
    lemma_apart("home"@, "sysroot/ostree"@, 0);
    lemma_apart("root"@, "boot"@, 0);
    lemma_apart("root"@, "sysroot"@, 0);
    lemma_apart("root"@, "var/home"@, 0);
    lemma_apart("root"@, "var/roothome"@, 0);
    lemma_apart("root"@, "sysroot/ostree"@, 0);
    lemma_apart("usr/local"@, "boot"@, 0);
    lemma_apart("usr/local"@, "sysroot"@, 0);
    lemma_apart("usr/local"@, "var/home"@, 0);
    lemma_apart("usr/local"@, "var/roothome"@, 0);
    lemma_apart("usr/local"@, "sysroot/ostree"@, 0);
    lemma_apart("srv"@, "boot"@, 0);
    lemma_apart("srv"@, "sysroot"@, 1);
    lemma_apart("srv"@, "var/home"@, 0);
    lemma_apart("srv"@, "var/roothome"@, 0);
    lemma_apart("srv"@, "sysroot/ostree"@, 1);
    lemma_apart("ostree"@, "boot"@, 0);
    lemma_apart("ostree"@, "sysroot"@, 0);
    lemma_apart("ostree"@, "var/home"@, 0);
    lemma_apart("ostree"@, "var/roothome"@, 0);
    lemma_apart("ostree"@, "sysroot/ostree"@, 0);
    lemma_apart("var/log"@, "home"@, 0);
    lemma_apart("var/log"@, "root"@, 0);
    lemma_apart("var/log"@, "usr/local"@, 0);
    lemma_apart("var/log"@, "srv"@, 0);
    lemma_apart("var/log"@, "ostree"@, 0);
    lemma_apart("home"@, "root"@, 0);
    lemma_apart("home"@, "usr/local"@, 0);
    lemma_apart("home"@, "srv"@, 0);
    lemma_apart("home"@, "ostree"@, 0);
    lemma_apart("root"@, "usr/local"@, 0);
    lemma_apart("root"@, "srv"@, 0);
    lemma_apart("root"@, "ostree"@, 0);
    lemma_apart("usr/local"@, "srv"@, 0);
    lemma_apart("usr/local"@, "ostree"@, 0);
    lemma_apart("srv"@, "ostree"@, 0);
}

/// The steps of the normalization, one by one.
pub proof fn lemma_steps()
    ensures
        normalization().len() == 16,
        normalization()[0] == StepView::EnsureDir("boot"@),
        normalization()[1] == StepView::EnsureDir("sysroot"@),
        normalization()[2] == StepView::EnsureDir("var/home"@),
        normalization()[3] == StepView::EnsureDir("var/roothome"@),
        normalization()[4] == StepView::EnsureDir("sysroot/ostree"@),
        normalization()[5] == StepView::RemoveTree("var/log"@),
        normalization()[6] == StepView::RemoveTree("home"@),
        normalization()[7] == StepView::RemoveTree("root"@),
        normalization()[8] == StepView::RemoveTree("usr/local"@),
        normalization()[9] == StepView::RemoveTree("srv"@),
        normalization()[10] == (StepView::Symlink { link: "home"@, target: "var/home"@ }),
        normalization()[11] == (StepView::Symlink { link: "root"@, target: "var/roothome"@ }),
        normalization()[12] == (StepView::Symlink { link: "usr/local"@, target: "var/usrlocal"@ }),
        normalization()[13] == (StepView::Symlink { link: "srv"@, target: "var/srv"@ }),
        normalization()[14] == (StepView::Symlink { link: "ostree"@, target: "sysroot/ostree"@ }),
        normalization()[15] == StepView::StripUsermeta,
{
}

/// A run that can be done can be done up to each of its steps.
pub proof fn lemma_run_prefix(fs: Map<Seq<char>, Node>, steps: Seq<StepView>, n: int, m: int)
    requires
        0 <= n <= m,
        run(fs, steps, m) is Some,
    ensures
        run(fs, steps, n) is Some,
    decreases m,
{
    if n < m {
        lemma_run_prefix(fs, steps, n, m - 1);
    }
}

/// A root that was normalized is settled.
pub proof fn lemma_normalization_settles(fs: Map<Seq<char>, Node>)
    requires
        normalized(fs) is Some,
    ensures
        settled(normalized(fs)->0),
{
    lemma_layout();
    lemma_steps();
    let st = normalization();
    let r0 = fs;
    assert(run(fs, st, 0) == Some(r0));
    lemma_run_prefix(fs, st, 1, 16);
    let r1 = run(fs, st, 1)->0;
    assert(Some(r1) == step(r0, st[0]));
    assert(r1 == ensure_dir(r0, "boot"@)->0);
    lemma_ensure_dir_makes(r0, "boot"@);
    lemma_run_prefix(fs, st, 2, 16);
    let r2 = run(fs, st, 2)->0;
    assert(Some(r2) == step(r1, st[1]));
    assert(r2 == ensure_dir(r1, "sysroot"@)->0);
    lemma_ensure_dir_makes(r1, "sysroot"@);
    lemma_chain_kept_by_ensure(r1, "boot"@, "sysroot"@);
    lemma_run_prefix(fs, st, 3, 16);
    let r3 = run(fs, st, 3)->0;
    assert(Some(r3) == step(r2, st[2]));
    assert(r3 == ensure_dir(r2, "var/home"@)->0);
    lemma_ensure_dir_makes(r2, "var/home"@);
    lemma_chain_kept_by_ensure(r2, "boot"@, "var/home"@);
    lemma_chain_kept_by_ensure(r2, "sysroot"@, "var/home"@);
    lemma_run_prefix(fs, st, 4, 16);
    let r4 = run(fs, st, 4)->0;
    assert(Some(r4) == step(r3, st[3]));
    assert(r4 == ensure_dir(r3, "var/roothome"@)->0);
    lemma_ensure_dir_makes(r3, "var/roothome"@);
    lemma_chain_kept_by_ensure(r3, "boot"@, "var/roothome"@);
    lemma_chain_kept_by_ensure(r3, "sysroot"@, "var/roothome"@);
    lemma_chain_kept_by_ensure(r3, "var/home"@, "var/roothome"@);
    lemma_run_prefix(fs, st, 5, 16);
    let r5 = run(fs, st, 5)->0;
    assert(Some(r5) == step(r4, st[4]));
    assert(r5 == ensure_dir(r4, "sysroot/ostree"@)->0);
    lemma_ensure_dir_makes(r4, "sysroot/ostree"@);
    lemma_chain_kept_by_ensure(r4, "boot"@, "sysroot/ostree"@);
    lemma_chain_kept_by_ensure(r4, "sysroot"@, "sysroot/ostree"@);
    lemma_chain_kept_by_ensure(r4, "var/home"@, "sysroot/ostree"@);
    lemma_chain_kept_by_ensure(r4, "var/roothome"@, "sysroot/ostree"@);
    lemma_run_prefix(fs, st, 6, 16);
    let r6 = run(fs, st, 6)->0;
    assert(Some(r6) == step(r5, st[5]));
    assert(r6 == remove_tree(r5, "var/log"@));
    lemma_chain_kept_by_remove(r5, "boot"@, "var/log"@);
    lemma_chain_kept_by_remove(r5, "sysroot"@, "var/log"@);
    lemma_chain_kept_by_remove(r5, "var/home"@, "var/log"@);
    lemma_chain_kept_by_remove(r5, "var/roothome"@, "var/log"@);
    lemma_chain_kept_by_remove(r5, "sysroot/ostree"@, "var/log"@);
    assert(void(r6, "var/log"@));
    lemma_run_prefix(fs, st, 7, 16);
    let r7 = run(fs, st, 7)->0;
    assert(Some(r7) == step(r6, st[6]));
    assert(r7 == remove_tree(r6, "home"@));
    lemma_chain_kept_by_remove(r6, "boot"@, "home"@);
    lemma_chain_kept_by_remove(r6, "sysroot"@, "home"@);
    lemma_chain_kept_by_remove(r6, "var/home"@, "home"@);
    lemma_chain_kept_by_remove(r6, "var/roothome"@, "home"@);
    lemma_chain_kept_by_remove(r6, "sysroot/ostree"@, "home"@);
    assert(void(r7, "var/log"@));
    lemma_run_prefix(fs, st, 8, 16);
    let r8 = run(fs, st, 8)->0;
    assert(Some(r8) == step(r7, st[7]));
    assert(r8 == remove_tree(r7, "root"@));
    lemma_chain_kept_by_remove(r7, "boot"@, "root"@);
    lemma_chain_kept_by_remove(r7, "sysroot"@, "root"@);
    lemma_chain_kept_by_remove(r7, "var/home"@, "root"@);
    lemma_chain_kept_by_remove(r7, "var/roothome"@, "root"@);
    lemma_chain_kept_by_remove(r7, "sysroot/ostree"@, "root"@);
    assert(void(r8, "var/log"@));
    lemma_run_prefix(fs, st, 9, 16);
    let r9 = run(fs, st, 9)->0;
    assert(Some(r9) == step(r8, st[8]));
    assert(r9 == remove_tree(r8, "usr/local"@));
    lemma_chain_kept_by_remove(r8, "boot"@, "usr/local"@);
    lemma_chain_kept_by_remove(r8, "sysroot"@, "usr/local"@);
    lemma_chain_kept_by_remove(r8, "var/home"@, "usr/local"@);
    lemma_chain_kept_by_remove(r8, "var/roothome"@, "usr/local"@);
    lemma_chain_kept_by_remove(r8, "sysroot/ostree"@, "usr/local"@);
    assert(void(r9, "var/log"@));
    lemma_run_prefix(fs, st, 10, 16);
    let r10 = run(fs, st, 10)->0;
    assert(Some(r10) == step(r9, st[9]));
    assert(r10 == remove_tree(r9, "srv"@));
    lemma_chain_kept_by_remove(r9, "boot"@, "srv"@);
    lemma_chain_kept_by_remove(r9, "sysroot"@, "srv"@);
    lemma_chain_kept_by_remove(r9, "var/home"@, "srv"@);
    lemma_chain_kept_by_remove(r9, "var/roothome"@, "srv"@);
    lemma_chain_kept_by_remove(r9, "sysroot/ostree"@, "srv"@);
    assert(void(r10, "var/log"@));
    lemma_run_prefix(fs, st, 11, 16);
    let r11 = run(fs, st, 11)->0;
    assert(Some(r11) == step(r10, st[10]));
    assert(r11 == put_link(r10, "home"@, "var/home"@)->0);
    lemma_chain_kept_by_link(r10, "boot"@, "home"@, "var/home"@);
    lemma_chain_kept_by_link(r10, "sysroot"@, "home"@, "var/home"@);
    lemma_chain_kept_by_link(r10, "var/home"@, "home"@, "var/home"@);
    lemma_chain_kept_by_link(r10, "var/roothome"@, "home"@, "var/home"@);
    lemma_chain_kept_by_link(r10, "sysroot/ostree"@, "home"@, "var/home"@);
    lemma_void_kept_by_link(r10, "var/log"@, "home"@, "var/home"@);
    lemma_link_made(r10, "home"@, "var/home"@);
    lemma_run_prefix(fs, st, 12, 16);
    let r12 = run(fs, st, 12)->0;
    assert(Some(r12) == step(r11, st[11]));
    assert(r12 == put_link(r11, "root"@, "var/roothome"@)->0);
    lemma_chain_kept_by_link(r11, "boot"@, "root"@, "var/roothome"@);
    lemma_chain_kept_by_link(r11, "sysroot"@, "root"@, "var/roothome"@);
    lemma_chain_kept_by_link(r11, "var/home"@, "root"@, "var/roothome"@);
    lemma_chain_kept_by_link(r11, "var/roothome"@, "root"@, "var/roothome"@);
    lemma_chain_kept_by_link(r11, "sysroot/ostree"@, "root"@, "var/roothome"@);
    lemma_void_kept_by_link(r11, "var/log"@, "root"@, "var/roothome"@);
    lemma_link_made(r11, "root"@, "var/roothome"@);
    lemma_link_kept_by_link(r11, "home"@, "var/home"@, "root"@, "var/roothome"@);
    lemma_run_prefix(fs, st, 13, 16);
    let r13 = run(fs, st, 13)->0;
    assert(Some(r13) == step(r12, st[12]));
    assert(r13 == put_link(r12, "usr/local"@, "var/usrlocal"@)->0);
    lemma_chain_kept_by_link(r12, "boot"@, "usr/local"@, "var/usrlocal"@);
    lemma_chain_kept_by_link(r12, "sysroot"@, "usr/local"@, "var/usrlocal"@);
    lemma_chain_kept_by_link(r12, "var/home"@, "usr/local"@, "var/usrlocal"@);
    lemma_chain_kept_by_link(r12, "var/roothome"@, "usr/local"@, "var/usrlocal"@);
    lemma_chain_kept_by_link(r12, "sysroot/ostree"@, "usr/local"@, "var/usrlocal"@);
    lemma_void_kept_by_link(r12, "var/log"@, "usr/local"@, "var/usrlocal"@);
    lemma_link_made(r12, "usr/local"@, "var/usrlocal"@);
    lemma_link_kept_by_link(r12, "home"@, "var/home"@, "usr/local"@, "var/usrlocal"@);
    lemma_link_kept_by_link(r12, "root"@, "var/roothome"@, "usr/local"@, "var/usrlocal"@);
    lemma_run_prefix(fs, st, 14, 16);
    let r14 = run(fs, st, 14)->0;
    assert(Some(r14) == step(r13, st[13]));
    assert(r14 == put_link(r13, "srv"@, "var/srv"@)->0);
    lemma_chain_kept_by_link(r13, "boot"@, "srv"@, "var/srv"@);
    lemma_chain_kept_by_link(r13, "sysroot"@, "srv"@, "var/srv"@);
    lemma_chain_kept_by_link(r13, "var/home"@, "srv"@, "var/srv"@);
    lemma_chain_kept_by_link(r13, "var/roothome"@, "srv"@, "var/srv"@);
    lemma_chain_kept_by_link(r13, "sysroot/ostree"@, "srv"@, "var/srv"@);
    lemma_void_kept_by_link(r13, "var/log"@, "srv"@, "var/srv"@);
    lemma_link_made(r13, "srv"@, "var/srv"@);
    lemma_link_kept_by_link(r13, "home"@, "var/home"@, "srv"@, "var/srv"@);
    lemma_link_kept_by_link(r13, "root"@, "var/roothome"@, "srv"@, "var/srv"@);
    lemma_link_kept_by_link(r13, "usr/local"@, "var/usrlocal"@, "srv"@, "var/srv"@);
    lemma_run_prefix(fs, st, 15, 16);
    let r15 = run(fs, st, 15)->0;
    assert(Some(r15) == step(r14, st[14]));
    assert(r15 == put_link(r14, "ostree"@, "sysroot/ostree"@)->0);
    lemma_chain_kept_by_link(r14, "boot"@, "ostree"@, "sysroot/ostree"@);
    lemma_chain_kept_by_link(r14, "sysroot"@, "ostree"@, "sysroot/ostree"@);
    lemma_chain_kept_by_link(r14, "var/home"@, "ostree"@, "sysroot/ostree"@);
    lemma_chain_kept_by_link(r14, "var/roothome"@, "ostree"@, "sysroot/ostree"@);
    lemma_chain_kept_by_link(r14, "sysroot/ostree"@, "ostree"@, "sysroot/ostree"@);
    lemma_void_kept_by_link(r14, "var/log"@, "ostree"@, "sysroot/ostree"@);
    lemma_link_made(r14, "ostree"@, "sysroot/ostree"@);
    lemma_link_kept_by_link(r14, "home"@, "var/home"@, "ostree"@, "sysroot/ostree"@);
    lemma_link_kept_by_link(r14, "root"@, "var/roothome"@, "ostree"@, "sysroot/ostree"@);
    lemma_link_kept_by_link(r14, "usr/local"@, "var/usrlocal"@, "ostree"@, "sysroot/ostree"@);
    lemma_link_kept_by_link(r14, "srv"@, "var/srv"@, "ostree"@, "sysroot/ostree"@);
    lemma_run_prefix(fs, st, 16, 16);
    let r16 = run(fs, st, 16)->0;
    assert(Some(r16) == step(r15, st[15]));
    assert(r16 == r15);
}

/// The normalization changes nothing of a root that is settled.
pub proof fn lemma_settled_is_fixed(fs: Map<Seq<char>, Node>)
    requires
        settled(fs),
    ensures
        normalized(fs) == Some(fs),
{
    lemma_layout();
    lemma_steps();
    let st = normalization();
    assert(run(fs, st, 0) == Some(fs));
    lemma_ensure_dir_fixed(fs, "boot"@);
    assert(run(fs, st, 1) == Some(fs));
    lemma_ensure_dir_fixed(fs, "sysroot"@);
    assert(run(fs, st, 2) == Some(fs));
    lemma_ensure_dir_fixed(fs, "var/home"@);
    assert(run(fs, st, 3) == Some(fs));
    lemma_ensure_dir_fixed(fs, "var/roothome"@);
    assert(run(fs, st, 4) == Some(fs));
    lemma_ensure_dir_fixed(fs, "sysroot/ostree"@);
    assert(run(fs, st, 5) == Some(fs));
    lemma_void_fixed(fs, "var/log"@);
    assert(run(fs, st, 6) == Some(fs));
    let a7 = fs.remove("home"@);
    lemma_link_removed(fs, "home"@, "var/home"@);
    assert(remove_tree(fs, "home"@) =~= a7);
    assert(run(fs, st, 7) == Some(a7));
    let a8 = a7.remove("root"@);
    lemma_link_removed(fs, "root"@, "var/roothome"@);
    assert(remove_tree(a7, "root"@) =~= a8);
    assert(run(fs, st, 8) == Some(a8));
    let a9 = a8.remove("usr/local"@);
    lemma_link_removed(fs, "usr/local"@, "var/usrlocal"@);
    assert(remove_tree(a8, "usr/local"@) =~= a9);
    assert(run(fs, st, 9) == Some(a9));
    let a10 = a9.remove("srv"@);
    lemma_link_removed(fs, "srv"@, "var/srv"@);
    assert(remove_tree(a9, "srv"@) =~= a10);
    assert(run(fs, st, 10) == Some(a10));
    let a11 = a10.insert("home"@, Node::Link("var/home"@));
    assert(put_link(a10, "home"@, "var/home"@) is Some) by {
        assert forall|q: Seq<char>|
            #[trigger] crate::normalize::within(q, "home"@) && q != "home"@ implies a10.dom().contains(q)
            && a10[q] is Dir by {
            assert(fs.dom().contains(q) && fs[q] is Dir);
        }
    }
    assert(put_link(a10, "home"@, "var/home"@)->0 =~= a11);
    assert(run(fs, st, 11) == Some(a11));
    let a12 = a11.insert("root"@, Node::Link("var/roothome"@));
    assert(put_link(a11, "root"@, "var/roothome"@) is Some) by {
        assert forall|q: Seq<char>|
            #[trigger] crate::normalize::within(q, "root"@) && q != "root"@ implies a11.dom().contains(q)
            && a11[q] is Dir by {
            assert(fs.dom().contains(q) && fs[q] is Dir);
        }
    }
    assert(put_link(a11, "root"@, "var/roothome"@)->0 =~= a12);
    assert(run(fs, st, 12) == Some(a12));
    let a13 = a12.insert("usr/local"@, Node::Link("var/usrlocal"@));
    assert(put_link(a12, "usr/local"@, "var/usrlocal"@) is Some) by {
        assert forall|q: Seq<char>|
            #[trigger] crate::normalize::within(q, "usr/local"@) && q != "usr/local"@ implies a12.dom().contains(q)
            && a12[q] is Dir by {
            assert(fs.dom().contains(q) && fs[q] is Dir);
        }
    }
    assert(put_link(a12, "usr/local"@, "var/usrlocal"@)->0 =~= a13);
    assert(run(fs, st, 13) == Some(a13));
    let a14 = a13.insert("srv"@, Node::Link("var/srv"@));
    assert(put_link(a13, "srv"@, "var/srv"@) is Some) by {
        assert forall|q: Seq<char>|
            #[trigger] crate::normalize::within(q, "srv"@) && q != "srv"@ implies a13.dom().contains(q)
            && a13[q] is Dir by {
            assert(fs.dom().contains(q) && fs[q] is Dir);
        }
    }
    assert(put_link(a13, "srv"@, "var/srv"@)->0 =~= a14);
    assert(run(fs, st, 14) == Some(a14));
    assert(a14 =~= fs);
    lemma_link_fixed(fs, "ostree"@, "sysroot/ostree"@);
    assert(run(fs, st, 15) == Some(fs));
    assert(run(fs, st, 16) == Some(fs));
}

/// The normalization is idempotent: done once more on a root that it
/// has normalized, it can be done and changes nothing.
pub proof fn law_normalization_idempotent(fs: Map<Seq<char>, Node>)
    requires
        normalized(fs) is Some,
    ensures
        normalized(normalized(fs)->0) == normalized(fs),
{
    lemma_normalization_settles(fs);
    lemma_settled_is_fixed(normalized(fs)->0);
}

} // verus!
