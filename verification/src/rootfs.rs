//! The layout that a staged root must have before it is committed.
//!
//! The normalizer makes a populated root fit for a commit: it creates
//! the directories that must exist, removes those that must not, points
//! the compatibility symlinks of the top level into `/var`, and strips
//! left-over `user.ostreemeta` attributes. The steps are data: the file
//! system work is done by whoever runs them, in their order.

use vstd::prelude::*;
use vstd::string::*;
use crate::tree::Xattr;

verus! {

/// One step of the normalization. Paths are relative to the staged root.
#[derive(Debug)]
pub enum NormalizeStep {
    /// Create the directory and its parents, unless they exist.
    EnsureDir(String),
    /// Remove the directory with all below it, if it exists.
    RemoveTree(String),
    /// Put a relative symlink to `target` at `link`, in place of whatever is there.
    Symlink { link: String, target: String },
    /// Strip the attribute `user.ostreemeta` from everything that is no directory.
    StripUsermeta,
}

/// What a `NormalizeStep` holds, as plain values.
pub ghost enum StepView {
    EnsureDir(Seq<char>),
    RemoveTree(Seq<char>),
    Symlink { link: Seq<char>, target: Seq<char> },
    StripUsermeta,
}

impl View for NormalizeStep {
    type V = StepView;

    open spec fn view(&self) -> StepView {
        match self {
            NormalizeStep::EnsureDir(p) => StepView::EnsureDir(p@),
            NormalizeStep::RemoveTree(p) => StepView::RemoveTree(p@),
            NormalizeStep::Symlink { link, target } => StepView::Symlink {
                link: link@,
                target: target@,
            },
            NormalizeStep::StripUsermeta => StepView::StripUsermeta,
        }
    }
}

/// The views of a list of steps.
pub open spec fn step_views(steps: Seq<NormalizeStep>) -> Seq<StepView> {
    Seq::new(steps.len(), |i: int| steps[i]@)
}

/// The directories that must exist.
pub open spec fn required_dirs() -> Seq<Seq<char>> {
    seq!["boot"@, "sysroot"@, "var/home"@, "var/roothome"@, "sysroot/ostree"@]
}

/// The directories that must not exist.
pub open spec fn forbidden_dirs() -> Seq<Seq<char>> {
    seq!["var/log"@, "home"@, "root"@, "usr/local"@, "srv"@]
}

/// The compatibility symlinks: each link with its target.
pub open spec fn compat_symlinks() -> Seq<(Seq<char>, Seq<char>)> {
    seq![
        ("home"@, "var/home"@),
        ("root"@, "var/roothome"@),
        ("usr/local"@, "var/usrlocal"@),
        ("srv"@, "var/srv"@),
        ("ostree"@, "sysroot/ostree"@),
    ]
}

/// The steps of the normalization in their order: the required
/// directories, the forbidden directories, the symlinks, the attributes.
pub open spec fn normalization() -> Seq<StepView> {
    Seq::new(5, |i: int| StepView::EnsureDir(required_dirs()[i])) + Seq::new(
        5,
        |i: int| StepView::RemoveTree(forbidden_dirs()[i]),
    ) + Seq::new(
        5,
        |i: int| StepView::Symlink { link: compat_symlinks()[i].0, target: compat_symlinks()[i].1 },
    ) + seq![StepView::StripUsermeta]
}

fn symlink_step(link: &str, target: &str) -> (s: NormalizeStep)
    ensures
        s@ == (StepView::Symlink { link: link@, target: target@ }),
{
    NormalizeStep::Symlink { link: link.to_owned(), target: target.to_owned() }
}

/// The steps that make a populated root fit for a commit. Done once
/// more on a root that they have normalized, they change nothing of it
/// (`crate::idempotence::law_normalization_idempotent`).
pub fn install_filesystem() -> (steps: Vec<NormalizeStep>)
    ensures
        step_views(steps@) == normalization(),
{
    let mut steps: Vec<NormalizeStep> = Vec::new();
    steps.push(NormalizeStep::EnsureDir("boot".to_owned()));
    steps.push(NormalizeStep::EnsureDir("sysroot".to_owned()));
    steps.push(NormalizeStep::EnsureDir("var/home".to_owned()));
    steps.push(NormalizeStep::EnsureDir("var/roothome".to_owned()));
    steps.push(NormalizeStep::EnsureDir("sysroot/ostree".to_owned()));
    steps.push(NormalizeStep::RemoveTree("var/log".to_owned()));
    steps.push(NormalizeStep::RemoveTree("home".to_owned()));
    steps.push(NormalizeStep::RemoveTree("root".to_owned()));
    steps.push(NormalizeStep::RemoveTree("usr/local".to_owned()));
    steps.push(NormalizeStep::RemoveTree("srv".to_owned()));
    steps.push(symlink_step("home", "var/home"));
    steps.push(symlink_step("root", "var/roothome"));
    steps.push(symlink_step("usr/local", "var/usrlocal"));
    steps.push(symlink_step("srv", "var/srv"));
    steps.push(symlink_step("ostree", "sysroot/ostree"));
    steps.push(NormalizeStep::StripUsermeta);
    proof {
        assert(step_views(steps@) =~= normalization());
    }
    steps
}

/// What a `user.ostreemeta` attribute holds: owner, mode and attributes.
#[derive(Debug)]
pub struct UserMeta {
    pub uid: u32,
    pub gid: u32,
    pub mode: u32,
    pub xattrs: Vec<Xattr>,
}

/// What stripping the `user.ostreemeta` attributes found.
#[derive(Debug)]
pub struct XattrRemovalInfo {
    /// The names of the attributes found inside, each once, in the order
    /// in which they were first seen.
    pub names: Vec<Vec<u8>>,
    /// The number of files that carried the attribute, at most `u64::MAX`.
    pub count: u64,
}

/// The views of a list of byte strings.
pub open spec fn name_views(names: Seq<Vec<u8>>) -> Seq<Seq<u8>> {
    Seq::new(names.len(), |i: int| names[i]@)
}

/// The names `names` with the names of the first `n` attributes added,
/// each unless it is there already.
pub open spec fn names_with(names: Seq<Seq<u8>>, xattrs: Seq<Xattr>, n: int) -> Seq<Seq<u8>>
    decreases n,
{
    if n <= 0 {
        names
    } else {
        let before = names_with(names, xattrs, n - 1);
        if before.contains(xattrs[n - 1].0@) {
            before
        } else {
            before.push(xattrs[n - 1].0@)
        }
    }
}

/// The count `count` raised by `n` files, at most `u64::MAX`.
pub open spec fn count_with(count: u64, n: int) -> u64 {
    if count + n > u64::MAX {
        u64::MAX
    } else {
        (count + n) as u64
    }
}

/// Whether two byte strings are the same.
pub fn same_bytes(a: &Vec<u8>, b: &Vec<u8>) -> (r: bool)
    ensures
        r == (a@ == b@),
{
    if a.len() != b.len() {
        return false;
    }
    let mut i: usize = 0;
    while i < a.len()
        invariant
            i <= a.len(),
            a.len() == b.len(),
            forall|k: int| 0 <= k < i ==> a@[k] == b@[k],
        decreases a.len() - i,
    {
        if a[i] != b[i] {
            return false;
        }
        i += 1;
    }
    assert(a@ =~= b@);
    true
}

impl Default for XattrRemovalInfo {
    fn default() -> (info: XattrRemovalInfo)
        ensures
            info.wf(),
            info.names@.len() == 0,
            info.count == 0,
    {
        XattrRemovalInfo { names: Vec::new(), count: 0 }
    }
}

impl XattrRemovalInfo {
    /// No name is listed twice.
    pub open spec fn wf(&self) -> bool {
        name_views(self.names@).no_duplicates()
    }

    /// Whether `name` is listed.
    pub fn contains(&self, name: &Vec<u8>) -> (b: bool)
        ensures
            b == name_views(self.names@).contains(name@),
    {
        let mut i: usize = 0;
        while i < self.names.len()
            invariant
                i <= self.names.len(),
                forall|k: int| 0 <= k < i ==> name_views(self.names@)[k] != name@,
            decreases self.names.len() - i,
        {
            assert(name_views(self.names@)[i as int] == self.names@[i as int]@);
            if same_bytes(&self.names[i], name) {
                return true;
            }
            i += 1;
        }
        false
    }

    /// Notes the `user.ostreemeta` attribute of one file: the file is
    /// counted, whether or not the attribute held any attribute inside,
    /// and the name of each attribute inside goes into the set of names.
    /// The owner and the mode that it held are not used.
    pub fn note_usermeta(&mut self, meta: &UserMeta)
        requires
            old(self).wf(),
        ensures
            final(self).wf(),
            name_views(final(self).names@) == names_with(
                name_views(old(self).names@),
                meta.xattrs@,
                meta.xattrs@.len() as int,
            ),
            final(self).count == count_with(old(self).count, 1),
    {
        let ghost start = name_views(self.names@);
        self.count = match self.count.checked_add(1) {
            Some(c) => c,
            None => u64::MAX,
        };
        let ghost count = self.count;
        let mut i: usize = 0;
        while i < meta.xattrs.len()
            invariant
                i <= meta.xattrs.len(),
                self.wf(),
                name_views(self.names@) == names_with(start, meta.xattrs@, i as int),
                self.count == count,
            decreases meta.xattrs.len() - i,
        {
            let key = &meta.xattrs[i].0;
            if !self.contains(key) {
                let k = key.clone();
                proof {
                    assert(name_views(self.names@.push(k)) =~= name_views(self.names@).push(k@));
                }
                self.names.push(k);
            }
            i += 1;
        }
    }
}

} // verus!
