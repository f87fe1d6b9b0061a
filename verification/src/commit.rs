//! The decisions of the commit generator.
//!
//! A commit is made from a staged root directory: every entry at its top
//! level becomes a directory or a symlink of the root tree, or is passed
//! over; then `/etc` moves to `/usr/etc`; then the tree and the commit
//! are written. The store does the writing. This module decides what is
//! written: the action for each entry, the metadata of the root
//! directory, the label attribute, the move of `/etc` and the time of the
//! commit.

use vstd::prelude::*;
use vstd::string::*;
use vstd::utf8::{decode_utf8, encode_utf8, valid_utf8};
use crate::error::{Error, ErrorKind, Failure};
use crate::name_set::option_str;
use crate::order::same_name;
use crate::text::decode_text;
use crate::tree::Xattr;

verus! {

/// The name of the directory whose contents are never captured.
pub const SYSROOT: &'static str = "sysroot";

/// The name of `/usr` in the root tree.
pub const USR: &'static str = "usr";

/// The name of `/etc` in the root tree.
pub const ETC: &'static str = "etc";

/// The path of `/usr/etc` in the root tree.
pub const USR_ETC: &'static str = "usr/etc";

/// The file type bits of a directory in a mode.
pub const S_IFDIR: u32 = 0o040000;

/// The file type bits of a symlink in a mode.
pub const S_IFLNK: u32 = 0o120000;

/// The type of a file of the staged root.
#[derive(Debug)]
pub enum FileKind {
    Directory,
    Regular,
    /// A symlink, with its target as stored.
    Symlink(Vec<u8>),
    Socket,
    Fifo,
    CharDevice,
    BlockDevice,
}

impl FileKind {
    /// A socket, a FIFO or a device node: no commit holds one.
    pub open spec fn special(self) -> bool {
        self is Socket || self is Fifo || self is CharDevice || self is BlockDevice
    }

    /// Whether this is a socket, a FIFO or a device node.
    pub fn is_special(&self) -> (b: bool)
        ensures
            b == self.special(),
    {
        match self {
            FileKind::Socket | FileKind::Fifo | FileKind::CharDevice | FileKind::BlockDevice => true,
            _ => false,
        }
    }
}

/// An entry at the top level of the staged root: its name as stored, and its type.
#[derive(Debug)]
pub struct TopEntry {
    pub name: Vec<u8>,
    pub kind: FileKind,
}

/// What the commit generator does with an entry at the top level.
#[derive(Debug)]
pub enum TopLevelAction {
    /// Make an empty directory with the metadata of the root: the
    /// contents of `sysroot` are not captured.
    EmptyDir,
    /// Make a directory and write the contents of the staged directory into it.
    WriteDir,
    /// Write a symlink owned by root, labelled for `label_path` as a
    /// symlink of mode `label_mode`.
    WriteSymlink { target: String, label_path: String, label_mode: u32 },
    /// Pass the entry over, with a warning.
    Skip { warning: String },
}

/// What a `TopLevelAction` holds, as plain values.
pub ghost enum ActionView {
    EmptyDir,
    WriteDir,
    WriteSymlink { target: Seq<char>, label_path: Seq<char>, label_mode: u32 },
    Skip { warning: Seq<char> },
}

impl View for TopLevelAction {
    type V = ActionView;

    open spec fn view(&self) -> ActionView {
        match self {
            TopLevelAction::EmptyDir => ActionView::EmptyDir,
            TopLevelAction::WriteDir => ActionView::WriteDir,
            TopLevelAction::WriteSymlink { target, label_path, label_mode } => ActionView::WriteSymlink {
                target: target@,
                label_path: label_path@,
                label_mode: *label_mode,
            },
            TopLevelAction::Skip { warning } => ActionView::Skip { warning: warning@ },
        }
    }
}

/// What an entry of the root tree of a commit is.
#[derive(Clone, Copy, Debug, PartialEq, Eq, Structural)]
pub enum RootEntryKind {
    Directory,
    Symlink,
}

impl ActionView {
    /// The entry of the root tree that the action makes, if it makes one.
    pub open spec fn makes(self) -> Option<RootEntryKind> {
        match self {
            ActionView::EmptyDir => Some(RootEntryKind::Directory),
            ActionView::WriteDir => Some(RootEntryKind::Directory),
            ActionView::WriteSymlink { .. } => Some(RootEntryKind::Symlink),
            ActionView::Skip { .. } => None,
        }
    }
}

/// The warning for an entry that is passed over.
pub open spec fn skip_warning(kind: FileKind, name: Seq<char>) -> Seq<char> {
    match kind {
        FileKind::Socket => "Ignoring socket "@ + name,
        FileKind::Fifo => "Ignoring FIFO "@ + name,
        _ => "Ignoring device node "@ + name,
    }
}

/// The failure for a name that is not UTF-8.
pub open spec fn bad_name() -> Failure {
    Failure { kind: ErrorKind::Encoding, message: "Name at toplevel is not valid UTF-8"@ }
}

/// The failure for a symlink whose target is not UTF-8.
pub open spec fn bad_target(name: Seq<char>) -> Failure {
    Failure {
        kind: ErrorKind::Encoding,
        message: "Target of symlink /"@ + name + " is not valid UTF-8"@,
    }
}

/// The failure for a regular file at the top level.
pub open spec fn unsupported_file(name: Seq<char>) -> Failure {
    Failure {
        kind: ErrorKind::InvariantViolation,
        message: "Unsupported special file "@ + name + " at toplevel"@,
    }
}

/// The action for an entry at the top level, with the name of the entry
/// as text. The directory `sysroot` becomes an empty directory; every
/// other directory is written with its contents; a symlink is written
/// with its target, labelled for the path `/name`; sockets, FIFOs and
/// device nodes are passed over with a warning. A regular file fails,
/// and so does a name or a symlink target that is not UTF-8.
pub open spec fn action_of(e: TopEntry) -> Result<(Seq<char>, ActionView), Failure> {
    if !valid_utf8(e.name@) {
        Err(bad_name())
    } else {
        let name = decode_utf8(e.name@);
        match e.kind {
            FileKind::Directory => if name == SYSROOT@ {
                Ok((name, ActionView::EmptyDir))
            } else {
                Ok((name, ActionView::WriteDir))
            },
            FileKind::Symlink(target) => if valid_utf8(target@) {
                Ok(
                    (
                        name,
                        ActionView::WriteSymlink {
                            target: decode_utf8(target@),
                            label_path: "/"@ + name,
                            label_mode: S_IFLNK | 0o777u32,
                        },
                    ),
                )
            } else {
                Err(bad_target(name))
            },
            FileKind::Regular => Err(unsupported_file(name)),
            _ => Ok((name, ActionView::Skip { warning: skip_warning(e.kind, name) })),
        }
    }
}

/// The actions for the first `n` entries, in their order, each with the
/// name of its entry; or the first failure.
pub open spec fn plan_upto(entries: Seq<TopEntry>, n: int) -> Result<
    Seq<(Seq<char>, ActionView)>,
    Failure,
>
    decreases n,
{
    if n <= 0 {
        Ok(Seq::<(Seq<char>, ActionView)>::empty())
    } else {
        match plan_upto(entries, n - 1) {
            Err(f) => Err(f),
            Ok(plan) => match action_of(entries[n - 1]) {
                Err(f) => Err(f),
                Ok(step) => Ok(plan.push(step)),
            },
        }
    }
}

/// A plan that failed at some entry has failed there, however many more
/// entries are looked at.
pub proof fn lemma_plan_failed(entries: Seq<TopEntry>, n: int, m: int)
    requires
        0 <= n <= m,
        plan_upto(entries, n) is Err,
    ensures
        plan_upto(entries, m) == plan_upto(entries, n),
    decreases m,
{
    if n < m {
        lemma_plan_failed(entries, n, m - 1);
    }
}

/// The views of a plan.
pub open spec fn plan_views(plan: Seq<(String, TopLevelAction)>) -> Seq<(Seq<char>, ActionView)> {
    Seq::new(plan.len(), |i: int| (plan[i].0@, plan[i].1@))
}

/// The file type bits of a directory, from `libc::S_IFDIR`. Trusted:
/// they are `0o040000`.
#[verifier::external_body]
fn dir_type_bits() -> (r: u32)
    ensures
        r == S_IFDIR,
{
    libc::S_IFDIR
}

/// The file type bits of a symlink, from `libc::S_IFLNK`. Trusted: they
/// are `0o120000`.
#[verifier::external_body]
fn link_type_bits() -> (r: u32)
    ensures
        r == S_IFLNK,
{
    libc::S_IFLNK
}

/// Decides what to do with an entry at the top level of the staged root.
pub fn top_level_action(e: &TopEntry) -> (r: Result<(String, TopLevelAction), Error>)
    ensures
        match action_of(*e) {
            Ok(step) => r is Ok && r->Ok_0.0@ == step.0 && r->Ok_0.1@ == step.1,
            Err(f) => r is Err && r->Err_0@ == f,
        },
{
    let name = match decode_text(e.name.as_slice()) {
        Some(name) => name,
        None => {
            return Err(Error::new(ErrorKind::Encoding, "Name at toplevel is not valid UTF-8"));
        },
    };
    match &e.kind {
        FileKind::Directory => {
            if same_name(name.as_str(), SYSROOT) {
                Ok((name, TopLevelAction::EmptyDir))
            } else {
                Ok((name, TopLevelAction::WriteDir))
            }
        },
        FileKind::Symlink(target) => {
            match decode_text(target.as_slice()) {
                Some(target) => {
                    let mut label_path = "/".to_owned();
                    label_path.append(name.as_str());
                    let label_mode = link_type_bits() | 0o777u32;
                    Ok((name, TopLevelAction::WriteSymlink { target, label_path, label_mode }))
                },
                None => {
                    let mut message = "Target of symlink /".to_owned();
                    message.append(name.as_str());
                    message.append(" is not valid UTF-8");
                    Err(Error { kind: ErrorKind::Encoding, message })
                },
            }
        },
        FileKind::Regular => {
            let mut message = "Unsupported special file ".to_owned();
            message.append(name.as_str());
            message.append(" at toplevel");
            Err(Error { kind: ErrorKind::InvariantViolation, message })
        },
        FileKind::Socket => {
            let mut warning = "Ignoring socket ".to_owned();
            warning.append(name.as_str());
            Ok((name, TopLevelAction::Skip { warning }))
        },
        FileKind::Fifo => {
            let mut warning = "Ignoring FIFO ".to_owned();
            warning.append(name.as_str());
            Ok((name, TopLevelAction::Skip { warning }))
        },
        FileKind::CharDevice | FileKind::BlockDevice => {
            let mut warning = "Ignoring device node ".to_owned();
            warning.append(name.as_str());
            Ok((name, TopLevelAction::Skip { warning }))
        },
    }
}

/// Plans the root tree of a commit: the action for every entry at the
/// top level of the staged root, in the order of the entries. The first
/// entry that cannot be committed fails the plan, and nothing is written.
pub fn plan_root(entries: &Vec<TopEntry>) -> (r: Result<Vec<(String, TopLevelAction)>, Error>)
    ensures
        match plan_upto(entries@, entries@.len() as int) {
            Ok(plan) => r is Ok && plan_views(r->Ok_0@) == plan,
            Err(f) => r is Err && r->Err_0@ == f,
        },
{
    let mut plan: Vec<(String, TopLevelAction)> = Vec::new();
    let mut i: usize = 0;
    proof {
        assert(plan_views(plan@) =~= Seq::<(Seq<char>, ActionView)>::empty());
    }
    while i < entries.len()
        invariant
            i <= entries.len(),
            plan_upto(entries@, i as int) == Ok::<Seq<(Seq<char>, ActionView)>, Failure>(
                plan_views(plan@),
            ),
        decreases entries.len() - i,
    {
        match top_level_action(&entries[i]) {
            Ok(step) => {
                proof {
                    assert(plan_views(plan@.push(step)) =~= plan_views(plan@).push(
                        (step.0@, step.1@),
                    ));
                }
                plan.push(step);
            },
            Err(e) => {
                proof {
                    lemma_plan_failed(entries@, i + 1, entries@.len() as int);
                }
                return Err(e);
            },
        }
        i += 1;
    }
    Ok(plan)
}

/// Every entry of the root tree of a commit is a directory or a symlink.
/// A plan exists only for a staged root without regular files at its top
/// level; a directory of the root makes a directory, a symlink makes a
/// symlink, and a socket, a FIFO or a device node makes no entry at all.
pub proof fn law_root_entries(entries: Seq<TopEntry>, n: int, i: int)
    requires
        0 <= i < n <= entries.len(),
        plan_upto(entries, n) is Ok,
    ensures
        plan_upto(entries, n)->Ok_0.len() == n,
        !(entries[i].kind is Regular),
        valid_utf8(entries[i].name@),
        plan_upto(entries, n)->Ok_0[i].0 == decode_utf8(entries[i].name@),
        entries[i].kind is Directory <==> plan_upto(entries, n)->Ok_0[i].1.makes() == Some(
            RootEntryKind::Directory,
        ),
        entries[i].kind is Symlink <==> plan_upto(entries, n)->Ok_0[i].1.makes() == Some(
            RootEntryKind::Symlink,
        ),
        entries[i].kind.special() <==> plan_upto(entries, n)->Ok_0[i].1.makes() is None,
    decreases n,
{
    if i < n - 1 {
        law_root_entries(entries, n - 1, i);
    } else if n > 1 {
        law_root_entries(entries, n - 1, 0);
    }
}

/// An entry of the mutable tree: a leaf with its checksum, or a directory.
#[derive(Debug)]
pub enum MtreeEntry {
    Leaf(String),
    Directory,
}

impl MtreeEntry {
    /// The entry as a directory; it is an error if it is a leaf.
    pub fn require_dir(self) -> (r: Result<(), Error>)
        ensures
            r is Ok <==> self is Directory,
            r matches Err(e) ==> e.kind == ErrorKind::InvariantViolation && e.message@
                == "Expected a directory"@,
    {
        match self {
            MtreeEntry::Leaf(_) => Err(
                Error::new(ErrorKind::InvariantViolation, "Expected a directory"),
            ),
            MtreeEntry::Directory => Ok(()),
        }
    }
}

/// What is done about `/etc` before the tree is written.
#[derive(Clone, Copy, Debug, PartialEq, Eq, Structural)]
pub enum Relocation {
    /// Nothing: the tree has no `/etc`.
    Keep,
    /// Write the tree of `/etc` to the store, make `/usr` and `/usr/etc`
    /// where they are not there, give `/usr/etc` the contents and the
    /// metadata of `/etc`, and take `/etc` out of the root.
    MoveEtc,
}

/// Which of `/etc` and `/usr/etc` a tree has.
pub ghost struct EtcLayout {
    pub etc: bool,
    pub usr_etc: bool,
}

/// The layout after the relocation `r`.
pub open spec fn layout_after(before: EtcLayout, r: Relocation) -> EtcLayout {
    match r {
        Relocation::Keep => before,
        Relocation::MoveEtc => EtcLayout { etc: false, usr_etc: true },
    }
}

/// A layout that a commit may have: no `/etc` at all, or `/usr/etc` without `/etc`.
pub open spec fn committable(l: EtcLayout) -> bool {
    !l.etc
}

/// The failure of the relocation, if it fails: `/etc` or `/usr/etc` is
/// no directory, or both exist.
pub open spec fn relocation_failure(
    etc: Option<MtreeEntry>,
    usr_etc: Option<MtreeEntry>,
) -> Option<Failure> {
    if etc matches Some(MtreeEntry::Leaf(_)) {
        Some(Failure { kind: ErrorKind::InvariantViolation, message: "/etc: Expected a directory"@ })
    } else if usr_etc matches Some(MtreeEntry::Leaf(_)) {
        Some(
            Failure {
                kind: ErrorKind::InvariantViolation,
                message: "/usr/etc: Expected a directory"@,
            },
        )
    } else if etc is Some && usr_etc is Some {
        Some(
            Failure {
                kind: ErrorKind::InvariantViolation,
                message: "Found both /etc and /usr/etc"@,
            },
        )
    } else {
        None
    }
}

/// Of a tree that is committed exactly one holds: it has no `/etc` and no
/// `/usr/etc`, or it has `/usr/etc` and no `/etc`. Whatever the tree held
/// before, a relocation that does not fail leaves it so.
pub proof fn law_one_etc_layout(etc: Option<MtreeEntry>, usr_etc: Option<MtreeEntry>)
    requires
        relocation_failure(etc, usr_etc) is None,
    ensures
        ({
            let before = EtcLayout { etc: etc is Some, usr_etc: usr_etc is Some };
            let rel = if etc is Some {
                Relocation::MoveEtc
            } else {
                Relocation::Keep
            };
            let after = layout_after(before, rel);
            (!after.etc && !after.usr_etc) != (after.usr_etc && !after.etc)
        }),
{
}

/// Decides the move of `/etc` to `/usr/etc` from what the mutable tree
/// holds at `etc` and at `usr/etc`. A tree with neither, or with
/// `/usr/etc` alone, stays as it is; a tree with `/etc` alone has it
/// moved, whether or not it has a `/usr` yet; a tree with both is
/// refused, and so is one where either is no directory. After a
/// relocation that succeeded the tree has no `/etc`, and it has
/// `/usr/etc` exactly if it had one of the two before.
pub fn postprocess_mtree(etc: Option<MtreeEntry>, usr_etc: Option<MtreeEntry>) -> (r: Result<
    Relocation,
    Error,
>)
    ensures
        match relocation_failure(etc, usr_etc) {
            Some(f) => r is Err && r->Err_0@ == f,
            None => r is Ok && r->Ok_0 == (if etc is Some {
                Relocation::MoveEtc
            } else {
                Relocation::Keep
            }),
        },
        r matches Ok(rel) ==> ({
            let before = EtcLayout { etc: etc is Some, usr_etc: usr_etc is Some };
            let after = layout_after(before, rel);
            &&& committable(after)
            &&& after.usr_etc == (before.etc || before.usr_etc)
        }),
{
    let has_etc = match etc {
        Some(MtreeEntry::Leaf(_)) => {
            return Err(Error::new(ErrorKind::InvariantViolation, "/etc: Expected a directory"));
        },
        Some(MtreeEntry::Directory) => true,
        None => false,
    };
    let has_usr_etc = match usr_etc {
        Some(MtreeEntry::Leaf(_)) => {
            return Err(
                Error::new(ErrorKind::InvariantViolation, "/usr/etc: Expected a directory"),
            );
        },
        Some(MtreeEntry::Directory) => true,
        None => false,
    };
    if has_etc && has_usr_etc {
        return Err(Error::new(ErrorKind::InvariantViolation, "Found both /etc and /usr/etc"));
    }
    if has_etc {
        Ok(Relocation::MoveEtc)
    } else {
        Ok(Relocation::Keep)
    }
}

/// The name of the attribute that holds a security label, with the NUL
/// byte that ends it: `security.selinux`.
pub open spec fn selinux_key() -> Seq<u8> {
    seq![
        0x73u8,
        0x65u8,
        0x63u8,
        0x75u8,
        0x72u8,
        0x69u8,
        0x74u8,
        0x79u8,
        0x2eu8,
        0x73u8,
        0x65u8,
        0x6cu8,
        0x69u8,
        0x6eu8,
        0x75u8,
        0x78u8,
        0x00u8,
    ]
}

/// The attributes of a label: none without a label, else the one
/// attribute `security.selinux` whose value is the label and a NUL byte.
pub open spec fn label_xattrs(label: Option<Seq<char>>) -> Option<Seq<(Seq<u8>, Seq<u8>)>> {
    match label {
        None => None,
        Some(l) => Some(seq![(selinux_key(), encode_utf8(l).push(0u8))]),
    }
}

/// The views of a list of attributes.
pub open spec fn xattr_views(xs: Seq<Xattr>) -> Seq<(Seq<u8>, Seq<u8>)> {
    Seq::new(xs.len(), |i: int| (xs[i].0@, xs[i].1@))
}

/// The views of an optional list of attributes.
pub open spec fn option_xattr_views(xs: Option<Vec<Xattr>>) -> Option<Seq<(Seq<u8>, Seq<u8>)>> {
    match xs {
        Some(v) => Some(xattr_views(v@)),
        None => None,
    }
}

/// Encodes a security label as the attributes of an object.
pub fn label_to_xattrs(label: Option<&str>) -> (r: Option<Vec<Xattr>>)
    ensures
        option_xattr_views(r) == label_xattrs(option_str(label)),
{
    match label {
        None => None,
        Some(l) => {
            let mut key: Vec<u8> = Vec::new();
            key.push(0x73u8);
            key.push(0x65u8);
            key.push(0x63u8);
            key.push(0x75u8);
            key.push(0x72u8);
            key.push(0x69u8);
            key.push(0x74u8);
            key.push(0x79u8);
            key.push(0x2eu8);
            key.push(0x73u8);
            key.push(0x65u8);
            key.push(0x6cu8);
            key.push(0x69u8);
            key.push(0x6eu8);
            key.push(0x75u8);
            key.push(0x78u8);
            key.push(0x00u8);
            assert(key@ =~= selinux_key());
            let mut value = l.as_bytes_vec();
            value.push(0u8);
            let mut xs: Vec<Xattr> = Vec::new();
            xs.push((key, value));
            proof {
                assert(xattr_views(xs@) =~= seq![(selinux_key(), encode_utf8(l@).push(0u8))]);
            }
            Some(xs)
        },
    }
}

/// The metadata of a directory: owner, mode and attributes.
#[derive(Debug)]
pub struct DirMeta {
    pub uid: u32,
    pub gid: u32,
    pub mode: u32,
    pub xattrs: Option<Vec<Xattr>>,
}

/// The metadata of the root directory of a commit: the owner of the
/// staged root, its mode marked as that of a directory, and its label,
/// if the policy gives one, as an attribute.
pub fn create_root_dirmeta(uid: u32, gid: u32, mode: u32, label: Option<&str>) -> (m: DirMeta)
    ensures
        m.uid == uid,
        m.gid == gid,
        m.mode == S_IFDIR | mode,
        option_xattr_views(m.xattrs) == label_xattrs(option_str(label)),
{
    DirMeta { uid, gid, mode: dir_type_bits() | mode, xattrs: label_to_xattrs(label) }
}

/// The mode for which the label of the root directory is looked up.
pub fn root_label_mode() -> (m: u32)
    ensures
        m == S_IFDIR | 0o777u32,
{
    dir_type_bits() | 0o777u32
}

/// The time of a commit in seconds since the epoch: that of the time
/// stamp given, 0 without one. A time before the epoch is refused.
pub fn commit_time(timestamp: Option<i64>) -> (r: Result<u64, Error>)
    ensures
        timestamp is None ==> r == Ok::<u64, Error>(0),
        timestamp matches Some(t) ==> (r is Ok <==> t >= 0),
        timestamp matches Some(t) ==> (r matches Ok(s) ==> s == t),
        r matches Err(e) ==> e.kind == ErrorKind::Configuration && e.message@
            == "Parsing creation time"@,
{
    match timestamp {
        None => Ok(0),
        Some(t) => {
            if t < 0 {
                Err(Error::new(ErrorKind::Configuration, "Parsing creation time"))
            } else {
                Ok(t as u64)
            }
        },
    }
}

/// How the contents of a directory are taken into a commit.
#[derive(Clone, Copy, Debug, PartialEq, Eq, Structural)]
pub struct CommitModifier {
    /// Leave the extended attributes of the files out.
    pub skip_xattrs: bool,
    /// Give every file the owner root and the permissions of its type.
    pub canonical_permissions: bool,
}

/// The modifier of a composition: without attributes, with canonical
/// permissions, so that equal contents give equal checksums.
pub fn compose_modifier() -> (m: CommitModifier)
    ensures
        m.skip_xattrs,
        m.canonical_permissions,
{
    CommitModifier { skip_xattrs: true, canonical_permissions: true }
}

/// The modifier of a layered commit: the tree is taken as it is.
pub fn layered_modifier() -> (m: CommitModifier)
    ensures
        !m.skip_xattrs,
        !m.canonical_permissions,
{
    CommitModifier { skip_xattrs: false, canonical_permissions: false }
}

/// How a commit is checked out into a directory.
#[derive(Clone, Copy, Debug, PartialEq, Eq, Structural)]
pub struct CheckoutOptions {
    /// Check out as the calling user, not with the owners recorded.
    pub user_mode: bool,
    /// Write over files that are there already.
    pub union_files: bool,
}

/// What is written as the commit object.
#[derive(Debug)]
pub struct CommitRequest {
    /// The checksum of the parent commit, if the commit has one.
    pub parent: Option<String>,
    pub subject: Option<String>,
    pub body: Option<String>,
    /// The metadata of the commit, if it carries any.
    pub metadata: Option<crate::name_map::NameMap<String>>,
    /// The time of the commit in seconds since the epoch.
    pub time: u64,
}

/// The commit object of a composition: without parent, subject, body or
/// metadata, at the time given.
pub fn compose_commit_request(timestamp: Option<i64>) -> (r: Result<CommitRequest, Error>)
    ensures
        r is Ok <==> (timestamp matches Some(t) ==> t >= 0),
        r matches Ok(c) ==> c.parent is None && c.subject is None && c.body is None
            && c.metadata is None && c.time == (match timestamp {
            Some(t) => t as u64,
            None => 0,
        }),
        r matches Err(e) ==> e.kind == ErrorKind::Configuration && e.message@
            == "Parsing creation time"@,
{
    match commit_time(timestamp) {
        Ok(time) => Ok(
            CommitRequest { parent: None, subject: None, body: None, metadata: None, time },
        ),
        Err(e) => Err(e),
    }
}

/// The paths of the special files among the files of the staged root:
/// the first `n` files that are sockets, FIFOs or device nodes.
pub open spec fn specials_upto(files: Seq<(String, FileKind)>, n: int) -> Seq<Seq<char>>
    decreases n,
{
    if n <= 0 {
        Seq::<Seq<char>>::empty()
    } else {
        let before = specials_upto(files, n - 1);
        if files[n - 1].1.special() {
            before.push(files[n - 1].0@)
        } else {
            before
        }
    }
}

/// The files to remove from the staged root before it is committed:
/// every socket, FIFO and device node, wherever it is, in the order
/// given.
pub fn clean_rootfs(files: &Vec<(String, FileKind)>) -> (r: Vec<String>)
    ensures
        crate::name_set::views(r@) == specials_upto(files@, files@.len() as int),
{
    let mut r: Vec<String> = Vec::new();
    let mut i: usize = 0;
    while i < files.len()
        invariant
            i <= files.len(),
            crate::name_set::views(r@) == specials_upto(files@, i as int),
        decreases files.len() - i,
    {
        if files[i].1.is_special() {
            let path = files[i].0.clone();
            proof {
                assert(crate::name_set::views(r@.push(path)) =~= crate::name_set::views(r@).push(
                    path@,
                ));
            }
            r.push(path);
        }
        i += 1;
    }
    r
}

} // verus!
