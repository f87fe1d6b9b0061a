//! The walk over the tree of a commit.
//!
//! The walk visits every entry below the root, directories first to
//! last in the order given, and records for each regular file and
//! symlink its path under its checksum and, where a component claims it,
//! the component under its path. A file or directory names its component
//! in the attribute `user.component`; a directory hands its component
//! down to everything below it that names none of its own.

use vstd::prelude::*;
use vstd::string::*;
use vstd::utf8::{decode_utf8, valid_utf8};
use crate::error::{Error, ErrorKind, Failure};
use crate::mapping::{add_to, multi_add, MappingBuilder, MappingView};
use crate::name_set::{option_str, option_view};
use crate::order::NameOrder;
use crate::text::decode_text;

verus! {

/// The type of an entry of the tree.
#[derive(Clone, Copy, Debug, PartialEq, Eq, Structural)]
pub enum NodeKind {
    Regular,
    Symlink,
    Directory,
    /// Anything else; the walk fails on it.
    Other,
}

/// An extended attribute: its name and its value, both as stored.
pub type Xattr = (Vec<u8>, Vec<u8>);

/// An entry of the tree of a commit.
#[derive(Debug)]
pub struct TreeNode {
    /// The name of the entry in its directory.
    pub name: String,
    pub kind: NodeKind,
    /// The checksum of the object, for a regular file or a symlink.
    pub checksum: String,
    /// The extended attributes of the entry, `None` if they cannot be had.
    pub xattrs: Option<Vec<Xattr>>,
    /// The entries of a directory.
    pub children: Vec<TreeNode>,
}

/// The name of the attribute that names a component, with the NUL byte
/// that ends it as stored: `user.component`.
pub open spec fn component_key() -> Seq<u8> {
    seq![
        0x75u8,
        0x73u8,
        0x65u8,
        0x72u8,
        0x2eu8,
        0x63u8,
        0x6fu8,
        0x6du8,
        0x70u8,
        0x6fu8,
        0x6eu8,
        0x65u8,
        0x6eu8,
        0x74u8,
        0x00u8,
    ]
}

/// The place of the first of the first `n` attributes that is named
/// `user.component` (`n` if none is).
pub open spec fn component_place(xs: Seq<Xattr>, n: int) -> int
    decreases n,
{
    if n <= 0 {
        0
    } else {
        let i = component_place(xs, n - 1);
        if i < n - 1 {
            i
        } else if xs[n - 1].0@ == component_key() {
            n - 1
        } else {
            n
        }
    }
}

/// The component that the attributes name: the value of the first
/// attribute `user.component` as text. No attributes, or none of that
/// name, name no component. `Err` if the value is not UTF-8.
pub open spec fn component_of(xattrs: Option<Vec<Xattr>>) -> Result<Option<Seq<char>>, ()> {
    match xattrs {
        None => Ok(None),
        Some(xs) => {
            let i = component_place(xs@, xs@.len() as int);
            if i >= xs@.len() {
                Ok(None)
            } else if valid_utf8(xs@[i].1@) {
                Ok(Some(decode_utf8(xs@[i].1@)))
            } else {
                Err(())
            }
        },
    }
}

/// Once an attribute of the name is found, looking further finds the same one.
pub proof fn lemma_component_place_stays(xs: Seq<Xattr>, n: int, m: int)
    requires
        0 <= n <= m,
        component_place(xs, n) < n,
    ensures
        component_place(xs, m) == component_place(xs, n),
    decreases m,
{
    if n < m {
        lemma_component_place_stays(xs, n, m - 1);
    }
}

/// The component that holds for an entry: its own, or else the one
/// handed down to it.
pub open spec fn effective(own: Option<Seq<char>>, inherited: Option<Seq<char>>) -> Option<
    Seq<char>,
> {
    match own {
        Some(c) => Some(c),
        None => inherited,
    }
}

/// The failure of a walk at an attribute that is not UTF-8.
pub open spec fn bad_component(path: Seq<char>) -> Failure {
    Failure {
        kind: ErrorKind::Encoding,
        message: "Invalid UTF-8 in user.component of "@ + path,
    }
}

/// The failure of a walk at an entry of an unknown type.
pub open spec fn unhandled_type(path: Seq<char>) -> Failure {
    Failure { kind: ErrorKind::InvariantViolation, message: "Unhandled file type: "@ + path }
}

/// What visiting the regular file or symlink at `path` makes of `v`. A
/// path that is to be passed over is only struck from the paths to
/// pass over. Else the path is recorded under the checksum of the
/// object and, if a component holds for it, the component is recorded
/// and claims the path.
pub open spec fn file_visit(
    v: MappingView,
    path: Seq<char>,
    checksum: Seq<char>,
    xattrs: Option<Vec<Xattr>>,
    inherited: Option<Seq<char>>,
) -> Result<MappingView, Failure> {
    if v.skip.contains(path) {
        Ok(MappingView { skip: v.skip.remove(path), ..v })
    } else {
        match component_of(xattrs) {
            Err(_) => Err(bad_component(path)),
            Ok(own) => {
                let claimed = match effective(own, inherited) {
                    Some(c) => MappingView {
                        component_ids: v.component_ids.insert(c),
                        path_components: multi_add(v.path_components, path, c),
                        ..v
                    },
                    None => v,
                };
                Ok(
                    MappingView {
                        checksum_paths: multi_add(claimed.checksum_paths, checksum, path),
                        ..claimed
                    },
                )
            },
        }
    }
}

/// The path of the entry `name` of the directory `base`, as paths are
/// joined on a Unix target: `name` alone if it begins at the root; else
/// `base` and `name`, with a `/` between the two unless `base` is empty
/// or ends with one.
pub open spec fn joined_path(base: Seq<char>, name: Seq<char>) -> Seq<char> {
    if name.len() > 0 && name[0] == '/' {
        name
    } else if base.len() == 0 || base.last() == '/' {
        base + name
    } else {
        base + seq!['/'] + name
    }
}

/// The entry `name` of the root is at `/name`, and the entry `name` of
/// any directory below the root is at the path of the directory, a `/`
/// and the name: the paths that the walk records are the absolute paths
/// by which the package database names the files of a package.
pub proof fn law_path_of_entry(base: Seq<char>, name: Seq<char>)
    requires
        name.len() > 0,
        name[0] != '/',
    ensures
        joined_path("/"@, name) == "/"@ + name,
        base.len() > 0 && base.last() != '/' ==> joined_path(base, name) == base + "/"@ + name,
        joined_path(joined_path(joined_path("/"@, "usr"@), "bin"@), "vim"@) == "/usr/bin/vim"@,
{
    reveal_strlit("/");
    reveal_strlit("usr");
    reveal_strlit("bin");
    reveal_strlit("vim");
    reveal_strlit("/usr/bin/vim");
    assert("/"@ =~= seq!['/']);
    let usr = joined_path("/"@, "usr"@);
    assert(usr =~= "/"@ + "usr"@);
    let bin = joined_path(usr, "bin"@);
    assert(bin =~= usr + seq!['/'] + "bin"@);
    let vim = joined_path(bin, "vim"@);
    assert(vim =~= bin + seq!['/'] + "vim"@);
    assert(vim =~= "/usr/bin/vim"@);
}

/// What walking the entry `node` of the directory at `path` makes of `v`.
pub open spec fn walk_node(
    v: MappingView,
    node: TreeNode,
    path: Seq<char>,
    inherited: Option<Seq<char>>,
) -> Result<MappingView, Failure>
    decreases node, 0nat,
{
    let p = joined_path(path, node.name@);
    match node.kind {
        NodeKind::Regular | NodeKind::Symlink => file_visit(
            v,
            p,
            node.checksum@,
            node.xattrs,
            inherited,
        ),
        NodeKind::Directory => match component_of(node.xattrs) {
            Err(_) => Err(bad_component(p)),
            Ok(own) => walk_upto(
                v,
                node.children@,
                node.children@.len() as int,
                p,
                effective(own, inherited),
            ),
        },
        NodeKind::Other => Err(unhandled_type(p)),
    }
}

/// What walking the first `n` of the entries `nodes` of the directory at
/// `path`, one after the other, makes of `v`; or the first failure.
pub open spec fn walk_upto(
    v: MappingView,
    nodes: Seq<TreeNode>,
    n: int,
    path: Seq<char>,
    inherited: Option<Seq<char>>,
) -> Result<MappingView, Failure>
    decreases nodes, n,
{
    if n <= 0 || n > nodes.len() {
        Ok(v)
    } else {
        match walk_upto(v, nodes, n - 1, path, inherited) {
            Err(e) => Err(e),
            Ok(s) => walk_node(s, nodes[n - 1], path, inherited),
        }
    }
}

/// The walk leaves the groups, the providers of paths, the identifier
/// of unpackaged content and the size of the packages as they are.
pub open spec fn same_groups(v: MappingView, w: MappingView) -> bool {
    &&& w.packagemeta == v.packagemeta
    &&& w.componentmeta == v.componentmeta
    &&& w.path_packages == v.path_packages
    &&& w.unpackaged_id == v.unpackaged_id
    &&& w.pkgsize == v.pkgsize
}

/// The walk over the first `n` entries of a directory records paths and
/// components only.
pub proof fn lemma_walk_keeps_groups(
    v: MappingView,
    nodes: Seq<TreeNode>,
    n: int,
    path: Seq<char>,
    inherited: Option<Seq<char>>,
)
    ensures
        walk_upto(v, nodes, n, path, inherited) matches Ok(w) ==> same_groups(v, w),
    decreases nodes, n,
{
    if 0 < n <= nodes.len() {
        lemma_walk_keeps_groups(v, nodes, n - 1, path, inherited);
        match walk_upto(v, nodes, n - 1, path, inherited) {
            Ok(s) => {
                lemma_node_keeps_groups(s, nodes[n - 1], path, inherited);
            },
            Err(_) => {},
        }
    }
}

/// The walk over one entry and all below it records paths and components only.
pub proof fn lemma_node_keeps_groups(
    v: MappingView,
    node: TreeNode,
    path: Seq<char>,
    inherited: Option<Seq<char>>,
)
    ensures
        walk_node(v, node, path, inherited) matches Ok(w) ==> same_groups(v, w),
    decreases node, 0nat,
{
    if node.kind is Directory {
        match component_of(node.xattrs) {
            Ok(own) => {
                lemma_walk_keeps_groups(
                    v,
                    node.children@,
                    node.children@.len() as int,
                    joined_path(path, node.name@),
                    effective(own, inherited),
                );
            },
            Err(_) => {},
        }
    }
}

/// A walk that has failed has failed the same way, however many more
/// entries are looked at.
pub proof fn lemma_walk_failed(
    v: MappingView,
    nodes: Seq<TreeNode>,
    n: int,
    m: int,
    path: Seq<char>,
    inherited: Option<Seq<char>>,
)
    requires
        0 <= n <= m <= nodes.len(),
        walk_upto(v, nodes, n, path, inherited) is Err,
    ensures
        walk_upto(v, nodes, m, path, inherited) == walk_upto(v, nodes, n, path, inherited),
    decreases m,
{
    if n < m {
        lemma_walk_failed(v, nodes, n, m - 1, path, inherited);
    }
}

/// Joins a path and a name with `camino::Utf8Path::join`, which hands
/// both to the join of paths of the standard library. Trusted: on a Unix
/// target a name that begins with `/` replaces the path, and any other
/// name is appended to it, after a `/` unless the path is empty or ends
/// with one.
#[verifier::external_body]
fn join_path(base: &str, name: &str) -> (r: String)
    ensures
        r@ == joined_path(base@, name@),
{
    camino::Utf8Path::new(base).join(name).into_string()
}

fn is_component_key(key: &Vec<u8>) -> (b: bool)
    ensures
        b == (key@ == component_key()),
{
    let b = key.len() == 15 && key[0] == 0x75 && key[1] == 0x73 && key[2] == 0x65 && key[3] == 0x72
        && key[4] == 0x2e && key[5] == 0x63 && key[6] == 0x6f && key[7] == 0x6d && key[8] == 0x70
        && key[9] == 0x6f && key[10] == 0x6e && key[11] == 0x65 && key[12] == 0x6e && key[13]
        == 0x74 && key[14] == 0x00;
    proof {
        if b {
            assert(key@ =~= component_key());
        } else if key.len() == 15 {
            let c = component_key();
            assert(key@[0] != c[0] || key@[1] != c[1] || key@[2] != c[2] || key@[3] != c[3]
                || key@[4] != c[4] || key@[5] != c[5] || key@[6] != c[6] || key@[7] != c[7]
                || key@[8] != c[8] || key@[9] != c[9] || key@[10] != c[10] || key@[11] != c[11]
                || key@[12] != c[12] || key@[13] != c[13] || key@[14] != c[14]);
        }
    }
    b
}

/// The component that the attributes of an entry name.
pub fn get_user_component_xattr(xattrs: &Option<Vec<Xattr>>) -> (r: Result<Option<String>, ()>)
    ensures
        r is Ok <==> component_of(*xattrs) is Ok,
        r matches Ok(c) ==> option_view(c) == component_of(*xattrs)->Ok_0,
{
    let xs = match xattrs {
        Some(xs) => xs,
        None => {
            return Ok(None);
        },
    };
    let mut i: usize = 0;
    while i < xs.len()
        invariant
            i <= xs.len(),
            *xattrs == Some(*xs),
            component_place(xs@, i as int) == i,
        decreases xs.len() - i,
    {
        if is_component_key(&xs[i].0) {
            proof {
                assert(component_place(xs@, i + 1) == i);
                lemma_component_place_stays(xs@, i + 1, xs@.len() as int);
            }
            return match decode_text(xs[i].1.as_slice()) {
                Some(s) => Ok(Some(s)),
                None => Err(()),
            };
        }
        i += 1;
    }
    Ok(None)
}

impl MappingBuilder {
    /// Visits the regular file or symlink at `path`.
    pub fn visit_file(
        &mut self,
        path: String,
        checksum: &str,
        xattrs: &Option<Vec<Xattr>>,
        inherited: Option<&str>,
    ) -> (r: Result<(), Error>)
        requires
            old(self).wf(),
        ensures
            final(self).wf(),
            match file_visit(old(self)@, path@, checksum@, *xattrs, option_str(inherited)) {
                Ok(v) => r is Ok && final(self)@ == v,
                Err(f) => r is Err && r->Err_0@ == f,
            },
    {
        if self.skip.remove(path.as_str()) {
            return Ok(());
        }
        assert(self.skip@ == old(self).skip@);
        let own = match get_user_component_xattr(xattrs) {
            Ok(own) => own,
            Err(_) => {
                let mut message = "Invalid UTF-8 in user.component of ".to_owned();
                message.append(path.as_str());
                return Err(Error { kind: ErrorKind::Encoding, message });
            },
        };
        let component: Option<String> = match own {
            Some(c) => Some(c),
            None => match inherited {
                Some(c) => Some(c.to_owned()),
                None => None,
            },
        };
        match component {
            Some(c) => {
                self.component_ids.insert(c.clone());
                add_to(&mut self.path_components, NameOrder::Bytes, path.as_str(), c);
            },
            None => {},
        }
        add_to(&mut self.checksum_paths, NameOrder::Components, checksum, path);
        Ok(())
    }
}

/// Walks the entries `children` of the directory at `path`, in their
/// order, and everything below them. `parent_component` is the component
/// that the directory hands down. The walk stops at the first failure: an
/// attribute `user.component` that is not UTF-8, or an entry that is
/// neither file, symlink nor directory.
pub fn build_fs_mapping_recurse(
    path: &str,
    children: &Vec<TreeNode>,
    state: &mut MappingBuilder,
    parent_component: Option<&str>,
) -> (r: Result<(), Error>)
    requires
        old(state).wf(),
    ensures
        final(state).wf(),
        match walk_upto(
            old(state)@,
            children@,
            children@.len() as int,
            path@,
            option_str(parent_component),
        ) {
            Ok(v) => r is Ok && final(state)@ == v,
            Err(f) => r is Err && r->Err_0@ == f,
        },
    decreases children@,
{
    let ghost start = state@;
    let ghost inherited = option_str(parent_component);
    let mut i: usize = 0;
    while i < children.len()
        invariant
            i <= children.len(),
            state.wf(),
            start == old(state)@,
            inherited == option_str(parent_component),
            walk_upto(start, children@, i as int, path@, inherited) == Ok::<MappingView, Failure>(
                state@,
            ),
        decreases children.len() - i,
    {
        let node = &children[i];
        let p = join_path(path, node.name.as_str());
        let ghost here = state@;
        let step: Result<(), Error> = match node.kind {
            NodeKind::Regular | NodeKind::Symlink => state.visit_file(
                p,
                node.checksum.as_str(),
                &node.xattrs,
                parent_component,
            ),
            NodeKind::Directory => match get_user_component_xattr(&node.xattrs) {
                Err(_) => {
                    let mut message = "Invalid UTF-8 in user.component of ".to_owned();
                    message.append(p.as_str());
                    Err(Error { kind: ErrorKind::Encoding, message })
                },
                Ok(own) => match &own {
                    Some(c) => build_fs_mapping_recurse(
                        p.as_str(),
                        &node.children,
                        state,
                        Some(c.as_str()),
                    ),
                    None => build_fs_mapping_recurse(
                        p.as_str(),
                        &node.children,
                        state,
                        parent_component,
                    ),
                },
            },
            NodeKind::Other => {
                let mut message = "Unhandled file type: ".to_owned();
                message.append(p.as_str());
                Err(Error { kind: ErrorKind::InvariantViolation, message })
            },
        };
        proof {
            assert(children@[i as int] == *node);
            let next = walk_node(here, *node, path@, inherited);
            assert(walk_upto(start, children@, i + 1, path@, inherited) == next);
        }
        match step {
            Ok(()) => {},
            Err(e) => {
                proof {
                    lemma_walk_failed(
                        start,
                        children@,
                        i + 1,
                        children@.len() as int,
                        path@,
                        inherited,
                    );
                }
                return Err(e);
            },
        }
        i += 1;
    }
    Ok(())
}

} // verus!
