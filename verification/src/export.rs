//! The encapsulation of a commit as a container image.
//!
//! The commit's objects are assigned to content groups, and the image is
//! written with at most a given number of layers, one group or several
//! to a layer. This module puts the assignment together from the package
//! database and the tree of the commit, and prepares what the writer of
//! the image is given: labels, metadata keys to copy and options.

use vstd::prelude::*;
use vstd::string::*;
use crate::error::{Error, ErrorKind, Failure};
use crate::mapping::{
    components_with, earliest_place, groups_of, groups_with, initramfs_id, late_group,
    latest_time, multi_add, nevra, package_seq, providers_with, put_group, size_with,
    ContentGroup, ContentGroupView, Initramfs, MappingBuilder, MappingView, PackageIndex,
    INITRAMFS_NAME, UNPACKAGED_ID,
};
use crate::name_map::NameMap;
use crate::name_set::{option_view, option_views, sorted_listing, views};
use crate::pacman::PacmanPackageMeta;
use crate::provenance::{
    component_content, law_table_names_groups, package_content, pair_lists, ObjectMeta,
};
use crate::text::{decimal_digits, decimal_text, split_once, split_once_at};
use crate::tree::{build_fs_mapping_recurse, lemma_walk_keeps_groups, walk_upto, TreeNode};

verus! {

/// The metadata key that is always copied to the image if the commit has it.
pub const INPUTHASH_KEY: &'static str = "pacmanostree.inputhash";

/// The transport of an image that is written as an archive file.
pub const OCI_ARCHIVE_TRANSPORT: &'static str = "oci-archive";

/// The number of layers of an image for which none is asked.
pub const DEFAULT_MAX_LAYERS: u32 = 64;

/// The format version that a composition asks for.
pub const COMPOSE_FORMAT_VERSION: u32 = 2;

/// The options of a composition.
#[derive(Debug)]
pub struct ComposeImageOpts {
    /// The greatest number of layers of the image; not 0.
    pub max_layers: Option<u32>,
    /// The path of the manifest.
    pub manifest: String,
    /// The path of the archive to write.
    pub output: String,
    /// The path of the object store.
    pub ostree_repo: String,
}

/// The options of an encapsulation.
#[derive(Debug)]
pub struct ContainerEncapsulateOpts {
    /// The path of the object store.
    pub repo: String,
    /// The reference or the checksum of the commit.
    pub ostree_ref: String,
    /// The reference of the image to write.
    pub imgref: String,
    /// Labels for the image, each as `key=value`.
    pub labels: Vec<String>,
    /// The path of a configuration of the image.
    pub image_config: Option<String>,
    /// The architecture of the image, if it is not that of the host.
    pub arch: Option<String>,
    /// Metadata keys of the commit to copy to the image.
    pub copy_meta_keys: Vec<String>,
    /// Metadata keys of the commit to copy to the image where the commit has them.
    pub copy_meta_opt_keys: Vec<String>,
    /// The command of the image.
    pub cmd: Option<Vec<String>>,
    /// The greatest number of layers of the image; not 0.
    pub max_layers: Option<u32>,
    /// The version of the format of the image.
    pub format_version: u32,
    /// Where to write the sizes of the content groups.
    pub write_contentmeta_json: Option<String>,
    /// An image to compare the layers with.
    pub compare_with_build: Option<String>,
    /// The manifest of an earlier build whose layers are to be kept.
    pub previous_build_manifest: Option<String>,
}

/// What the writer of the image is given besides the content groups.
#[derive(Debug)]
pub struct ExportPlan {
    /// The labels of the image, by key.
    pub labels: NameMap<String>,
    pub cmd: Option<Vec<String>>,
    pub copy_meta_keys: Vec<String>,
    /// The keys to copy where present; the last is always the input hash.
    pub copy_meta_opt_keys: Vec<String>,
    pub max_layers: Option<u32>,
    /// Whether the archive stream creates parent directories.
    pub tar_create_parent_dirs: bool,
    /// The architecture of the platform of the image, if it is not that
    /// of the host; the operating system of the platform is the default.
    pub arch: Option<String>,
    /// The path of the configuration of the image, if one is given.
    pub image_config: Option<String>,
    /// The path of the manifest whose layers the image keeps, if one is given.
    pub prior_build: Option<String>,
    /// The reference of the image to write.
    pub imgref: String,
}

/// A copy of an optional string.
pub fn clone_option(s: &Option<String>) -> (r: Option<String>)
    ensures
        option_view(r) == option_view(*s),
{
    match s {
        Some(t) => Some(t.clone()),
        None => None,
    }
}

/// The labels among the first `n`: each `key=value` gives its key the
/// value, a later one in place of an earlier one; what holds no `=` is
/// no label.
pub open spec fn labels_upto(labels: Seq<Seq<char>>, n: int) -> Map<Seq<char>, Seq<char>>
    decreases n,
{
    if n <= 0 {
        Map::<Seq<char>, Seq<char>>::empty()
    } else {
        let before = labels_upto(labels, n - 1);
        match split_once_at(labels[n - 1], '=') {
            Some((k, v)) => before.insert(k, v),
            None => before,
        }
    }
}

/// Reads the labels of an image from their `key=value` form.
pub fn parse_labels(labels: &Vec<String>) -> (r: NameMap<String>)
    ensures
        r.wf(),
        r.texts() == labels_upto(views(labels@), labels@.len() as int),
{
    let mut r: NameMap<String> = NameMap::new();
    let mut i: usize = 0;
    proof {
        assert(r.texts() =~= Map::<Seq<char>, Seq<char>>::empty());
    }
    while i < labels.len()
        invariant
            i <= labels.len(),
            r.wf(),
            r.texts() == labels_upto(views(labels@), i as int),
        decreases labels.len() - i,
    {
        assert(views(labels@)[i as int] == labels@[i as int]@);
        match split_once(labels[i].as_str(), '=') {
            Some((k, v)) => {
                let ghost before = r.texts();
                let ghost kv = k@;
                let ghost vv = v@;
                r.insert(k, v);
                proof {
                    assert(r.texts() =~= before.insert(kv, vv));
                }
            },
            None => {},
        }
        i += 1;
    }
    r
}

/// The keys to copy where the commit has them: those asked for, and
/// after them the key of the input hash.
pub fn copy_meta_opt_keys(keys: &Vec<String>) -> (r: Vec<String>)
    ensures
        views(r@) == views(keys@).push(INPUTHASH_KEY@),
{
    let mut r = crate::name_set::clone_names(keys);
    let k = INPUTHASH_KEY.to_owned();
    proof {
        assert(views(r@.push(k)) =~= views(r@).push(k@));
    }
    r.push(k);
    r
}

/// What the writer of the image is given for these options. From format
/// version 2 on the archive stream creates parent directories.
pub fn export_plan(opts: &ContainerEncapsulateOpts) -> (plan: ExportPlan)
    ensures
        plan.labels.wf(),
        plan.labels.texts() == labels_upto(views(opts.labels@), opts.labels@.len() as int),
        option_views(plan.cmd) == option_views(opts.cmd),
        views(plan.copy_meta_keys@) == views(opts.copy_meta_keys@),
        views(plan.copy_meta_opt_keys@) == views(opts.copy_meta_opt_keys@).push(INPUTHASH_KEY@),
        plan.max_layers == opts.max_layers,
        plan.tar_create_parent_dirs == (opts.format_version >= 2),
        option_view(plan.arch) == option_view(opts.arch),
        option_view(plan.image_config) == option_view(
            opts.image_config,
        ),
        option_view(plan.prior_build) == option_view(
            opts.previous_build_manifest,
        ),
        plan.imgref@ == opts.imgref@,
{
    ExportPlan {
        labels: parse_labels(&opts.labels),
        cmd: match &opts.cmd {
            Some(c) => Some(crate::name_set::clone_names(c)),
            None => None,
        },
        copy_meta_keys: crate::name_set::clone_names(&opts.copy_meta_keys),
        copy_meta_opt_keys: copy_meta_opt_keys(&opts.copy_meta_opt_keys),
        max_layers: opts.max_layers,
        tar_create_parent_dirs: opts.format_version >= 2,
        arch: clone_option(&opts.arch),
        image_config: clone_option(&opts.image_config),
        prior_build: clone_option(&opts.previous_build_manifest),
        imgref: opts.imgref.clone(),
    }
}

/// The number of layers that a composition asks for.
pub open spec fn layers_of(max_layers: Option<u32>) -> u32 {
    match max_layers {
        Some(n) => n,
        None => DEFAULT_MAX_LAYERS,
    }
}

/// The arguments with which a composition asks for the encapsulation of
/// its commit.
pub open spec fn encapsulate_arguments(
    repo: Seq<char>,
    commit: Seq<char>,
    output: Seq<char>,
    max_layers: Option<u32>,
) -> Seq<Seq<char>> {
    seq![
        "container-encapsulate"@,
        "--repo"@,
        repo,
        commit,
        OCI_ARCHIVE_TRANSPORT@ + ":"@ + output,
        "--format-version"@,
        decimal_digits(COMPOSE_FORMAT_VERSION as nat),
        "--max-layers"@,
        decimal_digits(layers_of(max_layers) as nat),
    ]
}

/// The arguments with which a composition asks for the encapsulation of
/// `commit`: the image goes to the archive at the output path, in
/// format version 2, with the number of layers asked for or else 64.
pub fn encapsulate_args(opts: &ComposeImageOpts, commit: &str) -> (args: Vec<String>)
    ensures
        views(args@) == encapsulate_arguments(
            opts.ostree_repo@,
            commit@,
            opts.output@,
            opts.max_layers,
        ),
{
    let mut imgref = OCI_ARCHIVE_TRANSPORT.to_owned();
    imgref.append(":");
    imgref.append(opts.output.as_str());
    let layers: u32 = match opts.max_layers {
        Some(n) => n,
        None => DEFAULT_MAX_LAYERS,
    };
    let mut args: Vec<String> = Vec::new();
    args.push("container-encapsulate".to_owned());
    args.push("--repo".to_owned());
    args.push(opts.ostree_repo.clone());
    args.push(commit.to_owned());
    args.push(imgref);
    args.push("--format-version".to_owned());
    args.push(decimal_text(COMPOSE_FORMAT_VERSION as u64));
    args.push("--max-layers".to_owned());
    args.push(decimal_text(layers as u64));
    proof {
        assert(views(args@) =~= encapsulate_arguments(
            opts.ostree_repo@,
            commit@,
            opts.output@,
            opts.max_layers,
        ));
    }
    args
}

/// What a builder holds at first: the group of unpackaged content alone.
pub open spec fn empty_mapping() -> MappingView {
    MappingView {
        packagemeta: Map::<Seq<char>, ContentGroupView>::empty().insert(
            UNPACKAGED_ID@,
            late_group(UNPACKAGED_ID@, UNPACKAGED_ID@, UNPACKAGED_ID@),
        ),
        componentmeta: Map::empty(),
        component_ids: Set::empty(),
        checksum_paths: Map::empty(),
        path_packages: Map::empty(),
        path_components: Map::empty(),
        unpackaged_id: UNPACKAGED_ID@,
        skip: Set::empty(),
        pkgsize: 0,
    }
}

/// The mapping with the initramfs recorded.
pub open spec fn with_initramfs(v: MappingView, initramfs: Option<Initramfs>) -> MappingView {
    match initramfs {
        None => v,
        Some(i) => {
            let id = initramfs_id(i.kernel_ver@);
            MappingView {
                checksum_paths: multi_add(v.checksum_paths, i.checksum@, i.path@),
                path_packages: multi_add(v.path_packages, i.path@, id),
                packagemeta: put_group(v.packagemeta, late_group(id, INITRAMFS_NAME@, id)),
                skip: v.skip.insert(i.path@),
                ..v
            }
        },
    }
}

/// The mapping of a commit: the packages of its database indexed, its
/// initramfs recorded, its tree walked from the root, and the groups of
/// the components met added. It fails if the database is empty or the
/// walk fails.
pub open spec fn mapping_of(
    db: NameMap<PacmanPackageMeta>,
    initramfs: Option<Initramfs>,
    root: Seq<TreeNode>,
) -> Result<MappingView, Failure> {
    let pkgs = package_seq(db);
    let n = pkgs.len() as int;
    if n == 0 {
        Err(
            Failure {
                kind: ErrorKind::Configuration,
                message: "Failed to find any Pacman packages"@,
            },
        )
    } else {
        let start = empty_mapping();
        let low = pkgs[earliest_place(pkgs, n)].buildtime;
        let indexed = MappingView {
            packagemeta: groups_with(start.packagemeta, pkgs, low, n),
            path_packages: providers_with(start.path_packages, pkgs, n),
            pkgsize: size_with(0, pkgs, n),
            ..start
        };
        match walk_upto(with_initramfs(indexed, initramfs), root, root.len() as int, "/"@, None) {
            Err(f) => Err(f),
            Ok(walked) => {
                let names = sorted_listing(walked.component_ids);
                Ok(
                    MappingView {
                        componentmeta: components_with(
                            walked.componentmeta,
                            names,
                            names.len() as int,
                        ),
                        ..walked
                    },
                )
            },
        }
    }
}

/// The assignment of the objects of a commit to content groups.
#[derive(Debug)]
pub struct Encapsulation {
    /// The package groups and the group of every object that has one.
    pub package_meta: ObjectMeta,
    /// The paths that each component owns, with their objects.
    pub component_content: NameMap<Vec<(String, String)>>,
    /// The groups of the components.
    pub component_meta: NameMap<ContentGroup>,
    /// The earliest and the latest build time of the packages.
    pub index: PackageIndex,
    /// The number of objects of the commit.
    pub objects: usize,
    /// The sum of the sizes of the packages, at most `u64::MAX`.
    pub pkgsize: u64,
}

/// Assigns the objects of a commit to content groups. `db` is the
/// package database of the commit, `initramfs` the initramfs of its
/// kernel if it has one, and `root` the entries of its root directory.
pub fn container_encapsulate(
    db: &NameMap<PacmanPackageMeta>,
    initramfs: Option<&Initramfs>,
    root: &Vec<TreeNode>,
) -> (r: Result<Encapsulation, Error>)
    requires
        db.wf(),
    ensures
        match mapping_of(
            *db,
            match initramfs {
                Some(i) => Some(*i),
                None => None,
            },
            root@,
        ) {
            Err(f) => r is Err && r->Err_0@ == f,
            Ok(v) => r is Ok && ({
                let e = r->Ok_0;
                &&& e.package_meta.map.wf()
                &&& e.package_meta.set.wf()
                &&& e.component_content.wf()
                &&& e.component_meta.wf()
                &&& e.package_meta.map.texts() == package_content(v)
                &&& groups_of(e.package_meta.set) == v.packagemeta
                &&& pair_lists(e.component_content) == component_content(v)
                &&& groups_of(e.component_meta) == v.componentmeta
                &&& forall|c: Seq<char>|
                    package_content(v).dom().contains(c) ==> v.packagemeta.dom().contains(
                        #[trigger] package_content(v)[c],
                    )
                &&& v.packagemeta.dom().contains(UNPACKAGED_ID@)
                &&& e.objects == v.checksum_paths.dom().len()
                &&& e.pkgsize == v.pkgsize
                &&& ({
                    let pkgs = package_seq(*db);
                    let first = pkgs[earliest_place(pkgs, pkgs.len() as int)];
                    &&& e.index.earliest_id@ == nevra(first)
                    &&& e.index.earliest == first.buildtime
                    &&& e.index.latest == latest_time(pkgs, pkgs.len() as int)
                })
            }),
        },
{
    let mut state = MappingBuilder::new();
    let index = match state.index_packages(db) {
        Ok(index) => index,
        Err(e) => {
            return Err(e);
        },
    };
    match initramfs {
        Some(i) => {
            state.register_initramfs(i);
        },
        None => {},
    }
    proof {
        lemma_walk_keeps_groups(state@, root@, root@.len() as int, "/"@, None);
    }
    match build_fs_mapping_recurse("/", root, &mut state, None) {
        Ok(()) => {},
        Err(e) => {
            return Err(e);
        },
    }
    proof {
        state.component_ids.lemma_listing();
    }
    state.register_components();
    let (package_meta, component_content) = state.create_meta();
    let component_meta = crate::provenance::clone_groups(&state.componentmeta);
    let objects = state.checksum_paths.len();
    proof {
        assert(state@.checksum_paths.dom() =~= state.checksum_paths@.dom());
        assert forall|c: Seq<char>|
            package_content(state@).dom().contains(c) implies state@.packagemeta.dom().contains(
            #[trigger] package_content(state@)[c],
        ) by {
            law_table_names_groups(state, c);
        }
    }
    Ok(
        Encapsulation {
            package_meta,
            component_content,
            component_meta,
            index,
            objects,
            pkgsize: state.pkgsize,
        },
    )
}

} // verus!
