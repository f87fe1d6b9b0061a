use pacman_ostree::error::ErrorKind;
use pacman_ostree::export::{
    container_encapsulate, copy_meta_opt_keys, encapsulate_args, export_plan, parse_labels,
    ComposeImageOpts, ContainerEncapsulateOpts,
};
use pacman_ostree::mapping::{
    add_to, package_id, put_absent, ContentGroup, Initramfs, MappingBuilder, UNPACKAGED_ID,
};
use pacman_ostree::name_map::NameMap;
use pacman_ostree::name_set::NameSet;
use pacman_ostree::order::NameOrder;
use pacman_ostree::pacman::PacmanPackageMeta;
use pacman_ostree::provenance::{push_pair, OwnerId};
use pacman_ostree::tree::{
    build_fs_mapping_recurse, get_user_component_xattr, NodeKind, TreeNode, Xattr,
};

fn strings(items: &[&str]) -> Vec<String> {
    items.iter().map(|s| s.to_string()).collect()
}

fn package(name: &str, version: &str, buildtime: u64, size: u64, files: &[&str]) -> PacmanPackageMeta {
    PacmanPackageMeta {
        pkgname: name.to_string(),
        pkgver: version.to_string(),
        arch: "x86_64".to_string(),
        size,
        buildtime,
        src_pkg: name.to_string(),
        provided_files: strings(files),
        changelogs: Vec::new(),
    }
}

fn database(packages: Vec<PacmanPackageMeta>) -> NameMap<PacmanPackageMeta> {
    let mut db = NameMap::new();
    for p in packages {
        db.insert(p.pkgname.clone(), p);
    }
    db
}

fn component(name: &str) -> Option<Vec<Xattr>> {
    Some(vec![
        (b"user.other\0".to_vec(), b"x".to_vec()),
        (b"user.component\0".to_vec(), name.as_bytes().to_vec()),
        (b"user.component\0".to_vec(), b"second".to_vec()),
    ])
}

fn file(name: &str, checksum: &str, xattrs: Option<Vec<Xattr>>) -> TreeNode {
    TreeNode {
        name: name.to_string(),
        kind: NodeKind::Regular,
        checksum: checksum.to_string(),
        xattrs,
        children: Vec::new(),
    }
}

fn symlink(name: &str, checksum: &str) -> TreeNode {
    TreeNode {
        name: name.to_string(),
        kind: NodeKind::Symlink,
        checksum: checksum.to_string(),
        xattrs: None,
        children: Vec::new(),
    }
}

fn dir(name: &str, xattrs: Option<Vec<Xattr>>, children: Vec<TreeNode>) -> TreeNode {
    TreeNode {
        name: name.to_string(),
        kind: NodeKind::Directory,
        checksum: String::new(),
        xattrs,
        children,
    }
}

fn sample_db() -> NameMap<PacmanPackageMeta> {
    database(vec![
        package("vim", "9.1-1", 1_700_007_200, 3000, &["/usr/bin/vim", "/usr/bin/shared"]),
        package("bash", "5.2-1", 1_700_000_000, 2000, &["/usr/bin/bash", "/usr/bin/shared", "/usr/bin/sh"]),
        package("linux", "6.6-1", 1_700_003_599, 1000, &["/usr/lib/modules/6.6/vmlinuz"]),
    ])
}

fn sample_tree() -> Vec<TreeNode> {
    vec![
        dir(
            "usr",
            Some(Vec::new()),
            vec![
                dir(
                    "bin",
                    None,
                    vec![
                        file("vim", "c-vim", Some(Vec::new())),
                        file("bash", "c-bash", None),
                        symlink("sh", "c-sh"),
                        file("shared", "c-shared", None),
                        file("tool", "c-tool", component("tools")),
                        file("copy-of-vim", "c-vim", None),
                    ],
                ),
                dir(
                    "lib",
                    None,
                    vec![dir(
                        "modules",
                        None,
                        vec![dir(
                            "6.6",
                            None,
                            vec![file("vmlinuz", "c-kernel", None), file("initramfs.img", "c-initrd", None)],
                        )],
                    )],
                ),
                dir(
                    "share",
                    component("docs"),
                    vec![
                        file("readme", "c-readme", None),
                        file("manual", "c-manual", component("manuals")),
                        dir("deep", None, vec![file("note", "c-readme", None)]),
                    ],
                ),
            ],
        ),
        dir("etc", None, vec![file("hostname", "c-host", None)]),
    ]
}

fn group<'a>(groups: &'a NameMap<ContentGroup>, id: &str) -> &'a ContentGroup {
    groups.get(id).unwrap()
}

#[test]
fn a_new_builder_holds_the_unpackaged_group() {
    let b = MappingBuilder::new();
    assert_eq!(b.packagemeta.len(), 1);
    let g = group(&b.packagemeta, "unpackaged-content");
    assert_eq!(g.identifier, UNPACKAGED_ID);
    assert_eq!(g.name, UNPACKAGED_ID);
    assert_eq!(g.srcid, UNPACKAGED_ID);
    assert_eq!(g.change_time_offset, u32::MAX);
    assert_eq!(g.change_frequency, u32::MAX);
    assert_eq!(b.unpackaged_id, UNPACKAGED_ID);
    assert_eq!(b.pkgsize, 0);
    assert_eq!(b.checksum_paths.len(), 0);
    assert!(b.skip.is_empty());
}

#[test]
fn the_identifier_of_a_package_is_name_version_arch() {
    assert_eq!(package_id(&package("vim", "9.1-1", 0, 0, &[])), "vim-9.1-1.x86_64");
}

#[test]
fn offsets_count_hours_from_the_earliest_build() {
    let mut b = MappingBuilder::new();
    let index = b.index_packages(&sample_db()).unwrap();
    assert_eq!(index.earliest, 1_700_000_000);
    assert_eq!(index.latest, 1_700_007_200);
    assert_eq!(index.earliest_id, "bash-5.2-1.x86_64");
    assert_eq!(b.pkgsize, 6000);
    assert_eq!(b.packagemeta.len(), 4);
    // The package built first has offset 0, the one built last (high - low) / 3600.
    assert_eq!(group(&b.packagemeta, "bash-5.2-1.x86_64").change_time_offset, 0);
    assert_eq!(group(&b.packagemeta, "vim-9.1-1.x86_64").change_time_offset, 2);
    assert_eq!(group(&b.packagemeta, "linux-6.6-1.x86_64").change_time_offset, 0);
    let vim = group(&b.packagemeta, "vim-9.1-1.x86_64");
    assert_eq!(vim.name, "vim");
    assert_eq!(vim.srcid, "vim");
    assert_eq!(vim.change_frequency, 0);
    assert_eq!(
        b.path_packages.get("/usr/bin/shared").unwrap().to_vec(),
        strings(&["bash-5.2-1.x86_64", "vim-9.1-1.x86_64"])
    );
    assert_eq!(b.path_packages.get("/usr/bin/vim").unwrap().to_vec(), strings(&["vim-9.1-1.x86_64"]));
}

#[test]
fn the_offset_keeps_the_low_32_bits_of_the_hours() {
    let mut b = MappingBuilder::new();
    let db = database(vec![
        package("a", "1", 0, 0, &[]),
        package("b", "1", 3600 * 0x1_0000_0000, 0, &[]),
        package("c", "1", 3600 * 0x1_0000_0005 + 3599, 0, &[]),
    ]);
    b.index_packages(&db).unwrap();
    assert_eq!(group(&b.packagemeta, "a-1.x86_64").change_time_offset, 0);
    assert_eq!(group(&b.packagemeta, "b-1.x86_64").change_time_offset, 0);
    assert_eq!(group(&b.packagemeta, "c-1.x86_64").change_time_offset, 5);
}

#[test]
fn the_frequency_counts_the_changelog() {
    let mut p = package("a", "1", 0, 0, &[]);
    p.changelogs = vec![1, 2, 3];
    let mut b = MappingBuilder::new();
    b.index_packages(&database(vec![p])).unwrap();
    assert_eq!(group(&b.packagemeta, "a-1.x86_64").change_frequency, 3);
}

#[test]
fn the_size_of_all_packages_stops_at_the_greatest_number() {
    let db = database(vec![package("a", "1", 0, u64::MAX - 1, &[]), package("b", "1", 0, 5, &[])]);
    let mut b = MappingBuilder::new();
    b.index_packages(&db).unwrap();
    assert_eq!(b.pkgsize, u64::MAX);
}

#[test]
fn the_first_of_two_packages_with_one_identifier_stays() {
    let mut first = package("a", "b-1", 100, 0, &[]);
    first.src_pkg = "first".to_string();
    let mut second = package("a-b", "1", 100, 0, &[]);
    second.src_pkg = "second".to_string();
    let mut b = MappingBuilder::new();
    b.index_packages(&database(vec![second, first])).unwrap();
    assert_eq!(b.packagemeta.len(), 2);
    assert_eq!(group(&b.packagemeta, "a-b-1.x86_64").srcid, "first");
}

#[test]
fn an_empty_database_is_an_error() {
    let mut b = MappingBuilder::new();
    let e = b.index_packages(&NameMap::new()).unwrap_err();
    assert_eq!(e.kind, ErrorKind::Configuration);
    assert_eq!(e.message, "Failed to find any Pacman packages");
    let e = container_encapsulate(&NameMap::new(), None, &sample_tree()).unwrap_err();
    assert_eq!(e.kind, ErrorKind::Configuration);
}

#[test]
fn the_component_is_the_value_of_the_first_attribute_of_the_name() {
    assert_eq!(get_user_component_xattr(&component("tools")), Ok(Some("tools".to_string())));
    assert_eq!(get_user_component_xattr(&None), Ok(None));
    assert_eq!(get_user_component_xattr(&Some(Vec::new())), Ok(None));
    let other = Some(vec![(b"user.component".to_vec(), b"no-nul".to_vec())]);
    assert_eq!(get_user_component_xattr(&other), Ok(None));
    let bad = Some(vec![(b"user.component\0".to_vec(), b"\xff".to_vec())]);
    assert_eq!(get_user_component_xattr(&bad), Err(()));
    let bad_later = Some(vec![
        (b"user.component\0".to_vec(), b"ok".to_vec()),
        (b"user.component\0".to_vec(), b"\xff".to_vec()),
    ]);
    assert_eq!(get_user_component_xattr(&bad_later), Ok(Some("ok".to_string())));
}

#[test]
fn the_walk_records_paths_and_components() {
    let mut b = MappingBuilder::new();
    build_fs_mapping_recurse("/", &sample_tree(), &mut b, None).unwrap();
    assert_eq!(
        b.checksum_paths.get("c-vim").unwrap().to_vec(),
        strings(&["/usr/bin/copy-of-vim", "/usr/bin/vim"])
    );
    assert_eq!(b.checksum_paths.get("c-host").unwrap().to_vec(), strings(&["/etc/hostname"]));
    assert_eq!(
        b.checksum_paths.get("c-readme").unwrap().to_vec(),
        strings(&["/usr/share/deep/note", "/usr/share/readme"])
    );
    assert_eq!(b.checksum_paths.len(), 10);
    assert_eq!(b.component_ids.to_vec(), strings(&["docs", "manuals", "tools"]));
    assert_eq!(b.path_components.get("/usr/bin/tool").unwrap().to_vec(), strings(&["tools"]));
    assert_eq!(b.path_components.get("/usr/share/readme").unwrap().to_vec(), strings(&["docs"]));
    assert_eq!(b.path_components.get("/usr/share/manual").unwrap().to_vec(), strings(&["manuals"]));
    assert_eq!(b.path_components.get("/usr/share/deep/note").unwrap().to_vec(), strings(&["docs"]));
    assert!(b.path_components.get("/usr/bin/vim").is_none());
    assert_eq!(b.path_components.len(), 4);
}

#[test]
fn the_walk_hands_the_component_of_the_start_down() {
    let mut b = MappingBuilder::new();
    let tree = vec![file("a", "c1", None), file("b", "c2", component("own"))];
    build_fs_mapping_recurse("/opt", &tree, &mut b, Some("given")).unwrap();
    assert_eq!(b.path_components.get("/opt/a").unwrap().to_vec(), strings(&["given"]));
    assert_eq!(b.path_components.get("/opt/b").unwrap().to_vec(), strings(&["own"]));
    assert_eq!(b.component_ids.to_vec(), strings(&["given", "own"]));
}

#[test]
fn the_walk_passes_a_path_over_once() {
    let mut b = MappingBuilder::new();
    b.skip.insert("/usr/bin/vim".to_string());
    build_fs_mapping_recurse("/", &sample_tree(), &mut b, None).unwrap();
    assert!(b.skip.is_empty());
    assert_eq!(b.checksum_paths.get("c-vim").unwrap().to_vec(), strings(&["/usr/bin/copy-of-vim"]));
    build_fs_mapping_recurse("/", &sample_tree(), &mut b, None).unwrap();
    assert_eq!(
        b.checksum_paths.get("c-vim").unwrap().to_vec(),
        strings(&["/usr/bin/copy-of-vim", "/usr/bin/vim"])
    );
}

#[test]
fn the_walk_fails_on_an_unknown_type() {
    let mut b = MappingBuilder::new();
    let mut odd = file("odd", "c", None);
    odd.kind = NodeKind::Other;
    let tree = vec![dir("dev", None, vec![file("ok", "c0", None), odd, file("late", "c1", None)])];
    let e = build_fs_mapping_recurse("/", &tree, &mut b, None).unwrap_err();
    assert_eq!(e.kind, ErrorKind::InvariantViolation);
    assert_eq!(e.message, "Unhandled file type: /dev/odd");
}

#[test]
fn the_walk_fails_on_a_component_that_is_not_utf8() {
    let bad = Some(vec![(b"user.component\0".to_vec(), b"\xff\xfe".to_vec())]);
    let mut b = MappingBuilder::new();
    let e = build_fs_mapping_recurse("/", &vec![file("f", "c", bad.clone())], &mut b, None).unwrap_err();
    assert_eq!(e.kind, ErrorKind::Encoding);
    assert_eq!(e.message, "Invalid UTF-8 in user.component of /f");
    let mut b = MappingBuilder::new();
    let e = build_fs_mapping_recurse("/", &vec![dir("d", bad.clone(), Vec::new())], &mut b, None).unwrap_err();
    assert_eq!(e.kind, ErrorKind::Encoding);
    assert_eq!(e.message, "Invalid UTF-8 in user.component of /d");
    // The attributes of a path that is passed over are not read.
    let mut b = MappingBuilder::new();
    b.skip.insert("/f".to_string());
    build_fs_mapping_recurse("/", &vec![file("f", "c", bad)], &mut b, None).unwrap();
}

#[test]
fn paths_are_joined_as_paths_of_unix() {
    let mut b = MappingBuilder::new();
    let paths = |b: &MappingBuilder, sum: &str| b.checksum_paths.get(sum).unwrap().to_vec();
    build_fs_mapping_recurse("/", &vec![file("usr", "s1", None)], &mut b, None).unwrap();
    assert_eq!(paths(&b, "s1"), strings(&["/usr"]));
    build_fs_mapping_recurse("/usr", &vec![file("lib", "s2", None)], &mut b, None).unwrap();
    assert_eq!(paths(&b, "s2"), strings(&["/usr/lib"]));
    // No second separator after a path that ends with one.
    build_fs_mapping_recurse("/usr/", &vec![file("bin", "s3", None)], &mut b, None).unwrap();
    assert_eq!(paths(&b, "s3"), strings(&["/usr/bin"]));
    // Nothing is put before a name where the path is empty.
    build_fs_mapping_recurse("", &vec![file("rel", "s4", None)], &mut b, None).unwrap();
    assert_eq!(paths(&b, "s4"), strings(&["rel"]));
    // A name that begins at the root takes the place of the path.
    build_fs_mapping_recurse("/usr", &vec![file("/abs", "s5", None)], &mut b, None).unwrap();
    assert_eq!(paths(&b, "s5"), strings(&["/abs"]));
    // An empty name leaves the path with a separator at its end.
    build_fs_mapping_recurse("/usr", &vec![file("", "s6", None)], &mut b, None).unwrap();
    assert_eq!(paths(&b, "s6"), strings(&["/usr/"]));
    build_fs_mapping_recurse("usr/share", &vec![file("doc", "s7", None)], &mut b, None).unwrap();
    assert_eq!(paths(&b, "s7"), strings(&["usr/share/doc"]));
}

#[test]
fn paths_are_ordered_by_their_components() {
    let mut b = MappingBuilder::new();
    b.visit_file("/a-b".to_string(), "sum", &None, None).unwrap();
    b.visit_file("/a/b".to_string(), "sum", &None, None).unwrap();
    b.visit_file("/usr/bin".to_string(), "sum", &None, None).unwrap();
    b.visit_file("/usr//bin".to_string(), "sum", &None, None).unwrap();
    b.visit_file("/a".to_string(), "sum", &None, None).unwrap();
    assert_eq!(
        b.checksum_paths.get("sum").unwrap().to_vec(),
        strings(&["/a", "/a/b", "/a-b", "/usr//bin", "/usr/bin"])
    );
}

#[test]
fn the_paths_of_an_object_come_in_the_order_of_a_set_of_paths() {
    let written = [
        "/usr/lib/foo-1/x",
        "/usr/lib/foo/x",
        "/usr/lib/foo",
        "/usr/lib/foo.d/x",
        "/usr/lib/foo+bar",
        "/usr/bin/vim",
        "/usr",
        "/etc/a b",
        "/etc/a",
        "/etc/a/b",
        "/\u{e9}t\u{e9}",
        "/opt/z",
        "/opt/Z/a",
    ];
    let mut b = MappingBuilder::new();
    let mut expected = std::collections::BTreeSet::new();
    for p in written {
        b.visit_file(p.to_string(), "sum", &None, None).unwrap();
        expected.insert(camino::Utf8PathBuf::from(p));
    }
    let expected: Vec<String> = expected.into_iter().map(|p| p.into_string()).collect();
    assert_eq!(b.checksum_paths.get("sum").unwrap().to_vec(), expected);
}

#[test]
fn the_last_path_by_components_gives_an_object_its_group() {
    let db = database(vec![
        package("dash", "1", 0, 0, &["/a-b"]),
        package("slash", "1", 0, 0, &["/a/b"]),
    ]);
    let tree = vec![file("a-b", "sum", None), dir("a", None, vec![file("b", "sum", None)])];
    let e = container_encapsulate(&db, None, &tree).unwrap();
    // `/a/b` comes before `/a-b`, so the package of `/a-b` has the object.
    assert_eq!(e.package_meta.map.get("sum").map(|s| s.as_str()), Some("dash-1.x86_64"));
}

#[test]
fn the_encapsulation_tells_the_earliest_and_the_latest_build() {
    let e = container_encapsulate(&sample_db(), None, &sample_tree()).unwrap();
    assert_eq!(e.index.earliest_id, "bash-5.2-1.x86_64");
    assert_eq!(e.index.earliest, 1_700_000_000);
    assert_eq!(e.index.latest, 1_700_007_200);
}

#[test]
fn visit_file_takes_the_path_as_given() {
    let mut b = MappingBuilder::new();
    b.visit_file("/x/y".to_string(), "c1", &component("comp"), Some("parent")).unwrap();
    b.visit_file("/x/z".to_string(), "c1", &None, Some("parent")).unwrap();
    b.visit_file("/x/w".to_string(), "c2", &None, None).unwrap();
    assert_eq!(b.checksum_paths.get("c1").unwrap().to_vec(), strings(&["/x/y", "/x/z"]));
    assert_eq!(b.path_components.get("/x/y").unwrap().to_vec(), strings(&["comp"]));
    assert_eq!(b.path_components.get("/x/z").unwrap().to_vec(), strings(&["parent"]));
    assert!(b.path_components.get("/x/w").is_none());
}

#[test]
fn the_owner_is_found_by_priority() {
    let mut b = MappingBuilder::new();
    for id in ["pkg-a", "pkg-b"] {
        put_absent(
            &mut b.packagemeta,
            ContentGroup {
                identifier: id.to_string(),
                name: id.to_string(),
                srcid: id.to_string(),
                change_time_offset: 0,
                change_frequency: 0,
            },
        );
    }
    add_to(&mut b.path_packages, NameOrder::Bytes, "/both", "pkg-b".to_string());
    add_to(&mut b.path_packages, NameOrder::Bytes, "/both", "pkg-a".to_string());
    add_to(&mut b.path_components, NameOrder::Bytes, "/both", "zeta".to_string());
    add_to(&mut b.path_components, NameOrder::Bytes, "/both", "alpha".to_string());
    add_to(&mut b.path_packages, NameOrder::Bytes, "/packaged", "pkg-b".to_string());
    add_to(&mut b.path_packages, NameOrder::Bytes, "/packaged", "pkg-a".to_string());
    match b.owner("/both") {
        OwnerId::Component(id) => assert_eq!(id, "alpha"),
        OwnerId::Package(id) => panic!("package {}", id),
    }
    match b.owner("/packaged") {
        OwnerId::Package(id) => assert_eq!(id, "pkg-a"),
        OwnerId::Component(id) => panic!("component {}", id),
    }
    match b.owner("/neither") {
        OwnerId::Package(id) => assert_eq!(id, "unpackaged-content"),
        OwnerId::Component(id) => panic!("component {}", id),
    }
}

#[test]
fn every_object_gets_its_group() {
    let initramfs = Initramfs {
        kernel_ver: "6.6".to_string(),
        path: "/usr/lib/modules/6.6/initramfs.img".to_string(),
        checksum: "c-initrd".to_string(),
    };
    let e = container_encapsulate(&sample_db(), Some(&initramfs), &sample_tree()).unwrap();
    let map = &e.package_meta.map;
    let of = |c: &str| map.get(c).map(|s| s.as_str());
    assert_eq!(of("c-bash"), Some("bash-5.2-1.x86_64"));
    assert_eq!(of("c-sh"), Some("bash-5.2-1.x86_64"));
    // Two packages provide the path: the first by identifier owns it.
    assert_eq!(of("c-shared"), Some("bash-5.2-1.x86_64"));
    // The object has two paths: the last one in the order of paths decides.
    assert_eq!(of("c-vim"), Some("vim-9.1-1.x86_64"));
    assert_eq!(of("c-kernel"), Some("linux-6.6-1.x86_64"));
    assert_eq!(of("c-initrd"), Some("initramfs (kernel 6.6)"));
    assert_eq!(of("c-host"), Some("unpackaged-content"));
    // Objects that components own have no package group.
    assert_eq!(of("c-tool"), None);
    assert_eq!(of("c-readme"), None);
    assert_eq!(of("c-manual"), None);
    assert_eq!(map.len(), 7);

    let pairs = |id: &str| -> Vec<(String, String)> { e.component_content.get(id).unwrap().clone() };
    assert_eq!(pairs("tools"), vec![("/usr/bin/tool".to_string(), "c-tool".to_string())]);
    assert_eq!(pairs("manuals"), vec![("/usr/share/manual".to_string(), "c-manual".to_string())]);
    assert_eq!(
        pairs("docs"),
        vec![
            ("/usr/share/deep/note".to_string(), "c-readme".to_string()),
            ("/usr/share/readme".to_string(), "c-readme".to_string()),
        ]
    );
    assert_eq!(e.component_content.len(), 3);

    assert_eq!(e.component_meta.len(), 3);
    let docs = group(&e.component_meta, "docs");
    assert_eq!(docs.name, "docs");
    assert_eq!(docs.srcid, "component:docs");
    assert_eq!(docs.change_time_offset, u32::MAX);
    assert_eq!(docs.change_frequency, u32::MAX);

    assert_eq!(e.package_meta.set.len(), 5);
    let initrd = group(&e.package_meta.set, "initramfs (kernel 6.6)");
    assert_eq!(initrd.name, "initramfs");
    assert_eq!(initrd.srcid, "initramfs (kernel 6.6)");
    assert_eq!(initrd.change_time_offset, u32::MAX);
    assert_eq!(e.objects, 10);
    assert_eq!(e.pkgsize, 6000);
    assert_eq!(e.index.earliest, 1_700_000_000);
}

#[test]
fn a_component_path_does_not_give_its_object_a_package_group() {
    let db = database(vec![package("a", "1", 0, 0, &["/f", "/g"])]);
    let tree = vec![file("f", "c", component("comp")), file("g", "c", None), file("h", "d", component("comp"))];
    let e = container_encapsulate(&db, None, &tree).unwrap();
    assert_eq!(e.package_meta.map.get("c").map(|s| s.as_str()), Some("a-1.x86_64"));
    assert_eq!(e.package_meta.map.get("d"), None);
    assert_eq!(
        e.component_content.get("comp").unwrap().clone(),
        vec![("/f".to_string(), "c".to_string()), ("/h".to_string(), "d".to_string())]
    );
}

#[test]
fn encapsulation_is_stable() {
    let mut packages = Vec::new();
    let mut files = Vec::new();
    for i in 0..300u64 {
        let name = format!("pkg{:03}", (i * 7919) % 300);
        let path = format!("/usr/lib/{}/data", name);
        packages.push(package(&name, "1-1", 1_600_000_000 + i * 5000, 100 + i, &[path.as_str()]));
        files.push(dir(&name, None, vec![file("data", &format!("sum{:03}", i % 250), None)]));
    }
    let tree = vec![dir("usr", None, vec![dir("lib", None, files)])];
    let db = database(packages);
    assert_eq!(db.len(), 300);
    let first = container_encapsulate(&db, None, &tree).unwrap();
    let second = container_encapsulate(&db, None, &tree).unwrap();
    assert_eq!(format!("{:?}", first), format!("{:?}", second));
    assert_eq!(first.package_meta.set.len(), 301);
    assert_eq!(first.objects, 250);
    assert_eq!(first.package_meta.map.len(), 250);

    // The order in which the database was filled makes no difference.
    let mut reversed = NameMap::new();
    for i in (0..db.len()).rev() {
        let (k, v) = db.entry(i).unwrap();
        reversed.insert(k.clone(), v.clone());
    }
    let third = container_encapsulate(&reversed, None, &tree).unwrap();
    assert_eq!(format!("{:?}", first), format!("{:?}", third));
}

#[test]
fn labels_are_read_from_key_value() {
    let labels = parse_labels(&strings(&["a=1", "novalue", "b=2=3", "a=4", "=x", "c="]));
    assert_eq!(labels.len(), 4);
    assert_eq!(labels.get("a").map(|s| s.as_str()), Some("4"));
    assert_eq!(labels.get("b").map(|s| s.as_str()), Some("2=3"));
    assert_eq!(labels.get("").map(|s| s.as_str()), Some("x"));
    assert_eq!(labels.get("c").map(|s| s.as_str()), Some(""));
    assert!(labels.get("novalue").is_none());
}

#[test]
fn the_input_hash_is_always_copied_where_present() {
    assert_eq!(copy_meta_opt_keys(&strings(&["a", "b"])), strings(&["a", "b", "pacmanostree.inputhash"]));
    assert_eq!(copy_meta_opt_keys(&Vec::new()), strings(&["pacmanostree.inputhash"]));
}

fn options(format_version: u32) -> ContainerEncapsulateOpts {
    ContainerEncapsulateOpts {
        repo: "/ostree/repo".to_string(),
        ostree_ref: "archlinux/layered".to_string(),
        imgref: "oci-archive:/tmp/out.ociarchive".to_string(),
        labels: strings(&["version=1"]),
        image_config: None,
        arch: None,
        copy_meta_keys: strings(&["version"]),
        copy_meta_opt_keys: strings(&["opt"]),
        cmd: Some(strings(&["/sbin/init"])),
        max_layers: Some(50),
        format_version,
        write_contentmeta_json: None,
        compare_with_build: None,
        previous_build_manifest: None,
    }
}

#[test]
fn parent_directories_are_created_from_format_version_two() {
    let plan = export_plan(&options(1));
    assert!(!plan.tar_create_parent_dirs);
    assert_eq!(plan.max_layers, Some(50));
    assert_eq!(plan.copy_meta_keys, strings(&["version"]));
    assert_eq!(plan.copy_meta_opt_keys, strings(&["opt", "pacmanostree.inputhash"]));
    assert_eq!(plan.cmd, Some(strings(&["/sbin/init"])));
    assert_eq!(plan.labels.get("version").map(|s| s.as_str()), Some("1"));
    assert!(export_plan(&options(2)).tar_create_parent_dirs);
    assert!(export_plan(&options(3)).tar_create_parent_dirs);
    assert!(!export_plan(&options(0)).tar_create_parent_dirs);
}

#[test]
fn the_plan_hands_the_image_options_on() {
    let mut opts = options(2);
    opts.arch = Some("arm64".to_string());
    opts.image_config = Some("/tmp/config.json".to_string());
    opts.previous_build_manifest = Some("/tmp/previous.json".to_string());
    let plan = export_plan(&opts);
    assert_eq!(plan.arch.as_deref(), Some("arm64"));
    assert_eq!(plan.image_config.as_deref(), Some("/tmp/config.json"));
    assert_eq!(plan.prior_build.as_deref(), Some("/tmp/previous.json"));
    assert_eq!(plan.imgref, "oci-archive:/tmp/out.ociarchive");
    let plain = export_plan(&options(2));
    assert!(plain.arch.is_none() && plain.image_config.is_none() && plain.prior_build.is_none());
}

#[test]
fn a_composition_asks_for_format_two_and_64_layers() {
    let mut opts = ComposeImageOpts {
        max_layers: None,
        manifest: "manifest.yaml".to_string(),
        output: "/tmp/out.ociarchive".to_string(),
        ostree_repo: "/ostree/repo".to_string(),
    };
    assert_eq!(
        encapsulate_args(&opts, "c0ffee"),
        strings(&[
            "container-encapsulate",
            "--repo",
            "/ostree/repo",
            "c0ffee",
            "oci-archive:/tmp/out.ociarchive",
            "--format-version",
            "2",
            "--max-layers",
            "64",
        ])
    );
    opts.max_layers = Some(50);
    assert_eq!(encapsulate_args(&opts, "c0ffee")[8], "50");
}

#[test]
fn groups_and_pairs_are_kept_by_key() {
    let mut groups: NameMap<ContentGroup> = NameMap::new();
    let make = |id: &str, name: &str| ContentGroup {
        identifier: id.to_string(),
        name: name.to_string(),
        srcid: id.to_string(),
        change_time_offset: 1,
        change_frequency: 2,
    };
    put_absent(&mut groups, make("a", "first"));
    put_absent(&mut groups, make("a", "second"));
    assert_eq!(groups.len(), 1);
    assert_eq!(groups.get("a").unwrap().name, "first");
    assert_eq!(groups.get("a").unwrap().clone().name, "first");

    let mut pairs: NameMap<Vec<(String, String)>> = NameMap::new();
    push_pair(&mut pairs, "x", ("first".to_string(), "sum1".to_string()));
    push_pair(&mut pairs, "x", ("second".to_string(), "c2".to_string()));
    push_pair(&mut pairs, "w", ("third".to_string(), "c3".to_string()));
    assert_eq!(pairs.get("x").unwrap().len(), 2);
    assert_eq!(pairs.entry(0).unwrap().0, "w");

    let mut sets: NameMap<NameSet> = NameMap::new();
    add_to(&mut sets, NameOrder::Bytes, "k", "b".to_string());
    add_to(&mut sets, NameOrder::Bytes, "k", "a".to_string());
    add_to(&mut sets, NameOrder::Bytes, "k", "b".to_string());
    assert_eq!(sets.get("k").unwrap().to_vec(), strings(&["a", "b"]));
    let mut paths: NameMap<NameSet> = NameMap::new();
    add_to(&mut paths, NameOrder::Components, "k", "/a-b".to_string());
    add_to(&mut paths, NameOrder::Components, "k", "/a/b".to_string());
    assert_eq!(paths.get("k").unwrap().to_vec(), strings(&["/a/b", "/a-b"]));

    let mut set = NameSet::with_order(NameOrder::Components);
    set.insert("/a-b".to_string());
    set.insert("/a/b".to_string());
    set.insert("/a".to_string());
    assert_eq!(set.to_vec(), strings(&["/a", "/a/b", "/a-b"]));
    assert!(set.contains("/a/b") && !set.contains("/a/"));
    assert!(set.remove("/a/b"));
    assert_eq!(set.clone().to_vec(), strings(&["/a", "/a-b"]));
}
