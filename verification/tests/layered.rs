use pacman_ostree::error::ErrorKind;
use pacman_ostree::layered::{
    install_packages, install_packages_fresh, layered_ref, load_state_from_commit, os_name,
    remove_packages, state_metadata, without_base, LayeredState, DEFAULT_BASE_REF, KEY_BASE_REF, KEY_LAYERED,
    KEY_VERSION,
};
use pacman_ostree::name_map::NameMap;
use pacman_ostree::name_set::NameSet;
use pacman_ostree::pacman::PacmanPackageMeta;
use pacman_ostree::rebuild::{
    calculate_size_delta_for_layered, layering_result, newly_installed, rebuild_with_layers,
    reset_request,
};

fn strings(items: &[&str]) -> Vec<String> {
    items.iter().map(|s| s.to_string()).collect()
}

fn state(base: &str, layered: &[&str]) -> LayeredState {
    LayeredState {
        base_ref: base.to_string(),
        layered_packages: NameSet::from_vec(strings(layered)),
        deployed_commit: None,
    }
}

fn package(name: &str, size: u64) -> PacmanPackageMeta {
    PacmanPackageMeta {
        pkgname: name.to_string(),
        pkgver: "1-1".to_string(),
        arch: "x86_64".to_string(),
        size,
        buildtime: 0,
        src_pkg: name.to_string(),
        provided_files: Vec::new(),
        changelogs: Vec::new(),
    }
}

fn database(names: &[&str]) -> NameMap<PacmanPackageMeta> {
    let mut db = NameMap::new();
    for n in names {
        db.insert(n.to_string(), package(n, 1000));
    }
    db
}

#[test]
fn test_layered_state_cannot_remove_base() {
    let mut state = LayeredState {
        base_ref: "base".to_string(),
        layered_packages: NameSet::from_vec(vec!["vim".to_string()]),
        deployed_commit: None,
    };

    // Can remove layered package
    assert!(state.layered_packages.contains("vim"));
    state.layered_packages.remove("vim");
    assert!(!state.layered_packages.contains("vim"));

    // Cannot remove base package (it's not in layered_packages)
    assert!(!state.layered_packages.contains("bash"));
}

#[test]
fn default_state_is_empty() {
    let s = LayeredState::default();
    assert_eq!(s.base_ref, "");
    assert!(s.layered_packages.is_empty());
    assert!(s.deployed_commit.is_none());
    let t = LayeredState::load_from_repo(Some("abc".to_string()));
    assert_eq!(t.base_ref, "");
    assert!(t.layered_packages.is_empty());
    assert!(t.deployed_commit.is_none());
    let u = LayeredState::load_from_repo(None);
    assert_eq!(u.base_ref, "");
}

#[test]
fn install_adds_new_packages_and_warns_of_the_others() {
    let s = state("archlinux/x86_64/base", &["vim"]);
    let base = database(&["bash", "filesystem"]);
    let plan = install_packages(&s, &base, &strings(&["curl", "vim", "zsh", "curl"])).unwrap();
    assert_eq!(plan.new_packages, strings(&["curl", "zsh"]));
    assert_eq!(plan.already_layered, strings(&["vim", "curl"]));
    assert!(plan.in_base.is_empty());
    assert!(plan.now_in_base.is_empty());
    assert_eq!(plan.state.layered_packages.to_vec(), strings(&["curl", "vim", "zsh"]));
    assert_eq!(plan.state.base_ref, "archlinux/x86_64/base");
    assert!(plan.state.deployed_commit.is_none());
}

#[test]
fn a_package_of_the_base_is_never_layered() {
    let s = state("archlinux/x86_64/base", &["vim"]);
    let base = database(&["bash", "filesystem"]);
    let plan = install_packages(&s, &base, &strings(&["bash", "curl", "filesystem", "bash"]))
        .unwrap();
    assert_eq!(plan.new_packages, strings(&["curl"]));
    assert_eq!(plan.in_base, strings(&["bash", "filesystem", "bash"]));
    assert!(plan.already_layered.is_empty());
    assert_eq!(plan.state.layered_packages.to_vec(), strings(&["curl", "vim"]));
    let meta = state_metadata(&plan.state);
    assert_eq!(meta.get(KEY_LAYERED).map(|s| s.as_str()), Some("curl,vim"));

    // Requests for packages of the base alone add nothing.
    let e = install_packages(&s, &base, &strings(&["bash"])).unwrap_err();
    assert_eq!(e.kind, ErrorKind::Configuration);
    assert_eq!(e.message, "All requested packages are already layered or part of the base");
    let e = install_packages(&s, &base, &strings(&["bash", "vim"])).unwrap_err();
    assert_eq!(e.kind, ErrorKind::Configuration);
}

#[test]
fn a_layered_package_that_the_base_holds_now_is_dropped() {
    let s = state("archlinux/x86_64/base", &["bash", "vim", "zsh"]);
    let base = database(&["bash", "zsh"]);
    let plan = install_packages(&s, &base, &strings(&["curl", "zsh"])).unwrap();
    assert_eq!(plan.state.layered_packages.to_vec(), strings(&["curl", "vim"]));
    assert_eq!(plan.now_in_base, strings(&["bash", "zsh"]));
    assert_eq!(plan.in_base, strings(&["zsh"]));
    assert_eq!(plan.new_packages, strings(&["curl"]));
    let (kept, dropped) = without_base(&s.layered_packages, &base);
    assert_eq!(kept.to_vec(), strings(&["vim"]));
    assert_eq!(dropped, strings(&["bash", "zsh"]));
}

#[test]
fn a_fresh_install_layers_no_package_of_the_base() {
    let base = database(&["bash", "filesystem"]);
    let plan = install_packages_fresh(
        "archlinux/x86_64/base",
        Some("0123"),
        &base,
        &strings(&["vim", "bash", "vim"]),
    )
    .unwrap();
    assert_eq!(plan.state.layered_packages.to_vec(), strings(&["vim"]));
    assert_eq!(plan.in_base, strings(&["bash"]));
    let all = install_packages_fresh("archlinux/x86_64/base", Some("0123"), &base, &strings(&["bash"]))
        .unwrap();
    assert!(all.state.layered_packages.is_empty());
    assert_eq!(all.in_base, strings(&["bash"]));
}

#[test]
fn install_of_nothing_is_rejected() {
    let s = state("base", &["vim"]);
    let e = install_packages(&s, &database(&["bash"]), &Vec::new()).unwrap_err();
    assert_eq!(e.kind, ErrorKind::Configuration);
    assert_eq!(e.message, "All requested packages are already layered or part of the base");
}

#[test]
fn install_of_layered_packages_only_is_rejected() {
    let s = state("base", &["curl", "vim"]);
    let e = install_packages(&s, &database(&["bash"]), &strings(&["vim", "curl"])).unwrap_err();
    assert_eq!(e.kind, ErrorKind::Configuration);
    assert_eq!(e.message, "All requested packages are already layered or part of the base");
}

#[test]
fn remove_of_nothing_is_rejected() {
    let s = state("base", &["vim"]);
    let e = remove_packages(&s, &Vec::new()).unwrap_err();
    assert_eq!(e.kind, ErrorKind::Configuration);
    assert_eq!(e.message, "No packages requested for removal");
}

#[test]
fn remove_takes_layered_packages_out() {
    let mut s = state("base", &["curl", "vim", "zsh"]);
    s.deployed_commit = Some("c0ffee".to_string());
    let next = remove_packages(&s, &strings(&["zsh", "curl"])).unwrap();
    assert_eq!(next.layered_packages.to_vec(), strings(&["vim"]));
    assert_eq!(next.base_ref, "base");
    assert_eq!(next.deployed_commit.as_deref(), Some("c0ffee"));
}

#[test]
fn removal_of_base_package_is_rejected() {
    let s = state("archlinux/x86_64/base", &["vim"]);
    let e = remove_packages(&s, &strings(&["bash"])).unwrap_err();
    assert_eq!(e.kind, ErrorKind::InvariantViolation);
    assert_eq!(
        e.message,
        "Cannot remove 'bash': not a layered package (base packages cannot be removed)"
    );
    assert!(e.message().contains("bash"));
}

#[test]
fn removal_names_the_first_package_that_is_not_layered() {
    let s = state("base", &["vim"]);
    let e = remove_packages(&s, &strings(&["vim", "zsh", "bash"])).unwrap_err();
    assert_eq!(e.kind, ErrorKind::InvariantViolation);
    assert!(e.message.contains("'zsh'"));
    // A package requested twice is gone when it is asked for again.
    let e = remove_packages(&s, &strings(&["vim", "vim"])).unwrap_err();
    assert!(e.message.contains("'vim'"));
}

#[test]
fn install_then_remove_gives_back_the_state() {
    let s = state("archlinux/x86_64/base", &["vim"]);
    let request = strings(&["curl", "zsh"]);
    let installed = install_packages(&s, &database(&["bash"]), &request).unwrap();
    assert_eq!(installed.new_packages, request);
    let back = remove_packages(&installed.state, &request).unwrap();
    assert_eq!(back.layered_packages.to_vec(), s.layered_packages.to_vec());
    let before = state_metadata(&s);
    let after = state_metadata(&back);
    assert_eq!(before.get(KEY_LAYERED), after.get(KEY_LAYERED));
    assert_eq!(before.get(KEY_BASE_REF), after.get(KEY_BASE_REF));
}

#[test]
fn fresh_install_starts_from_the_base() {
    let plan = install_packages_fresh(
        "archlinux/x86_64/base",
        Some("0123"),
        &database(&["bash", "filesystem"]),
        &strings(&["vim"]),
    )
    .unwrap();
    assert!(plan.in_base.is_empty());
    assert_eq!(plan.osname, "archlinux");
    assert_eq!(plan.state.base_ref, "archlinux/x86_64/base");
    assert_eq!(plan.state.layered_packages.to_vec(), strings(&["vim"]));
    assert!(plan.state.deployed_commit.is_none());

    let rebuild = rebuild_with_layers(&plan.state, &plan.osname, false, 42);
    assert_eq!(rebuild.target_ref, "archlinux/layered");
    assert_eq!(rebuild.base_ref, "archlinux/x86_64/base");
    assert_eq!(rebuild.packages, strings(&["vim"]));
    assert!(rebuild.checkout.user_mode && rebuild.checkout.union_files);
    assert!(!rebuild.modifier.skip_xattrs && !rebuild.modifier.canonical_permissions);
    assert!(rebuild.relocate_etc);
    assert!(!rebuild.deploy);
    assert!(rebuild.commit.parent.is_none());
    assert!(rebuild.commit.body.is_none());
    assert_eq!(rebuild.commit.time, 42);
    assert_eq!(rebuild.commit.subject.as_deref(), Some("pacman-ostree: 1 layered package(s)"));
    let meta = rebuild.commit.metadata.unwrap();
    assert_eq!(meta.get("pacman-ostree.base-ref").map(|s| s.as_str()), Some("archlinux/x86_64/base"));
    assert_eq!(meta.get("pacman-ostree.layered").map(|s| s.as_str()), Some("vim"));
    assert_eq!(meta.get("version").map(|s| s.as_str()), Some("1.0"));
    assert_eq!(meta.len(), 3);

    let base = database(&["bash", "filesystem"]);
    let result = layering_result(&plan.state, &base, "abcd".to_string(), None);
    assert_eq!(result.new_commit, "abcd");
    assert_eq!(result.deployment_index, None);
    assert_eq!(result.newly_installed, strings(&["vim"]));
    assert_eq!(result.total_layered, 1);
    assert_eq!(result.size_delta, 0);
}

#[test]
fn fresh_install_needs_the_base() {
    let none: NameMap<PacmanPackageMeta> = NameMap::new();
    let e = install_packages_fresh("archlinux/x86_64/base", None, &none, &strings(&["vim"]))
        .unwrap_err();
    assert_eq!(e.kind, ErrorKind::StoreUnavailable);
    assert_eq!(e.message, "Base ref 'archlinux/x86_64/base' does not exist in repository");
}

#[test]
fn add_then_remove_gives_the_metadata_of_before() {
    let base = database(&["bash", "filesystem"]);
    let fresh =
        install_packages_fresh("archlinux/x86_64/base", Some("0123"), &base, &strings(&["vim"]))
            .unwrap();
    let first = rebuild_with_layers(&fresh.state, "archlinux", false, 0);
    let added = install_packages(&fresh.state, &base, &strings(&["curl"])).unwrap();
    let second = rebuild_with_layers(&added.state, "archlinux", false, 0);
    assert_eq!(second.packages, strings(&["curl", "vim"]));
    let removed = remove_packages(&added.state, &strings(&["curl"])).unwrap();
    let third = rebuild_with_layers(&removed, "archlinux", false, 0);
    assert_eq!(third.packages, first.packages);
    assert_eq!(third.base_ref, first.base_ref);
    assert_eq!(third.target_ref, first.target_ref);
    assert_eq!(third.relocate_etc, first.relocate_etc);
    let a = first.commit.metadata.unwrap();
    let b = third.commit.metadata.unwrap();
    assert_eq!(a.len(), b.len());
    for i in 0..a.len() {
        assert_eq!(a.entry(i), b.entry(i));
    }
}

#[test]
fn rebuild_without_layered_packages_installs_nothing() {
    let s = state("archlinux/x86_64/base", &[]);
    let plan = rebuild_with_layers(&s, "archlinux", true, 7);
    assert!(plan.packages.is_empty());
    assert!(!plan.relocate_etc);
    assert!(plan.deploy);
    assert_eq!(plan.commit.subject.as_deref(), Some("pacman-ostree: 0 layered package(s)"));
    let meta = plan.commit.metadata.unwrap();
    assert!(meta.get(KEY_LAYERED).is_none());
    assert_eq!(meta.len(), 2);
}

#[test]
fn metadata_holds_sorted_names() {
    let s = state("base", &["zsh", "curl", "vim"]);
    let meta = state_metadata(&s);
    assert_eq!(meta.get(KEY_VERSION).map(|s| s.as_str()), Some("1.0"));
    assert_eq!(meta.get(KEY_BASE_REF).map(|s| s.as_str()), Some("base"));
    assert_eq!(meta.get(KEY_LAYERED).map(|s| s.as_str()), Some("curl,vim,zsh"));
}

#[test]
fn state_round_trips_through_metadata() {
    for layered in [&[][..], &["vim"][..], &["zsh", "curl", "vim"][..], &["", "a"][..]] {
        let s = state("archlinux/x86_64/base", layered);
        let loaded = load_state_from_commit(&state_metadata(&s), "c0ffee");
        assert_eq!(loaded.base_ref, s.base_ref);
        assert_eq!(loaded.layered_packages.to_vec(), s.layered_packages.to_vec());
        assert_eq!(loaded.deployed_commit.as_deref(), Some("c0ffee"));
    }
}

#[test]
fn state_of_a_commit_without_metadata_is_the_default_base() {
    let meta: NameMap<String> = NameMap::new();
    let s = load_state_from_commit(&meta, "abc");
    assert_eq!(s.base_ref, DEFAULT_BASE_REF);
    assert_eq!(s.base_ref, "archlinux/x86_64/base");
    assert!(s.layered_packages.is_empty());
    assert_eq!(s.deployed_commit.as_deref(), Some("abc"));
}

#[test]
fn state_of_a_commit_reads_its_names() {
    let mut meta: NameMap<String> = NameMap::new();
    meta.insert(KEY_BASE_REF.to_string(), "myos/x86_64/base".to_string());
    meta.insert(KEY_LAYERED.to_string(), "vim,curl,vim".to_string());
    let s = load_state_from_commit(&meta, "abc");
    assert_eq!(s.base_ref, "myos/x86_64/base");
    assert_eq!(s.layered_packages.to_vec(), strings(&["curl", "vim"]));
    meta.insert(KEY_LAYERED.to_string(), "".to_string());
    let s = load_state_from_commit(&meta, "abc");
    assert!(s.layered_packages.is_empty());
}

#[test]
fn a_name_with_a_comma_does_not_round_trip() {
    let s = state("base", &["a,b"]);
    let loaded = load_state_from_commit(&state_metadata(&s), "c");
    assert_eq!(loaded.layered_packages.to_vec(), strings(&["a", "b"]));
    let s = state("base", &[""]);
    let loaded = load_state_from_commit(&state_metadata(&s), "c");
    assert!(loaded.layered_packages.is_empty());
}

#[test]
fn os_name_is_the_first_segment() {
    assert_eq!(os_name("archlinux/x86_64/base"), "archlinux");
    assert_eq!(os_name("archlinux"), "archlinux");
    assert_eq!(os_name(""), "");
    assert_eq!(os_name("/x"), "");
    assert_eq!(layered_ref("archlinux"), "archlinux/layered");
}

#[test]
fn newly_installed_are_the_packages_that_the_base_lacks() {
    let layered = NameSet::from_vec(strings(&["vim", "bash", "curl"]));
    let base = database(&["bash", "filesystem"]);
    assert_eq!(newly_installed(&layered, &base), strings(&["curl", "vim"]));
    assert_eq!(calculate_size_delta_for_layered(&base, &layered), 0);
    let none = NameSet::new();
    assert_eq!(newly_installed(&none, &base), Vec::<String>::new());
}

#[test]
fn reset_removes_all_layered_packages() {
    let s = state("base", &["vim", "curl"]);
    let request = reset_request(&s);
    assert_eq!(request, strings(&["curl", "vim"]));
    let back = remove_packages(&s, &request).unwrap();
    assert!(back.layered_packages.is_empty());
}
