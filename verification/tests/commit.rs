use pacman_ostree::commit::{
    clean_rootfs, commit_time, compose_commit_request, compose_modifier, create_root_dirmeta,
    label_to_xattrs, layered_modifier, plan_root, postprocess_mtree, root_label_mode,
    top_level_action, FileKind, MtreeEntry, Relocation, TopEntry, TopLevelAction, ETC, SYSROOT,
    S_IFDIR, S_IFLNK, USR, USR_ETC,
};
use pacman_ostree::error::ErrorKind;
use pacman_ostree::store::{advance, is_visible, resolve, valid_checksum, CommitStage, StoreEvent};

fn entry(name: &str, kind: FileKind) -> TopEntry {
    TopEntry { name: name.as_bytes().to_vec(), kind }
}

#[test]
fn names_of_the_root_tree() {
    assert_eq!(SYSROOT, "sysroot");
    assert_eq!(USR, "usr");
    assert_eq!(ETC, "etc");
    assert_eq!(USR_ETC, "usr/etc");
    assert_eq!(S_IFDIR, 0o040000);
    assert_eq!(S_IFLNK, 0o120000);
}

#[test]
fn sysroot_becomes_an_empty_directory() {
    let (name, action) = top_level_action(&entry("sysroot", FileKind::Directory)).unwrap();
    assert_eq!(name, "sysroot");
    assert!(matches!(action, TopLevelAction::EmptyDir));
}

#[test]
fn a_directory_is_written_with_its_contents() {
    for name in ["usr", "etc", "sysroot2", "Sysroot", ""] {
        let (n, action) = top_level_action(&entry(name, FileKind::Directory)).unwrap();
        assert_eq!(n, name);
        assert!(matches!(action, TopLevelAction::WriteDir));
    }
}

#[test]
fn a_symlink_is_written_with_its_label_path() {
    let kind = FileKind::Symlink(b"var/home".to_vec());
    let (name, action) = top_level_action(&entry("home", kind)).unwrap();
    assert_eq!(name, "home");
    match action {
        TopLevelAction::WriteSymlink { target, label_path, label_mode } => {
            assert_eq!(target, "var/home");
            assert_eq!(label_path, "/home");
            assert_eq!(label_mode, 0o120777);
        }
        other => panic!("{:?}", other),
    }
}

#[test]
fn a_symlink_with_a_target_that_is_not_utf8_fails_with_encoding() {
    let kind = FileKind::Symlink(b"var/\xffhome".to_vec());
    let e = top_level_action(&entry("home", kind)).unwrap_err();
    assert_eq!(e.kind, ErrorKind::Encoding);
    assert_ne!(e.kind, ErrorKind::Io);
    assert_eq!(e.message, "Target of symlink /home is not valid UTF-8");
}

#[test]
fn a_name_that_is_not_utf8_fails_with_encoding() {
    let e = top_level_action(&TopEntry { name: b"\xff".to_vec(), kind: FileKind::Directory })
        .unwrap_err();
    assert_eq!(e.kind, ErrorKind::Encoding);
    assert_eq!(e.message, "Name at toplevel is not valid UTF-8");
}

#[test]
fn a_regular_file_at_the_top_level_fails() {
    let e = top_level_action(&entry("vmlinuz", FileKind::Regular)).unwrap_err();
    assert_eq!(e.kind, ErrorKind::InvariantViolation);
    assert_eq!(e.message, "Unsupported special file vmlinuz at toplevel");
}

#[test]
fn special_files_are_passed_over_with_a_warning() {
    let cases = [
        (FileKind::Socket, "Ignoring socket run.sock"),
        (FileKind::Fifo, "Ignoring FIFO run.sock"),
        (FileKind::CharDevice, "Ignoring device node run.sock"),
        (FileKind::BlockDevice, "Ignoring device node run.sock"),
    ];
    for (kind, expected) in cases {
        assert!(kind.is_special());
        let (name, action) = top_level_action(&entry("run.sock", kind)).unwrap();
        assert_eq!(name, "run.sock");
        match action {
            TopLevelAction::Skip { warning } => assert_eq!(warning, expected),
            other => panic!("{:?}", other),
        }
    }
    assert!(!FileKind::Directory.is_special());
    assert!(!FileKind::Regular.is_special());
    assert!(!FileKind::Symlink(Vec::new()).is_special());
}

#[test]
fn a_fifo_at_the_root_makes_no_entry() {
    let entries = vec![
        entry("usr", FileKind::Directory),
        entry("myfifo", FileKind::Fifo),
        entry("sysroot", FileKind::Directory),
        entry("home", FileKind::Symlink(b"var/home".to_vec())),
    ];
    let plan = plan_root(&entries).unwrap();
    assert_eq!(plan.len(), 4);
    let written: Vec<&str> = plan
        .iter()
        .filter(|(_, a)| !matches!(a, TopLevelAction::Skip { .. }))
        .map(|(n, _)| n.as_str())
        .collect();
    assert_eq!(written, vec!["usr", "sysroot", "home"]);
    match &plan[1] {
        (name, TopLevelAction::Skip { warning }) => {
            assert_eq!(name, "myfifo");
            assert!(warning.contains("myfifo"));
        }
        other => panic!("{:?}", other),
    }
    assert!(matches!(plan[0].1, TopLevelAction::WriteDir));
    assert!(matches!(plan[2].1, TopLevelAction::EmptyDir));
    assert!(matches!(plan[3].1, TopLevelAction::WriteSymlink { .. }));
}

#[test]
fn the_plan_fails_at_the_first_entry_that_cannot_be_committed() {
    let entries = vec![
        entry("usr", FileKind::Directory),
        entry("file", FileKind::Regular),
        entry("bad", FileKind::Symlink(b"\xff".to_vec())),
    ];
    let e = plan_root(&entries).unwrap_err();
    assert_eq!(e.kind, ErrorKind::InvariantViolation);
    assert_eq!(e.message, "Unsupported special file file at toplevel");
    assert!(plan_root(&Vec::new()).unwrap().is_empty());
}

#[test]
fn etc_alone_moves_to_usr_etc() {
    // Whether or not the tree has a /usr yet: it is made on the way.
    let r = postprocess_mtree(Some(MtreeEntry::Directory), None);
    assert_eq!(r.unwrap(), Relocation::MoveEtc);
}

#[test]
fn no_etc_or_usr_etc_alone_stay() {
    assert_eq!(postprocess_mtree(None, None).unwrap(), Relocation::Keep);
    let r = postprocess_mtree(None, Some(MtreeEntry::Directory));
    assert_eq!(r.unwrap(), Relocation::Keep);
}

#[test]
fn both_etc_and_usr_etc_are_refused() {
    let e = postprocess_mtree(Some(MtreeEntry::Directory), Some(MtreeEntry::Directory))
        .unwrap_err();
    assert_eq!(e.kind, ErrorKind::InvariantViolation);
    assert_eq!(e.message, "Found both /etc and /usr/etc");
}

#[test]
fn etc_and_usr_etc_must_be_directories() {
    let leaf = || MtreeEntry::Leaf("abc".to_string());
    let e = postprocess_mtree(Some(leaf()), None).unwrap_err();
    assert_eq!(e.kind, ErrorKind::InvariantViolation);
    assert_eq!(e.message, "/etc: Expected a directory");
    let e = postprocess_mtree(None, Some(leaf())).unwrap_err();
    assert_eq!(e.kind, ErrorKind::InvariantViolation);
    assert_eq!(e.message, "/usr/etc: Expected a directory");
    let e = postprocess_mtree(Some(leaf()), Some(leaf())).unwrap_err();
    assert_eq!(e.message, "/etc: Expected a directory");
    let e = postprocess_mtree(Some(MtreeEntry::Directory), Some(leaf())).unwrap_err();
    assert_eq!(e.message, "/usr/etc: Expected a directory");
    let e = leaf().require_dir().unwrap_err();
    assert_eq!(e.message, "Expected a directory");
    assert!(MtreeEntry::Directory.require_dir().is_ok());
}

#[test]
fn a_label_becomes_one_attribute_that_ends_with_nul() {
    let xs = label_to_xattrs(Some("system_u:object_r:root_t:s0")).unwrap();
    assert_eq!(xs.len(), 1);
    assert_eq!(xs[0].0, b"security.selinux\0".to_vec());
    assert_eq!(xs[0].1, b"system_u:object_r:root_t:s0\0".to_vec());
    assert!(label_to_xattrs(None).is_none());
    let xs = label_to_xattrs(Some("")).unwrap();
    assert_eq!(xs[0].1, vec![0u8]);
}

#[test]
fn the_root_directory_keeps_owner_and_gets_the_directory_bits() {
    let m = create_root_dirmeta(1000, 100, 0o755, Some("l"));
    assert_eq!(m.uid, 1000);
    assert_eq!(m.gid, 100);
    assert_eq!(m.mode, 0o040755);
    assert_eq!(m.xattrs.unwrap()[0].1, b"l\0".to_vec());
    let m = create_root_dirmeta(0, 0, 0o040700, None);
    assert_eq!(m.mode, 0o040700);
    assert!(m.xattrs.is_none());
    assert_eq!(root_label_mode(), 0o040777);
}

#[test]
fn the_time_of_a_commit_is_not_before_the_epoch() {
    assert_eq!(commit_time(None).unwrap(), 0);
    assert_eq!(commit_time(Some(0)).unwrap(), 0);
    assert_eq!(commit_time(Some(1_700_000_000)).unwrap(), 1_700_000_000);
    assert_eq!(commit_time(Some(i64::MAX)).unwrap(), i64::MAX as u64);
    let e = commit_time(Some(-1)).unwrap_err();
    assert_eq!(e.kind, ErrorKind::Configuration);
    assert_eq!(e.message, "Parsing creation time");
    assert!(commit_time(Some(i64::MIN)).is_err());
}

#[test]
fn a_commit_without_parent_is_accepted() {
    let c = compose_commit_request(Some(5)).unwrap();
    assert!(c.parent.is_none());
    assert!(c.subject.is_none());
    assert!(c.body.is_none());
    assert!(c.metadata.is_none());
    assert_eq!(c.time, 5);
    assert_eq!(compose_commit_request(None).unwrap().time, 0);
    assert!(compose_commit_request(Some(-5)).is_err());
}

#[test]
fn a_composition_commits_without_attributes_and_with_canonical_permissions() {
    let m = compose_modifier();
    assert!(m.skip_xattrs && m.canonical_permissions);
    let l = layered_modifier();
    assert!(!l.skip_xattrs && !l.canonical_permissions);
}

#[test]
fn special_files_are_removed_wherever_they_are() {
    let files = vec![
        ("usr/bin/vim".to_string(), FileKind::Regular),
        ("run/sock".to_string(), FileKind::Socket),
        ("usr".to_string(), FileKind::Directory),
        ("dev/null".to_string(), FileKind::CharDevice),
        ("home".to_string(), FileKind::Symlink(b"var/home".to_vec())),
        ("dev/sda".to_string(), FileKind::BlockDevice),
        ("pipe".to_string(), FileKind::Fifo),
    ];
    assert_eq!(clean_rootfs(&files), vec!["run/sock", "dev/null", "dev/sda", "pipe"]);
    assert!(clean_rootfs(&Vec::new()).is_empty());
}

#[test]
fn a_missing_reference_resolves_to_nothing_if_it_may_be_missing() {
    assert_eq!(resolve("os/layered", None, true).unwrap(), None);
    assert_eq!(resolve("os/layered", Some("abc".to_string()), true).unwrap(), Some("abc".to_string()));
    assert_eq!(resolve("os/layered", Some("abc".to_string()), false).unwrap(), Some("abc".to_string()));
    let e = resolve("os/layered", None, false).unwrap_err();
    assert_eq!(e.kind, ErrorKind::StoreUnavailable);
    assert_eq!(e.message, "Commit ref 'os/layered' not found");
}

#[test]
fn a_checksum_has_64_lower_case_hex_digits() {
    let good = "0123456789abcdef0123456789abcdef0123456789abcdef0123456789abcdef";
    assert!(valid_checksum(good));
    assert!(!valid_checksum(&good[1..]));
    assert!(!valid_checksum(&format!("{}0", good)));
    assert!(!valid_checksum(&good.to_uppercase()));
    assert!(!valid_checksum(&good.replace('f', "g")));
    assert!(!valid_checksum(""));
}

#[test]
fn a_commit_goes_through_its_stages_in_order() {
    let mut stage = CommitStage::Draft;
    assert!(!is_visible(stage));
    for (event, expected) in [
        (StoreEvent::Stage, CommitStage::Staged),
        (StoreEvent::Stage, CommitStage::Staged),
        (StoreEvent::Publish, CommitStage::Published),
        (StoreEvent::SetRef, CommitStage::Referenced),
        (StoreEvent::SetRef, CommitStage::Referenced),
        (StoreEvent::Deploy, CommitStage::Deployed),
    ] {
        stage = advance(stage, event).unwrap();
        assert_eq!(stage, expected);
    }
    assert!(is_visible(stage));
    assert_eq!(advance(CommitStage::Draft, StoreEvent::Abort), Some(CommitStage::Aborted));
    assert_eq!(advance(CommitStage::Staged, StoreEvent::Abort), Some(CommitStage::Aborted));
    assert!(!is_visible(CommitStage::Aborted));
    assert_eq!(advance(CommitStage::Published, StoreEvent::Abort), None);
    assert_eq!(advance(CommitStage::Draft, StoreEvent::Publish), None);
    assert_eq!(advance(CommitStage::Published, StoreEvent::Deploy), None);
    assert_eq!(advance(CommitStage::Aborted, StoreEvent::Stage), None);
    assert_eq!(advance(CommitStage::Deployed, StoreEvent::SetRef), None);
}
