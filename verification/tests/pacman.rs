use pacman_ostree::error::ErrorKind;
use pacman_ostree::pacman::{
    parse_desc_from_bytes, parse_files_from_bytes, read_packages_from_commit, PackageEntry,
};

const DESC: &[u8] = b"%NAME%\nvim\n\n%VERSION%\n9.1.0-1\n\n%ARCH%\nx86_64\n\n%SIZE%\n12345\n\n%BUILDDATE%\n1700000000\n\n%DEPENDS%\nglibc\nlibgcc\n";

const FILES: &[u8] = b"%FILES%\nusr/\nusr/bin/\nusr/bin/vim\n/usr/share/vim\n\n%BACKUP%\netc/vimrc\t1234\n";

fn strings(items: &[&str]) -> Vec<String> {
    items.iter().map(|s| s.to_string()).collect()
}

fn entry(name: &str, desc: Option<&[u8]>, files: Option<&[u8]>) -> PackageEntry {
    PackageEntry {
        name: name.to_string(),
        is_directory: true,
        desc: desc.map(|d| d.to_vec()),
        files: files.map(|f| f.to_vec()),
    }
}

#[test]
fn desc_gives_the_fields_of_a_package() {
    let p = parse_desc_from_bytes(DESC).unwrap();
    assert_eq!(p.pkgname, "vim");
    assert_eq!(p.pkgver, "9.1.0-1");
    assert_eq!(p.arch, "x86_64");
    assert_eq!(p.size, 12345);
    assert_eq!(p.buildtime, 1700000000);
    assert_eq!(p.src_pkg, "vim");
    assert!(p.provided_files.is_empty());
    assert!(p.changelogs.is_empty());
    let q = p.clone();
    assert_eq!(q.pkgname, "vim");
    assert_eq!(q.buildtime, 1700000000);
}

#[test]
fn desc_without_fields_gives_an_empty_package() {
    let p = parse_desc_from_bytes(b"").unwrap();
    assert_eq!(p.pkgname, "");
    assert_eq!(p.pkgver, "");
    assert_eq!(p.arch, "");
    assert_eq!(p.size, 0);
    assert_eq!(p.buildtime, 0);
    let p = parse_desc_from_bytes(b"vim\n%NAME%\n%VERSION%\n1\n").unwrap();
    assert_eq!(p.pkgname, "");
    assert_eq!(p.pkgver, "1");
}

#[test]
fn desc_takes_the_first_value_of_a_field() {
    let p = parse_desc_from_bytes(b"%NAME%\nfirst\nsecond\n%NAME%\nthird\n").unwrap();
    assert_eq!(p.pkgname, "first");
    // The values of a field that comes twice go on where they stopped.
    let p = parse_desc_from_bytes(b"%NAME%\n%SIZE%\n7\n%NAME%\nlate\n").unwrap();
    assert_eq!(p.pkgname, "late");
    assert_eq!(p.size, 7);
    // The first value of a field may be an empty line.
    let p = parse_desc_from_bytes(b"%NAME%\n\nvim\n").unwrap();
    assert_eq!(p.pkgname, "");
}

#[test]
fn desc_reads_numbers_or_zero() {
    let p = parse_desc_from_bytes(b"%SIZE%\n12x\n%BUILDDATE%\n-5\n").unwrap();
    assert_eq!(p.size, 0);
    assert_eq!(p.buildtime, 0);
    let p = parse_desc_from_bytes(b"%SIZE%\n18446744073709551615\n%BUILDDATE%\n18446744073709551616\n").unwrap();
    assert_eq!(p.size, u64::MAX);
    assert_eq!(p.buildtime, 0);
    let p = parse_desc_from_bytes(b"%SIZE%\r\n42\r\n").unwrap();
    assert_eq!(p.size, 42);
}

#[test]
fn desc_that_is_not_utf8_is_an_error_of_encoding() {
    let e = parse_desc_from_bytes(b"%NAME%\nvi\xffm\n").unwrap_err();
    assert_eq!(e.kind, ErrorKind::Encoding);
    assert_eq!(e.message, "stream did not contain valid UTF-8");
    assert!(parse_desc_from_bytes(b"%NAME%\nvim\n\xc3").is_err());
    assert_eq!(parse_desc_from_bytes("%NAME%\nv\u{ed}m\n".as_bytes()).unwrap().pkgname, "v\u{ed}m");
}

#[test]
fn files_gives_the_paths_of_the_section() {
    let paths = parse_files_from_bytes(FILES).unwrap();
    assert_eq!(paths, strings(&["/usr/", "/usr/bin/", "/usr/bin/vim", "/usr/share/vim"]));
}

#[test]
fn files_without_a_section_gives_no_paths() {
    assert!(parse_files_from_bytes(b"").unwrap().is_empty());
    assert!(parse_files_from_bytes(b"usr/bin/vim\n").unwrap().is_empty());
    assert!(parse_files_from_bytes(b"%FILES%\n").unwrap().is_empty());
    assert!(parse_files_from_bytes(b"%FILES%\n\nusr/bin/vim\n").unwrap().is_empty());
}

#[test]
fn files_trims_lines_and_passes_repeated_headers_over() {
    let paths = parse_files_from_bytes(b"  %FILES%  \n  usr/bin/vim \r\n%FILES%\nusr/bin/vi\n \t \nusr/late\n").unwrap();
    assert_eq!(paths, strings(&["/usr/bin/vim", "/usr/bin/vi"]));
}

#[test]
fn files_that_is_not_utf8_is_an_error_only_up_to_the_end_of_the_section() {
    let e = parse_files_from_bytes(b"%FILES%\nusr/\xff\n").unwrap_err();
    assert_eq!(e.kind, ErrorKind::Encoding);
    assert!(parse_files_from_bytes(b"\xff\n%FILES%\nusr/\n").is_err());
    let paths = parse_files_from_bytes(b"%FILES%\nusr/\n\n\xff\n").unwrap();
    assert_eq!(paths, strings(&["/usr/"]));
}

#[test]
fn the_database_holds_each_package_under_its_name() {
    let entries = vec![
        entry("vim-9.1.0-1", Some(DESC), Some(FILES)),
        entry("bash-5.2-1", Some(b"%NAME%\nbash\n%VERSION%\n5.2-1\n%ARCH%\nx86_64\n"), None),
        entry("broken", None, Some(FILES)),
        PackageEntry {
            name: "ALPM_DB_VERSION".to_string(),
            is_directory: false,
            desc: Some(DESC.to_vec()),
            files: None,
        },
    ];
    let db = read_packages_from_commit("/ostree/repo", Some(&entries)).unwrap();
    assert_eq!(db.len(), 2);
    let vim = db.get("vim").unwrap();
    assert_eq!(vim.provided_files, strings(&["/usr/", "/usr/bin/", "/usr/bin/vim", "/usr/share/vim"]));
    assert_eq!(vim.size, 12345);
    let bash = db.get("bash").unwrap();
    assert_eq!(bash.pkgver, "5.2-1");
    assert!(bash.provided_files.is_empty());
    assert_eq!(db.entry(0).unwrap().0, "bash");
    assert_eq!(db.entry(1).unwrap().0, "vim");
}

#[test]
fn a_later_package_of_the_same_name_takes_the_place_of_an_earlier_one() {
    let entries = vec![
        entry("vim-1", Some(b"%NAME%\nvim\n%VERSION%\n1\n"), None),
        entry("vim-2", Some(b"%NAME%\nvim\n%VERSION%\n2\n"), None),
    ];
    let db = read_packages_from_commit("/repo", Some(&entries)).unwrap();
    assert_eq!(db.len(), 1);
    assert_eq!(db.get("vim").unwrap().pkgver, "2");
}

#[test]
fn a_commit_without_database_is_an_error() {
    let e = read_packages_from_commit("/ostree/repo", None).unwrap_err();
    assert_eq!(e.kind, ErrorKind::StoreUnavailable);
    assert_eq!(
        e.message,
        "Pacman local database path not found in commit: /ostree/repo/var/lib/pacman/local"
    );
}

#[test]
fn an_entry_that_cannot_be_read_is_named() {
    let entries = vec![
        entry("good", Some(DESC), None),
        entry("bad-desc", Some(b"\xff"), None),
        entry("bad-files", Some(DESC), Some(b"%FILES%\n\xff\n")),
    ];
    let e = read_packages_from_commit("/repo", Some(&entries)).unwrap_err();
    assert_eq!(e.kind, ErrorKind::Encoding);
    assert_eq!(e.message, "Parsing desc for package 'bad-desc'");
    let entries = vec![entry("bad-files", Some(DESC), Some(b"%FILES%\n\xff\n"))];
    let e = read_packages_from_commit("/repo", Some(&entries)).unwrap_err();
    assert_eq!(e.kind, ErrorKind::Encoding);
    assert_eq!(e.message, "Parsing files for package 'bad-files'");
    let db = read_packages_from_commit("/repo", Some(&Vec::new())).unwrap();
    assert_eq!(db.len(), 0);
}
