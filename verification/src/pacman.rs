//! The package database of a commit.
//!
//! The local database of the package manager is a directory with one
//! subdirectory per installed package. Each holds a `desc` file of
//! `%KEY%` header lines, each followed by the lines of its values, and
//! optionally a `files` file whose `%FILES%` section lists the paths of
//! the package, relative to the root. This module reads both formats from
//! bytes and assembles the database.

use vstd::prelude::*;
use vstd::string::*;
use vstd::utf8::{decode_utf8, valid_utf8};
use crate::error::{Error, ErrorKind};
use crate::name_map::NameMap;
use crate::name_set::{clone_names, option_view, views};
use crate::order::same_name;
use crate::text::{
    byte_lines, byte_views, decimal_u64, decode_text, ends_with_char, lines_of_bytes, parse_u64,
    starts_with_char, trim, trim_matches, trimmed,
};

verus! {

/// What the database says of one installed package.
#[derive(Debug)]
pub struct PacmanPackageMeta {
    pub pkgname: String,
    pub pkgver: String,
    pub arch: String,
    /// The installed size in bytes.
    pub size: u64,
    /// The time of the build, in seconds since the epoch.
    pub buildtime: u64,
    /// The source package: the package's own name.
    pub src_pkg: String,
    /// The absolute paths that the package provides.
    pub provided_files: Vec<String>,
    /// The times of the changelog entries.
    pub changelogs: Vec<u64>,
}

/// What a `PacmanPackageMeta` holds, as plain values.
pub ghost struct PackageView {
    pub pkgname: Seq<char>,
    pub pkgver: Seq<char>,
    pub arch: Seq<char>,
    pub size: u64,
    pub buildtime: u64,
    pub src_pkg: Seq<char>,
    pub provided_files: Seq<Seq<char>>,
    pub changelogs: Seq<u64>,
}

impl View for PacmanPackageMeta {
    type V = PackageView;

    open spec fn view(&self) -> PackageView {
        PackageView {
            pkgname: self.pkgname@,
            pkgver: self.pkgver@,
            arch: self.arch@,
            size: self.size,
            buildtime: self.buildtime,
            src_pkg: self.src_pkg@,
            provided_files: views(self.provided_files@),
            changelogs: self.changelogs@,
        }
    }
}

impl Clone for PacmanPackageMeta {
    fn clone(&self) -> (r: PacmanPackageMeta)
        ensures
            r@ == self@,
    {
        PacmanPackageMeta {
            pkgname: self.pkgname.clone(),
            pkgver: self.pkgver.clone(),
            arch: self.arch.clone(),
            size: self.size,
            buildtime: self.buildtime,
            src_pkg: self.src_pkg.clone(),
            provided_files: clone_names(&self.provided_files),
            changelogs: self.changelogs.clone(),
        }
    }
}

/// Every line is valid UTF-8.
pub open spec fn all_valid(raw: Seq<Seq<u8>>) -> bool {
    forall|i: int| 0 <= i < raw.len() ==> valid_utf8(#[trigger] raw[i])
}

/// The text of each line.
pub open spec fn decoded(raw: Seq<Seq<u8>>) -> Seq<Seq<char>> {
    Seq::new(raw.len(), |i: int| decode_utf8(raw[i]))
}

/// A header line begins and ends with `%`.
pub open spec fn is_header(line: Seq<char>) -> bool {
    line.len() > 0 && line[0] == '%' && line.last() == '%'
}

/// The key of a header line: the line without the `%` at both ends.
pub open spec fn header_key(line: Seq<char>) -> Seq<char> {
    trimmed(line, Some('%'))
}

/// After the first `n` lines: whether the last header was that of `key`,
/// and the first value line that followed a header of `key`, if any did.
pub open spec fn scan_field(lines: Seq<Seq<char>>, key: Seq<char>, n: int) -> (bool, Option<
    Seq<char>,
>)
    decreases n,
{
    if n <= 0 {
        (false, None)
    } else {
        let (inside, found) = scan_field(lines, key, n - 1);
        let line = lines[n - 1];
        if is_header(line) {
            (header_key(line) == key, found)
        } else if inside && found is None {
            (inside, Some(line))
        } else {
            (inside, found)
        }
    }
}

/// The first value of the field `key`, if the field has a value.
pub open spec fn field_first(lines: Seq<Seq<char>>, key: Seq<char>) -> Option<Seq<char>> {
    scan_field(lines, key, lines.len() as int).1
}

/// The text of a field, empty if the field has no value.
pub open spec fn field_text(lines: Seq<Seq<char>>, key: Seq<char>) -> Seq<char> {
    match field_first(lines, key) {
        Some(v) => v,
        None => Seq::<char>::empty(),
    }
}

/// The number of a field, 0 if the field has no value or writes no number.
pub open spec fn field_number(lines: Seq<Seq<char>>, key: Seq<char>) -> u64 {
    match field_first(lines, key) {
        Some(v) => match decimal_u64(v) {
            Some(n) => n,
            None => 0,
        },
        None => 0,
    }
}

/// The package that the lines of a `desc` file describe. Its files and
/// changelog are empty: the `desc` file names neither.
pub open spec fn package_of_lines(lines: Seq<Seq<char>>) -> PackageView {
    PackageView {
        pkgname: field_text(lines, "NAME"@),
        pkgver: field_text(lines, "VERSION"@),
        arch: field_text(lines, "ARCH"@),
        size: field_number(lines, "SIZE"@),
        buildtime: field_number(lines, "BUILDDATE"@),
        src_pkg: field_text(lines, "NAME"@),
        provided_files: Seq::<Seq<char>>::empty(),
        changelogs: Seq::<u64>::empty(),
    }
}

/// The package that a `desc` file describes, if all its lines are UTF-8.
pub open spec fn desc_of(bytes: Seq<u8>) -> Option<PackageView> {
    let raw = byte_lines(bytes);
    if all_valid(raw) {
        Some(package_of_lines(decoded(raw)))
    } else {
        None
    }
}

/// Where the reading of a `files` file stands.
pub enum FilesPhase {
    /// The `%FILES%` header was not seen yet.
    Before,
    /// The lines are paths of the section.
    Inside,
    /// An empty line has ended the section; nothing more is read.
    Done,
}

/// A path of the `files` section as an absolute path.
pub open spec fn rooted(path: Seq<char>) -> Seq<char> {
    if path.len() > 0 && path[0] == '/' {
        path
    } else {
        "/"@ + path
    }
}

/// The reading of the first `n` lines of a `files` file: the phase reached
/// and the paths read, or `None` if a line that had to be read is not
/// UTF-8.
pub open spec fn scan_files(raw: Seq<Seq<u8>>, n: int) -> Option<(FilesPhase, Seq<Seq<char>>)>
    decreases n,
{
    if n <= 0 {
        Some((FilesPhase::Before, Seq::<Seq<char>>::empty()))
    } else {
        match scan_files(raw, n - 1) {
            None => None,
            Some((FilesPhase::Done, paths)) => Some((FilesPhase::Done, paths)),
            Some((phase, paths)) => if !valid_utf8(raw[n - 1]) {
                None
            } else {
                let t = trimmed(decode_utf8(raw[n - 1]), None);
                if t == "%FILES%"@ {
                    Some((FilesPhase::Inside, paths))
                } else if phase is Inside {
                    if t.len() == 0 {
                        Some((FilesPhase::Done, paths))
                    } else {
                        Some((FilesPhase::Inside, paths.push(rooted(t))))
                    }
                } else {
                    Some((FilesPhase::Before, paths))
                }
            },
        }
    }
}

/// The paths that a `files` file lists, if every line up to the end of
/// its section is UTF-8.
pub open spec fn files_of(bytes: Seq<u8>) -> Option<Seq<Seq<char>>> {
    let raw = byte_lines(bytes);
    match scan_files(raw, raw.len() as int) {
        Some((_, paths)) => Some(paths),
        None => None,
    }
}

/// A failure to read one line stays a failure, and a section that has
/// ended stays as it is, however many more lines are looked at.
pub proof fn lemma_scan_files_settled(raw: Seq<Seq<u8>>, n: int, m: int)
    requires
        0 <= n <= m,
        scan_files(raw, n) is None || (scan_files(raw, n) matches Some(s) && s.0 is Done),
    ensures
        scan_files(raw, m) == scan_files(raw, n),
    decreases m,
{
    if n < m {
        lemma_scan_files_settled(raw, n, m - 1);
    }
}

fn is_header_line(line: &str) -> (b: bool)
    ensures
        b == is_header(line@),
{
    starts_with_char(line, '%') && ends_with_char(line, '%')
}

/// The first value of the field `key` in the lines of a `desc` file.
fn first_value(lines: &Vec<String>, key: &str) -> (r: Option<String>)
    ensures
        option_view(r) == field_first(views(lines@), key@),
{
    let ghost ls = views(lines@);
    let mut inside = false;
    let mut i: usize = 0;
    while i < lines.len()
        invariant
            i <= lines.len(),
            ls == views(lines@),
            scan_field(ls, key@, i as int) == (inside, None::<Seq<char>>),
        decreases lines.len() - i,
    {
        assert(ls[i as int] == lines@[i as int]@);
        if is_header_line(lines[i].as_str()) {
            let k = trim_matches(lines[i].as_str(), '%');
            inside = same_name(k.as_str(), key);
        } else if inside {
            proof {
                assert(scan_field(ls, key@, i + 1) == (true, Some(ls[i as int])));
                lemma_scan_field_found(ls, key@, i + 1, ls.len() as int);
            }
            return Some(lines[i].clone());
        }
        i += 1;
    }
    None
}

/// A value that was found stays the first value.
pub proof fn lemma_scan_field_found(lines: Seq<Seq<char>>, key: Seq<char>, n: int, m: int)
    requires
        0 <= n <= m,
        scan_field(lines, key, n).1 is Some,
    ensures
        scan_field(lines, key, m).1 == scan_field(lines, key, n).1,
    decreases m,
{
    if n < m {
        lemma_scan_field_found(lines, key, n, m - 1);
    }
}

fn text_or_empty(v: Option<String>) -> (r: String)
    ensures
        r@ == (match option_view(v) {
            Some(t) => t,
            None => Seq::<char>::empty(),
        }),
{
    match v {
        Some(t) => t,
        None => String::new(),
    }
}

fn number_or_zero(v: Option<String>) -> (r: u64)
    ensures
        r == (match option_view(v) {
            Some(t) => match decimal_u64(t) {
                Some(n) => n,
                None => 0,
            },
            None => 0,
        }),
{
    match v {
        Some(t) => match parse_u64(t.as_str()) {
            Some(n) => n,
            None => 0,
        },
        None => 0,
    }
}

/// The lines of a file as text, if all of them are UTF-8.
fn decode_lines(raw: &Vec<Vec<u8>>) -> (r: Option<Vec<String>>)
    ensures
        r is Some <==> all_valid(byte_views(raw@)),
        r matches Some(lines) ==> views(lines@) == decoded(byte_views(raw@)),
{
    let ghost rs = byte_views(raw@);
    let mut lines: Vec<String> = Vec::new();
    let mut i: usize = 0;
    while i < raw.len()
        invariant
            i <= raw.len(),
            rs == byte_views(raw@),
            forall|k: int| 0 <= k < i ==> valid_utf8(#[trigger] rs[k]),
            views(lines@) == decoded(rs).take(i as int),
        decreases raw.len() - i,
    {
        assert(rs[i as int] == raw@[i as int]@);
        match decode_text(raw[i].as_slice()) {
            Some(line) => {
                proof {
                    assert(decoded(rs)[i as int] == line@);
                    assert(views(lines@.push(line)) =~= views(lines@).push(line@));
                    assert(decoded(rs).take(i as int).push(line@) =~= decoded(rs).take(i + 1));
                }
                lines.push(line);
            },
            None => {
                return None;
            },
        }
        i += 1;
    }
    assert(decoded(rs).take(i as int) =~= decoded(rs));
    Some(lines)
}

/// Reads the `desc` file of a package. The fields `NAME`, `VERSION`,
/// `ARCH`, `SIZE` and `BUILDDATE` are read, each from the first value
/// line under its header; a field that is missing is empty or zero. It is
/// an error of encoding if a line is not UTF-8.
pub fn parse_desc_from_bytes(bytes: &[u8]) -> (r: Result<PacmanPackageMeta, Error>)
    ensures
        r is Ok <==> desc_of(bytes@) is Some,
        r matches Ok(p) ==> p@ == desc_of(bytes@)->0,
        r matches Err(e) ==> e.kind == ErrorKind::Encoding && e.message@
            == "stream did not contain valid UTF-8"@,
{
    let raw = lines_of_bytes(bytes);
    let lines = match decode_lines(&raw) {
        Some(lines) => lines,
        None => {
            return Err(Error::new(ErrorKind::Encoding, "stream did not contain valid UTF-8"));
        },
    };
    let pkgname = text_or_empty(first_value(&lines, "NAME"));
    let pkgver = text_or_empty(first_value(&lines, "VERSION"));
    let arch = text_or_empty(first_value(&lines, "ARCH"));
    let size = number_or_zero(first_value(&lines, "SIZE"));
    let buildtime = number_or_zero(first_value(&lines, "BUILDDATE"));
    let p = PacmanPackageMeta {
        pkgname: pkgname.clone(),
        pkgver,
        arch,
        size,
        buildtime,
        src_pkg: pkgname,
        provided_files: Vec::new(),
        changelogs: Vec::new(),
    };
    proof {
        assert(p@.provided_files =~= Seq::<Seq<char>>::empty());
    }
    Ok(p)
}

/// Reads the `files` file of a package: the paths of its `%FILES%`
/// section, up to the first empty line, each made absolute. It is an
/// error of encoding if a line up to the end of the section is not UTF-8.
pub fn parse_files_from_bytes(bytes: &[u8]) -> (r: Result<Vec<String>, Error>)
    ensures
        r is Ok <==> files_of(bytes@) is Some,
        r matches Ok(paths) ==> views(paths@) == files_of(bytes@)->0,
        r matches Err(e) ==> e.kind == ErrorKind::Encoding && e.message@
            == "stream did not contain valid UTF-8"@,
{
    let raw = lines_of_bytes(bytes);
    let ghost rs = byte_lines(bytes@);
    let mut paths: Vec<String> = Vec::new();
    let mut inside = false;
    let mut i: usize = 0;
    while i < raw.len()
        invariant
            i <= raw.len(),
            rs == byte_lines(bytes@),
            rs == byte_views(raw@),
            scan_files(rs, i as int) == Some(
                (
                    if inside {
                        FilesPhase::Inside
                    } else {
                        FilesPhase::Before
                    },
                    views(paths@),
                ),
            ),
        decreases raw.len() - i,
    {
        assert(rs[i as int] == raw@[i as int]@);
        let line = match decode_text(raw[i].as_slice()) {
            Some(line) => line,
            None => {
                proof {
                    assert(scan_files(rs, i + 1) is None);
                    lemma_scan_files_settled(rs, i + 1, rs.len() as int);
                }
                return Err(Error::new(ErrorKind::Encoding, "stream did not contain valid UTF-8"));
            },
        };
        let t = trim(line.as_str());
        if same_name(t.as_str(), "%FILES%") {
            inside = true;
        } else if inside {
            if t.as_str().unicode_len() == 0 {
                proof {
                    assert(scan_files(rs, i + 1) == Some((FilesPhase::Done, views(paths@))));
                    lemma_scan_files_settled(rs, i + 1, rs.len() as int);
                }
                return Ok(paths);
            }
            let path = if starts_with_char(t.as_str(), '/') {
                t
            } else {
                let mut p = "/".to_owned();
                p.append(t.as_str());
                p
            };
            proof {
                assert(views(paths@.push(path)) =~= views(paths@).push(path@));
            }
            paths.push(path);
        }
        i += 1;
    }
    Ok(paths)
}

/// One entry of the directory of the local database, as it was read
/// from the commit: its name, whether it is a directory, and the bytes
/// of the files `desc` and `files` in it, where they exist.
#[derive(Debug)]
pub struct PackageEntry {
    pub name: String,
    pub is_directory: bool,
    pub desc: Option<Vec<u8>>,
    pub files: Option<Vec<u8>>,
}

/// What reading one entry gives.
pub enum EntryOutcome {
    /// The entry is no directory, or holds no `desc` file: it is passed over.
    Skipped,
    /// The entry describes a package.
    Package(PackageView),
    /// The `desc` file could not be read.
    BadDesc,
    /// The `files` file could not be read.
    BadFiles,
}

/// The bytes of an optional file.
pub open spec fn option_bytes(f: Option<Vec<u8>>) -> Option<Seq<u8>> {
    match f {
        Some(b) => Some(b@),
        None => None,
    }
}

/// What reading the entry with these files gives.
pub open spec fn entry_outcome(
    is_directory: bool,
    desc: Option<Seq<u8>>,
    files: Option<Seq<u8>>,
) -> EntryOutcome {
    if !is_directory || desc is None {
        EntryOutcome::Skipped
    } else {
        match desc_of(desc->0) {
            None => EntryOutcome::BadDesc,
            Some(p) => match files {
                None => EntryOutcome::Package(p),
                Some(f) => match files_of(f) {
                    None => EntryOutcome::BadFiles,
                    Some(paths) => EntryOutcome::Package(
                        PackageView { provided_files: paths, ..p },
                    ),
                },
            },
        }
    }
}

/// What reading the entry `e` gives.
pub open spec fn outcome_of(e: PackageEntry) -> EntryOutcome {
    entry_outcome(e.is_directory, option_bytes(e.desc), option_bytes(e.files))
}

/// The database after the first `n` entries: each package under its
/// name, a later one in place of an earlier one of the same name; or the
/// place of the first entry that could not be read.
pub open spec fn database_upto(entries: Seq<PackageEntry>, n: int) -> Result<
    Map<Seq<char>, PackageView>,
    int,
>
    decreases n,
{
    if n <= 0 {
        Ok(Map::<Seq<char>, PackageView>::empty())
    } else {
        match database_upto(entries, n - 1) {
            Err(i) => Err(i),
            Ok(db) => match outcome_of(entries[n - 1]) {
                EntryOutcome::Skipped => Ok(db),
                EntryOutcome::Package(p) => Ok(db.insert(p.pkgname, p)),
                _ => Err(n - 1),
            },
        }
    }
}

/// A database that failed at some entry has failed there, however many
/// more entries are looked at.
pub proof fn lemma_database_failed(entries: Seq<PackageEntry>, n: int, m: int)
    requires
        0 <= n <= m,
        database_upto(entries, n) is Err,
    ensures
        database_upto(entries, m) == database_upto(entries, n),
    decreases m,
{
    if n < m {
        lemma_database_failed(entries, n, m - 1);
    }
}

/// The packages of a database, by name.
pub open spec fn package_views(db: NameMap<PacmanPackageMeta>) -> Map<Seq<char>, PackageView> {
    Map::new(|k: Seq<char>| db@.dom().contains(k), |k: Seq<char>| db@[k]@)
}

/// The message for a commit without a local database.
pub open spec fn missing_database_message(repo: Seq<char>) -> Seq<char> {
    "Pacman local database path not found in commit: "@ + repo + "/var/lib/pacman/local"@
}

/// The message for an entry whose file `what` could not be read.
pub open spec fn bad_entry_message(what: Seq<char>, name: Seq<char>) -> Seq<char> {
    "Parsing "@ + what + " for package '"@ + name + "'"@
}

fn bad_entry(what: &str, name: &str) -> (e: Error)
    ensures
        e.kind == ErrorKind::Encoding,
        e.message@ == bad_entry_message(what@, name@),
{
    let mut message = "Parsing ".to_owned();
    message.append(what);
    message.append(" for package '");
    message.append(name);
    message.append("'");
    Error { kind: ErrorKind::Encoding, message }
}

/// Assembles the package database of a commit from the entries of its
/// local database directory, `None` if the commit has no such
/// directory. Entries that are no directories or hold no `desc` file are
/// passed over. It is an error if the directory is missing, and an error
/// of encoding, naming the entry, if a `desc` or `files` file cannot be
/// read.
pub fn read_packages_from_commit(repo: &str, entries: Option<&Vec<PackageEntry>>) -> (r: Result<
    NameMap<PacmanPackageMeta>,
    Error,
>)
    ensures
        entries is None ==> r is Err && r->Err_0.kind == ErrorKind::StoreUnavailable
            && r->Err_0.message@ == missing_database_message(repo@),
        entries matches Some(es) ==> {
            let all = database_upto(es@, es@.len() as int);
            &&& r is Ok <==> all is Ok
            &&& r matches Ok(db) ==> db.wf() && package_views(db) == all->Ok_0
            &&& r matches Err(e) ==> e.kind == ErrorKind::Encoding && e.message@
                == bad_entry_message(
                if outcome_of(es@[all->Err_0]) is BadDesc {
                    "desc"@
                } else {
                    "files"@
                },
                es@[all->Err_0].name@,
            )
        },
{
    let es = match entries {
        Some(es) => es,
        None => {
            let mut message = "Pacman local database path not found in commit: ".to_owned();
            message.append(repo);
            message.append("/var/lib/pacman/local");
            return Err(Error { kind: ErrorKind::StoreUnavailable, message });
        },
    };
    let mut db: NameMap<PacmanPackageMeta> = NameMap::new();
    let mut i: usize = 0;
    proof {
        assert(package_views(db) =~= Map::<Seq<char>, PackageView>::empty());
    }
    while i < es.len()
        invariant
            i <= es.len(),
            entries == Some(es),
            db.wf(),
            database_upto(es@, i as int) == Ok::<Map<Seq<char>, PackageView>, int>(
                package_views(db),
            ),
        decreases es.len() - i,
    {
        let e = &es[i];
        if e.is_directory {
            match &e.desc {
                Some(desc) => {
                    let mut p = match parse_desc_from_bytes(desc.as_slice()) {
                        Ok(p) => p,
                        Err(_) => {
                            proof {
                                assert(outcome_of(es@[i as int]) is BadDesc);
                                assert(database_upto(es@, i + 1) == Err::<
                                    Map<Seq<char>, PackageView>,
                                    int,
                                >(i as int));
                                lemma_database_failed(es@, i + 1, es@.len() as int);
                            }
                            return Err(bad_entry("desc", e.name.as_str()));
                        },
                    };
                    match &e.files {
                        Some(files) => {
                            match parse_files_from_bytes(files.as_slice()) {
                                Ok(paths) => {
                                    p.provided_files = paths;
                                },
                                Err(_) => {
                                    proof {
                                        assert(outcome_of(es@[i as int]) is BadFiles);
                                        assert(database_upto(es@, i + 1) == Err::<
                                            Map<Seq<char>, PackageView>,
                                            int,
                                        >(i as int));
                                        lemma_database_failed(es@, i + 1, es@.len() as int);
                                    }
                                    return Err(bad_entry("files", e.name.as_str()));
                                },
                            }
                        },
                        None => {},
                    }
                    let ghost before = package_views(db);
                    let ghost pv = p@;
                    proof {
                        assert(outcome_of(es@[i as int]) == EntryOutcome::Package(pv));
                    }
                    db.insert(p.pkgname.clone(), p);
                    proof {
                        assert(package_views(db) =~= before.insert(pv.pkgname, pv));
                    }
                },
                None => {},
            }
        }
        i += 1;
    }
    Ok(db)
}

} // verus!
