//! The deployments of the host, read from the status listing of the
//! deployment tool.
//!
//! Each line of the listing that names an operating system and a commit
//! is a deployment. A leading `*` marks the booted deployment and a
//! leading `+` a staged one. The place of a deployment is the number of
//! its line.

use vstd::prelude::*;
use vstd::string::*;
use crate::error::{Error, ErrorKind};
use crate::text::{
    contains_text, has_infix, has_prefix, lines_of, split, split_on, split_whitespace,
    starts_with_char, strip_prefix, text_lines, tokens, trim, trim_start_matches, trimmed,
    trimmed_start,
};

verus! {

/// One deployment of the listing.
#[derive(Debug)]
pub struct DeploymentInfo {
    pub index: u32,
    pub osname: String,
    pub commit: String,
    pub is_booted: bool,
    pub is_staged: bool,
}

/// What a `DeploymentInfo` holds, as plain values.
pub ghost struct DeploymentView {
    pub index: u32,
    pub osname: Seq<char>,
    pub commit: Seq<char>,
    pub is_booted: bool,
    pub is_staged: bool,
}

impl View for DeploymentInfo {
    type V = DeploymentView;

    open spec fn view(&self) -> DeploymentView {
        DeploymentView {
            index: self.index,
            osname: self.osname@,
            commit: self.commit@,
            is_booted: self.is_booted,
            is_staged: self.is_staged,
        }
    }
}

impl Clone for DeploymentInfo {
    fn clone(&self) -> (r: DeploymentInfo)
        ensures
            r@ == self@,
    {
        DeploymentInfo {
            index: self.index,
            osname: self.osname.clone(),
            commit: self.commit.clone(),
            is_booted: self.is_booted,
            is_staged: self.is_staged,
        }
    }
}

/// The views of a list of deployments.
pub open spec fn deployment_views(v: Seq<DeploymentInfo>) -> Seq<DeploymentView> {
    Seq::new(v.len(), |i: int| v[i]@)
}

/// A line without the white space around it, its markers and the white
/// space after them.
pub open spec fn unmarked(line: Seq<char>) -> Seq<char> {
    trimmed(
        trimmed_start(trimmed_start(trimmed(line, None), Some('*')), Some('+')),
        None,
    )
}

/// The deployment that a line of the listing describes, if it describes
/// one: after the markers come at least two words, the name of the
/// operating system and the commit.
pub open spec fn deployment_of(line: Seq<char>, index: u32) -> Option<DeploymentView> {
    let t = trimmed(line, None);
    let parts = tokens(unmarked(line));
    if parts.len() >= 2 {
        Some(
            DeploymentView {
                index,
                osname: parts[0],
                commit: parts[1],
                is_booted: t.len() > 0 && t[0] == '*',
                is_staged: t.len() > 0 && t[0] == '+',
            },
        )
    } else {
        None
    }
}

/// The place of line `i`, as the 32-bit number that a deployment carries.
pub open spec fn line_index(i: int) -> u32 {
    (i % 0x1_0000_0000) as u32
}

/// The deployments of the first `n` lines, each with the number of its line.
pub open spec fn deployments_upto(lines: Seq<Seq<char>>, n: int) -> Seq<DeploymentView>
    decreases n,
{
    if n <= 0 {
        Seq::<DeploymentView>::empty()
    } else {
        let before = deployments_upto(lines, n - 1);
        match deployment_of(lines[n - 1], line_index(n - 1)) {
            Some(d) => before.push(d),
            None => before,
        }
    }
}

/// The deployments of a status listing.
pub open spec fn deployments_of(status: Seq<char>) -> Seq<DeploymentView> {
    let lines = text_lines(status);
    deployments_upto(lines, lines.len() as int)
}

/// The place of the first booted deployment among the first `n` (`n` if none is booted).
pub open spec fn first_booted(ds: Seq<DeploymentView>, n: int) -> int
    decreases n,
{
    if n <= 0 {
        0
    } else {
        let i = first_booted(ds, n - 1);
        if i < n - 1 {
            i
        } else if ds[n - 1].is_booted {
            n - 1
        } else {
            n
        }
    }
}

/// The first eight characters of a commit's checksum (all of it, if it is shorter).
pub open spec fn short_commit(commit: Seq<char>) -> Seq<char> {
    if commit.len() >= 8 {
        commit.subrange(0, 8)
    } else {
        commit
    }
}

/// A line that names both the operating system and the short form of the commit.
pub open spec fn line_names(line: Seq<char>, osname: Seq<char>, commit: Seq<char>) -> bool {
    has_infix(line, osname) && has_infix(line, short_commit(commit))
}

/// The place of the first of the first `n` lines that names the
/// deployment (`n` if none does).
pub open spec fn first_naming(
    lines: Seq<Seq<char>>,
    osname: Seq<char>,
    commit: Seq<char>,
    n: int,
) -> int
    decreases n,
{
    if n <= 0 {
        0
    } else {
        let i = first_naming(lines, osname, commit, n - 1);
        if i < n - 1 {
            i
        } else if line_names(lines[n - 1], osname, commit) {
            n - 1
        } else {
            n
        }
    }
}

/// The number of the line of `status` that names the deployment of
/// `commit` for `osname`, and 0 if no line does.
pub open spec fn deployment_index_of(status: Seq<char>, osname: Seq<char>, commit: Seq<char>) -> u32 {
    let lines = text_lines(status);
    let i = first_naming(lines, osname, commit, lines.len() as int);
    if i < lines.len() {
        line_index(i)
    } else {
        0
    }
}

fn index_of_line(i: usize) -> (r: u32)
    ensures
        r == line_index(i as int),
{
    let wide: u64 = i as u64;
    (wide % 0x1_0000_0000) as u32
}

/// Reads one line of the status listing.
pub fn parse_deployment_line(line: &str, index: u32) -> (r: Option<DeploymentInfo>)
    ensures
        r is Some <==> deployment_of(line@, index) is Some,
        r matches Some(d) ==> d@ == deployment_of(line@, index)->0,
{
    let line = trim(line);
    let is_booted = starts_with_char(line.as_str(), '*');
    let is_staged = starts_with_char(line.as_str(), '+');
    let no_star = trim_start_matches(line.as_str(), '*');
    let no_plus = trim_start_matches(no_star.as_str(), '+');
    let clean = trim(no_plus.as_str());
    let mut parts = split_whitespace(clean.as_str());
    if parts.len() >= 2 {
        let commit = parts.swap_remove(1);
        let osname = parts.swap_remove(0);
        Some(DeploymentInfo { index, osname, commit, is_booted, is_staged })
    } else {
        None
    }
}

/// All deployments of a status listing, in the order of their lines.
pub fn list_deployments(status: &str) -> (r: Vec<DeploymentInfo>)
    ensures
        deployment_views(r@) == deployments_of(status@),
{
    let lines = lines_of(status);
    let mut r: Vec<DeploymentInfo> = Vec::new();
    let mut i: usize = 0;
    let ghost ls = text_lines(status@);
    while i < lines.len()
        invariant
            i <= lines.len(),
            crate::name_set::views(lines@) == ls,
            deployment_views(r@) == deployments_upto(ls, i as int),
        decreases lines.len() - i,
    {
        assert(ls[i as int] == lines@[i as int]@);
        match parse_deployment_line(lines[i].as_str(), index_of_line(i)) {
            Some(d) => {
                proof {
                    assert(deployment_views(r@.push(d)) =~= deployment_views(r@).push(d@));
                }
                r.push(d);
            },
            None => {},
        }
        i += 1;
    }
    r
}

/// The booted deployment of a status listing: the first one that is
/// marked so. It is an error if none is.
pub fn get_booted_deployment(status: &str) -> (r: Result<DeploymentInfo, Error>)
    ensures
        ({
            let ds = deployments_of(status@);
            let i = first_booted(ds, ds.len() as int);
            &&& r is Ok <==> i < ds.len()
            &&& r matches Ok(d) ==> d@ == ds[i]
            &&& r matches Err(e) ==> e.kind == ErrorKind::StoreUnavailable && e.message@
                == "No booted deployment found"@
        }),
{
    let mut ds = list_deployments(status);
    let ghost views = deployments_of(status@);
    let mut i: usize = 0;
    while i < ds.len()
        invariant
            i <= ds.len(),
            views == deployments_of(status@),
            deployment_views(ds@) == views,
            first_booted(views, i as int) == i,
        decreases ds.len() - i,
    {
        assert(views[i as int] == ds@[i as int]@);
        if ds[i].is_booted {
            proof {
                assert(views.len() == ds.len());
                assert(first_booted(views, i as int + 1) == i);
                lemma_first_booted_stays(views, i as int + 1, views.len() as int);
            }
            return Ok(ds.swap_remove(i));
        }
        i += 1;
    }
    Err(Error::new(ErrorKind::StoreUnavailable, "No booted deployment found"))
}

/// Once a booted deployment is found, looking further finds the same one.
pub proof fn lemma_first_booted_stays(ds: Seq<DeploymentView>, n: int, m: int)
    requires
        0 <= n <= m,
        first_booted(ds, n) < n,
    ensures
        first_booted(ds, m) == first_booted(ds, n),
    decreases m,
{
    if n < m {
        lemma_first_booted_stays(ds, n, m - 1);
    }
}

/// Once a line that names the deployment is found, looking further finds the same one.
pub proof fn lemma_first_naming_stays(
    lines: Seq<Seq<char>>,
    osname: Seq<char>,
    commit: Seq<char>,
    n: int,
    m: int,
)
    requires
        0 <= n <= m,
        first_naming(lines, osname, commit, n) < n,
    ensures
        first_naming(lines, osname, commit, m) == first_naming(lines, osname, commit, n),
    decreases m,
{
    if n < m {
        lemma_first_naming_stays(lines, osname, commit, n, m - 1);
    }
}

/// The reference that a line of an origin file names, if it is the line
/// of the refspec: what follows `refspec=`, without the remote that may
/// stand before a colon.
pub open spec fn refspec_of_line(line: Seq<char>) -> Option<Seq<char>> {
    if has_prefix(line, "refspec="@) {
        Some(split(line.subrange("refspec="@.len() as int, line.len() as int), ':').last())
    } else {
        None
    }
}

/// The place of the first of the first `n` lines that is a line of the
/// refspec (`n` if none is).
pub open spec fn first_refspec(lines: Seq<Seq<char>>, n: int) -> int
    decreases n,
{
    if n <= 0 {
        0
    } else {
        let i = first_refspec(lines, n - 1);
        if i < n - 1 {
            i
        } else if refspec_of_line(lines[n - 1]) is Some {
            n - 1
        } else {
            n
        }
    }
}

/// The base reference that an origin file names, if it names one.
pub open spec fn origin_base_ref(content: Seq<char>) -> Option<Seq<char>> {
    let lines = text_lines(content);
    let i = first_refspec(lines, lines.len() as int);
    if i < lines.len() {
        refspec_of_line(lines[i])
    } else {
        None
    }
}

/// The place of the first of the first `n` origin files that names a
/// base reference (`n` if none does).
pub open spec fn first_origin(origins: Seq<Seq<char>>, n: int) -> int
    decreases n,
{
    if n <= 0 {
        0
    } else {
        let i = first_origin(origins, n - 1);
        if i < n - 1 {
            i
        } else if origin_base_ref(origins[n - 1]) is Some {
            n - 1
        } else {
            n
        }
    }
}

/// Once a line of the refspec is found, looking further finds the same one.
pub proof fn lemma_first_refspec_stays(lines: Seq<Seq<char>>, n: int, m: int)
    requires
        0 <= n <= m,
        first_refspec(lines, n) < n,
    ensures
        first_refspec(lines, m) == first_refspec(lines, n),
    decreases m,
{
    if n < m {
        lemma_first_refspec_stays(lines, n, m - 1);
    }
}

/// Once an origin file that names a base is found, looking further finds the same one.
pub proof fn lemma_first_origin_stays(origins: Seq<Seq<char>>, n: int, m: int)
    requires
        0 <= n <= m,
        first_origin(origins, n) < n,
    ensures
        first_origin(origins, m) == first_origin(origins, n),
    decreases m,
{
    if n < m {
        lemma_first_origin_stays(origins, n, m - 1);
    }
}

/// The base reference that an origin file names: that of its first line
/// that begins with `refspec=`.
pub fn base_ref_of_origin(content: &str) -> (r: Option<String>)
    ensures
        crate::name_set::option_view(r) == origin_base_ref(content@),
{
    let lines = lines_of(content);
    let ghost ls = text_lines(content@);
    let mut i: usize = 0;
    while i < lines.len()
        invariant
            i <= lines.len(),
            ls == text_lines(content@),
            crate::name_set::views(lines@) == ls,
            first_refspec(ls, i as int) == i,
        decreases lines.len() - i,
    {
        assert(ls[i as int] == lines@[i as int]@);
        match strip_prefix(lines[i].as_str(), "refspec=") {
            Some(refspec) => {
                let mut pieces = split_on(refspec.as_str(), ':');
                let last = pieces.pop().unwrap();
                proof {
                    let ps = split(refspec@, ':');
                    assert(crate::name_set::views(pieces@.push(last)) == ps);
                    assert(ps.last() == last@);
                    assert(ls.len() == lines.len());
                    assert(first_refspec(ls, i as int + 1) == i);
                    lemma_first_refspec_stays(ls, i as int + 1, ls.len() as int);
                }
                return Some(last);
            },
            None => {},
        }
        i += 1;
    }
    None
}

/// The base reference of the host, from the origin files of its
/// deployments in the order in which they were found: that of the first
/// file that names one. It is an error if none does.
pub fn detect_base_ref(origins: &Vec<String>) -> (r: Result<String, Error>)
    ensures
        ({
            let os = crate::name_set::views(origins@);
            let i = first_origin(os, os.len() as int);
            &&& r is Ok <==> i < os.len()
            &&& r matches Ok(base) ==> Some(base@) == origin_base_ref(os[i])
            &&& r matches Err(e) ==> e.kind == ErrorKind::Configuration && e.message@
                == "Could not detect base ref from system. Make sure the system is properly deployed with OSTree."@
        }),
{
    let ghost os = crate::name_set::views(origins@);
    let mut i: usize = 0;
    while i < origins.len()
        invariant
            i <= origins.len(),
            os == crate::name_set::views(origins@),
            first_origin(os, i as int) == i,
        decreases origins.len() - i,
    {
        assert(os[i as int] == origins@[i as int]@);
        match base_ref_of_origin(origins[i].as_str()) {
            Some(base) => {
                proof {
                    assert(os.len() == origins.len());
                    assert(first_origin(os, i as int + 1) == i);
                    lemma_first_origin_stays(os, i as int + 1, os.len() as int);
                }
                return Ok(base);
            },
            None => {},
        }
        i += 1;
    }
    Err(
        Error::new(
            ErrorKind::Configuration,
            "Could not detect base ref from system. Make sure the system is properly deployed with OSTree.",
        ),
    )
}

/// The short form of a commit's checksum.
pub fn commit_prefix(commit: &str) -> (r: String)
    ensures
        r@ == short_commit(commit@),
{
    if commit.unicode_len() >= 8 {
        commit.substring_char(0, 8).to_owned()
    } else {
        commit.to_owned()
    }
}

/// The place of a deployment in a status listing, found by the name of
/// its operating system and the short form of its commit.
pub fn get_deployment_index(status: &str, osname: &str, commit: &str) -> (r: u32)
    ensures
        r == deployment_index_of(status@, osname@, commit@),
{
    let lines = lines_of(status);
    let short = commit_prefix(commit);
    let ghost ls = text_lines(status@);
    let mut i: usize = 0;
    while i < lines.len()
        invariant
            i <= lines.len(),
            ls == text_lines(status@),
            crate::name_set::views(lines@) == ls,
            short@ == short_commit(commit@),
            first_naming(ls, osname@, commit@, i as int) == i,
        decreases lines.len() - i,
    {
        assert(ls[i as int] == lines@[i as int]@);
        if contains_text(lines[i].as_str(), osname) && contains_text(
            lines[i].as_str(),
            short.as_str(),
        ) {
            proof {
                assert(ls.len() == lines.len());
                assert(first_naming(ls, osname@, commit@, i as int + 1) == i);
                lemma_first_naming_stays(ls, osname@, commit@, i as int + 1, ls.len() as int);
            }
            return index_of_line(i);
        }
        i += 1;
    }
    0
}

} // verus!
