//! The manifest of a composition.
//!
//! A manifest names the reference to commit to, the packages to install,
//! the services to enable, the scripts to run after installation, the
//! package repositories, and further manifest files to merge into it.

use vstd::prelude::*;
use crate::name_set::{option_views, views};

verus! {

/// A manifest, as read from one file or merged from several.
#[derive(Debug)]
pub struct ConfigYaml {
    /// Further manifest files to merge into this one.
    pub includes: Option<Vec<String>>,
    /// The reference that the commit goes to.
    pub reference: String,
    /// The packages to install.
    pub packages: Vec<String>,
    /// The services to enable.
    pub services: Option<Vec<String>>,
    /// The scripts to run after installation.
    pub scripts: Option<Vec<String>>,
    /// The package repositories.
    pub repos: Option<Vec<String>>,
}

/// What a `ConfigYaml` holds, as plain values.
pub ghost struct ConfigView {
    pub includes: Option<Seq<Seq<char>>>,
    pub reference: Seq<char>,
    pub packages: Seq<Seq<char>>,
    pub services: Option<Seq<Seq<char>>>,
    pub scripts: Option<Seq<Seq<char>>>,
    pub repos: Option<Seq<Seq<char>>>,
}

impl View for ConfigYaml {
    type V = ConfigView;

    open spec fn view(&self) -> ConfigView {
        ConfigView {
            includes: option_views(self.includes),
            reference: self.reference@,
            packages: views(self.packages@),
            services: option_views(self.services),
            scripts: option_views(self.scripts),
            repos: option_views(self.repos),
        }
    }
}

/// Two optional lists as one: both concatenated, or the one that is there.
pub open spec fn merged_list(a: Option<Seq<Seq<char>>>, b: Option<Seq<Seq<char>>>) -> Option<
    Seq<Seq<char>>,
> {
    match (a, b) {
        (Some(x), Some(y)) => Some(x + y),
        (None, Some(y)) => Some(y),
        (_, None) => a,
    }
}

/// A manifest with another merged into it: the reference is that of the
/// other, and every list is followed by the list of the other.
pub open spec fn merged(a: ConfigView, b: ConfigView) -> ConfigView {
    ConfigView {
        includes: merged_list(a.includes, b.includes),
        reference: b.reference,
        packages: a.packages + b.packages,
        services: merged_list(a.services, b.services),
        scripts: merged_list(a.scripts, b.scripts),
        repos: merged_list(a.repos, b.repos),
    }
}

/// A manifest with the first `n` of `others` merged into it, one after the other.
pub open spec fn merged_upto(a: ConfigView, others: Seq<ConfigYaml>, n: int) -> ConfigView
    decreases n,
{
    if n <= 0 {
        a
    } else {
        merged(merged_upto(a, others, n - 1), others[n - 1]@)
    }
}

fn merge_lists(a: &mut Option<Vec<String>>, b: Option<Vec<String>>)
    ensures
        option_views(*final(a)) == merged_list(option_views(*old(a)), option_views(b)),
{
    match b {
        None => {},
        Some(mut y) => {
            let ghost yv = views(y@);
            match a {
                Some(x) => {
                    let ghost xv = views(x@);
                    x.append(&mut y);
                    proof {
                        assert(views(x@) =~= xv + yv);
                    }
                },
                None => {
                    *a = Some(y);
                },
            }
        },
    }
}

impl ConfigYaml {
    /// Merges `other` into this manifest.
    pub fn merge(&mut self, other: ConfigYaml)
        ensures
            final(self)@ == merged(old(self)@, other@),
    {
        let ghost before = self@;
        let ghost ov = other@;
        let ConfigYaml { includes, reference, packages, services, scripts, repos } = other;
        let mut packages = packages;
        self.reference = reference;
        self.packages.append(&mut packages);
        proof {
            assert(views(self.packages@) =~= before.packages + ov.packages);
        }
        merge_lists(&mut self.services, services);
        merge_lists(&mut self.scripts, scripts);
        merge_lists(&mut self.repos, repos);
        merge_lists(&mut self.includes, includes);
    }
}

/// The manifest of a file with the manifests of the files it names
/// merged into it, in the order in which it names them. Each of
/// `included` is the manifest of one named file, itself already merged
/// with what that file names.
pub fn yaml_parse(config: ConfigYaml, included: Vec<ConfigYaml>) -> (r: ConfigYaml)
    ensures
        r@ == merged_upto(config@, included@, included@.len() as int),
{
    let mut r = config;
    let mut rest = included;
    let ghost all = rest@;
    let ghost start = r@;
    let mut done: usize = 0;
    let total = rest.len();
    assert(all.len() == total);
    while rest.len() > 0
        invariant
            all.len() <= usize::MAX,
            done + rest.len() == all.len(),
            rest@ == all.skip(done as int),
            r@ == merged_upto(start, all, done as int),
        decreases rest.len(),
    {
        let next = rest.remove(0);
        proof {
            assert(next == all[done as int]);
            assert(rest@ =~= all.skip(done + 1));
        }
        r.merge(next);
        done += 1;
    }
    r
}

} // verus!
