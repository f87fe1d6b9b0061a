//! The layered state: a base reference and the set of packages layered
//! on top of it.
//!
//! Every change of the set gives a new commit that is rebuilt from the
//! base, and the commit's metadata holds the state, so that any commit
//! describes itself. This module holds the state, the rules by which an
//! installation or a removal changes it, and its encoding in metadata.

use vstd::prelude::*;
use vstd::string::*;
use crate::error::{Error, ErrorKind};
use crate::name_map::NameMap;
use crate::name_set::{option_view, views, NameSet};
use crate::order::{lemma_sorted_unique, strictly_sorted};
use crate::text::{join, joined, split, split_on};

verus! {

/// The metadata key of the format version.
pub const KEY_VERSION: &'static str = "version";

/// The metadata key of the base reference.
pub const KEY_BASE_REF: &'static str = "pacman-ostree.base-ref";

/// The metadata key of the layered packages.
pub const KEY_LAYERED: &'static str = "pacman-ostree.layered";

/// The format version written into every commit.
pub const STATE_VERSION: &'static str = "1.0";

/// The base reference of a commit whose metadata names none.
pub const DEFAULT_BASE_REF: &'static str = "archlinux/x86_64/base";

/// The base reference, the packages layered on it, and the commit that
/// the state was read from.
#[derive(Debug)]
pub struct LayeredState {
    /// The reference of the base commit.
    pub base_ref: String,
    /// The packages installed on top of the base.
    pub layered_packages: NameSet,
    /// The commit that holds this state, if it was read from one.
    pub deployed_commit: Option<String>,
}

/// What a `LayeredState` holds, as plain values; the packages are listed
/// in ascending order.
pub ghost struct LayeredStateView {
    pub base_ref: Seq<char>,
    pub layered: Seq<Seq<char>>,
    pub deployed_commit: Option<Seq<char>>,
}

impl View for LayeredState {
    type V = LayeredStateView;

    open spec fn view(&self) -> LayeredStateView {
        LayeredStateView {
            base_ref: self.base_ref@,
            layered: self.layered_packages.seq(),
            deployed_commit: option_view(self.deployed_commit),
        }
    }
}

impl LayeredStateView {
    /// The packages are listed in strictly ascending order.
    pub open spec fn wf(self) -> bool {
        strictly_sorted(self.layered)
    }
}

impl LayeredState {
    /// The set of packages is well formed.
    pub open spec fn wf(&self) -> bool {
        self.layered_packages.wf_names()
    }

    /// The state that a repository gives before any commit holds one: no
    /// base, no packages, no commit. Whether or not the reference of the
    /// state resolved, nothing is read from it.
    pub fn load_from_repo(resolved: Option<String>) -> (s: LayeredState)
        ensures
            s.wf(),
            s@.base_ref.len() == 0,
            s@.layered.len() == 0,
            s@.deployed_commit is None,
    {
        LayeredState::default()
    }
}

impl Default for LayeredState {
    fn default() -> (s: LayeredState)
        ensures
            s.wf(),
            s@.base_ref.len() == 0,
            s@.layered.len() == 0,
            s@.deployed_commit is None,
    {
        LayeredState {
            base_ref: String::new(),
            layered_packages: NameSet::new(),
            deployed_commit: None,
        }
    }
}

impl Clone for LayeredState {
    fn clone(&self) -> (s: LayeredState)
        ensures
            s@ == self@,
            self.wf() ==> s.wf(),
    {
        LayeredState {
            base_ref: self.base_ref.clone(),
            layered_packages: self.layered_packages.clone(),
            deployed_commit: match &self.deployed_commit {
                Some(c) => Some(c.clone()),
                None => None,
            },
        }
    }
}

/// The requests among the first `n` that add a package: those that name
/// no package that is `known` (layered, or held by the base) and were not
/// requested before.
pub open spec fn new_requests(known: Set<Seq<char>>, requests: Seq<Seq<char>>, n: int) -> Seq<
    Seq<char>,
>
    decreases n,
{
    if n <= 0 {
        Seq::<Seq<char>>::empty()
    } else {
        let before = new_requests(known, requests, n - 1);
        let name = requests[n - 1];
        if known.contains(name) || requests.take(n - 1).contains(name) {
            before
        } else {
            before.push(name)
        }
    }
}

/// The requests among the first `n` that name a package of the base:
/// the base is never layered on itself, so each is ignored with a warning.
pub open spec fn base_requests(base: Set<Seq<char>>, requests: Seq<Seq<char>>, n: int) -> Seq<
    Seq<char>,
>
    decreases n,
{
    if n <= 0 {
        Seq::<Seq<char>>::empty()
    } else {
        let before = base_requests(base, requests, n - 1);
        if base.contains(requests[n - 1]) {
            before.push(requests[n - 1])
        } else {
            before
        }
    }
}

/// The requests among the first `n` that name no package of the base and
/// add nothing, because the package is layered already or was requested
/// before: each is ignored with a warning.
pub open spec fn idle_requests(
    layered: Set<Seq<char>>,
    base: Set<Seq<char>>,
    requests: Seq<Seq<char>>,
    n: int,
) -> Seq<Seq<char>>
    decreases n,
{
    if n <= 0 {
        Seq::<Seq<char>>::empty()
    } else {
        let before = idle_requests(layered, base, requests, n - 1);
        let name = requests[n - 1];
        if !base.contains(name) && (layered.contains(name) || requests.take(n - 1).contains(
            name,
        )) {
            before.push(name)
        } else {
            before
        }
    }
}

/// The names among the first `n` that the base holds.
pub open spec fn present_upto(names: Seq<Seq<char>>, base: Set<Seq<char>>, n: int) -> Seq<
    Seq<char>,
>
    decreases n,
{
    if n <= 0 {
        Seq::<Seq<char>>::empty()
    } else {
        let before = present_upto(names, base, n - 1);
        if base.contains(names[n - 1]) {
            before.push(names[n - 1])
        } else {
            before
        }
    }
}

/// What removing the first `n` requested packages, one after the other,
/// leaves of `layered`; or the place of the first request that names a
/// package that is not layered (any more).
pub open spec fn removal(layered: Set<Seq<char>>, requests: Seq<Seq<char>>, n: int) -> Result<
    Set<Seq<char>>,
    int,
>
    decreases n,
{
    if n <= 0 {
        Ok(layered)
    } else {
        match removal(layered, requests, n - 1) {
            Ok(left) => if left.contains(requests[n - 1]) {
                Ok(left.remove(requests[n - 1]))
            } else {
                Err(n - 1)
            },
            Err(i) => Err(i),
        }
    }
}

/// The message for a package that cannot be removed.
pub open spec fn not_layered_message(name: Seq<char>) -> Seq<char> {
    "Cannot remove '"@ + name + "': not a layered package (base packages cannot be removed)"@
}

/// The message for a base reference that does not resolve.
pub open spec fn missing_base_message(base_ref: Seq<char>) -> Seq<char> {
    "Base ref '"@ + base_ref + "' does not exist in repository"@
}

/// The name of the operating system of a reference: what stands before its first `/`.
pub open spec fn os_name_of(base_ref: Seq<char>) -> Seq<char> {
    split(base_ref, '/')[0]
}

/// The reference that the layered commits of an operating system go to.
pub open spec fn layered_ref_of(osname: Seq<char>) -> Seq<char> {
    osname + "/layered"@
}

/// The layered packages as the text stored in metadata: the names in
/// ascending order with commas between them.
pub open spec fn layered_text(layered: Seq<Seq<char>>) -> Seq<char> {
    joined(layered, ","@)
}

/// The metadata that encodes a state: the format version, the base
/// reference and, unless there is none, the layered packages.
pub open spec fn metadata_of(s: LayeredStateView) -> Map<Seq<char>, Seq<char>> {
    let m = Map::<Seq<char>, Seq<char>>::empty().insert(KEY_VERSION@, STATE_VERSION@).insert(
        KEY_BASE_REF@,
        s.base_ref,
    );
    if layered_text(s.layered).len() == 0 {
        m
    } else {
        m.insert(KEY_LAYERED@, layered_text(s.layered))
    }
}

/// The packages that the text of metadata names.
pub open spec fn layered_of_text(text: Seq<char>) -> Set<Seq<char>> {
    if text.len() == 0 {
        Set::<Seq<char>>::empty()
    } else {
        split(text, ',').to_set()
    }
}

/// The base reference that metadata names, or the default.
pub open spec fn base_ref_of(meta: Map<Seq<char>, Seq<char>>) -> Seq<char> {
    if meta.dom().contains(KEY_BASE_REF@) {
        meta[KEY_BASE_REF@]
    } else {
        DEFAULT_BASE_REF@
    }
}

/// The packages that metadata names.
pub open spec fn layered_of(meta: Map<Seq<char>, Seq<char>>) -> Set<Seq<char>> {
    if meta.dom().contains(KEY_LAYERED@) {
        layered_of_text(meta[KEY_LAYERED@])
    } else {
        Set::<Seq<char>>::empty()
    }
}

/// What an installation changes: the state to rebuild from, the packages
/// it adds, and what was ignored or dropped with a warning.
#[derive(Debug)]
pub struct InstallPlan {
    /// The state to rebuild from. It layers no package of the base.
    pub state: LayeredState,
    /// The requests that add a package, in the order of the requests.
    pub new_packages: Vec<String>,
    /// The requests that name a package that is layered already.
    pub already_layered: Vec<String>,
    /// The requests that name a package of the base.
    pub in_base: Vec<String>,
    /// The packages that were layered and are dropped because the base
    /// holds them now, in ascending order.
    pub now_in_base: Vec<String>,
}

/// How a fresh system starts layering: the first state and the name of
/// the operating system.
#[derive(Debug)]
pub struct FreshPlan {
    /// The state to rebuild from. It layers no package of the base.
    pub state: LayeredState,
    pub osname: String,
    /// The requests that name a package of the base.
    pub in_base: Vec<String>,
}

/// The outcome of a rebuild.
#[derive(Debug)]
pub struct LayeringResult {
    /// The checksum of the new commit.
    pub new_commit: String,
    /// The slot of the deployment, if the commit was deployed.
    pub deployment_index: Option<u32>,
    /// The layered packages that the base does not hold.
    pub newly_installed: Vec<String>,
    /// The number of layered packages.
    pub total_layered: usize,
    /// The change of size in bytes.
    pub size_delta: i64,
}

/// The layered packages without those that the base holds, and the ones
/// left out, both in ascending order.
pub fn without_base<V>(layered: &NameSet, base: &NameMap<V>) -> (r: (NameSet, Vec<String>))
    requires
        layered.wf(),
        base.wf(),
    ensures
        r.0.wf_names(),
        r.0@ == layered@.difference(base@.dom()),
        views(r.1@) == present_upto(layered.seq(), base@.dom(), layered.seq().len() as int),
{
    let mut kept = NameSet::new();
    let mut dropped: Vec<String> = Vec::new();
    let ghost names = layered.seq();
    let ghost held = base@.dom();
    let n = layered.len();
    let mut i: usize = 0;
    proof {
        assert(names.take(0).to_set().difference(held) =~= Set::<Seq<char>>::empty());
    }
    while i < n
        invariant
            i <= n,
            n == names.len(),
            names == layered.seq(),
            held == base@.dom(),
            layered.wf(),
            base.wf(),
            kept.wf_names(),
            kept@ == names.take(i as int).to_set().difference(held),
            views(dropped@) == present_upto(names, held, i as int),
        decreases n - i,
    {
        match layered.get(i) {
            Some(name) => {
                proof {
                    assert(names.take(i + 1) =~= names.take(i as int).push(name@));
                    names.take(i as int).lemma_push_to_set_commute(name@);
                }
                if base.contains_key(name.as_str()) {
                    let name = name.clone();
                    proof {
                        assert(views(dropped@.push(name)) =~= views(dropped@).push(name@));
                        assert(names.take(i + 1).to_set().difference(held) =~= names.take(
                            i as int,
                        ).to_set().difference(held));
                    }
                    dropped.push(name);
                } else {
                    let ghost before = kept@;
                    kept.insert(name.clone());
                    proof {
                        assert(before.insert(name@) =~= names.take(i + 1).to_set().difference(
                            held,
                        ));
                    }
                }
            },
            None => {},
        }
        i += 1;
    }
    proof {
        assert(names.take(i as int) =~= names);
    }
    (kept, dropped)
}

/// Adds the requested packages to the layered set. The base is never
/// layered on itself: a request that names a package of the base is
/// ignored with a warning, and a package that was layered and is held by
/// the base now is dropped from the set. A package that is layered
/// already, or was requested before in the same list, is ignored with a
/// warning too. It is an error if no request adds a package.
pub fn install_packages<V>(
    state: &LayeredState,
    base: &NameMap<V>,
    packages: &Vec<String>,
) -> (r: Result<InstallPlan, Error>)
    requires
        state.wf(),
        base.wf(),
    ensures
        ({
            let old_set = state.layered_packages@;
            let held = base@.dom();
            let reqs = views(packages@);
            let n = reqs.len() as int;
            let fresh = new_requests(old_set.union(held), reqs, n);
            &&& r is Ok <==> fresh.len() > 0
            &&& packages@.len() == 0 ==> r is Err
            &&& r matches Ok(plan) ==> {
                &&& plan.state.wf()
                &&& plan.state@.base_ref == state@.base_ref
                &&& plan.state@.deployed_commit == state@.deployed_commit
                &&& plan.state.layered_packages@ == old_set.union(reqs.to_set()).difference(held)
                &&& forall|name: Seq<char>|
                    held.contains(name) ==> !plan.state.layered_packages@.contains(name)
                &&& views(plan.new_packages@) == fresh
                &&& views(plan.already_layered@) == idle_requests(old_set, held, reqs, n)
                &&& views(plan.in_base@) == base_requests(held, reqs, n)
                &&& views(plan.now_in_base@) == present_upto(
                    state@.layered,
                    held,
                    state@.layered.len() as int,
                )
            }
            &&& r matches Err(e) ==> e.kind == ErrorKind::Configuration && e.message@
                == "All requested packages are already layered or part of the base"@
        }),
{
    let (kept, now_in_base) = without_base(&state.layered_packages, base);
    let mut next = LayeredState {
        base_ref: state.base_ref.clone(),
        layered_packages: kept,
        deployed_commit: match &state.deployed_commit {
            Some(c) => Some(c.clone()),
            None => None,
        },
    };
    let mut new_packages: Vec<String> = Vec::new();
    let mut already_layered: Vec<String> = Vec::new();
    let mut in_base: Vec<String> = Vec::new();
    let ghost old_set = state.layered_packages@;
    let ghost held = base@.dom();
    let ghost reqs = views(packages@);
    let mut i: usize = 0;
    proof {
        assert(reqs.take(0).to_set().difference(held) =~= Set::<Seq<char>>::empty());
        assert(old_set.difference(held).union(Set::<Seq<char>>::empty()) =~= old_set.difference(
            held,
        ));
    }
    while i < packages.len()
        invariant
            i <= packages.len(),
            reqs == views(packages@),
            old_set == state.layered_packages@,
            held == base@.dom(),
            base.wf(),
            next.wf(),
            next@.base_ref == state@.base_ref,
            next@.deployed_commit == state@.deployed_commit,
            next.layered_packages@ == old_set.difference(held).union(
                reqs.take(i as int).to_set().difference(held),
            ),
            views(new_packages@) == new_requests(old_set.union(held), reqs, i as int),
            views(already_layered@) == idle_requests(old_set, held, reqs, i as int),
            views(in_base@) == base_requests(held, reqs, i as int),
        decreases packages.len() - i,
    {
        let name = packages[i].clone();
        let ghost before = next.layered_packages@;
        proof {
            assert(reqs[i as int] == name@);
            assert(reqs.take(i + 1) =~= reqs.take(i as int).push(name@));
            reqs.take(i as int).lemma_push_to_set_commute(name@);
        }
        if base.contains_key(name.as_str()) {
            proof {
                assert(views(in_base@.push(name)) =~= views(in_base@).push(name@));
                assert(reqs.take(i + 1).to_set().difference(held) =~= reqs.take(
                    i as int,
                ).to_set().difference(held));
            }
            in_base.push(name);
        } else {
            proof {
                assert(before.contains(name@) == (old_set.contains(name@) || reqs.take(
                    i as int,
                ).contains(name@)));
                assert(before.insert(name@) =~= old_set.difference(held).union(
                    reqs.take(i + 1).to_set().difference(held),
                ));
            }
            if next.layered_packages.contains(name.as_str()) {
                proof {
                    assert(views(already_layered@.push(name)) =~= views(already_layered@).push(
                        name@,
                    ));
                    assert(before.insert(name@) =~= before);
                }
                already_layered.push(name);
            } else {
                proof {
                    assert(views(new_packages@.push(name)) =~= views(new_packages@).push(name@));
                }
                new_packages.push(name.clone());
                next.layered_packages.insert(name);
            }
        }
        i += 1;
    }
    proof {
        assert(reqs.take(i as int) =~= reqs);
        assert(next.layered_packages@ =~= old_set.union(reqs.to_set()).difference(held));
    }
    if new_packages.len() == 0 {
        Err(
            Error::new(
                ErrorKind::Configuration,
                "All requested packages are already layered or part of the base",
            ),
        )
    } else {
        Ok(InstallPlan { state: next, new_packages, already_layered, in_base, now_in_base })
    }
}

/// Starts layering on a system without a booted deployment: the base
/// reference must resolve, and the state holds the requested packages
/// that the base does not hold. A request that names a package of the
/// base is ignored with a warning.
pub fn install_packages_fresh<V>(
    base_ref: &str,
    base_commit: Option<&str>,
    base: &NameMap<V>,
    packages: &Vec<String>,
) -> (r: Result<FreshPlan, Error>)
    requires
        base.wf(),
    ensures
        r is Ok <==> base_commit is Some,
        r matches Ok(plan) ==> {
            &&& plan.state.wf()
            &&& plan.state@.base_ref == base_ref@
            &&& plan.state@.deployed_commit is None
            &&& plan.state.layered_packages@ == views(packages@).to_set().difference(base@.dom())
            &&& forall|name: Seq<char>|
                base@.dom().contains(name) ==> !plan.state.layered_packages@.contains(name)
            &&& plan.osname@ == os_name_of(base_ref@)
            &&& views(plan.in_base@) == base_requests(
                base@.dom(),
                views(packages@),
                packages@.len() as int,
            )
        },
        r matches Err(e) ==> e.kind == ErrorKind::StoreUnavailable && e.message@
            == missing_base_message(base_ref@),
{
    if base_commit.is_none() {
        let mut message = "Base ref '".to_owned();
        message.append(base_ref);
        message.append("' does not exist in repository");
        return Err(Error { kind: ErrorKind::StoreUnavailable, message });
    }
    let mut layered = NameSet::new();
    let mut in_base: Vec<String> = Vec::new();
    let ghost held = base@.dom();
    let ghost reqs = views(packages@);
    let mut i: usize = 0;
    proof {
        assert(reqs.take(0).to_set().difference(held) =~= Set::<Seq<char>>::empty());
    }
    while i < packages.len()
        invariant
            i <= packages.len(),
            reqs == views(packages@),
            held == base@.dom(),
            base.wf(),
            layered.wf_names(),
            layered@ == reqs.take(i as int).to_set().difference(held),
            views(in_base@) == base_requests(held, reqs, i as int),
        decreases packages.len() - i,
    {
        let name = packages[i].clone();
        let ghost before = layered@;
        proof {
            assert(reqs[i as int] == name@);
            assert(reqs.take(i + 1) =~= reqs.take(i as int).push(name@));
            reqs.take(i as int).lemma_push_to_set_commute(name@);
        }
        if base.contains_key(name.as_str()) {
            proof {
                assert(views(in_base@.push(name)) =~= views(in_base@).push(name@));
                assert(reqs.take(i + 1).to_set().difference(held) =~= before);
            }
            in_base.push(name);
        } else {
            layered.insert(name);
            proof {
                assert(layered@ =~= reqs.take(i + 1).to_set().difference(held));
            }
        }
        i += 1;
    }
    proof {
        assert(reqs.take(i as int) =~= reqs);
    }
    let state = LayeredState {
        base_ref: base_ref.to_owned(),
        layered_packages: layered,
        deployed_commit: None,
    };
    Ok(FreshPlan { state, osname: os_name(base_ref), in_base })
}

/// Takes the requested packages out of the layered set, one after the
/// other. It is an error to request nothing, and an error to name a
/// package that is not layered: packages of the base cannot be removed.
pub fn remove_packages(state: &LayeredState, packages: &Vec<String>) -> (r: Result<
    LayeredState,
    Error,
>)
    requires
        state.wf(),
    ensures
        ({
            let reqs = views(packages@);
            let left = removal(state.layered_packages@, reqs, reqs.len() as int);
            &&& r is Ok <==> reqs.len() > 0 && left is Ok
            &&& r matches Ok(next) ==> {
                &&& next.wf()
                &&& next@.base_ref == state@.base_ref
                &&& next@.deployed_commit == state@.deployed_commit
                &&& next.layered_packages@ == left->Ok_0
            }
            &&& r matches Err(e) ==> if reqs.len() == 0 {
                e.kind == ErrorKind::Configuration && e.message@
                    == "No packages requested for removal"@
            } else {
                e.kind == ErrorKind::InvariantViolation && e.message@ == not_layered_message(
                    reqs[left->Err_0],
                )
            }
        }),
{
    if packages.len() == 0 {
        return Err(Error::new(ErrorKind::Configuration, "No packages requested for removal"));
    }
    let mut next = state.clone();
    let ghost old_set = state.layered_packages@;
    let ghost reqs = views(packages@);
    let mut i: usize = 0;
    while i < packages.len()
        invariant
            i <= packages.len(),
            packages.len() > 0,
            reqs == views(packages@),
            old_set == state.layered_packages@,
            next.wf(),
            next@.base_ref == state@.base_ref,
            next@.deployed_commit == state@.deployed_commit,
            removal(old_set, reqs, i as int) == Ok::<Set<Seq<char>>, int>(next.layered_packages@),
        decreases packages.len() - i,
    {
        let name = &packages[i];
        assert(reqs[i as int] == name@);
        if !next.layered_packages.contains(name.as_str()) {
            let mut message = "Cannot remove '".to_owned();
            message.append(name.as_str());
            message.append("': not a layered package (base packages cannot be removed)");
            proof {
                assert(removal(old_set, reqs, i + 1) == Err::<Set<Seq<char>>, int>(i as int));
                lemma_removal_fails(old_set, reqs, i + 1, reqs.len() as int);
            }
            return Err(Error { kind: ErrorKind::InvariantViolation, message });
        }
        next.layered_packages.remove(name.as_str());
        i += 1;
    }
    Ok(next)
}

/// A removal that has failed at some request has failed at the same
/// request when more requests are looked at.
pub proof fn lemma_removal_fails(layered: Set<Seq<char>>, requests: Seq<Seq<char>>, n: int, m: int)
    requires
        0 <= n <= m,
        removal(layered, requests, n) is Err,
    ensures
        removal(layered, requests, m) == removal(layered, requests, n),
    decreases m,
{
    if n < m {
        lemma_removal_fails(layered, requests, n, m - 1);
    }
}

/// The name of the operating system of a reference.
pub fn os_name(base_ref: &str) -> (r: String)
    ensures
        r@ == os_name_of(base_ref@),
{
    let mut pieces = split_on(base_ref, '/');
    assert(views(pieces@)[0] == pieces@[0]@);
    pieces.swap_remove(0)
}

/// The reference that the layered commits of an operating system go to.
pub fn layered_ref(osname: &str) -> (r: String)
    ensures
        r@ == layered_ref_of(osname@),
{
    let mut r = osname.to_owned();
    r.append("/layered");
    r
}

/// The metadata of the commit that holds `state`.
pub fn state_metadata(state: &LayeredState) -> (meta: NameMap<String>)
    requires
        state.wf(),
    ensures
        meta.wf(),
        meta.texts() == metadata_of(state@),
{
    let mut meta: NameMap<String> = NameMap::new();
    meta.insert(KEY_VERSION.to_owned(), STATE_VERSION.to_owned());
    meta.insert(KEY_BASE_REF.to_owned(), state.base_ref.clone());
    let names = state.layered_packages.to_vec();
    let text = join(&names, ",");
    if text.as_str().unicode_len() > 0 {
        meta.insert(KEY_LAYERED.to_owned(), text);
    }
    proof {
        assert(meta.texts() =~= metadata_of(state@));
    }
    meta
}

/// The state that the metadata of `commit` holds. A commit without a base
/// reference has the default one, and one without layered packages has
/// none.
pub fn load_state_from_commit(meta: &NameMap<String>, commit: &str) -> (s: LayeredState)
    requires
        meta.wf(),
    ensures
        s.wf(),
        s@.base_ref == base_ref_of(meta.texts()),
        s.layered_packages@ == layered_of(meta.texts()),
        s@.deployed_commit == Some(commit@),
{
    let base_ref = match meta.get(KEY_BASE_REF) {
        Some(v) => v.clone(),
        None => DEFAULT_BASE_REF.to_owned(),
    };
    let layered_packages = match meta.get(KEY_LAYERED) {
        Some(text) => {
            if text.as_str().unicode_len() == 0 {
                NameSet::new()
            } else {
                NameSet::from_vec(split_on(text.as_str(), ','))
            }
        },
        None => NameSet::new(),
    };
    LayeredState { base_ref, layered_packages, deployed_commit: Some(commit.to_owned()) }
}

/// A set of packages that its text in metadata encodes faithfully: no
/// name holds a comma, and the set is not that of the empty name alone.
pub open spec fn encodable(layered: Seq<Seq<char>>) -> bool {
    &&& forall|i: int| 0 <= i < layered.len() ==> crate::text::free_of(#[trigger] layered[i], ',')
    &&& !(layered.len() == 1 && layered[0].len() == 0)
}

/// The metadata of a state names its base reference and its packages:
/// what is read back from the metadata is what was written.
pub proof fn law_metadata_names_state(s: LayeredStateView)
    requires
        s.wf(),
        encodable(s.layered),
    ensures
        base_ref_of(metadata_of(s)) == s.base_ref,
        layered_of(metadata_of(s)) == s.layered.to_set(),
{
    reveal_strlit("version");
    reveal_strlit("pacman-ostree.base-ref");
    reveal_strlit("pacman-ostree.layered");
    reveal_strlit(",");
    let text = layered_text(s.layered);
    let n = s.layered.len() as int;
    assert(","@ =~= seq![',']);
    assert(KEY_VERSION@.len() != KEY_BASE_REF@.len());
    assert(KEY_LAYERED@.len() != KEY_BASE_REF@.len());
    assert(KEY_LAYERED@.len() != KEY_VERSION@.len());
    if n == 0 {
        assert(s.layered.to_set() =~= Set::<Seq<char>>::empty());
    } else {
        crate::text::lemma_joined_len(s.layered, ","@, n);
        crate::text::lemma_split_joined(s.layered, ',', n);
        assert(s.layered.take(n) =~= s.layered);
    }
}

/// Writing a state into the metadata of a commit and loading the state
/// of that commit gives the same state, with the commit as the one it
/// was read from. `loaded` is any state that meets what
/// `load_state_from_commit` ensures of its result.
pub proof fn law_state_round_trip(s: LayeredStateView, commit: Seq<char>, loaded: LayeredStateView)
    requires
        s.wf(),
        encodable(s.layered),
        loaded.wf(),
        loaded.base_ref == base_ref_of(metadata_of(s)),
        loaded.layered.to_set() == layered_of(metadata_of(s)),
        loaded.deployed_commit == Some(commit),
    ensures
        loaded == (LayeredStateView {
            base_ref: s.base_ref,
            layered: s.layered,
            deployed_commit: Some(commit),
        }),
{
    law_metadata_names_state(s);
    lemma_sorted_unique(loaded.layered, s.layered);
}

/// What is left of `layered` and the requests from place `n` on.
pub open spec fn with_later_requests(
    layered: Set<Seq<char>>,
    requests: Seq<Seq<char>>,
    n: int,
) -> Set<Seq<char>> {
    Set::new(
        |x: Seq<char>|
            layered.contains(x) || exists|k: int| n <= k < requests.len() && requests[k] == x,
    )
}

proof fn lemma_removal_of_added(layered: Set<Seq<char>>, requests: Seq<Seq<char>>, n: int)
    requires
        0 <= n <= requests.len(),
        requests.no_duplicates(),
        forall|i: int| 0 <= i < requests.len() ==> !layered.contains(#[trigger] requests[i]),
    ensures
        removal(with_later_requests(layered, requests, 0), requests, n) == Ok::<
            Set<Seq<char>>,
            int,
        >(with_later_requests(layered, requests, n)),
    decreases n,
{
    if n > 0 {
        lemma_removal_of_added(layered, requests, n - 1);
        let before = with_later_requests(layered, requests, n - 1);
        let after = with_later_requests(layered, requests, n);
        assert(before.contains(requests[n - 1]));
        assert(before.remove(requests[n - 1]) =~= after) by {
            assert forall|x: Seq<char>| before.remove(requests[n - 1]).contains(x) implies after.contains(
                x,
            ) by {
                if !layered.contains(x) {
                    let k = choose|k: int| n - 1 <= k < requests.len() && requests[k] == x;
                    assert(k != n - 1);
                }
            }
            assert forall|x: Seq<char>| after.contains(x) implies before.remove(
                requests[n - 1],
            ).contains(x) by {
                if !layered.contains(x) {
                    let k = choose|k: int| n <= k < requests.len() && requests[k] == x;
                    assert(requests[k] != requests[n - 1]);
                }
            }
        }
    }
}

/// Installing packages that are neither layered nor held by the base,
/// each named once, and then removing the same packages, gives back the
/// layered set from before (without what the base holds, which no
/// installation keeps): every request adds its package, and the removal
/// leaves what there was.
pub proof fn law_install_then_remove(
    layered: Set<Seq<char>>,
    base: Set<Seq<char>>,
    requests: Seq<Seq<char>>,
)
    requires
        requests.no_duplicates(),
        forall|i: int|
            0 <= i < requests.len() ==> !layered.contains(#[trigger] requests[i])
                && !base.contains(requests[i]),
    ensures
        new_requests(layered.union(base), requests, requests.len() as int) == requests,
        removal(
            layered.union(requests.to_set()).difference(base),
            requests,
            requests.len() as int,
        ) == Ok::<Set<Seq<char>>, int>(layered.difference(base)),
{
    lemma_added_then_removed(layered.union(base), requests);
    lemma_added_then_removed(layered.difference(base), requests);
    assert(layered.difference(base).union(requests.to_set()) =~= layered.union(
        requests.to_set(),
    ).difference(base)) by {
        assert forall|x: Seq<char>| requests.to_set().contains(x) implies !base.contains(x) by {
            let k = choose|k: int| 0 <= k < requests.len() && requests[k] == x;
            assert(!base.contains(requests[k]));
        }
    }
}

/// A removal only takes packages out: what it leaves was layered before.
/// So a set that layers no package of the base layers none after a
/// removal either, as it layers none after an installation.
pub proof fn law_removal_only_removes(
    layered: Set<Seq<char>>,
    base: Set<Seq<char>>,
    requests: Seq<Seq<char>>,
    n: int,
)
    requires
        removal(layered, requests, n) is Ok,
    ensures
        forall|name: Seq<char>|
            (#[trigger] removal(layered, requests, n)->Ok_0.contains(name)) ==> layered.contains(
                name,
            ),
        (forall|name: Seq<char>| base.contains(name) ==> !layered.contains(name)) ==> forall|
            name: Seq<char>,
        |
            base.contains(name) ==> !(#[trigger] removal(layered, requests, n)->Ok_0.contains(
                name,
            )),
    decreases n,
{
    if n > 0 {
        law_removal_only_removes(layered, base, requests, n - 1);
    }
}

/// Adding packages of which none is in a set, each named once, and then
/// removing them one after the other gives back the set.
pub proof fn lemma_added_then_removed(layered: Set<Seq<char>>, requests: Seq<Seq<char>>)
    requires
        requests.no_duplicates(),
        forall|i: int| 0 <= i < requests.len() ==> !layered.contains(#[trigger] requests[i]),
    ensures
        new_requests(layered, requests, requests.len() as int) == requests,
        removal(layered.union(requests.to_set()), requests, requests.len() as int) == Ok::<
            Set<Seq<char>>,
            int,
        >(layered),
{
    lemma_removal_of_added(layered, requests, requests.len() as int);
    assert(with_later_requests(layered, requests, 0) =~= layered.union(requests.to_set()));
    assert(with_later_requests(layered, requests, requests.len() as int) =~= layered);
    lemma_all_new(layered, requests, requests.len() as int);
    assert(requests.take(requests.len() as int) =~= requests);
}

proof fn lemma_all_new(layered: Set<Seq<char>>, requests: Seq<Seq<char>>, n: int)
    requires
        0 <= n <= requests.len(),
        requests.no_duplicates(),
        forall|i: int| 0 <= i < requests.len() ==> !layered.contains(#[trigger] requests[i]),
    ensures
        new_requests(layered, requests, n) == requests.take(n),
    decreases n,
{
    if n > 0 {
        lemma_all_new(layered, requests, n - 1);
        assert(!requests.take(n - 1).contains(requests[n - 1])) by {
            if requests.take(n - 1).contains(requests[n - 1]) {
                let earlier = requests.take(n - 1);
                let last = requests[n - 1];
                let k = choose|k: int| 0 <= k < earlier.len() && #[trigger] earlier[k] == last;
                assert(requests[k] == requests[n - 1]);
            }
        }
        assert(requests.take(n - 1).push(requests[n - 1]) =~= requests.take(n));
    } else {
        assert(requests.take(0) =~= Seq::<Seq<char>>::empty());
    }
}

} // verus!
