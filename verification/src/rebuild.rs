//! The rebuild of a layered commit.
//!
//! A layered commit is never made by changing an earlier one: the base
//! is checked out afresh, the layered packages are installed on top, and
//! the result is committed with the state in its metadata. This module
//! plans a rebuild from a state and reports its outcome.

use vstd::prelude::*;
use vstd::string::*;
use crate::commit::{layered_modifier, CheckoutOptions, CommitModifier, CommitRequest};
use crate::layered::{
    layered_ref, layered_ref_of, metadata_of, state_metadata, LayeredState, LayeredStateView,
    LayeringResult,
};
use crate::name_map::NameMap;
use crate::name_set::{views, NameSet};
use crate::pacman::PacmanPackageMeta;
use crate::text::{decimal_digits, decimal_text};

verus! {

/// What a rebuild does, in the order of its fields.
#[derive(Debug)]
pub struct RebuildPlan {
    /// The reference of the base, whose package database is read and
    /// whose commit is checked out into a fresh directory.
    pub base_ref: String,
    /// How the base is checked out: as the user, over what is there.
    pub checkout: CheckoutOptions,
    /// The packages to install on top, in ascending order. Nothing is
    /// installed if there are none.
    pub packages: Vec<String>,
    /// Whether, after the installation, everything under `etc` moves to `usr/etc`.
    pub relocate_etc: bool,
    /// How the directory is taken into the commit: as it is.
    pub modifier: CommitModifier,
    /// The commit to write.
    pub commit: CommitRequest,
    /// The reference to move to the new commit.
    pub target_ref: String,
    /// Whether the new commit is deployed.
    pub deploy: bool,
}

/// The subject of a layered commit.
pub open spec fn layered_subject(count: nat) -> Seq<char> {
    "pacman-ostree: "@ + decimal_digits(count) + " layered package(s)"@
}

/// The names among the first `n` that the base does not hold.
pub open spec fn absent_upto(names: Seq<Seq<char>>, base: Set<Seq<char>>, n: int) -> Seq<Seq<char>>
    decreases n,
{
    if n <= 0 {
        Seq::<Seq<char>>::empty()
    } else {
        let before = absent_upto(names, base, n - 1);
        if base.contains(names[n - 1]) {
            before
        } else {
            before.push(names[n - 1])
        }
    }
}

/// The layered packages that the base does not hold, in ascending order.
pub open spec fn newly_installed_of(state: LayeredStateView, base: Set<Seq<char>>) -> Seq<Seq<char>> {
    absent_upto(state.layered, base, state.layered.len() as int)
}

/// Plans the rebuild of the commit of `state` for the operating system
/// `osname`. The commit has no parent; its metadata is that of the
/// state and its subject tells the number of layered packages. It goes
/// to the reference `<osname>/layered`.
pub fn rebuild_with_layers(state: &LayeredState, osname: &str, deploy: bool, time: u64) -> (plan:
    RebuildPlan)
    requires
        state.wf(),
    ensures
        plan.base_ref@ == state@.base_ref,
        plan.checkout.user_mode && plan.checkout.union_files,
        !plan.modifier.skip_xattrs && !plan.modifier.canonical_permissions,
        views(plan.packages@) == state@.layered,
        plan.relocate_etc == (state@.layered.len() > 0),
        plan.target_ref@ == layered_ref_of(osname@),
        plan.deploy == deploy,
        plan.commit.parent is None,
        plan.commit.body is None,
        plan.commit.time == time,
        plan.commit.subject is Some && plan.commit.subject->0@ == layered_subject(
            state@.layered.len(),
        ),
        plan.commit.metadata is Some && plan.commit.metadata->0.wf()
            && plan.commit.metadata->0.texts() == metadata_of(state@),
{
    let packages = state.layered_packages.to_vec();
    let mut subject = "pacman-ostree: ".to_owned();
    subject.append(decimal_text(packages.len() as u64).as_str());
    subject.append(" layered package(s)");
    RebuildPlan {
        base_ref: state.base_ref.clone(),
        checkout: CheckoutOptions { user_mode: true, union_files: true },
        relocate_etc: packages.len() > 0,
        modifier: layered_modifier(),
        packages,
        commit: CommitRequest {
            parent: None,
            subject: Some(subject),
            body: None,
            metadata: Some(state_metadata(state)),
            time,
        },
        target_ref: layered_ref(osname),
        deploy,
    }
}

/// The layered packages that the database of the base does not hold.
pub fn newly_installed<V>(layered: &NameSet, base: &NameMap<V>) -> (r: Vec<String>)
    requires
        layered.wf(),
        base.wf(),
    ensures
        views(r@) == absent_upto(layered.seq(), base@.dom(), layered.seq().len() as int),
{
    let mut r: Vec<String> = Vec::new();
    let n = layered.len();
    let mut i: usize = 0;
    while i < n
        invariant
            i <= n,
            n == layered.seq().len(),
            layered.wf(),
            base.wf(),
            views(r@) == absent_upto(layered.seq(), base@.dom(), i as int),
        decreases n - i,
    {
        match layered.get(i) {
            Some(name) => {
                if !base.contains_key(name.as_str()) {
                    let name = name.clone();
                    proof {
                        assert(views(r@.push(name)) =~= views(r@).push(name@));
                    }
                    r.push(name);
                }
            },
            None => {},
        }
        i += 1;
    }
    r
}

/// The size that the layered packages add, as the database of the base
/// records it. Only packages that the base does not hold count, and of
/// those the database records no size: the change recorded is 0.
pub fn calculate_size_delta_for_layered(
    base: &NameMap<PacmanPackageMeta>,
    layered: &NameSet,
) -> (delta: i64)
    ensures
        delta == 0,
{
    0
}

/// The outcome of a rebuild of `state` on a base with the database
/// `base`: the new commit, the slot it was deployed to if it was, the
/// layered packages that the base does not hold, and their number.
pub fn layering_result(
    state: &LayeredState,
    base: &NameMap<PacmanPackageMeta>,
    new_commit: String,
    deployment_index: Option<u32>,
) -> (r: LayeringResult)
    requires
        state.wf(),
        base.wf(),
    ensures
        r.new_commit@ == new_commit@,
        r.deployment_index == deployment_index,
        views(r.newly_installed@) == newly_installed_of(state@, base@.dom()),
        r.total_layered == state@.layered.len(),
        r.size_delta == 0,
{
    LayeringResult {
        new_commit,
        deployment_index,
        newly_installed: newly_installed(&state.layered_packages, base),
        total_layered: state.layered_packages.len(),
        size_delta: calculate_size_delta_for_layered(base, &state.layered_packages),
    }
}

/// The packages to remove to get back to the base: all that are layered.
pub fn reset_request(state: &LayeredState) -> (r: Vec<String>)
    ensures
        views(r@) == state@.layered,
{
    state.layered_packages.to_vec()
}

/// Removing all layered packages leaves none: a reset leads back to the base.
pub proof fn law_reset_leaves_nothing(layered: Seq<Seq<char>>)
    requires
        crate::order::strictly_sorted(layered),
    ensures
        crate::layered::removal(layered.to_set(), layered, layered.len() as int) == Ok::<
            Set<Seq<char>>,
            int,
        >(Set::<Seq<char>>::empty()),
{
    crate::order::lemma_sorted_no_duplicates(layered);
    crate::layered::lemma_added_then_removed(Set::<Seq<char>>::empty(), layered);
    assert(Set::<Seq<char>>::empty().union(layered.to_set()) =~= layered.to_set());
}

} // verus!
