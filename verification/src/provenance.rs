//! The assignment of every object to its content group.
//!
//! A path belongs to the first component that claims it; if none does,
//! to the first package that provides it; and if none does, to the
//! unpackaged content. "First" is by the order of identifiers.
//! Identifiers and checksums are ordered as strings, by their bytes, and
//! the paths of an object by their components. From this rule
//! `create_meta` derives the two tables that drive the packing of layers:
//! the package group of every object that has a path owned by a package,
//! and for every component the paths it owns with their objects.

use vstd::prelude::*;
use vstd::string::*;
use crate::mapping::{
    groups_of, multimap_wf, sets_of, ContentGroup, MappingBuilder, MappingView,
};
use crate::name_map::NameMap;
use crate::name_set::{least_name, listing_by, path_listing, sorted_listing, NameSet};
use crate::order::{lemma_sorted_no_duplicates, NameOrder};

verus! {

/// The owner of a path: a component or a package (the unpackaged content counts as one).
pub ghost enum Owner {
    Component(Seq<char>),
    Package(Seq<char>),
}

/// The owner of a path, found by the priority rule: the least component
/// that claims it, else the least package that provides it, else the
/// unpackaged content.
pub open spec fn owner_of(v: MappingView, path: Seq<char>) -> Owner {
    if v.path_components.dom().contains(path) {
        Owner::Component(least_name(v.path_components[path]))
    } else if v.path_packages.dom().contains(path) {
        Owner::Package(least_name(v.path_packages[path]))
    } else {
        Owner::Package(v.unpackaged_id)
    }
}

/// The package group that the first `n` of the paths of an object give
/// it: that of the last path that a package owns, if there is one.
pub open spec fn packaged_upto(v: MappingView, paths: Seq<Seq<char>>, n: int) -> Option<Seq<char>>
    decreases n,
{
    if n <= 0 {
        None
    } else {
        match owner_of(v, paths[n - 1]) {
            Owner::Package(id) => Some(id),
            Owner::Component(_) => packaged_upto(v, paths, n - 1),
        }
    }
}

/// The paths of the object `checksum` in ascending order. Paths are
/// ordered by their components, so that `/a/b` comes before `/a-b`.
/// They are told apart as they are written: `/usr//bin` and `/usr/bin`
/// are two paths.
pub open spec fn paths_of(v: MappingView, checksum: Seq<char>) -> Seq<Seq<char>> {
    path_listing(v.checksum_paths[checksum])
}

/// The package group of the object `checksum`, if a package owns one of its paths.
pub open spec fn package_of(v: MappingView, checksum: Seq<char>) -> Option<Seq<char>> {
    packaged_upto(v, paths_of(v, checksum), paths_of(v, checksum).len() as int)
}

/// The package group of every object that has one.
pub open spec fn package_content(v: MappingView) -> Map<Seq<char>, Seq<char>> {
    Map::new(
        |c: Seq<char>| v.checksum_paths.dom().contains(c) && package_of(v, c) is Some,
        |c: Seq<char>| package_of(v, c)->0,
    )
}

/// The paths among the first `n` of the object `checksum` that the
/// component `id` owns, each with the checksum.
pub open spec fn claimed_upto(
    v: MappingView,
    id: Seq<char>,
    checksum: Seq<char>,
    paths: Seq<Seq<char>>,
    n: int,
) -> Seq<(Seq<char>, Seq<char>)>
    decreases n,
{
    if n <= 0 {
        Seq::<(Seq<char>, Seq<char>)>::empty()
    } else {
        let before = claimed_upto(v, id, checksum, paths, n - 1);
        if owner_of(v, paths[n - 1]) == Owner::Component(id) {
            before.push((paths[n - 1], checksum))
        } else {
            before
        }
    }
}

/// The paths of the object `checksum` that the component `id` owns.
pub open spec fn claimed_of(v: MappingView, id: Seq<char>, checksum: Seq<char>) -> Seq<
    (Seq<char>, Seq<char>),
> {
    claimed_upto(v, id, checksum, paths_of(v, checksum), paths_of(v, checksum).len() as int)
}

/// The paths that the component `id` owns among those of the first `n`
/// of `checksums`.
pub open spec fn component_upto(
    v: MappingView,
    id: Seq<char>,
    checksums: Seq<Seq<char>>,
    n: int,
) -> Seq<(Seq<char>, Seq<char>)>
    decreases n,
{
    if n <= 0 {
        Seq::<(Seq<char>, Seq<char>)>::empty()
    } else {
        component_upto(v, id, checksums, n - 1) + claimed_of(v, id, checksums[n - 1])
    }
}

/// All checksums in ascending order.
pub open spec fn checksums_of(v: MappingView) -> Seq<Seq<char>> {
    sorted_listing(v.checksum_paths.dom())
}

/// The paths that the component `id` owns, each with its object: by
/// ascending checksum, and by ascending path for one checksum.
pub open spec fn component_entries(v: MappingView, id: Seq<char>) -> Seq<(Seq<char>, Seq<char>)> {
    component_upto(v, id, checksums_of(v), checksums_of(v).len() as int)
}

/// For every component that owns a path, the paths it owns.
pub open spec fn component_content(v: MappingView) -> Map<Seq<char>, Seq<(Seq<char>, Seq<char>)>> {
    Map::new(
        |id: Seq<char>| component_entries(v, id).len() > 0,
        |id: Seq<char>| component_entries(v, id),
    )
}

/// The views of a list of pairs of strings.
pub open spec fn pair_views(s: Seq<(String, String)>) -> Seq<(Seq<char>, Seq<char>)> {
    Seq::new(s.len(), |i: int| (s[i].0@, s[i].1@))
}

/// The lists of a map of lists of pairs, by key.
pub open spec fn pair_lists(m: NameMap<Vec<(String, String)>>) -> Map<
    Seq<char>,
    Seq<(Seq<char>, Seq<char>)>,
> {
    Map::new(|k: Seq<char>| m@.dom().contains(k), |k: Seq<char>| pair_views(m@[k]@))
}

/// The lists with `pair` appended to the list of `key`.
pub open spec fn pair_pushed(
    m: Map<Seq<char>, Seq<(Seq<char>, Seq<char>)>>,
    key: Seq<char>,
    pair: (Seq<char>, Seq<char>),
) -> Map<Seq<char>, Seq<(Seq<char>, Seq<char>)>> {
    if m.dom().contains(key) {
        m.insert(key, m[key].push(pair))
    } else {
        m.insert(key, Seq::<(Seq<char>, Seq<char>)>::empty().push(pair))
    }
}

/// The package groups and the table from every object to its group.
#[derive(Debug)]
pub struct ObjectMeta {
    /// The package group of each object, by checksum.
    pub map: NameMap<String>,
    /// The package groups, by identifier.
    pub set: NameMap<ContentGroup>,
}

/// The owner of a path as the executable code holds it.
pub enum OwnerId {
    Component(String),
    Package(String),
}

impl View for OwnerId {
    type V = Owner;

    open spec fn view(&self) -> Owner {
        match self {
            OwnerId::Component(id) => Owner::Component(id@),
            OwnerId::Package(id) => Owner::Package(id@),
        }
    }
}

/// In a well-formed map of sets, the set of a key is one of the
/// well-formed, non-empty sets listed.
pub proof fn lemma_multimap_entry(m: NameMap<NameSet>, order: NameOrder, key: Seq<char>)
    requires
        multimap_wf(m, order),
        m@.dom().contains(key),
    ensures
        m@[key].wf(),
        m@[key].seq().len() > 0,
        sets_of(m)[key] == m@[key]@,
        m@[key].order() == order,
        listing_by(order, m@[key]@) == m@[key].seq(),
{
    m.lemma_view();
    let j = m.keys().index_of(key);
    assert(m.keys().contains(key));
    assert(0 <= j < m.keys().len() && m.keys()[j] == key);
    assert(m@[m.keys()[j]] == m.values()[j]);
    m@[key].lemma_listing();
}

/// Appends `pair` to the list of `key`.
pub fn push_pair(map: &mut NameMap<Vec<(String, String)>>, key: &str, pair: (String, String))
    requires
        old(map).wf(),
    ensures
        final(map).wf(),
        pair_lists(*final(map)) == pair_pushed(pair_lists(*old(map)), key@, (pair.0@, pair.1@)),
{
    let ghost before = *map;
    let ghost pv = (pair.0@, pair.1@);
    proof {
        before.lemma_view();
    }
    match map.find(key) {
        Some(i) => {
            let list = map.value_mut(i);
            let ghost old_list = list@;
            list.push(pair);
            proof {
                map.lemma_view();
                let new_list = map.values()[i as int];
                assert(pair_views(new_list@) =~= pair_views(old_list).push(pv));
                assert(pair_lists(*map) =~= pair_pushed(pair_lists(before), key@, pv)) by {
                    assert forall|k: Seq<char>| pair_lists(*map).dom().contains(k) implies #[trigger] pair_lists(
                        *map,
                    )[k] == pair_pushed(pair_lists(before), key@, pv)[k] by {
                        let j = map.keys().index_of(k);
                        assert(map.keys().contains(k));
                        assert(0 <= j < map.keys().len() && map.keys()[j] == k);
                        assert(map@[map.keys()[j]] == map.values()[j]);
                        assert(before@[before.keys()[j]] == before.values()[j]);
                    }
                }
            }
        },
        None => {
            let mut list: Vec<(String, String)> = Vec::new();
            list.push(pair);
            let ghost lv = list@;
            map.insert(key.to_owned(), list);
            proof {
                assert(pair_views(lv) =~= Seq::<(Seq<char>, Seq<char>)>::empty().push(pv));
                assert(pair_lists(*map) =~= pair_pushed(pair_lists(before), key@, pv));
            }
        },
    }
}

/// A copy of a map of groups.
pub fn clone_groups(groups: &NameMap<ContentGroup>) -> (r: NameMap<ContentGroup>)
    requires
        groups.wf(),
    ensures
        r.wf(),
        groups_of(r) == groups_of(*groups),
{
    let mut r: NameMap<ContentGroup> = NameMap::new();
    let n = groups.len();
    let mut i: usize = 0;
    proof {
        groups.lemma_view();
    }
    while i < n
        invariant
            i <= n,
            n == groups.keys().len(),
            groups.wf(),
            r.wf(),
            forall|k: Seq<char>|
                r@.dom().contains(k) <==> exists|j: int|
                    0 <= j < i && #[trigger] groups.keys()[j] == k,
            forall|k: Seq<char>| r@.dom().contains(k) ==> (#[trigger] r@[k])@ == groups@[k]@,
        decreases n - i,
    {
        proof {
            groups.lemma_view();
        }
        match groups.entry(i) {
            Some((key, g)) => {
                let ghost before = r@;
                assert(groups@[groups.keys()[i as int]] == groups.values()[i as int]);
                r.insert(key.clone(), g.clone());
                proof {
                    assert forall|k: Seq<char>| r@.dom().contains(k) implies exists|j: int|
                        0 <= j < i + 1 && #[trigger] groups.keys()[j] == k by {
                        if k == key@ {
                            assert(groups.keys()[i as int] == k);
                        } else {
                            assert(before.dom().contains(k));
                            let j = choose|j: int| 0 <= j < i && #[trigger] groups.keys()[j] == k;
                            assert(groups.keys()[j] == k);
                        }
                    }
                    assert forall|k: Seq<char>|
                        (exists|j: int| 0 <= j < i + 1 && #[trigger] groups.keys()[j] == k)
                        implies r@.dom().contains(k) by {
                        let j = choose|j: int| 0 <= j < i + 1 && #[trigger] groups.keys()[j] == k;
                        if j < i {
                            assert(before.dom().contains(k));
                        }
                    }
                }
            },
            None => {},
        }
        i += 1;
    }
    proof {
        groups.lemma_view();
        assert(r@.dom() =~= groups@.dom()) by {
            assert forall|k: Seq<char>| groups@.dom().contains(k) implies r@.dom().contains(k) by {
                let j = groups.keys().index_of(k);
                assert(groups.keys().contains(k));
                assert(0 <= j < n && groups.keys()[j] == k);
            }
            assert forall|k: Seq<char>| r@.dom().contains(k) implies groups@.dom().contains(k) by {
                let j = choose|j: int| 0 <= j < i && #[trigger] groups.keys()[j] == k;
                assert(groups.keys().to_set().contains(groups.keys()[j]));
            }
        }
        assert(groups_of(r) =~= groups_of(*groups));
    }
    r
}

/// The package group of every object among the first `n` of `checksums` that has one.
pub open spec fn package_content_upto(
    v: MappingView,
    checksums: Seq<Seq<char>>,
    n: int,
) -> Map<Seq<char>, Seq<char>> {
    Map::new(
        |c: Seq<char>|
            (exists|k: int| 0 <= k < n && #[trigger] checksums[k] == c) && package_of(v, c)
                is Some,
        |c: Seq<char>| package_of(v, c)->0,
    )
}

/// What a component owns among the paths of the first `n` of `checksums`
/// and the first `m` of the paths `paths` of `checksum`.
pub open spec fn component_partial(
    v: MappingView,
    id: Seq<char>,
    checksums: Seq<Seq<char>>,
    n: int,
    checksum: Seq<char>,
    paths: Seq<Seq<char>>,
    m: int,
) -> Seq<(Seq<char>, Seq<char>)> {
    component_upto(v, id, checksums, n) + claimed_upto(v, id, checksum, paths, m)
}

/// For every component that owns one of those paths, the paths it owns among them.
pub open spec fn component_content_upto(
    v: MappingView,
    checksums: Seq<Seq<char>>,
    n: int,
    checksum: Seq<char>,
    paths: Seq<Seq<char>>,
    m: int,
) -> Map<Seq<char>, Seq<(Seq<char>, Seq<char>)>> {
    Map::new(
        |id: Seq<char>| component_partial(v, id, checksums, n, checksum, paths, m).len() > 0,
        |id: Seq<char>| component_partial(v, id, checksums, n, checksum, paths, m),
    )
}

/// What `claimed_upto` lists: the paths among the first `n` whose owner is
/// the component, each with the checksum.
pub proof fn lemma_claimed(
    v: MappingView,
    id: Seq<char>,
    checksum: Seq<char>,
    paths: Seq<Seq<char>>,
    n: int,
    pair: (Seq<char>, Seq<char>),
)
    requires
        0 <= n <= paths.len(),
    ensures
        claimed_upto(v, id, checksum, paths, n).contains(pair) <==> pair.1 == checksum && exists|
            k: int,
        |
            0 <= k < n && #[trigger] paths[k] == pair.0 && owner_of(v, pair.0) == Owner::Component(
                id,
            ),
    decreases n,
{
    if n > 0 {
        lemma_claimed(v, id, checksum, paths, n - 1, pair);
        let before = claimed_upto(v, id, checksum, paths, n - 1);
        let now = claimed_upto(v, id, checksum, paths, n);
        if owner_of(v, paths[n - 1]) == Owner::Component(id) {
            assert(now == before.push((paths[n - 1], checksum)));
            if now.contains(pair) {
                let j = choose|j: int| 0 <= j < now.len() && now[j] == pair;
                if j < before.len() {
                    assert(before[j] == pair);
                    assert(before.contains(pair));
                    let k = choose|k: int|
                        0 <= k < n - 1 && #[trigger] paths[k] == pair.0 && owner_of(v, pair.0)
                            == Owner::Component(id);
                    assert(paths[k] == pair.0);
                } else {
                    assert(paths[n - 1] == pair.0);
                }
            }
            if pair.1 == checksum && exists|k: int|
                0 <= k < n && #[trigger] paths[k] == pair.0 && owner_of(v, pair.0)
                    == Owner::Component(id) {
                let k = choose|k: int|
                    0 <= k < n && #[trigger] paths[k] == pair.0 && owner_of(v, pair.0)
                        == Owner::Component(id);
                if k < n - 1 {
                    assert(before.contains(pair));
                    let j = choose|j: int| 0 <= j < before.len() && before[j] == pair;
                    assert(now[j] == pair);
                } else {
                    assert(now[before.len() as int] == pair);
                }
            }
        } else {
            assert(now == before);
            if pair.1 == checksum && exists|k: int|
                0 <= k < n && #[trigger] paths[k] == pair.0 && owner_of(v, pair.0)
                    == Owner::Component(id) {
                let k = choose|k: int|
                    0 <= k < n && #[trigger] paths[k] == pair.0 && owner_of(v, pair.0)
                        == Owner::Component(id);
                assert(k < n - 1);
                assert(paths[k] == pair.0);
            }
            if before.contains(pair) {
                let k = choose|k: int|
                    0 <= k < n - 1 && #[trigger] paths[k] == pair.0 && owner_of(v, pair.0)
                        == Owner::Component(id);
                assert(paths[k] == pair.0);
            }
        }
    } else {
        assert(!claimed_upto(v, id, checksum, paths, n).contains(pair));
    }
}

/// What `component_upto` lists: what the component owns of the paths of
/// each of the first `n` checksums.
pub proof fn lemma_component(
    v: MappingView,
    id: Seq<char>,
    checksums: Seq<Seq<char>>,
    n: int,
    pair: (Seq<char>, Seq<char>),
)
    requires
        0 <= n <= checksums.len(),
    ensures
        component_upto(v, id, checksums, n).contains(pair) <==> exists|j: int|
            0 <= j < n && claimed_of(v, id, #[trigger] checksums[j]).contains(pair),
    decreases n,
{
    if n > 0 {
        lemma_component(v, id, checksums, n - 1, pair);
        let before = component_upto(v, id, checksums, n - 1);
        let last = claimed_of(v, id, checksums[n - 1]);
        let now = before + last;
        if now.contains(pair) {
            let i = choose|i: int| 0 <= i < now.len() && now[i] == pair;
            if i < before.len() {
                assert(before[i] == pair);
                assert(before.contains(pair));
                let j = choose|j: int|
                    0 <= j < n - 1 && claimed_of(v, id, #[trigger] checksums[j]).contains(pair);
                assert(claimed_of(v, id, checksums[j]).contains(pair));
            } else {
                assert(last[i - before.len()] == pair);
                assert(last.contains(pair));
                assert(claimed_of(v, id, checksums[n - 1]).contains(pair));
            }
        }
        if exists|j: int|
            0 <= j < n && claimed_of(v, id, #[trigger] checksums[j]).contains(pair) {
            let j = choose|j: int|
                0 <= j < n && claimed_of(v, id, #[trigger] checksums[j]).contains(pair);
            if j < n - 1 {
                assert(before.contains(pair));
                let i = choose|i: int| 0 <= i < before.len() && before[i] == pair;
                assert(now[i] == pair);
            } else {
                let i = choose|i: int| 0 <= i < last.len() && last[i] == pair;
                assert(now[before.len() + i] == pair);
            }
        }
    } else {
        assert(!component_upto(v, id, checksums, n).contains(pair));
    }
}

/// An object has a package group exactly if a package owns one of its paths.
pub proof fn lemma_packaged(v: MappingView, paths: Seq<Seq<char>>, n: int)
    requires
        0 <= n <= paths.len(),
    ensures
        packaged_upto(v, paths, n) is Some <==> exists|k: int|
            0 <= k < n && owner_of(v, #[trigger] paths[k]) is Package,
        packaged_upto(v, paths, n) matches Some(id) ==> exists|k: int|
            0 <= k < n && owner_of(v, #[trigger] paths[k]) == Owner::Package(id),
    decreases n,
{
    if n > 0 {
        lemma_packaged(v, paths, n - 1);
        match owner_of(v, paths[n - 1]) {
            Owner::Package(id) => {
                assert(owner_of(v, paths[n - 1]) is Package);
            },
            Owner::Component(_) => {
                if exists|k: int| 0 <= k < n && owner_of(v, #[trigger] paths[k]) is Package {
                    let k = choose|k: int| 0 <= k < n && owner_of(v, #[trigger] paths[k]) is Package;
                    assert(k < n - 1);
                    assert(owner_of(v, paths[k]) is Package);
                }
                if packaged_upto(v, paths, n - 1) is Some {
                    let id = packaged_upto(v, paths, n - 1)->0;
                    let k = choose|k: int|
                        0 <= k < n - 1 && owner_of(v, #[trigger] paths[k]) == Owner::Package(id);
                    assert(owner_of(v, paths[k]) == Owner::Package(id));
                    assert(owner_of(v, paths[k]) is Package);
                }
            },
        }
    }
}

/// The priority rule: a path that a component claims is owned by the
/// least component that claims it, whatever packages provide it; a path
/// that no component claims is owned by the least package that provides
/// it; and a path that nothing claims or provides is unpackaged content.
pub proof fn law_priority(b: MappingBuilder, path: Seq<char>)
    requires
        b.wf(),
    ensures
        b@.path_components.dom().contains(path) ==> owner_of(b@, path) is Component
            && b@.path_components[path].contains(owner_of(b@, path)->Component_0) && forall|
            other: Seq<char>,
        |
            b@.path_components[path].contains(other) ==> crate::order::name_le(
                owner_of(b@, path)->Component_0,
                other,
            ),
        !b@.path_components.dom().contains(path) && b@.path_packages.dom().contains(path)
            ==> owner_of(b@, path) is Package && b@.path_packages[path].contains(
            owner_of(b@, path)->Package_0,
        ) && forall|other: Seq<char>|
            b@.path_packages[path].contains(other) ==> crate::order::name_le(
                owner_of(b@, path)->Package_0,
                other,
            ),
        !b@.path_components.dom().contains(path) && !b@.path_packages.dom().contains(path)
            ==> owner_of(b@, path) == Owner::Package(b@.unpackaged_id),
{
    if b@.path_components.dom().contains(path) {
        lemma_multimap_entry(b.path_components, NameOrder::Bytes, path);
        b.path_components@[path].lemma_listing();
        b.path_components@[path].lemma_least();
    } else if b@.path_packages.dom().contains(path) {
        lemma_multimap_entry(b.path_packages, NameOrder::Bytes, path);
        b.path_packages@[path].lemma_listing();
        b.path_packages@[path].lemma_least();
    }
}

/// Every path of every object has one owner, and the tables of
/// `create_meta` hold it there and nowhere else: a path that a
/// component owns is listed with its object under that component and
/// under no other, and an object with a path that a package owns has a
/// package group, which is the owner of one of its paths.
pub proof fn law_every_path_is_assigned(b: MappingBuilder, checksum: Seq<char>, path: Seq<char>)
    requires
        b.wf(),
        b@.checksum_paths.dom().contains(checksum),
        b@.checksum_paths[checksum].contains(path),
    ensures
        owner_of(b@, path) matches Owner::Component(id) ==> component_content(b@).dom().contains(
            id,
        ) && component_content(b@)[id].contains((path, checksum)),
        forall|id: Seq<char>|
            component_content(b@).dom().contains(id) && (#[trigger] component_content(
                b@,
            )[id]).contains((path, checksum)) ==> owner_of(b@, path) == Owner::Component(id),
        owner_of(b@, path) is Package ==> package_content(b@).dom().contains(checksum),
        package_content(b@).dom().contains(checksum) ==> exists|q: Seq<char>|
            b@.checksum_paths[checksum].contains(q) && #[trigger] owner_of(b@, q) == Owner::Package(
                package_content(b@)[checksum],
            ),
{
    let v = b@;
    let cs = b.checksum_paths.keys();
    b.checksum_paths.lemma_view();
    crate::name_set::lemma_listing_of(NameOrder::Bytes, cs);
    assert(v.checksum_paths.dom() =~= b.checksum_paths@.dom());
    assert(checksums_of(v) == cs);
    lemma_multimap_entry(b.checksum_paths, NameOrder::Components, checksum);
    let ps = paths_of(v, checksum);
    assert(ps.to_set().contains(path));
    let kp = choose|k: int| 0 <= k < ps.len() && ps[k] == path;
    assert(cs.to_set().contains(checksum));
    let kc = choose|k: int| 0 <= k < cs.len() && cs[k] == checksum;
    let pair = (path, checksum);
    match owner_of(v, path) {
        Owner::Component(id) => {
            lemma_claimed(v, id, checksum, ps, ps.len() as int, pair);
            assert(ps[kp] == pair.0);
            assert(claimed_of(v, id, cs[kc]).contains(pair));
            lemma_component(v, id, cs, cs.len() as int, pair);
            assert(component_entries(v, id).contains(pair));
        },
        Owner::Package(id) => {
            lemma_packaged(v, ps, ps.len() as int);
            assert(owner_of(v, ps[kp]) is Package);
        },
    }
    assert forall|id: Seq<char>|
        component_content(v).dom().contains(id) && (#[trigger] component_content(v)[id]).contains(
            pair,
        ) implies owner_of(v, path) == Owner::Component(id) by {
        lemma_component(v, id, cs, cs.len() as int, pair);
        let j = choose|j: int|
            0 <= j < cs.len() && claimed_of(v, id, #[trigger] cs[j]).contains(pair);
        lemma_multimap_entry(b.checksum_paths, NameOrder::Components, cs[j]);
        assert(b.checksum_paths@.dom().contains(cs[j]));
        lemma_claimed(
            v,
            id,
            cs[j],
            paths_of(v, cs[j]),
            paths_of(v, cs[j]).len() as int,
            pair,
        );
    }
    if package_content(v).dom().contains(checksum) {
        lemma_packaged(v, ps, ps.len() as int);
        let id = package_content(v)[checksum];
        let k = choose|k: int|
            0 <= k < ps.len() && owner_of(v, #[trigger] ps[k]) == Owner::Package(id);
        assert(ps.to_set().contains(ps[k]));
        assert(owner_of(v, ps[k]) == Owner::Package(id));
    }
}

/// Every group that the table of objects names is one of the package
/// groups: the group of a package that provides a path of the object, or
/// the group of unpackaged content.
pub proof fn law_table_names_groups(b: MappingBuilder, checksum: Seq<char>)
    requires
        b.wf(),
        package_content(b@).dom().contains(checksum),
    ensures
        b@.packagemeta.dom().contains(package_content(b@)[checksum]),
{
    let v = b@;
    assert(v.checksum_paths.dom() =~= b.checksum_paths@.dom());
    lemma_multimap_entry(b.checksum_paths, NameOrder::Components, checksum);
    let ps = paths_of(v, checksum);
    lemma_packaged(v, ps, ps.len() as int);
    let id = package_content(v)[checksum];
    let k = choose|k: int| 0 <= k < ps.len() && owner_of(v, #[trigger] ps[k]) == Owner::Package(id);
    law_priority(b, ps[k]);
}

impl MappingBuilder {
    /// Assigns every object to its content group. The first table gives
    /// each object that has a path owned by a package the group of the
    /// last such path, in the order of paths; with it go the package
    /// groups. The second gives each component that owns a path the
    /// paths it owns, each with its object, by ascending checksum and
    /// path.
    pub fn create_meta(&self) -> (r: (ObjectMeta, NameMap<Vec<(String, String)>>))
        requires
            self.wf(),
        ensures
            r.0.map.wf(),
            r.0.set.wf(),
            r.1.wf(),
            r.0.map.texts() == package_content(self@),
            groups_of(r.0.set) == self@.packagemeta,
            pair_lists(r.1) == component_content(self@),
            forall|c: Seq<char>|
                r.0.map.texts().dom().contains(c) ==> groups_of(r.0.set).dom().contains(
                    #[trigger] r.0.map.texts()[c],
                ),
    {
        let ghost v = self@;
        let ghost cs = self.checksum_paths.keys();
        let mut pmap: NameMap<String> = NameMap::new();
        let mut cmap: NameMap<Vec<(String, String)>> = NameMap::new();
        let n = self.checksum_paths.len();
        proof {
            self.checksum_paths.lemma_view();
            crate::name_set::lemma_listing_of(NameOrder::Bytes, cs);
            assert(v.checksum_paths.dom() =~= self.checksum_paths@.dom());
            assert(checksums_of(v) == cs);
            lemma_sorted_no_duplicates(cs);
            assert(pmap.texts() =~= package_content_upto(v, cs, 0));
            assert(pair_lists(cmap) =~= component_content_upto(
                v,
                cs,
                0,
                Seq::empty(),
                Seq::empty(),
                0,
            ));
        }
        let mut ci: usize = 0;
        while ci < n
            invariant
                ci <= n,
                n == cs.len(),
                self.wf(),
                v == self@,
                cs == self.checksum_paths.keys(),
                cs.no_duplicates(),
                pmap.wf(),
                cmap.wf(),
                pmap.texts() == package_content_upto(v, cs, ci as int),
                pair_lists(cmap) == component_content_upto(
                    v,
                    cs,
                    ci as int,
                    Seq::empty(),
                    Seq::empty(),
                    0,
                ),
            decreases n - ci,
        {
            proof {
                self.checksum_paths.lemma_view();
            }
            match self.checksum_paths.entry(ci) {
                Some((checksum, paths)) => {
                    let ghost c = checksum@;
                    let ghost ps = paths.seq();
                    let ghost base = package_content_upto(v, cs, ci as int);
                    proof {
                        assert(self.checksum_paths@[cs[ci as int]] == *paths);
                        lemma_multimap_entry(self.checksum_paths, NameOrder::Components, c);
                        assert(paths_of(v, c) == ps);
                        assert(!base.dom().contains(c)) by {
                            if base.dom().contains(c) {
                                let k = choose|k: int| 0 <= k < ci && #[trigger] cs[k] == c;
                                assert(cs[k] == cs[ci as int]);
                            }
                        }
                        assert(pair_lists(cmap) =~= component_content_upto(
                            v,
                            cs,
                            ci as int,
                            c,
                            ps,
                            0,
                        )) by {
                            assert forall|id: Seq<char>|
                                component_partial(v, id, cs, ci as int, c, ps, 0)
                                    =~= #[trigger] component_partial(
                                    v,
                                    id,
                                    cs,
                                    ci as int,
                                    Seq::empty(),
                                    Seq::empty(),
                                    0,
                                ) by {}
                        }
                    }
                    let m = paths.len();
                    let mut pi: usize = 0;
                    while pi < m
                        invariant
                            pi <= m,
                            m == ps.len(),
                            ps == paths.seq(),
                            paths.wf(),
                            c == checksum@,
                            self.wf(),
                            v == self@,
                            pmap.wf(),
                            cmap.wf(),
                            base == package_content_upto(v, cs, ci as int),
                            !base.dom().contains(c),
                            pmap.texts() == (match packaged_upto(v, ps, pi as int) {
                                Some(id) => base.insert(c, id),
                                None => base,
                            }),
                            pair_lists(cmap) == component_content_upto(
                                v,
                                cs,
                                ci as int,
                                c,
                                ps,
                                pi as int,
                            ),
                        decreases m - pi,
                    {
                        match paths.get(pi) {
                            Some(path) => {
                                let ghost p = path@;
                                assert(ps[pi as int] == p);
                                let ghost old_pairs = pair_lists(cmap);
                                let ghost old_texts = pmap.texts();
                                match self.owner(path.as_str()) {
                                    OwnerId::Component(id) => {
                                        push_pair(
                                            &mut cmap,
                                            id.as_str(),
                                            (path.clone(), checksum.clone()),
                                        );
                                        proof {
                                            let id0 = id@;
                                            let want = component_content_upto(
                                                v,
                                                cs,
                                                ci as int,
                                                c,
                                                ps,
                                                pi + 1,
                                            );
                                            assert forall|x: Seq<char>|
                                                pair_lists(cmap).dom().contains(x)
                                                    <==> want.dom().contains(x) by {
                                                let before = component_partial(
                                                    v,
                                                    x,
                                                    cs,
                                                    ci as int,
                                                    c,
                                                    ps,
                                                    pi as int,
                                                );
                                                let after = component_partial(
                                                    v,
                                                    x,
                                                    cs,
                                                    ci as int,
                                                    c,
                                                    ps,
                                                    pi + 1,
                                                );
                                                if x == id0 {
                                                    assert(after =~= before.push((p, c)));
                                                } else {
                                                    assert(after =~= before);
                                                }
                                            }
                                            assert forall|x: Seq<char>|
                                                pair_lists(cmap).dom().contains(
                                                    x,
                                                ) implies #[trigger] pair_lists(cmap)[x]
                                                == want[x] by {
                                                let before = component_partial(
                                                    v,
                                                    x,
                                                    cs,
                                                    ci as int,
                                                    c,
                                                    ps,
                                                    pi as int,
                                                );
                                                let after = component_partial(
                                                    v,
                                                    x,
                                                    cs,
                                                    ci as int,
                                                    c,
                                                    ps,
                                                    pi + 1,
                                                );
                                                if x == id0 {
                                                    assert(after =~= before.push((p, c)));
                                                    if !old_pairs.dom().contains(x) {
                                                        assert(before.len() == 0);
                                                        assert(before =~= Seq::empty());
                                                    }
                                                } else {
                                                    assert(after =~= before);
                                                }
                                            }
                                            assert(pair_lists(cmap) =~= want);
                                        }
                                    },
                                    OwnerId::Package(id) => {
                                        let ghost idv = id@;
                                        pmap.insert(checksum.clone(), id);
                                        proof {
                                            assert(pmap.texts() =~= old_texts.insert(c, idv));
                                            assert(old_texts.insert(c, idv) =~= base.insert(
                                                c,
                                                idv,
                                            ));
                                            let want = component_content_upto(
                                                v,
                                                cs,
                                                ci as int,
                                                c,
                                                ps,
                                                pi + 1,
                                            );
                                            assert forall|x: Seq<char>|
                                                component_partial(
                                                    v,
                                                    x,
                                                    cs,
                                                    ci as int,
                                                    c,
                                                    ps,
                                                    pi + 1,
                                                ) =~= #[trigger] component_partial(
                                                    v,
                                                    x,
                                                    cs,
                                                    ci as int,
                                                    c,
                                                    ps,
                                                    pi as int,
                                                ) by {}
                                            assert(pair_lists(cmap) =~= want);
                                        }
                                    },
                                }
                            },
                            None => {},
                        }
                        pi += 1;
                    }
                    proof {
                        let next = package_content_upto(v, cs, ci + 1);
                        assert(pmap.texts() =~= next) by {
                            assert forall|x: Seq<char>| pmap.texts().dom().contains(x)
                                <==> next.dom().contains(x) by {
                                if x == c {
                                    assert(cs[ci as int] == c);
                                } else {
                                    if next.dom().contains(x) {
                                        let k = choose|k: int|
                                            0 <= k < ci + 1 && #[trigger] cs[k] == x;
                                        assert(k < ci);
                                        assert(cs[k] == x);
                                    }
                                    if base.dom().contains(x) {
                                        let k = choose|k: int| 0 <= k < ci && #[trigger] cs[k] == x;
                                        assert(cs[k] == x);
                                    }
                                }
                            }
                        }
                        assert(pair_lists(cmap) =~= component_content_upto(
                            v,
                            cs,
                            ci + 1,
                            Seq::empty(),
                            Seq::empty(),
                            0,
                        )) by {
                            assert forall|id: Seq<char>|
                                component_partial(v, id, cs, ci as int, c, ps, m as int)
                                    =~= #[trigger] component_partial(
                                    v,
                                    id,
                                    cs,
                                    ci + 1,
                                    Seq::empty(),
                                    Seq::empty(),
                                    0,
                                ) by {}
                        }
                    }
                },
                None => {},
            }
            ci += 1;
        }
        proof {
            self.checksum_paths.lemma_view();
            assert(pmap.texts() =~= package_content(v)) by {
                assert forall|x: Seq<char>| pmap.texts().dom().contains(x)
                    <==> package_content(v).dom().contains(x) by {
                    if pmap.texts().dom().contains(x) {
                        let k = choose|k: int| 0 <= k < n && #[trigger] cs[k] == x;
                        assert(cs.to_set().contains(cs[k]));
                    }
                    if package_content(v).dom().contains(x) {
                        assert(cs.to_set().contains(x));
                        let k = choose|k: int| 0 <= k < cs.len() && cs[k] == x;
                        assert(cs[k] == x);
                    }
                }
            }
            assert(pair_lists(cmap) =~= component_content(v)) by {
                assert forall|id: Seq<char>|
                    #[trigger] component_partial(
                        v,
                        id,
                        cs,
                        n as int,
                        Seq::empty(),
                        Seq::empty(),
                        0,
                    ) =~= component_entries(v, id) by {}
            }
        }
        let set = clone_groups(&self.packagemeta);
        proof {
            assert forall|c: Seq<char>| pmap.texts().dom().contains(c) implies groups_of(
                set,
            ).dom().contains(#[trigger] pmap.texts()[c]) by {
                law_table_names_groups(*self, c);
            }
        }
        (ObjectMeta { map: pmap, set }, cmap)
    }

    /// The owner of `path` by the priority rule.
    pub fn owner(&self, path: &str) -> (r: OwnerId)
        requires
            self.wf(),
        ensures
            r@ == owner_of(self@, path@),
    {
        match self.path_components.get(path) {
            Some(ids) => {
                proof {
                    lemma_multimap_entry(self.path_components, NameOrder::Bytes, path@);
                }
                match ids.first() {
                    Some(id) => {
                        return OwnerId::Component(id.clone());
                    },
                    None => {},
                }
            },
            None => {},
        }
        match self.path_packages.get(path) {
            Some(ids) => {
                proof {
                    lemma_multimap_entry(self.path_packages, NameOrder::Bytes, path@);
                }
                match ids.first() {
                    Some(id) => {
                        return OwnerId::Package(id.clone());
                    },
                    None => {},
                }
            },
            None => {},
        }
        OwnerId::Package(self.unpackaged_id.clone())
    }
}

} // verus!
