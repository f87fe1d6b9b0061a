//! The provenance of the objects of a commit.
//!
//! Every regular file and symlink of a commit is assigned to a content
//! group: to a component, if the file or a directory above it carries
//! the `user.component` attribute; else to the package that provides its
//! path; else to the group of unpackaged content. `MappingBuilder`
//! gathers what is needed for that: the content groups, the paths of
//! every object, and the packages and components that claim each path.

use vstd::prelude::*;
use vstd::string::*;
use crate::error::{Error, ErrorKind};
use crate::name_map::NameMap;
use crate::name_set::NameSet;
use crate::order::NameOrder;
use crate::pacman::{PacmanPackageMeta, PackageView};

verus! {

/// The identifier of the group of content that no package provides.
pub const UNPACKAGED_ID: &'static str = "unpackaged-content";

/// The name of the initramfs group.
pub const INITRAMFS_NAME: &'static str = "initramfs";

/// A group of content that goes into a layer together (a package, a
/// component, the initramfs or the unpackaged content).
#[derive(Debug)]
pub struct ContentGroup {
    /// The content identifier of the group.
    pub identifier: String,
    /// The name shown for the group.
    pub name: String,
    /// The identifier of the source that the group is built from.
    pub srcid: String,
    /// Hours from the earliest build time of any package to that of this group.
    pub change_time_offset: u32,
    /// How often the group changes: the number of its changelog entries.
    pub change_frequency: u32,
}

/// What a `ContentGroup` holds, as plain values.
pub ghost struct ContentGroupView {
    pub identifier: Seq<char>,
    pub name: Seq<char>,
    pub srcid: Seq<char>,
    pub change_time_offset: u32,
    pub change_frequency: u32,
}

impl View for ContentGroup {
    type V = ContentGroupView;

    open spec fn view(&self) -> ContentGroupView {
        ContentGroupView {
            identifier: self.identifier@,
            name: self.name@,
            srcid: self.srcid@,
            change_time_offset: self.change_time_offset,
            change_frequency: self.change_frequency,
        }
    }
}

impl Clone for ContentGroup {
    fn clone(&self) -> (r: ContentGroup)
        ensures
            r@ == self@,
    {
        ContentGroup {
            identifier: self.identifier.clone(),
            name: self.name.clone(),
            srcid: self.srcid.clone(),
            change_time_offset: self.change_time_offset,
            change_frequency: self.change_frequency,
        }
    }
}

/// A group that changes last and most often, so that it sorts after
/// every package: its offset and its frequency are the greatest there are.
pub open spec fn late_group(identifier: Seq<char>, name: Seq<char>, srcid: Seq<char>) -> ContentGroupView {
    ContentGroupView {
        identifier,
        name,
        srcid,
        change_time_offset: u32::MAX,
        change_frequency: u32::MAX,
    }
}

/// The groups of a map, by identifier.
pub open spec fn groups_of(m: NameMap<ContentGroup>) -> Map<Seq<char>, ContentGroupView> {
    Map::new(|k: Seq<char>| m@.dom().contains(k), |k: Seq<char>| m@[k]@)
}

/// The sets of a map of sets, by key.
pub open spec fn sets_of(m: NameMap<NameSet>) -> Map<Seq<char>, Set<Seq<char>>> {
    Map::new(|k: Seq<char>| m@.dom().contains(k), |k: Seq<char>| m@[k]@)
}

/// A map of sets is well formed, and so is each of its sets; each lists
/// what it holds in the order `order`, and none is empty.
pub open spec fn multimap_wf(m: NameMap<NameSet>, order: NameOrder) -> bool {
    &&& m.wf()
    &&& forall|i: int|
        0 <= i < m.values().len() ==> (#[trigger] m.values()[i]).wf() && m.values()[i].order()
            == order && m.values()[i].seq().len() > 0
}

/// Every package that provides a path has a group.
pub open spec fn providers_are_groups(
    providers: Map<Seq<char>, Set<Seq<char>>>,
    groups: Map<Seq<char>, ContentGroupView>,
) -> bool {
    forall|path: Seq<char>, id: Seq<char>|
        providers.dom().contains(path) && (#[trigger] providers[path].contains(id))
            ==> groups.dom().contains(id)
}

/// A provider that has a group may be added to the providers of a path.
pub proof fn lemma_provider_added(
    providers: Map<Seq<char>, Set<Seq<char>>>,
    groups: Map<Seq<char>, ContentGroupView>,
    path: Seq<char>,
    id: Seq<char>,
)
    requires
        providers_are_groups(providers, groups),
        groups.dom().contains(id),
    ensures
        providers_are_groups(multi_add(providers, path, id), groups),
{
    let after = multi_add(providers, path, id);
    assert forall|q: Seq<char>, x: Seq<char>|
        after.dom().contains(q) && (#[trigger] after[q].contains(x)) implies groups.dom().contains(
        x,
    ) by {
        if x != id {
            assert(providers.dom().contains(q) && providers[q].contains(x));
        }
    }
}

/// The groups with `g` added, unless a group of its identifier is there already.
pub open spec fn put_group(
    m: Map<Seq<char>, ContentGroupView>,
    g: ContentGroupView,
) -> Map<Seq<char>, ContentGroupView> {
    if m.dom().contains(g.identifier) {
        m
    } else {
        m.insert(g.identifier, g)
    }
}

/// The map of sets with `member` added to the set of `key`.
pub open spec fn multi_add(
    m: Map<Seq<char>, Set<Seq<char>>>,
    key: Seq<char>,
    member: Seq<char>,
) -> Map<Seq<char>, Set<Seq<char>>> {
    if m.dom().contains(key) {
        m.insert(key, m[key].insert(member))
    } else {
        m.insert(key, Set::<Seq<char>>::empty().insert(member))
    }
}

/// Adds a group under its identifier, unless one is there already.
pub fn put_absent(groups: &mut NameMap<ContentGroup>, g: ContentGroup)
    requires
        old(groups).wf(),
    ensures
        final(groups).wf(),
        groups_of(*final(groups)) == put_group(groups_of(*old(groups)), g@),
{
    let ghost before = groups_of(*groups);
    if !groups.contains_key(g.identifier.as_str()) {
        let ghost gv = g@;
        groups.insert(g.identifier.clone(), g);
        proof {
            assert(groups_of(*groups) =~= before.insert(gv.identifier, gv));
        }
    }
}

/// Adds `member` to the set of `key`; a set that is made for it lists
/// what it holds in the order `order`, as all sets of the map do.
pub fn add_to(map: &mut NameMap<NameSet>, order: NameOrder, key: &str, member: String)
    requires
        multimap_wf(*old(map), order),
    ensures
        multimap_wf(*final(map), order),
        sets_of(*final(map)) == multi_add(sets_of(*old(map)), key@, member@),
{
    let ghost before = *map;
    proof {
        before.lemma_view();
    }
    match map.find(key) {
        Some(i) => {
            let ghost old_set = map.values()[i as int];
            let set = map.value_mut(i);
            set.insert(member);
            proof {
                map.lemma_view();
                let new_set = map.values()[i as int];
                assert(new_set@ == old_set@.insert(member@));
                assert(multimap_wf(*map, order)) by {
                    assert forall|k: int| 0 <= k < map.values().len() implies (
                    #[trigger] map.values()[k]).wf() && map.values()[k].order() == order
                        && map.values()[k].seq().len() > 0 by {
                        if k == i {
                            assert(new_set@.contains(member@));
                            new_set.lemma_len();
                        } else {
                            assert(map.values()[k] == before.values()[k]);
                        }
                    }
                }
                assert(sets_of(*map) =~= multi_add(sets_of(before), key@, member@)) by {
                    assert forall|k: Seq<char>| sets_of(*map).dom().contains(k) implies #[trigger] sets_of(
                        *map,
                    )[k] == multi_add(sets_of(before), key@, member@)[k] by {
                        let j = map.keys().index_of(k);
                        assert(map.keys().contains(k));
                        assert(0 <= j < map.keys().len() && map.keys()[j] == k);
                        assert(map@[map.keys()[j]] == map.values()[j]);
                        assert(before@[before.keys()[j]] == before.values()[j]);
                        if k != key@ {
                            assert(j != i);
                        }
                    }
                }
            }
        },
        None => {
            let mut s = NameSet::with_order(order);
            s.insert(member);
            let ghost sv = s;
            map.insert(key.to_owned(), s);
            proof {
                map.lemma_view();
                assert(sv@ =~= Set::<Seq<char>>::empty().insert(member@));
                assert(multimap_wf(*map, order)) by {
                    assert forall|k: int| 0 <= k < map.values().len() implies (
                    #[trigger] map.values()[k]).wf() && map.values()[k].order() == order
                        && map.values()[k].seq().len() > 0 by {
                        let name = map.keys()[k];
                        assert(map@[name] == map.values()[k]);
                        if name == key@ {
                            assert(map.values()[k] == sv);
                            assert(sv@.contains(member@));
                            sv.lemma_len();
                        } else {
                            assert(before@.dom().contains(name));
                            let j = before.keys().index_of(name);
                            assert(before.keys().contains(name));
                            assert(0 <= j < before.keys().len() && before.keys()[j] == name);
                            assert(before@[before.keys()[j]] == before.values()[j]);
                        }
                    }
                }
                assert(sets_of(*map) =~= multi_add(sets_of(before), key@, member@));
            }
        },
    }
}

/// What is gathered for the assignment of objects to content groups.
#[derive(Debug)]
pub struct MappingBuilder {
    /// The groups of packages, of the initramfs and of unpackaged content, by identifier.
    pub packagemeta: NameMap<ContentGroup>,
    /// The groups of components, by identifier.
    pub componentmeta: NameMap<ContentGroup>,
    /// The components met while walking the tree.
    pub component_ids: NameSet,
    /// The paths of each object, by checksum.
    pub checksum_paths: NameMap<NameSet>,
    /// The packages that provide each path.
    pub path_packages: NameMap<NameSet>,
    /// The components that claim each path.
    pub path_components: NameMap<NameSet>,
    /// The identifier of the group of unpackaged content.
    pub unpackaged_id: String,
    /// Paths that were assigned before the walk and are passed over once.
    pub skip: NameSet,
    /// The sum of the sizes of all packages, at most `u64::MAX`.
    pub pkgsize: u64,
}

/// What a `MappingBuilder` holds, as maps and sets.
pub ghost struct MappingView {
    pub packagemeta: Map<Seq<char>, ContentGroupView>,
    pub componentmeta: Map<Seq<char>, ContentGroupView>,
    pub component_ids: Set<Seq<char>>,
    pub checksum_paths: Map<Seq<char>, Set<Seq<char>>>,
    pub path_packages: Map<Seq<char>, Set<Seq<char>>>,
    pub path_components: Map<Seq<char>, Set<Seq<char>>>,
    pub unpackaged_id: Seq<char>,
    pub skip: Set<Seq<char>>,
    pub pkgsize: u64,
}

impl View for MappingBuilder {
    type V = MappingView;

    open spec fn view(&self) -> MappingView {
        MappingView {
            packagemeta: groups_of(self.packagemeta),
            componentmeta: groups_of(self.componentmeta),
            component_ids: self.component_ids@,
            checksum_paths: sets_of(self.checksum_paths),
            path_packages: sets_of(self.path_packages),
            path_components: sets_of(self.path_components),
            unpackaged_id: self.unpackaged_id@,
            skip: self.skip@,
            pkgsize: self.pkgsize,
        }
    }
}

/// The content identifier of a package: its name, version and
/// architecture as `name-version.arch`.
pub open spec fn nevra(p: PackageView) -> Seq<char> {
    p.pkgname + "-"@ + p.pkgver + "."@ + p.arch
}

/// A number as the 32-bit number that a group carries.
pub open spec fn low_32(n: int) -> u32 {
    (n % 0x1_0000_0000) as u32
}

/// The whole hours from `low` to `t`.
pub open spec fn hours_between(low: u64, t: u64) -> u32 {
    low_32((t - low) / 3600)
}

/// The group of a package. Its offset counts the hours from the earliest
/// build time `low`, and its frequency the entries of its changelog.
pub open spec fn package_group(p: PackageView, low: u64) -> ContentGroupView {
    ContentGroupView {
        identifier: nevra(p),
        name: p.pkgname,
        srcid: p.src_pkg,
        change_time_offset: hours_between(low, p.buildtime),
        change_frequency: low_32(p.changelogs.len() as int),
    }
}

/// A package built at the earliest time has offset 0, and one built at
/// the latest time has the whole hours between the two as its offset,
/// if they are few enough for the 32 bits of an offset.
pub proof fn law_offsets_at_bounds(p: PackageView, low: u64, high: u64)
    requires
        low <= high,
    ensures
        p.buildtime == low ==> package_group(p, low).change_time_offset == 0,
        p.buildtime == high && (high - low) / 3600 <= u32::MAX ==> package_group(
            p,
            low,
        ).change_time_offset == (high - low) / 3600,
{
}

/// The group of a component.
pub open spec fn component_group(name: Seq<char>) -> ContentGroupView {
    late_group(name, name, "component:"@ + name)
}

/// The identifier of the initramfs of a kernel.
pub open spec fn initramfs_id(kernel_ver: Seq<char>) -> Seq<char> {
    INITRAMFS_NAME@ + " (kernel "@ + kernel_ver + ")"@
}

/// The packages of a database in the order of their names.
pub open spec fn package_seq(db: NameMap<PacmanPackageMeta>) -> Seq<PackageView> {
    Seq::new(db.values().len(), |i: int| db.values()[i]@)
}

/// The place of the first package, among the first `n`, that was built
/// earliest.
pub open spec fn earliest_place(pkgs: Seq<PackageView>, n: int) -> int
    decreases n,
{
    if n <= 1 {
        0
    } else {
        let i = earliest_place(pkgs, n - 1);
        if pkgs[n - 1].buildtime < pkgs[i].buildtime {
            n - 1
        } else {
            i
        }
    }
}

/// No package among the first `n` was built before the one at the earliest place.
pub proof fn lemma_earliest_is_least(pkgs: Seq<PackageView>, n: int, k: int)
    requires
        0 <= k < n <= pkgs.len(),
    ensures
        0 <= earliest_place(pkgs, n) < n,
        pkgs[earliest_place(pkgs, n)].buildtime <= pkgs[k].buildtime,
    decreases n,
{
    if n > 1 {
        if k < n - 1 {
            lemma_earliest_is_least(pkgs, n - 1, k);
        } else {
            lemma_earliest_is_least(pkgs, n - 1, 0);
        }
    }
}

/// No package among the first `n` was built after the latest time.
pub proof fn lemma_latest_is_greatest(pkgs: Seq<PackageView>, n: int, k: int)
    requires
        0 <= k < n <= pkgs.len(),
    ensures
        pkgs[k].buildtime <= latest_time(pkgs, n),
    decreases n,
{
    if k < n - 1 {
        lemma_latest_is_greatest(pkgs, n - 1, k);
    }
}

/// The latest build time among the first `n` packages.
pub open spec fn latest_time(pkgs: Seq<PackageView>, n: int) -> u64
    decreases n,
{
    if n <= 0 {
        0
    } else {
        let t = latest_time(pkgs, n - 1);
        if pkgs[n - 1].buildtime > t {
            pkgs[n - 1].buildtime
        } else {
            t
        }
    }
}

/// The sum of two sizes, at most `u64::MAX`.
pub open spec fn capped_sum(a: u64, b: u64) -> u64 {
    if a + b > u64::MAX {
        u64::MAX
    } else {
        (a + b) as u64
    }
}

/// The size `s` with the sizes of the first `n` packages added.
pub open spec fn size_with(s: u64, pkgs: Seq<PackageView>, n: int) -> u64
    decreases n,
{
    if n <= 0 {
        s
    } else {
        capped_sum(size_with(s, pkgs, n - 1), pkgs[n - 1].size)
    }
}

/// The groups `m` with the groups of the first `n` packages added.
pub open spec fn groups_with(
    m: Map<Seq<char>, ContentGroupView>,
    pkgs: Seq<PackageView>,
    low: u64,
    n: int,
) -> Map<Seq<char>, ContentGroupView>
    decreases n,
{
    if n <= 0 {
        m
    } else {
        put_group(groups_with(m, pkgs, low, n - 1), package_group(pkgs[n - 1], low))
    }
}

/// The map `m` with `id` added as a provider of the first `k` of `paths`.
pub open spec fn paths_added(
    m: Map<Seq<char>, Set<Seq<char>>>,
    paths: Seq<Seq<char>>,
    id: Seq<char>,
    k: int,
) -> Map<Seq<char>, Set<Seq<char>>>
    decreases k,
{
    if k <= 0 {
        m
    } else {
        multi_add(paths_added(m, paths, id, k - 1), paths[k - 1], id)
    }
}

/// The map `m` with the first `n` packages added as providers of their paths.
pub open spec fn providers_with(
    m: Map<Seq<char>, Set<Seq<char>>>,
    pkgs: Seq<PackageView>,
    n: int,
) -> Map<Seq<char>, Set<Seq<char>>>
    decreases n,
{
    if n <= 0 {
        m
    } else {
        let p = pkgs[n - 1];
        paths_added(
            providers_with(m, pkgs, n - 1),
            p.provided_files,
            nevra(p),
            p.provided_files.len() as int,
        )
    }
}

/// The groups `m` with the groups of the first `n` of `names` added as components.
pub open spec fn components_with(
    m: Map<Seq<char>, ContentGroupView>,
    names: Seq<Seq<char>>,
    n: int,
) -> Map<Seq<char>, ContentGroupView>
    decreases n,
{
    if n <= 0 {
        m
    } else {
        put_group(components_with(m, names, n - 1), component_group(names[n - 1]))
    }
}

/// What the index of the packages found: the first package that was
/// built earliest, its build time, and the latest build time.
#[derive(Debug)]
pub struct PackageIndex {
    pub earliest_id: String,
    pub earliest: u64,
    pub latest: u64,
}

/// The initramfs of the kernel of a commit.
#[derive(Debug)]
pub struct Initramfs {
    /// The version of the kernel: the name of its directory.
    pub kernel_ver: String,
    /// The path of the initramfs in the commit.
    pub path: String,
    /// The checksum of the initramfs.
    pub checksum: String,
}

fn low_32_of(n: u64) -> (r: u32)
    ensures
        r == low_32(n as int),
{
    (n % 0x1_0000_0000) as u32
}

fn len_32(n: usize) -> (r: u32)
    ensures
        r == low_32(n as int),
{
    let wide: u64 = n as u64;
    (wide % 0x1_0000_0000) as u32
}

/// The content identifier of a package.
pub fn package_id(p: &PacmanPackageMeta) -> (id: String)
    ensures
        id@ == nevra(p@),
{
    let mut id = p.pkgname.clone();
    id.append("-");
    id.append(p.pkgver.as_str());
    id.append(".");
    id.append(p.arch.as_str());
    id
}

/// A group that sorts after every package.
pub fn new_late_group(identifier: &str, name: &str, srcid: &str) -> (g: ContentGroup)
    ensures
        g@ == late_group(identifier@, name@, srcid@),
{
    ContentGroup {
        identifier: identifier.to_owned(),
        name: name.to_owned(),
        srcid: srcid.to_owned(),
        change_time_offset: u32::MAX,
        change_frequency: u32::MAX,
    }
}

impl MappingBuilder {
    /// Every collection is well formed and no path or object has an
    /// empty set; the paths of an object are listed by their components,
    /// all else by bytes. The group of unpackaged content is among the
    /// package groups, and so is every group that provides a path.
    pub open spec fn wf(&self) -> bool {
        &&& self.packagemeta.wf()
        &&& self.componentmeta.wf()
        &&& self.component_ids.wf_names()
        &&& multimap_wf(self.checksum_paths, NameOrder::Components)
        &&& multimap_wf(self.path_packages, NameOrder::Bytes)
        &&& multimap_wf(self.path_components, NameOrder::Bytes)
        &&& self.skip.wf()
        &&& self@.packagemeta.dom().contains(self@.unpackaged_id)
        &&& providers_are_groups(self@.path_packages, self@.packagemeta)
    }

    /// A builder that holds only the group of unpackaged content, which
    /// sorts after every package.
    pub fn new() -> (b: MappingBuilder)
        ensures
            b.wf(),
            b@ == (MappingView {
                packagemeta: Map::<Seq<char>, ContentGroupView>::empty().insert(
                    UNPACKAGED_ID@,
                    late_group(UNPACKAGED_ID@, UNPACKAGED_ID@, UNPACKAGED_ID@),
                ),
                componentmeta: Map::empty(),
                component_ids: Set::empty(),
                checksum_paths: Map::empty(),
                path_packages: Map::empty(),
                path_components: Map::empty(),
                unpackaged_id: UNPACKAGED_ID@,
                skip: Set::empty(),
                pkgsize: 0,
            }),
    {
        let mut packagemeta: NameMap<ContentGroup> = NameMap::new();
        proof {
            assert(groups_of(packagemeta) =~= Map::<Seq<char>, ContentGroupView>::empty());
        }
        put_absent(&mut packagemeta, new_late_group(UNPACKAGED_ID, UNPACKAGED_ID, UNPACKAGED_ID));
        let b = MappingBuilder {
            packagemeta,
            componentmeta: NameMap::new(),
            component_ids: NameSet::new(),
            checksum_paths: NameMap::new(),
            path_packages: NameMap::new(),
            path_components: NameMap::new(),
            unpackaged_id: UNPACKAGED_ID.to_owned(),
            skip: NameSet::new(),
            pkgsize: 0,
        };
        proof {
            assert(b@.componentmeta =~= Map::<Seq<char>, ContentGroupView>::empty());
            assert(b@.checksum_paths =~= Map::<Seq<char>, Set<Seq<char>>>::empty());
            assert(b@.path_packages =~= Map::<Seq<char>, Set<Seq<char>>>::empty());
            assert(b@.path_components =~= Map::<Seq<char>, Set<Seq<char>>>::empty());
        }
        b
    }

    /// Indexes the packages of a database, in the order of their names:
    /// adds up their sizes, adds the group of each package, and records
    /// each package as a provider of its paths. The offset of a group
    /// counts from the earliest build time of all packages. It is an
    /// error if the database holds no package.
    pub fn index_packages(&mut self, db: &NameMap<PacmanPackageMeta>) -> (r: Result<
        PackageIndex,
        Error,
    >)
        requires
            old(self).wf(),
            db.wf(),
        ensures
            final(self).wf(),
            r is Ok <==> package_seq(*db).len() > 0,
            r matches Err(e) ==> e.kind == ErrorKind::Configuration && e.message@
                == "Failed to find any Pacman packages"@ && final(self)@ == old(self)@,
            r matches Ok(index) ==> ({
                let pkgs = package_seq(*db);
                let n = pkgs.len() as int;
                let first = pkgs[earliest_place(pkgs, n)];
                &&& index.earliest_id@ == nevra(first)
                &&& index.earliest == first.buildtime
                &&& index.latest == latest_time(pkgs, n)
                &&& final(self)@ == (MappingView {
                    packagemeta: groups_with(old(self)@.packagemeta, pkgs, first.buildtime, n),
                    path_packages: providers_with(old(self)@.path_packages, pkgs, n),
                    pkgsize: size_with(old(self)@.pkgsize, pkgs, n),
                    ..old(self)@
                })
            }),
    {
        let n = db.len();
        if n == 0 {
            return Err(Error::new(ErrorKind::Configuration, "Failed to find any Pacman packages"));
        }
        let ghost pkgs = package_seq(*db);
        let ghost before = self@;
        let mut place: usize = 0;
        let mut earliest: u64 = 0;
        let mut latest: u64 = 0;
        let mut i: usize = 0;
        while i < n
            invariant
                i <= n,
                n == db.values().len(),
                n == pkgs.len(),
                db.wf(),
                pkgs == package_seq(*db),
                i > 0 ==> place < i && place == earliest_place(pkgs, i as int) && earliest
                    == pkgs[place as int].buildtime,
                latest == latest_time(pkgs, i as int),
                self.wf(),
                self@ == (MappingView {
                    pkgsize: size_with(before.pkgsize, pkgs, i as int),
                    ..before
                }),
            decreases n - i,
        {
            match db.entry(i) {
                Some((_, p)) => {
                    assert(pkgs[i as int] == p@);
                    if i == 0 || p.buildtime < earliest {
                        place = i;
                        earliest = p.buildtime;
                    }
                    if p.buildtime > latest {
                        latest = p.buildtime;
                    }
                    self.pkgsize = match self.pkgsize.checked_add(p.size) {
                        Some(s) => s,
                        None => u64::MAX,
                    };
                },
                None => {},
            }
            i += 1;
        }
        let earliest_id = match db.entry(place) {
            Some((_, p)) => {
                assert(pkgs[place as int] == p@);
                package_id(p)
            },
            None => String::new(),
        };
        let ghost sized = self@;
        let mut i: usize = 0;
        while i < n
            invariant
                i <= n,
                n == db.values().len(),
                n == pkgs.len(),
                db.wf(),
                pkgs == package_seq(*db),
                self.wf(),
                earliest == pkgs[earliest_place(pkgs, n as int)].buildtime,
                self@ == (MappingView {
                    packagemeta: groups_with(before.packagemeta, pkgs, earliest, i as int),
                    path_packages: providers_with(before.path_packages, pkgs, i as int),
                    ..sized
                }),
            decreases n - i,
        {
            match db.entry(i) {
                Some((_, p)) => {
                    assert(pkgs[i as int] == p@);
                    proof {
                        lemma_earliest_is_least(pkgs, n as int, i as int);
                    }
                    let id = package_id(p);
                    let group = ContentGroup {
                        identifier: id.clone(),
                        name: p.pkgname.clone(),
                        srcid: p.src_pkg.clone(),
                        change_time_offset: low_32_of((p.buildtime - earliest) / 3600),
                        change_frequency: len_32(p.changelogs.len()),
                    };
                    assert(group@ == package_group(p@, earliest));
                    put_absent(&mut self.packagemeta, group);
                    let ghost providers = self@.path_packages;
                    let mut k: usize = 0;
                    while k < p.provided_files.len()
                        invariant
                            k <= p.provided_files.len(),
                            id@ == nevra(p@),
                            self.wf(),
                            self@.packagemeta.dom().contains(id@),
                            self@ == (MappingView {
                                packagemeta: groups_with(
                                    before.packagemeta,
                                    pkgs,
                                    earliest,
                                    i + 1,
                                ),
                                path_packages: paths_added(
                                    providers,
                                    p@.provided_files,
                                    id@,
                                    k as int,
                                ),
                                ..sized
                            }),
                        decreases p.provided_files.len() - k,
                    {
                        assert(p@.provided_files[k as int] == p.provided_files@[k as int]@);
                        let ghost held = self@.path_packages;
                        let ghost file = p.provided_files@[k as int]@;
                        add_to(
                            &mut self.path_packages,
                            NameOrder::Bytes,
                            p.provided_files[k].as_str(),
                            id.clone(),
                        );
                        proof {
                            lemma_provider_added(held, self@.packagemeta, file, id@);
                        }
                        k += 1;
                    }
                },
                None => {},
            }
            i += 1;
        }
        Ok(PackageIndex { earliest_id, earliest, latest })
    }

    /// Records the initramfs of the kernel before the walk: it gets a
    /// group of its own, which sorts after every package and is the
    /// provider of its path, and the walk passes its path over.
    pub fn register_initramfs(&mut self, initramfs: &Initramfs)
        requires
            old(self).wf(),
        ensures
            final(self).wf(),
            final(self)@ == ({
                let id = initramfs_id(initramfs.kernel_ver@);
                MappingView {
                    checksum_paths: multi_add(
                        old(self)@.checksum_paths,
                        initramfs.checksum@,
                        initramfs.path@,
                    ),
                    path_packages: multi_add(old(self)@.path_packages, initramfs.path@, id),
                    packagemeta: put_group(
                        old(self)@.packagemeta,
                        late_group(id, INITRAMFS_NAME@, id),
                    ),
                    skip: old(self)@.skip.insert(initramfs.path@),
                    ..old(self)@
                }
            }),
    {
        let mut id = INITRAMFS_NAME.to_owned();
        id.append(" (kernel ");
        id.append(initramfs.kernel_ver.as_str());
        id.append(")");
        add_to(
            &mut self.checksum_paths,
            NameOrder::Components,
            initramfs.checksum.as_str(),
            initramfs.path.clone(),
        );
        add_to(&mut self.path_packages, NameOrder::Bytes, initramfs.path.as_str(), id.clone());
        put_absent(
            &mut self.packagemeta,
            new_late_group(id.as_str(), INITRAMFS_NAME, id.as_str()),
        );
        self.skip.insert(initramfs.path.clone());
    }

    /// Adds the group of every component that the walk met, in the order
    /// of their names. Each sorts after every package.
    pub fn register_components(&mut self)
        requires
            old(self).wf(),
        ensures
            final(self).wf(),
            final(self)@ == (MappingView {
                componentmeta: components_with(
                    old(self)@.componentmeta,
                    old(self).component_ids.seq(),
                    old(self).component_ids.seq().len() as int,
                ),
                ..old(self)@
            }),
    {
        let ghost before = self@;
        let ghost names = self.component_ids.seq();
        let n = self.component_ids.len();
        let mut i: usize = 0;
        while i < n
            invariant
                i <= n,
                n == names.len(),
                names == self.component_ids.seq(),
                self.wf(),
                self@ == (MappingView {
                    componentmeta: components_with(before.componentmeta, names, i as int),
                    ..before
                }),
            decreases n - i,
        {
            let group = match self.component_ids.get(i) {
                Some(name) => {
                    let mut srcid = "component:".to_owned();
                    srcid.append(name.as_str());
                    Some(new_late_group(name.as_str(), name.as_str(), srcid.as_str()))
                },
                None => None,
            };
            match group {
                Some(g) => {
                    put_absent(&mut self.componentmeta, g);
                },
                None => {},
            }
            i += 1;
        }
    }
}

} // verus!
