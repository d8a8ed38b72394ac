//! The manifest: which packages there are, where they stand on disk and
//! what each of them may require.

use crate::collections::{
    lemma_map_of_pairs_values, map_of_pairs, pair_views, trie_key, OrderedMap, PathTrie,
};
use crate::error::{Error, ErrorView};
use crate::loader::hydration_failure;
use crate::fs::{join_paths, joined_paths};
use crate::util::{normalize_path, normalized, parent_of, parent_path};
use crate::util::RegexDef;
use vstd::prelude::*;

verus! {

/// A package, by name and reference. The two empty strings name the
/// top-level package.
#[derive(Clone, Debug, PartialEq, Eq, Hash)]
pub struct PackageLocator {
    pub name: String,
    pub reference: String,
}

impl View for PackageLocator {
    type V = (Seq<char>, Seq<char>);

    open spec fn view(&self) -> (Seq<char>, Seq<char>) {
        (self.name@, self.reference@)
    }
}

impl Default for PackageLocator {
    fn default() -> (r: Self)
        ensures
            r@ == (Seq::<char>::empty(), Seq::<char>::empty()),
    {
        PackageLocator { name: String::new(), reference: String::new() }
    }
}

impl PackageLocator {
    /// A copy of this locator.
    pub fn duplicate(&self) -> (r: Self)
        ensures
            r@ == self@,
    {
        PackageLocator { name: self.name.clone(), reference: self.reference.clone() }
    }
}

/// What a package depends on under some name: a reference of the package
/// of that name, or another package under an alias.
#[derive(Clone, Debug, PartialEq)]
pub enum PackageDependency {
    Reference(String),
    Alias(String, String),
}

impl PackageDependency {
    /// The locator that this dependency stands for when it is required
    /// under `name`.
    pub open spec fn target(&self, name: Seq<char>) -> (Seq<char>, Seq<char>) {
        match self {
            PackageDependency::Reference(reference) => (name, reference@),
            PackageDependency::Alias(alias, reference) => (alias@, reference@),
        }
    }

    /// A copy of this dependency.
    pub fn duplicate(&self) -> (r: Self)
        ensures
            r == *self,
    {
        match self {
            PackageDependency::Reference(reference) => PackageDependency::Reference(
                reference.clone(),
            ),
            PackageDependency::Alias(alias, reference) => PackageDependency::Alias(
                alias.clone(),
                reference.clone(),
            ),
        }
    }
}

/// The dependencies of a package by name. A name without a value is a peer
/// dependency that nothing provides.
pub type Dependencies = OrderedMap<Option<PackageDependency>>;

/// One installed package.
#[derive(Clone, Debug)]
pub struct PackageInformation {
    /// Where the package stands: as the manifest file writes it before
    /// hydration, as a normal path from the manifest's directory after it.
    pub package_location: String,
    /// Whether the package is kept out of the trie of locations.
    pub discard_from_lookup: bool,
    /// What the package may require, by name.
    pub package_dependencies: Dependencies,
}

/// A loaded manifest.
#[derive(Clone, Debug)]
pub struct Manifest {
    /// The directory of the manifest file.
    pub manifest_dir: String,
    /// The path of the manifest file.
    pub manifest_path: String,
    /// The package that owns each directory in which a package stands.
    pub location_trie: PathTrie<PackageLocator>,
    /// Whether packages may use what the top level depends on.
    pub enable_top_level_fallback: bool,
    /// The paths, relative to the manifest's directory, that are left to
    /// other resolvers.
    pub ignore_pattern_data: Option<RegexDef>,
    /// The workspaces and the top-level package, as a set.
    pub dependency_tree_roots: Vec<PackageLocator>,
    /// What the top level offers to packages that do not declare a name.
    pub fallback_pool: Dependencies,
    /// The packages that may not use the fallback pool: for each name the
    /// references, as a set.
    pub fallback_exclusion_list: OrderedMap<Vec<String>>,
    /// Every package by name and reference, in the order of the manifest
    /// file.
    pub package_registry_data: OrderedMap<OrderedMap<PackageInformation>>,
}

impl PackageInformation {
    pub open spec fn wf(&self) -> bool {
        self.package_dependencies.wf()
    }
}

/// Whether every package of `references` is well formed.
pub open spec fn references_wf(references: OrderedMap<PackageInformation>) -> bool {
    &&& references.wf()
    &&& forall|j: int|
        0 <= j < references.values().len() ==> (#[trigger] references.values()[j]).wf()
}

impl Manifest {
    /// Every map of the manifest is well formed.
    pub open spec fn wf(&self) -> bool {
        &&& self.location_trie.wf()
        &&& self.fallback_pool.wf()
        &&& self.fallback_exclusion_list.wf()
        &&& self.package_registry_data.wf()
        &&& forall|i: int|
            0 <= i < self.package_registry_data.values().len() ==> references_wf(
                #[trigger] self.package_registry_data.values()[i],
            )
    }

    /// The package that `locator` names, if the registry holds it.
    pub open spec fn package(&self, locator: (Seq<char>, Seq<char>)) -> Option<PackageInformation> {
        match self.package_registry_data.lookup(locator.0) {
            Some(references) => references.lookup(locator.1),
            None => None,
        }
    }

    /// Whether `locator` is a root of the dependency tree.
    pub open spec fn is_root(&self, locator: (Seq<char>, Seq<char>)) -> bool {
        exists|i: int|
            0 <= i < self.dependency_tree_roots.len() && (#[trigger] self.dependency_tree_roots[i])@
                == locator
    }

    /// Whether `locator` may not use what the top level depends on.
    pub open spec fn is_excluded(&self, locator: (Seq<char>, Seq<char>)) -> bool {
        match self.fallback_exclusion_list.lookup(locator.0) {
            Some(references) => exists|i: int|
                0 <= i < references.len() && (#[trigger] references[i])@ == locator.1,
            None => false,
        }
    }
}

/// Where a package stands, given its location as the manifest writes it
/// and the manifest's directory: the location is taken from the directory,
/// and the result brought to its normal form.
pub open spec fn settled_location(dir: Seq<char>, location: Seq<char>) -> Seq<char> {
    normalized(joined_paths(dir, location))
}

/// The trie of locations by the views of its locators.
pub open spec fn locators(trie: PathTrie<PackageLocator>) -> Map<Seq<char>, (Seq<char>, Seq<char>)> {
    trie@.map_values(|l: PackageLocator| l@)
}

/// The locators by location after the first `n` of the packages of one
/// name have been entered, in order: each that is not kept out of lookup
/// stands under the key of its location.
pub open spec fn with_references(
    trie: Map<Seq<char>, (Seq<char>, Seq<char>)>,
    name: Seq<char>,
    references: OrderedMap<PackageInformation>,
    n: int,
) -> Map<Seq<char>, (Seq<char>, Seq<char>)>
    decreases n,
{
    if n <= 0 {
        trie
    } else {
        let before = with_references(trie, name, references, n - 1);
        let package = references.values()[n - 1];
        if package.discard_from_lookup {
            before
        } else {
            before.insert(
                trie_key(package.package_location@),
                (name, references.keys()[n - 1]),
            )
        }
    }
}

/// The locators by location after the packages of the first `n` names of a
/// registry have been entered, in order.
pub open spec fn with_registry(
    trie: Map<Seq<char>, (Seq<char>, Seq<char>)>,
    registry: OrderedMap<OrderedMap<PackageInformation>>,
    n: int,
) -> Map<Seq<char>, (Seq<char>, Seq<char>)>
    decreases n,
{
    if n <= 0 {
        trie
    } else {
        let references = registry.values()[n - 1];
        with_references(
            with_registry(trie, registry, n - 1),
            registry.keys()[n - 1],
            references,
            references.keys().len() as int,
        )
    }
}

/// Whether `after` is the package `before` with its location settled.
pub open spec fn package_settled(
    before: PackageInformation,
    after: PackageInformation,
    dir: Seq<char>,
) -> bool {
    &&& after.package_location@ == settled_location(dir, before.package_location@)
    &&& after.discard_from_lookup == before.discard_from_lookup
    &&& after.package_dependencies == before.package_dependencies
}

/// Whether `after` holds the packages of `before`, each with its location
/// settled.
pub open spec fn references_settled(
    before: OrderedMap<PackageInformation>,
    after: OrderedMap<PackageInformation>,
    dir: Seq<char>,
) -> bool {
    &&& after.keys() == before.keys()
    &&& after.values().len() == before.values().len()
    &&& forall|j: int|
        0 <= j < after.values().len() ==> package_settled(
            before.values()[j],
            #[trigger] after.values()[j],
            dir,
        )
}

/// Whether `after` holds the packages of `before`, each with its location
/// settled.
pub open spec fn registry_settled(
    before: OrderedMap<OrderedMap<PackageInformation>>,
    after: OrderedMap<OrderedMap<PackageInformation>>,
    dir: Seq<char>,
) -> bool {
    &&& after.keys() == before.keys()
    &&& after.values().len() == before.values().len()
    &&& forall|i: int|
        0 <= i < after.values().len() ==> references_settled(
            before.values()[i],
            #[trigger] after.values()[i],
            dir,
        )
}

/// The dependencies of the top-level package, if the registry holds it.
pub open spec fn top_level_dependencies(
    registry: OrderedMap<OrderedMap<PackageInformation>>,
) -> Option<Dependencies> {
    match registry.lookup(Seq::<char>::empty()) {
        Some(references) => match references.lookup(Seq::<char>::empty()) {
            Some(package) => Some(package.package_dependencies),
            None => None,
        },
        None => None,
    }
}

/// The text that tells that a manifest has no directory.
pub open spec fn no_directory_message() -> Seq<char> {
    "The manifest path should have a parent directory"@
}

/// The text that tells that a manifest lacks the top-level package.
pub open spec fn no_top_level_message() -> Seq<char> {
    "The manifest should list the top-level package"@
}

/// Whether `after` is `before` made ready for lookups under the path `p`
/// whose directory is `dir`: the two paths are recorded, every location is
/// settled, the packages that lookup may find are entered in the trie, and
/// the fallback pool gains what the top-level package depends on, except
/// under names that the pool held.
pub open spec fn hydrated(before: Manifest, after: Manifest, p: Seq<char>, dir: Seq<char>) -> bool {
    &&& after.manifest_path@ == p
    &&& after.manifest_dir@ == dir
    &&& after.enable_top_level_fallback == before.enable_top_level_fallback
    &&& after.ignore_pattern_data == before.ignore_pattern_data
    &&& after.dependency_tree_roots == before.dependency_tree_roots
    &&& after.fallback_exclusion_list == before.fallback_exclusion_list
    &&& registry_settled(before.package_registry_data, after.package_registry_data, dir)
    &&& locators(after.location_trie) == with_registry(
        locators(before.location_trie),
        after.package_registry_data,
        after.package_registry_data.keys().len() as int,
    )
    &&& top_level_dependencies(before.package_registry_data) is Some
    &&& forall|k: Seq<char>|
        #[trigger] after.fallback_pool.lookup(k) == match before.fallback_pool.lookup(k) {
            Some(v) => Some(v),
            None => top_level_dependencies(before.package_registry_data)->Some_0.lookup(k),
        }
}

/// Settles the location of one package and tells where it stands.
fn settle_package(package: &mut PackageInformation, dir: &str) -> (location: String)
    requires
        old(package).wf(),
    ensures
        final(package).wf(),
        package_settled(*old(package), *final(package), dir@),
        location@ == final(package).package_location@,
{
    let joined = join_paths(dir, package.package_location.as_str());
    let location = normalize_path(joined.as_str());
    let copy = location.clone();
    package.package_location = location;
    copy
}

/// Settles the locations of the packages of one name and enters those
/// that lookup may find in the trie.
fn settle_references(
    references: &mut OrderedMap<PackageInformation>,
    trie: &mut PathTrie<PackageLocator>,
    dir: &str,
    name: &str,
)
    requires
        references_wf(*old(references)),
        old(trie).wf(),
    ensures
        references_wf(*final(references)),
        final(trie).wf(),
        references_settled(*old(references), *final(references), dir@),
        locators(*final(trie)) == with_references(
            locators(*old(trie)),
            name@,
            *final(references),
            final(references).keys().len() as int,
        ),
{
    let n = references.len();
    let mut b: usize = 0;
    proof {
        references.lemma_wf();
    }
    while b < n
        invariant
            b <= n,
            n == references.keys().len(),
            references.wf(),
            references.keys() == old(references).keys(),
            references.values().len() == n,
            old(references).values().len() == n,
            trie.wf(),
            forall|j: int| 0 <= j < n ==> (#[trigger] references.values()[j]).wf(),
            forall|j: int|
                0 <= j < b ==> package_settled(
                    old(references).values()[j],
                    #[trigger] references.values()[j],
                    dir@,
                ),
            forall|j: int| b <= j < n ==> #[trigger] references.values()[j] == old(
                references,
            ).values()[j],
            locators(*trie) == with_references(locators(*old(trie)), name@, *references, b as int),
        decreases n - b,
    {
        let ghost before = *references;
        let ghost trie_before = *trie;
        let reference = references.key_at(b).clone();
        let location = settle_package(references.value_at_mut(b), dir);
        let discard = references.value_at(b).discard_from_lookup;
        if !discard {
            let mut owner = String::new();
            vstd::string::StringExecFns::append(&mut owner, name);
            assert(owner@ =~= name@);
            trie.insert(location.as_str(), PackageLocator { name: owner, reference });
        }
        proof {
            lemma_with_references_same(
                locators(*old(trie)),
                name@,
                before,
                *references,
                b as int,
            );
            if !discard {
                assert(locators(*trie) =~= locators(trie_before).insert(
                    trie_key(location@),
                    (name@, references.keys()[b as int]),
                ));
            }
        }
        b = b + 1;
    }
}

/// Entering the first `n` packages gives the same whatever stands behind
/// them.
pub proof fn lemma_with_references_same(
    trie: Map<Seq<char>, (Seq<char>, Seq<char>)>,
    name: Seq<char>,
    a: OrderedMap<PackageInformation>,
    b: OrderedMap<PackageInformation>,
    n: int,
)
    requires
        a.keys() == b.keys(),
        0 <= n <= a.values().len(),
        n <= b.values().len(),
        forall|j: int| 0 <= j < n ==> a.values()[j] == b.values()[j],
    ensures
        with_references(trie, name, a, n) == with_references(trie, name, b, n),
    decreases n,
{
    if n > 0 {
        lemma_with_references_same(trie, name, a, b, n - 1);
    }
}

/// Entering the packages of the first `n` names gives the same whatever
/// stands behind them.
pub proof fn lemma_with_registry_same(
    trie: Map<Seq<char>, (Seq<char>, Seq<char>)>,
    a: OrderedMap<OrderedMap<PackageInformation>>,
    b: OrderedMap<OrderedMap<PackageInformation>>,
    n: int,
)
    requires
        a.keys() == b.keys(),
        0 <= n <= a.values().len(),
        n <= b.values().len(),
        forall|i: int| 0 <= i < n ==> a.values()[i] == b.values()[i],
    ensures
        with_registry(trie, a, n) == with_registry(trie, b, n),
    decreases n,
{
    if n > 0 {
        lemma_with_registry_same(trie, a, b, n - 1);
    }
}

/// Settles every location of the registry and enters the packages that
/// lookup may find in the trie.
fn settle_registry(
    registry: &mut OrderedMap<OrderedMap<PackageInformation>>,
    trie: &mut PathTrie<PackageLocator>,
    dir: &str,
)
    requires
        old(registry).wf(),
        forall|i: int|
            0 <= i < old(registry).values().len() ==> references_wf(
                #[trigger] old(registry).values()[i],
            ),
        old(trie).wf(),
    ensures
        final(registry).wf(),
        forall|i: int|
            0 <= i < final(registry).values().len() ==> references_wf(
                #[trigger] final(registry).values()[i],
            ),
        final(trie).wf(),
        registry_settled(*old(registry), *final(registry), dir@),
        locators(*final(trie)) == with_registry(
            locators(*old(trie)),
            *final(registry),
            final(registry).keys().len() as int,
        ),
{
    let n = registry.len();
    let mut a: usize = 0;
    proof {
        registry.lemma_wf();
    }
    while a < n
        invariant
            a <= n,
            n == registry.keys().len(),
            registry.wf(),
            registry.keys() == old(registry).keys(),
            registry.values().len() == n,
            old(registry).values().len() == n,
            trie.wf(),
            forall|i: int| 0 <= i < n ==> references_wf(#[trigger] registry.values()[i]),
            forall|i: int|
                0 <= i < a ==> references_settled(
                    old(registry).values()[i],
                    #[trigger] registry.values()[i],
                    dir@,
                ),
            forall|i: int| a <= i < n ==> #[trigger] registry.values()[i] == old(
                registry,
            ).values()[i],
            locators(*trie) == with_registry(locators(*old(trie)), *registry, a as int),
        decreases n - a,
    {
        let ghost before = *registry;
        let name = registry.key_at(a).clone();
        settle_references(registry.value_at_mut(a), trie, dir, name.as_str());
        proof {
            lemma_with_registry_same(locators(*old(trie)), before, *registry, a as int);
        }
        a = a + 1;
    }
}

/// Adds to `pool` what `dependencies` holds under names that `pool` lacks.
fn fill_pool(pool: &mut Dependencies, dependencies: &Dependencies)
    requires
        old(pool).wf(),
        dependencies.wf(),
    ensures
        final(pool).wf(),
        forall|k: Seq<char>|
            #[trigger] final(pool).lookup(k) == match old(pool).lookup(k) {
                Some(v) => Some(v),
                None => dependencies.lookup(k),
            },
{
    let n = dependencies.len();
    let mut i: usize = 0;
    proof {
        dependencies.lemma_wf();
    }
    while i < n
        invariant
            i <= n,
            n == dependencies.keys().len(),
            dependencies.wf(),
            pool.wf(),
            forall|k: Seq<char>|
                #[trigger] pool.lookup(k) == match old(pool).lookup(k) {
                    Some(v) => Some(v),
                    None => if dependencies.keys().take(i as int).contains(k) {
                        dependencies.lookup(k)
                    } else {
                        None
                    },
                },
        decreases n - i,
    {
        let name = dependencies.key_at(i);
        let ghost seen = dependencies.keys().take(i as int);
        let ghost next = dependencies.keys().take(i + 1);
        proof {
            dependencies.lemma_lookup_at(i as int);
            assert(next =~= seen.push(name@));
            assert forall|k: Seq<char>| next.contains(k) == (seen.contains(k) || k == name@) by {
                if seen.contains(k) {
                    let x = seen.index_of(k);
                    assert(next[x] == k);
                }
                if k == name@ {
                    assert(next[i as int] == k);
                }
                if next.contains(k) {
                    let x = next.index_of(k);
                    if x < i {
                        assert(seen[x] == k);
                    }
                }
            }
            assert(!seen.contains(name@)) by {
                dependencies.lemma_wf();
                if seen.contains(name@) {
                    let x = seen.index_of(name@);
                    assert(seen[x] == name@);
                    assert(dependencies.keys()[x] == dependencies.keys()[i as int]);
                }
            }
        }
        if pool.find(name.as_str()).is_none() {
            let value = match dependencies.value_at(i) {
                Some(dependency) => Some(dependency.duplicate()),
                None => None,
            };
            pool.insert(name.clone(), value);
        }
        i = i + 1;
    }
    proof {
        assert(dependencies.keys().take(n as int) =~= dependencies.keys());
    }
}

/// Makes a manifest that was read from the file at `p` ready for lookups:
/// records the path and its directory, settles the location of every
/// package against that directory, enters the packages that lookup may
/// find in the trie of locations, and lets the fallback pool take over
/// what the top-level package depends on.
///
/// A path without a directory and a registry without the top-level package
/// are failures of hydration; the manifest is then left as it was.
pub fn init_pnp_manifest(manifest: &mut Manifest, p: &str) -> (r: Result<(), Error>)
    requires
        old(manifest).wf(),
    ensures
        hydration_outcome(*old(manifest), *final(manifest), p@, parent_path(p@), r),
        r is Ok ==> final(manifest).wf(),
{
    init_pnp_manifest_in(manifest, p, parent_of(p))
}

/// The view of a text that may be missing.
pub open spec fn optional_text(s: Option<String>) -> Option<Seq<char>> {
    match s {
        Some(t) => Some(t@),
        None => None,
    }
}

/// Whether `r` and `after` are what making `before` ready for lookups
/// under the path `p` gives, where `dir` is the directory of `p` if it has
/// one.
pub open spec fn hydration_outcome(
    before: Manifest,
    after: Manifest,
    p: Seq<char>,
    dir: Option<Seq<char>>,
    r: Result<(), Error>,
) -> bool {
    match r {
        Ok(_) => dir is Some && hydrated(before, after, p, dir->Some_0),
        Err(e) => after == before && if dir is None {
            e@ == (ErrorView::FailedManifestHydration {
                message: no_directory_message(),
                manifest_path: p,
            })
        } else {
            top_level_dependencies(before.package_registry_data) is None && e@ == (
            ErrorView::FailedManifestHydration {
                message: no_top_level_message(),
                manifest_path: p,
            })
        },
    }
}

/// Makes a manifest that was read from the file at `p` ready for lookups,
/// given the directory `dir` of `p`, if it has one.
pub fn init_pnp_manifest_in(manifest: &mut Manifest, p: &str, dir: Option<String>) -> (r: Result<
    (),
    Error,
>)
    requires
        old(manifest).wf(),
    ensures
        hydration_outcome(*old(manifest), *final(manifest), p@, optional_text(dir), r),
        r is Ok ==> final(manifest).wf(),
{
    let dir = match dir {
        Some(dir) => dir,
        None => {
            return Err(hydration_failure("The manifest path should have a parent directory", p));
        },
    };
    let empty = String::new();
    let top = match manifest.package_registry_data.find(empty.as_str()) {
        Some(a) => {
            proof {
                manifest.package_registry_data.lemma_wf();
                manifest.package_registry_data.lemma_lookup_at(a as int);
                assert(references_wf(manifest.package_registry_data.values()[a as int]));
            }
            match manifest.package_registry_data.value_at(a).find(empty.as_str()) {
                Some(b) => {
                    proof {
                        manifest.package_registry_data.values()[a as int].lemma_lookup_at(b as int);
                    }
                    Some((a, b))
                },
                None => None,
            }
        },
        None => None,
    };
    let (a, b) = match top {
        Some(place) => place,
        None => {
            return Err(hydration_failure("The manifest should list the top-level package", p));
        },
    };
    let ghost before = *manifest;
    proof {
        before.package_registry_data.lemma_wf();
        assert(a < before.package_registry_data.keys().len());
        assert(references_wf(before.package_registry_data.values()[a as int]));
        before.package_registry_data.values()[a as int].lemma_wf();
        assert(b < before.package_registry_data.values()[a as int].keys().len());
    }
    let mut path = String::new();
    vstd::string::StringExecFns::append(&mut path, p);
    assert(path@ =~= p@);
    manifest.manifest_path = path;
    settle_registry(&mut manifest.package_registry_data, &mut manifest.location_trie, dir.as_str());
    proof {
        manifest.package_registry_data.lemma_wf();
        assert(references_settled(
            before.package_registry_data.values()[a as int],
            manifest.package_registry_data.values()[a as int],
            dir@,
        ));
        assert(package_settled(
            before.package_registry_data.values()[a as int].values()[b as int],
            manifest.package_registry_data.values()[a as int].values()[b as int],
            dir@,
        ));
        assert(references_wf(manifest.package_registry_data.values()[a as int]));
        manifest.package_registry_data.values()[a as int].lemma_wf();
        assert(manifest.package_registry_data.values()[a as int].values()[b as int].wf());
    }
    fill_pool(
        &mut manifest.fallback_pool,
        &manifest.package_registry_data.value_at(a).value_at(b).package_dependencies,
    );
    manifest.manifest_dir = dir;
    Ok(())
}

/// Whether the package at position `b` of `references` is one that lookup
/// may find, and stands under the key `k`.
pub open spec fn stands_at(references: OrderedMap<PackageInformation>, b: int, k: Seq<char>) -> bool {
    &&& !references.values()[b].discard_from_lookup
    &&& k == trie_key(references.values()[b].package_location@)
}

/// Whether the package at position `b` under the name at position `a` of
/// a registry is one that lookup may find, and stands under the key `k`.
pub open spec fn enters(
    registry: OrderedMap<OrderedMap<PackageInformation>>,
    a: int,
    b: int,
    k: Seq<char>,
) -> bool {
    &&& 0 <= a < registry.values().len()
    &&& 0 <= b < registry.values()[a].values().len()
    &&& stands_at(registry.values()[a], b, k)
}

/// The locator of the package at position `b` under the name at position
/// `a` of a registry.
pub open spec fn locator_at(registry: OrderedMap<OrderedMap<PackageInformation>>, a: int, b: int) -> (
    Seq<char>,
    Seq<char>,
) {
    (registry.keys()[a], registry.values()[a].keys()[b])
}

/// Entering the first `n` packages of one name leaves a key as it was
/// where none of them stands under it.
pub proof fn lemma_references_leave(
    trie: Map<Seq<char>, (Seq<char>, Seq<char>)>,
    name: Seq<char>,
    references: OrderedMap<PackageInformation>,
    n: int,
    k: Seq<char>,
)
    requires
        0 <= n <= references.values().len(),
        forall|b: int| 0 <= b < n ==> !#[trigger] stands_at(references, b, k),
    ensures
        with_references(trie, name, references, n).contains_key(k) == trie.contains_key(k),
        with_references(trie, name, references, n)[k] == trie[k],
    decreases n,
{
    if n > 0 {
        assert(!stands_at(references, n - 1, k));
        lemma_references_leave(trie, name, references, n - 1, k);
    }
}

/// Entering the first `n` packages of one name leaves under a key the
/// locator of the last of them that stands under it.
pub proof fn lemma_references_last(
    trie: Map<Seq<char>, (Seq<char>, Seq<char>)>,
    name: Seq<char>,
    references: OrderedMap<PackageInformation>,
    n: int,
    b: int,
    k: Seq<char>,
)
    requires
        0 <= b < n <= references.values().len(),
        stands_at(references, b, k),
        forall|later: int| b < later < n ==> !#[trigger] stands_at(references, later, k),
    ensures
        with_references(trie, name, references, n).contains_key(k),
        with_references(trie, name, references, n)[k] == (name, references.keys()[b]),
    decreases n,
{
    if b < n - 1 {
        assert(!stands_at(references, n - 1, k));
        lemma_references_last(trie, name, references, n - 1, b, k);
    }
}

/// Every key that hydration adds to the trie of locations is the key of a
/// package that lookup may find, and stands for the locator of a package
/// with that key.
pub proof fn trie_holds_lookup_packages(
    trie: Map<Seq<char>, (Seq<char>, Seq<char>)>,
    registry: OrderedMap<OrderedMap<PackageInformation>>,
    n: int,
    k: Seq<char>,
)
    requires
        0 <= n <= registry.values().len(),
        registry.keys().len() == registry.values().len(),
        forall|a: int|
            0 <= a < registry.values().len() ==> (#[trigger] registry.values()[a]).keys().len()
                == registry.values()[a].values().len(),
        with_registry(trie, registry, n).contains_key(k),
    ensures
        (trie.contains_key(k) && with_registry(trie, registry, n)[k] == trie[k]) || exists|
            a: int,
            b: int,
        |
            a < n && #[trigger] enters(registry, a, b, k) && with_registry(trie, registry, n)[k]
                == locator_at(registry, a, b),
    decreases n,
{
    if n > 0 {
        let references = registry.values()[n - 1];
        let before = with_registry(trie, registry, n - 1);
        let m = references.keys().len() as int;
        lemma_references_source(before, registry.keys()[n - 1], references, m, k);
        if before.contains_key(k) && with_registry(trie, registry, n)[k] == before[k] {
            trie_holds_lookup_packages(trie, registry, n - 1, k);
        } else {
            let b = choose|b: int|
                0 <= b < m && #[trigger] stands_at(references, b, k) && with_references(
                    before,
                    registry.keys()[n - 1],
                    references,
                    m,
                )[k] == (registry.keys()[n - 1], references.keys()[b]);
            assert(enters(registry, n - 1, b, k));
        }
    }
}

/// A key in the trie after the first `n` packages of one name were entered
/// was there before with the same locator, or is the key of one of those
/// packages that lookup may find.
pub proof fn lemma_references_source(
    trie: Map<Seq<char>, (Seq<char>, Seq<char>)>,
    name: Seq<char>,
    references: OrderedMap<PackageInformation>,
    n: int,
    k: Seq<char>,
)
    requires
        0 <= n <= references.values().len(),
        with_references(trie, name, references, n).contains_key(k),
    ensures
        (trie.contains_key(k) && with_references(trie, name, references, n)[k] == trie[k])
            || exists|b: int|
            0 <= b < n && #[trigger] stands_at(references, b, k) && with_references(
                trie,
                name,
                references,
                n,
            )[k] == (name, references.keys()[b]),
    decreases n,
{
    if n > 0 {
        if stands_at(references, n - 1, k) {
        } else {
            lemma_references_source(trie, name, references, n - 1, k);
        }
    }
}

/// What entering the packages of the first `n` names leaves under the key
/// of the package at `(a, b)`, which lookup may find: the locator of that
/// package, provided that no package behind it that lookup may find shares
/// its location.
pub proof fn lemma_with_registry_at(
    trie: Map<Seq<char>, (Seq<char>, Seq<char>)>,
    registry: OrderedMap<OrderedMap<PackageInformation>>,
    n: int,
    a: int,
    b: int,
    k: Seq<char>,
)
    requires
        0 <= a < n <= registry.values().len(),
        registry.keys().len() == registry.values().len(),
        forall|i: int|
            0 <= i < registry.values().len() ==> (#[trigger] registry.values()[i]).keys().len()
                == registry.values()[i].values().len(),
        enters(registry, a, b, k),
        forall|i: int, j: int|
            #[trigger] enters(registry, i, j, k) ==> i < a || (i == a && j <= b),
    ensures
        with_registry(trie, registry, n).contains_key(k),
        with_registry(trie, registry, n)[k] == locator_at(registry, a, b),
    decreases n,
{
    let references = registry.values()[n - 1];
    let before = with_registry(trie, registry, n - 1);
    let m = references.keys().len() as int;
    if a == n - 1 {
        assert forall|later: int| b < later < m implies !#[trigger] stands_at(
            references,
            later,
            k,
        ) by {
            if stands_at(references, later, k) {
                assert(enters(registry, a, later, k));
            }
        }
        lemma_references_last(before, registry.keys()[n - 1], references, m, b, k);
    } else {
        lemma_with_registry_at(trie, registry, n - 1, a, b, k);
        assert forall|j: int| 0 <= j < m implies !#[trigger] stands_at(references, j, k) by {
            if stands_at(references, j, k) {
                assert(enters(registry, n - 1, j, k));
            }
        }
        lemma_references_leave(before, registry.keys()[n - 1], references, m, k);
    }
}

/// The name or reference that a manifest file writes: a missing one stands
/// for the top level and is the empty string.
pub fn name_or_empty(name: Option<String>) -> (r: String)
    ensures
        r@ == match name {
            Some(n) => n@,
            None => Seq::<char>::empty(),
        },
{
    match name {
        Some(n) => n,
        None => String::new(),
    }
}

/// Pairs whose key may be missing, with the views of their keys.
pub open spec fn optional_pair_views<V>(items: Seq<(Option<String>, V)>) -> Seq<(Seq<char>, V)> {
    Seq::new(
        items.len(),
        |i: int|
            (
                match items[i].0 {
                    Some(n) => n@,
                    None => Seq::<char>::empty(),
                },
                items[i].1,
            ),
    )
}

fn named_pairs<V>(items: Vec<(Option<String>, V)>) -> (r: Vec<(String, V)>)
    ensures
        pair_views(r@) == optional_pair_views(items@),
{
    let mut r: Vec<(String, V)> = Vec::new();
    let ghost all = optional_pair_views(items@);
    assert(pair_views(r@) =~= all.take(0));
    for item in it: items
        invariant
            optional_pair_views(it.seq()) == all,
            pair_views(r@) == all.take(it.index() as int),
    {
        let ghost before = pair_views(r@);
        let ghost k = it.index() as int;
        r.push((name_or_empty(item.0), item.1));
        assert(pair_views(r@) =~= before.push(all[k]));
        assert(all.take(k + 1) =~= all.take(k).push(all[k]));
    }
    assert(all.take(all.len() as int) =~= all);
    r
}

/// The packages of one name by reference, as a manifest file lists them:
/// in the order of the list, a missing reference being the empty one.
pub fn references_from_pairs(items: Vec<(Option<String>, PackageInformation)>) -> (m: OrderedMap<
    PackageInformation,
>)
    requires
        forall|i: int| 0 <= i < items.len() ==> (#[trigger] items[i]).1.wf(),
    ensures
        references_wf(m),
        m@ == map_of_pairs(optional_pair_views(items@)),
        m.keys() == crate::collections::keys_of_pairs(optional_pair_views(items@)),
{
    let m = OrderedMap::from_pairs(named_pairs(items));
    proof {
        let all = optional_pair_views(items@);
        assert forall|j: int| 0 <= j < m.values().len() implies (#[trigger] m.values()[j]).wf() by {
            m.lemma_values_in_map(j);
            lemma_map_of_pairs_values(all, m.keys()[j]);
            let i = choose|i: int| 0 <= i < all.len() && (#[trigger] all[i]).1 == m@[m.keys()[j]];
            assert(items[i].1.wf());
        }
    }
    m
}

/// The registry of packages by name and reference, as a manifest file
/// lists it: in the order of the list, a missing name being the empty one.
pub fn registry_from_pairs(items: Vec<(Option<String>, OrderedMap<PackageInformation>)>) -> (m:
    OrderedMap<OrderedMap<PackageInformation>>)
    requires
        forall|i: int| 0 <= i < items.len() ==> references_wf((#[trigger] items[i]).1),
    ensures
        m.wf(),
        forall|i: int| 0 <= i < m.values().len() ==> references_wf(#[trigger] m.values()[i]),
        m@ == map_of_pairs(optional_pair_views(items@)),
        m.keys() == crate::collections::keys_of_pairs(optional_pair_views(items@)),
{
    let m = OrderedMap::from_pairs(named_pairs(items));
    proof {
        let all = optional_pair_views(items@);
        assert forall|j: int| 0 <= j < m.values().len() implies references_wf(
            #[trigger] m.values()[j],
        ) by {
            m.lemma_values_in_map(j);
            lemma_map_of_pairs_values(all, m.keys()[j]);
            let i = choose|i: int| 0 <= i < all.len() && (#[trigger] all[i]).1 == m@[m.keys()[j]];
            assert(references_wf(items[i].1));
        }
    }
    m
}

impl Manifest {
    /// A manifest as its file tells it, before it is made ready for
    /// lookups: without paths and with an empty trie of locations.
    pub fn new(
        enable_top_level_fallback: bool,
        ignore_pattern_data: Option<RegexDef>,
        dependency_tree_roots: Vec<PackageLocator>,
        fallback_pool: Dependencies,
        fallback_exclusion_list: OrderedMap<Vec<String>>,
        package_registry_data: OrderedMap<OrderedMap<PackageInformation>>,
    ) -> (m: Manifest)
        requires
            fallback_pool.wf(),
            fallback_exclusion_list.wf(),
            package_registry_data.wf(),
            forall|i: int|
                0 <= i < package_registry_data.values().len() ==> references_wf(
                    #[trigger] package_registry_data.values()[i],
                ),
        ensures
            m.wf(),
            m.manifest_dir@ == Seq::<char>::empty(),
            m.manifest_path@ == Seq::<char>::empty(),
            m.location_trie@ == Map::<Seq<char>, PackageLocator>::empty(),
            m.enable_top_level_fallback == enable_top_level_fallback,
            m.ignore_pattern_data == ignore_pattern_data,
            m.dependency_tree_roots == dependency_tree_roots,
            m.fallback_pool == fallback_pool,
            m.fallback_exclusion_list == fallback_exclusion_list,
            m.package_registry_data == package_registry_data,
    {
        Manifest {
            manifest_dir: String::new(),
            manifest_path: String::new(),
            location_trie: PathTrie::new(),
            enable_top_level_fallback,
            ignore_pattern_data,
            dependency_tree_roots,
            fallback_pool,
            fallback_exclusion_list,
            package_registry_data,
        }
    }
}

} // verus!
